//! What a loaded extension may do: its capabilities, its outgoing HTTP traffic
//! and its resource limits.

use crate::text::{
    bytes_end_with, bytes_start_with, ends_with, lemma_encode_concat, lemma_encode_nonempty,
    starts_with, str_eq,
};
use vstd::prelude::*;
use vstd::string::*;
use vstd::utf8::encode_utf8;

verus! {

/// A capability that can be granted to an extension.
#[derive(Debug, Clone, Copy, PartialEq, Eq, Hash, Structural)]
pub enum Capability {
    Spi,
    Prepared,
    Transaction,
    Schema,
    State,
    Cache,
    Random,
    Text,
    Hashing,
    Encoding,
    Http,
}

/// What an extension's outgoing HTTP traffic is held to.
#[derive(Debug, Clone)]
pub struct HttpPolicy {
    pub allowed_hosts: Vec<String>,
    pub allowed_methods: Option<Vec<String>>,
    pub max_body_bytes: Option<u64>,
    pub timeout_ms: Option<u32>,
}

impl Default for HttpPolicy {
    fn default() -> (r: Self)
        ensures
            r.allowed_hosts@.len() == 0,
            r.allowed_methods is None,
            r.max_body_bytes is None,
            r.timeout_ms is None,
    {
        HttpPolicy {
            allowed_hosts: Vec::new(),
            allowed_methods: None,
            max_body_bytes: None,
            timeout_ms: None,
        }
    }
}

/// The pattern `entry` covers `host`: a pattern that starts with `*.` covers the
/// hosts that end with what follows the star and are longer than that; any other
/// pattern covers itself.
pub open spec fn covers(entry: Seq<char>, host: Seq<char>) -> bool {
    let pattern = encode_utf8(entry);
    if starts_with(pattern, encode_utf8("*."@)) {
        let suffix = pattern.skip(encode_utf8("*"@).len() as int);
        ends_with(encode_utf8(host), suffix) && encode_utf8(host).len() > suffix.len()
    } else {
        entry == host
    }
}

impl HttpPolicy {
    /// Some pattern covers `host`.
    pub open spec fn covered(&self, host: Seq<char>) -> bool {
        exists|i: int|
            0 <= i < self.allowed_hosts@.len() && covers(#[trigger] self.allowed_hosts@[i]@, host)
    }

    /// Whether requests to `host` are allowed. `*.example.com` matches
    /// `api.example.com` but neither `example.com` itself nor `notexample.com`.
    pub fn allows(&self, host: &str) -> (r: bool)
        ensures
            r == self.covered(host@),
    {
        let mut i: usize = 0;
        while i < self.allowed_hosts.len()
            invariant
                i <= self.allowed_hosts.len(),
                forall|j: int|
                    0 <= j < i ==> !covers(#[trigger] self.allowed_hosts@[j]@, host@),
            decreases self.allowed_hosts.len() - i,
        {
            let entry: &str = self.allowed_hosts[i].as_str();
            let bytes: &[u8] = entry.as_bytes();
            let star: &[u8] = "*".as_bytes();
            if bytes_start_with(bytes, "*.".as_bytes()) {
                proof {
                    lemma_star();
                }
                let suffix = vstd::slice::slice_subrange(bytes, star.len(), bytes.len());
                assert(suffix@ =~= encode_utf8(entry@).skip(encode_utf8("*"@).len() as int));
                if bytes_end_with(host.as_bytes(), suffix) && host.as_bytes().len() > suffix.len() {
                    assert(covers(self.allowed_hosts@[i as int]@, host@));
                    return true;
                }
            } else if str_eq(entry, host) {
                assert(covers(self.allowed_hosts@[i as int]@, host@));
                return true;
            }
            i = i + 1;
        }
        false
    }
}

/// A set of granted capabilities.
#[derive(Debug, Clone)]
pub struct Grants {
    caps: Vec<Capability>,
}

impl View for Grants {
    type V = Set<Capability>;

    closed spec fn view(&self) -> Set<Capability> {
        self.caps@.to_set()
    }
}

impl Grants {
    /// No capability.
    pub fn none() -> (r: Self)
        ensures
            r@ == Set::<Capability>::empty(),
    {
        let r = Grants { caps: Vec::new() };
        assert(r@ =~= Set::<Capability>::empty());
        r
    }

    /// Whether `cap` is granted.
    pub fn contains(&self, cap: Capability) -> (r: bool)
        ensures
            r == self@.contains(cap),
    {
        let mut i: usize = 0;
        while i < self.caps.len()
            invariant
                i <= self.caps.len(),
                forall|j: int| 0 <= j < i ==> #[trigger] self.caps@[j] != cap,
            decreases self.caps.len() - i,
        {
            if self.caps[i] == cap {
                assert(self.caps@[i as int] == cap);
                return true;
            }
            i = i + 1;
        }
        false
    }

    /// Grants `cap` too.
    pub fn insert(&mut self, cap: Capability)
        ensures
            final(self)@ == old(self)@.insert(cap),
    {
        if self.contains(cap) {
            assert(self@ =~= self@.insert(cap));
            return;
        }
        proof {
            lemma_push_set(self.caps@, cap);
        }
        self.caps.push(cap);
    }
}

/// What an extension may do.
#[derive(Debug, Clone)]
pub struct Policy {
    pub granted: Grants,
    pub http: Option<HttpPolicy>,
    pub fuel_per_call: Option<u64>,
    pub memory_limit_bytes: Option<u64>,
    pub epoch_deadline_ms: Option<u64>,
}

impl Policy {
    /// The capabilities that are granted.
    pub open spec fn grants(&self) -> Set<Capability> {
        self.granted@
    }

    /// Nothing but the granted capabilities differs.
    pub open spec fn same_limits(&self, other: &Policy) -> bool {
        &&& self.http == other.http
        &&& self.fuel_per_call == other.fuel_per_call
        &&& self.memory_limit_bytes == other.memory_limit_bytes
        &&& self.epoch_deadline_ms == other.epoch_deadline_ms
    }

    /// Nothing is granted and nothing limited.
    pub fn deny_all() -> (r: Self)
        ensures
            r.grants() == Set::<Capability>::empty(),
            r.http is None,
            r.fuel_per_call is None,
            r.memory_limit_bytes is None,
            r.epoch_deadline_ms is None,
    {
        let r = Policy {
            granted: Grants::none(),
            http: None,
            fuel_per_call: None,
            memory_limit_bytes: None,
            epoch_deadline_ms: None,
        };
        r
    }

    /// Grants `caps` too.
    pub fn with_grants(self, caps: Vec<Capability>) -> (r: Self)
        ensures
            r.grants() == self.grants().union(caps@.to_set()),
            r.same_limits(&self),
    {
        let mut r = self;
        let mut i: usize = 0;
        assert(caps@.take(0).to_set() =~= Set::<Capability>::empty());
        assert(r.grants() =~= self.grants().union(caps@.take(0).to_set()));
        while i < caps.len()
            invariant
                i <= caps.len(),
                r.same_limits(&self),
                r.grants() == self.grants().union(caps@.take(i as int).to_set()),
            decreases caps.len() - i,
        {
            let c: Capability = caps[i];
            proof {
                assert(caps@.take(i + 1) =~= caps@.take(i as int).push(c));
                lemma_push_set(caps@.take(i as int), c);
            }
            r.granted.insert(c);
            assert(r.grants() =~= self.grants().union(caps@.take(i + 1).to_set()));
            i = i + 1;
        }
        assert(caps@.take(i as int) =~= caps@);
        r
    }

    /// Holds outgoing HTTP traffic to `http`.
    pub fn with_http(self, http: HttpPolicy) -> (r: Self)
        ensures
            r.grants() == self.grants(),
            r.same_limits(&Policy { http: Some(http), ..self }),
    {
        let mut r = self;
        r.http = Some(http);
        r
    }

    /// Limits the fuel of every call.
    pub fn with_fuel_per_call(self, fuel: u64) -> (r: Self)
        ensures
            r.grants() == self.grants(),
            r.same_limits(&Policy { fuel_per_call: Some(fuel), ..self }),
    {
        let mut r = self;
        r.fuel_per_call = Some(fuel);
        r
    }

    /// Limits the memory.
    pub fn with_memory_limit_bytes(self, n: u64) -> (r: Self)
        ensures
            r.grants() == self.grants(),
            r.same_limits(&Policy { memory_limit_bytes: Some(n), ..self }),
    {
        let mut r = self;
        r.memory_limit_bytes = Some(n);
        r
    }

    /// Limits the time of every call.
    pub fn with_epoch_deadline_ms(self, ms: u64) -> (r: Self)
        ensures
            r.grants() == self.grants(),
            r.same_limits(&Policy { epoch_deadline_ms: Some(ms), ..self }),
    {
        let mut r = self;
        r.epoch_deadline_ms = Some(ms);
        r
    }

    /// Whether `cap` is granted.
    pub fn is_granted(&self, cap: Capability) -> (r: bool)
        ensures
            r == self.grants().contains(cap),
    {
        self.granted.contains(cap)
    }

    /// The capabilities among `declared` that are not granted, in order.
    pub fn missing<'a>(&self, declared: &'a [Capability]) -> (r: Vec<&'a Capability>)
        ensures
            r@.map_values(|c: &Capability| *c) == declared@.filter(
                |c: Capability| !self.grants().contains(c),
            ),
    {
        let mut r: Vec<&'a Capability> = Vec::new();
        let mut i: usize = 0;
        let ghost p = |c: Capability| !self.grants().contains(c);
        proof {
            assert(declared@.take(0) =~= Seq::empty());
            reveal(Seq::filter);
            assert(r@.map_values(|c: &Capability| *c) =~= declared@.take(0).filter(p));
        }
        while i < declared.len()
            invariant
                i <= declared.len(),
                p == |c: Capability| !self.grants().contains(c),
                r@.map_values(|c: &Capability| *c) == declared@.take(i as int).filter(p),
            decreases declared.len() - i,
        {
            let c: &'a Capability = &declared[i];
            let ghost before = r@;
            proof {
                reveal(Seq::filter);
                assert(declared@.take(i + 1).drop_last() =~= declared@.take(i as int));
                assert(declared@.take(i + 1).last() == *c);
            }
            if !self.is_granted(*c) {
                r.push(c);
                assert(r@.map_values(|c: &Capability| *c) =~= before.map_values(
                    |c: &Capability| *c,
                ).push(*c));
            }
            i = i + 1;
        }
        assert(declared@.take(i as int) =~= declared@);
        r
    }
}

/// What a sequence holds with one more item.
proof fn lemma_push_set(s: Seq<Capability>, c: Capability)
    ensures
        s.push(c).to_set() == s.to_set().insert(c),
{
    let t = s.push(c);
    assert forall|x: Capability| t.to_set().contains(x) <==> s.to_set().insert(c).contains(x) by {
        if s.to_set().contains(x) {
            let i = choose|i: int| 0 <= i < s.len() && s[i] == x;
            assert(t[i] == x);
        }
        if t.to_set().contains(x) {
            let i = choose|i: int| 0 <= i < t.len() && t[i] == x;
            assert(i < s.len() ==> s[i] == x);
        }
        assert(t[s.len() as int] == c);
    }
    assert(t.to_set() =~= s.to_set().insert(c));
}

/// Nothing is missing exactly where everything declared is granted.
pub proof fn lemma_none_missing(grants: Set<Capability>, declared: Seq<Capability>)
    ensures
        declared.filter(|c: Capability| !grants.contains(c)).len() == 0
            <==> declared.to_set().subset_of(grants),
    decreases declared.len(),
{
    let p = |c: Capability| !grants.contains(c);
    reveal(Seq::filter);
    if declared.len() > 0 {
        let init = declared.drop_last();
        lemma_none_missing(grants, init);
        assert(declared =~= init.push(declared.last()));
        lemma_push_set(init, declared.last());
        assert(declared.to_set().contains(declared.last()));
        assert(init.to_set().subset_of(declared.to_set()));
    }
}

/// The star is the first of the two characters that make a wildcard.
proof fn lemma_star()
    ensures
        "*."@ == "*"@ + "."@,
        encode_utf8("*."@) == encode_utf8("*"@) + encode_utf8("."@),
{
    reveal_strlit("*.");
    reveal_strlit("*");
    reveal_strlit(".");
    assert("*."@ =~= "*"@ + "."@);
    lemma_encode_concat("*"@, "."@);
}

/// The encoding of a pattern with a wildcard.
proof fn lemma_wildcard(host: Seq<char>)
    ensures
        starts_with(encode_utf8("*."@ + host), encode_utf8("*."@)),
        encode_utf8("*."@ + host).skip(encode_utf8("*"@).len() as int) == encode_utf8(
            "."@ + host,
        ),
{
    let star = encode_utf8("*."@);
    let whole = encode_utf8("*."@ + host);
    lemma_star();
    lemma_encode_concat("*."@, host);
    lemma_encode_concat("."@, host);
    assert(whole.subrange(0, star.len() as int) =~= star);
    assert(whole.skip(encode_utf8("*"@).len() as int) =~= encode_utf8("."@ + host));
}

/// A pattern with a wildcard never covers the host that it is a wildcard for.
pub proof fn lemma_wildcard_excludes_itself(host: Seq<char>)
    ensures
        !covers("*."@ + host, host),
{
    lemma_wildcard(host);
    lemma_encode_concat("."@, host);
}

/// A pattern with a wildcard covers every host below the one that it is a
/// wildcard for.
pub proof fn lemma_wildcard_covers_longer(prefix: Seq<char>, host: Seq<char>)
    requires
        prefix.len() > 0,
    ensures
        covers("*."@ + host, prefix + "."@ + host),
{
    lemma_wildcard(host);
    assert(prefix + "."@ + host =~= prefix + ("."@ + host));
    lemma_encode_concat(prefix, "."@ + host);
    lemma_encode_nonempty(prefix);
    let whole = encode_utf8(prefix + "."@ + host);
    let suffix = encode_utf8("."@ + host);
    assert(whole.subrange(whole.len() - suffix.len(), whole.len() as int) =~= suffix);
}

/// A host that a pattern with a wildcard covers ends, as bytes, with a dot and
/// the host that it is a wildcard for, and does not only consist of them.
pub proof fn lemma_wildcard_covers_only_below(host: Seq<char>, other: Seq<char>)
    requires
        covers("*."@ + host, other),
    ensures
        ends_with(encode_utf8(other), encode_utf8("."@ + host)),
        encode_utf8(other).len() > encode_utf8("."@ + host).len(),
{
    lemma_wildcard(host);
}

} // verus!
