//! The library interface: loading extensions through the host. Its types are
//! twins of the host's, and converted one for one.

use crate::tables::reversed;
use vstd::prelude::*;

verus! {

/// A capability, as the library interface names it.
#[derive(Copy, Clone, Debug, PartialEq, Eq, Structural)]
pub enum LibCapability {
    Spi,
    Prepared,
    Transaction,
    Schema,
    State,
    Cache,
    Random,
    Text,
    Hashing,
    Encoding,
    Http,
    Dns,
}

/// A capability, as the host names it.
#[derive(Copy, Clone, Debug, PartialEq, Eq, Structural)]
pub enum PolCapability {
    Spi,
    Prepared,
    Transaction,
    Schema,
    State,
    Cache,
    Random,
    Text,
    Hashing,
    Encoding,
    Http,
    Dns,
}

/// An HTTP method, as the library interface names it.
#[derive(Copy, Clone, Debug, PartialEq, Eq, Structural)]
pub enum LibMethod {
    Get,
    Head,
    Post,
    Put,
    Delete,
    Connect,
    Options,
    Trace,
    Patch,
}

/// An HTTP method, as the host names it.
#[derive(Copy, Clone, Debug, PartialEq, Eq, Structural)]
pub enum PolMethod {
    Get,
    Head,
    Post,
    Put,
    Delete,
    Connect,
    Options,
    Trace,
    Patch,
}

/// The library interface's capability, for the host.
pub open spec fn pol_capability(c: LibCapability) -> PolCapability {
    match c {
        LibCapability::Spi => PolCapability::Spi,
        LibCapability::Prepared => PolCapability::Prepared,
        LibCapability::Transaction => PolCapability::Transaction,
        LibCapability::Schema => PolCapability::Schema,
        LibCapability::State => PolCapability::State,
        LibCapability::Cache => PolCapability::Cache,
        LibCapability::Random => PolCapability::Random,
        LibCapability::Text => PolCapability::Text,
        LibCapability::Hashing => PolCapability::Hashing,
        LibCapability::Encoding => PolCapability::Encoding,
        LibCapability::Http => PolCapability::Http,
        LibCapability::Dns => PolCapability::Dns,
    }
}

/// The library interface's capability, for the host.
pub fn cap_to_pol(c: LibCapability) -> (r: PolCapability)
    ensures
        r == pol_capability(c),
{
    match c {
        LibCapability::Spi => PolCapability::Spi,
        LibCapability::Prepared => PolCapability::Prepared,
        LibCapability::Transaction => PolCapability::Transaction,
        LibCapability::Schema => PolCapability::Schema,
        LibCapability::State => PolCapability::State,
        LibCapability::Cache => PolCapability::Cache,
        LibCapability::Random => PolCapability::Random,
        LibCapability::Text => PolCapability::Text,
        LibCapability::Hashing => PolCapability::Hashing,
        LibCapability::Encoding => PolCapability::Encoding,
        LibCapability::Http => PolCapability::Http,
        LibCapability::Dns => PolCapability::Dns,
    }
}

/// The host's capability, for the library interface.
pub open spec fn lib_capability(c: PolCapability) -> LibCapability {
    match c {
        PolCapability::Spi => LibCapability::Spi,
        PolCapability::Prepared => LibCapability::Prepared,
        PolCapability::Transaction => LibCapability::Transaction,
        PolCapability::Schema => LibCapability::Schema,
        PolCapability::State => LibCapability::State,
        PolCapability::Cache => LibCapability::Cache,
        PolCapability::Random => LibCapability::Random,
        PolCapability::Text => LibCapability::Text,
        PolCapability::Hashing => LibCapability::Hashing,
        PolCapability::Encoding => LibCapability::Encoding,
        PolCapability::Http => LibCapability::Http,
        PolCapability::Dns => LibCapability::Dns,
    }
}

/// The host's capability, for the library interface.
pub fn cap_to_lib(c: PolCapability) -> (r: LibCapability)
    ensures
        r == lib_capability(c),
{
    match c {
        PolCapability::Spi => LibCapability::Spi,
        PolCapability::Prepared => LibCapability::Prepared,
        PolCapability::Transaction => LibCapability::Transaction,
        PolCapability::Schema => LibCapability::Schema,
        PolCapability::State => LibCapability::State,
        PolCapability::Cache => LibCapability::Cache,
        PolCapability::Random => LibCapability::Random,
        PolCapability::Text => LibCapability::Text,
        PolCapability::Hashing => LibCapability::Hashing,
        PolCapability::Encoding => LibCapability::Encoding,
        PolCapability::Http => LibCapability::Http,
        PolCapability::Dns => LibCapability::Dns,
    }
}

/// The library interface's HTTP method, for the host.
pub open spec fn pol_method(m: LibMethod) -> PolMethod {
    match m {
        LibMethod::Get => PolMethod::Get,
        LibMethod::Head => PolMethod::Head,
        LibMethod::Post => PolMethod::Post,
        LibMethod::Put => PolMethod::Put,
        LibMethod::Delete => PolMethod::Delete,
        LibMethod::Connect => PolMethod::Connect,
        LibMethod::Options => PolMethod::Options,
        LibMethod::Trace => PolMethod::Trace,
        LibMethod::Patch => PolMethod::Patch,
    }
}

/// The library interface's HTTP method, for the host.
pub fn method_to_pol(m: LibMethod) -> (r: PolMethod)
    ensures
        r == pol_method(m),
{
    match m {
        LibMethod::Get => PolMethod::Get,
        LibMethod::Head => PolMethod::Head,
        LibMethod::Post => PolMethod::Post,
        LibMethod::Put => PolMethod::Put,
        LibMethod::Delete => PolMethod::Delete,
        LibMethod::Connect => PolMethod::Connect,
        LibMethod::Options => PolMethod::Options,
        LibMethod::Trace => PolMethod::Trace,
        LibMethod::Patch => PolMethod::Patch,
    }
}

/// The flags of a function, as the library interface has them.
#[derive(Copy, Clone, Debug, PartialEq, Eq, Structural)]
pub struct LibFlags {
    pub deterministic: bool,
    pub direct_only: bool,
    pub innocuous: bool,
}

/// The flags of a function, as the host has them.
#[derive(Copy, Clone, Debug, PartialEq, Eq, Structural)]
pub struct TyFlags {
    pub deterministic: bool,
    pub direct_only: bool,
    pub innocuous: bool,
}

/// The library interface's flags, for the host.
pub open spec fn ty_flags(f: LibFlags) -> TyFlags {
    TyFlags {
        deterministic: f.deterministic,
        direct_only: f.direct_only,
        innocuous: f.innocuous,
    }
}

/// The host's flags, for the library interface.
pub open spec fn lib_flags(f: TyFlags) -> LibFlags {
    LibFlags {
        deterministic: f.deterministic,
        direct_only: f.direct_only,
        innocuous: f.innocuous,
    }
}

/// The library interface's flags, for the host.
pub fn flags_to_ty(f: LibFlags) -> (r: TyFlags)
    ensures
        r == ty_flags(f),
{
    let mut out = TyFlags { deterministic: false, direct_only: false, innocuous: false };
    if f.deterministic {
        out.deterministic = true;
    }
    if f.direct_only {
        out.direct_only = true;
    }
    if f.innocuous {
        out.innocuous = true;
    }
    out
}

/// The host's flags, for the library interface.
pub fn flags_to_lib(f: TyFlags) -> (r: LibFlags)
    ensures
        r == lib_flags(f),
{
    let mut out = LibFlags { deterministic: false, direct_only: false, innocuous: false };
    if f.deterministic {
        out.deterministic = true;
    }
    if f.direct_only {
        out.direct_only = true;
    }
    if f.innocuous {
        out.innocuous = true;
    }
    out
}

/// What HTTP traffic is held to, as the library interface has it.
pub struct LibHttpPolicy {
    pub allowed_hosts: Vec<String>,
    pub allowed_methods: Option<Vec<LibMethod>>,
    pub max_body_bytes: Option<u64>,
    pub timeout_ms: Option<u32>,
}

/// What HTTP traffic is held to, as the host has it.
pub struct PolHttpPolicy {
    pub allowed_hosts: Vec<String>,
    pub allowed_methods: Option<Vec<PolMethod>>,
    pub max_body_bytes: Option<u64>,
    pub timeout_ms: Option<u32>,
}

/// What name lookups are held to, on either side.
pub struct DnsPolicy {
    pub allowed_domains: Vec<String>,
    pub timeout_ms: Option<u32>,
}

/// What file access is held to, on either side.
pub struct FsPolicy {
    pub readable_prefixes: Vec<String>,
    pub writable_prefixes: Vec<String>,
    pub max_write_bytes_per_call: Option<u64>,
}

/// The options that an extension is loaded with, as the library interface has
/// them.
pub struct LibLoadOptions {
    pub grant: Vec<LibCapability>,
    pub http_policy: Option<LibHttpPolicy>,
    pub dns_policy: Option<DnsPolicy>,
    pub fs_policy: Option<FsPolicy>,
    pub fuel_per_call: Option<u64>,
    pub memory_limit_bytes: Option<u64>,
    pub epoch_deadline_ms: Option<u64>,
}

/// The options that an extension is loaded with, as the host has them.
pub struct PolLoadOptions {
    pub grant: Vec<PolCapability>,
    pub http_policy: Option<PolHttpPolicy>,
    pub dns_policy: Option<DnsPolicy>,
    pub fs_policy: Option<FsPolicy>,
    pub fuel_per_call: Option<u64>,
    pub memory_limit_bytes: Option<u64>,
    pub epoch_deadline_ms: Option<u64>,
}

/// `r` is `h`, for the host.
pub open spec fn same_http(h: LibHttpPolicy, r: PolHttpPolicy) -> bool {
    &&& r.allowed_hosts == h.allowed_hosts
    &&& match h.allowed_methods {
        Some(ms) => r.allowed_methods is Some && r.allowed_methods->0@ == ms@.map_values(
            |m: LibMethod| pol_method(m),
        ),
        None => r.allowed_methods is None,
    }
    &&& r.max_body_bytes == h.max_body_bytes
    &&& r.timeout_ms == h.timeout_ms
}

fn caps_to_pol(v: &Vec<LibCapability>) -> (r: Vec<PolCapability>)
    ensures
        r@ == v@.map_values(|c: LibCapability| pol_capability(c)),
{
    let mut r: Vec<PolCapability> = Vec::new();
    let ghost want = v@.map_values(|c: LibCapability| pol_capability(c));
    let mut i: usize = 0;
    while i < v.len()
        invariant
            i <= v.len(),
            want == v@.map_values(|c: LibCapability| pol_capability(c)),
            r@ =~= want.take(i as int),
        decreases v.len() - i,
    {
        r.push(cap_to_pol(v[i]));
        i = i + 1;
    }
    assert(want.take(i as int) =~= want);
    r
}

fn caps_to_lib(v: &Vec<PolCapability>) -> (r: Vec<LibCapability>)
    ensures
        r@ == v@.map_values(|c: PolCapability| lib_capability(c)),
{
    let mut r: Vec<LibCapability> = Vec::new();
    let ghost want = v@.map_values(|c: PolCapability| lib_capability(c));
    let mut i: usize = 0;
    while i < v.len()
        invariant
            i <= v.len(),
            want == v@.map_values(|c: PolCapability| lib_capability(c)),
            r@ =~= want.take(i as int),
        decreases v.len() - i,
    {
        r.push(cap_to_lib(v[i]));
        i = i + 1;
    }
    assert(want.take(i as int) =~= want);
    r
}

fn methods_to_pol(v: &Vec<LibMethod>) -> (r: Vec<PolMethod>)
    ensures
        r@ == v@.map_values(|m: LibMethod| pol_method(m)),
{
    let mut r: Vec<PolMethod> = Vec::new();
    let ghost want = v@.map_values(|m: LibMethod| pol_method(m));
    let mut i: usize = 0;
    while i < v.len()
        invariant
            i <= v.len(),
            want == v@.map_values(|m: LibMethod| pol_method(m)),
            r@ =~= want.take(i as int),
        decreases v.len() - i,
    {
        r.push(method_to_pol(v[i]));
        i = i + 1;
    }
    assert(want.take(i as int) =~= want);
    r
}

/// The library interface's options, for the host.
pub fn opts_to_pol(o: LibLoadOptions) -> (r: PolLoadOptions)
    ensures
        r.grant@ == o.grant@.map_values(|c: LibCapability| pol_capability(c)),
        match o.http_policy {
            Some(h) => r.http_policy is Some && same_http(h, r.http_policy->0),
            None => r.http_policy is None,
        },
        r.dns_policy == o.dns_policy,
        r.fs_policy == o.fs_policy,
        r.fuel_per_call == o.fuel_per_call,
        r.memory_limit_bytes == o.memory_limit_bytes,
        r.epoch_deadline_ms == o.epoch_deadline_ms,
{
    let http_policy: Option<PolHttpPolicy> = match o.http_policy {
        Some(h) => {
            let allowed_methods: Option<Vec<PolMethod>> = match &h.allowed_methods {
                Some(ms) => Some(methods_to_pol(ms)),
                None => None,
            };
            Some(
                PolHttpPolicy {
                    allowed_hosts: h.allowed_hosts,
                    allowed_methods,
                    max_body_bytes: h.max_body_bytes,
                    timeout_ms: h.timeout_ms,
                },
            )
        },
        None => None,
    };
    PolLoadOptions {
        grant: caps_to_pol(&o.grant),
        http_policy,
        dns_policy: o.dns_policy,
        fs_policy: o.fs_policy,
        fuel_per_call: o.fuel_per_call,
        memory_limit_bytes: o.memory_limit_bytes,
        epoch_deadline_ms: o.epoch_deadline_ms,
    }
}

/// A scalar function, as the host has it.
pub struct MdScalarSpec {
    pub id: u64,
    pub name: String,
    pub num_args: i32,
    pub func_flags: TyFlags,
}

/// A scalar function, as the library interface has it.
pub struct LibScalarSpec {
    pub id: u64,
    pub name: String,
    pub num_args: i32,
    pub func_flags: LibFlags,
}

/// An aggregate function, as the host has it.
pub struct MdAggregateSpec {
    pub id: u64,
    pub name: String,
    pub num_args: i32,
    pub func_flags: TyFlags,
    pub is_window: bool,
}

/// An aggregate function, as the library interface has it.
pub struct LibAggregateSpec {
    pub id: u64,
    pub name: String,
    pub num_args: i32,
    pub func_flags: LibFlags,
    pub is_window: bool,
}

/// A collation, on either side.
pub struct CollationSpec {
    pub id: u64,
    pub name: String,
}

/// What an extension tells of itself, as the host has it.
pub struct MdManifest {
    pub name: String,
    pub version: String,
    pub scalar_functions: Vec<MdScalarSpec>,
    pub aggregate_functions: Vec<MdAggregateSpec>,
    pub collations: Vec<CollationSpec>,
    pub has_authorizer: bool,
    pub has_update_hook: bool,
    pub has_commit_hook: bool,
    pub declared_capabilities: Vec<PolCapability>,
}

/// What an extension tells of itself, as the library interface has it.
pub struct LibManifest {
    pub name: String,
    pub version: String,
    pub scalar_functions: Vec<LibScalarSpec>,
    pub aggregate_functions: Vec<LibAggregateSpec>,
    pub collations: Vec<CollationSpec>,
    pub has_authorizer: bool,
    pub has_update_hook: bool,
    pub has_commit_hook: bool,
    pub declared_capabilities: Vec<LibCapability>,
}

/// The host's scalar function, for the library interface.
pub open spec fn lib_scalar(s: MdScalarSpec) -> LibScalarSpec {
    LibScalarSpec {
        id: s.id,
        name: s.name,
        num_args: s.num_args,
        func_flags: lib_flags(s.func_flags),
    }
}

/// The host's aggregate function, for the library interface.
pub open spec fn lib_aggregate(s: MdAggregateSpec) -> LibAggregateSpec {
    LibAggregateSpec {
        id: s.id,
        name: s.name,
        num_args: s.num_args,
        func_flags: lib_flags(s.func_flags),
        is_window: s.is_window,
    }
}

fn scalars_to_lib(v: Vec<MdScalarSpec>) -> (r: Vec<LibScalarSpec>)
    ensures
        r@ == v@.map_values(|s: MdScalarSpec| lib_scalar(s)),
{
    let ghost want = v@.map_values(|s: MdScalarSpec| lib_scalar(s));
    let n: usize = v.len();
    let mut v = v;
    let mut back: Vec<LibScalarSpec> = Vec::new();
    while v.len() > 0
        invariant
            n == want.len(),
            v@.len() + back@.len() == n,
            v@.map_values(|s: MdScalarSpec| lib_scalar(s)) == want.take(v@.len() as int),
            back@ == want.skip(v@.len() as int).reverse(),
        decreases v.len(),
    {
        let ghost k = v@.len() as int;
        let ghost before = v@;
        match v.pop() {
            Some(s) => {
                let one = LibScalarSpec {
                    id: s.id,
                    name: s.name,
                    num_args: s.num_args,
                    func_flags: flags_to_lib(s.func_flags),
                };
                proof {
                    assert(before.map_values(|s: MdScalarSpec| lib_scalar(s))[k - 1] == one);
                    assert(want[k - 1] == one);
                    assert(want.skip(k - 1).reverse() =~= want.skip(k).reverse().push(one));
                }
                back.push(one);
            },
            None => {},
        }
        assert(v@.map_values(|s: MdScalarSpec| lib_scalar(s)) =~= want.take(k - 1));
    }
    assert(want.skip(0).reverse().reverse() =~= want);
    reversed(back)
}

fn aggregates_to_lib(v: Vec<MdAggregateSpec>) -> (r: Vec<LibAggregateSpec>)
    ensures
        r@ == v@.map_values(|s: MdAggregateSpec| lib_aggregate(s)),
{
    let ghost want = v@.map_values(|s: MdAggregateSpec| lib_aggregate(s));
    let n: usize = v.len();
    let mut v = v;
    let mut back: Vec<LibAggregateSpec> = Vec::new();
    while v.len() > 0
        invariant
            n == want.len(),
            v@.len() + back@.len() == n,
            v@.map_values(|s: MdAggregateSpec| lib_aggregate(s)) == want.take(v@.len() as int),
            back@ == want.skip(v@.len() as int).reverse(),
        decreases v.len(),
    {
        let ghost k = v@.len() as int;
        let ghost before = v@;
        match v.pop() {
            Some(s) => {
                let one = LibAggregateSpec {
                    id: s.id,
                    name: s.name,
                    num_args: s.num_args,
                    func_flags: flags_to_lib(s.func_flags),
                    is_window: s.is_window,
                };
                proof {
                    assert(before.map_values(|s: MdAggregateSpec| lib_aggregate(s))[k - 1] == one);
                    assert(want[k - 1] == one);
                    assert(want.skip(k - 1).reverse() =~= want.skip(k).reverse().push(one));
                }
                back.push(one);
            },
            None => {},
        }
        assert(v@.map_values(|s: MdAggregateSpec| lib_aggregate(s)) =~= want.take(k - 1));
    }
    assert(want.skip(0).reverse().reverse() =~= want);
    reversed(back)
}

/// The host's manifest, for the library interface.
pub fn manifest_to_lib(m: MdManifest) -> (r: LibManifest)
    ensures
        r.name == m.name,
        r.version == m.version,
        r.scalar_functions@ == m.scalar_functions@.map_values(|s: MdScalarSpec| lib_scalar(s)),
        r.aggregate_functions@ == m.aggregate_functions@.map_values(
            |s: MdAggregateSpec| lib_aggregate(s),
        ),
        r.collations == m.collations,
        r.has_authorizer == m.has_authorizer,
        r.has_update_hook == m.has_update_hook,
        r.has_commit_hook == m.has_commit_hook,
        r.declared_capabilities@ == m.declared_capabilities@.map_values(
            |c: PolCapability| lib_capability(c),
        ),
{
    LibManifest {
        name: m.name,
        version: m.version,
        scalar_functions: scalars_to_lib(m.scalar_functions),
        aggregate_functions: aggregates_to_lib(m.aggregate_functions),
        collations: m.collations,
        has_authorizer: m.has_authorizer,
        has_update_hook: m.has_update_hook,
        has_commit_hook: m.has_commit_hook,
        declared_capabilities: caps_to_lib(&m.declared_capabilities),
    }
}

/// A failure of the loader's, as the library interface shows it.
#[derive(Debug)]
pub struct LibLoaderError {
    pub code: i32,
    pub message: String,
}

/// The loader's failure, for the library interface.
pub fn loader_err_to_lib(e: crate::host::LoaderError) -> (r: LibLoaderError)
    ensures
        r.code == e.code,
        r.message == e.message,
{
    LibLoaderError { code: e.code, message: e.message }
}

/// A capability, and the flags of a function, come back as they went.
pub proof fn lemma_conversions_round_trip(c: LibCapability, p: PolCapability, f: LibFlags, t: TyFlags)
    ensures
        lib_capability(pol_capability(c)) == c,
        pol_capability(lib_capability(p)) == p,
        lib_flags(ty_flags(f)) == f,
        ty_flags(lib_flags(t)) == t,
{
}

} // verus!
