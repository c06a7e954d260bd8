//! The cache of prepared statements behind the extension interface.
//!
//! Statements are kept by their exact text, up to a limit, beyond which the
//! least recently used one makes room. Every statement belongs to the connection
//! that it was prepared on, which its epoch tells; replacing the connection
//! empties the cache. A statement is known by a number of the caller's; the
//! cache says which ones are to be finalized.

use crate::codes::SQLITE_OK;
use crate::sqlite_lib::errors::{engine_error, failure_text, is_error, is_misuse, misuse, DbError};
use crate::tables::NameTable;
use vstd::prelude::*;
use vstd::string::*;

verus! {

/// How many statements are kept.
pub const STMT_CACHE_LIMIT: usize = 256;

/// A statement that is kept: its number, the epoch of its connection, and when
/// it was last used.
#[derive(Copy, Clone, Debug, PartialEq, Eq, Structural)]
pub struct CachedStmt {
    pub raw: u64,
    pub epoch: u64,
    pub lru: u64,
}

/// What looking for a statement came to.
#[derive(Copy, Clone, Debug, PartialEq, Eq, Structural)]
pub enum Lookup {
    /// The statement is kept; it has to be reset before it is used.
    Hit(u64),
    /// The statement has to be prepared. One that belongs to a former connection
    /// was kept in its place and has to be finalized.
    Stale(u64),
    /// The statement has to be prepared.
    Miss,
}

/// The statements, by their text, how often statements were looked for, and the
/// epoch of the connection.
pub struct StmtCache {
    map: NameTable<CachedStmt>,
    counter: u64,
    epoch: u64,
}

impl View for StmtCache {
    type V = Map<Seq<char>, CachedStmt>;

    closed spec fn view(&self) -> Map<Seq<char>, CachedStmt> {
        self.map@
    }
}

/// The statement `sql` is the least recently used one.
pub open spec fn least_recent(m: Map<Seq<char>, CachedStmt>, sql: Seq<char>) -> bool {
    m.contains_key(sql) && forall|x: Seq<char>| #[trigger] m.contains_key(x) ==> m[sql].lru <= m[x].lru
}

/// The cache, as the model sees it.
pub struct CacheState {
    pub map: Map<Seq<char>, CachedStmt>,
    pub counter: u64,
    pub epoch: u64,
}

impl CacheState {
    /// The statement `sql` is kept and belongs to the current connection.
    pub open spec fn hits(self, sql: Seq<char>) -> bool {
        self.map.contains_key(sql) && self.map[sql].epoch == self.epoch
    }

    /// After the statement `sql` was looked for: one of the current connection is
    /// the most recently used one, and one of a former connection is gone.
    pub open spec fn looked_up(self, sql: Seq<char>) -> CacheState {
        let now = self.counter.wrapping_add(1);
        CacheState {
            map: if self.hits(sql) {
                self.map.insert(sql, CachedStmt { lru: now, ..self.map[sql] })
            } else {
                self.map.remove(sql)
            },
            counter: now,
            epoch: self.epoch,
        }
    }

    /// `after` keeps the statement `sql` with the number `raw` too. Where there
    /// was no room, a least recently used statement is gone, and `victim` is its
    /// number.
    pub open spec fn keeps(
        self,
        sql: Seq<char>,
        raw: u64,
        victim: Option<u64>,
        after: CacheState,
    ) -> bool {
        let entry = CachedStmt { raw, epoch: self.epoch, lru: self.counter };
        &&& after.counter == self.counter
        &&& after.epoch == self.epoch
        &&& if self.map.dom().len() < STMT_CACHE_LIMIT {
            victim is None && after.map == self.map.insert(sql, entry)
        } else {
            exists|x: Seq<char>|
                {
                    &&& #[trigger] least_recent(self.map, x)
                    &&& victim == Some(self.map[x].raw)
                    &&& after.map == self.map.remove(x).insert(sql, entry)
                }
        }
    }
}

/// `r` are the numbers of the statements in `m`, each statement once.
pub open spec fn all_raws(m: Map<Seq<char>, CachedStmt>, r: Seq<u64>) -> bool {
    exists|order: Seq<Seq<char>>|
        {
            &&& #[trigger] order.no_duplicates()
            &&& order.to_set() == m.dom()
            &&& r == order.map_values(|x: Seq<char>| m[x].raw)
        }
}

impl StmtCache {
    /// How often statements were looked for.
    pub closed spec fn counter(&self) -> u64 {
        self.counter
    }

    /// The epoch of the connection.
    pub closed spec fn epoch(&self) -> u64 {
        self.epoch
    }

    /// The cache, as the model sees it.
    pub open spec fn state(&self) -> CacheState {
        CacheState { map: self@, counter: self.counter(), epoch: self.epoch() }
    }

    /// No more statements are kept than the limit.
    pub closed spec fn wf(&self) -> bool {
        self.map.wf() && self@.dom().finite() && self@.dom().len() <= STMT_CACHE_LIMIT
    }

    /// No more statements are kept than the limit.
    pub proof fn lemma_bounded(&self)
        requires
            self.wf(),
        ensures
            self@.dom().finite(),
            self@.dom().len() <= STMT_CACHE_LIMIT,
    {
    }

    /// No statements, and the first connection.
    pub fn new() -> (r: Self)
        ensures
            r.wf(),
            r@ == Map::<Seq<char>, CachedStmt>::empty(),
            r.counter() == 0,
            r.epoch() == 1,
    {
        let r = StmtCache { map: NameTable::new(), counter: 0, epoch: 1 };
        assert(r@.dom() =~= Set::<Seq<char>>::empty());
        r
    }

    /// Looks for the statement `sql`. A statement of the current connection is
    /// the most recently used one from now on; one of a former connection is
    /// dropped.
    pub fn lookup(&mut self, sql: &str) -> (r: Lookup)
        requires
            old(self).wf(),
        ensures
            final(self).wf(),
            final(self).state() == old(self).state().looked_up(sql@),
            r == if !old(self)@.contains_key(sql@) {
                Lookup::Miss
            } else if old(self).state().hits(sql@) {
                Lookup::Hit(old(self)@[sql@].raw)
            } else {
                Lookup::Stale(old(self)@[sql@].raw)
            },
    {
        self.counter = self.counter.wrapping_add(1);
        let found: Option<CachedStmt> = match self.map.get(sql) {
            Some(e) => Some(*e),
            None => None,
        };
        match found {
            Some(e) => {
                if e.epoch == self.epoch {
                    self.map.insert(
                        sql.to_owned(),
                        CachedStmt { raw: e.raw, epoch: e.epoch, lru: self.counter },
                    );
                    assert(self@.dom() =~= old(self)@.dom());
                    return Lookup::Hit(e.raw);
                }
                self.map.remove(sql);
                assert(self@.dom() =~= old(self)@.dom().remove(sql@));
                Lookup::Stale(e.raw)
            },
            None => {
                assert(self@ =~= old(self)@.remove(sql@));
                Lookup::Miss
            },
        }
    }

    /// Takes the least recently used statement out: its number.
    fn evict_one(&mut self) -> (r: Option<u64>)
        requires
            old(self).wf(),
        ensures
            final(self).wf(),
            final(self).epoch() == old(self).epoch(),
            final(self).counter() == old(self).counter(),
            match r {
                None => old(self)@.dom().len() == 0 && final(self)@ == old(self)@,
                Some(raw) => exists|x: Seq<char>|
                    {
                        &&& #[trigger] least_recent(old(self)@, x)
                        &&& raw == old(self)@[x].raw
                        &&& final(self)@ == old(self)@.remove(x)
                    },
            },
            r is Some ==> final(self)@.dom().len() + 1 == old(self)@.dom().len(),
    {
        let n: usize = self.map.len();
        if n == 0 {
            return None;
        }
        let ghost names = self.map.names();
        let mut best: usize = 0;
        let mut best_lru: u64 = self.map.value_at(0).lru;
        let mut i: usize = 1;
        proof {
            self.map.lemma_names();
        }
        while i < n
            invariant
                self.map.wf(),
                names == self.map.names(),
                n == names.len(),
                best < i <= n,
                self@.contains_key(names[best as int]),
                best_lru == self@[names[best as int]].lru,
                forall|j: int| 0 <= j < i ==> best_lru <= self@[#[trigger] names[j]].lru,
            decreases n - i,
        {
            let lru: u64 = self.map.value_at(i).lru;
            if lru < best_lru {
                best = i;
                best_lru = lru;
            }
            i = i + 1;
        }
        let victim: String = self.map.name_at(best).to_owned();
        proof {
            assert(victim@ == names[best as int]);
            assert forall|x: Seq<char>| #[trigger] self@.contains_key(x) implies self@[victim@].lru
                <= self@[x].lru by {
                assert(names.to_set().contains(x));
                let j = choose|j: int| 0 <= j < names.len() && names[j] == x;
                assert(best_lru <= self@[names[j]].lru);
            }
            assert(least_recent(old(self)@, victim@));
        }
        let gone: Option<CachedStmt> = self.map.remove(victim.as_str());
        assert(self@.dom() =~= old(self)@.dom().remove(victim@));
        match gone {
            Some(e) => Some(e.raw),
            None => None,
        }
    }

    /// Takes what preparing the statement `sql` came to: the engine's code, the
    /// statement's number unless the text held no statement, and the engine's
    /// error text. A prepared statement is kept; the result is its number, and
    /// the number of the statement that made room for it and has to be
    /// finalized.
    pub fn prepared(&mut self, sql: &str, rc: i32, raw: Option<u64>, own: Option<&[u8]>) -> (r: Result<
        (u64, Option<u64>),
        DbError,
    >)
        requires
            old(self).wf(),
            !old(self)@.contains_key(sql@),
        ensures
            final(self).wf(),
            if rc != SQLITE_OK {
                &&& r is Err
                &&& is_error(
                    r->Err_0,
                    rc,
                    failure_text(
                        match own {
                            Some(b) => Some(b@),
                            None => None,
                        },
                        "sqlite3_prepare_v2"@,
                        rc,
                    ),
                )
                &&& final(self).state() == old(self).state()
            } else if raw is None {
                &&& r is Err
                &&& is_misuse(r->Err_0, "sqlite3_prepare_v2: empty statement"@)
                &&& final(self).state() == old(self).state()
            } else {
                &&& r is Ok
                &&& r->Ok_0.0 == raw->0
                &&& old(self).state().keeps(sql@, raw->0, r->Ok_0.1, final(self).state())
            },
    {
        if rc != SQLITE_OK {
            return Err(engine_error(rc, own, "sqlite3_prepare_v2"));
        }
        let raw: u64 = match raw {
            Some(raw) => raw,
            None => {
                return Err(misuse("sqlite3_prepare_v2: empty statement"));
            },
        };
        let mut victim: Option<u64> = None;
        if self.map.len() >= STMT_CACHE_LIMIT {
            victim = self.evict_one();
        }
        let ghost mid = self@;
        self.map.insert(
            sql.to_owned(),
            CachedStmt { raw, epoch: self.epoch, lru: self.counter },
        );
        proof {
            assert(self@.dom() =~= mid.dom().insert(sql@));
            let entry = CachedStmt { raw, epoch: old(self).epoch(), lru: old(self).counter() };
            assert(self@ == mid.insert(sql@, entry));
        }
        Ok((raw, victim))
    }

    /// The connection is replaced: the numbers of all statements, which have to
    /// be finalized before the old connection is closed.
    pub fn drain(&mut self) -> (r: Vec<u64>)
        requires
            old(self).wf(),
        ensures
            final(self).wf(),
            final(self)@ == Map::<Seq<char>, CachedStmt>::empty(),
            final(self).counter() == old(self).counter(),
            final(self).epoch() == old(self).epoch().wrapping_add(1),
            all_raws(old(self)@, r@),
    {
        let n: usize = self.map.len();
        let ghost names = self.map.names();
        let ghost want = names.map_values(|x: Seq<char>| self@[x].raw);
        let mut r: Vec<u64> = Vec::new();
        let mut i: usize = 0;
        proof {
            self.map.lemma_names();
        }
        while i < n
            invariant
                *self == *old(self),
                self.map.wf(),
                names == self.map.names(),
                n == names.len(),
                want == names.map_values(|x: Seq<char>| self@[x].raw),
                i <= n,
                r@ =~= want.take(i as int),
            decreases n - i,
        {
            r.push(self.map.value_at(i).raw);
            i = i + 1;
        }
        proof {
            assert(want.take(i as int) =~= want);
            assert(r@ =~= names.map_values(|x: Seq<char>| old(self)@[x].raw));
            assert(names.no_duplicates());
            assert(all_raws(old(self)@, r@));
        }
        self.map.clear();
        self.epoch = self.epoch.wrapping_add(1);
        assert(self@.dom() =~= Set::<Seq<char>>::empty());
        r
    }
}

/// A path that stands for a database in memory.
pub open spec fn memory_path(path: Seq<char>) -> bool {
    path.len() == 0 || path == ":memory:"@
}

/// Whether a path stands for a database in memory.
pub fn is_memory_path(path: &str) -> (r: bool)
    ensures
        r == memory_path(path@),
{
    path.is_empty() || crate::text::str_eq(path, ":memory:")
}

/// A request for the statement `sql`: the number that preparing it gave, where it
/// had to be prepared and could be, and the number of the statement that made
/// room for it.
pub struct Call {
    pub sql: Seq<char>,
    pub prepared: Option<u64>,
    pub finalized: Option<u64>,
}

/// `after` is the cache `before` after the request `c`: a statement that is not
/// kept is prepared, and kept if that succeeds.
pub open spec fn called(before: CacheState, c: Call, after: CacheState) -> bool {
    let mid = before.looked_up(c.sql);
    if before.hits(c.sql) {
        after == mid && c.finalized is None
    } else {
        match c.prepared {
            None => after == mid && c.finalized is None,
            Some(raw) => mid.keeps(c.sql, raw, c.finalized, after),
        }
    }
}

/// The request `i` of `calls` leads to the next state.
pub open spec fn stepped(states: Seq<CacheState>, calls: Seq<Call>, i: int) -> bool {
    called(states[i], calls[i], states[i + 1])
}

/// `states` are the states that the requests `calls` lead through, from an empty
/// cache on, with one connection.
pub open spec fn history(states: Seq<CacheState>, calls: Seq<Call>) -> bool {
    &&& states.len() == calls.len() + 1
    &&& states[0].map == Map::<Seq<char>, CachedStmt>::empty()
    &&& forall|i: int| 0 <= i < calls.len() ==> #[trigger] stepped(states, calls, i)
}

/// The last of the first `n` requests that was for `sql`, or -1.
pub open spec fn last_call(calls: Seq<Call>, n: int, sql: Seq<char>) -> int
    decreases n,
{
    if n <= 0 {
        -1
    } else if calls[n - 1].sql == sql {
        n - 1
    } else {
        last_call(calls, n - 1, sql)
    }
}

proof fn lemma_last_call(calls: Seq<Call>, n: int, sql: Seq<char>)
    requires
        0 <= n <= calls.len(),
    ensures
        -1 <= last_call(calls, n, sql) < n,
        last_call(calls, n, sql) >= 0 ==> calls[last_call(calls, n, sql)].sql == sql,
    decreases n,
{
    if n > 0 && calls[n - 1].sql != sql {
        lemma_last_call(calls, n - 1, sql);
    }
}

/// In a state that requests lead to, a statement's use number tells its last
/// request.
pub open spec fn numbered(first: CacheState, calls: Seq<Call>, n: int, s: CacheState) -> bool {
    &&& s.epoch == first.epoch
    &&& s.counter == first.counter + n
    &&& s.map.dom().finite()
    &&& s.map.dom().len() <= STMT_CACHE_LIMIT
    &&& forall|x: Seq<char>| #[trigger]
        s.map.contains_key(x) ==> {
            &&& s.map[x].epoch == s.epoch
            &&& last_call(calls, n, x) >= 0
            &&& s.map[x].lru == first.counter + last_call(calls, n, x) + 1
        }
}

/// Over any requests with one connection, no more statements are kept than the
/// limit, none of them is stale, and use numbers order them by their last
/// requests.
pub proof fn lemma_numbered(states: Seq<CacheState>, calls: Seq<Call>, n: int)
    requires
        history(states, calls),
        states[0].counter + calls.len() <= u64::MAX,
        0 <= n <= calls.len(),
    ensures
        numbered(states[0], calls, n, states[n]),
    decreases n,
{
    if n > 0 {
        lemma_numbered(states, calls, n - 1);
        let before = states[n - 1];
        let after = states[n];
        let c = calls[n - 1];
        assert(stepped(states, calls, n - 1));
        let mid = before.looked_up(c.sql);
        assert(mid.map.dom() =~= before.map.dom());
        if !before.hits(c.sql) {
            assert(mid.map =~= before.map);
            if let Some(raw) = c.prepared {
                let entry = CachedStmt { raw, epoch: mid.epoch, lru: mid.counter };
                if mid.map.dom().len() < STMT_CACHE_LIMIT {
                    assert(after.map.dom() =~= mid.map.dom().insert(c.sql));
                } else {
                    let x = choose|x: Seq<char>|
                        {
                            &&& #[trigger] least_recent(mid.map, x)
                            &&& c.finalized == Some(mid.map[x].raw)
                            &&& after.map == mid.map.remove(x).insert(c.sql, entry)
                        };
                    assert(after.map.dom() =~= mid.map.dom().remove(x).insert(c.sql));
                }
            }
        }
    }
}

/// Over any requests with one connection, a request for a statement that is kept
/// gives its number and finalizes nothing; every statement that is kept before
/// and after a request keeps its number; a statement that cannot be prepared
/// changes neither what is kept nor finalizes anything.
pub proof fn lemma_hit_or_refusal(states: Seq<CacheState>, calls: Seq<Call>, n: int)
    requires
        history(states, calls),
        states[0].counter + calls.len() <= u64::MAX,
        0 <= n < calls.len(),
    ensures
        states[n].map.contains_key(calls[n].sql) ==> {
            &&& states[n].hits(calls[n].sql)
            &&& calls[n].finalized is None
            &&& states[n + 1].map.dom() == states[n].map.dom()
        },
        forall|x: Seq<char>| #[trigger]
            states[n].map.contains_key(x) && states[n + 1].map.contains_key(x)
                ==> states[n + 1].map[x].raw == states[n].map[x].raw,
        !states[n].map.contains_key(calls[n].sql) && calls[n].prepared is None ==> {
            &&& calls[n].finalized is None
            &&& states[n + 1].map == states[n].map
        },
{
    lemma_numbered(states, calls, n);
    let before = states[n];
    let after = states[n + 1];
    let c = calls[n];
    assert(stepped(states, calls, n));
    let mid = before.looked_up(c.sql);
    if before.map.contains_key(c.sql) {
        assert(mid.map.dom() =~= before.map.dom());
    } else {
        assert(mid.map =~= before.map);
    }
}

/// Over any requests with one connection, a statement that is prepared is kept,
/// and where there was no room for it, exactly the least recently requested
/// statement is finalized: every other one was requested after it.
pub proof fn lemma_least_recently_requested_makes_room(
    states: Seq<CacheState>,
    calls: Seq<Call>,
    n: int,
)
    requires
        history(states, calls),
        states[0].counter + calls.len() <= u64::MAX,
        0 <= n < calls.len(),
        !states[n].map.contains_key(calls[n].sql),
        calls[n].prepared is Some,
    ensures
        states[n + 1].map.contains_key(calls[n].sql),
        states[n + 1].map[calls[n].sql].raw == calls[n].prepared->0,
        states[n].map.dom().len() < STMT_CACHE_LIMIT ==> {
            &&& calls[n].finalized is None
            &&& states[n + 1].map.dom() == states[n].map.dom().insert(calls[n].sql)
        },
        states[n].map.dom().len() == STMT_CACHE_LIMIT ==> exists|x: Seq<char>|
            {
                &&& #[trigger] states[n].map.contains_key(x)
                &&& calls[n].finalized == Some(states[n].map[x].raw)
                &&& states[n + 1].map.dom() == states[n].map.dom().remove(x).insert(calls[n].sql)
                &&& forall|y: Seq<char>| #[trigger]
                    states[n].map.contains_key(y) && y != x ==> last_call(calls, n, x) < last_call(
                        calls,
                        n,
                        y,
                    )
            },
{
    lemma_numbered(states, calls, n);
    let before = states[n];
    let after = states[n + 1];
    let c = calls[n];
    let raw = c.prepared->0;
    assert(stepped(states, calls, n));
    let mid = before.looked_up(c.sql);
    assert(mid.map =~= before.map);
    if before.map.dom().len() < STMT_CACHE_LIMIT {
        assert(after.map.dom() =~= before.map.dom().insert(c.sql));
    } else {
        let entry = CachedStmt { raw, epoch: mid.epoch, lru: mid.counter };
        let x = choose|x: Seq<char>|
            {
                &&& #[trigger] least_recent(mid.map, x)
                &&& c.finalized == Some(mid.map[x].raw)
                &&& after.map == mid.map.remove(x).insert(c.sql, entry)
            };
        assert(before.map.contains_key(x));
        assert(after.map.dom() =~= before.map.dom().remove(x).insert(c.sql));
        assert forall|y: Seq<char>| #[trigger]
            before.map.contains_key(y) && y != x implies last_call(calls, n, x) < last_call(
            calls,
            n,
            y,
        ) by {
            lemma_last_call(calls, n, x);
            lemma_last_call(calls, n, y);
        }
    }
}

} // verus!
