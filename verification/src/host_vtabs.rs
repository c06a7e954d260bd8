//! Virtual tables that extensions of the host serve.
//!
//! Every table and every cursor over one has a number. The engine's calls are
//! turned into requests to the extension, and the extension's answers into what
//! the engine gets to see. Cursors over tables that hand out rows in batches are
//! served from a cache of the last batch. Column values are passed on as they
//! are.

use crate::codes::{SQLITE_ERROR, SQLITE_INTERNAL, SQLITE_MISUSE, SQLITE_OK};
use crate::tables::NameTable;
use crate::text::{
    c_bytes, c_string, copy_texts, decimal, find_nul, lemma_texts_push, push_decimal,
    push_signed_decimal, signed_decimal, texts,
};
use std::collections::HashMap;
use vstd::prelude::*;
use vstd::string::*;
use vstd::utf8::encode_utf8;

verus! {

/// How many rows are asked for at a time.
pub const BATCH_SIZE: u32 = 64;

/// What a module was registered with.
pub struct ModuleAux {
    pub ext_name: String,
    pub vtab_id: u64,
    pub eponymous: bool,
    pub batched: bool,
}

/// The table that a request is for.
pub struct VtabMeta {
    pub ext_name: String,
    pub vtab_id: u64,
    pub batched: bool,
}

/// The table that a request is for, as the model sees it.
pub struct MetaView {
    pub ext_name: Seq<char>,
    pub vtab_id: u64,
    pub batched: bool,
}

impl View for VtabMeta {
    type V = MetaView;

    open spec fn view(&self) -> MetaView {
        MetaView { ext_name: self.ext_name@, vtab_id: self.vtab_id, batched: self.batched }
    }
}

impl VtabMeta {
    fn copy(&self) -> (r: VtabMeta)
        ensures
            r@ == self@,
    {
        VtabMeta {
            ext_name: self.ext_name.clone(),
            vtab_id: self.vtab_id,
            batched: self.batched,
        }
    }
}

/// A row of a batch.
pub struct BatchRow<V> {
    pub rowid: i64,
    pub columns: Vec<V>,
}

/// The rows of the last batch, which of them is the current one, and whether
/// there are no more batches.
pub struct BatchCache<V> {
    pub rows: Vec<BatchRow<V>>,
    pub idx: usize,
    pub eof_seen: bool,
}

impl<V> BatchCache<V> {
    /// The cursor stands on a row, or at the end.
    pub open spec fn settled(&self) -> bool {
        self.idx < self.rows@.len() || self.eof_seen
    }

    /// The cursor is at the end.
    pub open spec fn at_end(&self) -> bool {
        self.idx >= self.rows@.len() && self.eof_seen
    }

    /// No rows came yet.
    pub open spec fn fresh(&self) -> bool {
        self.rows@.len() == 0 && self.idx == 0 && !self.eof_seen
    }

    /// The rows are used up, and more may come.
    pub open spec fn exhausted(&self) -> bool {
        self.idx >= self.rows@.len() && !self.eof_seen
    }

    /// No rows yet.
    pub fn new() -> (r: Self)
        ensures
            r.fresh(),
    {
        BatchCache { rows: Vec::new(), idx: 0, eof_seen: false }
    }
}

/// What `cache` is after a request for more rows was answered: an answer without
/// rows is the end, and so is an error, which leaves the rows as they are.
pub open spec fn refilled<V>(
    cache: BatchCache<V>,
    reply: Option<Vec<BatchRow<V>>>,
    after: BatchCache<V>,
) -> bool {
    match reply {
        None => after.rows@ == cache.rows@ && after.idx == cache.idx && after.eof_seen,
        Some(rows) => {
            &&& after.rows@ == rows@
            &&& after.idx == 0
            &&& after.eof_seen == (cache.eof_seen || rows@.len() == 0)
        },
    }
}

/// A refill always leaves the cursor on a row or at the end, so the engine is
/// never told that there is a row where there is none.
pub proof fn lemma_refill_settles<V>(
    cache: BatchCache<V>,
    reply: Option<Vec<BatchRow<V>>>,
    after: BatchCache<V>,
)
    requires
        refilled(cache, reply, after),
    ensures
        after.settled(),
        !after.at_end() ==> after.idx < after.rows@.len(),
{
}

/// The rows of the batches that come, up to the first one without rows.
pub open spec fn batch_rows<V>(batches: Seq<Seq<BatchRow<V>>>) -> Seq<BatchRow<V>>
    decreases batches.len(),
{
    if batches.len() == 0 || batches[0].len() == 0 {
        Seq::empty()
    } else {
        batches[0] + batch_rows(batches.skip(1))
    }
}

/// What `cache` is after the cursor was moved on by a row, before any request for
/// more rows.
pub open spec fn moved_on<V>(cache: BatchCache<V>, after: BatchCache<V>) -> bool {
    &&& after.rows@ == cache.rows@
    &&& after.idx == if cache.idx < usize::MAX {
        cache.idx + 1
    } else {
        cache.idx as int
    }
    &&& after.eof_seen == cache.eof_seen
}

/// The rows of an answer to a request for more rows; an error has none.
pub open spec fn answer_rows<V>(answer: Option<Vec<BatchRow<V>>>) -> Seq<BatchRow<V>> {
    match answer {
        Some(rows) => rows@,
        None => Seq::empty(),
    }
}

/// The rows of the answers from number `from` on.
pub open spec fn answers_from<V>(answers: Seq<Option<Vec<BatchRow<V>>>>, from: int) -> Seq<
    Seq<BatchRow<V>>,
> {
    answers.skip(from).map_values(|a: Option<Vec<BatchRow<V>>>| answer_rows(a))
}

/// Every answer but the last one has rows.
pub open spec fn ends_once<V>(answers: Seq<Option<Vec<BatchRow<V>>>>) -> bool {
    &&& answers.len() > 0
    &&& forall|i: int|
        0 <= i < answers.len() ==> ((#[trigger] answer_rows(answers[i])).len() == 0 <==> i
            == answers.len() - 1)
}

/// A cursor that hands out rows in batches, and how many requests for more rows it
/// has made.
pub struct ScanState<V> {
    pub cache: BatchCache<V>,
    pub asked: int,
}

/// The cursor after a filter: it starts over and asks for the first batch.
pub open spec fn scan_filtered<V>(
    answers: Seq<Option<Vec<BatchRow<V>>>>,
    s: ScanState<V>,
) -> bool {
    &&& s.asked == 1
    &&& exists|c: BatchCache<V>| c.fresh() && #[trigger] refilled(c, answers[0], s.cache)
}

/// The cursor after it was moved on: it asks for the next batch where its rows are
/// used up and more may come.
pub open spec fn scan_moved<V>(
    answers: Seq<Option<Vec<BatchRow<V>>>>,
    a: ScanState<V>,
    b: ScanState<V>,
) -> bool {
    exists|c: BatchCache<V>|
        {
            &&& #[trigger] moved_on(a.cache, c)
            &&& if c.exhausted() {
                refilled(c, answers[a.asked], b.cache) && b.asked == a.asked + 1
            } else {
                b.cache == c && b.asked == a.asked
            }
        }
}

/// The state `i` of a scan leads to the next one.
pub open spec fn scan_stepped<V>(
    answers: Seq<Option<Vec<BatchRow<V>>>>,
    states: Seq<ScanState<V>>,
    i: int,
) -> bool {
    scan_moved(answers, states[i], states[i + 1])
}

/// `states` are the states of a cursor after a filter and after each time that it
/// was moved on since, where `answers` are the answers to its requests in order.
pub open spec fn scan<V>(
    answers: Seq<Option<Vec<BatchRow<V>>>>,
    states: Seq<ScanState<V>>,
) -> bool {
    &&& states.len() > 0
    &&& scan_filtered(answers, states[0])
    &&& forall|i: int| 0 <= i < states.len() - 1 ==> #[trigger] scan_stepped(answers, states, i)
}

/// The rows that a cursor still has to hand out.
pub open spec fn upcoming<V>(
    answers: Seq<Option<Vec<BatchRow<V>>>>,
    s: ScanState<V>,
) -> Seq<BatchRow<V>> {
    let rest = if s.cache.idx < s.cache.rows@.len() {
        s.cache.rows@.skip(s.cache.idx as int)
    } else {
        Seq::empty()
    };
    if s.cache.eof_seen {
        rest
    } else {
        rest + batch_rows(answers_from(answers, s.asked))
    }
}

/// The cursor stands on a row or at the end, and has seen the end where and only
/// where it has got every answer.
pub open spec fn on_course<V>(
    answers: Seq<Option<Vec<BatchRow<V>>>>,
    s: ScanState<V>,
) -> bool {
    &&& s.cache.settled()
    &&& 0 <= s.asked <= answers.len()
    &&& s.cache.eof_seen <==> s.asked == answers.len()
}

/// An answer adds its rows to what a cursor without rows hands out.
proof fn lemma_answered<V>(
    answers: Seq<Option<Vec<BatchRow<V>>>>,
    c: BatchCache<V>,
    asked: int,
    after: BatchCache<V>,
)
    requires
        ends_once(answers),
        0 <= asked < answers.len(),
        c.exhausted(),
        refilled(c, answers[asked], after),
    ensures
        on_course(answers, ScanState { cache: after, asked: asked + 1 }),
        upcoming(answers, ScanState { cache: after, asked: asked + 1 }) == batch_rows(
            answers_from(answers, asked),
        ),
{
    let s = ScanState { cache: after, asked: asked + 1 };
    let batches = answers_from(answers, asked);
    let rows = answer_rows(answers[asked]);
    assert(batches[0] == rows);
    assert(batches.skip(1) =~= answers_from(answers, asked + 1));
    if rows.len() > 0 {
        assert(after.rows@.skip(0) =~= rows);
    }
    assert(upcoming(answers, s) =~= batch_rows(batches));
}

/// Moving a cursor on takes exactly the current row off what it still has to hand
/// out, whether or not another batch has to be fetched for it; at the end nothing
/// changes and nothing is asked for.
pub proof fn lemma_next_takes_one_row<V>(
    answers: Seq<Option<Vec<BatchRow<V>>>>,
    a: ScanState<V>,
    b: ScanState<V>,
)
    requires
        ends_once(answers),
        on_course(answers, a),
        scan_moved(answers, a, b),
    ensures
        on_course(answers, b),
        a.cache.at_end() <==> upcoming(answers, a).len() == 0,
        if a.cache.at_end() {
            b.cache.at_end() && b.asked == a.asked
        } else {
            &&& upcoming(answers, a)[0] == a.cache.rows@[a.cache.idx as int]
            &&& upcoming(answers, b) == upcoming(answers, a).skip(1)
        },
{
    let c = choose|c: BatchCache<V>|
        {
            &&& #[trigger] moved_on(a.cache, c)
            &&& if c.exhausted() {
                refilled(c, answers[a.asked], b.cache) && b.asked == a.asked + 1
            } else {
                b.cache == c && b.asked == a.asked
            }
        };
    if !a.cache.at_end() {
        assert(a.cache.rows@.len() == a.cache.rows.len());
        let rest = a.cache.rows@.skip(a.cache.idx as int);
        assert(rest[0] == a.cache.rows@[a.cache.idx as int]);
        if c.exhausted() {
            lemma_answered(answers, c, a.asked, b.cache);
            assert(b == ScanState { cache: b.cache, asked: a.asked + 1 });
            assert(upcoming(answers, a).skip(1) =~= batch_rows(answers_from(answers, a.asked)));
        } else {
            assert(upcoming(answers, b) =~= upcoming(answers, a).skip(1));
        }
    }
}

/// Where a cursor stands after it was moved on `i` times since a filter.
proof fn lemma_scan_state<V>(
    answers: Seq<Option<Vec<BatchRow<V>>>>,
    states: Seq<ScanState<V>>,
    i: int,
)
    requires
        ends_once(answers),
        scan(answers, states),
        0 <= i < states.len(),
    ensures
        on_course(answers, states[i]),
        states[i].cache.at_end() <==> upcoming(answers, states[i]).len() == 0,
        upcoming(answers, states[i]) == if i < batch_rows(answers_from(answers, 0)).len() {
            batch_rows(answers_from(answers, 0)).skip(i)
        } else {
            Seq::empty()
        },
    decreases i,
{
    let rows = batch_rows(answers_from(answers, 0));
    if i == 0 {
        let s = states[0];
        let c = choose|c: BatchCache<V>|
            c.fresh() && #[trigger] refilled(c, answers[0], s.cache);
        lemma_answered(answers, c, 0, s.cache);
        assert(s == ScanState { cache: s.cache, asked: 1 });
        assert(rows.skip(0) =~= rows);
        if rows.len() == 0 {
            assert(rows =~= Seq::empty());
        }
    } else {
        let a = states[i - 1];
        let b = states[i];
        lemma_scan_state(answers, states, i - 1);
        assert(scan_stepped(answers, states, i - 1));
        lemma_next_takes_one_row(answers, a, b);
        if i - 1 < rows.len() {
            assert(rows.skip(i - 1).skip(1) =~= rows.skip(i));
            if i == rows.len() {
                assert(rows.skip(i) =~= Seq::empty());
            }
        } else {
            assert(upcoming(answers, b) =~= Seq::empty());
        }
    }
    if states[i].cache.at_end() {
        assert(upcoming(answers, states[i]).len() == 0);
    } else {
        assert(upcoming(answers, states[i]).len() > 0);
    }
}

/// The rows up to the first answer without rows are the rows of all answers.
proof fn lemma_batches_join<V>(answers: Seq<Option<Vec<BatchRow<V>>>>, from: int)
    requires
        ends_once(answers),
        0 <= from < answers.len(),
    ensures
        batch_rows(answers_from(answers, from)) == answers_from(answers, from).flatten(),
    decreases answers.len() - from,
{
    let batches = answers_from(answers, from);
    let rest = batches.skip(1);
    assert(batches[0] == answer_rows(answers[from]));
    assert(rest =~= answers_from(answers, from + 1));
    assert(batches.drop_first() =~= rest);
    if from < answers.len() - 1 {
        lemma_batches_join(answers, from + 1);
    } else {
        batches.lemma_flatten_one_element();
        assert(batches.flatten() =~= Seq::empty());
    }
}

/// A whole scan: where the answers are batches with rows and then one without rows
/// or an error, a cursor stands on the rows of all batches one after the other, in
/// order and each once, and is at the end after them, however often it is moved on;
/// every answer is asked for by then, and none beyond.
pub proof fn lemma_scan_hands_out_every_row<V>(
    answers: Seq<Option<Vec<BatchRow<V>>>>,
    states: Seq<ScanState<V>>,
    i: int,
)
    requires
        ends_once(answers),
        scan(answers, states),
        0 <= i < states.len(),
    ensures
        ({
            let rows = answers_from(answers, 0).flatten();
            let s = states[i];
            if i < rows.len() {
                &&& !s.cache.at_end()
                &&& s.cache.idx < s.cache.rows@.len()
                &&& s.cache.rows@[s.cache.idx as int] == rows[i]
                &&& s.asked <= answers.len()
            } else {
                s.cache.at_end() && s.asked == answers.len()
            }
        }),
{
    lemma_scan_state(answers, states, i);
    lemma_batches_join(answers, 0);
    let rows = answers_from(answers, 0).flatten();
    let s = states[i];
    if i < rows.len() {
        assert(rows.skip(i)[0] == rows[i]);
        assert(upcoming(answers, s)[0] == s.cache.rows@[s.cache.idx as int]);
    }
}

/// The kinds of constraint that a table can be asked about.
#[derive(Copy, Clone, Debug, PartialEq, Eq, Structural)]
pub enum ConstraintOp {
    Eq,
    Gt,
    Le,
    Lt,
    Ge,
    Ne,
    Match,
    Like,
    Regexp,
    Glob,
    IsNull,
    IsNotNull,
    Limit,
    Offset,
    Function,
}

/// The kind of constraint behind the engine's operator code. A code that is not
/// known counts as a function.
pub open spec fn constraint_op(op: u8) -> ConstraintOp {
    match op {
        2 => ConstraintOp::Eq,
        4 => ConstraintOp::Gt,
        8 => ConstraintOp::Le,
        16 => ConstraintOp::Lt,
        32 => ConstraintOp::Ge,
        68 => ConstraintOp::Ne,
        64 => ConstraintOp::Match,
        65 => ConstraintOp::Like,
        67 => ConstraintOp::Regexp,
        66 => ConstraintOp::Glob,
        71 => ConstraintOp::IsNull,
        70 => ConstraintOp::IsNotNull,
        73 => ConstraintOp::Limit,
        74 => ConstraintOp::Offset,
        _ => ConstraintOp::Function,
    }
}

/// The kind of constraint behind the engine's operator code.
pub fn map_constraint_op(op: u8) -> (r: ConstraintOp)
    ensures
        r == constraint_op(op),
{
    match op {
        2 => ConstraintOp::Eq,
        4 => ConstraintOp::Gt,
        8 => ConstraintOp::Le,
        16 => ConstraintOp::Lt,
        32 => ConstraintOp::Ge,
        68 => ConstraintOp::Ne,
        64 => ConstraintOp::Match,
        65 => ConstraintOp::Like,
        67 => ConstraintOp::Regexp,
        66 => ConstraintOp::Glob,
        71 => ConstraintOp::IsNull,
        70 => ConstraintOp::IsNotNull,
        73 => ConstraintOp::Limit,
        74 => ConstraintOp::Offset,
        _ => ConstraintOp::Function,
    }
}

/// A constraint as the engine gives it.
#[derive(Copy, Clone, Debug, PartialEq, Eq, Structural)]
pub struct RawConstraint {
    pub column: i32,
    pub op: u8,
    pub usable: u8,
}

/// An ordering as the engine gives it.
#[derive(Copy, Clone, Debug, PartialEq, Eq, Structural)]
pub struct RawOrderby {
    pub column: i32,
    pub desc: u8,
}

/// A constraint as the extension gets it.
#[derive(Copy, Clone, Debug, PartialEq, Eq, Structural)]
pub struct Constraint {
    pub column: i32,
    pub op: ConstraintOp,
    pub usable: bool,
}

/// An ordering as the extension gets it.
#[derive(Copy, Clone, Debug, PartialEq, Eq, Structural)]
pub struct Orderby {
    pub column: i32,
    pub desc: bool,
}

/// What the extension is asked to plan for.
pub struct IndexInfo {
    pub constraints: Vec<Constraint>,
    pub orderbys: Vec<Orderby>,
    pub col_used: u64,
}

/// A constraint, for the extension.
pub open spec fn constraint_of(c: RawConstraint) -> Constraint {
    Constraint { column: c.column, op: constraint_op(c.op), usable: c.usable != 0 }
}

/// An ordering, for the extension.
pub open spec fn orderby_of(o: RawOrderby) -> Orderby {
    Orderby { column: o.column, desc: o.desc != 0 }
}

/// What the extension is asked to plan for.
pub fn index_info(constraints: &Vec<RawConstraint>, orderbys: &Vec<RawOrderby>, col_used: u64) -> (r:
    IndexInfo)
    ensures
        r.constraints@ == constraints@.map_values(|c: RawConstraint| constraint_of(c)),
        r.orderbys@ == orderbys@.map_values(|o: RawOrderby| orderby_of(o)),
        r.col_used == col_used,
{
    let mut cs: Vec<Constraint> = Vec::new();
    let mut i: usize = 0;
    let ghost want_cs = constraints@.map_values(|c: RawConstraint| constraint_of(c));
    while i < constraints.len()
        invariant
            i <= constraints.len(),
            want_cs == constraints@.map_values(|c: RawConstraint| constraint_of(c)),
            cs@ =~= want_cs.take(i as int),
        decreases constraints.len() - i,
    {
        let c: RawConstraint = constraints[i];
        cs.push(
            Constraint { column: c.column, op: map_constraint_op(c.op), usable: c.usable != 0 },
        );
        i = i + 1;
    }
    assert(want_cs.take(i as int) =~= want_cs);
    let mut os: Vec<Orderby> = Vec::new();
    let mut k: usize = 0;
    let ghost want_os = orderbys@.map_values(|o: RawOrderby| orderby_of(o));
    while k < orderbys.len()
        invariant
            k <= orderbys.len(),
            want_os == orderbys@.map_values(|o: RawOrderby| orderby_of(o)),
            os@ =~= want_os.take(k as int),
        decreases orderbys.len() - k,
    {
        let o: RawOrderby = orderbys[k];
        os.push(Orderby { column: o.column, desc: o.desc != 0 });
        k = k + 1;
    }
    assert(want_os.take(k as int) =~= want_os);
    IndexInfo { constraints: cs, orderbys: os, col_used }
}

/// How the extension wants a constraint used.
#[derive(Copy, Clone, Debug, PartialEq, Eq, Structural)]
pub struct ConstraintUsage {
    pub argv_index: i32,
    pub omit: bool,
}

/// The extension's plan, but for the cost, which is passed on as it is.
pub struct IndexPlan {
    pub constraint_usage: Vec<ConstraintUsage>,
    pub idx_num: i32,
    pub idx_str: Option<String>,
    pub estimated_rows: i64,
    pub orderby_consumed: bool,
}

/// The use of a constraint as the engine takes it.
#[derive(Copy, Clone, Debug, PartialEq, Eq, Structural)]
pub struct RawUsage {
    pub argv_index: i32,
    pub omit: u8,
}

/// The plan as the engine takes it.
pub struct PlanOutput {
    pub usages: Vec<RawUsage>,
    pub idx_num: i32,
    pub idx_str: Option<Vec<u8>>,
    pub estimated_rows: i64,
    pub orderby_consumed: i32,
}

/// The use of a constraint, for the engine.
pub open spec fn usage_of(u: ConstraintUsage) -> RawUsage {
    RawUsage {
        argv_index: u.argv_index,
        omit: if u.omit {
            1
        } else {
            0
        },
    }
}

/// `r` is the plan for the engine, which asked about `n_constraint` constraints:
/// uses beyond those are dropped, and so is an index text that holds a NUL.
pub open spec fn plan_applied(plan: IndexPlan, n_constraint: usize, r: PlanOutput) -> bool {
    let used = plan.constraint_usage@;
    let n = if used.len() < n_constraint {
        used.len() as int
    } else {
        n_constraint as int
    };
    &&& r.usages@ == used.take(n).map_values(|u: ConstraintUsage| usage_of(u))
    &&& r.idx_num == plan.idx_num
    &&& match plan.idx_str {
        Some(s) => if encode_utf8(s@).contains(0u8) {
            r.idx_str is None
        } else {
            r.idx_str is Some && r.idx_str->0@ == c_bytes(s@)
        },
        None => r.idx_str is None,
    }
    &&& r.estimated_rows == plan.estimated_rows
    &&& r.orderby_consumed == if plan.orderby_consumed {
        1i32
    } else {
        0i32
    }
}

/// The plan for the engine, which asked about `n_constraint` constraints.
pub fn apply_plan(plan: IndexPlan, n_constraint: usize) -> (r: PlanOutput)
    ensures
        plan_applied(plan, n_constraint, r),
{
    let n: usize = if plan.constraint_usage.len() < n_constraint {
        plan.constraint_usage.len()
    } else {
        n_constraint
    };
    let ghost want = plan.constraint_usage@.take(n as int).map_values(
        |u: ConstraintUsage| usage_of(u),
    );
    let mut usages: Vec<RawUsage> = Vec::new();
    let mut i: usize = 0;
    while i < n
        invariant
            i <= n <= plan.constraint_usage.len(),
            want == plan.constraint_usage@.take(n as int).map_values(
                |u: ConstraintUsage| usage_of(u),
            ),
            usages@ =~= want.take(i as int),
        decreases n - i,
    {
        let u: ConstraintUsage = plan.constraint_usage[i];
        usages.push(
            RawUsage {
                argv_index: u.argv_index,
                omit: if u.omit {
                    1
                } else {
                    0
                },
            },
        );
        i = i + 1;
    }
    assert(want.take(i as int) =~= want);
    let idx_str: Option<Vec<u8>> = match &plan.idx_str {
        Some(s) => c_string(s.as_str()),
        None => None,
    };
    PlanOutput {
        usages,
        idx_num: plan.idx_num,
        idx_str,
        estimated_rows: plan.estimated_rows,
        orderby_consumed: if plan.orderby_consumed {
            1
        } else {
            0
        },
    }
}

/// `msg` as a C string, or `fallback` if `msg` holds a NUL.
pub open spec fn error_bytes(msg: Seq<char>, fallback: Seq<char>) -> Seq<u8> {
    if encode_utf8(msg).contains(0u8) {
        encode_utf8(fallback).push(0u8)
    } else {
        c_bytes(msg)
    }
}

fn error_or(msg: &str, fallback: &str) -> (r: Vec<u8>)
    ensures
        r@ == error_bytes(msg@, fallback@),
{
    match c_string(msg) {
        Some(v) => v,
        None => {
            let mut v = vstd::slice::slice_to_vec(fallback.as_bytes());
            v.push(0u8);
            v
        },
    }
}

/// The error text for the engine.
pub fn set_err(msg: &str) -> (r: Vec<u8>)
    ensures
        r@ == error_bytes(msg@, "vtab error (non-UTF8 message)"@),
{
    error_or(msg, "vtab error (non-UTF8 message)")
}

/// What planning came to, for the engine: the plan, or its code and an error
/// text.
pub fn best_index_reply(reply: Result<IndexPlan, String>, n_constraint: usize) -> (r: Result<
    PlanOutput,
    (i32, Vec<u8>),
>)
    ensures
        match reply {
            Ok(plan) => r is Ok && plan_applied(plan, n_constraint, r->Ok_0),
            Err(e) => {
                &&& r is Err
                &&& r->Err_0.0 == SQLITE_ERROR
                &&& r->Err_0.1@ == error_bytes(e@, "best_index"@)
            },
        },
{
    match reply {
        Ok(plan) => Ok(apply_plan(plan, n_constraint)),
        Err(e) => Err((SQLITE_ERROR, error_or(e.as_str(), "best_index"))),
    }
}

/// The engine's code for an answer that carries nothing else: whatever the error,
/// it is the generic one.
pub fn reply_code(ok: bool) -> (r: i32)
    ensures
        r == if ok {
            SQLITE_OK
        } else {
            SQLITE_ERROR
        },
{
    if ok {
        SQLITE_OK
    } else {
        SQLITE_ERROR
    }
}

/// The request that a table is created or connected to with.
pub struct ConnectRequest {
    pub instance_id: u64,
    pub create: bool,
    pub db_name: String,
    pub table_name: String,
    pub user_args: Vec<String>,
}

/// Item `i`, or nothing where there are fewer.
pub open spec fn text_at(v: Seq<Seq<char>>, i: int) -> Seq<char> {
    if i < v.len() {
        v[i]
    } else {
        Seq::empty()
    }
}

/// What is left from item `i` on.
pub open spec fn texts_from(v: Seq<Seq<char>>, i: int) -> Seq<Seq<char>> {
    if i < v.len() {
        v.skip(i)
    } else {
        Seq::empty()
    }
}

fn arg_at(args: &Vec<String>, i: usize) -> (r: String)
    ensures
        r@ == text_at(texts(args@), i as int),
{
    if i < args.len() {
        args[i].clone()
    } else {
        let s = String::new();
        assert(s@ =~= Seq::empty());
        s
    }
}

fn args_from(args: &Vec<String>, from: usize) -> (r: Vec<String>)
    ensures
        texts(r@) == texts_from(texts(args@), from as int),
{
    let mut r: Vec<String> = Vec::new();
    let ghost all = texts(args@);
    let ghost want = texts_from(all, from as int);
    assert(texts(r@) =~= Seq::empty());
    if from >= args.len() {
        return r;
    }
    let mut i: usize = from;
    assert(want.take(0) =~= Seq::empty());
    while i < args.len()
        invariant
            all == texts(args@),
            want == all.skip(from as int),
            from <= i <= args.len(),
            texts(r@) == want.take(i - from),
        decreases args.len() - i,
    {
        let s: String = args[i].clone();
        proof {
            lemma_texts_push(r@, s);
            assert(want.take(i + 1 - from) =~= want.take(i - from).push(s@));
        }
        r.push(s);
        i = i + 1;
    }
    assert(want.take(i - from) =~= want);
    r
}

/// What moving a cursor on needs.
#[derive(Debug)]
pub enum NextStep {
    /// The engine gets this code, and nothing else is needed.
    Done(i32),
    /// More rows, to be reported with `refill_batch`; the engine gets the code
    /// for success whatever comes.
    Refill,
    /// The extension has to be asked to move on.
    Ask,
}

/// What a filter needs once the extension has answered it.
#[derive(Debug)]
pub enum FilterStep {
    /// The engine gets this code.
    Done(i32),
    /// More rows, to be reported with `refill_batch`; the engine gets the code
    /// for success whatever comes.
    Refill,
}

/// A column of the current row.
pub enum ColumnStep<'a, V> {
    /// The engine gets this code and no value.
    Code(i32),
    /// The engine gets this value.
    Value(&'a V),
    /// The engine gets a null.
    Null,
    /// The extension has to be asked.
    Ask,
}

/// Whether a cursor is at its end, or the row number of its current row.
#[derive(Debug)]
pub enum RowStep<T> {
    /// The engine gets this code, and no answer.
    Code(i32),
    /// The engine gets this answer.
    Value(T),
    /// The extension has to be asked.
    Ask,
}

/// The module that is registered for a table.
#[derive(Copy, Clone, Debug, PartialEq, Eq, Structural)]
pub enum ModuleKind {
    /// Rows can be read.
    ReadOnly,
    /// Rows can be read without creating the table first.
    Eponymous,
    /// Rows can be read and written.
    Mutable,
}

/// An error, as the engine's interface shows it.
#[derive(Debug)]
pub struct SqliteError {
    pub code: i32,
    pub extended_code: i32,
    pub message: String,
}

/// `e` is a misuse with the text `message`.
pub open spec fn is_misuse(e: SqliteError, message: Seq<char>) -> bool {
    e.code == SQLITE_MISUSE && e.extended_code == SQLITE_MISUSE && e.message@ == message
}

/// A misuse with the text `message`.
pub fn err_sqlite(message: String) -> (r: SqliteError)
    ensures
        is_misuse(r, message@),
{
    SqliteError { code: SQLITE_MISUSE, extended_code: SQLITE_MISUSE, message }
}

/// What a registration hands to the engine.
pub struct RegisterRequest {
    pub name: Vec<u8>,
    pub kind: ModuleKind,
    pub aux: ModuleAux,
}

/// The module for a table: one that can be written is never eponymous.
pub open spec fn module_kind(eponymous: bool, mutable: bool) -> ModuleKind {
    if mutable {
        ModuleKind::Mutable
    } else if eponymous {
        ModuleKind::Eponymous
    } else {
        ModuleKind::ReadOnly
    }
}

/// The text of a module name with a NUL at `position`.
pub open spec fn bad_name_text(position: nat) -> Seq<char> {
    "register-host-vtab: bad name: nul byte found in provided data at position: "@ + decimal(
        position,
    )
}

/// The text of a module that the engine refused with `rc`.
pub open spec fn create_failed_text(rc: i32) -> Seq<char> {
    "sqlite3_create_module_v2 failed: rc="@ + signed_decimal(rc as int)
}

/// `i` is where `b` holds its first NUL.
pub open spec fn first_nul(b: Seq<u8>, i: int) -> bool {
    0 <= i < b.len() && b[i] == 0 && forall|j: int| 0 <= j < i ==> b[j] != 0
}

/// Checks a registration and works out what is handed to the engine.
pub fn register_host_vtab(
    ext_name: String,
    name: &str,
    vtab_id: u64,
    eponymous: bool,
    mutable: bool,
    batched: bool,
) -> (r: Result<RegisterRequest, SqliteError>)
    ensures
        match r {
            Ok(req) => {
                &&& name@.len() > 0
                &&& ext_name@.len() > 0
                &&& !encode_utf8(name@).contains(0u8)
                &&& req.name@ == c_bytes(name@)
                &&& req.kind == module_kind(eponymous, mutable)
                &&& req.aux.ext_name@ == ext_name@
                &&& req.aux.vtab_id == vtab_id
                &&& req.aux.eponymous == eponymous
                &&& req.aux.batched == batched
            },
            Err(e) => if name@.len() == 0 {
                is_misuse(e, "register-host-vtab: empty module name"@)
            } else if ext_name@.len() == 0 {
                is_misuse(e, "register-host-vtab: empty extension name"@)
            } else {
                exists|i: int| #[trigger]
                    first_nul(encode_utf8(name@), i) && is_misuse(e, bad_name_text(i as nat))
            },
        },
{
    if name.is_empty() {
        return Err(err_sqlite(String::from_str("register-host-vtab: empty module name")));
    }
    if ext_name.as_str().is_empty() {
        return Err(err_sqlite(String::from_str("register-host-vtab: empty extension name")));
    }
    match find_nul(name.as_bytes()) {
        Some(i) => {
            let mut s = String::from_str(
                "register-host-vtab: bad name: nul byte found in provided data at position: ",
            );
            push_decimal(&mut s, i as u64);
            assert(first_nul(encode_utf8(name@), i as int));
            Err(err_sqlite(s))
        },
        None => {
            let mut bytes = vstd::slice::slice_to_vec(name.as_bytes());
            bytes.push(0u8);
            Ok(
                RegisterRequest {
                    name: bytes,
                    kind: if mutable {
                        ModuleKind::Mutable
                    } else if eponymous {
                        ModuleKind::Eponymous
                    } else {
                        ModuleKind::ReadOnly
                    },
                    aux: ModuleAux { ext_name, vtab_id, eponymous, batched },
                },
            )
        },
    }
}

/// The tables, the cursors over them, their caches, and the modules that each
/// extension registered.
pub struct HostVtabs<V> {
    instances: HashMap<u64, VtabMeta>,
    cursors: HashMap<u64, VtabMeta>,
    caches: HashMap<u64, BatchCache<V>>,
    next_instance: u64,
    next_cursor: u64,
    module_names: NameTable<Vec<String>>,
}

/// The tables of requests, as the model sees them.
pub open spec fn meta_views(m: Map<u64, VtabMeta>) -> Map<u64, MetaView> {
    m.map_values(|v: VtabMeta| v@)
}

impl<V> HostVtabs<V> {
    /// The tables, by number.
    pub closed spec fn instances(&self) -> Map<u64, MetaView> {
        meta_views(self.instances@)
    }

    /// The cursors, by number.
    pub closed spec fn cursors(&self) -> Map<u64, MetaView> {
        meta_views(self.cursors@)
    }

    /// The caches, by the number of the cursor.
    pub closed spec fn caches(&self) -> Map<u64, BatchCache<V>> {
        self.caches@
    }

    /// The number of the next table.
    pub closed spec fn next_instance(&self) -> u64 {
        self.next_instance
    }

    /// The number of the next cursor.
    pub closed spec fn next_cursor(&self) -> u64 {
        self.next_cursor
    }

    /// The names of the modules that each extension registered, in order.
    pub closed spec fn modules(&self) -> Map<Seq<char>, Seq<Seq<char>>> {
        self.module_names@.map_values(|v: Vec<String>| texts(v@))
    }

    /// Numbers in use have been handed out.
    pub closed spec fn wf(&self) -> bool {
        &&& self.module_names.wf()
        &&& forall|id: u64| #[trigger] self.instances@.contains_key(id) ==> id < self.next_instance
        &&& forall|id: u64| #[trigger] self.cursors@.contains_key(id) ==> id < self.next_cursor
    }

    /// Nothing but the tables and their numbers may differ.
    pub open spec fn same_but_instances(&self, other: &Self) -> bool {
        &&& self.cursors() == other.cursors()
        &&& self.caches() == other.caches()
        &&& self.next_cursor() == other.next_cursor()
        &&& self.modules() == other.modules()
    }

    /// Nothing but the cursors, their numbers and caches may differ.
    pub open spec fn same_but_cursors(&self, other: &Self) -> bool {
        &&& self.instances() == other.instances()
        &&& self.next_instance() == other.next_instance()
        &&& self.modules() == other.modules()
    }

    /// Nothing but the cache of the cursor `id` may differ.
    pub open spec fn same_but_cache(&self, other: &Self, id: u64) -> bool {
        &&& self.same_but_cursors(other)
        &&& self.cursors() == other.cursors()
        &&& self.next_cursor() == other.next_cursor()
        &&& self.caches().remove(id) == other.caches().remove(id)
    }

    /// Numbers in use are below the next one, so a new number is unused.
    pub proof fn lemma_fresh(&self)
        requires
            self.wf(),
        ensures
            !self.instances().contains_key(self.next_instance()),
            !self.cursors().contains_key(self.next_cursor()),
    {
    }

    /// No tables, no cursors and no modules; numbers start at 1.
    pub fn new() -> (r: Self)
        ensures
            r.wf(),
            r.instances() == Map::<u64, MetaView>::empty(),
            r.cursors() == Map::<u64, MetaView>::empty(),
            r.caches() == Map::<u64, BatchCache<V>>::empty(),
            r.modules() == Map::<Seq<char>, Seq<Seq<char>>>::empty(),
            r.next_instance() == 1,
            r.next_cursor() == 1,
    {
        broadcast use vstd::std_specs::hash::group_hash_axioms;

        let r = HostVtabs {
            instances: HashMap::new(),
            cursors: HashMap::new(),
            caches: HashMap::new(),
            next_instance: 1,
            next_cursor: 1,
            module_names: NameTable::new(),
        };
        proof {
            assert(r.instances() =~= Map::<u64, MetaView>::empty());
            assert(r.cursors() =~= Map::<u64, MetaView>::empty());
            assert(r.modules() =~= Map::<Seq<char>, Seq<Seq<char>>>::empty());
        }
        r
    }

    /// Whether there are numbers left for another table and another cursor.
    pub fn numbers_left(&self) -> (r: bool)
        ensures
            r == (self.next_instance() < u64::MAX && self.next_cursor() < u64::MAX),
    {
        self.next_instance < u64::MAX && self.next_cursor < u64::MAX
    }

    /// The table with the number `id`.
    pub fn instance_meta(&self, id: u64) -> (r: Option<VtabMeta>)
        ensures
            match r {
                Some(m) => self.instances().contains_key(id) && m@ == self.instances()[id],
                None => !self.instances().contains_key(id),
            },
    {
        broadcast use vstd::std_specs::hash::group_hash_axioms;

        match self.instances.get(&id) {
            Some(m) => Some(m.copy()),
            None => None,
        }
    }

    /// The table behind the cursor with the number `id`.
    pub fn cursor_meta(&self, id: u64) -> (r: Option<VtabMeta>)
        ensures
            match r {
                Some(m) => self.cursors().contains_key(id) && m@ == self.cursors()[id],
                None => !self.cursors().contains_key(id),
            },
    {
        broadcast use vstd::std_specs::hash::group_hash_axioms;

        match self.cursors.get(&id) {
            Some(m) => Some(m.copy()),
            None => None,
        }
    }

    /// Numbers a new table and works out the request that it is created or
    /// connected to with. The engine's arguments are the module, the database,
    /// the table and then the user's.
    pub fn create_or_connect(&mut self, aux: &ModuleAux, args: &Vec<String>, is_connect: bool) -> (r:
        ConnectRequest)
        requires
            old(self).wf(),
            old(self).next_instance() < u64::MAX,
        ensures
            final(self).wf(),
            final(self).same_but_instances(old(self)),
            r.instance_id == old(self).next_instance(),
            final(self).next_instance() == old(self).next_instance() + 1,
            final(self).instances() == old(self).instances().insert(
                r.instance_id,
                (MetaView {
                    ext_name: aux.ext_name@,
                    vtab_id: aux.vtab_id,
                    batched: aux.batched,
                }),
            ),
            r.create == !(is_connect || aux.eponymous),
            r.db_name@ == text_at(texts(args@), 1),
            r.table_name@ == text_at(texts(args@), 2),
            texts(r.user_args@) == texts_from(texts(args@), 3),
    {
        broadcast use vstd::std_specs::hash::group_hash_axioms;

        let instance_id: u64 = self.next_instance;
        self.next_instance = instance_id + 1;
        let meta = VtabMeta {
            ext_name: aux.ext_name.clone(),
            vtab_id: aux.vtab_id,
            batched: aux.batched,
        };
        let ghost mv = meta@;
        self.instances.insert(instance_id, meta);
        assert(self.instances() =~= old(self).instances().insert(instance_id, mv));
        ConnectRequest {
            instance_id,
            create: !(is_connect || aux.eponymous),
            db_name: arg_at(args, 1),
            table_name: arg_at(args, 2),
            user_args: args_from(args, 3),
        }
    }

    /// Takes the extension's answer to the request for a new table: the schema
    /// to declare, or the error text for the engine, and then the table is
    /// dropped again.
    pub fn connect_reply(&mut self, instance_id: u64, reply: Result<String, String>) -> (r: Result<
        Vec<u8>,
        Vec<u8>,
    >)
        requires
            old(self).wf(),
        ensures
            final(self).wf(),
            final(self).same_but_instances(old(self)),
            final(self).next_instance() == old(self).next_instance(),
            final(self).instances() == if r is Ok {
                old(self).instances()
            } else {
                old(self).instances().remove(instance_id)
            },
            match reply {
                Ok(schema) => if encode_utf8(schema@).contains(0u8) {
                    r is Err && r->Err_0@ == error_bytes(
                        "vtab schema contained NUL"@,
                        "vtab error (non-UTF8 message)"@,
                    )
                } else {
                    r is Ok && r->Ok_0@ == c_bytes(schema@)
                },
                Err(e) => r is Err && r->Err_0@ == error_bytes(
                    e@,
                    "vtab error (non-UTF8 message)"@,
                ),
            },
    {
        match reply {
            Ok(schema) => match c_string(schema.as_str()) {
                Some(c) => Ok(c),
                None => {
                    self.drop_instance(instance_id);
                    Err(set_err("vtab schema contained NUL"))
                },
            },
            Err(e) => {
                self.drop_instance(instance_id);
                Err(set_err(e.as_str()))
            },
        }
    }

    /// Takes the engine's answer to the declared schema: on failure the table is
    /// dropped again.
    pub fn declared(&mut self, instance_id: u64, rc: i32) -> (r: i32)
        requires
            old(self).wf(),
        ensures
            final(self).wf(),
            final(self).same_but_instances(old(self)),
            final(self).next_instance() == old(self).next_instance(),
            r == rc,
            final(self).instances() == if rc == SQLITE_OK {
                old(self).instances()
            } else {
                old(self).instances().remove(instance_id)
            },
    {
        if rc != SQLITE_OK {
            self.drop_instance(instance_id);
        }
        rc
    }

    /// Drops the table with the number `id`.
    pub fn drop_instance(&mut self, id: u64)
        requires
            old(self).wf(),
        ensures
            final(self).wf(),
            final(self).same_but_instances(old(self)),
            final(self).next_instance() == old(self).next_instance(),
            final(self).instances() == old(self).instances().remove(id),
    {
        broadcast use vstd::std_specs::hash::group_hash_axioms;

        self.instances.remove(&id);
        assert(self.instances() =~= old(self).instances().remove(id));
    }

    /// Drops the table with the number `id`, and gives out what to tell the
    /// extension about, if it was there.
    pub fn x_disconnect(&mut self, id: u64) -> (r: Option<VtabMeta>)
        requires
            old(self).wf(),
        ensures
            final(self).wf(),
            final(self).same_but_instances(old(self)),
            final(self).next_instance() == old(self).next_instance(),
            final(self).instances() == old(self).instances().remove(id),
            match r {
                Some(m) => old(self).instances().contains_key(id) && m@ == old(
                    self,
                ).instances()[id],
                None => !old(self).instances().contains_key(id),
            },
    {
        let r: Option<VtabMeta> = self.instance_meta(id);
        self.drop_instance(id);
        r
    }

    /// The table that a request on the table `id` goes to; without it the engine
    /// gets the code for an internal error.
    pub fn instance_target(&self, id: u64) -> (r: Result<VtabMeta, i32>)
        ensures
            match r {
                Ok(m) => self.instances().contains_key(id) && m@ == self.instances()[id],
                Err(rc) => !self.instances().contains_key(id) && rc == SQLITE_INTERNAL,
            },
    {
        match self.instance_meta(id) {
            Some(m) => Ok(m),
            None => Err(SQLITE_INTERNAL),
        }
    }

    /// What the table `id` is asked to plan for, and whom to ask; without the
    /// table the engine gets the code for an internal error.
    pub fn x_best_index(
        &self,
        id: u64,
        constraints: &Vec<RawConstraint>,
        orderbys: &Vec<RawOrderby>,
        col_used: u64,
    ) -> (r: Result<(VtabMeta, IndexInfo), i32>)
        ensures
            match r {
                Ok((m, info)) => {
                    &&& self.instances().contains_key(id)
                    &&& m@ == self.instances()[id]
                    &&& info.constraints@ == constraints@.map_values(
                        |c: RawConstraint| constraint_of(c),
                    )
                    &&& info.orderbys@ == orderbys@.map_values(|o: RawOrderby| orderby_of(o))
                    &&& info.col_used == col_used
                },
                Err(rc) => !self.instances().contains_key(id) && rc == SQLITE_INTERNAL,
            },
    {
        match self.instance_target(id) {
            Ok(m) => Ok((m, index_info(constraints, orderbys, col_used))),
            Err(rc) => Err(rc),
        }
    }

    /// Numbers a new cursor over the table `id`: its number, and the table that
    /// the extension is to open it on.
    pub fn x_open(&mut self, id: u64) -> (r: Result<(u64, VtabMeta), i32>)
        requires
            old(self).wf(),
            old(self).next_cursor() < u64::MAX,
        ensures
            final(self).wf(),
            final(self).same_but_cursors(old(self)),
            final(self).caches() == old(self).caches(),
            match r {
                Ok((cursor_id, m)) => {
                    &&& old(self).instances().contains_key(id)
                    &&& m@ == old(self).instances()[id]
                    &&& cursor_id == old(self).next_cursor()
                    &&& final(self).next_cursor() == cursor_id + 1
                    &&& final(self).cursors() == old(self).cursors().insert(cursor_id, m@)
                },
                Err(rc) => {
                    &&& !old(self).instances().contains_key(id)
                    &&& rc == SQLITE_INTERNAL
                    &&& final(self).cursors() == old(self).cursors()
                    &&& final(self).next_cursor() == old(self).next_cursor()
                },
            },
    {
        broadcast use vstd::std_specs::hash::group_hash_axioms;

        match self.instance_target(id) {
            Ok(meta) => {
                let cursor_id: u64 = self.next_cursor;
                self.next_cursor = cursor_id + 1;
                let copy: VtabMeta = meta.copy();
                self.cursors.insert(cursor_id, copy);
                assert(self.cursors() =~= old(self).cursors().insert(cursor_id, meta@));
                Ok((cursor_id, meta))
            },
            Err(rc) => Err(rc),
        }
    }

    /// Takes the extension's answer to a new cursor: on failure the cursor is
    /// dropped again.
    pub fn open_reply(&mut self, cursor_id: u64, ok: bool) -> (r: i32)
        requires
            old(self).wf(),
        ensures
            final(self).wf(),
            final(self).same_but_cursors(old(self)),
            final(self).caches() == old(self).caches(),
            final(self).next_cursor() == old(self).next_cursor(),
            r == if ok {
                SQLITE_OK
            } else {
                SQLITE_ERROR
            },
            final(self).cursors() == if ok {
                old(self).cursors()
            } else {
                old(self).cursors().remove(cursor_id)
            },
    {
        broadcast use vstd::std_specs::hash::group_hash_axioms;

        if !ok {
            self.cursors.remove(&cursor_id);
            assert(self.cursors() =~= old(self).cursors().remove(cursor_id));
            return SQLITE_ERROR;
        }
        SQLITE_OK
    }

    /// Drops a cursor and its cache, and gives out what to tell the extension
    /// about, if the cursor was there.
    pub fn x_close(&mut self, cursor_id: u64) -> (r: Option<VtabMeta>)
        requires
            old(self).wf(),
        ensures
            final(self).wf(),
            final(self).same_but_cursors(old(self)),
            final(self).next_cursor() == old(self).next_cursor(),
            final(self).cursors() == old(self).cursors().remove(cursor_id),
            final(self).caches() == old(self).caches().remove(cursor_id),
            match r {
                Some(m) => old(self).cursors().contains_key(cursor_id) && m@ == old(
                    self,
                ).cursors()[cursor_id],
                None => !old(self).cursors().contains_key(cursor_id),
            },
    {
        broadcast use vstd::std_specs::hash::group_hash_axioms;

        let r: Option<VtabMeta> = self.cursor_meta(cursor_id);
        self.caches.remove(&cursor_id);
        self.cursors.remove(&cursor_id);
        assert(self.cursors() =~= old(self).cursors().remove(cursor_id));
        r
    }

    /// The table that a request on the cursor `id` goes to; without it the engine
    /// gets the code for an internal error.
    pub fn cursor_target(&self, id: u64) -> (r: Result<VtabMeta, i32>)
        ensures
            match r {
                Ok(m) => self.cursors().contains_key(id) && m@ == self.cursors()[id],
                Err(rc) => !self.cursors().contains_key(id) && rc == SQLITE_INTERNAL,
            },
    {
        match self.cursor_meta(id) {
            Some(m) => Ok(m),
            None => Err(SQLITE_INTERNAL),
        }
    }

    /// The cursor is there and hands out rows in batches.
    pub open spec fn is_batched(&self, cursor_id: u64) -> bool {
        self.cursors().contains_key(cursor_id) && self.cursors()[cursor_id].batched
    }

    fn take_cache(&mut self, cursor_id: u64) -> (r: BatchCache<V>)
        requires
            old(self).wf(),
        ensures
            final(self).wf(),
            final(self).same_but_cache(old(self), cursor_id),
            final(self).caches() == old(self).caches().remove(cursor_id),
            if old(self).caches().contains_key(cursor_id) {
                r == old(self).caches()[cursor_id]
            } else {
                r.fresh()
            },
    {
        broadcast use vstd::std_specs::hash::group_hash_axioms;

        let taken: Option<BatchCache<V>> = self.caches.remove(&cursor_id);
        assert(self.caches().remove(cursor_id) =~= old(self).caches().remove(cursor_id));
        match taken {
            Some(c) => c,
            None => BatchCache::new(),
        }
    }

    fn put_cache(&mut self, cursor_id: u64, cache: BatchCache<V>)
        requires
            old(self).wf(),
        ensures
            final(self).wf(),
            final(self).same_but_cache(old(self), cursor_id),
            final(self).caches() == old(self).caches().insert(cursor_id, cache),
    {
        broadcast use vstd::std_specs::hash::group_hash_axioms;

        self.caches.insert(cursor_id, cache);
        assert(self.caches().remove(cursor_id) =~= old(self).caches().remove(cursor_id));
    }

    /// Takes the extension's answer to a request for more rows, or `None` for an
    /// error. The result is whether rows came.
    pub fn refill_batch(&mut self, cursor_id: u64, reply: Option<Vec<BatchRow<V>>>) -> (r: bool)
        requires
            old(self).wf(),
        ensures
            final(self).wf(),
            final(self).same_but_cache(old(self), cursor_id),
            final(self).caches().contains_key(cursor_id),
            r == (reply is Some && reply->0@.len() > 0),
            old(self).caches().contains_key(cursor_id) ==> refilled(
                old(self).caches()[cursor_id],
                reply,
                final(self).caches()[cursor_id],
            ),
            !old(self).caches().contains_key(cursor_id) ==> exists|c: BatchCache<V>|
                c.fresh() && #[trigger] refilled(c, reply, final(self).caches()[cursor_id]),
    {
        let mut cache: BatchCache<V> = self.take_cache(cursor_id);
        let ghost before = cache;
        let got: bool = match reply {
            None => {
                cache.eof_seen = true;
                false
            },
            Some(rows) => {
                let some: bool = rows.len() > 0;
                cache.idx = 0;
                cache.rows = rows;
                if !some {
                    cache.eof_seen = true;
                }
                some
            },
        };
        assert(refilled(before, reply, cache));
        self.put_cache(cursor_id, cache);
        assert(self.caches().remove(cursor_id) =~= old(self).caches().remove(cursor_id));
        assert(refilled(before, reply, self.caches()[cursor_id]));
        got
    }

    /// Takes the extension's answer to a filter. A cursor that hands out rows in
    /// batches starts over.
    pub fn filter_reply(&mut self, cursor_id: u64, ok: bool) -> (r: FilterStep)
        requires
            old(self).wf(),
        ensures
            final(self).wf(),
            final(self).same_but_cache(old(self), cursor_id),
            r == if !ok {
                FilterStep::Done(SQLITE_ERROR)
            } else if old(self).is_batched(cursor_id) {
                FilterStep::Refill
            } else {
                FilterStep::Done(SQLITE_OK)
            },
            if ok && old(self).is_batched(cursor_id) {
                &&& final(self).caches().contains_key(cursor_id)
                &&& final(self).caches()[cursor_id].fresh()
            } else {
                final(self).caches() == old(self).caches()
            },
    {
        if !ok {
            return FilterStep::Done(SQLITE_ERROR);
        }
        match self.cursor_meta(cursor_id) {
            Some(m) => {
                if m.batched {
                    self.put_cache(cursor_id, BatchCache::new());
                    return FilterStep::Refill;
                }
                FilterStep::Done(SQLITE_OK)
            },
            None => FilterStep::Done(SQLITE_OK),
        }
    }

    /// Moves a cursor on by a row.
    pub fn x_next(&mut self, cursor_id: u64) -> (r: NextStep)
        requires
            old(self).wf(),
        ensures
            final(self).wf(),
            final(self).same_but_cache(old(self), cursor_id),
            if !old(self).cursors().contains_key(cursor_id) {
                r == NextStep::Done(SQLITE_INTERNAL) && final(self).caches() == old(self).caches()
            } else if !old(self).is_batched(cursor_id) {
                r == NextStep::Ask && final(self).caches() == old(self).caches()
            } else {
                let after = final(self).caches()[cursor_id];
                &&& final(self).caches().contains_key(cursor_id)
                &&& if old(self).caches().contains_key(cursor_id) {
                    moved_on(old(self).caches()[cursor_id], after)
                } else {
                    after.rows@.len() == 0 && after.idx == 1 && !after.eof_seen
                }
                &&& r == if after.exhausted() {
                    NextStep::Refill
                } else {
                    NextStep::Done(SQLITE_OK)
                }
            },
    {
        let batched: bool = match self.cursor_meta(cursor_id) {
            Some(m) => m.batched,
            None => {
                return NextStep::Done(SQLITE_INTERNAL);
            },
        };
        if !batched {
            return NextStep::Ask;
        }
        let mut cache: BatchCache<V> = self.take_cache(cursor_id);
        if cache.idx < usize::MAX {
            cache.idx = cache.idx + 1;
        }
        let need_refill: bool = cache.idx >= cache.rows.len() && !cache.eof_seen;
        self.put_cache(cursor_id, cache);
        assert(self.caches().remove(cursor_id) =~= old(self).caches().remove(cursor_id));
        if need_refill {
            NextStep::Refill
        } else {
            NextStep::Done(SQLITE_OK)
        }
    }

    /// Whether a cursor is at its end. One that is not there is.
    pub fn x_eof(&self, cursor_id: u64) -> (r: RowStep<bool>)
        ensures
            r == if !self.cursors().contains_key(cursor_id) {
                RowStep::Value(true)
            } else if !self.is_batched(cursor_id) {
                RowStep::Ask
            } else if self.caches().contains_key(cursor_id) {
                RowStep::Value(self.caches()[cursor_id].at_end())
            } else {
                RowStep::Value(true)
            },
    {
        broadcast use vstd::std_specs::hash::group_hash_axioms;

        match self.cursors.get(&cursor_id) {
            None => RowStep::Value(true),
            Some(m) => {
                if !m.batched {
                    return RowStep::Ask;
                }
                match self.caches.get(&cursor_id) {
                    None => RowStep::Value(true),
                    Some(c) => RowStep::Value(c.idx >= c.rows.len() && c.eof_seen),
                }
            },
        }
    }

    /// A column of a cursor's current row. A column beyond those that the row has
    /// is null.
    pub fn x_column(&self, cursor_id: u64, col: i32) -> (r: ColumnStep<'_, V>)
        ensures
            if !self.cursors().contains_key(cursor_id) {
                r matches ColumnStep::Code(rc) && rc == SQLITE_INTERNAL
            } else if !self.is_batched(cursor_id) {
                r is Ask
            } else if !self.caches().contains_key(cursor_id) {
                r matches ColumnStep::Code(rc) && rc == SQLITE_ERROR
            } else {
                let c = self.caches()[cursor_id];
                if c.idx >= c.rows@.len() {
                    r matches ColumnStep::Code(rc) && rc == SQLITE_ERROR
                } else {
                    let columns = c.rows@[c.idx as int].columns@;
                    if 0 <= col < columns.len() {
                        r matches ColumnStep::Value(v) && *v == columns[col as int]
                    } else {
                        r is Null
                    }
                }
            },
    {
        broadcast use vstd::std_specs::hash::group_hash_axioms;

        match self.cursors.get(&cursor_id) {
            None => ColumnStep::Code(SQLITE_INTERNAL),
            Some(m) => {
                if !m.batched {
                    return ColumnStep::Ask;
                }
                match self.caches.get(&cursor_id) {
                    None => ColumnStep::Code(SQLITE_ERROR),
                    Some(c) => {
                        if c.idx >= c.rows.len() {
                            return ColumnStep::Code(SQLITE_ERROR);
                        }
                        let columns = &c.rows[c.idx].columns;
                        if col < 0 || col as u64 >= columns.len() as u64 {
                            ColumnStep::Null
                        } else {
                            ColumnStep::Value(&columns[col as usize])
                        }
                    },
                }
            },
        }
    }

    /// The row number of a cursor's current row.
    pub fn x_rowid(&self, cursor_id: u64) -> (r: RowStep<i64>)
        ensures
            r == if !self.cursors().contains_key(cursor_id) {
                RowStep::Code(SQLITE_INTERNAL)
            } else if !self.is_batched(cursor_id) {
                RowStep::Ask
            } else if !self.caches().contains_key(cursor_id) {
                RowStep::Code(SQLITE_ERROR)
            } else {
                let c = self.caches()[cursor_id];
                if c.idx >= c.rows@.len() {
                    RowStep::Code(SQLITE_ERROR)
                } else {
                    RowStep::Value(c.rows@[c.idx as int].rowid)
                }
            },
    {
        broadcast use vstd::std_specs::hash::group_hash_axioms;

        match self.cursors.get(&cursor_id) {
            None => RowStep::Code(SQLITE_INTERNAL),
            Some(m) => {
                if !m.batched {
                    return RowStep::Ask;
                }
                match self.caches.get(&cursor_id) {
                    None => RowStep::Code(SQLITE_ERROR),
                    Some(c) => {
                        if c.idx >= c.rows.len() {
                            RowStep::Code(SQLITE_ERROR)
                        } else {
                            RowStep::Value(c.rows[c.idx].rowid)
                        }
                    },
                }
            },
        }
    }

    /// Takes the engine's answer to a registration: on success the module is
    /// noted under its extension.
    pub fn registered(&mut self, ext_name: &str, name: String, rc: i32) -> (r: Result<
        (),
        SqliteError,
    >)
        requires
            old(self).wf(),
        ensures
            final(self).wf(),
            final(self).instances() == old(self).instances(),
            final(self).cursors() == old(self).cursors(),
            final(self).caches() == old(self).caches(),
            final(self).next_instance() == old(self).next_instance(),
            final(self).next_cursor() == old(self).next_cursor(),
            if rc == SQLITE_OK {
                let noted = if old(self).modules().contains_key(ext_name@) {
                    old(self).modules()[ext_name@]
                } else {
                    Seq::empty()
                };
                r is Ok && final(self).modules() == old(self).modules().insert(
                    ext_name@,
                    noted.push(name@),
                )
            } else {
                &&& r is Err
                &&& r->Err_0.code == rc
                &&& r->Err_0.extended_code == rc
                &&& r->Err_0.message@ == create_failed_text(rc)
                &&& final(self).modules() == old(self).modules()
            },
    {
        if rc != SQLITE_OK {
            let mut s = String::from_str("sqlite3_create_module_v2 failed: rc=");
            push_signed_decimal(&mut s, rc as i64);
            return Err(SqliteError { code: rc, extended_code: rc, message: s });
        }
        let mut names: Vec<String> = match self.module_names.get(ext_name) {
            Some(v) => copy_texts(v),
            None => Vec::new(),
        };
        let ghost before = texts(names@);
        proof {
            if !old(self).modules().contains_key(ext_name@) {
                assert(before =~= Seq::empty());
            }
            lemma_texts_push(names@, name);
        }
        let ghost nm = name@;
        names.push(name);
        let ghost after = texts(names@);
        self.module_names.insert(ext_name.to_owned(), names);
        assert(self.modules() =~= old(self).modules().insert(ext_name@, before.push(nm)));
        Ok(())
    }

    /// Forgets the modules of an extension: the C names to take out of the
    /// engine again. Names that hold a NUL never got there.
    pub fn unregister_host_vtabs(&mut self, ext_name: &str) -> (r: Vec<Vec<u8>>)
        requires
            old(self).wf(),
        ensures
            final(self).wf(),
            final(self).instances() == old(self).instances(),
            final(self).cursors() == old(self).cursors(),
            final(self).caches() == old(self).caches(),
            final(self).next_instance() == old(self).next_instance(),
            final(self).next_cursor() == old(self).next_cursor(),
            final(self).modules() == old(self).modules().remove(ext_name@),
            ({
                let names = if old(self).modules().contains_key(ext_name@) {
                    old(self).modules()[ext_name@]
                } else {
                    Seq::empty()
                };
                byte_views(r@) == c_names(names)
            }),
    {
        let gone: Option<Vec<String>> = self.module_names.remove(ext_name);
        assert(self.modules() =~= old(self).modules().remove(ext_name@));
        let mut r: Vec<Vec<u8>> = Vec::new();
        assert(byte_views(r@) =~= Seq::empty());
        match gone {
            None => r,
            Some(names) => {
                let ghost all = texts(names@);
                let mut i: usize = 0;
                assert(all.take(0) =~= Seq::empty());
                while i < names.len()
                    invariant
                        all == texts(names@),
                        i <= names.len(),
                        byte_views(r@) == c_names(all.take(i as int)),
                    decreases names.len() - i,
                {
                    proof {
                        assert(all.take(i + 1).drop_last() =~= all.take(i as int));
                    }
                    match c_string(names[i].as_str()) {
                        Some(c) => {
                            let ghost before = r@;
                            r.push(c);
                            assert(byte_views(r@) =~= byte_views(before).push(c@));
                        },
                        None => {},
                    }
                    i = i + 1;
                }
                assert(all.take(i as int) =~= all);
                r
            },
        }
    }
}

/// The bytes of `v`.
pub open spec fn byte_views(v: Seq<Vec<u8>>) -> Seq<Seq<u8>> {
    v.map_values(|b: Vec<u8>| b@)
}

/// The names that do not hold a NUL, as C strings.
pub open spec fn c_names(names: Seq<Seq<char>>) -> Seq<Seq<u8>>
    decreases names.len(),
{
    if names.len() == 0 {
        Seq::empty()
    } else if encode_utf8(names.last()).contains(0u8) {
        c_names(names.drop_last())
    } else {
        c_names(names.drop_last()).push(c_bytes(names.last()))
    }
}

} // verus!
