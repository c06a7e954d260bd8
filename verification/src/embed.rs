//! The glue between the engine and extensions that are linked in: values,
//! scalar functions, aggregates, virtual tables and queries.
//!
//! A floating-point value is passed on as its bit pattern.

use crate::codes::{
    SQLITE_DONE, SQLITE_ERROR, SQLITE_OK, SQLITE_READONLY, SQLITE_ROW, SQLITE_TYPE_BLOB,
    SQLITE_TYPE_FLOAT, SQLITE_TYPE_INTEGER, SQLITE_TYPE_TEXT,
};
use crate::text::{bytes_eq, find_nul, lossy, lossy_text, utf8_text};
use vstd::prelude::*;
use vstd::string::*;
use vstd::utf8::{decode_utf8, encode_utf8, valid_utf8};

verus! {

/// The flag of a function that gives equal results for equal arguments.
pub const SQLITE_DETERMINISTIC: i32 = 0x800;

/// The flag of a function that takes UTF-8.
pub const SQLITE_UTF8: i32 = 1;

/// A value of the engine's.
#[derive(Debug)]
pub enum SqlValueOwned {
    Null,
    Integer(i64),
    /// The bit pattern of a floating-point number.
    Real(u64),
    Text(String),
    Blob(Vec<u8>),
}

/// A value of the engine's, as the model sees it.
pub enum SqlValueView {
    Null,
    Integer(i64),
    Real(u64),
    Text(Seq<char>),
    Blob(Seq<u8>),
}

impl View for SqlValueOwned {
    type V = SqlValueView;

    open spec fn view(&self) -> SqlValueView {
        match self {
            SqlValueOwned::Null => SqlValueView::Null,
            SqlValueOwned::Integer(n) => SqlValueView::Integer(*n),
            SqlValueOwned::Real(r) => SqlValueView::Real(*r),
            SqlValueOwned::Text(s) => SqlValueView::Text(s@),
            SqlValueOwned::Blob(b) => SqlValueView::Blob(b@),
        }
    }
}

/// The bytes behind a pointer, where there is one.
pub open spec fn bytes_of(p: Option<&[u8]>) -> Option<Seq<u8>> {
    match p {
        Some(b) => Some(b@),
        None => None,
    }
}

/// The value of the type `kind`: an integer, the bit pattern of a floating-point
/// number, or bytes, which are missing behind a null pointer. Text that is not
/// valid UTF-8 is empty, and so is what is missing.
pub open spec fn owned_value(kind: i32, integer: i64, bits: u64, bytes: Option<Seq<u8>>) -> SqlValueView {
    if kind == SQLITE_TYPE_INTEGER {
        SqlValueView::Integer(integer)
    } else if kind == SQLITE_TYPE_FLOAT {
        SqlValueView::Real(bits)
    } else if kind == SQLITE_TYPE_TEXT {
        match bytes {
            Some(b) => SqlValueView::Text(
                if valid_utf8(b) {
                    decode_utf8(b)
                } else {
                    Seq::empty()
                },
            ),
            None => SqlValueView::Text(Seq::empty()),
        }
    } else if kind == SQLITE_TYPE_BLOB {
        match bytes {
            Some(b) => SqlValueView::Blob(b),
            None => SqlValueView::Blob(Seq::empty()),
        }
    } else {
        SqlValueView::Null
    }
}

fn empty_text() -> (r: String)
    ensures
        r@ == Seq::<char>::empty(),
{
    let r = String::new();
    assert(r@ =~= Seq::<char>::empty());
    r
}

/// A value of the engine's, from its parts.
pub fn value_to_owned(kind: i32, integer: i64, bits: u64, bytes: Option<&[u8]>) -> (r: SqlValueOwned)
    ensures
        r@ == owned_value(kind, integer, bits, bytes_of(bytes)),
{
    if kind == SQLITE_TYPE_INTEGER {
        SqlValueOwned::Integer(integer)
    } else if kind == SQLITE_TYPE_FLOAT {
        SqlValueOwned::Real(bits)
    } else if kind == SQLITE_TYPE_TEXT {
        match bytes {
            Some(b) => match utf8_text(b) {
                Some(s) => SqlValueOwned::Text(s.to_owned()),
                None => SqlValueOwned::Text(empty_text()),
            },
            None => SqlValueOwned::Text(empty_text()),
        }
    } else if kind == SQLITE_TYPE_BLOB {
        match bytes {
            Some(b) => SqlValueOwned::Blob(vstd::slice::slice_to_vec(b)),
            None => {
                let v: Vec<u8> = Vec::new();
                assert(v@ =~= Seq::<u8>::empty());
                SqlValueOwned::Blob(v)
            },
        }
    } else {
        SqlValueOwned::Null
    }
}

/// A scalar function that an extension declares. The name ends in a NUL.
pub struct ScalarSpec {
    pub func_id: u64,
    pub name: &'static [u8],
    pub num_args: i32,
    pub deterministic: bool,
}

/// The flags that a function is registered with.
pub fn function_flags(deterministic: bool) -> (r: i32)
    ensures
        r == if deterministic {
            SQLITE_UTF8 | SQLITE_DETERMINISTIC
        } else {
            SQLITE_UTF8 | 0
        },
{
    SQLITE_UTF8 | if deterministic {
        SQLITE_DETERMINISTIC
    } else {
        0
    }
}

/// Registering a number of things one after the other.
pub struct Registration {
    count: usize,
    next: usize,
}

/// What a registration needs next.
#[derive(Copy, Clone, Debug, PartialEq, Eq, Structural)]
pub enum RegisterStep {
    /// The thing with this index is to be registered.
    Register(usize),
    /// Nothing: the registration ends with this code.
    Done(i32),
}

/// The code that a registration ends with, if registering each thing came to
/// `codes`: the first that is not the code for success, or that one.
pub open spec fn first_failure(codes: Seq<i32>) -> i32
    decreases codes.len(),
{
    if codes.len() == 0 {
        SQLITE_OK
    } else if codes[0] != SQLITE_OK {
        codes[0]
    } else {
        first_failure(codes.skip(1))
    }
}

/// How many things are registered, and what is needed next, once `registered` of
/// `count` things were and the next one came to `rc`.
pub open spec fn after_reply(count: nat, registered: nat, rc: i32) -> (nat, RegisterStep) {
    if rc != SQLITE_OK {
        (registered, RegisterStep::Done(rc))
    } else {
        (registered + 1, register_step(count, registered + 1))
    }
}

/// What is needed next once `registered` of `count` things were registered.
pub open spec fn register_step(count: nat, registered: nat) -> RegisterStep {
    if registered < count {
        RegisterStep::Register(registered as usize)
    } else {
        RegisterStep::Done(SQLITE_OK)
    }
}

/// The code that a registration of `count` things ends with that has registered
/// `registered` of them, if registering the others comes to `codes`.
pub open spec fn registration_code(count: nat, registered: nat, codes: Seq<i32>) -> i32
    decreases codes.len(),
{
    if codes.len() == 0 || registered >= count {
        SQLITE_OK
    } else {
        match after_reply(count, registered, codes[0]) {
            (_, RegisterStep::Done(rc)) => rc,
            (now, RegisterStep::Register(_)) => registration_code(count, now, codes.skip(1)),
        }
    }
}

/// A registration ends with the first failure, or with success where there is
/// none.
pub proof fn lemma_registration_code(count: nat, registered: nat, codes: Seq<i32>)
    requires
        registered + codes.len() == count,
    ensures
        registration_code(count, registered, codes) == first_failure(codes),
    decreases codes.len(),
{
    if codes.len() > 0 && codes[0] == SQLITE_OK {
        if codes.len() > 1 {
            lemma_registration_code(count, registered + 1, codes.skip(1));
        } else {
            assert(first_failure(codes.skip(1)) == SQLITE_OK);
        }
    }
}

impl Registration {
    /// How many things there are.
    pub closed spec fn count(&self) -> nat {
        self.count as nat
    }

    /// How many of them have been registered.
    pub closed spec fn registered(&self) -> nat {
        self.next as nat
    }

    /// No more is registered than there is.
    pub closed spec fn wf(&self) -> bool {
        self.next <= self.count
    }

    /// Nothing is registered yet.
    pub fn new(count: usize) -> (r: Self)
        ensures
            r.wf(),
            r.count() == count,
            r.registered() == 0,
    {
        Registration { count, next: 0 }
    }

    /// What is needed next.
    pub fn step(&self) -> (r: RegisterStep)
        requires
            self.wf(),
        ensures
            r == register_step(self.count(), self.registered()),
    {
        if self.next < self.count {
            RegisterStep::Register(self.next)
        } else {
            RegisterStep::Done(SQLITE_OK)
        }
    }

    /// Takes the engine's answer to registering the next thing. A failure ends
    /// the registration.
    pub fn reply(&mut self, rc: i32) -> (r: RegisterStep)
        requires
            old(self).wf(),
            old(self).registered() < old(self).count(),
        ensures
            final(self).wf(),
            final(self).count() == old(self).count(),
            (final(self).registered(), r) == after_reply(
                old(self).count(),
                old(self).registered(),
                rc,
            ),
    {
        if rc != SQLITE_OK {
            return RegisterStep::Done(rc);
        }
        self.next = self.next + 1;
        self.step()
    }
}

/// A failure decides the outcome, wherever it comes; without one it is success.
pub proof fn lemma_first_failure(codes: Seq<i32>)
    ensures
        first_failure(codes) == SQLITE_OK <==> (forall|i: int|
            0 <= i < codes.len() ==> #[trigger] codes[i] == SQLITE_OK),
        first_failure(codes) != SQLITE_OK ==> exists|i: int|
            {
                &&& 0 <= i < codes.len()
                &&& first_failure(codes) == #[trigger] codes[i]
                &&& forall|j: int| 0 <= j < i ==> #[trigger] codes[j] == SQLITE_OK
            },
    decreases codes.len(),
{
    if codes.len() > 0 {
        let rest = codes.skip(1);
        lemma_first_failure(rest);
        if codes[0] == SQLITE_OK {
            if first_failure(codes) == SQLITE_OK {
                assert forall|i: int| 0 <= i < codes.len() implies #[trigger] codes[i]
                    == SQLITE_OK by {
                    if i > 0 {
                        assert(rest[i - 1] == SQLITE_OK);
                    }
                }
            } else {
                let i = choose|i: int|
                    {
                        &&& 0 <= i < rest.len()
                        &&& first_failure(rest) == #[trigger] rest[i]
                        &&& forall|j: int| 0 <= j < i ==> #[trigger] rest[j] == SQLITE_OK
                    };
                assert(codes[i + 1] == rest[i]);
                assert forall|j: int| 0 <= j < i + 1 implies #[trigger] codes[j] == SQLITE_OK by {
                    if j > 0 {
                        assert(rest[j - 1] == SQLITE_OK);
                    }
                }
            }
        } else {
            assert(first_failure(codes) == codes[0]);
        }
    }
}

/// What is asked of an aggregate function next. A state is known by its address.
#[derive(Copy, Clone, Debug, PartialEq, Eq, Structural)]
pub enum AggregateAction {
    /// A fresh state.
    Make,
    /// The row is added to this state.
    Add(u64),
    /// The result is taken of this state.
    Finish(u64),
    /// This state is given up.
    Destroy(u64),
    /// Nothing: there is no memory, and the engine gets an error.
    Fail,
    /// Nothing more.
    Done,
}

/// What a call of the engine's is still to do.
#[derive(Copy, Clone, Debug, PartialEq, Eq, Structural)]
pub enum AggregatePhase {
    Add,
    Finish,
    Destroy,
    Fail,
    Done,
}

/// A call of the engine's for an aggregation, a row or the end. In between the
/// state is kept in a slot of the engine's, where 0 stands for none.
pub struct AggregateCall<T> {
    state: Option<u64>,
    phase: AggregatePhase,
    answer: Option<Result<T, String>>,
}

/// A call for an aggregation, as the model sees it.
pub struct AggregateModel<T> {
    pub state: Option<u64>,
    pub phase: AggregatePhase,
    pub answer: Option<Result<T, String>>,
}

/// The state that a slot of the engine's holds.
pub open spec fn held_state(slot: Option<u64>) -> Option<u64> {
    match slot {
        Some(p) => if p != 0 {
            Some(p)
        } else {
            None
        },
        None => None,
    }
}

impl<T> AggregateModel<T> {
    /// A row, with this slot.
    pub open spec fn row(slot: Option<u64>) -> Self {
        AggregateModel {
            state: held_state(slot),
            phase: if slot is None {
                AggregatePhase::Fail
            } else {
                AggregatePhase::Add
            },
            answer: None,
        }
    }

    /// The end, with this slot.
    pub open spec fn end(slot: Option<u64>) -> Self {
        AggregateModel { state: held_state(slot), phase: AggregatePhase::Finish, answer: None }
    }

    /// What is asked for next. A state is made where there is none.
    pub open spec fn action(self) -> AggregateAction {
        match self.phase {
            AggregatePhase::Fail => AggregateAction::Fail,
            AggregatePhase::Done => AggregateAction::Done,
            phase => match self.state {
                None => AggregateAction::Make,
                Some(s) => match phase {
                    AggregatePhase::Add => AggregateAction::Add(s),
                    AggregatePhase::Finish => AggregateAction::Finish(s),
                    _ => AggregateAction::Destroy(s),
                },
            },
        }
    }

    /// After a state was made.
    pub open spec fn made(self, state: u64) -> Self {
        AggregateModel { state: Some(state), ..self }
    }

    /// After the row was added.
    pub open spec fn added(self) -> Self {
        AggregateModel { phase: AggregatePhase::Done, ..self }
    }

    /// After the result was taken.
    pub open spec fn finished(self, result: Result<T, String>) -> Self {
        AggregateModel { phase: AggregatePhase::Destroy, answer: Some(result), ..self }
    }

    /// After the state was given up.
    pub open spec fn destroyed(self) -> Self {
        AggregateModel { state: None, phase: AggregatePhase::Done, ..self }
    }

    /// What the slot holds afterwards.
    pub open spec fn slot(self) -> u64 {
        match self.state {
            Some(s) => s,
            None => 0,
        }
    }
}

impl<T> View for AggregateCall<T> {
    type V = AggregateModel<T>;

    closed spec fn view(&self) -> AggregateModel<T> {
        AggregateModel { state: self.state, phase: self.phase, answer: self.answer }
    }
}

impl<T> AggregateCall<T> {
    fn held(slot: Option<u64>) -> (r: Option<u64>)
        ensures
            r == held_state(slot),
    {
        match slot {
            Some(p) => {
                if p != 0 {
                    Some(p)
                } else {
                    None
                }
            },
            None => None,
        }
    }

    /// A row of an aggregation; `slot` is what the engine's slot holds, if there
    /// is memory for one.
    pub fn row(slot: Option<u64>) -> (r: Self)
        ensures
            r@ == AggregateModel::<T>::row(slot),
    {
        let phase: AggregatePhase = if slot.is_none() {
            AggregatePhase::Fail
        } else {
            AggregatePhase::Add
        };
        AggregateCall { state: Self::held(slot), phase, answer: None }
    }

    /// The end of an aggregation; `slot` is what the engine's slot holds, if any
    /// row came.
    pub fn end(slot: Option<u64>) -> (r: Self)
        ensures
            r@ == AggregateModel::<T>::end(slot),
    {
        AggregateCall { state: Self::held(slot), phase: AggregatePhase::Finish, answer: None }
    }

    /// What is asked for next.
    pub fn action(&self) -> (r: AggregateAction)
        ensures
            r == self@.action(),
    {
        match (self.phase, self.state) {
            (AggregatePhase::Fail, _) => AggregateAction::Fail,
            (AggregatePhase::Done, _) => AggregateAction::Done,
            (_, None) => AggregateAction::Make,
            (AggregatePhase::Add, Some(s)) => AggregateAction::Add(s),
            (AggregatePhase::Finish, Some(s)) => AggregateAction::Finish(s),
            (AggregatePhase::Destroy, Some(s)) => AggregateAction::Destroy(s),
        }
    }

    /// The state `state` was made.
    pub fn made(&mut self, state: u64)
        ensures
            final(self)@ == old(self)@.made(state),
    {
        self.state = Some(state);
    }

    /// The row was added.
    pub fn added(&mut self)
        ensures
            final(self)@ == old(self)@.added(),
    {
        self.phase = AggregatePhase::Done;
    }

    /// The result was taken.
    pub fn finished(&mut self, result: Result<T, String>)
        ensures
            final(self)@ == old(self)@.finished(result),
    {
        self.answer = Some(result);
        self.phase = AggregatePhase::Destroy;
    }

    /// The state was given up.
    pub fn destroyed(&mut self)
        ensures
            final(self)@ == old(self)@.destroyed(),
    {
        self.state = None;
        self.phase = AggregatePhase::Done;
    }

    /// What the slot holds from now on.
    pub fn slot(&self) -> (r: u64)
        ensures
            r == self@.slot(),
    {
        match self.state {
            Some(s) => s,
            None => 0,
        }
    }

    /// The result, once it was taken.
    pub fn into_answer(self) -> (r: Option<Result<T, String>>)
        ensures
            r == self@.answer,
    {
        self.answer
    }
}

/// The call after its next action was done, where a state that is made is
/// `fresh` and the result that is taken is `result`.
pub open spec fn advanced<T>(
    c: AggregateModel<T>,
    fresh: u64,
    result: Result<T, String>,
) -> AggregateModel<T> {
    match c.action() {
        AggregateAction::Make => c.made(fresh),
        AggregateAction::Add(_) => c.added(),
        AggregateAction::Finish(_) => c.finished(result),
        AggregateAction::Destroy(_) => c.destroyed(),
        AggregateAction::Fail => c,
        AggregateAction::Done => c,
    }
}

/// The actions of a call, `n` at most, up to where nothing more is asked for; and
/// the call after them.
pub open spec fn actions<T>(
    c: AggregateModel<T>,
    fresh: u64,
    result: Result<T, String>,
    n: nat,
) -> (Seq<AggregateAction>, AggregateModel<T>)
    decreases n,
{
    if n == 0 || c.action() is Done || c.action() is Fail {
        (Seq::empty(), c)
    } else {
        let (rest, end) = actions(advanced(c, fresh, result), fresh, result, (n - 1) as nat);
        (seq![c.action()] + rest, end)
    }
}

/// The actions of a row never are more than these.
pub const ROW_ACTIONS: u64 = 2;

/// The actions of an end never are more than these.
pub const END_ACTIONS: u64 = 3;

/// The actions of `rows` rows, the first one with an empty slot, and what the slot
/// holds afterwards.
pub open spec fn row_actions<T>(rows: nat, fresh: u64, result: Result<T, String>) -> (
    Seq<AggregateAction>,
    u64,
)
    decreases rows,
{
    if rows == 0 {
        (Seq::empty(), 0)
    } else {
        let (done, slot) = row_actions(((rows - 1) as nat), fresh, result);
        let (more, c) = actions(
            AggregateModel::row(Some(slot)),
            fresh,
            result,
            ROW_ACTIONS as nat,
        );
        (done + more, c.slot())
    }
}

/// The actions of a whole aggregation of `rows` rows: the rows, then the end. The
/// engine has no slot where no row came.
pub open spec fn aggregation<T>(rows: nat, fresh: u64, result: Result<T, String>) -> (
    Seq<AggregateAction>,
    AggregateModel<T>,
) {
    let (done, slot) = row_actions(rows, fresh, result);
    let (more, c) = actions(
        AggregateModel::end(
            if rows == 0 {
                None
            } else {
                Some(slot)
            },
        ),
        fresh,
        result,
        END_ACTIONS as nat,
    );
    (done + more, c)
}

proof fn lemma_row_actions<T>(rows: nat, fresh: u64, result: Result<T, String>)
    requires
        fresh != 0,
    ensures
        rows == 0 ==> row_actions(rows, fresh, result) == (Seq::<AggregateAction>::empty(), 0u64),
        rows > 0 ==> row_actions(rows, fresh, result) == (
            seq![AggregateAction::Make] + Seq::new(rows, |i: int| AggregateAction::Add(fresh)),
            fresh,
        ),
    decreases rows,
{
    reveal_with_fuel(actions, 3);
    if rows > 0 {
        let before = (rows - 1) as nat;
        lemma_row_actions(before, fresh, result);
        let (done, slot) = row_actions(before, fresh, result);
        let (all, _) = row_actions(rows, fresh, result);
        assert(all =~= seq![AggregateAction::Make] + Seq::new(
            rows,
            |i: int| AggregateAction::Add(fresh),
        ));
    }
}

/// Over a whole aggregation, one without rows too, one state is made, every row
/// is added to it, then its result is taken and it is given up, each exactly once
/// and in this order; nothing more is asked for then, the slot is empty, and the
/// answer is the result that was taken.
pub proof fn lemma_one_state<T>(rows: nat, fresh: u64, result: Result<T, String>)
    requires
        fresh != 0,
    ensures
        aggregation(rows, fresh, result).0 == seq![AggregateAction::Make] + Seq::new(
            rows,
            |i: int| AggregateAction::Add(fresh),
        ) + seq![AggregateAction::Finish(fresh), AggregateAction::Destroy(fresh)],
        aggregation(rows, fresh, result).1.action() is Done,
        aggregation(rows, fresh, result).1.slot() == 0,
        aggregation(rows, fresh, result).1.answer == Some(result),
{
    lemma_row_actions(rows, fresh, result);
    reveal_with_fuel(actions, 4);
    assert(aggregation(rows, fresh, result).0 =~= seq![AggregateAction::Make] + Seq::new(
        rows,
        |i: int| AggregateAction::Add(fresh),
    ) + seq![AggregateAction::Finish(fresh), AggregateAction::Destroy(fresh)]);
}

/// The error of an aggregation without memory.
pub fn aggregate_oom_text() -> (r: &'static str)
    ensures
        r@ == "aggregate: out of memory"@,
{
    "aggregate: out of memory"
}

/// A constraint that a table is asked about.
#[derive(Copy, Clone, Debug, PartialEq, Eq, Structural)]
pub struct VtabConstraint {
    /// The column, from 0 on.
    pub column: i32,
    /// The engine's operator code.
    pub op: u8,
    /// Whether the engine can deliver the constraint.
    pub usable: bool,
}

/// How a table claims a constraint.
#[derive(Copy, Clone, Debug, PartialEq, Eq, Structural)]
pub struct VtabConstraintUsage {
    /// Its position among the arguments of a filter, from 1 on; 0 for none.
    pub argv_index: i32,
    /// Whether the engine need not check it again.
    pub omit: bool,
}

impl Default for VtabConstraintUsage {
    fn default() -> (r: Self)
        ensures
            r == (VtabConstraintUsage { argv_index: 0, omit: false }),
    {
        VtabConstraintUsage { argv_index: 0, omit: false }
    }
}

/// A constraint as the engine gives it.
#[derive(Copy, Clone, Debug, PartialEq, Eq, Structural)]
pub struct EngineConstraint {
    pub column: i32,
    pub op: u8,
    pub usable: u8,
}

/// The use of a constraint as the engine takes it.
#[derive(Copy, Clone, Debug, PartialEq, Eq, Structural)]
pub struct EngineUsage {
    pub argv_index: i32,
    pub omit: u8,
}

/// What a table plans with, but for the cost: the constraints, and the answer,
/// which starts as no use of any constraint and a single row.
pub struct BestIndex {
    pub constraints: Vec<VtabConstraint>,
    pub usage: Vec<VtabConstraintUsage>,
    pub idx_num: i32,
    pub estimated_rows: i64,
    pub order_by_consumed: bool,
}

/// A constraint, for a table.
pub open spec fn table_constraint(c: EngineConstraint) -> VtabConstraint {
    VtabConstraint { column: c.column, op: c.op, usable: c.usable != 0 }
}

/// The use of a constraint, for the engine.
pub open spec fn engine_usage(u: VtabConstraintUsage) -> EngineUsage {
    EngineUsage {
        argv_index: u.argv_index,
        omit: if u.omit {
            1
        } else {
            0
        },
    }
}

impl BestIndex {
    /// The start of a plan for the given constraints.
    pub fn new(raw: &Vec<EngineConstraint>) -> (r: Self)
        ensures
            r.constraints@ == raw@.map_values(|c: EngineConstraint| table_constraint(c)),
            r.usage@ == Seq::new(
                raw@.len(),
                |i: int| VtabConstraintUsage { argv_index: 0, omit: false },
            ),
            r.idx_num == 0,
            r.estimated_rows == 1,
            !r.order_by_consumed,
    {
        let mut constraints: Vec<VtabConstraint> = Vec::new();
        let mut usage: Vec<VtabConstraintUsage> = Vec::new();
        let ghost want = raw@.map_values(|c: EngineConstraint| table_constraint(c));
        let ghost unused = Seq::new(
            raw@.len(),
            |i: int| VtabConstraintUsage { argv_index: 0, omit: false },
        );
        let mut i: usize = 0;
        while i < raw.len()
            invariant
                i <= raw.len(),
                want == raw@.map_values(|c: EngineConstraint| table_constraint(c)),
                unused == Seq::new(
                    raw@.len(),
                    |i: int| VtabConstraintUsage { argv_index: 0, omit: false },
                ),
                constraints@ =~= want.take(i as int),
                usage@ =~= unused.take(i as int),
            decreases raw.len() - i,
        {
            let c: EngineConstraint = raw[i];
            constraints.push(
                VtabConstraint { column: c.column, op: c.op, usable: c.usable != 0 },
            );
            usage.push(VtabConstraintUsage { argv_index: 0, omit: false });
            i = i + 1;
        }
        assert(want.take(i as int) =~= want);
        assert(unused.take(i as int) =~= unused);
        BestIndex {
            constraints,
            usage,
            idx_num: 0,
            estimated_rows: 1,
            order_by_consumed: false,
        }
    }

    /// The uses of the constraints, for the engine, and the flag of a satisfied
    /// ordering.
    pub fn output(&self) -> (r: (Vec<EngineUsage>, i32))
        ensures
            r.0@ == self.usage@.map_values(|u: VtabConstraintUsage| engine_usage(u)),
            r.1 == if self.order_by_consumed {
                1i32
            } else {
                0i32
            },
    {
        let mut out: Vec<EngineUsage> = Vec::new();
        let ghost want = self.usage@.map_values(|u: VtabConstraintUsage| engine_usage(u));
        let mut i: usize = 0;
        while i < self.usage.len()
            invariant
                i <= self.usage.len(),
                want == self.usage@.map_values(|u: VtabConstraintUsage| engine_usage(u)),
                out@ =~= want.take(i as int),
            decreases self.usage.len() - i,
        {
            let u: VtabConstraintUsage = self.usage[i];
            out.push(
                EngineUsage {
                    argv_index: u.argv_index,
                    omit: if u.omit {
                        1
                    } else {
                        0
                    },
                },
            );
            i = i + 1;
        }
        assert(want.take(i as int) =~= want);
        (
            out,
            if self.order_by_consumed {
                1
            } else {
                0
            },
        )
    }
}

/// The arguments that a table is connected to with: its name and the user's
/// arguments.
pub struct ConnectArgs {
    pub table_name: String,
    pub args: Vec<String>,
}

/// The arguments that are there, as the model sees them.
pub open spec fn arg_views(v: Seq<Option<Vec<u8>>>) -> Seq<Option<Seq<u8>>> {
    v.map_values(
        |a: Option<Vec<u8>>|
            match a {
                Some(b) => Some(b@),
                None => None,
            },
    )
}

/// The texts of the arguments that are there.
pub open spec fn present(v: Seq<Option<Seq<u8>>>) -> Seq<Seq<char>>
    decreases v.len(),
{
    if v.len() == 0 {
        Seq::empty()
    } else {
        match v.last() {
            Some(b) => present(v.drop_last()).push(lossy_text(b)),
            None => present(v.drop_last()),
        }
    }
}

/// The table's name among the engine's arguments, which are the module, the
/// database, the table and then the user's.
pub open spec fn table_name(v: Seq<Option<Seq<u8>>>) -> Seq<char> {
    if v.len() > 2 && v[2] is Some {
        lossy_text(v[2]->0)
    } else {
        Seq::empty()
    }
}

/// The user's arguments among the engine's.
pub open spec fn user_args(v: Seq<Option<Seq<u8>>>) -> Seq<Seq<char>> {
    if v.len() > 3 {
        present(v.skip(3))
    } else {
        Seq::empty()
    }
}

/// The arguments that a table is connected to with. Arguments of the user's that
/// are missing are left out.
pub fn vtab_xconnect(argv: &Vec<Option<Vec<u8>>>) -> (r: ConnectArgs)
    ensures
        r.table_name@ == table_name(arg_views(argv@)),
        crate::text::texts(r.args@) == user_args(arg_views(argv@)),
{
    let ghost all = arg_views(argv@);
    let mut name: String = empty_text();
    if argv.len() > 2 {
        match &argv[2] {
            Some(b) => {
                name = lossy(b.as_slice());
            },
            None => {},
        }
    }
    let mut args: Vec<String> = Vec::new();
    assert(crate::text::texts(args@) =~= Seq::empty());
    if argv.len() > 3 {
        let ghost tail = all.skip(3);
        let mut i: usize = 3;
        assert(tail.take(0) =~= Seq::empty());
        while i < argv.len()
            invariant
                all == arg_views(argv@),
                tail == all.skip(3),
                3 <= i <= argv.len(),
                crate::text::texts(args@) == present(tail.take(i - 3)),
            decreases argv.len() - i,
        {
            proof {
                assert(tail.take(i - 2).drop_last() =~= tail.take(i - 3));
                assert(tail.take(i - 2).last() == all[i as int]);
            }
            match &argv[i] {
                Some(b) => {
                    let s: String = lossy(b.as_slice());
                    proof {
                        crate::text::lemma_texts_push(args@, s);
                    }
                    args.push(s);
                },
                None => {},
            }
            i = i + 1;
        }
        assert(tail.take(i - 3) =~= tail);
    }
    ConnectArgs { table_name: name, args }
}

/// A text with a terminating NUL, as the engine takes error texts and
/// statements.
pub fn with_nul(s: &str) -> (r: Vec<u8>)
    ensures
        r@ == encode_utf8(s@).push(0u8),
{
    let mut v = vstd::slice::slice_to_vec(s.as_bytes());
    v.push(0u8);
    v
}

/// The text of an optional C string, where it is there and valid UTF-8.
pub fn optional_text(p: Option<&[u8]>) -> (r: Option<String>)
    ensures
        match p {
            Some(b) => if valid_utf8(b@) {
                r is Some && r->0@ == decode_utf8(b@)
            } else {
                r is None
            },
            None => r is None,
        },
{
    match p {
        Some(b) => match utf8_text(b) {
            Some(s) => Some(s.to_owned()),
            None => None,
        },
        None => None,
    }
}

/// The text of an optional C string, empty where it is missing or not valid
/// UTF-8.
pub fn text_or_empty(p: Option<&[u8]>) -> (r: String)
    ensures
        match p {
            Some(b) => r@ == if valid_utf8(b@) {
                decode_utf8(b@)
            } else {
                Seq::<char>::empty()
            },
            None => r@ == Seq::<char>::empty(),
        },
{
    match optional_text(p) {
        Some(s) => s,
        None => empty_text(),
    }
}

/// The engine's code for what an optional hook came to: one that is not there
/// succeeds.
pub fn hook_code(outcome: Option<bool>) -> (r: i32)
    ensures
        r == if outcome == Some(false) {
            SQLITE_ERROR
        } else {
            SQLITE_OK
        },
{
    match outcome {
        None => SQLITE_OK,
        Some(ok) => {
            if ok {
                SQLITE_OK
            } else {
                SQLITE_ERROR
            }
        },
    }
}

/// What an update came to, for the engine: the row number, or its code and an
/// error text. A table without updates is read-only.
pub fn vtab_xupdate(outcome: Option<Result<i64, String>>) -> (r: Result<i64, (i32, Option<Vec<u8>>)>)
    ensures
        match outcome {
            None => r matches Err(e) && e.0 == SQLITE_READONLY && e.1 is None,
            Some(Ok(rowid)) => r matches Ok(n) && n == rowid,
            Some(Err(msg)) => r matches Err(e) && e.0 == SQLITE_ERROR && e.1 is Some && e.1->0@
                == encode_utf8(msg@).push(0u8),
        },
{
    match outcome {
        None => Err((SQLITE_READONLY, None)),
        Some(Ok(rowid)) => Ok(rowid),
        Some(Err(msg)) => Err((SQLITE_ERROR, Some(with_nul(msg.as_str())))),
    }
}

/// The lower-case form of an ASCII letter; other bytes stay.
pub open spec fn lower_byte(b: u8) -> u8 {
    if 65 <= b <= 90 {
        (b + 32) as u8
    } else {
        b
    }
}

/// The lower-case form of a name, byte by byte. Only ASCII letters change, so
/// UTF-8 stays UTF-8.
pub open spec fn lower_bytes(b: Seq<u8>) -> Seq<u8> {
    b.map_values(|x: u8| lower_byte(x))
}

/// The lower-case form of a name.
pub fn lowercase_name(name: &[u8]) -> (r: Vec<u8>)
    ensures
        r@ == lower_bytes(name@),
{
    let mut r: Vec<u8> = Vec::new();
    let mut i: usize = 0;
    while i < name.len()
        invariant
            i <= name.len(),
            r@ =~= lower_bytes(name@).take(i as int),
        decreases name.len() - i,
    {
        let b: u8 = name[i];
        r.push(
            if 65 <= b && b <= 90 {
                b + 32
            } else {
                b
            },
        );
        i = i + 1;
    }
    assert(lower_bytes(name@).take(i as int) =~= lower_bytes(name@));
    r
}

/// The operator code of a function that tables claim unless they say otherwise,
/// and 0 for any other.
pub open spec fn claimed_op(lower: Seq<u8>) -> i32 {
    if lower == encode_utf8("match"@) {
        64
    } else if lower == encode_utf8("glob"@) {
        66
    } else if lower == encode_utf8("regexp"@) {
        67
    } else if lower == encode_utf8("like"@) {
        65
    } else {
        0
    }
}

/// The operator code of a function name, in whatever case; 0 if it is not
/// claimed.
pub fn builtin_op(lower: &[u8]) -> (r: i32)
    ensures
        r == claimed_op(lower@),
{
    if bytes_eq(lower, "match".as_bytes()) {
        64
    } else if bytes_eq(lower, "glob".as_bytes()) {
        66
    } else if bytes_eq(lower, "regexp".as_bytes()) {
        67
    } else if bytes_eq(lower, "like".as_bytes()) {
        65
    } else {
        0
    }
}

/// The operator code that a function name stands for in a table. A table that
/// answers for itself is asked about the lower-case name, and its answer stands:
/// 0 claims nothing. `custom` is that answer.
pub fn vtab_xfind_function(name: Option<&[u8]>, custom: Option<i32>) -> (r: i32)
    ensures
        r == match name {
            None => 0,
            Some(b) => if !valid_utf8(b@) {
                0
            } else {
                match custom {
                    Some(op) => op,
                    None => claimed_op(lower_bytes(b@)),
                }
            },
        },
{
    match name {
        None => 0,
        Some(b) => match utf8_text(b) {
            None => 0,
            Some(_) => match custom {
                Some(op) => op,
                None => {
                    let lower: Vec<u8> = lowercase_name(b);
                    builtin_op(lower.as_slice())
                },
            },
        },
    }
}

/// The callbacks that a table has beyond those that every table has.
#[derive(Copy, Clone, Debug, PartialEq, Eq, Structural)]
pub struct VtabHooks {
    pub eponymous: bool,
    pub update: bool,
    pub begin: bool,
    pub sync: bool,
    pub commit: bool,
    pub rollback: bool,
    pub rename: bool,
    pub savepoint: bool,
    pub release: bool,
    pub rollback_to: bool,
    pub shadow_name: bool,
    pub integrity: bool,
}

/// The slots of a module that are filled, beyond those that always are, and the
/// version that tells the engine which slots there are.
#[derive(Copy, Clone, Debug, PartialEq, Eq, Structural)]
pub struct ModuleShape {
    pub version: i32,
    pub create: bool,
    pub update: bool,
    pub begin: bool,
    pub sync: bool,
    pub commit: bool,
    pub rollback: bool,
    pub rename: bool,
    pub savepoint: bool,
    pub release: bool,
    pub rollback_to: bool,
    pub shadow_name: bool,
    pub integrity: bool,
    pub find_function: bool,
}

/// The module for a table with the given callbacks. An eponymous table is not
/// created. The slot for an integrity check takes a higher version.
pub open spec fn module_shape(h: VtabHooks) -> ModuleShape {
    ModuleShape {
        version: if h.integrity {
            3
        } else {
            2
        },
        create: !h.eponymous,
        update: h.update,
        begin: h.begin,
        sync: h.sync,
        commit: h.commit,
        rollback: h.rollback,
        rename: h.rename,
        savepoint: h.savepoint,
        release: h.release,
        rollback_to: h.rollback_to,
        shadow_name: h.shadow_name,
        integrity: h.integrity,
        find_function: true,
    }
}

/// The module for a table with the given callbacks.
pub fn make_module(h: VtabHooks) -> (r: ModuleShape)
    ensures
        r == module_shape(h),
{
    let mut m = ModuleShape {
        version: 2,
        create: !h.eponymous,
        update: h.update,
        begin: h.begin,
        sync: h.sync,
        commit: h.commit,
        rollback: h.rollback,
        rename: h.rename,
        savepoint: h.savepoint,
        release: h.release,
        rollback_to: h.rollback_to,
        shadow_name: h.shadow_name,
        integrity: h.integrity,
        find_function: true,
    };
    if h.integrity {
        m.version = 3;
    }
    m
}

/// The tables whose modules are registered one after the other, and which of
/// them answers for names of shadow tables: the last one that can.
pub struct VtabRegistration {
    run: Registration,
    shadow_owner: Option<usize>,
}

impl VtabRegistration {
    /// The modules that are being registered.
    pub closed spec fn run(&self) -> Registration {
        self.run
    }

    /// The table that answers for names of shadow tables.
    pub closed spec fn owner(&self) -> Option<usize> {
        self.shadow_owner
    }

    /// Nothing is registered yet; `owner` has answered for shadow tables so far.
    pub fn new(count: usize, owner: Option<usize>) -> (r: Self)
        ensures
            r.run().wf(),
            r.run().count() == count,
            r.run().registered() == 0,
            r.owner() == owner,
    {
        VtabRegistration { run: Registration::new(count), shadow_owner: owner }
    }

    /// What is needed next.
    pub fn step(&self) -> (r: RegisterStep)
        requires
            self.run().wf(),
        ensures
            r == register_step(self.run().count(), self.run().registered()),
    {
        self.run.step()
    }

    /// Takes the engine's answer to registering the next module. `has_shadows`
    /// is whether its table can answer for names of shadow tables.
    pub fn reply(&mut self, rc: i32, has_shadows: bool) -> (r: RegisterStep)
        requires
            old(self).run().wf(),
            old(self).run().registered() < old(self).run().count(),
        ensures
            final(self).run().wf(),
            final(self).run().count() == old(self).run().count(),
            (final(self).run().registered(), r) == after_reply(
                old(self).run().count(),
                old(self).run().registered(),
                rc,
            ),
            final(self).owner() == if rc == SQLITE_OK && has_shadows {
                Some(old(self).run().registered() as usize)
            } else {
                old(self).owner()
            },
    {
        if rc == SQLITE_OK && has_shadows {
            self.shadow_owner = Some(self.run.next);
        }
        self.run.reply(rc)
    }

    /// The table that answers for names of shadow tables.
    pub fn shadow_owner(&self) -> (r: Option<usize>)
        ensures
            r == self.owner(),
    {
        self.shadow_owner
    }
}

/// The text of the engine's last error: what comes before the first NUL of
/// `message`, and nothing where there is no message.
pub fn last_error(message: Option<&[u8]>) -> (r: String)
    ensures
        match message {
            None => r@ == Seq::<char>::empty(),
            Some(b) => exists|n: int|
                {
                    &&& 0 <= n <= b@.len()
                    &&& forall|j: int| 0 <= j < n ==> b@[j] != 0
                    &&& n < b@.len() ==> b@[n] == 0
                    &&& r@ == lossy_text(#[trigger] b@.take(n))
                },
        },
{
    match message {
        None => empty_text(),
        Some(b) => {
            let n: usize = match find_nul(b) {
                Some(i) => i,
                None => b.len(),
            };
            let head = vstd::slice::slice_subrange(b, 0, n);
            assert(head@ =~= b@.take(n as int));
            assert forall|j: int| 0 <= j < n implies b@[j] != 0 by {
                if n == b@.len() && b@[j] == 0 {
                    assert(b@.contains(0u8));
                }
            }
            lossy(head)
        },
    }
}

/// What running statements without results came to: the engine's own text for a
/// failure, or the text of its last error.
pub fn exec_batch(rc: i32, own: Option<&[u8]>, last: String) -> (r: Result<(), String>)
    ensures
        match r {
            Ok(()) => rc == SQLITE_OK,
            Err(e) => rc != SQLITE_OK && e@ == match own {
                Some(b) => lossy_text(b@),
                None => last@,
            },
        },
{
    if rc != SQLITE_OK {
        return Err(
            match own {
                Some(b) => lossy(b),
                None => last,
            },
        );
    }
    Ok(())
}

/// What a query needs next.
#[derive(Copy, Clone, Debug, PartialEq, Eq, Structural)]
pub enum QueryStep {
    /// The statement is to be prepared.
    Prepare,
    /// The parameter with this index is to be bound, at its position from 1 on.
    Bind(usize),
    /// The statement is to be stepped.
    Step,
    /// The columns of the current row are to be read.
    ReadRow,
    /// The query failed: the text of the engine's last error is its outcome. The
    /// statement is finalized first if there is one.
    Fail(bool),
    /// The query is done: the statement is finalized, and its rows are the
    /// outcome.
    Finish,
}

/// A query in progress: its parameters, how many of them are bound, and what it
/// needs next.
pub struct Query<R> {
    params: usize,
    next: QueryStep,
    rows: Vec<R>,
}

/// What a query with `params` parameters needs once `bound` of them are bound.
pub open spec fn bind_or_step(params: nat, bound: nat) -> QueryStep {
    if bound < params {
        QueryStep::Bind(bound as usize)
    } else {
        QueryStep::Step
    }
}

impl<R> Query<R> {
    /// How many parameters there are.
    pub closed spec fn params(&self) -> nat {
        self.params as nat
    }

    /// What is needed next.
    pub closed spec fn next(&self) -> QueryStep {
        self.next
    }

    /// The rows there are so far.
    pub closed spec fn rows(&self) -> Seq<R> {
        self.rows@
    }

    /// A query with `params` parameters.
    pub fn new(params: usize) -> (r: Self)
        ensures
            r.params() == params,
            r.next() == QueryStep::Prepare,
            r.rows() == Seq::<R>::empty(),
    {
        Query { params, next: QueryStep::Prepare, rows: Vec::new() }
    }

    /// What is needed next.
    pub fn step(&self) -> (r: QueryStep)
        ensures
            r == self.next(),
    {
        self.next
    }

    /// Takes the engine's answer to the step that was needed.
    pub fn reply(&mut self, rc: i32)
        requires
            old(self).next() is Prepare || old(self).next() is Bind || old(self).next() is Step,
            old(self).next() matches QueryStep::Bind(i) ==> i < old(self).params(),
        ensures
            final(self).params() == old(self).params(),
            final(self).rows() == old(self).rows(),
            final(self).next() == match old(self).next() {
                QueryStep::Prepare => if rc == SQLITE_OK {
                    bind_or_step(old(self).params(), 0)
                } else {
                    QueryStep::Fail(false)
                },
                QueryStep::Bind(i) => if rc == SQLITE_OK {
                    bind_or_step(old(self).params(), (i + 1) as nat)
                } else {
                    QueryStep::Fail(true)
                },
                _ => if rc == SQLITE_DONE {
                    QueryStep::Finish
                } else if rc == SQLITE_ROW {
                    QueryStep::ReadRow
                } else {
                    QueryStep::Fail(true)
                },
            },
    {
        match self.next {
            QueryStep::Prepare => {
                self.next =
                if rc != SQLITE_OK {
                    QueryStep::Fail(false)
                } else if self.params > 0 {
                    QueryStep::Bind(0)
                } else {
                    QueryStep::Step
                };
            },
            QueryStep::Bind(i) => {
                self.next =
                if rc != SQLITE_OK {
                    QueryStep::Fail(true)
                } else if i + 1 < self.params {
                    QueryStep::Bind(i + 1)
                } else {
                    QueryStep::Step
                };
            },
            _ => {
                self.next =
                if rc == SQLITE_DONE {
                    QueryStep::Finish
                } else if rc == SQLITE_ROW {
                    QueryStep::ReadRow
                } else {
                    QueryStep::Fail(true)
                };
            },
        }
    }

    /// Takes the columns of the current row.
    pub fn row(&mut self, columns: R)
        requires
            old(self).next() == QueryStep::ReadRow,
        ensures
            final(self).params() == old(self).params(),
            final(self).rows() == old(self).rows().push(columns),
            final(self).next() == QueryStep::Step,
    {
        self.rows.push(columns);
        self.next = QueryStep::Step;
    }

    /// The outcome of a query that is done or failed, for which `last` is the
    /// text of the engine's last error.
    pub fn finish(self, last: String) -> (r: Result<Vec<R>, String>)
        requires
            self.next() is Finish || self.next() is Fail,
        ensures
            match r {
                Ok(rows) => self.next() is Finish && rows@ == self.rows(),
                Err(e) => self.next() is Fail && e@ == last@,
            },
    {
        match self.next {
            QueryStep::Finish => Ok(self.rows),
            _ => Err(last),
        }
    }
}

} // verus!
