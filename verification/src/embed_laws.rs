//! What an extension that is linked in can rely on, whatever the engine hands over.

use crate::embed::{
    after_reply, arg_views, bind_or_step, bytes_of, claimed_op, engine_usage, held_state,
    lower_byte, lower_bytes, module_shape, owned_value, present, register_step, table_constraint,
    table_name, user_args, AggregateModel, EngineConstraint, QueryStep, RegisterStep, SqlValueView,
    VtabConstraintUsage, VtabHooks,
};
use crate::text::lossy_text;
use vstd::prelude::*;
use vstd::string::*;
use vstd::utf8::{decode_utf8, encode_utf8, valid_utf8};

verus! {

/// A value loses nothing on its way to an extension: an integer is exactly the
/// integer that the engine has, a floating-point number has exactly its bits, a blob
/// its bytes, and a text in valid UTF-8 its characters; only what has no type is null.
pub proof fn lemma_values_lose_nothing(
    kind: i32,
    integer: i64,
    bits: u64,
    bytes: Option<Seq<u8>>,
)
    ensures
        kind == 1 ==> owned_value(kind, integer, bits, bytes) == SqlValueView::Integer(integer),
        kind == 2 ==> owned_value(kind, integer, bits, bytes) == SqlValueView::Real(bits),
        kind == 3 && bytes is Some && valid_utf8(bytes->0) ==> owned_value(
            kind,
            integer,
            bits,
            bytes,
        ) == SqlValueView::Text(decode_utf8(bytes->0)),
        kind == 3 && (bytes is None || !valid_utf8(bytes->0)) ==> owned_value(
            kind,
            integer,
            bits,
            bytes,
        ) is Text && owned_value(kind, integer, bits, bytes)->Text_0.len() == 0,
        kind == 4 && bytes is Some ==> owned_value(kind, integer, bits, bytes)
            == SqlValueView::Blob(bytes->0),
        kind == 4 && bytes is None ==> owned_value(kind, integer, bits, bytes) is Blob
            && owned_value(kind, integer, bits, bytes)->Blob_0.len() == 0,
        kind < 1 || kind > 4 ==> owned_value(kind, integer, bits, bytes) is Null,
{
}

/// The bytes behind a pointer are what the pointer points to.
pub proof fn lemma_bytes_behind_a_pointer(p: Option<&[u8]>)
    ensures
        p is None <==> bytes_of(p) is None,
        p is Some ==> bytes_of(p)->0 == p->0@,
{
}

/// Each step of a registration registers the first thing that is not registered yet,
/// until all are; a failure ends it with its code, and counts nothing.
pub proof fn lemma_registrations(count: nat, registered: nat, rc: i32)
    requires
        count <= usize::MAX,
    ensures
        registered < count ==> register_step(count, registered) == RegisterStep::Register(
            registered as usize,
        ),
        registered >= count ==> register_step(count, registered) == RegisterStep::Done(0),
        rc != 0 ==> after_reply(count, registered, rc) == (registered, RegisterStep::Done(rc)),
        rc == 0 ==> after_reply(count, registered, rc).0 == registered + 1,
        rc == 0 && registered + 1 < count ==> after_reply(count, registered, rc).1
            == RegisterStep::Register((registered + 1) as usize),
        rc == 0 && registered + 1 >= count ==> after_reply(count, registered, rc).1
            == RegisterStep::Done(0),
{
}

/// A table is asked about each constraint as the engine has it, and the engine is
/// told of each use as the table has it.
pub proof fn lemma_constraints_pass_through(c: EngineConstraint, u: VtabConstraintUsage)
    ensures
        table_constraint(c).column == c.column,
        table_constraint(c).op == c.op,
        table_constraint(c).usable <==> c.usable != 0,
        engine_usage(u).argv_index == u.argv_index,
        engine_usage(u).omit == 1 <==> u.omit,
        engine_usage(u).omit == 0 <==> !u.omit,
{
}

/// The engine's arguments are seen as they are, one for one.
pub proof fn lemma_arguments_are_seen(v: Seq<Option<Vec<u8>>>, i: int)
    requires
        0 <= i < v.len(),
    ensures
        arg_views(v).len() == v.len(),
        arg_views(v)[i] is Some <==> v[i] is Some,
        v[i] is Some ==> arg_views(v)[i]->0 == v[i]->0@,
{
}

/// How many of the first `n` arguments from `from` on are there.
pub open spec fn there(v: Seq<Option<Seq<u8>>>, from: int, n: int) -> nat
    decreases n - from,
{
    if n <= from {
        0
    } else {
        there(v, from, n - 1) + if v[n - 1] is Some {
            1nat
        } else {
            0
        }
    }
}

proof fn lemma_present(v: Seq<Option<Seq<u8>>>, n: int)
    requires
        0 <= n <= v.len(),
    ensures
        present(v.take(n)).len() == there(v, 0, n),
        forall|i: int|
            0 <= i < n && (#[trigger] v[i]) is Some ==> there(v, 0, i) < there(v, 0, n)
                && present(v.take(n))[there(v, 0, i) as int] == lossy_text(v[i]->0),
    decreases n,
{
    if n > 0 {
        assert(v.take(n).drop_last() =~= v.take(n - 1));
        assert(v.take(n).last() == v[n - 1]);
        lemma_present(v, n - 1);
        assert forall|i: int| 0 <= i < n && (#[trigger] v[i]) is Some implies there(v, 0, i) < there(
            v,
            0,
            n,
        ) && present(v.take(n))[there(v, 0, i) as int] == lossy_text(v[i]->0) by {
            if i < n - 1 {
                assert(present(v.take(n))[there(v, 0, i) as int] == present(
                    v.take(n - 1),
                )[there(v, 0, i) as int]);
            }
        }
    }
}

/// The third argument is the table's name, and the arguments from the fourth on are
/// the user's: all of them that are there, in order and each once.
pub proof fn lemma_connect_arguments(v: Seq<Option<Seq<u8>>>, i: int)
    ensures
        v.len() > 2 && v[2] is Some ==> table_name(v) == lossy_text(v[2]->0),
        v.len() <= 2 || v[2] is None ==> table_name(v).len() == 0,
        v.len() <= 3 ==> user_args(v).len() == 0,
        v.len() > 3 ==> user_args(v).len() == there(v.skip(3), 0, v.len() - 3),
        3 <= i < v.len() && v[i] is Some ==> there(v.skip(3), 0, i - 3) < user_args(v).len()
            && user_args(v)[there(v.skip(3), 0, i - 3) as int] == lossy_text(v[i]->0),
{
    if v.len() > 3 {
        let t = v.skip(3);
        assert(t.take(t.len() as int) =~= t);
        lemma_present(t, t.len() as int);
        if 3 <= i < v.len() && v[i] is Some {
            assert(t[i - 3] == v[i]);
        }
    }
}

/// Lower case changes the letters A to Z alone, each to its small form, and nothing
/// else of a name.
pub proof fn lemma_lower_case(b: Seq<u8>, i: int)
    requires
        0 <= i < b.len(),
    ensures
        lower_bytes(b).len() == b.len(),
        65 <= b[i] <= 90 ==> lower_bytes(b)[i] == b[i] + 32,
        b[i] < 65 || b[i] > 90 ==> lower_bytes(b)[i] == b[i],
        lower_byte(b[i]) == lower_bytes(b)[i],
{
}

/// The four function names that every table claims, by their operator codes; no other
/// name has one.
pub proof fn lemma_claimed_names(lower: Seq<u8>)
    ensures
        lower == encode_utf8("match"@) ==> claimed_op(lower) == 64,
        lower == encode_utf8("glob"@) ==> claimed_op(lower) == 66,
        lower == encode_utf8("regexp"@) ==> claimed_op(lower) == 67,
        lower == encode_utf8("like"@) ==> claimed_op(lower) == 65,
        claimed_op(lower) != 0 ==> lower == encode_utf8("match"@) || lower == encode_utf8("glob"@)
            || lower == encode_utf8("regexp"@) || lower == encode_utf8("like"@),
{
    reveal_strlit("match");
    reveal_strlit("glob");
    reveal_strlit("regexp");
    reveal_strlit("like");
    if lower == encode_utf8("glob"@) && lower == encode_utf8("match"@) {
        crate::text::lemma_utf8_injective("glob"@, "match"@);
    }
    if lower == encode_utf8("regexp"@) && lower == encode_utf8("match"@) {
        crate::text::lemma_utf8_injective("regexp"@, "match"@);
    }
    if lower == encode_utf8("regexp"@) && lower == encode_utf8("glob"@) {
        crate::text::lemma_utf8_injective("regexp"@, "glob"@);
    }
    if lower == encode_utf8("like"@) && lower == encode_utf8("match"@) {
        crate::text::lemma_utf8_injective("like"@, "match"@);
    }
    if lower == encode_utf8("like"@) && lower == encode_utf8("glob"@) {
        crate::text::lemma_utf8_injective("like"@, "glob"@);
        assert("like"@[0] == 'l');
        assert("glob"@[0] == 'g');
    }
    if lower == encode_utf8("like"@) && lower == encode_utf8("regexp"@) {
        crate::text::lemma_utf8_injective("like"@, "regexp"@);
    }
}

/// A module has a slot for each callback that its table has, and for no other one; it
/// is created exactly if it is not eponymous, and its version is the least that has
/// all its slots.
pub proof fn lemma_modules_have_their_slots(h: VtabHooks)
    ensures
        module_shape(h).create <==> !h.eponymous,
        module_shape(h).update <==> h.update,
        module_shape(h).begin <==> h.begin,
        module_shape(h).sync <==> h.sync,
        module_shape(h).commit <==> h.commit,
        module_shape(h).rollback <==> h.rollback,
        module_shape(h).rename <==> h.rename,
        module_shape(h).savepoint <==> h.savepoint,
        module_shape(h).release <==> h.release,
        module_shape(h).rollback_to <==> h.rollback_to,
        module_shape(h).shadow_name <==> h.shadow_name,
        module_shape(h).integrity <==> h.integrity,
        module_shape(h).find_function,
        module_shape(h).version == 3 <==> h.integrity,
        module_shape(h).version == 2 <==> !h.integrity,
{
}

/// A query binds its parameters one after the other and steps once all are bound.
pub proof fn lemma_queries_bind_every_parameter(params: nat, bound: nat)
    requires
        params <= usize::MAX,
    ensures
        bound < params ==> bind_or_step(params, bound) == QueryStep::Bind(bound as usize),
        bound >= params ==> bind_or_step(params, bound) == QueryStep::Step,
{
}

/// Without a slot a row fails and asks for nothing else; with one it never fails. An
/// end never fails. A slot holds a state exactly if it does not hold 0.
pub proof fn lemma_when_rows_fail<T>(slot: Option<u64>)
    ensures
        AggregateModel::<T>::row(slot).action() is Fail <==> slot is None,
        !(AggregateModel::<T>::end(slot).action() is Fail),
        held_state(slot) is Some <==> slot is Some && slot->0 != 0,
        held_state(slot) is Some ==> held_state(slot)->0 == slot->0,
{
}

} // verus!
