//! What the users of a host can rely on: what is loaded, what it may do, and what the
//! tables of its extensions are asked and told.

use crate::host::{
    capability_of, extension_name, host_settings, http_policy_of, is_stub, manifest_names,
    not_loaded_text, uppercase, vanished_text, Host, Manifest, WitCapability, WitHttpPolicy,
};
use crate::host_vtabs::{
    bad_name_text, c_names, constraint_of, constraint_op, create_failed_text, error_bytes,
    first_nul, is_misuse, module_kind, orderby_of, plan_applied, text_at, texts_from, usage_of,
    ConstraintOp, HostVtabs, IndexPlan, PlanOutput, RawConstraint, RawOrderby, SqliteError,
};
use crate::policy::{covers, HttpPolicy, Policy};
use crate::text::{
    c_bytes, continues, lemma_decimal_injective, lemma_signed_decimal_injective,
    lemma_starts_and_ends, signed_decimal, texts,
};
use vstd::prelude::*;
use vstd::string::*;
use vstd::utf8::encode_utf8;

verus! {

/// A capability is called the same in the loader interface.
pub proof fn lemma_capabilities_keep_their_names(c: WitCapability)
    ensures
        c is Spi <==> capability_of(c) is Spi,
        c is Prepared <==> capability_of(c) is Prepared,
        c is Transaction <==> capability_of(c) is Transaction,
        c is Schema <==> capability_of(c) is Schema,
        c is State <==> capability_of(c) is State,
        c is Cache <==> capability_of(c) is Cache,
        c is Random <==> capability_of(c) is Random,
        c is Text <==> capability_of(c) is Text,
        c is Hashing <==> capability_of(c) is Hashing,
        c is Encoding <==> capability_of(c) is Encoding,
        c is Http <==> capability_of(c) is Http,
{
}

/// HTTP traffic is held to what the loader interface says: the same hosts, as many
/// methods in the same order, in upper case, and the same limits.
pub proof fn lemma_traffic_is_held_to_the_same(http: WitHttpPolicy, r: HttpPolicy, i: int)
    requires
        http_policy_of(http, r),
    ensures
        r.max_body_bytes == http.max_body_bytes,
        r.timeout_ms == http.timeout_ms,
        r.allowed_hosts@.len() == http.allowed_hosts@.len(),
        0 <= i < http.allowed_hosts@.len() ==> r.allowed_hosts@[i]@ == http.allowed_hosts@[i]@,
        r.allowed_methods is Some <==> http.allowed_methods is Some,
        http.allowed_methods is Some ==> r.allowed_methods->0@.len()
            == http.allowed_methods->0@.len(),
        http.allowed_methods is Some && 0 <= i < http.allowed_methods->0@.len()
            ==> r.allowed_methods->0@[i]@ == uppercase(http.allowed_methods->0@[i]@),
{
    assert(texts(r.allowed_hosts@).len() == r.allowed_hosts@.len());
    if 0 <= i < http.allowed_hosts@.len() {
        assert(texts(r.allowed_hosts@)[i] == r.allowed_hosts@[i]@);
    }
    if http.allowed_methods is Some {
        assert(texts(r.allowed_methods->0@).len() == r.allowed_methods->0@.len());
        if 0 <= i < http.allowed_methods->0@.len() {
            assert(texts(r.allowed_methods->0@)[i] == r.allowed_methods->0@[i]@);
        }
    }
}

/// A pattern without a wildcard covers itself and no other host.
pub proof fn lemma_exact_patterns(entry: Seq<char>, host: Seq<char>)
    requires
        !continues(encode_utf8("*."@), encode_utf8(entry)),
    ensures
        covers(entry, host) <==> entry == host,
{
    lemma_starts_and_ends(encode_utf8(entry), encode_utf8("*."@));
}

/// A host is allowed exactly if some pattern of the policy covers it, wherever it
/// stands among them.
pub proof fn lemma_allowed_hosts(p: HttpPolicy, host: Seq<char>)
    ensures
        p.covered(host) <==> exists|i: int|
            0 <= i < p.allowed_hosts@.len() && covers(#[trigger] p.allowed_hosts@[i]@, host),
{
}

/// Two policies have the same limits exactly if each limit is the same.
pub proof fn lemma_limits(a: Policy, b: Policy)
    ensures
        a.same_limits(&b) <==> a.http == b.http && a.fuel_per_call == b.fuel_per_call
            && a.memory_limit_bytes == b.memory_limit_bytes && a.epoch_deadline_ms
            == b.epoch_deadline_ms,
        a.grants() == a.granted@,
{
}

/// What is compiled is registered under its own name, with the policy that it was
/// loaded with, and everything else that was loaded still is; what was not compiled
/// changes nothing.
pub proof fn lemma_what_loading_changes(
    before: Host,
    path: Seq<char>,
    name: Seq<char>,
    compiled: Result<wasmtime::component::Component, String>,
    policy: Policy,
    after: Host,
    r: Result<String, String>,
)
    requires
        before.registered(path, name, compiled, policy, after, r),
    ensures
        r is Ok <==> compiled is Ok,
        compiled is Ok ==> {
            &&& r->Ok_0@ == name
            &&& after@.contains_key(name)
            &&& after@[name].name@ == name
            &&& after@[name].policy == policy
            &&& after@[name].component == compiled->Ok_0
            &&& after@[name].version@ == "0.0.0"@
            &&& after@[name].scalar_functions@.len() == 0
            &&& forall|n: Seq<char>|
                n != name ==> (#[trigger] after@.contains_key(n) <==> before@.contains_key(n))
                    && after@[n] == before@[n]
        },
        compiled is Err ==> after@ == before@ && r->Err_0@ == "compile "@ + path + ": "@
            + compiled->Err_0@,
{
}

/// An extension is called by the stem of its file, and `extension` where there is
/// none; an engine is made to hold components to their fuel and their deadlines.
pub proof fn lemma_names_and_settings(stem: Option<&str>)
    ensures
        stem is Some ==> extension_name(stem) == stem->0@,
        stem is None ==> extension_name(stem) == "extension"@,
        host_settings().component_model,
        host_settings().fuel,
        host_settings().epochs,
        host_settings().tuning is Speed,
{
}

/// A manifest tells the name and the version, and nothing else of an extension.
pub proof fn lemma_manifests(m: Manifest, name: Seq<char>, version: Seq<char>)
    requires
        is_stub(m, name, version),
    ensures
        m.name@ == name,
        m.version@ == version,
        m.scalar_functions@.len() == 0,
        m.aggregate_functions@.len() == 0,
        m.collations@.len() == 0,
        m.declared_capabilities@.len() == 0,
        !m.has_authorizer,
        !m.has_update_hook,
        !m.has_commit_hook,
{
}

/// The names of manifests are theirs, in order, and errors name their extension.
pub proof fn lemma_names_are_told(ms: Seq<Manifest>, i: int, name: Seq<char>)
    ensures
        manifest_names(ms).len() == ms.len(),
        0 <= i < ms.len() ==> manifest_names(ms)[i] == ms[i].name@,
        not_loaded_text(name) == "extension "@ + name + " not loaded"@,
        vanished_text(name) == "internal: extension "@ + name + " vanished after load"@,
{
}

/// Every operator code of the engine's has its own kind of constraint; what is not
/// known is a function.
pub proof fn lemma_kinds_of_constraint(op: u8)
    ensures
        constraint_op(op) == ConstraintOp::Eq <==> op == 2,
        constraint_op(op) == ConstraintOp::Gt <==> op == 4,
        constraint_op(op) == ConstraintOp::Le <==> op == 8,
        constraint_op(op) == ConstraintOp::Lt <==> op == 16,
        constraint_op(op) == ConstraintOp::Ge <==> op == 32,
        constraint_op(op) == ConstraintOp::Match <==> op == 64,
        constraint_op(op) == ConstraintOp::Like <==> op == 65,
        constraint_op(op) == ConstraintOp::Glob <==> op == 66,
        constraint_op(op) == ConstraintOp::Regexp <==> op == 67,
        constraint_op(op) == ConstraintOp::Ne <==> op == 68,
        constraint_op(op) == ConstraintOp::IsNotNull <==> op == 70,
        constraint_op(op) == ConstraintOp::IsNull <==> op == 71,
        constraint_op(op) == ConstraintOp::Limit <==> op == 73,
        constraint_op(op) == ConstraintOp::Offset <==> op == 74,
{
}

/// An extension is asked about constraints and orderings as the engine has them.
pub proof fn lemma_questions_pass_through(c: RawConstraint, o: RawOrderby)
    ensures
        constraint_of(c).column == c.column,
        constraint_of(c).op == constraint_op(c.op),
        constraint_of(c).usable <==> c.usable != 0,
        orderby_of(o).column == o.column,
        orderby_of(o).desc <==> o.desc != 0,
{
}

/// The engine is told of a plan as the extension made it: each use of a constraint
/// that the engine asked about, in order, and no other one; and everything else but an
/// index text with a NUL.
pub proof fn lemma_plans_pass_through(plan: IndexPlan, n: usize, r: PlanOutput, i: int)
    requires
        plan_applied(plan, n, r),
    ensures
        r.idx_num == plan.idx_num,
        r.estimated_rows == plan.estimated_rows,
        r.orderby_consumed == 1 <==> plan.orderby_consumed,
        r.orderby_consumed == 0 <==> !plan.orderby_consumed,
        r.usages@.len() <= n,
        r.usages@.len() <= plan.constraint_usage@.len(),
        r.usages@.len() == n || r.usages@.len() == plan.constraint_usage@.len(),
        0 <= i < r.usages@.len() ==> r.usages@[i].argv_index
            == plan.constraint_usage@[i].argv_index,
        0 <= i < r.usages@.len() ==> (r.usages@[i].omit == 1 <==> plan.constraint_usage@[i].omit),
        0 <= i < r.usages@.len() ==> (r.usages@[i].omit == 0 <==> !plan.constraint_usage@[i].omit),
        plan.idx_str is None ==> r.idx_str is None,
        plan.idx_str is Some && encode_utf8(plan.idx_str->0@).contains(0u8) ==> r.idx_str is None,
        plan.idx_str is Some && !encode_utf8(plan.idx_str->0@).contains(0u8) ==> r.idx_str is Some
            && r.idx_str->0@ == encode_utf8(plan.idx_str->0@).push(0u8),
{
    if 0 <= i < r.usages@.len() {
        assert(r.usages@[i] == usage_of(plan.constraint_usage@[i]));
    }
}

/// An error text reaches the engine as it is, with a NUL behind it, unless it holds a
/// NUL itself.
pub proof fn lemma_error_texts(msg: Seq<char>, fallback: Seq<char>)
    ensures
        !encode_utf8(msg).contains(0u8) ==> error_bytes(msg, fallback) == encode_utf8(msg).push(
            0u8,
        ),
        encode_utf8(msg).contains(0u8) ==> error_bytes(msg, fallback) == encode_utf8(
            fallback,
        ).push(0u8),
        c_bytes(msg) == encode_utf8(msg).push(0u8),
{
}

/// Arguments are told of one for one, and those that are missing are empty.
pub proof fn lemma_arguments(v: Seq<Seq<char>>, i: int, j: int)
    requires
        0 <= i,
    ensures
        i < v.len() ==> text_at(v, i) == v[i],
        i >= v.len() ==> text_at(v, i).len() == 0,
        i >= v.len() ==> texts_from(v, i).len() == 0,
        i < v.len() ==> texts_from(v, i).len() == v.len() - i,
        0 <= j && i + j < v.len() ==> texts_from(v, i)[j] == v[i + j],
{
}

/// A table that can be written is mutable, and one that cannot is eponymous exactly if
/// it is said to be.
pub proof fn lemma_kinds_of_module(eponymous: bool, mutable: bool)
    ensures
        module_kind(eponymous, mutable) is Mutable <==> mutable,
        module_kind(eponymous, mutable) is Eponymous <==> eponymous && !mutable,
        module_kind(eponymous, mutable) is ReadOnly <==> !eponymous && !mutable,
{
}

/// A refused name is told by the place of its first NUL, and a refused module by the
/// engine's code.
pub proof fn lemma_refusals(b: Seq<u8>, i: int, j: int, rc1: i32, rc2: i32)
    ensures
        first_nul(b, i) ==> 0 <= i < b.len() && b[i] == 0,
        first_nul(b, i) && 0 <= j < i ==> b[j] != 0,
        0 <= i && 0 <= j && bad_name_text(i as nat) == bad_name_text(j as nat) ==> i == j,
        create_failed_text(rc1) == create_failed_text(rc2) ==> rc1 == rc2,
{
    let p = "register-host-vtab: bad name: nul byte found in provided data at position: "@;
    if 0 <= i && 0 <= j && bad_name_text(i as nat) == bad_name_text(j as nat) {
        assert(bad_name_text(i as nat).skip(p.len() as int) =~= crate::text::decimal(i as nat));
        assert(bad_name_text(j as nat).skip(p.len() as int) =~= crate::text::decimal(j as nat));
        lemma_decimal_injective(i as nat, j as nat);
    }
    let q = "sqlite3_create_module_v2 failed: rc="@;
    if create_failed_text(rc1) == create_failed_text(rc2) {
        assert(create_failed_text(rc1).skip(q.len() as int) =~= signed_decimal(rc1 as int));
        assert(create_failed_text(rc2).skip(q.len() as int) =~= signed_decimal(rc2 as int));
        lemma_signed_decimal_injective(rc1 as int, rc2 as int);
    }
}

/// A misuse has the code 21 both ways, and its text.
pub proof fn lemma_misuses(e: SqliteError, message: Seq<char>)
    requires
        is_misuse(e, message),
    ensures
        e.code == 21,
        e.extended_code == 21,
        e.message@ == message,
{
}

/// How many of the first `n` names hold no NUL.
pub open spec fn proper(names: Seq<Seq<char>>, n: int) -> nat
    decreases n,
{
    if n <= 0 {
        0
    } else {
        proper(names, n - 1) + if encode_utf8(names[n - 1]).contains(0u8) {
            0nat
        } else {
            1
        }
    }
}

/// The modules that are taken out again: every name that is registered, in order and
/// each once, but for names that hold a NUL.
pub proof fn lemma_names_to_take_out(names: Seq<Seq<char>>, n: int)
    requires
        0 <= n <= names.len(),
    ensures
        c_names(names.take(n)).len() == proper(names, n),
        forall|i: int|
            0 <= i < n && !encode_utf8(#[trigger] names[i]).contains(0u8) ==> proper(names, i)
                < proper(names, n) && c_names(names.take(n))[proper(names, i) as int]
                == encode_utf8(names[i]).push(0u8),
    decreases n,
{
    if n > 0 {
        assert(names.take(n).drop_last() =~= names.take(n - 1));
        assert(names.take(n).last() == names[n - 1]);
        lemma_names_to_take_out(names, n - 1);
        assert forall|i: int|
            0 <= i < n && !encode_utf8(#[trigger] names[i]).contains(0u8) implies proper(names, i)
            < proper(names, n) && c_names(names.take(n))[proper(names, i) as int] == encode_utf8(
            names[i],
        ).push(0u8) by {
            if i < n - 1 {
                assert(c_names(names.take(n))[proper(names, i) as int] == c_names(
                    names.take(n - 1),
                )[proper(names, i) as int]);
            }
        }
    }
}

/// What a call leaves alone, by its name: nothing but what it names may differ.
pub proof fn lemma_what_is_left_alone<V>(a: HostVtabs<V>, b: HostVtabs<V>, id: u64, k: u64)
    ensures
        a.same_but_instances(&b) ==> a.cursors() == b.cursors() && a.caches() == b.caches()
            && a.next_cursor() == b.next_cursor() && a.modules() == b.modules(),
        a.same_but_cursors(&b) ==> a.instances() == b.instances() && a.next_instance()
            == b.next_instance() && a.modules() == b.modules(),
        a.same_but_cache(&b, id) ==> a.instances() == b.instances() && a.cursors() == b.cursors()
            && a.next_instance() == b.next_instance() && a.next_cursor() == b.next_cursor()
            && a.modules() == b.modules(),
        a.same_but_cache(&b, id) && k != id && b.caches().contains_key(k)
            ==> a.caches().contains_key(k) && a.caches()[k] == b.caches()[k],
        a.is_batched(k) <==> a.cursors().contains_key(k) && a.cursors()[k].batched,
{
    if a.same_but_cache(&b, id) && k != id && b.caches().contains_key(k) {
        assert(b.caches().remove(id).contains_key(k));
        assert(a.caches().remove(id).contains_key(k));
        assert(a.caches().remove(id)[k] == b.caches().remove(id)[k]);
    }
}

} // verus!
