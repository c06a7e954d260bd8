//! The glue for extensions that are linked in.

use libsqlite3_sys as ffi;
use sqlite_wasm::embed::{
    aggregate_oom_text, exec_batch, function_flags, hook_code,
    last_error, lowercase_name, make_module, optional_text, text_or_empty, value_to_owned,
    vtab_xconnect, vtab_xfind_function, vtab_xupdate, with_nul, AggregateAction, AggregateCall,
    BestIndex,
    EngineConstraint, EngineUsage, Query, QueryStep, RegisterStep, Registration, ScalarSpec,
    SqlValueOwned, VtabConstraint, VtabConstraintUsage, VtabHooks, VtabRegistration,
};

#[test]
fn values_are_taken_over() {
    assert!(matches!(value_to_owned(ffi::SQLITE_NULL, 1, 2, None), SqlValueOwned::Null));
    assert!(matches!(value_to_owned(ffi::SQLITE_INTEGER, 7, 0, None), SqlValueOwned::Integer(7)));
    let bits = 1.5f64.to_bits();
    assert!(matches!(
        value_to_owned(ffi::SQLITE_FLOAT, 0, bits, None),
        SqlValueOwned::Real(b) if f64::from_bits(b) == 1.5
    ));
    assert!(matches!(
        value_to_owned(ffi::SQLITE_TEXT, 0, 0, Some(b"h\xc3\xa9")),
        SqlValueOwned::Text(s) if s == "h\u{e9}"
    ));
    assert!(matches!(
        value_to_owned(ffi::SQLITE_TEXT, 0, 0, Some(b"\xff")),
        SqlValueOwned::Text(s) if s.is_empty()
    ));
    assert!(matches!(
        value_to_owned(ffi::SQLITE_TEXT, 0, 0, None),
        SqlValueOwned::Text(s) if s.is_empty()
    ));
    assert!(matches!(
        value_to_owned(ffi::SQLITE_BLOB, 0, 0, Some(b"\xff\0")),
        SqlValueOwned::Blob(b) if b == [0xff, 0]
    ));
    assert!(matches!(
        value_to_owned(ffi::SQLITE_BLOB, 0, 0, None),
        SqlValueOwned::Blob(b) if b.is_empty()
    ));
    assert!(matches!(value_to_owned(99, 0, 0, None), SqlValueOwned::Null));
}

#[test]
fn registrations_stop_at_the_first_failure() {
    let spec = ScalarSpec { func_id: 1, name: b"f\0", num_args: 2, deterministic: true };
    assert_eq!(function_flags(spec.deterministic), ffi::SQLITE_UTF8 | ffi::SQLITE_DETERMINISTIC);
    assert_eq!(function_flags(false), ffi::SQLITE_UTF8);
    let mut r = Registration::new(3);
    assert_eq!(r.step(), RegisterStep::Register(0));
    assert_eq!(r.reply(0), RegisterStep::Register(1));
    assert_eq!(r.reply(5), RegisterStep::Done(5));
    assert_eq!(r.reply(0), RegisterStep::Register(2));
    assert_eq!(r.reply(0), RegisterStep::Done(0));
    assert_eq!(Registration::new(0).step(), RegisterStep::Done(0));
}

#[test]
fn the_last_table_with_shadows_owns_them() {
    let mut r = VtabRegistration::new(3, None);
    assert_eq!(r.step(), RegisterStep::Register(0));
    assert_eq!(r.reply(0, true), RegisterStep::Register(1));
    assert_eq!(r.shadow_owner(), Some(0));
    assert_eq!(r.reply(0, false), RegisterStep::Register(2));
    assert_eq!(r.shadow_owner(), Some(0));
    assert_eq!(r.reply(1, true), RegisterStep::Done(1));
    assert_eq!(r.shadow_owner(), Some(0));
    assert_eq!(r.reply(0, true), RegisterStep::Done(0));
    assert_eq!(r.shadow_owner(), Some(2));
}

#[test]
fn aggregates_make_their_state_once() {
    let mut made = 0;
    let mut trace = Vec::new();
    let mut slot = 0;
    for _ in 0..3 {
        let mut row = AggregateCall::<i32>::row(Some(slot));
        while row.action() != AggregateAction::Done {
            trace.push(row.action());
            match row.action() {
                AggregateAction::Make => {
                    made += 1;
                    row.made(70 + made);
                }
                _ => row.added(),
            }
        }
        slot = row.slot();
    }
    let mut end = AggregateCall::end(Some(slot));
    while end.action() != AggregateAction::Done {
        trace.push(end.action());
        match end.action() {
            AggregateAction::Finish(_) => end.finished(Ok(5)),
            _ => end.destroyed(),
        }
    }
    assert_eq!(
        trace,
        vec![
            AggregateAction::Make,
            AggregateAction::Add(71),
            AggregateAction::Add(71),
            AggregateAction::Add(71),
            AggregateAction::Finish(71),
            AggregateAction::Destroy(71),
        ]
    );
    assert_eq!(end.slot(), 0);
    assert_eq!(end.into_answer(), Some(Ok(5)));
    assert_eq!(AggregateCall::<i32>::row(None).action(), AggregateAction::Fail);
    let mut empty = AggregateCall::<i32>::end(None);
    assert_eq!(empty.action(), AggregateAction::Make);
    empty.made(9);
    assert_eq!(empty.action(), AggregateAction::Finish(9));
    empty.finished(Err("no rows".to_string()));
    assert_eq!(empty.action(), AggregateAction::Destroy(9));
    empty.destroyed();
    assert_eq!(empty.action(), AggregateAction::Done);
    assert_eq!(empty.into_answer(), Some(Err("no rows".to_string())));
    assert_eq!(aggregate_oom_text(), "aggregate: out of memory");
}

#[test]
fn plans_go_out_and_come_back() {
    let raw = vec![
        EngineConstraint { column: 0, op: 2, usable: 1 },
        EngineConstraint { column: -1, op: 64, usable: 0 },
    ];
    let mut b = BestIndex::new(&raw);
    assert_eq!(
        b.constraints,
        vec![
            VtabConstraint { column: 0, op: 2, usable: true },
            VtabConstraint { column: -1, op: 64, usable: false }
        ]
    );
    assert_eq!(b.usage, vec![VtabConstraintUsage::default(); 2]);
    assert_eq!((b.idx_num, b.estimated_rows, b.order_by_consumed), (0, 1, false));
    b.usage[1] = VtabConstraintUsage { argv_index: 1, omit: true };
    b.order_by_consumed = true;
    let (usage, consumed) = b.output();
    assert_eq!(
        usage,
        vec![
            EngineUsage { argv_index: 0, omit: 0 },
            EngineUsage { argv_index: 1, omit: 1 }
        ]
    );
    assert_eq!(consumed, 1);
}

#[test]
fn connect_arguments_are_split() {
    let some = |s: &str| Some(s.as_bytes().to_vec());
    let c = vtab_xconnect(&vec![some("m"), some("main"), some("t"), some("a"), None, some("b")]);
    assert_eq!(c.table_name, "t");
    assert_eq!(c.args, vec!["a", "b"]);
    let c = vtab_xconnect(&vec![some("m"), some("main"), Some(b"t\xff".to_vec())]);
    assert_eq!(c.table_name, "t\u{fffd}");
    assert!(c.args.is_empty());
    let c = vtab_xconnect(&Vec::new());
    assert_eq!(c.table_name, "");
}

#[test]
fn function_names_are_claimed() {
    assert_eq!(vtab_xfind_function(Some(b"MATCH"), None), 64);
    assert_eq!(vtab_xfind_function(Some(b"like"), None), 65);
    assert_eq!(vtab_xfind_function(Some(b"Glob"), None), 66);
    assert_eq!(vtab_xfind_function(Some(b"regexp"), None), 67);
    assert_eq!(vtab_xfind_function(Some(b"near"), None), 0);
    assert_eq!(vtab_xfind_function(Some(b"near"), Some(150)), 150);
    assert_eq!(vtab_xfind_function(Some(b"match"), Some(0)), 0, "a table can opt out");
    assert_eq!(vtab_xfind_function(Some(b"\xff"), Some(150)), 0);
    assert_eq!(vtab_xfind_function(None, Some(150)), 0);
    assert_eq!(lowercase_name(b"AbC\xc3\x84z[@"), b"abc\xc3\x84z[@");
}

#[test]
fn modules_have_the_slots_that_are_used() {
    let none = VtabHooks {
        eponymous: true,
        update: false,
        begin: false,
        sync: false,
        commit: false,
        rollback: false,
        rename: false,
        savepoint: false,
        release: false,
        rollback_to: false,
        shadow_name: false,
        integrity: false,
    };
    let m = make_module(none);
    assert_eq!(m.version, 2);
    assert!(!m.create && !m.update && m.find_function);
    let m = make_module(VtabHooks { eponymous: false, integrity: true, update: true, ..none });
    assert_eq!(m.version, 3);
    assert!(m.create && m.update && m.integrity && !m.begin);
}

#[test]
fn hooks_and_updates_have_codes() {
    assert_eq!(hook_code(None), 0);
    assert_eq!(hook_code(Some(true)), 0);
    assert_eq!(hook_code(Some(false)), 1);
    assert_eq!(vtab_xupdate(None), Err((ffi::SQLITE_READONLY, None)));
    assert_eq!(vtab_xupdate(Some(Ok(9))), Ok(9));
    assert_eq!(
        vtab_xupdate(Some(Err("no".to_string()))),
        Err((ffi::SQLITE_ERROR, Some(b"no\0".to_vec())))
    );
    assert_eq!(with_nul("x"), b"x\0");
    assert_eq!(optional_text(Some(b"x")), Some("x".to_string()));
    assert_eq!(optional_text(Some(b"\xff")), None);
    assert_eq!(optional_text(None), None);
    assert_eq!(text_or_empty(Some(b"\xff")), "");
    assert_eq!(text_or_empty(Some(b"x")), "x");
}

#[test]
fn errors_of_batches_have_texts() {
    assert_eq!(last_error(Some(b"oops\0more")), "oops");
    assert_eq!(last_error(Some(b"oops")), "oops");
    assert_eq!(last_error(None), "");
    assert_eq!(exec_batch(0, None, String::new()), Ok(()));
    assert_eq!(exec_batch(1, Some(b"own"), "last".to_string()), Err("own".to_string()));
    assert_eq!(exec_batch(1, None, "last".to_string()), Err("last".to_string()));
}

#[test]
fn queries_bind_step_and_collect() {
    let mut q = Query::new(2);
    assert_eq!(q.step(), QueryStep::Prepare);
    q.reply(0);
    assert_eq!(q.step(), QueryStep::Bind(0));
    q.reply(0);
    assert_eq!(q.step(), QueryStep::Bind(1));
    q.reply(0);
    assert_eq!(q.step(), QueryStep::Step);
    q.reply(ffi::SQLITE_ROW);
    assert_eq!(q.step(), QueryStep::ReadRow);
    q.row(10);
    q.reply(ffi::SQLITE_ROW);
    q.row(20);
    q.reply(ffi::SQLITE_DONE);
    assert_eq!(q.step(), QueryStep::Finish);
    assert_eq!(q.finish(String::new()), Ok(vec![10, 20]));

    let mut q = Query::<i32>::new(0);
    q.reply(1);
    assert_eq!(q.step(), QueryStep::Fail(false));
    assert_eq!(q.finish("bad".to_string()), Err("bad".to_string()));
    let mut q = Query::<i32>::new(1);
    q.reply(0);
    q.reply(25);
    assert_eq!(q.step(), QueryStep::Fail(true));
    let mut q = Query::<i32>::new(0);
    q.reply(0);
    q.reply(5);
    assert_eq!(q.step(), QueryStep::Fail(true));
}
