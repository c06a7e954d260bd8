//! Virtual tables that extensions of the host serve.

use libsqlite3_sys as ffi;
use sqlite_wasm::host_vtabs::{
    apply_plan, best_index_reply, err_sqlite, index_info, register_host_vtab, reply_code, set_err,
    BatchRow, ColumnStep, Constraint, ConstraintOp, ConstraintUsage, FilterStep, HostVtabs,
    IndexPlan, ModuleAux, ModuleKind, NextStep, Orderby, RawConstraint, RawOrderby, RawUsage,
    RowStep, BATCH_SIZE,
};

fn aux(batched: bool, eponymous: bool) -> ModuleAux {
    ModuleAux { ext_name: "ext".to_string(), vtab_id: 7, eponymous, batched }
}

fn texts(v: &[&str]) -> Vec<String> {
    v.iter().map(|s| s.to_string()).collect()
}

fn rows(ids: &[i64]) -> Option<Vec<BatchRow<i64>>> {
    Some(ids.iter().map(|i| BatchRow { rowid: *i, columns: vec![*i * 10] }).collect())
}

fn open_cursor(h: &mut HostVtabs<i64>, batched: bool) -> u64 {
    let req = h.create_or_connect(&aux(batched, false), &texts(&["m", "main", "t"]), false);
    let (c, _) = h.x_open(req.instance_id).unwrap();
    assert_eq!(h.open_reply(c, true), 0);
    c
}

#[test]
fn tables_are_numbered_and_asked_for() {
    let mut h = HostVtabs::<i64>::new();
    assert!(h.numbers_left());
    let r = h.create_or_connect(&aux(false, false), &texts(&["m", "main", "t", "a", "b"]), false);
    assert_eq!(r.instance_id, 1);
    assert!(r.create);
    assert_eq!((r.db_name.as_str(), r.table_name.as_str()), ("main", "t"));
    assert_eq!(r.user_args, vec!["a", "b"]);
    let r = h.create_or_connect(&aux(false, true), &texts(&["m"]), false);
    assert_eq!(r.instance_id, 2);
    assert!(!r.create, "an eponymous table is connected to");
    assert_eq!((r.db_name.as_str(), r.table_name.as_str()), ("", ""));
    assert!(r.user_args.is_empty());
    assert!(!h.create_or_connect(&aux(false, false), &Vec::new(), true).create);

    assert_eq!(h.connect_reply(1, Ok("CREATE TABLE x(a)".to_string())).unwrap(), b"CREATE TABLE x(a)\0");
    assert_eq!(h.declared(1, 0), 0);
    assert!(h.instance_meta(1).is_some());
    assert_eq!(h.connect_reply(2, Err("nope".to_string())).unwrap_err(), b"nope\0");
    assert!(h.instance_meta(2).is_none());
    assert_eq!(
        h.connect_reply(3, Ok("a\0b".to_string())).unwrap_err(),
        b"vtab schema contained NUL\0"
    );
    assert!(h.instance_meta(3).is_none());
    assert_eq!(h.declared(1, 1), 1);
    assert!(h.instance_meta(1).is_none());
    assert!(matches!(h.instance_target(1), Err(rc) if rc == ffi::SQLITE_INTERNAL));
}

#[test]
fn disconnecting_tells_whom_to_tell() {
    let mut h = HostVtabs::<i64>::new();
    let r = h.create_or_connect(&aux(true, false), &Vec::new(), false);
    let m = h.x_disconnect(r.instance_id).unwrap();
    assert_eq!((m.ext_name.as_str(), m.vtab_id, m.batched), ("ext", 7, true));
    assert!(h.x_disconnect(r.instance_id).is_none());
    assert!(matches!(h.x_open(r.instance_id), Err(rc) if rc == ffi::SQLITE_INTERNAL));
}

#[test]
fn a_scan_hands_out_every_row_once() {
    for m in 0..4usize {
        for last in [rows(&[]), None] {
            let mut h = HostVtabs::<i64>::new();
            let c = open_cursor(&mut h, true);
            let mut answers: Vec<_> = (0..m).map(|b| rows(&[b as i64, b as i64 + 100])).collect();
            answers.push(last);
            answers.reverse();
            assert!(matches!(h.filter_reply(c, true), FilterStep::Refill));
            h.refill_batch(c, answers.pop().unwrap());
            let mut seen = Vec::new();
            for _ in 0..2 * m + 3 {
                match (h.x_eof(c), h.x_rowid(c)) {
                    (RowStep::Value(false), RowStep::Value(id)) => seen.push(id),
                    (RowStep::Value(true), RowStep::Code(rc)) => assert_eq!(rc, ffi::SQLITE_ERROR),
                    _ => unreachable!(),
                }
                if matches!(h.x_next(c), NextStep::Refill) {
                    h.refill_batch(c, answers.pop().expect("no answer is left to ask for"));
                }
            }
            let want: Vec<i64> = (0..m as i64).flat_map(|b| [b, b + 100]).collect();
            assert_eq!(seen, want);
            assert!(answers.is_empty());
        }
    }
}

#[test]
fn batches_are_served_to_their_end() {
    let mut h = HostVtabs::<i64>::new();
    let c = open_cursor(&mut h, true);
    assert!(matches!(h.x_eof(c), RowStep::Value(true)));
    assert!(matches!(h.x_rowid(c), RowStep::Code(rc) if rc == ffi::SQLITE_ERROR));
    assert!(matches!(h.filter_reply(c, true), FilterStep::Refill));
    assert!(h.refill_batch(c, rows(&[1, 2])));
    let mut seen = Vec::new();
    let mut batches = vec![rows(&[]), rows(&[3])];
    loop {
        match h.x_eof(c) {
            RowStep::Value(true) => break,
            RowStep::Value(false) => {}
            _ => unreachable!(),
        }
        match h.x_rowid(c) {
            RowStep::Value(id) => seen.push(id),
            _ => unreachable!(),
        }
        assert!(matches!(h.x_column(c, 0), ColumnStep::Value(v) if v % 10 == 0));
        assert!(matches!(h.x_column(c, 5), ColumnStep::Null));
        assert!(matches!(h.x_column(c, -1), ColumnStep::Null));
        match h.x_next(c) {
            NextStep::Refill => {
                h.refill_batch(c, batches.pop().unwrap());
            }
            NextStep::Done(rc) => assert_eq!(rc, 0),
            NextStep::Ask => unreachable!(),
        }
    }
    assert_eq!(seen, vec![1, 2, 3]);
    assert!(matches!(h.x_column(c, 0), ColumnStep::Code(rc) if rc == ffi::SQLITE_ERROR));
    assert!(matches!(h.filter_reply(c, true), FilterStep::Refill));
    assert!(!h.refill_batch(c, None), "an error is the end");
    assert!(matches!(h.x_eof(c), RowStep::Value(true)));
    assert_eq!(BATCH_SIZE, 64);
}

#[test]
fn other_cursors_ask_every_time() {
    let mut h = HostVtabs::<i64>::new();
    let c = open_cursor(&mut h, false);
    assert!(matches!(h.filter_reply(c, true), FilterStep::Done(0)));
    assert!(matches!(h.filter_reply(c, false), FilterStep::Done(1)));
    assert!(matches!(h.x_next(c), NextStep::Ask));
    assert!(matches!(h.x_eof(c), RowStep::Ask));
    assert!(matches!(h.x_column(c, 0), ColumnStep::Ask));
    assert!(matches!(h.x_rowid(c), RowStep::Ask));
    assert!(h.cursor_target(c).is_ok());
    assert!(h.x_close(c).is_some());
    assert!(h.x_close(c).is_none());
    assert!(matches!(h.x_next(c), NextStep::Done(rc) if rc == ffi::SQLITE_INTERNAL));
    assert!(matches!(h.x_eof(c), RowStep::Value(true)));
    assert!(matches!(h.x_column(c, 0), ColumnStep::Code(rc) if rc == ffi::SQLITE_INTERNAL));
    assert!(matches!(h.x_rowid(c), RowStep::Code(rc) if rc == ffi::SQLITE_INTERNAL));
    assert!(matches!(h.cursor_target(c), Err(rc) if rc == ffi::SQLITE_INTERNAL));
    let r = h.create_or_connect(&aux(false, false), &Vec::new(), false);
    let (c, _) = h.x_open(r.instance_id).unwrap();
    assert_eq!(h.open_reply(c, false), ffi::SQLITE_ERROR);
    assert!(h.cursor_meta(c).is_none());
}

#[test]
fn plans_are_marshalled() {
    let info = index_info(
        &vec![RawConstraint { column: 1, op: 2, usable: 1 }, RawConstraint { column: 2, op: 99, usable: 0 }],
        &vec![RawOrderby { column: 3, desc: 1 }],
        5,
    );
    assert_eq!(
        info.constraints,
        vec![
            Constraint { column: 1, op: ConstraintOp::Eq, usable: true },
            Constraint { column: 2, op: ConstraintOp::Function, usable: false }
        ]
    );
    assert_eq!(info.orderbys, vec![Orderby { column: 3, desc: true }]);
    assert_eq!(info.col_used, 5);
    let plan = |s: &str| IndexPlan {
        constraint_usage: vec![
            ConstraintUsage { argv_index: 1, omit: true },
            ConstraintUsage { argv_index: 2, omit: false },
        ],
        idx_num: 4,
        idx_str: Some(s.to_string()),
        estimated_rows: 9,
        orderby_consumed: true,
    };
    let out = apply_plan(plan("key"), 1);
    assert_eq!(out.usages, vec![RawUsage { argv_index: 1, omit: 1 }]);
    assert_eq!(out.idx_str, Some(b"key\0".to_vec()));
    assert_eq!((out.idx_num, out.estimated_rows, out.orderby_consumed), (4, 9, 1));
    let out = apply_plan(plan("k\0y"), 5);
    assert_eq!(out.usages.len(), 2);
    assert_eq!(out.idx_str, None);
    let fail = |s: &str| best_index_reply(Err(s.to_string()), 1).err().unwrap();
    assert_eq!(fail("a\0"), (ffi::SQLITE_ERROR, b"best_index\0".to_vec()));
    assert_eq!(fail("why"), (ffi::SQLITE_ERROR, b"why\0".to_vec()));
    assert_eq!(best_index_reply(Ok(plan("k")), 2).ok().unwrap().usages.len(), 2);
    let mut h = HostVtabs::<i64>::new();
    let r = h.create_or_connect(&aux(false, false), &Vec::new(), false);
    let (m, info) = h.x_best_index(r.instance_id, &Vec::new(), &Vec::new(), 3).ok().unwrap();
    assert_eq!((m.vtab_id, info.col_used), (7, 3));
    let none = h.x_best_index(99, &Vec::new(), &Vec::new(), 3);
    assert!(matches!(none, Err(rc) if rc == ffi::SQLITE_INTERNAL));
    assert_eq!(set_err("a\0"), b"vtab error (non-UTF8 message)\0");
    assert_eq!(reply_code(true), 0);
    assert_eq!(reply_code(false), 1);
}

#[test]
fn modules_are_registered_and_forgotten() {
    let e = register_host_vtab("x".to_string(), "", 1, false, false, false).err().unwrap();
    assert_eq!((e.code, e.message.as_str()), (21, "register-host-vtab: empty module name"));
    let e = register_host_vtab(String::new(), "m", 1, false, false, false).err().unwrap();
    assert_eq!(e.message, "register-host-vtab: empty extension name");
    let e = register_host_vtab("x".to_string(), "a\0b", 1, false, false, false).err().unwrap();
    assert_eq!(
        e.message,
        "register-host-vtab: bad name: nul byte found in provided data at position: 1"
    );
    let r = register_host_vtab("x".to_string(), "m", 3, true, true, true).ok().unwrap();
    assert_eq!(r.kind, ModuleKind::Mutable, "writing wins");
    assert_eq!(r.name, b"m\0");
    assert_eq!((r.aux.vtab_id, r.aux.batched), (3, true));
    let r = register_host_vtab("x".to_string(), "m", 3, true, false, true).ok().unwrap();
    assert_eq!(r.kind, ModuleKind::Eponymous);
    let r = register_host_vtab("x".to_string(), "m", 3, false, false, true).ok().unwrap();
    assert_eq!(r.kind, ModuleKind::ReadOnly);

    let mut h = HostVtabs::<i64>::new();
    let e = h.registered("x", "m".to_string(), 21).unwrap_err();
    assert_eq!(e.message, "sqlite3_create_module_v2 failed: rc=21");
    assert!(h.registered("x", "m".to_string(), 0).is_ok());
    assert!(h.registered("x", "n".to_string(), 0).is_ok());
    assert!(h.registered("y", "o".to_string(), 0).is_ok());
    assert_eq!(h.unregister_host_vtabs("x"), vec![b"m\0".to_vec(), b"n\0".to_vec()]);
    assert!(h.unregister_host_vtabs("x").is_empty());
    assert_eq!(h.unregister_host_vtabs("y"), vec![b"o\0".to_vec()]);
    assert_eq!(err_sqlite("m".to_string()).extended_code, ffi::SQLITE_MISUSE);
}
