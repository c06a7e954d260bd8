//! The engine as a library.

use libsqlite3_sys as ffi;
use sqlite_wasm::host::LoaderError;
use sqlite_wasm::sqlite_lib::errors::{bind_error, engine_error, misuse, statement_bytes};
use sqlite_wasm::sqlite_lib::library::{
    cap_to_lib, cap_to_pol, flags_to_lib, flags_to_ty, loader_err_to_lib, manifest_to_lib,
    method_to_pol, opts_to_pol, CollationSpec, DnsPolicy, FsPolicy, LibCapability, LibFlags,
    LibHttpPolicy, LibLoadOptions, LibMethod, MdAggregateSpec, MdManifest, MdScalarSpec,
    PolCapability, PolMethod, TyFlags,
};
use sqlite_wasm::sqlite_lib::run::{
    column_name, column_value_raw, is_statement_complete, log_line, named_param, open_target,
    step_outcome, BindRun, CollectRun, CollectStep, Collected, Complete, LogLevel, MultiRun, OpenMode,
    OpenTarget,
};
use sqlite_wasm::sqlite_lib::statement::HlStatement;
use sqlite_wasm::sqlite_lib::stmt_cache::{is_memory_path, Lookup, StmtCache, STMT_CACHE_LIMIT};
use sqlite_wasm::sqlite_lib::values::{
    db_to_hl_value, db_to_spi_value, hl_value_to_db, spi_value_to_db, DbValue, HlValue, SpiValue,
};

#[test]
fn statements_are_found_again() {
    let mut c = StmtCache::new();
    assert_eq!(c.lookup("SELECT 1"), Lookup::Miss);
    assert_eq!(c.prepared("SELECT 1", 0, Some(11), None).unwrap(), (11, None));
    assert_eq!(c.lookup("SELECT 1"), Lookup::Hit(11));
    assert_eq!(c.lookup("SELECT  1"), Lookup::Miss, "the exact text counts");
    assert_eq!(c.drain(), vec![11]);
    assert_eq!(c.lookup("SELECT 1"), Lookup::Miss);
    assert!(c.drain().is_empty());
}

#[test]
fn the_least_recently_used_statement_makes_room() {
    let mut c = StmtCache::new();
    for i in 0..STMT_CACHE_LIMIT as u64 {
        let sql = format!("SELECT {i}");
        assert_eq!(c.lookup(&sql), Lookup::Miss);
        assert_eq!(c.prepared(&sql, 0, Some(i), None).unwrap(), (i, None));
    }
    assert_eq!(c.lookup("SELECT 0"), Lookup::Hit(0));
    assert_eq!(c.lookup("SELECT new"), Lookup::Miss);
    assert_eq!(c.prepared("SELECT new", 0, Some(999), None).unwrap(), (999, Some(1)));
    assert_eq!(c.lookup("SELECT 0"), Lookup::Hit(0));
    assert_eq!(c.lookup("SELECT 1"), Lookup::Miss);
    assert_eq!(c.drain().len(), STMT_CACHE_LIMIT);
}

#[test]
fn failures_to_prepare_are_reported() {
    let mut c = StmtCache::new();
    c.lookup("x");
    let e = c.prepared("x", 0x101, None, Some(b"near \"x\"")).unwrap_err();
    assert_eq!((e.code, e.extended_code, e.message.as_str()), (1, 0x101, "near \"x\""));
    let e = c.prepared("x", 7, None, None).unwrap_err();
    assert_eq!(e.message, "sqlite3_prepare_v2 failed (code 7)");
    let e = c.prepared("x", 0, None, None).unwrap_err();
    assert_eq!((e.code, e.message.as_str()), (21, "sqlite3_prepare_v2: empty statement"));
    assert_eq!(c.lookup("x"), Lookup::Miss);
    assert_eq!(statement_bytes("ab").unwrap(), b"ab\0");
    let e = statement_bytes("a\0b").unwrap_err();
    assert_eq!(
        (e.code, e.message.as_str()),
        (ffi::SQLITE_MISUSE, "nul byte found in provided data at position: 1")
    );
    assert_eq!(misuse("m").extended_code, ffi::SQLITE_MISUSE);
    assert_eq!(engine_error(5, Some(b"\xff"), "w").message, "\u{fffd}");
    assert_eq!(bind_error(25, None, 3).message, "sqlite3_bind_* failed (code 25) at index 3");
    assert!(is_memory_path("") && is_memory_path(":memory:") && !is_memory_path("/x"));
}

#[test]
fn values_are_bound_in_order() {
    let mut b = BindRun::new(2);
    assert_eq!(b.step(), Some((0, 1)));
    assert!(b.reply(0, None).is_ok());
    assert_eq!(b.step(), Some((1, 2)));
    let e = b.reply(25, Some(b"range")).unwrap_err();
    assert_eq!((e.code, e.message.as_str()), (25, "range"));
    assert!(b.reply(0, None).is_ok());
    assert_eq!(b.step(), None);
}

#[test]
fn rows_are_collected() {
    assert!(matches!(step_outcome(ffi::SQLITE_ROW, None), CollectStep::ReadRow));
    assert!(matches!(step_outcome(ffi::SQLITE_DONE, None), CollectStep::Done));
    match step_outcome(517, None) {
        CollectStep::Fail(e) => {
            assert_eq!((e.code, e.extended_code), (5, 517));
            assert_eq!(e.message, "sqlite3_step failed (code 517)");
        }
        _ => unreachable!(),
    }
    assert_eq!(column_name(Some(b"a")), "a");
    assert_eq!(column_name(None), "");
    assert!(matches!(column_value_raw(1, 5, 0, None), DbValue::Integer(5)));
    assert!(matches!(column_value_raw(2, 0, 8, None), DbValue::Real(8)));
    assert!(matches!(column_value_raw(3, 0, 0, Some(b"a\xff")), DbValue::Text(s) if s == "a\u{fffd}"));
    assert!(matches!(column_value_raw(3, 0, 0, None), DbValue::Text(s) if s.is_empty()));
    assert!(matches!(column_value_raw(4, 0, 0, Some(b"\xff")), DbValue::Blob(b) if b == [0xff]));
    assert!(matches!(column_value_raw(5, 0, 0, None), DbValue::Null));
    let c = Collected { columns: vec!["a".to_string()], rows: vec![vec![1, 2], vec![3]] };
    assert_eq!(c.into_scalar(), Some(1));
    assert_eq!(Collected::<i32> { columns: vec![], rows: vec![vec![]] }.into_scalar(), None);
    assert_eq!(Collected::<i32> { columns: vec![], rows: vec![] }.into_scalar(), None);
}

#[test]
fn rows_are_gathered_in_order() {
    let mut run = CollectRun::new(vec!["a".to_string(), "b".to_string()]);
    run.row(vec![1, 2]);
    run.row(vec![3, 4]);
    let c = run.finish();
    assert_eq!(c.columns, vec!["a", "b"]);
    assert_eq!(c.rows, vec![vec![1, 2], vec![3, 4]]);
    assert!(CollectRun::<i32>::new(Vec::new()).finish().rows.is_empty());
}

#[test]
fn several_statements_are_walked() {
    let mut m = MultiRun::new("SELECT 1; -- c\nSELECT 'h\u{e9}';  \n".to_string());
    assert_eq!(m.step(), Some("SELECT 1; -- c\nSELECT 'h\u{e9}';  \n"));
    m.result(1, 9);
    assert_eq!(m.step(), Some(" -- c\nSELECT 'h\u{e9}';  \n"));
    m.skip(6);
    assert_eq!(m.step(), Some("SELECT 'h\u{e9}';  \n"));
    m.result(2, 13);
    assert_eq!(m.step(), None, "white space is left");
    assert_eq!(m.into_results(), vec![1, 2]);
    let mut m = MultiRun::<i32>::new("x".to_string());
    m.skip(1);
    assert_eq!(m.step(), None);
    assert_eq!(MultiRun::<i32>::new(" \u{3000}\t".to_string()).step(), None);
    let names = vec!["a".to_string(), "b".to_string(), "b".to_string()];
    assert_eq!(named_param(&names, ":b"), Some(1));
    assert_eq!(named_param(&names, "@c"), None);
}

#[test]
fn completeness_of_a_text() {
    assert!(matches!(is_statement_complete(" \n"), Complete::Known(true)));
    assert!(matches!(is_statement_complete("a\0;"), Complete::Known(false)));
    assert!(matches!(is_statement_complete(" SELECT 1; "), Complete::Ask(v) if v == b"SELECT 1;\0"));
}

#[test]
fn modes_and_log_lines() {
    assert_eq!(open_target(OpenMode::Memory), OpenTarget::Memory);
    assert_eq!(open_target(OpenMode::ReadOnly), OpenTarget::ReadOnlyFile);
    assert_eq!(open_target(OpenMode::ReadWrite), OpenTarget::File);
    assert_eq!(open_target(OpenMode::Create), OpenTarget::File);
    assert_eq!(log_line(LogLevel::Warn, "hi"), "[sqlite-lib WARN] hi");
    assert_eq!(log_line(LogLevel::Trace, ""), "[sqlite-lib TRACE] ");
}

#[test]
fn statements_keep_bindings_and_rows() {
    let mut s = HlStatement::<u8>::new("SELECT ?".to_string());
    assert_eq!(s.text(), "SELECT ?");
    s.bind(3, HlValue::Integer(9));
    assert_eq!(s.bound_params().len(), 3);
    assert!(matches!(s.bound_params()[0], DbValue::Null));
    assert!(matches!(s.bound_params()[2], DbValue::Integer(9)));
    s.bind(0, HlValue::Integer(1));
    assert!(matches!(s.bound_params()[0], DbValue::Integer(1)));
    s.bind_all(vec![HlValue::Real(4), HlValue::Text("x".to_string())]);
    assert_eq!(s.bound_params().len(), 2);
    assert!(matches!(&s.bound_params()[1], DbValue::Text(t) if t == "x"));
    s.clear_bindings();
    assert!(s.bound_params().is_empty());
    assert!(s.needs_rows());
    s.fetched(vec![1, 2]);
    assert!(!s.needs_rows());
    assert_eq!(s.step(), Some(1));
    assert_eq!(s.step(), Some(2));
    assert_eq!(s.step(), None);
    assert!(!s.needs_rows());
    s.reset();
    assert!(s.needs_rows());
    assert_eq!(s.known_column_count(), None);
    assert_eq!(s.known_column_names(), None);
    s.note_columns(vec!["a".to_string()]);
    assert_eq!(s.known_column_count(), Some(1));
    assert_eq!(s.known_column_names(), Some(vec!["a".to_string()]));
}

#[test]
fn values_go_through_the_interfaces() {
    assert!(matches!(db_to_spi_value(DbValue::Integer(3)), SpiValue::Integer(3)));
    assert!(matches!(db_to_spi_value(DbValue::Null), SpiValue::Null));
    assert!(matches!(spi_value_to_db(SpiValue::Blob(vec![1])), DbValue::Blob(b) if b == [1]));
    assert!(matches!(db_to_hl_value(DbValue::Real(2)), HlValue::Real(2)));
    assert!(matches!(hl_value_to_db(HlValue::Text("t".to_string())), DbValue::Text(s) if s == "t"));
}

#[test]
fn options_and_manifests_are_converted() {
    let o = opts_to_pol(LibLoadOptions {
        grant: vec![LibCapability::Dns, LibCapability::Http],
        http_policy: Some(LibHttpPolicy {
            allowed_hosts: vec!["h".to_string()],
            allowed_methods: Some(vec![LibMethod::Patch, LibMethod::Get]),
            max_body_bytes: Some(1),
            timeout_ms: Some(2),
        }),
        dns_policy: Some(DnsPolicy { allowed_domains: vec!["d".to_string()], timeout_ms: None }),
        fs_policy: Some(FsPolicy {
            readable_prefixes: vec!["r".to_string()],
            writable_prefixes: vec![],
            max_write_bytes_per_call: Some(3),
        }),
        fuel_per_call: Some(4),
        memory_limit_bytes: None,
        epoch_deadline_ms: Some(5),
    });
    assert_eq!(o.grant, vec![PolCapability::Dns, PolCapability::Http]);
    let http = o.http_policy.unwrap();
    assert_eq!(http.allowed_methods, Some(vec![PolMethod::Patch, PolMethod::Get]));
    assert_eq!(http.max_body_bytes, Some(1));
    assert_eq!(o.dns_policy.unwrap().allowed_domains, vec!["d"]);
    assert_eq!(o.fs_policy.unwrap().max_write_bytes_per_call, Some(3));
    assert_eq!((o.fuel_per_call, o.memory_limit_bytes, o.epoch_deadline_ms), (Some(4), None, Some(5)));

    let flags = TyFlags { deterministic: true, direct_only: false, innocuous: true };
    let m = manifest_to_lib(MdManifest {
        name: "n".to_string(),
        version: "v".to_string(),
        scalar_functions: vec![
            MdScalarSpec { id: 1, name: "f".to_string(), num_args: 1, func_flags: flags },
            MdScalarSpec { id: 2, name: "g".to_string(), num_args: -1, func_flags: flags },
        ],
        aggregate_functions: vec![MdAggregateSpec {
            id: 3,
            name: "a".to_string(),
            num_args: 0,
            func_flags: flags,
            is_window: true,
        }],
        collations: vec![CollationSpec { id: 4, name: "c".to_string() }],
        has_authorizer: true,
        has_update_hook: false,
        has_commit_hook: true,
        declared_capabilities: vec![PolCapability::Spi],
    });
    assert_eq!((m.name.as_str(), m.version.as_str()), ("n", "v"));
    assert_eq!(m.scalar_functions.len(), 2);
    assert_eq!((m.scalar_functions[1].id, m.scalar_functions[1].name.as_str()), (2, "g"));
    let lib = LibFlags { deterministic: true, direct_only: false, innocuous: true };
    assert_eq!(m.scalar_functions[0].func_flags, lib);
    assert!(m.aggregate_functions[0].is_window);
    assert_eq!(m.collations[0].id, 4);
    assert!(m.has_authorizer && !m.has_update_hook && m.has_commit_hook);
    assert_eq!(m.declared_capabilities, vec![LibCapability::Spi]);

    let e = loader_err_to_lib(LoaderError { code: 1, message: "m".to_string() });
    assert_eq!((e.code, e.message.as_str()), (1, "m"));
    assert_eq!(cap_to_lib(cap_to_pol(LibCapability::Hashing)), LibCapability::Hashing);
    assert_eq!(flags_to_lib(flags_to_ty(lib)), lib);
    assert_eq!(method_to_pol(LibMethod::Trace), PolMethod::Trace);
}
