//! Fixing up linked modules.

use sqlite_wasm::postlink::fixup::{
    add_memory_alias, assemble, collect_custom_sections, plan_sections, rewrite_post_link, run,
    section_raw_passthrough, select_custom_sections, validate, FixupError, Forwarded, Piece,
};
use sqlite_wasm::postlink::parse::{ExportEntry, ExternKind, Part};
use wasm_encoder::{
    CodeSection, CustomSection, ExportKind, ExportSection, Function, FunctionSection, Instruction,
    MemorySection, MemoryType, Module, Section, TypeSection,
};

fn memory() -> MemorySection {
    let mut s = MemorySection::new();
    s.memory(MemoryType {
        minimum: 1,
        maximum: None,
        memory64: false,
        shared: false,
        page_size_log2: None,
    });
    s
}

fn custom(name: &str, data: &[u8]) -> CustomSection<'static> {
    CustomSection { name: name.to_string().into(), data: data.to_vec().into() }
}

fn pre_link() -> Vec<u8> {
    let mut m = Module::new();
    m.section(&custom("name", &[1]));
    m.section(&custom("component-type:demo", &[1, 2, 3]));
    m.section(&custom("target_features", &[9]));
    m.finish()
}

fn post_link(exports: Option<&[(&str, ExportKind, u32)]>) -> Vec<u8> {
    let mut m = Module::new();
    m.section(&memory());
    if let Some(list) = exports {
        let mut e = ExportSection::new();
        for (name, kind, index) in list {
            e.export(name, *kind, *index);
        }
        m.section(&e);
    }
    m.section(&custom("producers", &[5]));
    m.finish()
}

fn expected(exports: &[(&str, ExportKind, u32)]) -> Vec<u8> {
    let mut m = Module::new();
    m.section(&memory());
    let mut e = ExportSection::new();
    for (name, kind, index) in exports {
        e.export(name, *kind, *index);
    }
    m.section(&e);
    let mut out = m.finish();
    custom("component-type:demo", &[1, 2, 3]).append_to(&mut out);
    custom("target_features", &[9]).append_to(&mut out);
    out
}

#[test]
fn sections_are_forwarded_and_memory_exported() {
    let fixup = run(&pre_link(), &post_link(Some(&[("run", ExportKind::Memory, 0)]))).unwrap();
    assert_eq!(
        fixup.merged,
        expected(&[("run", ExportKind::Memory, 0), ("memory", ExportKind::Memory, 0)])
    );
    assert_eq!(
        fixup.summary("out.wasm"),
        format!(
            "postlink-fixup: wrote out.wasm ({} bytes, +2 custom section(s), +1 memory alias `memory`)",
            fixup.merged.len()
        )
    );
    assert_eq!(fixup.forwarded[0].summary(), "  + component-type:demo (3 bytes)");
}

#[test]
fn a_missing_export_section_is_made() {
    let fixup = run(&pre_link(), &post_link(None)).unwrap();
    assert_eq!(fixup.merged, expected(&[("memory", ExportKind::Memory, 0)]));
}

#[test]
fn an_exported_memory_is_left_alone() {
    let given = [("memory", ExportKind::Memory, 0)];
    let fixup = run(&pre_link(), &post_link(Some(&given))).unwrap();
    assert_eq!(fixup.merged, expected(&given));
    let again = rewrite_post_link(&post_link(Some(&given)), &Vec::new()).unwrap();
    let mut m = Module::new();
    m.section(&memory());
    let mut e = ExportSection::new();
    e.export("memory", ExportKind::Memory, 0);
    m.section(&e);
    assert_eq!(again, m.finish(), "custom sections are dropped");
}

#[test]
fn a_second_fixup_changes_nothing() {
    for exports in [None, Some(&[("run", ExportKind::Memory, 0)][..])] {
        let once = run(&pre_link(), &post_link(exports)).unwrap();
        let twice = run(&pre_link(), &once.merged).unwrap();
        assert_eq!(twice.merged, once.merged);
    }
}

#[test]
fn function_bodies_pass_through_with_their_section() {
    let mut m = Module::new();
    let mut types = TypeSection::new();
    types.ty().function([], []);
    m.section(&types);
    let mut functions = FunctionSection::new();
    functions.function(0);
    functions.function(0);
    m.section(&functions);
    m.section(&memory());
    let mut code = CodeSection::new();
    for _ in 0..2 {
        let mut body = Function::new([]);
        body.instruction(&Instruction::End);
        code.function(&body);
    }
    m.section(&code);
    let forwarded = collect_custom_sections(&pre_link()).unwrap();
    let linked = m.finish();
    let once = rewrite_post_link(&linked, &forwarded).unwrap_err();
    assert!(matches!(once, FixupError::Validate(_)), "the exports would follow the code");
    let mut m = Module::new();
    m.section(&types);
    m.section(&functions);
    m.section(&memory());
    m.section(&ExportSection::new());
    m.section(&code);
    let once = rewrite_post_link(&m.finish(), &forwarded).unwrap();
    assert_eq!(rewrite_post_link(&once, &forwarded).unwrap(), once);
}

#[test]
fn only_the_named_sections_are_collected() {
    let got = collect_custom_sections(&pre_link()).unwrap();
    let names: Vec<&str> = got.iter().map(|f| f.name.as_str()).collect();
    assert_eq!(names, vec!["component-type:demo", "target_features"]);
    assert_eq!(got[0].data, vec![1, 2, 3]);
    let parts = vec![
        Ok(Part::Version(true)),
        Ok(Part::Custom("component-type".to_string(), vec![1])),
        Ok(Part::Custom("target_features2".to_string(), vec![2])),
        Ok(Part::End),
    ];
    let got = select_custom_sections(&parts).unwrap();
    assert_eq!(got.len(), 1);
    assert_eq!(got[0].name, "target_features2");
}

#[test]
fn failures_have_texts() {
    let bad = b"not wasm at all!";
    let e = run(bad, &post_link(None)).err().unwrap();
    assert!(matches!(e, FixupError::Parse(_)));
    assert!(e.message("p").contains("magic header not detected"));
    let e = run(&pre_link(), bad).err().unwrap();
    assert!(matches!(e, FixupError::Parse(_)));
    let e = run(&post_link(None), &post_link(None)).err().unwrap();
    assert!(matches!(e, FixupError::NoSections));
    assert_eq!(
        e.message("pre.wasm"),
        "no forwardable custom sections found in pre.wasm; expected at least one `component-type:*` section emitted by wit-bindgen"
    );
    assert_eq!(FixupError::Validate("x".to_string()).message(""), "validate merged wasm: x");
    assert_eq!(FixupError::OutOfRange.message(""), "section reaches past the end of the module");
    assert_eq!(FixupError::TooLarge.message(""), "section is too large to encode");
    let parts = vec![Ok(Part::Version(true)), Err("boom".to_string())];
    assert!(matches!(validate(&parts), Err(FixupError::Validate(s)) if s == "boom"));
    assert!(validate(&vec![Ok(Part::Other)]).is_ok());
    assert!(matches!(select_custom_sections(&parts), Err(FixupError::Parse(s)) if s == "boom"));
    assert!(matches!(plan_sections(&[], &parts), Err(FixupError::Parse(s)) if s == "boom"));
    let parts = vec![Ok(Part::Version(true)), Ok(Part::Section(10, 8, 99))];
    assert!(matches!(plan_sections(&[0; 20], &parts), Err(FixupError::OutOfRange)));
}

#[test]
fn sections_of_components_are_not_taken_for_a_modules() {
    let parts = vec![
        Ok(Part::Version(false)),
        Ok(Part::Section(1, 0, 2)),
        Ok(Part::Version(true)),
        Ok(Part::Section(1, 2, 4)),
        Ok(Part::Section(14, 2, 4)),
        Ok(Part::End),
        Ok(Part::Section(7, 0, 2)),
        Ok(Part::End),
    ];
    let pieces = plan_sections(&[0; 8], &parts).unwrap();
    assert_eq!(pieces.len(), 2);
    assert!(matches!(pieces[0], Piece::Raw(1, 2, 4)));
    assert!(matches!(&pieces[1], Piece::Exports(e) if e.len() == 1 && e[0].name == "memory"));
}

#[test]
fn the_alias_needs_both_name_and_kind() {
    let func = ExportEntry { name: "memory".to_string(), kind: ExternKind::Func, index: 4 };
    let got = add_memory_alias(vec![func]);
    assert_eq!(got.len(), 2);
    assert_eq!(got[1].name, "memory");
    assert_eq!(got[1].kind, ExternKind::Memory);
    assert_eq!(got[1].index, 0);
    assert_eq!(add_memory_alias(got).len(), 2);
}

#[test]
fn sections_pass_through_by_identifier() {
    for id in 0..=20u8 {
        let r = section_raw_passthrough(&Part::Section(id, 3, 9));
        if (1..=13).contains(&id) && id != 7 {
            assert_eq!(r, Some((id, 3, 9)));
        } else {
            assert_eq!(r, None);
        }
    }
    assert_eq!(section_raw_passthrough(&Part::Other), None);
}

#[test]
fn assembled_bytes_are_exact() {
    let pieces = vec![
        Piece::Raw(3, 1, 4),
        Piece::Exports(vec![
            ExportEntry { name: "f".to_string(), kind: ExternKind::Func, index: 300 },
            ExportEntry { name: "g".to_string(), kind: ExternKind::Global, index: 1 },
        ]),
    ];
    let forwarded = vec![Forwarded { name: "ab".to_string(), data: vec![0xff] }];
    let out = assemble(&[10, 11, 12, 13, 14], &pieces, &forwarded).unwrap();
    assert_eq!(
        out,
        vec![
            0, 0x61, 0x73, 0x6d, 1, 0, 0, 0, // header
            3, 3, 11, 12, 13, // raw section
            7, 10, 2, 1, b'f', 0, 0xac, 2, 1, b'g', 3, 1, // exports
            0, 4, 2, b'a', b'b', 0xff, // custom section
        ]
    );
}
