//! Encoding the sections of a module.

use crate::postlink::parse::{short_names, wasm_exports, ExportView, ExternKind};
use vstd::prelude::*;
use vstd::string::*;
use vstd::utf8::encode_utf8;
use wasm_encoder::{CustomSection, ExportKind, RawSection, Section};

verus! {

/// The little-endian base-128 encoding of `n`.
pub open spec fn leb(n: nat) -> Seq<u8>
    decreases n,
{
    if n < 128 {
        seq![n as u8]
    } else {
        seq![(n % 128 + 128) as u8] + leb(n / 128)
    }
}

/// How many bytes the encoding of `n` takes.
pub fn leb_len(n: u32) -> (r: u64)
    ensures
        r == leb(n as nat).len(),
        1 <= r <= 5,
{
    reveal_with_fuel(leb, 6);
    if n < 128 {
        1
    } else if n < 16384 {
        2
    } else if n < 2097152 {
        3
    } else if n < 268435456 {
        4
    } else {
        5
    }
}

/// The bytes of a section with the identifier `id` and the contents `data`.
pub open spec fn section_bytes(id: u8, data: Seq<u8>) -> Seq<u8> {
    seq![id] + leb(data.len()) + data
}

/// The bytes of a name: its length and its UTF-8 encoding.
pub open spec fn name_bytes(name: Seq<char>) -> Seq<u8> {
    leb(encode_utf8(name).len()) + encode_utf8(name)
}

/// The byte that stands for a kind of export.
pub open spec fn kind_byte(kind: ExternKind) -> u8 {
    match kind {
        ExternKind::Func => 0,
        ExternKind::Table => 1,
        ExternKind::Memory => 2,
        ExternKind::Global => 3,
        ExternKind::Tag => 4,
    }
}

/// The bytes of an export.
pub open spec fn export_bytes(e: ExportView) -> Seq<u8> {
    name_bytes(e.name) + seq![kind_byte(e.kind)] + leb(e.index as nat)
}

/// The bytes of exports, one after the other.
pub open spec fn exports_bytes(exports: Seq<ExportView>) -> Seq<u8>
    decreases exports.len(),
{
    if exports.len() == 0 {
        Seq::empty()
    } else {
        exports_bytes(exports.drop_last()) + export_bytes(exports.last())
    }
}

/// The contents of an export section.
pub open spec fn exports_data(exports: Seq<ExportView>) -> Seq<u8> {
    leb(exports.len()) + exports_bytes(exports)
}

/// The contents of a custom section.
pub open spec fn custom_data(name: Seq<char>, data: Seq<u8>) -> Seq<u8> {
    name_bytes(name) + data
}

/// The header of every module: the magic bytes and the version.
pub open spec fn module_header() -> Seq<u8> {
    seq![0u8, 0x61u8, 0x73u8, 0x6du8, 1u8, 0u8, 0u8, 0u8]
}

/// `wasm_encoder::Module`: the bytes of a module that is being written.
#[verifier::external_type_specification]
#[verifier::external_body]
pub struct ExModule(wasm_encoder::Module);

/// The bytes that were written to a module.
pub uninterp spec fn module_bytes(m: wasm_encoder::Module) -> Seq<u8>;

/// `wasm_encoder::Module::new` starts with the module header.
pub assume_specification[ wasm_encoder::Module::new ]() -> (r: wasm_encoder::Module)
    ensures
        module_bytes(r) == module_header(),
;

/// `wasm_encoder::Module::finish` gives out what was written.
pub assume_specification[ wasm_encoder::Module::finish ](m: wasm_encoder::Module) -> (r: Vec<u8>)
    ensures
        r@ == module_bytes(m),
;

/// `wasm_encoder::Module::section` on a `wasm_encoder::RawSection` writes the
/// identifier, the length and the contents. A length beyond 32 bits panics.
#[verifier::external_body]
pub(crate) fn write_raw_section(m: &mut wasm_encoder::Module, id: u8, data: &[u8])
    requires
        data@.len() <= u32::MAX,
    ensures
        module_bytes(*final(m)) == module_bytes(*old(m)) + section_bytes(id, data@),
{
    m.section(&RawSection { id, data });
}

/// `wasmparser::ExportSectionReader` reads `exports` from the contents `data`,
/// wherever they lie.
pub open spec fn reads_as(data: Seq<u8>, exports: Seq<ExportView>) -> bool {
    forall|offset: usize|
        offset + data.len() <= usize::MAX ==> #[trigger] wasm_exports(data, offset) == Ok::<
            Seq<ExportView>,
            Seq<char>,
        >(exports)
}

/// The contents of the section at the end of `bytes`, which are `len` bytes.
pub open spec fn last_contents(bytes: Seq<u8>, len: nat) -> Seq<u8> {
    bytes.skip(bytes.len() - len)
}

/// `wasm_encoder::ExportSection`: the exports of a section that is being
/// written.
#[verifier::external_type_specification]
#[verifier::external_body]
pub struct ExExportSection(wasm_encoder::ExportSection);

/// The exports that were added to a section.
pub uninterp spec fn section_exports(s: wasm_encoder::ExportSection) -> Seq<ExportView>;

/// `wasm_encoder::ExportSection::new` starts without exports.
pub assume_specification[ wasm_encoder::ExportSection::new ]() -> (r: wasm_encoder::ExportSection)
    ensures
        section_exports(r) == Seq::<ExportView>::empty(),
;

/// `wasm_encoder::ExportSection::export` adds an export at the end. A name
/// longer than 32 bits and more exports than that panic.
#[verifier::external_body]
pub(crate) fn add_export(
    s: &mut wasm_encoder::ExportSection,
    name: &str,
    kind: ExternKind,
    index: u32,
)
    requires
        encode_utf8(name@).len() <= u32::MAX,
        section_exports(*old(s)).len() < u32::MAX,
    ensures
        section_exports(*final(s)) == section_exports(*old(s)).push(
            (ExportView { name: name@, kind, index }),
        ),
{
    let kind = match kind {
        ExternKind::Func => ExportKind::Func,
        ExternKind::Table => ExportKind::Table,
        ExternKind::Memory => ExportKind::Memory,
        ExternKind::Global => ExportKind::Global,
        ExternKind::Tag => ExportKind::Tag,
    };
    s.export(name, kind, index);
}

/// `wasm_encoder::Module::section` on a `wasm_encoder::ExportSection` writes
/// the export section's identifier, the length and the exports. A length beyond
/// 32 bits panics. What was written is what `wasmparser::ExportSectionReader`
/// reads, unless a name is longer than that takes.
#[verifier::external_body]
pub(crate) fn write_export_section(m: &mut wasm_encoder::Module, s: &wasm_encoder::ExportSection)
    requires
        exports_data(section_exports(*s)).len() <= u32::MAX,
    ensures
        module_bytes(*final(m)) == module_bytes(*old(m)) + section_bytes(
            7,
            exports_data(section_exports(*s)),
        ),
        short_names(section_exports(*s)) ==> reads_as(
            last_contents(module_bytes(*final(m)), exports_data(section_exports(*s)).len()),
            section_exports(*s),
        ),
{
    m.section(s);
}

/// `wasm_encoder::CustomSection`'s `Section::append_to` writes the custom
/// section's identifier, the length, the name and the data. A length beyond 32
/// bits panics.
#[verifier::external_body]
pub(crate) fn append_custom_section(out: &mut Vec<u8>, name: &str, data: &[u8])
    requires
        custom_data(name@, data@).len() <= u32::MAX,
    ensures
        final(out)@ == old(out)@ + section_bytes(0, custom_data(name@, data@)),
{
    CustomSection { name: name.into(), data: data.into() }.append_to(out);
}

} // verus!
