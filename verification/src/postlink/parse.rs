//! Modules as the parser sees them.

use crate::postlink::framing::{all_valid, framed, framed_parts, no_errors, relevant, SectionView};
use vstd::prelude::*;
use vstd::string::*;
use vstd::utf8::encode_utf8;
use wasmparser::{BinaryReader, Encoding, ExportSectionReader, ExternalKind, Parser, Payload};

verus! {

/// A piece of a module or component.
pub enum Part {
    /// The header; `true` if it is a module's, `false` if a component's.
    Version(bool),
    /// The end of the module or component.
    End,
    /// A custom section: its name and its data.
    Custom(String, Vec<u8>),
    /// Any other section: its identifier and where its contents start and end.
    Section(u8, usize, usize),
    /// Anything else.
    Other,
}

/// A piece of a module or component, as the model sees it.
pub enum PartView {
    Version(bool),
    End,
    Custom(Seq<char>, Seq<u8>),
    Section(u8, usize, usize),
    Other,
}

impl View for Part {
    type V = PartView;

    open spec fn view(&self) -> PartView {
        match self {
            Part::Version(module) => PartView::Version(*module),
            Part::End => PartView::End,
            Part::Custom(name, data) => PartView::Custom(name@, data@),
            Part::Section(id, start, end) => PartView::Section(*id, *start, *end),
            Part::Other => PartView::Other,
        }
    }
}

/// What the parser made of one piece: the piece, or the text of the error that
/// ended the parse.
pub open spec fn parsed(r: Result<Part, String>) -> Result<PartView, Seq<char>> {
    match r {
        Ok(p) => Ok(p@),
        Err(e) => Err(e@),
    }
}

/// What the parser made of every piece.
pub open spec fn all_parsed(parts: Seq<Result<Part, String>>) -> Seq<Result<PartView, Seq<char>>> {
    parts.map_values(|r: Result<Part, String>| parsed(r))
}

/// The pieces that `wasmparser::Parser::parse_all` yields for `bytes`, the
/// sections by `Payload::as_section`.
pub uninterp spec fn wasm_parts(bytes: Seq<u8>) -> Seq<Result<PartView, Seq<char>>>;

/// `wasmparser::Parser::parse_all` on `bytes`: every payload as a piece, and an
/// error as its text. Beside the name of the outcome it is claimed that a module
/// of framed sections, if it parses without an error, parses into its header,
/// those sections in order and its end, and between them only into what is no
/// section of its own (the function bodies).
#[verifier::external_body]
pub(crate) fn parse_all(bytes: &[u8]) -> (r: Vec<Result<Part, String>>)
    ensures
        all_parsed(r@) == wasm_parts(bytes@),
        forall|sections: Seq<SectionView>|
            #![trigger framed(sections)]
            bytes@ == framed(sections) && all_valid(sections) && no_errors(all_parsed(r@))
                ==> relevant(all_parsed(r@)) == framed_parts(sections).push(Ok(PartView::End)),
{
    let convert = |p: Payload<'_>| match &p {
        Payload::Version { encoding: Encoding::Module, .. } => Part::Version(true),
        Payload::Version { encoding: Encoding::Component, .. } => Part::Version(false),
        Payload::End(_) => Part::End,
        Payload::CustomSection(c) => Part::Custom(c.name().to_string(), c.data().to_vec()),
        _ => match p.as_section() {
            Some((id, range)) => Part::Section(id, range.start, range.end),
            None => Part::Other,
        },
    };
    Parser::new(0).parse_all(bytes).map(|p| p.map(convert).map_err(|e| e.to_string())).collect()
}

/// What an export refers to.
#[derive(Copy, Clone, Debug, PartialEq, Eq, Structural)]
pub enum ExternKind {
    Func,
    Table,
    Memory,
    Global,
    Tag,
}

/// An export of a module.
pub struct ExportEntry {
    pub name: String,
    pub kind: ExternKind,
    pub index: u32,
}

/// An export of a module, as the model sees it.
pub struct ExportView {
    pub name: Seq<char>,
    pub kind: ExternKind,
    pub index: u32,
}

impl View for ExportEntry {
    type V = ExportView;

    open spec fn view(&self) -> ExportView {
        ExportView { name: self.name@, kind: self.kind, index: self.index }
    }
}

/// The exports, as the model sees them.
pub open spec fn export_views(s: Seq<ExportEntry>) -> Seq<ExportView> {
    s.map_values(|e: ExportEntry| e@)
}

/// The longest name that a reader takes, in bytes.
pub const NAME_LIMIT: usize = 100_000;

/// No name is longer than a reader takes.
pub open spec fn short_names(exports: Seq<ExportView>) -> bool {
    forall|i: int|
        0 <= i < exports.len() ==> encode_utf8((#[trigger] exports[i]).name).len() <= NAME_LIMIT
}

/// The exports that `wasmparser::ExportSectionReader` reads from a section with
/// the contents `body` at `offset`, or the text of its error.
pub uninterp spec fn wasm_exports(body: Seq<u8>, offset: usize) -> Result<
    Seq<ExportView>,
    Seq<char>,
>;

/// `wasmparser::ExportSectionReader` on an export section: every export as an
/// entry, and an error as its text. Beside the name of the outcome it is claimed
/// that no name is longer than `wasmparser` takes.
#[verifier::external_body]
pub(crate) fn read_exports(body: &[u8], offset: usize) -> (r: Result<Vec<ExportEntry>, String>)
    requires
        offset + body@.len() <= usize::MAX,
    ensures
        r is Ok ==> short_names(export_views(r->Ok_0@)),
        match r {
            Ok(v) => wasm_exports(body@, offset) == Ok::<Seq<ExportView>, Seq<char>>(
                export_views(v@),
            ),
            Err(e) => wasm_exports(body@, offset) == Err::<Seq<ExportView>, Seq<char>>(e@),
        },
{
    let reader = ExportSectionReader::new(BinaryReader::new(body, offset));
    let convert = |e: wasmparser::Export<'_>| ExportEntry {
        kind: match e.kind {
            ExternalKind::Func => ExternKind::Func,
            ExternalKind::Table => ExternKind::Table,
            ExternalKind::Memory => ExternKind::Memory,
            ExternalKind::Global => ExternKind::Global,
            ExternalKind::Tag => ExternKind::Tag,
        },
        name: e.name.to_string(),
        index: e.index,
    };
    reader.and_then(|r| r.into_iter().map(|e| e.map(convert)).collect()).map_err(|e| e.to_string())
}

} // verus!
