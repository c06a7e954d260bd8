//! The fixup itself.

use crate::postlink::encode::{
    add_export, append_custom_section, custom_data, export_bytes, exports_bytes, exports_data,
    last_contents, leb, leb_len, module_bytes, module_header, name_bytes, reads_as, section_bytes,
    section_exports, write_export_section, write_raw_section,
};
use crate::postlink::framing::no_errors;
use crate::postlink::parse::{
    all_parsed, export_views, parse_all, parsed, read_exports, short_names, wasm_exports,
    wasm_parts, ExportEntry, ExportView, ExternKind, Part, PartView, NAME_LIMIT,
};
use crate::postlink::repeat::lemma_rewrite_again;
use crate::text::{bytes_start_with, decimal, lemma_encode_len, push_decimal, starts_with, str_eq};
use vstd::prelude::*;
use vstd::string::*;
use vstd::utf8::encode_utf8;

verus! {

/// The identifier of the export section.
pub const EXPORT_SECTION: u8 = 7;

/// The memory that is exported where nothing exports one under the expected
/// name.
pub const DEFAULT_MEMORY_INDEX: u32 = 0;

/// Why a module could not be fixed up.
#[derive(Debug)]
pub enum FixupError {
    /// An input is not a valid binary.
    Parse(String),
    /// A section of the linked module reaches past its end.
    OutOfRange,
    /// A section is longer than its length field can say.
    TooLarge,
    /// The unlinked module has nothing to copy over.
    NoSections,
    /// The result is not a valid binary.
    Validate(String),
}

/// Why a module could not be fixed up, as the model sees it.
pub enum FixupFailure {
    Parse(Seq<char>),
    OutOfRange,
    TooLarge,
    NoSections,
    Validate(Seq<char>),
}

impl View for FixupError {
    type V = FixupFailure;

    open spec fn view(&self) -> FixupFailure {
        match self {
            FixupError::Parse(s) => FixupFailure::Parse(s@),
            FixupError::OutOfRange => FixupFailure::OutOfRange,
            FixupError::TooLarge => FixupFailure::TooLarge,
            FixupError::NoSections => FixupFailure::NoSections,
            FixupError::Validate(s) => FixupFailure::Validate(s@),
        }
    }
}

/// The text of a failure; `pre_path` names the unlinked module.
pub open spec fn failure_text(e: FixupFailure, pre_path: Seq<char>) -> Seq<char> {
    match e {
        FixupFailure::Parse(s) => s,
        FixupFailure::OutOfRange => "section reaches past the end of the module"@,
        FixupFailure::TooLarge => "section is too large to encode"@,
        FixupFailure::NoSections => "no forwardable custom sections found in "@ + pre_path
            + "; expected at least one `component-type:*` section emitted by wit-bindgen"@,
        FixupFailure::Validate(s) => "validate merged wasm: "@ + s,
    }
}

impl FixupError {
    /// The text shown for this failure; `pre_path` names the unlinked module.
    pub fn message(&self, pre_path: &str) -> (r: String)
        ensures
            r@ == failure_text(self@, pre_path@),
    {
        match self {
            FixupError::Parse(s) => s.clone(),
            FixupError::OutOfRange => String::from_str("section reaches past the end of the module"),
            FixupError::TooLarge => String::from_str("section is too large to encode"),
            FixupError::NoSections => {
                let mut r = String::from_str("no forwardable custom sections found in ");
                r.append(pre_path);
                r.append(
                    "; expected at least one `component-type:*` section emitted by wit-bindgen",
                );
                r
            },
            FixupError::Validate(s) => {
                let mut r = String::from_str("validate merged wasm: ");
                r.append(s.as_str());
                r
            },
        }
    }
}

/// A custom section of this name is copied over. Others may refer to functions
/// by index, and the linker has renumbered them.
pub open spec fn forwardable(name: Seq<char>) -> bool {
    ||| starts_with(encode_utf8(name), encode_utf8("component-type:"@))
    ||| starts_with(encode_utf8(name), encode_utf8("target_features"@))
}

/// A custom section that is copied over.
pub struct Forwarded {
    pub name: String,
    pub data: Vec<u8>,
}

impl View for Forwarded {
    type V = (Seq<char>, Seq<u8>);

    open spec fn view(&self) -> (Seq<char>, Seq<u8>) {
        (self.name@, self.data@)
    }
}

/// The custom sections that are copied over, as the model sees them.
pub open spec fn forwarded_views(s: Seq<Forwarded>) -> Seq<(Seq<char>, Seq<u8>)> {
    s.map_values(|f: Forwarded| f@)
}

/// The custom sections among `parts` that are copied over, in order, or the
/// first error among them.
pub open spec fn collected(parts: Seq<Result<PartView, Seq<char>>>) -> Result<
    Seq<(Seq<char>, Seq<u8>)>,
    Seq<char>,
>
    decreases parts.len(),
{
    if parts.len() == 0 {
        Ok(Seq::empty())
    } else {
        match collected(parts.drop_last()) {
            Err(e) => Err(e),
            Ok(s) => match parts.last() {
                Err(e) => Err(e),
                Ok(PartView::Custom(name, data)) => if forwardable(name) {
                    Ok(s.push((name, data)))
                } else {
                    Ok(s)
                },
                Ok(_) => Ok(s),
            },
        }
    }
}

/// Whether a custom section of this name is copied over.
fn is_forwardable(name: &str) -> (r: bool)
    ensures
        r == forwardable(name@),
{
    bytes_start_with(name.as_bytes(), "component-type:".as_bytes()) || bytes_start_with(
        name.as_bytes(),
        "target_features".as_bytes(),
    )
}

/// The first error among the first pieces stays the first one.
proof fn lemma_collected_error(parts: Seq<Result<PartView, Seq<char>>>, n: int)
    requires
        0 <= n <= parts.len(),
        collected(parts.take(n)) is Err,
    ensures
        collected(parts) == collected(parts.take(n)),
    decreases parts.len(),
{
    if n < parts.len() {
        assert(parts.drop_last().take(n) =~= parts.take(n));
        lemma_collected_error(parts.drop_last(), n);
    } else {
        assert(parts.take(n) =~= parts);
    }
}

/// The custom sections among `parts` that are copied over.
pub fn select_custom_sections(parts: &Vec<Result<Part, String>>) -> (r: Result<
    Vec<Forwarded>,
    FixupError,
>)
    ensures
        match collected(all_parsed(parts@)) {
            Ok(s) => r is Ok && forwarded_views(r->Ok_0@) == s,
            Err(e) => r is Err && r->Err_0@ == FixupFailure::Parse(e),
        },
{
    let mut out: Vec<Forwarded> = Vec::new();
    let mut i: usize = 0;
    let ghost all = all_parsed(parts@);
    assert(all.take(0) =~= Seq::empty());
    assert(forwarded_views(out@) =~= Seq::empty());
    while i < parts.len()
        invariant
            all == all_parsed(parts@),
            i <= parts.len(),
            collected(all.take(i as int)) == Ok::<Seq<(Seq<char>, Seq<u8>)>, Seq<char>>(
                forwarded_views(out@),
            ),
        decreases parts.len() - i,
    {
        proof {
            assert(all.take(i + 1).drop_last() =~= all.take(i as int));
            assert(all.take(i + 1).last() == parsed(parts@[i as int]));
        }
        match &parts[i] {
            Ok(p) => match p {
                Part::Custom(name, data) => {
                    if is_forwardable(name.as_str()) {
                        let ghost before = out@;
                        out.push(
                            Forwarded {
                                name: name.clone(),
                                data: vstd::slice::slice_to_vec(data.as_slice()),
                            },
                        );
                        assert(forwarded_views(out@) =~= forwarded_views(before).push(
                            (name@, data@),
                        ));
                    }
                },
                _ => {},
            },
            Err(e) => {
                proof {
                    lemma_collected_error(all, i + 1);
                }
                return Err(FixupError::Parse(e.clone()));
            },
        }
        i = i + 1;
    }
    assert(all.take(i as int) =~= all);
    Ok(out)
}

/// The custom sections of the binary `bytes` that are copied over.
pub fn collect_custom_sections(bytes: &[u8]) -> (r: Result<Vec<Forwarded>, FixupError>)
    ensures
        match collected(wasm_parts(bytes@)) {
            Ok(s) => r is Ok && forwarded_views(r->Ok_0@) == s,
            Err(e) => r is Err && r->Err_0@ == FixupFailure::Parse(e),
        },
{
    let parts = parse_all(bytes);
    select_custom_sections(&parts)
}

/// The modules and components that are open after `parts`, the innermost last:
/// `true` for a module.
pub open spec fn nesting(parts: Seq<Result<PartView, Seq<char>>>) -> Seq<bool>
    decreases parts.len(),
{
    if parts.len() == 0 {
        Seq::empty()
    } else {
        let open = nesting(parts.drop_last());
        match parts.last() {
            Ok(PartView::Version(module)) => open.push(module),
            Ok(PartView::End) => if open.len() > 0 {
                open.drop_last()
            } else {
                open
            },
            _ => open,
        }
    }
}

/// What comes after `parts` belongs to a module.
pub open spec fn in_module(parts: Seq<Result<PartView, Seq<char>>>) -> bool {
    nesting(parts).len() > 0 && nesting(parts).last()
}

/// The sections of a module that are passed through verbatim: all but the custom
/// ones and the export section.
pub open spec fn passed_through(id: u8) -> bool {
    1 <= id <= 13 && id != EXPORT_SECTION
}

/// The identifier and the range of a section of a module that is passed through
/// verbatim.
pub fn section_raw_passthrough(part: &Part) -> (r: Option<(u8, usize, usize)>)
    ensures
        r == match part@ {
            PartView::Section(id, start, end) => if passed_through(id) {
                Some((id, start, end))
            } else {
                None
            },
            _ => None,
        },
{
    match part {
        Part::Section(id, start, end) => {
            if 1 <= *id && *id <= 13 && *id != EXPORT_SECTION {
                Some((*id, *start, *end))
            } else {
                None
            }
        },
        _ => None,
    }
}

/// A section of the result.
pub enum Piece {
    /// Section `id`, with the contents at this range of the linked module.
    Raw(u8, usize, usize),
    /// An export section.
    Exports(Vec<ExportEntry>),
}

/// A section of the result, as the model sees it.
pub enum PieceView {
    Raw(u8, usize, usize),
    Exports(Seq<ExportView>),
}

impl View for Piece {
    type V = PieceView;

    open spec fn view(&self) -> PieceView {
        match self {
            Piece::Raw(id, start, end) => PieceView::Raw(*id, *start, *end),
            Piece::Exports(e) => PieceView::Exports(export_views(e@)),
        }
    }
}

/// The sections of the result, as the model sees them.
pub open spec fn piece_views(s: Seq<Piece>) -> Seq<PieceView> {
    s.map_values(|p: Piece| p@)
}

/// The export of the first memory under the expected name.
pub open spec fn memory_alias() -> ExportView {
    ExportView { name: "memory"@, kind: ExternKind::Memory, index: DEFAULT_MEMORY_INDEX }
}

/// Some memory is exported under the expected name.
pub open spec fn exports_memory(exports: Seq<ExportView>) -> bool {
    exists|i: int|
        0 <= i < exports.len() && #[trigger] exports[i].name == "memory"@ && exports[i].kind
            == ExternKind::Memory
}

/// The exports, with the first memory under the expected name unless some memory
/// has it already.
pub open spec fn with_alias(exports: Seq<ExportView>) -> Seq<ExportView> {
    if exports_memory(exports) {
        exports
    } else {
        exports.push(memory_alias())
    }
}

/// Adds the export of the first memory, unless some memory is exported under the
/// expected name already.
pub fn add_memory_alias(given: Vec<ExportEntry>) -> (r: Vec<ExportEntry>)
    ensures
        export_views(r@) == with_alias(export_views(given@)),
{
    let ghost views = export_views(given@);
    let mut i: usize = 0;
    while i < given.len()
        invariant
            views == export_views(given@),
            i <= given.len(),
            forall|j: int|
                0 <= j < i ==> !((#[trigger] views[j]).name == "memory"@ && views[j].kind
                    == ExternKind::Memory),
        decreases given.len() - i,
    {
        if str_eq(given[i].name.as_str(), "memory") && given[i].kind == ExternKind::Memory {
            assert(views[i as int].name == "memory"@ && views[i as int].kind
                == ExternKind::Memory);
            return given;
        }
        i = i + 1;
    }
    let mut exports: Vec<ExportEntry> = given;
    exports.push(
        ExportEntry {
            name: String::from_str("memory"),
            kind: ExternKind::Memory,
            index: DEFAULT_MEMORY_INDEX,
        },
    );
    assert(export_views(exports@) =~= views.push(memory_alias()));
    exports
}

/// The sections that the pieces `parts` of the linked module `bytes` come to, or
/// the first failure.
pub open spec fn planned(bytes: Seq<u8>, parts: Seq<Result<PartView, Seq<char>>>) -> Result<
    Seq<PieceView>,
    FixupFailure,
>
    decreases parts.len(),
{
    if parts.len() == 0 {
        Ok(Seq::empty())
    } else {
        match planned(bytes, parts.drop_last()) {
            Err(e) => Err(e),
            Ok(s) => match parts.last() {
                Err(e) => Err(FixupFailure::Parse(e)),
                Ok(PartView::Section(id, start, end)) => if !in_module(parts.drop_last()) {
                    Ok(s)
                } else if !passed_through(id) && id != EXPORT_SECTION {
                    Ok(s)
                } else if start > end || end > bytes.len() {
                    Err(FixupFailure::OutOfRange)
                } else if id == EXPORT_SECTION {
                    match wasm_exports(bytes.subrange(start as int, end as int), start) {
                        Err(e) => Err(FixupFailure::Parse(e)),
                        Ok(exports) => Ok(s.push(PieceView::Exports(with_alias(exports)))),
                    }
                } else {
                    Ok(s.push(PieceView::Raw(id, start, end)))
                },
                Ok(_) => Ok(s),
            },
        }
    }
}

/// Some section of the result is an export section.
pub open spec fn has_exports(pieces: Seq<PieceView>) -> bool {
    exists|i: int| 0 <= i < pieces.len() && #[trigger] pieces[i] is Exports
}

/// The sections, with an export section that only exports the first memory at
/// the end unless there is one already.
pub open spec fn with_exports(pieces: Seq<PieceView>) -> Seq<PieceView> {
    if has_exports(pieces) {
        pieces
    } else {
        pieces.push(PieceView::Exports(seq![memory_alias()]))
    }
}

/// The sections of the result for the linked module `bytes` with the pieces
/// `parts`.
pub open spec fn plan_view(bytes: Seq<u8>, parts: Seq<Result<PartView, Seq<char>>>) -> Result<
    Seq<PieceView>,
    FixupFailure,
> {
    match planned(bytes, parts) {
        Ok(s) => Ok(with_exports(s)),
        Err(e) => Err(e),
    }
}

/// The first failure among the first pieces stays the first one.
proof fn lemma_planned_error(bytes: Seq<u8>, parts: Seq<Result<PartView, Seq<char>>>, n: int)
    requires
        0 <= n <= parts.len(),
        planned(bytes, parts.take(n)) is Err,
    ensures
        planned(bytes, parts) == planned(bytes, parts.take(n)),
    decreases parts.len(),
{
    if n < parts.len() {
        assert(parts.drop_last().take(n) =~= parts.take(n));
        lemma_planned_error(bytes, parts.drop_last(), n);
    } else {
        assert(parts.take(n) =~= parts);
    }
}

/// No export has a name that is longer than a reader takes.
pub open spec fn all_short(pieces: Seq<PieceView>) -> bool {
    forall|i: int|
        0 <= i < pieces.len() ==> match #[trigger] pieces[i] {
            PieceView::Raw(_, _, _) => true,
            PieceView::Exports(exports) => short_names(exports),
        }
}

/// Every export section reads back as what it was made of.
pub open spec fn all_read_back(pieces: Seq<PieceView>) -> bool {
    forall|i: int|
        0 <= i < pieces.len() ==> match #[trigger] pieces[i] {
            PieceView::Raw(_, _, _) => true,
            PieceView::Exports(exports) => reads_as(exports_data(exports), exports),
        }
}

/// The name of the memory is short.
proof fn lemma_alias_short(exports: Seq<ExportView>)
    requires
        short_names(exports),
    ensures
        short_names(with_alias(exports)),
{
    reveal_strlit("memory");
    lemma_encode_len("memory"@);
    let more = with_alias(exports);
    assert forall|i: int| 0 <= i < more.len() implies encode_utf8((#[trigger] more[i]).name).len()
        <= NAME_LIMIT by {
        if i < exports.len() {
            assert(more[i] == exports[i]);
        }
    }
}

/// The ranges of the sections lie in the linked module.
pub open spec fn in_range(bytes: Seq<u8>, pieces: Seq<PieceView>) -> bool {
    forall|i: int|
        0 <= i < pieces.len() ==> match #[trigger] pieces[i] {
            PieceView::Raw(id, start, end) => start <= end && end <= bytes.len(),
            PieceView::Exports(_) => true,
        }
}

/// Works out the sections of the result from the pieces of the linked module.
pub fn plan_sections(bytes: &[u8], parts: &Vec<Result<Part, String>>) -> (r: Result<
    Vec<Piece>,
    FixupError,
>)
    ensures
        match plan_view(bytes@, all_parsed(parts@)) {
            Ok(s) => r is Ok && piece_views(r->Ok_0@) == s && in_range(bytes@, s) && all_short(s),
            Err(e) => r is Err && r->Err_0@ == e,
        },
{
    let mut out: Vec<Piece> = Vec::new();
    let mut open: Vec<bool> = Vec::new();
    let mut wrote_export_section: bool = false;
    let mut i: usize = 0;
    let ghost all = all_parsed(parts@);
    assert(all.take(0) =~= Seq::empty());
    assert(piece_views(out@) =~= Seq::empty());
    while i < parts.len()
        invariant
            all == all_parsed(parts@),
            i <= parts.len(),
            open@ == nesting(all.take(i as int)),
            planned(bytes@, all.take(i as int)) == Ok::<Seq<PieceView>, FixupFailure>(
                piece_views(out@),
            ),
            in_range(bytes@, piece_views(out@)),
            all_short(piece_views(out@)),
            wrote_export_section == has_exports(piece_views(out@)),
        decreases parts.len() - i,
    {
        let ghost before = piece_views(out@);
        proof {
            assert(all.take(i + 1).drop_last() =~= all.take(i as int));
            assert(all.take(i + 1).last() == parsed(parts@[i as int]));
        }
        let inside: bool = open.len() > 0 && open[open.len() - 1];
        match &parts[i] {
            Ok(p) => match p {
                Part::Version(module) => {
                    open.push(*module);
                },
                Part::End => {
                    if open.len() > 0 {
                        let ghost o = open@;
                        open.pop();
                        assert(open@ =~= o.drop_last());
                    }
                },
                Part::Section(id, start, end) => {
                    let raw: Option<(u8, usize, usize)> = section_raw_passthrough(p);
                    if inside && (raw.is_some() || *id == EXPORT_SECTION) {
                        if *start > *end || *end > bytes.len() {
                            proof {
                                lemma_planned_error(bytes@, all, i + 1);
                            }
                            return Err(FixupError::OutOfRange);
                        }
                        match raw {
                            Some((id, start, end)) => {
                                out.push(Piece::Raw(id, start, end));
                                proof {
                                    let now = piece_views(out@);
                                    assert(now =~= before.push(PieceView::Raw(id, start, end)));
                                    lemma_has_exports_push(before, PieceView::Raw(id, start, end));
                                }
                            },
                            None => {
                                let body = vstd::slice::slice_subrange(bytes, *start, *end);
                                match read_exports(body, *start) {
                                    Ok(exports) => {
                                        proof {
                                            lemma_alias_short(export_views(exports@));
                                        }
                                        let exports: Vec<ExportEntry> = add_memory_alias(exports);
                                        let ghost piece = PieceView::Exports(
                                            export_views(exports@),
                                        );
                                        out.push(Piece::Exports(exports));
                                        wrote_export_section = true;
                                        proof {
                                            assert(piece_views(out@) =~= before.push(piece));
                                            lemma_has_exports_push(before, piece);
                                        }
                                    },
                                    Err(e) => {
                                        proof {
                                            lemma_planned_error(bytes@, all, i + 1);
                                        }
                                        return Err(FixupError::Parse(e));
                                    },
                                }
                            },
                        }
                    }
                },
                Part::Custom(_, _) => {},
                Part::Other => {},
            },
            Err(e) => {
                proof {
                    lemma_planned_error(bytes@, all, i + 1);
                }
                return Err(FixupError::Parse(e.clone()));
            },
        }
        i = i + 1;
    }
    assert(all.take(i as int) =~= all);
    if !wrote_export_section {
        let ghost before = piece_views(out@);
        let exports: Vec<ExportEntry> = add_memory_alias(Vec::new());
        proof {
            assert(export_views(exports@) =~= seq![memory_alias()]);
            assert(with_alias(Seq::empty()) =~= seq![memory_alias()]);
            lemma_alias_short(Seq::empty());
        }
        out.push(Piece::Exports(exports));
        proof {
            assert(piece_views(out@) =~= before.push(PieceView::Exports(seq![memory_alias()])));
        }
    }
    Ok(out)
}

/// A longer list has an export section if the shorter one has or the last is
/// one.
proof fn lemma_has_exports_push(pieces: Seq<PieceView>, p: PieceView)
    ensures
        has_exports(pieces.push(p)) == (has_exports(pieces) || p is Exports),
{
    let more = pieces.push(p);
    if has_exports(pieces) {
        let i = choose|i: int| 0 <= i < pieces.len() && #[trigger] pieces[i] is Exports;
        assert(more[i] is Exports);
    }
    if has_exports(more) {
        let i = choose|i: int| 0 <= i < more.len() && #[trigger] more[i] is Exports;
        assert(i < pieces.len() ==> pieces[i] is Exports);
    }
    assert(more[pieces.len() as int] == p);
}

/// The identifier of a section of the result, and its contents.
pub open spec fn piece_section(bytes: Seq<u8>, piece: PieceView) -> (u8, Seq<u8>) {
    match piece {
        PieceView::Raw(id, start, end) => (id, bytes.subrange(start as int, end as int)),
        PieceView::Exports(exports) => (EXPORT_SECTION, exports_data(exports)),
    }
}

/// `done` with one more section, unless its contents are too long.
pub open spec fn with_section(done: Result<Seq<u8>, FixupFailure>, id: u8, data: Seq<u8>) -> Result<
    Seq<u8>,
    FixupFailure,
> {
    match done {
        Err(e) => Err(e),
        Ok(b) => if data.len() > u32::MAX {
            Err(FixupFailure::TooLarge)
        } else {
            Ok(b + section_bytes(id, data))
        },
    }
}

/// A module of the sections `pieces`.
pub open spec fn module_of(bytes: Seq<u8>, pieces: Seq<PieceView>) -> Result<Seq<u8>, FixupFailure>
    decreases pieces.len(),
{
    if pieces.len() == 0 {
        Ok(module_header())
    } else {
        let (id, data) = piece_section(bytes, pieces.last());
        with_section(module_of(bytes, pieces.drop_last()), id, data)
    }
}

/// `module` with the custom sections `forwarded` at its end.
pub open spec fn with_customs(
    module: Result<Seq<u8>, FixupFailure>,
    forwarded: Seq<(Seq<char>, Seq<u8>)>,
) -> Result<Seq<u8>, FixupFailure>
    decreases forwarded.len(),
{
    if forwarded.len() == 0 {
        module
    } else {
        let (name, data) = forwarded.last();
        with_section(with_customs(module, forwarded.drop_last()), 0, custom_data(name, data))
    }
}

proof fn lemma_module_error(bytes: Seq<u8>, pieces: Seq<PieceView>, n: int)
    requires
        0 <= n <= pieces.len(),
        module_of(bytes, pieces.take(n)) is Err,
    ensures
        module_of(bytes, pieces) == module_of(bytes, pieces.take(n)),
    decreases pieces.len(),
{
    if n < pieces.len() {
        assert(pieces.drop_last().take(n) =~= pieces.take(n));
        lemma_module_error(bytes, pieces.drop_last(), n);
    } else {
        assert(pieces.take(n) =~= pieces);
    }
}

proof fn lemma_customs_error(
    module: Result<Seq<u8>, FixupFailure>,
    forwarded: Seq<(Seq<char>, Seq<u8>)>,
    n: int,
)
    requires
        0 <= n <= forwarded.len(),
        with_customs(module, forwarded.take(n)) is Err,
    ensures
        with_customs(module, forwarded) == with_customs(module, forwarded.take(n)),
    decreases forwarded.len(),
{
    if n < forwarded.len() {
        assert(forwarded.drop_last().take(n) =~= forwarded.take(n));
        lemma_customs_error(module, forwarded.drop_last(), n);
    } else {
        assert(forwarded.take(n) =~= forwarded);
    }
}

/// A prefix of exports is no longer than all of them; an export takes its name
/// and at least three more bytes.
proof fn lemma_exports_len(exports: Seq<ExportView>, n: int)
    requires
        0 <= n <= exports.len(),
    ensures
        exports_bytes(exports.take(n)).len() <= exports_bytes(exports).len(),
        exports_bytes(exports).len() >= 3 * exports.len(),
        forall|i: int|
            0 <= i < exports.len() ==> encode_utf8((#[trigger] exports[i]).name).len()
                <= exports_bytes(exports).len(),
    decreases exports.len(),
{
    if exports.len() > 0 {
        let e = exports.last();
        lemma_leb_len(encode_utf8(e.name).len());
        lemma_leb_len(e.index as nat);
        assert(export_bytes(e).len() == name_bytes(e.name).len() + 1 + leb(e.index as nat).len());
        let init = exports.drop_last();
        lemma_exports_len(
            init,
            if n < exports.len() {
                n
            } else {
                0
            },
        );
        if n < exports.len() {
            assert(init.take(n) =~= exports.take(n));
        } else {
            assert(exports.take(n) =~= exports);
        }
        assert forall|i: int| 0 <= i < exports.len() implies encode_utf8(
            (#[trigger] exports[i]).name,
        ).len() <= exports_bytes(exports).len() by {
            if i < init.len() {
                assert(init[i] == exports[i]);
            }
        }
    } else {
        assert(exports.take(n) =~= exports);
    }
}

proof fn lemma_leb_len(n: nat)
    ensures
        leb(n).len() >= 1,
{
}

/// Whether an export section of these exports is short enough.
fn exports_fit(exports: &Vec<ExportEntry>) -> (r: bool)
    ensures
        r == (exports_data(export_views(exports@)).len() <= u32::MAX),
{
    let ghost views = export_views(exports@);
    let mut total: u64 = 0;
    let mut i: usize = 0;
    assert(views.take(0) =~= Seq::empty());
    while i < exports.len()
        invariant
            views == export_views(exports@),
            i <= exports.len(),
            total == exports_bytes(views.take(i as int)).len(),
            total <= u32::MAX,
        decreases exports.len() - i,
    {
        let e: &ExportEntry = &exports[i];
        let n: usize = e.name.as_str().as_bytes().len();
        proof {
            assert(views.take(i + 1).drop_last() =~= views.take(i as int));
            assert(views.take(i + 1).last() == e@);
            lemma_exports_len(views, i + 1);
            assert(encode_utf8(views[i as int].name).len() <= exports_bytes(views).len());
            lemma_leb_len(views.len());
        }
        if n as u64 > u32::MAX as u64 {
            return false;
        }
        total = total + leb_len(n as u32) + n as u64 + 1 + leb_len(e.index);
        if total > u32::MAX as u64 {
            return false;
        }
        i = i + 1;
    }
    assert(views.take(i as int) =~= views);
    proof {
        lemma_exports_len(views, 0);
    }
    assert(exports.len() as u64 <= u32::MAX as u64);
    total + leb_len(exports.len() as u32) <= u32::MAX as u64
}

/// Writes an export section, unless it is too long.
fn write_exports(module: &mut wasm_encoder::Module, exports: &Vec<ExportEntry>) -> (r: bool)
    ensures
        ({
            let data = exports_data(export_views(exports@));
            if data.len() <= u32::MAX {
                &&& r
                &&& module_bytes(*final(module)) == module_bytes(*old(module)) + section_bytes(
                    EXPORT_SECTION,
                    data,
                )
                &&& short_names(export_views(exports@)) ==> reads_as(data, export_views(exports@))
            } else {
                !r
            }
        }),
{
    if !exports_fit(exports) {
        return false;
    }
    let ghost views = export_views(exports@);
    let mut section = wasm_encoder::ExportSection::new();
    let mut i: usize = 0;
    proof {
        lemma_exports_len(views, 0);
        assert(views.take(0) =~= Seq::empty());
    }
    while i < exports.len()
        invariant
            views == export_views(exports@),
            i <= exports.len(),
            3 * views.len() <= u32::MAX,
            forall|j: int|
                0 <= j < views.len() ==> encode_utf8((#[trigger] views[j]).name).len() <= u32::MAX,
            section_exports(section) == views.take(i as int),
        decreases exports.len() - i,
    {
        let e: &ExportEntry = &exports[i];
        assert(views[i as int] == e@);
        add_export(&mut section, e.name.as_str(), e.kind, e.index);
        assert(views.take(i + 1) =~= views.take(i as int).push(e@));
        i = i + 1;
    }
    assert(views.take(i as int) =~= views);
    write_export_section(module, &section);
    assert(last_contents(module_bytes(*module), exports_data(views).len()) =~= exports_data(views));
    true
}

/// Whether a custom section is short enough.
fn custom_fits(name: &str, data: &[u8]) -> (r: bool)
    ensures
        r == (custom_data(name@, data@).len() <= u32::MAX),
{
    let n: usize = name.as_bytes().len();
    proof {
        lemma_leb_len(encode_utf8(name@).len());
    }
    if n as u64 > u32::MAX as u64 || data.len() as u64 > u32::MAX as u64 {
        return false;
    }
    leb_len(n as u32) + n as u64 + data.len() as u64 <= u32::MAX as u64
}

/// Writes a module of the sections `pieces`, with the custom sections
/// `forwarded` at its end.
pub fn assemble(bytes: &[u8], pieces: &Vec<Piece>, forwarded: &Vec<Forwarded>) -> (r: Result<
    Vec<u8>,
    FixupError,
>)
    requires
        in_range(bytes@, piece_views(pieces@)),
    ensures
        match with_customs(module_of(bytes@, piece_views(pieces@)), forwarded_views(forwarded@)) {
            Ok(b) => r is Ok && r->Ok_0@ == b,
            Err(e) => r is Err && r->Err_0@ == e,
        },
        r is Ok && all_short(piece_views(pieces@)) ==> all_read_back(piece_views(pieces@)),
{
    let ghost views = piece_views(pieces@);
    let ghost customs = forwarded_views(forwarded@);
    let ghost whole = module_of(bytes@, views);
    let mut module = wasm_encoder::Module::new();
    let mut i: usize = 0;
    assert(views.take(0) =~= Seq::empty());
    while i < pieces.len()
        invariant
            views == piece_views(pieces@),
            customs == forwarded_views(forwarded@),
            whole == module_of(bytes@, views),
            in_range(bytes@, views),
            i <= pieces.len(),
            module_of(bytes@, views.take(i as int)) == Ok::<Seq<u8>, FixupFailure>(
                module_bytes(module),
            ),
            all_short(views) ==> all_read_back(views.take(i as int)),
        decreases pieces.len() - i,
    {
        proof {
            assert(views.take(i + 1).drop_last() =~= views.take(i as int));
            assert(views.take(i + 1).last() == pieces@[i as int]@);
            assert(views[i as int] == pieces@[i as int]@);
        }
        let fits: bool = match &pieces[i] {
            Piece::Raw(id, start, end) => {
                let body = vstd::slice::slice_subrange(bytes, *start, *end);
                if body.len() as u64 <= u32::MAX as u64 {
                    write_raw_section(&mut module, *id, body);
                    true
                } else {
                    false
                }
            },
            Piece::Exports(exports) => write_exports(&mut module, exports),
        };
        if !fits {
            proof {
                lemma_module_error(bytes@, views, i + 1);
                assert(customs.take(0) =~= Seq::empty());
                lemma_customs_error(whole, customs, 0);
            }
            return Err(FixupError::TooLarge);
        }
        i = i + 1;
    }
    assert(views.take(i as int) =~= views);
    let mut out: Vec<u8> = module.finish();
    let mut k: usize = 0;
    assert(customs.take(0) =~= Seq::empty());
    while k < forwarded.len()
        invariant
            customs == forwarded_views(forwarded@),
            whole == module_of(bytes@, piece_views(pieces@)),
            all_short(piece_views(pieces@)) ==> all_read_back(piece_views(pieces@)),
            k <= forwarded.len(),
            with_customs(whole, customs.take(k as int)) == Ok::<Seq<u8>, FixupFailure>(out@),
        decreases forwarded.len() - k,
    {
        let f: &Forwarded = &forwarded[k];
        proof {
            assert(customs.take(k + 1).drop_last() =~= customs.take(k as int));
            assert(customs.take(k + 1).last() == f@);
        }
        if !custom_fits(f.name.as_str(), f.data.as_slice()) {
            proof {
                lemma_customs_error(whole, customs, k + 1);
            }
            return Err(FixupError::TooLarge);
        }
        append_custom_section(&mut out, f.name.as_str(), f.data.as_slice());
        k = k + 1;
    }
    assert(customs.take(k as int) =~= customs);
    Ok(out)
}

/// The first error among `parts`.
pub open spec fn first_error(parts: Seq<Result<PartView, Seq<char>>>) -> Option<Seq<char>>
    decreases parts.len(),
{
    if parts.len() == 0 {
        None
    } else if parts[0] is Err {
        Some(parts[0]->Err_0)
    } else {
        first_error(parts.skip(1))
    }
}

/// The result has to parse without an error.
pub fn validate(parts: &Vec<Result<Part, String>>) -> (r: Result<(), FixupError>)
    ensures
        match first_error(all_parsed(parts@)) {
            None => r is Ok,
            Some(e) => r is Err && r->Err_0@ == FixupFailure::Validate(e),
        },
{
    let ghost all = all_parsed(parts@);
    let mut i: usize = 0;
    assert(all.skip(0) =~= all);
    while i < parts.len()
        invariant
            all == all_parsed(parts@),
            i <= parts.len(),
            first_error(all) == first_error(all.skip(i as int)),
        decreases parts.len() - i,
    {
        proof {
            assert(all.skip(i as int)[0] == parsed(parts@[i as int]));
            assert(all.skip(i as int).skip(1) =~= all.skip(i + 1));
        }
        match &parts[i] {
            Ok(_) => {},
            Err(e) => {
                return Err(FixupError::Validate(e.clone()));
            },
        }
        i = i + 1;
    }
    Ok(())
}

/// The result for the linked module `bytes` with the pieces `parts`, before it
/// is validated.
pub open spec fn merged(
    bytes: Seq<u8>,
    parts: Seq<Result<PartView, Seq<char>>>,
    forwarded: Seq<(Seq<char>, Seq<u8>)>,
) -> Result<Seq<u8>, FixupFailure> {
    match plan_view(bytes, parts) {
        Err(e) => Err(e),
        Ok(pieces) => with_customs(module_of(bytes, pieces), forwarded),
    }
}

/// The result for the linked module `bytes`.
pub open spec fn rewritten(bytes: Seq<u8>, forwarded: Seq<(Seq<char>, Seq<u8>)>) -> Result<
    Seq<u8>,
    FixupFailure,
> {
    match merged(bytes, wasm_parts(bytes), forwarded) {
        Err(e) => Err(e),
        Ok(out) => match first_error(wasm_parts(out)) {
            Some(e) => Err(FixupFailure::Validate(e)),
            None => Ok(out),
        },
    }
}

/// Pieces without a first error have none.
proof fn lemma_first_error(parts: Seq<Result<PartView, Seq<char>>>)
    requires
        first_error(parts) is None,
    ensures
        no_errors(parts),
    decreases parts.len(),
{
    if parts.len() > 0 {
        let rest = parts.skip(1);
        lemma_first_error(rest);
        assert forall|i: int| 0 <= i < parts.len() implies #[trigger] parts[i] is Ok by {
            if i > 0 {
                assert(rest[i - 1] is Ok);
            }
        }
    }
}

/// Rewrites the linked module `bytes`: its sections are passed through but for
/// the custom ones, its first memory is exported under the expected name, and
/// `forwarded` is added at the end. Rewriting the result again changes nothing:
/// neither the export nor the custom sections are there twice.
pub fn rewrite_post_link(bytes: &[u8], forwarded: &Vec<Forwarded>) -> (r: Result<
    Vec<u8>,
    FixupError,
>)
    ensures
        match rewritten(bytes@, forwarded_views(forwarded@)) {
            Ok(b) => r is Ok && r->Ok_0@ == b,
            Err(e) => r is Err && r->Err_0@ == e,
        },
        r is Ok ==> rewritten(r->Ok_0@, forwarded_views(forwarded@)) == Ok::<
            Seq<u8>,
            FixupFailure,
        >(r->Ok_0@),
{
    let parts = parse_all(bytes);
    let pieces: Vec<Piece> = match plan_sections(bytes, &parts) {
        Ok(p) => p,
        Err(e) => {
            return Err(e);
        },
    };
    let out: Vec<u8> = match assemble(bytes, &pieces, forwarded) {
        Ok(b) => b,
        Err(e) => {
            return Err(e);
        },
    };
    let check = parse_all(out.as_slice());
    match validate(&check) {
        Ok(()) => {
            proof {
                assert(out@.len() == out.len());
                lemma_first_error(wasm_parts(out@));
                lemma_rewrite_again(bytes@, forwarded_views(forwarded@), out@);
            }
            Ok(out)
        },
        Err(e) => Err(e),
    }
}

/// A fixed-up module and what was copied over.
pub struct Fixup {
    pub merged: Vec<u8>,
    pub forwarded: Vec<Forwarded>,
}

/// The fixed-up module for the unlinked module `pre` and the linked one `post`,
/// and what was copied over.
pub open spec fn fixed_up(pre: Seq<u8>, post: Seq<u8>) -> Result<
    (Seq<u8>, Seq<(Seq<char>, Seq<u8>)>),
    FixupFailure,
> {
    match collected(wasm_parts(pre)) {
        Err(e) => Err(FixupFailure::Parse(e)),
        Ok(forwarded) => if forwarded.len() == 0 {
            Err(FixupFailure::NoSections)
        } else {
            match rewritten(post, forwarded) {
                Err(e) => Err(e),
                Ok(out) => Ok((out, forwarded)),
            }
        },
    }
}

/// Fixes up the linked module `post` with what the unlinked module `pre` holds.
/// Fixing up the result again changes nothing.
pub fn run(pre: &[u8], post: &[u8]) -> (r: Result<Fixup, FixupError>)
    ensures
        match fixed_up(pre@, post@) {
            Ok((merged, forwarded)) => {
                &&& r is Ok
                &&& r->Ok_0.merged@ == merged
                &&& forwarded_views(r->Ok_0.forwarded@) == forwarded
                &&& fixed_up(pre@, merged) == fixed_up(pre@, post@)
            },
            Err(e) => r is Err && r->Err_0@ == e,
        },
{
    let forwarded: Vec<Forwarded> = match collect_custom_sections(pre) {
        Ok(f) => f,
        Err(e) => {
            return Err(e);
        },
    };
    if forwarded.len() == 0 {
        return Err(FixupError::NoSections);
    }
    match rewrite_post_link(post, &forwarded) {
        Ok(merged) => Ok(Fixup { merged, forwarded }),
        Err(e) => Err(e),
    }
}

/// The text that tells of a result written to `out_path`.
pub open spec fn summary_text(out_path: Seq<char>, merged: nat, forwarded: nat) -> Seq<char> {
    "postlink-fixup: wrote "@ + out_path + " ("@ + decimal(merged) + " bytes, +"@ + decimal(
        forwarded,
    ) + " custom section(s), +1 memory alias `memory`)"@
}

/// The text that tells of a custom section that was copied over.
pub open spec fn forwarded_text(name: Seq<char>, len: nat) -> Seq<char> {
    "  + "@ + name + " ("@ + decimal(len) + " bytes)"@
}

impl Fixup {
    /// The text that tells of this result, written to `out_path`.
    pub fn summary(&self, out_path: &str) -> (r: String)
        ensures
            r@ == summary_text(out_path@, self.merged@.len(), self.forwarded@.len()),
    {
        let mut r = String::from_str("postlink-fixup: wrote ");
        r.append(out_path);
        r.append(" (");
        push_decimal(&mut r, self.merged.len() as u64);
        r.append(" bytes, +");
        push_decimal(&mut r, self.forwarded.len() as u64);
        r.append(" custom section(s), +1 memory alias `memory`)");
        r
    }
}

impl Forwarded {
    /// The text that tells of this section.
    pub fn summary(&self) -> (r: String)
        ensures
            r@ == forwarded_text(self.name@, self.data@.len()),
    {
        let mut r = String::from_str("  + ");
        r.append(self.name.as_str());
        r.append(" (");
        push_decimal(&mut r, self.data.len() as u64);
        r.append(" bytes)");
        r
    }
}

/// Whatever was exported, some memory is exported under the expected name then,
/// and every export stays.
pub proof fn lemma_alias_exports_memory(exports: Seq<ExportView>)
    ensures
        exports_memory(with_alias(exports)),
        exports.is_prefix_of(with_alias(exports)),
        with_alias(with_alias(exports)) == with_alias(exports),
{
    let more = with_alias(exports);
    if !exports_memory(exports) {
        assert(more[exports.len() as int] == memory_alias());
        assert(more[exports.len() as int].name == "memory"@);
    }
}

/// Every result has an export section, and every export section in it exports
/// some memory under the expected name.
pub proof fn lemma_result_exports_memory(bytes: Seq<u8>, parts: Seq<Result<PartView, Seq<char>>>)
    requires
        plan_view(bytes, parts) is Ok,
    ensures
        has_exports(plan_view(bytes, parts)->Ok_0),
        forall|i: int|
            0 <= i < plan_view(bytes, parts)->Ok_0.len() ==> match #[trigger] plan_view(
                bytes,
                parts,
            )->Ok_0[i] {
                PieceView::Exports(exports) => exports_memory(exports),
                PieceView::Raw(_, _, _) => true,
            },
{
    lemma_planned_exports_memory(bytes, parts);
    let pieces = planned(bytes, parts)->Ok_0;
    let all = plan_view(bytes, parts)->Ok_0;
    if !has_exports(pieces) {
        let alias = seq![memory_alias()];
        assert(all[pieces.len() as int] == PieceView::Exports(alias));
        assert(alias[0].name == "memory"@);
        assert(exports_memory(alias));
    }
    assert forall|i: int| 0 <= i < all.len() implies match #[trigger] all[i] {
        PieceView::Exports(exports) => exports_memory(exports),
        PieceView::Raw(_, _, _) => true,
    } by {
        if i < pieces.len() {
            assert(all[i] == pieces[i]);
        }
    }
}

proof fn lemma_planned_exports_memory(bytes: Seq<u8>, parts: Seq<Result<PartView, Seq<char>>>)
    requires
        planned(bytes, parts) is Ok,
    ensures
        forall|i: int|
            0 <= i < planned(bytes, parts)->Ok_0.len() ==> match #[trigger] planned(
                bytes,
                parts,
            )->Ok_0[i] {
                PieceView::Exports(exports) => exports_memory(exports),
                PieceView::Raw(_, _, _) => true,
            },
    decreases parts.len(),
{
    if parts.len() > 0 {
        let init = parts.drop_last();
        lemma_planned_exports_memory(bytes, init);
        let before = planned(bytes, init)->Ok_0;
        let now = planned(bytes, parts)->Ok_0;
        assert forall|i: int| 0 <= i < now.len() implies match #[trigger] now[i] {
            PieceView::Exports(exports) => exports_memory(exports),
            PieceView::Raw(_, _, _) => true,
        } by {
            if i < before.len() {
                assert(now[i] == before[i]);
            } else {
                match parts.last() {
                    Ok(PartView::Section(id, start, end)) => {
                        match wasm_exports(bytes.subrange(start as int, end as int), start) {
                            Ok(exports) => {
                                lemma_alias_exports_memory(exports);
                            },
                            Err(_) => {},
                        }
                    },
                    _ => {},
                }
            }
        }
    }
}

/// The result ends with the custom sections that were copied over, in order.
pub proof fn lemma_customs_at_end(
    module: Seq<u8>,
    forwarded: Seq<(Seq<char>, Seq<u8>)>,
    n: int,
)
    requires
        0 <= n < forwarded.len(),
        with_customs(Ok(module), forwarded) is Ok,
    ensures
        with_customs(Ok(module), forwarded.take(n)) is Ok,
        ({
            let head = with_customs(Ok(module), forwarded.take(n))->Ok_0;
            let all = with_customs(Ok(module), forwarded)->Ok_0;
            &&& module.is_prefix_of(head)
            &&& (head + section_bytes(0, custom_data(forwarded[n].0, forwarded[n].1))).is_prefix_of(
                all,
            )
        }),
    decreases forwarded.len(),
{
    let init = forwarded.drop_last();
    if n < init.len() {
        lemma_customs_at_end(module, init, n);
        assert(init.take(n) =~= forwarded.take(n));
    } else {
        assert(forwarded.take(n) =~= init);
        lemma_customs_prefix(module, init);
    }
}

proof fn lemma_customs_prefix(module: Seq<u8>, forwarded: Seq<(Seq<char>, Seq<u8>)>)
    requires
        with_customs(Ok(module), forwarded) is Ok,
    ensures
        module.is_prefix_of(with_customs(Ok(module), forwarded)->Ok_0),
    decreases forwarded.len(),
{
    if forwarded.len() > 0 {
        lemma_customs_prefix(module, forwarded.drop_last());
    }
}

} // verus!
