//! Fixing up a module that was fixed up already changes nothing more.

use crate::postlink::encode::{exports_data, leb, reads_as, section_bytes};
use crate::postlink::fixup::{
    all_read_back, exports_memory, has_exports, in_range, lemma_result_exports_memory, merged,
    module_of, nesting, passed_through, piece_section, plan_view, planned, rewritten, with_alias,
    with_customs, FixupFailure, PieceView, EXPORT_SECTION,
};
use crate::postlink::framing::{
    all_valid, contents_start, framed, framed_part, framed_parts, no_errors, relevant, SectionView,
};
use crate::postlink::parse::{wasm_exports, wasm_parts, PartView};
use vstd::prelude::*;

verus! {

/// A section of the result, with its contents.
pub open spec fn section_view(bytes: Seq<u8>, piece: PieceView) -> SectionView {
    SectionView::Plain(piece_section(bytes, piece).0, piece_section(bytes, piece).1)
}

/// The sections of the result, with their contents.
pub open spec fn section_views(bytes: Seq<u8>, pieces: Seq<PieceView>) -> Seq<SectionView> {
    pieces.map_values(|p: PieceView| section_view(bytes, p))
}

/// The custom sections that are copied over.
pub open spec fn custom_views(forwarded: Seq<(Seq<char>, Seq<u8>)>) -> Seq<SectionView> {
    forwarded.map_values(|f: (Seq<char>, Seq<u8>)| SectionView::Custom(f.0, f.1))
}

/// The sections of the result, as they are found in the result.
pub open spec fn relocated(bytes: Seq<u8>, pieces: Seq<PieceView>) -> Seq<PieceView>
    decreases pieces.len(),
{
    if pieces.len() == 0 {
        Seq::empty()
    } else {
        let before = pieces.drop_last();
        let s = section_view(bytes, pieces.last());
        let start = contents_start(section_views(bytes, before), s);
        relocated(bytes, before).push(
            match pieces.last() {
                PieceView::Raw(id, _, _) => PieceView::Raw(
                    id,
                    start as usize,
                    (start + s.data().len()) as usize,
                ),
                PieceView::Exports(exports) => PieceView::Exports(exports),
            },
        )
    }
}

/// The raw sections are ones that are passed through, and the export sections
/// export some memory under the expected name.
pub open spec fn well_planned(pieces: Seq<PieceView>) -> bool {
    forall|i: int|
        0 <= i < pieces.len() ==> match #[trigger] pieces[i] {
            PieceView::Raw(id, _, _) => passed_through(id),
            PieceView::Exports(exports) => exports_memory(exports),
        }
}

proof fn lemma_planned_ids(bytes: Seq<u8>, parts: Seq<Result<PartView, Seq<char>>>)
    requires
        planned(bytes, parts) is Ok,
    ensures
        forall|i: int|
            0 <= i < planned(bytes, parts)->Ok_0.len() ==> match #[trigger] planned(
                bytes,
                parts,
            )->Ok_0[i] {
                PieceView::Raw(id, _, _) => passed_through(id),
                PieceView::Exports(_) => true,
            },
    decreases parts.len(),
{
    if parts.len() > 0 {
        let init = parts.drop_last();
        lemma_planned_ids(bytes, init);
        let before = planned(bytes, init)->Ok_0;
        let now = planned(bytes, parts)->Ok_0;
        assert forall|i: int| 0 <= i < now.len() implies match #[trigger] now[i] {
            PieceView::Raw(id, _, _) => passed_through(id),
            PieceView::Exports(_) => true,
        } by {
            if i < before.len() {
                assert(now[i] == before[i]);
            }
        }
    }
}

pub(crate) proof fn lemma_well_planned(bytes: Seq<u8>, parts: Seq<Result<PartView, Seq<char>>>)
    requires
        plan_view(bytes, parts) is Ok,
    ensures
        well_planned(plan_view(bytes, parts)->Ok_0),
        has_exports(plan_view(bytes, parts)->Ok_0),
{
    lemma_planned_ids(bytes, parts);
    lemma_result_exports_memory(bytes, parts);
    let pieces = planned(bytes, parts)->Ok_0;
    let all = plan_view(bytes, parts)->Ok_0;
    assert forall|i: int| 0 <= i < all.len() implies match #[trigger] all[i] {
        PieceView::Raw(id, _, _) => passed_through(id),
        PieceView::Exports(exports) => exports_memory(exports),
    } by {
        if i < pieces.len() {
            assert(all[i] == pieces[i]);
        }
    }
}

/// What is no section, header or end plays no part.
proof fn lemma_planned_relevant(bytes: Seq<u8>, parts: Seq<Result<PartView, Seq<char>>>)
    ensures
        planned(bytes, relevant(parts)) == planned(bytes, parts),
        nesting(relevant(parts)) == nesting(parts),
    decreases parts.len(),
{
    if parts.len() > 0 {
        let init = parts.drop_last();
        lemma_planned_relevant(bytes, init);
        if parts.last() != Ok::<PartView, Seq<char>>(PartView::Other) {
            assert(relevant(parts).drop_last() =~= relevant(init));
        }
    }
}

/// A module of sections that are short enough is framed.
pub(crate) proof fn lemma_module_framed(bytes: Seq<u8>, pieces: Seq<PieceView>)
    requires
        module_of(bytes, pieces) is Ok,
        well_planned(pieces),
    ensures
        module_of(bytes, pieces)->Ok_0 == framed(section_views(bytes, pieces)),
        all_valid(section_views(bytes, pieces)),
    decreases pieces.len(),
{
    let views = section_views(bytes, pieces);
    if pieces.len() > 0 {
        let init = pieces.drop_last();
        assert forall|i: int| 0 <= i < init.len() implies match #[trigger] init[i] {
            PieceView::Raw(id, _, _) => passed_through(id),
            PieceView::Exports(exports) => exports_memory(exports),
        } by {
            assert(init[i] == pieces[i]);
        }
        lemma_module_framed(bytes, init);
        assert(views.drop_last() =~= section_views(bytes, init));
        assert(pieces[pieces.len() - 1] == pieces.last());
        assert forall|i: int| 0 <= i < views.len() implies (#[trigger] views[i]).valid() by {
            if i < init.len() {
                assert(views[i] == section_views(bytes, init)[i]);
            }
        }
    }
}

/// A framed module with custom sections at its end is framed.
pub(crate) proof fn lemma_customs_framed(sections: Seq<SectionView>, forwarded: Seq<(Seq<char>, Seq<u8>)>)
    requires
        all_valid(sections),
        with_customs(Ok(framed(sections)), forwarded) is Ok,
    ensures
        with_customs(Ok(framed(sections)), forwarded)->Ok_0 == framed(
            sections + custom_views(forwarded),
        ),
        all_valid(sections + custom_views(forwarded)),
    decreases forwarded.len(),
{
    let all = sections + custom_views(forwarded);
    if forwarded.len() == 0 {
        assert(all =~= sections);
    } else {
        let init = forwarded.drop_last();
        lemma_customs_framed(sections, init);
        let before = sections + custom_views(init);
        assert(all.drop_last() =~= before);
        assert forall|i: int| 0 <= i < all.len() implies (#[trigger] all[i]).valid() by {
            if i < before.len() {
                assert(all[i] == before[i]);
            }
        }
    }
}

/// More sections come behind the ones that are there.
proof fn lemma_framed_prefix(sections: Seq<SectionView>, more: Seq<SectionView>)
    ensures
        framed(sections).is_prefix_of(framed(sections + more)),
    decreases more.len(),
{
    let all = sections + more;
    if more.len() == 0 {
        assert(all =~= sections);
    } else {
        lemma_framed_prefix(sections, more.drop_last());
        assert(all.drop_last() =~= sections + more.drop_last());
    }
}

/// Custom sections play no part in the plan.
proof fn lemma_planned_customs(
    out: Seq<u8>,
    sections: Seq<SectionView>,
    forwarded: Seq<(Seq<char>, Seq<u8>)>,
)
    ensures
        planned(out, framed_parts(sections + custom_views(forwarded))) == planned(
            out,
            framed_parts(sections),
        ),
    decreases forwarded.len(),
{
    let all = sections + custom_views(forwarded);
    if forwarded.len() == 0 {
        assert(all =~= sections);
    } else {
        let init = forwarded.drop_last();
        lemma_planned_customs(out, sections, init);
        let before = sections + custom_views(init);
        assert(all.drop_last() =~= before);
        let parts = framed_parts(all);
        assert(parts.drop_last() =~= framed_parts(before));
        assert(planned(out, parts) == planned(out, framed_parts(before)));
    }
}

/// The plan for the result: its sections, where they are found in it, and they
/// make the same module again.
proof fn lemma_planned_again(bytes: Seq<u8>, pieces: Seq<PieceView>, out: Seq<u8>)
    requires
        module_of(bytes, pieces) is Ok,
        well_planned(pieces),
        in_range(bytes, pieces),
        all_read_back(pieces),
        framed(section_views(bytes, pieces)).is_prefix_of(out),
        out.len() <= usize::MAX,
    ensures
        nesting(framed_parts(section_views(bytes, pieces))) == seq![true],
        planned(out, framed_parts(section_views(bytes, pieces))) == Ok::<
            Seq<PieceView>,
            FixupFailure,
        >(relocated(bytes, pieces)),
        module_of(out, relocated(bytes, pieces)) == module_of(bytes, pieces),
        relocated(bytes, pieces).len() == pieces.len(),
        forall|i: int|
            0 <= i < pieces.len() && #[trigger] pieces[i] is Exports ==> relocated(
                bytes,
                pieces,
            )[i] is Exports,
    decreases pieces.len(),
{
    let views = section_views(bytes, pieces);
    let parts = framed_parts(views);
    if pieces.len() == 0 {
        assert(parts.drop_last() =~= Seq::empty());
        assert(nesting(parts.drop_last()) =~= Seq::empty());
        assert(nesting(parts) =~= seq![true]);
        assert(parts.last() == Ok::<PartView, Seq<char>>(PartView::Version(true)));
        assert(planned(out, parts.drop_last()) == Ok::<Seq<PieceView>, FixupFailure>(Seq::empty()));
    } else {
        let init = pieces.drop_last();
        let piece = pieces.last();
        let before = section_views(bytes, init);
        let s = section_view(bytes, piece);
        let data = s.data();
        let start = contents_start(before, s);
        let head = framed(before);
        assert(pieces[pieces.len() - 1] == piece);
        assert(views.drop_last() =~= before);
        assert(views.last() == s);
        assert forall|i: int| 0 <= i < init.len() implies #[trigger] init[i] == pieces[i] by {}
        lemma_well_planned_prefix(bytes, pieces);
        assert(framed(views) == head + section_bytes(s.id(), data));
        assert(head.is_prefix_of(out)) by {
            assert forall|i: int| 0 <= i < head.len() implies head[i] == out[i] by {
                assert(framed(views)[i] == head[i]);
            }
        }
        lemma_planned_again(bytes, init, out);
        assert(parts.drop_last() =~= framed_parts(before));
        assert(parts.last() == Ok::<PartView, Seq<char>>(framed_part(before, s)));
        assert(nesting(parts.drop_last()) == seq![true]);
        assert(seq![true].last());
        let end = start + data.len();
        assert(end == framed(views).len());
        assert(end <= out.len());
        assert(out.subrange(start as int, end as int) =~= data) by {
            assert forall|i: int| 0 <= i < data.len() implies out[start + i] == data[i] by {
                assert(framed(views)[start + i] == data[i]);
            }
        }
        let again = relocated(bytes, pieces);
        assert(again.drop_last() =~= relocated(bytes, init));
        match piece {
            PieceView::Raw(id, _, _) => {
                assert(again.last() == PieceView::Raw(id, start as usize, end as usize));
            },
            PieceView::Exports(exports) => {
                assert(reads_as(exports_data(exports), exports));
                assert(wasm_exports(data, start as usize) == Ok::<_, Seq<char>>(exports));
                assert(with_alias(exports) == exports);
                assert(again.last() == piece);
            },
        }
        assert(piece_section(out, again.last()) == piece_section(bytes, piece));
        assert forall|i: int| 0 <= i < pieces.len() && #[trigger] pieces[i] is Exports implies
            again[i] is Exports by {
            if i < init.len() {
                assert(init[i] is Exports);
                assert(again[i] == relocated(bytes, init)[i]);
            }
        }
    }
}

/// What holds of all sections holds of all but the last.
proof fn lemma_well_planned_prefix(bytes: Seq<u8>, pieces: Seq<PieceView>)
    requires
        pieces.len() > 0,
        module_of(bytes, pieces) is Ok,
        well_planned(pieces),
        in_range(bytes, pieces),
        all_read_back(pieces),
    ensures
        module_of(bytes, pieces.drop_last()) is Ok,
        well_planned(pieces.drop_last()),
        in_range(bytes, pieces.drop_last()),
        all_read_back(pieces.drop_last()),
{
    let init = pieces.drop_last();
    assert forall|i: int| 0 <= i < init.len() implies #[trigger] init[i] == pieces[i] by {}
}

/// A module that was fixed up comes out of a second fixup as it is: neither the
/// custom sections nor the export of the memory are added again.
pub(crate) proof fn lemma_rewrite_again(
    bytes: Seq<u8>,
    forwarded: Seq<(Seq<char>, Seq<u8>)>,
    out: Seq<u8>,
)
    requires
        rewritten(bytes, forwarded) == Ok::<Seq<u8>, FixupFailure>(out),
        in_range(bytes, plan_view(bytes, wasm_parts(bytes))->Ok_0),
        all_read_back(plan_view(bytes, wasm_parts(bytes))->Ok_0),
        out.len() <= usize::MAX,
        no_errors(wasm_parts(out)),
        forall|sections: Seq<SectionView>|
            #![trigger framed(sections)]
            out == framed(sections) && all_valid(sections) ==> relevant(wasm_parts(out))
                == framed_parts(sections).push(Ok(PartView::End)),
    ensures
        rewritten(out, forwarded) == Ok::<Seq<u8>, FixupFailure>(out),
{
    let pieces = plan_view(bytes, wasm_parts(bytes))->Ok_0;
    let module = module_of(bytes, pieces);
    assert(merged(bytes, wasm_parts(bytes), forwarded) == Ok::<Seq<u8>, FixupFailure>(out));
    lemma_well_planned(bytes, wasm_parts(bytes));
    lemma_customs_of_ok(module, forwarded);
    lemma_module_framed(bytes, pieces);
    let views = section_views(bytes, pieces);
    lemma_customs_framed(views, forwarded);
    let all = views + custom_views(forwarded);
    lemma_framed_prefix(views, custom_views(forwarded));
    lemma_planned_again(bytes, pieces, out);
    lemma_planned_customs(out, views, forwarded);
    let parts = framed_parts(all).push(Ok(PartView::End));
    assert(parts.drop_last() =~= framed_parts(all));
    assert(relevant(wasm_parts(out)) == parts);
    lemma_planned_relevant(out, wasm_parts(out));
    let again = relocated(bytes, pieces);
    assert(planned(out, wasm_parts(out)) == Ok::<Seq<PieceView>, FixupFailure>(again));
    assert(has_exports(again)) by {
        let i = choose|i: int| 0 <= i < pieces.len() && #[trigger] pieces[i] is Exports;
        assert(again[i] is Exports);
    }
    assert(plan_view(out, wasm_parts(out)) == Ok::<Seq<PieceView>, FixupFailure>(again));
}

/// A result with custom sections was made of a module.
pub(crate) proof fn lemma_customs_of_ok(
    module: Result<Seq<u8>, FixupFailure>,
    forwarded: Seq<(Seq<char>, Seq<u8>)>,
)
    requires
        with_customs(module, forwarded) is Ok,
    ensures
        module is Ok,
    decreases forwarded.len(),
{
    if forwarded.len() > 0 {
        lemma_customs_of_ok(module, forwarded.drop_last());
    }
}

} // verus!
