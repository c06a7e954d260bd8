//! What a fixup does to a module, stated over what goes in and what comes out.

use crate::postlink::encode::exports_data;
use crate::postlink::fixup::{
    collected, failure_text, first_error, fixed_up, forwardable, in_module, merged, module_of,
    nesting, plan_view, planned, rewritten, with_customs, FixupFailure, PieceView,
};
use crate::postlink::framing::{framed, SectionView};
use crate::postlink::parse::{wasm_exports, wasm_parts, ExportView, PartView};
use crate::postlink::repeat::{
    custom_views, lemma_customs_framed, lemma_customs_of_ok, lemma_module_framed,
    lemma_well_planned, section_view, section_views,
};
use crate::text::{continues, lemma_starts_and_ends};
use vstd::prelude::*;
use vstd::string::*;
use vstd::utf8::encode_utf8;

verus! {

/// Where a piece belongs: a header opens a module or a component, an end closes the
/// innermost one, and nothing else opens or closes any.
pub proof fn lemma_nesting(parts: Seq<Result<PartView, Seq<char>>>, p: Result<PartView, Seq<char>>)
    ensures
        nesting(Seq::<Result<PartView, Seq<char>>>::empty()).len() == 0,
        p matches Ok(PartView::Version(module)) ==> nesting(parts.push(p)) == nesting(parts).push(
            module,
        ),
        p matches Ok(PartView::End) ==> (nesting(parts).len() > 0 ==> nesting(parts.push(p))
            == nesting(parts).drop_last()) && (nesting(parts).len() == 0 ==> nesting(
            parts.push(p),
        ).len() == 0),
        !(p matches Ok(PartView::Version(_))) && !(p matches Ok(PartView::End)) ==> nesting(
            parts.push(p),
        ) == nesting(parts),
        in_module(parts) <==> nesting(parts).len() > 0 && nesting(parts).last(),
{
    assert(parts.push(p).drop_last() =~= parts);
}

/// The piece `i` is a section of a module, and no custom one.
pub open spec fn is_section(parts: Seq<Result<PartView, Seq<char>>>, i: int) -> bool {
    &&& in_module(parts.take(i))
    &&& parts[i] matches Ok(PartView::Section(id, _, _)) && 1 <= id <= 13
}

/// How many such sections there are among the first `n` pieces.
pub open spec fn sections_before(parts: Seq<Result<PartView, Seq<char>>>, n: int) -> nat
    decreases n,
{
    if n <= 0 {
        0
    } else {
        sections_before(parts, n - 1) + if is_section(parts, n - 1) {
            1nat
        } else {
            0
        }
    }
}

/// Some memory is exported as `memory`.
pub open spec fn has_memory(exports: Seq<ExportView>) -> bool {
    exists|i: int|
        0 <= i < exports.len() && (#[trigger] exports[i]).name == "memory"@ && exports[i].kind is
            Memory
}

/// `out` are the exports `exports`, all of them and in order, with one more at the
/// end where none of them is a memory called `memory`: memory 0 under that name.
pub open spec fn extends(exports: Seq<ExportView>, out: Seq<ExportView>) -> bool {
    &&& out.len() == exports.len() + if has_memory(exports) {
        0int
    } else {
        1
    }
    &&& forall|i: int| 0 <= i < exports.len() ==> #[trigger] out[i] == exports[i]
    &&& !has_memory(exports) ==> out.last().name == "memory"@ && out.last().kind is Memory
        && out.last().index == 0
}

/// `p` is what becomes of the section with the identifier `id` and the contents at
/// this range of the linked module `bytes`: an export section keeps its exports, and
/// any other one its contents.
pub open spec fn becomes(bytes: Seq<u8>, id: u8, start: usize, end: usize, p: PieceView) -> bool {
    if id == 7 {
        &&& p is Exports
        &&& wasm_exports(bytes.subrange(start as int, end as int), start) is Ok
        &&& extends(
            wasm_exports(bytes.subrange(start as int, end as int), start)->Ok_0,
            p->Exports_0,
        )
    } else {
        p == PieceView::Raw(id, start, end)
    }
}

proof fn lemma_planned_sections(bytes: Seq<u8>, parts: Seq<Result<PartView, Seq<char>>>, n: int)
    requires
        0 <= n <= parts.len(),
        planned(bytes, parts.take(n)) is Ok,
    ensures
        planned(bytes, parts.take(n))->Ok_0.len() == sections_before(parts, n),
        forall|i: int|
            0 <= i < n ==> (#[trigger] parts[i]) is Ok,
        forall|i: int| #[trigger]
            is_section(parts, i) && 0 <= i < n ==> {
                let (id, start, end) = (
                    parts[i]->Ok_0->Section_0,
                    parts[i]->Ok_0->Section_1,
                    parts[i]->Ok_0->Section_2,
                );
                &&& start <= end <= bytes.len()
                &&& sections_before(parts, i) < sections_before(parts, n)
                &&& becomes(
                    bytes,
                    id,
                    start,
                    end,
                    planned(bytes, parts.take(n))->Ok_0[sections_before(parts, i) as int],
                )
            },
    decreases n,
{
    if n > 0 {
        assert(parts.take(n).drop_last() =~= parts.take(n - 1));
        assert(parts.take(n).last() == parts[n - 1]);
        lemma_planned_sections(bytes, parts, n - 1);
        let before = planned(bytes, parts.take(n - 1))->Ok_0;
        let now = planned(bytes, parts.take(n))->Ok_0;
        assert forall|i: int| #[trigger] is_section(parts, i) && 0 <= i < n implies ({
            let (id, start, end) = (
                parts[i]->Ok_0->Section_0,
                parts[i]->Ok_0->Section_1,
                parts[i]->Ok_0->Section_2,
            );
            &&& start <= end <= bytes.len()
            &&& sections_before(parts, i) < sections_before(parts, n)
            &&& becomes(bytes, id, start, end, now[sections_before(parts, i) as int])
        }) by {
            if i < n - 1 {
                assert(now[sections_before(parts, i) as int] == before[sections_before(
                    parts,
                    i,
                ) as int]);
            }
        }
    }
}

/// What a plan keeps: the sections of the module, all of them, in order and each
/// once. An export section keeps every export that it reads as, in order, and gets
/// at most one more; any other section keeps its contents. Where there is no export
/// section, one that exports memory 0 as `memory` follows, and nothing else does.
pub proof fn lemma_what_a_plan_keeps(
    bytes: Seq<u8>,
    parts: Seq<Result<PartView, Seq<char>>>,
    i: int,
)
    requires
        plan_view(bytes, parts) is Ok,
    ensures
        ({
            let out = plan_view(bytes, parts)->Ok_0;
            let n = sections_before(parts, parts.len() as int);
            &&& out.len() == n || out.len() == n + 1
            &&& out.len() == n <==> exists|j: int|
                0 <= j < n && #[trigger] out[j] is Exports
            &&& out.len() == n + 1 ==> out[n as int] is Exports && extends(
                Seq::empty(),
                out[n as int]->Exports_0,
            )
            &&& 0 <= i < parts.len() && is_section(parts, i) ==> {
                let (id, start, end) = (
                    parts[i]->Ok_0->Section_0,
                    parts[i]->Ok_0->Section_1,
                    parts[i]->Ok_0->Section_2,
                );
                &&& start <= end <= bytes.len()
                &&& sections_before(parts, i) < n
                &&& becomes(bytes, id, start, end, out[sections_before(parts, i) as int])
            }
        }),
{
    assert(parts.take(parts.len() as int) =~= parts);
    lemma_planned_sections(bytes, parts, parts.len() as int);
    let s = planned(bytes, parts)->Ok_0;
    let out = plan_view(bytes, parts)->Ok_0;
    let n = sections_before(parts, parts.len() as int);
    if out.len() == n {
        assert(out =~= s);
    } else {
        assert forall|j: int| 0 <= j < n implies !(#[trigger] out[j] is Exports) by {
            assert(s[j] == out[j]);
        }
        let alias = out[n as int]->Exports_0;
        assert(!has_memory(Seq::<ExportView>::empty()));
    }
}

/// When there is a plan: exactly if every piece parsed, every section lies in the
/// module, and every export section can be read.
pub proof fn lemma_when_there_is_a_plan(bytes: Seq<u8>, parts: Seq<Result<PartView, Seq<char>>>)
    ensures
        plan_view(bytes, parts) is Ok <==> {
            &&& forall|i: int| 0 <= i < parts.len() ==> #[trigger] parts[i] is Ok
            &&& forall|i: int| #[trigger]
                is_section(parts, i) && 0 <= i < parts.len() ==> {
                    let (id, start, end) = (
                        parts[i]->Ok_0->Section_0,
                        parts[i]->Ok_0->Section_1,
                        parts[i]->Ok_0->Section_2,
                    );
                    &&& start <= end <= bytes.len()
                    &&& id == 7 ==> wasm_exports(
                        bytes.subrange(start as int, end as int),
                        start,
                    ) is Ok
                }
        },
{
    assert(parts.take(parts.len() as int) =~= parts);
    if plan_view(bytes, parts) is Ok {
        lemma_planned_sections(bytes, parts, parts.len() as int);
    } else {
        lemma_no_plan(bytes, parts, parts.len() as int);
    }
}

proof fn lemma_no_plan(bytes: Seq<u8>, parts: Seq<Result<PartView, Seq<char>>>, n: int)
    requires
        0 <= n <= parts.len(),
        planned(bytes, parts.take(n)) is Err,
    ensures
        exists|i: int|
            0 <= i < n && (#[trigger] parts[i] is Err || is_section(parts, i) && {
                let (id, start, end) = (
                    parts[i]->Ok_0->Section_0,
                    parts[i]->Ok_0->Section_1,
                    parts[i]->Ok_0->Section_2,
                );
                ||| !(start <= end <= bytes.len())
                ||| id == 7 && wasm_exports(bytes.subrange(start as int, end as int), start) is Err
            }),
    decreases n,
{
    if n > 0 {
        assert(parts.take(n).drop_last() =~= parts.take(n - 1));
        assert(parts.take(n).last() == parts[n - 1]);
        if planned(bytes, parts.take(n - 1)) is Err {
            lemma_no_plan(bytes, parts, n - 1);
        } else {
            assert(parts[n - 1] is Err || is_section(parts, n - 1));
        }
    }
}

/// The first error among pieces is the one before which there is none.
pub proof fn lemma_first_errors(parts: Seq<Result<PartView, Seq<char>>>)
    ensures
        first_error(parts) is None <==> forall|i: int|
            0 <= i < parts.len() ==> #[trigger] parts[i] is Ok,
        first_error(parts) is Some ==> exists|i: int|
            {
                &&& 0 <= i < parts.len()
                &&& #[trigger] parts[i] == Err::<PartView, Seq<char>>(first_error(parts)->0)
                &&& forall|j: int| 0 <= j < i ==> #[trigger] parts[j] is Ok
            },
    decreases parts.len(),
{
    if parts.len() > 0 {
        let rest = parts.skip(1);
        lemma_first_errors(rest);
        if parts[0] is Ok {
            if first_error(rest) is Some {
                let i = choose|i: int|
                    {
                        &&& 0 <= i < rest.len()
                        &&& #[trigger] rest[i] == Err::<PartView, Seq<char>>(first_error(rest)->0)
                        &&& forall|j: int| 0 <= j < i ==> #[trigger] rest[j] is Ok
                    };
                assert(parts[i + 1] == rest[i]);
                assert forall|j: int| 0 <= j < i + 1 implies #[trigger] parts[j] is Ok by {
                    if j > 0 {
                        assert(rest[j - 1] is Ok);
                    }
                }
            } else {
                assert forall|i: int| 0 <= i < parts.len() implies #[trigger] parts[i] is Ok by {
                    if i > 0 {
                        assert(rest[i - 1] is Ok);
                    }
                }
            }
        } else {
            assert(parts[0] == Err::<PartView, Seq<char>>(first_error(parts)->0));
        }
    }
}

/// A custom section is copied over exactly if its name starts with `component-type:`
/// or `target_features`.
pub proof fn lemma_which_customs_are_copied(name: Seq<char>)
    ensures
        forwardable(name) <==> continues(encode_utf8("component-type:"@), encode_utf8(name))
            || continues(encode_utf8("target_features"@), encode_utf8(name)),
{
    lemma_starts_and_ends(encode_utf8(name), encode_utf8("component-type:"@));
    lemma_starts_and_ends(encode_utf8(name), encode_utf8("target_features"@));
}

/// The piece `i` is a custom section that is copied over.
pub open spec fn is_copied(parts: Seq<Result<PartView, Seq<char>>>, i: int) -> bool {
    parts[i] matches Ok(PartView::Custom(name, _)) && forwardable(name)
}

/// How many such sections there are among the first `n` pieces.
pub open spec fn copied_before(parts: Seq<Result<PartView, Seq<char>>>, n: int) -> nat
    decreases n,
{
    if n <= 0 {
        0
    } else {
        copied_before(parts, n - 1) + if is_copied(parts, n - 1) {
            1nat
        } else {
            0
        }
    }
}

/// What is copied over: every such custom section, in order and each once, with its
/// name and its data unchanged; nothing is, exactly if some piece did not parse.
pub proof fn lemma_what_is_copied(parts: Seq<Result<PartView, Seq<char>>>, n: int)
    requires
        0 <= n <= parts.len(),
    ensures
        collected(parts.take(n)) is Ok <==> forall|i: int|
            0 <= i < n ==> (#[trigger] parts[i]) is Ok,
        collected(parts.take(n)) is Ok ==> {
            let s = collected(parts.take(n))->Ok_0;
            &&& s.len() == copied_before(parts, n)
            &&& forall|i: int| #[trigger]
                is_copied(parts, i) && 0 <= i < n ==> copied_before(parts, i) < s.len()
                    && s[copied_before(parts, i) as int] == (
                    parts[i]->Ok_0->Custom_0,
                    parts[i]->Ok_0->Custom_1,
                )
        },
    decreases n,
{
    if n > 0 {
        assert(parts.take(n).drop_last() =~= parts.take(n - 1));
        assert(parts.take(n).last() == parts[n - 1]);
        lemma_what_is_copied(parts, n - 1);
        if collected(parts.take(n)) is Ok {
            let before = collected(parts.take(n - 1))->Ok_0;
            let s = collected(parts.take(n))->Ok_0;
            assert forall|i: int| #[trigger] is_copied(parts, i) && 0 <= i < n implies copied_before(
                parts,
                i,
            ) < s.len() && s[copied_before(parts, i) as int] == (
                parts[i]->Ok_0->Custom_0,
                parts[i]->Ok_0->Custom_1,
            ) by {
                if i < n - 1 {
                    assert(s[copied_before(parts, i) as int] == before[copied_before(
                        parts,
                        i,
                    ) as int]);
                }
            }
        }
    }
}

/// When sections can be written: exactly if each of them is at most as long as its
/// length field can say.
pub proof fn lemma_when_sections_can_be_written(
    bytes: Seq<u8>,
    pieces: Seq<PieceView>,
    forwarded: Seq<(Seq<char>, Seq<u8>)>,
)
    ensures
        module_of(bytes, pieces) is Ok <==> forall|i: int|
            0 <= i < pieces.len() ==> section_view(bytes, #[trigger] pieces[i]).data().len()
                <= 0xffff_ffff,
        module_of(bytes, pieces) is Ok ==> (with_customs(module_of(bytes, pieces), forwarded) is Ok
            <==> forall|i: int|
            0 <= i < forwarded.len() ==> SectionView::Custom(
                (#[trigger] forwarded[i]).0,
                forwarded[i].1,
            ).data().len() <= 0xffff_ffff),
    decreases pieces.len(), forwarded.len(),
{
    if pieces.len() > 0 {
        let init = pieces.drop_last();
        lemma_when_sections_can_be_written(bytes, init, Seq::empty());
        assert(forall|i: int| 0 <= i < init.len() ==> init[i] == pieces[i]);
        assert(pieces[pieces.len() - 1] == pieces.last());
        if forall|i: int|
            0 <= i < pieces.len() ==> section_view(bytes, #[trigger] pieces[i]).data().len()
                <= 0xffff_ffff {
            assert forall|i: int| 0 <= i < init.len() implies section_view(
                bytes,
                #[trigger] init[i],
            ).data().len() <= 0xffff_ffff by {
                assert(init[i] == pieces[i]);
            }
        }
        if module_of(bytes, pieces) is Ok {
            assert forall|i: int| 0 <= i < pieces.len() implies section_view(
                bytes,
                #[trigger] pieces[i],
            ).data().len() <= 0xffff_ffff by {
                if i < init.len() {
                    assert(init[i] == pieces[i]);
                }
            }
        }
    }
    if module_of(bytes, pieces) is Ok && forwarded.len() > 0 {
        lemma_customs_can_be_written(module_of(bytes, pieces), forwarded);
    }
}

proof fn lemma_customs_can_be_written(
    module: Result<Seq<u8>, FixupFailure>,
    forwarded: Seq<(Seq<char>, Seq<u8>)>,
)
    requires
        module is Ok,
    ensures
        with_customs(module, forwarded) is Ok <==> forall|i: int|
            0 <= i < forwarded.len() ==> SectionView::Custom(
                (#[trigger] forwarded[i]).0,
                forwarded[i].1,
            ).data().len() <= 0xffff_ffff,
    decreases forwarded.len(),
{
    if forwarded.len() > 0 {
        let init = forwarded.drop_last();
        lemma_customs_can_be_written(module, init);
        let last = forwarded.len() - 1;
        assert(forwarded[last] == forwarded.last());
        if with_customs(module, forwarded) is Ok {
            assert forall|i: int| 0 <= i < forwarded.len() implies SectionView::Custom(
                (#[trigger] forwarded[i]).0,
                forwarded[i].1,
            ).data().len() <= 0xffff_ffff by {
                if i < init.len() {
                    assert(init[i] == forwarded[i]);
                }
            }
        }
        if forall|i: int|
            0 <= i < forwarded.len() ==> SectionView::Custom(
                (#[trigger] forwarded[i]).0,
                forwarded[i].1,
            ).data().len() <= 0xffff_ffff {
            assert forall|i: int| 0 <= i < init.len() implies SectionView::Custom(
                (#[trigger] init[i]).0,
                init[i].1,
            ).data().len() <= 0xffff_ffff by {
                assert(init[i] == forwarded[i]);
            }
        }
    }
}

/// What a fixed-up module is made of: first a section for each section of the linked
/// module, in order, the export sections extended and all others with their contents
/// unchanged, and an export section where there was none; then the custom sections
/// that are copied over, in order. There is nothing else in it.
pub proof fn lemma_what_a_result_is_made_of(
    bytes: Seq<u8>,
    forwarded: Seq<(Seq<char>, Seq<u8>)>,
    out: Seq<u8>,
)
    requires
        rewritten(bytes, forwarded) == Ok::<Seq<u8>, FixupFailure>(out),
    ensures
        exists|s: Seq<SectionView>|
            {
                let parts = wasm_parts(bytes);
                let n = sections_before(parts, parts.len() as int);
                let k = s.len() - forwarded.len();
                &&& out == #[trigger] framed(s)
                &&& k == n || k == n + 1
                &&& forall|i: int|
                    0 <= i < forwarded.len() ==> s[k + i] == SectionView::Custom(
                        (#[trigger] forwarded[i]).0,
                        forwarded[i].1,
                    )
                &&& forall|i: int|
                    0 <= i < parts.len() && #[trigger] is_section(parts, i) ==> {
                        let (id, start, end) = (
                            parts[i]->Ok_0->Section_0,
                            parts[i]->Ok_0->Section_1,
                            parts[i]->Ok_0->Section_2,
                        );
                        &&& sections_before(parts, i) < k
                        &&& id != 7 ==> s[sections_before(parts, i) as int] == SectionView::Plain(
                            id,
                            bytes.subrange(start as int, end as int),
                        )
                        &&& id == 7 ==> exists|e: Seq<ExportView>|
                            #![trigger exports_data(e)]
                            extends(
                                wasm_exports(
                                    bytes.subrange(start as int, end as int),
                                    start,
                                )->Ok_0,
                                e,
                            ) && s[sections_before(parts, i) as int] == SectionView::Plain(
                                7,
                                exports_data(e),
                            )
                    }
                &&& k == n + 1 ==> exists|e: Seq<ExportView>|
                    #![trigger exports_data(e)]
                    extends(Seq::empty(), e) && s[n as int] == SectionView::Plain(
                        7,
                        exports_data(e),
                    )
            },
{
    let parts = wasm_parts(bytes);
    let pieces = plan_view(bytes, parts)->Ok_0;
    let module = module_of(bytes, pieces);
    assert(merged(bytes, parts, forwarded) == Ok::<Seq<u8>, FixupFailure>(out));
    lemma_well_planned(bytes, parts);
    lemma_customs_of_ok(module, forwarded);
    lemma_module_framed(bytes, pieces);
    let views = section_views(bytes, pieces);
    lemma_customs_framed(views, forwarded);
    let s = views + custom_views(forwarded);
    let n = sections_before(parts, parts.len() as int);
    let k = s.len() - forwarded.len();
    assert(k == pieces.len());
    lemma_what_a_plan_keeps(bytes, parts, 0);
    assert forall|i: int| 0 <= i < parts.len() && #[trigger] is_section(parts, i) implies ({
        let (id, start, end) = (
            parts[i]->Ok_0->Section_0,
            parts[i]->Ok_0->Section_1,
            parts[i]->Ok_0->Section_2,
        );
        &&& sections_before(parts, i) < k
        &&& id != 7 ==> s[sections_before(parts, i) as int] == SectionView::Plain(
            id,
            bytes.subrange(start as int, end as int),
        )
        &&& id == 7 ==> exists|e: Seq<ExportView>|
            #![trigger exports_data(e)]
            extends(
                wasm_exports(bytes.subrange(start as int, end as int), start)->Ok_0,
                e,
            ) && s[sections_before(parts, i) as int] == SectionView::Plain(7, exports_data(e))
    }) by {
        lemma_what_a_plan_keeps(bytes, parts, i);
        let p = pieces[sections_before(parts, i) as int];
        assert(s[sections_before(parts, i) as int] == section_view(bytes, p));
        if parts[i]->Ok_0->Section_0 == 7 {
            assert(s[sections_before(parts, i) as int] == SectionView::Plain(
                7,
                exports_data(p->Exports_0),
            ));
        }
    }
    assert forall|i: int| 0 <= i < forwarded.len() implies s[k + i] == SectionView::Custom(
        (#[trigger] forwarded[i]).0,
        forwarded[i].1,
    ) by {}
    if k == n + 1 {
        let p = pieces[n as int];
        assert(s[n as int] == section_view(bytes, p));
        assert(s[n as int] == SectionView::Plain(7, exports_data(p->Exports_0)));
    }
    assert(out == framed(s));
}

/// When a module is fixed up: exactly if there is a plan for it, its sections can be
/// written, and the result parses.
pub proof fn lemma_when_a_module_is_fixed_up(
    bytes: Seq<u8>,
    forwarded: Seq<(Seq<char>, Seq<u8>)>,
)
    ensures
        rewritten(bytes, forwarded) is Ok <==> {
            let plan = plan_view(bytes, wasm_parts(bytes));
            &&& plan is Ok
            &&& with_customs(module_of(bytes, plan->Ok_0), forwarded) is Ok
            &&& forall|i: int|
                0 <= i < wasm_parts(
                    with_customs(module_of(bytes, plan->Ok_0), forwarded)->Ok_0,
                ).len() ==> #[trigger] wasm_parts(
                    with_customs(module_of(bytes, plan->Ok_0), forwarded)->Ok_0,
                )[i] is Ok
        },
        rewritten(bytes, forwarded) is Ok ==> rewritten(bytes, forwarded)->Ok_0 == with_customs(
            module_of(bytes, plan_view(bytes, wasm_parts(bytes))->Ok_0),
            forwarded,
        )->Ok_0,
{
    let plan = plan_view(bytes, wasm_parts(bytes));
    if plan is Ok && with_customs(module_of(bytes, plan->Ok_0), forwarded) is Ok {
        lemma_first_errors(
            wasm_parts(with_customs(module_of(bytes, plan->Ok_0), forwarded)->Ok_0),
        );
    }
}

/// A fixup copies over what the unlinked module holds, and fails where that is
/// nothing.
pub proof fn lemma_what_a_fixup_is(pre: Seq<u8>, post: Seq<u8>)
    ensures
        fixed_up(pre, post) is Ok <==> collected(wasm_parts(pre)) is Ok && collected(
            wasm_parts(pre),
        )->Ok_0.len() > 0 && rewritten(post, collected(wasm_parts(pre))->Ok_0) is Ok,
        fixed_up(pre, post) is Ok ==> fixed_up(pre, post)->Ok_0.1 == collected(
            wasm_parts(pre),
        )->Ok_0 && rewritten(post, fixed_up(pre, post)->Ok_0.1) == Ok::<Seq<u8>, FixupFailure>(
            fixed_up(pre, post)->Ok_0.0,
        ),
        collected(wasm_parts(pre)) is Ok && collected(wasm_parts(pre))->Ok_0.len() == 0 ==> fixed_up(
            pre,
            post,
        )->Err_0 is NoSections,
{
}

/// A failure of the parser's is told in the parser's own words, one of the result
/// says that it is the result's, and a module with nothing to copy over is named.
pub proof fn lemma_failures_are_told(words: Seq<char>, path: Seq<char>, other: Seq<char>)
    ensures
        failure_text(FixupFailure::Parse(words), path) == words,
        failure_text(FixupFailure::Validate(words), path) == "validate merged wasm: "@ + words,
        failure_text(FixupFailure::NoSections, path) == failure_text(
            FixupFailure::NoSections,
            other,
        ) ==> path == other,
{
    let head = "no forwardable custom sections found in "@;
    let tail = "; expected at least one `component-type:*` section emitted by wit-bindgen"@;
    let a = failure_text(FixupFailure::NoSections, path);
    let b = failure_text(FixupFailure::NoSections, other);
    if a == b {
        assert(a.len() == head.len() + path.len() + tail.len());
        assert(b.len() == head.len() + other.len() + tail.len());
        assert(a.subrange(head.len() as int, (head.len() + path.len()) as int) =~= path);
        assert(b.subrange(head.len() as int, (head.len() + other.len()) as int) =~= other);
    }
}

} // verus!
