//! A module as a row of framed sections: its bytes, and the pieces that they
//! parse into.

use crate::postlink::encode::{custom_data, leb, module_header, section_bytes};
use crate::postlink::parse::PartView;
use vstd::prelude::*;

verus! {

/// A section of a module.
pub enum SectionView {
    /// A custom section: its name and its data.
    Custom(Seq<char>, Seq<u8>),
    /// Any other section: its identifier and its contents.
    Plain(u8, Seq<u8>),
}

impl SectionView {
    /// The section's identifier.
    pub open spec fn id(self) -> u8 {
        match self {
            SectionView::Custom(_, _) => 0,
            SectionView::Plain(id, _) => id,
        }
    }

    /// The section's contents.
    pub open spec fn data(self) -> Seq<u8> {
        match self {
            SectionView::Custom(name, data) => custom_data(name, data),
            SectionView::Plain(_, data) => data,
        }
    }

    /// The section is one that modules have, and its length can be encoded.
    pub open spec fn valid(self) -> bool {
        &&& self is Plain ==> 1 <= self.id() <= 13
        &&& self.data().len() <= u32::MAX
    }
}

/// The bytes of a module of these sections.
pub open spec fn framed(sections: Seq<SectionView>) -> Seq<u8>
    decreases sections.len(),
{
    if sections.len() == 0 {
        module_header()
    } else {
        let s = sections.last();
        framed(sections.drop_last()) + section_bytes(s.id(), s.data())
    }
}

/// Where the contents of the section `s` start, behind a module of the sections
/// `before`.
pub open spec fn contents_start(before: Seq<SectionView>, s: SectionView) -> nat {
    framed(before).len() + 1 + leb(s.data().len()).len()
}

/// The piece that the section `s` parses into, behind a module of the sections
/// `before`.
pub open spec fn framed_part(before: Seq<SectionView>, s: SectionView) -> PartView {
    match s {
        SectionView::Custom(name, data) => PartView::Custom(name, data),
        SectionView::Plain(id, data) => PartView::Section(
            id,
            contents_start(before, s) as usize,
            (contents_start(before, s) + data.len()) as usize,
        ),
    }
}

/// The pieces that a module of these sections parses into, up to its end.
pub open spec fn framed_parts(sections: Seq<SectionView>) -> Seq<Result<PartView, Seq<char>>>
    decreases sections.len(),
{
    if sections.len() == 0 {
        seq![Ok(PartView::Version(true))]
    } else {
        let before = sections.drop_last();
        framed_parts(before).push(Ok(framed_part(before, sections.last())))
    }
}

/// Every section is one that modules have, and its length can be encoded.
pub open spec fn all_valid(sections: Seq<SectionView>) -> bool {
    forall|i: int| 0 <= i < sections.len() ==> (#[trigger] sections[i]).valid()
}

/// No piece is an error.
pub open spec fn no_errors(parts: Seq<Result<PartView, Seq<char>>>) -> bool {
    forall|i: int| 0 <= i < parts.len() ==> #[trigger] parts[i] is Ok
}

/// The pieces that are sections, headers or ends.
pub open spec fn relevant(parts: Seq<Result<PartView, Seq<char>>>) -> Seq<
    Result<PartView, Seq<char>>,
>
    decreases parts.len(),
{
    if parts.len() == 0 {
        parts
    } else if parts.last() == Ok::<PartView, Seq<char>>(PartView::Other) {
        relevant(parts.drop_last())
    } else {
        relevant(parts.drop_last()).push(parts.last())
    }
}

} // verus!
