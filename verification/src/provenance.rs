//! Source identity carried unchanged through processing stages.

use vstd::prelude::*;

use crate::model::{LineLayout, Overflow, ParagraphRegion, Rect, SourceRef};

verus! {

/// A value whose source identity is moved unchanged through processing stages.
#[derive(Clone, Debug, PartialEq, Eq)]
pub struct Sourced<T> {
    source: SourceRef,
    value: T,
}

impl<T> View for Sourced<T> {
    /// The source identity and the value it is attached to.
    type V = (SourceRef, T);

    closed spec fn view(&self) -> (SourceRef, T) {
        (self.source, self.value)
    }
}

impl<T> Sourced<T> {
    pub fn new(source: SourceRef, value: T) -> (r: Self)
        ensures
            r@ == (source, value),
    {
        Sourced { source, value }
    }

    pub fn source(&self) -> (r: &SourceRef)
        ensures
            *r == self@.0,
    {
        &self.source
    }

    pub fn value(&self) -> (r: &T)
        ensures
            *r == self@.1,
    {
        &self.value
    }

    /// Mutable access to the value; the source identity cannot be changed.
    pub fn value_mut(&mut self) -> (r: &mut T)
        ensures
            *r == old(self)@.1,
            final(self)@ == (old(self)@.0, *final(r)),
    {
        &mut self.value
    }

    pub fn into_parts(self) -> (r: (SourceRef, T))
        ensures
            r == self@,
    {
        (self.source, self.value)
    }

    /// Transforms the value and keeps the source identity.
    pub fn map<U, F: FnOnce(T) -> U>(self, transform: F) -> (r: Sourced<U>)
        requires
            call_requires(transform, (self@.1,)),
        ensures
            maps_to(self, transform, r),
    {
        Sourced { source: self.source, value: transform(self.value) }
    }

    /// Transforms the value with a step that may fail; a success keeps the
    /// source identity and a failure is passed through.
    pub fn try_map<U, E>(self, transform: impl FnOnce(T) -> Result<U, E>) -> (r: Result<
        Sourced<U>,
        E,
    >)
        requires
            call_requires(transform, (self@.1,)),
        ensures
            match r {
                Ok(s) => s@.0 == self@.0 && call_ensures(transform, (self@.1,), Ok(s@.1)),
                Err(e) => call_ensures(transform, (self@.1,), Err(e)),
            },
    {
        let source = self.source;
        match transform(self.value) {
            Ok(value) => Ok(Sourced { source, value }),
            Err(e) => Err(e),
        }
    }
}

/// `r` is what mapping `s` through `f` may give: the same source, and a value
/// that `f` may return for the value of `s`.
pub open spec fn maps_to<T, U, F: FnOnce(T) -> U>(s: Sourced<T>, f: F, r: Sourced<U>) -> bool {
    &&& r@.0 == s@.0
    &&& call_ensures(f, (s@.1,), r@.1)
}

/// Mapping through a transformation that returns its argument gives back the
/// same source and value.
pub proof fn lemma_map_identity<T, F: FnOnce(T) -> T>(s: Sourced<T>, f: F, r: Sourced<T>)
    requires
        forall|x: T, y: T| call_ensures(f, (x,), y) ==> y == x,
        maps_to(s, f, r),
    ensures
        r@ == s@,
{
}

/// Mapping twice keeps the first source and gives a value that the two
/// transformations, one after the other, may give.
pub proof fn lemma_map_composition<T, U, V, F: FnOnce(T) -> U, G: FnOnce(U) -> V>(
    s: Sourced<T>,
    f: F,
    r: Sourced<U>,
    g: G,
    q: Sourced<V>,
)
    requires
        maps_to(s, f, r),
        maps_to(r, g, q),
    ensures
        q@.0 == s@.0,
        exists|mid: U| call_ensures(f, (s@.1,), mid) && call_ensures(g, (mid,), q@.1),
{
    assert(call_ensures(f, (s@.1,), r@.1) && call_ensures(g, (r@.1,), q@.1));
}

/// One page fragment of a paragraph, before segment indexes are assigned.
#[derive(Clone, Debug, PartialEq, Eq)]
pub struct ParagraphSegmentDraft {
    pub frame_bbox_pt: Rect,
    pub content_bbox_pt: Option<Rect>,
    pub lines: Vec<LineLayout>,
    pub overflow: Option<Overflow>,
}

/// A paragraph after pagination: its logical text and every page fragment.
#[derive(Clone, Debug, PartialEq, Eq)]
pub struct PaginatedParagraph {
    pub text: String,
    pub segments: Vec<ParagraphSegmentDraft>,
}

/// A paginated paragraph had no segment.
#[derive(Clone, Copy, Debug, PartialEq, Eq, Structural)]
pub struct EmptyParagraphSegments;

impl EmptyParagraphSegments {
    pub fn message(&self) -> (r: &'static str)
        ensures
            r@ == "a paginated paragraph must contain at least one segment"@,
    {
        "a paginated paragraph must contain at least one segment"
    }
}

/// The region made of the draft at `segment` of `count`.
pub open spec fn segment_region(
    source: SourceRef,
    text: Seq<char>,
    segment: int,
    count: int,
    draft: ParagraphSegmentDraft,
    region: ParagraphRegion,
) -> bool {
    &&& region.source == source
    &&& region.segment == segment
    &&& region.segment_count == count
    &&& region.text@ == text
    &&& region.frame_bbox_pt == draft.frame_bbox_pt
    &&& region.content_bbox_pt == draft.content_bbox_pt
    &&& region.lines@ == draft.lines@
    &&& region.overflow == draft.overflow
}

/// Assigns zero-based segment indexes only after pagination has produced every
/// fragment. Every resulting region receives the exact same source identity.
pub fn finish_paginated_paragraph(paragraph: Sourced<PaginatedParagraph>) -> (r: Result<
    Vec<ParagraphRegion>,
    EmptyParagraphSegments,
>)
    ensures
        match r {
            Err(_) => paragraph@.1.segments@.len() == 0,
            Ok(regions) => {
                &&& paragraph@.1.segments@.len() > 0
                &&& regions@.len() == paragraph@.1.segments@.len()
                &&& forall|i: int|
                    0 <= i < regions@.len() ==> segment_region(
                        paragraph@.0,
                        paragraph@.1.text@,
                        i,
                        regions@.len() as int,
                        paragraph@.1.segments@[i],
                        #[trigger] regions@[i],
                    )
            },
        },
{
    let ghost whole = paragraph@;
    let (source, paragraph) = paragraph.into_parts();
    let PaginatedParagraph { text, mut segments } = paragraph;
    if segments.len() == 0 {
        return Err(EmptyParagraphSegments);
    }
    let segment_count = segments.len();
    let ghost drafts = segments@;
    let mut regions: Vec<ParagraphRegion> = Vec::new();
    while segments.len() > 0
        invariant
            regions@.len() + segments@.len() == segment_count,
            segments@ == drafts.skip(regions@.len() as int),
            drafts.len() == segment_count,
            drafts == whole.1.segments@,
            source == whole.0,
            text@ == whole.1.text@,
            forall|i: int|
                0 <= i < regions@.len() ==> segment_region(
                    source,
                    text@,
                    i,
                    segment_count as int,
                    drafts[i],
                    #[trigger] regions@[i],
                ),
        decreases segments@.len(),
    {
        let ghost done: int = regions@.len() as int;
        let draft = segments.remove(0);
        assert(draft == drafts[done]);
        assert(segments@ =~= drafts.skip(done + 1int));
        let ParagraphSegmentDraft { frame_bbox_pt, content_bbox_pt, lines, overflow } = draft;
        regions.push(
            ParagraphRegion {
                source: source.duplicate(),
                segment: regions.len(),
                segment_count,
                text: text.clone(),
                frame_bbox_pt,
                content_bbox_pt,
                lines,
                overflow,
            },
        );
    }
    Ok(regions)
}

} // verus!
