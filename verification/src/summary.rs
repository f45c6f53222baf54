//! Compact human-readable summaries of recorded documents: what was recorded,
//! what was measured, and a reminder that none of it verifies the layout.

use vstd::prelude::*;

use crate::model::{
    pt_is_greater_than_zero, CoverageStatus, DocumentLayout, MeasurementCoverage, Overflow,
    PageLayout, Region,
};
use crate::text::{decimal, push_decimal};

verus! {

/// Overflow in any direction, clipping, or any excess past the content area.
pub open spec fn overflow_flagged(o: Overflow) -> bool {
    o.horizontal || o.vertical || o.clipped || pt_is_greater_than_zero(o.past_content_area_pt)
}

fn overflow_flagged_exec(o: Overflow) -> (r: bool)
    ensures
        r == overflow_flagged(o),
{
    o.horizontal || o.vertical || o.clipped || o.past_content_area_pt.is_greater_than_zero()
}

/// What a format-1 summary counts.
pub struct Tally {
    pub regions: nat,
    pub paragraphs: nat,
    pub measured: nat,
    pub flagged: nat,
}

pub open spec fn tally_region(t: Tally, r: Region) -> Tally {
    match r {
        Region::Paragraph(p) => Tally {
            regions: t.regions + 1,
            paragraphs: t.paragraphs + 1,
            measured: t.measured + if p.overflow is Some {
                1nat
            } else {
                0nat
            },
            flagged: t.flagged + if p.overflow matches Some(o) && overflow_flagged(o) {
                1nat
            } else {
                0nat
            },
        },
        Region::Image(_) => Tally { regions: t.regions + 1, ..t },
    }
}

pub open spec fn tally_regions(t: Tally, regions: Seq<Region>, k: nat) -> Tally
    decreases k,
{
    if k == 0 {
        t
    } else {
        tally_region(tally_regions(t, regions, (k - 1) as nat), regions[k - 1])
    }
}

pub open spec fn tally_pages(pages: Seq<PageLayout>, k: nat) -> Tally
    decreases k,
{
    if k == 0 {
        Tally { regions: 0, paragraphs: 0, measured: 0, flagged: 0 }
    } else {
        tally_regions(tally_pages(pages, (k - 1) as nat), pages[k - 1].regions@, pages[k - 1].regions@.len())
    }
}

/// The regions of the first `k` pages.
pub open spec fn region_total(pages: Seq<PageLayout>, k: nat) -> nat
    decreases k,
{
    if k == 0 {
        0
    } else {
        region_total(pages, (k - 1) as nat) + pages[k - 1].regions@.len()
    }
}

proof fn lemma_tally_regions(t: Tally, regions: Seq<Region>, k: nat)
    requires
        k <= regions.len(),
        t.measured <= t.paragraphs <= t.regions,
        t.flagged <= t.measured,
    ensures
        tally_regions(t, regions, k).regions == t.regions + k,
        tally_regions(t, regions, k).measured <= tally_regions(t, regions, k).paragraphs
            <= tally_regions(t, regions, k).regions,
        tally_regions(t, regions, k).flagged <= tally_regions(t, regions, k).measured,
    decreases k,
{
    if k > 0 {
        lemma_tally_regions(t, regions, (k - 1) as nat);
    }
}

proof fn lemma_tally_pages(pages: Seq<PageLayout>, k: nat)
    requires
        k <= pages.len(),
    ensures
        tally_pages(pages, k).regions == region_total(pages, k),
        tally_pages(pages, k).measured <= tally_pages(pages, k).paragraphs <= tally_pages(pages, k).regions,
        tally_pages(pages, k).flagged <= tally_pages(pages, k).measured,
    decreases k,
{
    if k > 0 {
        lemma_tally_pages(pages, (k - 1) as nat);
        lemma_tally_regions(
            tally_pages(pages, (k - 1) as nat),
            pages[k - 1].regions@,
            pages[k - 1].regions@.len(),
        );
    }
}

proof fn lemma_region_total_grows(pages: Seq<PageLayout>, j: nat, k: nat)
    requires
        j <= k <= pages.len(),
    ensures
        region_total(pages, j) <= region_total(pages, k),
    decreases k - j,
{
    if j < k {
        lemma_region_total_grows(pages, j, (k - 1) as nat);
    }
}

/// The label of a coverage status.
pub open spec fn coverage_label(s: CoverageStatus) -> Seq<char> {
    match s {
        CoverageStatus::Unknown => "unknown"@,
        CoverageStatus::Absent => "absent"@,
        CoverageStatus::Partial => "partial"@,
        CoverageStatus::Complete => "complete"@,
    }
}

/// Declared coverage, unknown throughout when none is declared.
pub open spec fn coverage_or_unknown(c: Option<MeasurementCoverage>) -> MeasurementCoverage {
    match c {
        Some(c) => c,
        None => MeasurementCoverage {
            pagination: CoverageStatus::Unknown,
            text_geometry: CoverageStatus::Unknown,
            resolved_typography: CoverageStatus::Unknown,
            table_geometry: CoverageStatus::Unknown,
            drawing_appearance: CoverageStatus::Unknown,
            composition_hierarchy: CoverageStatus::Unknown,
            overflow: CoverageStatus::Unknown,
        },
    }
}

/// `  name: label`, then a newline.
pub open spec fn coverage_line(name: Seq<char>, s: CoverageStatus) -> Seq<char> {
    "  "@ + name + ": "@ + coverage_label(s) + "\n"@
}

/// The coverage block: a caveat, then one line per dimension.
pub open spec fn coverage_text(c: MeasurementCoverage) -> Seq<char> {
    "measurement coverage (producer-declared, not independently verified):\n"@ + coverage_line(
        "pagination"@,
        c.pagination,
    ) + coverage_line("text_geometry"@, c.text_geometry) + coverage_line(
        "resolved_typography"@,
        c.resolved_typography,
    ) + coverage_line("table_geometry"@, c.table_geometry) + coverage_line(
        "drawing_appearance"@,
        c.drawing_appearance,
    ) + coverage_line("composition_hierarchy"@, c.composition_hierarchy) + coverage_line(
        "overflow"@,
        c.overflow,
    )
}

pub open spec fn closing_text() -> Seq<char> {
    "Layout completeness and design quality: not verified; zero recorded findings is not a pass.\n"@
}

/// The format-1 summary.
pub open spec fn summary_text(d: DocumentLayout) -> Seq<char> {
    let t = tally_pages(d.pages@, d.pages@.len());
    "format: "@ + d.format@ + " "@ + d.version@ + "\nsource: "@ + d.source.path@ + "\nrecorded pages: "@
        + decimal(d.pages@.len()) + "\nrecorded regions: "@ + decimal(t.regions)
        + "\nrecorded paragraph segments: "@ + decimal(t.paragraphs)
        + "\nparagraph segments with overflow measurements: "@ + decimal(t.measured)
        + "\nparagraph segments without overflow measurements: "@ + decimal(
        (t.paragraphs - t.measured) as nat,
    ) + "\nrecorded paragraph segments with overflow or clipping: "@ + decimal(t.flagged) + "\n"@
        + coverage_text(coverage_or_unknown(d.coverage)) + (if t.regions == 0 {
        (if d.pages@.len() == 0 {
            "No page structure or content regions recorded.\n"@
        } else {
            "Page structure present. Content geometry absent from region records.\n"@
        }) + "Layout quality and overflow cannot be assessed.\n"@
    } else {
        Seq::empty()
    }) + closing_text()
}

fn coverage_label_str(s: CoverageStatus) -> (r: &'static str)
    ensures
        r@ == coverage_label(s),
{
    match s {
        CoverageStatus::Unknown => "unknown",
        CoverageStatus::Absent => "absent",
        CoverageStatus::Partial => "partial",
        CoverageStatus::Complete => "complete",
    }
}

pub(crate) fn push_coverage(out: &mut String, c: &Option<MeasurementCoverage>)
    ensures
        final(out)@ == old(out)@ + coverage_text(coverage_or_unknown(*c)),
{
    let cov = match c {
        Some(c) => MeasurementCoverage {
            pagination: c.pagination,
            text_geometry: c.text_geometry,
            resolved_typography: c.resolved_typography,
            table_geometry: c.table_geometry,
            drawing_appearance: c.drawing_appearance,
            composition_hierarchy: c.composition_hierarchy,
            overflow: c.overflow,
        },
        None => MeasurementCoverage {
            pagination: CoverageStatus::Unknown,
            text_geometry: CoverageStatus::Unknown,
            resolved_typography: CoverageStatus::Unknown,
            table_geometry: CoverageStatus::Unknown,
            drawing_appearance: CoverageStatus::Unknown,
            composition_hierarchy: CoverageStatus::Unknown,
            overflow: CoverageStatus::Unknown,
        },
    };
    assert(cov == coverage_or_unknown(*c));
    let ghost o0 = out@;
    out.append("measurement coverage (producer-declared, not independently verified):\n");
    let ghost h = "measurement coverage (producer-declared, not independently verified):\n"@;
    push_coverage_line(out, "pagination", cov.pagination);
    let ghost l1 = coverage_line("pagination"@, cov.pagination);
    assert(out@ =~= o0 + (h + l1));
    push_coverage_line(out, "text_geometry", cov.text_geometry);
    let ghost l2 = coverage_line("text_geometry"@, cov.text_geometry);
    proof { vstd::seq_lib::lemma_concat_associative(o0, h + l1, l2); }
    push_coverage_line(out, "resolved_typography", cov.resolved_typography);
    let ghost l3 = coverage_line("resolved_typography"@, cov.resolved_typography);
    proof { vstd::seq_lib::lemma_concat_associative(o0, h + l1 + l2, l3); }
    push_coverage_line(out, "table_geometry", cov.table_geometry);
    let ghost l4 = coverage_line("table_geometry"@, cov.table_geometry);
    proof { vstd::seq_lib::lemma_concat_associative(o0, h + l1 + l2 + l3, l4); }
    push_coverage_line(out, "drawing_appearance", cov.drawing_appearance);
    let ghost l5 = coverage_line("drawing_appearance"@, cov.drawing_appearance);
    proof { vstd::seq_lib::lemma_concat_associative(o0, h + l1 + l2 + l3 + l4, l5); }
    push_coverage_line(out, "composition_hierarchy", cov.composition_hierarchy);
    let ghost l6 = coverage_line("composition_hierarchy"@, cov.composition_hierarchy);
    proof { vstd::seq_lib::lemma_concat_associative(o0, h + l1 + l2 + l3 + l4 + l5, l6); }
    push_coverage_line(out, "overflow", cov.overflow);
    let ghost l7 = coverage_line("overflow"@, cov.overflow);
    proof { vstd::seq_lib::lemma_concat_associative(o0, h + l1 + l2 + l3 + l4 + l5 + l6, l7); }
}

fn push_coverage_line(out: &mut String, name: &str, s: CoverageStatus)
    ensures
        final(out)@ == old(out)@ + coverage_line(name@, s),
{
    out.append("  ");
    out.append(name);
    out.append(": ");
    out.append(coverage_label_str(s));
    out.append("\n");
    assert(out@ =~= old(out)@ + coverage_line(name@, s));
}

struct Counters {
    regions: u64,
    paragraphs: u64,
    measured: u64,
    flagged: u64,
}

spec fn counted(c: Counters) -> Tally {
    Tally {
        regions: c.regions as nat,
        paragraphs: c.paragraphs as nat,
        measured: c.measured as nat,
        flagged: c.flagged as nat,
    }
}

fn count_pages(pages: &Vec<PageLayout>) -> (c: Counters)
    requires
        region_total(pages@, pages@.len()) <= u64::MAX,
    ensures
        counted(c) == tally_pages(pages@, pages@.len()),
{
    let mut c = Counters { regions: 0, paragraphs: 0, measured: 0, flagged: 0 };
    let mut p: usize = 0;
    while p < pages.len()
        invariant
            p <= pages.len(),
            region_total(pages@, pages@.len()) <= u64::MAX,
            counted(c) == tally_pages(pages@, p as nat),
        decreases pages.len() - p,
    {
        let ghost start = counted(c);
        let regions = &pages[p].regions;
        proof {
            lemma_tally_pages(pages@, p as nat);
            lemma_region_total_grows(pages@, (p + 1) as nat, pages@.len());
        }
        let mut q: usize = 0;
        while q < regions.len()
            invariant
                p < pages.len(),
                regions@ == pages@[p as int].regions@,
                q <= regions.len(),
                start == tally_pages(pages@, p as nat),
                start.regions == region_total(pages@, p as nat),
                start.measured <= start.paragraphs <= start.regions,
                start.flagged <= start.measured,
                region_total(pages@, (p + 1) as nat) <= u64::MAX,
                counted(c) == tally_regions(start, regions@, q as nat),
            decreases regions.len() - q,
        {
            proof {
                lemma_tally_regions(start, regions@, q as nat);
            }
            c.regions = c.regions + 1;
            match &regions[q] {
                Region::Paragraph(paragraph) => {
                    c.paragraphs = c.paragraphs + 1;
                    match paragraph.overflow {
                        Some(o) => {
                            c.measured = c.measured + 1;
                            if overflow_flagged_exec(o) {
                                c.flagged = c.flagged + 1;
                            }
                        },
                        None => {},
                    }
                },
                Region::Image(_) => {},
            }
            q += 1;
        }
        p += 1;
    }
    c
}

/// A compact summary of a format-1 document: what was recorded, what was
/// measured, the declared coverage, and that none of it verifies the layout.
pub fn summary(document: &DocumentLayout) -> (r: String)
    requires
        region_total(document.pages@, document.pages@.len()) <= u64::MAX,
    ensures
        r@ == summary_text(*document),
{
    let c = count_pages(&document.pages);
    proof {
        lemma_tally_pages(document.pages@, document.pages@.len());
    }
    let mut out = String::from_str("format: ");
    out.append(document.format.as_str());
    out.append(" ");
    out.append(document.version.as_str());
    out.append("\nsource: ");
    out.append(document.source.path.as_str());
    out.append("\nrecorded pages: ");
    push_decimal(&mut out, document.pages.len() as u64);
    out.append("\nrecorded regions: ");
    push_decimal(&mut out, c.regions);
    out.append("\nrecorded paragraph segments: ");
    push_decimal(&mut out, c.paragraphs);
    out.append("\nparagraph segments with overflow measurements: ");
    push_decimal(&mut out, c.measured);
    out.append("\nparagraph segments without overflow measurements: ");
    push_decimal(&mut out, c.paragraphs - c.measured);
    out.append("\nrecorded paragraph segments with overflow or clipping: ");
    push_decimal(&mut out, c.flagged);
    out.append("\n");
    let ghost head = out@;
    push_coverage(&mut out, &document.coverage);
    let ghost with_coverage = out@;
    if c.regions == 0 {
        if document.pages.len() == 0 {
            out.append("No page structure or content regions recorded.\n");
        } else {
            out.append("Page structure present. Content geometry absent from region records.\n");
        }
        out.append("Layout quality and overflow cannot be assessed.\n");
    } else {
        assert(out@ + Seq::<char>::empty() =~= out@);
    }
    out.append("Layout completeness and design quality: not verified; zero recorded findings is not a pass.\n");
    assert(out@ =~= summary_text(*document));
    out
}

} // verus!
verus! {

/// A transform equal to the identity as `f32` compares: ones on the diagonal,
/// zeros (of either sign) elsewhere.
pub open spec fn is_identity_transform(m: crate::v2::model::AffineTransform) -> bool {
    &&& m.m11.bits == crate::v2::model::ONE_BITS
    &&& m.m22.bits == crate::v2::model::ONE_BITS
    &&& crate::model::pt_is_zero(m.m12)
    &&& crate::model::pt_is_zero(m.m21)
    &&& crate::model::pt_is_zero(m.dx)
    &&& crate::model::pt_is_zero(m.dy)
}

fn is_identity_transform_exec(m: crate::v2::model::AffineTransform) -> (r: bool)
    ensures
        r == is_identity_transform(m),
{
    m.m11.bits == crate::v2::model::ONE_BITS && m.m22.bits == crate::v2::model::ONE_BITS
        && m.m12.bits & 0x7FFF_FFFFu32 == 0 && m.m21.bits & 0x7FFF_FFFFu32 == 0 && m.dx.bits
        & 0x7FFF_FFFFu32 == 0 && m.dy.bits & 0x7FFF_FFFFu32 == 0
}

/// What a format-2 summary counts.
pub struct TallyV2 {
    pub regions: nat,
    pub stories: nat,
    pub paragraphs: nat,
    pub tables: nat,
    pub rows: nat,
    pub cells: nat,
    pub images: nat,
    pub shapes: nat,
    pub runs: nat,
    pub transformed: nat,
    pub clipped: nat,
    pub measured: nat,
    pub flagged: nat,
}

/// The overflow a region records, for the kinds that record one.
pub open spec fn region_overflow(r: crate::v2::model::Region) -> Option<Overflow> {
    match r {
        crate::v2::model::Region::Paragraph(v) => v.overflow,
        crate::v2::model::Region::Table(v) => v.overflow,
        crate::v2::model::Region::TableRow(v) => v.overflow,
        crate::v2::model::Region::TableCell(v) => v.overflow,
        _ => None,
    }
}

pub open spec fn one_if(b: bool) -> nat {
    if b {
        1
    } else {
        0
    }
}

pub open spec fn tally_region_v2(t: TallyV2, r: crate::v2::model::Region) -> TallyV2 {
    let geometry = crate::v2::model::common_of(r).geometry;
    TallyV2 {
        regions: t.regions + 1,
        stories: t.stories + one_if(r is Story),
        paragraphs: t.paragraphs + one_if(r is Paragraph),
        tables: t.tables + one_if(r is Table),
        rows: t.rows + one_if(r is TableRow),
        cells: t.cells + one_if(r is TableCell),
        images: t.images + one_if(r is Image),
        shapes: t.shapes + one_if(r is Shape),
        runs: t.runs + match r {
            crate::v2::model::Region::Paragraph(p) => p.runs@.len(),
            _ => 0,
        },
        transformed: t.transformed + one_if(!is_identity_transform(geometry.local_to_parent)),
        clipped: t.clipped + one_if(geometry.clip is Some),
        measured: t.measured + one_if(region_overflow(r) is Some),
        flagged: t.flagged + one_if(region_overflow(r) matches Some(o) && overflow_flagged(o)),
    }
}

pub open spec fn tally_regions_v2(t: TallyV2, regions: Seq<crate::v2::model::Region>, k: nat) -> TallyV2
    decreases k,
{
    if k == 0 {
        t
    } else {
        tally_region_v2(tally_regions_v2(t, regions, (k - 1) as nat), regions[k - 1])
    }
}

pub open spec fn empty_tally_v2() -> TallyV2 {
    TallyV2 {
        regions: 0,
        stories: 0,
        paragraphs: 0,
        tables: 0,
        rows: 0,
        cells: 0,
        images: 0,
        shapes: 0,
        runs: 0,
        transformed: 0,
        clipped: 0,
        measured: 0,
        flagged: 0,
    }
}

pub open spec fn tally_pages_v2(pages: Seq<crate::v2::model::PageLayout>, k: nat) -> TallyV2
    decreases k,
{
    if k == 0 {
        empty_tally_v2()
    } else {
        tally_regions_v2(
            tally_pages_v2(pages, (k - 1) as nat),
            pages[k - 1].regions@,
            pages[k - 1].regions@.len(),
        )
    }
}

/// The resolved runs of the first `k` regions.
pub open spec fn runs_in(regions: Seq<crate::v2::model::Region>, k: nat) -> nat
    decreases k,
{
    if k == 0 {
        0
    } else {
        runs_in(regions, (k - 1) as nat) + match regions[k - 1] {
            crate::v2::model::Region::Paragraph(p) => p.runs@.len(),
            _ => 0,
        }
    }
}

/// The resolved runs on the first `k` pages.
pub open spec fn runs_total(pages: Seq<crate::v2::model::PageLayout>, k: nat) -> nat
    decreases k,
{
    if k == 0 {
        0
    } else {
        runs_total(pages, (k - 1) as nat) + runs_in(pages[k - 1].regions@, pages[k - 1].regions@.len())
    }
}

/// Every count is bounded by the regions counted, and the kinds add up to them.
pub open spec fn tally_bounded(t: TallyV2) -> bool {
    &&& t.stories + t.paragraphs + t.tables + t.rows + t.cells + t.images + t.shapes == t.regions
    &&& t.transformed <= t.regions
    &&& t.clipped <= t.regions
    &&& t.flagged <= t.measured <= t.regions
}

proof fn lemma_tally_regions_v2(t: TallyV2, regions: Seq<crate::v2::model::Region>, k: nat)
    requires
        k <= regions.len(),
        tally_bounded(t),
    ensures
        tally_regions_v2(t, regions, k).regions == t.regions + k,
        tally_regions_v2(t, regions, k).runs == t.runs + runs_in(regions, k),
        tally_bounded(tally_regions_v2(t, regions, k)),
    decreases k,
{
    if k > 0 {
        lemma_tally_regions_v2(t, regions, (k - 1) as nat);
    }
}

proof fn lemma_runs_in_grows(regions: Seq<crate::v2::model::Region>, j: nat, k: nat)
    requires
        j <= k,
    ensures
        runs_in(regions, j) <= runs_in(regions, k),
    decreases k - j,
{
    if j < k {
        lemma_runs_in_grows(regions, j, (k - 1) as nat);
    }
}

proof fn lemma_tally_pages_v2(pages: Seq<crate::v2::model::PageLayout>, k: nat)
    requires
        k <= pages.len(),
    ensures
        tally_pages_v2(pages, k).regions == crate::v2::validation::region_count(pages, k),
        tally_pages_v2(pages, k).runs == runs_total(pages, k),
        tally_bounded(tally_pages_v2(pages, k)),
    decreases k,
{
    if k > 0 {
        lemma_tally_pages_v2(pages, (k - 1) as nat);
        lemma_tally_regions_v2(
            tally_pages_v2(pages, (k - 1) as nat),
            pages[k - 1].regions@,
            pages[k - 1].regions@.len(),
        );
    }
}

proof fn lemma_totals_grow(pages: Seq<crate::v2::model::PageLayout>, j: nat, k: nat)
    requires
        j <= k <= pages.len(),
    ensures
        crate::v2::validation::region_count(pages, j) <= crate::v2::validation::region_count(pages, k),
        runs_total(pages, j) <= runs_total(pages, k),
    decreases k - j,
{
    if j < k {
        lemma_totals_grow(pages, j, (k - 1) as nat);
    }
}

/// A label and a count.
pub open spec fn count_line(label: Seq<char>, n: nat) -> Seq<char> {
    label + decimal(n)
}

/// The counting lines of the format-2 summary.
pub open spec fn counts_text_v2(t: TallyV2) -> Seq<char> {
    count_line("\nrecorded regions: "@, t.regions) + count_line("\nrecorded stories: "@, t.stories)
        + count_line("\nrecorded paragraph fragments: "@, t.paragraphs) + count_line(
        "\nrecorded resolved runs: "@,
        t.runs,
    ) + count_line("\nrecorded tables: "@, t.tables) + count_line("\nrecorded table rows: "@, t.rows)
        + count_line("\nrecorded table cells: "@, t.cells) + count_line("\nrecorded images: "@, t.images)
        + count_line("\nrecorded shapes: "@, t.shapes) + count_line(
        "\nregions with transforms: "@,
        t.transformed,
    ) + count_line("\nregions with clips: "@, t.clipped) + count_line(
        "\nregions with overflow measurements: "@,
        t.measured,
    ) + count_line("\nregions with overflow or clipping: "@, t.flagged) + "\n"@
}

/// The format-2 summary.
pub open spec fn summary_text_v2(d: crate::v2::model::DocumentLayout) -> Seq<char> {
    "format: "@ + d.format@ + " "@ + d.version@ + "\nsource: "@ + d.source.path@
        + "\nrecorded sections: "@ + decimal(d.sections@.len()) + "\nrecorded pages: "@ + decimal(
        d.pages@.len(),
    ) + counts_text_v2(tally_pages_v2(d.pages@, d.pages@.len())) + coverage_text(
        coverage_or_unknown(d.coverage),
    ) + closing_text()
}

struct CountersV2 {
    regions: u64,
    stories: u64,
    paragraphs: u64,
    tables: u64,
    rows: u64,
    cells: u64,
    images: u64,
    shapes: u64,
    runs: u64,
    transformed: u64,
    clipped: u64,
    measured: u64,
    flagged: u64,
}

spec fn counted_v2(c: CountersV2) -> TallyV2 {
    TallyV2 {
        regions: c.regions as nat,
        stories: c.stories as nat,
        paragraphs: c.paragraphs as nat,
        tables: c.tables as nat,
        rows: c.rows as nat,
        cells: c.cells as nat,
        images: c.images as nat,
        shapes: c.shapes as nat,
        runs: c.runs as nat,
        transformed: c.transformed as nat,
        clipped: c.clipped as nat,
        measured: c.measured as nat,
        flagged: c.flagged as nat,
    }
}

fn count_region_v2(c: &mut CountersV2, r: &crate::v2::model::Region, room: u64)
    requires
        tally_bounded(counted_v2(*old(c))),
        old(c).regions < room,
        old(c).runs + match *r {
            crate::v2::model::Region::Paragraph(p) => p.runs@.len() as int,
            _ => 0,
        } <= room,
    ensures
        counted_v2(*final(c)) == tally_region_v2(counted_v2(*old(c)), *r),
{
    c.regions = c.regions + 1;
    let common = r.common();
    if !is_identity_transform_exec(common.geometry.local_to_parent) {
        c.transformed = c.transformed + 1;
    }
    if common.geometry.clip.is_some() {
        c.clipped = c.clipped + 1;
    }
    let overflow = match r {
        crate::v2::model::Region::Story(_) => {
            c.stories = c.stories + 1;
            None
        },
        crate::v2::model::Region::Paragraph(value) => {
            c.paragraphs = c.paragraphs + 1;
            c.runs = c.runs + value.runs.len() as u64;
            value.overflow
        },
        crate::v2::model::Region::Table(value) => {
            c.tables = c.tables + 1;
            value.overflow
        },
        crate::v2::model::Region::TableRow(value) => {
            c.rows = c.rows + 1;
            value.overflow
        },
        crate::v2::model::Region::TableCell(value) => {
            c.cells = c.cells + 1;
            value.overflow
        },
        crate::v2::model::Region::Image(_) => {
            c.images = c.images + 1;
            None
        },
        crate::v2::model::Region::Shape(_) => {
            c.shapes = c.shapes + 1;
            None
        },
    };
    match overflow {
        Some(o) => {
            c.measured = c.measured + 1;
            if overflow_flagged_exec(o) {
                c.flagged = c.flagged + 1;
            }
        },
        None => {},
    }
}

fn count_pages_v2(pages: &Vec<crate::v2::model::PageLayout>) -> (c: CountersV2)
    requires
        crate::v2::validation::region_count(pages@, pages@.len()) <= u64::MAX,
        runs_total(pages@, pages@.len()) <= u64::MAX,
    ensures
        counted_v2(c) == tally_pages_v2(pages@, pages@.len()),
{
    let mut c = CountersV2 {
        regions: 0,
        stories: 0,
        paragraphs: 0,
        tables: 0,
        rows: 0,
        cells: 0,
        images: 0,
        shapes: 0,
        runs: 0,
        transformed: 0,
        clipped: 0,
        measured: 0,
        flagged: 0,
    };
    let mut p: usize = 0;
    while p < pages.len()
        invariant
            p <= pages.len(),
            crate::v2::validation::region_count(pages@, pages@.len()) <= u64::MAX,
            runs_total(pages@, pages@.len()) <= u64::MAX,
            counted_v2(c) == tally_pages_v2(pages@, p as nat),
        decreases pages.len() - p,
    {
        let ghost start = counted_v2(c);
        let regions = &pages[p].regions;
        proof {
            lemma_tally_pages_v2(pages@, p as nat);
            lemma_totals_grow(pages@, (p + 1) as nat, pages@.len());
        }
        let mut q: usize = 0;
        while q < regions.len()
            invariant
                p < pages.len(),
                regions@ == pages@[p as int].regions@,
                q <= regions.len(),
                start == tally_pages_v2(pages@, p as nat),
                start.regions == crate::v2::validation::region_count(pages@, p as nat),
                start.runs == runs_total(pages@, p as nat),
                tally_bounded(start),
                crate::v2::validation::region_count(pages@, (p + 1) as nat) <= u64::MAX,
                runs_total(pages@, (p + 1) as nat) <= u64::MAX,
                counted_v2(c) == tally_regions_v2(start, regions@, q as nat),
            decreases regions.len() - q,
        {
            proof {
                lemma_tally_regions_v2(start, regions@, q as nat);
                lemma_runs_in_grows(regions@, (q + 1) as nat, regions@.len());
            }
            count_region_v2(&mut c, &regions[q], u64::MAX);
            q += 1;
        }
        p += 1;
    }
    c
}

fn push_count(out: &mut String, label: &str, n: u64)
    ensures
        final(out)@ == old(out)@ + count_line(label@, n as nat),
{
    out.append(label);
    push_decimal(out, n);
    assert(out@ =~= old(out)@ + count_line(label@, n as nat));
}

fn push_counts_v2(out: &mut String, c: &CountersV2)
    ensures
        final(out)@ == old(out)@ + counts_text_v2(counted_v2(*c)),
{
    let ghost o0 = out@;
    let ghost t = counted_v2(*c);
    push_count(out, "\nrecorded regions: ", c.regions);
    let ghost l0 = count_line("\nrecorded regions: "@, t.regions);
    push_count(out, "\nrecorded stories: ", c.stories);
    let ghost l1 = count_line("\nrecorded stories: "@, t.stories);
    proof { vstd::seq_lib::lemma_concat_associative(o0, l0, l1); }
    push_count(out, "\nrecorded paragraph fragments: ", c.paragraphs);
    let ghost l2 = count_line("\nrecorded paragraph fragments: "@, t.paragraphs);
    proof { vstd::seq_lib::lemma_concat_associative(o0, l0 + l1, l2); }
    push_count(out, "\nrecorded resolved runs: ", c.runs);
    let ghost l3 = count_line("\nrecorded resolved runs: "@, t.runs);
    proof { vstd::seq_lib::lemma_concat_associative(o0, l0 + l1 + l2, l3); }
    push_count(out, "\nrecorded tables: ", c.tables);
    let ghost l4 = count_line("\nrecorded tables: "@, t.tables);
    proof { vstd::seq_lib::lemma_concat_associative(o0, l0 + l1 + l2 + l3, l4); }
    push_count(out, "\nrecorded table rows: ", c.rows);
    let ghost l5 = count_line("\nrecorded table rows: "@, t.rows);
    proof { vstd::seq_lib::lemma_concat_associative(o0, l0 + l1 + l2 + l3 + l4, l5); }
    push_count(out, "\nrecorded table cells: ", c.cells);
    let ghost l6 = count_line("\nrecorded table cells: "@, t.cells);
    proof { vstd::seq_lib::lemma_concat_associative(o0, l0 + l1 + l2 + l3 + l4 + l5, l6); }
    push_count(out, "\nrecorded images: ", c.images);
    let ghost l7 = count_line("\nrecorded images: "@, t.images);
    proof { vstd::seq_lib::lemma_concat_associative(o0, l0 + l1 + l2 + l3 + l4 + l5 + l6, l7); }
    push_count(out, "\nrecorded shapes: ", c.shapes);
    let ghost l8 = count_line("\nrecorded shapes: "@, t.shapes);
    proof { vstd::seq_lib::lemma_concat_associative(o0, l0 + l1 + l2 + l3 + l4 + l5 + l6 + l7, l8); }
    push_count(out, "\nregions with transforms: ", c.transformed);
    let ghost l9 = count_line("\nregions with transforms: "@, t.transformed);
    proof { vstd::seq_lib::lemma_concat_associative(o0, l0 + l1 + l2 + l3 + l4 + l5 + l6 + l7 + l8, l9); }
    push_count(out, "\nregions with clips: ", c.clipped);
    let ghost l10 = count_line("\nregions with clips: "@, t.clipped);
    proof { vstd::seq_lib::lemma_concat_associative(o0, l0 + l1 + l2 + l3 + l4 + l5 + l6 + l7 + l8 + l9, l10); }
    push_count(out, "\nregions with overflow measurements: ", c.measured);
    let ghost l11 = count_line("\nregions with overflow measurements: "@, t.measured);
    proof { vstd::seq_lib::lemma_concat_associative(o0, l0 + l1 + l2 + l3 + l4 + l5 + l6 + l7 + l8 + l9 + l10, l11); }
    push_count(out, "\nregions with overflow or clipping: ", c.flagged);
    let ghost l12 = count_line("\nregions with overflow or clipping: "@, t.flagged);
    proof { vstd::seq_lib::lemma_concat_associative(o0, l0 + l1 + l2 + l3 + l4 + l5 + l6 + l7 + l8 + l9 + l10 + l11, l12); }
    out.append("\n");
    proof { vstd::seq_lib::lemma_concat_associative(o0, l0 + l1 + l2 + l3 + l4 + l5 + l6 + l7 + l8 + l9 + l10 + l11 + l12, "\n"@); }
}

/// A compact summary of a format-2 document: what was recorded by kind,
/// transforms, clips and overflow measurements, the declared coverage, and
/// that none of it verifies the layout.
pub fn summary_v2(document: &crate::v2::model::DocumentLayout) -> (r: String)
    requires
        crate::v2::validation::region_count(document.pages@, document.pages@.len()) <= u64::MAX,
        runs_total(document.pages@, document.pages@.len()) <= u64::MAX,
    ensures
        r@ == summary_text_v2(*document),
{
    let c = count_pages_v2(&document.pages);
    let mut out = String::from_str("format: ");
    out.append(document.format.as_str());
    out.append(" ");
    out.append(document.version.as_str());
    out.append("\nsource: ");
    out.append(document.source.path.as_str());
    out.append("\nrecorded sections: ");
    push_decimal(&mut out, document.sections.len() as u64);
    out.append("\nrecorded pages: ");
    push_decimal(&mut out, document.pages.len() as u64);
    let ghost head = out@;
    push_counts_v2(&mut out, &c);
    let ghost counts = counts_text_v2(counted_v2(c));
    push_coverage(&mut out, &document.coverage);
    let ghost coverage = coverage_text(coverage_or_unknown(document.coverage));
    out.append("Layout completeness and design quality: not verified; zero recorded findings is not a pass.\n");
    proof {
        vstd::seq_lib::lemma_concat_associative(head, counts, coverage);
        vstd::seq_lib::lemma_concat_associative(head, counts + coverage, closing_text());
    }
    assert(out@ =~= summary_text_v2(*document));
    out
}

} // verus!
verus! {

/// The summary of a document of either major version.
pub fn summary_any(document: &crate::document::AnyDocumentLayout) -> (r: String)
    requires
        match *document {
            crate::document::AnyDocumentLayout::V1(d) => region_total(d.pages@, d.pages@.len()) <= u64::MAX,
            crate::document::AnyDocumentLayout::V2(d) => crate::v2::validation::region_count(
                d.pages@,
                d.pages@.len(),
            ) <= u64::MAX && runs_total(d.pages@, d.pages@.len()) <= u64::MAX,
        },
    ensures
        r@ == match *document {
            crate::document::AnyDocumentLayout::V1(d) => summary_text(d),
            crate::document::AnyDocumentLayout::V2(d) => summary_text_v2(d),
        },
{
    match document {
        crate::document::AnyDocumentLayout::V1(d) => summary(d),
        crate::document::AnyDocumentLayout::V2(d) => summary_v2(d),
    }
}

} // verus!
verus! {

/// Every summary, of either version and whatever the document records, ends
/// by saying that layout completeness and design quality were not verified.
pub proof fn lemma_summaries_never_claim_verification(
    d: DocumentLayout,
    d2: crate::v2::model::DocumentLayout,
)
    ensures
        summary_text(d).len() >= closing_text().len(),
        summary_text(d).subrange(
            summary_text(d).len() - closing_text().len(),
            summary_text(d).len() as int,
        ) == closing_text(),
        summary_text_v2(d2).len() >= closing_text().len(),
        summary_text_v2(d2).subrange(
            summary_text_v2(d2).len() - closing_text().len(),
            summary_text_v2(d2).len() as int,
        ) == closing_text(),
{
    let a = summary_text(d);
    let b = summary_text_v2(d2);
    let c = closing_text();
    assert(a.subrange(a.len() - c.len(), a.len() as int) =~= c);
    assert(b.subrange(b.len() - c.len(), b.len() as int) =~= c);
}

} // verus!
verus! {

/// The paragraph regions among a list of regions; an image is not one.
pub open spec fn paragraphs_in(rs: Seq<Region>) -> nat
    decreases rs.len(),
{
    if rs.len() == 0 {
        0
    } else {
        (if rs[0] is Paragraph {
            1nat
        } else {
            0nat
        }) + paragraphs_in(rs.drop_first())
    }
}

/// The paragraph regions of every page.
pub open spec fn paragraphs_on(ps: Seq<PageLayout>) -> nat
    decreases ps.len(),
{
    if ps.len() == 0 {
        0
    } else {
        paragraphs_in(ps[0].regions@) + paragraphs_on(ps.drop_first())
    }
}

proof fn lemma_paragraphs_in_push(rs: Seq<Region>, r: Region)
    ensures
        paragraphs_in(rs.push(r)) == paragraphs_in(rs) + if r is Paragraph {
            1nat
        } else {
            0nat
        },
    decreases rs.len(),
{
    if rs.len() > 0 {
        assert(rs.push(r).drop_first() =~= rs.drop_first().push(r));
        assert(rs.push(r)[0] == rs[0]);
        lemma_paragraphs_in_push(rs.drop_first(), r);
    } else {
        assert(rs.push(r).drop_first() =~= Seq::<Region>::empty());
        assert(rs.push(r)[0] == r);
        assert(paragraphs_in(Seq::<Region>::empty()) == 0);
    }
}

proof fn lemma_paragraphs_on_push(ps: Seq<PageLayout>, p: PageLayout)
    ensures
        paragraphs_on(ps.push(p)) == paragraphs_on(ps) + paragraphs_in(p.regions@),
    decreases ps.len(),
{
    if ps.len() > 0 {
        assert(ps.push(p).drop_first() =~= ps.drop_first().push(p));
        assert(ps.push(p)[0] == ps[0]);
        lemma_paragraphs_on_push(ps.drop_first(), p);
    } else {
        assert(ps.push(p).drop_first() =~= Seq::<PageLayout>::empty());
        assert(ps.push(p)[0] == p);
        assert(paragraphs_on(Seq::<PageLayout>::empty()) == 0);
    }
}

proof fn lemma_tally_regions_paragraphs(t: Tally, rs: Seq<Region>, k: nat)
    requires
        k <= rs.len(),
    ensures
        tally_regions(t, rs, k).paragraphs == t.paragraphs + paragraphs_in(rs.take(k as int)),
    decreases k,
{
    if k == 0 {
        assert(rs.take(0) =~= Seq::<Region>::empty());
    } else {
        lemma_tally_regions_paragraphs(t, rs, (k - 1) as nat);
        assert(rs.take(k as int) =~= rs.take(k - 1).push(rs[k - 1]));
        lemma_paragraphs_in_push(rs.take(k - 1), rs[k - 1]);
    }
}

proof fn lemma_tally_pages_paragraphs(ps: Seq<PageLayout>, k: nat)
    requires
        k <= ps.len(),
    ensures
        tally_pages(ps, k).paragraphs == paragraphs_on(ps.take(k as int)),
    decreases k,
{
    if k == 0 {
        assert(ps.take(0) =~= Seq::<PageLayout>::empty());
    } else {
        lemma_tally_pages_paragraphs(ps, (k - 1) as nat);
        let rs = ps[k - 1].regions@;
        lemma_tally_regions_paragraphs(tally_pages(ps, (k - 1) as nat), rs, rs.len());
        assert(rs.take(rs.len() as int) =~= rs);
        assert(ps.take(k as int) =~= ps.take(k - 1).push(ps[k - 1]));
        lemma_paragraphs_on_push(ps.take(k - 1), ps[k - 1]);
    }
}

/// The format-1 summary's "recorded paragraph segments" is the number of
/// paragraph regions over all pages; image regions add nothing to it (nor to
/// the segments without overflow measurements, which are the paragraphs less
/// those measured).
pub proof fn lemma_summary_counts_paragraph_regions(d: DocumentLayout)
    ensures
        tally_pages(d.pages@, d.pages@.len()).paragraphs == paragraphs_on(d.pages@),
        exists|before: Seq<char>, after: Seq<char>|
            summary_text(d) == before + "\nrecorded paragraph segments: "@ + decimal(paragraphs_on(d.pages@))
                + "\nparagraph segments with overflow measurements: "@ + after,
{
    lemma_tally_pages_paragraphs(d.pages@, d.pages@.len());
    assert(d.pages@.take(d.pages@.len() as int) =~= d.pages@);
    let t = tally_pages(d.pages@, d.pages@.len());
    let before = "format: "@ + d.format@ + " "@ + d.version@ + "\nsource: "@ + d.source.path@
        + "\nrecorded pages: "@ + decimal(d.pages@.len()) + "\nrecorded regions: "@ + decimal(t.regions);
    let tail = summary_text(d).skip(
        (before + "\nrecorded paragraph segments: "@ + decimal(t.paragraphs)
            + "\nparagraph segments with overflow measurements: "@).len() as int,
    );
    assert(summary_text(d) =~= before + "\nrecorded paragraph segments: "@ + decimal(t.paragraphs)
        + "\nparagraph segments with overflow measurements: "@ + tail);
}

} // verus!
verus! {

/// The sum of `f` over a list, from its front.
pub open spec fn count_in<A>(xs: Seq<A>, f: spec_fn(A) -> nat) -> nat
    decreases xs.len(),
{
    if xs.len() == 0 {
        0
    } else {
        f(xs[0]) + count_in(xs.drop_first(), f)
    }
}

/// The sum of `f` over the regions of every format-2 page.
pub open spec fn count_on_v2(ps: Seq<crate::v2::model::PageLayout>, f: spec_fn(crate::v2::model::Region) -> nat) -> nat
    decreases ps.len(),
{
    if ps.len() == 0 {
        0
    } else {
        count_in(ps[0].regions@, f) + count_on_v2(ps.drop_first(), f)
    }
}

/// The sum of `f` over the regions of every format-1 page.
pub open spec fn count_on(ps: Seq<PageLayout>, f: spec_fn(Region) -> nat) -> nat
    decreases ps.len(),
{
    if ps.len() == 0 {
        0
    } else {
        count_in(ps[0].regions@, f) + count_on(ps.drop_first(), f)
    }
}

pub proof fn lemma_count_in_push<A>(xs: Seq<A>, x: A, f: spec_fn(A) -> nat)
    ensures
        count_in(xs.push(x), f) == count_in(xs, f) + f(x),
    decreases xs.len(),
{
    if xs.len() > 0 {
        assert(xs.push(x).drop_first() =~= xs.drop_first().push(x));
        assert(xs.push(x)[0] == xs[0]);
        lemma_count_in_push(xs.drop_first(), x, f);
    } else {
        assert(xs.push(x).drop_first() =~= Seq::<A>::empty());
        assert(xs.push(x)[0] == x);
        assert(count_in(Seq::<A>::empty(), f) == 0);
    }
}

proof fn lemma_count_on_v2_push(
    ps: Seq<crate::v2::model::PageLayout>,
    p: crate::v2::model::PageLayout,
    f: spec_fn(crate::v2::model::Region) -> nat,
)
    ensures
        count_on_v2(ps.push(p), f) == count_on_v2(ps, f) + count_in(p.regions@, f),
    decreases ps.len(),
{
    if ps.len() > 0 {
        assert(ps.push(p).drop_first() =~= ps.drop_first().push(p));
        assert(ps.push(p)[0] == ps[0]);
        lemma_count_on_v2_push(ps.drop_first(), p, f);
    } else {
        assert(ps.push(p).drop_first() =~= Seq::<crate::v2::model::PageLayout>::empty());
        assert(ps.push(p)[0] == p);
        assert(count_on_v2(Seq::<crate::v2::model::PageLayout>::empty(), f) == 0);
    }
}

proof fn lemma_count_on_push(ps: Seq<PageLayout>, p: PageLayout, f: spec_fn(Region) -> nat)
    ensures
        count_on(ps.push(p), f) == count_on(ps, f) + count_in(p.regions@, f),
    decreases ps.len(),
{
    if ps.len() > 0 {
        assert(ps.push(p).drop_first() =~= ps.drop_first().push(p));
        assert(ps.push(p)[0] == ps[0]);
        lemma_count_on_push(ps.drop_first(), p, f);
    } else {
        assert(ps.push(p).drop_first() =~= Seq::<PageLayout>::empty());
        assert(ps.push(p)[0] == p);
        assert(count_on(Seq::<PageLayout>::empty(), f) == 0);
    }
}

/// A paragraph region.
pub open spec fn is_paragraph_v2(r: crate::v2::model::Region) -> nat { if r is Paragraph { 1nat } else { 0nat } }
pub open spec fn is_story_v2(r: crate::v2::model::Region) -> nat { if r is Story { 1nat } else { 0nat } }
pub open spec fn is_table_v2(r: crate::v2::model::Region) -> nat { if r is Table { 1nat } else { 0nat } }
pub open spec fn is_row_v2(r: crate::v2::model::Region) -> nat { if r is TableRow { 1nat } else { 0nat } }
pub open spec fn is_cell_v2(r: crate::v2::model::Region) -> nat { if r is TableCell { 1nat } else { 0nat } }
pub open spec fn is_image_v2(r: crate::v2::model::Region) -> nat { if r is Image { 1nat } else { 0nat } }
pub open spec fn is_shape_v2(r: crate::v2::model::Region) -> nat { if r is Shape { 1nat } else { 0nat } }
pub open spec fn runs_of_v2(r: crate::v2::model::Region) -> nat {
    match r {
        crate::v2::model::Region::Paragraph(p) => p.runs@.len(),
        _ => 0,
    }
}
pub open spec fn one_v2(r: crate::v2::model::Region) -> nat { 1 }
pub open spec fn measured_v2(r: crate::v2::model::Region) -> nat {
    match r {
        crate::v2::model::Region::Paragraph(v) => if v.overflow is Some { 1nat } else { 0nat },
        crate::v2::model::Region::Table(v) => if v.overflow is Some { 1nat } else { 0nat },
        crate::v2::model::Region::TableRow(v) => if v.overflow is Some { 1nat } else { 0nat },
        crate::v2::model::Region::TableCell(v) => if v.overflow is Some { 1nat } else { 0nat },
        _ => 0nat,
    }
}

/// The kind counts of `t` grow by exactly the regions of each kind in `rs`.
pub open spec fn tally_v2_adds(t: TallyV2, u: TallyV2, rs: Seq<crate::v2::model::Region>) -> bool {
    &&& u.regions == t.regions + count_in(rs, |r: crate::v2::model::Region| one_v2(r))
    &&& u.stories == t.stories + count_in(rs, |r: crate::v2::model::Region| is_story_v2(r))
    &&& u.paragraphs == t.paragraphs + count_in(rs, |r: crate::v2::model::Region| is_paragraph_v2(r))
    &&& u.tables == t.tables + count_in(rs, |r: crate::v2::model::Region| is_table_v2(r))
    &&& u.rows == t.rows + count_in(rs, |r: crate::v2::model::Region| is_row_v2(r))
    &&& u.cells == t.cells + count_in(rs, |r: crate::v2::model::Region| is_cell_v2(r))
    &&& u.images == t.images + count_in(rs, |r: crate::v2::model::Region| is_image_v2(r))
    &&& u.shapes == t.shapes + count_in(rs, |r: crate::v2::model::Region| is_shape_v2(r))
    &&& u.runs == t.runs + count_in(rs, |r: crate::v2::model::Region| runs_of_v2(r))
    &&& u.measured == t.measured + count_in(rs, |r: crate::v2::model::Region| measured_v2(r))
}

proof fn lemma_tally_regions_v2_counts(t: TallyV2, rs: Seq<crate::v2::model::Region>, k: nat)
    requires
        k <= rs.len(),
    ensures
        tally_v2_adds(t, tally_regions_v2(t, rs, k), rs.take(k as int)),
    decreases k,
{
    if k == 0 {
        assert(rs.take(0) =~= Seq::<crate::v2::model::Region>::empty());
    } else {
        lemma_tally_regions_v2_counts(t, rs, (k - 1) as nat);
        let q = rs.take(k - 1);
        let r = rs[k - 1];
        assert(rs.take(k as int) =~= q.push(r));
        lemma_count_in_push(q, r, |r: crate::v2::model::Region| one_v2(r));
        lemma_count_in_push(q, r, |r: crate::v2::model::Region| is_story_v2(r));
        lemma_count_in_push(q, r, |r: crate::v2::model::Region| is_paragraph_v2(r));
        lemma_count_in_push(q, r, |r: crate::v2::model::Region| is_table_v2(r));
        lemma_count_in_push(q, r, |r: crate::v2::model::Region| is_row_v2(r));
        lemma_count_in_push(q, r, |r: crate::v2::model::Region| is_cell_v2(r));
        lemma_count_in_push(q, r, |r: crate::v2::model::Region| is_image_v2(r));
        lemma_count_in_push(q, r, |r: crate::v2::model::Region| is_shape_v2(r));
        lemma_count_in_push(q, r, |r: crate::v2::model::Region| runs_of_v2(r));
        lemma_count_in_push(q, r, |r: crate::v2::model::Region| measured_v2(r));
    }
}

/// The counts of a format-2 summary: regions, and the regions of each kind
/// (stories, paragraph fragments, tables, rows, cells, images, shapes), the
/// resolved runs of paragraphs and the regions with overflow measurements,
/// over every page. Each region adds to its own kind's count only.
pub proof fn lemma_summary_v2_counts_kinds(d: crate::v2::model::DocumentLayout)
    ensures
        ({
            let t = tally_pages_v2(d.pages@, d.pages@.len());
            let ps = d.pages@;
            &&& t.regions == count_on_v2(ps, |r: crate::v2::model::Region| one_v2(r))
            &&& t.stories == count_on_v2(ps, |r: crate::v2::model::Region| is_story_v2(r))
            &&& t.paragraphs == count_on_v2(ps, |r: crate::v2::model::Region| is_paragraph_v2(r))
            &&& t.tables == count_on_v2(ps, |r: crate::v2::model::Region| is_table_v2(r))
            &&& t.rows == count_on_v2(ps, |r: crate::v2::model::Region| is_row_v2(r))
            &&& t.cells == count_on_v2(ps, |r: crate::v2::model::Region| is_cell_v2(r))
            &&& t.images == count_on_v2(ps, |r: crate::v2::model::Region| is_image_v2(r))
            &&& t.shapes == count_on_v2(ps, |r: crate::v2::model::Region| is_shape_v2(r))
            &&& t.runs == count_on_v2(ps, |r: crate::v2::model::Region| runs_of_v2(r))
            &&& t.measured == count_on_v2(ps, |r: crate::v2::model::Region| measured_v2(r))
        }),
{
    lemma_tally_pages_v2_counts(d.pages@, d.pages@.len());
    assert(d.pages@.take(d.pages@.len() as int) =~= d.pages@);
}

proof fn lemma_tally_pages_v2_counts(ps: Seq<crate::v2::model::PageLayout>, k: nat)
    requires
        k <= ps.len(),
    ensures
        ({
            let t = tally_pages_v2(ps, k);
            let q = ps.take(k as int);
            &&& t.regions == count_on_v2(q, |r: crate::v2::model::Region| one_v2(r))
            &&& t.stories == count_on_v2(q, |r: crate::v2::model::Region| is_story_v2(r))
            &&& t.paragraphs == count_on_v2(q, |r: crate::v2::model::Region| is_paragraph_v2(r))
            &&& t.tables == count_on_v2(q, |r: crate::v2::model::Region| is_table_v2(r))
            &&& t.rows == count_on_v2(q, |r: crate::v2::model::Region| is_row_v2(r))
            &&& t.cells == count_on_v2(q, |r: crate::v2::model::Region| is_cell_v2(r))
            &&& t.images == count_on_v2(q, |r: crate::v2::model::Region| is_image_v2(r))
            &&& t.shapes == count_on_v2(q, |r: crate::v2::model::Region| is_shape_v2(r))
            &&& t.runs == count_on_v2(q, |r: crate::v2::model::Region| runs_of_v2(r))
            &&& t.measured == count_on_v2(q, |r: crate::v2::model::Region| measured_v2(r))
        }),
    decreases k,
{
    if k == 0 {
        assert(ps.take(0) =~= Seq::<crate::v2::model::PageLayout>::empty());
    } else {
        lemma_tally_pages_v2_counts(ps, (k - 1) as nat);
        let rs = ps[k - 1].regions@;
        lemma_tally_regions_v2_counts(tally_pages_v2(ps, (k - 1) as nat), rs, rs.len());
        assert(rs.take(rs.len() as int) =~= rs);
        let q = ps.take(k - 1);
        let p = ps[k - 1];
        assert(ps.take(k as int) =~= q.push(p));
        lemma_count_on_v2_push(q, p, |r: crate::v2::model::Region| one_v2(r));
        lemma_count_on_v2_push(q, p, |r: crate::v2::model::Region| is_story_v2(r));
        lemma_count_on_v2_push(q, p, |r: crate::v2::model::Region| is_paragraph_v2(r));
        lemma_count_on_v2_push(q, p, |r: crate::v2::model::Region| is_table_v2(r));
        lemma_count_on_v2_push(q, p, |r: crate::v2::model::Region| is_row_v2(r));
        lemma_count_on_v2_push(q, p, |r: crate::v2::model::Region| is_cell_v2(r));
        lemma_count_on_v2_push(q, p, |r: crate::v2::model::Region| is_image_v2(r));
        lemma_count_on_v2_push(q, p, |r: crate::v2::model::Region| is_shape_v2(r));
        lemma_count_on_v2_push(q, p, |r: crate::v2::model::Region| runs_of_v2(r));
        lemma_count_on_v2_push(q, p, |r: crate::v2::model::Region| measured_v2(r));
    }
}

/// A format-1 paragraph region with an overflow measurement.
pub open spec fn measured_v1(r: Region) -> nat {
    match r {
        Region::Paragraph(p) => if p.overflow is Some { 1nat } else { 0nat },
        Region::Image(_) => 0,
    }
}

/// A format-1 paragraph region whose overflow measurement shows overflow or clipping.
pub open spec fn flagged_v1(r: Region) -> nat {
    match r {
        Region::Paragraph(p) => match p.overflow {
            Some(o) => if o.horizontal || o.vertical || o.clipped || pt_is_greater_than_zero(o.past_content_area_pt) {
                1nat
            } else {
                0nat
            },
            None => 0nat,
        },
        Region::Image(_) => 0,
    }
}

proof fn lemma_tally_regions_measured(t: Tally, rs: Seq<Region>, k: nat)
    requires
        k <= rs.len(),
    ensures
        tally_regions(t, rs, k).measured == t.measured + count_in(rs.take(k as int), |r: Region| measured_v1(r)),
        tally_regions(t, rs, k).flagged == t.flagged + count_in(rs.take(k as int), |r: Region| flagged_v1(r)),
    decreases k,
{
    if k == 0 {
        assert(rs.take(0) =~= Seq::<Region>::empty());
    } else {
        lemma_tally_regions_measured(t, rs, (k - 1) as nat);
        assert(rs.take(k as int) =~= rs.take(k - 1).push(rs[k - 1]));
        lemma_count_in_push(rs.take(k - 1), rs[k - 1], |r: Region| measured_v1(r));
        lemma_count_in_push(rs.take(k - 1), rs[k - 1], |r: Region| flagged_v1(r));
    }
}

proof fn lemma_tally_pages_measured(ps: Seq<PageLayout>, k: nat)
    requires
        k <= ps.len(),
    ensures
        tally_pages(ps, k).measured == count_on(ps.take(k as int), |r: Region| measured_v1(r)),
        tally_pages(ps, k).flagged == count_on(ps.take(k as int), |r: Region| flagged_v1(r)),
    decreases k,
{
    if k == 0 {
        assert(ps.take(0) =~= Seq::<PageLayout>::empty());
    } else {
        lemma_tally_pages_measured(ps, (k - 1) as nat);
        let rs = ps[k - 1].regions@;
        lemma_tally_regions_measured(tally_pages(ps, (k - 1) as nat), rs, rs.len());
        assert(rs.take(rs.len() as int) =~= rs);
        assert(ps.take(k as int) =~= ps.take(k - 1).push(ps[k - 1]));
        lemma_count_on_push(ps.take(k - 1), ps[k - 1], |r: Region| measured_v1(r));
        lemma_count_on_push(ps.take(k - 1), ps[k - 1], |r: Region| flagged_v1(r));
    }
}

/// The format-1 summary counts as measured the paragraph regions with an
/// overflow measurement, and as flagged those whose measurement shows
/// overflow in any direction, clipping, or excess past the content area.
pub proof fn lemma_summary_counts_measurements(d: DocumentLayout)
    ensures
        tally_pages(d.pages@, d.pages@.len()).measured == count_on(d.pages@, |r: Region| measured_v1(r)),
        tally_pages(d.pages@, d.pages@.len()).flagged == count_on(d.pages@, |r: Region| flagged_v1(r)),
{
    lemma_tally_pages_measured(d.pages@, d.pages@.len());
    assert(d.pages@.take(d.pages@.len() as int) =~= d.pages@);
}

} // verus!
