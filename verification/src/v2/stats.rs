//! Counting the size of a format-2 document before it is processed further.

use vstd::prelude::*;

use crate::limits::{check_limit, LimitError, ProcessingLimits};
use crate::stats::{
    add_environment, add_optional_bytes, add_string_bytes, bytes, cap, diagnostic_bytes,
    environment_bytes, optional_bytes, IrStats,
};
use crate::v2::model::{
    ClipGeometry, Diagnostic, DocumentLayout, Fill, FloatingPlacement, InlineContent, InlineKind,
    ObjectPlacement, PageLayout, Region, RegionCommon, RegionId, RelationshipRef, ResolvedRun,
    RoleAssignment, RoleProvenance, SectionLayout, SectionPageGeometry, SourceRef,
    common_of, source_of,
};

verus! {

pub open spec fn source_bytes(s: SourceRef) -> nat {
    bytes(s.part@) + bytes(s.id@)
}

pub open spec fn optional_source_bytes(s: Option<SourceRef>) -> nat {
    match s {
        Some(v) => source_bytes(v),
        None => 0,
    }
}

pub open spec fn optional_id_bytes(id: Option<RegionId>) -> nat {
    match id {
        Some(v) => bytes(v.0@),
        None => 0,
    }
}

pub open spec fn role_bytes(role: Option<RoleAssignment>) -> nat {
    match role {
        Some(r) => match r.provenance {
            RoleProvenance::SourceDeclared { source, declaration } => source_bytes(source) + bytes(
                declaration@,
            ),
            RoleProvenance::Inferred { rule } => bytes(rule@),
        },
        None => 0,
    }
}

pub open spec fn common_bytes(c: RegionCommon) -> nat {
    bytes(c.id.0@) + optional_id_bytes(c.parent_id) + optional_id_bytes(c.owner_id) + role_bytes(
        c.role,
    )
}

/// A clip path's commands count as elements.
pub open spec fn common_elements(c: RegionCommon) -> nat {
    match c.geometry.clip {
        Some(ClipGeometry::Path { path }) => path.commands@.len(),
        _ => 0,
    }
}

pub open spec fn relationship_bytes(r: RelationshipRef) -> nat {
    bytes(r.source_part@) + bytes(r.id@) + bytes(r.target_part@)
}

pub open spec fn floating_elements(f: FloatingPlacement) -> nat {
    match f.wrap_polygon {
        Some(path) => path.commands@.len(),
        None => 0,
    }
}

pub open spec fn placement_elements(p: ObjectPlacement) -> nat {
    match p {
        ObjectPlacement::Floating { placement } => floating_elements(placement),
        ObjectPlacement::Inline => 0,
    }
}

pub open spec fn fill_bytes(f: Fill) -> nat {
    match f {
        Fill::Image { relationship, .. } => relationship_bytes(relationship),
        Fill::Pattern { preset, .. } => bytes(preset@),
        _ => 0,
    }
}

pub open spec fn fill_elements(f: Fill) -> nat {
    match f {
        Fill::Gradient { gradient } => gradient.stops@.len(),
        _ => 0,
    }
}

pub open spec fn run_bytes(run: ResolvedRun) -> nat {
    optional_source_bytes(run.source) + bytes(run.typography.font.family@) + optional_bytes(
        run.typography.font.postscript_name,
    )
}

pub open spec fn runs_bytes(runs: Seq<ResolvedRun>, k: nat) -> nat
    decreases k,
{
    if k == 0 {
        0
    } else {
        runs_bytes(runs, (k - 1) as nat) + run_bytes(runs[k - 1])
    }
}

pub open spec fn inline_bytes(inline: InlineContent) -> nat {
    optional_source_bytes(inline.source) + match inline.kind {
        InlineKind::Field { instruction, .. } => bytes(instruction@),
        InlineKind::NoteReference { target_story_id } => bytes(target_story_id.0@),
        InlineKind::CommentReference { target_story_id } => bytes(target_story_id.0@),
        InlineKind::Object { target_region_id } => bytes(target_region_id.0@),
        _ => 0,
    }
}

pub open spec fn inlines_bytes(inlines: Seq<InlineContent>, k: nat) -> nat
    decreases k,
{
    if k == 0 {
        0
    } else {
        inlines_bytes(inlines, (k - 1) as nat) + inline_bytes(inlines[k - 1])
    }
}

pub open spec fn ids_bytes(ids: Seq<RegionId>, k: nat) -> nat
    decreases k,
{
    if k == 0 {
        0
    } else {
        ids_bytes(ids, (k - 1) as nat) + bytes(ids[k - 1].0@)
    }
}

/// The strings a region holds besides its common part and source.
pub open spec fn kind_bytes(r: Region) -> nat {
    match r {
        Region::Story(s) => ids_bytes(s.linked_from@, s.linked_from@.len()),
        Region::Paragraph(p) => bytes(p.text@) + runs_bytes(p.runs@, p.runs@.len()) + inlines_bytes(
            p.content@,
            p.content@.len(),
        ),
        Region::TableCell(c) => match c.fill {
            Some(f) => fill_bytes(f),
            None => 0,
        },
        Region::Image(i) => relationship_bytes(i.relationship),
        Region::Shape(s) => fill_bytes(s.fill),
        _ => 0,
    }
}

/// The elements a region contributes besides itself and its clip.
pub open spec fn kind_elements(r: Region) -> nat {
    match r {
        Region::Paragraph(p) => p.lines@.len() + p.runs@.len() + p.content@.len(),
        Region::Table(t) => match t.floating {
            Some(f) => floating_elements(f),
            None => 0,
        },
        Region::TableCell(c) => match c.fill {
            Some(f) => fill_elements(f),
            None => 0,
        },
        Region::Image(i) => placement_elements(i.placement),
        Region::Shape(s) => s.path.commands@.len() + fill_elements(s.fill) + placement_elements(
            s.placement,
        ),
        _ => 0,
    }
}

pub open spec fn region_bytes(r: Region) -> nat {
    common_bytes(common_of(r)) + source_bytes(source_of(r)) + kind_bytes(r)
}

pub open spec fn region_elements(r: Region) -> nat {
    1 + common_elements(common_of(r)) + kind_elements(r)
}

pub open spec fn region_lines(r: Region) -> nat {
    match r {
        Region::Paragraph(p) => p.lines@.len(),
        _ => 0,
    }
}

pub open spec fn region_text_bytes(r: Region) -> nat {
    match r {
        Region::Paragraph(p) => bytes(p.text@),
        _ => 0,
    }
}

/// Sums over the first `k` regions: strings, elements, lines, paragraph text.
pub open spec fn regions_sum(rs: Seq<Region>, k: nat) -> (nat, nat, nat, nat)
    decreases k,
{
    if k == 0 {
        (0, 0, 0, 0)
    } else {
        let (s, e, l, t) = regions_sum(rs, (k - 1) as nat);
        let r = rs[k - 1];
        (s + region_bytes(r), e + region_elements(r), l + region_lines(r), t + region_text_bytes(r))
    }
}

/// Sums over the first `k` section geometries of a page: strings and elements.
pub open spec fn geometries_sum(gs: Seq<SectionPageGeometry>, k: nat) -> (nat, nat)
    decreases k,
{
    if k == 0 {
        (0, 0)
    } else {
        let (s, e) = geometries_sum(gs, (k - 1) as nat);
        (s + bytes(gs[k - 1].section_id.0@), e + 1 + gs[k - 1].columns@.len())
    }
}

/// Sums over the first `k` pages: regions, strings, elements, lines, paragraph text.
pub open spec fn pages_sum(ps: Seq<PageLayout>, k: nat) -> (nat, nat, nat, nat, nat)
    decreases k,
{
    if k == 0 {
        (0, 0, 0, 0, 0)
    } else {
        let (r, s, e, l, t) = pages_sum(ps, (k - 1) as nat);
        let p = ps[k - 1];
        let (gs, ge) = geometries_sum(p.section_geometries@, p.section_geometries@.len());
        let (rs, re, rl, rt) = regions_sum(p.regions@, p.regions@.len());
        (r + p.regions@.len(), s + gs + rs, e + ge + re, l + rl, t + rt)
    }
}

/// Sums over the first `k` sections: strings and elements.
pub open spec fn sections_sum(ss: Seq<SectionLayout>, k: nat) -> (nat, nat)
    decreases k,
{
    if k == 0 {
        (0, 0)
    } else {
        let (s, e) = sections_sum(ss, (k - 1) as nat);
        (s + bytes(ss[k - 1].id.0@) + source_bytes(ss[k - 1].source), e + 1)
    }
}

pub open spec fn diagnostic2_bytes(d: Diagnostic) -> nat {
    bytes(d.code@) + bytes(d.message@) + optional_source_bytes(d.source) + optional_id_bytes(
        d.region_id,
    )
}

pub open spec fn diagnostics_bytes(ds: Seq<Diagnostic>, k: nat) -> nat
    decreases k,
{
    if k == 0 {
        0
    } else {
        diagnostics_bytes(ds, (k - 1) as nat) + diagnostic2_bytes(ds[k - 1])
    }
}

/// Font and substitution records, counted as `usize` and saturating there.
pub open spec fn metadata_records(d: DocumentLayout) -> u64 {
    match d.layout_environment {
        Some(e) => {
            let n = e.fonts@.len() + e.font_substitutions@.len();
            (if n > usize::MAX {
                usize::MAX
            } else {
                n as usize
            }) as u64
        },
        None => 0,
    }
}

/// Every string of the document, counted in bytes.
pub open spec fn document_string_bytes(d: DocumentLayout) -> nat {
    bytes(d.format@) + bytes(d.version@) + bytes(d.generator.name@) + bytes(d.generator.version@)
        + bytes(d.source.path@) + (match d.layout_environment {
        Some(e) => environment_bytes(e),
        None => 0,
    }) + sections_sum(d.sections@, d.sections@.len()).0 + diagnostics_bytes(
        d.diagnostics@,
        d.diagnostics@.len(),
    ) + pages_sum(d.pages@, d.pages@.len()).1
}

/// The statistics of a format-2 document, each count capped at `u64::MAX`.
/// Elements are sections, page section geometries and their columns,
/// regions, lines, runs, inline items, path commands, gradient stops,
/// pages, diagnostics and metadata records.
pub open spec fn document_stats(d: DocumentLayout) -> IrStats {
    let (regions, _, elements, lines, text) = pages_sum(d.pages@, d.pages@.len());
    let pages = cap(d.pages@.len() as int);
    let lines = cap(lines as int);
    let diagnostics = cap(d.diagnostics@.len() as int);
    let metadata = metadata_records(d);
    let partial = sections_sum(d.sections@, d.sections@.len()).1 + elements;
    IrStats {
        pages,
        regions: cap(regions as int),
        lines,
        diagnostics,
        metadata_records: metadata,
        text_bytes: cap(text as int),
        string_bytes: cap(document_string_bytes(d) as int),
        elements: cap(partial + pages + lines + diagnostics + metadata),
    }
}

/// The first resource of a document over its limit: the source size, then
/// pages, regions, lines, diagnostics, paragraph text, strings and elements.
pub open spec fn first_exceeded(d: DocumentLayout, limits: ProcessingLimits) -> Option<
    (Seq<char>, u64, u64),
> {
    let s = document_stats(d);
    if d.source.byte_length > limits.max_document_bytes {
        Some(("source document bytes"@, d.source.byte_length, limits.max_document_bytes))
    } else if s.pages > limits.max_pages {
        Some(("pages"@, s.pages, limits.max_pages))
    } else if s.regions > limits.max_regions {
        Some(("regions"@, s.regions, limits.max_regions))
    } else if s.lines > limits.max_lines {
        Some(("lines"@, s.lines, limits.max_lines))
    } else if s.diagnostics > limits.max_diagnostics {
        Some(("diagnostics"@, s.diagnostics, limits.max_diagnostics))
    } else if s.text_bytes > limits.max_text_bytes {
        Some(("paragraph text bytes"@, s.text_bytes, limits.max_text_bytes))
    } else if s.string_bytes > limits.max_string_bytes {
        Some(("IR string bytes"@, s.string_bytes, limits.max_string_bytes))
    } else if s.elements > limits.max_elements {
        Some(("IR elements"@, s.elements, limits.max_elements))
    } else {
        None
    }
}

/// `stats` with `b` more string bytes and `e` more elements.
pub open spec fn grown(stats: IrStats, b: nat, e: nat) -> IrStats {
    IrStats {
        string_bytes: cap(stats.string_bytes + b),
        elements: cap(stats.elements + e),
        ..stats
    }
}

fn add_elements(stats: &mut IrStats, n: usize)
    ensures
        *final(stats) == grown(*old(stats), 0, n as nat),
{
    stats.elements = stats.elements.saturating_add(n as u64);
}

fn add_source(stats: &mut IrStats, source: &SourceRef)
    ensures
        *final(stats) == grown(*old(stats), source_bytes(*source), 0),
{
    add_string_bytes(stats, source.part.as_str());
    add_string_bytes(stats, source.id.as_str());
}

fn add_optional_source(stats: &mut IrStats, source: &Option<SourceRef>)
    ensures
        *final(stats) == grown(*old(stats), optional_source_bytes(*source), 0),
{
    match source {
        Some(s) => add_source(stats, s),
        None => {},
    }
}

fn add_optional_id(stats: &mut IrStats, id: &Option<RegionId>)
    ensures
        *final(stats) == grown(*old(stats), optional_id_bytes(*id), 0),
{
    match id {
        Some(v) => add_string_bytes(stats, v.0.as_str()),
        None => {},
    }
}

fn add_common(stats: &mut IrStats, common: &RegionCommon)
    ensures
        *final(stats) == grown(*old(stats), common_bytes(*common), common_elements(*common)),
{
    add_string_bytes(stats, common.id.0.as_str());
    add_optional_id(stats, &common.parent_id);
    add_optional_id(stats, &common.owner_id);
    match &common.role {
        Some(role) => match &role.provenance {
            RoleProvenance::SourceDeclared { source, declaration } => {
                add_source(stats, source);
                add_string_bytes(stats, declaration.as_str());
            },
            RoleProvenance::Inferred { rule } => add_string_bytes(stats, rule.as_str()),
        },
        None => {},
    }
    match &common.geometry.clip {
        Some(ClipGeometry::Path { path }) => add_elements(stats, path.commands.len()),
        _ => {},
    }
}

fn add_relationship(stats: &mut IrStats, relationship: &RelationshipRef)
    ensures
        *final(stats) == grown(*old(stats), relationship_bytes(*relationship), 0),
{
    add_string_bytes(stats, relationship.source_part.as_str());
    add_string_bytes(stats, relationship.id.as_str());
    add_string_bytes(stats, relationship.target_part.as_str());
}

fn add_floating(stats: &mut IrStats, floating: &FloatingPlacement)
    ensures
        *final(stats) == grown(*old(stats), 0, floating_elements(*floating)),
{
    match &floating.wrap_polygon {
        Some(path) => add_elements(stats, path.commands.len()),
        None => {},
    }
}

fn add_placement(stats: &mut IrStats, placement: &ObjectPlacement)
    ensures
        *final(stats) == grown(*old(stats), 0, placement_elements(*placement)),
{
    match placement {
        ObjectPlacement::Floating { placement } => add_floating(stats, placement),
        ObjectPlacement::Inline => {},
    }
}

fn add_fill(stats: &mut IrStats, fill: &Fill)
    ensures
        *final(stats) == grown(*old(stats), fill_bytes(*fill), fill_elements(*fill)),
{
    match fill {
        Fill::Image { relationship, .. } => add_relationship(stats, relationship),
        Fill::Pattern { preset, .. } => add_string_bytes(stats, preset.as_str()),
        Fill::Gradient { gradient } => add_elements(stats, gradient.stops.len()),
        _ => {},
    }
}

fn add_runs(stats: &mut IrStats, runs: &Vec<ResolvedRun>)
    ensures
        *final(stats) == grown(*old(stats), runs_bytes(runs@, runs@.len()), 0),
{
    let ghost start = *stats;
    let mut i: usize = 0;
    while i < runs.len()
        invariant
            i <= runs.len(),
            *stats == grown(start, runs_bytes(runs@, i as nat), 0),
        decreases runs.len() - i,
    {
        let run = &runs[i];
        add_optional_source(stats, &run.source);
        add_string_bytes(stats, run.typography.font.family.as_str());
        add_optional_bytes(stats, &run.typography.font.postscript_name);
        i += 1;
    }
}

fn add_inlines(stats: &mut IrStats, inlines: &Vec<InlineContent>)
    ensures
        *final(stats) == grown(*old(stats), inlines_bytes(inlines@, inlines@.len()), 0),
{
    let ghost start = *stats;
    let mut i: usize = 0;
    while i < inlines.len()
        invariant
            i <= inlines.len(),
            *stats == grown(start, inlines_bytes(inlines@, i as nat), 0),
        decreases inlines.len() - i,
    {
        let inline = &inlines[i];
        add_optional_source(stats, &inline.source);
        match &inline.kind {
            InlineKind::Field { instruction, .. } => add_string_bytes(stats, instruction.as_str()),
            InlineKind::NoteReference { target_story_id } => add_string_bytes(
                stats,
                target_story_id.0.as_str(),
            ),
            InlineKind::CommentReference { target_story_id } => add_string_bytes(
                stats,
                target_story_id.0.as_str(),
            ),
            InlineKind::Object { target_region_id } => add_string_bytes(
                stats,
                target_region_id.0.as_str(),
            ),
            _ => {},
        }
        i += 1;
    }
}

fn add_ids(stats: &mut IrStats, ids: &Vec<RegionId>)
    ensures
        *final(stats) == grown(*old(stats), ids_bytes(ids@, ids@.len()), 0),
{
    let ghost start = *stats;
    let mut i: usize = 0;
    while i < ids.len()
        invariant
            i <= ids.len(),
            *stats == grown(start, ids_bytes(ids@, i as nat), 0),
        decreases ids.len() - i,
    {
        add_string_bytes(stats, ids[i].0.as_str());
        i += 1;
    }
}

fn add_region(stats: &mut IrStats, region: &Region)
    ensures
        *final(stats) == (IrStats {
            string_bytes: cap(old(stats).string_bytes + region_bytes(*region)),
            elements: cap(old(stats).elements + region_elements(*region)),
            lines: cap(old(stats).lines + region_lines(*region)),
            text_bytes: cap(old(stats).text_bytes + region_text_bytes(*region)),
            ..*old(stats)
        }),
{
    add_elements(stats, 1);
    add_common(stats, region.common());
    add_source(stats, region.source());
    match region {
        Region::Story(story) => add_ids(stats, &story.linked_from),
        Region::Paragraph(paragraph) => {
            stats.lines = stats.lines.saturating_add(paragraph.lines.len() as u64);
            stats.text_bytes = stats.text_bytes.saturating_add(
                paragraph.text.as_str().len() as u64,
            );
            add_string_bytes(stats, paragraph.text.as_str());
            add_elements(stats, paragraph.lines.len());
            add_elements(stats, paragraph.runs.len());
            add_elements(stats, paragraph.content.len());
            add_runs(stats, &paragraph.runs);
            add_inlines(stats, &paragraph.content);
        },
        Region::Table(table) => match &table.floating {
            Some(floating) => add_floating(stats, floating),
            None => {},
        },
        Region::TableCell(cell) => match &cell.fill {
            Some(fill) => add_fill(stats, fill),
            None => {},
        },
        Region::Image(image) => {
            add_relationship(stats, &image.relationship);
            add_placement(stats, &image.placement);
        },
        Region::Shape(shape) => {
            add_elements(stats, shape.path.commands.len());
            add_fill(stats, &shape.fill);
            add_placement(stats, &shape.placement);
        },
        Region::TableRow(_) => {},
    }
}

fn add_page(stats: &mut IrStats, page: &PageLayout)
    ensures
        ({
            let (gs, ge) = geometries_sum(page.section_geometries@, page.section_geometries@.len());
            let (rs, re, rl, rt) = regions_sum(page.regions@, page.regions@.len());
            *final(stats) == (IrStats {
                regions: cap(old(stats).regions + page.regions@.len()),
                string_bytes: cap(old(stats).string_bytes + gs + rs),
                elements: cap(old(stats).elements + ge + re),
                lines: cap(old(stats).lines + rl),
                text_bytes: cap(old(stats).text_bytes + rt),
                ..*old(stats)
            })
        }),
{
    let ghost start = *stats;
    let geometries = &page.section_geometries;
    let mut g: usize = 0;
    while g < geometries.len()
        invariant
            g <= geometries.len(),
            ({
                let (gs, ge) = geometries_sum(geometries@, g as nat);
                *stats == grown(start, gs, ge)
            }),
        decreases geometries.len() - g,
    {
        add_string_bytes(stats, geometries[g].section_id.0.as_str());
        add_elements(stats, 1);
        add_elements(stats, geometries[g].columns.len());
        g += 1;
    }
    stats.regions = stats.regions.saturating_add(page.regions.len() as u64);
    let ghost mid = *stats;
    let regions = &page.regions;
    let mut k: usize = 0;
    while k < regions.len()
        invariant
            k <= regions.len(),
            ({
                let (rs, re, rl, rt) = regions_sum(regions@, k as nat);
                *stats == (IrStats {
                    string_bytes: cap(mid.string_bytes + rs),
                    elements: cap(mid.elements + re),
                    lines: cap(mid.lines + rl),
                    text_bytes: cap(mid.text_bytes + rt),
                    ..mid
                })
            }),
        decreases regions.len() - k,
    {
        add_region(stats, &regions[k]);
        k += 1;
    }
}

fn add_pages(stats: &mut IrStats, pages: &Vec<PageLayout>)
    ensures
        ({
            let (r, s, e, l, t) = pages_sum(pages@, pages@.len());
            *final(stats) == (IrStats {
                regions: cap(old(stats).regions + r),
                string_bytes: cap(old(stats).string_bytes + s),
                elements: cap(old(stats).elements + e),
                lines: cap(old(stats).lines + l),
                text_bytes: cap(old(stats).text_bytes + t),
                ..*old(stats)
            })
        }),
{
    let ghost start = *stats;
    let mut i: usize = 0;
    while i < pages.len()
        invariant
            i <= pages.len(),
            ({
                let (r, s, e, l, t) = pages_sum(pages@, i as nat);
                *stats == (IrStats {
                    regions: cap(start.regions + r),
                    string_bytes: cap(start.string_bytes + s),
                    elements: cap(start.elements + e),
                    lines: cap(start.lines + l),
                    text_bytes: cap(start.text_bytes + t),
                    ..start
                })
            }),
        decreases pages.len() - i,
    {
        add_page(stats, &pages[i]);
        i += 1;
    }
}

fn add_sections(stats: &mut IrStats, sections: &Vec<SectionLayout>)
    ensures
        ({
            let (s, e) = sections_sum(sections@, sections@.len());
            *final(stats) == grown(*old(stats), s, e)
        }),
{
    let ghost start = *stats;
    let mut i: usize = 0;
    while i < sections.len()
        invariant
            i <= sections.len(),
            ({
                let (s, e) = sections_sum(sections@, i as nat);
                *stats == grown(start, s, e)
            }),
        decreases sections.len() - i,
    {
        add_elements(stats, 1);
        add_string_bytes(stats, sections[i].id.0.as_str());
        add_source(stats, &sections[i].source);
        i += 1;
    }
}

fn add_diagnostics(stats: &mut IrStats, ds: &Vec<Diagnostic>)
    ensures
        *final(stats) == grown(*old(stats), diagnostics_bytes(ds@, ds@.len()), 0),
{
    let ghost start = *stats;
    let mut i: usize = 0;
    while i < ds.len()
        invariant
            i <= ds.len(),
            *stats == grown(start, diagnostics_bytes(ds@, i as nat), 0),
        decreases ds.len() - i,
    {
        add_string_bytes(stats, ds[i].code.as_str());
        add_string_bytes(stats, ds[i].message.as_str());
        add_optional_source(stats, &ds[i].source);
        add_optional_id(stats, &ds[i].region_id);
        i += 1;
    }
}

impl DocumentLayout {
    /// Counts pages, regions, lines, diagnostics, metadata records, paragraph
    /// text bytes, string bytes and elements, each saturating at `u64::MAX`.
    pub fn stats(&self) -> (r: IrStats)
        ensures
            r == document_stats(*self),
    {
        let mut stats = IrStats::default();
        stats.pages = self.pages.len() as u64;
        stats.diagnostics = self.diagnostics.len() as u64;
        add_string_bytes(&mut stats, self.format.as_str());
        add_string_bytes(&mut stats, self.version.as_str());
        add_string_bytes(&mut stats, self.generator.name.as_str());
        add_string_bytes(&mut stats, self.generator.version.as_str());
        add_string_bytes(&mut stats, self.source.path.as_str());
        match &self.layout_environment {
            Some(env) => {
                add_environment(&mut stats, env);
                stats.metadata_records = env.fonts.len().saturating_add(
                    env.font_substitutions.len(),
                ) as u64;
            },
            None => {},
        }
        add_sections(&mut stats, &self.sections);
        add_diagnostics(&mut stats, &self.diagnostics);
        add_pages(&mut stats, &self.pages);
        stats.elements = stats.elements.saturating_add(stats.pages).saturating_add(
            stats.lines,
        ).saturating_add(stats.diagnostics).saturating_add(stats.metadata_records);
        stats
    }

    /// Checks the declared source size, then each counted resource, against
    /// the limits, and reports the first one over its limit.
    pub fn check_limits(&self, limits: &ProcessingLimits) -> (r: Result<(), LimitError>)
        ensures
            match first_exceeded(*self, *limits) {
                None => r is Ok,
                Some((resource, observed, limit)) => r matches Err(e) && e.resource@ == resource
                    && e.observed == observed && e.limit == limit,
            },
    {
        check_limit("source document bytes", self.source.byte_length, limits.max_document_bytes)?;
        let stats = self.stats();
        check_limit("pages", stats.pages, limits.max_pages)?;
        check_limit("regions", stats.regions, limits.max_regions)?;
        check_limit("lines", stats.lines, limits.max_lines)?;
        check_limit("diagnostics", stats.diagnostics, limits.max_diagnostics)?;
        check_limit("paragraph text bytes", stats.text_bytes, limits.max_text_bytes)?;
        check_limit("IR string bytes", stats.string_bytes, limits.max_string_bytes)?;
        check_limit("IR elements", stats.elements, limits.max_elements)?;
        Ok(())
    }
}

} // verus!
verus! {

/// Raising the limits never refuses a format-2 document that lower limits accept.
pub proof fn lemma_raising_limits_keeps_acceptance(
    d: DocumentLayout,
    low: ProcessingLimits,
    high: ProcessingLimits,
)
    requires
        first_exceeded(d, low) is None,
        crate::limits::limits_at_least(high, low),
    ensures
        first_exceeded(d, high) is None,
{
}

} // verus!
verus! {

/// The line entries of a list of regions: every paragraph's lines, nothing for other kinds.
pub open spec fn lines_in(rs: Seq<Region>) -> nat
    decreases rs.len(),
{
    if rs.len() == 0 {
        0
    } else {
        (match rs[0] {
            Region::Paragraph(p) => p.lines@.len(),
            _ => 0,
        }) + lines_in(rs.drop_first())
    }
}

/// The line entries of every paragraph region of every page.
pub open spec fn lines_on(ps: Seq<PageLayout>) -> nat
    decreases ps.len(),
{
    if ps.len() == 0 {
        0
    } else {
        lines_in(ps[0].regions@) + lines_on(ps.drop_first())
    }
}

proof fn lemma_lines_in_push(rs: Seq<Region>, r: Region)
    ensures
        lines_in(rs.push(r)) == lines_in(rs) + match r {
            Region::Paragraph(p) => p.lines@.len(),
            _ => 0,
        },
    decreases rs.len(),
{
    if rs.len() > 0 {
        assert(rs.push(r).drop_first() =~= rs.drop_first().push(r));
        assert(rs.push(r)[0] == rs[0]);
        lemma_lines_in_push(rs.drop_first(), r);
    } else {
        assert(rs.push(r).drop_first() =~= Seq::<Region>::empty());
        assert(rs.push(r)[0] == r);
        assert(lines_in(Seq::<Region>::empty()) == 0);
    }
}

proof fn lemma_lines_on_push(ps: Seq<PageLayout>, p: PageLayout)
    ensures
        lines_on(ps.push(p)) == lines_on(ps) + lines_in(p.regions@),
    decreases ps.len(),
{
    if ps.len() > 0 {
        assert(ps.push(p).drop_first() =~= ps.drop_first().push(p));
        assert(ps.push(p)[0] == ps[0]);
        lemma_lines_on_push(ps.drop_first(), p);
    } else {
        assert(ps.push(p).drop_first() =~= Seq::<PageLayout>::empty());
        assert(ps.push(p)[0] == p);
        assert(lines_on(Seq::<PageLayout>::empty()) == 0);
    }
}

proof fn lemma_regions_sum_lines(rs: Seq<Region>, k: nat)
    requires
        k <= rs.len(),
    ensures
        regions_sum(rs, k).2 == lines_in(rs.take(k as int)),
    decreases k,
{
    if k == 0 {
        assert(rs.take(0) =~= Seq::<Region>::empty());
    } else {
        lemma_regions_sum_lines(rs, (k - 1) as nat);
        assert(rs.take(k as int) =~= rs.take(k - 1).push(rs[k - 1]));
        lemma_lines_in_push(rs.take(k - 1), rs[k - 1]);
    }
}

proof fn lemma_pages_sum_lines(ps: Seq<PageLayout>, k: nat)
    requires
        k <= ps.len(),
    ensures
        pages_sum(ps, k).3 == lines_on(ps.take(k as int)),
    decreases k,
{
    if k == 0 {
        assert(ps.take(0) =~= Seq::<PageLayout>::empty());
    } else {
        lemma_pages_sum_lines(ps, (k - 1) as nat);
        let rs = ps[k - 1].regions@;
        lemma_regions_sum_lines(rs, rs.len());
        assert(rs.take(rs.len() as int) =~= rs);
        assert(ps.take(k as int) =~= ps.take(k - 1).push(ps[k - 1]));
        lemma_lines_on_push(ps.take(k - 1), ps[k - 1]);
    }
}

/// `stats().lines` of a format-2 document counts every line entry of every
/// paragraph region on every page (other kinds add none), saturating at
/// `u64::MAX`.
pub proof fn lemma_stats_count_every_line(d: DocumentLayout)
    ensures
        document_stats(d).lines == cap(lines_on(d.pages@) as int),
{
    lemma_pages_sum_lines(d.pages@, d.pages@.len());
    assert(d.pages@.take(d.pages@.len() as int) =~= d.pages@);
}

} // verus!
