//! Counting the size of a format-1 document before it is processed further.

use vstd::prelude::*;

use crate::limits::{check_limit, LimitError, ProcessingLimits};
use crate::model::{
    Diagnostic, DocumentLayout, FontInfo, FontSubstitution, LayoutEnvironment, PageLayout, Region,
};

verus! {

/// Sizes of an IR document, each saturating at `u64::MAX`.
#[derive(Clone, Copy, Debug, PartialEq, Eq, Structural)]
pub struct IrStats {
    pub pages: u64,
    pub regions: u64,
    pub lines: u64,
    pub diagnostics: u64,
    pub metadata_records: u64,
    pub text_bytes: u64,
    pub string_bytes: u64,
    pub elements: u64,
}

impl Default for IrStats {
    fn default() -> (r: Self)
        ensures
            r == (IrStats {
                pages: 0,
                regions: 0,
                lines: 0,
                diagnostics: 0,
                metadata_records: 0,
                text_bytes: 0,
                string_bytes: 0,
                elements: 0,
            }),
    {
        IrStats {
            pages: 0,
            regions: 0,
            lines: 0,
            diagnostics: 0,
            metadata_records: 0,
            text_bytes: 0,
            string_bytes: 0,
            elements: 0,
        }
    }
}

/// `n`, or `u64::MAX` where `n` does not fit.
pub open spec fn cap(n: int) -> u64 {
    if n > u64::MAX {
        u64::MAX
    } else if n < 0 {
        0
    } else {
        n as u64
    }
}

/// The UTF-8 byte length of a string, as `str::len` reports it.
pub open spec fn bytes(s: Seq<char>) -> nat {
    (vstd::utf8::encode_utf8(s).len() as usize) as nat
}

pub open spec fn optional_bytes(s: Option<String>) -> nat {
    match s {
        Some(v) => bytes(v@),
        None => 0,
    }
}

pub open spec fn font_bytes(f: FontInfo) -> nat {
    bytes(f.family@) + optional_bytes(f.postscript_name) + optional_bytes(f.version)
        + optional_bytes(f.file_sha256)
}

pub open spec fn fonts_bytes(fonts: Seq<FontInfo>, k: nat) -> nat
    decreases k,
{
    if k == 0 {
        0
    } else {
        fonts_bytes(fonts, (k - 1) as nat) + font_bytes(fonts[k - 1])
    }
}

pub open spec fn substitution_bytes(s: FontSubstitution) -> nat {
    bytes(s.requested_family@) + bytes(s.resolved_family@) + optional_bytes(
        s.resolved_postscript_name,
    )
}

pub open spec fn substitutions_bytes(subs: Seq<FontSubstitution>, k: nat) -> nat
    decreases k,
{
    if k == 0 {
        0
    } else {
        substitutions_bytes(subs, (k - 1) as nat) + substitution_bytes(subs[k - 1])
    }
}

pub open spec fn environment_bytes(env: LayoutEnvironment) -> nat {
    bytes(env.engine.name@) + bytes(env.engine.version@) + bytes(env.platform.os@) + bytes(
        env.platform.architecture@,
    ) + optional_bytes(env.platform.version) + fonts_bytes(env.fonts@, env.fonts@.len())
        + substitutions_bytes(env.font_substitutions@, env.font_substitutions@.len())
}

pub open spec fn diagnostic_bytes(d: Diagnostic) -> nat {
    bytes(d.code@) + bytes(d.message@) + optional_bytes(d.source_id)
}

pub open spec fn diagnostics_bytes(ds: Seq<Diagnostic>, k: nat) -> nat
    decreases k,
{
    if k == 0 {
        0
    } else {
        diagnostics_bytes(ds, (k - 1) as nat) + diagnostic_bytes(ds[k - 1])
    }
}

/// The strings a region holds: paragraph text or image owner, then its source.
pub open spec fn region_bytes(r: Region) -> nat {
    match r {
        Region::Paragraph(p) => bytes(p.text@) + bytes(p.source.part@) + bytes(p.source.id@),
        Region::Image(i) => optional_bytes(i.owner_id) + bytes(i.source.part@) + bytes(
            i.source.id@,
        ),
    }
}

pub open spec fn region_lines(r: Region) -> nat {
    match r {
        Region::Paragraph(p) => p.lines@.len(),
        Region::Image(_) => 0,
    }
}

pub open spec fn region_text_bytes(r: Region) -> nat {
    match r {
        Region::Paragraph(p) => bytes(p.text@),
        Region::Image(_) => 0,
    }
}

/// Sums of the regions of one page: strings, lines and paragraph text.
pub open spec fn regions_sum(rs: Seq<Region>, k: nat) -> (nat, nat, nat)
    decreases k,
{
    if k == 0 {
        (0, 0, 0)
    } else {
        let (s, l, t) = regions_sum(rs, (k - 1) as nat);
        (s + region_bytes(rs[k - 1]), l + region_lines(rs[k - 1]), t + region_text_bytes(rs[k - 1]))
    }
}

/// Sums over pages: regions, strings, lines and paragraph text.
pub open spec fn pages_sum(ps: Seq<PageLayout>, k: nat) -> (nat, nat, nat, nat)
    decreases k,
{
    if k == 0 {
        (0, 0, 0, 0)
    } else {
        let (r, s, l, t) = pages_sum(ps, (k - 1) as nat);
        let rs = ps[k - 1].regions@;
        let (s2, l2, t2) = regions_sum(rs, rs.len());
        (r + rs.len(), s + s2, l + l2, t + t2)
    }
}

pub open spec fn metadata_records(env: Option<LayoutEnvironment>) -> nat {
    match env {
        Some(e) => e.fonts@.len() + e.font_substitutions@.len(),
        None => 0,
    }
}

/// Every string of the document, counted in bytes.
pub open spec fn document_string_bytes(d: DocumentLayout) -> nat {
    bytes(d.format@) + bytes(d.version@) + bytes(d.generator.name@) + bytes(d.generator.version@)
        + bytes(d.source.path@) + (match d.layout_environment {
        Some(e) => environment_bytes(e),
        None => 0,
    }) + diagnostics_bytes(d.diagnostics@, d.diagnostics@.len()) + pages_sum(
        d.pages@,
        d.pages@.len(),
    ).1
}

/// The statistics of a document: counts and byte totals, each capped at `u64::MAX`.
pub open spec fn document_stats(d: DocumentLayout) -> IrStats {
    let (regions, _, lines, text) = pages_sum(d.pages@, d.pages@.len());
    let pages = cap(d.pages@.len() as int);
    let regions = cap(regions as int);
    let lines = cap(lines as int);
    let diagnostics = cap(d.diagnostics@.len() as int);
    let metadata = cap(metadata_records(d.layout_environment) as int);
    IrStats {
        pages,
        regions,
        lines,
        diagnostics,
        metadata_records: metadata,
        text_bytes: cap(text as int),
        string_bytes: cap(document_string_bytes(d) as int),
        elements: cap(pages + regions + lines + diagnostics + metadata),
    }
}

/// The first resource of a document over its limit: the source size, then
/// pages, regions, lines, diagnostics, paragraph text, strings and elements.
pub open spec fn first_exceeded(d: DocumentLayout, limits: ProcessingLimits) -> Option<
    (Seq<char>, u64, u64),
> {
    let s = document_stats(d);
    if d.source.byte_length > limits.max_document_bytes {
        Some(("source document bytes"@, d.source.byte_length, limits.max_document_bytes))
    } else if s.pages > limits.max_pages {
        Some(("pages"@, s.pages, limits.max_pages))
    } else if s.regions > limits.max_regions {
        Some(("regions"@, s.regions, limits.max_regions))
    } else if s.lines > limits.max_lines {
        Some(("lines"@, s.lines, limits.max_lines))
    } else if s.diagnostics > limits.max_diagnostics {
        Some(("diagnostics"@, s.diagnostics, limits.max_diagnostics))
    } else if s.text_bytes > limits.max_text_bytes {
        Some(("paragraph text bytes"@, s.text_bytes, limits.max_text_bytes))
    } else if s.string_bytes > limits.max_string_bytes {
        Some(("IR string bytes"@, s.string_bytes, limits.max_string_bytes))
    } else if s.elements > limits.max_elements {
        Some(("IR elements"@, s.elements, limits.max_elements))
    } else {
        None
    }
}

/// Adds the byte length of `value` to the string total.
pub(crate) fn add_string_bytes(stats: &mut IrStats, value: &str)
    ensures
        *final(stats) == (IrStats {
            string_bytes: cap(old(stats).string_bytes + bytes(value@)),
            ..*old(stats)
        }),
{
    stats.string_bytes = stats.string_bytes.saturating_add(value.len() as u64);
}

pub(crate) fn add_optional_bytes(stats: &mut IrStats, value: &Option<String>)
    ensures
        *final(stats) == (IrStats {
            string_bytes: cap(old(stats).string_bytes + optional_bytes(*value)),
            ..*old(stats)
        }),
{
    match value {
        Some(v) => add_string_bytes(stats, v.as_str()),
        None => {},
    }
}

fn add_fonts(stats: &mut IrStats, fonts: &Vec<FontInfo>)
    ensures
        *final(stats) == (IrStats {
            string_bytes: cap(old(stats).string_bytes + fonts_bytes(fonts@, fonts@.len())),
            ..*old(stats)
        }),
{
    let ghost start = stats.string_bytes;
    let mut i: usize = 0;
    while i < fonts.len()
        invariant
            i <= fonts.len(),
            *stats == (IrStats {
                string_bytes: cap(start + fonts_bytes(fonts@, i as nat)),
                ..*old(stats)
            }),
        decreases fonts.len() - i,
    {
        let font = &fonts[i];
        add_string_bytes(stats, font.family.as_str());
        add_optional_bytes(stats, &font.postscript_name);
        add_optional_bytes(stats, &font.version);
        add_optional_bytes(stats, &font.file_sha256);
        i += 1;
    }
}

fn add_substitutions(stats: &mut IrStats, subs: &Vec<FontSubstitution>)
    ensures
        *final(stats) == (IrStats {
            string_bytes: cap(old(stats).string_bytes + substitutions_bytes(subs@, subs@.len())),
            ..*old(stats)
        }),
{
    let ghost start = stats.string_bytes;
    let mut i: usize = 0;
    while i < subs.len()
        invariant
            i <= subs.len(),
            *stats == (IrStats {
                string_bytes: cap(start + substitutions_bytes(subs@, i as nat)),
                ..*old(stats)
            }),
        decreases subs.len() - i,
    {
        let sub = &subs[i];
        add_string_bytes(stats, sub.requested_family.as_str());
        add_string_bytes(stats, sub.resolved_family.as_str());
        add_optional_bytes(stats, &sub.resolved_postscript_name);
        i += 1;
    }
}

pub(crate) fn add_environment(stats: &mut IrStats, env: &LayoutEnvironment)
    ensures
        *final(stats) == (IrStats {
            string_bytes: cap(old(stats).string_bytes + environment_bytes(*env)),
            metadata_records: cap((env.fonts@.len() + env.font_substitutions@.len()) as int),
            ..*old(stats)
        }),
{
    add_string_bytes(stats, env.engine.name.as_str());
    add_string_bytes(stats, env.engine.version.as_str());
    add_string_bytes(stats, env.platform.os.as_str());
    add_string_bytes(stats, env.platform.architecture.as_str());
    add_optional_bytes(stats, &env.platform.version);
    stats.metadata_records = (env.fonts.len() as u64).saturating_add(
        env.font_substitutions.len() as u64,
    );
    add_fonts(stats, &env.fonts);
    add_substitutions(stats, &env.font_substitutions);
}

fn add_diagnostics(stats: &mut IrStats, ds: &Vec<Diagnostic>)
    ensures
        *final(stats) == (IrStats {
            string_bytes: cap(old(stats).string_bytes + diagnostics_bytes(ds@, ds@.len())),
            ..*old(stats)
        }),
{
    let ghost start = stats.string_bytes;
    let mut i: usize = 0;
    while i < ds.len()
        invariant
            i <= ds.len(),
            *stats == (IrStats {
                string_bytes: cap(start + diagnostics_bytes(ds@, i as nat)),
                ..*old(stats)
            }),
        decreases ds.len() - i,
    {
        add_string_bytes(stats, ds[i].code.as_str());
        add_string_bytes(stats, ds[i].message.as_str());
        add_optional_bytes(stats, &ds[i].source_id);
        i += 1;
    }
}

fn add_region(stats: &mut IrStats, region: &Region)
    ensures
        *final(stats) == (IrStats {
            string_bytes: cap(old(stats).string_bytes + region_bytes(*region)),
            lines: cap(old(stats).lines + region_lines(*region)),
            text_bytes: cap(old(stats).text_bytes + region_text_bytes(*region)),
            ..*old(stats)
        }),
{
    let source = match region {
        Region::Paragraph(paragraph) => {
            stats.lines = stats.lines.saturating_add(paragraph.lines.len() as u64);
            stats.text_bytes = stats.text_bytes.saturating_add(paragraph.text.as_str().len() as u64);
            add_string_bytes(stats, paragraph.text.as_str());
            &paragraph.source
        },
        Region::Image(image) => {
            add_optional_bytes(stats, &image.owner_id);
            &image.source
        },
    };
    add_string_bytes(stats, source.part.as_str());
    add_string_bytes(stats, source.id.as_str());
}

fn add_pages(stats: &mut IrStats, pages: &Vec<PageLayout>)
    ensures
        ({
            let (r, s, l, t) = pages_sum(pages@, pages@.len());
            *final(stats) == (IrStats {
                regions: cap(old(stats).regions + r),
                string_bytes: cap(old(stats).string_bytes + s),
                lines: cap(old(stats).lines + l),
                text_bytes: cap(old(stats).text_bytes + t),
                ..*old(stats)
            })
        }),
{
    let ghost start = *stats;
    let mut i: usize = 0;
    while i < pages.len()
        invariant
            i <= pages.len(),
            ({
                let (r, s, l, t) = pages_sum(pages@, i as nat);
                *stats == (IrStats {
                    regions: cap(start.regions + r),
                    string_bytes: cap(start.string_bytes + s),
                    lines: cap(start.lines + l),
                    text_bytes: cap(start.text_bytes + t),
                    ..start
                })
            }),
        decreases pages.len() - i,
    {
        let regions = &pages[i].regions;
        stats.regions = stats.regions.saturating_add(regions.len() as u64);
        let ghost mid = *stats;
        let mut k: usize = 0;
        while k < regions.len()
            invariant
                k <= regions.len(),
                ({
                    let (s, l, t) = regions_sum(regions@, k as nat);
                    *stats == (IrStats {
                        string_bytes: cap(mid.string_bytes + s),
                        lines: cap(mid.lines + l),
                        text_bytes: cap(mid.text_bytes + t),
                        ..mid
                    })
                }),
            decreases regions.len() - k,
        {
            add_region(stats, &regions[k]);
            k += 1;
        }
        i += 1;
    }
}

impl DocumentLayout {
    /// Counts pages, regions, lines, diagnostics, metadata records, paragraph
    /// text bytes, string bytes and elements, each saturating at `u64::MAX`.
    pub fn stats(&self) -> (r: IrStats)
        ensures
            r == document_stats(*self),
    {
        let mut stats = IrStats::default();
        stats.pages = self.pages.len() as u64;
        stats.diagnostics = self.diagnostics.len() as u64;
        add_string_bytes(&mut stats, self.format.as_str());
        add_string_bytes(&mut stats, self.version.as_str());
        add_string_bytes(&mut stats, self.generator.name.as_str());
        add_string_bytes(&mut stats, self.generator.version.as_str());
        add_string_bytes(&mut stats, self.source.path.as_str());
        match &self.layout_environment {
            Some(env) => add_environment(&mut stats, env),
            None => {},
        }
        add_diagnostics(&mut stats, &self.diagnostics);
        add_pages(&mut stats, &self.pages);
        stats.elements = stats.pages.saturating_add(stats.regions).saturating_add(
            stats.lines,
        ).saturating_add(stats.diagnostics).saturating_add(stats.metadata_records);
        stats
    }

    /// Checks the declared source size, then each counted resource, against
    /// the limits, and reports the first one over its limit.
    pub fn check_limits(&self, limits: &ProcessingLimits) -> (r: Result<(), LimitError>)
        ensures
            match first_exceeded(*self, *limits) {
                None => r is Ok,
                Some((resource, observed, limit)) => r matches Err(e) && e.resource@ == resource
                    && e.observed == observed && e.limit == limit,
            },
    {
        check_limit("source document bytes", self.source.byte_length, limits.max_document_bytes)?;
        let stats = self.stats();
        check_limit("pages", stats.pages, limits.max_pages)?;
        check_limit("regions", stats.regions, limits.max_regions)?;
        check_limit("lines", stats.lines, limits.max_lines)?;
        check_limit("diagnostics", stats.diagnostics, limits.max_diagnostics)?;
        check_limit("paragraph text bytes", stats.text_bytes, limits.max_text_bytes)?;
        check_limit("IR string bytes", stats.string_bytes, limits.max_string_bytes)?;
        check_limit("IR elements", stats.elements, limits.max_elements)?;
        Ok(())
    }
}

} // verus!
verus! {

/// Raising the limits never refuses a format-1 document that lower limits accept.
pub proof fn lemma_raising_limits_keeps_acceptance(
    d: DocumentLayout,
    low: ProcessingLimits,
    high: ProcessingLimits,
)
    requires
        first_exceeded(d, low) is None,
        crate::limits::limits_at_least(high, low),
    ensures
        first_exceeded(d, high) is None,
{
}

} // verus!
verus! {

/// The line entries of a list of regions: every paragraph's lines, nothing for an image.
pub open spec fn lines_in(rs: Seq<Region>) -> nat
    decreases rs.len(),
{
    if rs.len() == 0 {
        0
    } else {
        (match rs[0] {
            Region::Paragraph(p) => p.lines@.len(),
            Region::Image(_) => 0,
        }) + lines_in(rs.drop_first())
    }
}

/// The line entries of every paragraph region of every page.
pub open spec fn lines_on(ps: Seq<PageLayout>) -> nat
    decreases ps.len(),
{
    if ps.len() == 0 {
        0
    } else {
        lines_in(ps[0].regions@) + lines_on(ps.drop_first())
    }
}

proof fn lemma_lines_in_push(rs: Seq<Region>, r: Region)
    ensures
        lines_in(rs.push(r)) == lines_in(rs) + match r {
            Region::Paragraph(p) => p.lines@.len(),
            Region::Image(_) => 0,
        },
    decreases rs.len(),
{
    if rs.len() > 0 {
        assert(rs.push(r).drop_first() =~= rs.drop_first().push(r));
        assert(rs.push(r)[0] == rs[0]);
        lemma_lines_in_push(rs.drop_first(), r);
    } else {
        assert(rs.push(r).drop_first() =~= Seq::<Region>::empty());
        assert(rs.push(r)[0] == r);
        assert(lines_in(Seq::<Region>::empty()) == 0);
    }
}

proof fn lemma_lines_on_push(ps: Seq<PageLayout>, p: PageLayout)
    ensures
        lines_on(ps.push(p)) == lines_on(ps) + lines_in(p.regions@),
    decreases ps.len(),
{
    if ps.len() > 0 {
        assert(ps.push(p).drop_first() =~= ps.drop_first().push(p));
        assert(ps.push(p)[0] == ps[0]);
        lemma_lines_on_push(ps.drop_first(), p);
    } else {
        assert(ps.push(p).drop_first() =~= Seq::<PageLayout>::empty());
        assert(ps.push(p)[0] == p);
        assert(lines_on(Seq::<PageLayout>::empty()) == 0);
    }
}

proof fn lemma_regions_sum_lines(rs: Seq<Region>, k: nat)
    requires
        k <= rs.len(),
    ensures
        regions_sum(rs, k).1 == lines_in(rs.take(k as int)),
    decreases k,
{
    if k == 0 {
        assert(rs.take(0) =~= Seq::<Region>::empty());
    } else {
        lemma_regions_sum_lines(rs, (k - 1) as nat);
        assert(rs.take(k as int) =~= rs.take(k - 1).push(rs[k - 1]));
        lemma_lines_in_push(rs.take(k - 1), rs[k - 1]);
    }
}

proof fn lemma_pages_sum_lines(ps: Seq<PageLayout>, k: nat)
    requires
        k <= ps.len(),
    ensures
        pages_sum(ps, k).2 == lines_on(ps.take(k as int)),
    decreases k,
{
    if k == 0 {
        assert(ps.take(0) =~= Seq::<PageLayout>::empty());
    } else {
        lemma_pages_sum_lines(ps, (k - 1) as nat);
        let rs = ps[k - 1].regions@;
        lemma_regions_sum_lines(rs, rs.len());
        assert(rs.take(rs.len() as int) =~= rs);
        assert(ps.take(k as int) =~= ps.take(k - 1).push(ps[k - 1]));
        lemma_lines_on_push(ps.take(k - 1), ps[k - 1]);
    }
}

/// `stats().lines` counts every line entry of every paragraph region on every
/// page (an image adds none), saturating at `u64::MAX`; so `check_limits`
/// reports "lines" exactly when that count is over `max_lines` and no earlier
/// resource is over its limit.
pub proof fn lemma_stats_count_every_line(d: DocumentLayout, limits: ProcessingLimits)
    ensures
        document_stats(d).lines == cap(lines_on(d.pages@) as int),
        d.source.byte_length <= limits.max_document_bytes && document_stats(d).pages <= limits.max_pages
            && document_stats(d).regions <= limits.max_regions && cap(lines_on(d.pages@) as int)
            > limits.max_lines ==> first_exceeded(d, limits) == Some(
            ("lines"@, cap(lines_on(d.pages@) as int), limits.max_lines),
        ),
{
    lemma_pages_sum_lines(d.pages@, d.pages@.len());
    assert(d.pages@.take(d.pages@.len() as int) =~= d.pages@);
}


/// The UTF-8 bytes of the text of every paragraph in a list of regions.
pub open spec fn text_in(rs: Seq<Region>) -> nat
    decreases rs.len(),
{
    if rs.len() == 0 {
        0
    } else {
        (match rs[0] {
            Region::Paragraph(p) => bytes(p.text@),
            Region::Image(_) => 0,
        }) + text_in(rs.drop_first())
    }
}

/// Over every page: its regions, and the text bytes of its paragraphs.
pub open spec fn regions_and_text_on(ps: Seq<PageLayout>) -> (nat, nat)
    decreases ps.len(),
{
    if ps.len() == 0 {
        (0, 0)
    } else {
        let (r, t) = regions_and_text_on(ps.drop_first());
        (ps[0].regions@.len() + r, text_in(ps[0].regions@) + t)
    }
}

proof fn lemma_text_in_push(rs: Seq<Region>, r: Region)
    ensures
        text_in(rs.push(r)) == text_in(rs) + match r {
            Region::Paragraph(p) => bytes(p.text@),
            Region::Image(_) => 0,
        },
    decreases rs.len(),
{
    if rs.len() > 0 {
        assert(rs.push(r).drop_first() =~= rs.drop_first().push(r));
        assert(rs.push(r)[0] == rs[0]);
        lemma_text_in_push(rs.drop_first(), r);
    } else {
        assert(rs.push(r).drop_first() =~= Seq::<Region>::empty());
        assert(rs.push(r)[0] == r);
        assert(text_in(Seq::<Region>::empty()) == 0);
    }
}

proof fn lemma_regions_and_text_on_push(ps: Seq<PageLayout>, p: PageLayout)
    ensures
        regions_and_text_on(ps.push(p)).0 == regions_and_text_on(ps).0 + p.regions@.len(),
        regions_and_text_on(ps.push(p)).1 == regions_and_text_on(ps).1 + text_in(p.regions@),
    decreases ps.len(),
{
    if ps.len() > 0 {
        assert(ps.push(p).drop_first() =~= ps.drop_first().push(p));
        assert(ps.push(p)[0] == ps[0]);
        lemma_regions_and_text_on_push(ps.drop_first(), p);
    } else {
        assert(ps.push(p).drop_first() =~= Seq::<PageLayout>::empty());
        assert(ps.push(p)[0] == p);
        assert(regions_and_text_on(Seq::<PageLayout>::empty()) == (0nat, 0nat));
    }
}

proof fn lemma_regions_sum_text(rs: Seq<Region>, k: nat)
    requires
        k <= rs.len(),
    ensures
        regions_sum(rs, k).2 == text_in(rs.take(k as int)),
    decreases k,
{
    if k == 0 {
        assert(rs.take(0) =~= Seq::<Region>::empty());
    } else {
        lemma_regions_sum_text(rs, (k - 1) as nat);
        assert(rs.take(k as int) =~= rs.take(k - 1).push(rs[k - 1]));
        lemma_text_in_push(rs.take(k - 1), rs[k - 1]);
    }
}

proof fn lemma_pages_sum_regions_text(ps: Seq<PageLayout>, k: nat)
    requires
        k <= ps.len(),
    ensures
        pages_sum(ps, k).0 == regions_and_text_on(ps.take(k as int)).0,
        pages_sum(ps, k).3 == regions_and_text_on(ps.take(k as int)).1,
    decreases k,
{
    if k == 0 {
        assert(ps.take(0) =~= Seq::<PageLayout>::empty());
    } else {
        lemma_pages_sum_regions_text(ps, (k - 1) as nat);
        let rs = ps[k - 1].regions@;
        lemma_regions_sum_text(rs, rs.len());
        assert(rs.take(rs.len() as int) =~= rs);
        assert(ps.take(k as int) =~= ps.take(k - 1).push(ps[k - 1]));
        lemma_regions_and_text_on_push(ps.take(k - 1), ps[k - 1]);
    }
}

/// `stats()` counts the pages, the regions of every page, and the UTF-8 bytes
/// of every paragraph's text (images have none), each saturating at
/// `u64::MAX`; the element count is their sum with lines, diagnostics and
/// metadata records, saturating.
pub proof fn lemma_stats_count_regions_and_text(d: DocumentLayout)
    ensures
        document_stats(d).pages == cap(d.pages@.len() as int),
        document_stats(d).regions == cap(regions_and_text_on(d.pages@).0 as int),
        document_stats(d).text_bytes == cap(regions_and_text_on(d.pages@).1 as int),
        document_stats(d).diagnostics == cap(d.diagnostics@.len() as int),
        document_stats(d).elements == cap(
            document_stats(d).pages + document_stats(d).regions + document_stats(d).lines
                + document_stats(d).diagnostics + document_stats(d).metadata_records,
        ),
{
    lemma_pages_sum_regions_text(d.pages@, d.pages@.len());
    assert(d.pages@.take(d.pages@.len() as int) =~= d.pages@);
}


/// `check_limits` fails exactly when some counted resource is over its limit,
/// and what it reports is over its limit: the observed value is the
/// resource's count (or the declared source size) and exceeds the limit.
pub proof fn lemma_check_limits_reports_an_excess(d: DocumentLayout, limits: ProcessingLimits)
    ensures
        first_exceeded(d, limits) is None <==> ({
            let s = document_stats(d);
            &&& d.source.byte_length <= limits.max_document_bytes
            &&& s.pages <= limits.max_pages
            &&& s.regions <= limits.max_regions
            &&& s.lines <= limits.max_lines
            &&& s.diagnostics <= limits.max_diagnostics
            &&& s.text_bytes <= limits.max_text_bytes
            &&& s.string_bytes <= limits.max_string_bytes
            &&& s.elements <= limits.max_elements
        }),
        first_exceeded(d, limits) matches Some((resource, observed, limit)) ==> observed > limit && {
            let s = document_stats(d);
            ||| resource == "source document bytes"@ && observed == d.source.byte_length && limit == limits.max_document_bytes
            ||| resource == "pages"@ && observed == s.pages && limit == limits.max_pages
            ||| resource == "regions"@ && observed == s.regions && limit == limits.max_regions
            ||| resource == "lines"@ && observed == s.lines && limit == limits.max_lines
            ||| resource == "diagnostics"@ && observed == s.diagnostics && limit == limits.max_diagnostics
            ||| resource == "paragraph text bytes"@ && observed == s.text_bytes && limit == limits.max_text_bytes
            ||| resource == "IR string bytes"@ && observed == s.string_bytes && limit == limits.max_string_bytes
            ||| resource == "IR elements"@ && observed == s.elements && limit == limits.max_elements
        },
{
}

} // verus!
