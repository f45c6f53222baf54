use typsastra_docx_ir::{
    summary, CoverageStatus, DocumentLayout, GeneratorInfo, IdentityKind, LineLayout,
    MeasurementCoverage, Overflow, PageLayout, ParagraphRegion, Pt, Rect, Region, Size,
    SourceInfo, SourceRef,
};

fn pt(value: f32) -> Pt {
    Pt { bits: value.to_bits() }
}

fn rect(x: f32, y: f32, width: f32, height: f32) -> Rect {
    Rect { x: pt(x), y: pt(y), width: pt(width), height: pt(height) }
}

/// One page holding one paragraph without overflow measurements.
fn example() -> DocumentLayout {
    let paragraph = ParagraphRegion {
        source: SourceRef {
            part: "word/document.xml".into(),
            id: "1234ABCD".into(),
            identity: IdentityKind::ParaId,
        },
        segment: 0,
        segment_count: 1,
        text: "Hello".into(),
        frame_bbox_pt: rect(72.0, 72.0, 468.0, 14.0),
        content_bbox_pt: None,
        lines: vec![LineLayout { range_utf8: [0, 5], bbox_pt: rect(72.0, 72.0, 30.0, 14.0) }],
        overflow: None,
    };
    DocumentLayout::new(
        GeneratorInfo { name: "example".into(), version: "1".into() },
        SourceInfo { path: "minimal.docx".into(), byte_length: 1 },
        vec![PageLayout {
            index: 0,
            number: Some(1),
            size_pt: Size { width: pt(612.0), height: pt(792.0) },
            content_bbox_pt: Some(rect(72.0, 72.0, 468.0, 648.0)),
            regions: vec![Region::Paragraph(paragraph)],
        }],
    )
}

#[test]
fn empty_six_page_ir_is_not_layout_verification() {
    let mut document = example();
    let mut page = document.pages[0].clone();
    page.regions.clear();
    document.pages = (0..6)
        .map(|index| {
            let mut page = page.clone();
            page.index = index;
            page
        })
        .collect();
    document.validate().unwrap();
    let text = summary(&document);
    assert!(text.contains("recorded pages: 6"));
    assert!(text.contains("Page structure present. Content geometry absent"));
    assert!(text.contains("Layout quality and overflow cannot be assessed."));
    assert!(text.contains("pagination: unknown"));
}

#[test]
fn missing_overflow_is_not_a_negative_measurement() {
    let text = summary(&example());
    assert!(text.contains("paragraph segments without overflow measurements: 1"));
    assert!(text.contains("overflow: unknown"));
    assert!(text.contains("zero recorded findings is not a pass"));
}

#[test]
fn clipping_and_content_area_excess_are_reported() {
    for overflow in [
        Overflow { clipped: true, ..Overflow::default() },
        Overflow { past_content_area_pt: pt(1.0), ..Overflow::default() },
        Overflow { horizontal: true, ..Overflow::default() },
        Overflow { vertical: true, ..Overflow::default() },
    ] {
        let mut document = example();
        let Region::Paragraph(paragraph) = &mut document.pages[0].regions[0] else {
            panic!("expected paragraph");
        };
        paragraph.overflow = Some(overflow);
        let text = summary(&document);
        assert!(text.contains("paragraph segments with overflow measurements: 1"));
        assert!(text.contains("recorded paragraph segments with overflow or clipping: 1"));
    }
}

#[test]
fn declared_coverage_does_not_claim_verification() {
    let mut document = example();
    document.coverage = Some(MeasurementCoverage {
        pagination: CoverageStatus::Complete,
        text_geometry: CoverageStatus::Partial,
        drawing_appearance: CoverageStatus::Absent,
        ..Default::default()
    });
    let text = summary(&document);
    assert!(text.contains("pagination: complete"));
    assert!(text.contains("text_geometry: partial"));
    assert!(text.contains("drawing_appearance: absent"));
    assert!(text.contains("resolved_typography: unknown"));
    assert!(text.contains("not independently verified"));
}

#[test]
fn summary_text_is_exact() {
    assert_eq!(
        summary(&example()),
        "format: typsastra-docx-ir 1.0\n\
         source: minimal.docx\n\
         recorded pages: 1\n\
         recorded regions: 1\n\
         recorded paragraph segments: 1\n\
         paragraph segments with overflow measurements: 0\n\
         paragraph segments without overflow measurements: 1\n\
         recorded paragraph segments with overflow or clipping: 0\n\
         measurement coverage (producer-declared, not independently verified):\n  \
         pagination: unknown\n  \
         text_geometry: unknown\n  \
         resolved_typography: unknown\n  \
         table_geometry: unknown\n  \
         drawing_appearance: unknown\n  \
         composition_hierarchy: unknown\n  \
         overflow: unknown\n\
         Layout completeness and design quality: not verified; zero recorded findings is not a pass.\n"
    );
}

#[test]
fn negative_zero_excess_and_measured_overflow_are_not_flagged() {
    let mut document = example();
    let Region::Paragraph(paragraph) = &mut document.pages[0].regions[0] else {
        panic!("expected paragraph");
    };
    paragraph.overflow = Some(Overflow { past_content_area_pt: pt(-0.0), ..Overflow::default() });
    let text = summary(&document);
    assert!(text.contains("paragraph segments with overflow measurements: 1"));
    assert!(text.contains("recorded paragraph segments with overflow or clipping: 0"));
}

#[test]
fn empty_document_records_no_page_structure() {
    let mut document = example();
    document.pages.clear();
    let text = summary(&document);
    assert!(text.contains("No page structure or content regions recorded.\n"));
}
