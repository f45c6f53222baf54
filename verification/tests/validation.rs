use typsastra_docx_ir::{
    DocumentLayout, FontInfo, GeneratorInfo, IdentityKind, LayoutEngineInfo, LayoutEnvironment,
    LineLayout, PageLayout, ParagraphRegion, PlatformInfo, Pt, Rect, Region, Size, SourceInfo,
    SourceRef, FORMAT,
};

fn pt(value: f32) -> Pt {
    Pt { bits: value.to_bits() }
}

fn rect(x: f32, y: f32, width: f32, height: f32) -> Rect {
    Rect { x: pt(x), y: pt(y), width: pt(width), height: pt(height) }
}

fn page(index: usize, regions: Vec<Region>) -> PageLayout {
    PageLayout {
        index,
        number: Some(index as u32 + 1),
        size_pt: Size { width: pt(612.0), height: pt(792.0) },
        content_bbox_pt: None,
        regions,
    }
}

fn document_with(paragraph: ParagraphRegion) -> DocumentLayout {
    DocumentLayout::new(
        GeneratorInfo { name: "test".into(), version: "1".into() },
        SourceInfo { path: "test.docx".into(), byte_length: 1 },
        vec![page(0, vec![Region::Paragraph(paragraph)])],
    )
}

fn document_with_segments(paragraphs: Vec<ParagraphRegion>) -> DocumentLayout {
    let pages = paragraphs
        .into_iter()
        .enumerate()
        .map(|(index, paragraph)| page(index, vec![Region::Paragraph(paragraph)]))
        .collect();
    DocumentLayout::new(
        GeneratorInfo { name: "test".into(), version: "1".into() },
        SourceInfo { path: "test.docx".into(), byte_length: 1 },
        pages,
    )
}

fn paragraph(text: &str, range: [usize; 2]) -> ParagraphRegion {
    ParagraphRegion {
        source: SourceRef {
            part: "word/document.xml".into(),
            id: "A1B2C3D4".into(),
            identity: IdentityKind::ParaId,
        },
        segment: 0,
        segment_count: 1,
        text: text.into(),
        frame_bbox_pt: rect(72.0, 72.0, 468.0, 14.0),
        content_bbox_pt: None,
        lines: vec![LineLayout { range_utf8: range, bbox_pt: rect(72.0, 72.0, 40.0, 14.0) }],
        overflow: None,
    }
}

#[test]
fn new_document_uses_v1_identity() {
    let document = DocumentLayout::new(
        GeneratorInfo { name: "test".into(), version: "0".into() },
        SourceInfo { path: "book.docx".into(), byte_length: 42 },
        Vec::new(),
    );
    assert!(document.is_supported());
    assert_eq!(document.format, FORMAT);
}

#[test]
fn accepts_valid_utf8_line_range() {
    let text = "Khmer ខ្មែរ";
    document_with(paragraph(text, [0, text.len()])).validate().unwrap();
}

#[test]
fn rejects_range_inside_utf8_code_point() {
    let errors = document_with(paragraph("ខ", [0, 1])).validate().unwrap_err();
    assert!(errors.message().contains("UTF-8 code point boundaries"));
}

#[test]
fn rejects_negative_geometry() {
    let mut paragraph = paragraph("text", [0, 4]);
    paragraph.frame_bbox_pt.width = pt(-1.0);
    let errors = document_with(paragraph).validate().unwrap_err();
    assert!(errors.message().contains("width: must be non-negative"));
}

#[test]
fn accepts_complete_cross_page_segment_sequence() {
    let mut first = paragraph("abcdef", [0, 3]);
    first.segment_count = 2;
    let mut second = paragraph("abcdef", [3, 6]);
    second.segment = 1;
    second.segment_count = 2;
    document_with_segments(vec![first, second]).validate().unwrap();
}

#[test]
fn rejects_incomplete_or_inconsistent_segment_sequences() {
    let mut first = paragraph("abcdef", [0, 4]);
    first.segment_count = 2;
    let mut second = paragraph("changed", [3, 7]);
    second.segment = 1;
    second.segment_count = 2;
    let errors = document_with_segments(vec![first, second]).validate().unwrap_err().message();
    assert!(errors.contains("must match the logical text"));
    assert!(errors.contains("must not overlap a previous page segment"));

    let mut incomplete = paragraph("abcdef", [0, 3]);
    incomplete.segment_count = 2;
    let errors = document_with_segments(vec![incomplete]).validate().unwrap_err().message();
    assert!(errors.contains("sequence ended before all 2 segments"));
}

#[test]
fn validates_identity_kind_syntax_and_opc_qualification() {
    let mut invalid = paragraph("text", [0, 4]);
    invalid.source.part = "/word/document.xml".into();
    invalid.source.id = "not-hex".into();
    let errors = document_with(invalid).validate().unwrap_err().message();
    assert!(errors.contains("package-relative OPC part name"));
    assert!(errors.contains("exactly eight uppercase hexadecimal digits"));
}

#[test]
fn rejects_same_page_continuations_and_noncanonical_native_ids() {
    let mut first = paragraph("abcdef", [0, 3]);
    first.segment_count = 2;
    let mut second = paragraph("abcdef", [3, 6]);
    second.segment = 1;
    second.segment_count = 2;
    second.source.id = "a1b2c3d4".into();
    first.source.id = "a1b2c3d4".into();
    let mut document = document_with(first);
    document.pages[0].regions.push(Region::Paragraph(second));

    let errors = document.validate().unwrap_err().message();
    assert!(errors.contains("later physical pages"));
    assert!(errors.contains("uppercase hexadecimal digits"));
}

#[test]
fn rejects_invalid_relationship_ids() {
    let mut image_source = paragraph("text", [0, 4]);
    image_source.source.identity = IdentityKind::RelationshipId;
    image_source.source.id = "not an id".into();
    let errors = document_with(image_source).validate().unwrap_err().message();
    assert!(errors.contains("XML NCName relationship ID"));
}

#[test]
fn validates_layout_environment_metadata() {
    let mut document = document_with(paragraph("text", [0, 4]));
    document.layout_environment = Some(LayoutEnvironment {
        engine: LayoutEngineInfo { name: "engine".into(), version: "1".into() },
        platform: PlatformInfo {
            os: "windows".into(),
            architecture: "x86_64".into(),
            version: None,
        },
        fonts: vec![FontInfo {
            family: "Aptos".into(),
            postscript_name: None,
            version: None,
            file_sha256: Some("ABC".into()),
            face_index: None,
        }],
        font_substitutions: Vec::new(),
    });

    let errors = document.validate().unwrap_err();
    assert!(errors.message().contains("layout_environment.fonts[0].file_sha256"));
}

#[test]
fn reports_every_error_with_its_exact_path_in_document_order() {
    let mut document = document_with(paragraph("text", [0, 4]));
    document.generator.name = "  ".into();
    document.version = "3.0".into();
    document.pages[0].index = 5;
    let errors = document.validate().unwrap_err();
    let pairs: Vec<(String, String)> =
        errors.0.iter().map(|e| (e.path.clone(), e.message.clone())).collect();
    assert_eq!(
        pairs,
        vec![
            ("$".to_string(), "unsupported format major version 3 (supported: 1)".to_string()),
            ("generator.name".to_string(), "must not be empty".to_string()),
            ("pages[0].index".to_string(), "must be 0, got 5".to_string()),
        ]
    );
    assert_eq!(
        errors.message(),
        "$: unsupported format major version 3 (supported: 1)\n\
         generator.name: must not be empty\n\
         pages[0].index: must be 0, got 5"
    );
}

#[test]
fn repeated_independent_cycles_are_accepted() {
    let first = paragraph("abc", [0, 3]);
    let second = paragraph("abc", [0, 3]);
    let mut document = document_with(first);
    document.pages[0].regions.push(Region::Paragraph(second));
    document.validate().unwrap();
}

#[test]
fn a_continuation_without_segment_zero_is_rejected() {
    let mut orphan = paragraph("abc", [0, 3]);
    orphan.segment = 1;
    orphan.segment_count = 2;
    let errors = document_with(orphan).validate().unwrap_err();
    assert_eq!(errors.0[0].path, "pages[0].regions[0].segment");
    assert_eq!(errors.0[0].message, "must follow segment zero for the same source occurrence");
}

#[test]
fn non_finite_and_non_positive_page_sizes_are_rejected() {
    let mut document = document_with(paragraph("text", [0, 4]));
    document.pages[0].size_pt.width = pt(f32::NAN);
    document.pages[0].size_pt.height = pt(0.0);
    let errors = document.validate().unwrap_err().message();
    assert!(errors.contains("pages[0].size_pt.width: must be finite and greater than zero"));
    assert!(errors.contains("pages[0].size_pt.height: must be finite and greater than zero"));
}

#[test]
fn repeated_independent_occurrences_are_accepted() {
    let document = document_with_segments(vec![paragraph("abc", [0, 3]), paragraph("abc", [0, 3])]);
    document.validate().unwrap();
}

#[test]
fn only_strict_major_one_versions_are_supported() {
    let mut document = DocumentLayout::new(
        GeneratorInfo { name: "test".into(), version: "1".into() },
        SourceInfo { path: "book.docx".into(), byte_length: 42 },
        Vec::new(),
    );
    for version in ["1.0", "1.7", "1.65535"] {
        document.version = version.into();
        assert!(document.is_supported(), "{version}");
    }
    for version in ["1.x", "1.00", "1.", "1.01", "01.0", "2.0", "1.65536", ""] {
        document.version = version.into();
        assert!(!document.is_supported(), "{version}");
    }
    document.version = "1.0".into();
    document.format = "other".into();
    assert!(!document.is_supported());
}
