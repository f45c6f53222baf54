use typsastra_docx_ir::{
    check_json_depth, check_limit, DocumentLayout, FontInfo, GeneratorInfo, LayoutEngineInfo,
    LayoutEnvironment, PackageBudget, PlatformInfo, ProcessingLimits, SourceInfo,
};

fn empty_document() -> DocumentLayout {
    DocumentLayout::new(
        GeneratorInfo { name: "test".into(), version: "1".into() },
        SourceInfo { path: "test.docx".into(), byte_length: 1 },
        Vec::new(),
    )
}

#[test]
fn counts_and_limits_ir_elements() {
    let document = empty_document();
    let limits = ProcessingLimits { max_pages: 0, ..ProcessingLimits::default() };
    assert!(document.check_limits(&limits).is_ok());
    let limits = ProcessingLimits {
        max_document_bytes: 0,
        max_pages: 0,
        ..ProcessingLimits::default()
    };
    assert_eq!(document.check_limits(&limits).unwrap_err().resource, "source document bytes");
}

#[test]
fn depth_scanner_ignores_json_punctuation_in_strings() {
    check_json_depth(br#"{"value":"[[[\\\"{{{"}"#, 1).unwrap();
    let error = check_json_depth(b"[[[]]]", 2).unwrap_err();
    assert_eq!(error.resource, "JSON nesting depth");
    assert_eq!(error.observed, 3);
}

#[test]
fn metadata_records_and_strings_participate_in_ir_limits() {
    let mut document = empty_document();
    document.layout_environment = Some(LayoutEnvironment {
        engine: LayoutEngineInfo { name: "engine".into(), version: "1".into() },
        platform: PlatformInfo {
            os: "windows".into(),
            architecture: "x86_64".into(),
            version: None,
        },
        fonts: vec![FontInfo {
            family: "Aptos".into(),
            postscript_name: None,
            version: None,
            file_sha256: None,
            face_index: None,
        }],
        font_substitutions: Vec::new(),
    });
    let stats = document.stats();
    assert_eq!(stats.metadata_records, 1);
    assert!(stats.string_bytes > stats.text_bytes);

    let limits = ProcessingLimits { max_elements: 0, ..ProcessingLimits::default() };
    assert_eq!(document.check_limits(&limits).unwrap_err().resource, "IR elements");
}

#[test]
fn package_budget_stops_zip_expansion_and_xml_growth() {
    let limits = ProcessingLimits {
        max_zip_entries: 1,
        max_zip_entry_expanded_bytes: 3,
        max_xml_elements: 1,
        max_xml_nesting_depth: 2,
        ..ProcessingLimits::default()
    };

    let mut budget = PackageBudget::default();
    budget.begin_zip_entry(&limits).unwrap();
    budget.add_expanded_bytes(3, &limits).unwrap();
    assert_eq!(
        budget.add_expanded_bytes(1, &limits).unwrap_err().resource,
        "expanded ZIP entry bytes"
    );
    assert_eq!(budget.begin_zip_entry(&limits).unwrap_err().resource, "ZIP entries");

    let mut budget = PackageBudget::default();
    budget.observe_xml_element(2, &limits).unwrap();
    assert_eq!(budget.observe_xml_element(2, &limits).unwrap_err().resource, "XML elements");
    let mut budget = PackageBudget::default();
    assert_eq!(budget.observe_xml_element(3, &limits).unwrap_err().resource, "XML nesting depth");
}

#[test]
fn empty_document_statistics_count_every_string_byte() {
    let stats = empty_document().stats();
    // "typsastra-docx-ir" + "1.0" + "test" + "1" + "test.docx"
    assert_eq!(stats.string_bytes, 17 + 3 + 4 + 1 + 9);
    assert_eq!(stats.pages, 0);
    assert_eq!(stats.elements, 0);
}

#[test]
fn limit_errors_render_resource_limit_and_observation() {
    let error = check_limit("pages", 5, 4).unwrap_err();
    assert_eq!(error.message(), "pages exceeds limit of 4 (observed 5)");
    assert!(check_limit("pages", 4, 4).is_ok());
}

#[test]
fn default_limits_match_the_documented_values() {
    let limits = ProcessingLimits::default();
    assert_eq!(limits.max_document_bytes, 100 * 1024 * 1024);
    assert_eq!(limits.max_xml_nesting_depth, 128);
    assert_eq!(limits.max_json_nesting_depth, 64);
    assert_eq!(limits.max_elements, 6_000_000);
}
