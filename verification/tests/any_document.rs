use typsastra_docx_ir::{
    summary_any, AnyDocumentLayout, AnyValidationErrors, DocumentLayout, GeneratorInfo,
    SourceInfo,
};

fn generator() -> GeneratorInfo {
    GeneratorInfo { name: "test".into(), version: "1".into() }
}

fn source() -> SourceInfo {
    SourceInfo { path: "test.docx".into(), byte_length: 1 }
}

#[test]
fn either_version_reports_its_envelope() {
    let v1 = AnyDocumentLayout::V1(DocumentLayout::new(generator(), source(), Vec::new()));
    let v2 = AnyDocumentLayout::V2(typsastra_docx_ir::v2::DocumentLayout::new(
        typsastra_docx_ir::v2::GeneratorInfo { name: "test".into(), version: "1".into() },
        typsastra_docx_ir::v2::SourceInfo { path: "test.docx".into(), byte_length: 1 },
        Vec::new(),
        Vec::new(),
    ));
    assert_eq!((v1.format(), v1.version()), ("typsastra-docx-ir", "1.0"));
    assert_eq!((v2.format(), v2.version()), ("typsastra-docx-ir", "2.0"));
    assert!(v1.validate(&Vec::new()).is_ok());
    assert!(v2.validate(&Vec::new()).is_ok());
    assert!(summary_any(&v2).contains("recorded sections: 0\n"));
    assert!(summary_any(&v1).contains("No page structure or content regions recorded.\n"));
}

#[test]
fn errors_keep_their_version() {
    let mut document = DocumentLayout::new(generator(), source(), Vec::new());
    document.generator.name = " ".into();
    let any = AnyDocumentLayout::V1(document);
    let errors = any.validate(&Vec::new()).unwrap_err();
    assert!(matches!(errors, AnyValidationErrors::V1(_)));
    assert_eq!(errors.message(), "generator.name: must not be empty");

    let mut document = typsastra_docx_ir::v2::DocumentLayout::new(
        typsastra_docx_ir::v2::GeneratorInfo { name: "test".into(), version: "1".into() },
        typsastra_docx_ir::v2::SourceInfo { path: String::new(), byte_length: 1 },
        Vec::new(),
        Vec::new(),
    );
    document.version = "2.7".into();
    let errors = AnyDocumentLayout::V2(document).validate(&Vec::new()).unwrap_err();
    assert!(matches!(errors, AnyValidationErrors::V2(_)));
    assert_eq!(errors.message(), "source.path: must not be empty");
}
