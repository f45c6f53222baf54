use std::io::{BufReader, Cursor, Read};

use typsastra_docx_ir::source_identity::{
    is_valid_structural_path, validate_part_name, W14_NAMESPACE, WML_STRICT_NAMESPACE,
    WML_TRANSITIONAL_NAMESPACE,
};
use typsastra_docx_ir::xml::read_tokens;
use typsastra_docx_ir::{
    extract_paragraph_identities, extract_paragraph_identities_with_spans,
    paragraph_identities_from_tokens, IdentityKind,
    LocatedParagraphIdentity, PackageBudget, ParagraphIdentity, ProcessingLimits,
    SourceIdentityError,
};

const PART: &str = "word/document.xml";

fn extract(xml: &str) -> Result<Vec<ParagraphIdentity>, SourceIdentityError> {
    extract_paragraph_identities(
        "word/document.xml",
        xml.as_bytes(),
        &mut PackageBudget::default(),
        &ProcessingLimits::default(),
    )
}

fn extract_located(xml: &str) -> Vec<LocatedParagraphIdentity> {
    let limits = ProcessingLimits::default();
    let mut plain_budget = PackageBudget::default();
    let plain =
        extract_paragraph_identities(PART, xml.as_bytes(), &mut plain_budget, &limits).unwrap();
    let mut span_budget = PackageBudget::default();
    let located =
        extract_paragraph_identities_with_spans(PART, xml.as_bytes(), &mut span_budget, &limits)
            .unwrap();
    assert_eq!(plain_budget, span_budget);
    assert_eq!(plain, located.iter().map(|item| item.identity.clone()).collect::<Vec<_>>());
    located
}

fn assert_tag(xml: &str, located: &LocatedParagraphIdentity, tag: &str) {
    let start = xml.find(tag).unwrap();
    assert_eq!(located.start_tag_range, start..start + tag.len());
    assert_eq!(&xml.as_bytes()[located.start_tag_range.clone()], tag.as_bytes());
}

#[test]
fn resolves_namespace_aliases_and_normalizes_para_ids() {
    let xml = format!(
        r#"<x:document xmlns:x="{WML_TRANSITIONAL_NAMESPACE}" xmlns:id="{W14_NAMESPACE}"><x:body><x:p id:paraId="abcdef12"/><x:p/></x:body></x:document>"#
    );
    let identities = extract(&xml).unwrap();
    assert_eq!(identities[0].source.id, "ABCDEF12");
    assert_eq!(identities[0].source.identity, IdentityKind::ParaId);
    assert_eq!(identities[1].source.identity, IdentityKind::GeneratedPath);
    assert!(identities[1].source.id.ends_with("}p[2]"));
}

#[test]
fn rejects_invalid_and_duplicate_para_ids() {
    let invalid = format!(
        r#"<w:p xmlns:w="{WML_TRANSITIONAL_NAMESPACE}" xmlns:w14="{W14_NAMESPACE}" w14:paraId="xyz"/>"#
    );
    assert!(matches!(extract(&invalid), Err(SourceIdentityError::InvalidParaId { .. })));

    let duplicate = format!(
        r#"<w:document xmlns:w="{WML_TRANSITIONAL_NAMESPACE}" xmlns:w14="{W14_NAMESPACE}"><w:p w14:paraId="1234ABCD"/><w:p w14:paraId="1234abcd"/></w:document>"#
    );
    assert!(matches!(extract(&duplicate), Err(SourceIdentityError::DuplicateParaId { .. })));
}

#[test]
fn enforces_expanded_part_bytes_before_xml_parsing() {
    let limits = ProcessingLimits { max_zip_entry_expanded_bytes: 4, ..ProcessingLimits::default() };
    let error = extract_paragraph_identities(
        "word/document.xml",
        "<document/>".as_bytes(),
        &mut PackageBudget::default(),
        &limits,
    )
    .unwrap_err();
    assert!(matches!(error, SourceIdentityError::Limit(_)));
}

#[test]
fn rejects_multiple_roots_and_noncanonical_parts() {
    for xml in ["<root/><second/>", "<root>", "<root/><![CDATA[x]]>"] {
        assert!(
            matches!(extract(xml), Err(SourceIdentityError::InvalidXml(_))),
            "accepted {xml:?}"
        );
    }
    for part in [
        "/word/document.xml",
        "word/%2E%2E/evil.xml",
        "word/%ZZ.xml",
        "word/a%2Fb.xml",
        "word/a%5Cb.xml",
        "word/a%00b.xml",
        "word/document.xml.",
        "word/a:b.xml",
        " word/document.xml",
    ] {
        assert!(validate_part_name(part).is_err(), "accepted {part:?}");
    }
}

#[test]
fn structural_path_validation_matches_generated_grammar() {
    assert!(is_valid_structural_path("path-v1:/Q{}document[1]/Q{}p[2]"));
    assert!(is_valid_structural_path("path-v1:/Q{}a\u{0301}[1]"));
    for path in [
        "path-v1:/Q{}not a name[1]",
        "path-v1:/Q{}p[0]",
        "path-v1:/Q{}p[01]",
        "path-v1:/Q{}p[18446744073709551616]",
        "path-v2:/Q{}p[1]",
    ] {
        assert!(!is_valid_structural_path(path), "accepted {path:?}");
    }
}

#[test]
fn exact_tags_preserve_native_ids_and_physical_wrapper_paths() {
    for namespace in [WML_TRANSITIONAL_NAMESPACE, WML_STRICT_NAMESPACE] {
        let xml = format!(
            "\u{feff} \r\n<?probe value?>\n<root xmlns:a='{namespace}' xmlns:b='{namespace}' \
             xmlns:id='{W14_NAMESPACE}' xmlns:x='urn:ignored'>\n\
             <!-- មុន <a:p/> -->\n<x:p/><a:pPr/><a:p id:paraId='abcdef01' label='ខ្មែរ > 😀'>\
             <a:r><a:t>é😀</a:t></a:r></a:p>\n\
             <x:wrap><b:p label=\"é/>\" /><x:p/><a:p></a:p></x:wrap>\n\
             <b:p id:paraId='1234abcd'/><p xmlns='{namespace}' /></root>"
        );
        let located = extract_located(&xml);
        assert_eq!(located.len(), 5);
        for (item, tag) in located.iter().zip([
            "<a:p id:paraId='abcdef01' label='ខ្មែរ > 😀'>",
            "<b:p label=\"é/>\" />",
            "<a:p>",
            "<b:p id:paraId='1234abcd'/>",
            &format!("<p xmlns='{namespace}' />"),
        ]) {
            assert_tag(&xml, item, tag);
        }
        let prefix = "path-v1:/Q{}root[1]";
        let paths = [
            format!("{prefix}/Q{{{namespace}}}p[1]"),
            format!("{prefix}/Q{{urn:ignored}}wrap[1]/Q{{{namespace}}}p[1]"),
            format!("{prefix}/Q{{urn:ignored}}wrap[1]/Q{{{namespace}}}p[2]"),
            format!("{prefix}/Q{{{namespace}}}p[2]"),
            format!("{prefix}/Q{{{namespace}}}p[3]"),
        ];
        for (ordinal, (item, path)) in located.iter().zip(paths).enumerate() {
            assert_eq!(item.identity.ordinal, ordinal);
            assert_eq!(item.identity.structural_path, path);
            assert_eq!(item.identity.source.part, PART);
            if matches!(ordinal, 1 | 2 | 4) {
                assert_eq!(item.identity.source.identity, IdentityKind::GeneratedPath);
                assert_eq!(item.identity.source.id, path);
            } else {
                assert_eq!(item.identity.source.identity, IdentityKind::ParaId);
            }
        }
        assert_eq!(located[0].identity.source.id, "ABCDEF01");
        assert_eq!(located[3].identity.source.id, "1234ABCD");
    }
}

#[test]
fn root_tag_offsets_include_bom_but_exclude_leading_whitespace() {
    for prefix in ["", "\u{feff}", " \r\n\t", "\u{feff} \r\n\t"] {
        for namespace in [WML_TRANSITIONAL_NAMESPACE, WML_STRICT_NAMESPACE] {
            for suffix in ["/>", "></p>"] {
                let xml = format!("{prefix}<p xmlns='{namespace}'{suffix}");
                let located = extract_located(&xml);
                assert_eq!(located.len(), 1);
                let tag_end = xml.find('>').unwrap() + 1;
                assert_eq!(located[0].start_tag_range, prefix.len()..tag_end);
                assert_tag(&xml, &located[0], &xml[prefix.len()..tag_end]);
            }
        }
    }
}

#[test]
fn empty_and_start_tags_have_identical_identities() {
    for namespace in [WML_TRANSITIONAL_NAMESPACE, WML_STRICT_NAMESPACE] {
        for attribute in ["", " id:paraId='ab12cd34'"] {
            let tag = format!("<a:p xmlns:a='{namespace}' xmlns:id='{W14_NAMESPACE}'{attribute}");
            let empty_xml = format!("{tag} />");
            let start_xml = format!("{tag} >text<!-- comment --></a:p>");
            let empty = extract_located(&empty_xml);
            let start = extract_located(&start_xml);
            assert_eq!(empty[0].identity, start[0].identity);
            assert_tag(&empty_xml, &empty[0], &empty_xml);
            assert_tag(&start_xml, &start[0], &format!("{tag} >"));
        }
    }
}

#[test]
fn buffered_readers_and_multibyte_chunk_boundaries_do_not_shift_spans() {
    let xml = format!(
        "\u{feff}\n<root xmlns:w='{WML_TRANSITIONAL_NAMESPACE}'><!-- {} -->\
         <w:p label='😀 >' /><w:p>ខ្មែរ</w:p></root>",
        "é😀ខ្មែរ".repeat(2000)
    );
    let expected = extract_located(&xml);
    assert_tag(&xml, &expected[0], "<w:p label='😀 >' />");
    assert_tag(&xml, &expected[1], "<w:p>");
    let limits = ProcessingLimits::default();
    let mut whole_budget = PackageBudget::default();
    extract_paragraph_identities_with_spans(PART, xml.as_bytes(), &mut whole_budget, &limits)
        .unwrap();
    for capacity in [1, 2, 3, 7, 8192, xml.len() * 2] {
        // Read the part chunk by chunk, charging each chunk as it arrives,
        // then scan the tokens of the bytes read.
        let mut reader = BufReader::with_capacity(capacity, Cursor::new(xml.as_bytes()));
        let mut budget = PackageBudget::default();
        budget.begin_zip_entry(&limits).unwrap();
        let mut bytes = Vec::new();
        let mut chunk = vec![0u8; capacity.min(8192)];
        loop {
            let read = reader.read(&mut chunk).unwrap();
            if read == 0 {
                break;
            }
            budget.add_expanded_bytes(read as u64, &limits).unwrap();
            bytes.extend_from_slice(&chunk[..read]);
        }
        let tokens = read_tokens(&bytes);
        let actual =
            paragraph_identities_from_tokens(PART, &tokens, bytes.len(), &mut budget, &limits)
                .unwrap();
        assert_eq!(actual, expected, "buffer capacity {capacity}");
        assert_eq!(budget, whole_budget, "buffer capacity {capacity}");
    }
}

#[test]
fn both_apis_charge_exactly_once_and_share_errors() {
    let xml = format!("\u{feff}<p xmlns='{WML_TRANSITIONAL_NAMESPACE}'/>");
    let exact = ProcessingLimits {
        max_zip_entries: 1,
        max_zip_entry_expanded_bytes: xml.len() as u64,
        max_zip_total_expanded_bytes: xml.len() as u64,
        max_xml_elements: 1,
        max_xml_nesting_depth: 1,
        ..ProcessingLimits::default()
    };
    for limits in [
        exact.clone(),
        ProcessingLimits { max_zip_entries: 0, ..exact.clone() },
        ProcessingLimits { max_zip_entry_expanded_bytes: xml.len() as u64 - 1, ..exact.clone() },
        ProcessingLimits { max_zip_total_expanded_bytes: xml.len() as u64 - 1, ..exact.clone() },
        ProcessingLimits { max_xml_elements: 0, ..exact.clone() },
        ProcessingLimits { max_xml_nesting_depth: 0, ..exact.clone() },
    ] {
        let mut plain_budget = PackageBudget::default();
        let mut span_budget = PackageBudget::default();
        let plain = extract_paragraph_identities(PART, xml.as_bytes(), &mut plain_budget, &limits);
        let located =
            extract_paragraph_identities_with_spans(PART, xml.as_bytes(), &mut span_budget, &limits);
        assert_eq!(plain_budget, span_budget);
        if limits == exact {
            assert_eq!(
                plain.unwrap(),
                located.unwrap().into_iter().map(|item| item.identity).collect::<Vec<_>>()
            );
        } else {
            assert_eq!(plain.unwrap_err().message(), located.unwrap_err().message());
        }
    }
    for invalid_xml in [
        format!(
            "<p xmlns='{WML_TRANSITIONAL_NAMESPACE}' xmlns:id='{W14_NAMESPACE}' id:paraId='bad'/>"
        ),
        format!(
            "<root xmlns:w='{WML_TRANSITIONAL_NAMESPACE}' xmlns:id='{W14_NAMESPACE}'><w:p id:paraId='abcdef01'/><w:p id:paraId='ABCDEF01'/></root>"
        ),
        "<root><unclosed>".into(),
    ] {
        let mut plain_budget = PackageBudget::default();
        let mut span_budget = PackageBudget::default();
        let limits = ProcessingLimits::default();
        let plain =
            extract_paragraph_identities(PART, invalid_xml.as_bytes(), &mut plain_budget, &limits)
                .unwrap_err();
        let located = extract_paragraph_identities_with_spans(
            PART,
            invalid_xml.as_bytes(),
            &mut span_budget,
            &limits,
        )
        .unwrap_err();
        assert_eq!(plain.message(), located.message());
        assert_eq!(plain_budget, span_budget);
    }
}

#[test]
fn undeclared_prefixes_are_reported_by_name() {
    let error = extract_paragraph_identities(
        "word/document.xml",
        b"<w:document/>",
        &mut PackageBudget::default(),
        &ProcessingLimits::default(),
    )
    .unwrap_err();
    assert_eq!(
        error.message(),
        "invalid WordprocessingML: undeclared namespace prefix \"w\""
    );
}

#[test]
fn generated_paths_are_accepted_by_the_path_grammar() {
    let xml = format!(
        r#"<w:document xmlns:w="{WML_TRANSITIONAL_NAMESPACE}" xmlns:o="urn:a%b}}c"><w:body><o:tbl/><w:p/><o:x><w:p/><w:p/></o:x></w:body></w:document>"#
    );
    let identities = extract(&xml).unwrap();
    assert_eq!(identities.len(), 3);
    for identity in &identities {
        assert_eq!(identity.source.identity, IdentityKind::GeneratedPath);
        assert!(
            is_valid_structural_path(&identity.source.id),
            "rejected {:?}",
            identity.source.id
        );
    }
    assert_eq!(
        identities[2].source.id,
        format!(
            "path-v1:/Q{{{WML_TRANSITIONAL_NAMESPACE}}}document[1]/Q{{{WML_TRANSITIONAL_NAMESPACE}}}body[1]/Q{{urn:a%25b%7Dc}}x[1]/Q{{{WML_TRANSITIONAL_NAMESPACE}}}p[2]"
        )
    );
}

#[test]
fn identities_survive_text_attribute_and_prefix_edits() {
    let baseline = format!(
        r#"<w:document xmlns:w="{WML_TRANSITIONAL_NAMESPACE}" xmlns:w14="{W14_NAMESPACE}"><w:body><w:p w14:paraId="0A1B2C3D"><w:r><w:t>Hello</w:t></w:r></w:p><w:p/><w:tbl><w:tr><w:tc><w:p w:rsidR="00AB"/></w:tc></w:tr></w:tbl></w:body></w:document>"#
    );
    let edited = format!(
        r#"<?xml version="1.0"?><x:document xmlns:x="{WML_TRANSITIONAL_NAMESPACE}" xmlns:id="{W14_NAMESPACE}"><!-- edited --><x:body><x:p x:rsidR="0099" id:paraId="0a1b2c3d"><x:r><x:rPr><x:b/></x:rPr><x:t>Goodbye, world</x:t></x:r></x:p><x:p></x:p><?pi data?><x:tbl><x:tr><x:tc><x:p x:rsidR="00CD" x:rsidRDefault="00EF">text</x:p></x:tc></x:tr></x:tbl></x:body></x:document>"#
    );
    let before = extract(&baseline).unwrap();
    let after = extract(&edited).unwrap();
    assert_eq!(before.len(), 3);
    assert_eq!(before, after);
    assert_eq!(before[0].source.identity, IdentityKind::ParaId);
    assert_eq!(before[0].source.id, "0A1B2C3D");
    assert_eq!(before[1].source.identity, IdentityKind::GeneratedPath);
    assert_eq!(before[2].source.identity, IdentityKind::GeneratedPath);
}
