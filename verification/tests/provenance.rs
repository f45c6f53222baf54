use typsastra_docx_ir::{
    finish_paginated_paragraph, DocumentLayout, GeneratorInfo, IdentityKind, LineLayout,
    PageLayout, PaginatedParagraph, ParagraphSegmentDraft, Pt, Rect, Region, Size, SourceInfo,
    SourceRef, Sourced,
};

fn draft() -> ParagraphSegmentDraft {
    ParagraphSegmentDraft {
        frame_bbox_pt: Rect::default(),
        content_bbox_pt: None,
        lines: Vec::new(),
        overflow: None,
    }
}

#[test]
fn provenance_survives_stage_mapping_and_page_splitting() {
    let source = SourceRef {
        part: "word/document.xml".into(),
        id: "1234ABCD".into(),
        identity: IdentityKind::ParaId,
    };
    let parsed = Sourced::new(source.clone(), "parsed");
    let styled = parsed.map(|_| "styled");
    let paginated = styled.map(|_| PaginatedParagraph {
        text: "one paragraph".into(),
        segments: vec![draft(), draft()],
    });

    let regions = finish_paginated_paragraph(paginated).unwrap();
    assert_eq!(regions[0].source, source);
    assert_eq!(regions[1].source, source);
    assert_eq!((regions[0].segment, regions[0].segment_count), (0, 2));
    assert_eq!((regions[1].segment, regions[1].segment_count), (1, 2));
}

#[test]
fn a_paragraph_without_segments_is_rejected() {
    let source = SourceRef {
        part: "word/document.xml".into(),
        id: "1234ABCD".into(),
        identity: IdentityKind::ParaId,
    };
    let empty = Sourced::new(source, PaginatedParagraph { text: "x".into(), segments: Vec::new() });
    let error = finish_paginated_paragraph(empty).unwrap_err();
    assert_eq!(error.message(), "a paginated paragraph must contain at least one segment");
}

#[test]
fn sourced_values_keep_their_source_through_every_accessor() {
    let source = SourceRef {
        part: "word/footnotes.xml".into(),
        id: "rId3".into(),
        identity: IdentityKind::RelationshipId,
    };
    let mut value = Sourced::new(source.clone(), 1);
    *value.value_mut() += 1;
    assert_eq!(*value.value(), 2);
    assert_eq!(value.source(), &source);
    let failed: Result<Sourced<i32>, &str> = value.clone().try_map(|_| Err("no"));
    assert_eq!(failed.unwrap_err(), "no");
    let mapped = value.try_map(|v| Ok::<i32, &str>(v * 10)).unwrap();
    let (kept, inner) = mapped.into_parts();
    assert_eq!(kept, source);
    assert_eq!(inner, 20);
}

#[test]
fn every_segment_carries_the_logical_text_and_its_drafts() {
    let source = SourceRef {
        part: "word/document.xml".into(),
        id: "path-v1:/Q{}p[1]".into(),
        identity: IdentityKind::GeneratedPath,
    };
    let paragraph = Sourced::new(
        source.clone(),
        PaginatedParagraph { text: "abc".into(), segments: vec![draft(), draft(), draft()] },
    );
    let regions = finish_paginated_paragraph(paragraph).unwrap();
    assert_eq!(regions.len(), 3);
    for (index, region) in regions.iter().enumerate() {
        assert_eq!(region.source, source);
        assert_eq!(region.text, "abc");
        assert_eq!(region.segment, index);
        assert_eq!(region.segment_count, 3);
    }
}

#[test]
fn finished_segments_on_consecutive_pages_validate() {
    let source = SourceRef {
        part: "word/document.xml".into(),
        id: "1234ABCD".into(),
        identity: IdentityKind::ParaId,
    };
    let pt = |value: f32| Pt { bits: value.to_bits() };
    let line = |range: [usize; 2]| LineLayout {
        range_utf8: range,
        bbox_pt: Rect { x: pt(72.0), y: pt(72.0), width: pt(40.0), height: pt(14.0) },
    };
    let segment = |range: [usize; 2]| ParagraphSegmentDraft { lines: vec![line(range)], ..draft() };
    let paginated = Sourced::new(
        source,
        PaginatedParagraph { text: "abcdef".into(), segments: vec![segment([0, 3]), segment([3, 6])] },
    );
    let pages = finish_paginated_paragraph(paginated)
        .unwrap()
        .into_iter()
        .enumerate()
        .map(|(index, region)| PageLayout {
            index,
            number: None,
            size_pt: Size { width: pt(612.0), height: pt(792.0) },
            content_bbox_pt: None,
            regions: vec![Region::Paragraph(region)],
        })
        .collect();
    DocumentLayout::new(
        GeneratorInfo { name: "test".into(), version: "1".into() },
        SourceInfo { path: "test.docx".into(), byte_length: 1 },
        pages,
    )
    .validate()
    .unwrap();
}

#[test]
fn identity_and_chained_maps_keep_the_source() {
    let source = SourceRef {
        part: "word/footnotes.xml".into(),
        id: "path-v1:/Q{}footnotes[1]/Q{}p[3]".into(),
        identity: IdentityKind::GeneratedPath,
    };
    let original = Sourced::new(source.clone(), 7u32);
    let same = original.clone().map(|x| x);
    assert_eq!(same, original);
    let chained = original.map(|x| x + 1).map(|x| x * 10).map(|x| x.to_string());
    assert_eq!(chained.source(), &source);
    assert_eq!(chained.value(), "80");
}
