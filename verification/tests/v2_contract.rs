use typsastra_docx_ir::v2::{
    arithmetic_queries, AffineTransform, AnchorAlignment, AnchorReference, ArithmeticAnswer,
    ArithmeticQuery, BoxBorders, CellVerticalAlignment, ClipGeometry, ColumnLayout,
    DocumentLayout, EdgeInsets, Fill, FillRule, FloatingPlacement, GeneratorInfo, GradientFill,
    GradientKind, GradientStop, IdentityKind, ImageRegion, InlineContent, InlineKind, LineCap,
    LineJoin, LineLayout, NormalizedInsets, ObjectPlacement, Overflow, PageFragment, PageLayout,
    PageOrientation, ParagraphAlignment, ParagraphRegion, PathCommand, PathGeometry, Point, Pt,
    Rect, Region, RegionCommon, RegionGeometry, RegionId, RelationshipRef, ResolvedFont,
    ResolvedLineSpacing, ResolvedParagraphStyle, ResolvedRun, ResolvedTypography, RgbaColor,
    RoleAssignment, RoleProvenance, SectionBreakKind, SectionId, SectionLayout,
    SectionPageGeometry, SemanticRole, ShapeRegion, Size, SourceInfo, SourceRef, StoryKind,
    StoryRegion, Stroke, TabAlignment, TableAlignment, TableCellRegion, TableLayoutMode,
    TableRegion, TableRowRegion, TextDirection, WrapMode, WrapSide,
};
use typsastra_docx_ir::{summary_v2, ProcessingLimits};

fn pt(value: f32) -> Pt {
    Pt { bits: value.to_bits() }
}

fn value(p: Pt) -> f32 {
    f32::from_bits(p.bits)
}

/// Answers a query in `f32`, as a caller of the library does.
fn holds(query: &ArithmeticQuery) -> bool {
    match *query {
        ArithmeticQuery::Singular(m) => {
            value(m.m11) * value(m.m22) - value(m.m12) * value(m.m21) == 0.0
        }
        ArithmeticQuery::BaselineOutside { baseline, bbox } => {
            value(baseline) < value(bbox.y) || value(baseline) > value(bbox.y) + value(bbox.height)
        }
        ArithmeticQuery::CropWidthExhausted(n) => value(n.left) + value(n.right) >= 1.0,
        ArithmeticQuery::CropHeightExhausted(n) => value(n.top) + value(n.bottom) >= 1.0,
    }
}

fn answers(document: &DocumentLayout) -> Vec<ArithmeticAnswer> {
    arithmetic_queries(document)
        .into_iter()
        .map(|query| ArithmeticAnswer { query, holds: holds(&query) })
        .collect()
}

fn check(document: &DocumentLayout) -> Result<(), String> {
    document.validate(&answers(document)).map_err(|errors| errors.message())
}

fn source(id: &str) -> SourceRef {
    SourceRef { part: "word/document.xml".into(), id: id.into(), identity: IdentityKind::ParaId }
}

fn rect() -> Rect {
    Rect { x: pt(0.0), y: pt(0.0), width: pt(100.0), height: pt(20.0) }
}

fn common(id: &str, parent: Option<&str>, reading_order: usize) -> RegionCommon {
    RegionCommon {
        id: RegionId(id.into()),
        parent_id: parent.map(|value| RegionId(value.into())),
        owner_id: None,
        reading_order: Some(reading_order),
        role: None,
        geometry: RegionGeometry {
            bbox_pt: rect(),
            local_bbox_pt: rect(),
            local_to_parent: AffineTransform::identity(),
            clip: None,
        },
    }
}

fn common_mut(region: &mut Region) -> &mut RegionCommon {
    match region {
        Region::Story(value) => &mut value.common,
        Region::Paragraph(value) => &mut value.common,
        Region::Table(value) => &mut value.common,
        Region::TableRow(value) => &mut value.common,
        Region::TableCell(value) => &mut value.common,
        Region::Image(value) => &mut value.common,
        Region::Shape(value) => &mut value.common,
    }
}

fn fragment() -> PageFragment {
    PageFragment { index: 0, count: 1, continued_from_previous: false, continues_on_next: false }
}

fn color(red: u8, green: u8, blue: u8, alpha: f32) -> RgbaColor {
    RgbaColor { red, green, blue, alpha: pt(alpha) }
}

fn paragraph_style() -> ResolvedParagraphStyle {
    ResolvedParagraphStyle {
        alignment: ParagraphAlignment::Start,
        direction: TextDirection::LeftToRight,
        spacing_before_pt: pt(0.0),
        spacing_after_pt: pt(0.0),
        line_spacing: ResolvedLineSpacing::Auto { multiplier: pt(1.0) },
        indent_start_pt: pt(0.0),
        indent_end_pt: pt(0.0),
        first_line_indent_pt: pt(0.0),
        borders: BoxBorders::default(),
        shading: None,
        keep_next: false,
        keep_lines: false,
        widow_control: true,
        page_break_before: false,
    }
}

fn paragraph_region() -> ParagraphRegion {
    ParagraphRegion {
        common: common("paragraph", Some("cell"), 0),
        source: source("00000005"),
        fragment: fragment(),
        text: "A\t1".into(),
        frame_bbox_pt: rect(),
        content_bbox_pt: Some(rect()),
        style: paragraph_style(),
        lines: vec![LineLayout {
            range_utf8: [0, 3],
            bbox_pt: rect(),
            baseline_y_pt: pt(10.0),
            ascent_pt: pt(8.0),
            descent_pt: pt(2.0),
        }],
        runs: vec![ResolvedRun {
            source: None,
            range_utf8: [0, 3],
            typography: ResolvedTypography {
                font: ResolvedFont {
                    family: "Aptos".into(),
                    postscript_name: Some("Aptos".into()),
                    face_index: Some(0),
                },
                size_pt: pt(11.0),
                color: color(0, 0, 0, 1.0),
                bold: false,
                italic: false,
                underline: None,
                strike: None,
                letter_spacing_pt: pt(0.0),
                horizontal_scale: pt(1.0),
                baseline_shift_pt: pt(0.0),
            },
        }],
        content: vec![
            InlineContent { range_utf8: [0, 1], source: None, kind: InlineKind::Text },
            InlineContent {
                range_utf8: [1, 2],
                source: None,
                kind: InlineKind::Tab { alignment: Some(TabAlignment::Decimal) },
            },
            InlineContent {
                range_utf8: [2, 3],
                source: None,
                kind: InlineKind::Field { instruction: "PAGE".into(), result_range_utf8: [2, 3] },
            },
        ],
        overflow: Some(Overflow::default()),
    }
}

fn section(id: &str, source_id: &str, index: usize, range: [usize; 2]) -> SectionLayout {
    SectionLayout {
        id: SectionId(id.into()),
        source: source(source_id),
        index,
        page_range: range,
        break_kind: SectionBreakKind::NextPage,
        title_page: false,
        different_odd_even: false,
    }
}

fn page_geometry(section_id: &str) -> SectionPageGeometry {
    SectionPageGeometry {
        section_id: SectionId(section_id.into()),
        margins_pt: EdgeInsets { top: pt(72.0), right: pt(72.0), bottom: pt(72.0), left: pt(72.0) },
        gutter_pt: pt(0.0),
        usable_content_bbox_pt: Rect {
            x: pt(72.0),
            y: pt(72.0),
            width: pt(468.0),
            height: pt(648.0),
        },
        columns: vec![ColumnLayout { index: 0, bbox_pt: rect() }],
    }
}

fn page(index: usize, regions: Vec<Region>, geometries: Vec<SectionPageGeometry>) -> PageLayout {
    PageLayout {
        index,
        number: Some(index as u32 + 1),
        size_pt: Size { width: pt(612.0), height: pt(792.0) },
        orientation: PageOrientation::Portrait,
        section_geometries: geometries,
        regions,
    }
}

fn document(sections: Vec<SectionLayout>, pages: Vec<PageLayout>) -> DocumentLayout {
    DocumentLayout::new(
        GeneratorInfo { name: "test".into(), version: "1".into() },
        SourceInfo { path: "test.docx".into(), byte_length: 1 },
        sections,
        pages,
    )
}

fn story(id: &str) -> Region {
    Region::Story(StoryRegion {
        common: common(id, None, 0),
        source: source("00000001"),
        story_kind: StoryKind::Body,
        occurrence: 0,
        linked_from: Vec::new(),
    })
}

fn comprehensive_document() -> DocumentLayout {
    let table = Region::Table(TableRegion {
        common: common("table", Some("story"), 0),
        source: source("00000002"),
        fragment: fragment(),
        content_bbox_pt: rect(),
        alignment: TableAlignment::Start,
        layout: TableLayoutMode::Fixed,
        cell_spacing_pt: pt(0.0),
        borders: BoxBorders::default(),
        floating: None,
        overflow: Some(Overflow::default()),
    });
    let row = Region::TableRow(TableRowRegion {
        common: common("row", Some("table"), 0),
        source: source("00000003"),
        fragment: fragment(),
        row_index: 0,
        repeated_header: true,
        cannot_split: false,
        grid_before: 0,
        overflow: Some(Overflow::default()),
    });
    let cell = Region::TableCell(TableCellRegion {
        common: common("cell", Some("row"), 0),
        source: source("00000004"),
        fragment: fragment(),
        row_index: 0,
        column_index: 0,
        grid_span: 2,
        row_span: 1,
        content_bbox_pt: rect(),
        padding_pt: EdgeInsets::default(),
        vertical_alignment: CellVerticalAlignment::Top,
        text_direction: TextDirection::LeftToRight,
        borders: BoxBorders::default(),
        fill: Some(Fill::Solid { color: color(240, 240, 240, 1.0) }),
        overflow: Some(Overflow::default()),
    });
    let paragraph = Region::Paragraph(paragraph_region());
    let relationship = RelationshipRef {
        source_part: "word/document.xml".into(),
        id: "rId1".into(),
        target_part: "word/media/image1.png".into(),
    };
    let image = Region::Image(ImageRegion {
        common: common("image", Some("story"), 1),
        source: source("00000006"),
        relationship,
        intrinsic_size_px: Some(Size { width: pt(640.0), height: pt(480.0) }),
        crop: Some(NormalizedInsets { left: pt(0.1), ..NormalizedInsets::default() }),
        placement: ObjectPlacement::Inline,
        opacity: pt(1.0),
    });
    let mut shape_common = common("shape", Some("story"), 2);
    shape_common.role = Some(RoleAssignment {
        role: SemanticRole::Figure,
        provenance: RoleProvenance::Inferred { rule: "drawing_with_visible_geometry".into() },
    });
    shape_common.geometry.local_to_parent = AffineTransform {
        m11: pt(0.0),
        m12: pt(1.0),
        m21: pt(-1.0),
        m22: pt(0.0),
        dx: pt(100.0),
        dy: pt(0.0),
    };
    shape_common.geometry.clip = Some(ClipGeometry::Rect { rect_pt: rect() });
    let shape = Region::Shape(ShapeRegion {
        common: shape_common,
        source: source("00000007"),
        path: PathGeometry {
            fill_rule: FillRule::NonZero,
            commands: vec![
                PathCommand::MoveTo { point: Point { x: pt(0.0), y: pt(0.0) } },
                PathCommand::LineTo { point: Point { x: pt(10.0), y: pt(10.0) } },
                PathCommand::Close,
            ],
        },
        fill: Fill::Solid { color: color(10, 20, 30, 0.5) },
        stroke: Some(Stroke {
            color: color(0, 0, 0, 1.0),
            width_pt: pt(1.0),
            dash_pattern_pt: vec![pt(2.0), pt(1.0)],
            cap: LineCap::Butt,
            join: LineJoin::Miter,
        }),
        opacity: pt(0.75),
        placement: ObjectPlacement::Floating {
            placement: FloatingPlacement {
                horizontal_anchor: AnchorReference::Margin,
                vertical_anchor: AnchorReference::Paragraph,
                horizontal_alignment: Some(AnchorAlignment::Center),
                vertical_alignment: None,
                offset_pt: Point { x: pt(1.0), y: pt(2.0) },
                wrap: WrapMode::Tight { side: WrapSide::Both },
                wrap_polygon: None,
                distance_from_text_pt: EdgeInsets::default(),
                z_order: 1,
                behind_text: false,
                allow_overlap: true,
            },
        },
    });

    document(
        vec![section("section", "00000008", 0, [0, 1])],
        vec![page(
            0,
            vec![story("story"), table, row, cell, paragraph, image, shape],
            vec![page_geometry("section")],
        )],
    )
}

#[test]
fn comprehensive_v2_regions_validate_and_round_trip_canonically() {
    let document = comprehensive_document();
    check(&document).unwrap();
    let stats = document.stats();
    assert_eq!(stats.pages, 1);
    assert_eq!(stats.regions, 7);
    assert_eq!(stats.lines, 1);
    document.check_limits(&ProcessingLimits::default()).unwrap();
    let limits = ProcessingLimits { max_regions: 6, ..ProcessingLimits::default() };
    assert_eq!(document.check_limits(&limits).unwrap_err().resource, "regions");
    for (region, kind) in document.pages[0].regions.iter().zip([
        "story",
        "table",
        "table_row",
        "table_cell",
        "paragraph",
        "image",
        "shape",
    ]) {
        assert_eq!(region.kind_name(), kind);
    }
}

#[test]
fn continuous_sections_can_share_one_physical_page() {
    let mut document = comprehensive_document();
    document.sections.push(SectionLayout {
        break_kind: SectionBreakKind::Continuous,
        ..section("section-continued", "00000009", 1, [0, 1])
    });
    let mut geometry = document.pages[0].section_geometries[0].clone();
    geometry.section_id = SectionId("section-continued".into());
    geometry.usable_content_bbox_pt.y = pt(200.0);
    document.pages[0].section_geometries.push(geometry);
    check(&document).unwrap();
}

#[test]
fn validation_rejects_broken_hierarchy_ranges_and_transforms() {
    let mut document = comprehensive_document();
    common_mut(&mut document.pages[0].regions[1]).parent_id = Some(RegionId("missing".into()));
    let Region::Paragraph(paragraph) = &mut document.pages[0].regions[4] else {
        panic!("paragraph")
    };
    paragraph.lines[0].range_utf8 = [0, 2];
    paragraph.lines[0].baseline_y_pt = pt(30.0);
    let Region::Shape(shape) = &mut document.pages[0].regions[6] else {
        panic!("shape")
    };
    shape.common.geometry.local_to_parent.m22 = pt(0.0);
    shape.common.geometry.local_to_parent.m21 = pt(0.0);

    let errors = check(&document).unwrap_err();
    assert!(errors.contains("parent_id"));
    assert!(errors.contains("UTF-8 code point boundaries") || errors.contains("baseline_y_pt"));
    assert!(errors.contains("invertible"));
}

#[test]
fn broken_hierarchy_errors_are_exact() {
    let mut document = comprehensive_document();
    common_mut(&mut document.pages[0].regions[1]).parent_id = Some(RegionId("missing".into()));
    let Region::Paragraph(paragraph) = &mut document.pages[0].regions[4] else {
        panic!("paragraph")
    };
    paragraph.lines[0].baseline_y_pt = pt(30.0);
    let Region::Shape(shape) = &mut document.pages[0].regions[6] else {
        panic!("shape")
    };
    shape.common.geometry.local_to_parent.m22 = pt(0.0);
    shape.common.geometry.local_to_parent.m21 = pt(0.0);
    assert_eq!(
        check(&document).unwrap_err(),
        "pages[0].regions[4].lines[0].baseline_y_pt: must lie within line bbox_pt\n\
         pages[0].regions[6].geometry.local_to_parent: must be invertible\n\
         pages[0].regions[1].parent_id: must reference a region\n\
         pages[0].regions[5].reading_order: must be contiguous from zero within its parent; expected 0\n\
         pages[0].regions[6].reading_order: must be contiguous from zero within its parent; expected 1"
    );
}

#[test]
fn queries_follow_document_order() {
    let document = comprehensive_document();
    let queries = arithmetic_queries(&document);
    // One transform per region, one baseline per line, two crop checks for the image.
    assert_eq!(queries.len(), 7 + 1 + 2);
    assert_eq!(queries[0], ArithmeticQuery::Singular(AffineTransform::identity()));
    assert!(matches!(queries[5], ArithmeticQuery::BaselineOutside { .. }));
    assert!(matches!(queries[7], ArithmeticQuery::CropWidthExhausted(_)));
    assert!(matches!(queries[8], ArithmeticQuery::CropHeightExhausted(_)));
}

#[test]
fn unanswered_queries_do_not_hold() {
    let mut document = comprehensive_document();
    let Region::Shape(shape) = &mut document.pages[0].regions[6] else {
        panic!("shape")
    };
    shape.common.geometry.local_to_parent.m22 = pt(0.0);
    shape.common.geometry.local_to_parent.m21 = pt(0.0);
    assert!(document.validate(&Vec::new()).is_ok());
    assert!(check(&document).unwrap_err().contains("must be invertible"));
}

#[test]
fn crop_that_removes_everything_is_rejected() {
    let mut document = comprehensive_document();
    let Region::Image(image) = &mut document.pages[0].regions[5] else {
        panic!("image")
    };
    image.crop = Some(NormalizedInsets { left: pt(0.5), right: pt(0.5), ..NormalizedInsets::default() });
    assert_eq!(
        check(&document).unwrap_err(),
        "pages[0].regions[5].crop: left and right crop must leave positive width"
    );
}

#[test]
fn duplicate_region_ids_name_the_latest_earlier_use() {
    let mut document = comprehensive_document();
    common_mut(&mut document.pages[0].regions[5]).id = RegionId("table".into());
    let errors = check(&document).unwrap_err();
    assert!(errors.starts_with(
        "pages[0].regions[5].id: must be unique; first used at pages[0].regions[1]"
    ));
}

#[test]
fn parent_cycles_are_reported() {
    let mut story_a = story("a");
    let mut story_b = story("b");
    common_mut(&mut story_a).parent_id = Some(RegionId("b".into()));
    common_mut(&mut story_b).parent_id = Some(RegionId("a".into()));
    common_mut(&mut story_b).reading_order = None;
    common_mut(&mut story_a).reading_order = None;
    let document = document(
        vec![section("section", "00000008", 0, [0, 1])],
        vec![page(0, vec![story_a, story_b], vec![page_geometry("section")])],
    );
    assert_eq!(
        check(&document).unwrap_err(),
        "pages[0].regions[0].parent_id: references an incompatible composition parent\n\
         pages[0].regions[0].parent_id: must not form a cycle\n\
         pages[0].regions[1].parent_id: references an incompatible composition parent\n\
         pages[0].regions[1].parent_id: must not form a cycle"
    );
}

#[test]
fn reading_order_must_count_from_zero() {
    let mut document = comprehensive_document();
    common_mut(&mut document.pages[0].regions[5]).reading_order = Some(4);
    assert_eq!(
        check(&document).unwrap_err(),
        "pages[0].regions[5].reading_order: must be contiguous from zero within its parent; expected 2\n\
         pages[0].regions[6].reading_order: must be contiguous from zero within its parent; expected 1"
    );
}

#[test]
fn owners_and_links_must_reference_regions() {
    let mut document = comprehensive_document();
    common_mut(&mut document.pages[0].regions[1]).owner_id = Some(RegionId("table".into()));
    let Region::Story(story) = &mut document.pages[0].regions[0] else {
        panic!("story")
    };
    story.linked_from.push(RegionId("nowhere".into()));
    let Region::Paragraph(paragraph) = &mut document.pages[0].regions[4] else {
        panic!("paragraph")
    };
    paragraph.content[0].kind = InlineKind::NoteReference { target_story_id: RegionId("story".into()) };
    assert_eq!(
        check(&document).unwrap_err(),
        "pages[0].regions[1].owner_id: must not reference itself\n\
         pages[0].regions[0].linked_from[0]: must reference a region\n\
         pages[0].regions[4].content[0]: target has the wrong story kind"
    );
}

#[test]
fn fragment_sequences_must_complete_on_later_pages() {
    let mut first = paragraph_region();
    first.common = common("first", Some("story"), 0);
    first.fragment = PageFragment { index: 0, count: 2, continued_from_previous: false, continues_on_next: true };
    let mut second = paragraph_region();
    second.common = common("second", Some("story-2"), 0);
    second.fragment = PageFragment { index: 1, count: 2, continued_from_previous: true, continues_on_next: false };
    second.text = "changed".into();
    second.lines.clear();
    second.runs.clear();
    second.content.clear();
    let document = document(
        vec![section("section", "00000008", 0, [0, 2])],
        vec![
            page(0, vec![story("story"), Region::Paragraph(first.clone())], vec![page_geometry("section")]),
            page(1, vec![story("story-2"), Region::Paragraph(second)], vec![page_geometry("section")]),
        ],
    );
    assert_eq!(
        check(&document).unwrap_err(),
        "pages[1].regions[1].text: must match the logical text of fragment zero"
    );

    let unfinished = document_with_pages(vec![page(
        0,
        vec![story("story"), Region::Paragraph(first)],
        vec![page_geometry("section")],
    )]);
    assert_eq!(
        check(&unfinished).unwrap_err(),
        "pages[0].regions[1].fragment.count: sequence ended before all 2 fragments were present"
    );
}

fn document_with_pages(pages: Vec<PageLayout>) -> DocumentLayout {
    let count = pages.len();
    document(vec![section("section", "00000008", 0, [0, count])], pages)
}

#[test]
fn sections_must_cover_recorded_pages() {
    let mut document = comprehensive_document();
    document.sections.clear();
    document.pages[0].section_geometries.clear();
    assert_eq!(check(&document).unwrap_err(), "sections: must describe every recorded page");

    let mut document = comprehensive_document();
    document.sections[0].page_range = [0, 2];
    document.sections[0].index = 3;
    assert_eq!(
        check(&document).unwrap_err(),
        "sections[0].index: must be 0, got 3\n\
         sections[0].page_range: must be a non-empty ordered range within 1 pages"
    );
}

#[test]
fn unsupported_major_version_is_reported_at_the_root() {
    let mut document = comprehensive_document();
    document.version = "3.0".into();
    assert_eq!(
        check(&document).unwrap_err(),
        "$: unsupported format major version 3 (supported: 1)"
    );
    document.version = "1.0".into();
    assert!(check(&document).unwrap_err().starts_with("$: unsupported format major version 1"));
}

#[test]
fn gradient_stops_must_not_go_backwards() {
    let mut document = comprehensive_document();
    let Region::Shape(shape) = &mut document.pages[0].regions[6] else {
        panic!("shape")
    };
    shape.fill = Fill::Gradient {
        gradient: GradientFill {
            kind: GradientKind::Linear { angle_degrees: pt(90.0) },
            stops: vec![
                GradientStop { position: pt(0.5), color: color(0, 0, 0, 1.0) },
                GradientStop { position: pt(0.25), color: color(0, 0, 0, 1.0) },
                GradientStop { position: pt(0.25), color: color(0, 0, 0, 1.0) },
            ],
        },
    };
    assert_eq!(
        check(&document).unwrap_err(),
        "pages[0].regions[6].fill.gradient.stops[1].position: must not precede the previous stop"
    );
}

#[test]
fn v2_summary_counts_kinds_transforms_and_clips() {
    let text = summary_v2(&comprehensive_document());
    assert!(text.starts_with(
        "format: typsastra-docx-ir 2.0\nsource: test.docx\nrecorded sections: 1\nrecorded pages: 1\n"
    ));
    for line in [
        "recorded regions: 7\n",
        "recorded stories: 1\n",
        "recorded paragraph fragments: 1\n",
        "recorded resolved runs: 1\n",
        "recorded tables: 1\n",
        "recorded table rows: 1\n",
        "recorded table cells: 1\n",
        "recorded images: 1\n",
        "recorded shapes: 1\n",
        "regions with transforms: 1\n",
        "regions with clips: 1\n",
        "regions with overflow measurements: 4\n",
        "regions with overflow or clipping: 0\n",
        "not independently verified",
    ] {
        assert!(text.contains(line), "{line}");
    }
}

#[test]
fn complete_fragment_sequences_are_accepted() {
    let fragment_page = |index: usize| {
        let mut paragraph = paragraph_region();
        paragraph.common = common(&format!("fragment-{index}"), None, 0);
        paragraph.fragment = PageFragment {
            index,
            count: 3,
            continued_from_previous: index > 0,
            continues_on_next: index < 2,
        };
        paragraph.common.parent_id = Some(RegionId(format!("story-{index}")));
        let mut story = story(&format!("story-{index}"));
        common_mut(&mut story).reading_order = Some(0);
        page(index, vec![story, Region::Paragraph(paragraph)], vec![page_geometry("section")])
    };
    let document = document(
        vec![section("section", "00000008", 0, [0, 3])],
        (0..3).map(fragment_page).collect(),
    );
    check(&document).unwrap();
}

#[test]
fn raising_limits_keeps_acceptance() {
    let document = comprehensive_document();
    let tight = ProcessingLimits { max_regions: 7, max_lines: 1, max_pages: 1, ..ProcessingLimits::default() };
    document.check_limits(&tight).unwrap();
    let raised = ProcessingLimits { max_regions: 70, max_lines: 10, max_pages: 10, ..tight };
    document.check_limits(&raised).unwrap();
}

#[test]
fn empty_new_documents_validate() {
    let document = document(Vec::new(), Vec::new());
    check(&document).unwrap();
    let mut blank = document.clone();
    blank.generator.version = "  ".into();
    assert_eq!(check(&blank).unwrap_err(), "generator.version: must not be empty");
    assert!(summary_v2(&document)
        .ends_with("Layout completeness and design quality: not verified; zero recorded findings is not a pass.\n"));
}
