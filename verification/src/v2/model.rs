//! The format-2 layout model.

use vstd::prelude::*;

pub use crate::model::{
    CoverageStatus, FontInfo, FontSubstitution, GeneratorInfo, LayoutEngineInfo, LayoutEnvironment,
    MeasurementCoverage, Overflow, PlatformInfo, Pt, Rect, Severity, Size, SourceInfo,
};

use crate::compatibility::{
    check_major, check_major_error, check_major_result, CompatibilityError, FormatVersion,
};
use crate::FORMAT;

verus! {

/// The format version written by the format-2 constructors.
pub const VERSION: &'static str = "2.0";

/// The format major version that the format-2 model reads.
pub const SUPPORTED_MAJOR_VERSION: u16 = 2;

/// A format-2 document.
#[derive(Clone, Debug, PartialEq, Eq)]
pub struct DocumentLayout {
    pub format: String,
    pub version: String,
    pub generator: GeneratorInfo,
    pub layout_environment: Option<LayoutEnvironment>,
    pub source: SourceInfo,
    /// Producer-declared measurement coverage, not independent verification.
    pub coverage: Option<MeasurementCoverage>,
    pub sections: Vec<SectionLayout>,
    pub pages: Vec<PageLayout>,
    pub diagnostics: Vec<Diagnostic>,
}

impl DocumentLayout {
    /// A document of this format and version, without metadata, coverage or diagnostics.
    pub fn new(
        generator: GeneratorInfo,
        source: SourceInfo,
        sections: Vec<SectionLayout>,
        pages: Vec<PageLayout>,
    ) -> (r: Self)
        ensures
            r.format@ == FORMAT@,
            r.version@ == VERSION@,
            r.generator == generator,
            r.source == source,
            r.sections == sections,
            r.pages == pages,
            r.layout_environment is None,
            r.coverage is None,
            r.diagnostics@.len() == 0,
    {
        DocumentLayout {
            format: String::from_str(FORMAT),
            version: String::from_str(VERSION),
            generator,
            layout_environment: None,
            source,
            coverage: None,
            sections,
            pages,
            diagnostics: Vec::new(),
        }
    }

    /// Checks the format name and that the version is a supported `2.x`.
    pub fn compatibility(&self) -> (r: Result<FormatVersion, CompatibilityError>)
        ensures
            match r {
                Ok(v) => check_major_result(self.format@, self.version@, SUPPORTED_MAJOR_VERSION)
                    == Some(v),
                Err(e) => check_major_result(self.format@, self.version@, SUPPORTED_MAJOR_VERSION)
                    is None && check_major_error(e, self.format@, self.version@),
            },
    {
        check_major(self.format.as_str(), self.version.as_str(), SUPPORTED_MAJOR_VERSION)
    }

    /// Whether the format and version are supported.
    pub fn is_supported(&self) -> (r: bool)
        ensures
            r == check_major_result(self.format@, self.version@, SUPPORTED_MAJOR_VERSION) is Some,
    {
        self.compatibility().is_ok()
    }
}

/// A source identity: the complete tuple `(part, identity, id)`.
#[derive(Clone, Debug, PartialEq, Eq)]
pub struct SourceRef {
    pub part: String,
    pub id: String,
    pub identity: IdentityKind,
}

/// How a format-2 source ID was obtained.
#[derive(Clone, Copy, Debug, PartialEq, Eq, Structural)]
pub enum IdentityKind {
    ParaId,
    RelationshipId,
    WordId,
    DrawingId,
    GeneratedPath,
}

/// The ID of a laid-out region instance; not a source identity.
#[derive(Clone, Debug, PartialEq, Eq)]
pub struct RegionId(pub String);

#[derive(Clone, Debug, PartialEq, Eq)]
pub struct SectionId(pub String);

#[derive(Clone, Debug, PartialEq, Eq)]
pub struct SectionLayout {
    pub id: SectionId,
    pub source: SourceRef,
    pub index: usize,
    /// Half-open physical page range.
    pub page_range: [usize; 2],
    pub break_kind: SectionBreakKind,
    pub title_page: bool,
    pub different_odd_even: bool,
}

#[derive(Clone, Copy, Debug, PartialEq, Eq, Structural)]
pub enum SectionBreakKind {
    NextPage,
    Continuous,
    EvenPage,
    OddPage,
    NextColumn,
}

#[derive(Clone, Debug, PartialEq, Eq)]
pub struct PageLayout {
    pub index: usize,
    pub number: Option<u32>,
    pub size_pt: Size,
    pub orientation: PageOrientation,
    /// Resolved geometry for every section occurring on this physical page.
    pub section_geometries: Vec<SectionPageGeometry>,
    pub regions: Vec<Region>,
}

#[derive(Clone, Copy, Debug, PartialEq, Eq, Structural)]
pub enum PageOrientation {
    Portrait,
    Landscape,
}

#[derive(Clone, Debug, PartialEq, Eq)]
pub struct SectionPageGeometry {
    pub section_id: SectionId,
    pub margins_pt: EdgeInsets,
    pub gutter_pt: Pt,
    pub usable_content_bbox_pt: Rect,
    pub columns: Vec<ColumnLayout>,
}

#[derive(Clone, Copy, Debug, PartialEq, Eq, Structural)]
pub struct ColumnLayout {
    pub index: usize,
    pub bbox_pt: Rect,
}

/// What every region has: identity, hierarchy, reading order, role and geometry.
#[derive(Clone, Debug, PartialEq, Eq)]
pub struct RegionCommon {
    pub id: RegionId,
    pub parent_id: Option<RegionId>,
    pub owner_id: Option<RegionId>,
    pub reading_order: Option<usize>,
    pub role: Option<RoleAssignment>,
    pub geometry: RegionGeometry,
}

#[derive(Clone, Debug, PartialEq, Eq)]
pub struct RoleAssignment {
    pub role: SemanticRole,
    pub provenance: RoleProvenance,
}

#[derive(Clone, Copy, Debug, PartialEq, Eq, Structural)]
pub enum SemanticRole {
    Body,
    Heading { level: u8 },
    ListItem,
    ListLabel,
    Caption,
    Header,
    Footer,
    Footnote,
    Endnote,
    Comment,
    Table,
    TableHeader,
    TableCell,
    Figure,
    Decorative,
    TextBox,
}

#[derive(Clone, Debug, PartialEq, Eq)]
pub enum RoleProvenance {
    SourceDeclared { source: SourceRef, declaration: String },
    Inferred { rule: String },
}

#[derive(Clone, Debug, PartialEq, Eq)]
pub struct RegionGeometry {
    /// Axis-aligned envelope in page coordinates.
    pub bbox_pt: Rect,
    /// Bounds in the region's local coordinates.
    pub local_bbox_pt: Rect,
    /// Affine mapping from local coordinates into parent coordinates.
    pub local_to_parent: AffineTransform,
    pub clip: Option<ClipGeometry>,
}

#[derive(Clone, Copy, Debug, PartialEq, Eq, Structural)]
pub struct AffineTransform {
    pub m11: Pt,
    pub m12: Pt,
    pub m21: Pt,
    pub m22: Pt,
    pub dx: Pt,
    pub dy: Pt,
}

/// The bit pattern of `1.0`.
pub const ONE_BITS: u32 = 0x3F80_0000;

impl AffineTransform {
    /// The transform that maps every point to itself.
    pub fn identity() -> (r: Self)
        ensures
            r.m11.bits == ONE_BITS && r.m22.bits == ONE_BITS,
            r.m12.bits == 0 && r.m21.bits == 0 && r.dx.bits == 0 && r.dy.bits == 0,
    {
        AffineTransform {
            m11: Pt { bits: ONE_BITS },
            m12: Pt { bits: 0 },
            m21: Pt { bits: 0 },
            m22: Pt { bits: ONE_BITS },
            dx: Pt { bits: 0 },
            dy: Pt { bits: 0 },
        }
    }
}

impl Default for AffineTransform {
    /// The identity.
    fn default() -> (r: Self)
        ensures
            r.m11.bits == ONE_BITS && r.m22.bits == ONE_BITS,
            r.m12.bits == 0 && r.m21.bits == 0 && r.dx.bits == 0 && r.dy.bits == 0,
    {
        AffineTransform::identity()
    }
}

#[derive(Clone, Debug, PartialEq, Eq)]
pub enum ClipGeometry {
    Rect { rect_pt: Rect },
    Path { path: PathGeometry },
}

#[derive(Clone, Debug, PartialEq, Eq)]
pub struct PathGeometry {
    pub fill_rule: FillRule,
    pub commands: Vec<PathCommand>,
}

#[derive(Clone, Copy, Debug, PartialEq, Eq, Structural)]
pub enum FillRule {
    NonZero,
    EvenOdd,
}

#[derive(Clone, Copy, Debug, PartialEq, Eq, Structural)]
pub enum PathCommand {
    MoveTo { point: Point },
    LineTo { point: Point },
    CubicTo { control1: Point, control2: Point, point: Point },
    Close,
}

#[derive(Clone, Copy, Debug, PartialEq, Eq, Structural)]
pub struct Point {
    pub x: Pt,
    pub y: Pt,
}

impl Default for Point {
    /// The origin.
    fn default() -> (r: Self)
        ensures
            r.x.bits == 0 && r.y.bits == 0,
    {
        Point { x: Pt { bits: 0 }, y: Pt { bits: 0 } }
    }
}

/// A laid-out region of a page.
#[derive(Clone, Debug, PartialEq, Eq)]
pub enum Region {
    Story(StoryRegion),
    Paragraph(ParagraphRegion),
    Table(TableRegion),
    TableRow(TableRowRegion),
    TableCell(TableCellRegion),
    Image(ImageRegion),
    Shape(ShapeRegion),
}

/// The common part of a region.
pub open spec fn common_of(r: Region) -> RegionCommon {
    match r {
        Region::Story(v) => v.common,
        Region::Paragraph(v) => v.common,
        Region::Table(v) => v.common,
        Region::TableRow(v) => v.common,
        Region::TableCell(v) => v.common,
        Region::Image(v) => v.common,
        Region::Shape(v) => v.common,
    }
}

/// The source identity of a region.
pub open spec fn source_of(r: Region) -> SourceRef {
    match r {
        Region::Story(v) => v.source,
        Region::Paragraph(v) => v.source,
        Region::Table(v) => v.source,
        Region::TableRow(v) => v.source,
        Region::TableCell(v) => v.source,
        Region::Image(v) => v.source,
        Region::Shape(v) => v.source,
    }
}

/// The format's name for the kind of a region.
pub open spec fn kind_name_of(r: Region) -> Seq<char> {
    match r {
        Region::Story(_) => "story"@,
        Region::Paragraph(_) => "paragraph"@,
        Region::Table(_) => "table"@,
        Region::TableRow(_) => "table_row"@,
        Region::TableCell(_) => "table_cell"@,
        Region::Image(_) => "image"@,
        Region::Shape(_) => "shape"@,
    }
}

impl Region {
    pub fn common(&self) -> (r: &RegionCommon)
        ensures
            *r == common_of(*self),
    {
        match self {
            Region::Story(value) => &value.common,
            Region::Paragraph(value) => &value.common,
            Region::Table(value) => &value.common,
            Region::TableRow(value) => &value.common,
            Region::TableCell(value) => &value.common,
            Region::Image(value) => &value.common,
            Region::Shape(value) => &value.common,
        }
    }

    /// The name of the region's kind as the format spells it.
    pub fn kind_name(&self) -> (r: &'static str)
        ensures
            r@ == kind_name_of(*self),
    {
        match self {
            Region::Story(_) => "story",
            Region::Paragraph(_) => "paragraph",
            Region::Table(_) => "table",
            Region::TableRow(_) => "table_row",
            Region::TableCell(_) => "table_cell",
            Region::Image(_) => "image",
            Region::Shape(_) => "shape",
        }
    }

    pub fn source(&self) -> (r: &SourceRef)
        ensures
            *r == source_of(*self),
    {
        match self {
            Region::Story(value) => &value.source,
            Region::Paragraph(value) => &value.source,
            Region::Table(value) => &value.source,
            Region::TableRow(value) => &value.source,
            Region::TableCell(value) => &value.source,
            Region::Image(value) => &value.source,
            Region::Shape(value) => &value.source,
        }
    }
}

#[derive(Clone, Debug, PartialEq, Eq)]
pub struct StoryRegion {
    pub common: RegionCommon,
    pub source: SourceRef,
    pub story_kind: StoryKind,
    pub occurrence: usize,
    pub linked_from: Vec<RegionId>,
}

#[derive(Clone, Copy, Debug, PartialEq, Eq, Structural)]
pub enum StoryKind {
    Body,
    Header,
    Footer,
    Footnote,
    Endnote,
    Comment,
    TextBox,
}

/// Which page fragment of a source occurrence a region is.
#[derive(Clone, Copy, Debug, PartialEq, Eq, Structural)]
pub struct PageFragment {
    pub index: usize,
    pub count: usize,
    pub continued_from_previous: bool,
    pub continues_on_next: bool,
}

#[derive(Clone, Debug, PartialEq, Eq)]
pub struct ParagraphRegion {
    pub common: RegionCommon,
    pub source: SourceRef,
    pub fragment: PageFragment,
    pub text: String,
    pub frame_bbox_pt: Rect,
    pub content_bbox_pt: Option<Rect>,
    pub style: ResolvedParagraphStyle,
    pub lines: Vec<LineLayout>,
    pub runs: Vec<ResolvedRun>,
    pub content: Vec<InlineContent>,
    pub overflow: Option<Overflow>,
}

#[derive(Clone, Copy, Debug, PartialEq, Eq)]
pub struct LineLayout {
    pub range_utf8: [usize; 2],
    pub bbox_pt: Rect,
    pub baseline_y_pt: Pt,
    pub ascent_pt: Pt,
    pub descent_pt: Pt,
}

#[derive(Clone, Debug, PartialEq, Eq)]
pub struct ResolvedRun {
    pub source: Option<SourceRef>,
    pub range_utf8: [usize; 2],
    pub typography: ResolvedTypography,
}

#[derive(Clone, Debug, PartialEq, Eq)]
pub struct ResolvedTypography {
    pub font: ResolvedFont,
    pub size_pt: Pt,
    pub color: RgbaColor,
    pub bold: bool,
    pub italic: bool,
    pub underline: Option<TextDecoration>,
    pub strike: Option<TextDecoration>,
    pub letter_spacing_pt: Pt,
    pub horizontal_scale: Pt,
    pub baseline_shift_pt: Pt,
}

#[derive(Clone, Debug, PartialEq, Eq)]
pub struct ResolvedFont {
    pub family: String,
    pub postscript_name: Option<String>,
    pub face_index: Option<u32>,
}

#[derive(Clone, Copy, Debug, PartialEq, Eq, Structural)]
pub struct TextDecoration {
    pub style: DecorationStyle,
    pub color: RgbaColor,
    pub width_pt: Option<Pt>,
}

#[derive(Clone, Copy, Debug, PartialEq, Eq, Structural)]
pub enum DecorationStyle {
    Single,
    Double,
    Dotted,
    Dashed,
    Wavy,
}

#[derive(Clone, Copy, Debug, PartialEq, Eq, Structural)]
pub struct ResolvedParagraphStyle {
    pub alignment: ParagraphAlignment,
    pub direction: TextDirection,
    pub spacing_before_pt: Pt,
    pub spacing_after_pt: Pt,
    pub line_spacing: ResolvedLineSpacing,
    pub indent_start_pt: Pt,
    pub indent_end_pt: Pt,
    pub first_line_indent_pt: Pt,
    pub borders: BoxBorders,
    pub shading: Option<RgbaColor>,
    pub keep_next: bool,
    pub keep_lines: bool,
    pub widow_control: bool,
    pub page_break_before: bool,
}

#[derive(Clone, Copy, Debug, PartialEq, Eq, Structural)]
pub enum ParagraphAlignment {
    Start,
    End,
    Left,
    Right,
    Center,
    Justified,
    Distributed,
}

#[derive(Clone, Copy, Debug, PartialEq, Eq, Structural)]
pub enum TextDirection {
    LeftToRight,
    RightToLeft,
    Vertical,
}

#[derive(Clone, Copy, Debug, PartialEq, Eq, Structural)]
pub enum ResolvedLineSpacing {
    Auto { multiplier: Pt },
    Exact { value_pt: Pt },
    AtLeast { value_pt: Pt },
}

#[derive(Clone, Debug, PartialEq, Eq)]
pub struct InlineContent {
    pub range_utf8: [usize; 2],
    pub source: Option<SourceRef>,
    pub kind: InlineKind,
}

#[derive(Clone, Debug, PartialEq, Eq)]
pub enum InlineKind {
    Text,
    Tab { alignment: Option<TabAlignment> },
    Break { break_kind: BreakKind },
    Field { instruction: String, result_range_utf8: [usize; 2] },
    ListLabel,
    NoteReference { target_story_id: RegionId },
    CommentReference { target_story_id: RegionId },
    Object { target_region_id: RegionId },
}

#[derive(Clone, Copy, Debug, PartialEq, Eq, Structural)]
pub enum TabAlignment {
    Left,
    Center,
    Right,
    Decimal,
    Bar,
}

#[derive(Clone, Copy, Debug, PartialEq, Eq, Structural)]
pub enum BreakKind {
    Line,
    Page,
    Column,
}

#[derive(Clone, Debug, PartialEq, Eq)]
pub struct TableRegion {
    pub common: RegionCommon,
    pub source: SourceRef,
    pub fragment: PageFragment,
    pub content_bbox_pt: Rect,
    pub alignment: TableAlignment,
    pub layout: TableLayoutMode,
    pub cell_spacing_pt: Pt,
    pub borders: BoxBorders,
    pub floating: Option<FloatingPlacement>,
    pub overflow: Option<Overflow>,
}

#[derive(Clone, Debug, PartialEq, Eq)]
pub struct TableRowRegion {
    pub common: RegionCommon,
    pub source: SourceRef,
    pub fragment: PageFragment,
    pub row_index: usize,
    pub repeated_header: bool,
    pub cannot_split: bool,
    pub grid_before: u32,
    pub overflow: Option<Overflow>,
}

#[derive(Clone, Debug, PartialEq, Eq)]
pub struct TableCellRegion {
    pub common: RegionCommon,
    pub source: SourceRef,
    pub fragment: PageFragment,
    pub row_index: usize,
    pub column_index: usize,
    pub grid_span: u32,
    pub row_span: u32,
    pub content_bbox_pt: Rect,
    pub padding_pt: EdgeInsets,
    pub vertical_alignment: CellVerticalAlignment,
    pub text_direction: TextDirection,
    pub borders: BoxBorders,
    pub fill: Option<Fill>,
    pub overflow: Option<Overflow>,
}

#[derive(Clone, Copy, Debug, PartialEq, Eq, Structural)]
pub enum TableAlignment {
    Start,
    Center,
    End,
}

#[derive(Clone, Copy, Debug, PartialEq, Eq, Structural)]
pub enum TableLayoutMode {
    AutoFit,
    Fixed,
}

#[derive(Clone, Copy, Debug, PartialEq, Eq, Structural)]
pub enum CellVerticalAlignment {
    Top,
    Center,
    Bottom,
    Both,
}

/// A relationship from a source part to a target part.
#[derive(Clone, Debug, PartialEq, Eq)]
pub struct RelationshipRef {
    pub source_part: String,
    pub id: String,
    pub target_part: String,
}

#[derive(Clone, Debug, PartialEq, Eq)]
pub struct ImageRegion {
    pub common: RegionCommon,
    pub source: SourceRef,
    pub relationship: RelationshipRef,
    pub intrinsic_size_px: Option<Size>,
    pub crop: Option<NormalizedInsets>,
    pub placement: ObjectPlacement,
    pub opacity: Pt,
}

#[derive(Clone, Debug, PartialEq, Eq)]
pub struct ShapeRegion {
    pub common: RegionCommon,
    pub source: SourceRef,
    pub path: PathGeometry,
    pub fill: Fill,
    pub stroke: Option<Stroke>,
    pub opacity: Pt,
    pub placement: ObjectPlacement,
}

/// A shape outline: a named preset or an explicit path.
#[derive(Clone, Debug, PartialEq, Eq)]
pub enum ShapeGeometry {
    Preset { name: String },
    Custom { path: PathGeometry },
}

#[derive(Clone, Debug, PartialEq, Eq)]
pub enum ObjectPlacement {
    Inline,
    Floating { placement: FloatingPlacement },
}

#[derive(Clone, Debug, PartialEq, Eq)]
pub struct FloatingPlacement {
    pub horizontal_anchor: AnchorReference,
    pub vertical_anchor: AnchorReference,
    pub horizontal_alignment: Option<AnchorAlignment>,
    pub vertical_alignment: Option<AnchorAlignment>,
    pub offset_pt: Point,
    pub wrap: WrapMode,
    pub wrap_polygon: Option<PathGeometry>,
    pub distance_from_text_pt: EdgeInsets,
    pub z_order: i32,
    pub behind_text: bool,
    pub allow_overlap: bool,
}

#[derive(Clone, Copy, Debug, PartialEq, Eq, Structural)]
pub enum AnchorReference {
    Page,
    Margin,
    Column,
    Paragraph,
    Character,
}

#[derive(Clone, Copy, Debug, PartialEq, Eq, Structural)]
pub enum AnchorAlignment {
    Start,
    Center,
    End,
    Inside,
    Outside,
}

#[derive(Clone, Copy, Debug, PartialEq, Eq, Structural)]
pub enum WrapMode {
    /// No wrapping (`none` in the format).
    NoWrap,
    Square { side: WrapSide },
    Tight { side: WrapSide },
    Through { side: WrapSide },
    TopAndBottom,
}

#[derive(Clone, Copy, Debug, PartialEq, Eq, Structural)]
pub enum WrapSide {
    Both,
    Left,
    Right,
    Largest,
}

#[derive(Clone, Debug, PartialEq, Eq)]
pub enum Fill {
    /// No fill (`none` in the format).
    NoFill,
    Solid { color: RgbaColor },
    Gradient { gradient: GradientFill },
    Image { relationship: RelationshipRef, crop: Option<NormalizedInsets> },
    Pattern { foreground: RgbaColor, background: RgbaColor, preset: String },
}

#[derive(Clone, Debug, PartialEq, Eq)]
pub struct GradientFill {
    pub kind: GradientKind,
    pub stops: Vec<GradientStop>,
}

#[derive(Clone, Copy, Debug, PartialEq, Eq, Structural)]
pub enum GradientKind {
    Linear { angle_degrees: Pt },
    Radial,
}

#[derive(Clone, Copy, Debug, PartialEq, Eq, Structural)]
pub struct GradientStop {
    pub position: Pt,
    pub color: RgbaColor,
}

#[derive(Clone, Debug, PartialEq, Eq)]
pub struct Stroke {
    pub color: RgbaColor,
    pub width_pt: Pt,
    pub dash_pattern_pt: Vec<Pt>,
    pub cap: LineCap,
    pub join: LineJoin,
}

#[derive(Clone, Copy, Debug, PartialEq, Eq, Structural)]
pub enum LineCap {
    Butt,
    Round,
    Square,
}

#[derive(Clone, Copy, Debug, PartialEq, Eq, Structural)]
pub enum LineJoin {
    Round,
    Bevel,
    Miter,
}

/// Insets as fractions of the whole, each in `[0, 1]`.
#[derive(Clone, Copy, Debug, PartialEq, Eq, Structural)]
pub struct NormalizedInsets {
    pub top: Pt,
    pub right: Pt,
    pub bottom: Pt,
    pub left: Pt,
}

impl Default for NormalizedInsets {
    /// No crop.
    fn default() -> (r: Self)
        ensures
            r.top.bits == 0 && r.right.bits == 0 && r.bottom.bits == 0 && r.left.bits == 0,
    {
        NormalizedInsets { top: Pt { bits: 0 }, right: Pt { bits: 0 }, bottom: Pt { bits: 0 }, left: Pt { bits: 0 } }
    }
}

#[derive(Clone, Copy, Debug, PartialEq, Eq, Structural)]
pub struct EdgeInsets {
    pub top: Pt,
    pub right: Pt,
    pub bottom: Pt,
    pub left: Pt,
}

impl Default for EdgeInsets {
    /// No insets.
    fn default() -> (r: Self)
        ensures
            r.top.bits == 0 && r.right.bits == 0 && r.bottom.bits == 0 && r.left.bits == 0,
    {
        EdgeInsets { top: Pt { bits: 0 }, right: Pt { bits: 0 }, bottom: Pt { bits: 0 }, left: Pt { bits: 0 } }
    }
}

#[derive(Clone, Copy, Debug, PartialEq, Eq, Structural)]
pub struct BoxBorders {
    pub top: Option<Border>,
    pub right: Option<Border>,
    pub bottom: Option<Border>,
    pub left: Option<Border>,
}

impl Default for BoxBorders {
    /// No borders.
    fn default() -> (r: Self)
        ensures
            r.top is None && r.right is None && r.bottom is None && r.left is None,
    {
        BoxBorders { top: None, right: None, bottom: None, left: None }
    }
}

#[derive(Clone, Copy, Debug, PartialEq, Eq, Structural)]
pub struct Border {
    pub style: BorderStyle,
    pub color: RgbaColor,
    pub width_pt: Pt,
    pub space_pt: Pt,
}

#[derive(Clone, Copy, Debug, PartialEq, Eq, Structural)]
pub enum BorderStyle {
    /// No border line (`none` in the format).
    NoBorder,
    Single,
    Double,
    Dotted,
    Dashed,
}

#[derive(Clone, Copy, Debug, PartialEq, Eq, Structural)]
pub struct RgbaColor {
    pub red: u8,
    pub green: u8,
    pub blue: u8,
    pub alpha: Pt,
}

impl Default for RgbaColor {
    /// Transparent black.
    fn default() -> (r: Self)
        ensures
            r.red == 0 && r.green == 0 && r.blue == 0 && r.alpha.bits == 0,
    {
        RgbaColor { red: 0, green: 0, blue: 0, alpha: Pt { bits: 0 } }
    }
}

#[derive(Clone, Debug, PartialEq, Eq)]
pub struct Diagnostic {
    pub severity: Severity,
    pub code: String,
    pub message: String,
    pub source: Option<SourceRef>,
    pub region_id: Option<RegionId>,
}

} // verus!
