//! Format 2: sections, composition hierarchy, resolved typography, tables and drawings.

pub mod model;
pub mod stats;
pub mod validation;

pub use model::{
    AffineTransform, AnchorAlignment, AnchorReference, Border, BorderStyle, BoxBorders, BreakKind,
    CellVerticalAlignment, ClipGeometry, ColumnLayout, CoverageStatus, DecorationStyle, Diagnostic,
    DocumentLayout, EdgeInsets, Fill, FillRule, FloatingPlacement, FontInfo, FontSubstitution,
    GeneratorInfo, GradientFill, GradientKind, GradientStop, IdentityKind, ImageRegion,
    InlineContent, InlineKind, LayoutEngineInfo, LayoutEnvironment, LineCap, LineJoin, LineLayout,
    MeasurementCoverage, NormalizedInsets, ObjectPlacement, Overflow, PageFragment, PageLayout,
    PageOrientation, ParagraphAlignment, ParagraphRegion, PathCommand, PathGeometry, PlatformInfo,
    Point, Pt, Rect, Region, RegionCommon, RegionGeometry, RegionId, RelationshipRef,
    ResolvedFont, ResolvedLineSpacing, ResolvedParagraphStyle, ResolvedRun, ResolvedTypography,
    RgbaColor, RoleAssignment, RoleProvenance, SectionBreakKind, SectionId, SectionLayout,
    SectionPageGeometry, SemanticRole, Severity, ShapeGeometry, ShapeRegion, Size, SourceInfo,
    SourceRef, StoryKind, StoryRegion, Stroke, TabAlignment, TableAlignment, TableCellRegion,
    TableLayoutMode, TableRegion, TableRowRegion, TextDecoration, TextDirection, WrapMode,
    WrapSide, SUPPORTED_MAJOR_VERSION, VERSION,
};
pub use validation::{arithmetic_queries, validate, ArithmeticAnswer, ArithmeticQuery};
