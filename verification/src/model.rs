//! The format-1 layout model: pages, source-aware paragraph segments, images and metadata.

use vstd::prelude::*;

use crate::compatibility::{check_major, check_major_result, CompatibilityError, FormatVersion};
use crate::{FORMAT, SUPPORTED_MAJOR_VERSION, VERSION};

verus! {

/// A length or coordinate in PDF points, held as the bit pattern of an
/// IEEE 754 binary32 value. Page coordinates have a top-left origin.
#[derive(Clone, Copy, Debug, PartialEq, Eq, Structural)]
pub struct Pt {
    pub bits: u32,
}

/// Neither infinite nor NaN: the exponent field is not all ones.
pub open spec fn pt_is_finite(p: Pt) -> bool {
    (p.bits >> 23u32) & 0xFFu32 != 0xFFu32
}

/// Positive or negative zero.
pub open spec fn pt_is_zero(p: Pt) -> bool {
    p.bits & 0x7FFF_FFFFu32 == 0
}

/// The sign bit is set.
pub open spec fn pt_sign(p: Pt) -> bool {
    p.bits & 0x8000_0000u32 != 0
}

/// Not a number: all-ones exponent with a non-zero fraction.
pub open spec fn pt_is_nan(p: Pt) -> bool {
    !pt_is_finite(p) && p.bits & 0x007F_FFFFu32 != 0
}

/// A finite value that is not below zero (negative zero included).
pub open spec fn pt_is_nonnegative(p: Pt) -> bool {
    pt_is_finite(p) && (pt_is_zero(p) || !pt_sign(p))
}

/// A finite value strictly above zero.
pub open spec fn pt_is_positive(p: Pt) -> bool {
    pt_is_finite(p) && !pt_is_zero(p) && !pt_sign(p)
}

/// A value strictly above zero, infinity included.
pub open spec fn pt_is_greater_than_zero(p: Pt) -> bool {
    !pt_is_nan(p) && !pt_is_zero(p) && !pt_sign(p)
}

/// A finite value in `[0, 1]` (the bit pattern of `1.0` is `0x3F80_0000`).
pub open spec fn pt_is_unit(p: Pt) -> bool {
    pt_is_finite(p) && (pt_is_zero(p) || (!pt_sign(p) && p.bits <= 0x3F80_0000u32))
}

/// IEEE 754 `a < b`: false when either is NaN and between the two zeros;
/// otherwise ordered by sign, then by magnitude (reversed for negatives).
pub open spec fn pt_less(a: Pt, b: Pt) -> bool {
    if pt_is_nan(a) || pt_is_nan(b) || (pt_is_zero(a) && pt_is_zero(b)) {
        false
    } else if pt_sign(a) != pt_sign(b) {
        pt_sign(a)
    } else if pt_sign(a) {
        a.bits > b.bits
    } else {
        a.bits < b.bits
    }
}

impl Pt {
    /// `self < other` as `f32` compares.
    pub fn less_than(self, other: Pt) -> (r: bool)
        ensures
            r == pt_less(self, other),
    {
        let a_nan = !self.is_finite() && self.bits & 0x007F_FFFFu32 != 0;
        let b_nan = !other.is_finite() && other.bits & 0x007F_FFFFu32 != 0;
        let both_zero = self.bits & 0x7FFF_FFFFu32 == 0 && other.bits & 0x7FFF_FFFFu32 == 0;
        let a_neg = self.bits & 0x8000_0000u32 != 0;
        let b_neg = other.bits & 0x8000_0000u32 != 0;
        if a_nan || b_nan || both_zero {
            false
        } else if a_neg != b_neg {
            a_neg
        } else if a_neg {
            self.bits > other.bits
        } else {
            self.bits < other.bits
        }
    }

    /// The encoding of `0.0`.
    pub fn zero() -> (r: Pt)
        ensures
            r.bits == 0,
    {
        Pt { bits: 0 }
    }

    pub fn is_finite(self) -> (r: bool)
        ensures
            r == pt_is_finite(self),
    {
        (self.bits >> 23u32) & 0xFFu32 != 0xFFu32
    }

    /// `value >= 0.0` for a finite value.
    pub fn is_nonnegative(self) -> (r: bool)
        ensures
            r == pt_is_nonnegative(self),
    {
        self.is_finite() && (self.bits & 0x7FFF_FFFFu32 == 0 || self.bits & 0x8000_0000u32 == 0)
    }

    /// `value > 0.0` for a finite value.
    pub fn is_positive(self) -> (r: bool)
        ensures
            r == pt_is_positive(self),
    {
        self.is_finite() && self.bits & 0x7FFF_FFFFu32 != 0 && self.bits & 0x8000_0000u32 == 0
    }

    /// `value > 0.0`, which holds for positive infinity and fails for NaN.
    pub fn is_greater_than_zero(self) -> (r: bool)
        ensures
            r == pt_is_greater_than_zero(self),
    {
        let nan = !self.is_finite() && self.bits & 0x007F_FFFFu32 != 0;
        !nan && self.bits & 0x7FFF_FFFFu32 != 0 && self.bits & 0x8000_0000u32 == 0
    }

    /// `0.0 <= value <= 1.0` for a finite value.
    pub fn is_unit(self) -> (r: bool)
        ensures
            r == pt_is_unit(self),
    {
        self.is_finite() && (self.bits & 0x7FFF_FFFFu32 == 0 || (self.bits & 0x8000_0000u32 == 0
            && self.bits <= 0x3F80_0000u32))
    }
}

impl Default for Pt {
    /// `0.0`.
    fn default() -> (r: Self)
        ensures
            r.bits == 0,
    {
        Pt { bits: 0 }
    }
}

/// An axis-aligned rectangle: origin and extent in points.
#[derive(Clone, Copy, Debug, PartialEq, Eq, Structural)]
pub struct Rect {
    pub x: Pt,
    pub y: Pt,
    pub width: Pt,
    pub height: Pt,
}

impl Default for Rect {
    /// The empty rectangle at the origin.
    fn default() -> (r: Self)
        ensures
            r.x.bits == 0 && r.y.bits == 0 && r.width.bits == 0 && r.height.bits == 0,
    {
        Rect { x: Pt { bits: 0 }, y: Pt { bits: 0 }, width: Pt { bits: 0 }, height: Pt { bits: 0 } }
    }
}

#[derive(Clone, Copy, Debug, PartialEq, Eq, Structural)]
pub struct Size {
    pub width: Pt,
    pub height: Pt,
}

impl Default for Size {
    /// Zero by zero.
    fn default() -> (r: Self)
        ensures
            r.width.bits == 0 && r.height.bits == 0,
    {
        Size { width: Pt { bits: 0 }, height: Pt { bits: 0 } }
    }
}

#[derive(Clone, Copy, Debug, PartialEq, Eq, Structural)]
pub struct Overflow {
    pub horizontal: bool,
    pub vertical: bool,
    pub clipped: bool,
    pub past_content_area_pt: Pt,
}

impl Default for Overflow {
    /// No overflow.
    fn default() -> (r: Self)
        ensures
            !r.horizontal && !r.vertical && !r.clipped && r.past_content_area_pt.bits == 0,
    {
        Overflow {
            horizontal: false,
            vertical: false,
            clipped: false,
            past_content_area_pt: Pt { bits: 0 },
        }
    }
}

#[derive(Clone, Debug, PartialEq, Eq)]
pub struct GeneratorInfo {
    pub name: String,
    pub version: String,
}

#[derive(Clone, Debug, PartialEq, Eq)]
pub struct SourceInfo {
    pub path: String,
    pub byte_length: u64,
}

/// Producer-declared measurement coverage; not independent verification.
#[derive(Clone, Debug, PartialEq, Eq, Structural)]
pub struct MeasurementCoverage {
    pub pagination: CoverageStatus,
    pub text_geometry: CoverageStatus,
    pub resolved_typography: CoverageStatus,
    pub table_geometry: CoverageStatus,
    pub drawing_appearance: CoverageStatus,
    pub composition_hierarchy: CoverageStatus,
    pub overflow: CoverageStatus,
}

#[derive(Clone, Copy, Debug, PartialEq, Eq, Structural)]
pub enum CoverageStatus {
    Unknown,
    Absent,
    Partial,
    Complete,
}

impl Default for CoverageStatus {
    fn default() -> (r: Self)
        ensures
            r == CoverageStatus::Unknown,
    {
        CoverageStatus::Unknown
    }
}

impl Default for MeasurementCoverage {
    /// Every dimension unknown.
    fn default() -> (r: Self)
        ensures
            r == (MeasurementCoverage {
                pagination: CoverageStatus::Unknown,
                text_geometry: CoverageStatus::Unknown,
                resolved_typography: CoverageStatus::Unknown,
                table_geometry: CoverageStatus::Unknown,
                drawing_appearance: CoverageStatus::Unknown,
                composition_hierarchy: CoverageStatus::Unknown,
                overflow: CoverageStatus::Unknown,
            }),
    {
        MeasurementCoverage {
            pagination: CoverageStatus::Unknown,
            text_geometry: CoverageStatus::Unknown,
            resolved_typography: CoverageStatus::Unknown,
            table_geometry: CoverageStatus::Unknown,
            drawing_appearance: CoverageStatus::Unknown,
            composition_hierarchy: CoverageStatus::Unknown,
            overflow: CoverageStatus::Unknown,
        }
    }
}

#[derive(Clone, Debug, PartialEq, Eq)]
pub struct LayoutEnvironment {
    pub engine: LayoutEngineInfo,
    pub platform: PlatformInfo,
    pub fonts: Vec<FontInfo>,
    pub font_substitutions: Vec<FontSubstitution>,
}

#[derive(Clone, Debug, PartialEq, Eq)]
pub struct LayoutEngineInfo {
    pub name: String,
    pub version: String,
}

#[derive(Clone, Debug, PartialEq, Eq)]
pub struct PlatformInfo {
    pub os: String,
    pub architecture: String,
    pub version: Option<String>,
}

#[derive(Clone, Debug, PartialEq, Eq)]
pub struct FontInfo {
    pub family: String,
    pub postscript_name: Option<String>,
    pub version: Option<String>,
    pub file_sha256: Option<String>,
    pub face_index: Option<u32>,
}

#[derive(Clone, Debug, PartialEq, Eq)]
pub struct FontSubstitution {
    pub requested_family: String,
    pub resolved_family: String,
    pub resolved_postscript_name: Option<String>,
}

#[derive(Clone, Copy, Debug, PartialEq, Eq, Structural)]
pub enum Severity {
    Info,
    Warning,
    Error,
}

/// How a format-1 source ID was obtained.
#[derive(Clone, Copy, Debug, PartialEq, Eq, Structural)]
pub enum IdentityKind {
    ParaId,
    RelationshipId,
    GeneratedPath,
}

/// A source identity: the complete tuple `(part, identity, id)`.
#[derive(Clone, Debug, PartialEq, Eq)]
pub struct SourceRef {
    pub part: String,
    pub id: String,
    pub identity: IdentityKind,
}

/// Whether two source references denote the same identity.
pub open spec fn same_source(a: SourceRef, b: SourceRef) -> bool {
    a.part@ == b.part@ && a.id@ == b.id@ && a.identity == b.identity
}

impl SourceRef {
    /// A copy of this reference.
    pub fn duplicate(&self) -> (r: SourceRef)
        ensures
            r == *self,
    {
        SourceRef { part: self.part.clone(), id: self.id.clone(), identity: self.identity }
    }

    /// Compares the complete `(part, identity, id)` tuple.
    pub fn same_as(&self, other: &SourceRef) -> (r: bool)
        ensures
            r == same_source(*self, *other),
    {
        self.identity == other.identity && crate::text::str_equal(self.part.as_str(), other.part.as_str())
            && crate::text::str_equal(self.id.as_str(), other.id.as_str())
    }
}

#[derive(Clone, Debug, PartialEq, Eq)]
pub struct Diagnostic {
    pub severity: Severity,
    pub code: String,
    pub message: String,
    pub source_id: Option<String>,
}

/// A fitted line: a half-open UTF-8 byte range into its paragraph's text.
#[derive(Clone, Debug, PartialEq, Eq)]
pub struct LineLayout {
    pub range_utf8: [usize; 2],
    pub bbox_pt: Rect,
}

/// One page segment of a paragraph occurrence.
#[derive(Clone, Debug, PartialEq, Eq)]
pub struct ParagraphRegion {
    pub source: SourceRef,
    pub segment: usize,
    pub segment_count: usize,
    pub text: String,
    pub frame_bbox_pt: Rect,
    pub content_bbox_pt: Option<Rect>,
    pub lines: Vec<LineLayout>,
    pub overflow: Option<Overflow>,
}

#[derive(Clone, Copy, Debug, PartialEq, Eq, Structural)]
pub enum ImagePlacement {
    Inline,
    Floating,
}

#[derive(Clone, Debug, PartialEq, Eq)]
pub struct ImageRegion {
    pub source: SourceRef,
    pub owner_id: Option<String>,
    pub bbox_pt: Rect,
    pub placement: ImagePlacement,
}

#[derive(Clone, Debug, PartialEq, Eq)]
pub enum Region {
    Paragraph(ParagraphRegion),
    Image(ImageRegion),
}

#[derive(Clone, Debug, PartialEq, Eq)]
pub struct PageLayout {
    pub index: usize,
    pub number: Option<u32>,
    pub size_pt: Size,
    pub content_bbox_pt: Option<Rect>,
    pub regions: Vec<Region>,
}

/// A format-1 document: pages of regions after layout, before painting.
#[derive(Clone, Debug, PartialEq, Eq)]
pub struct DocumentLayout {
    pub format: String,
    pub version: String,
    pub generator: GeneratorInfo,
    pub layout_environment: Option<LayoutEnvironment>,
    pub source: SourceInfo,
    /// Producer-declared measurement coverage, not independent verification.
    pub coverage: Option<MeasurementCoverage>,
    pub pages: Vec<PageLayout>,
    pub diagnostics: Vec<Diagnostic>,
}

impl DocumentLayout {
    /// A document of this crate's format and version, without metadata,
    /// coverage or diagnostics.
    pub fn new(generator: GeneratorInfo, source: SourceInfo, pages: Vec<PageLayout>) -> (r: Self)
        ensures
            r.format@ == FORMAT@,
            r.version@ == VERSION@,
            r.generator == generator,
            r.source == source,
            r.pages == pages,
            r.layout_environment is None,
            r.coverage is None,
            r.diagnostics@.len() == 0,
    {
        DocumentLayout {
            format: String::from_str(FORMAT),
            version: String::from_str(VERSION),
            generator,
            layout_environment: None,
            source,
            coverage: None,
            pages,
            diagnostics: Vec::new(),
        }
    }

    /// Checks the format name and that the version is a supported `1.x`.
    pub fn compatibility(&self) -> (r: Result<FormatVersion, CompatibilityError>)
        ensures
            match r {
                Ok(v) => check_major_result(self.format@, self.version@, SUPPORTED_MAJOR_VERSION)
                    == Some(v),
                Err(e) => check_major_result(self.format@, self.version@, SUPPORTED_MAJOR_VERSION)
                    is None && crate::compatibility::check_major_error(
                    e,
                    self.format@,
                    self.version@,
                ),
            },
    {
        check_major(self.format.as_str(), self.version.as_str(), SUPPORTED_MAJOR_VERSION)
    }

    /// Whether the document names this format and a strict, unpadded
    /// `major.minor` version whose major component is supported.
    pub fn is_supported(&self) -> (r: bool)
        ensures
            r == (check_major_result(self.format@, self.version@, SUPPORTED_MAJOR_VERSION) is Some),
    {
        self.compatibility().is_ok()
    }
}

} // verus!
