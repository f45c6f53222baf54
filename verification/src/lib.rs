//! Renderer-independent types for source-aware, paginated DOCX layout.
//!
//! The model describes document structure after layout but before painting,
//! for editing tools, layout regression tests and feedback loops. Every
//! paragraph segment carries the source identity of the node it came from.

pub mod canonical;
pub mod compatibility;
pub mod document;
pub mod limits;
pub mod model;
pub mod paragraph_scan;
pub mod provenance;
pub mod source_identity;
pub mod stats;
pub mod summary;
pub mod text;
pub mod v2;
pub mod validation;
pub mod xml;

pub use canonical::{canonicalize_environment, canonicalize_metadata, canonicalize_metadata_v2};
pub use compatibility::{check, check_major, detect, CompatibilityError, FormatVersion};
pub use document::{AnyDocumentLayout, AnyValidationErrors};
pub use limits::{check_json_depth, check_limit, BudgetCounters, LimitError, PackageBudget, ProcessingLimits};
pub use model::{
    CoverageStatus, Diagnostic, DocumentLayout, FontInfo, FontSubstitution, GeneratorInfo, IdentityKind,
    ImagePlacement, ImageRegion, LayoutEngineInfo, LayoutEnvironment, LineLayout, MeasurementCoverage,
    Overflow, PageLayout, ParagraphRegion, PlatformInfo, Pt, Rect, Region, Severity, Size, SourceInfo,
    SourceRef,
};
pub use paragraph_scan::{
    extract_paragraph_identities, extract_paragraph_identities_with_spans,
    paragraph_identities_from_tokens, LocatedParagraphIdentity, ParagraphIdentity, SourceIdentityError,
};
pub use provenance::{
    finish_paginated_paragraph, EmptyParagraphSegments, PaginatedParagraph, ParagraphSegmentDraft,
    Sourced,
};
pub use stats::IrStats;
pub use summary::{summary, summary_any, summary_v2};
pub use validation::{validate, ValidationError, ValidationErrors};

use vstd::prelude::*;

verus! {

/// The format name shared by every major version.
pub const FORMAT: &'static str = "typsastra-docx-ir";

/// The format version written by this crate's format-1 constructors.
pub const VERSION: &'static str = "1.0";

/// The format major version that the format-1 model reads.
pub const SUPPORTED_MAJOR_VERSION: u16 = 1;

} // verus!
