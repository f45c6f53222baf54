//! Documents and validation errors of either major version.

use vstd::prelude::*;

use crate::validation::{error_texts, errors_text, ValidationErrors};

verus! {

/// A document of either major version.
#[derive(Clone, Debug, PartialEq, Eq)]
pub enum AnyDocumentLayout {
    V1(crate::model::DocumentLayout),
    V2(crate::v2::model::DocumentLayout),
}

impl AnyDocumentLayout {
    /// The format name the document declares.
    pub fn format(&self) -> (r: &str)
        ensures
            r@ == match *self {
                AnyDocumentLayout::V1(v) => v.format@,
                AnyDocumentLayout::V2(v) => v.format@,
            },
    {
        match self {
            AnyDocumentLayout::V1(v) => v.format.as_str(),
            AnyDocumentLayout::V2(v) => v.format.as_str(),
        }
    }

    /// The format version the document declares.
    pub fn version(&self) -> (r: &str)
        ensures
            r@ == match *self {
                AnyDocumentLayout::V1(v) => v.version@,
                AnyDocumentLayout::V2(v) => v.version@,
            },
    {
        match self {
            AnyDocumentLayout::V1(v) => v.version.as_str(),
            AnyDocumentLayout::V2(v) => v.version.as_str(),
        }
    }
}

impl AnyDocumentLayout {
    /// Validates the document by its own version's rules; `answers` serve the
    /// `f32` checks of format 2.
    pub fn validate(&self, answers: &Vec<crate::v2::validation::ArithmeticAnswer>) -> (r: Result<
        (),
        AnyValidationErrors,
    >)
        ensures
            match *self {
                AnyDocumentLayout::V1(d) => match r {
                    Ok(()) => crate::validation::document_errors(d).len() == 0,
                    Err(AnyValidationErrors::V1(e)) => error_texts(e.0@)
                        == crate::validation::document_errors(d) && e.0@.len() > 0,
                    Err(AnyValidationErrors::V2(_)) => false,
                },
                AnyDocumentLayout::V2(d) => match r {
                    Ok(()) => crate::v2::validation::document_errors(d, answers@).len() == 0,
                    Err(AnyValidationErrors::V2(e)) => error_texts(e.0@)
                        == crate::v2::validation::document_errors(d, answers@) && e.0@.len() > 0,
                    Err(AnyValidationErrors::V1(_)) => false,
                },
            },
    {
        match self {
            AnyDocumentLayout::V1(d) => match d.validate() {
                Ok(()) => Ok(()),
                Err(e) => Err(AnyValidationErrors::V1(e)),
            },
            AnyDocumentLayout::V2(d) => match d.validate(answers) {
                Ok(()) => Ok(()),
                Err(e) => Err(AnyValidationErrors::V2(e)),
            },
        }
    }
}

/// The validation errors of a document of either major version.
#[derive(Clone, Debug, PartialEq, Eq)]
pub enum AnyValidationErrors {
    V1(ValidationErrors),
    V2(ValidationErrors),
}

impl AnyValidationErrors {
    /// Every error as `path: message`, one per line.
    pub fn message(&self) -> (r: String)
        ensures
            r@ == errors_text(
                error_texts(
                    match *self {
                        AnyValidationErrors::V1(e) => e.0@,
                        AnyValidationErrors::V2(e) => e.0@,
                    },
                ),
            ),
    {
        match self {
            AnyValidationErrors::V1(errors) => errors.message(),
            AnyValidationErrors::V2(errors) => errors.message(),
        }
    }
}

} // verus!
