//! Error kinds of the ingest core.
//!
//! Every failure surfaces to the run's top level and aborts the batch in
//! flight; there is no recover-and-continue path inside the core.

use vstd::prelude::*;

verus! {

/// A fault of the ingest core or of one of its collaborators.
#[derive(Debug, Clone, PartialEq, Eq)]
pub enum IngestError {
    /// A required variable or attribute is absent from the source dataset.
    MissingVariable { name: String },
    /// A classification lookup computed indices outside the grid: the grid
    /// does not cover the queried coordinate (micro-degrees).
    IndexOutOfBounds { lon_micro: i64, lat_micro: i64 },
    /// An expected string attribute is not string-typed.
    MalformedAttribute { variable: String, attribute: String },
    /// The storage collaborator refused a write; propagated, never retried.
    StorageWriteFailure,
}

/// An attribute value as the source dataset hands it over: either text or
/// something the metadata rules have no use for.
#[derive(Debug, Clone, PartialEq, Eq)]
pub enum AttributeValue {
    Text(String),
    Other,
}

/// Extracts the text of a variant-typed attribute, failing with
/// `MalformedAttribute` when the attribute is not string-typed.
pub fn attribute_text(
    variable: &String,
    attribute: &String,
    value: &AttributeValue,
) -> (r: Result<String, IngestError>)
    ensures
        value matches AttributeValue::Text(s) ==> (r matches Ok(t) && t@ == s@),
        value is Other ==> (r matches Err(e)
            && e matches IngestError::MalformedAttribute { variable: v, attribute: a }
            && v@ == variable@ && a@ == attribute@),
{
    match value {
        AttributeValue::Text(s) => Ok(s.clone()),
        AttributeValue::Other => Err(IngestError::MalformedAttribute {
            variable: variable.clone(),
            attribute: attribute.clone(),
        }),
    }
}

} // verus!
