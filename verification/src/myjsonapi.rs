//! Error and patch document shapes following the JSON:API convention.

use vstd::prelude::*;

verus! {

/// A JSON:API error object: the numeric status as text, its canonical
/// reason phrase, and a human title and detail.
#[derive(Debug, PartialEq, Clone)]
pub struct JSONAPIError {
    pub status: String,
    pub canonical: String,
    pub title: String,
    pub detail: String,
}

/// A JSON:API patch document: the target's id and type, flat attributes,
/// and relationship entries as (name, related-type) pairs.
#[derive(Debug, PartialEq, Clone)]
pub struct JSONAPIPatch {
    pub id: String,
    pub type_: String,
    pub attributes: Option<Vec<(String, String)>>,
    pub relationships: Option<Vec<(String, Vec<(String, String)>)>>,
}

} // verus!
