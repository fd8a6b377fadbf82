//! The metadata record of one comic, as the remote service describes it.

use vstd::prelude::*;

verus! {

/// One comic's metadata. Every field but the numeric identifier is free-form
/// text and may be empty.
#[derive(Default, Debug, Clone, PartialEq)]
pub struct Comic {
    pub month: String,
    pub num: i64,
    pub link: String,
    pub year: String,
    pub news: String,
    pub safe_title: String,
    pub transcript: String,
    pub alt: String,
    pub img: String,
    pub title: String,
    pub day: String,
}

} // verus!
