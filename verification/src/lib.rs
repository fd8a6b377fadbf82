//! A library for showing a randomly chosen xkcd comic in the terminal.
//!
//! The library holds the logic of one fetch-download-render run: choosing a
//! comic identifier, building the metadata URL, parsing the metadata body
//! into a [`comic::Comic`] record, deriving the local file name for the
//! comic's image, and the step-by-step decisions of the run itself. The
//! network, the filesystem and the terminal are driven by the caller, which
//! hands each outcome back as a plain value.

pub mod comic;
pub mod escape;
pub mod flow;
pub mod json;
pub mod numbers;
pub mod select;
pub mod text;

use vstd::prelude::*;

verus! {

/// Identifier of the latest comic known at build time; the selector never
/// chooses past it.
pub const MAX_COMIC_ID: u64 = 2692;

} // verus!
