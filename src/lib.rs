//! Turns the pages of a catalog document into a data pack: ruled tables are
//! found on each page, classified against a fixed set of schema families, and
//! assembled into per-family CSV row sets with provenance and coverage.
use vstd::prelude::*;

pub mod cell;
pub mod classify;
pub mod csv;
pub mod grid;
pub mod json;
pub mod model;
pub mod pack;
pub mod pipeline;
pub mod section;
pub mod text;

verus! {

} // verus!
