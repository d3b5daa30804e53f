//! The parsed form of a document: pages of positioned text spans and ruling lines.
//!
//! Coordinates are integers in the page's coordinate space; a font size is an
//! integer in the same unit.
use vstd::prelude::*;

verus! {

/// A run of text with its bounding box.
pub struct TextSpan {
    pub text: String,
    pub x0: i32,
    pub y0: i32,
    pub x1: i32,
    pub y1: i32,
    pub font_size: u32,
}

/// A straight ruling line from `(x0, y0)` to `(x1, y1)`.
#[derive(Clone, Copy, PartialEq, Eq, Structural, Debug)]
pub struct LineSegment {
    pub x0: i32,
    pub y0: i32,
    pub x1: i32,
    pub y1: i32,
}

/// One page: its 1-based number, its text spans and its ruling lines.
pub struct Page {
    pub page_number: u32,
    pub text_spans: Vec<TextSpan>,
    pub line_segments: Vec<LineSegment>,
}

/// A line that runs across the page: equal ends in y, distinct ends in x.
pub open spec fn is_horizontal(l: LineSegment) -> bool {
    l.y0 == l.y1 && l.x0 != l.x1
}

/// A line that runs down the page: equal ends in x, distinct ends in y.
pub open spec fn is_vertical(l: LineSegment) -> bool {
    l.x0 == l.x1 && l.y0 != l.y1
}

impl LineSegment {
    pub fn is_horizontal(&self) -> (r: bool)
        ensures
            r == is_horizontal(*self),
    {
        self.y0 == self.y1 && self.x0 != self.x1
    }

    pub fn is_vertical(&self) -> (r: bool)
        ensures
            r == is_vertical(*self),
    {
        self.x0 == self.x1 && self.y0 != self.y1
    }
}

} // verus!
