//! Grid positions and the cursor of the rendered content.
use vstd::prelude::*;

use crate::batch::Rgb;

verus! {

/// A position in the cell grid.
#[derive(Clone, Copy, Debug, Default, PartialEq, Eq, Structural)]
pub struct Point {
    pub line: usize,
    pub column: usize,
}

impl Point {
    pub fn new(line: usize, column: usize) -> (p: Point)
        ensures
            p == (Point { line, column }),
    {
        Point { line, column }
    }
}

/// The cursor: where it stands and in which color it is drawn.
#[derive(Clone, Copy, Debug, PartialEq, Eq, Structural)]
pub struct RenderableCursor {
    pub point: Point,
    pub color: Rgb,
}

} // verus!
