//! Choices the reader makes once for all books.
use vstd::prelude::*;

verus! {

/// What a double click on a page does.
#[derive(Clone, Copy, Debug, PartialEq, Eq, Structural)]
pub enum DoubleClickAction {
    CropMode,
    SwitchScrollDirection,
}

impl Default for DoubleClickAction {
    fn default() -> (r: Self)
        ensures
            r == DoubleClickAction::CropMode,
    {
        DoubleClickAction::CropMode
    }
}

/// How the page overview panel lays out its dots.
#[derive(Clone, Copy, Debug, PartialEq, Eq, Structural)]
pub enum ScrollbarLayout {
    Grid,
    Fractal,
}

impl Default for ScrollbarLayout {
    fn default() -> (r: Self)
        ensures
            r == ScrollbarLayout::Grid,
    {
        ScrollbarLayout::Grid
    }
}

} // verus!
