use vstd::prelude::*;

verus! {

/// Position of a page in the sorted page list of an archive.
pub type PageIndex = usize;

/// What the viewer knows about a decoded page.
#[derive(Debug, Clone)]
pub struct ImageMetadata {
    pub width: u32,
    pub height: u32,
    pub filename: String,
    pub index: PageIndex,
}

/// How a page is fitted into the window.
#[derive(Debug, Clone, Copy, PartialEq, Eq, Structural)]
pub enum ScaleMode {
    Original,
    FitWindow,
    FitWidth,
}

impl Default for ScaleMode {
    fn default() -> (r: Self)
        ensures
            r == ScaleMode::FitWindow,
    {
        ScaleMode::FitWindow
    }
}

/// How a page is to be fitted into a window of the given size.
#[derive(Debug, Clone, Copy)]
pub struct ScaleOptions {
    pub mode: ScaleMode,
    pub window_width: u32,
    pub window_height: u32,
}

/// How the pages of an archive are ordered.
#[derive(Debug, Clone, Copy, PartialEq, Eq, Structural)]
pub enum SortOrder {
    Natural,
    Alphabetical,
}

impl Default for SortOrder {
    fn default() -> (r: Self)
        ensures
            r == SortOrder::Natural,
    {
        SortOrder::Natural
    }
}

/// Clockwise rotation applied to a page.
#[derive(Debug, Clone, Copy, PartialEq, Eq, Structural)]
pub enum Rotation {
    R0,
    R90,
    R180,
    R270,
}

impl Default for Rotation {
    fn default() -> (r: Self)
        ensures
            r == Rotation::R0,
    {
        Rotation::R0
    }
}

/// Reading direction of a two-page spread.
#[derive(Debug, Clone, Copy, PartialEq, Eq, Structural)]
pub enum PageOrder {
    LeftToRight,
    RightToLeft,
}

impl Default for PageOrder {
    fn default() -> (r: Self)
        ensures
            r == PageOrder::LeftToRight,
    {
        PageOrder::LeftToRight
    }
}

} // verus!
