use vstd::prelude::*;

verus! {

/// Horizontal alignment of a text relative to its anchor.
#[derive(Debug, Clone, Copy, PartialEq, Eq, Structural)]
pub enum TextAlign {
    /// Left
    Left,
    /// Center
    Center,
    /// Right
    Right,
}

impl Default for TextAlign {
    fn default() -> (r: Self)
        ensures
            r == TextAlign::Left,
    {
        TextAlign::Left
    }
}

/// Vertical alignment of a text relative to its anchor.
#[derive(Debug, Clone, Copy, PartialEq, Eq, Structural)]
pub enum TextVerticalAlign {
    /// Bottom
    Bottom,
    /// Center
    Center,
    /// Top
    Top,
}

impl Default for TextVerticalAlign {
    fn default() -> (r: Self)
        ensures
            r == TextVerticalAlign::Bottom,
    {
        TextVerticalAlign::Bottom
    }
}

} // verus!
