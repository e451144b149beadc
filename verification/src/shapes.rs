//! Shape vocabulary that carries no coordinates.
use vstd::prelude::*;

verus! {

/// Marker of a bounding box that may be skewed or rotated.
#[derive(Debug, Clone, Copy, PartialEq, Eq, Structural)]
pub struct UnParticular;

/// Marker of a bounding box whose sides are aligned with the X and Y axes.
#[derive(Debug, Clone, Copy, PartialEq, Eq, Structural)]
pub struct Straight;

/// Quarter of a circle.
#[derive(Debug, Clone, Copy, PartialEq, Eq, Structural)]
pub enum Quarter {
    TopLeft,
    TopRight,
    BottomLeft,
    BottomRight,
}

/// How to find a font.
#[derive(Debug, Clone, Copy)]
pub enum FontQuery<'a> {
    /// By its family name.
    Family(&'a str),
}

impl<'a> From<&'a str> for FontQuery<'a> {
    fn from(value: &'a str) -> (r: Self) {
        FontQuery::Family(value)
    }
}

impl<'a> vstd::std_specs::convert::FromSpecImpl<&'a str> for FontQuery<'a> {
    open spec fn obeys_from_spec() -> bool {
        true
    }

    open spec fn from_spec(v: &'a str) -> Self {
        FontQuery::Family(v)
    }
}

} // verus!
