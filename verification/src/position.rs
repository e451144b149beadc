//! Placement of a shape: a position, the anchor that sits at that position,
//! and an optional size. The vector type `V` is a parameter.
use vstd::prelude::*;

verus! {

/// Placement of a shape.
#[derive(Debug, Clone, Copy, PartialEq)]
pub struct Rect<V> {
    pub pos: V,
    pub anchor: V,
    pub size: Option<V>,
}

impl<V: Copy + Default> Rect<V> {
    /// A placement at the origin (the vector type's default), anchored at its
    /// center, without size.
    pub fn new() -> (r: Self)
        ensures
            r.size is None,
            call_ensures(V::default, (), r.pos),
            call_ensures(V::default, (), r.anchor),
    {
        Rect { pos: V::default(), anchor: V::default(), size: None }
    }
}

impl<V: Copy> Rect<V> {
    /// The same placement at another position.
    pub fn at(self, pos: V) -> (r: Self)
        ensures
            r == (Rect { pos, ..self }),
    {
        Rect { pos, ..self }
    }

    /// The same placement with another anchor.
    pub fn with_anchor(self, anchor: V) -> (r: Self)
        ensures
            r == (Rect { anchor, ..self }),
    {
        Rect { anchor, ..self }
    }

    /// The same placement with a size.
    pub fn with_size(self, size: V) -> (r: Self)
        ensures
            r == (Rect { size: Option::Some(size), ..self }),
    {
        Rect { size: Some(size), ..self }
    }
}

} // verus!
