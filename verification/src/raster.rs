//! The styles of the raster exporter.
//!
//! The raster exporter keeps the styles it is inside of on a stack, and draws
//! each shape with the style in force: every shape between the start and the
//! end of a style gets that style, so the fill is that of the innermost style
//! that sets a fill, and the stroke that of the innermost style that sets a
//! stroke. The types of fills `F` and strokes `K` are parameters.
use vstd::prelude::*;

verus! {

/// A fill and a stroke, either of them absent.
#[derive(Debug, Clone, Copy, PartialEq)]
pub struct StylePosition<F, K> {
    pub fill: Option<F>,
    pub stroke: Option<K>,
}

/// The styles the exporter is inside of, outermost first.
pub struct StyleStack<F, K> {
    pub styles: Vec<StylePosition<F, K>>,
}

/// The fill in force: that of the innermost style that sets one, if any.
pub open spec fn fill_in_force<F, K>(styles: Seq<StylePosition<F, K>>) -> Option<F>
    decreases styles.len(),
{
    if styles.len() == 0 {
        Option::None
    } else if styles.last().fill is Some {
        styles.last().fill
    } else {
        fill_in_force(styles.drop_last())
    }
}

/// The stroke in force: that of the innermost style that sets one, if any.
pub open spec fn stroke_in_force<F, K>(styles: Seq<StylePosition<F, K>>) -> Option<K>
    decreases styles.len(),
{
    if styles.len() == 0 {
        Option::None
    } else if styles.last().stroke is Some {
        styles.last().stroke
    } else {
        stroke_in_force(styles.drop_last())
    }
}

/// The style in force inside `styles`.
pub open spec fn style_in_force<F, K>(styles: Seq<StylePosition<F, K>>) -> StylePosition<F, K> {
    StylePosition { fill: fill_in_force(styles), stroke: stroke_in_force(styles) }
}

impl<F: Copy, K: Copy> StyleStack<F, K> {
    /// No style.
    pub fn new() -> (r: Self)
        ensures
            r.styles@ == Seq::<StylePosition<F, K>>::empty(),
    {
        StyleStack { styles: Vec::new() }
    }

    /// Enters a style.
    pub fn start_style(&mut self, style: StylePosition<F, K>)
        ensures
            final(self).styles@ == old(self).styles@.push(style),
    {
        self.styles.push(style);
    }

    /// Leaves the innermost style; nothing when there is none.
    pub fn end_style(&mut self)
        ensures
            final(self).styles@ == if old(self).styles@.len() == 0 {
                old(self).styles@
            } else {
                old(self).styles@.drop_last()
            },
    {
        let _ = self.styles.pop();
    }

    /// The style in force: looking from the innermost style outwards, the
    /// first fill and the first stroke found; the search ends once both are found.
    pub fn style(&self) -> (r: StylePosition<F, K>)
        ensures
            r == style_in_force(self.styles@),
    {
        let mut acc: StylePosition<F, K> = StylePosition { fill: None, stroke: None };
        let mut i: usize = self.styles.len();
        assert(self.styles@.take(i as int) =~= self.styles@);
        while i > 0
            invariant_except_break
                i <= self.styles.len(),
                acc.fill is Some ==> acc.fill == fill_in_force(self.styles@),
                acc.fill is None ==> fill_in_force(self.styles@.take(i as int)) == fill_in_force(self.styles@),
                acc.stroke is Some ==> acc.stroke == stroke_in_force(self.styles@),
                acc.stroke is None ==> stroke_in_force(self.styles@.take(i as int)) == stroke_in_force(self.styles@),
            ensures
                acc == style_in_force(self.styles@),
            decreases i,
        {
            let ghost prefix = self.styles@.take(i as int);
            assert(prefix.drop_last() =~= self.styles@.take(i as int - 1));
            assert(prefix.last() == self.styles@[i as int - 1]);
            let style = self.styles[i - 1];
            if acc.fill.is_none() && style.fill.is_some() {
                acc.fill = style.fill;
            }
            if acc.stroke.is_none() && style.stroke.is_some() {
                acc.stroke = style.stroke;
            }
            i = i - 1;
            if acc.fill.is_some() && acc.stroke.is_some() {
                break;
            }
        }
        proof {
            if i == 0 {
                assert(self.styles@.take(0) =~= Seq::<StylePosition<F, K>>::empty());
            }
        }
        acc
    }
}

/// Index of the innermost style that has a fill.
pub open spec fn innermost_fill<F, K>(styles: Seq<StylePosition<F, K>>) -> Option<int>
    decreases styles.len(),
{
    if styles.len() == 0 {
        Option::None
    } else if styles.last().fill is Some {
        Option::Some(styles.len() - 1)
    } else {
        innermost_fill(styles.drop_last())
    }
}

/// Index of the innermost style that has a stroke.
pub open spec fn innermost_stroke<F, K>(styles: Seq<StylePosition<F, K>>) -> Option<int>
    decreases styles.len(),
{
    if styles.len() == 0 {
        Option::None
    } else if styles.last().stroke is Some {
        Option::Some(styles.len() - 1)
    } else {
        innermost_stroke(styles.drop_last())
    }
}

proof fn lemma_innermost_bounds<F, K>(styles: Seq<StylePosition<F, K>>)
    ensures
        innermost_fill(styles) matches Option::Some(i) ==> 0 <= i < styles.len() && styles[i].fill is Some,
        innermost_stroke(styles) matches Option::Some(i) ==> 0 <= i < styles.len() && styles[i].stroke is Some,
    decreases styles.len(),
{
    if styles.len() > 0 {
        lemma_innermost_bounds(styles.drop_last());
    }
}

proof fn lemma_in_force<F, K>(styles: Seq<StylePosition<F, K>>)
    ensures
        fill_in_force(styles) == match innermost_fill(styles) {
            Option::Some(i) => styles[i].fill,
            Option::None => Option::None,
        },
        stroke_in_force(styles) == match innermost_stroke(styles) {
            Option::Some(j) => styles[j].stroke,
            Option::None => Option::None,
        },
    decreases styles.len(),
{
    if styles.len() > 0 {
        let rest = styles.drop_last();
        lemma_in_force(rest);
        lemma_innermost_bounds(rest);
        match innermost_fill(rest) {
            Option::Some(i) => assert(styles[i] == rest[i]),
            Option::None => {},
        }
        match innermost_stroke(rest) {
            Option::Some(j) => assert(styles[j] == rest[j]),
            Option::None => {},
        }
    }
}

/// Every shape inside a style gets that style: the style in force takes its
/// fill from the innermost style that sets a fill and its stroke from the
/// innermost style that sets a stroke, each absent when no style sets it.
pub proof fn law_style_in_force<F, K>(styles: Seq<StylePosition<F, K>>)
    ensures
        style_in_force(styles).fill == match innermost_fill(styles) {
            Option::Some(i) => styles[i].fill,
            Option::None => Option::None,
        },
        style_in_force(styles).stroke == match innermost_stroke(styles) {
            Option::Some(j) => styles[j].stroke,
            Option::None => Option::None,
        },
{
    lemma_in_force(styles);
}

} // verus!
