//! The walk of a drawing that drives an exporter.
//!
//! A drawing is a tree of groups (placed by a local transform), style blocks
//! (a style around one shape) and leaves (ellipses, images, texts, curves).
//! An exporter sees it as a sequence of steps: a style block opens its style,
//! exports the shape it holds, then closes the style; a leaf is exported with
//! the transforms of the groups that hold it. The types of transforms `T`,
//! styles `S` and leaves `L` are parameters: placing a leaf is floating-point
//! work left to the exporter.
use vstd::prelude::*;

verus! {

/// A drawing.
#[derive(Debug, PartialEq)]
pub enum Shape<T, S, L> {
    /// Shapes placed together by a transform.
    Group { local_transform: T, shapes: Vec<Shape<T, S, L>> },
    /// A style applied to every shape inside.
    Style { style: S, shape: Box<Shape<T, S, L>> },
    /// A shape the exporter draws.
    Leaf(L),
}

impl<T: Default, S, L> Default for Shape<T, S, L> {
    /// An empty group, placed by the transform type's default.
    fn default() -> (r: Self)
        ensures
            r matches Shape::Group { local_transform, shapes } && shapes@.len() == 0
                && call_ensures(T::default, (), local_transform),
    {
        Shape::Group { local_transform: T::default(), shapes: Vec::new() }
    }
}

/// One call to an exporter. `transforms` are the local transforms of the
/// groups around the step, from the outermost inwards.
#[derive(Debug, PartialEq)]
pub enum ExportStep<'a, T, S, L> {
    StartStyle { style: &'a S, transforms: Vec<T> },
    EndStyle,
    Export { leaf: &'a L, transforms: Vec<T> },
}

/// Model of an export step.
pub enum StepView<T, S, L> {
    StartStyle(S, Seq<T>),
    EndStyle,
    Export(L, Seq<T>),
}

pub open spec fn step_view<T, S, L>(s: ExportStep<'_, T, S, L>) -> StepView<T, S, L> {
    match s {
        ExportStep::StartStyle { style, transforms } => StepView::StartStyle(*style, transforms@),
        ExportStep::EndStyle => StepView::EndStyle,
        ExportStep::Export { leaf, transforms } => StepView::Export(*leaf, transforms@),
    }
}

pub open spec fn steps_view<T, S, L>(v: Seq<ExportStep<'_, T, S, L>>) -> Seq<StepView<T, S, L>> {
    Seq::new(v.len(), |i: int| step_view(v[i]))
}

/// The steps that export `shape` inside groups whose transforms are `chain`.
pub open spec fn shape_steps<T, S, L>(shape: Shape<T, S, L>, chain: Seq<T>) -> Seq<StepView<T, S, L>>
    decreases shape, 1int,
{
    match shape {
        Shape::Group { local_transform, shapes } => group_steps(shapes@, chain.push(local_transform)),
        Shape::Style { style, shape } => seq![StepView::StartStyle(style, chain)] + shape_steps(*shape, chain)
            + seq![StepView::EndStyle],
        Shape::Leaf(leaf) => seq![StepView::Export(leaf, chain)],
    }
}

/// The steps of the shapes of a group, one shape after the other.
pub open spec fn group_steps<T, S, L>(shapes: Seq<Shape<T, S, L>>, chain: Seq<T>) -> Seq<StepView<T, S, L>>
    decreases shapes, 0int,
{
    if shapes.len() == 0 {
        Seq::empty()
    } else {
        shape_steps(shapes[0], chain) + group_steps(shapes.drop_first(), chain)
    }
}

proof fn lemma_group_steps_concat<T, S, L>(a: Seq<Shape<T, S, L>>, b: Seq<Shape<T, S, L>>, chain: Seq<T>)
    ensures
        group_steps(a + b, chain) == group_steps(a, chain) + group_steps(b, chain),
    decreases a.len(),
{
    if a.len() == 0 {
        assert(a + b =~= b);
        assert(group_steps(b, chain) =~= Seq::empty() + group_steps(b, chain));
    } else {
        assert((a + b)[0] == a[0]);
        assert((a + b).drop_first() =~= a.drop_first() + b);
        lemma_group_steps_concat(a.drop_first(), b, chain);
        assert(group_steps(a + b, chain) =~= group_steps(a, chain) + group_steps(b, chain));
    }
}

fn copy_transforms<T: Copy>(v: &Vec<T>) -> (r: Vec<T>)
    ensures
        r@ == v@,
{
    let mut r: Vec<T> = Vec::new();
    let mut i: usize = 0;
    while i < v.len()
        invariant
            i <= v.len(),
            r@ == v@.take(i as int),
        decreases v.len() - i,
    {
        r.push(v[i]);
        i = i + 1;
        assert(r@ =~= v@.take(i as int));
    }
    assert(v@.take(v@.len() as int) =~= v@);
    r
}

fn push_step<'a, T, S, L>(out: &mut Vec<ExportStep<'a, T, S, L>>, step: ExportStep<'a, T, S, L>)
    ensures
        steps_view(final(out)@) == steps_view(old(out)@).push(step_view(step)),
{
    out.push(step);
    assert(steps_view(final(out)@) =~= steps_view(old(out)@).push(step_view(step)));
}

fn push_shape_steps<'a, T: Copy, S, L>(shape: &'a Shape<T, S, L>, chain: &Vec<T>, out: &mut Vec<ExportStep<'a, T, S, L>>)
    ensures
        steps_view(final(out)@) == steps_view(old(out)@) + shape_steps(*shape, chain@),
    decreases shape,
{
    match shape {
        Shape::Group { local_transform, shapes } => {
            let mut inner = copy_transforms(chain);
            inner.push(*local_transform);
            let ghost start = steps_view(out@);
            proof {
                assert(shapes@.take(0) =~= Seq::<Shape<T, S, L>>::empty());
                assert(steps_view(out@) =~= start + group_steps(shapes@.take(0), inner@));
            }
            let mut i: usize = 0;
            while i < shapes.len()
                invariant
                    i <= shapes.len(),
                    inner@ == chain@.push(*local_transform),
                    shape is Group,
                    shape->shapes == *shapes,
                    steps_view(out@) == start + group_steps(shapes@.take(i as int), inner@),
                decreases shapes.len() - i,
            {
                let ghost one = seq![shapes@[i as int]];
                proof {
                    assert(shapes@.take(i as int + 1) =~= shapes@.take(i as int) + one);
                    lemma_group_steps_concat(shapes@.take(i as int), one, inner@);
                    assert(one.drop_first() =~= Seq::<Shape<T, S, L>>::empty());
                    assert(group_steps(one.drop_first(), inner@) =~= Seq::empty());
                    assert(one[0] == shapes@[i as int]);
                    assert(group_steps(one, inner@) =~= shape_steps(shapes@[i as int], inner@));
                    assert(decreases_to!(shape => shape->shapes));
                    assert(decreases_to!(shape->shapes => shape->shapes@));
                    assert(decreases_to!(shape->shapes@ => shapes@[i as int]));
                }
                push_shape_steps(&shapes[i], &inner, out);
                assert(steps_view(out@) =~= start + group_steps(shapes@.take(i as int + 1), inner@));
                i = i + 1;
            }
            assert(shapes@.take(shapes@.len() as int) =~= shapes@);
        },
        Shape::Style { style, shape: inner } => {
            let ghost start = steps_view(out@);
            let transforms = copy_transforms(chain);
            push_step(out, ExportStep::StartStyle { style, transforms });
            push_shape_steps(&**inner, chain, out);
            push_step(out, ExportStep::EndStyle);
            assert(steps_view(out@) =~= start + shape_steps(*shape, chain@));
        },
        Shape::Leaf(leaf) => {
            let transforms = copy_transforms(chain);
            push_step(out, ExportStep::Export { leaf, transforms });
            assert(steps_view(out@) =~= steps_view(old(out)@) + shape_steps(*shape, chain@));
        },
    }
}

impl<T: Copy, S, L> Shape<T, S, L> {
    /// The calls an exporter receives for this drawing, in order.
    pub fn export_steps(&self) -> (r: Vec<ExportStep<'_, T, S, L>>)
        ensures
            steps_view(r@) == shape_steps(*self, Seq::empty()),
    {
        let mut out: Vec<ExportStep<'_, T, S, L>> = Vec::new();
        let chain: Vec<T> = Vec::new();
        push_shape_steps(self, &chain, &mut out);
        assert(steps_view(out@) =~= steps_view(Seq::<ExportStep<'_, T, S, L>>::empty()) + shape_steps(*self, Seq::empty()));
        out
    }
}

// ---------------------------------------------------------------------------
// Driving an exporter
// ---------------------------------------------------------------------------

/// A writer of drawings in some format, implemented by the users of the
/// library for each format. `calls` is the history of the calls it received,
/// each with what it returned; every method adds its own call to it. A
/// verified implementation defines `calls` from its own state; the default,
/// an empty history, only serves implementations that Verus does not check.
pub trait Exporter<T, S, L> {
    type Error;

    open spec fn calls(&self) -> Seq<(StepView<T, S, L>, Result<(), Self::Error>)> {
        Seq::empty()
    }

    /// Enters a style, inside groups placed by `transforms`.
    fn start_style(&mut self, style: &S, transforms: &Vec<T>) -> (r: Result<(), Self::Error>)
        ensures
            final(self).calls() == old(self).calls().push((StepView::StartStyle(*style, transforms@), r));

    /// Leaves the innermost style.
    fn end_style(&mut self) -> (r: Result<(), Self::Error>)
        ensures
            final(self).calls() == old(self).calls().push((StepView::EndStyle, r));

    /// Draws a leaf, inside groups placed by `transforms`.
    fn export(&mut self, leaf: &L, transforms: &Vec<T>) -> (r: Result<(), Self::Error>)
        ensures
            final(self).calls() == old(self).calls().push((StepView::Export(*leaf, transforms@), r));
}

/// Whether the calls `made` follow `steps` up to the first failure, and `r`
/// reports it: each call is the next step; every call but a failed last one
/// succeeded; on success every step was made, on failure the last call made
/// is the one that failed with the error returned.
pub open spec fn follows<T, S, L, E>(
    steps: Seq<StepView<T, S, L>>,
    made: Seq<(StepView<T, S, L>, Result<(), E>)>,
    r: Result<(), E>,
) -> bool {
    &&& made.len() <= steps.len()
    &&& forall|i: int| 0 <= i < made.len() ==> (#[trigger] made[i]).0 == steps[i]
    &&& match r {
        Result::Ok(_) => made.len() == steps.len() && forall|i: int| 0 <= i < made.len() ==> (#[trigger] made[i]).1 is Ok,
        Result::Err(e) => made.len() > 0 && made.last().1 == Result::<(), E>::Err(e)
            && forall|i: int| 0 <= i < made.len() - 1 ==> (#[trigger] made[i]).1 is Ok,
    }
}

impl<T: Copy, S, L> Shape<T, S, L> {
    /// Writes the drawing into `exporter`: the calls of `export_steps`, in
    /// order, until one fails; that call's error is returned and no later
    /// call is made.
    pub fn write_into_exporter<E: Exporter<T, S, L>>(&self, exporter: &mut E) -> (r: Result<(), E::Error>)
        ensures
            final(exporter).calls().len() >= old(exporter).calls().len(),
            final(exporter).calls().take(old(exporter).calls().len() as int) == old(exporter).calls(),
            follows(
                shape_steps(*self, Seq::empty()),
                final(exporter).calls().skip(old(exporter).calls().len() as int),
                r,
            ),
    {
        let steps = self.export_steps();
        let ghost sv = steps_view(steps@);
        let ghost start = exporter.calls();
        let mut i: usize = 0;
        while i < steps.len()
            invariant
                i <= steps.len(),
                sv == steps_view(steps@),
                sv.len() == steps.len(),
                start == old(exporter).calls(),
                sv == shape_steps(*self, Seq::empty()),
                exporter.calls().len() == start.len() + i,
                exporter.calls().take(start.len() as int) == start,
                forall|j: int| 0 <= j < i ==> (#[trigger] exporter.calls()[start.len() + j]).0 == sv[j]
                    && exporter.calls()[start.len() + j].1 is Ok,
            decreases steps.len() - i,
        {
            let ghost before = exporter.calls();
            let r = match &steps[i] {
                ExportStep::StartStyle { style, transforms } => exporter.start_style(style, transforms),
                ExportStep::EndStyle => exporter.end_style(),
                ExportStep::Export { leaf, transforms } => exporter.export(leaf, transforms),
            };
            assert(exporter.calls() == before.push((sv[i as int], r)));
            assert(exporter.calls().take(start.len() as int) =~= before.take(start.len() as int));
            match r {
                Err(e) => {
                    let ghost made = exporter.calls().skip(start.len() as int);
                    assert forall|j: int| 0 <= j < made.len() implies (#[trigger] made[j]).0 == sv[j] by {
                        assert(made[j] == exporter.calls()[start.len() + j]);
                        if j < i {
                            assert(exporter.calls()[start.len() + j] == before[start.len() + j]);
                        }
                    }
                    assert forall|j: int| 0 <= j < made.len() - 1 implies (#[trigger] made[j]).1 is Ok by {
                        assert(made[j] == exporter.calls()[start.len() + j]);
                        assert(exporter.calls()[start.len() + j] == before[start.len() + j]);
                    }
                    assert(made.last() == exporter.calls()[start.len() + i]);
                    return Err(e);
                },
                Ok(()) => {},
            }
            assert forall|j: int| 0 <= j < i + 1 implies (#[trigger] exporter.calls()[start.len() + j]).0 == sv[j]
                && exporter.calls()[start.len() + j].1 is Ok by {
                if j < i {
                    assert(exporter.calls()[start.len() + j] == before[start.len() + j]);
                }
            }
            i = i + 1;
        }
        let ghost made = exporter.calls().skip(start.len() as int);
        assert forall|j: int| 0 <= j < made.len() implies (#[trigger] made[j]).0 == sv[j] && made[j].1 is Ok by {
            assert(made[j] == exporter.calls()[start.len() + j]);
        }
        Ok(())
    }
}

// ---------------------------------------------------------------------------
// Style scopes
// ---------------------------------------------------------------------------

/// Replays steps against a stack of open styles (innermost last), starting
/// from `open`: a style is pushed when it starts and popped when it ends, and
/// each exported leaf is paired with the styles open at that moment. Gives the
/// leaves and the styles still open at the end; `None` when a style ends while
/// none is open.
pub open spec fn replay_styles<T, S, L>(steps: Seq<StepView<T, S, L>>, open: Seq<S>) -> Option<(Seq<(L, Seq<S>)>, Seq<S>)>
    decreases steps.len(),
{
    if steps.len() == 0 {
        Option::Some((Seq::empty(), open))
    } else {
        match steps[0] {
            StepView::StartStyle(s, _) => replay_styles(steps.drop_first(), open.push(s)),
            StepView::EndStyle => if open.len() == 0 {
                Option::None
            } else {
                replay_styles(steps.drop_first(), open.drop_last())
            },
            StepView::Export(leaf, _) => match replay_styles(steps.drop_first(), open) {
                Option::Some((leaves, rest)) => Option::Some((seq![(leaf, open)] + leaves, rest)),
                Option::None => Option::None,
            },
        }
    }
}

/// The leaves of a drawing, in order, each with the styles of the style
/// blocks that hold it (innermost last), after the styles `open`.
pub open spec fn styled_leaves<T, S, L>(shape: Shape<T, S, L>, open: Seq<S>) -> Seq<(L, Seq<S>)>
    decreases shape, 1int,
{
    match shape {
        Shape::Group { local_transform, shapes } => group_styled_leaves(shapes@, open),
        Shape::Style { style, shape } => styled_leaves(*shape, open.push(style)),
        Shape::Leaf(leaf) => seq![(leaf, open)],
    }
}

pub open spec fn group_styled_leaves<T, S, L>(shapes: Seq<Shape<T, S, L>>, open: Seq<S>) -> Seq<(L, Seq<S>)>
    decreases shapes, 0int,
{
    if shapes.len() == 0 {
        Seq::empty()
    } else {
        styled_leaves(shapes[0], open) + group_styled_leaves(shapes.drop_first(), open)
    }
}

proof fn lemma_replay_concat<T, S, L>(a: Seq<StepView<T, S, L>>, b: Seq<StepView<T, S, L>>, open: Seq<S>)
    ensures
        replay_styles(a + b, open) == match replay_styles(a, open) {
            Option::None => Option::None,
            Option::Some((la, sa)) => match replay_styles(b, sa) {
                Option::None => Option::None,
                Option::Some((lb, sb)) => Option::Some((la + lb, sb)),
            },
        },
    decreases a.len(),
{
    if a.len() == 0 {
        assert(a + b =~= b);
        match replay_styles(b, open) {
            Option::Some((lb, sb)) => {
                assert(Seq::<(L, Seq<S>)>::empty() + lb =~= lb);
            },
            Option::None => {},
        }
    } else {
        assert((a + b)[0] == a[0]);
        assert((a + b).drop_first() =~= a.drop_first() + b);
        match a[0] {
            StepView::StartStyle(s, _) => {
                lemma_replay_concat(a.drop_first(), b, open.push(s));
            },
            StepView::EndStyle => {
                if open.len() > 0 {
                    lemma_replay_concat(a.drop_first(), b, open.drop_last());
                }
            },
            StepView::Export(leaf, _) => {
                lemma_replay_concat(a.drop_first(), b, open);
                match replay_styles(a.drop_first(), open) {
                    Option::Some((la, sa)) => match replay_styles(b, sa) {
                        Option::Some((lb, sb)) => {
                            assert(seq![(leaf, open)] + (la + lb) =~= (seq![(leaf, open)] + la) + lb);
                        },
                        Option::None => {},
                    },
                    Option::None => {},
                }
            },
        }
    }
}

proof fn lemma_shape_replay<T, S, L>(shape: Shape<T, S, L>, chain: Seq<T>, open: Seq<S>)
    ensures
        replay_styles(shape_steps(shape, chain), open) == Option::Some((styled_leaves(shape, open), open)),
    decreases shape, 1int,
{
    match shape {
        Shape::Group { local_transform, shapes } => {
            lemma_group_replay(shapes@, chain.push(local_transform), open);
            assert(shape_steps(shape, chain) == group_steps(shapes@, chain.push(local_transform)));
            assert(styled_leaves(shape, open) == group_styled_leaves(shapes@, open));
        },
        Shape::Style { style, shape: inner } => {
            let start = seq![StepView::<T, S, L>::StartStyle(style, chain)];
            let body = shape_steps(*inner, chain);
            let end = seq![StepView::<T, S, L>::EndStyle];
            let pushed = open.push(style);
            lemma_shape_replay(*inner, chain, pushed);
            lemma_replay_concat(body, end, pushed);
            assert(end.drop_first() =~= Seq::<StepView<T, S, L>>::empty());
            assert(pushed.drop_last() =~= open);
            assert(replay_styles(Seq::<StepView<T, S, L>>::empty(), open) == Option::Some((Seq::<(L, Seq<S>)>::empty(), open)));
            assert(replay_styles(end.drop_first(), pushed.drop_last()) == replay_styles(Seq::<StepView<T, S, L>>::empty(), open));
            assert(replay_styles(end, pushed) == Option::Some((Seq::<(L, Seq<S>)>::empty(), open)));
            assert(styled_leaves(*inner, pushed) + Seq::<(L, Seq<S>)>::empty() =~= styled_leaves(*inner, pushed));
            let all = start + body + end;
            assert(all[0] == StepView::<T, S, L>::StartStyle(style, chain));
            assert(all.drop_first() =~= body + end);
        },
        Shape::Leaf(leaf) => {
            let steps = seq![StepView::<T, S, L>::Export(leaf, chain)];
            assert(steps.drop_first() =~= Seq::<StepView<T, S, L>>::empty());
            assert(seq![(leaf, open)] + Seq::<(L, Seq<S>)>::empty() =~= seq![(leaf, open)]);
        },
    }
}

proof fn lemma_group_replay<T, S, L>(shapes: Seq<Shape<T, S, L>>, chain: Seq<T>, open: Seq<S>)
    ensures
        replay_styles(group_steps(shapes, chain), open) == Option::Some((group_styled_leaves(shapes, open), open)),
    decreases shapes, 0int,
{
    if shapes.len() > 0 {
        lemma_shape_replay(shapes[0], chain, open);
        lemma_group_replay(shapes.drop_first(), chain, open);
        lemma_replay_concat(shape_steps(shapes[0], chain), group_steps(shapes.drop_first(), chain), open);
    }
}

/// Style blocks are scopes: the walk of a drawing closes every style it
/// opens, never closes one that is not open, and exports each leaf while
/// exactly the styles of the style blocks that hold it are open, innermost
/// last.
pub proof fn law_style_scopes<T, S, L>(shape: Shape<T, S, L>)
    ensures
        replay_styles(shape_steps(shape, Seq::empty()), Seq::empty())
            == Option::Some((styled_leaves(shape, Seq::empty()), Seq::<S>::empty())),
{
    lemma_shape_replay(shape, Seq::empty(), Seq::empty());
}

} // verus!
