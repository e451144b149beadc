//! Curves as the exporters receive them, and the drawing commands they turn into.
use vstd::prelude::*;

use crate::curve::{Bezier, Curve, CurveView, Keypoint, KeypointView, keypoint_view, keypoints_view, lemma_keypoints_view_index};

verus! {

/// A keypoint placed in the final coordinate system.
#[derive(Debug, Clone, Copy, PartialEq)]
pub enum KeypointPosition<P> {
    Point(P),
    Bezier(Bezier<P>),
}

/// A flattened curve placed in the final coordinate system.
#[derive(Debug, Clone, PartialEq)]
pub struct CurvePosition<P> {
    pub keypoints: Vec<KeypointPosition<P>>,
    pub closed: bool,
}

/// A drawing command of a path.
#[derive(Debug, Clone, Copy, PartialEq)]
pub enum PathCommand<P> {
    MoveTo(P),
    LineTo(P),
    CubicTo(P, P, P),
    Close,
}

/// The commands of one keypoint: the first keypoint moves the pen, the others draw.
pub open spec fn keypoint_commands<P>(first: bool, k: KeypointPosition<P>) -> Seq<PathCommand<P>> {
    match k {
        KeypointPosition::Point(p) => seq![if first { PathCommand::MoveTo(p) } else { PathCommand::LineTo(p) }],
        KeypointPosition::Bezier(b) => {
            let lead = match b.start {
                Option::Some(s) => seq![if first { PathCommand::MoveTo(s) } else { PathCommand::LineTo(s) }],
                Option::None => Seq::empty(),
            };
            lead.push(PathCommand::CubicTo(b.start_control, b.end_control, b.end))
        },
    }
}

/// The commands of the keypoints, in order.
pub open spec fn keypoints_commands<P>(ks: Seq<KeypointPosition<P>>) -> Seq<PathCommand<P>>
    decreases ks.len(),
{
    if ks.len() == 0 {
        Seq::empty()
    } else {
        keypoints_commands(ks.drop_last()) + keypoint_commands(ks.len() == 1, ks.last())
    }
}

/// The commands of a curve: those of its keypoints, then `Close` if it is closed.
pub open spec fn curve_commands_spec<P>(ks: Seq<KeypointPosition<P>>, closed: bool) -> Seq<PathCommand<P>> {
    if closed {
        keypoints_commands(ks).push(PathCommand::Close)
    } else {
        keypoints_commands(ks)
    }
}

/// The commands of the keypoints when the pen is already down: every
/// point, the first too, is reached by a line.
pub open spec fn keypoints_line_commands<P>(ks: Seq<KeypointPosition<P>>) -> Seq<PathCommand<P>>
    decreases ks.len(),
{
    if ks.len() == 0 {
        Seq::empty()
    } else {
        keypoints_line_commands(ks.drop_last()) + keypoint_commands(false, ks.last())
    }
}

/// Whether a curve has nowhere to start: it begins with a segment without start point.
pub open spec fn lacks_start<P>(ks: Seq<KeypointPosition<P>>) -> bool {
    ks.len() > 0 && (ks[0] matches KeypointPosition::Bezier(b) && b.start is None)
}

fn keypoint_commands_exec<P: Copy>(out: &mut Vec<PathCommand<P>>, first: bool, k: &KeypointPosition<P>)
    ensures
        final(out)@ == old(out)@ + keypoint_commands(first, *k),
{
    match k {
        KeypointPosition::Point(p) => {
            out.push(if first { PathCommand::MoveTo(*p) } else { PathCommand::LineTo(*p) });
            assert(final(out)@ =~= old(out)@ + keypoint_commands(first, *k));
        },
        KeypointPosition::Bezier(b) => {
            match b.start {
                Some(s) => out.push(if first { PathCommand::MoveTo(s) } else { PathCommand::LineTo(s) }),
                None => {},
            }
            out.push(PathCommand::CubicTo(b.start_control, b.end_control, b.end));
            assert(final(out)@ =~= old(out)@ + keypoint_commands(first, *k));
        },
    }
}

impl<P: Copy> CurvePosition<P> {
    /// The drawing commands of the curve. A curve that begins with a segment
    /// without start point begins with that segment's `CubicTo`.
    pub fn commands(&self) -> (r: Vec<PathCommand<P>>)
        ensures
            r@ == curve_commands_spec(self.keypoints@, self.closed),
    {
        let mut out: Vec<PathCommand<P>> = Vec::new();
        let mut i: usize = 0;
        while i < self.keypoints.len()
            invariant
                i <= self.keypoints.len(),
                out@ == keypoints_commands(self.keypoints@.take(i as int)),
            decreases self.keypoints.len() - i,
        {
            let ghost next = self.keypoints@.take(i as int + 1);
            assert(next.drop_last() =~= self.keypoints@.take(i as int));
            assert(next.last() == self.keypoints@[i as int]);
            keypoint_commands_exec(&mut out, i == 0, &self.keypoints[i]);
            i = i + 1;
        }
        assert(self.keypoints@.take(self.keypoints@.len() as int) =~= self.keypoints@);
        if self.closed {
            out.push(PathCommand::Close);
        }
        out
    }

    /// The drawing commands of the curve for a pen that is already down: no
    /// `MoveTo`, every point is reached by a line, then `Close` if the curve
    /// is closed.
    pub fn line_commands(&self) -> (r: Vec<PathCommand<P>>)
        ensures
            r@ == (if self.closed {
                keypoints_line_commands(self.keypoints@).push(PathCommand::Close)
            } else {
                keypoints_line_commands(self.keypoints@)
            }),
    {
        let mut out: Vec<PathCommand<P>> = Vec::new();
        let mut i: usize = 0;
        while i < self.keypoints.len()
            invariant
                i <= self.keypoints.len(),
                out@ == keypoints_line_commands(self.keypoints@.take(i as int)),
            decreases self.keypoints.len() - i,
        {
            let ghost next = self.keypoints@.take(i as int + 1);
            assert(next.drop_last() =~= self.keypoints@.take(i as int));
            assert(next.last() == self.keypoints@[i as int]);
            keypoint_commands_exec(&mut out, false, &self.keypoints[i]);
            i = i + 1;
        }
        assert(self.keypoints@.take(self.keypoints@.len() as int) =~= self.keypoints@);
        if self.closed {
            out.push(PathCommand::Close);
        }
        out
    }

    /// The drawing commands of the curve, or `None` when it has nowhere to start.
    pub fn commands_from_start(&self) -> (r: Option<Vec<PathCommand<P>>>)
        ensures
            r is None <==> lacks_start(self.keypoints@),
            r matches Option::Some(v) ==> v@ == curve_commands_spec(self.keypoints@, self.closed),
    {
        if self.keypoints.len() > 0 {
            if let KeypointPosition::Bezier(b) = &self.keypoints[0] {
                if b.start.is_none() {
                    return None;
                }
            }
        }
        Some(self.commands())
    }
}


// ---------------------------------------------------------------------------
// Flattening nested curves
// ---------------------------------------------------------------------------

/// A point or segment of a curve, with the local transforms of the curves
/// that hold it, from the outermost curve inwards. Placing it applies the
/// parent transform, then these transforms in order.
#[derive(Debug, Clone, PartialEq)]
pub struct PlacedKeypoint<P, T> {
    pub transforms: Vec<T>,
    pub keypoint: KeypointPosition<P>,
}

/// Model of placed keypoints: pairs of a transform chain and a keypoint.
pub open spec fn placed_view<P, T>(v: Seq<PlacedKeypoint<P, T>>) -> Seq<(Seq<T>, KeypointPosition<P>)> {
    Seq::new(v.len(), |i: int| (v[i].transforms@, v[i].keypoint))
}

/// The points and segments of `ks`, in order, held by curves whose transforms
/// are `chain`; a nested curve adds its own transform to the chain of the
/// keypoints it holds.
pub open spec fn flatten_keypoints<P, T>(ks: Seq<KeypointView<P, T>>, chain: Seq<T>) -> Seq<(Seq<T>, KeypointPosition<P>)>
    decreases ks, 0int,
{
    if ks.len() == 0 {
        Seq::empty()
    } else {
        let head = match ks[0] {
            KeypointView::Point(p) => seq![(chain, KeypointPosition::Point(p))],
            KeypointView::Bezier(b) => seq![(chain, KeypointPosition::Bezier(b))],
            KeypointView::Curve(c) => flatten_curve(c, chain),
        };
        head + flatten_keypoints(ks.drop_first(), chain)
    }
}

/// The points and segments of a curve held by curves whose transforms are `chain`.
pub open spec fn flatten_curve<P, T>(c: CurveView<P, T>, chain: Seq<T>) -> Seq<(Seq<T>, KeypointPosition<P>)>
    decreases c, 1int,
{
    flatten_keypoints(c.keypoints, chain.push(c.local_transform))
}

proof fn lemma_flatten_concat<P, T>(a: Seq<KeypointView<P, T>>, b: Seq<KeypointView<P, T>>, chain: Seq<T>)
    ensures
        flatten_keypoints(a + b, chain) == flatten_keypoints(a, chain) + flatten_keypoints(b, chain),
    decreases a.len(),
{
    if a.len() == 0 {
        assert(a + b =~= b);
        assert(flatten_keypoints(a, chain) =~= Seq::empty());
        assert(flatten_keypoints(b, chain) =~= Seq::empty() + flatten_keypoints(b, chain));
    } else {
        assert((a + b)[0] == a[0]);
        assert((a + b).drop_first() =~= a.drop_first() + b);
        lemma_flatten_concat(a.drop_first(), b, chain);
        let head = flatten_keypoints(seq![a[0]], chain);
        assert(seq![a[0]].drop_first() =~= Seq::<KeypointView<P, T>>::empty());
        assert(flatten_keypoints(a + b, chain) =~= flatten_keypoints(a, chain) + flatten_keypoints(b, chain));
    }
}

fn copy_chain<T: Copy>(v: &Vec<T>) -> (r: Vec<T>)
    ensures
        r@ == v@,
{
    let mut r: Vec<T> = Vec::new();
    let mut i: usize = 0;
    while i < v.len()
        invariant
            i <= v.len(),
            r@ == v@.take(i as int),
        decreases v.len() - i,
    {
        r.push(v[i]);
        i = i + 1;
        assert(r@ =~= v@.take(i as int));
    }
    assert(v@.take(v@.len() as int) =~= v@);
    r
}

fn push_placed<P, T>(out: &mut Vec<PlacedKeypoint<P, T>>, transforms: Vec<T>, keypoint: KeypointPosition<P>)
    ensures
        placed_view(final(out)@) == placed_view(old(out)@).push((transforms@, keypoint)),
{
    out.push(PlacedKeypoint { transforms, keypoint });
    assert(placed_view(final(out)@) =~= placed_view(old(out)@).push((transforms@, keypoint)));
}

fn flatten_into<P: Copy, T: Copy>(c: &Curve<P, T>, chain: &Vec<T>, out: &mut Vec<PlacedKeypoint<P, T>>)
    ensures
        placed_view(final(out)@) == placed_view(old(out)@) + flatten_curve(c@, chain@),
    decreases c,
{
    let mut inner = copy_chain(chain);
    inner.push(c.local_transform);
    let ghost kv = keypoints_view(c.keypoints@);
    let ghost start = placed_view(out@);
    proof {
        lemma_keypoints_view_index(c.keypoints@);
        assert(kv.take(0) =~= Seq::<KeypointView<P, T>>::empty());
        assert(placed_view(out@) =~= start + flatten_keypoints(kv.take(0), inner@));
    }
    let mut i: usize = 0;
    while i < c.keypoints.len()
        invariant
            i <= c.keypoints.len(),
            kv == keypoints_view(c.keypoints@),
            kv.len() == c.keypoints.len(),
            forall|j: int| 0 <= j < kv.len() ==> #[trigger] kv[j] == keypoint_view(c.keypoints@[j]),
            inner@ == chain@.push(c.local_transform),
            placed_view(out@) == start + flatten_keypoints(kv.take(i as int), inner@),
        decreases c.keypoints.len() - i,
    {
        let ghost one = seq![kv[i as int]];
        proof {
            assert(kv.take(i as int + 1) =~= kv.take(i as int) + one);
            lemma_flatten_concat(kv.take(i as int), one, inner@);
            assert(one.drop_first() =~= Seq::<KeypointView<P, T>>::empty());
            assert(flatten_keypoints(one.drop_first(), inner@) =~= Seq::empty());
            assert(one[0] == keypoint_view(c.keypoints@[i as int]));
        }
        let ghost before = placed_view(out@);
        match &c.keypoints[i] {
            Keypoint::Point(p) => {
                let t = copy_chain(&inner);
                push_placed(out, t, KeypointPosition::Point(*p));
                assert(one[0] == KeypointView::<P, T>::Point(*p));
                assert(flatten_keypoints(one, inner@) =~= seq![(inner@, KeypointPosition::Point(*p))]);
            },
            Keypoint::Bezier(b) => {
                let t = copy_chain(&inner);
                push_placed(out, t, KeypointPosition::Bezier(*b));
                assert(flatten_keypoints(one, inner@) =~= seq![(inner@, KeypointPosition::Bezier(*b))]);
            },
            Keypoint::Curve(nc) => {
                proof {
                    assert(decreases_to!(c => c.keypoints));
                    assert(decreases_to!(c.keypoints => c.keypoints@));
                    assert(decreases_to!(c.keypoints@ => c.keypoints@[i as int]));
                }
                flatten_into(nc, &inner, out);
                assert(one[0] == KeypointView::<P, T>::Curve(nc@));
                assert(flatten_keypoints(one, inner@) =~= flatten_curve(nc@, inner@));
            },
        }
        assert(placed_view(out@) =~= start + flatten_keypoints(kv.take(i as int + 1), inner@));
        i = i + 1;
    }
    assert(kv.take(kv.len() as int) =~= kv);
}

impl<P: Copy, T: Copy> Curve<P, T> {
    /// The points and segments of the curve, in order, nested curves
    /// flattened in place. Each comes with the local transforms that place it:
    /// the curve's own, then those of the nested curves that hold it.
    pub fn flatten(&self) -> (r: Vec<PlacedKeypoint<P, T>>)
        ensures
            placed_view(r@) == flatten_curve(self@, Seq::empty()),
    {
        let mut out: Vec<PlacedKeypoint<P, T>> = Vec::new();
        let chain: Vec<T> = Vec::new();
        flatten_into(self, &chain, &mut out);
        assert(placed_view(out@) =~= placed_view(Seq::<PlacedKeypoint<P, T>>::empty()) + flatten_curve(self@, Seq::empty()));
        out
    }
}

} // verus!

verus! {

// ---------------------------------------------------------------------------
// Laws
// ---------------------------------------------------------------------------

/// The commands of keypoints hold no `Close`, and no `MoveTo` but possibly the first.
proof fn lemma_keypoints_commands_shape<P>(ks: Seq<KeypointPosition<P>>)
    ensures
        forall|i: int| 0 <= i < keypoints_commands(ks).len() ==> !(#[trigger] keypoints_commands(ks)[i] is Close),
        forall|i: int| 0 < i < keypoints_commands(ks).len() ==> !(#[trigger] keypoints_commands(ks)[i] is MoveTo),
        ks.len() > 0 ==> keypoints_commands(ks).len() > 0,
    decreases ks.len(),
{
    if ks.len() > 0 {
        let pre = ks.drop_last();
        lemma_keypoints_commands_shape(pre);
        let a = keypoints_commands(pre);
        let b = keypoint_commands(ks.len() == 1, ks.last());
        let all = keypoints_commands(ks);
        assert(all == a + b);
        assert forall|i: int| 0 <= i < all.len() implies !(#[trigger] all[i] is Close) by {
            if i >= a.len() {
                assert(all[i] == b[i - a.len()]);
            } else {
                assert(all[i] == a[i]);
            }
        }
        assert forall|i: int| 0 < i < all.len() implies !(#[trigger] all[i] is MoveTo) by {
            if i >= a.len() {
                assert(all[i] == b[i - a.len()]);
                if ks.len() == 1 {
                    assert(a.len() == 0);
                }
            } else {
                assert(all[i] == a[i]);
            }
        }
    }
}

/// A curve that has somewhere to start begins by moving the pen there, and
/// never moves it again.
pub proof fn law_single_move<P>(ks: Seq<KeypointPosition<P>>, closed: bool)
    requires
        ks.len() > 0,
        !lacks_start(ks),
    ensures
        curve_commands_spec(ks, closed)[0] is MoveTo,
        forall|i: int| 0 < i < curve_commands_spec(ks, closed).len() ==> !(#[trigger] curve_commands_spec(ks, closed)[i] is MoveTo),
{
    lemma_keypoints_commands_shape(ks);
    lemma_first_command(ks);
    let c = curve_commands_spec(ks, closed);
    let k = keypoints_commands(ks);
    assert forall|i: int| 0 < i < c.len() implies !(#[trigger] c[i] is MoveTo) by {
        if i < k.len() {
            assert(c[i] == k[i]);
        }
    }
}

proof fn lemma_first_command<P>(ks: Seq<KeypointPosition<P>>)
    requires
        ks.len() > 0,
    ensures
        keypoints_commands(ks).len() > 0,
        keypoints_commands(ks)[0] == keypoint_commands(true, ks[0])[0],
    decreases ks.len(),
{
    if ks.len() == 1 {
        assert(keypoints_commands(ks.drop_last()) =~= Seq::<PathCommand<P>>::empty());
        assert(keypoint_commands(true, ks[0]).len() > 0);
    } else {
        lemma_first_command(ks.drop_last());
        assert(ks.drop_last()[0] == ks[0]);
    }
}

/// A curve's commands end with `Close` exactly when it is closed.
pub proof fn law_close_last<P>(ks: Seq<KeypointPosition<P>>, closed: bool)
    requires
        curve_commands_spec(ks, closed).len() > 0,
    ensures
        curve_commands_spec(ks, closed).last() is Close <==> closed,
        forall|i: int| 0 <= i < curve_commands_spec(ks, closed).len() - 1 ==> !(#[trigger] curve_commands_spec(ks, closed)[i] is Close),
{
    lemma_keypoints_commands_shape(ks);
    let c = curve_commands_spec(ks, closed);
    let k = keypoints_commands(ks);
    assert forall|i: int| 0 <= i < c.len() - 1 implies !(#[trigger] c[i] is Close) by {
        assert(c[i] == k[i]);
    }
    if !closed {
        assert(c.last() == k[k.len() - 1]);
    }
}


/// Commands for a pen that is already down never move it.
pub proof fn law_line_commands_never_move<P>(ks: Seq<KeypointPosition<P>>)
    ensures
        forall|i: int| 0 <= i < keypoints_line_commands(ks).len() ==> !(#[trigger] keypoints_line_commands(ks)[i] is MoveTo),
    decreases ks.len(),
{
    if ks.len() > 0 {
        law_line_commands_never_move(ks.drop_last());
        let a = keypoints_line_commands(ks.drop_last());
        let b = keypoint_commands(false, ks.last());
        let all = keypoints_line_commands(ks);
        assert forall|i: int| 0 <= i < all.len() implies !(#[trigger] all[i] is MoveTo) by {
            if i >= a.len() {
                assert(all[i] == b[i - a.len()]);
            } else {
                assert(all[i] == a[i]);
            }
        }
    }
}


/// The cubic curves among drawing commands, in order.
pub open spec fn cubics<P>(cs: Seq<PathCommand<P>>) -> Seq<PathCommand<P>>
    decreases cs.len(),
{
    if cs.len() == 0 {
        Seq::empty()
    } else {
        cubics(cs.drop_last()) + if cs.last() is CubicTo { seq![cs.last()] } else { Seq::empty() }
    }
}

/// For each segment of the keypoints, in order, the cubic curve through its
/// control points to its end.
pub open spec fn segment_curves<P>(ks: Seq<KeypointPosition<P>>) -> Seq<PathCommand<P>>
    decreases ks.len(),
{
    if ks.len() == 0 {
        Seq::empty()
    } else {
        segment_curves(ks.drop_last()) + match ks.last() {
            KeypointPosition::Bezier(b) => seq![PathCommand::CubicTo(b.start_control, b.end_control, b.end)],
            KeypointPosition::Point(_) => Seq::empty(),
        }
    }
}

proof fn lemma_cubics_concat<P>(a: Seq<PathCommand<P>>, b: Seq<PathCommand<P>>)
    ensures
        cubics(a + b) == cubics(a) + cubics(b),
    decreases b.len(),
{
    if b.len() == 0 {
        assert(a + b =~= a);
        assert(cubics(a) + cubics(b) =~= cubics(a));
    } else {
        assert((a + b).drop_last() =~= a + b.drop_last());
        assert((a + b).last() == b.last());
        lemma_cubics_concat(a, b.drop_last());
        assert(cubics(a + b) =~= cubics(a) + cubics(b));
    }
}

proof fn lemma_keypoint_cubics<P>(first: bool, k: KeypointPosition<P>)
    ensures
        cubics(keypoint_commands(first, k)) == match k {
            KeypointPosition::Bezier(b) => seq![PathCommand::CubicTo(b.start_control, b.end_control, b.end)],
            KeypointPosition::Point(_) => Seq::<PathCommand<P>>::empty(),
        },
{
    let cs = keypoint_commands(first, k);
    match k {
        KeypointPosition::Point(p) => {
            assert(cs.drop_last() =~= Seq::<PathCommand<P>>::empty());
            assert(cubics(cs.drop_last()) =~= Seq::<PathCommand<P>>::empty());
        },
        KeypointPosition::Bezier(b) => {
            let lead = cs.drop_last();
            assert(cs.last() == PathCommand::CubicTo(b.start_control, b.end_control, b.end));
            match b.start {
                Option::Some(st) => {
                    assert(lead =~= seq![if first { PathCommand::MoveTo(st) } else { PathCommand::LineTo(st) }]);
                    assert(lead.drop_last() =~= Seq::<PathCommand<P>>::empty());
                    assert(cubics(lead.drop_last()) =~= Seq::<PathCommand<P>>::empty());
                    assert(!(lead.last() is CubicTo));
                    assert(cubics(lead) =~= Seq::<PathCommand<P>>::empty());
                },
                Option::None => {
                    assert(lead =~= Seq::<PathCommand<P>>::empty());
                    assert(cubics(lead) =~= Seq::<PathCommand<P>>::empty());
                },
            }
            assert(cs.len() > 0);
            assert(cubics(cs) == cubics(lead) + seq![cs.last()]);
            assert(cubics(cs) =~= seq![PathCommand::CubicTo(b.start_control, b.end_control, b.end)]);
        },
    }
}

/// Every segment of a curve gives exactly one cubic curve, through its
/// control points to its end, in the order of the segments, whether it comes
/// first or not; points give none, and closing adds none.
pub proof fn law_each_segment_one_cubic<P>(ks: Seq<KeypointPosition<P>>, closed: bool)
    ensures
        cubics(curve_commands_spec(ks, closed)) == segment_curves(ks),
        cubics(keypoints_line_commands(ks)) == segment_curves(ks),
    decreases ks.len(),
{
    if ks.len() > 0 {
        law_each_segment_one_cubic(ks.drop_last(), false);
        lemma_keypoint_cubics(ks.len() == 1, ks.last());
        lemma_keypoint_cubics(false, ks.last());
        lemma_cubics_concat(keypoints_commands(ks.drop_last()), keypoint_commands(ks.len() == 1, ks.last()));
        lemma_cubics_concat(keypoints_line_commands(ks.drop_last()), keypoint_commands(false, ks.last()));
        assert(curve_commands_spec(ks.drop_last(), false) == keypoints_commands(ks.drop_last()));
    } else {
        assert(keypoints_commands(ks) =~= Seq::<PathCommand<P>>::empty());
        assert(cubics(Seq::<PathCommand<P>>::empty()) =~= Seq::<PathCommand<P>>::empty());
    }
    if closed {
        let k = keypoints_commands(ks);
        assert(curve_commands_spec(ks, closed).drop_last() =~= k);
    }
}
} // verus!
