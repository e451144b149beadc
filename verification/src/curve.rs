//! Curves: sequences of keypoints (points, cubic Béziers, nested curves).
//!
//! The type of points `P` and of transforms `T` are parameters: the library
//! moves them around but never computes on them.
use vstd::prelude::*;

verus! {

/// A cubic Bézier segment. Without `start`, it starts where the previous keypoint ended.
#[derive(Debug, Clone, Copy, PartialEq)]
pub struct Bezier<P> {
    pub start: Option<P>,
    pub start_control: P,
    pub end_control: P,
    pub end: P,
}

impl<P: Copy> Bezier<P> {
    /// A segment with an explicit start point.
    pub fn new_with_start(start: P, start_control: P, end_control: P, end: P) -> (r: Self)
        ensures
            r == (Bezier { start: Option::Some(start), start_control, end_control, end }),
    {
        Bezier { start: Some(start), start_control, end_control, end }
    }

    /// A segment that starts where the previous keypoint ended.
    pub fn new(start_control: P, end_control: P, end: P) -> (r: Self)
        ensures
            r == (Bezier { start: Option::None, start_control, end_control, end }),
    {
        Bezier { start: None, start_control, end_control, end }
    }
}

/// One step of a curve.
#[derive(Debug, PartialEq)]
pub enum Keypoint<P, T> {
    /// A straight line to the point.
    Point(P),
    /// A cubic Bézier segment.
    Bezier(Bezier<P>),
    /// A nested curve, with its own transform.
    Curve(Curve<P, T>),
}

/// A curve, placed by a local transform.
#[derive(Debug, PartialEq)]
pub struct Curve<P, T> {
    pub local_transform: T,
    pub keypoints: Vec<Keypoint<P, T>>,
    pub closed: bool,
}

/// Mathematical model of a keypoint.
pub enum KeypointView<P, T> {
    Point(P),
    Bezier(Bezier<P>),
    Curve(CurveView<P, T>),
}

/// Mathematical model of a curve: its keypoints as a sequence.
pub struct CurveView<P, T> {
    pub local_transform: T,
    pub keypoints: Seq<KeypointView<P, T>>,
    pub closed: bool,
}

pub open spec fn keypoints_view<P, T>(ks: Seq<Keypoint<P, T>>) -> Seq<KeypointView<P, T>>
    decreases ks, 0int,
{
    if ks.len() == 0 {
        Seq::empty()
    } else {
        keypoints_view(ks.drop_last()).push(keypoint_view(ks.last()))
    }
}

pub open spec fn keypoint_view<P, T>(k: Keypoint<P, T>) -> KeypointView<P, T>
    decreases k, 1int,
{
    match k {
        Keypoint::Point(p) => KeypointView::Point(p),
        Keypoint::Bezier(b) => KeypointView::Bezier(b),
        Keypoint::Curve(c) => KeypointView::Curve(curve_view(c)),
    }
}

pub open spec fn curve_view<P, T>(c: Curve<P, T>) -> CurveView<P, T>
    decreases c, 2int,
{
    CurveView {
        local_transform: c.local_transform,
        keypoints: keypoints_view(c.keypoints@),
        closed: c.closed,
    }
}

impl<P, T> View for Curve<P, T> {
    type V = CurveView<P, T>;

    open spec fn view(&self) -> CurveView<P, T> {
        curve_view(*self)
    }
}

} // verus!

verus! {

/// A segment traversed backwards from the end of `t` to `end`.
pub open spec fn flip<P>(t: Bezier<P>, end: P) -> Bezier<P> {
    Bezier { start: Option::Some(t.end), start_control: t.end_control, end_control: t.start_control, end }
}

/// Where a curve starts: its first point, the explicit start of its first
/// segment, or where its first nested curve starts.
pub open spec fn start_point_view<P, T>(c: CurveView<P, T>) -> Option<P>
    decreases c,
{
    if c.keypoints.len() == 0 {
        Option::None
    } else {
        match c.keypoints[0] {
            KeypointView::Point(p) => Option::Some(p),
            KeypointView::Bezier(b) => b.start,
            KeypointView::Curve(inner) => start_point_view(inner),
        }
    }
}

/// Reversal of a sequence of keypoints, read from its last keypoint to its
/// first. The second component is a segment still waiting for its end: a
/// segment without start whose start point lies before the sequence. `None`
/// where the reversal gives up (a nested curve with no start point, behind a
/// waiting segment, that itself leaves a segment waiting).
pub open spec fn reverse_keypoints<P, T>(ks: Seq<KeypointView<P, T>>) -> Option<(Seq<KeypointView<P, T>>, Option<Bezier<P>>)>
    decreases ks, 0int,
{
    if ks.len() == 0 {
        Option::Some((Seq::empty(), Option::None))
    } else {
        match reverse_keypoints(ks.drop_first()) {
            Option::None => Option::None,
            Option::Some((out, waiting)) => match ks[0] {
                KeypointView::Point(p) => match waiting {
                    Option::None => Option::Some((out.push(KeypointView::Point(p)), Option::None)),
                    Option::Some(t) => Option::Some((out.push(KeypointView::Bezier(flip(t, p))), Option::None)),
                },
                KeypointView::Bezier(b) => {
                    let out1 = match waiting {
                        Option::None => out,
                        Option::Some(t) => out.push(KeypointView::Bezier(flip(t, b.end))),
                    };
                    match b.start {
                        Option::Some(s) => Option::Some((out1.push(KeypointView::Bezier(flip(b, s))), Option::None)),
                        Option::None => Option::Some((out1, Option::Some(b))),
                    }
                },
                KeypointView::Curve(c) => match reverse_curve_view(c) {
                    Option::None => Option::None,
                    Option::Some((rc, rest)) => match waiting {
                        Option::None => Option::Some((out.push(KeypointView::Curve(rc)), rest)),
                        Option::Some(t) => match start_point_view(rc) {
                            Option::Some(s) => Option::Some((out.push(KeypointView::Bezier(flip(t, s))), rest)),
                            Option::None => if rest is None {
                                Option::Some((out, Option::Some(t)))
                            } else {
                                Option::None
                            },
                        },
                    },
                },
            },
        }
    }
}

/// Reversal of a curve: same transform and closing, reversed keypoints, and
/// the segment left waiting, if any.
pub open spec fn reverse_curve_view<P, T>(c: CurveView<P, T>) -> Option<(CurveView<P, T>, Option<Bezier<P>>)>
    decreases c, 1int,
{
    match reverse_keypoints(c.keypoints) {
        Option::None => Option::None,
        Option::Some((ks, rest)) => Option::Some((
            CurveView { local_transform: c.local_transform, keypoints: ks, closed: c.closed },
            rest,
        )),
    }
}

/// Whether a curve can be reversed: the reversal does not give up and leaves no segment waiting.
pub open spec fn reversible<P, T>(c: CurveView<P, T>) -> bool {
    reverse_curve_view(c) matches Option::Some((_, Option::None))
}

pub proof fn lemma_keypoints_view_index<P, T>(ks: Seq<Keypoint<P, T>>)
    ensures
        keypoints_view(ks).len() == ks.len(),
        forall|i: int| 0 <= i < ks.len() ==> #[trigger] keypoints_view(ks)[i] == keypoint_view(ks[i]),
    decreases ks.len(),
{
    if ks.len() > 0 {
        lemma_keypoints_view_index(ks.drop_last());
    }
}

proof fn lemma_keypoints_view_push<P, T>(ks: Seq<Keypoint<P, T>>, k: Keypoint<P, T>)
    ensures
        keypoints_view(ks.push(k)) == keypoints_view(ks).push(keypoint_view(k)),
{
    assert(ks.push(k).drop_last() =~= ks);
}

/// Reversal does not give up on a suffix where it does not give up on the whole.
proof fn lemma_reverse_suffix<P, T>(ks: Seq<KeypointView<P, T>>, i: int)
    requires
        0 <= i <= ks.len(),
        reverse_keypoints(ks) is Some,
    ensures
        reverse_keypoints(ks.subrange(i, ks.len() as int)) is Some,
    decreases i,
{
    if i > 0 {
        lemma_reverse_suffix(ks, i - 1);
        let s = ks.subrange(i - 1, ks.len() as int);
        assert(s.drop_first() =~= ks.subrange(i, ks.len() as int));
    } else {
        assert(ks.subrange(0, ks.len() as int) =~= ks);
    }
}

fn flip_exec<P: Copy>(t: Bezier<P>, end: P) -> (r: Bezier<P>)
    ensures
        r == flip(t, end),
{
    Bezier { start: Some(t.end), start_control: t.end_control, end_control: t.start_control, end }
}

fn push_kp<P, T>(out: &mut Vec<Keypoint<P, T>>, k: Keypoint<P, T>)
    ensures
        keypoints_view(final(out)@) == keypoints_view(old(out)@).push(keypoint_view(k)),
        final(out)@ == old(out)@.push(k),
{
    proof {
        lemma_keypoints_view_push(out@, k);
    }
    out.push(k);
}

impl<P: Copy, T: Copy> Curve<P, T> {
    /// Where the curve starts: its first point, the explicit start of its
    /// first segment, or where its first nested curve starts.
    pub fn start_point(&self) -> (r: Option<P>)
        ensures
            r == start_point_view(self@),
        decreases self,
    {
        proof {
            lemma_keypoints_view_index(self.keypoints@);
        }
        if self.keypoints.len() == 0 {
            None
        } else {
            match &self.keypoints[0] {
                Keypoint::Point(p) => Some(*p),
                Keypoint::Bezier(b) => b.start,
                Keypoint::Curve(c) => {
                    proof {
                        assert(decreases_to!(self => self.keypoints));
                        assert(decreases_to!(self.keypoints => self.keypoints@));
                        assert(decreases_to!(self.keypoints@ => self.keypoints@[0]));
                    }
                    c.start_point()
                },
            }
        }
    }

    /// Reversal of the curve, with the segment left waiting, if any.
    fn reversed_with_rest(&self) -> (r: (Curve<P, T>, Option<Bezier<P>>))
        requires
            reverse_curve_view(self@) is Some,
        ensures
            reverse_curve_view(self@) == Option::Some((r.0@, r.1)),
        decreases self, 1int,
    {
        let (keypoints, rest) = reverse_keypoint_vec(&self.keypoints);
        (Curve { local_transform: self.local_transform, keypoints, closed: self.closed }, rest)
    }
}

/// Reversal of a sequence of keypoints, with the segment left waiting, if any.
fn reverse_keypoint_vec<P: Copy, T: Copy>(ks: &Vec<Keypoint<P, T>>) -> (r: (Vec<Keypoint<P, T>>, Option<Bezier<P>>))
    requires
        reverse_keypoints(keypoints_view(ks@)) is Some,
    ensures
        reverse_keypoints(keypoints_view(ks@)) == Option::Some((keypoints_view(r.0@), r.1)),
    decreases ks, 0int,
{
    let ghost kv = keypoints_view(ks@);
    proof {
        lemma_keypoints_view_index(ks@);
    }
    let n = ks.len();
    let mut out: Vec<Keypoint<P, T>> = Vec::new();
    let mut waiting: Option<Bezier<P>> = None;
    let mut i = n;
    proof {
        assert(kv.subrange(n as int, n as int) =~= Seq::<KeypointView<P, T>>::empty());
        assert(keypoints_view(out@) =~= Seq::<KeypointView<P, T>>::empty());
    }
    while i > 0
        invariant
            i <= n,
            n == ks.len(),
            kv == keypoints_view(ks@),
            kv.len() == n,
            forall|j: int| 0 <= j < n ==> #[trigger] kv[j] == keypoint_view(ks@[j]),
            reverse_keypoints(kv) is Some,
            reverse_keypoints(kv.subrange(i as int, n as int)) == Option::Some((keypoints_view(out@), waiting)),
        decreases i,
    {
        i = i - 1;
        let ghost suffix = kv.subrange(i as int, n as int);
        proof {
            assert(suffix.drop_first() =~= kv.subrange(i as int + 1, n as int));
            assert(suffix[0] == kv[i as int]);
            lemma_reverse_suffix(kv, i as int);
        }
        match &ks[i] {
            Keypoint::Point(p) => {
                match waiting {
                    None => push_kp(&mut out, Keypoint::Point(*p)),
                    Some(t) => {
                        push_kp(&mut out, Keypoint::Bezier(flip_exec(t, *p)));
                        waiting = None;
                    },
                }
            },
            Keypoint::Bezier(b) => {
                if let Some(t) = waiting {
                    push_kp(&mut out, Keypoint::Bezier(flip_exec(t, b.end)));
                }
                match b.start {
                    Some(s) => {
                        push_kp(&mut out, Keypoint::Bezier(flip_exec(*b, s)));
                        waiting = None;
                    },
                    None => {
                        waiting = Some(*b);
                    },
                }
            },
            Keypoint::Curve(c) => {
                proof {
                    assert(decreases_to!(ks => ks@));
                    assert(decreases_to!(ks@ => ks@[i as int]));
                }
                let (rc, rest) = c.reversed_with_rest();
                match waiting {
                    None => {
                        push_kp(&mut out, Keypoint::Curve(rc));
                        waiting = rest;
                    },
                    Some(t) => {
                        match rc.start_point() {
                            Some(s) => {
                                push_kp(&mut out, Keypoint::Bezier(flip_exec(t, s)));
                                waiting = rest;
                            },
                            None => {},
                        }
                    },
                }
            },
        }
    }
    proof {
        assert(kv.subrange(0, n as int) =~= kv);
    }
    (out, waiting)
}

impl<P: Copy, T: Copy> Curve<P, T> {
    /// The curve traversed backwards.
    pub fn reversed(&self) -> (r: Curve<P, T>)
        requires
            reversible(self@),
        ensures
            reverse_curve_view(self@) == Option::Some((r@, Option::<Bezier<P>>::None)),
    {
        let (c, _rest) = self.reversed_with_rest();
        c
    }

    /// Reverses the curve in place.
    pub fn reverse(&mut self) -> (r: &mut Self)
        requires
            reversible(old(self)@),
        ensures
            reverse_curve_view(old(self)@) == Option::Some(((*r)@, Option::<Bezier<P>>::None)),
            *final(self) == *final(r),
    {
        *self = self.reversed();
        self
    }
}

} // verus!

verus! {

// ---------------------------------------------------------------------------
// Laws
// ---------------------------------------------------------------------------

/// Keypoints that are points, or segments with an explicit start.
pub open spec fn is_simple<P, T>(ks: Seq<KeypointView<P, T>>) -> bool {
    forall|i: int| 0 <= i < ks.len() ==> {
        ||| #[trigger] ks[i] is Point
        ||| (ks[i] matches KeypointView::Bezier(b) && b.start is Some)
    }
}

/// A keypoint traversed backwards.
pub open spec fn flip_keypoint<P, T>(k: KeypointView<P, T>) -> KeypointView<P, T> {
    match k {
        KeypointView::Bezier(b) => KeypointView::Bezier(flip(b, b.start.unwrap())),
        _ => k,
    }
}

/// Simple keypoints in reverse order, each traversed backwards.
pub open spec fn reversed_simple<P, T>(ks: Seq<KeypointView<P, T>>) -> Seq<KeypointView<P, T>> {
    Seq::new(ks.len(), |i: int| flip_keypoint(ks[ks.len() - 1 - i]))
}

/// Reversal of simple keypoints is their reverse order, each traversed backwards.
pub proof fn lemma_reverse_simple<P, T>(ks: Seq<KeypointView<P, T>>)
    requires
        is_simple(ks),
    ensures
        reverse_keypoints(ks) == Option::Some((reversed_simple(ks), Option::<Bezier<P>>::None)),
    decreases ks.len(),
{
    if ks.len() > 0 {
        let rest = ks.drop_first();
        assert(is_simple(rest)) by {
            assert forall|i: int| 0 <= i < rest.len() implies {
                ||| #[trigger] rest[i] is Point
                ||| (rest[i] matches KeypointView::Bezier(b) && b.start is Some)
            } by {
                assert(rest[i] == ks[i + 1]);
            }
        }
        lemma_reverse_simple(rest);
        assert(ks[0] is Point || (ks[0] matches KeypointView::Bezier(b) && b.start is Some));
        assert(reversed_simple(rest).push(flip_keypoint(ks[0])) =~= reversed_simple(ks));
    } else {
        assert(reversed_simple(ks) =~= Seq::<KeypointView<P, T>>::empty());
    }
}

/// A curve of points, reversed, is the same points in reverse order.
pub proof fn law_reverse_points<P, T>(c: CurveView<P, T>)
    requires
        forall|i: int| 0 <= i < c.keypoints.len() ==> #[trigger] c.keypoints[i] is Point,
    ensures
        reverse_curve_view(c) matches Option::Some((r, Option::None)) && r.keypoints == c.keypoints.reverse(),
{
    let ks = c.keypoints;
    assert(is_simple(ks));
    lemma_reverse_simple(ks);
    assert(reversed_simple(ks) =~= ks.reverse()) by {
        assert forall|i: int| 0 <= i < ks.len() implies #[trigger] reversed_simple(ks)[i] == ks.reverse()[i] by {
            assert(ks[ks.len() - 1 - i] is Point);
        }
    }
}

// ---------------------------------------------------------------------------
// Curves whose segments all have a start, nested curves included
// ---------------------------------------------------------------------------

/// Where a keypoint starts: the point itself, the explicit start of a
/// segment, or where a nested curve starts.
pub open spec fn keypoint_start<P, T>(k: KeypointView<P, T>) -> Option<P> {
    match k {
        KeypointView::Point(p) => Option::Some(p),
        KeypointView::Bezier(b) => b.start,
        KeypointView::Curve(c) => start_point_view(c),
    }
}

/// Whether every segment of the curve, in nested curves too, has an explicit start.
pub open spec fn all_starts<P, T>(c: CurveView<P, T>) -> bool
    decreases c, 1int,
{
    keypoints_all_start(c.keypoints)
}

pub open spec fn keypoints_all_start<P, T>(ks: Seq<KeypointView<P, T>>) -> bool
    decreases ks, 0int,
{
    if ks.len() == 0 {
        true
    } else {
        let head = match ks[0] {
            KeypointView::Point(_) => true,
            KeypointView::Bezier(b) => b.start is Some,
            KeypointView::Curve(c) => all_starts(c),
        };
        head && keypoints_all_start(ks.drop_first())
    }
}

/// Keypoints in reverse order, each traversed backwards, nested curves
/// reversed in turn.
pub open spec fn deep_reversed_keypoints<P, T>(ks: Seq<KeypointView<P, T>>) -> Seq<KeypointView<P, T>>
    decreases ks, 0int,
{
    if ks.len() == 0 {
        Seq::empty()
    } else {
        let head = match ks[0] {
            KeypointView::Point(p) => KeypointView::Point(p),
            KeypointView::Bezier(b) => KeypointView::Bezier(flip(b, b.start.unwrap())),
            KeypointView::Curve(c) => KeypointView::Curve(deep_reversed(c)),
        };
        deep_reversed_keypoints(ks.drop_first()).push(head)
    }
}

/// A curve with its keypoints deeply reversed, same transform and closing.
pub open spec fn deep_reversed<P, T>(c: CurveView<P, T>) -> CurveView<P, T>
    decreases c, 1int,
{
    CurveView { local_transform: c.local_transform, keypoints: deep_reversed_keypoints(c.keypoints), closed: c.closed }
}

/// Where a curve ends: the end of its last keypoint, of its last nested curve
/// when that is one.
pub open spec fn end_point_view<P, T>(c: CurveView<P, T>) -> Option<P>
    decreases c, 1int,
{
    keypoints_end(c.keypoints)
}

pub open spec fn keypoints_end<P, T>(ks: Seq<KeypointView<P, T>>) -> Option<P>
    decreases ks, 0int,
{
    if ks.len() == 0 {
        Option::None
    } else {
        match ks[ks.len() - 1] {
            KeypointView::Point(p) => Option::Some(p),
            KeypointView::Bezier(b) => Option::Some(b.end),
            KeypointView::Curve(c) => end_point_view(c),
        }
    }
}

proof fn lemma_all_start_concat<P, T>(a: Seq<KeypointView<P, T>>, b: Seq<KeypointView<P, T>>)
    ensures
        keypoints_all_start(a + b) == (keypoints_all_start(a) && keypoints_all_start(b)),
    decreases a.len(),
{
    if a.len() == 0 {
        assert(a + b =~= b);
    } else {
        assert((a + b)[0] == a[0]);
        assert((a + b).drop_first() =~= a.drop_first() + b);
        lemma_all_start_concat(a.drop_first(), b);
    }
}

proof fn lemma_deep_reversed_concat<P, T>(a: Seq<KeypointView<P, T>>, b: Seq<KeypointView<P, T>>)
    ensures
        deep_reversed_keypoints(a + b) == deep_reversed_keypoints(b) + deep_reversed_keypoints(a),
    decreases a.len(),
{
    if a.len() == 0 {
        assert(a + b =~= b);
        assert(deep_reversed_keypoints(b) + deep_reversed_keypoints(a) =~= deep_reversed_keypoints(b));
    } else {
        assert((a + b)[0] == a[0]);
        assert((a + b).drop_first() =~= a.drop_first() + b);
        lemma_deep_reversed_concat(a.drop_first(), b);
        let h = deep_reversed_keypoints(seq![a[0]]);
        assert(deep_reversed_keypoints(a + b) =~= deep_reversed_keypoints(b) + deep_reversed_keypoints(a));
    }
}

/// The reversal of keypoints whose segments all have a start is their deep reversal.
proof fn lemma_reverse_all_start<P, T>(ks: Seq<KeypointView<P, T>>)
    requires
        keypoints_all_start(ks),
    ensures
        reverse_keypoints(ks) == Option::Some((deep_reversed_keypoints(ks), Option::<Bezier<P>>::None)),
    decreases ks, 0int,
{
    if ks.len() > 0 {
        lemma_reverse_all_start(ks.drop_first());
        match ks[0] {
            KeypointView::Curve(c) => {
                lemma_reverse_curve_all_start(c);
            },
            _ => {},
        }
    }
}

proof fn lemma_reverse_curve_all_start<P, T>(c: CurveView<P, T>)
    requires
        all_starts(c),
    ensures
        reverse_curve_view(c) == Option::Some((deep_reversed(c), Option::<Bezier<P>>::None)),
    decreases c, 1int,
{
    lemma_reverse_all_start(c.keypoints);
}

/// Deep reversal keeps every segment with a start, and undoes itself.
proof fn lemma_deep_reversed_involution<P, T>(ks: Seq<KeypointView<P, T>>)
    requires
        keypoints_all_start(ks),
    ensures
        keypoints_all_start(deep_reversed_keypoints(ks)),
        deep_reversed_keypoints(deep_reversed_keypoints(ks)) == ks,
    decreases ks, 0int,
{
    if ks.len() == 0 {
        assert(deep_reversed_keypoints(ks) =~= Seq::<KeypointView<P, T>>::empty());
        assert(deep_reversed_keypoints(deep_reversed_keypoints(ks)) =~= ks);
    } else {
        let rest = ks.drop_first();
        lemma_deep_reversed_involution(rest);
        let head = match ks[0] {
            KeypointView::Point(p) => KeypointView::Point(p),
            KeypointView::Bezier(b) => KeypointView::Bezier(flip(b, b.start.unwrap())),
            KeypointView::Curve(c) => KeypointView::Curve(deep_reversed(c)),
        };
        let one = seq![head];
        assert(one.drop_first() =~= Seq::<KeypointView<P, T>>::empty());
        assert(keypoints_all_start(one.drop_first()));
        assert(deep_reversed_keypoints(one.drop_first()) =~= Seq::<KeypointView<P, T>>::empty());
        match ks[0] {
            KeypointView::Curve(c) => {
                lemma_deep_reversed_curve_involution(c);
                assert(all_starts(deep_reversed(c)));
                assert(deep_reversed(deep_reversed(c)) == c);
            },
            KeypointView::Bezier(b) => {
                assert(b.start is Some);
                assert(flip(flip(b, b.start.unwrap()), b.end) == b);
            },
            KeypointView::Point(p) => {},
        }
        assert(keypoints_all_start(one));
        assert(deep_reversed_keypoints(one) =~= seq![ks[0]]);
        let dr = deep_reversed_keypoints(rest);
        assert(deep_reversed_keypoints(ks) == dr.push(head));
        assert(dr.push(head) =~= dr + one);
        lemma_all_start_concat(dr, one);
        lemma_deep_reversed_concat(dr, one);
        assert(seq![ks[0]] + rest =~= ks);
    }
}

proof fn lemma_deep_reversed_curve_involution<P, T>(c: CurveView<P, T>)
    requires
        all_starts(c),
    ensures
        all_starts(deep_reversed(c)),
        deep_reversed(deep_reversed(c)) == c,
    decreases c, 1int,
{
    lemma_deep_reversed_involution(c.keypoints);
}

/// Reversing a curve whose segments all have an explicit start (nested
/// curves included) succeeds with nothing left waiting, and reversing the
/// result gives the curve back. Both keep the transform and whether the
/// curve is closed.
pub proof fn law_reverse_involution<P, T>(c: CurveView<P, T>)
    requires
        all_starts(c),
    ensures
        reverse_curve_view(c) matches Option::Some((r, Option::None)) && {
            &&& r.local_transform == c.local_transform
            &&& r.closed == c.closed
            &&& reverse_curve_view(r) == Option::Some((c, Option::<Bezier<P>>::None))
        },
{
    lemma_reverse_curve_all_start(c);
    lemma_deep_reversed_curve_involution(c);
    lemma_reverse_curve_all_start(deep_reversed(c));
}

proof fn lemma_deep_reversed_starts_at_end<P, T>(ks: Seq<KeypointView<P, T>>)
    ensures
        deep_reversed_keypoints(ks).len() == ks.len(),
        ks.len() > 0 ==> keypoint_start(deep_reversed_keypoints(ks)[0]) == keypoints_end(ks),
    decreases ks, 0int,
{
    if ks.len() > 0 {
        let pre = ks.drop_last();
        let last = ks[ks.len() - 1];
        let one = seq![last];
        assert(pre + one =~= ks);
        lemma_deep_reversed_concat(pre, one);
        lemma_deep_reversed_starts_at_end(pre);
        assert(one.drop_first() =~= Seq::<KeypointView<P, T>>::empty());
        assert(deep_reversed_keypoints(one.drop_first()) =~= Seq::<KeypointView<P, T>>::empty());
        assert(deep_reversed_keypoints(one).len() == 1);
        match last {
            KeypointView::Curve(c) => {
                assert(decreases_to!(ks => ks[ks.len() - 1]));
                lemma_deep_reversed_curve_starts_at_end(c);
            },
            _ => {},
        }
        assert(deep_reversed_keypoints(ks)[0] == deep_reversed_keypoints(one)[0]);
    } else {
        assert(deep_reversed_keypoints(ks) =~= Seq::<KeypointView<P, T>>::empty());
    }
}

proof fn lemma_deep_reversed_curve_starts_at_end<P, T>(c: CurveView<P, T>)
    ensures
        start_point_view(deep_reversed(c)) == end_point_view(c),
    decreases c, 1int,
{
    lemma_deep_reversed_starts_at_end(c.keypoints);
    if c.keypoints.len() > 0 {
        lemma_start_is_first_start(deep_reversed(c));
    }
}

/// A nonempty curve starts where its first keypoint starts.
proof fn lemma_start_is_first_start<P, T>(c: CurveView<P, T>)
    requires
        c.keypoints.len() > 0,
    ensures
        start_point_view(c) == keypoint_start(c.keypoints[0]),
{
}

} // verus!

verus! {

// ---------------------------------------------------------------------------
// Curves without nested curves
// ---------------------------------------------------------------------------

/// Keypoints that are all points or segments.
pub open spec fn is_flat<P, T>(ks: Seq<KeypointView<P, T>>) -> bool {
    forall|i: int| 0 <= i < ks.len() ==> !(#[trigger] ks[i] is Curve)
}

/// Reversal of flat keypoints, from a suffix on: once something was written,
/// it starts at the end of the last keypoint; before that, the only thing left
/// is the last keypoint itself, a segment without start, waiting.
proof fn lemma_flat_reverse_suffix<P, T>(ks: Seq<KeypointView<P, T>>, i: int)
    requires
        0 <= i <= ks.len(),
        is_flat(ks),
        reverse_keypoints(ks.subrange(i, ks.len() as int)) is Some,
    ensures
        ({
            let (out, waiting) = reverse_keypoints(ks.subrange(i, ks.len() as int)).unwrap();
            &&& out.len() > 0 ==> keypoint_start(out[0]) == keypoints_end(ks)
            &&& out.len() == 0 ==> (i == ks.len() && waiting is None) || (waiting == Option::Some(ks[ks.len() - 1]->Bezier_0)
                && ks[ks.len() - 1] is Bezier)
        }),
    decreases ks.len() - i,
{
    let n = ks.len() as int;
    let suffix = ks.subrange(i, n);
    if i < n {
        let rest = ks.subrange(i + 1, n);
        assert(suffix.drop_first() =~= rest);
        assert(suffix[0] == ks[i]);
        assert(reverse_keypoints(rest) is Some);
        lemma_flat_reverse_suffix(ks, i + 1);
        assert(!(ks[i] is Curve));
        if i + 1 == n {
            assert(rest =~= Seq::<KeypointView<P, T>>::empty());
        }
    }
}


/// Where a point or a segment ends.
pub open spec fn flat_end<P, T>(k: KeypointView<P, T>) -> P {
    match k {
        KeypointView::Point(p) => p,
        KeypointView::Bezier(b) => b.end,
        KeypointView::Curve(c) => end_point_view(c).unwrap(),
    }
}

/// Whether a keypoint is a segment without start.
pub open spec fn waits<P, T>(k: KeypointView<P, T>) -> bool {
    k matches KeypointView::Bezier(b) && b.start is None
}

/// The keypoints of a flat curve with every segment's start filled in: a
/// segment without start starts where the keypoint before it ends, and a
/// point directly followed by such a segment becomes that segment's start
/// (the path it draws is the same). A segment without start at the very
/// beginning has nothing to start from and is left out.
pub open spec fn filled_starts<P, T>(ks: Seq<KeypointView<P, T>>) -> Seq<KeypointView<P, T>>
    decreases ks.len(),
{
    if ks.len() == 0 {
        Seq::empty()
    } else {
        let rest = ks.drop_first();
        let next_waits = rest.len() > 0 && waits(rest[0]);
        let head = if waits(ks[0]) || (ks[0] is Point && next_waits) {
            Seq::empty()
        } else {
            seq![ks[0]]
        };
        let bridge = if next_waits {
            seq![KeypointView::Bezier(Bezier { start: Option::Some(flat_end(ks[0])), ..rest[0]->Bezier_0 })]
        } else {
            Seq::empty()
        };
        head + bridge + filled_starts(rest)
    }
}

/// The segment left waiting by flat keypoints: the first, when it has no start.
pub open spec fn flat_waiting<P, T>(ks: Seq<KeypointView<P, T>>) -> Option<Bezier<P>> {
    if ks.len() > 0 && waits(ks[0]) { Option::Some(ks[0]->Bezier_0) } else { Option::None }
}

proof fn lemma_deep_reversed_single<P, T>(k: KeypointView<P, T>)
    ensures
        deep_reversed_keypoints(seq![k]) == seq![match k {
            KeypointView::Point(p) => KeypointView::Point(p),
            KeypointView::Bezier(b) => KeypointView::Bezier(flip(b, b.start.unwrap())),
            KeypointView::Curve(c) => KeypointView::Curve(deep_reversed(c)),
        }],
{
    let one = seq![k];
    assert(one.drop_first() =~= Seq::<KeypointView<P, T>>::empty());
    assert(deep_reversed_keypoints(one.drop_first()) =~= Seq::<KeypointView<P, T>>::empty());
    assert(deep_reversed_keypoints(one) =~= seq![match k {
            KeypointView::Point(p) => KeypointView::Point(p),
            KeypointView::Bezier(b) => KeypointView::Bezier(flip(b, b.start.unwrap())),
            KeypointView::Curve(c) => KeypointView::Curve(deep_reversed(c)),
        }]);
}

/// Reversal of flat keypoints traverses their filled-in segments backwards,
/// leaving waiting the first segment when it has no start.
proof fn lemma_flat_reverse_filled<P, T>(ks: Seq<KeypointView<P, T>>)
    requires
        is_flat(ks),
    ensures
        reverse_keypoints(ks) == Option::Some((deep_reversed_keypoints(filled_starts(ks)), flat_waiting(ks))),
        keypoints_all_start(filled_starts(ks)),
        is_flat(filled_starts(ks)),
    decreases ks.len(),
{
    if ks.len() == 0 {
        assert(filled_starts(ks) =~= Seq::<KeypointView<P, T>>::empty());
        assert(deep_reversed_keypoints(filled_starts(ks)) =~= Seq::<KeypointView<P, T>>::empty());
    } else {
        let rest = ks.drop_first();
        assert(is_flat(rest)) by {
            assert forall|i: int| 0 <= i < rest.len() implies !(#[trigger] rest[i] is Curve) by {
                assert(rest[i] == ks[i + 1]);
            }
        }
        lemma_flat_reverse_filled(rest);
        assert(!(ks[0] is Curve));
        let next_waits = rest.len() > 0 && waits(rest[0]);
        let head: Seq<KeypointView<P, T>> = if waits(ks[0]) || (ks[0] is Point && next_waits) {
            Seq::empty()
        } else {
            seq![ks[0]]
        };
        let bridge: Seq<KeypointView<P, T>> = if next_waits {
            seq![KeypointView::Bezier(Bezier { start: Option::Some(flat_end(ks[0])), ..rest[0]->Bezier_0 })]
        } else {
            Seq::empty()
        };
        let fr = filled_starts(rest);
        assert(filled_starts(ks) == head + bridge + fr);
        lemma_deep_reversed_concat(head + bridge, fr);
        lemma_deep_reversed_concat(head, bridge);
        lemma_all_start_concat(head + bridge, fr);
        lemma_all_start_concat(head, bridge);
        if head.len() > 0 {
            lemma_deep_reversed_single(ks[0]);
            assert(head.drop_first() =~= Seq::<KeypointView<P, T>>::empty());
            assert(keypoints_all_start(head.drop_first()));
        } else {
            assert(deep_reversed_keypoints(head) =~= Seq::<KeypointView<P, T>>::empty());
        }
        if bridge.len() > 0 {
            lemma_deep_reversed_single(bridge[0]);
            assert(bridge.drop_first() =~= Seq::<KeypointView<P, T>>::empty());
            assert(keypoints_all_start(bridge.drop_first()));
            assert(rest[0] == ks[1]);
        } else {
            assert(deep_reversed_keypoints(bridge) =~= Seq::<KeypointView<P, T>>::empty());
        }
        assert(is_flat(filled_starts(ks))) by {
            let all = head + bridge + fr;
            assert forall|i: int| 0 <= i < all.len() implies !(#[trigger] all[i] is Curve) by {
                if i < head.len() {
                    assert(all[i] == head[i]);
                } else if i < head.len() + bridge.len() {
                    assert(all[i] == bridge[i - head.len()]);
                } else {
                    assert(all[i] == fr[i - head.len() - bridge.len()]);
                }
            }
        }
        let dfr = deep_reversed_keypoints(fr);
        assert(deep_reversed_keypoints(filled_starts(ks))
            == dfr + deep_reversed_keypoints(bridge) + deep_reversed_keypoints(head));
        match ks[0] {
            KeypointView::Point(p) => {
                if next_waits {
                    assert(deep_reversed_keypoints(filled_starts(ks)) =~= dfr.push(KeypointView::Bezier(flip(rest[0]->Bezier_0, p))));
                } else {
                    assert(deep_reversed_keypoints(filled_starts(ks)) =~= dfr.push(KeypointView::Point(p)));
                }
            },
            KeypointView::Bezier(b) => {
                let out1 = if next_waits { dfr.push(KeypointView::Bezier(flip(rest[0]->Bezier_0, b.end))) } else { dfr };
                match b.start {
                    Option::Some(st) => {
                        assert(deep_reversed_keypoints(filled_starts(ks)) =~= out1.push(KeypointView::Bezier(flip(b, st))));
                    },
                    Option::None => {
                        assert(deep_reversed_keypoints(filled_starts(ks)) =~= out1);
                    },
                }
            },
            KeypointView::Curve(_) => {},
        }
    }
}

/// Reversing a reversible curve without nested curves traverses every
/// segment backwards, segments without start included: reversing a second
/// time gives back the curve with every segment's start filled in, each
/// segment with its own control points in their own order.
pub proof fn law_reverse_twice_fills_starts<P, T>(c: CurveView<P, T>)
    requires
        is_flat(c.keypoints),
        reversible(c),
    ensures
        reverse_curve_view(c) matches Option::Some((r, Option::None)) && reverse_curve_view(r) == Option::Some((
            CurveView { local_transform: c.local_transform, keypoints: filled_starts(c.keypoints), closed: c.closed },
            Option::<Bezier<P>>::None,
        )),
{
    let ks = c.keypoints;
    lemma_flat_reverse_filled(ks);
    let f = filled_starts(ks);
    lemma_deep_reversed_involution(f);
    lemma_reverse_all_start(deep_reversed_keypoints(f));
    let r = CurveView { local_transform: c.local_transform, keypoints: deep_reversed_keypoints(f), closed: c.closed };
    assert(reverse_curve_view(c) == Option::Some((r, Option::<Bezier<P>>::None)));
}

/// A reversed curve starts where the curve ended, for every curve whose
/// segments all have a start (nested curves included), and for every
/// reversible curve without nested curves.
pub proof fn law_reverse_starts_at_end<P, T>(c: CurveView<P, T>)
    requires
        all_starts(c) || (is_flat(c.keypoints) && reversible(c)),
    ensures
        reverse_curve_view(c) matches Option::Some((r, Option::None)) && start_point_view(r) == end_point_view(c),
{
    if all_starts(c) {
        lemma_reverse_curve_all_start(c);
        lemma_deep_reversed_curve_starts_at_end(c);
    } else {
        let ks = c.keypoints;
        assert(ks.subrange(0, ks.len() as int) =~= ks);
        lemma_flat_reverse_suffix(ks, 0);
        if ks.len() > 0 {
            let r = reverse_curve_view(c).unwrap().0;
            lemma_start_is_first_start(r);
        }
    }
}

} // verus!

verus! {

impl<P, T> Curve<P, T> {
    /// Appends keypoints.
    pub fn extend(&mut self, keypoints: Vec<Keypoint<P, T>>) -> (r: &mut Self)
        ensures
            (*r).keypoints@ == old(self).keypoints@ + keypoints@,
            (*r).local_transform == old(self).local_transform,
            (*r).closed == old(self).closed,
            *final(self) == *final(r),
    {
        let mut keypoints = keypoints;
        self.keypoints.append(&mut keypoints);
        self
    }

    /// Appends a keypoint.
    pub fn then(&mut self, keypoint: Keypoint<P, T>) -> (r: &mut Self)
        ensures
            (*r).keypoints@ == old(self).keypoints@.push(keypoint),
            (*r).local_transform == old(self).local_transform,
            (*r).closed == old(self).closed,
            *final(self) == *final(r),
    {
        self.keypoints.push(keypoint);
        self
    }

    /// The curve with a keypoint appended.
    pub fn with_then(self, keypoint: Keypoint<P, T>) -> (r: Self)
        ensures
            r.keypoints@ == self.keypoints@.push(keypoint),
            r.local_transform == self.local_transform,
            r.closed == self.closed,
    {
        let mut c = self;
        c.keypoints.push(keypoint);
        c
    }

    /// Sets whether the curve is closed.
    pub fn close(&mut self, is_closed: bool) -> (r: &mut Self)
        ensures
            (*r).closed == is_closed,
            (*r).keypoints@ == old(self).keypoints@,
            (*r).local_transform == old(self).local_transform,
            *final(self) == *final(r),
    {
        self.closed = is_closed;
        self
    }

    /// The curve, closed or not.
    pub fn with_close(self, is_closed: bool) -> (r: Self)
        ensures
            r == (Curve { closed: is_closed, ..self }),
    {
        Curve { closed: is_closed, ..self }
    }

    /// Closes the curve.
    pub fn closed(&mut self) -> (r: &mut Self)
        ensures
            (*r).closed,
            (*r).keypoints@ == old(self).keypoints@,
            (*r).local_transform == old(self).local_transform,
            *final(self) == *final(r),
    {
        self.closed = true;
        self
    }

    /// Opens the curve.
    pub fn opened(&mut self) -> (r: &mut Self)
        ensures
            !(*r).closed,
            (*r).keypoints@ == old(self).keypoints@,
            (*r).local_transform == old(self).local_transform,
            *final(self) == *final(r),
    {
        self.closed = false;
        self
    }
}

} // verus!
