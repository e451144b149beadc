//! The line PDF writer: the outline of a path as a PDF line.
//!
//! A PDF line is a list of points with a flag each: a control point of a
//! Bézier curve is flagged, and an end point is flagged when the keypoint
//! after it is a curve.
use vstd::prelude::*;

use crate::legacy_svg::LegacyKeypoint;

verus! {

/// Whether the keypoint after index `i` is a curve.
pub open spec fn next_is_curve<P>(ks: Seq<LegacyKeypoint<P>>, i: int) -> bool {
    i + 1 < ks.len() && !(ks[i + 1] is Point)
}

/// The points of one keypoint: its control points, flagged, then its end
/// point, flagged with `next_curve`.
pub open spec fn keypoint_points<P>(k: LegacyKeypoint<P>, next_curve: bool) -> Seq<(P, bool)> {
    match k {
        LegacyKeypoint::Point(p) => seq![(p, next_curve)],
        LegacyKeypoint::BezierQuad { to, control } => seq![(control, true), (to, next_curve)],
        LegacyKeypoint::BezierCubic { to, control_from, control_to } => seq![
            (control_from, true),
            (control_to, true),
            (to, next_curve),
        ],
    }
}

/// The points of the first `n` keypoints of `ks`.
pub open spec fn points_upto<P>(ks: Seq<LegacyKeypoint<P>>, n: nat) -> Seq<(P, bool)>
    decreases n,
{
    if n == 0 {
        Seq::empty()
    } else {
        points_upto(ks, (n - 1) as nat) + keypoint_points(ks[n - 1], next_is_curve(ks, n - 1))
    }
}

/// The points of a path.
pub open spec fn path_points_spec<P>(ks: Seq<LegacyKeypoint<P>>) -> Seq<(P, bool)> {
    points_upto(ks, ks.len())
}

/// The points of a path, as the PDF line that outlines it takes them.
pub fn path_points<P: Copy>(keypoints: &Vec<LegacyKeypoint<P>>) -> (r: Vec<(P, bool)>)
    ensures
        r@ == path_points_spec(keypoints@),
{
    let mut points: Vec<(P, bool)> = Vec::new();
    let mut idx: usize = 0;
    while idx < keypoints.len()
        invariant
            idx <= keypoints.len(),
            points@ == points_upto(keypoints@, idx as nat),
        decreases keypoints.len() - idx,
    {
        let next = idx + 1 < keypoints.len() && match &keypoints[idx + 1] {
            LegacyKeypoint::Point(_) => false,
            _ => true,
        };
        assert(next == next_is_curve(keypoints@, idx as int));
        let ghost before = points@;
        match &keypoints[idx] {
            LegacyKeypoint::Point(p) => {
                points.push((*p, next));
            },
            LegacyKeypoint::BezierQuad { to, control } => {
                points.push((*control, true));
                points.push((*to, next));
            },
            LegacyKeypoint::BezierCubic { to, control_from, control_to } => {
                points.push((*control_from, true));
                points.push((*control_to, true));
                points.push((*to, next));
            },
        }
        assert(points@ =~= before + keypoint_points(keypoints@[idx as int], next));
        idx = idx + 1;
    }
    points
}


/// The control points of a keypoint, in order.
pub open spec fn controls<P>(k: LegacyKeypoint<P>) -> Seq<P> {
    match k {
        LegacyKeypoint::Point(_) => Seq::empty(),
        LegacyKeypoint::BezierQuad { to, control } => seq![control],
        LegacyKeypoint::BezierCubic { to, control_from, control_to } => seq![control_from, control_to],
    }
}

/// The point a keypoint ends at.
pub open spec fn end_of<P>(k: LegacyKeypoint<P>) -> P {
    match k {
        LegacyKeypoint::Point(p) => p,
        LegacyKeypoint::BezierQuad { to, .. } => to,
        LegacyKeypoint::BezierCubic { to, .. } => to,
    }
}

/// How many control and end points the first `n` keypoints have.
pub open spec fn points_before<P>(ks: Seq<LegacyKeypoint<P>>, n: nat) -> nat
    decreases n,
{
    if n == 0 {
        0
    } else {
        points_before(ks, (n - 1) as nat) + controls(ks[n - 1]).len() + 1
    }
}

proof fn lemma_points_before_mono<P>(ks: Seq<LegacyKeypoint<P>>, i: nat, n: nat)
    requires
        i < n,
    ensures
        points_before(ks, i) + controls(ks[i as int]).len() + 1 <= points_before(ks, n),
    decreases n,
{
    if i + 1 < n {
        lemma_points_before_mono(ks, i, (n - 1) as nat);
    }
}

proof fn lemma_outline_upto<P>(ks: Seq<LegacyKeypoint<P>>, n: nat)
    requires
        n <= ks.len(),
    ensures
        points_upto(ks, n).len() == points_before(ks, n),
        forall|i: int, j: int| 0 <= i < n && 0 <= j < controls(ks[i]).len() ==>
            #[trigger] points_upto(ks, n)[points_before(ks, i as nat) + j] == (#[trigger] controls(ks[i])[j], true),
        forall|i: int| 0 <= i < n ==>
            #[trigger] points_upto(ks, n)[points_before(ks, i as nat) + controls(ks[i]).len() as int]
                == (end_of(ks[i]), i + 1 < ks.len() && !(ks[i + 1] is Point)),
    decreases n,
{
    if n > 0 {
        let m = (n - 1) as nat;
        lemma_outline_upto(ks, m);
        let pre = points_upto(ks, m);
        let k = ks[m as int];
        let last = keypoint_points(k, next_is_curve(ks, m as int));
        let all = points_upto(ks, n);
        assert(all == pre + last);
        assert(last.len() == controls(k).len() + 1);
        assert forall|i: int, j: int| 0 <= i < n && 0 <= j < controls(ks[i]).len() implies
            #[trigger] all[points_before(ks, i as nat) + j] == (#[trigger] controls(ks[i])[j], true) by {
            if i < m {
                lemma_points_before_mono(ks, i as nat, m);
                assert(all[points_before(ks, i as nat) + j] == pre[points_before(ks, i as nat) + j]);
            } else {
                assert(all[points_before(ks, i as nat) + j] == last[j]);
            }
        }
        assert forall|i: int| 0 <= i < n implies
            #[trigger] all[points_before(ks, i as nat) + controls(ks[i]).len() as int]
                == (end_of(ks[i]), i + 1 < ks.len() && !(ks[i + 1] is Point)) by {
            if i < m {
                lemma_points_before_mono(ks, i as nat, m);
                assert(all[points_before(ks, i as nat) + controls(ks[i]).len() as int]
                    == pre[points_before(ks, i as nat) + controls(ks[i]).len() as int]);
            } else {
                assert(all[points_before(ks, i as nat) + controls(ks[i]).len() as int] == last[controls(k).len() as int]);
            }
        }
    }
}

/// The outline of a path lists, keypoint after keypoint, its control points,
/// each flagged, then its end point, flagged exactly when the keypoint after
/// it is a curve, whatever the kind of keypoint it ends; nothing else.
pub proof fn law_outline_points<P>(ks: Seq<LegacyKeypoint<P>>)
    ensures
        path_points_spec(ks).len() == points_before(ks, ks.len()),
        forall|i: int, j: int| 0 <= i < ks.len() && 0 <= j < controls(ks[i]).len() ==>
            #[trigger] path_points_spec(ks)[points_before(ks, i as nat) + j] == (#[trigger] controls(ks[i])[j], true),
        forall|i: int| 0 <= i < ks.len() ==>
            #[trigger] path_points_spec(ks)[points_before(ks, i as nat) + controls(ks[i]).len() as int]
                == (end_of(ks[i]), i + 1 < ks.len() && !(ks[i + 1] is Point)),
{
    lemma_outline_upto(ks, ks.len());
}

} // verus!
