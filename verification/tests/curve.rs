use dessin::curve::{Bezier, Curve, Keypoint};
use dessin::path::{CurvePosition, KeypointPosition, PathCommand, PlacedKeypoint};

type P = (i32, i32);

fn curve(keypoints: Vec<Keypoint<P, u8>>, closed: bool) -> Curve<P, u8> {
    Curve { local_transform: 7, keypoints, closed }
}

#[test]
fn reverse_points() {
    let c = curve(vec![Keypoint::Point((0, 0)), Keypoint::Point((1, 0)), Keypoint::Point((1, 1))], true);
    let r = c.reversed();
    assert_eq!(r.local_transform, 7);
    assert!(r.closed);
    assert_eq!(
        r.keypoints,
        vec![Keypoint::Point((1, 1)), Keypoint::Point((1, 0)), Keypoint::Point((0, 0))]
    );
}

#[test]
fn reverse_point_then_segment() {
    // From (0,0), a segment to (3,3): backwards, a segment from (3,3) to (0,0).
    let c = curve(
        vec![Keypoint::Point((0, 0)), Keypoint::Bezier(Bezier::new((1, 0), (2, 3), (3, 3)))],
        false,
    );
    let r = c.reversed();
    assert_eq!(
        r.keypoints,
        vec![Keypoint::Bezier(Bezier::new_with_start((3, 3), (2, 3), (1, 0), (0, 0)))]
    );
}

#[test]
fn reverse_twice_gives_back() {
    let c = curve(
        vec![
            Keypoint::Point((5, 5)),
            Keypoint::Bezier(Bezier::new_with_start((0, 0), (1, 2), (3, 4), (5, 6))),
            Keypoint::Point((9, 9)),
        ],
        false,
    );
    let twice = c.reversed().reversed();
    assert_eq!(twice, c);
}

#[test]
fn reverse_in_place_and_start_point() {
    let mut c = curve(vec![Keypoint::Point((1, 2)), Keypoint::Point((3, 4))], false);
    assert_eq!(c.start_point(), Some((1, 2)));
    c.reverse();
    assert_eq!(c.start_point(), Some((3, 4)));
    let empty = curve(vec![], false);
    assert_eq!(empty.start_point(), None);
}

#[test]
fn reverse_nested_curve() {
    let inner = curve(vec![Keypoint::Point((1, 1)), Keypoint::Point((2, 2))], false);
    let c = curve(vec![Keypoint::Point((0, 0)), Keypoint::Curve(inner)], false);
    let r = c.reversed();
    assert_eq!(r.keypoints.len(), 2);
    match &r.keypoints[0] {
        Keypoint::Curve(i) => {
            assert_eq!(i.keypoints, vec![Keypoint::Point((2, 2)), Keypoint::Point((1, 1))]);
            assert_eq!(i.local_transform, 7);
        }
        other => panic!("{:?}", other),
    }
    assert_eq!(r.keypoints[1], Keypoint::Point((0, 0)));
}

#[test]
fn commands_of_curve() {
    let c = CurvePosition {
        keypoints: vec![
            KeypointPosition::Point((0, 0)),
            KeypointPosition::Bezier(Bezier::new((1, 0), (2, 1), (2, 2))),
            KeypointPosition::Bezier(Bezier::new_with_start((5, 5), (6, 5), (7, 6), (7, 7))),
            KeypointPosition::Point((9, 0)),
        ],
        closed: true,
    };
    assert_eq!(
        c.commands(),
        vec![
            PathCommand::MoveTo((0, 0)),
            PathCommand::CubicTo((1, 0), (2, 1), (2, 2)),
            PathCommand::LineTo((5, 5)),
            PathCommand::CubicTo((6, 5), (7, 6), (7, 7)),
            PathCommand::LineTo((9, 0)),
            PathCommand::Close,
        ]
    );
    assert_eq!(c.commands_from_start(), Some(c.commands()));
}

#[test]
fn commands_without_start() {
    let c: CurvePosition<P> = CurvePosition {
        keypoints: vec![KeypointPosition::Bezier(Bezier::new((1, 0), (2, 1), (2, 2)))],
        closed: false,
    };
    assert_eq!(c.commands_from_start(), None);
    assert_eq!(c.commands(), vec![PathCommand::CubicTo((1, 0), (2, 1), (2, 2))]);
    let empty: CurvePosition<P> = CurvePosition { keypoints: vec![], closed: true };
    assert_eq!(empty.commands(), vec![PathCommand::Close]);
}

#[test]
fn builders() {
    let mut c = curve(vec![], false);
    c.then(Keypoint::Point((1, 1))).closed();
    assert!(c.closed);
    c.opened().extend(vec![Keypoint::Point((2, 2)), Keypoint::Point((3, 3))]);
    assert!(!c.closed);
    assert_eq!(c.keypoints.len(), 3);
    let c = c.with_then(Keypoint::Point((4, 4))).with_close(true);
    assert!(c.closed);
    assert_eq!(c.keypoints[3], Keypoint::Point((4, 4)));
    let mut c = c;
    c.close(false);
    assert!(!c.closed);
}

#[test]
fn flatten_nested_curves() {
    let inner = Curve {
        local_transform: 2u8,
        keypoints: vec![Keypoint::Point((1, 1)), Keypoint::Bezier(Bezier::new((2, 2), (3, 3), (4, 4)))],
        closed: false,
    };
    let c = curve(vec![Keypoint::Point((0, 0)), Keypoint::Curve(inner), Keypoint::Point((5, 5))], true);
    let flat = c.flatten();
    assert_eq!(
        flat,
        vec![
            PlacedKeypoint { transforms: vec![7], keypoint: KeypointPosition::Point((0, 0)) },
            PlacedKeypoint { transforms: vec![7, 2], keypoint: KeypointPosition::Point((1, 1)) },
            PlacedKeypoint {
                transforms: vec![7, 2],
                keypoint: KeypointPosition::Bezier(Bezier::new((2, 2), (3, 3), (4, 4))),
            },
            PlacedKeypoint { transforms: vec![7], keypoint: KeypointPosition::Point((5, 5)) },
        ]
    );
}

#[test]
fn flatten_empty_curve() {
    let c = curve(vec![], false);
    assert!(c.flatten().is_empty());
}

#[test]
fn reverse_twice_gives_back_nested() {
    let inner = Curve {
        local_transform: 3u8,
        keypoints: vec![
            Keypoint::Bezier(Bezier::new_with_start((1, 1), (2, 1), (2, 2), (3, 3))),
            Keypoint::Point((4, 4)),
        ],
        closed: true,
    };
    let c = curve(vec![Keypoint::Point((0, 0)), Keypoint::Curve(inner), Keypoint::Point((8, 8))], false);
    let twice = c.reversed().reversed();
    assert_eq!(twice, c);
}

#[test]
fn reversed_starts_where_curve_ended() {
    // A segment without start, after a point: the reversal starts at its end.
    let c = curve(
        vec![Keypoint::Point((0, 0)), Keypoint::Bezier(Bezier::new((1, 0), (2, 3), (3, 3)))],
        false,
    );
    assert_eq!(c.reversed().start_point(), Some((3, 3)));
    // With a nested curve last, the reversal starts where that curve ended.
    let inner = curve(vec![Keypoint::Point((1, 1)), Keypoint::Point((6, 2))], false);
    let nested = curve(vec![Keypoint::Point((0, 0)), Keypoint::Curve(inner)], false);
    assert_eq!(nested.reversed().start_point(), Some((6, 2)));
}

#[test]
fn line_commands_keep_the_pen_down() {
    let c = CurvePosition {
        keypoints: vec![
            KeypointPosition::Point((0, 0)),
            KeypointPosition::Bezier(Bezier::new((1, 0), (2, 1), (2, 2))),
            KeypointPosition::Bezier(Bezier::new_with_start((5, 5), (6, 5), (7, 6), (7, 7))),
        ],
        closed: true,
    };
    assert_eq!(
        c.line_commands(),
        vec![
            PathCommand::LineTo((0, 0)),
            PathCommand::CubicTo((1, 0), (2, 1), (2, 2)),
            PathCommand::LineTo((5, 5)),
            PathCommand::CubicTo((6, 5), (7, 6), (7, 7)),
            PathCommand::Close,
        ]
    );
    let starts_with_segment: CurvePosition<P> = CurvePosition {
        keypoints: vec![KeypointPosition::Bezier(Bezier::new((1, 0), (2, 1), (2, 2)))],
        closed: false,
    };
    assert_eq!(starts_with_segment.line_commands(), vec![PathCommand::CubicTo((1, 0), (2, 1), (2, 2))]);
}
