use dessin::legacy_pdf::path_points;
use dessin::legacy_svg::LegacyKeypoint;

#[test]
fn path_points_flag_controls_and_points_before_curves() {
    let keypoints = vec![
        LegacyKeypoint::Point((0, 0)),
        LegacyKeypoint::BezierQuad { to: (2, 2), control: (2, 0) },
        LegacyKeypoint::Point((3, 3)),
        LegacyKeypoint::BezierCubic { to: (0, 2), control_from: (2, 3), control_to: (0, 3) },
    ];
    assert_eq!(
        path_points(&keypoints),
        vec![
            ((0, 0), true),
            ((2, 0), true),
            ((2, 2), false),
            ((3, 3), true),
            ((2, 3), true),
            ((0, 3), true),
            ((0, 2), false),
        ]
    );
}

#[test]
fn path_points_of_straight_lines() {
    let keypoints = vec![LegacyKeypoint::Point((1, 1)), LegacyKeypoint::Point((2, 2))];
    assert_eq!(path_points(&keypoints), vec![((1, 1), false), ((2, 2), false)]);
    let empty: Vec<LegacyKeypoint<(i32, i32)>> = vec![];
    assert!(path_points(&empty).is_empty());
}
