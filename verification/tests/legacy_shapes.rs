use dessin::color::Color;
use dessin::legacy_svg::{
    Fill, FontWeight, ImageFormat, LegacyKeypoint, LegacyShape, LegacyShapeKind, LegacySvgError, StyleAttrs,
};
use dessin::svg::PointText;
use dessin::text::TextAlign;

fn pt(x: &str, y: &str) -> PointText {
    PointText { x: x.to_string(), y: y.to_string() }
}

fn red_fill() -> Option<StyleAttrs> {
    Some(StyleAttrs { fill: Some(Fill::Color(Color::U32(0xFF0000))), stroke: None })
}

#[test]
fn text_element() {
    let shape = LegacyShape {
        center: pt("10", "10"),
        size: pt("0", "0"),
        style: red_fill(),
        kind: LegacyShapeKind::Text {
            text: "hello world".to_string(),
            align: TextAlign::Center,
            font_size: "10".to_string(),
            font_weight: FontWeight::Bold,
        },
    };
    assert_eq!(
        shape.to_svg().unwrap(),
        r#"<text x="10" y="10" text-anchor="middle" font-size="10" font-weight="bold" fill='rgba(255,0,0,1)' >hello world</text>"#
    );
}

#[test]
fn line_element() {
    let shape = LegacyShape {
        center: pt("15", "15"),
        size: pt("10", "10"),
        style: red_fill(),
        kind: LegacyShapeKind::Line { from: pt("10", "10"), to: pt("20", "20") },
    };
    assert_eq!(
        shape.to_svg().unwrap(),
        r#"<line x1="10" y1="10" x2="20" y2="20" fill='rgba(255,0,0,1)' />"#
    );
}

#[test]
fn circle_and_image() {
    let circle = LegacyShape {
        center: pt("1", "2"),
        size: pt("6", "6"),
        style: None,
        kind: LegacyShapeKind::Circle { radius: "3".to_string() },
    };
    assert_eq!(circle.to_svg().unwrap(), r#"<circle cx="1" cy="2" r="3" />"#);
    let image = LegacyShape {
        center: pt("1", "2"),
        size: pt("4", "5"),
        style: None,
        kind: LegacyShapeKind::Image { data: ImageFormat::JPEG(b"Hello world".to_vec()) },
    };
    assert_eq!(
        image.to_svg().unwrap(),
        r#"<image x="1" y="2" width="4" height="5" xlink:href="data:image/jpeg;base64,SGVsbG8gd29ybGQ="/>"#
    );
    let png = LegacyShape {
        center: pt("0", "0"),
        size: pt("1", "1"),
        style: None,
        kind: LegacyShapeKind::Image { data: ImageFormat::PNG(b"Ma".to_vec()) },
    };
    assert_eq!(
        png.to_svg().unwrap(),
        r#"<image x="0" y="0" width="1" height="1" xlink:href="data:image/png;base64,TWE="/>"#
    );
}

#[test]
fn path_element() {
    let shape = LegacyShape {
        center: pt("0", "0"),
        size: pt("0", "0"),
        style: None,
        kind: LegacyShapeKind::Path {
            keypoints: vec![
                LegacyKeypoint::Point(pt("0", "0")),
                LegacyKeypoint::Point(pt("1", "0")),
                LegacyKeypoint::BezierQuad { to: pt("2", "2"), control: pt("2", "0") },
                LegacyKeypoint::BezierCubic { to: pt("0", "2"), control_from: pt("2", "3"), control_to: pt("0", "3") },
            ],
            closed: true,
        },
    };
    assert_eq!(
        shape.to_svg().unwrap(),
        r#"<path d="M 0 0  L 1 0 Q 2 0 2 2 C 2 3 0 3 0 2  Z" />"#
    );
    let empty = LegacyShape {
        center: pt("0", "0"),
        size: pt("0", "0"),
        style: None,
        kind: LegacyShapeKind::Path { keypoints: vec![], closed: false },
    };
    assert_eq!(empty.to_svg(), Err(LegacySvgError::NoStart));
}

#[test]
fn css_weight_and_style() {
    assert_eq!(FontWeight::Regular.css_weight(), "normal");
    assert_eq!(FontWeight::Bold.css_weight(), "bold");
    assert_eq!(FontWeight::Italic.css_weight(), "normal");
    assert_eq!(FontWeight::BoldItalic.css_weight(), "bold");
    assert_eq!(FontWeight::Regular.css_style(), "normal");
    assert_eq!(FontWeight::Bold.css_style(), "normal");
    assert_eq!(FontWeight::Italic.css_style(), "italic");
    assert_eq!(FontWeight::BoldItalic.css_style(), "italic");
}
