use dessin::color::Color;
use dessin::legacy_svg::{fill_to_svg, style_to_svg, Fill, FontWeight, StrokeAttrs, StyleAttrs};
use dessin::text::TextAlign;

#[test]
fn test_font_weight() {
    assert_eq!(FontWeight::Regular.to_svg().unwrap(), "".to_owned());
    assert_eq!(
        FontWeight::Bold.to_svg().unwrap(),
        r#"font-weight="bold""#.to_owned()
    );
    assert_eq!(
        FontWeight::Italic.to_svg().unwrap(),
        r#"font-weight="italic""#.to_owned()
    );
    assert_eq!(
        FontWeight::BoldItalic.to_svg().unwrap(),
        r#"font-weight="bold italic""#.to_owned()
    );
}

#[test]
fn test_color() {
    let rgb = Color::RGB {
        r: 0x12,
        g: 0x34,
        b: 0x56,
    };
    assert_eq!(rgb.to_svg().unwrap(), "rgba(18,52,86,1)");

    let u = Color::U32(0x12345678);
    assert_eq!(u.to_svg().unwrap(), "rgba(52,86,120,1)");

    let red = Color::U32(0xFF0000);
    assert_eq!(red.to_svg().unwrap(), "rgba(255,0,0,1)");

    let blue = Color::U32(0x0000FF);
    assert_eq!(blue.to_svg().unwrap(), "rgba(0,0,255,1)");
}

#[test]
fn legacy_text_anchor() {
    assert_eq!(TextAlign::Left.to_svg().unwrap(), r#"text-anchor="left""#);
    assert_eq!(TextAlign::Center.to_svg().unwrap(), r#"text-anchor="middle""#);
    assert_eq!(TextAlign::Right.to_svg().unwrap(), r#"text-anchor="right""#);
}

#[test]
fn legacy_fill() {
    assert_eq!(
        fill_to_svg(&Some(Fill::Color(Color::U32(0xFF0000)))).unwrap(),
        "fill='rgba(255,0,0,1)'"
    );
    assert_eq!(fill_to_svg(&None).unwrap(), "fill='none'");
}

#[test]
fn legacy_style() {
    let style = StyleAttrs {
        fill: None,
        stroke: Some(StrokeAttrs::Dashed {
            color: Color::RGBA { r: 1, g: 2, b: 3, a: 0 },
            width: "2".to_string(),
            on: "1".to_string(),
            off: "0.5".to_string(),
        }),
    };
    assert_eq!(
        style_to_svg(&Some(style)).unwrap(),
        "fill='none' stroke='rgba(1,2,3,0)' stroke-width='2' stroke-dasharray='1,0.5'"
    );
    let full = StyleAttrs {
        fill: Some(Fill::Color(Color::RGB { r: 0, g: 0, b: 0 })),
        stroke: Some(StrokeAttrs::Full { color: Color::U32(0xFFFFFF), width: "3".to_string() }),
    };
    assert_eq!(
        style_to_svg(&Some(full)).unwrap(),
        "fill='rgba(0,0,0,1)' stroke='rgba(255,255,255,1)' stroke-width='3'"
    );
    assert_eq!(style_to_svg(&None).unwrap(), "");
}
