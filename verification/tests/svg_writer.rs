use dessin::curve::Bezier;
use dessin::path::{CurvePosition, KeypointPosition, PathCommand};
use dessin::svg::{
    curve_commands, curve_path_data, SvgError, font_face, font_mime_type, font_style_name, font_weight_name, svg_document, FontStyle, PointText, Rgba8,
    StrokeText, SvgWriter, TextLayout, ViewBoxText,
};
use dessin::text::TextAlign;
use dessin::textual::{decimal_text, escape_text};

fn pt(x: &str, y: &str) -> PointText {
    PointText { x: x.to_string(), y: y.to_string() }
}

#[test]
fn weight_and_style_names() {
    assert_eq!(font_weight_name(300), "lighter");
    assert_eq!(font_weight_name(700), "bold");
    assert_eq!(font_weight_name(900), "bolder");
    assert_eq!(font_weight_name(400), "normal");
    assert_eq!(font_weight_name(100), "normal");
    assert_eq!(font_style_name(FontStyle::Normal), "normal");
    assert_eq!(font_style_name(FontStyle::Italic), "italic");
    assert_eq!(font_style_name(FontStyle::Oblique), "oblique");
    assert_eq!(TextAlign::Left.svg_anchor(), "start");
    assert_eq!(TextAlign::Center.svg_anchor(), "middle");
    assert_eq!(TextAlign::Right.svg_anchor(), "end");
}

#[test]
fn escaping() {
    assert_eq!(escape_text("a<b>c & d"), "a&lt;b&gt;c & d");
    assert_eq!(escape_text("plain"), "plain");
    assert_eq!(escape_text(""), "");
    let e = escape_text("<<>>é");
    assert!(!e.contains('<') && !e.contains('>'));
    assert_eq!(e, "&lt;&lt;&gt;&gt;é");
}

#[test]
fn decimals() {
    assert_eq!(decimal_text(0), "0");
    assert_eq!(decimal_text(7), "7");
    assert_eq!(decimal_text(1234567890), "1234567890");
    assert_eq!(decimal_text(u64::MAX), u64::MAX.to_string());
}

#[test]
fn styles() {
    let mut w = SvgWriter::new();
    w.start_style(&Some(Rgba8 { red: 255, green: 0, blue: 16, alpha: 255 }), &None);
    w.end_style();
    w.start_style(
        &None,
        &Some(StrokeText::Dashed {
            color: Rgba8 { red: 0, green: 0xAB, blue: 0xCD, alpha: 1 },
            width: "0.5".into(),
            on: "2".into(),
            off: "1".into(),
        }),
    );
    w.start_style(
        &Some(Rgba8 { red: 1, green: 2, blue: 3, alpha: 4 }),
        &Some(StrokeText::Solid { color: Rgba8 { red: 0, green: 0, blue: 0, alpha: 0 }, width: "3".into() }),
    );
    assert_eq!(
        w.take(),
        "<g fill='#FF0010FF' ></g>\
         <g fill='none' stroke='#00ABCD01' stroke-width='0.5' stroke-dasharray='2,1' >\
         <g fill='#01020304' stroke='#00000000' stroke-width='3' >"
    );
    assert_eq!(w.take(), "");
}

#[test]
fn blocks() {
    let mut w = SvgWriter::new();
    let empty: Vec<(String, String)> = vec![];
    w.start_block(&empty);
    w.end_block(&empty);
    assert_eq!(w.acc, "");
    let meta = vec![("id".to_string(), "\"a\"".to_string()), ("class".to_string(), "b".to_string())];
    w.start_block(&meta);
    w.end_block(&meta);
    assert_eq!(w.acc, "<g id=\"a\" class=b ></g>");
}

#[test]
fn curves() {
    let mut w = SvgWriter::new();
    let cmds = vec![
        PathCommand::MoveTo(pt("0", "0")),
        PathCommand::CubicTo(pt("1", "0"), pt("2", "1"), pt("2", "2")),
        PathCommand::LineTo(pt("3", "-1.5")),
        PathCommand::Close,
    ];
    assert!(w.export_curve(&Some(cmds)));
    assert_eq!(w.acc, "<path d=\"M 0 0 C 1 0 2 1 2 2 L 3 -1.5 Z\"/>");
    let mut w2 = SvgWriter::new();
    assert!(!w2.export_curve(&None));
    assert_eq!(w2.acc, "<path d=\"");
}

#[test]
fn ellipse_and_image() {
    let mut w = SvgWriter::new();
    w.export_ellipse("2", "1", "5", "-3", &None);
    w.export_ellipse("2", "1", "5", "-3", &Some("-45".into()));
    w.export_image("10", "20", "0", "1", &None, b"Hello world");
    assert_eq!(
        w.acc,
        "<ellipse rx=\"2\" ry=\"1\" transform=\"translate(5 -3) \"/>\
         <ellipse rx=\"2\" ry=\"1\" transform=\"translate(5 -3) rotate(-45) \"/>\
         <image width=\"10\" height=\"20\" x=\"0\" y=\"1\" href=\"data:image/png;base64,SGVsbG8gd29ybGQ=\"/>"
    );
}

#[test]
fn texts() {
    let layout = TextLayout {
        font_family: "Helvetica".into(),
        align: TextAlign::Center,
        font_size: "10".into(),
        weight: 700,
        style: FontStyle::Italic,
        x: "1".into(),
        y: "-2".into(),
        rotate: Some("90".into()),
    };
    let mut w = SvgWriter::new();
    w.export_text(&layout, 3, &None, "a<b");
    assert_eq!(
        w.acc,
        "<text font-family=\"Helvetica\" text-anchor=\"middle\" font-size=\"10px\" font-weight=\"bold\" \
         font-style=\"italic\" transform=\"translate(1 -2) rotate(90) \">a&lt;b</text>"
    );
    let mut w2 = SvgWriter::new();
    let on_curve = Some(vec![PathCommand::MoveTo(pt("0", "0")), PathCommand::LineTo(pt("1", "1"))]);
    let plain = TextLayout { rotate: None, weight: 400, style: FontStyle::Normal, ..layout };
    w2.export_text(&plain, 12, &on_curve, "hi");
    assert_eq!(
        w2.acc,
        "<text font-family=\"Helvetica\" text-anchor=\"middle\" font-size=\"10px\" font-weight=\"normal\" \
         font-style=\"normal\" transform=\"translate(1 -2) \"><path id=\"12\" d=\"M 0 0 L 1 1 \"/>\
         <textPath href=\"#12\">hi</textPath></text>"
    );
}

#[test]
fn fonts() {
    assert_eq!(font_mime_type(&[0x4F, 0x54, 0x54, 0x4F, 0]), "font/otf");
    assert_eq!(font_mime_type(&[0, 1, 0, 0, 0, 9]), "font/ttf");
    assert_eq!(font_mime_type(&[0, 1, 0, 0]), "font");
    assert_eq!(font_mime_type(&[]), "font");
    assert_eq!(
        font_face("Sans", b"OTTOab"),
        "@font-face{font-family:Sans;src:url(\"data:font/otf;base64,T1RUT2Fi\");}"
    );
    assert_eq!(font_face("X", b""), "@font-face{font-family:X;src:url(\"data:font;base64,\");}");
    assert_eq!(font_face("M", b"M"), "@font-face{font-family:M;src:url(\"data:font;base64,TQ==\");}");
    assert_eq!(font_face("M", b"Ma"), "@font-face{font-family:M;src:url(\"data:font;base64,TWE=\");}");
    assert_eq!(font_face("M", b"Man"), "@font-face{font-family:M;src:url(\"data:font;base64,TWFu\");}");
}

#[test]
fn documents() {
    let vb = ViewBoxText { min_x: "0".into(), min_y: "-10".into(), span_x: "20".into(), span_y: "10".into() };
    assert_eq!(
        svg_document(Some("F".into()), "<g/>".into(), Some(vb)),
        "<svg viewBox=\"0 -10 20 10\" xmlns=\"http://www.w3.org/2000/svg\" \
         xmlns:xlink=\"http://www.w3.org/1999/xlink\"><defs><style>F</style></defs><g/></svg>"
    );
    assert_eq!(svg_document(None, "<g/>".into(), None), "<g/>");
    assert_eq!(svg_document(Some(String::new()), "x".into(), None), "<defs><style></style></defs>x");
}

#[test]
fn path_data_of_curves() {
    let cmds = vec![PathCommand::MoveTo(pt("1", "2")), PathCommand::LineTo(pt("3", "4")), PathCommand::Close];
    assert_eq!(curve_path_data(&Some(cmds)), "M 1 2 L 3 4 Z");
    assert_eq!(curve_path_data(&None), "");
}

#[test]
fn curve_commands_or_error() {
    let ok = CurvePosition { keypoints: vec![KeypointPosition::Point((0, 0)), KeypointPosition::Point((1, 1))], closed: false };
    assert_eq!(
        curve_commands(ok).unwrap(),
        vec![PathCommand::MoveTo((0, 0)), PathCommand::LineTo((1, 1))]
    );
    let no_start = CurvePosition {
        keypoints: vec![KeypointPosition::Bezier(Bezier::new((1, 0), (2, 1), (2, 2)))],
        closed: true,
    };
    match curve_commands(no_start.clone()) {
        Err(SvgError::CurveHasNoStartingPoint(c)) => assert_eq!(c, no_start),
        other => panic!("{:?}", other),
    }
}
