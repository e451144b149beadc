use dessin::color::{alpha_text, Color};

#[test]
fn alpha_extremes() {
    assert_eq!(alpha_text(0), "0");
    assert_eq!(alpha_text(255), "1");
}

#[test]
fn alpha_shortest_decimals() {
    // The texts that `a as f32 / 255.` prints.
    assert_eq!(alpha_text(1), "0.003921569");
    assert_eq!(alpha_text(2), "0.007843138");
    assert_eq!(alpha_text(3), "0.011764706");
    assert_eq!(alpha_text(51), "0.2");
    assert_eq!(alpha_text(127), "0.49803922");
    assert_eq!(alpha_text(128), "0.5019608");
    assert_eq!(alpha_text(254), "0.99607843");
}

#[test]
fn rgba_conversion() {
    assert_eq!(Color::RGB { r: 1, g: 2, b: 3 }.rgba(), Color::RGBA { r: 1, g: 2, b: 3, a: 255 });
    assert_eq!(Color::U32(0xAB_CD_EF).rgba(), Color::RGBA { r: 0xAB, g: 0xCD, b: 0xEF, a: 255 });
    let c = Color::RGBA { r: 9, g: 8, b: 7, a: 6 };
    assert_eq!(c.rgba(), c);
    assert_eq!(c.rgba().rgba(), c.rgba());
}

#[test]
fn rgb_written_as_opaque_rgba() {
    assert_eq!(
        Color::RGB { r: 10, g: 20, b: 30 }.to_svg().unwrap(),
        Color::RGBA { r: 10, g: 20, b: 30, a: 255 }.to_svg().unwrap()
    );
    assert_eq!(Color::RGBA { r: 10, g: 20, b: 30, a: 51 }.to_svg().unwrap(), "rgba(10,20,30,0.2)");
}
