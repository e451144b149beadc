use dessin::raster::{StylePosition, StyleStack};

fn style(fill: Option<u8>, stroke: Option<u8>) -> StylePosition<u8, u8> {
    StylePosition { fill, stroke }
}

#[test]
fn no_style_in_force_without_styles() {
    let stack: StyleStack<u8, u8> = StyleStack::new();
    assert_eq!(stack.style(), style(None, None));
}

#[test]
fn innermost_fill_and_stroke_win() {
    let mut stack = StyleStack::new();
    stack.start_style(style(Some(1), Some(10)));
    stack.start_style(style(None, Some(20)));
    stack.start_style(style(Some(3), None));
    // Fill from the innermost style, stroke from the middle one.
    assert_eq!(stack.style(), style(Some(3), Some(20)));
    stack.end_style();
    // Fill from the outer style, stroke from the middle one.
    assert_eq!(stack.style(), style(Some(1), Some(20)));
    stack.end_style();
    assert_eq!(stack.style(), style(Some(1), Some(10)));
}

#[test]
fn outer_stroke_applies_under_inner_fill() {
    let mut stack = StyleStack::new();
    stack.start_style(style(None, Some(7)));
    stack.start_style(style(Some(2), None));
    // Both styles are in force: the inner fill and the outer stroke.
    assert_eq!(stack.style(), style(Some(2), Some(7)));
}

#[test]
fn ending_without_style_does_nothing() {
    let mut stack: StyleStack<u8, u8> = StyleStack::new();
    stack.end_style();
    assert!(stack.styles.is_empty());
    stack.start_style(style(None, Some(4)));
    assert_eq!(stack.style(), style(None, Some(4)));
}
