use dessin::position::Rect;
use dessin::shapes::{FontQuery, Quarter};
use dessin::text::{TextAlign, TextVerticalAlign};

#[test]
fn rect_builders() {
    let r: Rect<(i32, i32)> = Rect::new();
    assert_eq!(r, Rect { pos: (0, 0), anchor: (0, 0), size: None });
    let r = r.at((3, 4)).with_anchor((-1, 1)).with_size((10, 20));
    assert_eq!(r, Rect { pos: (3, 4), anchor: (-1, 1), size: Some((10, 20)) });
    let r = r.at((0, 0));
    assert_eq!(r.pos, (0, 0));
    assert_eq!(r.size, Some((10, 20)));
}

#[test]
fn defaults_and_queries() {
    assert_eq!(TextAlign::default(), TextAlign::Left);
    assert_eq!(TextVerticalAlign::default(), TextVerticalAlign::Bottom);
    let FontQuery::Family(name) = FontQuery::from("Helvetica");
    assert_eq!(name, "Helvetica");
    assert_ne!(Quarter::TopLeft, Quarter::BottomRight);
}
