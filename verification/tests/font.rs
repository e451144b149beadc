use dessin::font::{font_ref, get, FontRef};
use dessin::shapes::FontQuery;

#[test]
fn font_ref_of_found_face() {
    let id = fontdb::ID::dummy();
    assert_eq!(
        font_ref("Arial", Some(id)),
        Some(FontRef { id, family: "Arial".to_string() })
    );
}

#[test]
fn font_ref_of_nothing_found() {
    assert_eq!(font_ref("Arial", None), None);
}

#[test]
fn get_in_empty_database_finds_nothing() {
    let db = fontdb::Database::new();
    assert_eq!(get(&db, FontQuery::from("Arial")), None);
}

#[test]
fn get_finds_a_face_of_the_family() {
    let mut db = fontdb::Database::new();
    let id = db.push_face_info(fontdb::FaceInfo {
        id: fontdb::ID::dummy(),
        source: fontdb::Source::Binary(std::sync::Arc::new(Vec::<u8>::new())),
        index: 0,
        families: vec![("Arial".to_string(), fontdb::Language::English_UnitedStates)],
        post_script_name: "Arial".to_string(),
        style: fontdb::Style::Normal,
        weight: fontdb::Weight::NORMAL,
        stretch: fontdb::Stretch::Normal,
        monospaced: false,
    });
    assert_eq!(get(&db, FontQuery::from("Arial")), Some(FontRef { id, family: "Arial".to_string() }));
    assert_eq!(get(&db, FontQuery::from("Courier")), None);
}
