//! Fonts of texts: a family name looked up in a font database.
use vstd::prelude::*;

use crate::shapes::FontQuery;

verus! {

/// `fontdb::ID`, the identifier of a face in a font database.
#[verifier::external_type_specification]
#[verifier::external_body]
pub struct ExFontId(fontdb::ID);

/// `fontdb::Database`, a set of loaded font faces.
#[verifier::external_type_specification]
#[verifier::external_body]
pub struct ExFontDatabase(fontdb::Database);

/// A face of the font database, with the family name it was asked by.
#[derive(Debug, PartialEq)]
pub struct FontRef {
    pub id: fontdb::ID,
    pub family: String,
}

/// The family names of the faces a font database holds (every name of each
/// face, `FaceInfo::families`).
pub uninterp spec fn font_families(db: fontdb::Database) -> Set<Seq<char>>;

/// `fontdb::Database::query` on the family name alone (default weight,
/// stretch and style): among the faces that have this family name, the one
/// that best matches the default weight, stretch and style. The query finds a
/// face exactly when the database holds a face of that family: the candidates
/// are those faces, and the matching keeps one of any non-empty set of
/// candidates. Which face it returns is left unstated.
#[verifier::external_body]
fn query_family(db: &fontdb::Database, name: &str) -> (r: Option<fontdb::ID>)
    ensures
        r is Some <==> font_families(*db).contains(name@),
{
    db.query(&fontdb::Query { families: &[fontdb::Family::Name(name)], ..Default::default() })
}

/// The font of a lookup of `family` that found the face `found`, if any.
pub fn font_ref(family: &str, found: Option<fontdb::ID>) -> (r: Option<FontRef>)
    ensures
        found is None ==> r is None,
        found matches Option::Some(id) ==> (r matches Option::Some(f) && f.id == id && f.family@ == family@),
{
    match found {
        Some(id) => Some(FontRef { id, family: String::from_str(family) }),
        None => None,
    }
}

/// Looks a font up in `db`: by family name, the face that best matches it.
/// A font is found exactly when the database holds a face of that family,
/// and it carries the family name it was asked by.
pub fn get(db: &fontdb::Database, query: FontQuery) -> (r: Option<FontRef>)
    ensures
        match query {
            FontQuery::Family(name) => {
                &&& r is Some <==> font_families(*db).contains(name@)
                &&& r matches Option::Some(f) ==> f.family@ == name@
            },
        },
{
    match query {
        FontQuery::Family(name) => {
            let found = query_family(db, name);
            font_ref(name, found)
        },
    }
}

} // verus!
