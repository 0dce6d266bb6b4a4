use std::str::FromStr;

use libcitesync::errors::EnumConversionError;
use libcitesync::item::{Author, File, FileType, ItemType, ResearchItem};

#[test]
fn item_type_displays_its_name() {
    assert_eq!(ItemType::Article.to_string(), "article");
    assert_eq!(ItemType::Misc.to_string(), "misc");
}

#[test]
fn item_type_parses_its_names() {
    assert_eq!(ItemType::from_str("article"), Ok(ItemType::Article));
    assert_eq!(ItemType::from_str("misc"), Ok(ItemType::Misc));
    assert_eq!(ItemType::from_str("Article"), Err(EnumConversionError));
    assert_eq!(ItemType::from_str(""), Err(EnumConversionError));
}

#[test]
fn item_type_round_trip() {
    for t in [ItemType::Article, ItemType::Misc] {
        assert_eq!(ItemType::parse(&t.to_string()), Ok(t));
    }
}

#[test]
fn item_type_default_is_misc() {
    assert_eq!(ItemType::default(), ItemType::Misc);
}

#[test]
fn file_type_displays_quoted_name() {
    assert_eq!(FileType::Document.to_string(), "\"document\"");
    assert_eq!(FileType::Snapshot.to_string(), "\"snapshot\"");
}

#[test]
fn file_type_parses_its_names() {
    assert_eq!(FileType::from_str("document"), Ok(FileType::Document));
    assert_eq!(FileType::from_str("snapshot"), Ok(FileType::Snapshot));
    assert_eq!(FileType::from_str("\"document\""), Err(EnumConversionError));
    assert_eq!(FileType::from_str("pdf"), Err(EnumConversionError));
}

#[test]
fn enum_conversion_error_message() {
    assert_eq!(EnumConversionError.to_string(), "failed to convert enum");
    assert_eq!(EnumConversionError.message(), "failed to convert enum");
}

fn author(first: &str, last: &str) -> Author {
    Author { first_name: first.to_string(), last_name: last.to_string() }
}

#[test]
fn author_id_is_lowercased_last_then_first() {
    assert_eq!(author("Ada", "Lovelace").get_id(), "lovelace_ada");
    assert_eq!(author("ÉMILE", "ÇA").get_id(), "ça_émile");
    assert_eq!(author("", "").get_id(), "_");
}

#[test]
fn author_name_is_last_comma_first() {
    assert_eq!(author("Ada", "Lovelace").get_name(), "Lovelace, Ada");
    assert_eq!(author("", "").get_name(), ", ");
}

#[test]
fn file_url_joins_collection_and_id() {
    let f = File { id: "ABCD/paper.pdf".to_string(), mime_type: "application/pdf".to_string() };
    assert_eq!(f.get_url("papers"), "/content/papers/ABCD/paper.pdf");
    assert_eq!(f.get_url(""), "/content//ABCD/paper.pdf");
}

#[test]
fn research_item_clone_and_default() {
    let d = ResearchItem::default();
    assert!(d.id.is_empty() && d.title.is_empty() && d.authors.is_empty());
    assert!(d.summary.is_none() && d.publisher.is_none());
    let mut it = ResearchItem::default();
    it.title = "T".to_string();
    it.authors.push(author("A", "B"));
    let c = it.clone();
    assert_eq!(c.title, "T");
    assert_eq!(c.authors[0].last_name, "B");
}
