use libcitesync::content::{content_disposition, storage_path};
use libcitesync::index::IndexEntry;
use libcitesync::json::JsonValue;
use libcitesync::opds::catalog::{build_links, build_mime_type};
use libcitesync::opds::feed::AtomFeed;
use libcitesync::opds::routes::{
    catalog_by_name, catalog_filter_author, catalog_filter_authors, catalog_filter_collection,
    catalog_filter_collection_base, catalog_filter_collections, catalog_filter_tag, catalog_filter_tags,
    index_catalog, CatalogError,
};
use libcitesync::state::{CachedBibliography, LoadedCollection};

fn s(x: &str) -> JsonValue {
    JsonValue::Str(x.to_string())
}

fn obj(members: Vec<(&str, JsonValue)>) -> JsonValue {
    JsonValue::Object(members.into_iter().map(|(k, v)| (k.to_string(), v)).collect())
}

fn item(id: u64, title: &str, authors: &[(&str, &str)], tags: &[&str]) -> JsonValue {
    obj(vec![
        ("itemID", JsonValue::UInt(id)),
        ("citationKey", s(&format!("key{id}"))),
        ("title", s(title)),
        ("itemType", s("book")),
        ("creators", JsonValue::Array(authors.iter().map(|(f, l)| obj(vec![
            ("creatorType", s("author")), ("firstName", s(f)), ("lastName", s(l)),
        ])).collect())),
        ("attachments", JsonValue::Array(vec![obj(vec![("path", s(&format!("/s/storage/D{id}/f{id}.pdf")))])])),
        ("tags", JsonValue::Array(tags.iter().map(|t| obj(vec![("tag", s(t))])).collect())),
    ])
}

fn structure() -> JsonValue {
    obj(vec![
        ("C1", obj(vec![("name", s("Zeta")), ("parent", s("")), ("collections", JsonValue::Array(vec![s("C2"), s("missing"), JsonValue::UInt(3)]))])),
        ("C2", obj(vec![("name", s("Child")), ("parent", s("C1")), ("items", JsonValue::Array(vec![JsonValue::UInt(2), JsonValue::UInt(99), s("x"), JsonValue::UInt(1)]))])),
        ("C3", obj(vec![("name", s("Alpha")), ("parent", s(""))])),
        ("C4", obj(vec![("parent", s(""))])),
        ("C5", obj(vec![("name", s("Sub")), ("parent", JsonValue::Bool(false))])),
        ("C6", obj(vec![("parent", s(""))])),
    ])
}

fn cache() -> CachedBibliography {
    let lib = obj(vec![
        ("items", JsonValue::Array(vec![
            item(1, "Beta", &[("Ada", "Lovelace"), ("Alan", "Turing")], &["math"]),
            item(2, "Alpha", &[("Ada", "Lovelace")], &["math", "history"]),
            item(3, "Gamma", &[("Ada", "Lovelace"), ("ADA", "LOVELACE")], &[]),
        ])),
        ("collections", structure()),
    ]);
    let other = obj(vec![("items", JsonValue::Array(vec![item(4, "Delta", &[("Grace", "Hopper")], &["navy"])]))]);
    CachedBibliography::from_collections(vec![
        LoadedCollection {
            name: "library".to_string(),
            json_path: "/d/library/bib.json".to_string(),
            storage_path: "/d/library/storage".to_string(),
            last_modified: 10,
            bibliography: lib,
        },
        LoadedCollection {
            name: "navy".to_string(),
            json_path: "/d/navy/bib.json".to_string(),
            storage_path: "/d/navy/storage".to_string(),
            last_modified: -5,
            bibliography: other,
        },
    ])
}

fn entry<'a>(idx: &'a [IndexEntry], key: &str) -> &'a IndexEntry {
    idx.iter().find(|e| e.key == key).unwrap()
}

fn titles(f: &AtomFeed) -> Vec<String> {
    f.entries.iter().map(|e| e.title.clone()).collect()
}

#[test]
fn mime_type_and_links() {
    assert_eq!(build_mime_type("navigation").unwrap(), "application/atom+xml;profile=opds-catalog;kind=navigation");
    let links = build_links("/here", Some("/up"), "acquisition");
    assert_eq!(links.len(), 3);
    assert_eq!((links[0].rel.as_str(), links[0].href.as_str()), ("self", "/here"));
    assert_eq!(links[0].mime_type.as_deref(), Some("application/atom+xml;profile=opds-catalog;kind=navigation"));
    assert_eq!((links[1].rel.as_str(), links[1].href.as_str()), ("start", "/opds"));
    assert_eq!(links[1].mime_type.as_deref(), Some("application/atom+xml;profile=opds-catalog;kind=acquisition"));
    assert_eq!((links[2].rel.as_str(), links[2].href.as_str()), ("up", "/up"));
    assert_eq!(build_links("/here", None, "navigation").len(), 2);
}

#[test]
fn indexes_file_each_item_under_its_authors_and_tags() {
    let c = cache();
    assert_eq!(c.research_items().len(), 4);
    assert_eq!(c.authors().len(), 3);
    let ada = entry(&c.authors(), "lovelace_ada");
    assert_eq!(ada.label, "Lovelace, Ada");
    let mut ids = ada.item_ids.clone();
    ids.sort();
    // item 3 has two authors with the id lovelace_ada, so it is filed twice
    assert_eq!(ids, vec![1, 2, 3, 3]);
    assert_eq!(entry(&c.authors(), "turing_alan").item_ids, vec![1]);
    assert_eq!(entry(&c.authors(), "hopper_grace").item_ids, vec![4]);
    let mut math = entry(&c.tags(), "math").item_ids.clone();
    math.sort();
    assert_eq!(math, vec![1, 2]);
    assert_eq!(entry(&c.tags(), "history").item_ids, vec![2]);
    assert_eq!(entry(&c.tags(), "navy").item_ids, vec![4]);
    assert_eq!(c.tags().len(), 3);
}

#[test]
fn collections_metadata_is_kept() {
    let c = cache();
    assert_eq!(c.collections_metadata().len(), 2);
    let lib = &c.collections_metadata().iter().find(|(n, _)| n == "library").unwrap().1;
    assert_eq!(lib.json_path, "/d/library/bib.json");
    assert_eq!(lib.last_modified, 10);
    assert!(lib.collections_structure.is_some());
    let navy = &c.collections_metadata().iter().find(|(n, _)| n == "navy").unwrap().1;
    assert!(navy.collections_structure.is_none());
    assert_eq!(c.research_items()[&4].collection, "navy");
}

#[test]
fn reload_is_needed_when_empty_or_changed() {
    let empty = CachedBibliography::new();
    assert!(empty.should_reload(&vec![]));
    let c = cache();
    let recorded: Vec<Option<i128>> = c.collections_metadata().iter().map(|(_, m)| Some(m.last_modified)).collect();
    assert!(!c.should_reload(&recorded));
    let mut changed = recorded.clone();
    changed[1] = Some(11);
    assert!(c.should_reload(&changed));
    let mut unreadable = recorded.clone();
    unreadable[0] = None;
    assert!(!c.should_reload(&unreadable));
}

#[test]
fn root_catalog() {
    let f = index_catalog();
    assert_eq!(f.id, "base");
    assert_eq!(f.title, "CiteSync");
    assert_eq!(f.links.len(), 2);
    assert_eq!(titles(&f), vec!["Alphabetical", "Authors", "Collections", "Tags"]);
    let e = &f.entries[1];
    assert_eq!(e.id, "authors");
    assert_eq!(e.links[0].href, "/opds/filter/authors");
    assert_eq!(e.links[0].rel, "alternate");
    assert_eq!(e.links[0].mime_type.as_deref(), Some("application/atom+xml;profile=opds-catalog;kind=acquisition"));
    let content = e.content.as_ref().unwrap();
    assert_eq!(content.content_type.as_deref(), Some("text"));
    assert_eq!(content.value.as_deref(), Some("Grouped by authors"));
}

#[test]
fn catalog_sorted_by_name() {
    let c = cache();
    let f = catalog_by_name(&c);
    assert_eq!(f.id, "alphabetical");
    assert_eq!(f.title, "Alphabetically");
    assert_eq!(titles(&f), vec!["Alpha", "Beta", "Delta", "Gamma"]);
    assert_eq!(f.links[2].href, "/opds");
    assert_eq!(f.links[0].mime_type.as_deref(), Some("application/atom+xml;profile=opds-catalog;kind=navigation"));
    assert_eq!(f.links[1].mime_type.as_deref(), Some("application/atom+xml;profile=opds-catalog;kind=acquisition"));
    assert_eq!(f.links[2].mime_type.as_deref(), Some("application/atom+xml;profile=opds-catalog;kind=acquisition"));
    let beta = &f.entries[1];
    assert_eq!(beta.id, "key1");
    assert_eq!(beta.authors, vec!["Ada Lovelace".to_string(), "Alan Turing".to_string()]);
    assert_eq!(beta.links[0].rel, "http://opds-spec.org/acquisition");
    assert_eq!(beta.links[0].href, "/content/key1/D1/f1.pdf");
    assert_eq!(beta.links[0].mime_type.as_deref(), Some("application/pdf"));
}

#[test]
fn catalog_of_authors() {
    let c = cache();
    let f = catalog_filter_authors(&c);
    assert_eq!(titles(&f), vec!["Hopper, Grace", "Lovelace, Ada", "Turing, Alan"]);
    let ids: Vec<String> = f.entries.iter().map(|e| e.id.clone()).collect();
    assert_eq!(ids, vec!["0", "1", "2"]);
    assert_eq!(f.entries[1].links[0].href, "/opds/filter/authors/lovelace_ada");
}

#[test]
fn catalog_of_one_author() {
    let c = cache();
    let f = catalog_filter_author(&c, "lovelace_ada").unwrap();
    assert_eq!(f.id, "authors/lovelace_ada");
    assert_eq!(f.title, "Lovelace, Ada");
    assert_eq!(titles(&f), vec!["Alpha", "Beta", "Gamma", "Gamma"]);
    assert_eq!(f.links[0].href, "/opds/filter/authors/lovelace_ada");
    assert_eq!(f.links[2].href, "/opds/filter/authors");
    let err = catalog_filter_author(&c, "nobody").unwrap_err();
    assert_eq!(err, CatalogError::AuthorNotFound);
    assert_eq!(err.message(), "Author not found!");
    assert!(err.is_not_found());
}

#[test]
fn catalogs_of_tags() {
    let c = cache();
    let f = catalog_filter_tags(&c);
    assert_eq!(titles(&f), vec!["history", "math", "navy"]);
    assert_eq!(f.entries[1].links[0].href, "/opds/filter/tags/math");
    let t = catalog_filter_tag(&c, "math").unwrap();
    assert_eq!(t.id, "tags/math");
    assert_eq!(t.title, "math");
    assert_eq!(titles(&t), vec!["Alpha", "Beta"]);
    assert_eq!(catalog_filter_tag(&c, "none").unwrap_err(), CatalogError::TagNotFound);
    assert_eq!(CatalogError::TagNotFound.message(), "Tag not found!");
}

#[test]
fn catalog_of_collections() {
    let c = cache();
    let f = catalog_filter_collections(&c);
    assert_eq!(titles(&f), vec!["library", "navy"]);
    assert_eq!(f.entries[0].links[0].href, "/opds/filter/collections/library");
}

#[test]
fn catalog_of_a_base_collection() {
    let c = cache();
    let f = catalog_filter_collection_base(&c, "library").unwrap();
    assert_eq!(titles(&f), vec!["Alpha", "Zeta"]);
    assert_eq!(f.entries[1].id, "C1");
    assert_eq!(f.entries[1].links[0].href, "/opds/filter/collections/library/C1");
    assert_eq!(f.links[0].href, "/opds/filter/collections/library");
    let missing = catalog_filter_collection_base(&c, "x").unwrap_err();
    assert_eq!(missing, CatalogError::BaseCollectionNotFound);
    assert_eq!(missing.message(), "Base collection not found!");
    let unreadable = catalog_filter_collection_base(&c, "navy").unwrap_err();
    assert_eq!(unreadable, CatalogError::CollectionsUnreadable);
    assert_eq!(unreadable.message(), "Unable to deserialize collections!");
    assert!(!unreadable.is_not_found());
}

#[test]
fn catalog_of_one_collection() {
    let c = cache();
    let sub = catalog_filter_collection(&c, "library", "C1").unwrap();
    assert_eq!(sub.id, "collections/C1");
    assert_eq!(sub.title, "Zeta");
    assert_eq!(titles(&sub), vec!["Child"]);
    assert_eq!(sub.entries[0].links[0].href, "/opds/filter/collections/library/C2");
    assert_eq!(sub.links[0].href, "/opds/filter/collections/library/C1");
    assert_eq!(sub.links[2].href, "/opds/filter/collections/library");
    let items = catalog_filter_collection(&c, "library", "C2").unwrap();
    assert_eq!(items.title, "Child");
    assert_eq!(titles(&items), vec!["Alpha", "Beta"]);
    assert_eq!(items.links[0].href, "/opds/filter/collections/library/C2");
    assert_eq!(items.links[2].href, "/opds/filter/collections/library");
    assert_eq!(items.links[1].mime_type.as_deref(), Some("application/atom+xml;profile=opds-catalog;kind=acquisition"));
    assert_eq!(sub.links[1].mime_type.as_deref(), Some("application/atom+xml;profile=opds-catalog;kind=navigation"));
    let empty = catalog_filter_collection(&c, "library", "C3").unwrap();
    assert_eq!(empty.entries.len(), 0);
    assert_eq!(catalog_filter_collection(&c, "library", "nope").unwrap_err(), CatalogError::CollectionNotFound);
    assert_eq!(catalog_filter_collection(&c, "library", "C4").unwrap_err(), CatalogError::CollectionsUnreadable);
    assert_eq!(catalog_filter_collection(&c, "zzz", "C1").unwrap_err(), CatalogError::BaseCollectionNotFound);
    assert_eq!(CatalogError::CollectionNotFound.message(), "Collection not found!");
}

#[test]
fn content_lookup() {
    let c = cache();
    assert_eq!(storage_path(&c, "library").as_deref(), Some("/d/library/storage"));
    assert_eq!(storage_path(&c, "other"), None);
    assert_eq!(content_disposition("f.pdf"), "attachment; filename=\"f.pdf\"");
}

#[test]
fn sample_catalogs() {
    let root = libcitesync::opds::sample::sample_index_catalog();
    assert_eq!(root.id, "0");
    assert_eq!(root.title, "CiteSync Catalog");
    assert_eq!(root.links.len(), 2);
    assert_eq!(root.links[0].href, "/opds");
    assert_eq!(root.entries.len(), 1);
    assert_eq!(root.entries[0].links[0].href, "/opds/sort/new");
    assert_eq!(root.entries[0].content.as_ref().unwrap().value.as_deref(), Some("New Publications"));
    let new = libcitesync::opds::sample::catalog();
    assert_eq!(new.id, "1");
    assert_eq!(new.title, "New Publications");
    assert_eq!(new.links[0].href, "/opds/sort/new");
    assert_eq!(new.links[1].mime_type.as_deref(), Some("application/atom+xml;profile=opds-catalog;kind=acquisition"));
    assert_eq!(titles(&new), vec!["Some Paper", "Another Paper"]);
    assert_eq!(new.entries[0].authors, vec!["A BC".to_string()]);
    assert_eq!(new.entries[1].summary.as_deref(), Some("This is a super duper interesting Paper"));
    assert_eq!(new.entries[1].links[1].href, "/content/1/1");
    assert_eq!(new.entries[1].links[1].mime_type.as_deref(), Some("image/png"));
}

#[test]
fn equal_titles_keep_their_order() {
    let tie = obj(vec![
        ("T2", obj(vec![("name", s("Same")), ("parent", s(""))])),
        ("T1", obj(vec![("name", s("Same")), ("parent", s(""))])),
        ("T0", obj(vec![("name", s("Earlier")), ("parent", s(""))])),
    ]);
    let c = CachedBibliography::from_collections(vec![LoadedCollection {
        name: "tie".to_string(),
        json_path: "/t/bib.json".to_string(),
        storage_path: "/t/storage".to_string(),
        last_modified: 0,
        bibliography: obj(vec![("items", JsonValue::Array(vec![])), ("collections", tie)]),
    }]);
    let f = catalog_filter_collection_base(&c, "tie").unwrap();
    let ids: Vec<String> = f.entries.iter().map(|e| e.id.clone()).collect();
    assert_eq!(ids, vec!["T0", "T2", "T1"]);
}

#[test]
fn feeds_are_written_as_atom() {
    let xml = libcitesync::opds::atom::serialize(&index_catalog()).unwrap();
    assert!(xml.contains("<title>CiteSync</title>"));
    assert!(xml.contains("<id>base</id>"));
    assert!(xml.contains("href=\"/opds/filter/authors\""));
    assert!(xml.contains("kind=navigation"));
    assert_eq!(xml, libcitesync::opds::atom::serialize(&index_catalog()).unwrap());
}
