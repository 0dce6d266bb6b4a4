use libcitesync::bib::{
    format_item_kind, storage_relative_path, BibEntry, BibPerson, Bibliography,
};
use libcitesync::crossref::{links_are_acyclic, unlinked_field_name, LinkInfo};
use libcitesync::item::ResearchItem;
use libcitesync::json::{parse_json, JsonValue};

fn s(x: &str) -> JsonValue {
    JsonValue::Str(x.to_string())
}

fn obj(members: Vec<(&str, JsonValue)>) -> JsonValue {
    JsonValue::Object(members.into_iter().map(|(k, v)| (k.to_string(), v)).collect())
}

fn creator(kind: &str, first: &str, last: &str) -> JsonValue {
    obj(vec![("creatorType", s(kind)), ("firstName", s(first)), ("lastName", s(last))])
}

fn item(id: u64, key: &str, title: &str) -> JsonValue {
    obj(vec![
        ("itemID", JsonValue::UInt(id)),
        ("citationKey", s(key)),
        ("title", s(title)),
        ("itemType", s("journalArticle")),
        ("creators", JsonValue::Array(vec![
            creator("author", "Ada", "Lovelace"),
            creator("editor", "Charles", "Babbage"),
            obj(vec![("creatorType", s("author")), ("lastName", s("NoFirst"))]),
        ])),
        ("attachments", JsonValue::Array(vec![
            obj(vec![("path", s("/home/u/Zotero/storage/ABCD1234/paper.pdf"))]),
            obj(vec![("path", s("/elsewhere/notes.txt"))]),
            obj(vec![("path", s("/z/storage/EFGH/page"))]),
        ])),
        ("tags", JsonValue::Array(vec![obj(vec![("tag", s("math"))]), obj(vec![("other", s("x"))]), obj(vec![("tag", s("history"))])])),
        ("publisher", s("Pub")),
        ("abstractNote", s("About engines")),
    ])
}

#[test]
fn item_kind_is_split_and_capitalized() {
    assert_eq!(format_item_kind("journalArticle"), "Journal Article");
    assert_eq!(format_item_kind("bookSection"), "Book Section");
    assert_eq!(format_item_kind("book"), "Book");
    assert_eq!(format_item_kind("Thesis"), "Thesis");
    assert_eq!(format_item_kind(""), "");
    assert_eq!(format_item_kind("aBC"), "A B C");
}

#[test]
fn storage_path_is_taken_after_first_marker() {
    assert_eq!(storage_relative_path("/a/storage/X/f.pdf"), Some("X/f.pdf".to_string()));
    assert_eq!(storage_relative_path("storage/storage/f"), Some("storage/f".to_string()));
    assert_eq!(storage_relative_path("/a/storage/"), Some("".to_string()));
    assert_eq!(storage_relative_path("/a/stor/f"), None);
}

#[test]
fn from_json_reads_items() {
    let bib = obj(vec![("items", JsonValue::Array(vec![item(7, "love1843", "Notes")]))]);
    let items = ResearchItem::from_json(&bib, "papers").unwrap();
    assert_eq!(items.len(), 1);
    let it = &items[&7];
    assert_eq!(it.id, "love1843");
    assert_eq!(it.collection, "papers");
    assert_eq!(it.title, "Notes");
    assert_eq!(it.kind, "Journal Article");
    assert_eq!(it.publisher.as_deref(), Some("Pub"));
    assert_eq!(it.summary.as_deref(), Some("About engines"));
    assert_eq!(it.authors.len(), 1);
    assert_eq!(it.authors[0].first_name, "Ada");
    assert_eq!(it.authors[0].last_name, "Lovelace");
    assert_eq!(it.tags, vec!["math".to_string(), "history".to_string()]);
    assert_eq!(it.files.len(), 2);
    assert_eq!(it.files[0].id, "ABCD1234/paper.pdf");
    assert_eq!(it.files[0].mime_type, "application/pdf");
    assert_eq!(it.files[1].id, "EFGH/page");
    assert_eq!(it.files[1].mime_type, "application/octet-stream");
}

#[test]
fn from_json_skips_incomplete_items_and_keeps_later_duplicates() {
    let missing_title = obj(vec![("itemID", JsonValue::UInt(1)), ("citationKey", s("k"))]);
    let negative_id = {
        let mut v = item(2, "neg", "Neg");
        if let JsonValue::Object(m) = &mut v {
            m[0].1 = JsonValue::OtherNumber;
        }
        v
    };
    let bib = obj(vec![("items", JsonValue::Array(vec![
        missing_title,
        negative_id,
        item(3, "first", "First"),
        item(3, "second", "Second"),
    ]))]);
    let items = ResearchItem::from_json(&bib, "c").unwrap();
    assert_eq!(items.len(), 1);
    assert_eq!(items[&3].id, "second");
}

#[test]
fn from_json_needs_an_items_array() {
    assert!(ResearchItem::from_json(&obj(vec![]), "c").is_none());
    assert!(ResearchItem::from_json(&obj(vec![("items", s("no"))]), "c").is_none());
    assert!(ResearchItem::from_json(&JsonValue::Null, "c").is_none());
    assert_eq!(ResearchItem::from_json(&obj(vec![("items", JsonValue::Array(vec![]))]), "c").unwrap().len(), 0);
}

#[test]
fn from_json_collections_merges_and_skips_unreadable() {
    let a = obj(vec![("items", JsonValue::Array(vec![item(1, "a1", "A1"), item(2, "a2", "A2")]))]);
    let b = obj(vec![("items", JsonValue::Array(vec![item(2, "b2", "B2")]))]);
    let bad = obj(vec![("collections", obj(vec![]))]);
    let all = ResearchItem::from_json_collections(&vec![
        ("a".to_string(), a),
        ("bad".to_string(), bad),
        ("b".to_string(), b),
    ]);
    assert_eq!(all.len(), 2);
    assert_eq!(all[&1].collection, "a");
    assert_eq!(all[&2].id, "b2");
    assert_eq!(all[&2].collection, "b");
}

#[test]
fn from_bib_skips_untitled_entries() {
    let entries = vec![
        BibEntry {
            key: "k1".to_string(),
            title: Some("Title One".to_string()),
            authors: Some(vec![BibPerson { name: "Doe".to_string(), given_name: "Jane".to_string() }]),
            entry_type: "article".to_string(),
        },
        BibEntry { key: "k2".to_string(), title: None, authors: None, entry_type: "misc".to_string() },
        BibEntry { key: "k3".to_string(), title: Some("Three".to_string()), authors: None, entry_type: "book".to_string() },
    ];
    let items = ResearchItem::from_bib(entries, "coll");
    assert_eq!(items.len(), 2);
    assert_eq!(items[0].id, "k1");
    assert_eq!(items[0].title, "Title One");
    assert_eq!(items[0].collection, "coll");
    assert_eq!(items[0].authors[0].first_name, "Jane");
    assert_eq!(items[0].authors[0].last_name, "Doe");
    assert_eq!(items[0].summary.as_deref(), Some(""));
    assert_eq!(items[0].kind, "article");
    assert!(items[0].publisher.is_none() && items[0].files.is_empty() && items[0].tags.is_empty());
    assert_eq!(items[1].id, "k3");
    assert!(items[1].authors.is_empty());
}

#[test]
fn bibtex_source_to_items() {
    let src = "@article{key1, title = {Hello World}, author = {Doe, Jane and Roe, Rich}}\n@misc{key2, note = {no title}}\n";
    let entries = libcitesync::bib::parse_bibtex(src).unwrap();
    assert_eq!(entries.len(), 2);
    assert_eq!(entries[0].key, "key1");
    assert_eq!(entries[0].title.as_deref(), Some("Hello World"));
    assert_eq!(entries[0].entry_type, "article");
    let authors = entries[0].authors.as_ref().unwrap();
    assert_eq!(authors.len(), 2);
    assert_eq!((authors[0].name.as_str(), authors[0].given_name.as_str()), ("Doe", "Jane"));
    assert!(entries[1].title.is_none());
    assert!(entries[1].authors.is_none());
    let items = ResearchItem::from_bib(entries, "c");
    assert_eq!(items.len(), 1);
    assert_eq!(items[0].authors[1].last_name, "Roe");
}

#[test]
fn bibtex_source_refused() {
    assert!(libcitesync::bib::parse_bibtex("@article{key1, title = {unclosed").is_err());
}

#[test]
fn bibtex_crossref_chain_is_resolved() {
    let src = "@book{parent, title = {Parent Book}, publisher = {P}}\n@inbook{child, title = {Chapter}, crossref = {parent}}\n";
    let entries = libcitesync::bib::parse_bibtex(src).unwrap();
    assert_eq!(entries.len(), 2);
    assert_eq!(entries[1].key, "child");
    assert_eq!(entries[1].title.as_deref(), Some("Chapter"));
}

#[test]
fn bibtex_crossref_cycles_are_refused() {
    let message = "crossref or xdata links form a cycle";
    let own = "@article{a, title = {A}, crossref = {a}}\n";
    assert_eq!(libcitesync::bib::parse_bibtex(own).unwrap_err(), message);
    let pair = "@article{a, title = {A}, CrossRef = {b}}\n@article{b, title = {B}, xdata = {c, a}}\n@misc{c, title = {C}}\n";
    assert_eq!(libcitesync::bib::parse_bibtex(pair).unwrap_err(), message);
    let alias = "@article{a, title = {A}, crossref = {other}}\n@article{b, title = {B}, ids = {other}, crossref = {a}}\n";
    assert_eq!(libcitesync::bib::parse_bibtex(alias).unwrap_err(), message);
}

#[test]
fn bibtex_links_that_form_no_cycle_are_read() {
    let braced = "@inbook{a, title = {A}, crossref = {{b}}}\n@book{b, title = {B}}\n";
    let entries = libcitesync::bib::parse_bibtex(braced).unwrap();
    assert_eq!(entries.len(), 2);
    let list = "@article{a, title = {A}, xdata = {b, c}}\n@xdata{b, note = {x}}\n@xdata{c, note = {y}}\n";
    assert_eq!(libcitesync::bib::parse_bibtex(list).unwrap().len(), 3);
    let dangling = "@article{a, title = {A}, crossref = {nowhere}}\n";
    assert_eq!(libcitesync::bib::parse_bibtex(dangling).unwrap()[0].key, "a");
}

#[test]
fn bibtex_abbreviation_cycles_are_refused() {
    let message = "abbreviations (@string) used by the fields form a cycle";
    let own = "@string{a = a}\n@misc{k, title = a}\n";
    assert_eq!(libcitesync::bib::parse_bibtex(own).unwrap_err(), message);
    let pair = "@string{a = b}\n@string{b = {x} # a}\n@misc{k, title = {T}, note = a}\n";
    assert_eq!(libcitesync::bib::parse_bibtex(pair).unwrap_err(), message);
}

#[test]
fn bibtex_abbreviations_that_form_no_cycle_are_read() {
    let chain = "@string{a = b # { and more}}\n@string{b = {Start}}\n@misc{k, title = a}\n";
    let entries = libcitesync::bib::parse_bibtex(chain).unwrap();
    assert_eq!(entries[0].title.as_deref(), Some("Start and more"));
    // a cycle that no field uses is never expanded
    let unused = "@string{a = b}\n@string{b = a}\n@misc{k, title = {T}}\n";
    assert_eq!(libcitesync::bib::parse_bibtex(unused).unwrap()[0].title.as_deref(), Some("T"));
}

fn link(key: &str, aliases: &[&str], crossref: Option<&str>, xdata: &[&str]) -> LinkInfo {
    let list = |v: &[&str]| if v.is_empty() { None } else { Some(v.iter().map(|s| s.to_string()).collect()) };
    LinkInfo { key: key.to_string(), aliases: list(aliases), crossref: crossref.map(|c| c.to_string()), xdata: list(xdata) }
}

#[test]
fn crossref_link_analysis() {
    assert!(links_are_acyclic(&vec![]));
    let chain = vec![
        link("a", &[], Some("b"), &[]),
        link("b", &[], None, &["c", "d"]),
        link("c", &[], None, &[]),
        link("d", &[], Some("missing"), &[]),
    ];
    assert!(links_are_acyclic(&chain));
    let back = vec![link("a", &[], Some("b"), &[]), link("b", &[], None, &["c", "a"]), link("c", &[], None, &[])];
    assert!(!links_are_acyclic(&back));
    // the later entry answering to a name is the one found
    let shadowed = vec![link("a", &[], Some("x"), &[]), link("x", &[], Some("a"), &[]), link("c", &["x"], None, &[])];
    assert!(links_are_acyclic(&shadowed));
    assert_eq!(unlinked_field_name("CrossRef"), "#crossref");
    assert_eq!(unlinked_field_name("XDATA"), "#xdata");
    assert_eq!(unlinked_field_name("title"), "title");
}

#[test]
fn json_text_is_parsed() {
    let v = parse_json(r#"{"items": [{"itemID": 7, "title": "T"}], "n": -1.5, "ok": true, "none": null}"#).unwrap();
    assert_eq!(v.get("items").and_then(|a| a.as_array()).map(|a| a.len()), Some(1));
    assert_eq!(v.get("items").unwrap().as_array().unwrap()[0].get("itemID").unwrap().as_u64(), Some(7));
    assert!(matches!(v.get("n"), Some(JsonValue::OtherNumber)));
    assert!(matches!(v.get("ok"), Some(JsonValue::Bool(true))));
    assert!(matches!(v.get("none"), Some(JsonValue::Null)));
    assert!(parse_json("{\"unclosed\": ").is_err());
}
