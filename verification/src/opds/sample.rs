//! The sample catalogs: a root with one entry, and a fixed list of new
//! publications.

use vstd::prelude::*;

use crate::item::{Author, AuthorView, File, FileView, ResearchItem, ResearchItemView};
use crate::opds::catalog::{
    catalog_feed, entries_of, AcquisitionCatalog, CatalogLocations, CatalogLocationsView, NavigationCatalog,
    OpdsCatalog,
};
use crate::opds::entry::{item_entry, navigation_entry, NavigationEntry, NavigationEntryView};
use crate::opds::feed::AtomFeed;
use crate::text::owned;

verus! {

/// The one entry of the sample root catalog.
pub open spec fn sample_root_entry() -> NavigationEntryView {
    NavigationEntryView {
        id: "0"@,
        title: "New"@,
        description: Some("New Publications"@),
        location: "/opds/sort/new"@,
    }
}

/// The sample root catalog: one entry, leading to the new publications.
pub fn sample_index_catalog() -> (f: AtomFeed)
    ensures
        f@ == catalog_feed("0"@, "CiteSync Catalog"@,
            CatalogLocationsView { current: "/opds"@, parent: None },
            seq![navigation_entry(sample_root_entry())], "navigation"@),
{
    let mut entries: Vec<NavigationEntry> = Vec::new();
    entries.push(NavigationEntry {
        id: owned("0"),
        title: owned("New"),
        description: Some(owned("New Publications")),
        location: owned("/opds/sort/new"),
    });
    let ghost ev = entries@;
    let f = NavigationCatalog::build(
        owned("0"),
        owned("CiteSync Catalog"),
        CatalogLocations { current: owned("/opds"), parent: None },
        entries,
    );
    assert(entries_of(ev) =~= seq![navigation_entry(sample_root_entry())]);
    f
}

/// A sample article with one author and two files.
pub open spec fn sample_item(
    id: Seq<char>,
    title: Seq<char>,
    summary: Seq<char>,
    first_name: Seq<char>,
    last_name: Seq<char>,
    second_type: Seq<char>,
) -> ResearchItemView {
    ResearchItemView {
        id: id,
        collection: Seq::empty(),
        authors: seq![AuthorView { first_name: first_name, last_name: last_name }],
        title: title,
        summary: Some(summary),
        publisher: None,
        kind: "article"@,
        tags: Seq::empty(),
        files: seq![
            FileView { id: "0"@, mime_type: "application/pdf"@ },
            FileView { id: "1"@, mime_type: second_type },
        ],
    }
}

/// The items of the sample catalog of new publications.
pub open spec fn sample_items() -> Seq<ResearchItemView> {
    seq![
        sample_item("0"@, "Some Paper"@, "This is a super interesting Paper"@, "A"@, "BC"@, "text/html"@),
        sample_item("1"@, "Another Paper"@, "This is a super duper interesting Paper"@, "D"@, "EF"@, "image/png"@),
    ]
}

fn make_sample_item(
    id: &str,
    title: &str,
    summary: &str,
    first_name: &str,
    last_name: &str,
    second_type: &str,
) -> (it: ResearchItem)
    ensures
        it@ == sample_item(id@, title@, summary@, first_name@, last_name@, second_type@),
{
    let mut authors: Vec<Author> = Vec::new();
    authors.push(Author { first_name: owned(first_name), last_name: owned(last_name) });
    let mut files: Vec<File> = Vec::new();
    files.push(File { id: owned("0"), mime_type: owned("application/pdf") });
    files.push(File { id: owned("1"), mime_type: owned(second_type) });
    let it = ResearchItem {
        id: owned(id),
        collection: String::new(),
        authors,
        title: owned(title),
        summary: Some(owned(summary)),
        publisher: None,
        kind: owned("article"),
        tags: Vec::new(),
        files,
    };
    assert(it@.authors =~= sample_item(id@, title@, summary@, first_name@, last_name@, second_type@).authors);
    assert(it@.files =~= sample_item(id@, title@, summary@, first_name@, last_name@, second_type@).files);
    assert(it@.tags =~= Seq::<Seq<char>>::empty());
    it
}

/// The sample catalog of new publications (`/opds/sort/new`): two fixed articles.
pub fn catalog() -> (f: AtomFeed)
    ensures
        f@ == catalog_feed("1"@, "New Publications"@,
            CatalogLocationsView { current: "/opds/sort/new"@, parent: None },
            sample_items().map_values(|it: ResearchItemView| item_entry(it)), "acquisition"@),
{
    let mut items: Vec<ResearchItem> = Vec::new();
    items.push(make_sample_item("0", "Some Paper", "This is a super interesting Paper", "A", "BC", "text/html"));
    items.push(make_sample_item("1", "Another Paper", "This is a super duper interesting Paper", "D", "EF", "image/png"));
    let ghost iv = items@;
    let f = AcquisitionCatalog::build(
        owned("1"),
        owned("New Publications"),
        CatalogLocations { current: owned("/opds/sort/new"), parent: None },
        items,
    );
    assert(entries_of(iv) =~= sample_items().map_values(|it: ResearchItemView| item_entry(it)));
    f
}

} // verus!
