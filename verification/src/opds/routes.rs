//! What the OPDS routes answer, computed from the cached bibliography: the feed of
//! each catalog, or why there is none.

use vstd::prelude::*;

use crate::index::{has_key, ids_of, keys_distinct, label_of, IndexEntry};
use crate::item::{ResearchItem, ResearchItemView};
use crate::json::JsonValue;
use crate::opds::catalog::{
    catalog_feed, catalog_links, entries_of, AcquisitionCatalog, CatalogLocations, CatalogLocationsView, NavigationCatalog,
    OpdsCatalog,
};
use crate::opds::entry::{item_entry, navigation_entry, NavigationEntry, NavigationEntryView};
use crate::opds::feed::{AtomFeed, EntryView, FeedView, LinkView};
use crate::sort::{key_of, lemma_stable_sorted_map, sort_by_key, stable_sorted, SortKey};
use crate::state::CachedBibliography;
use crate::text::{concat2, owned, seq_lt};

verus! {

broadcast use {vstd::seq_lib::group_to_multiset_ensures, vstd::std_specs::hash::group_hash_axioms};

/// Why a catalog route has no feed to answer with.
#[derive(Debug, Clone, Copy, PartialEq, Eq, Structural)]
pub enum CatalogError {
    /// No author has the requested id.
    AuthorNotFound,
    /// No base collection has the requested name.
    BaseCollectionNotFound,
    /// The collection structure of the base collection is not a JSON object, or a
    /// collection in it has no name.
    CollectionsUnreadable,
    /// The base collection has no collection with the requested id.
    CollectionNotFound,
    /// No item has the requested tag.
    TagNotFound,
}

impl CatalogError {
    /// The message the route answers with.
    pub open spec fn spec_message(self) -> Seq<char> {
        match self {
            CatalogError::AuthorNotFound => "Author not found!"@,
            CatalogError::BaseCollectionNotFound => "Base collection not found!"@,
            CatalogError::CollectionsUnreadable => "Unable to deserialize collections!"@,
            CatalogError::CollectionNotFound => "Collection not found!"@,
            CatalogError::TagNotFound => "Tag not found!"@,
        }
    }

    /// The message the route answers with.
    pub fn message(&self) -> (s: String)
        ensures
            s@ == self.spec_message(),
    {
        match self {
            CatalogError::AuthorNotFound => owned("Author not found!"),
            CatalogError::BaseCollectionNotFound => owned("Base collection not found!"),
            CatalogError::CollectionsUnreadable => owned("Unable to deserialize collections!"),
            CatalogError::CollectionNotFound => owned("Collection not found!"),
            CatalogError::TagNotFound => owned("Tag not found!"),
        }
    }

    /// Whether the route answers `404 Not Found` (otherwise it answers
    /// `500 Internal Server Error`).
    pub fn is_not_found(&self) -> (r: bool)
        ensures
            r == !(self == CatalogError::CollectionsUnreadable),
    {
        match self {
            CatalogError::CollectionsUnreadable => false,
            _ => true,
        }
    }
}

impl SortKey for NavigationEntry {
    open spec fn sort_key(&self) -> Seq<char> {
        self.title@
    }

    fn key_str(&self) -> (r: &str) {
        self.title.as_str()
    }
}

impl SortKey for String {
    open spec fn sort_key(&self) -> Seq<char> {
        self@
    }

    fn key_str(&self) -> (r: &str) {
        self.as_str()
    }
}

/// Locations given as views.
pub open spec fn locations(current: Seq<char>, parent: Option<Seq<char>>) -> CatalogLocationsView {
    CatalogLocationsView { current, parent }
}

/// A navigation entry without description.
pub open spec fn nav_view(id: Seq<char>, title: Seq<char>, location: Seq<char>) -> NavigationEntryView {
    NavigationEntryView { id, title, description: None, location }
}

fn nav(id: String, title: String, location: String) -> (n: NavigationEntry)
    ensures
        n@ == nav_view(id@, title@, location@),
{
    NavigationEntry { id, title, description: None, location }
}

/// The OPDS entries of navigation entries.
pub open spec fn nav_entries(s: Seq<NavigationEntryView>) -> Seq<EntryView> {
    s.map_values(|n: NavigationEntryView| navigation_entry(n))
}

/// Navigation entries sorted by title, holding just the given ones.
pub open spec fn sorted_navigation(s: Seq<NavigationEntryView>, expected: Seq<NavigationEntryView>) -> bool {
    &&& forall|i: int, j: int| 0 <= i < j < s.len() ==> !seq_lt(#[trigger] s[j].title, #[trigger] s[i].title)
    &&& s.to_multiset() == expected.to_multiset()
}

/// The views of navigation entries.
pub open spec fn nav_views(v: Seq<NavigationEntry>) -> Seq<NavigationEntryView> {
    v.map_values(|n: NavigationEntry| n@)
}

/// The title of a navigation entry, by which catalogs sort them.
pub open spec fn nav_title() -> spec_fn(NavigationEntryView) -> Seq<char> {
    |n: NavigationEntryView| n.title
}

/// Sorts navigation entries by title, stably; the feed entries are those of the result.
fn sort_navigation(v: Vec<NavigationEntry>) -> (r: Vec<NavigationEntry>)
    ensures
        nav_views(r@) == stable_sorted(nav_views(v@), nav_title()),
        sorted_navigation(nav_views(r@), nav_views(v@)),
        entries_of(r@) == nav_entries(nav_views(r@)),
{
    let r = sort_by_key(v);
    proof {
        let f = |n: NavigationEntry| n@;
        lemma_stable_sorted_map(v@, key_of::<NavigationEntry>(), f, nav_title());
        assert(nav_views(v@) =~= v@.map_values(f));
        assert(nav_views(r@) =~= r@.map_values(f));
        crate::sort::lemma_to_multiset_map_values(r@, v@, |n: NavigationEntry| n@);
        assert(entries_of(r@) =~= nav_entries(nav_views(r@)));
        let s = nav_views(r@);
        assert forall|i: int, j: int| 0 <= i < j < s.len() implies !seq_lt(#[trigger] s[j].title, #[trigger] s[i].title) by {
            assert(s[j].title == r@[j].sort_key());
            assert(s[i].title == r@[i].sort_key());
        }
    }
    r
}

/// The entries of the root catalog.
pub open spec fn root_entries() -> Seq<NavigationEntryView> {
    seq![
        NavigationEntryView { id: "alphabetical"@, title: "Alphabetical"@,
            description: Some("Sorted alphabetically"@), location: "/opds/sort/name"@ },
        NavigationEntryView { id: "authors"@, title: "Authors"@,
            description: Some("Grouped by authors"@), location: "/opds/filter/authors"@ },
        NavigationEntryView { id: "collections"@, title: "Collections"@,
            description: Some("Grouped by collections"@), location: "/opds/filter/collections"@ },
        NavigationEntryView { id: "tags"@, title: "Tags"@,
            description: Some("Grouped by Tags"@), location: "/opds/filter/tags"@ },
    ]
}

fn root_entry(id: &str, title: &str, description: &str, location: &str) -> (n: NavigationEntry)
    ensures
        n@ == (NavigationEntryView { id: id@, title: title@, description: Some(description@), location: location@ }),
{
    NavigationEntry { id: owned(id), title: owned(title), description: Some(owned(description)), location: owned(location) }
}

/// The root navigation catalog (`/opds`).
pub fn index_catalog() -> (f: AtomFeed)
    ensures
        f@ == catalog_feed("base"@, "CiteSync"@, locations("/opds"@, None), nav_entries(root_entries()),
            "navigation"@),
{
    let mut entries: Vec<NavigationEntry> = Vec::new();
    entries.push(root_entry("alphabetical", "Alphabetical", "Sorted alphabetically", "/opds/sort/name"));
    entries.push(root_entry("authors", "Authors", "Grouped by authors", "/opds/filter/authors"));
    entries.push(root_entry("collections", "Collections", "Grouped by collections", "/opds/filter/collections"));
    entries.push(root_entry("tags", "Tags", "Grouped by Tags", "/opds/filter/tags"));
    let ghost ev = entries@;
    let f = NavigationCatalog::build(
        owned("base"),
        owned("CiteSync"),
        CatalogLocations { current: owned("/opds"), parent: None },
        entries,
    );
    assert(entries_of(ev) =~= nav_entries(root_entries()));
    f
}

/// The catalog of all base collections, as `catalog_filter_collections` answers it.
pub open spec fn collections_catalog(bib: &CachedBibliography) -> FeedView {
    catalog_feed("collections"@, "Collections"@, locations("/opds/filter/collections"@, Some("/opds"@)),
        nav_entries(stable_sorted(collection_navs(bib), nav_title())), "navigation"@)
}

/// The catalog of all tags, as `catalog_filter_tags` answers it.
pub open spec fn tags_catalog(bib: &CachedBibliography) -> FeedView {
    catalog_feed("tags"@, "Tags"@, locations("/opds/filter/tags"@, Some("/opds"@)),
        nav_entries(stable_sorted(tag_navs(bib), nav_title())), "navigation"@)
}

/// The catalog of all authors, as `catalog_filter_authors` answers it.
pub open spec fn authors_catalog(bib: &CachedBibliography) -> FeedView {
    catalog_feed("authors"@, "Authors"@, locations("/opds/filter/authors"@, Some("/opds"@)),
        nav_entries(author_navs(sorted_authors(bib))), "navigation"@)
}

/// The links of the catalog of all items sorted by title (`catalog_by_name`).
pub open spec fn by_name_links() -> Seq<LinkView> {
    catalog_links("/opds/sort/name"@, Some("/opds"@), "acquisition"@)
}

/// The catalog of the top-level collections of a base collection, as
/// `catalog_filter_collection_base` answers it where the base has a structure.
pub open spec fn base_catalog(bib: &CachedBibliography, base: Seq<char>) -> FeedView {
    catalog_feed("collections"@, "Collections"@,
        locations("/opds/filter/collections/"@ + base, Some("/opds/filter/collections"@)),
        nav_entries(stable_sorted(top_level_navs(base, base_members(bib, base)->Ok_0), nav_title())), "navigation"@)
}

/// The navigation entry of a collection name in the collections catalog.
pub open spec fn collection_nav(c: Seq<char>) -> NavigationEntryView {
    nav_view(c, c, "/opds/filter/collections/"@ + c)
}

/// The navigation entries of the base collections, in the order of the metadata list.
pub open spec fn collection_navs(bib: &CachedBibliography) -> Seq<NavigationEntryView> {
    bib.metadata().map_values(|m: (String, crate::state::CollectionMetadata)| collection_nav(m.0@))
}

/// The catalog of all base collections (`/opds/filter/collections`): one entry per
/// collection, sorted by name (stably, from the order of the metadata list).
pub fn catalog_filter_collections(bib: &CachedBibliography) -> (f: AtomFeed)
    ensures
        sorted_navigation(stable_sorted(collection_navs(bib), nav_title()), collection_navs(bib)),
        f@ == catalog_feed("collections"@, "Collections"@, locations("/opds/filter/collections"@, Some("/opds"@)),
            nav_entries(stable_sorted(collection_navs(bib), nav_title())), "navigation"@),
        f@ == collections_catalog(bib),
{
    proof {
        use_type_invariant(bib);
    }
    let mut entries: Vec<NavigationEntry> = Vec::new();
    let mut i: usize = 0;
    while i < bib.collections_metadata().len()
        invariant
            i <= bib.metadata().len(),
            entries@.len() == i,
            forall|j: int| 0 <= j < i ==> entries@[j]@ == collection_nav(bib.metadata()[j].0@),
        decreases bib.metadata().len() - i,
    {
        let c = &bib.collections_metadata()[i].0;
        entries.push(nav(c.clone(), c.clone(), concat2("/opds/filter/collections/", c.as_str())));
        i = i + 1;
    }
    let ghost expected = bib.metadata().map_values(
        |m: (String, crate::state::CollectionMetadata)| collection_nav(m.0@));
    assert(nav_views(entries@) =~= expected);
    let sorted = sort_navigation(entries);
    let ghost s = nav_views(sorted@);
    let f = NavigationCatalog::build(
        owned("collections"),
        owned("Collections"),
        CatalogLocations { current: owned("/opds/filter/collections"), parent: Some(owned("/opds")) },
        sorted,
    );
    assert(sorted_navigation(s, expected));
    f
}

/// The navigation entry of a tag in the tags catalog.
pub open spec fn tag_nav(t: Seq<char>) -> NavigationEntryView {
    nav_view(t, t, "/opds/filter/tags/"@ + t)
}

/// The navigation entries of the tags, in the order of the tag index.
pub open spec fn tag_navs(bib: &CachedBibliography) -> Seq<NavigationEntryView> {
    bib.tag_index().map_values(|e: IndexEntry| tag_nav(e.key@))
}

/// The catalog of all tags (`/opds/filter/tags`): one entry per tag, sorted (stably,
/// from the order of the tag index).
pub fn catalog_filter_tags(bib: &CachedBibliography) -> (f: AtomFeed)
    ensures
        sorted_navigation(stable_sorted(tag_navs(bib), nav_title()), tag_navs(bib)),
        f@ == catalog_feed("tags"@, "Tags"@, locations("/opds/filter/tags"@, Some("/opds"@)),
            nav_entries(stable_sorted(tag_navs(bib), nav_title())), "navigation"@),
        f@ == tags_catalog(bib),
{
    proof {
        use_type_invariant(bib);
    }
    let mut entries: Vec<NavigationEntry> = Vec::new();
    let mut i: usize = 0;
    while i < bib.tags().len()
        invariant
            i <= bib.tag_index().len(),
            entries@.len() == i,
            forall|j: int| 0 <= j < i ==> entries@[j]@ == tag_nav(bib.tag_index()[j].key@),
        decreases bib.tag_index().len() - i,
    {
        let t = &bib.tags()[i].key;
        entries.push(nav(t.clone(), t.clone(), concat2("/opds/filter/tags/", t.as_str())));
        i = i + 1;
    }
    let ghost expected = bib.tag_index().map_values(|e: IndexEntry| tag_nav(e.key@));
    assert(nav_views(entries@) =~= expected);
    let sorted = sort_navigation(entries);
    let ghost s = nav_views(sorted@);
    let f = NavigationCatalog::build(
        owned("tags"),
        owned("Tags"),
        CatalogLocations { current: owned("/opds/filter/tags"), parent: Some(owned("/opds")) },
        sorted,
    );
    assert(sorted_navigation(s, expected));
    f
}

impl SortKey for (String, String) {
    open spec fn sort_key(&self) -> Seq<char> {
        self.1@
    }

    fn key_str(&self) -> (r: &str) {
        self.1.as_str()
    }
}

impl SortKey for (u64, ResearchItem) {
    open spec fn sort_key(&self) -> Seq<char> {
        self.1.title@
    }

    fn key_str(&self) -> (r: &str) {
        self.1.title.as_str()
    }
}

/// The navigation entry of the `i`-th author (id, name) in the authors catalog:
/// titled with the name, identified by the position, linking to the author's catalog.
pub open spec fn author_nav(i: int, a: (Seq<char>, Seq<char>)) -> NavigationEntryView {
    nav_view(crate::text::decimal(i as nat), a.1, "/opds/filter/authors/"@ + a.0)
}

/// The navigation entries of the authors catalog for authors in the given order.
pub open spec fn author_navs(s: Seq<(Seq<char>, Seq<char>)>) -> Seq<NavigationEntryView> {
    Seq::new(s.len(), |i: int| author_nav(i, s[i]))
}

/// The (id, name) of each author of an index.
pub open spec fn author_pairs(idx: Seq<IndexEntry>) -> Seq<(Seq<char>, Seq<char>)> {
    idx.map_values(|e: IndexEntry| (e.key@, e.label@))
}

/// The name of an (id, name) pair.
pub open spec fn pair_name() -> spec_fn((Seq<char>, Seq<char>)) -> Seq<char> {
    |p: (Seq<char>, Seq<char>)| p.1
}

/// The (id, name) of each author, sorted by name (stably, from the order of the index).
pub open spec fn sorted_authors(bib: &CachedBibliography) -> Seq<(Seq<char>, Seq<char>)> {
    stable_sorted(author_pairs(bib.author_index()), pair_name())
}

/// The catalog of all authors (`/opds/filter/authors`): the authors sorted by
/// name, the `i`-th entry identified by `i`. Author ids are distinct, so no two
/// listed authors are the same (id, name) pair.
pub fn catalog_filter_authors(bib: &CachedBibliography) -> (f: AtomFeed)
    ensures
        forall|i: int, j: int| 0 <= i < j < sorted_authors(bib).len()
            ==> !seq_lt(#[trigger] sorted_authors(bib)[j].1, #[trigger] sorted_authors(bib)[i].1),
        sorted_authors(bib).to_multiset() == author_pairs(bib.author_index()).to_multiset(),
        f@ == catalog_feed("authors"@, "Authors"@, locations("/opds/filter/authors"@, Some("/opds"@)),
            nav_entries(author_navs(sorted_authors(bib))), "navigation"@),
        f@ == authors_catalog(bib),
{
    proof {
        use_type_invariant(bib);
    }
    let mut pairs: Vec<(String, String)> = Vec::new();
    let mut i: usize = 0;
    while i < bib.authors().len()
        invariant
            i <= bib.author_index().len(),
            pairs@.len() == i,
            forall|j: int| 0 <= j < i ==> pairs@[j].0@ == bib.author_index()[j].key@ && pairs@[j].1@ == bib.author_index()[j].label@,
        decreases bib.author_index().len() - i,
    {
        pairs.push((bib.authors()[i].key.clone(), bib.authors()[i].label.clone()));
        i = i + 1;
    }
    let ghost pv0 = pairs@.map_values(|p: (String, String)| (p.0@, p.1@));
    assert(pv0 =~= author_pairs(bib.author_index()));
    let sorted = sort_by_key(pairs);
    let ghost s = sorted@.map_values(|p: (String, String)| (p.0@, p.1@));
    proof {
        let f = |p: (String, String)| (p.0@, p.1@);
        lemma_stable_sorted_map(pairs@, key_of::<(String, String)>(), f, pair_name());
        assert(pairs@.map_values(f) =~= pv0);
        assert(s =~= sorted@.map_values(f));
        crate::sort::lemma_to_multiset_map_values(sorted@, pairs@, |p: (String, String)| (p.0@, p.1@));
        assert forall|a: int, b: int| 0 <= a < b < s.len() implies !seq_lt(#[trigger] s[b].1, #[trigger] s[a].1) by {
            assert(s[b].1 == sorted@[b].sort_key());
            assert(s[a].1 == sorted@[a].sort_key());
        }
    }
    let mut entries: Vec<NavigationEntry> = Vec::new();
    let mut k: usize = 0;
    while k < sorted.len()
        invariant
            s == sorted@.map_values(|p: (String, String)| (p.0@, p.1@)),
            k <= sorted@.len(),
            entries@.len() == k,
            forall|j: int| 0 <= j < k ==> entries@[j]@ == author_nav(j, s[j]),
        decreases sorted@.len() - k,
    {
        let (id, name) = (&sorted[k].0, &sorted[k].1);
        entries.push(nav(crate::text::usize_to_decimal(k), name.clone(), concat2("/opds/filter/authors/", id.as_str())));
        k = k + 1;
    }
    let ghost ev = entries@;
    let f = NavigationCatalog::build(
        owned("authors"),
        owned("Authors"),
        CatalogLocations { current: owned("/opds/filter/authors"), parent: Some(owned("/opds")) },
        entries,
    );
    assert(entries_of(ev) =~= nav_entries(author_navs(s)));
    f
}

/// Items listed by a catalog: sorted by title, each the item of the map under its id.
pub open spec fn item_listing(s: Seq<(u64, ResearchItemView)>, items: Map<u64, ResearchItemView>) -> bool {
    &&& forall|i: int, j: int| 0 <= i < j < s.len() ==> !seq_lt(#[trigger] s[j].1.title, #[trigger] s[i].1.title)
    &&& forall|i: int| 0 <= i < s.len() ==> items.contains_key(#[trigger] s[i].0) && s[i].1 == items[s[i].0]
}

/// The ids of listed items, in order.
pub open spec fn listed_ids(s: Seq<(u64, ResearchItemView)>) -> Seq<u64> {
    s.map_values(|p: (u64, ResearchItemView)| p.0)
}

/// The acquisition entries of listed items.
pub open spec fn listed_entries(s: Seq<(u64, ResearchItemView)>) -> Seq<EntryView> {
    s.map_values(|p: (u64, ResearchItemView)| item_entry(p.1))
}

/// The views of (id, item) pairs.
pub open spec fn pair_views(v: Seq<(u64, ResearchItem)>) -> Seq<(u64, ResearchItemView)> {
    v.map_values(|p: (u64, ResearchItem)| (p.0, p.1@))
}

/// The title of a listed item.
pub open spec fn item_title() -> spec_fn((u64, ResearchItemView)) -> Seq<char> {
    |p: (u64, ResearchItemView)| p.1.title
}

/// Sorts (id, item) pairs by title, stably, and keeps the items.
fn sort_listing(
    v: Vec<(u64, ResearchItem)>,
    Ghost(items): Ghost<Map<u64, ResearchItemView>>,
) -> (r: Vec<ResearchItem>)
    requires
        forall|i: int| 0 <= i < v@.len() ==> items.contains_key(#[trigger] v@[i].0) && v@[i].1@ == items[v@[i].0],
    ensures
        item_listing(stable_sorted(pair_views(v@), item_title()), items),
        listed_ids(stable_sorted(pair_views(v@), item_title())).to_multiset()
            == listed_ids(pair_views(v@)).to_multiset(),
        entries_of(r@) == listed_entries(stable_sorted(pair_views(v@), item_title())),
{
    let sorted = sort_by_key(v);
    let ghost s = pair_views(sorted@);
    proof {
        let f = |p: (u64, ResearchItem)| (p.0, p.1@);
        lemma_stable_sorted_map(v@, key_of::<(u64, ResearchItem)>(), f, item_title());
        assert(pair_views(v@) =~= v@.map_values(f));
        assert(s =~= sorted@.map_values(f));
        crate::sort::lemma_to_multiset_map_values(sorted@, v@, |p: (u64, ResearchItem)| p.0);
        assert(listed_ids(s) =~= sorted@.map_values(|p: (u64, ResearchItem)| p.0));
        assert(listed_ids(pair_views(v@)) =~= v@.map_values(|p: (u64, ResearchItem)| p.0));
        assert forall|a: int, b: int| 0 <= a < b < s.len() implies !seq_lt(#[trigger] s[b].1.title, #[trigger] s[a].1.title) by {
            assert(s[b].1.title == sorted@[b].sort_key());
            assert(s[a].1.title == sorted@[a].sort_key());
        }
        assert forall|i: int| 0 <= i < s.len() implies items.contains_key(#[trigger] s[i].0) && s[i].1 == items[s[i].0] by {
            let x = sorted@[i];
            assert(sorted@.to_multiset().count(x) > 0);
            assert(v@.to_multiset().count(x) > 0);
            assert(v@.contains(x));
            let q = choose|q: int| 0 <= q < v@.len() && v@[q] == x;
        }
    }
    let mut out: Vec<ResearchItem> = Vec::new();
    let ghost sv = sorted@;
    for p in it: sorted
        invariant
            it.seq() == sv,
            out@.len() == it.index(),
            forall|j: int| 0 <= j < it.index() ==> #[trigger] out@[j]@ == sv[j].1@,
    {
        assert(p == sv[it.index() as int]);
        let (_, item) = p;
        out.push(item);
    }
    assert(entries_of(out@) =~= listed_entries(s));
    out
}

/// The catalog of all items sorted by title (`/opds/sort/name`): each item once.
pub fn catalog_by_name(bib: &CachedBibliography) -> (f: AtomFeed)
    ensures
        exists|s: Seq<(u64, ResearchItemView)>|
            item_listing(s, crate::bib::items_view(bib.items_map()))
            && listed_ids(s).no_duplicates()
            && (forall|k: u64| bib.items_map().contains_key(k) <==> listed_ids(s).contains(k))
            && f@ == catalog_feed("alphabetical"@, "Alphabetically"@,
                locations("/opds/sort/name"@, Some("/opds"@)), listed_entries(s), "acquisition"@),
        f@.links == by_name_links(),
{
    proof {
        use_type_invariant(bib);
    }
    let ghost items = crate::bib::items_view(bib.items_map());
    let mut pairs: Vec<(u64, ResearchItem)> = Vec::new();
    for (k, item) in it: bib.research_items().iter()
        invariant
            items == crate::bib::items_view(bib.items_map()),
            it.seq().no_duplicates(),
            forall|p: int| 0 <= p < it.seq().len() ==>
                bib.items_map().contains_key(*it.seq()[p].0)
                && bib.items_map()[*it.seq()[p].0] == *it.seq()[p].1,
            forall|x: u64| #[trigger] bib.items_map().contains_key(x) ==>
                exists|p: int| 0 <= p < it.seq().len() && *it.seq()[p].0 == x,
            pairs@.len() == it.index(),
            forall|p: int| 0 <= p < it.index() ==> #[trigger] pairs@[p].0 == *it.seq()[p].0
                && pairs@[p].1@ == (*it.seq()[p].1)@,
            it.index() == it.seq().len() ==> (listed_ids(pair_views(pairs@)).no_duplicates()
                && forall|x: u64| #[trigger] bib.items_map().contains_key(x) <==> listed_ids(pair_views(pairs@)).contains(x)),
    {
        let ghost i = it.index() as int;
        assert(*k == *it.seq()[i].0);
        assert(*item == *it.seq()[i].1);
        let ghost before = pairs@;
        pairs.push((*k, item.clone()));
        assert(pairs@[i].0 == *it.seq()[i].0 && pairs@[i].1@ == (*it.seq()[i].1)@);
        assert(forall|p: int| 0 <= p < i ==> pairs@[p] == before[p]);
        assert forall|p: int| 0 <= p < i + 1 implies #[trigger] pairs@[p].0 == *it.seq()[p].0
            && pairs@[p].1@ == (*it.seq()[p].1)@ by {
            if p < i {
                assert(pairs@[p] == before[p]);
            }
        }
        assert(listed_ids(pair_views(pairs@)).no_duplicates()) by {
            let ids = listed_ids(pair_views(pairs@));
            let sq = it.seq();
            assert forall|a: int, b: int| 0 <= a < b < ids.len() implies ids[a] != ids[b] by {
                assert(ids[a] == *sq[a].0);
                assert(ids[b] == *sq[b].0);
                if ids[a] == ids[b] {
                    assert(*sq[a].1 == *sq[b].1);
                    assert(sq[a] == sq[b]);
                }
            }
        }
        assert(i + 1 == it.seq().len() ==> forall|x: u64| #[trigger] bib.items_map().contains_key(x)
            <==> listed_ids(pair_views(pairs@)).contains(x)) by {
            let ids = listed_ids(pair_views(pairs@));
            if i + 1 == it.seq().len() {
                assert forall|x: u64| #[trigger] bib.items_map().contains_key(x) <==> ids.contains(x) by {
                    if bib.items_map().contains_key(x) {
                        let p = choose|p: int| 0 <= p < it.seq().len() && *it.seq()[p].0 == x;
                        assert(ids[p] == x);
                    }
                    if ids.contains(x) {
                        let p = choose|p: int| 0 <= p < ids.len() && ids[p] == x;
                        assert(ids[p] == *it.seq()[p].0);
                    }
                }
            }
        }
    }
    let ghost pv = pairs@;
    let ghost ids0 = listed_ids(pair_views(pv));
    let entries = sort_listing(pairs, Ghost(items));
    let ghost ev = entries@;
    let f = AcquisitionCatalog::build(
        owned("alphabetical"),
        owned("Alphabetically"),
        CatalogLocations { current: owned("/opds/sort/name"), parent: Some(owned("/opds")) },
        entries,
    );
    proof {
        let s = stable_sorted(pair_views(pv), item_title());
        ids0.lemma_multiset_has_no_duplicates();
        listed_ids(s).lemma_multiset_has_no_duplicates_conv();
        assert forall|k: u64| bib.items_map().contains_key(k) <==> listed_ids(s).contains(k) by {
            assert(ids0.contains(k) <==> ids0.to_multiset().count(k) > 0);
            assert(listed_ids(s).contains(k) <==> listed_ids(s).to_multiset().count(k) > 0);
        }
    }
    f
}

/// The ids among `ids` that the map has an item for, in order.
pub open spec fn known_ids(ids: Seq<u64>, items: Map<u64, ResearchItemView>) -> Seq<u64>
    decreases ids.len(),
{
    if ids.len() == 0 {
        Seq::empty()
    } else if items.contains_key(ids.last()) {
        known_ids(ids.drop_last(), items).push(ids.last())
    } else {
        known_ids(ids.drop_last(), items)
    }
}

/// The (id, item) pairs of the ids that the bibliography has an item for.
fn collect_items(bib: &CachedBibliography, ids: &Vec<u64>) -> (r: Vec<(u64, ResearchItem)>)
    ensures
        forall|i: int| 0 <= i < r@.len() ==> crate::bib::items_view(bib.items_map()).contains_key(#[trigger] r@[i].0)
            && r@[i].1@ == crate::bib::items_view(bib.items_map())[r@[i].0],
        listed_ids(pair_views(r@)) == known_ids(ids@, crate::bib::items_view(bib.items_map())),
        pair_views(r@) == known_pairs(ids@, crate::bib::items_view(bib.items_map())),
{
    proof {
        use_type_invariant(bib);
    }
    let ghost items = crate::bib::items_view(bib.items_map());
    let mut r: Vec<(u64, ResearchItem)> = Vec::new();
    let mut j: usize = 0;
    while j < ids.len()
        invariant
            items == crate::bib::items_view(bib.items_map()),
            j <= ids@.len(),
            forall|i: int| 0 <= i < r@.len() ==> items.contains_key(#[trigger] r@[i].0) && r@[i].1@ == items[r@[i].0],
            listed_ids(pair_views(r@)) == known_ids(ids@.take(j as int), items),
        decreases ids@.len() - j,
    {
        assert(ids@.take(j + 1).drop_last() =~= ids@.take(j as int));
        let id = ids[j];
        match bib.research_items().get(&id) {
            Some(item) => {
                r.push((id, item.clone()));
            },
            None => {},
        }
        j = j + 1;
        assert(listed_ids(pair_views(r@)) =~= known_ids(ids@.take(j as int), items));
    }
    assert(ids@.take(ids@.len() as int) =~= ids@);
    proof {
        let pv = pair_views(r@);
        let kp = known_pairs(ids@, items);
        assert(listed_ids(pv).len() == pv.len());
        assert forall|i: int| 0 <= i < pv.len() implies pv[i] == kp[i] by {
            assert(listed_ids(pv)[i] == pv[i].0);
            assert(pv[i].0 == r@[i].0);
        }
        assert(pv =~= kp);
    }
    r
}

/// The (id, item) pairs of the ids among `ids` that the map has an item for, in order.
pub open spec fn known_pairs(ids: Seq<u64>, items: Map<u64, ResearchItemView>) -> Seq<(u64, ResearchItemView)> {
    known_ids(ids, items).map_values(|k: u64| (k, items[k]))
}

/// The items filed under `key` in an index, sorted by title (stably, from the order
/// in which the index lists their ids).
pub open spec fn filed_items(
    idx: Seq<IndexEntry>,
    key: Seq<char>,
    items: Map<u64, ResearchItemView>,
) -> Seq<(u64, ResearchItemView)> {
    stable_sorted(known_pairs(ids_of(idx, key), items), item_title())
}

/// Finds the entry of an index for a key.
fn find_entry(idx: &Vec<IndexEntry>, key: &str) -> (r: Option<usize>)
    requires
        keys_distinct(idx@),
    ensures
        match r {
            Some(i) => has_key(idx@, key@) && i == crate::index::key_pos(idx@, key@) && i < idx@.len(),
            None => !has_key(idx@, key@),
        },
{
    let mut i: usize = 0;
    while i < idx.len()
        invariant
            keys_distinct(idx@),
            i <= idx@.len(),
            forall|j: int| 0 <= j < i ==> idx@[j].key@ != key@,
        decreases idx@.len() - i,
    {
        if crate::text::str_eq(idx[i].key.as_str(), key) {
            proof {
                crate::index::lemma_key_pos(idx@, i as int);
            }
            return Some(i);
        }
        i = i + 1;
    }
    None
}

/// The items filed under `key` in an index, sorted by title: an item once per
/// filing (an item filed twice under one author appears twice).
pub open spec fn filed_listing(
    s: Seq<(u64, ResearchItemView)>,
    idx: Seq<IndexEntry>,
    key: Seq<char>,
    items: Map<u64, ResearchItemView>,
) -> bool {
    &&& item_listing(s, items)
    &&& listed_ids(s).to_multiset() == known_ids(ids_of(idx, key), items).to_multiset()
}

/// The catalog of one author's items (`/opds/filter/authors/{id}`), sorted by title;
/// `AuthorNotFound` where no author has the id.
pub fn catalog_filter_author(bib: &CachedBibliography, id: &str) -> (r: Result<AtomFeed, CatalogError>)
    ensures
        match r {
            Err(e) => e == CatalogError::AuthorNotFound && !has_key(bib.author_index(), id@),
            Ok(f) => has_key(bib.author_index(), id@)
                && filed_listing(filed_items(bib.author_index(), id@, crate::bib::items_view(bib.items_map())),
                    bib.author_index(), id@, crate::bib::items_view(bib.items_map()))
                && f@ == catalog_feed("authors/"@ + id@, label_of(bib.author_index(), id@),
                    locations("/opds/filter/authors/"@ + id@, Some("/opds/filter/authors"@)),
                    listed_entries(filed_items(bib.author_index(), id@, crate::bib::items_view(bib.items_map()))),
                    "acquisition"@),
        },
{
    proof {
        use_type_invariant(bib);
    }
    let pos = match find_entry(bib.authors(), id) {
        Some(p) => p,
        None => return Err(CatalogError::AuthorNotFound),
    };
    let entry = &bib.authors()[pos];
    let ghost items = crate::bib::items_view(bib.items_map());
    let pairs = collect_items(bib, &entry.item_ids);
    let ghost pv0 = pairs@;
    let ghost ids0 = listed_ids(pair_views(pv0));
    let entries = sort_listing(pairs, Ghost(items));
    let ghost ev = entries@;
    proof {
        let s = stable_sorted(pair_views(pv0), item_title());
        assert(ids_of(bib.author_index(), id@) == entry.item_ids@);
        assert(filed_listing(s, bib.author_index(), id@, items));
    }
    let f = AcquisitionCatalog::build(
        concat2("authors/", id),
        entry.label.clone(),
        CatalogLocations {
            current: concat2("/opds/filter/authors/", id),
            parent: Some(owned("/opds/filter/authors")),
        },
        entries,
    );
    Ok(f)
}

/// The catalog of the items with one tag (`/opds/filter/tags/{id}`), sorted by
/// title; `TagNotFound` where no item has the tag.
pub fn catalog_filter_tag(bib: &CachedBibliography, id: &str) -> (r: Result<AtomFeed, CatalogError>)
    ensures
        match r {
            Err(e) => e == CatalogError::TagNotFound && !has_key(bib.tag_index(), id@),
            Ok(f) => has_key(bib.tag_index(), id@)
                && filed_listing(filed_items(bib.tag_index(), id@, crate::bib::items_view(bib.items_map())),
                    bib.tag_index(), id@, crate::bib::items_view(bib.items_map()))
                && f@ == catalog_feed("tags/"@ + id@, id@,
                    locations("/opds/filter/tags/"@ + id@, Some("/opds/filter/tags"@)),
                    listed_entries(filed_items(bib.tag_index(), id@, crate::bib::items_view(bib.items_map()))),
                    "acquisition"@),
        },
{
    proof {
        use_type_invariant(bib);
    }
    let pos = match find_entry(bib.tags(), id) {
        Some(p) => p,
        None => return Err(CatalogError::TagNotFound),
    };
    let entry = &bib.tags()[pos];
    let ghost items = crate::bib::items_view(bib.items_map());
    let pairs = collect_items(bib, &entry.item_ids);
    let ghost pv0 = pairs@;
    let ghost ids0 = listed_ids(pair_views(pv0));
    let entries = sort_listing(pairs, Ghost(items));
    let ghost ev = entries@;
    proof {
        let s = stable_sorted(pair_views(pv0), item_title());
        assert(ids_of(bib.tag_index(), id@) == entry.item_ids@);
        assert(filed_listing(s, bib.tag_index(), id@, items));
    }
    let f = AcquisitionCatalog::build(
        concat2("tags/", id),
        owned(id),
        CatalogLocations {
            current: concat2("/opds/filter/tags/", id),
            parent: Some(owned("/opds/filter/tags")),
        },
        entries,
    );
    Ok(f)
}

/// The members of the collection structure kept of a base collection, if it is an object.
pub open spec fn structure_members(meta: crate::state::CollectionMetadata) -> Option<Seq<(String, JsonValue)>> {
    match meta.collections_structure {
        Some(v) => v.spec_as_object(),
        None => None,
    }
}

/// The collection structure of the base collection `base`, or why there is none.
pub open spec fn base_members(bib: &CachedBibliography, base: Seq<char>) -> Result<Seq<(String, JsonValue)>, CatalogError> {
    let metas = crate::state::metadata_map(bib.metadata());
    if !metas.contains_key(base) {
        Err(CatalogError::BaseCollectionNotFound)
    } else {
        match structure_members(metas[base]) {
            Some(m) => Ok(m),
            None => Err(CatalogError::CollectionsUnreadable),
        }
    }
}

/// The location of a collection of a base collection.
pub open spec fn collection_location(base: Seq<char>, id: Seq<char>) -> Seq<char> {
    "/opds/filter/collections/"@ + base + "/"@ + id
}

/// The navigation entry of a top-level collection (whose `parent` is the empty
/// string) that has a name.
pub open spec fn top_level_nav(base: Seq<char>, member: (String, JsonValue)) -> Option<NavigationEntryView> {
    let c = member.1;
    if c.spec_index("parent"@).spec_as_str() == Some(Seq::<char>::empty()) {
        match c.spec_index("name"@).spec_as_str() {
            Some(n) => Some(nav_view(member.0@, n, collection_location(base, member.0@))),
            None => None,
        }
    } else {
        None
    }
}

/// The navigation entries of the top-level collections of a structure.
pub open spec fn top_level_navs(base: Seq<char>, members: Seq<(String, JsonValue)>) -> Seq<NavigationEntryView> {
    members.filter_map(|m: (String, JsonValue)| top_level_nav(base, m))
}

/// Finds the metadata of a collection by name.
fn find_collection(list: &Vec<(String, crate::state::CollectionMetadata)>, name: &str) -> (r: Option<usize>)
    requires
        crate::state::names_distinct(list@),
    ensures
        match r {
            Some(i) => i < list@.len() && crate::state::metadata_map(list@).contains_key(name@)
                && crate::state::metadata_map(list@)[name@] == list@[i as int].1,
            None => !crate::state::metadata_map(list@).contains_key(name@),
        },
{
    let mut i: usize = 0;
    while i < list.len()
        invariant
            crate::state::names_distinct(list@),
            i <= list@.len(),
            forall|j: int| 0 <= j < i ==> list@[j].0@ != name@,
        decreases list@.len() - i,
    {
        if crate::text::str_eq(list[i].0.as_str(), name) {
            proof {
                let l = list@;
                assert(l[i as int].0@ == name@);
                let c = choose|c: int| 0 <= c < l.len() && l[c].0@ == name@;
                assert(c == i) by {
                    if c < i {
                    } else if c > i {
                        assert(l[i as int].0@ != l[c].0@);
                    }
                }
            }
            return Some(i);
        }
        i = i + 1;
    }
    None
}

/// The members of the collection structure of a base collection.
fn get_base_members<'a>(bib: &'a CachedBibliography, base: &str) -> (r: Result<&'a Vec<(String, JsonValue)>, CatalogError>)
    ensures
        match r {
            Ok(m) => base_members(bib, base@) == Ok::<Seq<(String, JsonValue)>, CatalogError>(m@),
            Err(e) => base_members(bib, base@) == Err::<Seq<(String, JsonValue)>, CatalogError>(e),
        },
{
    proof {
        use_type_invariant(bib);
    }
    let pos = match find_collection(bib.collections_metadata(), base) {
        Some(p) => p,
        None => return Err(CatalogError::BaseCollectionNotFound),
    };
    match &bib.collections_metadata()[pos].1.collections_structure {
        Some(v) => match v.as_object() {
            Some(m) => Ok(m),
            None => Err(CatalogError::CollectionsUnreadable),
        },
        None => Err(CatalogError::CollectionsUnreadable),
    }
}

/// The catalog of the top-level collections of a base collection
/// (`/opds/filter/collections/{base}`), sorted by name (stably, from the order of
/// the structure's members).
pub fn catalog_filter_collection_base(bib: &CachedBibliography, base: &str) -> (r: Result<AtomFeed, CatalogError>)
    ensures
        match r {
            Err(e) => base_members(bib, base@) == Err::<Seq<(String, JsonValue)>, CatalogError>(e),
            Ok(f) => base_members(bib, base@) is Ok
                && sorted_navigation(stable_sorted(top_level_navs(base@, base_members(bib, base@)->Ok_0), nav_title()),
                    top_level_navs(base@, base_members(bib, base@)->Ok_0))
                && f@ == catalog_feed("collections"@, "Collections"@,
                    locations("/opds/filter/collections/"@ + base@, Some("/opds/filter/collections"@)),
                    nav_entries(stable_sorted(top_level_navs(base@, base_members(bib, base@)->Ok_0), nav_title())),
                    "navigation"@)
                && f@ == base_catalog(bib, base@),
        },
{
    proof {
        use_type_invariant(bib);
    }
    let members = get_base_members(bib, base)?;
    let mut entries: Vec<NavigationEntry> = Vec::new();
    let mut i: usize = 0;
    while i < members.len()
        invariant
            base_members(bib, base@) == Ok::<Seq<(String, JsonValue)>, CatalogError>(members@),
            i <= members@.len(),
            nav_views(entries@) == top_level_navs(base@, members@.take(i as int)),
        decreases members@.len() - i,
    {
        assert(members@.take(i + 1).drop_last() =~= members@.take(i as int));
        let ghost before = entries@;
        let ghost m = members@[i as int];
        let (id, c) = (&members[i].0, &members[i].1);
        let is_top = match c.str_at("parent") {
            Some(p) => p.is_empty(),
            None => false,
        };
        assert(is_top == (m.1.spec_index("parent"@).spec_as_str() == Some(Seq::<char>::empty()))) by {
            match m.1.spec_index("parent"@).spec_as_str() {
                Some(pv) => {
                    if pv.len() == 0 {
                        assert(pv =~= Seq::<char>::empty());
                    }
                },
                None => {},
            }
        }
        if is_top {
            match c.str_at("name") {
                Some(n) => {
                    let loc = crate::text::concat4("/opds/filter/collections/", base, "/", id.as_str());
                    entries.push(nav(id.clone(), owned(n), loc));
                    assert(nav_views(entries@) =~= nav_views(before).push(entries@.last()@));
                    assert(top_level_nav(base@, m) == Some(entries@.last()@));
                },
                None => {
                    assert(top_level_nav(base@, m) is None);
                },
            }
        } else {
            assert(top_level_nav(base@, m) is None);
        }
        i = i + 1;
        assert(nav_views(entries@) =~= top_level_navs(base@, members@.take(i as int)));
    }
    assert(members@.take(members@.len() as int) =~= members@);
    let ghost expected = top_level_navs(base@, members@);
    let sorted = sort_navigation(entries);
    let ghost s = nav_views(sorted@);
    let f = NavigationCatalog::build(
        owned("collections"),
        owned("Collections"),
        CatalogLocations {
            current: concat2("/opds/filter/collections/", base),
            parent: Some(owned("/opds/filter/collections")),
        },
        sorted,
    );
    assert(sorted_navigation(s, expected));
    assert(base_members(bib, base@) is Ok);
    assert(expected == top_level_navs(base@, base_members(bib, base@)->Ok_0));
    assert(f@ == catalog_feed("collections"@, "Collections"@,
        locations("/opds/filter/collections/"@ + base@, Some("/opds/filter/collections"@)),
        nav_entries(s), "navigation"@));
    Ok(f)
}

/// The navigation entry of a subcollection named in a collection's `collections`
/// array: the id must be a string naming a collection of the structure that has a
/// name.
pub open spec fn subcollection_nav(base: Seq<char>, members: Seq<(String, JsonValue)>, e: JsonValue) -> Option<NavigationEntryView> {
    match e.spec_as_str() {
        Some(sid) => match crate::json::lookup(members, sid) {
            Some(sub) => match sub.spec_index("name"@).spec_as_str() {
                Some(n) => Some(nav_view(sid, n, collection_location(base, sid))),
                None => None,
            },
            None => None,
        },
        None => None,
    }
}

/// The navigation entries of the subcollections of a collection, in order.
pub open spec fn subcollection_navs(base: Seq<char>, members: Seq<(String, JsonValue)>, subs: Seq<JsonValue>) -> Seq<NavigationEntryView> {
    subs.filter_map(|e: JsonValue| subcollection_nav(base, members, e))
}

/// The item ids of a collection's `items` array, in order (non-integers skipped).
pub open spec fn collection_item_ids(items: Seq<JsonValue>) -> Seq<u64> {
    items.filter_map(|v: JsonValue| v.spec_as_u64())
}

/// An array member of a JSON value, or the empty array.
pub open spec fn array_or_empty(v: JsonValue, key: Seq<char>) -> Seq<JsonValue> {
    match v.spec_get(key) {
        Some(a) => match a.spec_as_array() {
            Some(s) => s,
            None => Seq::empty(),
        },
        None => Seq::empty(),
    }
}

/// The feed of the collection `id` of the base collection `base`, or why there is none.
/// A collection with subcollections gives a navigation catalog of them; one without
/// gives an acquisition catalog of its items, in the order the collection lists them.
pub open spec fn collection_catalog(bib: &CachedBibliography, base: Seq<char>, id: Seq<char>) -> Result<crate::opds::feed::FeedView, CatalogError> {
    match base_members(bib, base) {
        Err(e) => Err(e),
        Ok(members) => match crate::json::lookup(members, id) {
            None => Err(CatalogError::CollectionNotFound),
            Some(collection) => match collection.spec_index("name"@).spec_as_str() {
                None => Err(CatalogError::CollectionsUnreadable),
                Some(name) => {
                    let subs = array_or_empty(collection, "collections"@);
                    if subs.len() > 0 {
                        Ok(catalog_feed("collections/"@ + id, name,
                            locations(collection_location(base, id), Some("/opds/filter/collections/"@ + base)),
                            nav_entries(subcollection_navs(base, members, subs)), "navigation"@))
                    } else {
                        let items = crate::bib::items_view(bib.items_map());
                        let ids = known_ids(collection_item_ids(array_or_empty(collection, "items"@)), items);
                        Ok(catalog_feed("collections/"@ + id, name,
                            locations(collection_location(base, id), Some("/opds/filter/collections/"@ + base)),
                            ids.map_values(|k: u64| item_entry(items[k])), "acquisition"@))
                    }
                },
            },
        },
    }
}

/// An array member of a JSON value, or the empty array.
fn get_array_or_empty<'a>(v: &'a JsonValue, key: &str) -> (r: Vec<&'a JsonValue>)
    ensures
        r@.map_values(|x: &JsonValue| *x) == array_or_empty(*v, key@),
{
    let mut r: Vec<&JsonValue> = Vec::new();
    match v.get(key) {
        Some(a) => match a.as_array() {
            Some(arr) => {
                let mut i: usize = 0;
                while i < arr.len()
                    invariant
                        i <= arr@.len(),
                        r@.len() == i,
                        forall|j: int| 0 <= j < i ==> *r@[j] == arr@[j],
                    decreases arr@.len() - i,
                {
                    r.push(&arr[i]);
                    i = i + 1;
                }
                assert(r@.map_values(|x: &JsonValue| *x) =~= arr@);
            },
            None => {
                assert(r@.map_values(|x: &JsonValue| *x) =~= Seq::<JsonValue>::empty());
            },
        },
        None => {
            assert(r@.map_values(|x: &JsonValue| *x) =~= Seq::<JsonValue>::empty());
        },
    }
    r
}

/// The catalog of one collection of a base collection
/// (`/opds/filter/collections/{base}/{id}`): its subcollections, or else its items.
pub fn catalog_filter_collection(bib: &CachedBibliography, base: &str, id: &str) -> (r: Result<AtomFeed, CatalogError>)
    ensures
        match r {
            Err(e) => collection_catalog(bib, base@, id@) == Err::<crate::opds::feed::FeedView, CatalogError>(e),
            Ok(f) => collection_catalog(bib, base@, id@) == Ok::<crate::opds::feed::FeedView, CatalogError>(f@),
        },
{
    proof {
        use_type_invariant(bib);
    }
    let members = get_base_members(bib, base)?;
    let collection = match crate::json::get_member(members.as_slice(), id) {
        Some(c) => c,
        None => return Err(CatalogError::CollectionNotFound),
    };
    let subs = get_array_or_empty(collection, "collections");
    let name = match collection.str_at("name") {
        Some(n) => n,
        None => return Err(CatalogError::CollectionsUnreadable),
    };
    let ghost items = crate::bib::items_view(bib.items_map());
    if subs.len() > 0 {
        let ghost sv = subs@.map_values(|x: &JsonValue| *x);
        let mut entries: Vec<NavigationEntry> = Vec::new();
        let mut i: usize = 0;
        while i < subs.len()
            invariant
                sv == subs@.map_values(|x: &JsonValue| *x),
                i <= subs@.len(),
                nav_views(entries@) == subcollection_navs(base@, members@, sv.take(i as int)),
            decreases subs@.len() - i,
        {
            assert(sv.take(i + 1).drop_last() =~= sv.take(i as int));
            let ghost before = entries@;
            match subs[i].as_str() {
                Some(sid) => match crate::json::get_member(members.as_slice(), sid) {
                    Some(sub) => match sub.str_at("name") {
                        Some(n) => {
                            let loc = crate::text::concat4("/opds/filter/collections/", base, "/", sid);
                            entries.push(nav(owned(sid), owned(n), loc));
                            assert(nav_views(entries@) =~= nav_views(before).push(entries@.last()@));
                        },
                        None => {},
                    },
                    None => {},
                },
                None => {},
            }
            i = i + 1;
            assert(nav_views(entries@) =~= subcollection_navs(base@, members@, sv.take(i as int)));
        }
        assert(sv.take(sv.len() as int) =~= sv);
        let ghost ev = entries@;
        let f = NavigationCatalog::build(
            concat2("collections/", id),
            owned(name),
            CatalogLocations {
                current: crate::text::concat4("/opds/filter/collections/", base, "/", id),
                parent: Some(concat2("/opds/filter/collections/", base)),
            },
            entries,
        );
        assert(entries_of(ev) =~= nav_entries(nav_views(ev)));
        Ok(f)
    } else {
        let item_values = get_array_or_empty(collection, "items");
        let ghost iv = item_values@.map_values(|x: &JsonValue| *x);
        let mut ids: Vec<u64> = Vec::new();
        let mut i: usize = 0;
        while i < item_values.len()
            invariant
                iv == item_values@.map_values(|x: &JsonValue| *x),
                i <= item_values@.len(),
                ids@ == collection_item_ids(iv.take(i as int)),
            decreases item_values@.len() - i,
        {
            assert(iv.take(i + 1).drop_last() =~= iv.take(i as int));
            match item_values[i].as_u64() {
                Some(k) => {
                    ids.push(k);
                },
                None => {},
            }
            i = i + 1;
            assert(ids@ =~= collection_item_ids(iv.take(i as int)));
        }
        assert(iv.take(iv.len() as int) =~= iv);
        let pairs = collect_items(bib, &ids);
        let ghost pv = pairs@;
        let mut entries: Vec<ResearchItem> = Vec::new();
        for p in it: pairs
            invariant
                it.seq() == pv,
                entries@.len() == it.index(),
                forall|j: int| 0 <= j < it.index() ==> #[trigger] entries@[j]@ == pv[j].1@,
        {
            assert(p == pv[it.index() as int]);
            let (_, item) = p;
            entries.push(item);
        }
        let ghost ev = entries@;
        let f = AcquisitionCatalog::build(
            concat2("collections/", id),
            owned(name),
            CatalogLocations {
                current: crate::text::concat4("/opds/filter/collections/", base, "/", id),
                parent: Some(concat2("/opds/filter/collections/", base)),
            },
            entries,
        );
        proof {
            let known = known_ids(ids@, items);
            assert(listed_ids(pair_views(pv)) == known);
            assert forall|j: int| 0 <= j < ev.len() implies entries_of(ev)[j] == known.map_values(|k: u64| item_entry(items[k]))[j] by {
                assert(listed_ids(pair_views(pv))[j] == pv[j].0);
            }
            assert(entries_of(ev) =~= known.map_values(|k: u64| item_entry(items[k])));
        }
        Ok(f)
    }
}




/// The entry that the catalog of a collection gives a subcollection named by `e`:
/// the subcollection under its id and name, leading to its catalog.
pub open spec fn subcollection_entry(base: Seq<char>, members: Seq<(String, JsonValue)>, e: JsonValue) -> EntryView {
    navigation_entry(nav_view(
        e.spec_as_str()->0,
        crate::json::lookup(members, e.spec_as_str()->0)->0.spec_index("name"@).spec_as_str()->0,
        collection_location(base, e.spec_as_str()->0)))
}

/// Whether a value of a `collections` array names a collection of the structure
/// that has a name.
pub open spec fn names_subcollection(members: Seq<(String, JsonValue)>, e: JsonValue) -> bool {
    match e.spec_as_str() {
        Some(sid) => match crate::json::lookup(members, sid) {
            Some(sub) => sub.spec_index("name"@).spec_as_str() is Some,
            None => false,
        },
        None => false,
    }
}

/// The catalog of a collection with subcollections has one entry for each value of
/// its whole `collections` array that names a collection of the structure with a
/// name, in the order of the array, and no more: that collection under its id and
/// name, leading to its catalog.
pub proof fn lemma_subcollections_all_listed(bib: &CachedBibliography, base: Seq<char>, id: Seq<char>)
    requires
        base_members(bib, base) is Ok,
        crate::json::lookup(base_members(bib, base)->Ok_0, id) matches Some(c)
            && c.spec_index("name"@).spec_as_str() is Some
            && array_or_empty(c, "collections"@).len() > 0,
    ensures
        collection_catalog(bib, base, id) is Ok,
        ({
            let members = base_members(bib, base)->Ok_0;
            let subs = array_or_empty(crate::json::lookup(members, id)->0, "collections"@);
            let entries = collection_catalog(bib, base, id)->Ok_0.entries;
            &&& entries == subs.filter(|e: JsonValue| names_subcollection(members, e)).map_values(
                |e: JsonValue| subcollection_entry(base, members, e))
            &&& entries.len() == subs.filter(|e: JsonValue| names_subcollection(members, e)).len()
            &&& forall|q: int| 0 <= q < subs.len() && #[trigger] names_subcollection(members, subs[q]) ==>
                entries.contains(navigation_entry(nav_view(
                    subs[q].spec_as_str()->0,
                    crate::json::lookup(members, subs[q].spec_as_str()->0)->0.spec_index("name"@).spec_as_str()->0,
                    collection_location(base, subs[q].spec_as_str()->0))))
        }),
{
    let members = base_members(bib, base)->Ok_0;
    let c = crate::json::lookup(members, id)->0;
    let subs = array_or_empty(c, "collections"@);
    let f = |e: JsonValue| subcollection_nav(base, members, e);
    let pred = |e: JsonValue| names_subcollection(members, e);
    let navs = subcollection_navs(base, members, subs);
    assert(navs == subs.filter_map(f));
    let entries = collection_catalog(bib, base, id)->Ok_0.entries;
    assert(entries == nav_entries(navs));
    crate::seqs::lemma_filter_map_len(subs, f, pred);
    let h = |e: JsonValue| subcollection_entry(base, members, e);
    let h0 = |e: JsonValue| f(e)->0;
    crate::seqs::lemma_filter_map_is_filter(subs, f, pred, h0);
    assert(entries =~= subs.filter(pred).map_values(h)) by {
        let fl = subs.filter(pred);
        assert forall|j: int| 0 <= j < fl.len() implies #[trigger] entries[j] == h(fl[j]) by {
            subs.lemma_filter_pred(pred, j);
            assert(navs[j] == h0(fl[j]));
        }
    }
    assert forall|q: int| 0 <= q < subs.len() && #[trigger] names_subcollection(members, subs[q]) implies
        entries.contains(navigation_entry(nav_view(
            subs[q].spec_as_str()->0,
            crate::json::lookup(members, subs[q].spec_as_str()->0)->0.spec_index("name"@).spec_as_str()->0,
            collection_location(base, subs[q].spec_as_str()->0)))) by {
        crate::seqs::lemma_filter_map_has(subs, f, q);
        let v = f(subs[q])->0;
        let w = choose|w: int| 0 <= w < navs.len() && navs[w] == v;
        assert(entries[w] == navigation_entry(v));
    }
}

/// Whether a member of a structure is a top-level collection with a name.
pub open spec fn is_named_top_level(member: (String, JsonValue)) -> bool {
    &&& member.1.spec_index("parent"@).spec_as_str() == Some(Seq::<char>::empty())
    &&& member.1.spec_index("name"@).spec_as_str() is Some
}

/// The catalog of a base collection has one entry for each top-level collection with
/// a name of its structure, whatever else the collection holds, and no more: that
/// collection under its id and name, leading to its catalog.
pub proof fn lemma_top_level_all_listed(bib: &CachedBibliography, base: Seq<char>)
    requires
        base_members(bib, base) is Ok,
    ensures
        ({
            let members = base_members(bib, base)->Ok_0;
            let entries = base_catalog(bib, base).entries;
            &&& entries.len() == members.filter(|m: (String, JsonValue)| is_named_top_level(m)).len()
            &&& forall|i: int| 0 <= i < members.len() && #[trigger] is_named_top_level(members[i]) ==>
                entries.contains(navigation_entry(nav_view(
                    members[i].0@,
                    members[i].1.spec_index("name"@).spec_as_str()->0,
                    collection_location(base, members[i].0@))))
        }),
{
    broadcast use vstd::seq_lib::group_to_multiset_ensures;
    let members = base_members(bib, base)->Ok_0;
    let f = |m: (String, JsonValue)| top_level_nav(base, m);
    let pred = |m: (String, JsonValue)| is_named_top_level(m);
    let navs = top_level_navs(base, members);
    assert(navs == members.filter_map(f));
    let sorted = stable_sorted(navs, nav_title());
    crate::sort::lemma_stable_sorted_same_elements(navs, nav_title());
    let entries = base_catalog(bib, base).entries;
    assert(entries == nav_entries(sorted));
    crate::seqs::lemma_filter_map_len(members, f, pred);
    assert forall|i: int| 0 <= i < members.len() && #[trigger] is_named_top_level(members[i]) implies
        entries.contains(navigation_entry(nav_view(
            members[i].0@,
            members[i].1.spec_index("name"@).spec_as_str()->0,
            collection_location(base, members[i].0@)))) by {
        crate::seqs::lemma_filter_map_has(members, f, i);
        let v = f(members[i])->0;
        assert(navs.to_multiset().count(v) > 0);
        assert(sorted.contains(v));
        let w = choose|w: int| 0 <= w < sorted.len() && sorted[w] == v;
        assert(entries[w] == navigation_entry(v));
    }
}

/// Each entry of the root catalog leads to the catalog it names: its location is
/// where that catalog is served (the href of the catalog's `self` link), whatever
/// the bibliography; and no two entries lead to the same place.
pub proof fn lemma_root_entries_lead_to_their_catalogs(bib: &CachedBibliography)
    ensures
        root_entries().len() == 4,
        root_entries()[0].id == "alphabetical"@ && root_entries()[0].location == by_name_links()[0].href,
        root_entries()[1].id == "authors"@ && root_entries()[1].location == authors_catalog(bib).links[0].href,
        root_entries()[2].id == "collections"@
            && root_entries()[2].location == collections_catalog(bib).links[0].href,
        root_entries()[3].id == "tags"@ && root_entries()[3].location == tags_catalog(bib).links[0].href,
        forall|i: int, j: int| 0 <= i < j < root_entries().len()
            ==> root_entries()[i].location != root_entries()[j].location,
{
    reveal_strlit("/opds/sort/name");
    reveal_strlit("/opds/filter/authors");
    reveal_strlit("/opds/filter/collections");
    reveal_strlit("/opds/filter/tags");
    let r = root_entries();
    assert(r[0].location.len() == 15);
    assert(r[1].location.len() == 20);
    assert(r[2].location.len() == 24);
    assert(r[3].location.len() == 17);
}

/// An element of a sequence is among its stably sorted elements.
proof fn lemma_sorted_keeps<A>(s: Seq<A>, key: spec_fn(A) -> Seq<char>, i: int)
    requires
        0 <= i < s.len(),
    ensures
        stable_sorted(s, key).contains(s[i]),
{
    broadcast use vstd::seq_lib::group_to_multiset_ensures;
    crate::sort::lemma_stable_sorted_same_elements(s, key);
    assert(s.contains(s[i]));
    assert(s.to_multiset().count(s[i]) > 0);
}

/// The catalog of all tags has one entry per tag of the tag index, and each tag has
/// its entry, leading to the tag's catalog.
pub proof fn lemma_tags_catalog_lists_every_tag(bib: &CachedBibliography)
    ensures
        tags_catalog(bib).entries.len() == bib.tag_index().len(),
        forall|i: int| 0 <= i < bib.tag_index().len() ==> tags_catalog(bib).entries.contains(navigation_entry(
            nav_view(#[trigger] bib.tag_index()[i].key@, bib.tag_index()[i].key@,
                "/opds/filter/tags/"@ + bib.tag_index()[i].key@))),
{
    let navs = tag_navs(bib);
    let sorted = stable_sorted(navs, nav_title());
    crate::sort::lemma_stable_sorted_same_elements(navs, nav_title());
    let entries = tags_catalog(bib).entries;
    assert(entries == nav_entries(sorted));
    assert forall|i: int| 0 <= i < bib.tag_index().len() implies entries.contains(navigation_entry(
        nav_view(#[trigger] bib.tag_index()[i].key@, bib.tag_index()[i].key@,
            "/opds/filter/tags/"@ + bib.tag_index()[i].key@))) by {
        lemma_sorted_keeps(navs, nav_title(), i);
        let w = choose|w: int| 0 <= w < sorted.len() && sorted[w] == navs[i];
        assert(entries[w] == navigation_entry(sorted[w]));
    }
}

/// The catalog of all base collections has one entry per collection of the
/// bibliography, and each collection has its entry, leading to the collection's
/// catalog.
pub proof fn lemma_collections_catalog_lists_every_collection(bib: &CachedBibliography)
    ensures
        collections_catalog(bib).entries.len() == bib.metadata().len(),
        forall|i: int| 0 <= i < bib.metadata().len() ==> collections_catalog(bib).entries.contains(navigation_entry(
            nav_view(#[trigger] bib.metadata()[i].0@, bib.metadata()[i].0@,
                "/opds/filter/collections/"@ + bib.metadata()[i].0@))),
{
    let navs = collection_navs(bib);
    let sorted = stable_sorted(navs, nav_title());
    crate::sort::lemma_stable_sorted_same_elements(navs, nav_title());
    let entries = collections_catalog(bib).entries;
    assert(entries == nav_entries(sorted));
    assert forall|i: int| 0 <= i < bib.metadata().len() implies entries.contains(navigation_entry(
        nav_view(#[trigger] bib.metadata()[i].0@, bib.metadata()[i].0@,
            "/opds/filter/collections/"@ + bib.metadata()[i].0@))) by {
        lemma_sorted_keeps(navs, nav_title(), i);
        let w = choose|w: int| 0 <= w < sorted.len() && sorted[w] == navs[i];
        assert(entries[w] == navigation_entry(sorted[w]));
    }
}

/// The catalog of all authors has one entry per author of the author index, and each
/// author has an entry titled with the author's name, leading to the author's catalog.
pub proof fn lemma_authors_catalog_lists_every_author(bib: &CachedBibliography)
    ensures
        authors_catalog(bib).entries.len() == bib.author_index().len(),
        forall|i: int| 0 <= i < bib.author_index().len() ==> exists|j: int|
            0 <= j < authors_catalog(bib).entries.len()
            && authors_catalog(bib).entries[j].title == (#[trigger] bib.author_index()[i]).label@
            && authors_catalog(bib).entries[j].links[0].href == "/opds/filter/authors/"@ + bib.author_index()[i].key@,
{
    let pairs = author_pairs(bib.author_index());
    let sorted = sorted_authors(bib);
    crate::sort::lemma_stable_sorted_same_elements(pairs, pair_name());
    let entries = authors_catalog(bib).entries;
    assert(entries == nav_entries(author_navs(sorted)));
    assert forall|i: int| 0 <= i < bib.author_index().len() implies exists|j: int|
        0 <= j < entries.len()
        && entries[j].title == (#[trigger] bib.author_index()[i]).label@
        && entries[j].links[0].href == "/opds/filter/authors/"@ + bib.author_index()[i].key@ by {
        lemma_sorted_keeps(pairs, pair_name(), i);
        let w = choose|w: int| 0 <= w < sorted.len() && sorted[w] == pairs[i];
        assert(entries[w] == navigation_entry(author_nav(w, sorted[w])));
    }
}

/// Whether a value of a collection's `items` array is the id of an item of the
/// bibliography.
pub open spec fn names_known_item(items: Map<u64, ResearchItemView>, x: JsonValue) -> bool {
    x.spec_as_u64() matches Some(k) && items.contains_key(k)
}

/// The known item ids among the integer values of an array, in order.
proof fn lemma_known_item_ids(arr: Seq<JsonValue>, items: Map<u64, ResearchItemView>)
    ensures
        known_ids(collection_item_ids(arr), items)
            == arr.filter(|x: JsonValue| names_known_item(items, x)).map_values(|x: JsonValue| x.spec_as_u64()->0),
    decreases arr.len(),
{
    reveal(Seq::filter);
    if arr.len() > 0 {
        let rest = arr.drop_last();
        let x = arr.last();
        lemma_known_item_ids(rest, items);
        let ids = collection_item_ids(rest);
        let fl = rest.filter(|x: JsonValue| names_known_item(items, x));
        let g = |x: JsonValue| x.spec_as_u64()->0;
        match x.spec_as_u64() {
            Some(k) => {
                assert(collection_item_ids(arr) == ids + seq![k]);
                assert((ids + seq![k]).drop_last() =~= ids);
                if items.contains_key(k) {
                    assert(fl.push(x).map_values(g) =~= fl.map_values(g).push(k));
                }
            },
            None => {
                assert(collection_item_ids(arr) == ids);
            },
        }
    }
}

/// The catalog of a collection without subcollections lists, in the order of its
/// `items` array, the item of each value that is the id of an item of the
/// bibliography, and nothing else.
pub proof fn lemma_collection_items_all_listed(bib: &CachedBibliography, base: Seq<char>, id: Seq<char>)
    requires
        base_members(bib, base) is Ok,
        crate::json::lookup(base_members(bib, base)->Ok_0, id) matches Some(c)
            && c.spec_index("name"@).spec_as_str() is Some
            && array_or_empty(c, "collections"@).len() == 0,
    ensures
        collection_catalog(bib, base, id) is Ok,
        ({
            let items = crate::bib::items_view(bib.items_map());
            let arr = array_or_empty(crate::json::lookup(base_members(bib, base)->Ok_0, id)->0, "items"@);
            collection_catalog(bib, base, id)->Ok_0.entries
                == arr.filter(|x: JsonValue| names_known_item(items, x)).map_values(
                    |x: JsonValue| item_entry(items[x.spec_as_u64()->0]))
        }),
{
    let items = crate::bib::items_view(bib.items_map());
    let c = crate::json::lookup(base_members(bib, base)->Ok_0, id)->0;
    let arr = array_or_empty(c, "items"@);
    lemma_known_item_ids(arr, items);
    let fl = arr.filter(|x: JsonValue| names_known_item(items, x));
    let known = known_ids(collection_item_ids(arr), items);
    let entries = collection_catalog(bib, base, id)->Ok_0.entries;
    assert(entries == known.map_values(|k: u64| item_entry(items[k])));
    assert(entries =~= fl.map_values(|x: JsonValue| item_entry(items[x.spec_as_u64()->0])));
}

} // verus!
