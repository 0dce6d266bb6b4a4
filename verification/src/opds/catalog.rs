//! Building OPDS catalog feeds.

use vstd::prelude::*;

use crate::item::opt_view;
use crate::opds::entry::OpdsEntry;
use crate::opds::feed::{AtomEntry, EntryView, AtomFeed, FeedView, AtomLink, LinkView};
use crate::text::{concat2, owned};

verus! {

/// The MIME type of an OPDS catalog of the given kind.
pub open spec fn mime_type_of(kind: Seq<char>) -> Seq<char> {
    "application/atom+xml;profile=opds-catalog;kind="@ + kind
}

/// Builds the MIME type for an OPDS catalog.
pub fn build_mime_type(kind: &str) -> (r: Option<String>)
    ensures
        r is Some,
        r->0@ == mime_type_of(kind@),
{
    Some(concat2("application/atom+xml;profile=opds-catalog;kind=", kind))
}

/// The links of a catalog: `self` (typed as a navigation catalog), `start`
/// (the root, `/opds`), and `up` where there is a parent.
pub open spec fn catalog_links(current: Seq<char>, parent: Option<Seq<char>>, kind: Seq<char>) -> Seq<LinkView> {
    let base = seq![
        LinkView { rel: "self"@, href: current, mime_type: Some(mime_type_of("navigation"@)) },
        LinkView { rel: "start"@, href: "/opds"@, mime_type: Some(mime_type_of(kind)) },
    ];
    match parent {
        Some(p) => base.push(LinkView { rel: "up"@, href: p, mime_type: Some(mime_type_of(kind)) }),
        None => base,
    }
}

/// Builds a vector of links for an OPDS catalog.
pub fn build_links(current: &str, parent: Option<&str>, kind: &str) -> (r: Vec<AtomLink>)
    ensures
        crate::opds::feed::links_view(r@) == catalog_links(
            current@,
            match parent {
                Some(p) => Some(p@),
                None => None,
            },
            kind@,
        ),
{
    let mut links: Vec<AtomLink> = Vec::new();
    links.push(AtomLink { rel: owned("self"), href: owned(current), mime_type: build_mime_type("navigation") });
    links.push(AtomLink { rel: owned("start"), href: owned("/opds"), mime_type: build_mime_type(kind) });
    match parent {
        Some(p) => {
            links.push(AtomLink { rel: owned("up"), href: owned(p), mime_type: build_mime_type(kind) });
        },
        None => {},
    }
    proof {
        let pv = match parent {
            Some(p) => Some(p@),
            None => None,
        };
        assert(crate::opds::feed::links_view(links@) =~= catalog_links(current@, pv, kind@));
    }
    links
}

/// The abstract value of catalog locations.
pub struct CatalogLocationsView {
    pub current: Seq<char>,
    pub parent: Option<Seq<char>>,
}

/// Represents the locations of an OPDS catalog.
#[derive(Debug)]
pub struct CatalogLocations {
    /// The current URL of the catalog.
    pub current: String,
    /// The optional parent URL of the catalog.
    pub parent: Option<String>,
}

impl View for CatalogLocations {
    type V = CatalogLocationsView;

    open spec fn view(&self) -> CatalogLocationsView {
        CatalogLocationsView { current: self.current@, parent: opt_view(self.parent) }
    }
}

impl Clone for CatalogLocations {
    fn clone(&self) -> (r: Self)
        ensures
            r@ == self@,
    {
        CatalogLocations {
            current: self.current.clone(),
            parent: match &self.parent {
                Some(p) => Some(p.clone()),
                None => None,
            },
        }
    }
}

/// The catalog feed with the given id, title, locations, entries and kind.
pub open spec fn catalog_feed(
    id: Seq<char>,
    title: Seq<char>,
    location: CatalogLocationsView,
    entries: Seq<EntryView>,
    kind: Seq<char>,
) -> FeedView {
    FeedView {
        title: title,
        id: id,
        links: catalog_links(location.current, location.parent, kind),
        entries: entries,
    }
}

/// The OPDS entries of a sequence of values.
pub open spec fn entries_of<E: OpdsEntry>(entries: Seq<E>) -> Seq<EntryView> {
    entries.map_values(|e: E| e.spec_to_opds())
}

/// A trait for building OPDS catalogs from entries.
pub trait OpdsCatalog<E: OpdsEntry> {
    /// The kind of catalog this builds (`navigation` or `acquisition`).
    spec fn spec_kind() -> Seq<char>;

    /// Builds an OPDS catalog feed from a list of entries.
    fn build(id: String, title: String, location: CatalogLocations, entries: Vec<E>) -> (f: AtomFeed)
        ensures
            f@ == catalog_feed(id@, title@, location@, entries_of(entries@), Self::spec_kind()),
    ;

    /// A helper function for building an OPDS catalog feed from a list of entries:
    /// the feed's title, id and links, and one OPDS entry per value, in order.
    fn _build(id: String, title: String, location: CatalogLocations, entries: Vec<E>, kind: &str) -> (f: AtomFeed)
        ensures
            f@ == catalog_feed(id@, title@, location@, entries_of(entries@), kind@),
    {
        let parent: Option<&str> = match &location.parent {
            Some(p) => Some(p.as_str()),
            None => None,
        };
        let links = build_links(location.current.as_str(), parent, kind);
        let mut out: Vec<AtomEntry> = Vec::new();
        let mut i: usize = 0;
        while i < entries.len()
            invariant
                i <= entries@.len(),
                out@.len() == i,
                forall|j: int| 0 <= j < i ==> out@[j]@ == entries@[j].spec_to_opds(),
            decreases entries@.len() - i,
        {
            out.push(entries[i].to_opds());
            i = i + 1;
        }
        let f = AtomFeed { title, id, links, entries: out };
        assert(f@.entries =~= entries_of(entries@));
        f
    }
}

/// A struct representing a navigation catalog.
pub struct NavigationCatalog;

impl OpdsCatalog<crate::opds::entry::NavigationEntry> for NavigationCatalog {
    open spec fn spec_kind() -> Seq<char> {
        "navigation"@
    }

    /// Builds a navigation catalog feed from a list of entries.
    fn build(
        id: String,
        title: String,
        location: CatalogLocations,
        entries: Vec<crate::opds::entry::NavigationEntry>,
    ) -> (f: AtomFeed) {
        NavigationCatalog::_build(id, title, location, entries, "navigation")
    }
}

/// A struct representing an acquisition catalog.
pub struct AcquisitionCatalog;

impl OpdsCatalog<crate::item::ResearchItem> for AcquisitionCatalog {
    open spec fn spec_kind() -> Seq<char> {
        "acquisition"@
    }

    /// Builds an acquisition catalog feed from a list of entries.
    fn build(
        id: String,
        title: String,
        location: CatalogLocations,
        entries: Vec<crate::item::ResearchItem>,
    ) -> (f: AtomFeed) {
        AcquisitionCatalog::_build(id, title, location, entries, "acquisition")
    }
}

} // verus!
