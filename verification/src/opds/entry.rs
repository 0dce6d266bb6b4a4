//! Entries of OPDS catalogs: research items (acquisition entries) and
//! navigation entries.

use vstd::prelude::*;

use crate::item::{file_url, opt_view, AuthorView, FileView, ResearchItem, ResearchItemView};
use crate::opds::catalog::{build_mime_type, mime_type_of};
use crate::opds::feed::{Content, ContentView, AtomEntry, EntryView, AtomLink, LinkView};
use crate::text::{concat3, owned};

verus! {

/// The relation of acquisition links.
pub open spec fn acquisition_rel() -> Seq<char> {
    "http://opds-spec.org/acquisition"@
}

/// A trait for converting entries to OPDS format.
pub trait OpdsEntry {
    /// The OPDS entry of this value.
    spec fn spec_to_opds(&self) -> EntryView;

    /// Converts an entry to an OPDS `Entry`.
    fn to_opds(&self) -> (e: AtomEntry)
        ensures
            e@ == self.spec_to_opds(),
    ;
}

/// The name under which an author appears in an entry: `first last`.
pub open spec fn person_name(a: AuthorView) -> Seq<char> {
    a.first_name + " "@ + a.last_name
}

/// The acquisition link of a file of the item `item_id`.
pub open spec fn acquisition_link(f: FileView, item_id: Seq<char>) -> LinkView {
    LinkView { rel: acquisition_rel(), href: file_url(f, item_id), mime_type: Some(f.mime_type) }
}

/// The OPDS entry of a research item: its title, id and summary, its authors'
/// names, and one acquisition link per file.
pub open spec fn item_entry(it: ResearchItemView) -> EntryView {
    EntryView {
        title: it.title,
        id: it.id,
        summary: it.summary,
        authors: it.authors.map_values(|a: AuthorView| person_name(a)),
        links: it.files.map_values(|f: FileView| acquisition_link(f, it.id)),
        content: None,
    }
}

impl OpdsEntry for ResearchItem {
    open spec fn spec_to_opds(&self) -> EntryView {
        item_entry(self@)
    }

    /// Converts a `ResearchItem` to an OPDS `Entry`.
    fn to_opds(&self) -> (e: AtomEntry) {
        let mut authors: Vec<String> = Vec::new();
        let mut i: usize = 0;
        while i < self.authors.len()
            invariant
                i <= self.authors@.len(),
                authors@.len() == i,
                forall|j: int| 0 <= j < i ==> authors@[j]@ == person_name(self.authors@[j]@),
            decreases self.authors@.len() - i,
        {
            let a = &self.authors[i];
            authors.push(concat3(a.first_name.as_str(), " ", a.last_name.as_str()));
            i = i + 1;
        }
        let mut links: Vec<AtomLink> = Vec::new();
        let mut j: usize = 0;
        while j < self.files.len()
            invariant
                j <= self.files@.len(),
                links@.len() == j,
                forall|q: int| 0 <= q < j ==> links@[q]@ == acquisition_link(self.files@[q]@, self.id@),
            decreases self.files@.len() - j,
        {
            let f = &self.files[j];
            links.push(AtomLink {
                rel: owned("http://opds-spec.org/acquisition"),
                href: f.get_url(self.id.as_str()),
                mime_type: Some(f.mime_type.clone()),
            });
            j = j + 1;
        }
        let e = AtomEntry {
            title: self.title.clone(),
            id: self.id.clone(),
            summary: match &self.summary {
                Some(s) => Some(s.clone()),
                None => None,
            },
            authors,
            links,
            content: None,
        };
        assert(e@.authors =~= item_entry(self@).authors);
        assert(e@.links =~= item_entry(self@).links);
        e
    }
}

/// Represents a navigation entry in an OPDS catalog.
#[derive(Debug)]
pub struct NavigationEntry {
    /// A unique identifier for the entry.
    pub id: String,
    /// The title of the entry.
    pub title: String,
    /// A description of the entry.
    pub description: Option<String>,
    /// The location URL of the entry.
    pub location: String,
}

/// The abstract value of a navigation entry.
pub struct NavigationEntryView {
    pub id: Seq<char>,
    pub title: Seq<char>,
    pub description: Option<Seq<char>>,
    pub location: Seq<char>,
}

impl View for NavigationEntry {
    type V = NavigationEntryView;

    open spec fn view(&self) -> NavigationEntryView {
        NavigationEntryView {
            id: self.id@,
            title: self.title@,
            description: opt_view(self.description),
            location: self.location@,
        }
    }
}

/// The OPDS entry of a navigation entry: its title and id, its description as
/// text content, and one link (relation `alternate`) to its location, typed as an
/// acquisition catalog.
pub open spec fn navigation_entry(n: NavigationEntryView) -> EntryView {
    EntryView {
        title: n.title,
        id: n.id,
        summary: None,
        authors: Seq::empty(),
        links: seq![LinkView { rel: "alternate"@, href: n.location, mime_type: Some(mime_type_of("acquisition"@)) }],
        content: Some(ContentView { content_type: Some("text"@), value: n.description }),
    }
}

impl OpdsEntry for NavigationEntry {
    open spec fn spec_to_opds(&self) -> EntryView {
        navigation_entry(self@)
    }

    /// Converts a `NavigationEntry` to an OPDS `Entry`.
    fn to_opds(&self) -> (e: AtomEntry) {
        let mut links: Vec<AtomLink> = Vec::new();
        links.push(AtomLink {
            rel: owned("alternate"),
            href: self.location.clone(),
            mime_type: build_mime_type("acquisition"),
        });
        let e = AtomEntry {
            title: self.title.clone(),
            id: self.id.clone(),
            summary: None,
            authors: Vec::new(),
            links,
            content: Some(Content {
                content_type: Some(owned("text")),
                value: match &self.description {
                    Some(d) => Some(d.clone()),
                    None => None,
                },
            }),
        };
        assert(e@.authors =~= navigation_entry(self@).authors);
        assert(e@.links =~= navigation_entry(self@).links);
        e
    }
}

} // verus!
