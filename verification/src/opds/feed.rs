//! The parts of an Atom feed that OPDS catalogs fill in.

use vstd::prelude::*;

use crate::item::opt_view;

verus! {

/// The abstract value of a link.
pub struct LinkView {
    pub rel: Seq<char>,
    pub href: Seq<char>,
    pub mime_type: Option<Seq<char>>,
}

/// A link of a feed or an entry.
#[derive(Debug)]
pub struct AtomLink {
    /// The relation of the link (Atom's default is `alternate`).
    pub rel: String,
    /// The target of the link.
    pub href: String,
    /// The media type of the target.
    pub mime_type: Option<String>,
}

impl View for AtomLink {
    type V = LinkView;

    open spec fn view(&self) -> LinkView {
        LinkView { rel: self.rel@, href: self.href@, mime_type: opt_view(self.mime_type) }
    }
}

/// The abstract value of an entry's content.
pub struct ContentView {
    pub content_type: Option<Seq<char>>,
    pub value: Option<Seq<char>>,
}

/// The content of an entry.
#[derive(Debug)]
pub struct Content {
    /// The type of the content (e.g. `text`).
    pub content_type: Option<String>,
    /// The content itself.
    pub value: Option<String>,
}

impl View for Content {
    type V = ContentView;

    open spec fn view(&self) -> ContentView {
        ContentView { content_type: opt_view(self.content_type), value: opt_view(self.value) }
    }
}

/// The abstract value of an entry.
pub struct EntryView {
    pub title: Seq<char>,
    pub id: Seq<char>,
    pub summary: Option<Seq<char>>,
    pub authors: Seq<Seq<char>>,
    pub links: Seq<LinkView>,
    pub content: Option<ContentView>,
}

/// An entry of a feed.
#[derive(Debug)]
pub struct AtomEntry {
    /// The title of the entry.
    pub title: String,
    /// The id of the entry.
    pub id: String,
    /// The summary of the entry.
    pub summary: Option<String>,
    /// The names of the entry's authors.
    pub authors: Vec<String>,
    /// The links of the entry.
    pub links: Vec<AtomLink>,
    /// The content of the entry.
    pub content: Option<Content>,
}

/// The abstract value of an optional content.
pub open spec fn content_view(c: Option<Content>) -> Option<ContentView> {
    match c {
        Some(c) => Some(c@),
        None => None,
    }
}

/// The abstract values of links.
pub open spec fn links_view(links: Seq<AtomLink>) -> Seq<LinkView> {
    links.map_values(|l: AtomLink| l@)
}

impl View for AtomEntry {
    type V = EntryView;

    open spec fn view(&self) -> EntryView {
        EntryView {
            title: self.title@,
            id: self.id@,
            summary: opt_view(self.summary),
            authors: crate::item::strings_view(self.authors@),
            links: links_view(self.links@),
            content: content_view(self.content),
        }
    }
}

/// The abstract value of a feed.
pub struct FeedView {
    pub title: Seq<char>,
    pub id: Seq<char>,
    pub links: Seq<LinkView>,
    pub entries: Seq<EntryView>,
}

/// An Atom feed.
#[derive(Debug)]
pub struct AtomFeed {
    /// The title of the feed.
    pub title: String,
    /// The id of the feed.
    pub id: String,
    /// The links of the feed.
    pub links: Vec<AtomLink>,
    /// The entries of the feed, in order.
    pub entries: Vec<AtomEntry>,
}

impl View for AtomFeed {
    type V = FeedView;

    open spec fn view(&self) -> FeedView {
        FeedView {
            title: self.title@,
            id: self.id@,
            links: links_view(self.links@),
            entries: self.entries@.map_values(|e: AtomEntry| e@),
        }
    }
}

} // verus!
