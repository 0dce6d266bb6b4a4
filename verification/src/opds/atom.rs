//! Writing feeds as Atom XML documents with `atom_syndication`.

use vstd::prelude::*;

use crate::opds::feed as model;

verus! {

/// The Atom XML document that `atom_syndication` writes for a feed (with every part
/// the library does not fill left at its default), or `None` where writing fails.
pub uninterp spec fn atom_document(feed: model::FeedView) -> Option<Seq<char>>;

/// `atom_syndication`'s feed.
#[verifier::external_type_specification]
#[verifier::external_body]
pub struct ExAtomFeed(atom_syndication::Feed);

/// `atom_syndication`'s entry.
#[verifier::external_type_specification]
#[verifier::external_body]
pub struct ExAtomEntry(atom_syndication::Entry);

/// `atom_syndication`'s link.
#[verifier::external_type_specification]
#[verifier::external_body]
pub struct ExAtomLink(atom_syndication::Link);

/// Converts a link into `atom_syndication`'s, field by field.
///
/// Trusted, with nothing stated: its result is stated by `serialize`, whose body uses it.
#[verifier::external_body]
fn atom_link(l: &model::AtomLink) -> atom_syndication::Link {
    atom_syndication::Link {
        rel: l.rel.clone(),
        href: l.href.clone(),
        mime_type: l.mime_type.clone(),
        ..Default::default()
    }
}

/// Converts an entry into `atom_syndication`'s, field by field.
///
/// Trusted, with nothing stated: its result is stated by `serialize`, whose body uses it.
#[verifier::external_body]
fn atom_entry(e: &model::AtomEntry) -> atom_syndication::Entry {
    atom_syndication::Entry {
        title: e.title.clone().into(),
        id: e.id.clone(),
        summary: e.summary.clone().map(|s| s.into()),
        authors: e.authors.iter().map(|n| atom_syndication::Person { name: n.clone(), ..Default::default() }).collect(),
        links: e.links.iter().map(atom_link).collect(),
        content: e.content.as_ref().map(|c| atom_syndication::Content {
            content_type: c.content_type.clone(),
            value: c.value.clone(),
            ..Default::default()
        }),
        ..Default::default()
    }
}

/// Converts a feed into `atom_syndication`'s, field by field.
///
/// Trusted, with nothing stated: its result is stated by `serialize`, whose body uses it.
#[verifier::external_body]
fn atom_feed(f: &model::AtomFeed) -> atom_syndication::Feed {
    let mut out = atom_syndication::Feed {
        title: f.title.clone().into(),
        id: f.id.clone(),
        links: f.links.iter().map(atom_link).collect(),
        ..Default::default()
    };
    out.set_entries::<Vec<atom_syndication::Entry>>(f.entries.iter().map(atom_entry).collect());
    out
}

/// Serializes an OPDS feed to a string.
///
/// Trusted: wraps `atom_syndication::Feed::write_to` on the feed converted by
/// `atom_feed`, then `String::from_utf8`. The XML writing is not spelled out; the
/// contract names the result. Every part of the Atom feed the library does not fill
/// keeps its default, a fixed value (the `updated` date is the Unix epoch), so the
/// document depends on the feed alone. Nothing is stated of the error message.
#[verifier::external_body]
pub fn serialize(feed: &model::AtomFeed) -> (r: Result<String, String>)
    ensures
        match r {
            Ok(s) => atom_document(feed@) == Some(s@),
            Err(_) => atom_document(feed@) is None,
        },
{
    let bytes = atom_feed(feed).write_to(Vec::new()).map_err(|e| e.to_string())?;
    String::from_utf8(bytes).map_err(|e| format!("Failed to serialize Opds Feed: {}", e))
}

} // verus!
