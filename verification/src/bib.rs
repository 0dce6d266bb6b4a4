//! Building research items from bibliographies: BibTeX entries and
//! BetterBibTeX JSON exports.

use std::collections::HashMap;

use biblatex::{ChunksExt, Pair, RawChunk};
use vstd::prelude::*;

use crate::crossref::{
    abbreviations_acyclic, abbreviations_are_acyclic, link_views, links_acyclic, links_are_acyclic, unlinked_field_name,
    LinkInfo, LinkInfoView, RawBibEntry, RawBibliography, RawBibliographyView, RawField, RawPiece,
};
use crate::item::{strings_view, Author, AuthorView, File, FileView, ResearchItem, ResearchItemView};
use crate::json::JsonValue;
use crate::text::{
    char_is_uppercase, char_to_uppercase, find_chars, first_occurrence, from_chars, is_uppercase,
    owned, push_char, str_eq, to_chars, uppercase_char,
};

verus! {

broadcast use vstd::std_specs::hash::group_hash_axioms;

/// A person named in a BibTeX entry.
#[derive(Debug)]
pub struct BibPerson {
    /// The surname / family name / last name.
    pub name: String,
    /// The given name / first name / forename.
    pub given_name: String,
}

/// A BibTeX entry, as far as the bibliography logic reads it.
#[derive(Debug)]
pub struct BibEntry {
    /// The citation key.
    pub key: String,
    /// The title, verbatim; `None` where the entry has no readable title.
    pub title: Option<String>,
    /// The authors; `None` where the entry has no readable author list.
    pub authors: Option<Vec<BibPerson>>,
    /// The entry type, as displayed (e.g. `article`).
    pub entry_type: String,
}

/// The abstract value of a person of a BibTeX entry.
pub struct BibPersonView {
    pub name: Seq<char>,
    pub given_name: Seq<char>,
}

impl View for BibPerson {
    type V = BibPersonView;

    open spec fn view(&self) -> BibPersonView {
        BibPersonView { name: self.name@, given_name: self.given_name@ }
    }
}

/// The abstract value of a BibTeX entry.
pub struct BibEntryView {
    pub key: Seq<char>,
    pub title: Option<Seq<char>>,
    pub authors: Option<Seq<BibPersonView>>,
    pub entry_type: Seq<char>,
}

impl View for BibEntry {
    type V = BibEntryView;

    open spec fn view(&self) -> BibEntryView {
        BibEntryView {
            key: self.key@,
            title: crate::item::opt_view(self.title),
            authors: match self.authors {
                Some(v) => Some(v@.map_values(|p: BibPerson| p@)),
                None => None,
            },
            entry_type: self.entry_type@,
        }
    }
}

/// The entries that `biblatex` reads from a BibTeX source, or `None` where it
/// refuses the source.
pub uninterp spec fn bibtex_entries(src: Seq<char>) -> Option<Seq<BibEntryView>>;

/// The raw source that `biblatex`'s first pass reads from a BibTeX source, or
/// `None` where that pass refuses the source.
pub uninterp spec fn bibtex_raw(src: Seq<char>) -> Option<RawBibliographyView>;

/// What `biblatex` reads of each entry of a BibTeX source whose `crossref` and
/// `xdata` fields are renamed (see `crossref::unlinked_name`), or `None` where it
/// refuses that source.
pub uninterp spec fn bibtex_links(src: Seq<char>) -> Option<Seq<LinkInfoView>>;

/// Whether the abbreviations that a source's fields use may expand forever.
pub open spec fn bibtex_abbreviations_cycle(src: Seq<char>) -> bool {
    match bibtex_raw(src) {
        Some(raw) => !abbreviations_acyclic(raw),
        None => false,
    }
}

/// Whether the `crossref` / `xdata` links of a source form a cycle.
pub open spec fn bibtex_links_cycle(src: Seq<char>) -> bool {
    match bibtex_links(src) {
        Some(ls) => !links_acyclic(ls),
        None => false,
    }
}

/// Reads the raw form of a BibTeX source.
///
/// Trusted: wraps `biblatex::RawBibliography::parse`, the first pass of
/// `Bibliography::parse`, and copies out each entry's key, each field's name and value
/// pieces, and each `@string` definition's name and value pieces, as written and in
/// order. The BibTeX grammar is not spelled out; the contract names the result.
#[verifier::external_body]
fn read_raw_bibtex(src: &str) -> (r: Option<RawBibliography>)
    ensures
        match r {
            Some(raw) => bibtex_raw(src@) == Some(raw@),
            None => bibtex_raw(src@) is None,
        },
{
    let raw = biblatex::RawBibliography::parse(src).ok()?;
    let field = |p: &Pair| RawField {
        name: p.key.v.to_string(),
        value: p.value.v.iter().map(|c| match c.v {
            RawChunk::Normal(t) => RawPiece::Text(t.to_string()),
            RawChunk::Abbreviation(a) => RawPiece::Abbreviation(a.to_string()),
        }).collect(),
    };
    Some(RawBibliography {
        entries: raw.entries.iter().map(|e| RawBibEntry { key: e.v.key.v.to_string(), fields: e.v.fields.iter().map(field).collect() }).collect(),
        abbreviations: raw.abbreviations.iter().map(field).collect(),
    })
}

/// Reads the link information of each entry of a BibTeX source.
///
/// Trusted: wraps `biblatex::RawBibliography::parse` and `Bibliography::from_raw`,
/// with every field name replaced by `crossref::unlinked_field_name` in between, so
/// that no entry has a `crossref` or `xdata` field and `from_raw` follows no link. Of
/// each entry it reads the key and, with `get_as`, the `ids` list, the `#crossref`
/// string and the `#xdata` list (`None` where the field is missing). Renaming changes
/// no value: `biblatex` reads a field's value according to its lowercased name only
/// through `is_verbatim_field`, which holds of none of `crossref`, `xdata`, `#crossref`
/// and `#xdata`. `requires` leaves out sources whose abbreviations may expand forever.
#[verifier::external_body]
fn read_bibtex_links(src: &str) -> (r: Option<Vec<LinkInfo>>)
    requires
        !bibtex_abbreviations_cycle(src@),
    ensures
        match r {
            Some(v) => bibtex_links(src@) == Some(link_views(v@)),
            None => bibtex_links(src@) is None,
        },
{
    let mut raw = biblatex::RawBibliography::parse(src).ok()?;
    for e in raw.entries.iter_mut() {
        for p in e.v.fields.iter_mut() {
            p.key.v = unlinked_field_name(p.key.v);
        }
    }
    let bibliography = biblatex::Bibliography::from_raw(raw).ok()?;
    Some(bibliography.iter().map(|b| LinkInfo {
        key: b.key.clone(),
        aliases: b.get_as::<Vec<String>>("ids").ok(),
        crossref: b.get_as::<String>("#crossref").ok(),
        xdata: b.get_as::<Vec<String>>("#xdata").ok(),
    }).collect())
}

/// Parses a BibTeX source into its entries.
///
/// Trusted: wraps `biblatex::Bibliography::parse` and reads each entry it gives, in
/// order: its key, its `title` field read verbatim (`None` where the field is missing),
/// its `author` field as people (`None` where it is missing or malformed) and its entry
/// type as displayed. The BibTeX grammar is not spelled out; the contract names the
/// result. On a refused source the error is `biblatex`'s message, of which nothing is
/// stated. `biblatex` expands abbreviations and follows `crossref` / `xdata` links
/// recursively with no check for cycles, so `requires` leaves out the sources where
/// either may go on forever: abbreviations that the fields use that may expand
/// forever, and links (read as `read_bibtex_links` reads them; where that read is
/// refused, so is the source, before any link is followed) that form a cycle. Acyclic
/// links are still followed recursively, as deep as the longest chain of them; that
/// depth is bounded only by the machine's stack, which the contract does not state.
#[verifier::external_body]
fn bibliography_parse(src: &str) -> (r: Result<Vec<BibEntry>, String>)
    requires
        !bibtex_abbreviations_cycle(src@),
        !bibtex_links_cycle(src@),
    ensures
        match r {
            Ok(v) => bibtex_entries(src@) == Some(v@.map_values(|e: BibEntry| e@)),
            Err(_) => bibtex_entries(src@) is None,
        },
{
    let bibliography = biblatex::Bibliography::parse(src).map_err(|e| e.to_string())?;
    Ok(bibliography.iter().map(|b| BibEntry {
        key: b.key.clone(),
        title: b.title().ok().map(|t| t.format_verbatim()),
        authors: b.author().ok().map(|people| people.into_iter()
            .map(|p| BibPerson { name: p.name, given_name: p.given_name }).collect()),
        entry_type: b.entry_type.to_string(),
    }).collect())
}

/// The message of the error for a source whose abbreviations expand forever.
pub open spec fn abbreviation_cycle_message() -> Seq<char> {
    "abbreviations (@string) used by the fields form a cycle"@
}

/// The message of the error for a source whose links form a cycle.
pub open spec fn link_cycle_message() -> Seq<char> {
    "crossref or xdata links form a cycle"@
}

/// Parses a BibTeX source into its entries: what `biblatex` reads from it, or its
/// error. Two kinds of source are refused with an error of their own, and `biblatex`
/// reads neither to an end: one whose fields use abbreviations that expand forever,
/// and one whose `crossref` / `xdata` links form a cycle.
pub fn parse_bibtex(src: &str) -> (r: Result<Vec<BibEntry>, String>)
    ensures
        bibtex_abbreviations_cycle(src@) ==> (r matches Err(m) && m@ == abbreviation_cycle_message()),
        !bibtex_abbreviations_cycle(src@) && bibtex_links_cycle(src@)
            ==> (r matches Err(m) && m@ == link_cycle_message()),
        !bibtex_abbreviations_cycle(src@) && !bibtex_links_cycle(src@) ==> match r {
            Ok(v) => bibtex_entries(src@) == Some(v@.map_values(|e: BibEntry| e@)),
            Err(_) => bibtex_entries(src@) is None,
        },
{
    match read_raw_bibtex(src) {
        Some(raw) => {
            if !abbreviations_are_acyclic(&raw) {
                return Err(owned("abbreviations (@string) used by the fields form a cycle"));
            }
        },
        None => {},
    }
    match read_bibtex_links(src) {
        Some(links) => {
            if !links_are_acyclic(&links) {
                return Err(owned("crossref or xdata links form a cycle"));
            }
        },
        None => {},
    }
    bibliography_parse(src)
}

/// The authors of a BibTeX entry, as authors of a research item.
pub open spec fn bib_authors(authors: Option<Vec<BibPerson>>) -> Seq<AuthorView> {
    match authors {
        Some(v) => v@.map_values(|p: BibPerson| AuthorView { first_name: p.given_name@, last_name: p.name@ }),
        None => Seq::empty(),
    }
}

/// The research item of a BibTeX entry; entries without a title give none.
pub open spec fn bib_item(e: BibEntry, collection: Seq<char>) -> Option<ResearchItemView> {
    match e.title {
        Some(t) => Some(ResearchItemView {
            id: e.key@,
            collection: collection,
            authors: bib_authors(e.authors),
            title: t@,
            summary: Some(Seq::empty()),
            publisher: None,
            kind: e.entry_type@,
            tags: Seq::empty(),
            files: Seq::empty(),
        }),
        None => None,
    }
}

/// The MIME type essence (`type/subtype`) that `mime_guess` guesses for a path
/// from its extension, `application/octet-stream` where it knows none.
pub uninterp spec fn guessed_mime_essence(path: Seq<char>) -> Seq<char>;

/// Guesses the MIME type of a path from its extension.
///
/// Trusted: wraps `mime_guess::from_path(..).first_or_octet_stream()` and takes the
/// essence of the result. The extension table of `mime_guess` is not spelled out; the
/// contract names the result, and states the one case its documentation settles: a path
/// without any `.` has no extension, so the guess is `application/octet-stream`.
#[verifier::external_body]
fn guess_mime_essence(path: &str) -> (r: String)
    ensures
        r@ == guessed_mime_essence(path@),
        !path@.contains('.') ==> r@ == "application/octet-stream"@,
{
    mime_guess::from_path(path).first_or_octet_stream().essence_str().to_string()
}

/// The marker that precedes the storage-relative path of an attachment.
pub open spec fn storage_marker() -> Seq<char> {
    "storage/"@
}

/// The part of an attachment path after its first `storage/`, if it has one.
#[verifier::opaque]
pub open spec fn storage_suffix(path: Seq<char>) -> Option<Seq<char>> {
    match first_occurrence(path, storage_marker()) {
        Some(p) => Some(path.skip(p + storage_marker().len())),
        None => None,
    }
}

/// The author of a JSON creator, if it is an author with both names.
pub open spec fn json_creator(c: JsonValue) -> Option<AuthorView> {
    match c.spec_index("creatorType"@).spec_as_str() {
        Some(t) => if t == "author"@ {
            match (c.spec_index("firstName"@).spec_as_str(), c.spec_index("lastName"@).spec_as_str()) {
                (Some(f), Some(l)) => Some(AuthorView { first_name: f, last_name: l }),
                _ => None,
            }
        } else {
            None
        },
        None => None,
    }
}

/// The file of a JSON attachment, if its path lies under a `storage/` directory.
pub open spec fn json_attachment(f: JsonValue) -> Option<FileView> {
    match f.spec_index("path"@).spec_as_str() {
        Some(p) => match storage_suffix(p) {
            Some(id) => Some(FileView { id: id, mime_type: guessed_mime_essence(id) }),
            None => None,
        },
        None => None,
    }
}

/// The name of a JSON tag, if it has one.
pub open spec fn json_tag(t: JsonValue) -> Option<Seq<char>> {
    t.spec_index("tag"@).spec_as_str()
}

/// The authors among JSON creators.
pub open spec fn json_creators(cs: Seq<JsonValue>) -> Seq<AuthorView> {
    cs.filter_map(|c: JsonValue| json_creator(c))
}

/// The files of JSON attachments.
pub open spec fn json_attachments(fs: Seq<JsonValue>) -> Seq<FileView> {
    fs.filter_map(|f: JsonValue| json_attachment(f))
}

/// The names of JSON tags.
pub open spec fn json_tags(ts: Seq<JsonValue>) -> Seq<Seq<char>> {
    ts.filter_map(|t: JsonValue| json_tag(t))
}

/// An item type with a space put before every uppercase character but the first.
pub open spec fn spaced(s: Seq<char>) -> Seq<char>
    decreases s.len(),
{
    if s.len() == 0 {
        Seq::empty()
    } else if s.len() > 1 && is_uppercase(s.last()) {
        spaced(s.drop_last()) + seq![' ', s.last()]
    } else {
        spaced(s.drop_last()).push(s.last())
    }
}

/// The displayed kind of an item type: words split before uppercase characters,
/// first character uppercased (`journalArticle` gives `Journal Article`).
pub open spec fn item_kind(item_type: Seq<char>) -> Seq<char> {
    let r = spaced(item_type);
    if r.len() == 0 {
        Seq::empty()
    } else {
        uppercase_char(r[0]) + r.drop_first()
    }
}

/// The research item of a JSON item with its id, if every required field is there.
#[verifier::opaque]
pub open spec fn json_item(b: JsonValue, collection: Seq<char>) -> Option<(u64, ResearchItemView)> {
    let item_id = match b.spec_get("itemID"@) {
        Some(v) => v.spec_as_u64(),
        None => None,
    };
    let id = b.spec_index("citationKey"@).spec_as_str();
    let title = b.spec_index("title"@).spec_as_str();
    let creators = b.spec_index("creators"@).spec_as_array();
    let item_type = b.spec_index("itemType"@).spec_as_str();
    let attachments = b.spec_index("attachments"@).spec_as_array();
    let tags = b.spec_index("tags"@).spec_as_array();
    if item_id is Some && id is Some && title is Some && creators is Some && item_type is Some
        && attachments is Some && tags is Some {
        Some((item_id->0, ResearchItemView {
            id: id->0,
            collection: collection,
            authors: json_creators(creators->0),
            title: title->0,
            summary: b.spec_index("abstractNote"@).spec_as_str(),
            publisher: b.spec_index("publisher"@).spec_as_str(),
            kind: item_kind(item_type->0),
            tags: json_tags(tags->0),
            files: json_attachments(attachments->0),
        }))
    } else {
        None
    }
}

/// The items of a sequence of JSON items, keyed by item id; of two items with
/// one id the later one is kept.
pub open spec fn json_items(items: Seq<JsonValue>, collection: Seq<char>) -> Map<u64, ResearchItemView>
    decreases items.len(),
{
    if items.len() == 0 {
        Map::empty()
    } else {
        let m = json_items(items.drop_last(), collection);
        match json_item(items.last(), collection) {
            Some((k, v)) => m.insert(k, v),
            None => m,
        }
    }
}

/// The items of a JSON bibliography (its `items` array), if it has one.
pub open spec fn json_bibliography(bib: JsonValue, collection: Seq<char>) -> Option<Map<u64, ResearchItemView>> {
    match bib.spec_get("items"@) {
        Some(v) => match v.spec_as_array() {
            Some(a) => Some(json_items(a, collection)),
            None => None,
        },
        None => None,
    }
}

/// The items of several JSON bibliographies, each under its collection name;
/// unreadable bibliographies are skipped, and of two items with one id the one
/// from the later bibliography is kept.
pub open spec fn json_collections(bibs: Seq<(String, JsonValue)>) -> Map<u64, ResearchItemView>
    decreases bibs.len(),
{
    if bibs.len() == 0 {
        Map::empty()
    } else {
        let m = json_collections(bibs.drop_last());
        match json_bibliography(bibs.last().1, bibs.last().0@) {
            Some(items) => m.union_prefer_right(items),
            None => m,
        }
    }
}

/// Every item read from a JSON bibliography belongs to the collection it was read
/// under, and is the item of its id.
pub proof fn lemma_json_items_collection(items: Seq<JsonValue>, collection: Seq<char>)
    ensures
        forall|k: u64| #[trigger] json_items(items, collection).contains_key(k) ==>
            json_items(items, collection)[k].collection == collection
            && exists|i: int| 0 <= i < items.len() && json_item(#[trigger] items[i], collection)
                == Some((k, json_items(items, collection)[k])),
    decreases items.len(),
{
    if items.len() > 0 {
        lemma_json_items_collection(items.drop_last(), collection);
        reveal(json_item);
        let m = json_items(items, collection);
        assert forall|k: u64| #[trigger] m.contains_key(k) implies m[k].collection == collection
            && exists|i: int| 0 <= i < items.len() && json_item(#[trigger] items[i], collection) == Some((k, m[k])) by {
            let last = items.last();
            match json_item(last, collection) {
                Some((k2, v)) => {
                    if k2 == k {
                        assert(json_item(items[items.len() - 1], collection) == Some((k, m[k])));
                    } else {
                        let prev = json_items(items.drop_last(), collection);
                        assert(prev.contains_key(k));
                        let i = choose|i: int| 0 <= i < items.drop_last().len()
                            && json_item(#[trigger] items.drop_last()[i], collection) == Some((k, prev[k]));
                        assert(items[i] == items.drop_last()[i]);
                    }
                },
                None => {
                    let prev = json_items(items.drop_last(), collection);
                    let i = choose|i: int| 0 <= i < items.drop_last().len()
                        && json_item(#[trigger] items.drop_last()[i], collection) == Some((k, prev[k]));
                    assert(items[i] == items.drop_last()[i]);
                },
            }
        }
    }
}

/// The items of each bibliography, where readable.
pub open spec fn bibliography_maps(bibs: Seq<(String, JsonValue)>) -> Seq<Option<Map<u64, ResearchItemView>>> {
    bibs.map_values(|b: (String, JsonValue)| json_bibliography(b.1, b.0@))
}

/// Maps merged in order, later maps replacing the values of earlier ones; absent
/// maps are skipped.
pub open spec fn merge_all(ms: Seq<Option<Map<u64, ResearchItemView>>>) -> Map<u64, ResearchItemView>
    decreases ms.len(),
{
    if ms.len() == 0 {
        Map::empty()
    } else {
        match ms.last() {
            Some(m) => merge_all(ms.drop_last()).union_prefer_right(m),
            None => merge_all(ms.drop_last()),
        }
    }
}

/// Reading several bibliographies merges their items in order.
pub proof fn lemma_json_collections_merge(bibs: Seq<(String, JsonValue)>)
    ensures
        json_collections(bibs) == merge_all(bibliography_maps(bibs)),
    decreases bibs.len(),
{
    if bibs.len() > 0 {
        lemma_json_collections_merge(bibs.drop_last());
        assert(bibliography_maps(bibs).drop_last() =~= bibliography_maps(bibs.drop_last()));
        assert(bibliography_maps(bibs).last() == json_bibliography(bibs.last().1, bibs.last().0@));
    }
}

/// Whether the `i`-th map is present and has the key `k`.
pub open spec fn map_has(ms: Seq<Option<Map<u64, ResearchItemView>>>, i: int, k: u64) -> bool {
    match ms[i] {
        Some(m) => m.contains_key(k),
        None => false,
    }
}

/// Merging maps keeps a key exactly when some map has it, with its value in the
/// last map that has it.
pub proof fn lemma_merge_all_last_wins(ms: Seq<Option<Map<u64, ResearchItemView>>>, k: u64)
    ensures
        merge_all(ms).contains_key(k) <==> exists|i: int| 0 <= i < ms.len() && #[trigger] map_has(ms, i, k),
        forall|i: int| 0 <= i < ms.len() && #[trigger] map_has(ms, i, k)
            && (forall|j: int| i < j < ms.len() ==> !map_has(ms, j, k))
            ==> merge_all(ms)[k] == ms[i]->0[k],
    decreases ms.len(),
{
    if ms.len() > 0 {
        let n = ms.len() - 1;
        let prev = ms.drop_last();
        lemma_merge_all_last_wins(prev, k);
        let pm = merge_all(prev);
        let cur = merge_all(ms);
        assert(ms.last() == ms[n]);
        assert(cur.contains_key(k) == (pm.contains_key(k) || map_has(ms, n, k)));
        assert(map_has(ms, n, k) ==> cur[k] == ms[n]->0[k]);
        assert(!map_has(ms, n, k) && pm.contains_key(k) ==> cur[k] == pm[k]);
        assert forall|i: int| 0 <= i < n implies #[trigger] map_has(prev, i, k) == map_has(ms, i, k) by {
            assert(prev[i] == ms[i]);
        }
        assert forall|i: int| 0 <= i < ms.len() && #[trigger] map_has(ms, i, k)
            && (forall|j: int| i < j < ms.len() ==> !map_has(ms, j, k)) implies cur[k] == ms[i]->0[k] by {
            if i < n {
                assert(!map_has(ms, n, k));
                assert(map_has(prev, i, k));
                assert(prev[i] == ms[i]);
                assert forall|j: int| i < j < prev.len() implies !map_has(prev, j, k) by {
                    assert(map_has(prev, j, k) == map_has(ms, j, k));
                }
            }
        }
        if cur.contains_key(k) {
            if map_has(ms, n, k) {
            } else {
                let i = choose|i: int| 0 <= i < prev.len() && #[trigger] map_has(prev, i, k);
                assert(map_has(ms, i, k));
            }
        }
        if exists|i: int| 0 <= i < ms.len() && #[trigger] map_has(ms, i, k) {
            let i = choose|i: int| 0 <= i < ms.len() && #[trigger] map_has(ms, i, k);
            if i < n {
                assert(map_has(prev, i, k));
            }
        }
    }
}

/// Reading several bibliographies (`from_json_collections`) keeps an item id
/// exactly when some readable bibliography has it, and then keeps the item of
/// the last such bibliography; unreadable bibliographies contribute nothing.
pub proof fn lemma_json_collections_last_wins(bibs: Seq<(String, JsonValue)>, k: u64)
    ensures
        json_collections(bibs).contains_key(k)
            <==> exists|i: int| 0 <= i < bibs.len() && #[trigger] map_has(bibliography_maps(bibs), i, k),
        forall|i: int| 0 <= i < bibs.len() && #[trigger] map_has(bibliography_maps(bibs), i, k)
            && (forall|j: int| i < j < bibs.len() ==> !map_has(bibliography_maps(bibs), j, k))
            ==> json_collections(bibs)[k] == bibliography_maps(bibs)[i]->0[k],
{
    lemma_json_collections_merge(bibs);
    lemma_merge_all_last_wins(bibliography_maps(bibs), k);
}

/// The abstract value of a map of research items.
pub open spec fn items_view(m: Map<u64, ResearchItem>) -> Map<u64, ResearchItemView> {
    m.map_values(|i: ResearchItem| i@)
}

/// Formats an item type for display (`journalArticle` gives `Journal Article`).
pub fn format_item_kind(item_type: &str) -> (r: String)
    ensures
        r@ == item_kind(item_type@),
{
    let cs = to_chars(item_type);
    let mut spaced_chars: Vec<char> = Vec::new();
    let mut i: usize = 0;
    while i < cs.len()
        invariant
            cs@ == item_type@,
            i <= cs@.len(),
            spaced_chars@ == spaced(cs@.take(i as int)),
        decreases cs@.len() - i,
    {
        let c = cs[i];
        assert(cs@.take(i + 1).drop_last() =~= cs@.take(i as int));
        if i > 0 && char_is_uppercase(c) {
            spaced_chars.push(' ');
        }
        spaced_chars.push(c);
        i = i + 1;
        assert(spaced_chars@ =~= spaced(cs@.take(i as int)));
    }
    assert(cs@.take(cs@.len() as int) =~= cs@);
    if spaced_chars.len() == 0 {
        return String::new();
    }
    let mut r = char_to_uppercase(spaced_chars[0]);
    let mut j: usize = 1;
    while j < spaced_chars.len()
        invariant
            spaced_chars@ == spaced(item_type@),
            1 <= j <= spaced_chars@.len(),
            r@ == uppercase_char(spaced_chars@[0]) + spaced_chars@.subrange(1, j as int),
        decreases spaced_chars@.len() - j,
    {
        push_char(&mut r, spaced_chars[j]);
        j = j + 1;
        assert(r@ =~= uppercase_char(spaced_chars@[0]) + spaced_chars@.subrange(1, j as int));
    }
    assert(spaced_chars@.subrange(1, spaced_chars@.len() as int) =~= spaced_chars@.drop_first());
    r
}

/// The part of an attachment path after its first `storage/`, if it has one.
pub fn storage_relative_path(path: &str) -> (r: Option<String>)
    ensures
        match r {
            Some(s) => storage_suffix(path@) == Some(s@),
            None => storage_suffix(path@) is None,
        },
{
    reveal(storage_suffix);
    let hay = to_chars(path);
    let marker = to_chars("storage/");
    proof {
        reveal_strlit("storage/");
    }
    match find_chars(hay.as_slice(), marker.as_slice()) {
        Some(p) => {
            proof {
                crate::text::lemma_first_occurrence(hay@, marker@);
            }
            let hl = hay.len();
            assert(p + marker@.len() <= hl);
            let start = p + marker.len();
            let mut out: Vec<char> = Vec::new();
            let mut k: usize = start;
            while k < hay.len()
                invariant
                    start <= k <= hay@.len(),
                    out@ == hay@.subrange(start as int, k as int),
                decreases hay@.len() - k,
            {
                out.push(hay[k]);
                k = k + 1;
                assert(out@ =~= hay@.subrange(start as int, k as int));
            }
            assert(hay@.subrange(start as int, hay@.len() as int) =~= hay@.skip(start as int));
            Some(from_chars(out.as_slice()))
        },
        None => None,
    }
}

/// The author of a JSON creator, if it is an author with both names.
pub fn parse_creator(c: &JsonValue) -> (r: Option<Author>)
    ensures
        match r {
            Some(a) => json_creator(*c) == Some(a@),
            None => json_creator(*c) is None,
        },
{
    let t = c.str_at("creatorType")?;
    if !str_eq(t, "author") {
        return None;
    }
    let f = c.str_at("firstName")?;
    let l = c.str_at("lastName")?;
    Some(Author { first_name: owned(f), last_name: owned(l) })
}

/// The file of a JSON attachment, if its path lies under a `storage/` directory.
pub fn parse_attachment(f: &JsonValue) -> (r: Option<File>)
    ensures
        match r {
            Some(file) => json_attachment(*f) == Some(file@),
            None => json_attachment(*f) is None,
        },
{
    let p = f.str_at("path")?;
    let id = storage_relative_path(p)?;
    let mime_type = guess_mime_essence(id.as_str());
    Some(File { id, mime_type })
}

/// The authors among JSON creators.
#[verifier::rlimit(30)]
pub fn parse_creators(cs: &Vec<JsonValue>) -> (r: Vec<Author>)
    ensures
        r@.map_values(|a: Author| a@) == json_creators(cs@),
{
    let mut r: Vec<Author> = Vec::new();
    let mut i: usize = 0;
    while i < cs.len()
        invariant
            i <= cs@.len(),
            r@.map_values(|a: Author| a@) == json_creators(cs@.take(i as int)),
        decreases cs@.len() - i,
    {
        assert(cs@.take(i + 1).drop_last() =~= cs@.take(i as int));
        let ghost before = r@;
        match parse_creator(&cs[i]) {
            Some(a) => {
                r.push(a);
                assert(r@ == before.push(a));
            },
            None => {},
        }
        i = i + 1;
        assert(r@.map_values(|a: Author| a@) =~= json_creators(cs@.take(i as int)));
    }
    assert(cs@.take(cs@.len() as int) =~= cs@);
    r
}

/// The files of JSON attachments.
#[verifier::rlimit(30)]
pub fn parse_attachments(fs: &Vec<JsonValue>) -> (r: Vec<File>)
    ensures
        r@.map_values(|f: File| f@) == json_attachments(fs@),
{
    let mut r: Vec<File> = Vec::new();
    let mut i: usize = 0;
    while i < fs.len()
        invariant
            i <= fs@.len(),
            r@.map_values(|f: File| f@) == json_attachments(fs@.take(i as int)),
        decreases fs@.len() - i,
    {
        assert(fs@.take(i + 1).drop_last() =~= fs@.take(i as int));
        let ghost before = r@;
        match parse_attachment(&fs[i]) {
            Some(f) => {
                r.push(f);
                assert(r@ == before.push(f));
            },
            None => {},
        }
        i = i + 1;
        assert(r@.map_values(|f: File| f@) =~= json_attachments(fs@.take(i as int)));
    }
    assert(fs@.take(fs@.len() as int) =~= fs@);
    r
}

/// The names of JSON tags.
pub fn parse_tags(ts: &Vec<JsonValue>) -> (r: Vec<String>)
    ensures
        strings_view(r@) == json_tags(ts@),
{
    let mut r: Vec<String> = Vec::new();
    let mut i: usize = 0;
    while i < ts.len()
        invariant
            i <= ts@.len(),
            strings_view(r@) == json_tags(ts@.take(i as int)),
        decreases ts@.len() - i,
    {
        assert(ts@.take(i + 1).drop_last() =~= ts@.take(i as int));
        let ghost before = r@;
        match ts[i].str_at("tag") {
            Some(t) => {
                r.push(owned(t));
            },
            None => {},
        }
        i = i + 1;
        assert(strings_view(r@) =~= json_tags(ts@.take(i as int)));
    }
    assert(ts@.take(ts@.len() as int) =~= ts@);
    r
}

/// The research item of a JSON item with its id, if every required field is there.
pub fn parse_json_item(b: &JsonValue, collection: &str) -> (r: Option<(u64, ResearchItem)>)
    ensures
        match r {
            Some((k, it)) => json_item(*b, collection@) == Some((k, it@)),
            None => json_item(*b, collection@) is None,
        },
{
    reveal(json_item);
    let item_id = match b.get("itemID") {
        Some(v) => v.as_u64(),
        None => None,
    }?;
    let id = b.str_at("citationKey")?;
    let title = b.str_at("title")?;
    let creators = b.array_at("creators")?;
    let publisher = match b.str_at("publisher") {
        Some(p) => Some(owned(p)),
        None => None,
    };
    let summary = match b.str_at("abstractNote") {
        Some(p) => Some(owned(p)),
        None => None,
    };
    let item_type = b.str_at("itemType")?;
    let attachments = b.array_at("attachments")?;
    let tags = b.array_at("tags")?;
    let item = ResearchItem {
        id: owned(id),
        collection: owned(collection),
        title: owned(title),
        authors: parse_creators(creators),
        publisher,
        summary,
        kind: format_item_kind(item_type),
        files: parse_attachments(attachments),
        tags: parse_tags(tags),
    };
    Some((item_id, item))
}

/// Trait for creating instances from bibliography data.
pub trait Bibliography: Sized {
    fn from_bib(bibliography: Vec<BibEntry>, collection: &str) -> Vec<Self>;

    fn from_json(bibliography: &JsonValue, collection: &str) -> Option<HashMap<u64, Self>>;

    fn from_json_collections(bibliographies: &Vec<(String, JsonValue)>) -> HashMap<u64, Self>;
}

/// The authors of a BibTeX entry.
fn bib_entry_authors(authors: &Option<Vec<BibPerson>>) -> (r: Vec<Author>)
    ensures
        r@.map_values(|a: Author| a@) == bib_authors(*authors),
{
    let mut r: Vec<Author> = Vec::new();
    match authors {
        Some(v) => {
            let mut i: usize = 0;
            while i < v.len()
                invariant
                    i <= v@.len(),
                    r@.len() == i,
                    forall|j: int| 0 <= j < i ==> r@[j]@ == (AuthorView { first_name: v@[j].given_name@, last_name: v@[j].name@ }),
                decreases v@.len() - i,
            {
                r.push(Author { first_name: v[i].given_name.clone(), last_name: v[i].name.clone() });
                i = i + 1;
            }
            assert(r@.map_values(|a: Author| a@) =~= bib_authors(*authors));
        },
        None => {
            assert(r@.map_values(|a: Author| a@) =~= bib_authors(*authors));
        },
    }
    r
}

impl Bibliography for ResearchItem {
    /// One item per BibTeX entry that has a title, in order; entries without one are skipped.
    fn from_bib(bibliography: Vec<BibEntry>, collection: &str) -> (r: Vec<Self>)
        ensures
            r@.map_values(|i: ResearchItem| i@)
                == bibliography@.filter_map(|e: BibEntry| bib_item(e, collection@)),
    {
        let mut r: Vec<ResearchItem> = Vec::new();
        let mut i: usize = 0;
        while i < bibliography.len()
            invariant
                i <= bibliography@.len(),
                r@.map_values(|it: ResearchItem| it@)
                    == bibliography@.take(i as int).filter_map(|e: BibEntry| bib_item(e, collection@)),
            decreases bibliography@.len() - i,
        {
            assert(bibliography@.take(i + 1).drop_last() =~= bibliography@.take(i as int));
            let e = &bibliography[i];
            match &e.title {
                Some(t) => {
                    let item = ResearchItem {
                        id: e.key.clone(),
                        collection: owned(collection),
                        title: t.clone(),
                        authors: bib_entry_authors(&e.authors),
                        publisher: None,
                        summary: Some(String::new()),
                        kind: e.entry_type.clone(),
                        files: Vec::new(),
                        tags: Vec::new(),
                    };
                    assert(item@.files =~= Seq::<FileView>::empty());
                    assert(item@.tags =~= Seq::<Seq<char>>::empty());
                    assert(Some(item@) == bib_item(*e, collection@));
                    r.push(item);
                },
                None => {},
            }
            i = i + 1;
            assert(r@.map_values(|it: ResearchItem| it@)
                =~= bibliography@.take(i as int).filter_map(|e: BibEntry| bib_item(e, collection@)));
        }
        assert(bibliography@.take(bibliography@.len() as int) =~= bibliography@);
        r
    }

    /// The items of the bibliography's `items` array keyed by item id, each under the
    /// given collection; items missing a required field are skipped. `None` where the
    /// bibliography has no `items` array.
    fn from_json(bibliography: &JsonValue, collection: &str) -> (r: Option<HashMap<u64, Self>>)
        ensures
            match r {
                Some(m) => json_bibliography(*bibliography, collection@) == Some(items_view(m@)),
                None => json_bibliography(*bibliography, collection@) is None,
            },
    {
        let mut m: HashMap<u64, ResearchItem> = HashMap::new();
        let ok = insert_json_items(bibliography, collection, &mut m);
        if ok {
            proof {
                let items = json_bibliography(*bibliography, collection@)->0;
                assert(items_view(m@) =~= items);
            }
            Some(m)
        } else {
            None
        }
    }

    /// The items of all readable bibliographies, each under its collection name;
    /// of two items with one id the one from the later bibliography is kept.
    fn from_json_collections(bibliographies: &Vec<(String, JsonValue)>) -> (r: HashMap<u64, Self>)
        ensures
            items_view(r@) == json_collections(bibliographies@),
    {
        let mut m: HashMap<u64, ResearchItem> = HashMap::new();
        let mut i: usize = 0;
        assert(items_view(m@) =~= json_collections(bibliographies@.take(0)));
        while i < bibliographies.len()
            invariant
                i <= bibliographies@.len(),
                items_view(m@) == json_collections(bibliographies@.take(i as int)),
            decreases bibliographies@.len() - i,
        {
            assert(bibliographies@.take(i + 1).drop_last() =~= bibliographies@.take(i as int));
            let name = &bibliographies[i].0;
            let json = &bibliographies[i].1;
            let _ = insert_json_items(json, name.as_str(), &mut m);
            i = i + 1;
        }
        assert(bibliographies@.take(bibliographies@.len() as int) =~= bibliographies@);
        m
    }
}

/// Adds the items of a JSON bibliography to a map, later items replacing earlier
/// ones with the same id; tells whether the bibliography had an `items` array.
pub(crate) fn insert_json_items(bibliography: &JsonValue, collection: &str, m: &mut HashMap<u64, ResearchItem>) -> (ok: bool)
    ensures
        match json_bibliography(*bibliography, collection@) {
            Some(items) => ok && items_view(final(m)@) == items_view(old(m)@).union_prefer_right(items),
            None => !ok && final(m)@ == old(m)@,
        },
{
    let items = match bibliography.get("items") {
        Some(v) => v.as_array(),
        None => None,
    };
    let items = match items {
        Some(a) => a,
        None => return false,
    };
    let ghost start = items_view(m@);
    let mut i: usize = 0;
    assert(items_view(m@) =~= start.union_prefer_right(json_items(items@.take(0), collection@)));
    while i < items.len()
        invariant
            i <= items@.len(),
            items_view(m@) == start.union_prefer_right(json_items(items@.take(i as int), collection@)),
        decreases items@.len() - i,
    {
        assert(items@.take(i + 1).drop_last() =~= items@.take(i as int));
        match parse_json_item(&items[i], collection) {
            Some((k, item)) => {
                let ghost v = item@;
                let ghost before = m@;
                let ghost itv = item;
                m.insert(k, item);
                assert(m@ == before.insert(k, itv));
                assert(items_view(m@) =~= items_view(before).insert(k, v));
                assert(items_view(m@) =~= start.union_prefer_right(
                    json_items(items@.take(i as int), collection@).insert(k, v)));
            },
            None => {},
        }
        i = i + 1;
    }
    assert(items@.take(items@.len() as int) =~= items@);
    true
}

/// Whether a JSON creator is an author with a first and a last name.
pub open spec fn is_named_author(c: JsonValue) -> bool {
    &&& c.spec_index("creatorType"@).spec_as_str() == Some("author"@)
    &&& c.spec_index("firstName"@).spec_as_str() is Some
    &&& c.spec_index("lastName"@).spec_as_str() is Some
}

/// Whether a JSON tag has a name.
pub open spec fn is_named_tag(t: JsonValue) -> bool {
    t.spec_index("tag"@).spec_as_str() is Some
}

/// A JSON item is read exactly when its `itemID` is a `u64`, its `citationKey`, `title`
/// and `itemType` are strings and its `creators`, `attachments` and `tags` are arrays,
/// however many of its attachments lie under `storage/`. It is read under that id, in
/// the given collection, with that key and title, the kind displayed for that type,
/// one author per creator that is an author with both names (and no other), one tag
/// per tag with a name (and no other), and no more files than attachments: none where
/// it has no attachment.
pub proof fn lemma_json_item_read(b: JsonValue, collection: Seq<char>)
    ensures
        json_item(b, collection) is Some <==> (
            (b.spec_get("itemID"@) matches Some(v) && v.spec_as_u64() is Some)
            && b.spec_index("citationKey"@).spec_as_str() is Some
            && b.spec_index("title"@).spec_as_str() is Some
            && b.spec_index("itemType"@).spec_as_str() is Some
            && b.spec_index("creators"@).spec_as_array() is Some
            && b.spec_index("attachments"@).spec_as_array() is Some
            && b.spec_index("tags"@).spec_as_array() is Some),
        json_item(b, collection) matches Some((k, it)) ==> {
            let creators = b.spec_index("creators"@).spec_as_array()->0;
            let tags = b.spec_index("tags"@).spec_as_array()->0;
            &&& b.spec_get("itemID"@)->0.spec_as_u64() == Some(k)
            &&& b.spec_index("citationKey"@).spec_as_str() == Some(it.id)
            &&& b.spec_index("title"@).spec_as_str() == Some(it.title)
            &&& it.collection == collection
            &&& it.kind == item_kind(b.spec_index("itemType"@).spec_as_str()->0)
            &&& it.files.len() <= b.spec_index("attachments"@).spec_as_array()->0.len()
            &&& it.authors.len() == creators.filter(|c: JsonValue| is_named_author(c)).len()
            &&& forall|q: int| 0 <= q < creators.len() && #[trigger] is_named_author(creators[q]) ==>
                it.authors.contains(AuthorView {
                    first_name: creators[q].spec_index("firstName"@).spec_as_str()->0,
                    last_name: creators[q].spec_index("lastName"@).spec_as_str()->0,
                })
            &&& it.tags.len() == tags.filter(|t: JsonValue| is_named_tag(t)).len()
            &&& forall|q: int| 0 <= q < tags.len() && #[trigger] is_named_tag(tags[q]) ==>
                it.tags.contains(tags[q].spec_index("tag"@).spec_as_str()->0)
        },
{
    reveal(json_item);
    reveal_strlit("author");
    let a = b.spec_index("attachments"@).spec_as_array();
    if a is Some {
        crate::seqs::lemma_filter_map_not_longer(a->0, |f: JsonValue| json_attachment(f));
    }
    let cs = b.spec_index("creators"@).spec_as_array();
    if cs is Some {
        let creators = cs->0;
        let f = |c: JsonValue| json_creator(c);
        crate::seqs::lemma_filter_map_len(creators, f, |c: JsonValue| is_named_author(c));
        assert forall|q: int| 0 <= q < creators.len() && #[trigger] is_named_author(creators[q]) implies
            creators.filter_map(f).contains(AuthorView {
                first_name: creators[q].spec_index("firstName"@).spec_as_str()->0,
                last_name: creators[q].spec_index("lastName"@).spec_as_str()->0,
            }) by {
            crate::seqs::lemma_filter_map_has(creators, f, q);
        }
    }
    let ts = b.spec_index("tags"@).spec_as_array();
    if ts is Some {
        let tags = ts->0;
        let f = |t: JsonValue| json_tag(t);
        crate::seqs::lemma_filter_map_len(tags, f, |t: JsonValue| is_named_tag(t));
        assert forall|q: int| 0 <= q < tags.len() && #[trigger] is_named_tag(tags[q]) implies
            tags.filter_map(f).contains(tags[q].spec_index("tag"@).spec_as_str()->0) by {
            crate::seqs::lemma_filter_map_has(tags, f, q);
        }
    }
}

/// Every item of a JSON bibliography that can be read is kept, under its id (where
/// several items share an id, the last of them is the one kept).
pub proof fn lemma_json_items_keep_every_read_item(items: Seq<JsonValue>, collection: Seq<char>)
    ensures
        forall|i: int| 0 <= i < items.len() && (#[trigger] json_item(items[i], collection)) is Some
            ==> json_items(items, collection).contains_key((json_item(items[i], collection)->0).0),
    decreases items.len(),
{
    if items.len() > 0 {
        let prev = items.drop_last();
        lemma_json_items_keep_every_read_item(prev, collection);
        assert forall|i: int| 0 <= i < items.len() && (#[trigger] json_item(items[i], collection)) is Some
            implies json_items(items, collection).contains_key((json_item(items[i], collection)->0).0) by {
            if i < items.len() - 1 {
                assert(prev[i] == items[i]);
                assert(json_item(prev[i], collection) is Some);
            }
        }
    }
}

} // verus!
