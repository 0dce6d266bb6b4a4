//! The cached bibliography the server answers from: the research items of all
//! collections, the metadata of each collection, and the author and tag indexes.

use std::collections::HashMap;

use vstd::prelude::*;

use crate::bib::items_view;
use crate::index::{has_key, ids_of, index_built, index_item, keys_distinct, IndexEntry};
use crate::item::{author_id, author_name, ResearchItem, ResearchItemView};
use crate::json::JsonValue;

verus! {

broadcast use vstd::std_specs::hash::group_hash_axioms;

/// Where the server finds its data.
#[derive(Debug)]
pub struct CiteSyncPaths {
    /// The directory holding one subdirectory per collection.
    pub data_dir: String,
    /// The file name of the JSON bibliography in each collection directory.
    pub bib_name: String,
}

impl Clone for CiteSyncPaths {
    fn clone(&self) -> (r: Self)
        ensures
            r.data_dir@ == self.data_dir@,
            r.bib_name@ == self.bib_name@,
    {
        CiteSyncPaths { data_dir: self.data_dir.clone(), bib_name: self.bib_name.clone() }
    }
}

/// What the server keeps of one collection.
#[derive(Debug)]
pub struct CollectionMetadata {
    /// Path of the collection's JSON bibliography.
    pub json_path: String,
    /// Path of the collection's file storage.
    pub storage_path: String,
    /// When the JSON bibliography was last modified, in nanoseconds from the Unix
    /// epoch (negative before it).
    pub last_modified: i128,
    /// The bibliography's `collections` member, if it has one.
    pub collections_structure: Option<JsonValue>,
}

/// The ids of the authors of an item.
pub open spec fn author_keys(it: ResearchItemView) -> Seq<Seq<char>> {
    it.authors.map_values(|a: crate::item::AuthorView| author_id(a))
}

/// The displayed names of the authors of an item.
pub open spec fn author_labels(it: ResearchItemView) -> Seq<Seq<char>> {
    it.authors.map_values(|a: crate::item::AuthorView| author_name(a))
}

/// Authors are indexed by id and labelled by name.
pub open spec fn author_keys_fn() -> spec_fn(ResearchItemView) -> Seq<Seq<char>> {
    |it: ResearchItemView| author_keys(it)
}

/// See `author_keys_fn`.
pub open spec fn author_labels_fn() -> spec_fn(ResearchItemView) -> Seq<Seq<char>> {
    |it: ResearchItemView| author_labels(it)
}

/// Tags are indexed and labelled by themselves.
pub open spec fn tag_keys_fn() -> spec_fn(ResearchItemView) -> Seq<Seq<char>> {
    |it: ResearchItemView| it.tags
}

/// The names of the collections of a metadata list are distinct.
pub open spec fn names_distinct(m: Seq<(String, CollectionMetadata)>) -> bool {
    forall|i: int, j: int| 0 <= i < j < m.len() ==> m[i].0@ != m[j].0@
}

/// The cached bibliography. Its indexes and its metadata list never hold a key
/// twice (its type invariant).
#[derive(Debug)]
pub struct CachedBibliography {
    /// All research items, by item id.
    research_items: HashMap<u64, ResearchItem>,
    /// The author index: author id, author name, ids of the items by the author.
    authors: Vec<IndexEntry>,
    /// The tag index: tag, tag, ids of the items with the tag.
    tags: Vec<IndexEntry>,
    /// The metadata of each collection, by collection name.
    collections_metadata: Vec<(String, CollectionMetadata)>,
}

impl CachedBibliography {
    /// All research items, by item id.
    pub closed spec fn items_map(&self) -> Map<u64, ResearchItem> {
        self.research_items@
    }

    /// The author index.
    pub closed spec fn author_index(&self) -> Seq<IndexEntry> {
        self.authors@
    }

    /// The tag index.
    pub closed spec fn tag_index(&self) -> Seq<IndexEntry> {
        self.tags@
    }

    /// The metadata of each collection.
    pub closed spec fn metadata(&self) -> Seq<(String, CollectionMetadata)> {
        self.collections_metadata@
    }

    /// The indexes and the metadata list have no key twice.
    #[verifier::type_invariant]
    pub open spec fn wf(&self) -> bool {
        &&& keys_distinct(self.author_index())
        &&& keys_distinct(self.tag_index())
        &&& names_distinct(self.metadata())
    }

    /// All research items, by item id.
    pub fn research_items(&self) -> (r: &HashMap<u64, ResearchItem>)
        ensures
            r@ == self.items_map(),
    {
        &self.research_items
    }

    /// The author index: author id, author name, ids of the items by the author.
    pub fn authors(&self) -> (r: &Vec<IndexEntry>)
        ensures
            r@ == self.author_index(),
    {
        &self.authors
    }

    /// The tag index: tag, tag, ids of the items with the tag.
    pub fn tags(&self) -> (r: &Vec<IndexEntry>)
        ensures
            r@ == self.tag_index(),
    {
        &self.tags
    }

    /// The metadata of each collection, by collection name.
    pub fn collections_metadata(&self) -> (r: &Vec<(String, CollectionMetadata)>)
        ensures
            r@ == self.metadata(),
    {
        &self.collections_metadata
    }

    /// An empty bibliography.
    pub fn new() -> (r: Self)
        ensures
            r.items_map() == Map::<u64, ResearchItem>::empty(),
            r.author_index() == Seq::<IndexEntry>::empty(),
            r.tag_index() == Seq::<IndexEntry>::empty(),
            r.metadata() == Seq::<(String, CollectionMetadata)>::empty(),
    {
        CachedBibliography {
            research_items: HashMap::new(),
            authors: Vec::new(),
            tags: Vec::new(),
            collections_metadata: Vec::new(),
        }
    }

    /// Files every research item in the author index under each of its authors'
    /// ids and in the tag index under each of its tags, adding to what the
    /// indexes hold. A new author entry is labelled with the name of one of the
    /// authors with that id; which one, and the order of the ids filed, follow the
    /// iteration order of the item map.
    pub fn build_indexes(&mut self)
        ensures
            final(self).items_map() == old(self).items_map(),
            final(self).metadata() == old(self).metadata(),
            index_built(old(self).author_index(), final(self).author_index(), items_view(old(self).items_map()),
                old(self).items_map().dom(), author_keys_fn(), author_labels_fn()),
            index_built(old(self).tag_index(), final(self).tag_index(), items_view(old(self).items_map()),
                old(self).items_map().dom(), tag_keys_fn(), tag_keys_fn()),
    {
        proof {
            use_type_invariant(&*self);
        }
        let mut authors: Vec<IndexEntry> = Vec::new();
        let mut tags: Vec<IndexEntry> = Vec::new();
        std::mem::swap(&mut authors, &mut self.authors);
        std::mem::swap(&mut tags, &mut self.tags);
        let ghost items = items_view(self.research_items@);
        let ghost dom = self.research_items@.dom();
        let ghost authors0 = authors@;
        let ghost tags0 = tags@;
        let ghost mut done: Set<u64> = Set::empty();
        proof {
            crate::index::lemma_index_built_start(authors0, items, author_keys_fn(), author_labels_fn());
            crate::index::lemma_index_built_start(tags0, items, tag_keys_fn(), tag_keys_fn());
        }
        for (k, item) in it: self.research_items.iter()
            invariant
                items == items_view(self.research_items@),
                dom == self.research_items@.dom(),
                self.research_items@ == old(self).research_items@,
                self.collections_metadata@ == old(self).collections_metadata@,
                names_distinct(self.collections_metadata@),
                authors0 == old(self).authors@,
                tags0 == old(self).tags@,
                self.authors@ == Seq::<IndexEntry>::empty(),
                self.tags@ == Seq::<IndexEntry>::empty(),
                keys_distinct(authors@),
                keys_distinct(tags@),
                it.seq().no_duplicates(),
                forall|p: int| 0 <= p < it.seq().len() ==>
                    self.research_items@.contains_key(*it.seq()[p].0)
                    && self.research_items@[*it.seq()[p].0] == *it.seq()[p].1,
                forall|x: u64| #[trigger] self.research_items@.contains_key(x) ==>
                    exists|p: int| 0 <= p < it.seq().len() && *it.seq()[p].0 == x,
                forall|x: u64| #[trigger] done.contains(x) <==> exists|p: int| 0 <= p < it.index() && *it.seq()[p].0 == x,
                it.index() == it.seq().len() ==> done == dom,
                index_built(authors0, authors@, items, done, author_keys_fn(), author_labels_fn()),
                index_built(tags0, tags@, items, done, tag_keys_fn(), tag_keys_fn()),
        {
            let ghost i = it.index() as int;
            assert(*k == *it.seq()[i].0);
            assert(*item == *it.seq()[i].1);
            let ghost kc = *k;
            assert(!done.contains(kc)) by {
                let s = it.seq();
                if done.contains(kc) {
                    let p = choose|p: int| 0 <= p < i && *s[p].0 == kc;
                    assert(*s[p].1 == *s[i].1);
                    assert(s[p] == s[i]);
                }
            }
            let ghost a_before = authors@;
            let ghost t_before = tags@;
            let mut ids: Vec<String> = Vec::new();
            let mut names: Vec<String> = Vec::new();
            let mut j: usize = 0;
            while j < item.authors.len()
                invariant
                    j <= item.authors@.len(),
                    ids@.len() == j,
                    names@.len() == j,
                    forall|q: int| 0 <= q < j ==> ids@[q]@ == author_id(item.authors@[q]@),
                    forall|q: int| 0 <= q < j ==> names@[q]@ == author_name(item.authors@[q]@),
                decreases item.authors@.len() - j,
            {
                ids.push(item.authors[j].get_id());
                names.push(item.authors[j].get_name());
                j = j + 1;
            }
            assert(crate::item::strings_view(ids@) =~= author_keys(item@));
            assert(crate::item::strings_view(names@) =~= author_labels(item@));
            index_item(&mut authors, &ids, &names, *k);
            index_item(&mut tags, &item.tags, &item.tags, *k);
            proof {
                assert(items[kc] == item@);
                assert(author_keys_fn()(items[kc]) == author_keys(item@));
                assert(author_labels_fn()(items[kc]) == author_labels(item@));
                assert(tag_keys_fn()(items[kc]) == item@.tags);
                crate::index::lemma_index_built_step(authors0, a_before, authors@, items, done, kc,
                    author_keys_fn(), author_labels_fn());
                crate::index::lemma_index_built_step(tags0, t_before, tags@, items, done, kc,
                    tag_keys_fn(), tag_keys_fn());
            }
            proof {
                done = done.insert(kc);
            }
            assert forall|x: u64| #[trigger] done.contains(x) <==> exists|p: int| 0 <= p < i + 1 && *it.seq()[p].0 == x by {
                if x == kc {
                    assert(*it.seq()[i].0 == x);
                }
            }
            assert(i + 1 == it.seq().len() ==> done == dom) by {
                if i + 1 == it.seq().len() {
                    assert forall|x: u64| #[trigger] done.contains(x) <==> dom.contains(x) by {
                        if dom.contains(x) {
                            assert(self.research_items@.contains_key(x));
                        }
                    }
                    assert(done =~= dom);
                }
            }
        }
        self.authors = authors;
        self.tags = tags;
    }
}

/// One collection as read from disk.
#[derive(Debug)]
pub struct LoadedCollection {
    /// The collection's name (its directory's name).
    pub name: String,
    /// Path of its JSON bibliography.
    pub json_path: String,
    /// Path of its file storage.
    pub storage_path: String,
    /// When its JSON bibliography was last modified (see `CollectionMetadata`).
    pub last_modified: i128,
    /// Its JSON bibliography.
    pub bibliography: JsonValue,
}

/// The metadata kept of a loaded collection.
pub open spec fn loaded_metadata(c: LoadedCollection) -> CollectionMetadata {
    CollectionMetadata {
        json_path: c.json_path,
        storage_path: c.storage_path,
        last_modified: c.last_modified,
        collections_structure: c.bibliography.spec_get("collections"@),
    }
}

/// The metadata of a list, by collection name.
pub open spec fn metadata_map(list: Seq<(String, CollectionMetadata)>) -> Map<Seq<char>, CollectionMetadata> {
    Map::new(
        |n: Seq<char>| exists|i: int| 0 <= i < list.len() && list[i].0@ == n,
        |n: Seq<char>| list[choose|i: int| 0 <= i < list.len() && list[i].0@ == n].1,
    )
}

/// The metadata of loaded collections by name; of two collections with one name
/// the later one is kept.
pub open spec fn loaded_metadata_map(cs: Seq<LoadedCollection>) -> Map<Seq<char>, CollectionMetadata>
    decreases cs.len(),
{
    if cs.len() == 0 {
        Map::empty()
    } else {
        loaded_metadata_map(cs.drop_last()).insert(cs.last().name@, loaded_metadata(cs.last()))
    }
}

/// The bibliographies of loaded collections, each under its collection name.
pub open spec fn loaded_bibliographies(cs: Seq<LoadedCollection>) -> Seq<(String, JsonValue)> {
    cs.map_values(|c: LoadedCollection| (c.name, c.bibliography))
}

/// Records the metadata of a collection, replacing what was kept under its name.
fn set_metadata(list: &mut Vec<(String, CollectionMetadata)>, name: String, meta: CollectionMetadata)
    requires
        names_distinct(old(list)@),
    ensures
        names_distinct(final(list)@),
        metadata_map(final(list)@) == metadata_map(old(list)@).insert(name@, meta),
{
    let ghost l0 = list@;
    let ghost nm = name@;
    let ghost mt = meta;
    let mut i: usize = 0;
    while i < list.len()
        invariant
            nm == name@,
            mt == meta,
            l0 == old(list)@,
            list@ == l0,
            names_distinct(l0),
            i <= l0.len(),
            forall|j: int| 0 <= j < i ==> l0[j].0@ != name@,
        decreases l0.len() - i,
    {
        if crate::text::str_eq(list[i].0.as_str(), name.as_str()) {
            let _ = list.remove(i);
            list.insert(i, (name, meta));
            proof {
                let l1 = list@;
                assert(forall|j: int| 0 <= j < l1.len() && j != i ==> l1[j] == l0[j]);
                assert(forall|j: int| 0 <= j < l1.len() ==> l1[j].0@ == l0[j].0@);
                assert(names_distinct(l1));
                assert forall|n: Seq<char>| #[trigger] metadata_map(l1).contains_key(n)
                    <==> metadata_map(l0).insert(nm, mt).contains_key(n) by {
                    if metadata_map(l0).contains_key(n) {
                        let p = choose|p: int| 0 <= p < l0.len() && l0[p].0@ == n;
                        assert(l1[p].0@ == n);
                    }
                    if n == nm {
                        assert(l1[i as int].0@ == n);
                    }
                }
                assert forall|n: Seq<char>| #[trigger] metadata_map(l1).contains_key(n) implies
                    metadata_map(l1)[n] == metadata_map(l0).insert(nm, mt)[n] by {
                    let p = choose|p: int| 0 <= p < l1.len() && l1[p].0@ == n;
                    if n == nm {
                        assert(p == i);
                    } else {
                        let q = choose|q: int| 0 <= q < l0.len() && l0[q].0@ == n;
                        assert(p == q);
                    }
                }
                assert(metadata_map(l1) =~= metadata_map(l0).insert(nm, mt));
            }
            return;
        }
        i = i + 1;
    }
    list.push((name, meta));
    proof {
        let l1 = list@;
        let n0 = l0.len() as int;
        assert(forall|j: int| 0 <= j < n0 ==> l1[j] == l0[j]);
        assert(names_distinct(l1));
        assert forall|n: Seq<char>| #[trigger] metadata_map(l1).contains_key(n)
            <==> metadata_map(l0).insert(nm, mt).contains_key(n) by {
            if metadata_map(l0).contains_key(n) {
                let p = choose|p: int| 0 <= p < l0.len() && l0[p].0@ == n;
                assert(l1[p].0@ == n);
            }
            if metadata_map(l1).contains_key(n) && n != nm {
                let p = choose|p: int| 0 <= p < l1.len() && l1[p].0@ == n;
                assert(p < n0);
                assert(l0[p].0@ == n);
            }
            if n == nm {
                assert(l1[n0].0@ == n);
            }
        }
        assert forall|n: Seq<char>| #[trigger] metadata_map(l1).contains_key(n) implies
            metadata_map(l1)[n] == metadata_map(l0).insert(nm, mt)[n] by {
            let p = choose|p: int| 0 <= p < l1.len() && l1[p].0@ == n;
            if n == nm {
                assert(p == n0);
            } else {
                let q = choose|q: int| 0 <= q < l0.len() && l0[q].0@ == n;
                assert(p == q);
            }
        }
        assert(metadata_map(l1) =~= metadata_map(l0).insert(nm, mt));
    }
}

/// The recorded modification times of a metadata list, in order.
pub open spec fn recorded_times(list: Seq<(String, CollectionMetadata)>) -> Seq<i128> {
    list.map_values(|m: (String, CollectionMetadata)| m.1.last_modified)
}

/// Whether a cache must be read again: when it holds no collection, or when some
/// observed modification time differs from the recorded one.
pub open spec fn needs_reload(recorded: Seq<i128>, observed: Seq<Option<i128>>) -> bool {
    recorded.len() == 0 || exists|i: int|
        0 <= i < observed.len() && #[trigger] observed[i] is Some && observed[i]->0 != recorded[i]
}

/// A cache whose bibliographies all still have their recorded modification times
/// need not be read again, unless it holds no collection.
pub proof fn lemma_unchanged_needs_no_reload(recorded: Seq<i128>, observed: Seq<Option<i128>>)
    requires
        recorded.len() > 0,
        observed.len() == recorded.len(),
        forall|i: int| 0 <= i < recorded.len() ==> observed[i] == Some(recorded[i]),
    ensures
        !needs_reload(recorded, observed),
{
}

/// A cache in which a bibliography has a modification time other than the
/// recorded one must be read again.
pub proof fn lemma_changed_needs_reload(recorded: Seq<i128>, observed: Seq<Option<i128>>, i: int)
    requires
        0 <= i < observed.len(),
        observed[i] is Some,
        observed[i]->0 != recorded[i],
    ensures
        needs_reload(recorded, observed),
{
}

impl CachedBibliography {
    /// Builds the cache from the collections read from disk: the metadata of each
    /// collection, the items of every readable bibliography (later collections
    /// replacing items of earlier ones with the same id), and the author and tag
    /// indexes over those items.
    pub fn from_collections(collections: Vec<LoadedCollection>) -> (r: Self)
        ensures
            metadata_map(r.metadata()) == loaded_metadata_map(collections@),
            items_view(r.items_map()) == crate::bib::json_collections(loaded_bibliographies(collections@)),
            index_built(Seq::empty(), r.author_index(), items_view(r.items_map()), r.items_map().dom(),
                author_keys_fn(), author_labels_fn()),
            index_built(Seq::empty(), r.tag_index(), items_view(r.items_map()), r.items_map().dom(),
                tag_keys_fn(), tag_keys_fn()),
    {
        let ghost cs = collections@;
        let ghost bibs = loaded_bibliographies(cs);
        let mut research_items: HashMap<u64, ResearchItem> = HashMap::new();
        let mut metadata: Vec<(String, CollectionMetadata)> = Vec::new();
        assert(metadata_map(metadata@) =~= loaded_metadata_map(cs.take(0)));
        assert(items_view(research_items@) =~= crate::bib::json_collections(bibs.take(0)));
        for c in it: collections
            invariant
                it.seq() == cs,
                bibs == loaded_bibliographies(cs),
                names_distinct(metadata@),
                metadata_map(metadata@) == loaded_metadata_map(cs.take(it.index() as int)),
                items_view(research_items@) == crate::bib::json_collections(bibs.take(it.index() as int)),
        {
            let ghost i = it.index() as int;
            assert(c == cs[i]);
            assert(cs.take(i + 1).drop_last() =~= cs.take(i));
            assert(bibs.take(i + 1).drop_last() =~= bibs.take(i));
            let _ = crate::bib::insert_json_items(&c.bibliography, c.name.as_str(), &mut research_items);
            let LoadedCollection { name, json_path, storage_path, last_modified, bibliography } = c;
            let collections_structure = crate::json::take_member(bibliography, "collections");
            let meta = CollectionMetadata { json_path, storage_path, last_modified, collections_structure };
            set_metadata(&mut metadata, name, meta);
        }
        assert(cs.take(cs.len() as int) =~= cs);
        assert(bibs.take(bibs.len() as int) =~= bibs);
        let mut cache = CachedBibliography {
            research_items,
            authors: Vec::new(),
            tags: Vec::new(),
            collections_metadata: metadata,
        };
        cache.build_indexes();
        cache
    }

    /// Whether the cache must be read again: when it holds no collection, or when the
    /// observed modification time of some collection's bibliography (`observed[i]`
    /// for the `i`-th metadata entry; `None` where none could be read) differs from the
    /// recorded one.
    pub fn should_reload(&self, observed: &Vec<Option<i128>>) -> (r: bool)
        requires
            observed@.len() == self.metadata().len(),
        ensures
            r == needs_reload(recorded_times(self.metadata()), observed@),
    {
        if self.collections_metadata.len() == 0 {
            return true;
        }
        let mut i: usize = 0;
        while i < observed.len()
            invariant
                observed@.len() == self.collections_metadata@.len(),
                i <= observed@.len(),
                forall|j: int| 0 <= j < i ==> !(#[trigger] observed@[j] is Some
                    && observed@[j]->0 != self.collections_metadata@[j].1.last_modified),
            decreases observed@.len() - i,
        {
            match observed[i] {
                Some(t) => {
                    if t != self.collections_metadata[i].1.last_modified {
                        return true;
                    }
                },
                None => {},
            }
            i = i + 1;
        }
        false
    }
}

/// How often a value occurs among the images of a sequence: as often as elements
/// of the sequence map to it.
proof fn lemma_occurrences_of_images<A>(s: Seq<A>, g: spec_fn(A) -> Seq<char>, y: Seq<char>, pred: spec_fn(A) -> bool)
    requires
        forall|a: A| #[trigger] pred(a) == (g(a) == y),
    ensures
        crate::index::occurrences(s.map_values(g), y) == s.filter(pred).len(),
    decreases s.len(),
{
    reveal(Seq::filter);
    if s.len() > 0 {
        lemma_occurrences_of_images(s.drop_last(), g, y, pred);
        assert(s.map_values(g).drop_last() =~= s.drop_last().map_values(g));
    }
}

/// Once the author index is built over a map of items, every author of every item
/// has an entry under the author's id, and the item is filed there once per author
/// of it with that id.
pub proof fn lemma_every_author_indexed(author_idx: Seq<IndexEntry>, items: Map<u64, ResearchItemView>)
    requires
        index_built(Seq::empty(), author_idx, items, items.dom(), author_keys_fn(), author_labels_fn()),
    ensures
        forall|k: u64, p: int| items.contains_key(k) && 0 <= p < items[k].authors.len() ==> {
            let key = #[trigger] author_id(items[k].authors[p]);
            &&& has_key(author_idx, key)
            &&& crate::index::occurrences(ids_of(author_idx, key), k)
                == items[k].authors.filter(|a: crate::item::AuthorView| author_id(a) == key).len()
        },
{
    crate::index::lemma_built_index_exact(author_idx, items, author_keys_fn(), author_labels_fn());
    assert forall|k: u64, p: int| items.contains_key(k) && 0 <= p < items[k].authors.len() implies {
        let key = #[trigger] author_id(items[k].authors[p]);
        &&& has_key(author_idx, key)
        &&& crate::index::occurrences(ids_of(author_idx, key), k)
            == items[k].authors.filter(|a: crate::item::AuthorView| author_id(a) == key).len()
    } by {
        let key = author_id(items[k].authors[p]);
        let g = |a: crate::item::AuthorView| author_id(a);
        let keys = author_keys_fn()(items[k]);
        assert(keys =~= items[k].authors.map_values(g));
        assert(keys[p] == key);
        assert(keys.contains(key));
        assert(has_key(author_idx, key));
        lemma_occurrences_of_images(items[k].authors, g, key, |a: crate::item::AuthorView| author_id(a) == key);
    }
}

/// Once the tag index is built over a map of items, every tag of every item has an
/// entry, and the item is filed there once per time it carries the tag.
pub proof fn lemma_every_tag_indexed(tag_idx: Seq<IndexEntry>, items: Map<u64, ResearchItemView>)
    requires
        index_built(Seq::empty(), tag_idx, items, items.dom(), tag_keys_fn(), tag_keys_fn()),
    ensures
        forall|k: u64, p: int| items.contains_key(k) && 0 <= p < items[k].tags.len() ==> {
            let tag = #[trigger] items[k].tags[p];
            &&& has_key(tag_idx, tag)
            &&& crate::index::occurrences(ids_of(tag_idx, tag), k)
                == items[k].tags.filter(|t: Seq<char>| t == tag).len()
        },
{
    crate::index::lemma_built_index_exact(tag_idx, items, tag_keys_fn(), tag_keys_fn());
    assert forall|k: u64, p: int| items.contains_key(k) && 0 <= p < items[k].tags.len() implies {
        let tag = #[trigger] items[k].tags[p];
        &&& has_key(tag_idx, tag)
        &&& crate::index::occurrences(ids_of(tag_idx, tag), k)
            == items[k].tags.filter(|t: Seq<char>| t == tag).len()
    } by {
        let tag = items[k].tags[p];
        let g = |t: Seq<char>| t;
        let keys = tag_keys_fn()(items[k]);
        assert(keys =~= items[k].tags.map_values(g));
        assert(keys[p] == tag);
        assert(keys.contains(tag));
        lemma_occurrences_of_images(items[k].tags, g, tag, |t: Seq<char>| t == tag);
    }
}

} // verus!
