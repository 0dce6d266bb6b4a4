//! What the content route needs to serve a stored file.

use vstd::prelude::*;

use crate::state::{metadata_map, CachedBibliography};
use crate::text::concat3;

verus! {

/// The storage directory of a collection, if the bibliography has the collection.
pub fn storage_path(bib: &CachedBibliography, collection: &str) -> (r: Option<String>)
    ensures
        match r {
            Some(p) => metadata_map(bib.metadata()).contains_key(collection@)
                && p@ == metadata_map(bib.metadata())[collection@].storage_path@,
            None => !metadata_map(bib.metadata()).contains_key(collection@),
        },
{
    proof {
        use_type_invariant(bib);
    }
    let list = bib.collections_metadata();
    let mut i: usize = 0;
    while i < list.len()
        invariant
            list@ == bib.metadata(),
            crate::state::names_distinct(list@),
            i <= list@.len(),
            forall|j: int| 0 <= j < i ==> list@[j].0@ != collection@,
        decreases list@.len() - i,
    {
        if crate::text::str_eq(list[i].0.as_str(), collection) {
            proof {
                let l = list@;
                let c = choose|c: int| 0 <= c < l.len() && l[c].0@ == collection@;
                assert(c == i) by {
                    if c < i {
                    } else if c > i {
                        assert(l[i as int].0@ != l[c].0@);
                    }
                }
            }
            return Some(list[i].1.storage_path.clone());
        }
        i = i + 1;
    }
    None
}

/// The `Content-Disposition` header of a download: `attachment; filename="{name}"`.
pub fn content_disposition(name: &str) -> (s: String)
    ensures
        s@ == "attachment; filename=\""@ + name@ + "\""@,
{
    concat3("attachment; filename=\"", name, "\"")
}

} // verus!
