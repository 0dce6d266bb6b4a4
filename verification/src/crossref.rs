//! What decides whether `biblatex` finishes reading a BibTeX source: the
//! abbreviations (`@string`) that the entries' fields use, and the `crossref` /
//! `xdata` links between entries. `biblatex` expands abbreviations and follows links
//! recursively without looking for cycles, so a cycle among the abbreviations that
//! a field uses, or among the links, keeps it from ever finishing.

use vstd::prelude::*;

use crate::graph::{acyclic_from, acyclic_from_roots, represents};
use crate::text::{chars_eq, str_eq, to_chars};

verus! {

/// A piece of a raw field value: text, or the name of an abbreviation.
#[derive(Debug)]
pub enum RawPiece {
    /// Text as written between braces or quotes, or a number.
    Text(String),
    /// The name of an abbreviation (`@string`) or a month.
    Abbreviation(String),
}

/// The abstract value of a piece of a raw field value.
pub enum RawPieceView {
    Text(Seq<char>),
    Abbreviation(Seq<char>),
}

impl View for RawPiece {
    type V = RawPieceView;

    open spec fn view(&self) -> RawPieceView {
        match self {
            RawPiece::Text(t) => RawPieceView::Text(t@),
            RawPiece::Abbreviation(a) => RawPieceView::Abbreviation(a@),
        }
    }
}

/// A field of a raw entry: its name as written, and the pieces of its value
/// (joined with `#` in the source).
#[derive(Debug)]
pub struct RawField {
    pub name: String,
    pub value: Vec<RawPiece>,
}

/// The abstract value of a raw field.
pub struct RawFieldView {
    pub name: Seq<char>,
    pub value: Seq<RawPieceView>,
}

impl View for RawField {
    type V = RawFieldView;

    open spec fn view(&self) -> RawFieldView {
        RawFieldView { name: self.name@, value: piece_views(self.value@) }
    }
}

/// An entry of a BibTeX source before its fields are resolved.
#[derive(Debug)]
pub struct RawBibEntry {
    /// The citation key.
    pub key: String,
    /// The fields, in the order written.
    pub fields: Vec<RawField>,
}

/// The abstract value of a raw entry.
pub struct RawBibEntryView {
    pub key: Seq<char>,
    pub fields: Seq<RawFieldView>,
}

impl View for RawBibEntry {
    type V = RawBibEntryView;

    open spec fn view(&self) -> RawBibEntryView {
        RawBibEntryView { key: self.key@, fields: field_views(self.fields@) }
    }
}

/// The abstract values of raw entries.
pub open spec fn raw_views(es: Seq<RawBibEntry>) -> Seq<RawBibEntryView> {
    es.map_values(|e: RawBibEntry| e@)
}

/// The abstract values of value pieces.
pub open spec fn piece_views(v: Seq<RawPiece>) -> Seq<RawPieceView> {
    v.map_values(|p: RawPiece| p@)
}

/// The abstract values of raw fields.
pub open spec fn field_views(v: Seq<RawField>) -> Seq<RawFieldView> {
    v.map_values(|f: RawField| f@)
}

/// A raw BibTeX source: its entries and its abbreviation definitions, in order.
#[derive(Debug)]
pub struct RawBibliography {
    pub entries: Vec<RawBibEntry>,
    /// The `@string` definitions: name and value.
    pub abbreviations: Vec<RawField>,
}

/// The abstract value of a raw source.
pub struct RawBibliographyView {
    pub entries: Seq<RawBibEntryView>,
    pub abbreviations: Seq<RawFieldView>,
}

impl View for RawBibliography {
    type V = RawBibliographyView;

    open spec fn view(&self) -> RawBibliographyView {
        RawBibliographyView {
            entries: raw_views(self.entries@),
            abbreviations: field_views(self.abbreviations@),
        }
    }
}

/// The position of the definition of an abbreviation that is in force: the last one.
pub open spec fn abbreviation_def(abbrs: Seq<RawFieldView>, name: Seq<char>) -> Option<int>
    decreases abbrs.len(),
{
    if abbrs.len() == 0 {
        None
    } else if abbrs.last().name == name {
        Some(abbrs.len() - 1)
    } else {
        abbreviation_def(abbrs.drop_last(), name)
    }
}

/// Whether a piece of a value is the abbreviation defined at position `k`.
pub open spec fn piece_uses(abbrs: Seq<RawFieldView>, piece: RawPieceView, k: int) -> bool {
    match piece {
        RawPieceView::Abbreviation(a) => abbreviation_def(abbrs, a) == Some(k),
        RawPieceView::Text(_) => false,
    }
}

/// Whether a value uses the abbreviation defined at position `k`.
pub open spec fn uses(abbrs: Seq<RawFieldView>, value: Seq<RawPieceView>, k: int) -> bool {
    exists|p: int| 0 <= p < value.len() && #[trigger] piece_uses(abbrs, value[p], k)
}

/// Abbreviation `i`'s value uses abbreviation `j`.
pub open spec fn abbreviation_edge(abbrs: Seq<RawFieldView>) -> spec_fn(int, int) -> bool {
    |i: int, j: int| uses(abbrs, abbrs[i].value, j)
}

/// Whether some field of some entry uses abbreviation `k`.
pub open spec fn used_by_entries(raw: RawBibliographyView, k: int) -> bool {
    exists|e: int, f: int| 0 <= e < raw.entries.len() && 0 <= f < raw.entries[e].fields.len()
        && #[trigger] uses(raw.abbreviations, raw.entries[e].fields[f].value, k)
}

/// The abbreviations that the entries' fields use.
pub open spec fn abbreviation_roots(raw: RawBibliographyView) -> Seq<bool> {
    Seq::new(raw.abbreviations.len(), |k: int| used_by_entries(raw, k))
}

/// Whether expanding the abbreviations that the entries' fields use can never come
/// back to an abbreviation it is expanding.
pub open spec fn abbreviations_acyclic(raw: RawBibliographyView) -> bool {
    acyclic_from(raw.abbreviations.len(), abbreviation_edge(raw.abbreviations), abbreviation_roots(raw))
}

/// What `biblatex` reads of one entry with its `crossref` and `xdata` fields renamed
/// (see `unlinked_name`), so that it follows no link.
#[derive(Debug)]
pub struct LinkInfo {
    /// The citation key.
    pub key: String,
    /// The `ids` field as a list: the aliases the entry is also found under.
    pub aliases: Option<Vec<String>>,
    /// The `crossref` field as a string.
    pub crossref: Option<String>,
    /// The `xdata` field as a list.
    pub xdata: Option<Vec<String>>,
}

/// The abstract value of the link information of an entry.
pub struct LinkInfoView {
    pub key: Seq<char>,
    pub aliases: Option<Seq<Seq<char>>>,
    pub crossref: Option<Seq<char>>,
    pub xdata: Option<Seq<Seq<char>>>,
}

/// The abstract values of optional lists of strings.
pub open spec fn opt_strings(o: Option<Vec<String>>) -> Option<Seq<Seq<char>>> {
    match o {
        Some(v) => Some(crate::item::strings_view(v@)),
        None => None,
    }
}

impl View for LinkInfo {
    type V = LinkInfoView;

    open spec fn view(&self) -> LinkInfoView {
        LinkInfoView {
            key: self.key@,
            aliases: opt_strings(self.aliases),
            crossref: crate::item::opt_view(self.crossref),
            xdata: opt_strings(self.xdata),
        }
    }
}

/// The abstract values of link information.
pub open spec fn link_views(ls: Seq<LinkInfo>) -> Seq<LinkInfoView> {
    ls.map_values(|l: LinkInfo| l@)
}

/// Whether an entry is found under a name: its key or one of its aliases.
pub open spec fn answers_to(l: LinkInfoView, name: Seq<char>) -> bool {
    l.key == name || match l.aliases {
        Some(a) => a.contains(name),
        None => false,
    }
}

/// The entry found under a name: the last one that answers to it (later entries'
/// keys and aliases replace earlier ones in `biblatex`'s key map).
pub open spec fn entry_for(ls: Seq<LinkInfoView>, name: Seq<char>) -> Option<int>
    decreases ls.len(),
{
    if ls.len() == 0 {
        None
    } else if answers_to(ls.last(), name) {
        Some(ls.len() - 1)
    } else {
        entry_for(ls.drop_last(), name)
    }
}

/// Whether entry `i`'s `xdata` list names entry `j`.
pub open spec fn xdata_names(ls: Seq<LinkInfoView>, i: int, j: int) -> bool {
    match ls[i].xdata {
        Some(xs) => exists|q: int| 0 <= q < xs.len() && entry_for(ls, #[trigger] xs[q]) == Some(j),
        None => false,
    }
}

/// Entry `i` links to entry `j`: its `crossref` or its `xdata` names it.
pub open spec fn link_edge(ls: Seq<LinkInfoView>) -> spec_fn(int, int) -> bool {
    |i: int, j: int| (match ls[i].crossref {
        Some(c) => entry_for(ls, c) == Some(j),
        None => false,
    }) || xdata_names(ls, i, j)
}

/// Whether following links from any entry can never come back to an entry it
/// started from.
pub open spec fn links_acyclic(ls: Seq<LinkInfoView>) -> bool {
    acyclic_from(ls.len(), link_edge(ls), Seq::new(ls.len(), |i: int| true))
}

/// The name a field is read under for the link analysis: `crossref` and `xdata`
/// fields (in any ASCII case) are renamed to `#crossref` and `#xdata`, which no
/// field name can be, so that `biblatex` follows no link; other names stay.
pub open spec fn unlinked_name(name: Seq<char>) -> Seq<char> {
    if ascii_lower(name) == "crossref"@ {
        "#crossref"@
    } else if ascii_lower(name) == "xdata"@ {
        "#xdata"@
    } else {
        name
    }
}

/// A character with ASCII uppercase letters lowered.
pub open spec fn ascii_lower_char(c: char) -> char {
    if 'A' <= c && c <= 'Z' {
        ((c as u32) + 32) as char
    } else {
        c
    }
}

/// A string with ASCII uppercase letters lowered (field names are compared so).
pub open spec fn ascii_lower(s: Seq<char>) -> Seq<char> {
    s.map_values(|c: char| ascii_lower_char(c))
}

/// A character with ASCII uppercase letters lowered.
fn lower_char(c: char) -> (r: char)
    ensures
        r == ascii_lower_char(c),
{
    if 'A' <= c && c <= 'Z' {
        let u: u8 = c as u8;
        (u + 32) as char
    } else {
        c
    }
}

/// Whether a field name, with ASCII letters lowered, is the given word.
fn name_is(name: &str, word: &str) -> (r: bool)
    ensures
        r == (ascii_lower(name@) == word@),
{
    let cs = to_chars(name);
    let mut lowered: Vec<char> = Vec::new();
    let mut i: usize = 0;
    while i < cs.len()
        invariant
            cs@ == name@,
            i <= cs@.len(),
            lowered@ == ascii_lower(cs@.take(i as int)),
        decreases cs@.len() - i,
    {
        lowered.push(lower_char(cs[i]));
        i = i + 1;
        assert(lowered@ =~= ascii_lower(cs@.take(i as int)));
    }
    assert(cs@.take(cs@.len() as int) =~= cs@);
    let w = to_chars(word);
    chars_eq(lowered.as_slice(), w.as_slice())
}


/// The name a field is read under for the link analysis (see `unlinked_name`).
pub fn unlinked_field_name<'a>(name: &'a str) -> (r: &'a str)
    ensures
        r@ == unlinked_name(name@),
{
    if name_is(name, "crossref") {
        "#crossref"
    } else if name_is(name, "xdata") {
        "#xdata"
    } else {
        name
    }
}

/// The definition in force is a position of the list.
proof fn lemma_abbreviation_def_range(abbrs: Seq<RawFieldView>, name: Seq<char>)
    ensures
        abbreviation_def(abbrs, name) matches Some(k) ==> 0 <= k < abbrs.len(),
    decreases abbrs.len(),
{
    if abbrs.len() > 0 {
        lemma_abbreviation_def_range(abbrs.drop_last(), name);
    }
}

/// Finds the definition in force of an abbreviation.
fn find_abbreviation(abbrs: &Vec<RawField>, name: &str) -> (r: Option<usize>)
    ensures
        match r {
            Some(k) => abbreviation_def(field_views(abbrs@), name@) == Some(k as int),
            None => abbreviation_def(field_views(abbrs@), name@) is None,
        },
{
    let ghost av = field_views(abbrs@);
    let mut i: usize = abbrs.len();
    assert(av.take(i as int) =~= av);
    while i > 0
        invariant
            av == field_views(abbrs@),
            i <= abbrs@.len(),
            abbreviation_def(av, name@) == abbreviation_def(av.take(i as int), name@),
        decreases i,
    {
        i = i - 1;
        let ghost t = av.take(i + 1);
        assert(t.last() == abbrs@[i as int]@);
        assert(t.drop_last() =~= av.take(i as int));
        if str_eq(abbrs[i].name.as_str(), name) {
            return Some(i);
        }
    }
    assert(av.take(0).len() == 0);
    None
}

/// The abbreviations that a value uses, each as often as it is used.
fn uses_row(abbrs: &Vec<RawField>, value: &Vec<RawPiece>) -> (row: Vec<usize>)
    ensures
        forall|q: int| 0 <= q < row@.len() ==> (#[trigger] row@[q]) < abbrs@.len()
            && uses(field_views(abbrs@), piece_views(value@), row@[q] as int),
        forall|k: int| 0 <= k < abbrs@.len() && #[trigger] uses(field_views(abbrs@),
            piece_views(value@), k) ==> exists|q: int| 0 <= q < row@.len() && row@[q] as int == k,
{
    let ghost av = field_views(abbrs@);
    let ghost vv = piece_views(value@);
    let mut row: Vec<usize> = Vec::new();
    let mut p: usize = 0;
    while p < value.len()
        invariant
            av == field_views(abbrs@),
            vv == piece_views(value@),
            p <= value@.len(),
            forall|q: int| 0 <= q < row@.len() ==> (#[trigger] row@[q]) < abbrs@.len() && uses(av, vv, row@[q] as int),
            forall|k: int, p2: int| 0 <= p2 < p && #[trigger] piece_uses(av, vv[p2], k)
                ==> exists|q: int| 0 <= q < row@.len() && row@[q] as int == k,
        decreases value@.len() - p,
    {
        let ghost row0 = row@;
        assert(vv[p as int] == value@[p as int]@);
        match &value[p] {
            RawPiece::Abbreviation(a) => {
                match find_abbreviation(abbrs, a.as_str()) {
                    Some(k) => {
                        proof {
                            lemma_abbreviation_def_range(av, a@);
                            assert(piece_uses(av, vv[p as int], k as int));
                        }
                        row.push(k);
                        assert(row@[row@.len() - 1] == k);
                    },
                    None => {},
                }
            },
            RawPiece::Text(_) => {},
        }
        assert forall|k: int, p2: int| 0 <= p2 < p + 1 && #[trigger] piece_uses(av, vv[p2], k)
            implies exists|q: int| 0 <= q < row@.len() && row@[q] as int == k by {
            if p2 < p {
                let q = choose|q: int| 0 <= q < row0.len() && row0[q] as int == k;
                assert(row@[q] == row0[q]);
            } else {
                assert(row@[row@.len() - 1] as int == k);
            }
        }
        assert forall|q: int| 0 <= q < row@.len() implies (#[trigger] row@[q]) < abbrs@.len() && uses(av, vv, row@[q] as int) by {
            if q < row0.len() {
                assert(row@[q] == row0[q]);
            }
        }
        p = p + 1;
    }
    row
}

/// Whether expanding the abbreviations that the entries' fields use can never come
/// back to an abbreviation it is expanding.
pub fn abbreviations_are_acyclic(raw: &RawBibliography) -> (r: bool)
    ensures
        r == abbreviations_acyclic(raw@),
{
    let ghost rv = raw@;
    let ghost av = rv.abbreviations;
    let n = raw.abbreviations.len();
    let mut succ: Vec<Vec<usize>> = Vec::new();
    let mut i: usize = 0;
    while i < n
        invariant
            rv == raw@,
            av == rv.abbreviations,
            n == av.len(),
            i <= n,
            succ@.len() == i,
            forall|a: int, q: int| 0 <= a < i && 0 <= q < succ@[a]@.len() ==>
                (#[trigger] succ@[a]@[q]) < n && abbreviation_edge(av)(a, succ@[a]@[q] as int),
            forall|a: int, j: int| 0 <= a < i && 0 <= j < n && #[trigger] abbreviation_edge(av)(a, j) ==>
                exists|q: int| 0 <= q < succ@[a]@.len() && succ@[a]@[q] as int == j,
        decreases n - i,
    {
        let row = uses_row(&raw.abbreviations, &raw.abbreviations[i].value);
        let ghost succ0 = succ@;
        let ghost rv0 = row@;
        assert(av[i as int].value == piece_views(raw.abbreviations@[i as int].value@));
        succ.push(row);
        assert(succ@[i as int]@ == rv0);
        proof {
            assert forall|a: int, q: int| 0 <= a < i + 1 && 0 <= q < succ@[a]@.len() implies
                (#[trigger] succ@[a]@[q]) < n && abbreviation_edge(av)(a, succ@[a]@[q] as int) by {
                if a < i {
                    assert(succ@[a] == succ0[a]);
                }
            }
            assert forall|a: int, j: int| 0 <= a < i + 1 && 0 <= j < n && #[trigger] abbreviation_edge(av)(a, j) implies
                exists|q: int| 0 <= q < succ@[a]@.len() && succ@[a]@[q] as int == j by {
                if a < i {
                    assert(succ@[a] == succ0[a]);
                    let q = choose|q: int| 0 <= q < succ0[a]@.len() && succ0[a]@[q] as int == j;
                    assert(succ@[a]@[q] as int == j);
                } else {
                    let q = choose|q: int| 0 <= q < rv0.len() && rv0[q] as int == j;
                    assert(succ@[a]@[q] as int == j);
                }
            }
        }
        i = i + 1;
    }
    let mut roots: Vec<bool> = Vec::new();
    let mut k: usize = 0;
    while k < n
        invariant
            k <= n,
            roots@.len() == k,
            forall|x: int| 0 <= x < k ==> !(#[trigger] roots@[x]),
        decreases n - k,
    {
        roots.push(false);
        k = k + 1;
    }
    let mut e: usize = 0;
    while e < raw.entries.len()
        invariant
            rv == raw@,
            av == rv.abbreviations,
            n == av.len(),
            roots@.len() == n,
            e <= rv.entries.len(),
            forall|x: int| 0 <= x < n ==> (#[trigger] roots@[x] <==> exists|e2: int, f: int| 0 <= e2 < e
                && 0 <= f < rv.entries[e2].fields.len() && #[trigger] uses(av, rv.entries[e2].fields[f].value, x)),
        decreases rv.entries.len() - e,
    {
        let entry = &raw.entries[e];
        assert(rv.entries[e as int] == entry@);
        let mut f: usize = 0;
        while f < entry.fields.len()
            invariant
                rv == raw@,
                av == rv.abbreviations,
                n == av.len(),
                roots@.len() == n,
                e < rv.entries.len(),
                rv.entries[e as int] == entry@,
                f <= entry.fields@.len(),
                forall|x: int| 0 <= x < n ==> (#[trigger] roots@[x] <==> (exists|e2: int, f2: int| 0 <= e2 < e
                    && 0 <= f2 < rv.entries[e2].fields.len() && #[trigger] uses(av, rv.entries[e2].fields[f2].value, x))
                    || exists|f2: int| 0 <= f2 < f && #[trigger] uses(av, rv.entries[e as int].fields[f2].value, x)),
            decreases entry.fields@.len() - f,
        {
            assert(rv.entries[e as int].fields[f as int] == entry.fields@[f as int]@);
            let row = uses_row(&raw.abbreviations, &entry.fields[f].value);
            let mut q: usize = 0;
            let ghost r0 = roots@;
            while q < row.len()
                invariant
                    roots@.len() == n,
                    q <= row@.len(),
                    forall|q2: int| 0 <= q2 < row@.len() ==> (#[trigger] row@[q2]) < n,
                    forall|x: int| 0 <= x < n ==> (#[trigger] roots@[x] <==> r0[x]
                        || exists|q2: int| 0 <= q2 < q && row@[q2] as int == x),
                decreases row@.len() - q,
            {
                roots.set(row[q], true);
                assert forall|x: int| 0 <= x < n implies (#[trigger] roots@[x] <==> r0[x]
                    || exists|q2: int| 0 <= q2 < q + 1 && row@[q2] as int == x) by {
                    if x == row@[q as int] as int {
                        assert(row@[q as int] as int == x);
                    }
                }
                q = q + 1;
            }
            let ghost fv = rv.entries[e as int].fields[f as int].value;
            assert forall|x: int| 0 <= x < n implies (#[trigger] roots@[x] <==> (exists|e2: int, f2: int| 0 <= e2 < e
                && 0 <= f2 < rv.entries[e2].fields.len() && #[trigger] uses(av, rv.entries[e2].fields[f2].value, x))
                || exists|f2: int| 0 <= f2 < f + 1 && #[trigger] uses(av, rv.entries[e as int].fields[f2].value, x)) by {
                if uses(av, fv, x) {
                    let q2 = choose|q2: int| 0 <= q2 < row@.len() && row@[q2] as int == x;
                }
                if exists|q2: int| 0 <= q2 < row@.len() && row@[q2] as int == x {
                    let q2 = choose|q2: int| 0 <= q2 < row@.len() && row@[q2] as int == x;
                    assert(uses(av, fv, x));
                }
            }
            f = f + 1;
        }
        assert forall|x: int| 0 <= x < n implies (#[trigger] roots@[x] <==> exists|e2: int, f2: int| 0 <= e2 < e + 1
            && 0 <= f2 < rv.entries[e2].fields.len() && #[trigger] uses(av, rv.entries[e2].fields[f2].value, x)) by {
            if exists|f2: int| 0 <= f2 < entry.fields@.len() && #[trigger] uses(av, rv.entries[e as int].fields[f2].value, x) {
                let f2 = choose|f2: int| 0 <= f2 < entry.fields@.len() && #[trigger] uses(av, rv.entries[e as int].fields[f2].value, x);
                assert(uses(av, rv.entries[e as int].fields[f2].value, x));
            }
        }
        e = e + 1;
    }
    assert(roots@ =~= abbreviation_roots(rv));
    acyclic_from_roots(&succ, &roots, Ghost(abbreviation_edge(av)))
}

/// The entry found under a name is a position of the list.
proof fn lemma_entry_for_range(ls: Seq<LinkInfoView>, name: Seq<char>)
    ensures
        entry_for(ls, name) matches Some(k) ==> 0 <= k < ls.len(),
    decreases ls.len(),
{
    if ls.len() > 0 {
        lemma_entry_for_range(ls.drop_last(), name);
    }
}

/// Whether an entry is found under a name.
fn answers(l: &LinkInfo, name: &str) -> (r: bool)
    ensures
        r == answers_to(l@, name@),
{
    if str_eq(l.key.as_str(), name) {
        return true;
    }
    match &l.aliases {
        Some(a) => {
            assert(l@.aliases == Some(crate::item::strings_view(a@)));
            let mut q: usize = 0;
            while q < a.len()
                invariant
                    l@.aliases == Some(crate::item::strings_view(a@)),
                    l.key@ != name@,
                    q <= a@.len(),
                    forall|p: int| 0 <= p < q ==> a@[p]@ != name@,
                decreases a@.len() - q,
            {
                if str_eq(a[q].as_str(), name) {
                    assert(crate::item::strings_view(a@)[q as int] == name@);
                    return true;
                }
                q = q + 1;
            }
            assert forall|p: int| 0 <= p < crate::item::strings_view(a@).len()
                implies crate::item::strings_view(a@)[p] != name@ by {
                assert(crate::item::strings_view(a@)[p] == a@[p]@);
            }
            false
        },
        None => false,
    }
}

/// Finds the entry found under a name.
fn find_entry_for(ls: &Vec<LinkInfo>, name: &str) -> (r: Option<usize>)
    ensures
        match r {
            Some(k) => entry_for(link_views(ls@), name@) == Some(k as int),
            None => entry_for(link_views(ls@), name@) is None,
        },
{
    let ghost lv = link_views(ls@);
    let mut i: usize = ls.len();
    assert(lv.take(i as int) =~= lv);
    while i > 0
        invariant
            lv == link_views(ls@),
            i <= ls@.len(),
            entry_for(lv, name@) == entry_for(lv.take(i as int), name@),
        decreases i,
    {
        i = i - 1;
        let ghost t = lv.take(i + 1);
        assert(t.last() == ls@[i as int]@);
        assert(t.drop_last() =~= lv.take(i as int));
        if answers(&ls[i], name) {
            return Some(i);
        }
    }
    assert(lv.take(0).len() == 0);
    None
}

/// The entries that entry `i` links to, each as often as it is named.
fn link_row(ls: &Vec<LinkInfo>, i: usize) -> (row: Vec<usize>)
    requires
        i < ls@.len(),
    ensures
        forall|q: int| 0 <= q < row@.len() ==> (#[trigger] row@[q]) < ls@.len()
            && link_edge(link_views(ls@))(i as int, row@[q] as int),
        forall|j: int| 0 <= j < ls@.len() && #[trigger] link_edge(link_views(ls@))(i as int, j)
            ==> exists|q: int| 0 <= q < row@.len() && row@[q] as int == j,
{
    let ghost lv = link_views(ls@);
    let l = &ls[i];
    assert(lv[i as int] == l@);
    let mut row: Vec<usize> = Vec::new();
    match &l.crossref {
        Some(c) => {
            match find_entry_for(ls, c.as_str()) {
                Some(k) => {
                    proof {
                        lemma_entry_for_range(lv, c@);
                    }
                    row.push(k);
                },
                None => {},
            }
        },
        None => {},
    }
    let ghost row1 = row@;
    match &l.xdata {
        Some(xs) => {
            let ghost xv = crate::item::strings_view(xs@);
            let mut q: usize = 0;
            while q < xs.len()
                invariant
                    lv == link_views(ls@),
                    lv[i as int] == l@,
                    i < ls@.len(),
                    l.xdata == Some(*xs),
                    xv == crate::item::strings_view(xs@),
                    q <= xs@.len(),
                    row@.len() >= row1.len(),
                    forall|p: int| 0 <= p < row1.len() ==> #[trigger] row@[p] == row1[p],
                    forall|p: int| row1.len() <= p < row@.len() ==> (#[trigger] row@[p]) < ls@.len()
                        && xdata_names(lv, i as int, row@[p] as int),
                    forall|q2: int| 0 <= q2 < q && (#[trigger] entry_for(lv, xv[q2])) is Some
                        ==> exists|p: int| 0 <= p < row@.len() && row@[p] as int == entry_for(lv, xv[q2])->0,
                decreases xs@.len() - q,
            {
                let ghost row0 = row@;
                assert(xv[q as int] == xs@[q as int]@);
                match find_entry_for(ls, xs[q].as_str()) {
                    Some(k) => {
                        proof {
                            lemma_entry_for_range(lv, xv[q as int]);
                            assert(entry_for(lv, xv[q as int]) == Some(k as int));
                            assert(xdata_names(lv, i as int, k as int));
                        }
                        row.push(k);
                        assert(row@[row@.len() - 1] == k);
                    },
                    None => {},
                }
                assert forall|q2: int| 0 <= q2 < q + 1 && (#[trigger] entry_for(lv, xv[q2])) is Some
                    implies exists|p: int| 0 <= p < row@.len() && row@[p] as int == entry_for(lv, xv[q2])->0 by {
                    let j = entry_for(lv, xv[q2])->0;
                    if q2 < q {
                        let p = choose|p: int| 0 <= p < row0.len() && row0[p] as int == j;
                        assert(row@[p] == row0[p]);
                    } else {
                        assert(row@[row@.len() - 1] as int == j);
                    }
                }
                q = q + 1;
            }
        },
        None => {},
    }
    proof {
        assert forall|q: int| 0 <= q < row@.len() implies (#[trigger] row@[q]) < ls@.len()
            && link_edge(lv)(i as int, row@[q] as int) by {
            if q < row1.len() {
                assert(row@[q] == row1[q]);
                lemma_entry_for_range(lv, l.crossref->0@);
            }
        }
        assert forall|j: int| 0 <= j < ls@.len() && #[trigger] link_edge(lv)(i as int, j)
            implies exists|q: int| 0 <= q < row@.len() && row@[q] as int == j by {
            if xdata_names(lv, i as int, j) {
                let xs = lv[i as int].xdata->0;
                let q2 = choose|q2: int| 0 <= q2 < xs.len() && entry_for(lv, #[trigger] xs[q2]) == Some(j);
                assert(entry_for(lv, xs[q2]) is Some);
            } else {
                assert(row@[0] == row1[0]);
            }
        }
    }
    row
}

/// Whether following links from any entry can never come back to an entry it
/// started from.
pub fn links_are_acyclic(ls: &Vec<LinkInfo>) -> (r: bool)
    ensures
        r == links_acyclic(link_views(ls@)),
{
    let ghost lv = link_views(ls@);
    let n = ls.len();
    let mut succ: Vec<Vec<usize>> = Vec::new();
    let mut roots: Vec<bool> = Vec::new();
    let mut i: usize = 0;
    while i < n
        invariant
            lv == link_views(ls@),
            n == lv.len(),
            i <= n,
            succ@.len() == i,
            roots@.len() == i,
            forall|x: int| 0 <= x < i ==> #[trigger] roots@[x],
            forall|a: int, q: int| 0 <= a < i && 0 <= q < succ@[a]@.len() ==>
                (#[trigger] succ@[a]@[q]) < n && link_edge(lv)(a, succ@[a]@[q] as int),
            forall|a: int, j: int| 0 <= a < i && 0 <= j < n && #[trigger] link_edge(lv)(a, j) ==>
                exists|q: int| 0 <= q < succ@[a]@.len() && succ@[a]@[q] as int == j,
        decreases n - i,
    {
        let row = link_row(ls, i);
        let ghost succ0 = succ@;
        let ghost rv0 = row@;
        succ.push(row);
        assert(succ@[i as int]@ == rv0);
        roots.push(true);
        proof {
            assert forall|a: int, q: int| 0 <= a < i + 1 && 0 <= q < succ@[a]@.len() implies
                (#[trigger] succ@[a]@[q]) < n && link_edge(lv)(a, succ@[a]@[q] as int) by {
                if a < i {
                    assert(succ@[a] == succ0[a]);
                }
            }
            assert forall|a: int, j: int| 0 <= a < i + 1 && 0 <= j < n && #[trigger] link_edge(lv)(a, j) implies
                exists|q: int| 0 <= q < succ@[a]@.len() && succ@[a]@[q] as int == j by {
                if a < i {
                    assert(succ@[a] == succ0[a]);
                    let q = choose|q: int| 0 <= q < succ0[a]@.len() && succ0[a]@[q] as int == j;
                    assert(succ@[a]@[q] as int == j);
                } else {
                    let q = choose|q: int| 0 <= q < rv0.len() && rv0[q] as int == j;
                    assert(succ@[a]@[q] as int == j);
                }
            }
        }
        i = i + 1;
    }
    assert(roots@ =~= Seq::new(lv.len(), |i: int| true));
    acyclic_from_roots(&succ, &roots, Ghost(link_edge(lv)))
}

} // verus!
