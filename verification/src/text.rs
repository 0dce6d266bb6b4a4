//! Character-level helpers: conversions between strings and character
//! sequences, comparison, searching and decimal formatting.

use vstd::prelude::*;
use vstd::string::StringExecFns;

verus! {

/// The Unicode lowercase mapping of a string, as `str::to_lowercase` computes it.
pub uninterp spec fn lowercase(s: Seq<char>) -> Seq<char>;

/// Whether a character has the Unicode `Uppercase` property (`char::is_uppercase`).
pub uninterp spec fn is_uppercase(c: char) -> bool;

/// The Unicode uppercase mapping of one character, as `char::to_uppercase` yields it.
pub uninterp spec fn uppercase_char(c: char) -> Seq<char>;

/// Appends one character to a string.
///
/// Trusted: wraps `String::push`, which appends the given `char` to the end of the string.
#[verifier::external_body]
pub(crate) fn push_char(s: &mut String, c: char)
    ensures
        final(s)@ == old(s)@.push(c),
{
    s.push(c)
}

/// Lowercases a string.
///
/// Trusted: wraps `str::to_lowercase`. The Unicode mapping it applies is not spelled out;
/// the contract names it `lowercase`.
#[verifier::external_body]
pub(crate) fn to_lowercase(s: &str) -> (r: String)
    ensures
        r@ == lowercase(s@),
{
    s.to_lowercase()
}

/// Tells whether a character is uppercase.
///
/// Trusted: wraps `char::is_uppercase`. The Unicode property it consults is not spelled
/// out; the contract names it `is_uppercase`.
#[verifier::external_body]
pub(crate) fn char_is_uppercase(c: char) -> (r: bool)
    ensures
        r == is_uppercase(c),
{
    c.is_uppercase()
}

/// Uppercases one character into a string.
///
/// Trusted: wraps `char::to_uppercase` (collected into a `String`). The Unicode mapping it
/// applies is not spelled out; the contract names it `uppercase_char`.
#[verifier::external_body]
pub(crate) fn char_to_uppercase(c: char) -> (r: String)
    ensures
        r@ == uppercase_char(c),
{
    c.to_uppercase().collect::<String>()
}

/// Builds an owned string from a string slice.
pub(crate) fn owned(t: &str) -> (s: String)
    ensures
        s@ == t@,
{
    let mut s = String::new();
    s.append(t);
    s
}

/// Concatenates two string slices into a new string.
pub(crate) fn concat2(a: &str, b: &str) -> (s: String)
    ensures
        s@ == a@ + b@,
{
    let mut s = String::new();
    s.append(a);
    s.append(b);
    s
}

/// Concatenates three string slices into a new string.
pub(crate) fn concat3(a: &str, b: &str, c: &str) -> (s: String)
    ensures
        s@ == a@ + b@ + c@,
{
    let mut s = String::new();
    s.append(a);
    s.append(b);
    s.append(c);
    s
}

/// Concatenates four string slices into a new string.
pub(crate) fn concat4(a: &str, b: &str, c: &str, d: &str) -> (s: String)
    ensures
        s@ == a@ + b@ + c@ + d@,
{
    let mut s = String::new();
    s.append(a);
    s.append(b);
    s.append(c);
    s.append(d);
    s
}

/// The characters of a string, in order.
pub(crate) fn to_chars(s: &str) -> (r: Vec<char>)
    ensures
        r@ == s@,
{
    let mut r: Vec<char> = Vec::new();
    for c in it: s.chars()
        invariant
            it.seq() == s@,
            r@ == s@.take(it.index() as int),
    {
        r.push(c);
    }
    r
}

/// A string built from a sequence of characters.
pub(crate) fn from_chars(v: &[char]) -> (s: String)
    ensures
        s@ == v@,
{
    let mut s = String::new();
    let mut i: usize = 0;
    while i < v.len()
        invariant
            i <= v@.len(),
            s@ == v@.take(i as int),
        decreases v@.len() - i,
    {
        push_char(&mut s, v[i]);
        i = i + 1;
        assert(s@ == v@.take(i as int));
    }
    assert(v@.take(v@.len() as int) == v@);
    s
}

/// Whether two character slices hold the same characters.
pub(crate) fn chars_eq(a: &[char], b: &[char]) -> (r: bool)
    ensures
        r == (a@ == b@),
{
    if a.len() != b.len() {
        return false;
    }
    let mut i: usize = 0;
    while i < a.len()
        invariant
            a@.len() == b@.len(),
            i <= a@.len(),
            forall|j: int| 0 <= j < i ==> a@[j] == b@[j],
        decreases a@.len() - i,
    {
        if a[i] != b[i] {
            return false;
        }
        i = i + 1;
    }
    assert(a@ =~= b@);
    true
}

/// Whether two strings are equal.
pub fn str_eq(a: &str, b: &str) -> (r: bool)
    ensures
        r == (a@ == b@),
{
    let ca = to_chars(a);
    let cb = to_chars(b);
    chars_eq(ca.as_slice(), cb.as_slice())
}

/// Lexicographic order on character sequences, comparing characters by
/// their code points. This is the order of `str`'s `Ord`, since UTF-8
/// preserves the order of code points.
pub open spec fn seq_lt(a: Seq<char>, b: Seq<char>) -> bool
    decreases a.len(),
{
    if a.len() == 0 {
        b.len() > 0
    } else if b.len() == 0 {
        false
    } else if a[0] < b[0] {
        true
    } else if a[0] > b[0] {
        false
    } else {
        seq_lt(a.drop_first(), b.drop_first())
    }
}

/// The lexicographic order is irreflexive.
pub proof fn lemma_seq_lt_irreflexive(a: Seq<char>)
    ensures
        !seq_lt(a, a),
    decreases a.len(),
{
    if a.len() > 0 {
        lemma_seq_lt_irreflexive(a.drop_first());
    }
}

/// The lexicographic order is transitive.
pub proof fn lemma_seq_lt_transitive(a: Seq<char>, b: Seq<char>, c: Seq<char>)
    requires
        seq_lt(a, b),
        seq_lt(b, c),
    ensures
        seq_lt(a, c),
    decreases a.len(),
{
    if a.len() > 0 && b.len() > 0 && c.len() > 0 {
        if a[0] == b[0] && b[0] == c[0] {
            lemma_seq_lt_transitive(a.drop_first(), b.drop_first(), c.drop_first());
        }
    }
}

/// Two sequences that are not ordered either way are equal.
pub proof fn lemma_seq_lt_total(a: Seq<char>, b: Seq<char>)
    requires
        !seq_lt(a, b),
        !seq_lt(b, a),
    ensures
        a == b,
    decreases a.len(),
{
    if a.len() > 0 && b.len() > 0 {
        lemma_seq_lt_total(a.drop_first(), b.drop_first());
        assert(a =~= seq![a[0]] + a.drop_first());
        assert(b =~= seq![b[0]] + b.drop_first());
    } else {
        assert(a.len() == 0 && b.len() == 0);
        assert(a =~= b);
    }
}

/// Lexicographic comparison of two character slices.
pub(crate) fn chars_lt(a: &[char], b: &[char]) -> (r: bool)
    ensures
        r == seq_lt(a@, b@),
{
    let mut i: usize = 0;
    assert(a@.skip(0) =~= a@);
    assert(b@.skip(0) =~= b@);
    while i < a.len() && i < b.len()
        invariant
            i <= a@.len(),
            i <= b@.len(),
            forall|j: int| 0 <= j < i ==> a@[j] == b@[j],
            seq_lt(a@, b@) == seq_lt(a@.skip(i as int), b@.skip(i as int)),
        decreases a@.len() - i,
    {
        if a[i] < b[i] {
            return true;
        }
        if a[i] > b[i] {
            return false;
        }
        assert(a@.skip(i as int).drop_first() =~= a@.skip(i + 1));
        assert(b@.skip(i as int).drop_first() =~= b@.skip(i + 1));
        i = i + 1;
    }
    i == a.len() && i < b.len()
}

/// Lexicographic comparison of two strings (the order of `str`'s `Ord`).
pub fn str_lt(a: &str, b: &str) -> (r: bool)
    ensures
        r == seq_lt(a@, b@),
{
    let ca = to_chars(a);
    let cb = to_chars(b);
    chars_lt(ca.as_slice(), cb.as_slice())
}

/// Whether `needle` occurs in `hay` starting at position `p`.
pub open spec fn occurs_at(hay: Seq<char>, needle: Seq<char>, p: int) -> bool {
    0 <= p && p + needle.len() <= hay.len() && hay.subrange(p, p + needle.len()) == needle
}

/// The position of the first occurrence of `needle` in `hay`, if any
/// (what `str::find` gives, counted in characters).
pub open spec fn first_occurrence(hay: Seq<char>, needle: Seq<char>) -> Option<int> {
    if exists|p: int| occurs_at(hay, needle, p) {
        Some(
            choose|p: int|
                occurs_at(hay, needle, p) && forall|q: int| 0 <= q < p ==> !occurs_at(hay, needle, q),
        )
    } else {
        None
    }
}

/// What the first occurrence is: an occurrence with none before it.
pub proof fn lemma_first_occurrence(hay: Seq<char>, needle: Seq<char>)
    ensures
        match first_occurrence(hay, needle) {
            Some(p) => occurs_at(hay, needle, p) && forall|q: int| 0 <= q < p ==> !occurs_at(hay, needle, q),
            None => forall|p: int| !occurs_at(hay, needle, p),
        },
{
    if exists|p: int| occurs_at(hay, needle, p) {
        let w = choose|p: int| occurs_at(hay, needle, p);
        lemma_least_occurrence(hay, needle, w);
    }
}

proof fn lemma_least_occurrence(hay: Seq<char>, needle: Seq<char>, w: int)
    requires
        occurs_at(hay, needle, w),
    ensures
        exists|p: int| occurs_at(hay, needle, p) && forall|q: int| 0 <= q < p ==> !occurs_at(hay, needle, q),
    decreases w,
{
    if exists|q: int| 0 <= q < w && occurs_at(hay, needle, q) {
        let q = choose|q: int| 0 <= q < w && occurs_at(hay, needle, q);
        lemma_least_occurrence(hay, needle, q);
    } else {
        assert(occurs_at(hay, needle, w) && forall|q: int| 0 <= q < w ==> !occurs_at(hay, needle, q));
    }
}

/// Whether `needle` occurs in `hay` at position `p`.
fn matches_at(hay: &[char], needle: &[char], p: usize) -> (r: bool)
    requires
        p + needle@.len() <= hay@.len(),
    ensures
        r == occurs_at(hay@, needle@, p as int),
{
    let hl = hay.len();
    let mut j: usize = 0;
    while j < needle.len()
        invariant
            hl == hay@.len(),
            p + needle@.len() <= hay@.len(),
            j <= needle@.len(),
            forall|k: int| 0 <= k < j ==> hay@[p + k] == needle@[k],
        decreases needle@.len() - j,
    {
        if hay[p + j] != needle[j] {
            assert(hay@.subrange(p as int, p + needle@.len())[j as int] == hay@[p + j]);
            return false;
        }
        j = j + 1;
    }
    assert(hay@.subrange(p as int, p + needle@.len()) =~= needle@);
    true
}

/// Finds the first occurrence of `needle` in `hay`.
pub(crate) fn find_chars(hay: &[char], needle: &[char]) -> (r: Option<usize>)
    ensures
        match r {
            Some(p) => first_occurrence(hay@, needle@) == Some(p as int),
            None => first_occurrence(hay@, needle@) is None,
        },
{
    if needle.len() > hay.len() {
        assert forall|p: int| !occurs_at(hay@, needle@, p) by {}
        return None;
    }
    let last = hay.len() - needle.len();
    let mut p: usize = 0;
    loop
        invariant
            needle@.len() <= hay@.len(),
            last == hay@.len() - needle@.len(),
            p <= last,
            forall|q: int| 0 <= q < p ==> !occurs_at(hay@, needle@, q),
        decreases last - p,
    {
        if matches_at(hay, needle, p) {
            let ghost w = p as int;
            let ghost c = choose|q: int|
                occurs_at(hay@, needle@, q) && forall|q2: int| 0 <= q2 < q ==> !occurs_at(hay@, needle@, q2);
            assert(c == w) by {
                if c < w {
                } else if c > w {
                }
            }
            return Some(p);
        }
        if p == last {
            assert forall|q: int| !occurs_at(hay@, needle@, q) by {}
            return None;
        }
        p = p + 1;
    }
}

/// The decimal digit for `d < 10`.
pub open spec fn digit_char(d: nat) -> char {
    ((d + 48) as u32) as char
}

/// The decimal representation of a natural number, without leading zeros
/// (what `usize::to_string` gives).
pub open spec fn decimal(n: nat) -> Seq<char>
    decreases n,
{
    if n < 10 {
        seq![digit_char(n)]
    } else {
        decimal(n / 10).push(digit_char(n % 10))
    }
}

fn push_decimal(s: &mut String, n: usize)
    ensures
        final(s)@ == old(s)@ + decimal(n as nat),
    decreases n,
{
    if n >= 10 {
        push_decimal(s, n / 10);
    }
    let d: u8 = (n % 10) as u8;
    let c: char = (d + 48) as char;
    assert(c == digit_char((n % 10) as nat));
    push_char(s, c);
}

/// The decimal representation of `n`.
pub fn usize_to_decimal(n: usize) -> (s: String)
    ensures
        s@ == decimal(n as nat),
{
    let mut s = String::new();
    push_decimal(&mut s, n);
    s
}

} // verus!
