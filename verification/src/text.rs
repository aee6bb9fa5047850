//! Character sequences: where a pattern occurs, how a text falls into pieces,
//! and how pieces go back together.
//!
//! Every contract in the crate speaks of text as a `Seq<char>`, the view of a
//! `str` or a `String`. The executable functions here work on `&[char]`, so a
//! caller converts once with [`chars_of`] and gets strings back with
//! [`string_of`].

use vstd::prelude::*;
use vstd::slice::*;
use vstd::string::*;
use vstd::std_specs::iter::IteratorSpec;

verus! {

/// Whether a character has the Unicode property `White_Space`: what
/// `char::is_whitespace` answers. It depends on the character alone.
pub uninterp spec fn white_space(c: char) -> bool;

/// `char::is_whitespace`: its answer is the `White_Space` property, which this
/// crate only names.
pub assume_specification[ char::is_whitespace ](c: char) -> (r: bool)
    ensures
        r == white_space(c),
;

/// `String::push`: the character is appended, nothing else changes.
pub assume_specification[ String::push ](s: &mut String, c: char)
    ensures
        final(s)@ == old(s)@.push(c),
;

/// The views of a list of strings.
pub open spec fn views(v: Seq<String>) -> Seq<Seq<char>> {
    Seq::new(v.len(), |i: int| v[i]@)
}

/// The characters of `s`, in order.
pub fn chars_of(s: &str) -> (r: Vec<char>)
    ensures
        r@ == s@,
{
    let mut out: Vec<char> = Vec::new();
    let it = s.chars();
    for c in iter: it
        invariant
            out@ == iter.seq().take(iter.index() as int),
            iter.seq() == s@,
    {
        out.push(c);
    }
    out
}

/// The string made of the characters `cs`, in order.
pub fn string_of(cs: &[char]) -> (r: String)
    ensures
        r@ == cs@,
{
    let mut out = String::new();
    let n: usize = cs.len();
    let mut i: usize = 0;
    while i < n
        invariant
            n == cs@.len(),
            i <= n,
            out@ == cs@.take(i as int),
        decreases n - i,
    {
        out.push(cs[i]);
        i += 1;
    }
    out
}

// ---------------------------------------------------------------------------
// Occurrences of a pattern
// ---------------------------------------------------------------------------

/// `pat` stands in `s` at index `i`.
pub open spec fn occurs_at(s: Seq<char>, pat: Seq<char>, i: int) -> bool {
    &&& 0 <= i
    &&& i + pat.len() <= s.len()
    &&& s.subrange(i, i + pat.len()) == pat
}

/// `pat` stands in `s` at `i` and nowhere before.
pub open spec fn is_first_occurrence(s: Seq<char>, pat: Seq<char>, i: int) -> bool {
    &&& occurs_at(s, pat, i)
    &&& forall|j: int| 0 <= j < i ==> !occurs_at(s, pat, j)
}

/// `pat` stands in `s` at `i` and nowhere after.
pub open spec fn is_last_occurrence(s: Seq<char>, pat: Seq<char>, i: int) -> bool {
    &&& occurs_at(s, pat, i)
    &&& forall|j: int| i < j ==> !occurs_at(s, pat, j)
}

/// The least index at which `pat` stands in `s`, if it stands anywhere.
pub open spec fn first_occurrence(s: Seq<char>, pat: Seq<char>) -> Option<int> {
    if exists|i: int| is_first_occurrence(s, pat, i) {
        Some(choose|i: int| is_first_occurrence(s, pat, i))
    } else {
        None
    }
}

/// The greatest index at which `pat` stands in `s`, if it stands anywhere.
pub open spec fn last_occurrence(s: Seq<char>, pat: Seq<char>) -> Option<int> {
    if exists|i: int| is_last_occurrence(s, pat, i) {
        Some(choose|i: int| is_last_occurrence(s, pat, i))
    } else {
        None
    }
}

/// `s` cut at the first occurrence of `pat`: what stands before it and what
/// stands after it.
pub open spec fn cut_first(s: Seq<char>, pat: Seq<char>) -> Option<(Seq<char>, Seq<char>)> {
    match first_occurrence(s, pat) {
        Some(i) => Some((s.take(i), s.skip(i + pat.len()))),
        None => None,
    }
}

/// `s` cut at the last occurrence of `pat`.
pub open spec fn cut_last(s: Seq<char>, pat: Seq<char>) -> Option<(Seq<char>, Seq<char>)> {
    match last_occurrence(s, pat) {
        Some(i) => Some((s.take(i), s.skip(i + pat.len()))),
        None => None,
    }
}

/// An index that is a first occurrence is the first occurrence.
pub proof fn lemma_first_occurrence(s: Seq<char>, pat: Seq<char>, i: int)
    requires
        is_first_occurrence(s, pat, i),
    ensures
        first_occurrence(s, pat) == Some(i),
{
    let c = choose|k: int| is_first_occurrence(s, pat, k);
    assert(is_first_occurrence(s, pat, c));
    if c < i {
        assert(!occurs_at(s, pat, c));
    }
    if i < c {
        assert(!occurs_at(s, pat, i));
    }
}

/// An index that is a last occurrence is the last occurrence.
pub proof fn lemma_last_occurrence(s: Seq<char>, pat: Seq<char>, i: int)
    requires
        is_last_occurrence(s, pat, i),
    ensures
        last_occurrence(s, pat) == Some(i),
{
    let c = choose|k: int| is_last_occurrence(s, pat, k);
    assert(is_last_occurrence(s, pat, c));
    if c < i {
        assert(!occurs_at(s, pat, i));
    }
    if i < c {
        assert(!occurs_at(s, pat, c));
    }
}

/// Where a pattern stands nowhere, there is neither a first nor a last
/// occurrence.
pub proof fn lemma_no_occurrence(s: Seq<char>, pat: Seq<char>)
    requires
        forall|j: int| !occurs_at(s, pat, j),
    ensures
        first_occurrence(s, pat) is None,
        last_occurrence(s, pat) is None,
{
}

/// Whether `pat` stands in `s` at index `i`.
pub fn stands_at(s: &[char], pat: &[char], i: usize) -> (r: bool)
    requires
        i + pat@.len() <= s@.len(),
    ensures
        r == occurs_at(s@, pat@, i as int),
{
    let n: usize = s.len();
    let m: usize = pat.len();
    let mut k: usize = 0;
    while k < m
        invariant
            n == s@.len(),
            m == pat@.len(),
            i + m <= n,
            k <= m,
            forall|j: int| 0 <= j < k ==> s@[i + j] == pat@[j],
        decreases m - k,
    {
        if s[i + k] != pat[k] {
            proof {
                assert(s@.subrange(i as int, i + m)[k as int] == s@[i + k]);
            }
            return false;
        }
        k += 1;
    }
    proof {
        assert(s@.subrange(i as int, i + m) =~= pat@);
    }
    true
}

/// The first index at which `pat` stands in `s`.
pub fn find(s: &[char], pat: &[char]) -> (r: Option<usize>)
    ensures
        match r {
            Some(i) => first_occurrence(s@, pat@) == Some(i as int) && occurs_at(
                s@,
                pat@,
                i as int,
            ),
            None => first_occurrence(s@, pat@) is None,
        },
{
    let n: usize = s.len();
    let m: usize = pat.len();
    if m > n {
        proof {
            lemma_no_occurrence(s@, pat@);
        }
        return None;
    }
    let last: usize = n - m;
    let mut i: usize = 0;
    while i < last
        invariant
            n == s@.len(),
            m == pat@.len(),
            last == n - m,
            i <= last,
            forall|j: int| 0 <= j < i ==> !occurs_at(s@, pat@, j),
        decreases last - i,
    {
        if stands_at(s, pat, i) {
            proof {
                lemma_first_occurrence(s@, pat@, i as int);
            }
            return Some(i);
        }
        i += 1;
    }
    if stands_at(s, pat, last) {
        proof {
            lemma_first_occurrence(s@, pat@, last as int);
        }
        return Some(last);
    }
    proof {
        lemma_no_occurrence(s@, pat@);
    }
    None
}

/// The last index at which `pat` stands in `s`.
pub fn rfind(s: &[char], pat: &[char]) -> (r: Option<usize>)
    ensures
        match r {
            Some(i) => last_occurrence(s@, pat@) == Some(i as int) && occurs_at(
                s@,
                pat@,
                i as int,
            ),
            None => last_occurrence(s@, pat@) is None,
        },
{
    let n: usize = s.len();
    let m: usize = pat.len();
    if m > n {
        proof {
            lemma_no_occurrence(s@, pat@);
        }
        return None;
    }
    let mut i: usize = n - m;
    while i > 0
        invariant
            n == s@.len(),
            m == pat@.len(),
            i + m <= n,
            forall|j: int| i < j ==> !occurs_at(s@, pat@, j),
        decreases i,
    {
        if stands_at(s, pat, i) {
            proof {
                lemma_last_occurrence(s@, pat@, i as int);
            }
            return Some(i);
        }
        i -= 1;
    }
    if stands_at(s, pat, 0) {
        proof {
            lemma_last_occurrence(s@, pat@, 0);
        }
        return Some(0);
    }
    proof {
        lemma_no_occurrence(s@, pat@);
    }
    None
}

/// `s` cut at the first occurrence of `pat`: what stands before it and what
/// stands after it, or nothing where `pat` does not occur.
pub fn split_once<'a>(s: &'a [char], pat: &[char]) -> (r: Option<(&'a [char], &'a [char])>)
    ensures
        match r {
            Some((before, after)) => cut_first(s@, pat@) == Some((before@, after@)),
            None => cut_first(s@, pat@) is None,
        },
{
    let n: usize = s.len();
    let m: usize = pat.len();
    match find(s, pat) {
        Some(i) => {
            let before = slice_subrange(s, 0, i);
            let after = slice_subrange(s, i + m, n);
            proof {
                assert(before@ =~= s@.take(i as int));
                assert(after@ =~= s@.skip(i + m));
            }
            Some((before, after))
        },
        None => None,
    }
}

/// `s` cut at the last occurrence of `pat`: what stands before it and what
/// stands after it, or nothing where `pat` does not occur.
pub fn rsplit_once<'a>(s: &'a [char], pat: &[char]) -> (r: Option<(&'a [char], &'a [char])>)
    ensures
        match r {
            Some((before, after)) => cut_last(s@, pat@) == Some((before@, after@)),
            None => cut_last(s@, pat@) is None,
        },
{
    let n: usize = s.len();
    let m: usize = pat.len();
    match rfind(s, pat) {
        Some(i) => {
            let before = slice_subrange(s, 0, i);
            let after = slice_subrange(s, i + m, n);
            proof {
                assert(before@ =~= s@.take(i as int));
                assert(after@ =~= s@.skip(i + m));
            }
            Some((before, after))
        },
        None => None,
    }
}

// ---------------------------------------------------------------------------
// Pieces of a text
// ---------------------------------------------------------------------------

/// The characters at which a text is cut into pieces.
#[derive(Clone, Copy, Debug)]
pub enum Delimiter {
    /// One given character.
    Char(char),
    /// Any character with the property `White_Space`.
    Whitespace,
}

impl Delimiter {
    /// Whether a text is cut at the character `c`.
    pub open spec fn cuts(self, c: char) -> bool {
        match self {
            Delimiter::Char(d) => c == d,
            Delimiter::Whitespace => white_space(c),
        }
    }

    /// Whether a text is cut at the character `c`.
    pub fn cuts_at(&self, c: char) -> (r: bool)
        ensures
            r == self.cuts(c),
    {
        match self {
            Delimiter::Char(d) => c == *d,
            Delimiter::Whitespace => c.is_whitespace(),
        }
    }
}

/// The length of the longest prefix of `s` in which `d` cuts nowhere: the
/// index of the first delimiter, or the length of `s` where it has none.
pub open spec fn lead(s: Seq<char>, d: Delimiter) -> nat
    decreases s.len(),
{
    if s.len() == 0 || d.cuts(s[0]) {
        0
    } else {
        1 + lead(s.drop_first(), d)
    }
}

/// The pieces of `s` between the delimiters, in order. There is one more
/// piece than there are delimiters, and a piece is empty where two delimiters
/// meet or one stands at an end.
pub open spec fn pieces(s: Seq<char>, d: Delimiter) -> Seq<Seq<char>>
    decreases s.len(),
{
    let k = lead(s, d) as int;
    if k >= s.len() {
        seq![s]
    } else {
        seq![s.take(k)] + pieces(s.skip(k + 1), d)
    }
}

/// The test that a text has at least one character.
pub open spec fn has_chars() -> spec_fn(Seq<char>) -> bool {
    |t: Seq<char>| t.len() > 0
}

/// The entries of `parts` that are not empty, in order.
pub open spec fn non_empty(parts: Seq<Seq<char>>) -> Seq<Seq<char>> {
    parts.filter(has_chars())
}

/// Each entry of `parts` without the white space at either end.
pub open spec fn each_trimmed(parts: Seq<Seq<char>>) -> Seq<Seq<char>> {
    Seq::new(parts.len(), |i: int| trimmed(parts[i]))
}

/// `s` without the entries that stand earlier in it: the first occurrence of
/// each value, in the order of `s`.
pub open spec fn distinct(s: Seq<Seq<char>>) -> Seq<Seq<char>>
    decreases s.len(),
{
    if s.len() == 0 {
        s
    } else {
        let before = distinct(s.drop_last());
        if before.contains(s.last()) {
            before
        } else {
            before.push(s.last())
        }
    }
}

/// The words of `s`: its maximal runs of characters that are not white space.
pub open spec fn words(s: Seq<char>) -> Seq<Seq<char>> {
    non_empty(pieces(s, Delimiter::Whitespace))
}

/// `s` without the white space it begins with.
pub open spec fn trimmed_start(s: Seq<char>) -> Seq<char>
    decreases s.len(),
{
    if s.len() > 0 && white_space(s[0]) {
        trimmed_start(s.drop_first())
    } else {
        s
    }
}

/// `s` without the white space it ends with.
pub open spec fn trimmed_end(s: Seq<char>) -> Seq<char>
    decreases s.len(),
{
    if s.len() > 0 && white_space(s.last()) {
        trimmed_end(s.drop_last())
    } else {
        s
    }
}

/// `s` without the white space at either end.
pub open spec fn trimmed(s: Seq<char>) -> Seq<char> {
    trimmed_end(trimmed_start(s))
}

/// The entries of `parts` one after the other, with `sep` between each two.
pub open spec fn joined(parts: Seq<Seq<char>>, sep: Seq<char>) -> Seq<char>
    decreases parts.len(),
{
    if parts.len() == 0 {
        Seq::empty()
    } else if parts.len() == 1 {
        parts[0]
    } else {
        parts[0] + sep + joined(parts.drop_first(), sep)
    }
}

/// `lead` is the one index before which nothing is cut and at which the text
/// is cut or ends.
pub proof fn lemma_lead(s: Seq<char>, d: Delimiter, k: int)
    requires
        0 <= k <= s.len(),
        forall|j: int| 0 <= j < k ==> !d.cuts(s[j]),
        k == s.len() || d.cuts(s[k]),
    ensures
        lead(s, d) == k,
    decreases k,
{
    if k > 0 {
        let t = s.drop_first();
        assert forall|j: int| 0 <= j < k - 1 implies !d.cuts(t[j]) by {
            assert(t[j] == s[j + 1]);
        }
        lemma_lead(t, d, k - 1);
    }
}

/// The pieces of `s`, each as a string.
pub fn split(s: &[char], d: Delimiter) -> (r: Vec<String>)
    ensures
        views(r@) == pieces(s@, d),
{
    let n: usize = s.len();
    let mut out: Vec<String> = Vec::new();
    let mut start: usize = 0;
    let mut i: usize = 0;
    proof {
        assert(s@.skip(0) =~= s@);
        assert(views(out@) + pieces(s@.skip(0), d) =~= pieces(s@, d));
    }
    while i < n
        invariant
            n == s@.len(),
            start <= i <= n,
            forall|j: int| start <= j < i ==> !d.cuts(s@[j]),
            views(out@) + pieces(s@.skip(start as int), d) == pieces(s@, d),
        decreases n - i,
    {
        if d.cuts_at(s[i]) {
            let piece = string_of(slice_subrange(s, start, i));
            proof {
                let rest = s@.skip(start as int);
                lemma_lead(rest, d, i - start);
                assert(rest.take(i - start) =~= s@.subrange(start as int, i as int));
                assert(rest.skip(i - start + 1) =~= s@.skip(i + 1));
                assert(views(out@.push(piece)) =~= views(out@) + seq![piece@]);
                assert(views(out@.push(piece)) + pieces(s@.skip(i + 1), d) =~= views(out@)
                    + pieces(rest, d));
            }
            out.push(piece);
            start = i + 1;
        }
        i += 1;
    }
    let piece = string_of(slice_subrange(s, start, n));
    proof {
        let rest = s@.skip(start as int);
        lemma_lead(rest, d, n - start);
        assert(rest =~= s@.subrange(start as int, n as int));
        assert(views(out@.push(piece)) =~= views(out@) + pieces(rest, d));
    }
    out.push(piece);
    out
}

/// The entries of `parts` that are not empty.
pub fn keep_non_empty(parts: &Vec<String>) -> (r: Vec<String>)
    ensures
        views(r@) == non_empty(views(parts@)),
{
    let n: usize = parts.len();
    let mut out: Vec<String> = Vec::new();
    let mut i: usize = 0;
    proof {
        assert(views(parts@).take(0) =~= Seq::<Seq<char>>::empty());
        reveal(Seq::filter);
        assert(views(out@) =~= non_empty(views(parts@).take(0)));
    }
    while i < n
        invariant
            n == parts@.len(),
            i <= n,
            views(out@) == non_empty(views(parts@).take(i as int)),
        decreases n - i,
    {
        proof {
            let all = views(parts@);
            assert(all.take(i + 1) =~= all.take(i as int).push(parts@[i as int]@));
            all.take(i as int).lemma_filter_push(parts@[i as int]@, has_chars());
        }
        if !parts[i].as_str().is_empty() {
            let part = parts[i].clone();
            proof {
                assert(views(out@.push(part)) =~= views(out@).push(part@));
            }
            out.push(part);
        }
        i += 1;
    }
    proof {
        assert(views(parts@).take(n as int) =~= views(parts@));
    }
    out
}

/// Cutting the white space off the front leaves what stands from the first
/// character that is none.
pub proof fn lemma_trimmed_start(s: Seq<char>, a: int)
    requires
        0 <= a <= s.len(),
        forall|j: int| 0 <= j < a ==> white_space(s[j]),
        a == s.len() || !white_space(s[a]),
    ensures
        trimmed_start(s) == s.skip(a),
    decreases a,
{
    if a > 0 {
        let t = s.drop_first();
        assert forall|j: int| 0 <= j < a - 1 implies white_space(t[j]) by {
            assert(t[j] == s[j + 1]);
        }
        lemma_trimmed_start(t, a - 1);
        assert(t.skip(a - 1) =~= s.skip(a));
    } else {
        assert(s.skip(0) =~= s);
    }
}

/// Cutting the white space off the end leaves what stands up to the last
/// character that is none.
pub proof fn lemma_trimmed_end(s: Seq<char>, b: int)
    requires
        0 <= b <= s.len(),
        forall|j: int| b <= j < s.len() ==> white_space(s[j]),
        b == 0 || !white_space(s[b - 1]),
    ensures
        trimmed_end(s) == s.take(b),
    decreases s.len() - b,
{
    if b < s.len() {
        let t = s.drop_last();
        lemma_trimmed_end(t, b);
        assert(t.take(b) =~= s.take(b));
    } else {
        assert(s.take(b) =~= s);
    }
}

/// `s` without the white space at either end.
pub fn trim(s: &[char]) -> (r: &[char])
    ensures
        r@ == trimmed(s@),
{
    let n: usize = s.len();
    let mut a: usize = 0;
    while a < n && s[a].is_whitespace()
        invariant
            n == s@.len(),
            a <= n,
            forall|j: int| 0 <= j < a ==> white_space(s@[j]),
        decreases n - a,
    {
        a += 1;
    }
    let mut b: usize = n;
    while b > a && s[b - 1].is_whitespace()
        invariant
            n == s@.len(),
            a <= b <= n,
            forall|j: int| b <= j < n ==> white_space(s@[j]),
        decreases b,
    {
        b -= 1;
    }
    proof {
        lemma_trimmed_start(s@, a as int);
        let t = s@.skip(a as int);
        assert forall|j: int| b - a <= j < t.len() implies white_space(t[j]) by {
            assert(t[j] == s@[j + a]);
        }
        lemma_trimmed_end(t, b - a);
        assert(t.take(b - a) =~= s@.subrange(a as int, b as int));
    }
    slice_subrange(s, a, b)
}

/// Whether `list` holds a string equal to `s`.
pub fn contains_str(list: &Vec<String>, s: &str) -> (r: bool)
    ensures
        r == views(list@).contains(s@),
{
    let n: usize = list.len();
    let mut i: usize = 0;
    while i < n
        invariant
            n == list@.len(),
            i <= n,
            forall|j: int| 0 <= j < i ==> views(list@)[j] != s@,
        decreases n - i,
    {
        let same = str_eq(list[i].as_str(), s);
        if same {
            proof {
                assert(views(list@)[i as int] == s@);
            }
            return true;
        }
        i += 1;
    }
    false
}

/// Whether two strings hold the same characters.
pub fn str_eq(a: &str, b: &str) -> (r: bool)
    ensures
        r == (a@ == b@),
{
    let x = chars_of(a);
    let y = chars_of(b);
    let n: usize = x.len();
    if n != y.len() {
        return false;
    }
    let mut i: usize = 0;
    while i < n
        invariant
            x@ == a@,
            y@ == b@,
            n == x@.len(),
            n == y@.len(),
            i <= n,
            forall|j: int| 0 <= j < i ==> x@[j] == y@[j],
        decreases n - i,
    {
        if x[i] != y[i] {
            proof {
                assert(a@[i as int] != b@[i as int]);
            }
            return false;
        }
        i += 1;
    }
    proof {
        assert(x@ =~= y@);
    }
    true
}

/// What is kept of a list holds no value twice, and holds a value where and
/// only where the list holds it.
pub proof fn lemma_distinct(s: Seq<Seq<char>>)
    ensures
        distinct(s).no_duplicates(),
        forall|x: Seq<char>| #[trigger] distinct(s).contains(x) <==> s.contains(x),
    decreases s.len(),
{
    if s.len() > 0 {
        let init = s.drop_last();
        let last = s.last();
        let before = distinct(init);
        lemma_distinct(init);
        assert(s =~= init.push(last));
        assert forall|x: Seq<char>| #[trigger] distinct(s).contains(x) <==> s.contains(x) by {
            vstd::seq_lib::lemma_seq_contains_after_push(init, last, x);
            vstd::seq_lib::lemma_seq_contains_after_push(before, last, x);
            assert(before.contains(x) <==> init.contains(x));
        }
    }
}

/// What is left of a list after the empty entries are dropped holds no empty
/// entry, and holds a value where and only where the list holds it and it is
/// not empty.
pub proof fn lemma_non_empty(parts: Seq<Seq<char>>)
    ensures
        forall|i: int|
            0 <= i < non_empty(parts).len() ==> (#[trigger] non_empty(parts)[i]).len() > 0,
        forall|x: Seq<char>| #[trigger]
            non_empty(parts).contains(x) <==> parts.contains(x) && x.len() > 0,
    decreases parts.len(),
{
    reveal(Seq::filter);
    if parts.len() > 0 {
        let init = parts.drop_last();
        let last = parts.last();
        lemma_non_empty(init);
        let kept = non_empty(init);
        assert(parts =~= init.push(last));
        assert forall|x: Seq<char>| #[trigger]
            non_empty(parts).contains(x) <==> parts.contains(x) && x.len() > 0 by {
            vstd::seq_lib::lemma_seq_contains_after_push(init, last, x);
            vstd::seq_lib::lemma_seq_contains_after_push(kept, last, x);
            assert(kept.contains(x) <==> init.contains(x) && x.len() > 0);
        }
    }
}

/// A text falls into at least one piece.
pub proof fn lemma_pieces_len(s: Seq<char>, d: Delimiter)
    ensures
        pieces(s, d).len() >= 1,
    decreases s.len(),
{
    let k = lead(s, d) as int;
    if k < s.len() {
        lemma_pieces_len(s.skip(k + 1), d);
    }
}

/// Texts that hold no `c`, joined by `c`, fall into the same texts when cut
/// at `c`.
pub proof fn lemma_pieces_of_joined(tokens: Seq<Seq<char>>, c: char)
    requires
        tokens.len() > 0,
        forall|i: int| 0 <= i < tokens.len() ==> !tokens[i].contains(c),
    ensures
        pieces(joined(tokens, seq![c]), Delimiter::Char(c)) == tokens,
    decreases tokens.len(),
{
    let d = Delimiter::Char(c);
    let first = tokens[0];
    let text = joined(tokens, seq![c]);
    assert forall|j: int| 0 <= j < first.len() implies !d.cuts(first[j]) by {
        if first[j] == c {
            assert(first.contains(c));
        }
    }
    if tokens.len() == 1 {
        lemma_lead(text, d, first.len() as int);
        assert(pieces(text, d) =~= tokens);
    } else {
        let rest = tokens.drop_first();
        let k = first.len() as int;
        assert forall|i: int| 0 <= i < rest.len() implies !rest[i].contains(c) by {
            assert(rest[i] == tokens[i + 1]);
        }
        lemma_pieces_of_joined(rest, c);
        assert(text == first + seq![c] + joined(rest, seq![c]));
        assert forall|j: int| 0 <= j < k implies !d.cuts(text[j]) by {
            assert(text[j] == first[j]);
        }
        assert(text[k] == c);
        lemma_lead(text, d, k);
        assert(text.take(k) =~= first);
        assert(text.skip(k + 1) =~= joined(rest, seq![c]));
        assert(pieces(text, d) =~= seq![first] + rest);
        assert(seq![first] + rest =~= tokens);
    }
}

/// A character of a piece of a text is a character of the text.
pub proof fn lemma_pieces_hold_chars_of(s: Seq<char>, d: Delimiter)
    ensures
        forall|i: int, c: char|
            0 <= i < pieces(s, d).len() && (#[trigger] pieces(s, d)[i]).contains(c)
                ==> #[trigger] s.contains(c),
    decreases s.len(),
{
    let k = lead(s, d) as int;
    if k < s.len() {
        let rest = s.skip(k + 1);
        lemma_pieces_hold_chars_of(rest, d);
        assert forall|i: int, c: char|
            0 <= i < pieces(s, d).len() && (#[trigger] pieces(s, d)[i]).contains(
                c,
            ) implies #[trigger] s.contains(c) by {
            let piece = pieces(s, d)[i];
            let j = choose|j: int| 0 <= j < piece.len() && piece[j] == c;
            if i == 0 {
                assert(piece == s.take(k));
                assert(s[j] == c);
            } else {
                assert(piece == pieces(rest, d)[i - 1]);
                assert(rest.contains(c));
                let m = choose|m: int| 0 <= m < rest.len() && rest[m] == c;
                assert(s[m + k + 1] == c);
            }
        }
    }
}

/// A character of a trimmed text is a character of the text.
pub proof fn lemma_trimmed_holds_chars_of(s: Seq<char>, c: char)
    requires
        trimmed(s).contains(c),
    ensures
        s.contains(c),
{
    lemma_trimmed_start_is_suffix(s);
    let t = trimmed_start(s);
    lemma_trimmed_end_is_prefix(t);
    let a = choose|a: int| 0 <= a <= s.len() && t == s.skip(a);
    let b = choose|b: int| 0 <= b <= t.len() && trimmed_end(t) == t.take(b);
    let j = choose|j: int| 0 <= j < trimmed(s).len() && trimmed(s)[j] == c;
    assert(s[j + a] == c);
}

/// What is left when the white space is cut off the front is the rest of the
/// text from some index on.
pub proof fn lemma_trimmed_start_is_suffix(s: Seq<char>)
    ensures
        exists|a: int| 0 <= a <= s.len() && trimmed_start(s) == #[trigger] s.skip(a),
    decreases s.len(),
{
    if s.len() > 0 && white_space(s[0]) {
        let t = s.drop_first();
        lemma_trimmed_start_is_suffix(t);
        let a = choose|a: int| 0 <= a <= t.len() && trimmed_start(t) == #[trigger] t.skip(a);
        assert(t.skip(a) =~= s.skip(a + 1));
    } else {
        assert(s.skip(0) =~= s);
    }
}

/// What is left when the white space is cut off the end is the text up to
/// some index.
pub proof fn lemma_trimmed_end_is_prefix(s: Seq<char>)
    ensures
        exists|b: int| 0 <= b <= s.len() && trimmed_end(s) == #[trigger] s.take(b),
    decreases s.len(),
{
    if s.len() > 0 && white_space(s.last()) {
        let t = s.drop_last();
        lemma_trimmed_end_is_prefix(t);
        let b = choose|b: int| 0 <= b <= t.len() && trimmed_end(t) == #[trigger] t.take(b);
        assert(t.take(b) =~= s.take(b));
    } else {
        assert(s.take(s.len() as int) =~= s);
    }
}

/// A character of joined texts is a character of one of the texts or of what
/// stands between them.
pub proof fn lemma_joined_holds_chars_of(parts: Seq<Seq<char>>, sep: Seq<char>, c: char)
    requires
        joined(parts, sep).contains(c),
    ensures
        sep.contains(c) || exists|i: int| 0 <= i < parts.len() && (#[trigger] parts[i]).contains(c),
    decreases parts.len(),
{
    if parts.len() == 0 {
    } else if parts.len() == 1 {
        assert(parts[0].contains(c));
    } else {
        let rest = parts.drop_first();
        vstd::seq_lib::lemma_seq_concat_contains_all_elements(
            parts[0] + sep,
            joined(rest, sep),
            c,
        );
        vstd::seq_lib::lemma_seq_concat_contains_all_elements(parts[0], sep, c);
        if parts[0].contains(c) {
        } else if sep.contains(c) {
        } else {
            lemma_joined_holds_chars_of(rest, sep, c);
            let i = choose|i: int| 0 <= i < rest.len() && (#[trigger] rest[i]).contains(c);
            assert(parts[i + 1].contains(c));
        }
    }
}

} // verus!
