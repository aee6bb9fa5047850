//! The file name of a note: how an identifier, a title, keywords and a format
//! become one name, and how a name is read back.
//!
//! A name has the shape `<identifier>--<title>[__<kw>_<kw>..]<.ext>`. Reading
//! never fails: a name of another shape gives an identity with parts missing.

use vstd::prelude::*;
use vstd::slice::*;
use vstd::string::*;
use crate::bridge::join_with;
use crate::date::{is_clock_stamp, is_digit};
use crate::filetype::FileType;
use crate::input::{is_separator, keywords_are_valid};
use crate::text::{
    chars_of, cut_first, cut_last, each_trimmed, joined, keep_non_empty, lemma_first_occurrence,
    lemma_joined_holds_chars_of, lemma_last_occurrence, lemma_non_empty,
    lemma_pieces_hold_chars_of, lemma_pieces_len, lemma_pieces_of_joined,
    lemma_trimmed_holds_chars_of, non_empty, occurs_at, pieces, rsplit_once, split, split_once,
    string_of, trim, views, words, Delimiter,
};

verus! {

/// What stands between the identifier and the title.
pub open spec fn dashes() -> Seq<char> {
    seq!['-', '-']
}

/// What stands before the keywords.
pub open spec fn underscores() -> Seq<char> {
    seq!['_', '_']
}

/// What stands before the extension.
pub open spec fn dot() -> Seq<char> {
    seq!['.']
}

/// What a file name says of its note.
pub struct Identity {
    /// What stands before the first `--`, where the name has one.
    pub identifier: Option<Seq<char>>,
    /// The title, its words joined by hyphens.
    pub title_slug: Seq<char>,
    /// The keywords, none of them empty, in the order of the name.
    pub keywords: Seq<Seq<char>>,
    /// What stands after the last dot of the keyword part, where it has one.
    pub extension: Option<Seq<char>>,
}

/// What a file name says of its note, as strings.
#[derive(Debug)]
pub struct NoteIdentity {
    pub identifier: Option<String>,
    pub title_slug: String,
    pub keywords: Vec<String>,
    pub extension: Option<String>,
}

impl View for NoteIdentity {
    type V = Identity;

    open spec fn view(&self) -> Identity {
        Identity {
            identifier: match self.identifier {
                Some(s) => Some(s@),
                None => None,
            },
            title_slug: self.title_slug@,
            keywords: views(self.keywords@),
            extension: match self.extension {
                Some(s) => Some(s@),
                None => None,
            },
        }
    }
}

/// The keywords in `list`, a text of keywords with `_` between them.
pub open spec fn keywords_of(list: Seq<char>) -> Seq<Seq<char>> {
    non_empty(pieces(list, Delimiter::Char('_')))
}

/// The identity that the file name `name` stands for.
///
/// The name is cut at its first `--`; what follows, or the whole name where
/// there is none, is cut at its first `__`; what follows that is cut at its
/// last dot into keywords and extension.
pub open spec fn decoded(name: Seq<char>) -> Identity {
    let (identifier, tail) = match cut_first(name, dashes()) {
        Some((id, rest)) => (Some(id), rest),
        None => (None, name),
    };
    let (title_slug, keyword_tail) = match cut_first(tail, underscores()) {
        Some((title, rest)) => (title, rest),
        None => (tail, Seq::empty()),
    };
    let (list, extension) = match cut_last(keyword_tail, dot()) {
        Some((list, ext)) => (list, Some(ext)),
        None => (keyword_tail, None),
    };
    Identity { identifier, title_slug, keywords: keywords_of(list), extension }
}

/// The title as it stands in a file name: its words with one hyphen between
/// each two.
pub open spec fn slug(title: Seq<char>) -> Seq<char> {
    joined(words(title), seq!['-'])
}

/// The keywords that a user typed with single spaces between them, each
/// without the white space around it.
pub open spec fn keyword_tokens(keywords: Seq<char>) -> Seq<Seq<char>> {
    each_trimmed(pieces(keywords, Delimiter::Char(' ')))
}

/// The keyword part of a file name: nothing for no keywords, else `__` and the
/// keywords with `_` between them.
pub open spec fn keyword_segment(keywords: Seq<char>) -> Seq<char> {
    if keywords.len() == 0 {
        Seq::empty()
    } else {
        underscores() + joined(keyword_tokens(keywords), seq!['_'])
    }
}

/// The file name of a note.
pub open spec fn encoded(
    identifier: Seq<char>,
    title: Seq<char>,
    keywords: Seq<char>,
    filetype: FileType,
) -> Seq<char> {
    identifier + dashes() + slug(title) + keyword_segment(keywords) + filetype.suffix()
}

/// The title as it stands in a file name.
pub fn format_title(title: &str) -> (r: String)
    ensures
        r@ == slug(title@),
{
    let cs = chars_of(title);
    let parts = split(cs.as_slice(), Delimiter::Whitespace);
    let found = keep_non_empty(&parts);
    proof {
        reveal_strlit("-");
        assert("-"@ =~= seq!['-']);
    }
    join_with(&found, "-")
}

/// The entries of `parts`, each without the white space around it.
fn trim_each(parts: &Vec<String>) -> (r: Vec<String>)
    ensures
        views(r@) == each_trimmed(views(parts@)),
{
    let n: usize = parts.len();
    let mut out: Vec<String> = Vec::new();
    let mut i: usize = 0;
    while i < n
        invariant
            n == parts@.len(),
            i <= n,
            views(out@) == each_trimmed(views(parts@)).take(i as int),
        decreases n - i,
    {
        let cs = chars_of(parts[i].as_str());
        let token = string_of(trim(cs.as_slice()));
        proof {
            let all = each_trimmed(views(parts@));
            assert(token@ == all[i as int]);
            assert(all.take(i + 1) =~= all.take(i as int).push(all[i as int]));
            assert(views(out@.push(token)) =~= views(out@).push(token@));
        }
        out.push(token);
        i += 1;
    }
    proof {
        assert(each_trimmed(views(parts@)).take(n as int) =~= each_trimmed(views(parts@)));
    }
    out
}

/// The keyword part of a file name, from keywords typed with single spaces
/// between them.
pub fn format_keywords(keywords: &str) -> (r: String)
    ensures
        r@ == keyword_segment(keywords@),
{
    if keywords.is_empty() {
        return String::new();
    }
    let cs = chars_of(keywords);
    let parts = split(cs.as_slice(), Delimiter::Char(' '));
    let tokens = trim_each(&parts);
    proof {
        reveal_strlit("_");
        reveal_strlit("__");
        assert("_"@ =~= seq!['_']);
        assert("__"@ =~= underscores());
    }
    let list = join_with(&tokens, "_");
    let mut out = String::from_str("__");
    out.append(list.as_str());
    out
}

/// The file name of a note with the given identifier, title, keywords and
/// format.
pub fn encode(identifier: &str, title: &str, keywords: &str, filetype: FileType) -> (r: String)
    ensures
        r@ == encoded(identifier@, title@, keywords@, filetype),
{
    let title_slug = format_title(title);
    let segment = format_keywords(keywords);
    proof {
        reveal_strlit("--");
        assert("--"@ =~= dashes());
    }
    let mut out = String::from_str(identifier);
    out.append("--");
    out.append(title_slug.as_str());
    out.append(segment.as_str());
    out.append(filetype.as_ref());
    out
}

/// The identity that a file name stands for.
pub fn decode(filename: &str) -> (r: NoteIdentity)
    ensures
        r@ == decoded(filename@),
{
    let cs = chars_of(filename);
    let name: &[char] = cs.as_slice();
    let dd: Vec<char> = vec!['-', '-'];
    let uu: Vec<char> = vec!['_', '_'];
    let d: Vec<char> = vec!['.'];
    proof {
        assert(dd@ =~= dashes());
        assert(uu@ =~= underscores());
        assert(d@ =~= dot());
    }
    let (identifier, tail): (Option<String>, &[char]) = match split_once(name, dd.as_slice()) {
        Some((id, rest)) => (Some(string_of(id)), rest),
        None => (None, name),
    };
    let (title, keyword_tail): (&[char], &[char]) = match split_once(tail, uu.as_slice()) {
        Some((title, rest)) => (title, rest),
        None => (tail, slice_subrange(tail, 0, 0)),
    };
    let (list, extension): (&[char], Option<String>) = match rsplit_once(
        keyword_tail,
        d.as_slice(),
    ) {
        Some((list, ext)) => (list, Some(string_of(ext))),
        None => (keyword_tail, None),
    };
    proof {
        assert(tail@.subrange(0, 0) =~= Seq::<char>::empty());
    }
    let parts = split(list, Delimiter::Char('_'));
    let keywords = keep_non_empty(&parts);
    proof {
        assert(views(keywords@) == keywords_of(list@));
    }
    NoteIdentity { identifier, title_slug: string_of(title), keywords, extension }
}

/// No keyword that a name is read to hold is empty.
pub proof fn lemma_decoded_keywords_have_chars(name: Seq<char>)
    ensures
        forall|i: int|
            0 <= i < decoded(name).keywords.len() ==> (#[trigger] decoded(name).keywords[i]).len()
                > 0,
{
    assert forall|list: Seq<char>, i: int| 0 <= i < keywords_of(list).len() implies (
    #[trigger] keywords_of(list)[i]).len() > 0 by {
        lemma_non_empty(pieces(list, Delimiter::Char('_')));
    }
}

// ---------------------------------------------------------------------------
// Reading back what was written
// ---------------------------------------------------------------------------

/// `a` holds no two `c` in a row and does not end in `c`: where `cc` is
/// written behind `a`, it stands there first.
pub open spec fn clear_of(a: Seq<char>, c: char) -> bool {
    &&& forall|j: int| !occurs_at(a, seq![c, c], j)
    &&& a.len() > 0 ==> a.last() != c
}

/// Behind a text that is clear of `c`, the first `cc` is the one written
/// there.
pub proof fn lemma_cut_behind(a: Seq<char>, c: char, b: Seq<char>)
    requires
        clear_of(a, c),
    ensures
        cut_first(a + seq![c, c] + b, seq![c, c]) == Some((a, b)),
{
    let pat = seq![c, c];
    let x = a + pat + b;
    let i = a.len() as int;
    assert(x.subrange(i, i + 2) =~= pat);
    assert forall|j: int| 0 <= j < i implies !occurs_at(x, pat, j) by {
        if occurs_at(x, pat, j) {
            let w = x.subrange(j, j + 2);
            assert(w[0] == x[j] && w[1] == x[j + 1]);
            assert(pat[0] == c && pat[1] == c);
            if j + 1 < i {
                assert(a.subrange(j, j + 2) =~= pat);
                assert(occurs_at(a, pat, j));
            } else {
                assert(a.last() == x[j]);
            }
        }
    }
    lemma_first_occurrence(x, pat, i);
    assert(x.take(i) =~= a);
    assert(x.skip(i + 2) =~= b);
}

/// Before an extension that holds no dot, the last dot is the one written
/// there.
pub proof fn lemma_cut_at_extension(list: Seq<char>, ext: Seq<char>)
    requires
        !ext.contains('.'),
    ensures
        cut_last(list + dot() + ext, dot()) == Some((list, ext)),
{
    let x = list + dot() + ext;
    let i = list.len() as int;
    assert(x.subrange(i, i + 1) =~= dot());
    assert forall|j: int| i < j implies !occurs_at(x, dot(), j) by {
        if occurs_at(x, dot(), j) {
            assert(x.subrange(j, j + 1)[0] == x[j]);
            assert(x[j] == ext[j - i - 1]);
        }
    }
    lemma_last_occurrence(x, dot(), i);
    assert(x.take(i) =~= list);
    assert(x.skip(i + 1) =~= ext);
}

/// A file name that was written is read back as it was meant.
///
/// Where the identifier is clear of `-`, the title's slug is clear of `_`,
/// there are keywords and none of them holds `_`, the name that
/// [`encoded`] gives decodes to the identifier as it was, the slug of the
/// title, the keywords that are not empty in their order, and the extension of
/// the format.
pub proof fn lemma_decode_encode(
    identifier: Seq<char>,
    title: Seq<char>,
    keywords: Seq<char>,
    filetype: FileType,
)
    requires
        clear_of(identifier, '-'),
        clear_of(slug(title), '_'),
        keywords.len() > 0,
        forall|i: int|
            0 <= i < keyword_tokens(keywords).len() ==> !(#[trigger] keyword_tokens(
                keywords,
            )[i]).contains('_'),
    ensures
        decoded(encoded(identifier, title, keywords, filetype)) == (Identity {
            identifier: Some(identifier),
            title_slug: slug(title),
            keywords: non_empty(keyword_tokens(keywords)),
            extension: Some(filetype.extension()),
        }),
{
    let tokens = keyword_tokens(keywords);
    let list = joined(tokens, seq!['_']);
    let ext = filetype.extension();
    let keyword_tail = list + dot() + ext;
    let tail = slug(title) + underscores() + keyword_tail;
    let name = encoded(identifier, title, keywords, filetype);
    assert(name =~= identifier + dashes() + tail);
    lemma_cut_behind(identifier, '-', tail);
    lemma_cut_behind(slug(title), '_', keyword_tail);
    filetype.lemma_extension_is_plain();
    lemma_cut_at_extension(list, ext);
    lemma_pieces_len(keywords, Delimiter::Char(' '));
    lemma_pieces_of_joined(tokens, '_');
}

/// An identifier as the program makes it: eight digits, `T`, six digits, as
/// in `20240105T093000`.
pub open spec fn is_timestamp(identifier: Seq<char>) -> bool {
    &&& identifier.len() == 15
    &&& identifier[8] == 'T'
    &&& forall|i: int| 0 <= i < 15 && i != 8 ==> '0' <= #[trigger] identifier[i] <= '9'
}

/// A text that does not hold `c` is clear of `c`.
pub proof fn lemma_without_is_clear(a: Seq<char>, c: char)
    requires
        !a.contains(c),
    ensures
        clear_of(a, c),
{
    assert forall|j: int| !occurs_at(a, seq![c, c], j) by {
        if occurs_at(a, seq![c, c], j) {
            assert(a.subrange(j, j + 2)[0] == a[j]);
            assert(seq![c, c][0] == c);
            assert(a.contains(c));
        }
    }
    if a.len() > 0 && a.last() == c {
        assert(a[a.len() - 1] == c);
    }
}

/// The slug of a title holds an underscore only where the title holds one.
pub proof fn lemma_slug_without_underscore(title: Seq<char>)
    requires
        !title.contains('_'),
    ensures
        !slug(title).contains('_'),
{
    if slug(title).contains('_') {
        let all = pieces(title, Delimiter::Whitespace);
        lemma_joined_holds_chars_of(words(title), seq!['-'], '_');
        if seq!['-'].contains('_') {
            let j = choose|j: int| 0 <= j < seq!['-'].len() && seq!['-'][j] == '_';
            assert(seq!['-'][j] == '-');
        }
        let i = choose|i: int|
            0 <= i < words(title).len() && (#[trigger] words(title)[i]).contains('_');
        let word = words(title)[i];
        lemma_non_empty(all);
        assert(non_empty(all).contains(word));
        assert(all.contains(word));
        let k = choose|k: int| 0 <= k < all.len() && all[k] == word;
        lemma_pieces_hold_chars_of(title, Delimiter::Whitespace);
        assert(all[k].contains('_'));
    }
}

/// No keyword of typed keywords that are accepted holds an underscore.
pub proof fn lemma_valid_keywords_without_underscore(keywords: Seq<char>)
    requires
        keywords_are_valid(keywords),
    ensures
        forall|i: int|
            0 <= i < keyword_tokens(keywords).len() ==> !(#[trigger] keyword_tokens(
                keywords,
            )[i]).contains('_'),
{
    let all = pieces(keywords, Delimiter::Char(' '));
    assert forall|i: int| 0 <= i < keyword_tokens(keywords).len() implies !(
    #[trigger] keyword_tokens(keywords)[i]).contains('_') by {
        if keyword_tokens(keywords)[i].contains('_') {
            lemma_trimmed_holds_chars_of(all[i], '_');
            lemma_pieces_hold_chars_of(keywords, Delimiter::Char(' '));
            assert(all[i].contains('_'));
            assert(keywords.contains('_'));
            let j = choose|j: int| 0 <= j < keywords.len() && keywords[j] == '_';
            assert(is_separator(keywords[j]));
        }
    }
}

/// The file name of a note that the program makes is read back as it was
/// meant.
///
/// Where the identifier is a timestamp, the title holds no underscore, and
/// the keywords are typed, not empty and accepted, the name that [`encoded`]
/// gives decodes to the identifier, the slug of the title, the keywords and
/// the extension of the format.
pub proof fn lemma_decode_encode_of_valid_input(
    identifier: Seq<char>,
    title: Seq<char>,
    keywords: Seq<char>,
    filetype: FileType,
)
    requires
        is_timestamp(identifier),
        !title.contains('_'),
        keywords.len() > 0,
        keywords_are_valid(keywords),
    ensures
        decoded(encoded(identifier, title, keywords, filetype)) == (Identity {
            identifier: Some(identifier),
            title_slug: slug(title),
            keywords: non_empty(keyword_tokens(keywords)),
            extension: Some(filetype.extension()),
        }),
{
    if identifier.contains('-') {
        let j = choose|j: int| 0 <= j < identifier.len() && identifier[j] == '-';
        assert('0' <= identifier[j] <= '9' || j == 8);
    }
    lemma_without_is_clear(identifier, '-');
    lemma_slug_without_underscore(title);
    lemma_without_is_clear(slug(title), '_');
    lemma_valid_keywords_without_underscore(keywords);
    lemma_decode_encode(identifier, title, keywords, filetype);
}

/// An identifier that the clock wrote is clear of `-`: a hyphen can only be
/// the sign of its year, and digits follow that.
pub proof fn lemma_clock_stamp_is_clear(identifier: Seq<char>)
    requires
        is_clock_stamp(identifier),
    ensures
        clear_of(identifier, '-'),
{
    let n = identifier.len() - 11;
    let year = identifier.take(n);
    assert forall|i: int| 1 <= i < identifier.len() implies identifier[i] != '-' by {
        if i < n {
            if year.len() == 4 {
                assert(is_digit(year[i]));
            } else {
                assert(is_digit(year.skip(1)[i - 1]));
            }
        } else if i < n + 4 {
            assert(is_digit(identifier.subrange(n, n + 4)[i - n]));
        } else if i > n + 4 {
            assert(is_digit(identifier.subrange(n + 5, n + 11)[i - n - 5]));
        }
    }
    assert forall|j: int| !occurs_at(identifier, dashes(), j) by {
        if occurs_at(identifier, dashes(), j) {
            assert(identifier.subrange(j, j + 2)[1] == identifier[j + 1]);
            assert(dashes()[1] == '-');
        }
    }
}

/// The file name of a note that is made now is read back as it was meant.
///
/// Where the identifier is one that the clock wrote, the title holds no
/// underscore, and the keywords are typed, not empty and accepted, the name
/// that [`encoded`] gives decodes to the identifier, the slug of the title,
/// the keywords and the extension of the format.
pub proof fn lemma_decode_encode_of_clock_stamp(
    identifier: Seq<char>,
    title: Seq<char>,
    keywords: Seq<char>,
    filetype: FileType,
)
    requires
        is_clock_stamp(identifier),
        !title.contains('_'),
        keywords.len() > 0,
        keywords_are_valid(keywords),
    ensures
        decoded(encoded(identifier, title, keywords, filetype)) == (Identity {
            identifier: Some(identifier),
            title_slug: slug(title),
            keywords: non_empty(keyword_tokens(keywords)),
            extension: Some(filetype.extension()),
        }),
{
    lemma_clock_stamp_is_clear(identifier);
    lemma_slug_without_underscore(title);
    lemma_without_is_clear(slug(title), '_');
    lemma_valid_keywords_without_underscore(keywords);
    lemma_decode_encode(identifier, title, keywords, filetype);
}

} // verus!
