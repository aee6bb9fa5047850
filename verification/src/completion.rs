//! Completing the keyword that a user is typing: the known keywords that
//! match what was typed, best match first.

use vstd::prelude::*;
use vstd::string::*;
use crate::bridge::fuzzy_score;
use crate::text::{
    chars_of, cut_last, keep_non_empty, rsplit_once, split, string_of, views, words, Delimiter,
};

verus! {

/// The score that the skim matcher, with its default settings and smart case,
/// gives to the choice `choice` for the pattern `pattern`, where the pattern
/// matches. It depends on the two texts alone.
pub uninterp spec fn skim_score(choice: Seq<char>, pattern: Seq<char>) -> Option<i64>;

/// The texts and scores of a list of scored strings.
pub open spec fn scores(v: Seq<(String, i64)>) -> Seq<(Seq<char>, i64)> {
    Seq::new(v.len(), |i: int| (v[i].0@, v[i].1))
}

/// The keywords that match `input`, each with its score, in the order of
/// `keywords`.
pub open spec fn matches(keywords: Seq<Seq<char>>, input: Seq<char>) -> Seq<(Seq<char>, i64)>
    decreases keywords.len(),
{
    if keywords.len() == 0 {
        Seq::empty()
    } else {
        let before = matches(keywords.drop_last(), input);
        match skim_score(keywords.last(), input) {
            Some(score) => before.push((keywords.last(), score)),
            None => before,
        }
    }
}

/// The test that an entry has the score `v`.
pub open spec fn has_score(v: i64) -> spec_fn((Seq<char>, i64)) -> bool {
    |entry: (Seq<char>, i64)| entry.1 == v
}

/// `ranked` holds the entries of `entries` with the highest score first, and
/// those of one score in the order that they have in `entries`.
pub open spec fn is_ranking_of(
    ranked: Seq<(Seq<char>, i64)>,
    entries: Seq<(Seq<char>, i64)>,
) -> bool {
    &&& forall|i: int, j: int| 0 <= i < j < ranked.len() ==> ranked[i].1 >= ranked[j].1
    &&& forall|v: i64| #[trigger] ranked.filter(has_score(v)) == entries.filter(has_score(v))
}

/// Where no entry passes a test, the test leaves nothing.
proof fn lemma_filter_none<A>(s: Seq<A>, pred: spec_fn(A) -> bool)
    requires
        forall|i: int| 0 <= i < s.len() ==> !pred(s[i]),
    ensures
        s.filter(pred) == Seq::<A>::empty(),
    decreases s.len(),
{
    reveal(Seq::filter);
    if s.len() > 0 {
        lemma_filter_none(s.drop_last(), pred);
    }
}

/// A ranking stays one when a new entry is put behind the entries that score
/// at least as high and before those that score lower.
proof fn lemma_rank_step(
    ranked: Seq<(Seq<char>, i64)>,
    entries: Seq<(Seq<char>, i64)>,
    entry: (Seq<char>, i64),
    p: int,
)
    requires
        is_ranking_of(ranked, entries),
        0 <= p <= ranked.len(),
        forall|i: int| 0 <= i < p ==> ranked[i].1 >= entry.1,
        forall|i: int| p <= i < ranked.len() ==> ranked[i].1 < entry.1,
    ensures
        is_ranking_of(ranked.insert(p, entry), entries.push(entry)),
{
    let next = ranked.insert(p, entry);
    let head = ranked.take(p);
    let tail = ranked.skip(p);
    assert(next =~= head.push(entry) + tail);
    assert(ranked =~= head + tail);
    assert forall|v: i64| #[trigger]
        next.filter(has_score(v)) == entries.push(entry).filter(has_score(v)) by {
        let f = has_score(v);
        Seq::filter_distributes_over_add(head.push(entry), tail, f);
        Seq::filter_distributes_over_add(head, tail, f);
        head.lemma_filter_push(entry, f);
        entries.lemma_filter_push(entry, f);
        assert(ranked.filter(f) == entries.filter(f));
        if f(entry) {
            lemma_filter_none(tail, f);
            assert(next.filter(f) =~= entries.push(entry).filter(f));
        }
    }
}

/// The entries with the highest score first; entries of one score keep their
/// order.
pub fn rank(entries: &Vec<(String, i64)>) -> (r: Vec<(String, i64)>)
    ensures
        is_ranking_of(scores(r@), scores(entries@)),
{
    let n: usize = entries.len();
    let mut out: Vec<(String, i64)> = Vec::new();
    let mut i: usize = 0;
    proof {
        assert(scores(entries@).take(0) =~= Seq::empty());
        assert(scores(out@) =~= Seq::empty());
    }
    while i < n
        invariant
            n == entries@.len(),
            i <= n,
            is_ranking_of(scores(out@), scores(entries@).take(i as int)),
        decreases n - i,
    {
        let score: i64 = entries[i].1;
        let len: usize = out.len();
        let mut p: usize = 0;
        while p < len && out[p].1 >= score
            invariant
                len == out@.len(),
                p <= len,
                forall|j: int| 0 <= j < p ==> scores(out@)[j].1 >= score,
            decreases len - p,
        {
            p += 1;
        }
        let entry = (entries[i].0.clone(), score);
        proof {
            let ranked = scores(out@);
            let all = scores(entries@);
            assert forall|j: int| p <= j < ranked.len() implies ranked[j].1 < score by {
                assert(ranked[p as int].1 < score);
                if p < j {
                    assert(ranked[p as int].1 >= ranked[j].1);
                }
            }
            lemma_rank_step(ranked, all.take(i as int), (entry.0@, score), p as int);
            assert(all.take(i + 1) =~= all.take(i as int).push((entry.0@, score)));
            assert(scores(out@.insert(p as int, entry)) =~= ranked.insert(
                p as int,
                (entry.0@, score),
            ));
        }
        out.insert(p, entry);
        i += 1;
    }
    proof {
        assert(scores(entries@).take(n as int) =~= scores(entries@));
    }
    out
}

/// The entry at `k` scores highest, and is the first that does.
pub open spec fn is_best(entries: Seq<(Seq<char>, i64)>, k: int) -> bool {
    &&& 0 <= k < entries.len()
    &&& forall|j: int| 0 <= j < entries.len() ==> entries[j].1 <= entries[k].1
    &&& forall|j: int| 0 <= j < k ==> entries[j].1 < entries[k].1
}

/// The text of the first entry that scores highest, where there is an entry.
pub open spec fn best_match(entries: Seq<(Seq<char>, i64)>) -> Option<Seq<char>> {
    if entries.len() == 0 {
        None
    } else {
        Some(entries[choose|k: int| is_best(entries, k)].0)
    }
}

/// The last word of what was typed, and the empty text where it holds no
/// word.
pub open spec fn last_word(input: Seq<char>) -> Seq<char> {
    if words(input).len() == 0 {
        Seq::empty()
    } else {
        words(input).last()
    }
}

/// What was typed up to the last place where its last word stands.
pub open spec fn completion_prefix(input: Seq<char>) -> Seq<char> {
    match cut_last(input, last_word(input)) {
        Some((before, after)) => before,
        None => Seq::empty(),
    }
}

/// What the input becomes when it is completed: nothing where there is
/// neither a highlighted suggestion nor a keyword that matches the last word;
/// else the input with its last word replaced by the highlighted suggestion
/// or, without one, by the best match.
pub open spec fn completed(
    keywords: Seq<Seq<char>>,
    input: Seq<char>,
    highlighted: Option<Seq<char>>,
) -> Option<Seq<char>> {
    let suggestion = match highlighted {
        Some(text) => Some(text),
        None => best_match(matches(keywords, last_word(input))),
    };
    match suggestion {
        Some(text) => Some(completion_prefix(input) + text),
        None => None,
    }
}

/// Where a test leaves something, the first entry it leaves is the first
/// entry that passes it. Returns where that entry stands.
proof fn lemma_filter_first<A>(s: Seq<A>, pred: spec_fn(A) -> bool) -> (k: int)
    requires
        s.filter(pred).len() > 0,
    ensures
        0 <= k < s.len(),
        pred(s[k]),
        forall|j: int| 0 <= j < k ==> !pred(s[j]),
        s.filter(pred)[0] == s[k],
    decreases s.len(),
{
    reveal(Seq::filter);
    assert(s.len() > 0);
    let init = s.drop_last();
    if init.filter(pred).len() > 0 {
        let k = lemma_filter_first(init, pred);
        assert(s[k] == init[k]);
        assert forall|j: int| 0 <= j < k implies !pred(s[j]) by {
            assert(s[j] == init[j]);
        }
        k
    } else {
        assert forall|j: int| 0 <= j < s.len() - 1 implies !pred(s[j]) by {
            assert(s[j] == init[j]);
            if pred(init[j]) {
                init.lemma_filter_contains(pred, j);
            }
        }
        s.len() - 1
    }
}

/// A ranking of entries begins with the first entry that scores highest.
pub proof fn lemma_ranking_begins_with_best(
    ranked: Seq<(Seq<char>, i64)>,
    entries: Seq<(Seq<char>, i64)>,
)
    requires
        is_ranking_of(ranked, entries),
        entries.len() > 0,
    ensures
        ranked.len() > 0,
        best_match(entries) == Some(ranked[0].0),
{
    let any = has_score(entries[0].1);
    entries.lemma_filter_contains(any, 0);
    assert(ranked.filter(any) == entries.filter(any));
    ranked.lemma_filter_len(any);
    let top = has_score(ranked[0].1);
    ranked.lemma_filter_contains(top, 0);
    let first = lemma_filter_first(ranked, top);
    assert(first == 0);
    assert(ranked.filter(top) == entries.filter(top));
    let k = lemma_filter_first(entries, top);
    assert forall|j: int| 0 <= j < entries.len() implies entries[j].1 <= entries[k].1 by {
        let same = has_score(entries[j].1);
        entries.lemma_filter_contains(same, j);
        assert(ranked.filter(same) == entries.filter(same));
        let at = lemma_filter_first(ranked, same);
        assert(ranked[0].1 >= ranked[at].1);
    }
    assert(is_best(entries, k));
    let chosen = choose|k: int| is_best(entries, k);
    assert(is_best(entries, chosen));
    if chosen < k {
        assert(entries[chosen].1 < entries[k].1);
    }
    if k < chosen {
        assert(entries[k].1 < entries[chosen].1);
    }
}

/// Two lists that are ordered by falling score, and hold the same entries in
/// the same order for every score, are the same list.
proof fn lemma_same_by_score(a: Seq<(Seq<char>, i64)>, b: Seq<(Seq<char>, i64)>)
    requires
        forall|i: int, j: int| 0 <= i < j < a.len() ==> a[i].1 >= a[j].1,
        forall|i: int, j: int| 0 <= i < j < b.len() ==> b[i].1 >= b[j].1,
        forall|v: i64| #[trigger] a.filter(has_score(v)) == b.filter(has_score(v)),
    ensures
        a == b,
    decreases a.len() + b.len(),
{
    if a.len() == 0 && b.len() == 0 {
        assert(a =~= b);
    } else if a.len() == 0 || b.len() == 0 {
        let (full, none) = if a.len() == 0 {
            (b, a)
        } else {
            (a, b)
        };
        let f = has_score(full[0].1);
        full.lemma_filter_contains(f, 0);
        none.lemma_filter_len(f);
        assert(a.filter(f) == b.filter(f));
    } else {
        let fa = has_score(a[0].1);
        let fb = has_score(b[0].1);
        a.lemma_filter_contains(fa, 0);
        b.lemma_filter_contains(fb, 0);
        assert(a.filter(fa) == b.filter(fa));
        assert(a.filter(fb) == b.filter(fb));
        let ka = lemma_filter_first(a, fa);
        let kb = lemma_filter_first(b, fa);
        let la = lemma_filter_first(a, fb);
        assert(ka == 0);
        assert(b[0].1 >= b[kb].1);
        assert(a[0].1 >= a[la].1);
        assert(kb == 0);
        assert(a[0] == b[0]);
        let head = seq![a[0]];
        let ta = a.drop_first();
        let tb = b.drop_first();
        assert(a =~= head + ta);
        assert(b =~= head + tb);
        assert forall|v: i64| #[trigger] ta.filter(has_score(v)) == tb.filter(has_score(v)) by {
            let f = has_score(v);
            Seq::filter_distributes_over_add(head, ta, f);
            Seq::filter_distributes_over_add(head, tb, f);
            assert(a.filter(f) == b.filter(f));
            let h = head.filter(f);
            let x = ta.filter(f);
            let y = tb.filter(f);
            assert(h + x == h + y);
            assert(x.len() == y.len()) by {
                assert((h + x).len() == h.len() + x.len());
                assert((h + y).len() == h.len() + y.len());
            }
            assert forall|i: int| 0 <= i < x.len() implies x[i] == y[i] by {
                assert((h + x)[h.len() + i] == x[i]);
                assert((h + y)[h.len() + i] == y[i]);
            }
            assert(x =~= y);
        }
        assert forall|i: int, j: int| 0 <= i < j < ta.len() implies ta[i].1 >= ta[j].1 by {
            assert(ta[i] == a[i + 1] && ta[j] == a[j + 1]);
        }
        assert forall|i: int, j: int| 0 <= i < j < tb.len() implies tb[i].1 >= tb[j].1 by {
            assert(tb[i] == b[i + 1] && tb[j] == b[j + 1]);
        }
        lemma_same_by_score(ta, tb);
    }
}

/// There is one ranking of a list of entries, and no other.
pub proof fn lemma_ranking_is_unique(
    first: Seq<(Seq<char>, i64)>,
    second: Seq<(Seq<char>, i64)>,
    entries: Seq<(Seq<char>, i64)>,
)
    requires
        is_ranking_of(first, entries),
        is_ranking_of(second, entries),
    ensures
        first == second,
{
    assert forall|v: i64| #[trigger] first.filter(has_score(v)) == second.filter(has_score(v)) by {
        assert(first.filter(has_score(v)) == entries.filter(has_score(v)));
        assert(second.filter(has_score(v)) == entries.filter(has_score(v)));
    }
    lemma_same_by_score(first, second);
}

/// The keywords to complete from.
#[derive(Debug)]
pub struct KeywordCompleter {
    pub keywords: Vec<String>,
}

impl KeywordCompleter {
    /// A completer over the given keywords.
    pub fn new(keywords: Vec<String>) -> (r: KeywordCompleter)
        ensures
            r.keywords == keywords,
    {
        KeywordCompleter { keywords }
    }

    /// The keywords that match `input`, each with its score, in the order of
    /// the completer's keywords.
    pub fn score_all(&self, input: &str) -> (r: Vec<(String, i64)>)
        ensures
            scores(r@) == matches(views(self.keywords@), input@),
    {
        let n: usize = self.keywords.len();
        let mut out: Vec<(String, i64)> = Vec::new();
        let mut i: usize = 0;
        proof {
            assert(views(self.keywords@).take(0) =~= Seq::<Seq<char>>::empty());
            assert(scores(out@) =~= matches(views(self.keywords@).take(0), input@));
        }
        while i < n
            invariant
                n == self.keywords@.len(),
                i <= n,
                scores(out@) == matches(views(self.keywords@).take(i as int), input@),
            decreases n - i,
        {
            proof {
                let all = views(self.keywords@);
                assert(all.take(i + 1).drop_last() =~= all.take(i as int));
                assert(all.take(i + 1).last() == self.keywords@[i as int]@);
            }
            match fuzzy_score(self.keywords[i].as_str(), input) {
                Some(score) => {
                    let entry = (self.keywords[i].clone(), score);
                    proof {
                        assert(scores(out@.push(entry)) =~= scores(out@).push((entry.0@, score)));
                    }
                    out.push(entry);
                },
                None => {},
            }
            i += 1;
        }
        proof {
            assert(views(self.keywords@).take(n as int) =~= views(self.keywords@));
        }
        out
    }

    /// The keywords that match `input`, each with its score, best match
    /// first; matches of one score stay in the order of the completer's
    /// keywords.
    pub fn fuzzy_sort(&self, input: &str) -> (r: Vec<(String, i64)>)
        ensures
            is_ranking_of(scores(r@), matches(views(self.keywords@), input@)),
    {
        let found = self.score_all(input);
        rank(&found)
    }

    /// The keywords to suggest, whatever was typed: all of them.
    pub fn get_suggestions(&self, _input: &str) -> (r: Vec<String>)
        ensures
            views(r@) == views(self.keywords@),
    {
        let n: usize = self.keywords.len();
        let mut out: Vec<String> = Vec::new();
        let mut i: usize = 0;
        while i < n
            invariant
                n == self.keywords@.len(),
                i <= n,
                views(out@) == views(self.keywords@).take(i as int),
            decreases n - i,
        {
            let keyword = self.keywords[i].clone();
            proof {
                let all = views(self.keywords@);
                assert(all.take(i + 1) =~= all.take(i as int).push(keyword@));
                assert(views(out@.push(keyword)) =~= views(out@).push(keyword@));
            }
            out.push(keyword);
            i += 1;
        }
        proof {
            assert(views(self.keywords@).take(n as int) =~= views(self.keywords@));
        }
        out
    }

    /// What the input becomes when it is completed: its last word gives way
    /// to the highlighted suggestion or, without one, to the keyword that
    /// matches it best.
    pub fn get_completion(&self, input: &str, highlighted_suggestion: Option<String>) -> (r:
        Option<String>)
        ensures
            match r {
                Some(text) => completed(
                    views(self.keywords@),
                    input@,
                    match highlighted_suggestion {
                        Some(h) => Some(h@),
                        None => None,
                    },
                ) == Some(text@),
                None => completed(
                    views(self.keywords@),
                    input@,
                    match highlighted_suggestion {
                        Some(h) => Some(h@),
                        None => None,
                    },
                ) is None,
            },
    {
        let cs = chars_of(input);
        let found = keep_non_empty(&split(cs.as_slice(), Delimiter::Whitespace));
        let word: String = if found.len() == 0 {
            String::new()
        } else {
            found[found.len() - 1].clone()
        };
        proof {
            assert(word@ == last_word(input@)) by {
                if found@.len() > 0 {
                    assert(views(found@).last() == found@[found@.len() - 1]@);
                }
            }
        }
        let pattern = chars_of(word.as_str());
        let prefix: String = match rsplit_once(cs.as_slice(), pattern.as_slice()) {
            Some((before, _)) => string_of(before),
            None => String::new(),
        };
        assert(prefix@ == completion_prefix(input@));
        let suggestion: Option<String> = match highlighted_suggestion {
            Some(text) => Some(text),
            None => {
                let ranked = self.fuzzy_sort(word.as_str());
                proof {
                    let entries = matches(views(self.keywords@), word@);
                    if entries.len() > 0 {
                        lemma_ranking_begins_with_best(scores(ranked@), entries);
                    } else {
                        let none = has_score(0);
                        if ranked@.len() > 0 {
                            let same = has_score(ranked@[0].1);
                            assert(scores(ranked@)[0].1 == ranked@[0].1);
                            scores(ranked@).lemma_filter_contains(same, 0);
                            entries.lemma_filter_len(same);
                        }
                    }
                }
                if ranked.len() == 0 {
                    None
                } else {
                    Some(ranked[0].0.clone())
                }
            },
        };
        match suggestion {
            Some(text) => {
                let mut out = prefix;
                out.append(text.as_str());
                Some(out)
            },
            None => None,
        }
    }
}

} // verus!
