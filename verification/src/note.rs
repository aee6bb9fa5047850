//! A collection of notes, each known by its file name: the keywords that occur
//! in it, and the notes that carry given keywords or a given date.

use vstd::prelude::*;
use vstd::string::*;
use crate::bridge::{parse_date_with, unique};
use crate::codec::{dashes, decode, decoded, lemma_decoded_keywords_have_chars};
use crate::date::{parsed_date, timestamp_format, Date};
use crate::text::{
    chars_of, contains_str, distinct, first_occurrence, lemma_distinct, split_once, string_of,
    views,
};

verus! {

/// A note, known by the name of its file.
#[derive(Debug)]
pub struct Note(pub String);

impl View for Note {
    type V = Seq<char>;

    open spec fn view(&self) -> Seq<char> {
        self.0@
    }
}

impl Clone for Note {
    fn clone(&self) -> (r: Self)
        ensures
            r == *self,
    {
        Note(self.0.clone())
    }
}

/// The date that the name of a note stands for: the date that its identifier
/// is read as. None where the name has no identifier, or the identifier is no
/// timestamp.
pub open spec fn date_of(name: Seq<char>) -> Option<Date> {
    match decoded(name).identifier {
        Some(identifier) => parsed_date(identifier, timestamp_format()),
        None => None,
    }
}

/// The keywords of all the names, in the order of the names and, for one
/// name, in the order in which it holds them.
pub open spec fn all_keywords(names: Seq<Seq<char>>) -> Seq<Seq<char>>
    decreases names.len(),
{
    if names.len() == 0 {
        Seq::empty()
    } else {
        all_keywords(names.drop_last()) + decoded(names.last()).keywords
    }
}

/// The keywords that occur in the names, each once, in the order in which
/// they first occur.
pub open spec fn keyword_index(names: Seq<Seq<char>>) -> Seq<Seq<char>> {
    distinct(all_keywords(names))
}

/// The names of a list of notes.
pub open spec fn names_of(notes: Seq<Note>) -> Seq<Seq<char>> {
    Seq::new(notes.len(), |i: int| notes[i]@)
}

/// Whether the name of a note holds at least one of the keywords `selected`.
pub open spec fn shares_keyword(name: Seq<char>, selected: Seq<Seq<char>>) -> bool {
    exists|i: int|
        0 <= i < decoded(name).keywords.len() && selected.contains(
            #[trigger] decoded(name).keywords[i],
        )
}

/// The test that a note holds at least one of the keywords `selected`.
pub open spec fn tagged_any(selected: Seq<Seq<char>>) -> spec_fn(Note) -> bool {
    |note: Note| shares_keyword(note@, selected)
}

/// The test that the name of a note stands for the date `date`.
pub open spec fn dated(date: Date) -> spec_fn(Note) -> bool {
    |note: Note| date_of(note@) == Some(date)
}

/// The notes that a selection of keywords leaves: all of them where nothing
/// is selected, else those that hold at least one selected keyword, in their
/// order.
pub open spec fn with_keywords(notes: Seq<Note>, selected: Seq<Seq<char>>) -> Seq<Note> {
    if selected.len() == 0 {
        notes
    } else {
        notes.filter(tagged_any(selected))
    }
}

/// The notes whose names stand for the date `date`, in their order.
pub open spec fn on_date(notes: Seq<Note>, date: Date) -> Seq<Note> {
    notes.filter(dated(date))
}

impl Note {
    /// The date that the note's name stands for.
    pub fn date(&self) -> (r: Option<Date>)
        ensures
            r == date_of(self@),
    {
        let cs = chars_of(self.0.as_str());
        let dd: Vec<char> = vec!['-', '-'];
        proof {
            assert(dd@ =~= dashes());
        }
        match split_once(cs.as_slice(), dd.as_slice()) {
            Some((identifier, _)) => {
                let text = string_of(identifier);
                parse_date_with(text.as_str(), "%Y%m%dT%H%M%S")
            },
            None => None,
        }
    }
}

/// The date that a note's name stands for.
pub fn parse_date(note: &Note) -> (r: Option<Date>)
    ensures
        r == date_of(note@),
{
    note.date()
}

/// No keyword of any name is empty.
pub proof fn lemma_all_keywords_have_chars(names: Seq<Seq<char>>)
    ensures
        forall|i: int|
            0 <= i < all_keywords(names).len() ==> (#[trigger] all_keywords(names)[i]).len() > 0,
    decreases names.len(),
{
    if names.len() > 0 {
        let before = all_keywords(names.drop_last());
        let here = decoded(names.last()).keywords;
        lemma_all_keywords_have_chars(names.drop_last());
        lemma_decoded_keywords_have_chars(names.last());
        assert forall|i: int| 0 <= i < all_keywords(names).len() implies (#[trigger] all_keywords(
            names,
        )[i]).len() > 0 by {
            if i < before.len() {
                assert(all_keywords(names)[i] == before[i]);
            } else {
                assert(all_keywords(names)[i] == here[i - before.len()]);
            }
        }
    }
}

/// The keywords that occur in the names of `notes`, each once, in the order
/// in which they first occur. None is empty.
pub fn parse_all_keywords(notes: &[Note]) -> (r: Vec<String>)
    ensures
        views(r@) == keyword_index(names_of(notes@)),
        views(r@).no_duplicates(),
        forall|i: int| 0 <= i < r@.len() ==> (#[trigger] views(r@)[i]).len() > 0,
        forall|k: Seq<char>| #[trigger]
            views(r@).contains(k) <==> all_keywords(names_of(notes@)).contains(k),
{
    let n: usize = notes.len();
    let mut all: Vec<String> = Vec::new();
    let mut i: usize = 0;
    proof {
        assert(names_of(notes@).take(0) =~= Seq::<Seq<char>>::empty());
        assert(views(all@) =~= all_keywords(names_of(notes@).take(0)));
    }
    while i < n
        invariant
            n == notes@.len(),
            i <= n,
            views(all@) == all_keywords(names_of(notes@).take(i as int)),
        decreases n - i,
    {
        let identity = decode(notes[i].0.as_str());
        let m: usize = identity.keywords.len();
        let ghost before = views(all@);
        let ghost here = views(identity.keywords@);
        let mut j: usize = 0;
        proof {
            assert(here.take(0) =~= Seq::<Seq<char>>::empty());
            assert(views(all@) =~= before + here.take(0));
        }
        while j < m
            invariant
                m == identity.keywords@.len(),
                j <= m,
                here == views(identity.keywords@),
                views(all@) == before + here.take(j as int),
            decreases m - j,
        {
            let keyword = identity.keywords[j].clone();
            proof {
                assert(here.take(j + 1) =~= here.take(j as int).push(keyword@));
                assert(views(all@.push(keyword)) =~= views(all@).push(keyword@));
            }
            all.push(keyword);
            j += 1;
        }
        proof {
            let names = names_of(notes@);
            assert(here.take(m as int) =~= here);
            assert(names.take(i + 1).drop_last() =~= names.take(i as int));
            assert(names.take(i + 1).last() == notes@[i as int]@);
        }
        i += 1;
    }
    proof {
        let names = names_of(notes@);
        assert(names.take(n as int) =~= names);
        lemma_distinct(all_keywords(names));
        lemma_all_keywords_have_chars(names);
    }
    let r = unique(all);
    proof {
        let kept = views(r@);
        let every = all_keywords(names_of(notes@));
        assert forall|i: int| 0 <= i < r@.len() implies (#[trigger] kept[i]).len() > 0 by {
            assert(kept.contains(kept[i]));
            let j = choose|j: int| 0 <= j < every.len() && every[j] == kept[i];
            assert(every[j].len() > 0);
        }
    }
    r
}

/// Whether `tags` holds at least one of the strings of `selected`.
fn any_selected(tags: &Vec<String>, selected: &Vec<String>) -> (r: bool)
    ensures
        r == exists|i: int|
            0 <= i < tags@.len() && views(selected@).contains(#[trigger] views(tags@)[i]),
{
    let n: usize = tags.len();
    let mut i: usize = 0;
    while i < n
        invariant
            n == tags@.len(),
            i <= n,
            forall|j: int| 0 <= j < i ==> !views(selected@).contains(#[trigger] views(tags@)[j]),
        decreases n - i,
    {
        if contains_str(selected, tags[i].as_str()) {
            proof {
                assert(views(selected@).contains(views(tags@)[i as int]));
            }
            return true;
        }
        i += 1;
    }
    false
}

/// A copy of each note, in order.
fn copies(notes: &[Note]) -> (r: Vec<Note>)
    ensures
        r@ == notes@,
{
    let n: usize = notes.len();
    let mut out: Vec<Note> = Vec::new();
    let mut i: usize = 0;
    while i < n
        invariant
            n == notes@.len(),
            i <= n,
            out@ == notes@.take(i as int),
        decreases n - i,
    {
        out.push(notes[i].clone());
        proof {
            assert(notes@.take(i + 1) =~= notes@.take(i as int).push(notes@[i as int]));
        }
        i += 1;
    }
    proof {
        assert(notes@.take(n as int) =~= notes@);
    }
    out
}

/// The notes that carry at least one of the keywords, in the order of
/// `notes`; all the notes where no keyword is given.
pub fn search_by_keywords(notes: &[Note], keywords: Vec<String>) -> (r: Vec<Note>)
    ensures
        r@ == with_keywords(notes@, views(keywords@)),
        keywords@.len() == 0 ==> r@ == notes@,
        keywords@.len() > 0 ==> forall|i: int|
            0 <= i < notes@.len() && shares_keyword(notes@[i]@, views(keywords@))
                ==> r@.contains(#[trigger] notes@[i]),
{
    if keywords.len() == 0 {
        return copies(notes);
    }
    let ghost selected = views(keywords@);
    let n: usize = notes.len();
    let mut out: Vec<Note> = Vec::new();
    let mut i: usize = 0;
    proof {
        reveal(Seq::filter);
        assert(notes@.take(0) =~= Seq::<Note>::empty());
        assert(out@ =~= notes@.take(0).filter(tagged_any(selected)));
    }
    while i < n
        invariant
            n == notes@.len(),
            i <= n,
            selected == views(keywords@),
            out@ == notes@.take(i as int).filter(tagged_any(selected)),
        decreases n - i,
    {
        let identity = decode(notes[i].0.as_str());
        proof {
            assert(notes@.take(i + 1) =~= notes@.take(i as int).push(notes@[i as int]));
            notes@.take(i as int).lemma_filter_push(notes@[i as int], tagged_any(selected));
        }
        let keep = any_selected(&identity.keywords, &keywords);
        proof {
            let held = decoded(notes@[i as int]@).keywords;
            let tags = views(identity.keywords@);
            assert(tags == held);
            if keep {
                let k = choose|k: int| 0 <= k < tags.len() && selected.contains(#[trigger] tags[k]);
                assert(selected.contains(held[k]));
            } else {
                assert forall|k: int| 0 <= k < held.len() implies !selected.contains(
                    #[trigger] held[k],
                ) by {
                    assert(held[k] == tags[k]);
                }
            }
            assert(keep == shares_keyword(notes@[i as int]@, selected));
        }
        if keep {
            out.push(notes[i].clone());
        }
        i += 1;
    }
    proof {
        assert(notes@.take(n as int) =~= notes@);
        assert forall|i: int|
            0 <= i < notes@.len() && shares_keyword(notes@[i]@, selected) implies out@.contains(
            #[trigger] notes@[i],
        ) by {
            notes@.lemma_filter_contains(tagged_any(selected), i);
        }
    }
    out
}

/// The notes whose names stand for the date `date`, in the order of `notes`.
/// A note whose name has no identifier, or one that is no timestamp, is left
/// out whatever the date.
pub fn search_by_date(notes: &[Note], date: Date) -> (r: Vec<Note>)
    ensures
        r@ == on_date(notes@, date),
        forall|i: int| 0 <= i < r@.len() ==> date_of(#[trigger] r@[i]@) == Some(date),
        forall|i: int|
            0 <= i < notes@.len() && first_occurrence(notes@[i]@, dashes()) is None
                ==> !r@.contains(#[trigger] notes@[i]),
{
    let n: usize = notes.len();
    let mut out: Vec<Note> = Vec::new();
    let mut i: usize = 0;
    proof {
        reveal(Seq::filter);
        assert(notes@.take(0) =~= Seq::<Note>::empty());
        assert(out@ =~= notes@.take(0).filter(dated(date)));
    }
    while i < n
        invariant
            n == notes@.len(),
            i <= n,
            out@ == notes@.take(i as int).filter(dated(date)),
            forall|k: int| 0 <= k < out@.len() ==> date_of(#[trigger] out@[k]@) == Some(date),
        decreases n - i,
    {
        proof {
            assert(notes@.take(i + 1) =~= notes@.take(i as int).push(notes@[i as int]));
            notes@.take(i as int).lemma_filter_push(notes@[i as int], dated(date));
        }
        let keep = match notes[i].date() {
            Some(found) => found == date,
            None => false,
        };
        if keep {
            out.push(notes[i].clone());
        }
        i += 1;
    }
    proof {
        assert(notes@.take(n as int) =~= notes@);
    }
    out
}

// ---------------------------------------------------------------------------
// What holds of every search
// ---------------------------------------------------------------------------

/// With two keywords selected, a note that carries either of them is among
/// the notes found: one shared keyword is enough.
pub proof fn lemma_either_keyword_is_enough(
    notes: Seq<Note>,
    a: Seq<char>,
    b: Seq<char>,
    i: int,
)
    requires
        0 <= i < notes.len(),
        decoded(notes[i]@).keywords.contains(a) || decoded(notes[i]@).keywords.contains(b),
    ensures
        with_keywords(notes, seq![a, b]).contains(notes[i]),
{
    let selected = seq![a, b];
    let held = decoded(notes[i]@).keywords;
    assert(selected[0] == a && selected[1] == b);
    if held.contains(a) {
        let k = choose|k: int| 0 <= k < held.len() && held[k] == a;
        assert(selected.contains(held[k]));
    } else {
        let k = choose|k: int| 0 <= k < held.len() && held[k] == b;
        assert(selected.contains(held[k]));
    }
    assert(shares_keyword(notes[i]@, selected));
    notes.lemma_filter_contains(tagged_any(selected), i);
}

/// A note whose name holds no `--` stands for no date, so no search by date
/// finds it, whatever the date and the collection.
pub proof fn lemma_no_identifier_no_date(note: Note, date: Date)
    requires
        first_occurrence(note@, dashes()) is None,
    ensures
        date_of(note@) is None,
        forall|notes: Seq<Note>| !(#[trigger] on_date(notes, date)).contains(note),
{
    assert forall|notes: Seq<Note>| !(#[trigger] on_date(notes, date)).contains(note) by {
        let found = on_date(notes, date);
        if found.contains(note) {
            let k = choose|k: int| 0 <= k < found.len() && found[k] == note;
            notes.lemma_filter_pred(dated(date), k);
        }
    }
}

} // verus!
