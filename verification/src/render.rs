//! A note as a line of a listing: its file name, the identifier and the
//! keywords in colour where the terminal shows colours.

use vstd::prelude::*;
use vstd::string::*;
use crate::bridge::{join_with, paint_cyan, paint_yellow};
use crate::codec::{dashes, decode, decoded, dot, underscores, Identity};
use crate::note::Note;
use crate::text::{first_occurrence, joined, views};

verus! {

/// The code that ends a colour.
pub open spec fn reset() -> Seq<char> {
    "\u{1b}[0m"@
}

/// The code that begins cyan.
pub open spec fn cyan_on() -> Seq<char> {
    "\u{1b}[36m"@
}

/// The code that begins yellow.
pub open spec fn yellow_on() -> Seq<char> {
    "\u{1b}[33m"@
}

/// `styled` shows `text` in the colour that `on` begins, or plainly. Of a text
/// that holds the reset code itself nothing is said.
pub open spec fn styles(styled: Seq<char>, text: Seq<char>, on: Seq<char>) -> bool {
    first_occurrence(text, reset()) is None ==> styled == text || styled == on + text + reset()
}

/// `styled` shows the identifier `identifier`, where there is one.
pub open spec fn styles_identifier(
    styled: Option<Seq<char>>,
    identifier: Option<Seq<char>>,
) -> bool {
    match (styled, identifier) {
        (Some(s), Some(text)) => styles(s, text, cyan_on()),
        (None, None) => true,
        _ => false,
    }
}

/// `styled` shows the keywords `keywords`, one for one.
pub open spec fn styles_keywords(styled: Seq<Seq<char>>, keywords: Seq<Seq<char>>) -> bool {
    &&& styled.len() == keywords.len()
    &&& forall|i: int|
        0 <= i < styled.len() ==> styles(#[trigger] styled[i], keywords[i], yellow_on())
}

/// The line of a listing: the identifier and `--` where there is one, the
/// title, `__` and the keywords with `_` between them where there are any, a
/// dot and the extension where there is one, and a line break.
pub open spec fn listing_line(
    identifier: Option<Seq<char>>,
    title: Seq<char>,
    keywords: Seq<Seq<char>>,
    extension: Option<Seq<char>>,
) -> Seq<char> {
    let head = match identifier {
        Some(text) => text + dashes(),
        None => Seq::empty(),
    };
    let list = joined(keywords, "_"@);
    let separator = if list.len() > 0 {
        underscores()
    } else {
        Seq::empty()
    };
    let tail = match extension {
        Some(text) => dot() + text,
        None => Seq::empty(),
    };
    head + title + separator + list + tail + "\n"@
}

/// `line` is the line of a listing for a note with the identity `identity`,
/// with its identifier and its keywords shown in colour or plainly.
pub open spec fn is_listing_of(line: Seq<char>, identity: Identity) -> bool {
    exists|identifier: Option<Seq<char>>, keywords: Seq<Seq<char>>|
        {
            &&& styles_identifier(identifier, identity.identifier)
            &&& styles_keywords(keywords, identity.keywords)
            &&& line == #[trigger] listing_line(
                identifier,
                identity.title_slug,
                keywords,
                identity.extension,
            )
        }
}

/// The view of an optional string.
pub open spec fn opt_view(s: Option<String>) -> Option<Seq<char>> {
    match s {
        Some(text) => Some(text@),
        None => None,
    }
}

/// The line of a listing, from its parts as they are to be shown.
pub fn write_listing(
    identifier: &Option<String>,
    title: &str,
    keywords: &Vec<String>,
    extension: &Option<String>,
) -> (r: String)
    ensures
        r@ == listing_line(opt_view(*identifier), title@, views(keywords@), opt_view(*extension)),
{
    proof {
        reveal_strlit("--");
        reveal_strlit("__");
        reveal_strlit(".");
        assert("--"@ =~= dashes());
        assert("__"@ =~= underscores());
        assert("."@ =~= dot());
    }
    let mut out = String::new();
    match identifier {
        Some(text) => {
            out.append(text.as_str());
            out.append("--");
        },
        None => {},
    }
    out.append(title);
    let list = join_with(keywords, "_");
    if !list.as_str().is_empty() {
        out.append("__");
    }
    out.append(list.as_str());
    match extension {
        Some(text) => {
            out.append(".");
            out.append(text.as_str());
        },
        None => {},
    }
    out.append("\n");
    proof {
        assert(out@ =~= listing_line(
            opt_view(*identifier),
            title@,
            views(keywords@),
            opt_view(*extension),
        ));
    }
    out
}

/// The keywords that a user picked, as one label: between square brackets,
/// with a space between each two.
pub open spec fn selection(keywords: Seq<Seq<char>>) -> Seq<char> {
    "["@ + joined(keywords, " "@) + "]"@
}

/// The keywords that a user picked, as one label.
pub fn selection_label(keywords: &Vec<String>) -> (r: String)
    ensures
        r@ == selection(views(keywords@)),
{
    let mut out = String::from_str("[");
    out.append(join_with(keywords, " ").as_str());
    out.append("]");
    out
}

impl Note {
    /// The note as a line of a listing.
    pub fn listing(&self) -> (r: String)
        ensures
            is_listing_of(r@, decoded(self@)),
    {
        let identity = decode(self.0.as_str());
        let identifier: Option<String> = match &identity.identifier {
            Some(text) => Some(paint_cyan(text.as_str())),
            None => None,
        };
        let n: usize = identity.keywords.len();
        let mut keywords: Vec<String> = Vec::new();
        let mut i: usize = 0;
        while i < n
            invariant
                n == identity.keywords@.len(),
                i <= n,
                styles_keywords(views(keywords@), views(identity.keywords@).take(i as int)),
            decreases n - i,
        {
            let styled = paint_yellow(identity.keywords[i].as_str());
            proof {
                let all = views(identity.keywords@);
                let next = views(keywords@.push(styled));
                assert(next =~= views(keywords@).push(styled@));
                assert forall|k: int| 0 <= k < next.len() implies styles(
                    #[trigger] next[k],
                    all.take(i + 1)[k],
                    yellow_on(),
                ) by {
                    if k < i {
                        assert(next[k] == views(keywords@)[k]);
                        assert(all.take(i + 1)[k] == all.take(i as int)[k]);
                    }
                }
            }
            keywords.push(styled);
            i += 1;
        }
        let line = write_listing(
            &identifier,
            identity.title_slug.as_str(),
            &keywords,
            &identity.extension,
        );
        proof {
            let want = decoded(self@);
            assert(views(identity.keywords@).take(n as int) =~= want.keywords);
            assert(opt_view(identity.extension) == want.extension);
            assert(styles_identifier(opt_view(identifier), want.identifier));
            assert(line@ == listing_line(
                opt_view(identifier),
                want.title_slug,
                views(keywords@),
                want.extension,
            ));
        }
        line
    }
}

} // verus!
