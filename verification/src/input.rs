//! What a user may type for a new note.

use vstd::prelude::*;
use vstd::string::*;
use crate::text::chars_of;

verus! {

/// The characters that no keyword may hold: they separate the parts of a file
/// name, or keywords in other notations.
pub open spec fn is_separator(c: char) -> bool {
    c == ';' || c == ',' || c == '-' || c == '_' || c == '\t'
}

/// Keywords as typed, with single spaces between them, are accepted where no
/// keyword holds a separator, which is to say where the text holds none.
pub open spec fn keywords_are_valid(input: Seq<char>) -> bool {
    forall|i: int| 0 <= i < input.len() ==> !is_separator(#[trigger] input[i])
}

/// A title is accepted where it is not empty.
pub open spec fn title_is_valid(input: Seq<char>) -> bool {
    input.len() > 0
}

/// Why typed input is turned down.
#[derive(Clone, Copy, Debug, PartialEq, Eq, Structural)]
pub enum InputError {
    /// The title is empty.
    EmptyTitle,
    /// A keyword holds one of `;`, `,`, `-`, `_` or a tab.
    SeparatorInKeywords,
}

impl InputError {
    /// What to tell the user.
    pub fn message(&self) -> (r: &'static str)
        ensures
            r@ == match self {
                InputError::EmptyTitle => "You must provide a title"@,
                InputError::SeparatorInKeywords => "Keywords must be space separated"@,
            },
    {
        match self {
            InputError::EmptyTitle => "You must provide a title",
            InputError::SeparatorInKeywords => "Keywords must be space separated",
        }
    }
}

/// Whether a title is accepted.
pub fn check_title(input: &str) -> (r: bool)
    ensures
        r == title_is_valid(input@),
{
    !input.is_empty()
}

/// Something where the typed keywords are accepted, nothing where one of them
/// holds a separator.
pub fn option_split(input: &str) -> (r: Option<()>)
    ensures
        r is Some <==> keywords_are_valid(input@),
{
    let cs = chars_of(input);
    let n: usize = cs.len();
    let mut i: usize = 0;
    while i < n
        invariant
            n == cs@.len(),
            cs@ == input@,
            i <= n,
            forall|j: int| 0 <= j < i ==> !is_separator(#[trigger] input@[j]),
        decreases n - i,
    {
        let c = cs[i];
        if c == ';' || c == ',' || c == '-' || c == '_' || c == '\t' {
            proof {
                assert(is_separator(input@[i as int]));
            }
            return None;
        }
        i += 1;
    }
    Some(())
}

/// Whether a title and keywords are accepted together; the title is looked
/// at first.
pub open spec fn checked(title: Seq<char>, keywords: Seq<char>) -> Result<(), InputError> {
    if !title_is_valid(title) {
        Err(InputError::EmptyTitle)
    } else if !keywords_are_valid(keywords) {
        Err(InputError::SeparatorInKeywords)
    } else {
        Ok(())
    }
}

/// Whether a title and keywords are accepted together.
pub fn check(title: &str, keywords: &str) -> (r: Result<(), InputError>)
    ensures
        r == checked(title@, keywords@),
{
    if !check_title(title) {
        Err(InputError::EmptyTitle)
    } else if option_split(keywords).is_none() {
        Err(InputError::SeparatorInKeywords)
    } else {
        Ok(())
    }
}

} // verus!
