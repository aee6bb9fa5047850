//! The closed set of note formats and their file name suffixes.

use vstd::prelude::*;

verus! {

/// The format of a note's file.
#[derive(Clone, Copy, Debug, PartialEq, Eq, Structural)]
pub enum FileType {
    Markdown,
    Text,
    Org,
    Typst,
}

impl FileType {
    /// The extension of the format, without the dot.
    pub open spec fn extension(self) -> Seq<char> {
        match self {
            FileType::Markdown => seq!['m', 'd'],
            FileType::Text => seq!['t', 'x', 't'],
            FileType::Org => seq!['o', 'r', 'g'],
            FileType::Typst => seq!['t', 'y', 'p'],
        }
    }

    /// What a file name of the format ends in: a dot and the extension.
    pub open spec fn suffix(self) -> Seq<char> {
        seq!['.'] + self.extension()
    }

    /// The suffix of the format: `.md`, `.txt`, `.org` or `.typ`.
    pub fn as_ref(&self) -> (r: &'static str)
        ensures
            r@ == self.suffix(),
    {
        proof {
            reveal_strlit(".md");
            reveal_strlit(".txt");
            reveal_strlit(".org");
            reveal_strlit(".typ");
        }
        let r = match self {
            FileType::Markdown => ".md",
            FileType::Text => ".txt",
            FileType::Org => ".org",
            FileType::Typst => ".typ",
        };
        assert(r@ =~= self.suffix());
        r
    }

    /// No extension holds a dot or an underscore, and none is empty.
    pub proof fn lemma_extension_is_plain(self)
        ensures
            self.extension().len() > 0,
            !self.extension().contains('.'),
            !self.extension().contains('_'),
    {
    }
}

} // verus!
