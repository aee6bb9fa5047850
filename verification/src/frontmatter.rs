//! The front matter of a note: what is written at the head of its file.

use vstd::prelude::*;
use vstd::string::*;
use crate::bridge::join_with;
use crate::filetype::FileType;
use crate::text::{chars_of, joined, pieces, split, views, Delimiter};

verus! {

/// What the head of a note's file says of the note.
#[derive(Debug)]
pub struct FrontMatter {
    pub title: String,
    pub date: String,
    pub file_tags: Vec<String>,
    pub indentifier: String,
}

/// The texts of a [`FrontMatter`].
pub struct FrontMatterView {
    pub title: Seq<char>,
    pub date: Seq<char>,
    pub file_tags: Seq<Seq<char>>,
    pub indentifier: Seq<char>,
}

impl View for FrontMatter {
    type V = FrontMatterView;

    open spec fn view(&self) -> FrontMatterView {
        FrontMatterView {
            title: self.title@,
            date: self.date@,
            file_tags: views(self.file_tags@),
            indentifier: self.indentifier@,
        }
    }
}

/// The four lines of the front matter of an Org file.
pub open spec fn org_lines(front_matter: FrontMatterView) -> Seq<Seq<char>> {
    seq![
        "#+TITLE: "@ + front_matter.title,
        "#+DATE: "@ + front_matter.date,
        "#+FILETAGS: "@ + joined(front_matter.file_tags, " "@),
        "#+IDENTIFIER: "@ + front_matter.indentifier,
    ]
}

/// The front matter of an Org file: its four lines with a line break between
/// each two, and none at the end.
pub open spec fn org_front_matter(front_matter: FrontMatterView) -> Seq<char> {
    joined(org_lines(front_matter), "\n"@)
}

/// A YAML document between two lines of three hyphens.
pub open spec fn yaml_front_matter(yaml: Seq<char>) -> Seq<char> {
    "---\n"@ + yaml + "---\n"@
}

/// What is written at the head of a new note of the given format: the Org
/// lines for Org, nothing for Typst, and the framed YAML document for the
/// others.
pub open spec fn front_matter_text(
    filetype: FileType,
    front_matter: FrontMatterView,
    yaml: Seq<char>,
) -> Seq<char> {
    match filetype {
        FileType::Org => org_front_matter(front_matter),
        FileType::Typst => Seq::empty(),
        _ => yaml_front_matter(yaml),
    }
}

impl FrontMatter {
    /// The front matter of a note with the given title, date and identifier.
    /// Its tags are the pieces of `keywords` between single spaces, as typed.
    pub fn new(title: &str, date: &str, keywords: &str, identifier: &str) -> (r: FrontMatter)
        ensures
            r@ == (FrontMatterView {
                title: title@,
                date: date@,
                file_tags: pieces(keywords@, Delimiter::Char(' ')),
                indentifier: identifier@,
            }),
    {
        let cs = chars_of(keywords);
        FrontMatter {
            title: String::from_str(title),
            date: String::from_str(date),
            file_tags: split(cs.as_slice(), Delimiter::Char(' ')),
            indentifier: String::from_str(identifier),
        }
    }

    /// The front matter as the head of an Org file.
    pub fn to_org_front_matter(&self) -> (r: String)
        ensures
            r@ == org_front_matter(self@),
    {
        let mut title = String::from_str("#+TITLE: ");
        title.append(self.title.as_str());
        let mut date = String::from_str("#+DATE: ");
        date.append(self.date.as_str());
        let mut tags = String::from_str("#+FILETAGS: ");
        tags.append(join_with(&self.file_tags, " ").as_str());
        let mut identifier = String::from_str("#+IDENTIFIER: ");
        identifier.append(self.indentifier.as_str());
        let mut lines: Vec<String> = Vec::new();
        lines.push(title);
        lines.push(date);
        lines.push(tags);
        lines.push(identifier);
        proof {
            assert(views(lines@) =~= org_lines(self@));
        }
        join_with(&lines, "\n")
    }
}

/// The front matter as the head of an Org file.
pub fn to_org_front_matter(fmt: FrontMatter) -> (r: String)
    ensures
        r@ == org_front_matter(fmt@),
{
    fmt.to_org_front_matter()
}

/// What is written at the head of a new note of the given format. `yaml` is
/// the front matter as a YAML document; it is read only where the format
/// takes it.
pub fn front_matter_block(filetype: FileType, front_matter: &FrontMatter, yaml: &str) -> (r:
    String)
    ensures
        r@ == front_matter_text(filetype, front_matter@, yaml@),
{
    match filetype {
        FileType::Org => front_matter.to_org_front_matter(),
        FileType::Typst => String::new(),
        _ => {
            let mut out = String::from_str("---\n");
            out.append(yaml);
            out.append("---\n");
            out
        },
    }
}

} // verus!
