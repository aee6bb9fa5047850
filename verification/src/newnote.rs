//! Naming a new note.

use vstd::prelude::*;
use vstd::string::*;
use crate::bridge::local_time_as;
use crate::codec::{encode, encoded};
use crate::ctx::Ctx;
use crate::date::{is_clock_date, is_clock_stamp};
use crate::filetype::FileType;
use crate::frontmatter::{FrontMatter, FrontMatterView};
use crate::input::{check, checked, InputError};
use crate::text::{pieces, Delimiter};

verus! {

/// The file name and the front matter of a note.
pub struct NewNote {
    pub file_name: String,
    pub front_matter: FrontMatter,
}

/// Whether `note` is the note with the given title, keywords and format that
/// was made at the time that `identifier` and `date` stand for.
pub open spec fn is_note_for(
    note: NewNote,
    identifier: Seq<char>,
    date: Seq<char>,
    title: Seq<char>,
    keywords: Seq<char>,
    filetype: FileType,
) -> bool {
    &&& note.file_name@ == encoded(identifier, title, keywords, filetype)
    &&& note.front_matter@ == (FrontMatterView {
        title,
        date,
        file_tags: pieces(keywords, Delimiter::Char(' ')),
        indentifier: identifier,
    })
}

/// The identifier of a note that is made now: the local time as a timestamp.
fn gen_time_id() -> (r: String)
    ensures is_clock_stamp(r@),
{ local_time_as("%Y%m%dT%H%M%S") }

/// The date of a note that is made now: the local time as a front matter shows it.
fn gen_date() -> (r: String)
    ensures is_clock_date(r@),
{ local_time_as("%F %a %R") }

/// The note with the given title and keywords that was made at the time that
/// `identifier` and `date` stand for; an error where the title or the
/// keywords are not accepted.
pub fn denote_at(
    identifier: &str,
    date: &str,
    title: &str,
    keywords: &str,
    filetype: FileType,
) -> (r: Result<NewNote, InputError>)
    ensures
        match r {
            Ok(note) => checked(title@, keywords@) is Ok && is_note_for(
                note,
                identifier@,
                date@,
                title@,
                keywords@,
                filetype,
            ),
            Err(e) => checked(title@, keywords@) == Err::<(), InputError>(e),
        },
{
    match check(title, keywords) {
        Err(e) => Err(e),
        Ok(_) => Ok(
            NewNote {
                file_name: encode(identifier, title, keywords, filetype),
                front_matter: FrontMatter::new(title, date, keywords, identifier),
            },
        ),
    }
}

/// The note with the given title and keywords, made now in the format that
/// the settings name; an error where the title or the keywords are not
/// accepted. The identifier and the date are what the clock gives, in the
/// shape in which it writes them: the name and the front matter agree on
/// them.
pub fn denote(ctx: &Ctx, title: &str, keywords: &str) -> (r: Result<NewNote, InputError>)
    ensures
        match r {
            Ok(note) => {
                &&& checked(title@, keywords@) is Ok
                &&& is_clock_stamp(note.front_matter@.indentifier)
                &&& is_clock_date(note.front_matter@.date)
                &&& is_note_for(
                    note,
                    note.front_matter@.indentifier,
                    note.front_matter@.date,
                    title@,
                    keywords@,
                    ctx.opts.notes_filetype,
                )
            },
            Err(e) => checked(title@, keywords@) == Err::<(), InputError>(e),
        },
{
    let identifier = gen_time_id();
    let date = gen_date();
    denote_at(identifier.as_str(), date.as_str(), title, keywords, ctx.opts.notes_filetype)
}

/// The name of a file that is renamed: the new stem, and the old extension
/// behind a dot where the file had one.
pub open spec fn renamed(new_stem: Seq<char>, extension: Option<Seq<char>>) -> Seq<char> {
    match extension {
        Some(ext) => new_stem + "."@ + ext,
        None => new_stem,
    }
}

/// The name of a file that is renamed.
pub fn renamed_name(new_stem: &str, extension: Option<&str>) -> (r: String)
    ensures
        r@ == renamed(
            new_stem@,
            match extension {
                Some(ext) => Some(ext@),
                None => None,
            },
        ),
{
    let mut name = String::from_str(new_stem);
    match extension {
        Some(ext) => {
            name.append(".");
            name.append(ext);
        },
        None => {},
    }
    name
}

} // verus!
