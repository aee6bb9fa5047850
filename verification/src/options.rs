//! The settings of the program, and what they are where none were saved.

use vstd::prelude::*;
use vstd::string::*;
use crate::filetype::FileType;
use crate::text::str_eq;

verus! {

/// The programs that open a note.
#[derive(Debug)]
pub struct Editor {
    pub text_editor: String,
    pub pdf_viewer: String,
}

/// The settings of the program.
#[derive(Debug)]
pub struct Opts {
    pub opts_path: String,
    pub note_dir: String,
    pub notes_filetype: FileType,
    pub editor: Editor,
}

/// The directory to start from: the home directory where it is known, else
/// the working directory.
pub open spec fn base_dir(home: Option<Seq<char>>) -> Seq<char> {
    match home {
        Some(dir) => dir,
        None => "."@,
    }
}

/// Where the settings are kept.
pub open spec fn opts_path(home: Option<Seq<char>>) -> Seq<char> {
    base_dir(home) + "/.decoy/opts.toml"@
}

/// Where notes are kept unless the settings say otherwise.
pub open spec fn default_note_dir(home: Option<Seq<char>>) -> Seq<char> {
    base_dir(home) + "/notes/"@
}

/// The text editor to use unless the settings say otherwise: the one that the
/// environment names, else `nano`.
pub open spec fn text_editor_or_default(editor: Option<Seq<char>>) -> Seq<char> {
    match editor {
        Some(program) => program,
        None => "nano"@,
    }
}

/// The program that opens a file with the given extension: the PDF viewer for
/// `pdf`, the text editor for every other file.
pub open spec fn program_for(
    text_editor: Seq<char>,
    pdf_viewer: Seq<char>,
    extension: Option<Seq<char>>,
) -> Seq<char> {
    if extension == Some("pdf"@) {
        pdf_viewer
    } else {
        text_editor
    }
}

/// The view of an optional string.
pub open spec fn opt_view(s: Option<&str>) -> Option<Seq<char>> {
    match s {
        Some(text) => Some(text@),
        None => None,
    }
}

/// The directory to start from.
fn base_dir_of(home: Option<&str>) -> (r: String)
    ensures
        r@ == base_dir(opt_view(home)),
{
    match home {
        Some(dir) => String::from_str(dir),
        None => String::from_str("."),
    }
}

/// Where the settings are kept, given the home directory where it is known.
pub fn get_path(home: Option<&str>) -> (r: String)
    ensures
        r@ == opts_path(opt_view(home)),
{
    let mut path = base_dir_of(home);
    path.append("/.decoy/opts.toml");
    path
}

/// The text editor that the environment names, else `nano`.
pub fn default_text_editor(editor: Option<&str>) -> (r: String)
    ensures
        r@ == text_editor_or_default(opt_view(editor)),
{
    match editor {
        Some(program) => String::from_str(program),
        None => String::from_str("nano"),
    }
}

/// The PDF viewer to use unless the settings say otherwise.
pub fn default_pdf_viewer() -> (r: String)
    ensures
        r@ == "zathura"@,
{
    String::from_str("zathura")
}

impl Editor {
    /// The programs to use where the settings name none. `editor` is the text
    /// editor that the environment names, where it names one.
    pub fn defaults(editor: Option<&str>) -> (r: Editor)
        ensures
            r.text_editor@ == text_editor_or_default(opt_view(editor)),
            r.pdf_viewer@ == "zathura"@,
    {
        Editor { text_editor: default_text_editor(editor), pdf_viewer: default_pdf_viewer() }
    }

    /// The program that opens a file with the given extension.
    pub fn program_for(&self, extension: Option<&str>) -> (r: String)
        ensures
            r@ == program_for(self.text_editor@, self.pdf_viewer@, opt_view(extension)),
    {
        let is_pdf = match extension {
            Some(text) => str_eq(text, "pdf"),
            None => false,
        };
        if is_pdf {
            self.pdf_viewer.clone()
        } else {
            self.text_editor.clone()
        }
    }
}

impl Opts {
    /// The settings where none were saved: notes in `notes/` under the home
    /// directory, written as Markdown, opened with the default programs.
    /// `home` and `editor` are what the environment says of the home
    /// directory and of the text editor.
    pub fn defaults(home: Option<&str>, editor: Option<&str>) -> (r: Opts)
        ensures
            r.opts_path@ == opts_path(opt_view(home)),
            r.note_dir@ == default_note_dir(opt_view(home)),
            r.notes_filetype == FileType::Markdown,
            r.editor.text_editor@ == text_editor_or_default(opt_view(editor)),
            r.editor.pdf_viewer@ == "zathura"@,
    {
        let mut note_dir = base_dir_of(home);
        note_dir.append("/notes/");
        Opts {
            opts_path: get_path(home),
            note_dir,
            notes_filetype: FileType::Markdown,
            editor: Editor::defaults(editor),
        }
    }
}

} // verus!
