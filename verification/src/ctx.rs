//! What one run of the program works on.

use vstd::prelude::*;
use crate::note::{keyword_index, names_of, parse_all_keywords, Note};
use crate::options::Opts;
use crate::text::views;

verus! {

/// The settings, the notes of the note directory, and the keywords that
/// occur in their names.
#[derive(Debug)]
pub struct Ctx {
    pub opts: Opts,
    pub notes: Vec<Note>,
    pub keywords: Vec<String>,
}

impl Ctx {
    /// What a run works on, given the settings that were loaded and the notes
    /// that were found: the keywords are those of the notes' names, each once.
    pub fn new(opts: Opts, notes: Vec<Note>) -> (r: Ctx)
        ensures
            r.opts == opts,
            r.notes == notes,
            views(r.keywords@) == keyword_index(names_of(notes@)),
    {
        let keywords = parse_all_keywords(notes.as_slice());
        Ctx { opts, notes, keywords }
    }
}

/// What `f` makes of the context.
pub fn with_ctx<F: FnOnce(&Ctx) -> R, R>(ctx: Ctx, f: F) -> (r: R)
    requires
        f.requires((&ctx,)),
    ensures
        f.ensures((&ctx,), r),
{
    f(&ctx)
}

} // verus!
