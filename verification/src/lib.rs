//! Notes that carry their metadata in their file names.
//!
//! A note's file is named `<identifier>--<title>[__<kw>_<kw>..]<.ext>`: a
//! timestamp, the title, the keywords and the format. This library writes and
//! reads such names, collects the keywords of a directory, and finds the notes
//! that carry given keywords or a given date. It keeps no index: everything is
//! computed from the names.
//!
//! The executable functions are verified against the specifications that
//! stand beside them. Calls into other crates go through `bridge`, whose
//! contracts are taken on trust.

pub mod text;
pub mod filetype;
pub mod codec;
pub mod date;
pub mod note;
pub mod frontmatter;
pub mod completion;
pub mod input;
pub mod options;
pub mod cli;
pub mod ctx;
pub mod newnote;
pub mod render;
mod bridge;
