//! What the program is asked to do, read from its arguments.

use vstd::prelude::*;
use vstd::string::*;
use crate::text::{chars_of, str_eq, string_of, trim, trimmed, views};

verus! {

/// What the program can be asked to do.
#[derive(Clone, Copy, Debug, PartialEq, Eq, Structural)]
pub enum Command {
    /// Create a note and open it.
    New,
    /// Find a note by its keywords and open it.
    Find,
    /// Give an existing file a name of the scheme.
    Rename,
    /// Find a note by its date and open it.
    Date,
    /// Open the settings.
    Config,
}

/// Why the arguments name no command.
#[derive(Clone, Copy, Debug, PartialEq, Eq, Structural)]
pub enum UsageError {
    /// There is no argument.
    NoArgument,
    /// The first argument is none of the flags.
    UnknownFlag,
}

impl UsageError {
    /// What to tell the user.
    pub fn message(&self) -> (r: &'static str)
        ensures
            r@ == match self {
                UsageError::NoArgument =>
                    "You must supply an argument: use --help for argument list"@,
                UsageError::UnknownFlag => "Incorrect Flag used"@,
            },
    {
        match self {
            UsageError::NoArgument => "You must supply an argument: use --help for argument list",
            UsageError::UnknownFlag => "Incorrect Flag used",
        }
    }
}

/// The command that a flag stands for.
pub open spec fn command_for(flag: Seq<char>) -> Option<Command> {
    if flag == "--new"@ {
        Some(Command::New)
    } else if flag == "--find"@ {
        Some(Command::Find)
    } else if flag == "--rename"@ {
        Some(Command::Rename)
    } else if flag == "--date"@ {
        Some(Command::Date)
    } else if flag == "--config"@ {
        Some(Command::Config)
    } else {
        None
    }
}

/// The command that the arguments name: the one that the first argument
/// stands for, the white space around it apart.
pub open spec fn command_of(args: Seq<Seq<char>>) -> Result<Command, UsageError> {
    if args.len() == 0 {
        Err(UsageError::NoArgument)
    } else {
        match command_for(trimmed(args[0])) {
            Some(command) => Ok(command),
            None => Err(UsageError::UnknownFlag),
        }
    }
}

impl Command {
    /// The command that a flag stands for.
    pub fn from_flag(flag: &str) -> (r: Option<Command>)
        ensures
            r == command_for(flag@),
    {
        if str_eq(flag, "--new") {
            Some(Command::New)
        } else if str_eq(flag, "--find") {
            Some(Command::Find)
        } else if str_eq(flag, "--rename") {
            Some(Command::Rename)
        } else if str_eq(flag, "--date") {
            Some(Command::Date)
        } else if str_eq(flag, "--config") {
            Some(Command::Config)
        } else {
            None
        }
    }

    /// The command that the arguments name. `args` holds the arguments of the
    /// program without the program's own name.
    pub fn from_args(args: &Vec<String>) -> (r: Result<Command, UsageError>)
        ensures
            r == command_of(views(args@)),
    {
        if args.len() == 0 {
            return Err(UsageError::NoArgument);
        }
        let cs = chars_of(args[0].as_str());
        let flag = string_of(trim(cs.as_slice()));
        match Command::from_flag(flag.as_str()) {
            Some(command) => Ok(command),
            None => Err(UsageError::UnknownFlag),
        }
    }
}

} // verus!
