//! The command line: which operation was asked for.

use vstd::prelude::*;
use crate::error::SyncError;

verus! {

/// An operation of the synchronizer.
pub enum Command {
    /// Print the usage text.
    Help,
    /// Create the descriptor, with the given remote root.
    Init(String),
    /// Carry local files to the remote mirror.
    Push,
    /// Carry remote files to the working copy.
    Pull,
    /// Report the state of the two sides.
    Status,
    /// Add a path to the descriptor.
    Add(String),
    /// Remove a path from the descriptor.
    Remove(String),
    /// A word that names no operation.
    Unknown(String),
}

/// What a command holds.
pub enum CommandView {
    Help,
    Init(Seq<char>),
    Push,
    Pull,
    Status,
    Add(Seq<char>),
    Remove(Seq<char>),
    Unknown(Seq<char>),
}

impl View for Command {
    type V = CommandView;

    open spec fn view(&self) -> CommandView {
        match self {
            Command::Help => CommandView::Help,
            Command::Init(path) => CommandView::Init(path@),
            Command::Push => CommandView::Push,
            Command::Pull => CommandView::Pull,
            Command::Status => CommandView::Status,
            Command::Add(path) => CommandView::Add(path@),
            Command::Remove(path) => CommandView::Remove(path@),
            Command::Unknown(word) => CommandView::Unknown(word@),
        }
    }
}

/// The command that the arguments name. The first argument is the program's
/// own name. Without a second one, help is meant. A command that takes a path
/// and does not get one is a usage error.
pub open spec fn command_of(args: Seq<Seq<char>>) -> Result<CommandView, SyncError> {
    if args.len() < 2 {
        Ok(CommandView::Help)
    } else if args[1] == "init"@ {
        if args.len() < 3 {
            Err(SyncError::Usage)
        } else {
            Ok(CommandView::Init(args[2]))
        }
    } else if args[1] == "push"@ {
        Ok(CommandView::Push)
    } else if args[1] == "pull"@ {
        Ok(CommandView::Pull)
    } else if args[1] == "status"@ {
        Ok(CommandView::Status)
    } else if args[1] == "add"@ {
        if args.len() < 3 {
            Err(SyncError::Usage)
        } else {
            Ok(CommandView::Add(args[2]))
        }
    } else if args[1] == "remove"@ {
        if args.len() < 3 {
            Err(SyncError::Usage)
        } else {
            Ok(CommandView::Remove(args[2]))
        }
    } else if args[1] == "--help"@ || args[1] == "-h"@ || args[1] == "help"@ {
        Ok(CommandView::Help)
    } else {
        Ok(CommandView::Unknown(args[1]))
    }
}

/// Whether parsing returned what `expected` says.
pub open spec fn command_matches(
    parsed: Result<Command, SyncError>,
    expected: Result<CommandView, SyncError>,
) -> bool {
    match (parsed, expected) {
        (Ok(command), Ok(view)) => command@ == view,
        (Err(e), Err(f)) => e == f,
        _ => false,
    }
}

/// Whether `word` is the text `name`.
fn is_word(word: &String, name: &str) -> (same: bool)
    ensures
        same == (word@ == name@),
{
    *word == name.to_owned()
}

/// Reads the command from the arguments of the program.
pub fn parse_command(args: &Vec<String>) -> (parsed: Result<Command, SyncError>)
    ensures
        command_matches(parsed, command_of(crate::text::strs(args@))),
{
    if args.len() < 2 {
        return Ok(Command::Help);
    }
    let word = &args[1];
    if is_word(word, "init") {
        if args.len() < 3 {
            Err(SyncError::Usage)
        } else {
            Ok(Command::Init(args[2].clone()))
        }
    } else if is_word(word, "push") {
        Ok(Command::Push)
    } else if is_word(word, "pull") {
        Ok(Command::Pull)
    } else if is_word(word, "status") {
        Ok(Command::Status)
    } else if is_word(word, "add") {
        if args.len() < 3 {
            Err(SyncError::Usage)
        } else {
            Ok(Command::Add(args[2].clone()))
        }
    } else if is_word(word, "remove") {
        if args.len() < 3 {
            Err(SyncError::Usage)
        } else {
            Ok(Command::Remove(args[2].clone()))
        }
    } else if is_word(word, "--help") || is_word(word, "-h") || is_word(word, "help") {
        Ok(Command::Help)
    } else {
        Ok(Command::Unknown(word.clone()))
    }
}

} // verus!
