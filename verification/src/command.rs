//! Commands handed to the interpreter's executor.  Parsing and executing a
//! command are the interpreter's own work; this side only assembles the
//! command text and the flags controlling how the executor treats it.

use vstd::prelude::*;

verus! {

/// Command flag: the command wants to run in a subshell.
pub const CMD_WANT_SUBSHELL: u32 = 0x1;

/// Command flag: force a subshell even when one is not needed.
pub const CMD_FORCE_SUBSHELL: u32 = 0x2;

/// Command flag: invert the command's return status.
pub const CMD_INVERT_RETURN: u32 = 0x4;

/// Command flag: ignore the command's return status.
pub const CMD_IGNORE_RETURN: u32 = 0x8;

/// Command flag: do not resolve shell functions for the command word.
pub const CMD_NO_FUNCTIONS: u32 = 0x10;

/// Command flag: suppress expansion of the command's words.
pub const CMD_INHIBIT_EXPANSION: u32 = 0x20;

/// Command flag: run the command without forking.
pub const CMD_NO_FORK: u32 = 0x40;

/// A command line prepared for the interpreter's executor, with the flags
/// that alter how it runs.
#[derive(Debug)]
pub struct Command {
    pub line: String,
    pub flags: u32,
}

impl Command {
    /// Prepare a command line with the given flags, none by default.
    pub fn new(s: &str, flags: Option<u32>) -> (r: Command)
        ensures
            r.line@ == s@,
            r.flags == (match flags {
                Some(f) => f,
                None => 0u32,
            }),
    {
        let f = match flags {
            Some(f) => f,
            None => 0,
        };
        Command { line: s.to_owned(), flags: f }
    }

    /// The command's text.
    pub fn line(&self) -> (r: &str)
        ensures
            r@ == self.line@,
    {
        self.line.as_str()
    }

    /// The command's flag word.
    pub fn flags(&self) -> (r: u32)
        ensures
            r == self.flags,
    {
        self.flags
    }
}

} // verus!
