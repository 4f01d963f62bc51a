//! The error type of the library, and the description of a command that is
//! run without waiting for it.

use vstd::prelude::*;
use vstd::string::StringExecFns;

verus! {

/// Why an operation of the library failed.
#[derive(Debug, Clone, PartialEq, Eq)]
pub enum Error {
    /// The tool ended with a status other than success; holds what it wrote
    /// to its error stream.
    CommandFailed(String),
    /// The tool's output is no valid UTF-8 text.
    EncodingError,
    /// A text that should be a number is none; holds the text.
    ParseFailure(String),
    /// A log line with fewer than four fields; holds the line.
    MalformedLogLine(String),
    /// A summary line without the clause on changed files; holds the line.
    UnparsableDiffStat(String),
    /// A commit was referred to that the repository does not hold.
    DanglingReference,
    /// No merge is recorded for an author; holds the author's name.
    NotFound(String),
}

impl Error {
    /// What the error says, in words.
    pub open spec fn text(self) -> Seq<char> {
        match self {
            Error::CommandFailed(diagnostic) => "command failed: "@ + diagnostic@,
            Error::EncodingError => "output is not valid UTF-8"@,
            Error::ParseFailure(text) => "not a number: "@ + text@,
            Error::MalformedLogLine(line) => "malformed log line: "@ + line@,
            Error::UnparsableDiffStat(line) => "unparsable diff stat: "@ + line@,
            Error::DanglingReference => "reference to a commit that is not there"@,
            Error::NotFound(name) => "no merges found for author: "@ + name@,
        }
    }

    /// What the error says, in words.
    pub fn message(&self) -> (message: String)
        ensures
            message@ == self.text(),
    {
        match self {
            Error::CommandFailed(diagnostic) => "command failed: ".to_owned().concat(
                diagnostic.as_str(),
            ),
            Error::EncodingError => "output is not valid UTF-8".to_owned(),
            Error::ParseFailure(text) => "not a number: ".to_owned().concat(text.as_str()),
            Error::MalformedLogLine(line) => "malformed log line: ".to_owned().concat(
                line.as_str(),
            ),
            Error::UnparsableDiffStat(line) => "unparsable diff stat: ".to_owned().concat(
                line.as_str(),
            ),
            Error::DanglingReference => "reference to a commit that is not there".to_owned(),
            Error::NotFound(name) => "no merges found for author: ".to_owned().concat(
                name.as_str(),
            ),
        }
    }
}

/// A command with its working directory and arguments.
pub struct AsyncCommand {
    pub cmd: String,
    pub path: String,
    pub args: Vec<String>,
}

impl Default for AsyncCommand {
    /// The tool itself, in no directory, without arguments.
    fn default() -> (command: Self)
        ensures
            command.cmd@ == "git"@,
            command.path@ == Seq::<char>::empty(),
            command.args@ == Seq::<String>::empty(),
    {
        AsyncCommand { cmd: "git".to_owned(), path: String::new(), args: Vec::new() }
    }
}

impl AsyncCommand {
    /// The command `cmd`, in no directory, without arguments.
    pub fn new(cmd: String) -> (command: Self)
        ensures
            command.cmd == cmd,
            command.path@ == Seq::<char>::empty(),
            command.args@ == Seq::<String>::empty(),
    {
        AsyncCommand { cmd, path: String::new(), args: Vec::new() }
    }

    /// The same command, to be run in `path`.
    pub fn with_dir(self, path: String) -> (command: Self)
        ensures
            command.cmd == self.cmd,
            command.path == path,
            command.args == self.args,
    {
        let mut command = self;
        command.path = path;
        command
    }

    /// The same command with `args` added after the arguments it has.
    pub fn with_args(self, args: Vec<String>) -> (command: Self)
        ensures
            command.cmd == self.cmd,
            command.path == self.path,
            command.args@ == self.args@ + args@,
    {
        let mut command = self;
        let mut args = args;
        command.args.append(&mut args);
        command
    }
}

} // verus!
