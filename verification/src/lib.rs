//! Contribution statistics for a version-controlled repository, computed from
//! the text that the version-control tool prints.

use crate::text::{chars_of, decimal, decimal_string, lines, owned, split_lines, string_of, views};
use crate::utils::future::Error;
use crate::utils::git::{lossy_text, CommandOutput, GitCommand};
use vstd::prelude::*;
use vstd::string::StringExecFns;
use vstd::utf8::valid_utf8;

pub mod repo;
pub mod text;
pub mod utils;

verus! {

/// A request for a part of the log of one working tree.
pub struct GitLog {
    path: String,
    skip: u32,
    max: u32,
}

/// What a request holds, as plain values.
pub struct GitLogView {
    /// The working tree.
    pub path: Seq<char>,
    /// How many of the newest commits are left out.
    pub skip: u32,
    /// How many commits are printed at most.
    pub max: u32,
}

impl View for GitLog {
    type V = GitLogView;

    closed spec fn view(&self) -> GitLogView {
        GitLogView { path: self.path@, skip: self.skip, max: self.max }
    }
}

impl Default for GitLog {
    /// The ten newest commits of the working tree in which the program runs.
    fn default() -> (log: Self)
        ensures
            log@ == (GitLogView { path: "."@, skip: 0, max: 10 }),
    {
        GitLog { path: ".".to_owned(), skip: 0, max: 10 }
    }
}

impl GitLog {
    /// The ten newest commits of the working tree at `path`.
    pub fn new(path: String) -> (log: Self)
        ensures
            log@ == (GitLogView { path: path@, skip: 0, max: 10 }),
    {
        GitLog { path, skip: 0, max: 10 }
    }

    /// The same request, leaving out the `n` newest commits.
    pub fn skip(self, n: u32) -> (log: Self)
        ensures
            log@ == (GitLogView { skip: n, ..self@ }),
    {
        let mut log = self;
        log.skip = n;
        log
    }

    /// The same request, for `n` commits at most.
    pub fn max_count(self, n: u32) -> (log: Self)
        ensures
            log@ == (GitLogView { max: n, ..self@ }),
    {
        let mut log = self;
        log.max = n;
        log
    }

    /// The working tree.
    pub fn path(&self) -> (path: &String)
        ensures
            path@ == self@.path,
    {
        &self.path
    }

    /// The arguments of the tool for a request.
    pub open spec fn arguments(request: GitLogView) -> Seq<Seq<char>> {
        seq![
            "log"@,
            "--oneline"@,
            "--skip="@ + decimal(request.skip as nat),
            "--max-count="@ + decimal(request.max as nat),
            "--pretty=format:\"%h|%an|%ar|%s\""@,
        ]
    }

    /// The arguments with which the tool prints the requested part of the
    /// log.
    pub fn args(&self) -> (args: Vec<String>)
        ensures
            args.deep_view() == Self::arguments(self@),
    {
        let skip = "--skip=".to_owned().concat(decimal_string(self.skip).as_str());
        let max = "--max-count=".to_owned().concat(decimal_string(self.max).as_str());
        let args = owned(
            &[
                "log",
                "--oneline",
                skip.as_str(),
                max.as_str(),
                "--pretty=format:\"%h|%an|%ar|%s\"",
            ],
        );
        assert(args.deep_view() =~= Self::arguments(self@));
        args
    }

    /// The lines that a run of the tool printed. A run that did not end in
    /// success is a `CommandFailed` with the text of its error stream;
    /// output that is no valid UTF-8 is an `EncodingError`.
    pub fn read(output: CommandOutput) -> (entries: Result<Vec<String>, Error>)
        ensures
            match entries {
                Ok(found) => GitCommand::printed(output) matches Some(text) && found.deep_view()
                    == lines(text),
                Err(Error::CommandFailed(diagnostic)) => !GitCommand::succeeded(output)
                    && diagnostic@ == lossy_text(output.stderr@),
                Err(Error::EncodingError) => GitCommand::succeeded(output) && !valid_utf8(
                    output.stdout@,
                ),
                Err(_) => false,
            },
    {
        let text = match GitCommand::read(output) {
            Ok(text) => text,
            Err(error) => { return Err(error); },
        };
        let chars = chars_of(text.as_str());
        let parts = split_lines(chars.as_slice());
        let mut found: Vec<String> = Vec::new();
        let mut i: usize = 0;
        while i < parts.len()
            invariant
                i <= parts.len(),
                found@.len() == i,
                forall|j: int| 0 <= j < i ==> (#[trigger] found@[j])@ == parts@[j]@,
            decreases parts.len() - i,
        {
            found.push(string_of(parts[i]));
            i += 1;
        }
        assert(found.deep_view() =~= views(parts@));
        Ok(found)
    }
}

} // verus!
