//! One commit, as a line of the log describes it.

use crate::repo::stats::Stats;
use crate::text::{
    chars_of, find, first_index, lemma_first_index, lemma_first_index_is, owned, split_once,
    string_of,
};
use crate::utils::future::{AsyncCommand, Error};
use crate::utils::git::{lossy_text, CommandOutput, GitCommand};
use vstd::prelude::*;
use vstd::slice::slice_subrange;
use vstd::string::StringExecFns;
use vstd::utf8::valid_utf8;

pub mod stats;

verus! {

/// One commit of a repository.
#[derive(Debug, Clone, PartialEq, Eq)]
pub struct Commit {
    /// The author's name, as the tool reports it.
    pub owner: String,
    /// The age of the commit in words.
    pub rel_time: String,
    /// The first line of the commit message.
    pub message: String,
    /// The short identifier of the revision.
    pub hash: String,
    /// The line counts of the commit's diff, once they have been fetched.
    pub stats: Option<Stats>,
}

/// What a commit holds, as plain values.
pub struct CommitView {
    pub hash: Seq<char>,
    pub owner: Seq<char>,
    pub rel_time: Seq<char>,
    pub message: Seq<char>,
    pub stats: Option<Stats>,
}

impl View for Commit {
    type V = CommitView;

    open spec fn view(&self) -> CommitView {
        CommitView {
            hash: self.hash@,
            owner: self.owner@,
            rel_time: self.rel_time@,
            message: self.message@,
            stats: self.stats,
        }
    }
}

/// The character between the fields of a log line.
pub const SEPARATOR: char = '|';

/// The commit that the log line `line` describes: the line is cut at its
/// first three separators into hash, author, age and message, so that the
/// message keeps any further separator. `None` where the line holds fewer
/// than three separators. The commit has no line counts yet.
pub open spec fn parse_log_line(line: Seq<char>) -> Option<CommitView> {
    match split_once(line, SEPARATOR) {
        Some((hash, rest)) => match split_once(rest, SEPARATOR) {
            Some((owner, rest)) => match split_once(rest, SEPARATOR) {
                Some((rel_time, message)) => Some(
                    CommitView { hash, owner, rel_time, message, stats: None },
                ),
                None => None,
            },
            None => None,
        },
        None => None,
    }
}

/// The log line that describes `commit`: its hash, author, age and message,
/// with a separator between each two.
pub open spec fn log_line(commit: CommitView) -> Seq<char> {
    commit.hash + seq![SEPARATOR] + commit.owner + seq![SEPARATOR] + commit.rel_time
        + seq![SEPARATOR] + commit.message
}

/// Cutting `head`, a separator and `tail` at the first separator gives `head`
/// and `tail` back, where `head` holds no separator.
pub proof fn lemma_split_joined(head: Seq<char>, tail: Seq<char>)
    requires
        !head.contains(SEPARATOR),
    ensures
        split_once(head + seq![SEPARATOR] + tail, SEPARATOR) == Some((head, tail)),
{
    let joined = head + seq![SEPARATOR] + tail;
    let i = head.len() as int;
    assert(joined[i] == SEPARATOR);
    assert forall|j: int| 0 <= j < i implies joined[j] != SEPARATOR by {
        assert(joined[j] == head[j]);
        assert(head.contains(head[j]));
    }
    lemma_first_index_is(joined, SEPARATOR, i);
    assert(joined.take(i) =~= head);
    assert(joined.skip(i + 1) =~= tail);
}

/// The two parts that a cut at the first separator gives, joined by a
/// separator, are the text that was cut; the first part holds no separator.
pub proof fn lemma_join_split(s: Seq<char>)
    ensures
        split_once(s, SEPARATOR) matches Some((head, tail)) ==> {
            &&& !head.contains(SEPARATOR)
            &&& head + seq![SEPARATOR] + tail == s
        },
{
    lemma_first_index(s, SEPARATOR);
    if let Some(i) = first_index(s, SEPARATOR) {
        let head = s.take(i);
        let tail = s.skip(i + 1);
        assert(head + seq![SEPARATOR] + tail =~= s);
        if head.contains(SEPARATOR) {
            let j = choose|j: int| 0 <= j < head.len() && head[j] == SEPARATOR;
            assert(s[j] == SEPARATOR);
        }
    }
}

/// A line made of a hash, an author and an age without separator and of any
/// message is read back as exactly these four fields: the message keeps the
/// separators that it holds.
pub proof fn lemma_message_keeps_separators(commit: CommitView)
    requires
        !commit.hash.contains(SEPARATOR),
        !commit.owner.contains(SEPARATOR),
        !commit.rel_time.contains(SEPARATOR),
        commit.stats is None,
    ensures
        parse_log_line(log_line(commit)) == Some(commit),
{
    let after_time = commit.message;
    let after_owner = commit.rel_time + seq![SEPARATOR] + after_time;
    let after_hash = commit.owner + seq![SEPARATOR] + after_owner;
    assert(log_line(commit) =~= commit.hash + seq![SEPARATOR] + after_hash);
    lemma_split_joined(commit.hash, after_hash);
    lemma_split_joined(commit.owner, after_owner);
    lemma_split_joined(commit.rel_time, after_time);
}

/// Writing a commit that was read from a log line gives that line back,
/// character for character. Of its fields only the message can hold a
/// separator.
pub proof fn lemma_log_line_round_trip(line: Seq<char>)
    ensures
        parse_log_line(line) matches Some(commit) ==> {
            &&& log_line(commit) == line
            &&& !commit.hash.contains(SEPARATOR)
            &&& !commit.owner.contains(SEPARATOR)
            &&& !commit.rel_time.contains(SEPARATOR)
            &&& commit.stats is None
        },
{
    lemma_join_split(line);
    if let Some((hash, rest)) = split_once(line, SEPARATOR) {
        lemma_join_split(rest);
        if let Some((owner, rest2)) = split_once(rest, SEPARATOR) {
            lemma_join_split(rest2);
            if let Some((rel_time, message)) = split_once(rest2, SEPARATOR) {
                let commit = CommitView { hash, owner, rel_time, message, stats: None };
                assert(log_line(commit) =~= hash + seq![SEPARATOR] + (owner + seq![SEPARATOR] + (
                rel_time + seq![SEPARATOR] + message)));
            }
        }
    }
}

impl Commit {
    /// Reads a commit from a log line of the form
    /// `hash|owner|relative_time|message`. A line with fewer than four fields
    /// is a `MalformedLogLine` with that line.
    pub fn build(commit_log: String) -> (commit: Result<Commit, Error>)
        ensures
            match commit {
                Ok(c) => parse_log_line(commit_log@) == Some(c@),
                Err(Error::MalformedLogLine(line)) => parse_log_line(commit_log@) is None && line
                    == commit_log,
                Err(_) => false,
            },
    {
        let chars = chars_of(commit_log.as_str());
        match Self::from_chars(chars.as_slice()) {
            Some(commit) => Ok(commit),
            None => Err(Error::MalformedLogLine(commit_log)),
        }
    }

    /// Reads a commit from the characters of a log line.
    pub fn from_chars(line: &[char]) -> (commit: Option<Commit>)
        ensures
            match commit {
                Some(c) => parse_log_line(line@) == Some(c@),
                None => parse_log_line(line@) is None,
            },
    {
        let hash_end = match find(line, SEPARATOR) {
            Some(i) => i,
            None => { return None; },
        };
        assert(hash_end < line.len());
        let after_hash = slice_subrange(line, hash_end + 1, line.len());
        assert(after_hash@ =~= line@.skip(hash_end as int + 1));
        let owner_end = match find(after_hash, SEPARATOR) {
            Some(i) => i,
            None => { return None; },
        };
        let after_owner = slice_subrange(after_hash, owner_end + 1, after_hash.len());
        assert(after_owner@ =~= after_hash@.skip(owner_end as int + 1));
        let time_end = match find(after_owner, SEPARATOR) {
            Some(i) => i,
            None => { return None; },
        };
        let message = slice_subrange(after_owner, time_end + 1, after_owner.len());
        assert(message@ =~= after_owner@.skip(time_end as int + 1));
        let hash = slice_subrange(line, 0, hash_end);
        let owner = slice_subrange(after_hash, 0, owner_end);
        let rel_time = slice_subrange(after_owner, 0, time_end);
        assert(hash@ =~= line@.take(hash_end as int));
        assert(owner@ =~= after_hash@.take(owner_end as int));
        assert(rel_time@ =~= after_owner@.take(time_end as int));
        Some(
            Commit {
                owner: string_of(owner),
                rel_time: string_of(rel_time),
                message: string_of(message),
                hash: string_of(hash),
                stats: None,
            },
        )
    }

    /// The line of the log that describes the commit: hash, author, age and
    /// message, with a separator between each two.
    pub fn to_log_line(&self) -> (line: String)
        ensures
            line@ == log_line(self@),
    {
        proof {
            reveal_strlit("|");
        }
        assert("|"@ =~= seq![SEPARATOR]);
        let mut line = self.hash.clone();
        line.append("|");
        line.append(self.owner.as_str());
        line.append("|");
        line.append(self.rel_time.as_str());
        line.append("|");
        line.append(self.message.as_str());
        line
    }

    /// The command that prints the diff report of the commit, to be run in
    /// the working tree at `path`.
    pub fn stats_command(&self, path: String) -> (command: AsyncCommand)
        ensures
            command.cmd@ == "git"@,
            command.path == path,
            command.args.deep_view() == seq!["show"@, "--stat"@, self.hash@],
    {
        let args = owned(&["show", "--stat", self.hash.as_str()]);
        assert(args.deep_view() =~= seq!["show"@, "--stat"@, self.hash@]);
        let command = AsyncCommand::new("git".to_owned()).with_dir(path).with_args(args);
        assert(command.args@ =~= args@);
        command
    }

    /// The line counts of the commit, read from what the run of its command
    /// gave back. A run that did not end in success is a `CommandFailed`,
    /// output that is no valid UTF-8 an `EncodingError`, and a report whose
    /// summary line the pattern does not match an `UnparsableDiffStat`.
    pub fn get_stats(&self, output: CommandOutput) -> (stats: Result<Stats, Error>)
        ensures
            match stats {
                Ok(s) => GitCommand::printed(output) matches Some(report) && Stats::of_report(
                    report,
                ) == Some(s),
                Err(Error::CommandFailed(diagnostic)) => !GitCommand::succeeded(output)
                    && diagnostic@ == lossy_text(output.stderr@),
                Err(Error::EncodingError) => GitCommand::succeeded(output) && !valid_utf8(
                    output.stdout@,
                ),
                Err(Error::UnparsableDiffStat(line)) => GitCommand::printed(output) matches Some(
                    report,
                ) && Stats::of_report(report) is None && line@ == Stats::summary_line(report),
                Err(_) => false,
            },
    {
        match GitCommand::read(output) {
            Ok(report) => Stats::from_report(report.as_str()),
            Err(error) => Err(error),
        }
    }
}

} // verus!
