//! Line counts, read from the summary line of a diff report.

use crate::text::{
    chars_of, lines, parse_u32, split_lines, string_of, to_u32, trim, trimmed, views,
};
use crate::utils::future::Error;
use vstd::prelude::*;

verus! {

/// How many lines were added and how many removed.
#[derive(Debug, Clone, Copy, PartialEq, Eq, Structural)]
pub struct Stats {
    pub insertions: u32,
    pub deletions: u32,
}

/// The pattern of a summary line: the clause on changed files, then, each only
/// where its count is not zero, the clause on insertions and the clause on
/// deletions. Group 2 is the number of insertions, group 3 that of deletions.
pub const SUMMARY_PATTERN: &'static str =
    r"(?P<files>\d+) files? changed(?:, (?P<insertions>\d+) insertions?\(\+\))?(?:, (?P<deletions>\d+) deletions?\(-\))?";

/// What the first match of the regular expression `pattern` in `haystack`
/// captured: for each group of the pattern, in the order of their opening
/// brackets and after the whole match as group 0, the text that it matched, or
/// `None` where it took no part in the match. `None` in all where `pattern` is
/// no regular expression or matches nowhere in `haystack`.
pub uninterp spec fn regex_captures(pattern: Seq<char>, haystack: Seq<char>) -> Option<
    Seq<Option<Seq<char>>>,
>;

/// `regex::Regex::new` on `pattern`, then `regex::Regex::captures` on
/// `haystack`, each group of the result copied out as a string. The contract
/// claims only that the outcome is the one named `regex_captures`: that it
/// depends on the two texts and on nothing else.
#[verifier::external_body]
fn captures(pattern: &str, haystack: &str) -> (groups: Option<Vec<Option<String>>>)
    ensures
        groups.deep_view() == regex_captures(pattern@, haystack@),
{
    let regex = regex::Regex::new(pattern).ok()?;
    let found = regex.captures(haystack)?;
    Some(found.iter().map(|group| group.map(|m| m.as_str().to_owned())).collect())
}

impl Stats {
    /// The same counts, with `insertions` lines added.
    pub fn set_insertions(self, insertions: u32) -> (stats: Self)
        ensures
            stats == (Stats { insertions, deletions: self.deletions }),
    {
        let mut stats = self;
        stats.insertions = insertions;
        stats
    }

    /// The same counts, with `deletions` lines removed.
    pub fn set_deletions(self, deletions: u32) -> (stats: Self)
        ensures
            stats == (Stats { insertions: self.insertions, deletions }),
    {
        let mut stats = self;
        stats.deletions = deletions;
        stats
    }

    /// The count that a captured group stands for: the number it denotes, and
    /// zero where the group is absent or denotes no 32-bit number.
    pub open spec fn count(group: Option<Seq<char>>) -> u32 {
        match group {
            Some(digits) => match parse_u32(digits) {
                Some(n) => n,
                None => 0,
            },
            None => 0,
        }
    }

    /// Group `i` of `groups`, absent where there is no such group.
    pub open spec fn group(groups: Seq<Option<Seq<char>>>, i: int) -> Option<Seq<char>> {
        if 0 <= i < groups.len() {
            groups[i]
        } else {
            None
        }
    }

    /// The counts that the captured groups of a summary line stand for.
    pub open spec fn of_groups(groups: Seq<Option<Seq<char>>>) -> Stats {
        Stats {
            insertions: Self::count(Self::group(groups, 2)),
            deletions: Self::count(Self::group(groups, 3)),
        }
    }

    /// The counts of the summary line `line`, `None` where the pattern of a
    /// summary line matches nowhere in it.
    pub open spec fn of_line(line: Seq<char>) -> Option<Stats> {
        match regex_captures(SUMMARY_PATTERN@, line) {
            Some(groups) => Some(Self::of_groups(groups)),
            None => None,
        }
    }

    /// The last of `lines` that is not empty.
    pub open spec fn last_filled(lines: Seq<Seq<char>>) -> Option<Seq<char>>
        decreases lines.len(),
    {
        if lines.len() == 0 {
            None
        } else if lines.last().len() > 0 {
            Some(lines.last())
        } else {
            Self::last_filled(lines.drop_last())
        }
    }

    /// The summary line of a diff report: its last line that is not empty,
    /// without the white space around it. Empty where the report has no such
    /// line.
    pub open spec fn summary_line(report: Seq<char>) -> Seq<char> {
        match Self::last_filled(lines(report)) {
            Some(line) => trim(line),
            None => Seq::empty(),
        }
    }

    /// The counts that the diff report `report` gives in its summary line.
    pub open spec fn of_report(report: Seq<char>) -> Option<Stats> {
        Self::of_line(Self::summary_line(report))
    }

    /// The counts that the captured groups of a summary line stand for.
    pub fn from_captures(groups: &Vec<Option<String>>) -> (stats: Stats)
        ensures
            stats == Self::of_groups(groups.deep_view()),
    {
        let insertions = if groups.len() > 2 {
            Self::group_count(&groups[2])
        } else {
            0
        };
        let deletions = if groups.len() > 3 {
            Self::group_count(&groups[3])
        } else {
            0
        };
        Stats { insertions, deletions }
    }

    fn group_count(group: &Option<String>) -> (n: u32)
        ensures
            n == Self::count(group.deep_view()),
    {
        match group {
            Some(digits) => {
                let chars = chars_of(digits.as_str());
                match to_u32(chars.as_slice()) {
                    Some(n) => n,
                    None => 0,
                }
            },
            None => 0,
        }
    }

    /// Reads the counts from a summary line. A line in which the pattern of a
    /// summary line matches nowhere is an `UnparsableDiffStat` with that line.
    pub fn parse(line: &str) -> (stats: Result<Stats, Error>)
        ensures
            match stats {
                Ok(s) => Self::of_line(line@) == Some(s),
                Err(Error::UnparsableDiffStat(l)) => Self::of_line(line@) is None && l@ == line@,
                Err(_) => false,
            },
    {
        match captures(SUMMARY_PATTERN, line) {
            Some(groups) => Ok(Self::from_captures(&groups)),
            None => Err(Error::UnparsableDiffStat(line.to_owned())),
        }
    }

    /// Reads the counts from a diff report. Only its summary line counts: the
    /// last line that is not empty. A report whose summary line the pattern
    /// does not match is an `UnparsableDiffStat` with that line.
    pub fn from_report(report: &str) -> (stats: Result<Stats, Error>)
        ensures
            match stats {
                Ok(s) => Self::of_report(report@) == Some(s),
                Err(Error::UnparsableDiffStat(l)) => Self::of_report(report@) is None && l@
                    == Self::summary_line(report@),
                Err(_) => false,
            },
    {
        let chars = chars_of(report);
        let parts = split_lines(chars.as_slice());
        let mut n: usize = parts.len();
        assert(views(parts@).take(n as int) =~= views(parts@));
        while n > 0 && parts[n - 1].len() == 0
            invariant
                n <= parts.len(),
                Self::last_filled(views(parts@)) == Self::last_filled(
                    views(parts@).take(n as int),
                ),
            decreases n,
        {
            assert(views(parts@).take(n as int).drop_last() =~= views(parts@).take(n as int - 1));
            n -= 1;
        }
        let summary = if n > 0 {
            assert(views(parts@).take(n as int).last() == parts@[n as int - 1]@);
            string_of(trimmed(parts[n - 1]))
        } else {
            String::new()
        };
        Self::parse(summary.as_str())
    }
}

/// Where neither the group of the insertions nor that of the deletions took
/// part in a match, both counts are zero.
pub proof fn lemma_absent_clauses_count_zero(groups: Seq<Option<Seq<char>>>)
    requires
        Stats::group(groups, 2) is None,
        Stats::group(groups, 3) is None,
    ensures
        Stats::of_groups(groups) == (Stats { insertions: 0, deletions: 0 }),
{
}

impl Default for Stats {
    /// No line added, none removed.
    fn default() -> (stats: Self)
        ensures
            stats == (Stats { insertions: 0, deletions: 0 }),
    {
        Stats { insertions: 0, deletions: 0 }
    }
}

} // verus!
