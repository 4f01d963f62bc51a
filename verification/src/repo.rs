//! A repository: its commits in log order, and what is derived from them.

use crate::repo::author::{all_within, is_totals, Author, AuthorStats, AuthorView};
use crate::repo::commit::{parse_log_line, Commit, CommitView};
use crate::repo::fetch::{any_fetched, failed_entirely, merged, Slot, StatsFetcher};
use crate::repo::partition::{lemma_commits_of, lemma_owners};
use crate::text::{
    chars_of, find, lines, owned, parse_u32, same_chars, split_lines, split_once, string_of,
    to_u32, trim, trimmed, views,
};
use crate::utils::future::Error;
use vstd::pervasive::unreached;
use vstd::prelude::*;
use vstd::slice::slice_subrange;

pub mod author;
pub mod commit;
pub mod fetch;
pub mod partition;
pub mod stats;

verus! {

/// The commits of one working tree.
#[derive(Debug)]
pub struct Repo {
    /// The working tree.
    pub path: String,
    /// The commits in the order of the log, newest first.
    pub commits: Vec<Commit>,
}

/// What each of `commits` holds, as plain values.
pub open spec fn commit_views(commits: Seq<Commit>) -> Seq<CommitView> {
    commits.map_values(|c: Commit| c@)
}

/// The authors of `commits`: each name that a commit carries, once, in the
/// order in which the names first occur.
pub open spec fn owners(commits: Seq<CommitView>) -> Seq<Seq<char>>
    decreases commits.len(),
{
    if commits.len() == 0 {
        Seq::empty()
    } else {
        let before = owners(commits.drop_last());
        if before.contains(commits.last().owner) {
            before
        } else {
            before.push(commits.last().owner)
        }
    }
}

/// The positions in `commits` of the commits that carry the name `owner`, in
/// rising order.
pub open spec fn commits_of(commits: Seq<CommitView>, owner: Seq<char>) -> Seq<usize>
    decreases commits.len(),
{
    if commits.len() == 0 {
        Seq::empty()
    } else {
        let before = commits_of(commits.drop_last(), owner);
        if commits.last().owner == owner {
            before.push((commits.len() - 1) as usize)
        } else {
            before
        }
    }
}

/// One line of the per-author summary that the tool prints, `count`, a tab and
/// the author's name: the name and the count. White space around the line does
/// not count, and a count that is no number counts as zero. `None` for a line
/// without a tab.
pub open spec fn shortlog_entry(line: Seq<char>) -> Option<(Seq<char>, u32)> {
    match split_once(trim(line), '\t') {
        Some((count, author)) => Some(
            (
                author,
                match parse_u32(count) {
                    Some(n) => n,
                    None => 0,
                },
            ),
        ),
        None => None,
    }
}

/// Whether `entries` holds an entry for `author`.
pub open spec fn has_entry(entries: Seq<(Seq<char>, u32)>, author: Seq<char>) -> bool {
    exists|i: int| 0 <= i < entries.len() && (#[trigger] entries[i]).0 == author
}

/// The authors with their counts that the lines of a per-author summary give,
/// in the order of the lines. Lines that are no entry are passed over, and of
/// two entries for one author the first stands.
pub open spec fn shortlog_entries(lines: Seq<Seq<char>>) -> Seq<(Seq<char>, u32)>
    decreases lines.len(),
{
    if lines.len() == 0 {
        Seq::empty()
    } else {
        let before = shortlog_entries(lines.drop_last());
        match shortlog_entry(lines.last()) {
            Some((author, count)) => if has_entry(before, author) {
                before
            } else {
                before.push((author, count))
            },
            None => before,
        }
    }
}

/// No two of `entries` are for the same author.
pub open spec fn distinct_authors(entries: Seq<(Seq<char>, u32)>) -> bool {
    forall|i: int, j: int|
        0 <= i < j < entries.len() ==> (#[trigger] entries[i]).0 != (#[trigger] entries[j]).0
}

/// The entries that the lines of a per-author summary give hold no author
/// twice.
pub proof fn lemma_shortlog_entries_distinct(lines: Seq<Seq<char>>)
    ensures
        distinct_authors(shortlog_entries(lines)),
    decreases lines.len(),
{
    if lines.len() > 0 {
        lemma_shortlog_entries_distinct(lines.drop_last());
        let before = shortlog_entries(lines.drop_last());
        let entries = shortlog_entries(lines);
        assert forall|i: int, j: int| 0 <= i < j < entries.len() implies (#[trigger] entries[i]).0
            != (#[trigger] entries[j]).0 by {
            if j < before.len() {
                assert(entries[i] == before[i] && entries[j] == before[j]);
            } else {
                assert(entries[i] == before[i]);
                assert(!has_entry(before, entries[j].0));
            }
        }
    }
}

impl Default for Repo {
    /// A repository without a working tree and without commits.
    fn default() -> (repo: Self)
        ensures
            repo.path@ == Seq::<char>::empty(),
            repo.commits@ == Seq::<Commit>::empty(),
    {
        Repo { path: String::new(), commits: Vec::new() }
    }
}

/// The revision whose history is read.
pub const BRANCH: &'static str = "main";

impl Repo {
    /// The arguments with which the tool prints the log: one line for each
    /// commit, with hash, author, age and message.
    pub fn log_args() -> (args: Vec<String>)
        ensures
            args.deep_view() == seq![
                "log"@,
                "--oneline"@,
                "--pretty=format:%h|%an|%ar|%s"@,
                BRANCH@,
            ],
    {
        let args = owned(&["log", "--oneline", "--pretty=format:%h|%an|%ar|%s", BRANCH]);
        assert(args.deep_view() =~= seq![
            "log"@,
            "--oneline"@,
            "--pretty=format:%h|%an|%ar|%s"@,
            BRANCH@,
        ]);
        args
    }

    /// The arguments with which the tool prints the number of revisions.
    pub fn count_args() -> (args: Vec<String>)
        ensures
            args.deep_view() == seq!["rev-list"@, "--count"@, BRANCH@],
    {
        let args = owned(&["rev-list", "--count", BRANCH]);
        assert(args.deep_view() =~= seq!["rev-list"@, "--count"@, BRANCH@]);
        args
    }

    /// The arguments with which the tool prints its per-author summary.
    pub fn shortlog_args() -> (args: Vec<String>)
        ensures
            args.deep_view() == seq!["shortlog"@, "-sn"@, BRANCH@],
    {
        let args = owned(&["shortlog", "-sn", BRANCH]);
        assert(args.deep_view() =~= seq!["shortlog"@, "-sn"@, BRANCH@]);
        args
    }

    /// The number of revisions that the tool printed as `output`: the text
    /// without the white space around it, read as a decimal number. Any other
    /// text is a `ParseFailure` with the text that was read.
    pub fn get_total_commits(output: &str) -> (count: Result<u32, Error>)
        ensures
            match count {
                Ok(n) => parse_u32(trim(output@)) == Some(n),
                Err(Error::ParseFailure(text)) => parse_u32(trim(output@)) is None && text@
                    == trim(output@),
                Err(_) => false,
            },
    {
        let chars = chars_of(output);
        let number = trimmed(chars.as_slice());
        match to_u32(number) {
            Some(n) => Ok(n),
            None => Err(Error::ParseFailure(string_of(number))),
        }
    }

    /// Reads the log of the working tree at `path`: one commit for each line
    /// of `log`, in the order of the lines, none of them with line counts yet.
    /// The first line that is no log line makes the whole a
    /// `MalformedLogLine` with that line.
    pub fn build(path: String, log: &str) -> (repo: Result<Repo, Error>)
        ensures
            match repo {
                Ok(r) => {
                    &&& r.path == path
                    &&& r.commits@.len() == lines(log@).len()
                    &&& forall|i: int|
                        0 <= i < r.commits@.len() ==> parse_log_line(#[trigger] lines(log@)[i])
                            == Some(r.commits@[i]@)
                },
                Err(Error::MalformedLogLine(line)) => exists|i: int|
                    {
                        &&& 0 <= i < lines(log@).len()
                        &&& #[trigger] lines(log@)[i] == line@
                        &&& parse_log_line(line@) is None
                        &&& forall|j: int|
                            0 <= j < i ==> parse_log_line(#[trigger] lines(log@)[j]) is Some
                    },
                Err(_) => false,
            },
    {
        let chars = chars_of(log);
        let parts = split_lines(chars.as_slice());
        let mut commits: Vec<Commit> = Vec::new();
        let mut i: usize = 0;
        while i < parts.len()
            invariant
                i <= parts.len(),
                views(parts@) == lines(log@),
                commits@.len() == i,
                forall|j: int|
                    0 <= j < i ==> parse_log_line(#[trigger] lines(log@)[j]) == Some(commits@[j]@),
            decreases parts.len() - i,
        {
            assert(views(parts@)[i as int] == parts@[i as int]@);
            match Commit::from_chars(parts[i]) {
                Some(commit) => {
                    commits.push(commit);
                },
                None => {
                    return Err(Error::MalformedLogLine(string_of(parts[i])));
                },
            }
            i += 1;
        }
        Ok(Repo { path, commits })
    }

    /// The authors with their commit counts that the tool printed as `output`,
    /// its per-author summary. No author occurs twice in the result.
    pub fn commits_by_owner(output: &str) -> (entries: Vec<(String, u32)>)
        ensures
            entries.deep_view() == shortlog_entries(lines(output@)),
            distinct_authors(entries.deep_view()),
    {
        let chars = chars_of(output);
        let parts = split_lines(chars.as_slice());
        let mut entries: Vec<(String, u32)> = Vec::new();
        let mut i: usize = 0;
        assert(views(parts@).take(0) =~= Seq::<Seq<char>>::empty());
        assert(entries.deep_view() =~= Seq::<(Seq<char>, u32)>::empty());
        while i < parts.len()
            invariant
                i <= parts.len(),
                entries.deep_view() == shortlog_entries(views(parts@).take(i as int)),
            decreases parts.len() - i,
        {
            let ghost before = entries.deep_view();
            assert(views(parts@).take(i as int + 1).drop_last() =~= views(parts@).take(i as int));
            assert(views(parts@).take(i as int + 1).last() == parts@[i as int]@);
            let line = trimmed(parts[i]);
            match find(line, '\t') {
                Some(tab) => {
                    assert(tab < line.len());
                    let count = slice_subrange(line, 0, tab);
                    let author = slice_subrange(line, tab + 1, line.len());
                    assert(count@ =~= line@.take(tab as int));
                    assert(author@ =~= line@.skip(tab as int + 1));
                    if !Self::holds_entry(&entries, author) {
                        let n = match to_u32(count) {
                            Some(n) => n,
                            None => 0,
                        };
                        entries.push((string_of(author), n));
                        assert(entries.deep_view() =~= before.push((author@, n)));
                    }
                },
                None => {},
            }
            i += 1;
        }
        proof {
            assert(views(parts@).take(i as int) =~= views(parts@));
            lemma_shortlog_entries_distinct(lines(output@));
        }
        entries
    }

    /// The names of the authors: each name that a commit carries, once, in
    /// the order in which the names first occur in the log.
    pub fn get_repo_authors(&self) -> (names: Vec<String>)
        ensures
            names.deep_view() == owners(commit_views(self.commits@)),
            names.deep_view().no_duplicates(),
    {
        let ghost commits = commit_views(self.commits@);
        let mut names: Vec<String> = Vec::new();
        let mut i: usize = 0;
        assert(commits.take(0) =~= Seq::<CommitView>::empty());
        assert(names.deep_view() =~= Seq::<Seq<char>>::empty());
        while i < self.commits.len()
            invariant
                i <= self.commits.len(),
                commits == commit_views(self.commits@),
                names.deep_view() == owners(commits.take(i as int)),
            decreases self.commits.len() - i,
        {
            let ghost before = names.deep_view();
            assert(commits.take(i as int + 1).drop_last() =~= commits.take(i as int));
            assert(commits.take(i as int + 1).last() == self.commits@[i as int]@);
            if !Self::holds_name(&names, &self.commits[i].owner) {
                names.push(self.commits[i].owner.clone());
                assert(names.deep_view() =~= before.push(self.commits@[i as int].owner@));
            }
            i += 1;
        }
        proof {
            assert(commits.take(i as int) =~= commits);
            lemma_owners(commits);
        }
        names
    }

    fn holds_name(names: &Vec<String>, name: &String) -> (held: bool)
        ensures
            held == names.deep_view().contains(name@),
    {
        let mut i: usize = 0;
        while i < names.len()
            invariant
                i <= names.len(),
                forall|j: int| 0 <= j < i ==> #[trigger] names.deep_view()[j] != name@,
            decreases names.len() - i,
        {
            assert(names.deep_view()[i as int] == names@[i as int]@);
            if names[i] == *name {
                return true;
            }
            i += 1;
        }
        false
    }

    /// The positions of the commits that carry the name `owner`, in rising
    /// order.
    pub fn commits_of_owner(&self, owner: &String) -> (refs: Vec<usize>)
        ensures
            refs@ == commits_of(commit_views(self.commits@), owner@),
            all_within(refs@, self.commits@.len()),
            forall|k: int, l: int| 0 <= k < l < refs@.len() ==> refs@[k] < refs@[l],
    {
        let ghost commits = commit_views(self.commits@);
        let mut refs: Vec<usize> = Vec::new();
        let mut i: usize = 0;
        assert(commits.take(0) =~= Seq::<CommitView>::empty());
        while i < self.commits.len()
            invariant
                i <= self.commits.len(),
                commits == commit_views(self.commits@),
                refs@ == commits_of(commits.take(i as int), owner@),
            decreases self.commits.len() - i,
        {
            assert(commits.take(i as int + 1).drop_last() =~= commits.take(i as int));
            assert(commits.take(i as int + 1).last() == self.commits@[i as int]@);
            if self.commits[i].owner == *owner {
                refs.push(i);
            }
            i += 1;
        }
        proof {
            assert(commits.take(i as int) =~= commits);
            lemma_commits_of(commits, owner@);
        }
        refs
    }

    /// The authors of the repository in the order of `get_repo_authors`, each
    /// with the positions of the commits that carry the author's name, in
    /// rising order.
    pub fn create_authors(&self) -> (authors: Vec<Author>)
        ensures
            authors@.len() == owners(commit_views(self.commits@)).len(),
            forall|a: int|
                0 <= a < authors@.len() ==> (#[trigger] authors@[a])@ == (AuthorView {
                    name: owners(commit_views(self.commits@))[a],
                    commits: commits_of(
                        commit_views(self.commits@),
                        owners(commit_views(self.commits@))[a],
                    ),
                }),
    {
        let ghost commits = commit_views(self.commits@);
        let names = self.get_repo_authors();
        let mut authors: Vec<Author> = Vec::new();
        let mut a: usize = 0;
        while a < names.len()
            invariant
                a <= names.len(),
                commits == commit_views(self.commits@),
                names.deep_view() == owners(commits),
                authors@.len() == a,
                forall|b: int|
                    0 <= b < a ==> (#[trigger] authors@[b])@ == (AuthorView {
                        name: owners(commits)[b],
                        commits: commits_of(commits, owners(commits)[b]),
                    }),
            decreases names.len() - a,
        {
            assert(names.deep_view()[a as int] == names@[a as int]@);
            let name = names[a].clone();
            let refs = self.commits_of_owner(&name);
            authors.push(Author::new(name, refs));
            a += 1;
        }
        assert(names.deep_view().len() == names@.len());
        authors
    }

    /// The totals of every author, in the order of `get_repo_authors`: for
    /// each the lines added and removed over the author's commits, the
    /// difference of the two, and the number of the commits.
    pub fn merge_commits_by_owner(&self) -> (totals: Vec<(String, AuthorStats)>)
        ensures
            totals@.len() == owners(commit_views(self.commits@)).len(),
            forall|a: int|
                0 <= a < totals@.len() ==> {
                    &&& (#[trigger] totals@[a]).0@ == owners(commit_views(self.commits@))[a]
                    &&& is_totals(
                        totals@[a].1,
                        commit_views(self.commits@),
                        commits_of(
                            commit_views(self.commits@),
                            owners(commit_views(self.commits@))[a],
                        ),
                    )
                },
    {
        let ghost commits = commit_views(self.commits@);
        let authors = self.create_authors();
        let mut totals: Vec<(String, AuthorStats)> = Vec::new();
        let mut a: usize = 0;
        while a < authors.len()
            invariant
                a <= authors.len(),
                commits == commit_views(self.commits@),
                authors@.len() == owners(commits).len(),
                forall|b: int|
                    0 <= b < authors@.len() ==> (#[trigger] authors@[b])@ == (AuthorView {
                        name: owners(commits)[b],
                        commits: commits_of(commits, owners(commits)[b]),
                    }),
                totals@.len() == a,
                forall|b: int|
                    0 <= b < a ==> {
                        &&& (#[trigger] totals@[b]).0@ == owners(commits)[b]
                        &&& is_totals(
                            totals@[b].1,
                            commits,
                            commits_of(commits, owners(commits)[b]),
                        )
                    },
            decreases authors.len() - a,
        {
            let count = self.commits.len();
            proof {
                assert(commits.len() == count);
                lemma_commits_of(commits, owners(commits)[a as int]);
            }
            match authors[a].stats(self) {
                Ok(sum) => {
                    totals.push((authors[a].name().clone(), sum));
                },
                Err(_) => {
                    assert(all_within(authors@[a as int]@.commits, self.commits@.len()));
                    unreached::<()>();
                },
            }
            a += 1;
        }
        totals
    }

    /// Ends a fetch and writes the line counts that it holds into the
    /// commits: each commit without line counts gets those that were fetched
    /// for it, once and for all, and nothing else changes. Commits whose
    /// fetch failed or never came back stay without line counts.
    ///
    /// A fetch that was begun for another number of commits is a
    /// `DanglingReference`. A fetch that failed as a whole, where fetches
    /// failed and none gave line counts, is the error of the first fetch that
    /// failed. In both cases nothing changes.
    pub fn merge_stats(&mut self, fetch: StatsFetcher) -> (done: Result<(), Error>)
        requires
            fetch.wf(),
        ensures
            final(self).path == old(self).path,
            final(self).commits@.len() == old(self).commits@.len(),
            match done {
                Ok(_) => {
                    &&& fetch@.slots.len() == old(self).commits@.len()
                    &&& !failed_entirely(fetch@.slots)
                    &&& forall|i: int|
                        0 <= i < old(self).commits@.len() ==> (#[trigger] final(self).commits@[i])@
                            == merged(old(self).commits@[i]@, fetch@.slots[i])
                },
                Err(error) => {
                    &&& final(self).commits == old(self).commits
                    &&& if fetch@.slots.len() != old(self).commits@.len() {
                        error == Error::DanglingReference
                    } else {
                        failed_entirely(fetch@.slots) && fetch@.failure == Some(error)
                    }
                },
            },
    {
        if fetch.len() != self.commits.len() {
            return Err(Error::DanglingReference);
        }
        let mut fetched: bool = false;
        let mut i: usize = 0;
        while i < self.commits.len()
            invariant
                i <= self.commits.len(),
                self.path == old(self).path,
                self.commits@.len() == old(self).commits@.len(),
                fetch@.slots.len() == self.commits@.len(),
                fetched <==> any_fetched(fetch@.slots.take(i as int)),
                !fetched ==> self.commits == old(self).commits,
                forall|j: int|
                    0 <= j < i ==> (#[trigger] self.commits@[j])@ == merged(
                        old(self).commits@[j]@,
                        fetch@.slots[j],
                    ),
                forall|j: int|
                    i <= j < self.commits@.len() ==> #[trigger] self.commits@[j] == old(
                        self,
                    ).commits@[j],
            decreases self.commits.len() - i,
        {
            let ghost seen = fetch@.slots.take(i as int);
            let ghost next = fetch@.slots.take(i as int + 1);
            let slot = fetch.slot(i);
            proof {
                assert(next[i as int] == fetch@.slots[i as int]);
                if any_fetched(seen) {
                    let k = choose|k: int| 0 <= k < seen.len() && #[trigger] seen[k] is Fetched;
                    assert(next[k] is Fetched);
                }
                if any_fetched(next) {
                    let k = choose|k: int| 0 <= k < next.len() && #[trigger] next[k] is Fetched;
                    if k < i {
                        assert(seen[k] is Fetched);
                    }
                }
            }
            match slot {
                Some(Slot::Fetched(stats)) => {
                    fetched = true;
                    if self.commits[i].stats.is_none() {
                        self.commits[i].stats = Some(stats);
                    }
                },
                _ => {},
            }
            i += 1;
        }
        proof {
            assert(fetch@.slots.take(i as int) =~= fetch@.slots);
            fetch.lemma_wf();
        }
        match fetch.into_failure() {
            Some(error) => if fetched {
                Ok(())
            } else {
                Err(error)
            },
            None => Ok(()),
        }
    }

    fn holds_entry(entries: &Vec<(String, u32)>, author: &[char]) -> (held: bool)
        ensures
            held == has_entry(entries.deep_view(), author@),
    {
        let mut i: usize = 0;
        while i < entries.len()
            invariant
                i <= entries.len(),
                forall|j: int| 0 <= j < i ==> (#[trigger] entries.deep_view()[j]).0 != author@,
            decreases entries.len() - i,
        {
            let name = chars_of(entries[i].0.as_str());
            assert(entries.deep_view()[i as int].0 == name@);
            if same_chars(name.as_slice(), author) {
                return true;
            }
            i += 1;
        }
        false
    }
}

} // verus!
