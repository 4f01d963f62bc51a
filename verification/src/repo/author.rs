//! An author: a name, and the commits of a repository that carry it.

use crate::repo::commit::{CommitView, SEPARATOR};
use crate::repo::{commit_views, Repo, BRANCH};
use crate::text::{
    chars_of, find, lines, owned, same_chars, split_lines, split_once, string_of, views,
};
use crate::utils::future::Error;
use vstd::prelude::*;
use vstd::slice::slice_subrange;

verus! {

/// An author of a repository.
#[derive(Debug)]
pub struct Author {
    name: String,
    commits: Vec<usize>,
}

/// What an author holds, as plain values: the name, and the positions of the
/// author's commits in the repository's list.
pub struct AuthorView {
    pub name: Seq<char>,
    pub commits: Seq<usize>,
}

/// The totals of one author.
#[derive(Debug, Clone, Copy, PartialEq, Eq, Structural)]
pub struct AuthorStats {
    /// The lines added over the author's commits.
    pub insertions: u128,
    /// The lines removed over the author's commits.
    pub deletions: u128,
    /// Lines added less lines removed.
    pub net_lines: i128,
    /// The number of the author's commits, with or without line counts.
    pub total_commits: usize,
}

/// The lines that `commit` added, zero while its line counts are absent.
pub open spec fn inserted(commit: CommitView) -> nat {
    match commit.stats {
        Some(stats) => stats.insertions as nat,
        None => 0,
    }
}

/// The lines that `commit` removed, zero while its line counts are absent.
pub open spec fn deleted(commit: CommitView) -> nat {
    match commit.stats {
        Some(stats) => stats.deletions as nat,
        None => 0,
    }
}

/// Every position of `refs` is one of a list of `len` commits.
pub open spec fn all_within(refs: Seq<usize>, len: nat) -> bool {
    forall|k: int| 0 <= k < refs.len() ==> (#[trigger] refs[k]) < len
}

/// The lines added over the commits at the positions `refs`.
pub open spec fn insertions_at(commits: Seq<CommitView>, refs: Seq<usize>) -> nat
    decreases refs.len(),
{
    if refs.len() == 0 {
        0
    } else {
        insertions_at(commits, refs.drop_last()) + inserted(commits[refs.last() as int])
    }
}

/// The lines removed over the commits at the positions `refs`.
pub open spec fn deletions_at(commits: Seq<CommitView>, refs: Seq<usize>) -> nat
    decreases refs.len(),
{
    if refs.len() == 0 {
        0
    } else {
        deletions_at(commits, refs.drop_last()) + deleted(commits[refs.last() as int])
    }
}

/// `totals` are the totals over the commits at the positions `refs`.
pub open spec fn is_totals(totals: AuthorStats, commits: Seq<CommitView>, refs: Seq<usize>) -> bool {
    &&& totals.insertions == insertions_at(commits, refs)
    &&& totals.deletions == deletions_at(commits, refs)
    &&& totals.net_lines == insertions_at(commits, refs) - deletions_at(commits, refs)
    &&& totals.total_commits == refs.len()
}

/// The hashes of the merges that `lines` record for the author `name`, in
/// the order of the lines. A line holds the author, a separator and the hash;
/// lines without separator are passed over.
pub open spec fn merges_of(lines: Seq<Seq<char>>, name: Seq<char>) -> Seq<Seq<char>>
    decreases lines.len(),
{
    if lines.len() == 0 {
        Seq::empty()
    } else {
        let before = merges_of(lines.drop_last(), name);
        match split_once(lines.last(), SEPARATOR) {
            Some((author, hash)) => if author == name {
                before.push(hash)
            } else {
                before
            },
            None => before,
        }
    }
}

impl View for Author {
    type V = AuthorView;

    closed spec fn view(&self) -> AuthorView {
        AuthorView { name: self.name@, commits: self.commits@ }
    }
}

impl Author {
    /// The author `name` with the commits at the positions `commits`.
    pub fn new(name: String, commits: Vec<usize>) -> (author: Author)
        ensures
            author@ == (AuthorView { name: name@, commits: commits@ }),
    {
        Author { name, commits }
    }

    /// The author's name.
    pub fn name(&self) -> (name: &String)
        ensures
            name@ == self@.name,
    {
        &self.name
    }

    /// The positions of the author's commits in the repository's list.
    pub fn commits(&self) -> (commits: &Vec<usize>)
        ensures
            commits@ == self@.commits,
    {
        &self.commits
    }

    /// The arguments with which the tool prints the merges: one line for
    /// each, with its author, a separator and its hash.
    pub fn merges_args() -> (args: Vec<String>)
        ensures
            args.deep_view() == seq![
                "log"@,
                "--merges"@,
                "--pretty=format:%an|%H"@,
                "--first-parent"@,
                BRANCH@,
            ],
    {
        let args = owned(&["log", "--merges", "--pretty=format:%an|%H", "--first-parent", BRANCH]);
        assert(args.deep_view() =~= seq![
            "log"@,
            "--merges"@,
            "--pretty=format:%an|%H"@,
            "--first-parent"@,
            BRANCH@,
        ]);
        args
    }

    /// The totals over the author's commits in `repo`. A commit without line
    /// counts adds no lines and still counts as a commit. Where the author
    /// refers to a commit that `repo` does not hold, the result is a
    /// `DanglingReference`.
    pub fn stats(&self, repo: &Repo) -> (totals: Result<AuthorStats, Error>)
        ensures
            match totals {
                Ok(t) => {
                    &&& all_within(self@.commits, repo.commits@.len())
                    &&& is_totals(t, commit_views(repo.commits@), self@.commits)
                },
                Err(Error::DanglingReference) => !all_within(self@.commits, repo.commits@.len()),
                Err(_) => false,
            },
    {
        let ghost commits = commit_views(repo.commits@);
        let mut insertions: u128 = 0;
        let mut deletions: u128 = 0;
        let mut k: usize = 0;
        assert(self.commits@.take(0) =~= Seq::<usize>::empty());
        while k < self.commits.len()
            invariant
                k <= self.commits.len(),
                commits == commit_views(repo.commits@),
                all_within(self.commits@.take(k as int), repo.commits@.len()),
                insertions == insertions_at(commits, self.commits@.take(k as int)),
                deletions == deletions_at(commits, self.commits@.take(k as int)),
                insertions <= k * u32::MAX,
                deletions <= k * u32::MAX,
            decreases self.commits.len() - k,
        {
            let at = self.commits[k];
            if at >= repo.commits.len() {
                return Err(Error::DanglingReference);
            }
            proof {
                let next = self.commits@.take(k as int + 1);
                assert(next.drop_last() =~= self.commits@.take(k as int));
                assert(next.last() == at);
                assert(commits[at as int] == repo.commits@[at as int]@);
                assert forall|j: int| 0 <= j < next.len() implies (#[trigger] next[j])
                    < repo.commits@.len() by {
                    if j < k {
                        assert(self.commits@.take(k as int)[j] == next[j]);
                    }
                }
            }
            match repo.commits[at].stats {
                Some(stats) => {
                    insertions = insertions + stats.insertions as u128;
                    deletions = deletions + stats.deletions as u128;
                },
                None => {},
            }
            k += 1;
        }
        assert(self.commits@.take(k as int) =~= self.commits@);
        Ok(
            AuthorStats {
                insertions,
                deletions,
                net_lines: insertions as i128 - deletions as i128,
                total_commits: self.commits.len(),
            },
        )
    }

    /// The hashes of the author's merges among those that the tool printed as
    /// `output`, one line for each merge with its author, a separator and
    /// its hash. An author without any merge is `NotFound` with the name.
    pub fn get_author_prs(&self, output: &str) -> (merges: Result<Vec<String>, Error>)
        ensures
            match merges {
                Ok(hashes) => hashes.deep_view() == merges_of(lines(output@), self@.name)
                    && hashes@.len() > 0,
                Err(Error::NotFound(name)) => merges_of(lines(output@), self@.name).len() == 0
                    && name@ == self@.name,
                Err(_) => false,
            },
    {
        let name = chars_of(self.name.as_str());
        let chars = chars_of(output);
        let parts = split_lines(chars.as_slice());
        let mut hashes: Vec<String> = Vec::new();
        let mut i: usize = 0;
        assert(views(parts@).take(0) =~= Seq::<Seq<char>>::empty());
        assert(hashes.deep_view() =~= Seq::<Seq<char>>::empty());
        while i < parts.len()
            invariant
                i <= parts.len(),
                name@ == self@.name,
                hashes.deep_view() == merges_of(views(parts@).take(i as int), self@.name),
            decreases parts.len() - i,
        {
            let ghost before = hashes.deep_view();
            assert(views(parts@).take(i as int + 1).drop_last() =~= views(parts@).take(i as int));
            assert(views(parts@).take(i as int + 1).last() == parts@[i as int]@);
            let line = parts[i];
            match find(line, SEPARATOR) {
                Some(cut) => {
                    assert(cut < line.len());
                    let author = slice_subrange(line, 0, cut);
                    let hash = slice_subrange(line, cut + 1, line.len());
                    assert(author@ =~= line@.take(cut as int));
                    assert(hash@ =~= line@.skip(cut as int + 1));
                    if same_chars(author, name.as_slice()) {
                        hashes.push(string_of(hash));
                        assert(hashes.deep_view() =~= before.push(hash@));
                    }
                },
                None => {},
            }
            i += 1;
        }
        assert(views(parts@).take(i as int) =~= views(parts@));
        if hashes.len() > 0 {
            Ok(hashes)
        } else {
            Err(Error::NotFound(self.name.clone()))
        }
    }
}

} // verus!
