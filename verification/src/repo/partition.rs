//! Every commit belongs to exactly one author, and adds to that author's
//! totals what its own line counts say: what holds of the authors of a list of
//! commits, of the commits that each refers to, and of the totals.

use crate::repo::author::{all_within, deleted, deletions_at, inserted, insertions_at};
use crate::repo::commit::CommitView;
use crate::repo::stats::Stats;
use crate::repo::{commits_of, owners};
use vstd::prelude::*;

verus! {

/// Some commit of `commits` carries the name `owner`.
pub open spec fn carries(commits: Seq<CommitView>, owner: Seq<char>) -> bool {
    exists|i: int| 0 <= i < commits.len() && (#[trigger] commits[i]).owner == owner
}

/// How many positions the authors `names` refer to in all.
pub open spec fn reference_count(commits: Seq<CommitView>, names: Seq<Seq<char>>) -> nat
    decreases names.len(),
{
    if names.len() == 0 {
        0
    } else {
        reference_count(commits, names.drop_last()) + commits_of(commits, names.last()).len()
    }
}

/// The positions that an author refers to lie in the list, rise strictly, and
/// are exactly the positions of the commits that carry the author's name.
pub proof fn lemma_commits_of(commits: Seq<CommitView>, owner: Seq<char>)
    requires
        commits.len() <= usize::MAX,
    ensures
        forall|k: int|
            0 <= k < commits_of(commits, owner).len() ==> {
                &&& (#[trigger] commits_of(commits, owner)[k]) < commits.len()
                &&& commits[commits_of(commits, owner)[k] as int].owner == owner
            },
        forall|k: int, l: int|
            0 <= k < l < commits_of(commits, owner).len() ==> commits_of(commits, owner)[k]
                < commits_of(commits, owner)[l],
        forall|i: int|
            0 <= i < commits.len() && (#[trigger] commits[i]).owner == owner ==> commits_of(
                commits,
                owner,
            ).contains(i as usize),
    decreases commits.len(),
{
    if commits.len() > 0 {
        let before = commits.drop_last();
        let refs = commits_of(commits, owner);
        let old_refs = commits_of(before, owner);
        lemma_commits_of(before, owner);
        assert forall|i: int| 0 <= i < commits.len() && (#[trigger] commits[i]).owner
            == owner implies refs.contains(i as usize) by {
            if i < before.len() {
                assert(before[i].owner == owner);
                let k = choose|k: int| 0 <= k < old_refs.len() && old_refs[k] == i as usize;
                assert(refs[k] == i as usize);
            } else {
                assert(refs[refs.len() - 1] == i as usize);
            }
        }
        assert forall|k: int| 0 <= k < refs.len() implies {
            &&& (#[trigger] refs[k]) < commits.len()
            &&& commits[refs[k] as int].owner == owner
        } by {
            if k < old_refs.len() {
                assert(refs[k] == old_refs[k]);
                assert(commits[refs[k] as int] == before[old_refs[k] as int]);
            }
        }
        assert forall|k: int, l: int| 0 <= k < l < refs.len() implies refs[k] < refs[l] by {
            assert(refs[k] == old_refs[k]);
            if l < old_refs.len() {
                assert(refs[l] == old_refs[l]);
            }
        }
    }
}

/// No author is listed twice, the author of every commit is listed, and
/// every author listed is the author of some commit.
pub proof fn lemma_owners(commits: Seq<CommitView>)
    ensures
        owners(commits).no_duplicates(),
        forall|i: int| 0 <= i < commits.len() ==> owners(commits).contains(#[trigger] commits[i].owner),
        forall|a: int|
            0 <= a < owners(commits).len() ==> carries(commits, #[trigger] owners(commits)[a]),
    decreases commits.len(),
{
    if commits.len() > 0 {
        let before = commits.drop_last();
        let names = owners(commits);
        let old_names = owners(before);
        let last = commits.last();
        lemma_owners(before);
        assert forall|i: int| 0 <= i < commits.len() implies names.contains(
            #[trigger] commits[i].owner,
        ) by {
            if i < before.len() {
                assert(old_names.contains(before[i].owner));
                let a = choose|a: int| 0 <= a < old_names.len() && old_names[a] == before[i].owner;
                assert(names[a] == commits[i].owner);
            } else if old_names.contains(last.owner) {
            } else {
                assert(names[names.len() - 1] == last.owner);
            }
        }
        assert forall|a: int| 0 <= a < names.len() implies carries(
            commits,
            #[trigger] names[a],
        ) by {
            if a < old_names.len() {
                assert(names[a] == old_names[a]);
                assert(carries(before, old_names[a]));
                let i = choose|i: int|
                    0 <= i < before.len() && (#[trigger] before[i]).owner == old_names[a];
                assert(commits[i].owner == names[a]);
            } else {
                assert(commits[commits.len() - 1].owner == names[a]);
            }
        }
        assert forall|a: int, b: int| 0 <= a < names.len() && 0 <= b < names.len() && a
            != b implies names[a] != names[b] by {
            if a < old_names.len() && b < old_names.len() {
                assert(names[a] == old_names[a] && names[b] == old_names[b]);
            } else if a < old_names.len() {
                assert(old_names.contains(old_names[a]));
            } else if b < old_names.len() {
                assert(old_names.contains(old_names[b]));
            }
        }
    }
}

/// How often `name` occurs in `names`.
spec fn occurrences(names: Seq<Seq<char>>, name: Seq<char>) -> nat
    decreases names.len(),
{
    if names.len() == 0 {
        0
    } else {
        occurrences(names.drop_last(), name) + if names.last() == name {
            1nat
        } else {
            0nat
        }
    }
}

proof fn lemma_occurrences(names: Seq<Seq<char>>, name: Seq<char>)
    requires
        names.no_duplicates(),
    ensures
        occurrences(names, name) == if names.contains(name) {
            1nat
        } else {
            0nat
        },
    decreases names.len(),
{
    if names.len() > 0 {
        let before = names.drop_last();
        lemma_occurrences(before, name);
        if names.last() == name {
            if before.contains(name) {
                let a = choose|a: int| 0 <= a < before.len() && before[a] == name;
                assert(names[a] == names[names.len() - 1]);
            }
            assert(names[names.len() - 1] == name);
        } else if names.contains(name) {
            let a = choose|a: int| 0 <= a < names.len() && names[a] == name;
            assert(before[a] == name);
        } else if before.contains(name) {
            let a = choose|a: int| 0 <= a < before.len() && before[a] == name;
            assert(names[a] == name);
        }
    }
}

proof fn lemma_reference_count_grows(commits: Seq<CommitView>, names: Seq<Seq<char>>)
    requires
        commits.len() > 0,
    ensures
        reference_count(commits, names) == reference_count(commits.drop_last(), names)
            + occurrences(names, commits.last().owner),
    decreases names.len(),
{
    if names.len() > 0 {
        lemma_reference_count_grows(commits, names.drop_last());
    }
}

/// Every commit is referred to exactly once: no author is listed twice, a
/// commit is among the references of an author exactly if it carries the
/// author's name, that name is listed, and the references of all authors
/// together are as many as the commits.
pub proof fn lemma_authors_partition(commits: Seq<CommitView>)
    requires
        commits.len() <= usize::MAX,
    ensures
        owners(commits).no_duplicates(),
        forall|i: int| 0 <= i < commits.len() ==> owners(commits).contains(#[trigger] commits[i].owner),
        forall|i: int, name: Seq<char>|
            0 <= i < commits.len() ==> (#[trigger] commits_of(commits, name).contains(i as usize)
                <==> commits[i].owner == name),
        reference_count(commits, owners(commits)) == commits.len(),
    decreases commits.len(),
{
    lemma_owners(commits);
    assert forall|i: int, name: Seq<char>| 0 <= i < commits.len() implies (
    #[trigger] commits_of(commits, name).contains(i as usize) <==> commits[i].owner == name) by {
        lemma_commits_of(commits, name);
        if commits_of(commits, name).contains(i as usize) {
            let k = choose|k: int|
                0 <= k < commits_of(commits, name).len() && commits_of(commits, name)[k]
                    == i as usize;
            assert(commits[commits_of(commits, name)[k] as int].owner == name);
        }
    }
    if commits.len() > 0 {
        let before = commits.drop_last();
        let last = commits.last();
        let names = owners(before);
        lemma_authors_partition(before);
        lemma_owners(before);
        lemma_occurrences(names, last.owner);
        lemma_reference_count_grows(commits, names);
        if !names.contains(last.owner) {
            let all = names.push(last.owner);
            assert(all.drop_last() =~= names);
            lemma_commits_of(before, last.owner);
            if commits_of(before, last.owner).len() > 0 {
                let at = commits_of(before, last.owner)[0];
                assert(before[at as int].owner == last.owner);
                assert(names.contains(before[at as int].owner));
            }
        }
    }
}

/// Who the authors are and which commits each refers to depends on the names
/// that the commits carry and on nothing else.
pub proof fn lemma_same_owners(a: Seq<CommitView>, b: Seq<CommitView>)
    requires
        a.len() == b.len(),
        forall|i: int| 0 <= i < a.len() ==> (#[trigger] a[i]).owner == b[i].owner,
    ensures
        owners(a) == owners(b),
        forall|name: Seq<char>| #[trigger] commits_of(a, name) == commits_of(b, name),
    decreases a.len(),
{
    if a.len() > 0 {
        lemma_same_owners(a.drop_last(), b.drop_last());
        assert(a.last().owner == a[a.len() - 1].owner);
        assert forall|name: Seq<char>| #[trigger] commits_of(a, name) == commits_of(b, name) by {
            assert(commits_of(a.drop_last(), name) == commits_of(b.drop_last(), name));
        }
    } else {
        assert forall|name: Seq<char>| #[trigger] commits_of(a, name) == commits_of(b, name) by {}
    }
}

/// `commit` with the line counts `stats` in place of its own.
pub open spec fn with_stats(commit: CommitView, stats: Option<Stats>) -> CommitView {
    CommitView { stats, ..commit }
}

/// What the line counts of one commit do to the totals over `refs`: with
/// other counts for the commit at `at`, the totals change by that commit's
/// own lines where `refs` holds `at`, and stay as they are where it does not.
pub proof fn lemma_stats_of_one_commit(
    commits: Seq<CommitView>,
    refs: Seq<usize>,
    at: int,
    stats: Option<Stats>,
)
    requires
        0 <= at < commits.len() <= usize::MAX,
        all_within(refs, commits.len()),
        forall|k: int, l: int| 0 <= k < l < refs.len() ==> refs[k] < refs[l],
    ensures
        ({
            let changed = commits.update(at, with_stats(commits[at], stats));
            if refs.contains(at as usize) {
                &&& insertions_at(changed, refs) + inserted(commits[at]) == insertions_at(
                    commits,
                    refs,
                ) + inserted(changed[at])
                &&& deletions_at(changed, refs) + deleted(commits[at]) == deletions_at(
                    commits,
                    refs,
                ) + deleted(changed[at])
            } else {
                &&& insertions_at(changed, refs) == insertions_at(commits, refs)
                &&& deletions_at(changed, refs) == deletions_at(commits, refs)
            }
        }),
    decreases refs.len(),
{
    let changed = commits.update(at, with_stats(commits[at], stats));
    if refs.len() > 0 {
        let before = refs.drop_last();
        lemma_stats_of_one_commit(commits, before, at, stats);
        let last = refs.last();
        assert(last == refs[refs.len() - 1]);
        if last == at as usize {
            if before.contains(at as usize) {
                let k = choose|k: int| 0 <= k < before.len() && before[k] == at as usize;
                assert(refs[k] == before[k]);
                assert(refs[k] < refs[refs.len() - 1]);
            }
            assert(refs.contains(at as usize));
        } else {
            assert(changed[last as int] == commits[last as int]);
            if refs.contains(at as usize) {
                let k = choose|k: int| 0 <= k < refs.len() && refs[k] == at as usize;
                assert(before[k] == at as usize);
            } else if before.contains(at as usize) {
                let k = choose|k: int| 0 <= k < before.len() && before[k] == at as usize;
                assert(refs[k] == at as usize);
            }
        }
    } else {
        assert(!refs.contains(at as usize));
    }
}

/// A commit whose fetch failed counts as a commit of its author and adds no
/// lines. Take the commit at `at` once without line counts, as a failed
/// fetch leaves it, and once with the counts `stats`, as a fetch would have
/// left it. In both cases the authors are the same and refer to the same
/// commits, the commit at `at` among those of its author; and the totals of
/// that author differ by exactly `stats`.
pub proof fn lemma_failed_fetch_adds_no_lines(commits: Seq<CommitView>, at: int, stats: Stats)
    requires
        0 <= at < commits.len() <= usize::MAX,
    ensures
        ({
            let failed = commits.update(at, with_stats(commits[at], None));
            let fetched = commits.update(at, with_stats(commits[at], Some(stats)));
            let refs = commits_of(failed, commits[at].owner);
            &&& owners(failed) == owners(fetched)
            &&& commits_of(fetched, commits[at].owner) == refs
            &&& refs.contains(at as usize)
            &&& insertions_at(failed, refs) + stats.insertions == insertions_at(fetched, refs)
            &&& deletions_at(failed, refs) + stats.deletions == deletions_at(fetched, refs)
        }),
{
    let failed = commits.update(at, with_stats(commits[at], None));
    let fetched = commits.update(at, with_stats(commits[at], Some(stats)));
    let refs = commits_of(failed, commits[at].owner);
    lemma_same_owners(failed, fetched);
    lemma_commits_of(failed, commits[at].owner);
    assert(failed[at].owner == commits[at].owner);
    lemma_stats_of_one_commit(failed, refs, at, Some(stats));
    assert(failed.update(at, with_stats(failed[at], Some(stats))) =~= fetched);
}

} // verus!
