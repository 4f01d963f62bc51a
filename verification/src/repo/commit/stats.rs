//! The line counts of one commit's diff.

use vstd::prelude::*;

verus! {

/// How many lines a commit added and how many it removed.
#[derive(Debug)]
pub struct CommitStats {
    insertions: u32,
    deletions: u32,
}

impl CommitStats {
    /// The number of lines added.
    pub closed spec fn insertions(&self) -> u32 {
        self.insertions
    }

    /// The number of lines removed.
    pub closed spec fn deletions(&self) -> u32 {
        self.deletions
    }

    /// The same counts, with `insertions` lines added.
    pub fn set_insertions(self, insertions: u32) -> (stats: Self)
        ensures
            stats.insertions() == insertions,
            stats.deletions() == self.deletions(),
    {
        let mut stats = self;
        stats.insertions = insertions;
        stats
    }

    /// The same counts, with `deletions` lines removed.
    pub fn set_deletions(self, deletions: u32) -> (stats: Self)
        ensures
            stats.insertions() == self.insertions(),
            stats.deletions() == deletions,
    {
        let mut stats = self;
        stats.deletions = deletions;
        stats
    }
}

impl Default for CommitStats {
    /// No line added, none removed.
    fn default() -> (stats: Self)
        ensures
            stats.insertions() == 0,
            stats.deletions() == 0,
    {
        CommitStats { insertions: 0, deletions: 0 }
    }
}

} // verus!
