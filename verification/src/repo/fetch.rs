//! The bookkeeping of a fetch of line counts: which commits wait, which are
//! being fetched, and what came back. At most a fixed number of commits are
//! being fetched at any time.

use crate::repo::commit::CommitView;
use crate::repo::stats::Stats;
use crate::repo::{commit_views, Repo};
use crate::utils::future::Error;
use vstd::prelude::*;

verus! {

/// How many commits are fetched at the same time, unless another limit is
/// given.
pub const DEFAULT_LIMIT: usize = 10;

/// Where the fetch of one commit's line counts stands.
#[derive(Debug, Clone, Copy, PartialEq, Eq, Structural)]
pub enum Slot {
    /// The commit had line counts when the fetch began.
    Present,
    /// The commit waits for its turn.
    Pending,
    /// The commit is being fetched.
    InFlight,
    /// The fetch gave these line counts.
    Fetched(Stats),
    /// The fetch failed: the commit stays without line counts.
    Failed,
}

/// The fetch of the line counts of a repository's commits.
#[derive(Debug)]
pub struct StatsFetcher {
    limit: usize,
    slots: Vec<Slot>,
    running: usize,
    cursor: usize,
    failure: Option<Error>,
}

/// What a fetch holds, as plain values.
pub struct FetchView {
    /// How many commits are fetched at the same time at most.
    pub limit: nat,
    /// One slot for each commit of the repository, in the order of the
    /// commits.
    pub slots: Seq<Slot>,
    /// The error of the first fetch that failed.
    pub failure: Option<Error>,
}

/// What happens to a fetch.
pub enum Event {
    /// The next waiting commit is asked for.
    Start,
    /// The fetch of the commit at a position came back, with line counts or
    /// with an error.
    Record(int, Result<Stats, Error>),
}

/// How many of `slots` are being fetched.
pub open spec fn in_flight(slots: Seq<Slot>) -> nat
    decreases slots.len(),
{
    if slots.len() == 0 {
        0
    } else {
        in_flight(slots.drop_last()) + if slots.last() is InFlight {
            1nat
        } else {
            0nat
        }
    }
}

/// `at` is the first position of `slots` that waits.
pub open spec fn is_first_pending(slots: Seq<Slot>, at: int) -> bool {
    &&& 0 <= at < slots.len()
    &&& slots[at] is Pending
    &&& forall|j: int| 0 <= j < at ==> !(slots[j] is Pending)
}

/// The first position of `slots` that waits, if any does.
pub open spec fn first_pending(slots: Seq<Slot>) -> Option<int> {
    if exists|at: int| is_first_pending(slots, at) {
        Some(choose|at: int| is_first_pending(slots, at))
    } else {
        None
    }
}

/// The slot of a commit when a fetch begins: only a commit without line
/// counts waits to be fetched.
pub open spec fn initial_slot(commit: CommitView) -> Slot {
    if commit.stats is Some {
        Slot::Present
    } else {
        Slot::Pending
    }
}

/// The fetch of `commits` before anything was started.
pub open spec fn initial(commits: Seq<CommitView>, limit: nat) -> FetchView {
    FetchView { limit, slots: commits.map_values(|c: CommitView| initial_slot(c)), failure: None }
}

/// Whether a further commit can be started: one waits, and fewer commits
/// than the limit are being fetched.
pub open spec fn can_start(fetch: FetchView) -> bool {
    in_flight(fetch.slots) < fetch.limit && first_pending(fetch.slots) is Some
}

/// The fetch after the next commit was asked for: where one can be started,
/// the first waiting commit is being fetched; otherwise nothing changes.
pub open spec fn started(fetch: FetchView) -> FetchView {
    if can_start(fetch) {
        FetchView {
            slots: fetch.slots.update(first_pending(fetch.slots).unwrap(), Slot::InFlight),
            ..fetch
        }
    } else {
        fetch
    }
}

/// Whether the commit at `at` is being fetched.
pub open spec fn is_in_flight(fetch: FetchView, at: int) -> bool {
    0 <= at < fetch.slots.len() && fetch.slots[at] is InFlight
}

/// The slot of a commit whose fetch came back with `outcome`.
pub open spec fn settled(outcome: Result<Stats, Error>) -> Slot {
    match outcome {
        Ok(stats) => Slot::Fetched(stats),
        Err(_) => Slot::Failed,
    }
}

/// The first failure of a fetch that has the first failure `failure` so far,
/// after a commit came back with `outcome`.
pub open spec fn first_failure(failure: Option<Error>, outcome: Result<Stats, Error>) -> Option<
    Error,
> {
    match (failure, outcome) {
        (None, Err(error)) => Some(error),
        _ => failure,
    }
}

/// The fetch after the commit at `at` came back with `outcome`. Only a commit
/// that is being fetched can come back; otherwise nothing changes.
pub open spec fn recorded(fetch: FetchView, at: int, outcome: Result<Stats, Error>) -> FetchView {
    if is_in_flight(fetch, at) {
        FetchView {
            slots: fetch.slots.update(at, settled(outcome)),
            failure: first_failure(fetch.failure, outcome),
            ..fetch
        }
    } else {
        fetch
    }
}

/// Some fetch of `slots` failed.
pub open spec fn any_failed(slots: Seq<Slot>) -> bool {
    exists|at: int| 0 <= at < slots.len() && #[trigger] slots[at] is Failed
}

/// Some fetch of `slots` gave line counts.
pub open spec fn any_fetched(slots: Seq<Slot>) -> bool {
    exists|at: int| 0 <= at < slots.len() && #[trigger] slots[at] is Fetched
}

/// The fetch failed as a whole: fetches failed, and none gave line counts.
pub open spec fn failed_entirely(slots: Seq<Slot>) -> bool {
    any_failed(slots) && !any_fetched(slots)
}

/// The fetch after `event`.
pub open spec fn step(fetch: FetchView, event: Event) -> FetchView {
    match event {
        Event::Start => started(fetch),
        Event::Record(at, outcome) => recorded(fetch, at, outcome),
    }
}

/// The fetch after `events`, one after the other.
pub open spec fn after(fetch: FetchView, events: Seq<Event>) -> FetchView
    decreases events.len(),
{
    if events.len() == 0 {
        fetch
    } else {
        step(after(fetch, events.drop_last()), events.last())
    }
}

/// No more commits are being fetched than the limit allows.
pub open spec fn bounded(fetch: FetchView) -> bool {
    in_flight(fetch.slots) <= fetch.limit
}

/// The commit that the merge leaves for `commit` with the slot `slot`: line
/// counts that were fetched are written where the commit has none, and
/// nothing else changes.
pub open spec fn merged(commit: CommitView, slot: Slot) -> CommitView {
    match slot {
        Slot::Fetched(stats) => if commit.stats is None {
            CommitView { stats: Some(stats), ..commit }
        } else {
            commit
        },
        _ => commit,
    }
}

/// Whether `slot` is final: nothing that happens to the fetch changes it.
pub open spec fn is_final(slot: Slot) -> bool {
    slot is Present || slot is Fetched || slot is Failed
}

/// What a change of one slot does to the number of commits being fetched.
pub proof fn lemma_in_flight_update(slots: Seq<Slot>, at: int, slot: Slot)
    requires
        0 <= at < slots.len(),
    ensures
        in_flight(slots.update(at, slot)) + (if slots[at] is InFlight {
            1nat
        } else {
            0nat
        }) == in_flight(slots) + (if slot is InFlight {
            1nat
        } else {
            0nat
        }),
    decreases slots.len(),
{
    let changed = slots.update(at, slot);
    if at == slots.len() - 1 {
        assert(changed.drop_last() =~= slots.drop_last());
    } else {
        lemma_in_flight_update(slots.drop_last(), at, slot);
        assert(changed.drop_last() =~= slots.drop_last().update(at, slot));
    }
}

/// When a fetch begins, no commit is being fetched.
pub proof fn lemma_initial_idle(commits: Seq<CommitView>, limit: nat)
    ensures
        in_flight(initial(commits, limit).slots) == 0,
    decreases commits.len(),
{
    if commits.len() > 0 {
        lemma_initial_idle(commits.drop_last(), limit);
        assert(initial(commits, limit).slots.drop_last() =~= initial(
            commits.drop_last(),
            limit,
        ).slots);
    }
}

/// An event leaves a fetch within its limit, and leaves the limit and the
/// number of slots as they are. A slot that is final stays as it is: what was
/// fetched for a commit is never overwritten.
pub proof fn lemma_step_keeps_bound(fetch: FetchView, event: Event)
    requires
        bounded(fetch),
    ensures
        bounded(step(fetch, event)),
        step(fetch, event).limit == fetch.limit,
        step(fetch, event).slots.len() == fetch.slots.len(),
        forall|at: int|
            0 <= at < fetch.slots.len() && is_final(#[trigger] fetch.slots[at]) ==> step(
                fetch,
                event,
            ).slots[at] == fetch.slots[at],
{
    match event {
        Event::Start => {
            if can_start(fetch) {
                let at = first_pending(fetch.slots).unwrap();
                assert(is_first_pending(fetch.slots, at));
                lemma_in_flight_update(fetch.slots, at, Slot::InFlight);
            }
        },
        Event::Record(at, outcome) => {
            if is_in_flight(fetch, at) {
                lemma_in_flight_update(fetch.slots, at, settled(outcome));
            }
        },
    }
}

/// From the beginning of a fetch on, after any events whatever, never more
/// commits are being fetched than the limit allows.
pub proof fn lemma_never_above_limit(commits: Seq<CommitView>, limit: nat, events: Seq<Event>)
    ensures
        bounded(after(initial(commits, limit), events)),
        after(initial(commits, limit), events).limit == limit,
        after(initial(commits, limit), events).slots.len() == commits.len(),
    decreases events.len(),
{
    if events.len() == 0 {
        lemma_initial_idle(commits, limit);
    } else {
        lemma_never_above_limit(commits, limit, events.drop_last());
        lemma_step_keeps_bound(after(initial(commits, limit), events.drop_last()), events.last());
    }
}

impl View for StatsFetcher {
    type V = FetchView;

    closed spec fn view(&self) -> FetchView {
        FetchView { limit: self.limit as nat, slots: self.slots@, failure: self.failure }
    }
}

impl StatsFetcher {
    /// The fields agree: the count of commits being fetched is kept, it is
    /// within the limit, no commit before the cursor waits, and a first
    /// failure is held exactly if a fetch failed.
    pub closed spec fn wf(&self) -> bool {
        &&& self.running == in_flight(self.slots@)
        &&& self.running <= self.limit
        &&& self.cursor <= self.slots@.len()
        &&& forall|j: int| 0 <= j < self.cursor ==> !(self.slots@[j] is Pending)
        &&& self.failure is Some <==> any_failed(self.slots@)
    }

    /// A well-formed fetch is within its limit, and holds its first failure
    /// exactly if a fetch failed.
    pub proof fn lemma_wf(&self)
        requires
            self.wf(),
        ensures
            bounded(self@),
            self@.failure is Some <==> any_failed(self@.slots),
    {
    }

    /// Begins a fetch for the commits of `repo` that have no line counts, at
    /// most `limit` of them at a time.
    pub fn new(repo: &Repo, limit: usize) -> (fetch: StatsFetcher)
        ensures
            fetch.wf(),
            fetch@ == initial(commit_views(repo.commits@), limit as nat),
            in_flight(fetch@.slots) == 0,
    {
        let ghost commits = commit_views(repo.commits@);
        let mut slots: Vec<Slot> = Vec::new();
        let mut i: usize = 0;
        while i < repo.commits.len()
            invariant
                i <= repo.commits.len(),
                commits == commit_views(repo.commits@),
                slots@.len() == i,
                forall|j: int| 0 <= j < i ==> slots@[j] == initial_slot(#[trigger] commits[j]),
            decreases repo.commits.len() - i,
        {
            assert(commits[i as int] == repo.commits@[i as int]@);
            let slot = match repo.commits[i].stats {
                Some(_) => Slot::Present,
                None => Slot::Pending,
            };
            slots.push(slot);
            i += 1;
        }
        proof {
            assert(slots@ =~= initial(commits, limit as nat).slots);
            lemma_initial_idle(commits, limit as nat);
            if any_failed(slots@) {
                let k = choose|k: int| 0 <= k < slots@.len() && #[trigger] slots@[k] is Failed;
                assert(slots@[k] == initial_slot(commits[k]));
            }
        }
        StatsFetcher { limit, slots, running: 0, cursor: 0, failure: None }
    }

    /// How many commits are fetched at the same time at most.
    pub fn limit(&self) -> (limit: usize)
        ensures
            limit == self@.limit,
    {
        self.limit
    }

    /// How many commits the fetch has a slot for.
    pub fn len(&self) -> (len: usize)
        ensures
            len == self@.slots.len(),
    {
        self.slots.len()
    }

    /// How many commits are being fetched.
    pub fn in_flight(&self) -> (running: usize)
        requires
            self.wf(),
        ensures
            running == in_flight(self@.slots),
            running <= self@.limit,
    {
        self.running
    }

    /// The slot of the commit at `at`, `None` where the fetch has no such
    /// slot.
    pub fn slot(&self, at: usize) -> (slot: Option<Slot>)
        ensures
            slot == if at < self@.slots.len() {
                Some(self@.slots[at as int])
            } else {
                None
            },
    {
        if at < self.slots.len() {
            Some(self.slots[at])
        } else {
            None
        }
    }

    /// Asks for the next commit to fetch. Where a commit waits and fewer
    /// commits than the limit are being fetched, the first waiting commit is
    /// from now on being fetched, and its position is returned: the caller
    /// starts its fetch. Otherwise nothing changes and the result is `None`.
    pub fn start_next(&mut self) -> (next: Option<usize>)
        requires
            old(self).wf(),
        ensures
            final(self).wf(),
            final(self)@ == started(old(self)@),
            bounded(final(self)@),
            match next {
                Some(at) => can_start(old(self)@) && first_pending(old(self)@.slots) == Some(
                    at as int,
                ),
                None => !can_start(old(self)@),
            },
    {
        if self.running >= self.limit {
            return None;
        }
        while self.cursor < self.slots.len() && !matches!(self.slots[self.cursor], Slot::Pending)
            invariant
                self.wf(),
                self.slots == old(self).slots,
                self.limit == old(self).limit,
                self.running == old(self).running,
                self.failure == old(self).failure,
                self.running < self.limit,
            decreases self.slots.len() - self.cursor,
        {
            self.cursor += 1;
        }
        if self.cursor >= self.slots.len() {
            proof {
                if exists|at: int| is_first_pending(self.slots@, at) {
                    let at = choose|at: int| is_first_pending(self.slots@, at);
                    assert(!(self.slots@[at] is Pending));
                }
            }
            return None;
        }
        let at = self.cursor;
        proof {
            assert(is_first_pending(self.slots@, at as int));
            let chosen = choose|c: int| is_first_pending(self.slots@, c);
            assert(is_first_pending(self.slots@, chosen));
            if chosen < at {
                assert(!(self.slots@[chosen] is Pending));
            } else if at < chosen {
                assert(!(self.slots@[at as int] is Pending));
            }
            lemma_in_flight_update(self.slots@, at as int, Slot::InFlight);
        }
        let ghost before = self.slots@;
        self.slots.set(at, Slot::InFlight);
        self.running += 1;
        proof {
            if any_failed(before) {
                let k = choose|k: int| 0 <= k < before.len() && #[trigger] before[k] is Failed;
                assert(self.slots@[k] is Failed);
            }
            if any_failed(self.slots@) {
                let k = choose|k: int|
                    0 <= k < self.slots@.len() && #[trigger] self.slots@[k] is Failed;
                assert(before[k] is Failed);
            }
        }
        Some(at)
    }

    /// Records that the fetch of the commit at `at` came back: with line
    /// counts, or with the error that made it fail. Only a commit that is
    /// being fetched can come back; for any other position the result is a
    /// `DanglingReference` and nothing changes. A failure is no error of
    /// the fetch: the commit stays without line counts.
    pub fn record(&mut self, at: usize, outcome: Result<Stats, Error>) -> (done: Result<(), Error>)
        requires
            old(self).wf(),
        ensures
            final(self).wf(),
            final(self)@ == recorded(old(self)@, at as int, outcome),
            bounded(final(self)@),
            match done {
                Ok(_) => is_in_flight(old(self)@, at as int),
                Err(Error::DanglingReference) => !is_in_flight(old(self)@, at as int),
                Err(_) => false,
            },
    {
        if at >= self.slots.len() || !matches!(self.slots[at], Slot::InFlight) {
            return Err(Error::DanglingReference);
        }
        let ghost before = self.slots@;
        proof {
            lemma_in_flight_update(self.slots@, at as int, settled(outcome));
        }
        match outcome {
            Ok(stats) => {
                self.slots.set(at, Slot::Fetched(stats));
            },
            Err(error) => {
                self.slots.set(at, Slot::Failed);
                if self.failure.is_none() {
                    self.failure = Some(error);
                }
                assert(self.slots@[at as int] is Failed);
            },
        }
        self.running -= 1;
        proof {
            if any_failed(before) {
                let k = choose|k: int| 0 <= k < before.len() && #[trigger] before[k] is Failed;
                assert(self.slots@[k] is Failed);
            }
            if outcome is Ok && any_failed(self.slots@) {
                let k = choose|k: int|
                    0 <= k < self.slots@.len() && #[trigger] self.slots@[k] is Failed;
                assert(before[k] is Failed);
            }
        }
        Ok(())
    }

    /// Ends the fetch and hands out the error of the first fetch that
    /// failed, if any did.
    pub fn into_failure(self) -> (failure: Option<Error>)
        ensures
            failure == self@.failure,
    {
        self.failure
    }

    /// Whether the fetch is over: no commit is being fetched and none can be
    /// started.
    pub fn is_finished(&self) -> (finished: bool)
        requires
            self.wf(),
        ensures
            finished == (in_flight(self@.slots) == 0 && !can_start(self@)),
    {
        if self.running > 0 {
            return false;
        }
        if self.limit == 0 {
            return true;
        }
        let mut i: usize = self.cursor;
        while i < self.slots.len()
            invariant
                self.cursor <= i <= self.slots.len(),
                self.wf(),
                self.running == 0,
                self.limit > 0,
                forall|j: int| 0 <= j < i ==> !(self.slots@[j] is Pending),
            decreases self.slots.len() - i,
        {
            if matches!(self.slots[i], Slot::Pending) {
                proof {
                    assert(is_first_pending(self.slots@, i as int));
                }
                return false;
            }
            i += 1;
        }
        proof {
            if exists|at: int| is_first_pending(self.slots@, at) {
                let at = choose|at: int| is_first_pending(self.slots@, at);
                assert(!(self.slots@[at] is Pending));
            }
        }
        true
    }
}

} // verus!
