//! The bounded-concurrency job runner.
//!
//! An [`Updater`] owns an ordered queue of migration jobs, a concurrency
//! limit and the path of the external tool binary. Spawning and polling of
//! the external processes is outside work that a host performs; the runner
//! decides everything else: which job to dispatch next (strict first-in,
//! first-out over pending jobs), when capacity allows a dispatch, and how
//! each poll outcome changes a job's state. The host hands each process a
//! handle number, polls the processes the runner names, and reports the
//! outcomes back.
use vstd::prelude::*;

use crate::messages::exit_error_message;
use crate::messages::exit_error_string;
use crate::messages::poll_error_message;
use crate::messages::poll_error_string;
use crate::messages::spawn_error_message;
use crate::messages::spawn_error_string;
use crate::versions::matching_version_names;
use crate::versions::is_version_name;
use crate::versions::DirEntryInfo;
use crate::versions::DiscoveryError;

verus! {

/// The lifecycle state of one job. A job starts `Pending`, becomes
/// `Processing` with the handle of its spawned process, and ends in
/// `Success` or `Error`; the two final states are never left again.
#[derive(Debug)]
pub enum UpdateState {
    Pending,
    Processing(usize),
    Success,
    Error(String),
}

/// The state category of a job, without any payload.
#[derive(Clone, Copy, Debug, PartialEq, Eq, Structural)]
pub enum UpdateStateKind {
    Pending,
    Processing,
    Success,
    Error,
}

impl UpdateState {
    /// The category of this state.
    pub open spec fn kind_spec(&self) -> UpdateStateKind {
        match self {
            UpdateState::Pending => UpdateStateKind::Pending,
            UpdateState::Processing(_) => UpdateStateKind::Processing,
            UpdateState::Success => UpdateStateKind::Success,
            UpdateState::Error(_) => UpdateStateKind::Error,
        }
    }

    /// Cheap discriminant accessor: the category without the payload.
    #[verifier::when_used_as_spec(kind_spec)]
    pub fn kind(&self) -> (k: UpdateStateKind)
        ensures
            k == self.kind_spec(),
    {
        match self {
            UpdateState::Pending => UpdateStateKind::Pending,
            UpdateState::Processing(_) => UpdateStateKind::Processing,
            UpdateState::Success => UpdateStateKind::Success,
            UpdateState::Error(_) => UpdateStateKind::Error,
        }
    }
}

/// The allowed single-step changes of a job's state: stay put, leave
/// `Pending` for `Processing` (dispatch) or `Error` (failed spawn), or
/// leave `Processing` for `Success` or `Error` (process finished or could
/// not be polled). In particular a job never leaves `Success` or `Error`.
pub open spec fn transition_ok(pre: UpdateState, post: UpdateState) -> bool {
    ||| post == pre
    ||| (pre is Pending && (post is Processing || post is Error))
    ||| (pre is Processing && (post is Success || post is Error))
}

/// Law: the two terminal states are never left. Any allowed step out of
/// `Success` or `Error` keeps the state exactly as it was.
pub proof fn lemma_terminal_states_are_final(pre: UpdateState, post: UpdateState)
    requires
        transition_ok(pre, post),
        pre is Success || pre is Error,
    ensures
        post == pre,
{
}

/// One job: the project it migrates and where it stands.
#[derive(Debug)]
pub struct Update {
    pub project: String,
    pub state: UpdateState,
}

/// What the host observed when it polled one running process.
#[derive(Debug)]
pub enum PollOutcome {
    /// The process exited with this code.
    Exited(i32),
    /// The process has not finished yet.
    StillRunning,
    /// The status check itself failed; the text names the failure.
    PollFailed(String),
}

/// How many jobs of `q` are currently `Processing`.
pub open spec fn count_running(q: Seq<Update>) -> int
    decreases q.len(),
{
    if q.len() == 0 {
        0
    } else {
        count_running(q.drop_last()) + if q.last().state is Processing {
            1int
        } else {
            0int
        }
    }
}

/// How many jobs of `q` have left the `Pending` state.
pub open spec fn count_non_pending(q: Seq<Update>) -> int
    decreases q.len(),
{
    if q.len() == 0 {
        0
    } else {
        count_non_pending(q.drop_last()) + if q.last().state is Pending {
            0int
        } else {
            1int
        }
    }
}

proof fn lemma_count_running_bounds(q: Seq<Update>)
    ensures
        0 <= count_running(q) <= q.len(),
    decreases q.len(),
{
    if q.len() > 0 {
        lemma_count_running_bounds(q.drop_last());
    }
}

proof fn lemma_count_non_pending_bounds(q: Seq<Update>)
    ensures
        0 <= count_non_pending(q) <= q.len(),
    decreases q.len(),
{
    if q.len() > 0 {
        lemma_count_non_pending_bounds(q.drop_last());
    }
}

/// Extending the counted prefix by one element adds that element's
/// contribution.
proof fn lemma_count_running_take_step(q: Seq<Update>, i: int)
    requires
        0 <= i < q.len(),
    ensures
        count_running(q.take(i + 1)) == count_running(q.take(i)) + if q[i].state is Processing {
            1int
        } else {
            0int
        },
{
    assert(q.take(i + 1).drop_last() =~= q.take(i));
    assert(q.take(i + 1).last() == q[i]);
}

/// Counting a whole sequence as its own prefix.
proof fn lemma_count_running_take_full(q: Seq<Update>)
    ensures
        count_running(q.take(q.len() as int)) == count_running(q),
{
    assert(q.take(q.len() as int) =~= q);
}

/// A prefix never holds more running jobs than the whole sequence.
proof fn lemma_count_running_take_le(q: Seq<Update>, i: int)
    requires
        0 <= i <= q.len(),
    ensures
        count_running(q.take(i)) <= count_running(q),
    decreases q.len() - i,
{
    if i == q.len() {
        lemma_count_running_take_full(q);
    } else {
        lemma_count_running_take_step(q, i);
        lemma_count_running_take_le(q, i + 1);
    }
}

/// Replacing one element changes the count by the difference of the two
/// elements' contributions.
proof fn lemma_count_running_update(q: Seq<Update>, i: int, u: Update)
    requires
        0 <= i < q.len(),
    ensures
        count_running(q.update(i, u)) == count_running(q) - (if q[i].state is Processing {
            1int
        } else {
            0int
        }) + (if u.state is Processing {
            1int
        } else {
            0int
        }),
    decreases q.len(),
{
    let q2 = q.update(i, u);
    if i == q.len() - 1 {
        assert(q2.drop_last() =~= q.drop_last());
        assert(q2.last() == u);
    } else {
        assert(q2.drop_last() =~= q.drop_last().update(i, u));
        assert(q2.last() == q.last());
        lemma_count_running_update(q.drop_last(), i, u);
    }
}

proof fn lemma_count_non_pending_update(q: Seq<Update>, i: int, u: Update)
    requires
        0 <= i < q.len(),
    ensures
        count_non_pending(q.update(i, u)) == count_non_pending(q) - (if q[i].state is Pending {
            0int
        } else {
            1int
        }) + (if u.state is Pending {
            0int
        } else {
            1int
        }),
    decreases q.len(),
{
    let q2 = q.update(i, u);
    if i == q.len() - 1 {
        assert(q2.drop_last() =~= q.drop_last());
        assert(q2.last() == u);
    } else {
        assert(q2.drop_last() =~= q.drop_last().update(i, u));
        assert(q2.last() == q.last());
        lemma_count_non_pending_update(q.drop_last(), i, u);
    }
}

/// If every running job of `q1` is running in `q2` at the same position,
/// `q1` has at most as many running jobs.
proof fn lemma_count_running_le_pointwise(q1: Seq<Update>, q2: Seq<Update>)
    requires
        q1.len() == q2.len(),
        forall|i: int|
            0 <= i < q1.len() && (#[trigger] q1[i].state) is Processing ==> q2[i].state
                is Processing,
    ensures
        count_running(q1) <= count_running(q2),
    decreases q1.len(),
{
    if q1.len() > 0 {
        assert(forall|i: int|
            0 <= i < q1.len() - 1 && (#[trigger] q1.drop_last()[i].state) is Processing
                ==> q2.drop_last()[i].state is Processing);
        lemma_count_running_le_pointwise(q1.drop_last(), q2.drop_last());
        assert(q1.last() == q1[q1.len() - 1]);
    }
}

/// Sequences whose jobs agree position by position on having left
/// `Pending` have the same count of such jobs.
proof fn lemma_count_non_pending_pointwise(q1: Seq<Update>, q2: Seq<Update>)
    requires
        q1.len() == q2.len(),
        forall|i: int|
            0 <= i < q1.len() ==> ((#[trigger] q1[i].state) is Pending <==> (
            #[trigger] q2[i].state) is Pending),
    ensures
        count_non_pending(q1) == count_non_pending(q2),
    decreases q1.len(),
{
    if q1.len() > 0 {
        assert(forall|i: int|
            0 <= i < q1.len() - 1 ==> ((#[trigger] q1.drop_last()[i].state) is Pending <==> (
            #[trigger] q2.drop_last()[i].state) is Pending));
        lemma_count_non_pending_pointwise(q1.drop_last(), q2.drop_last());
        assert(q1.last() == q1[q1.len() - 1]);
    }
}

/// A queue that still holds a pending job has strictly fewer non-pending
/// jobs than members.
proof fn lemma_count_non_pending_lt_len(q: Seq<Update>, i: int)
    requires
        0 <= i < q.len(),
        q[i].state is Pending,
    ensures
        count_non_pending(q) <= q.len() - 1,
    decreases q.len(),
{
    if i == q.len() - 1 {
        lemma_count_non_pending_bounds(q.drop_last());
    } else {
        lemma_count_non_pending_lt_len(q.drop_last(), i);
    }
}

/// Whether the job at `idx` is the one dispatch may start next: it is
/// pending, and no earlier-enqueued job is still pending. Dispatch order
/// is strict first-in, first-out over pending jobs.
pub open spec fn may_dispatch(q: Seq<Update>, idx: int) -> bool {
    &&& 0 <= idx < q.len()
    &&& q[idx].state is Pending
    &&& (forall|h: int| 0 <= h < idx ==> !((#[trigger] q[h].state) is Pending))
}

/// Law: first-in, first-out fairness. While an earlier-enqueued job is
/// still pending, no later job can be dispatched.
pub proof fn lemma_fifo_fairness(q: Seq<Update>, i: int, j: int)
    requires
        0 <= i < j < q.len(),
        q[i].state is Pending,
    ensures
        !may_dispatch(q, j),
{
}

/// The bounded-concurrency job runner.
#[derive(Debug)]
pub struct Updater {
    /// The jobs, in enqueue order. The order decides dispatch priority.
    pub queue: Vec<Update>,
    /// Resolved path of the external tool binary.
    pub unity: String,
    /// Hard ceiling on simultaneously running jobs.
    pub max_process: usize,
    /// Next process handle to assign; every handle is used at most once.
    pub next_handle: usize,
}

impl Updater {
    /// The concurrency limit, for use in contracts.
    pub closed spec fn limit(&self) -> int {
        self.max_process as int
    }

    /// The resolved tool path, for use in contracts.
    pub closed spec fn tool(&self) -> Seq<char> {
        self.unity@
    }

    /// Well-formedness: the concurrency limit is positive and never
    /// exceeded, and no two running jobs share a process handle.
    pub closed spec fn inv(&self) -> bool {
        &&& self.max_process >= 1
        &&& count_running(self.queue@) <= self.max_process
        &&& self.next_handle <= count_non_pending(self.queue@)
        &&& (forall|i: int|
            0 <= i < self.queue@.len() && (#[trigger] self.queue@[i].state) is Processing
                ==> self.queue@[i].state->Processing_0 < self.next_handle)
        &&& (forall|i: int, j: int|
            0 <= i < j < self.queue@.len() && (#[trigger] self.queue@[i].state) is Processing && (
            #[trigger] self.queue@[j].state) is Processing
                ==> self.queue@[i].state->Processing_0 != self.queue@[j].state->Processing_0)
    }

    /// Law: bounded concurrency. A well-formed runner never has more
    /// running jobs than its concurrency limit, whatever sequence of
    /// operations produced it.
    pub proof fn lemma_bounded_concurrency(&self)
        requires
            self.inv(),
        ensures
            count_running(self.queue@) <= self.limit(),
    {
    }

    /// Law: the runner never holds two handles for the same process —
    /// the handles of two distinct running jobs differ.
    pub proof fn lemma_handles_distinct(&self, i: int, j: int)
        requires
            self.inv(),
            0 <= i < j < self.queue@.len(),
            self.queue@[i].state is Processing,
            self.queue@[j].state is Processing,
        ensures
            self.queue@[i].state->Processing_0 != self.queue@[j].state->Processing_0,
    {
    }

    /// Creates a runner for the tool installed under `version_path`, with
    /// an empty queue and the given positive concurrency limit.
    pub fn new(version_path: &str, max_process: usize) -> (r: Updater)
        requires
            max_process >= 1,
        ensures
            r.inv(),
            r.queue@.len() == 0,
            r.limit() == max_process as int,
            r.tool() == version_path@ + "/Editor/Unity.exe"@,
    {
        let mut unity = String::from_str(version_path);
        unity.append("/Editor/Unity.exe");
        Updater { queue: Vec::new(), unity, max_process, next_handle: 0 }
    }

    /// The resolved path of the external tool binary.
    pub fn tool_path(&self) -> (p: &String)
        ensures
            p@ == self.tool(),
    {
        &self.unity
    }

    /// Appends a new pending job for `project_path` to the end of the
    /// queue. Queue order is dispatch order.
    pub fn add_to_queue(&mut self, project_path: String)
        requires
            old(self).inv(),
        ensures
            final(self).inv(),
            final(self).queue@ == old(self).queue@.push(
                Update { project: project_path, state: UpdateState::Pending },
            ),
            final(self).limit() == old(self).limit(),
            final(self).tool() == old(self).tool(),
    {
        let u = Update { project: project_path, state: UpdateState::Pending };
        proof {
            let q2 = old(self).queue@.push(u);
            assert(q2.drop_last() =~= old(self).queue@);
            assert(q2.last() == u);
        }
        self.queue.push(u);
    }

    /// How many jobs are currently running.
    pub fn running_count(&self) -> (c: usize)
        ensures
            c == count_running(self.queue@),
    {
        let mut c: usize = 0;
        let mut i: usize = 0;
        while i < self.queue.len()
            invariant
                0 <= i <= self.queue@.len(),
                c <= i,
                c == count_running(self.queue@.take(i as int)),
            decreases self.queue@.len() - i,
        {
            proof {
                lemma_count_running_take_step(self.queue@, i as int);
            }
            if self.queue[i].state.kind() == UpdateStateKind::Processing {
                c = c + 1;
            }
            i = i + 1;
        }
        proof {
            lemma_count_running_take_full(self.queue@);
        }
        c
    }

    /// The job the dispatch step should start next: the earliest-enqueued
    /// pending job — strict first-in, first-out — and only while a
    /// concurrency slot is free. `None` exactly when capacity is used up
    /// or no job is pending.
    pub fn next_to_dispatch(&self) -> (r: Option<usize>)
        requires
            self.inv(),
        ensures
            match r {
                Option::Some(i) => {
                    &&& may_dispatch(self.queue@, i as int)
                    &&& count_running(self.queue@) < self.limit()
                },
                Option::None => count_running(self.queue@) >= self.limit() || (forall|i: int|
                    0 <= i < self.queue@.len() ==> !((#[trigger] self.queue@[i].state)
                        is Pending)),
            },
    {
        let rc = self.running_count();
        if rc >= self.max_process {
            return None;
        }
        let mut i: usize = 0;
        while i < self.queue.len()
            invariant
                0 <= i <= self.queue@.len(),
                count_running(self.queue@) < self.limit(),
                forall|h: int| 0 <= h < i ==> !((#[trigger] self.queue@[h].state) is Pending),
            decreases self.queue@.len() - i,
        {
            if self.queue[i].state.kind() == UpdateStateKind::Pending {
                return Some(i);
            }
            i = i + 1;
        }
        None
    }

    /// Records that the host successfully spawned the external process for
    /// the job at `idx`, which becomes running, and hands out a fresh
    /// process handle for it. Dispatch is first-in, first-out — `idx` must
    /// be the earliest pending job — and consumes a concurrency slot, so a
    /// free slot is required.
    pub fn mark_spawned(&mut self, idx: usize) -> (h: usize)
        requires
            old(self).inv(),
            may_dispatch(old(self).queue@, idx as int),
            count_running(old(self).queue@) < old(self).limit(),
        ensures
            final(self).inv(),
            final(self).queue@ == old(self).queue@.update(
                idx as int,
                Update {
                    project: old(self).queue@[idx as int].project,
                    state: UpdateState::Processing(h),
                },
            ),
            count_running(final(self).queue@) == count_running(old(self).queue@) + 1,
            forall|i: int|
                0 <= i < old(self).queue@.len() && (#[trigger] old(self).queue@[i].state)
                    is Processing ==> old(self).queue@[i].state->Processing_0 != h,
            forall|i: int|
                0 <= i < old(self).queue@.len() ==> transition_ok(
                    old(self).queue@[i].state,
                    #[trigger] final(self).queue@[i].state,
                ),
            final(self).limit() == old(self).limit(),
            final(self).tool() == old(self).tool(),
    {
        let n = self.queue.len();
        let h = self.next_handle;
        proof {
            lemma_count_non_pending_lt_len(self.queue@, idx as int);
            assert(h + 1 <= n);
        }
        self.next_handle = h + 1;
        self.queue[idx].state = UpdateState::Processing(h);
        proof {
            let qold = old(self).queue@;
            let u = Update {
                project: qold[idx as int].project,
                state: UpdateState::Processing(h),
            };
            assert(self.queue@[idx as int] == u);
            assert(self.queue@ =~= qold.update(idx as int, u));
            lemma_count_running_update(qold, idx as int, u);
            lemma_count_non_pending_update(qold, idx as int, u);
        }
        h
    }

    /// Records that spawning the external process for the job at `idx` —
    /// the earliest pending one — failed; the job becomes `Error` at once
    /// and never runs. The failed attempt does not consume a concurrency
    /// slot, so dispatch may go on with later pending jobs.
    pub fn mark_spawn_failed(&mut self, idx: usize, detail: &str)
        requires
            old(self).inv(),
            may_dispatch(old(self).queue@, idx as int),
        ensures
            final(self).inv(),
            final(self).queue@.len() == old(self).queue@.len(),
            forall|i: int|
                0 <= i < old(self).queue@.len() && i != idx ==> final(self).queue@[i] == old(
                    self,
                ).queue@[i],
            final(self).queue@[idx as int].project == old(self).queue@[idx as int].project,
            final(self).queue@[idx as int].state is Error,
            final(self).queue@[idx as int].state->Error_0@ == spawn_error_message(detail@),
            count_running(final(self).queue@) == count_running(old(self).queue@),
            forall|i: int|
                0 <= i < old(self).queue@.len() ==> transition_ok(
                    old(self).queue@[i].state,
                    #[trigger] final(self).queue@[i].state,
                ),
            final(self).limit() == old(self).limit(),
            final(self).tool() == old(self).tool(),
    {
        let msg = spawn_error_string(detail);
        self.queue[idx].state = UpdateState::Error(msg);
        proof {
            let qold = old(self).queue@;
            let u = self.queue@[idx as int];
            assert(self.queue@ =~= qold.update(idx as int, u));
            lemma_count_running_update(qold, idx as int, u);
            lemma_count_non_pending_update(qold, idx as int, u);
        }
    }

    /// Whether any job is currently running.
    pub fn occupied(&self) -> (r: bool)
        ensures
            r == (count_running(self.queue@) > 0),
    {
        self.running_count() > 0
    }
}

/// How the state of one running job must change under one poll outcome:
/// exit code zero means success, any other exit code records a failure
/// message naming the code, a failed status check records a failure
/// message naming the check's error, and a process that has not finished
/// leaves the job exactly as it was.
pub open spec fn polled_ok(pre: UpdateState, o: PollOutcome, post: UpdateState) -> bool
    recommends
        pre is Processing,
{
    match o {
        PollOutcome::StillRunning => post == pre,
        PollOutcome::Exited(c) => if c == 0 {
            post is Success
        } else {
            post is Error && post->Error_0@ == exit_error_message(c as int)
        },
        PollOutcome::PollFailed(m) => post is Error && post->Error_0@ == poll_error_message(m@),
    }
}

proof fn lemma_polled_is_transition(pre: UpdateState, o: PollOutcome, post: UpdateState)
    requires
        pre is Processing,
        polled_ok(pre, o, post),
    ensures
        transition_ok(pre, post),
{
}

impl Updater {
    /// The positions and process handles of all running jobs, in queue
    /// order: the element at position `t` of the result is the `t`-th
    /// running job. These are the processes the host must poll before the
    /// next `update` call.
    pub fn poll_targets(&self) -> (v: Vec<(usize, usize)>)
        ensures
            v@.len() == count_running(self.queue@),
            forall|t: int|
                0 <= t < v@.len() ==> {
                    &&& (#[trigger] v@[t]).0 < self.queue@.len()
                    &&& self.queue@[v@[t].0 as int].state is Processing
                    &&& self.queue@[v@[t].0 as int].state->Processing_0 == v@[t].1
                    &&& count_running(self.queue@.take(v@[t].0 as int)) == t
                },
    {
        let mut v: Vec<(usize, usize)> = Vec::new();
        let mut i: usize = 0;
        while i < self.queue.len()
            invariant
                0 <= i <= self.queue@.len(),
                v@.len() == count_running(self.queue@.take(i as int)),
                forall|t: int|
                    0 <= t < v@.len() ==> {
                        &&& (#[trigger] v@[t]).0 < i
                        &&& self.queue@[v@[t].0 as int].state is Processing
                        &&& self.queue@[v@[t].0 as int].state->Processing_0 == v@[t].1
                        &&& count_running(self.queue@.take(v@[t].0 as int)) == t
                    },
            decreases self.queue@.len() - i,
        {
            proof {
                lemma_count_running_take_step(self.queue@, i as int);
                lemma_count_running_bounds(self.queue@.take(i as int));
            }
            match &self.queue[i].state {
                UpdateState::Processing(h) => {
                    v.push((i, *h));
                },
                _ => {},
            }
            i = i + 1;
        }
        proof {
            lemma_count_running_take_full(self.queue@);
        }
        v
    }

    /// The poll phase of one tick. `outcomes` holds what the host observed
    /// for each running job, in queue order — the order `poll_targets`
    /// reports. Every running job's state changes as `polled_ok` demands;
    /// no other job is touched. Returns whether any job is still running
    /// afterwards. Polling never increases the number of running jobs.
    pub fn update(&mut self, outcomes: &Vec<PollOutcome>) -> (still_busy: bool)
        requires
            old(self).inv(),
            outcomes@.len() == count_running(old(self).queue@),
        ensures
            final(self).inv(),
            final(self).queue@.len() == old(self).queue@.len(),
            forall|i: int|
                0 <= i < old(self).queue@.len() && !((#[trigger] old(self).queue@[i].state)
                    is Processing) ==> final(self).queue@[i] == old(self).queue@[i],
            forall|i: int|
                0 <= i < old(self).queue@.len() && (#[trigger] old(self).queue@[i].state)
                    is Processing ==> polled_ok(
                    old(self).queue@[i].state,
                    outcomes@[count_running(old(self).queue@.take(i))],
                    final(self).queue@[i].state,
                ),
            forall|i: int|
                0 <= i < old(self).queue@.len() ==> (#[trigger] final(self).queue@[i]).project
                    == old(self).queue@[i].project,
            forall|i: int|
                0 <= i < old(self).queue@.len() ==> transition_ok(
                    old(self).queue@[i].state,
                    #[trigger] final(self).queue@[i].state,
                ),
            count_running(final(self).queue@) <= count_running(old(self).queue@),
            still_busy == (count_running(final(self).queue@) > 0),
            final(self).limit() == old(self).limit(),
            final(self).tool() == old(self).tool(),
    {
        let mut idx: usize = 0;
        let mut c: usize = 0;
        while idx < self.queue.len()
            invariant
                old(self).inv(),
                outcomes@.len() == count_running(old(self).queue@),
                0 <= idx <= self.queue@.len(),
                self.queue@.len() == old(self).queue@.len(),
                self.unity == old(self).unity,
                self.max_process == old(self).max_process,
                self.next_handle == old(self).next_handle,
                c == count_running(old(self).queue@.take(idx as int)),
                c <= outcomes@.len(),
                forall|i: int|
                    idx <= i < old(self).queue@.len() ==> #[trigger] self.queue@[i] == old(
                        self,
                    ).queue@[i],
                forall|i: int|
                    0 <= i < idx && !((#[trigger] old(self).queue@[i].state) is Processing)
                        ==> self.queue@[i] == old(self).queue@[i],
                forall|i: int|
                    0 <= i < idx && (#[trigger] old(self).queue@[i].state) is Processing
                        ==> polled_ok(
                        old(self).queue@[i].state,
                        outcomes@[count_running(old(self).queue@.take(i))],
                        self.queue@[i].state,
                    ),
                forall|i: int|
                    0 <= i < idx && (#[trigger] self.queue@[i].state) is Processing
                        ==> self.queue@[i] == old(self).queue@[i],
                forall|i: int|
                    0 <= i < old(self).queue@.len() ==> (#[trigger] self.queue@[i]).project
                        == old(self).queue@[i].project,
            decreases self.queue@.len() - idx,
        {
            proof {
                lemma_count_running_take_step(old(self).queue@, idx as int);
                lemma_count_running_bounds(old(self).queue@.take(idx as int));
            }
            proof {
                assert(self.queue@[idx as int] == old(self).queue@[idx as int]);
            }
            let is_running = self.queue[idx].state.kind() == UpdateStateKind::Processing;
            if is_running {
                proof {
                    lemma_count_running_take_le(old(self).queue@, idx as int + 1);
                }
                match &outcomes[c] {
                    PollOutcome::StillRunning => {},
                    PollOutcome::Exited(code) => {
                        let code = *code;
                        if code == 0 {
                            self.queue[idx].state = UpdateState::Success;
                        } else {
                            self.queue[idx].state = UpdateState::Error(exit_error_string(code));
                        }
                    },
                    PollOutcome::PollFailed(m) => {
                        self.queue[idx].state = UpdateState::Error(
                            poll_error_string(m.as_str()),
                        );
                    },
                }
                c = c + 1;
            }
            idx = idx + 1;
        }
        proof {
            let qold = old(self).queue@;
            let qnew = self.queue@;
            assert forall|i: int|
                0 <= i < qold.len() && (#[trigger] qnew[i].state) is Processing implies qold[i].state
                is Processing by {
                if !(qold[i].state is Processing) {
                    assert(qnew[i] == qold[i]);
                }
            }
            lemma_count_running_le_pointwise(qnew, qold);
            assert forall|i: int|
                0 <= i < qold.len() implies ((#[trigger] qnew[i].state) is Pending <==> (
            #[trigger] qold[i].state) is Pending) by {
                if qold[i].state is Processing {
                    assert(polled_ok(
                        qold[i].state,
                        outcomes@[count_running(qold.take(i))],
                        qnew[i].state,
                    ));
                } else {
                    assert(qnew[i] == qold[i]);
                }
            }
            lemma_count_non_pending_pointwise(qnew, qold);
            assert forall|i: int|
                0 <= i < qold.len() implies transition_ok(
                qold[i].state,
                #[trigger] qnew[i].state,
            ) by {
                if qold[i].state is Processing {
                    lemma_polled_is_transition(
                        qold[i].state,
                        outcomes@[count_running(qold.take(i))],
                        qnew[i].state,
                    );
                } else {
                    assert(qnew[i] == qold[i]);
                }
            }
        }
        self.running_count() > 0
    }

    /// The reconciliation extraction: consumes the runner and returns the
    /// project paths of all still-pending jobs, in queue order, for
    /// re-submission elsewhere. Every other job is dropped from
    /// management; running processes are not touched, let alone killed.
    pub fn drain_pending(self) -> (r: Vec<String>)
        ensures
            r.deep_view() == pending_projects(self.queue@),
    {
        let mut r: Vec<String> = Vec::new();
        let mut i: usize = 0;
        while i < self.queue.len()
            invariant
                0 <= i <= self.queue@.len(),
                r.deep_view() == pending_projects(self.queue@.take(i as int)),
            decreases self.queue@.len() - i,
        {
            proof {
                lemma_pending_projects_take_step(self.queue@, i as int);
            }
            let ghost prev = r.deep_view();
            if self.queue[i].state.kind() == UpdateStateKind::Pending {
                r.push(self.queue[i].project.clone());
                proof {
                    assert(r.deep_view() =~= prev.push(self.queue@[i as int].project@));
                }
            }
            i = i + 1;
        }
        proof {
            assert(self.queue@.take(self.queue@.len() as int) =~= self.queue@);
        }
        r
    }

    /// Filters an already-read directory listing down to the names of
    /// subdirectories that are valid version identifiers, keeping the
    /// listing order. A listing failure for the root itself — the only
    /// propagated discovery failure — is passed through as a discovery
    /// error carrying the underlying cause.
    pub fn find_avaible_unity_versions(listing: Result<Vec<DirEntryInfo>, String>) -> (r: Result<
        Vec<String>,
        DiscoveryError,
    >)
        ensures
            (listing matches Result::Ok(entries) ==> r matches Result::Ok(v) && v.deep_view()
                == matching_version_names(entries@)),
            (listing matches Result::Err(cause) ==> r matches Result::Err(e) && e.message@
                == cause@),
    {
        match listing {
            Result::Ok(entries) => {
                let mut out: Vec<String> = Vec::new();
                let mut i: usize = 0;
                while i < entries.len()
                    invariant
                        0 <= i <= entries@.len(),
                        out.deep_view() == matching_version_names(entries@.take(i as int)),
                    decreases entries@.len() - i,
                {
                    proof {
                        lemma_matching_version_names_take_step(entries@, i as int);
                    }
                    let ghost prev = out.deep_view();
                    let e = &entries[i];
                    if e.is_dir && is_version_name(e.name.as_str()) {
                        out.push(e.name.clone());
                        proof {
                            assert(out.deep_view() =~= prev.push(entries@[i as int].name@));
                        }
                    }
                    i = i + 1;
                }
                proof {
                    assert(entries@.take(entries@.len() as int) =~= entries@);
                }
                Result::Ok(out)
            },
            Result::Err(cause) => Result::Err(DiscoveryError { message: cause }),
        }
    }
}

/// The project paths of the still-pending jobs of `q`, in order.
pub open spec fn pending_projects(q: Seq<Update>) -> Seq<Seq<char>>
    decreases q.len(),
{
    if q.len() == 0 {
        Seq::empty()
    } else {
        let rest = pending_projects(q.drop_last());
        if q.last().state is Pending {
            rest.push(q.last().project@)
        } else {
            rest
        }
    }
}

proof fn lemma_pending_projects_take_step(q: Seq<Update>, i: int)
    requires
        0 <= i < q.len(),
    ensures
        pending_projects(q.take(i + 1)) == if q[i].state is Pending {
            pending_projects(q.take(i)).push(q[i].project@)
        } else {
            pending_projects(q.take(i))
        },
{
    assert(q.take(i + 1).drop_last() =~= q.take(i));
    assert(q.take(i + 1).last() == q[i]);
}

proof fn lemma_matching_version_names_take_step(q: Seq<DirEntryInfo>, i: int)
    requires
        0 <= i < q.len(),
    ensures
        matching_version_names(q.take(i + 1)) == if q[i].is_dir && crate::versions::is_version_id(
            q[i].name@,
        ) {
            matching_version_names(q.take(i)).push(q[i].name@)
        } else {
            matching_version_names(q.take(i))
        },
{
    assert(q.take(i + 1).drop_last() =~= q.take(i));
    assert(q.take(i + 1).last() == q[i]);
}

/// The arguments the external tool is spawned with: non-interactive batch
/// execution, no graphics initialization, terminate when done, and the
/// target project directory.
pub fn spawn_args(project: &str) -> (args: Vec<String>)
    ensures
        args@.len() == 5,
        args@[0]@ == "-batchmode"@,
        args@[1]@ == "-nographics"@,
        args@[2]@ == "-quit"@,
        args@[3]@ == "-projectPath"@,
        args@[4]@ == project@,
{
    let mut args: Vec<String> = Vec::new();
    args.push(String::from_str("-batchmode"));
    args.push(String::from_str("-nographics"));
    args.push(String::from_str("-quit"));
    args.push(String::from_str("-projectPath"));
    args.push(String::from_str(project));
    args
}

} // verus!
