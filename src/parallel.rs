//! The bookkeeping of the worker pool: which worker is busy, how much work is
//! outstanding, and what came back.
use vstd::prelude::*;
use crate::url::WebUrl;
use crate::Error;

verus! {

/// Where a worker stands.
#[derive(PartialEq, Eq, Structural, Clone, Copy, Debug)]
pub enum WorkerState {
    Idle,
    Fetching,
    Exiting,
}

/// What a worker reports to the pool.
pub enum WorkerReport {
    /// The worker is ready for a request.
    Started,
    /// The fetched page linked to these addresses.
    Discovered(Vec<WebUrl>),
    /// The fetched resource was not a page.
    Done,
    /// The fetch, or the writing of what was fetched, failed.
    Failed(Error),
}

/// The kind of a report, without what it carries.
#[derive(PartialEq, Eq, Structural, Clone, Copy, Debug)]
pub enum ReportKind {
    Started,
    Discovered,
    Done,
    Failed,
}

impl WorkerReport {
    pub open spec fn kind(&self) -> ReportKind {
        match self {
            WorkerReport::Started => ReportKind::Started,
            WorkerReport::Discovered(_) => ReportKind::Discovered,
            WorkerReport::Done => ReportKind::Done,
            WorkerReport::Failed(_) => ReportKind::Failed,
        }
    }
}

/// Whether a report concludes a request.
pub open spec fn is_terminal(k: ReportKind) -> bool {
    k != ReportKind::Started
}

/// A worker's state after it sent a report: a busy worker that concludes its
/// request becomes idle; nothing else changes.
pub open spec fn after_report(s: WorkerState, k: ReportKind) -> WorkerState {
    if s == WorkerState::Fetching && is_terminal(k) {
        WorkerState::Idle
    } else {
        s
    }
}

/// The number of busy workers.
pub open spec fn fetching(s: Seq<WorkerState>) -> nat
    decreases s.len(),
{
    if s.len() == 0 {
        0
    } else {
        fetching(s.drop_last()) + if s.last() == WorkerState::Fetching {
            1nat
        } else {
            0nat
        }
    }
}

proof fn lemma_fetching_update(s: Seq<WorkerState>, i: int, v: WorkerState)
    requires
        0 <= i < s.len(),
    ensures
        fetching(s.update(i, v)) + (if s[i] == WorkerState::Fetching {
            1nat
        } else {
            0nat
        }) == fetching(s) + (if v == WorkerState::Fetching {
            1nat
        } else {
            0nat
        }),
    decreases s.len(),
{
    let t = s.update(i, v);
    if i == s.len() - 1 {
        assert(t.drop_last() =~= s.drop_last());
    } else {
        assert(t.drop_last() =~= s.drop_last().update(i, v));
        lemma_fetching_update(s.drop_last(), i, v);
    }
}

proof fn lemma_fetching_bounds(s: Seq<WorkerState>)
    ensures
        fetching(s) <= s.len(),
        (forall|i: int| 0 <= i < s.len() ==> s[i] != WorkerState::Fetching) ==> fetching(s) == 0,
        (exists|i: int| 0 <= i < s.len() && s[i] == WorkerState::Fetching) ==> fetching(s) > 0,
    decreases s.len(),
{
    if s.len() > 0 {
        lemma_fetching_bounds(s.drop_last());
        if exists|i: int| 0 <= i < s.len() && s[i] == WorkerState::Fetching {
            let i = choose|i: int| 0 <= i < s.len() && s[i] == WorkerState::Fetching;
            if i < s.len() - 1 {
                assert(s.drop_last()[i] == s[i]);
            }
        }
        if forall|i: int| 0 <= i < s.len() ==> s[i] != WorkerState::Fetching {
            assert forall|i: int| 0 <= i < s.drop_last().len() implies s.drop_last()[i]
                != WorkerState::Fetching by {
                assert(s.drop_last()[i] == s[i]);
            }
        }
    }
}

/// The pool's bookkeeping for its workers.
pub struct FetchPool {
    t_count: usize,
    states: Vec<WorkerState>,
    work: usize,
    results: Vec<Vec<WebUrl>>,
    errors: Vec<Error>,
}

impl FetchPool {
    /// The outstanding work is the number of busy workers.
    pub open spec fn wf(&self) -> bool {
        &&& self.states_view().len() == self.worker_count()
        &&& self.work_view() == fetching(self.states_view())
    }

    pub closed spec fn states_view(&self) -> Seq<WorkerState> {
        self.states@
    }

    pub closed spec fn work_view(&self) -> nat {
        self.work as nat
    }

    pub closed spec fn worker_count(&self) -> nat {
        self.t_count as nat
    }

    pub closed spec fn results_view(&self) -> Seq<Vec<WebUrl>> {
        self.results@
    }

    pub closed spec fn errors_view(&self) -> Seq<Error> {
        self.errors@
    }

    /// A pool of `t_count` idle workers with no work.
    pub fn new(t_count: usize) -> (r: FetchPool)
        ensures
            r.wf(),
            r.worker_count() == t_count,
            r.work_view() == 0,
            forall|i: int| 0 <= i < t_count ==> r.states_view()[i] == WorkerState::Idle,
            r.results_view().len() == 0,
            r.errors_view().len() == 0,
    {
        let mut states: Vec<WorkerState> = Vec::new();
        let mut i: usize = 0;
        while i < t_count
            invariant
                i <= t_count,
                states@.len() == i,
                forall|j: int| 0 <= j < i ==> states@[j] == WorkerState::Idle,
                fetching(states@) == 0,
            decreases t_count - i,
        {
            proof {
                assert(states@.push(WorkerState::Idle).drop_last() =~= states@);
            }
            states.push(WorkerState::Idle);
            i = i + 1;
        }
        FetchPool { t_count, states, work: 0, results: Vec::new(), errors: Vec::new() }
    }

    pub fn t_count(&self) -> (r: usize)
        ensures
            r == self.worker_count(),
    {
        self.t_count
    }

    /// The number of requests sent and not yet concluded.
    pub fn work(&self) -> (r: usize)
        ensures
            r == self.work_view(),
    {
        self.work
    }

    /// Where worker `w` stands.
    pub fn state(&self, w: usize) -> (r: WorkerState)
        requires
            self.wf(),
            w < self.worker_count(),
        ensures
            r == self.states_view()[w as int],
    {
        self.states[w]
    }

    /// Records that a fetch request went to the idle worker `w`.
    pub fn assign(&mut self, w: usize)
        requires
            old(self).wf(),
            w < old(self).worker_count(),
            old(self).states_view()[w as int] == WorkerState::Idle,
        ensures
            final(self).wf(),
            final(self).worker_count() == old(self).worker_count(),
            final(self).states_view() == old(self).states_view().update(
                w as int,
                WorkerState::Fetching,
            ),
            final(self).work_view() == old(self).work_view() + 1,
            final(self).results_view() == old(self).results_view(),
            final(self).errors_view() == old(self).errors_view(),
    {
        proof {
            lemma_fetching_update(self.states@, w as int, WorkerState::Fetching);
            lemma_fetching_bounds(self.states@.update(w as int, WorkerState::Fetching));
        }
        self.states.set(w, WorkerState::Fetching);
        self.work = self.work + 1;
    }

    /// Records a report of worker `w`: what it discovered is kept for the
    /// next drain, a failure goes to the error list, and a request that it
    /// concludes is no longer outstanding. Says whether the worker is idle.
    pub fn record(&mut self, w: usize, report: WorkerReport) -> (idle: bool)
        requires
            old(self).wf(),
            w < old(self).worker_count(),
        ensures
            final(self).wf(),
            final(self).worker_count() == old(self).worker_count(),
            final(self).states_view() == old(self).states_view().update(
                w as int,
                after_report(old(self).states_view()[w as int], report.kind()),
            ),
            final(self).work_view() == if old(self).states_view()[w as int] == WorkerState::Fetching
                && is_terminal(report.kind()) {
                old(self).work_view() - 1
            } else {
                old(self).work_view() as int
            },
            final(self).results_view() == match report {
                WorkerReport::Discovered(found) => old(self).results_view().push(found),
                _ => old(self).results_view(),
            },
            final(self).errors_view() == match report {
                WorkerReport::Failed(e) => old(self).errors_view().push(e),
                _ => old(self).errors_view(),
            },
            idle == (final(self).states_view()[w as int] == WorkerState::Idle),
    {
        let s = self.states[w];
        let terminal = match &report {
            WorkerReport::Started => false,
            _ => true,
        };
        match report {
            WorkerReport::Discovered(found) => self.results.push(found),
            WorkerReport::Failed(e) => self.errors.push(e),
            _ => {},
        }
        if s == WorkerState::Fetching && terminal {
            proof {
                lemma_fetching_update(self.states@, w as int, WorkerState::Idle);
            }
            self.states.set(w, WorkerState::Idle);
            self.work = self.work - 1;
        } else {
            assert(self.states@.update(w as int, s) =~= self.states@);
        }
        self.states[w] == WorkerState::Idle
    }

    /// Hands over what was discovered since the last call, and forgets it.
    pub fn take_results(&mut self) -> (r: Vec<Vec<WebUrl>>)
        requires
            old(self).wf(),
        ensures
            final(self).wf(),
            r@ == old(self).results_view(),
            final(self).results_view().len() == 0,
            final(self).states_view() == old(self).states_view(),
            final(self).work_view() == old(self).work_view(),
            final(self).worker_count() == old(self).worker_count(),
            final(self).errors_view() == old(self).errors_view(),
    {
        let mut r: Vec<Vec<WebUrl>> = Vec::new();
        r.append(&mut self.results);
        r
    }

    /// Hands over the failures reported since the last call, and forgets them.
    pub fn take_errors(&mut self) -> (r: Vec<Error>)
        requires
            old(self).wf(),
        ensures
            final(self).wf(),
            r@ == old(self).errors_view(),
            final(self).errors_view().len() == 0,
            final(self).states_view() == old(self).states_view(),
            final(self).work_view() == old(self).work_view(),
            final(self).worker_count() == old(self).worker_count(),
            final(self).results_view() == old(self).results_view(),
    {
        let mut r: Vec<Error> = Vec::new();
        r.append(&mut self.errors);
        r
    }

    /// The busy workers, in order.
    pub fn busy_workers(&self) -> (r: Vec<usize>)
        requires
            self.wf(),
        ensures
            forall|i: int| 0 <= i < r@.len() ==> r@[i] < self.worker_count() && self.states_view()[r@[i] as int]
                == WorkerState::Fetching,
            forall|w: int| 0 <= w < self.worker_count() && self.states_view()[w] == WorkerState::Fetching
                ==> r@.contains(w as usize),
            forall|i: int, j: int| 0 <= i < j < r@.len() ==> r@[i] < r@[j],
    {
        let mut out: Vec<usize> = Vec::new();
        let mut w: usize = 0;
        while w < self.t_count
            invariant
                self.wf(),
                w <= self.t_count,
                forall|i: int| 0 <= i < out@.len() ==> out@[i] < w && self.states@[out@[i] as int]
                    == WorkerState::Fetching,
                forall|v: int| 0 <= v < w && self.states@[v] == WorkerState::Fetching ==> out@.contains(
                    v as usize,
                ),
                forall|i: int, j: int| 0 <= i < j < out@.len() ==> out@[i] < out@[j],
            decreases self.t_count - w,
        {
            let ghost old_out = out@;
            if self.states[w] == WorkerState::Fetching {
                out.push(w);
                assert(out@[out@.len() - 1] == w);
            }
            assert forall|v: int| 0 <= v < w + 1 && self.states@[v] == WorkerState::Fetching implies out@.contains(
                v as usize,
            ) by {
                if v < w {
                    let k = choose|k: int| 0 <= k < old_out.len() && old_out[k] == v as usize;
                    assert(out@[k] == v as usize);
                }
            }
            w = w + 1;
        }
        out
    }

    /// Marks every worker as exiting, for an `Exit` to be sent to each; the
    /// pool is not used afterwards.
    pub fn close(&mut self)
        requires
            old(self).wf(),
        ensures
            final(self).wf(),
            final(self).work_view() == 0,
            final(self).results_view() == old(self).results_view(),
            final(self).errors_view() == old(self).errors_view(),
            final(self).worker_count() == old(self).worker_count(),
            final(self).states_view().len() == old(self).worker_count(),
            forall|i: int| 0 <= i < final(self).worker_count() ==> final(self).states_view()[i]
                == WorkerState::Exiting,
    {
        let mut w: usize = 0;
        while w < self.t_count
            invariant
                w <= self.t_count,
                self.states@.len() == self.t_count,
                self.t_count == old(self).t_count,
                forall|i: int| 0 <= i < w ==> self.states@[i] == WorkerState::Exiting,
                self.results@ == old(self).results@,
                self.errors@ == old(self).errors@,
            decreases self.t_count - w,
        {
            self.states.set(w, WorkerState::Exiting);
            w = w + 1;
        }
        proof {
            lemma_fetching_bounds(self.states@);
        }
        self.work = 0;
    }
}

/// The workers' states after each of `reps` (a worker and the kind of its
/// report), in turn.
pub open spec fn apply_reports(s: Seq<WorkerState>, reps: Seq<(int, ReportKind)>) -> Seq<WorkerState>
    decreases reps.len(),
{
    if reps.len() == 0 {
        s
    } else {
        let w = reps[0].0;
        let next = if 0 <= w < s.len() {
            s.update(w, after_report(s[w], reps[0].1))
        } else {
            s
        };
        apply_reports(next, reps.drop_first())
    }
}

/// A batch of `reps.len()` requests is outstanding when each busy worker is
/// named once in `reps`; once each of them has concluded its request, whether
/// by a discovery, a plain completion or a failure, no work is outstanding.
pub proof fn lemma_drain_settles(s: Seq<WorkerState>, reps: Seq<(int, ReportKind)>)
    requires
        forall|i: int| 0 <= i < reps.len() ==> is_terminal(#[trigger] reps[i].1),
        forall|i: int|
            0 <= i < reps.len() ==> 0 <= #[trigger] reps[i].0 < s.len() && s[reps[i].0]
                == WorkerState::Fetching,
        forall|i: int, j: int| 0 <= i < j < reps.len() ==> reps[i].0 != reps[j].0,
        forall|w: int|
            0 <= w < s.len() && s[w] == WorkerState::Fetching ==> exists|i: int|
                0 <= i < reps.len() && #[trigger] reps[i].0 == w,
    ensures
        fetching(s) == reps.len(),
        fetching(apply_reports(s, reps)) == 0,
    decreases reps.len(),
{
    if reps.len() == 0 {
        lemma_fetching_bounds(s);
    } else {
        let w0 = reps[0].0;
        assert(is_terminal(reps[0].1));
        assert(0 <= reps[0].0 < s.len());
        let t = s.update(w0, WorkerState::Idle);
        let rest = reps.drop_first();
        lemma_fetching_update(s, w0, WorkerState::Idle);
        assert forall|i: int| 0 <= i < rest.len() implies is_terminal(#[trigger] rest[i].1) by {
            assert(rest[i] == reps[i + 1]);
            assert(is_terminal(reps[i + 1].1));
        }
        assert forall|i: int| 0 <= i < rest.len() implies 0 <= #[trigger] rest[i].0 < t.len()
            && t[rest[i].0] == WorkerState::Fetching by {
            assert(rest[i] == reps[i + 1]);
            assert(0 <= reps[i + 1].0 < s.len());
            assert(reps[0].0 != reps[i + 1].0);
        }
        assert forall|i: int, j: int| 0 <= i < j < rest.len() implies rest[i].0 != rest[j].0 by {
            assert(rest[i] == reps[i + 1]);
            assert(rest[j] == reps[j + 1]);
        }
        assert forall|w: int| 0 <= w < t.len() && t[w] == WorkerState::Fetching implies exists|i: int|
            0 <= i < rest.len() && #[trigger] rest[i].0 == w by {
            assert(s[w] == WorkerState::Fetching);
            let i = choose|i: int| 0 <= i < reps.len() && #[trigger] reps[i].0 == w;
            assert(i != 0);
            assert(rest[i - 1] == reps[i]);
        }
        lemma_drain_settles(t, rest);
        assert(after_report(s[w0], reps[0].1) == WorkerState::Idle);
    }
}

} // verus!
