//! The bookkeeping of a staged run: which instance to launch next, and how
//! many were started, succeeded and failed.
//!
//! Nothing here waits or runs a task. A driver asks [`Executor::next_action`]
//! what to do, does it, and reports each outcome with [`Executor::record`].
use crate::task::TaskFactory;
use crate::timeline::{ScheduleError, Timeline, TimelineView};
use vstd::prelude::*;

verus! {

/// What the dispatch loop does next.
#[derive(Clone, Copy, Debug, PartialEq, Eq, Structural)]
pub enum Action {
    /// The stage with this index begins now; its offsets count from this
    /// instant.
    StartStage(usize),
    /// Launch one instance once this many nanoseconds have passed since the
    /// current stage began.
    Launch(u64),
    /// The stage with this index has launched all its instances.
    CompleteStage(usize),
    /// Every stage is done; nothing more will be launched.
    Finished,
}

/// The counters of a run, read at one moment.
#[derive(Clone, Copy, Debug, PartialEq, Eq, Structural)]
pub struct Progress {
    pub started: usize,
    pub success: usize,
    pub failure: usize,
}

/// What a [`Dispatch`] stands for: the index of the stage at hand and, once
/// that stage has begun, its schedule.
pub struct DispatchView {
    pub stage: int,
    pub active: Option<TimelineView>,
}

/// The place of the dispatch loop in a run.
#[derive(Clone, Copy, Debug)]
pub struct Dispatch {
    stage: usize,
    active: Option<Timeline>,
}

impl View for Dispatch {
    type V = DispatchView;

    closed spec fn view(&self) -> DispatchView {
        DispatchView {
            stage: self.stage as int,
            active: match self.active {
                Some(t) => Some(t@),
                None => None,
            },
        }
    }
}

impl DispatchView {
    /// The place lies within `stages`, and a schedule at hand is a valid
    /// schedule of the stage at hand.
    pub open spec fn wf(self, stages: Seq<TimelineView>) -> bool {
        &&& 0 <= self.stage <= stages.len()
        &&& self.active matches Some(t) ==> self.stage < stages.len() && t.wf() && t
            == stages[self.stage].at(t.cursor)
    }

    /// One turn of the dispatch loop: the place after it, and what to do.
    ///
    /// Stages are taken in order. A stage is begun, then each of its
    /// instances is launched at its offset, then the stage is completed and
    /// the next one is at hand. Past the last stage the run is finished.
    pub open spec fn step(self, stages: Seq<TimelineView>) -> (DispatchView, Action) {
        if self.stage >= stages.len() {
            (self, Action::Finished)
        } else {
            match self.active {
                None => (
                    DispatchView { stage: self.stage, active: Some(stages[self.stage]) },
                    Action::StartStage(self.stage as usize),
                ),
                Some(t) => if t.cursor <= t.total {
                    (
                        DispatchView { stage: self.stage, active: Some(t.at(t.cursor + 1)) },
                        Action::Launch(t.offset(t.cursor) as u64),
                    )
                } else {
                    (
                        DispatchView { stage: self.stage + 1, active: None },
                        Action::CompleteStage(self.stage as usize),
                    )
                },
            }
        }
    }
}

/// Number of instances that the stages from index `from` on launch.
pub open spec fn launches_from(stages: Seq<TimelineView>, from: int) -> int
    decreases stages.len() - from,
{
    if 0 <= from < stages.len() {
        stages[from].total + launches_from(stages, from + 1)
    } else {
        0
    }
}

impl DispatchView {
    /// Number of instances still to be launched from this place on: what is
    /// left of the stage at hand, and all of the stages after it.
    pub open spec fn pending(self, stages: Seq<TimelineView>) -> int {
        match self.active {
            Some(t) => t.total + 1 - t.cursor + launches_from(stages, self.stage + 1),
            None => launches_from(stages, self.stage),
        }
    }
}

/// A run launches each instance of each stage once: it begins with the
/// instances of all stages pending, a turn that launches takes one of them
/// off, no other turn changes their number, and the run is finished only
/// once none is pending.
pub proof fn law_run_launches_every_instance(e: ExecutorView, d: DispatchView)
    requires
        e.wf(),
        d.wf(e.stages),
    ensures
        (DispatchView { stage: 0, active: None }).pending(e.stages) == launches_from(e.stages, 0),
        d.step(e.stages).1 is Launch ==> d.step(e.stages).0.pending(e.stages) == d.pending(
            e.stages,
        ) - 1,
        !(d.step(e.stages).1 is Launch) ==> d.step(e.stages).0.pending(e.stages) == d.pending(
            e.stages,
        ),
        d.step(e.stages).1 is Finished ==> d.pending(e.stages) == 0,
        d.step(e.stages).0.wf(e.stages),
{
    if d.stage < e.stages.len() {
        assert(e.stages[d.stage].wf());
        assert(e.stages[d.stage] == e.stages[d.stage].at(1));
    }
}

/// The dispatch loop goes by the stages alone: whatever the counters hold
/// and whether or not outcomes have arrived, the same place leads to the
/// same next place and the same action.
pub proof fn law_dispatch_ignores_outcomes(x: ExecutorView, y: ExecutorView, d: DispatchView)
    requires
        x.stages == y.stages,
    ensures
        d.step(x.stages) == d.step(y.stages),
{
}

/// A counter one higher, starting over from zero past the largest value.
pub open spec fn bumped(n: usize) -> usize {
    if n == usize::MAX {
        0
    } else {
        (n + 1) as usize
    }
}

/// What an [`Executor`] stands for: its stages in the order they were added,
/// each as a schedule at its first instance, and the counters of its run.
pub struct ExecutorView {
    pub stages: Seq<TimelineView>,
    pub finished: bool,
    pub started: usize,
    pub success: usize,
    pub failure: usize,
}

impl ExecutorView {
    /// Every stage is a valid schedule at its first instance.
    pub open spec fn wf(self) -> bool {
        forall|k: int|
            0 <= k < self.stages.len() ==> (#[trigger] self.stages[k]).wf()
                && self.stages[k].cursor == 1
    }
}

/// Runs a load test in stages and keeps count of what was started and how it
/// ended.
pub struct Executor {
    timelines: Vec<Timeline>,
    stop: bool,
    started: usize,
    success: usize,
    failure: usize,
}

impl View for Executor {
    type V = ExecutorView;

    closed spec fn view(&self) -> ExecutorView {
        ExecutorView {
            stages: Seq::new(self.timelines@.len(), |k: int| self.timelines@[k]@),
            finished: self.stop,
            started: self.started,
            success: self.success,
            failure: self.failure,
        }
    }
}

fn bump(n: usize) -> (r: usize)
    ensures
        r == bumped(n),
{
    if n == usize::MAX {
        0
    } else {
        n + 1
    }
}

impl Executor {
    /// Creates an executor with no stages and all counters at zero.
    pub fn new() -> (e: Executor)
        ensures
            e@.wf(),
            e@ == (ExecutorView {
                stages: Seq::empty(),
                finished: false,
                started: 0,
                success: 0,
                failure: 0,
            }),
    {
        let e = Executor { timelines: Vec::new(), stop: false, started: 0, success: 0, failure: 0 };
        assert(e@.stages =~= Seq::empty());
        e
    }

    /// Adds a stage after those already there: a ramp from `start_rate` to
    /// `end_rate` instances per second over `duration` nanoseconds.
    ///
    /// A stage that [`Timeline::new`] refuses is not added.
    pub fn add_stage(&mut self, start_rate: usize, end_rate: usize, duration: u64) -> (r: Result<
        (),
        ScheduleError,
    >)
        requires
            old(self)@.wf(),
        ensures
            final(self)@.wf(),
            r is Err <==> (duration * start_rate > crate::timeline::MAX_LOAD || duration * end_rate
                > crate::timeline::MAX_LOAD),
            r is Err ==> final(self)@ == old(self)@,
            r is Ok ==> final(self)@ == (ExecutorView {
                stages: old(self)@.stages.push(
                    TimelineView {
                        start_rate: start_rate as int,
                        end_rate: end_rate as int,
                        duration: duration as int,
                        total: crate::timeline::total_count(
                            start_rate as int,
                            end_rate as int,
                            duration as int,
                        ),
                        cursor: 1,
                    },
                ),
                ..old(self)@
            }),
    {
        match Timeline::new(start_rate as u64, end_rate as u64, duration) {
            Ok(t) => {
                self.timelines.push(t);
                assert(self@.stages =~= old(self)@.stages.push(t@));
                Ok(())
            },
            Err(e) => Err(e),
        }
    }

    /// Begins a run: the dispatch loop stands before the first stage.
    pub fn run(&self) -> (d: Dispatch)
        ensures
            d@ == (DispatchView { stage: 0, active: None }),
            d@.wf(self@.stages),
    {
        Dispatch { stage: 0, active: None }
    }

    /// Takes one turn of the dispatch loop: moves `d` on and says what to
    /// do. The counters play no part in it.
    pub fn next_action(&self, d: &mut Dispatch) -> (a: Action)
        requires
            self@.wf(),
            old(d)@.wf(self@.stages),
        ensures
            final(d)@.wf(self@.stages),
            (final(d)@, a) == old(d)@.step(self@.stages),
    {
        if d.stage >= self.timelines.len() {
            return Action::Finished;
        }
        match d.active {
            None => {
                let t: Timeline = self.timelines[d.stage];
                assert(self@.stages[d.stage as int] == t@);
                assert(t@ == t@.at(1));
                d.active = Some(t);
                Action::StartStage(d.stage)
            },
            Some(t) => {
                let mut t: Timeline = t;
                match t.next() {
                    Some(offset) => {
                        d.active = Some(t);
                        Action::Launch(offset)
                    },
                    None => {
                        let done: usize = d.stage;
                        d.stage = done + 1;
                        d.active = None;
                        Action::CompleteStage(done)
                    },
                }
            },
        }
    }

    /// Counts one instance as started and has the factory make its task.
    pub fn launch<F: TaskFactory>(&mut self, factory: &F) -> (task: F::Task)
        requires
            factory.ready(),
        ensures
            factory.makes(task),
            final(self)@ == (ExecutorView { started: bumped(old(self)@.started), ..old(self)@ }),
    {
        self.started = bump(self.started);
        factory.create()
    }

    /// Counts the outcome of one instance: a success if `ok`, else a failure.
    pub fn record(&mut self, ok: bool)
        ensures
            ok ==> final(self)@ == (ExecutorView {
                success: bumped(old(self)@.success),
                ..old(self)@
            }),
            !ok ==> final(self)@ == (ExecutorView {
                failure: bumped(old(self)@.failure),
                ..old(self)@
            }),
    {
        if ok {
            self.success = bump(self.success);
        } else {
            self.failure = bump(self.failure);
        }
    }

    /// Marks the run as finished: no more outcomes will arrive.
    pub fn finish(&mut self)
        ensures
            final(self)@ == (ExecutorView { finished: true, ..old(self)@ }),
    {
        self.stop = true;
    }

    /// Whether the run was marked as finished.
    pub fn finished(&self) -> (b: bool)
        ensures
            b == self@.finished,
    {
        self.stop
    }

    /// Reads the counters.
    pub fn progress(&self) -> (p: Progress)
        ensures
            p == (Progress {
                started: self@.started,
                success: self@.success,
                failure: self@.failure,
            }),
    {
        Progress { started: self.started, success: self.success, failure: self.failure }
    }
}

} // verus!
