//! The decisions of an agent: a worker that runs a runloop step after step until it
//! is told to stop or aborted, and a handle that aborts it and is polled for its end.
use vstd::prelude::*;
use std::time::Duration;

verus! {

/// Specifies the amount of time the agent runtime needs to wait
/// before invoking the next step of the runloop.
pub enum Repeat {
    /// Step again as soon as other tasks have had their turn.
    Auto,
    /// Do not step again.
    Never,
    /// Step again after the given time.
    After(Duration),
}

/// What the worker of an agent does next.
pub enum WorkerAction {
    /// Invoke the next step of the runloop.
    Step,
    /// Let other tasks run, then report `WorkerEvent::Resumed`.
    Yield,
    /// Sleep for the given time, then report `WorkerEvent::Resumed`.
    Sleep(Duration),
    /// Leave the loop; the worker is done.
    Stop,
}

/// What the worker of an agent has just finished.
pub enum WorkerEvent {
    /// The setup of the runloop, which runs once before the first step.
    SetupDone,
    /// A yield or a sleep.
    Resumed,
    /// A step of the runloop, with what it asked for.
    Stepped(Repeat),
}

/// What a call to abort does.
#[derive(PartialEq, Eq, Structural)]
pub enum AbortAction {
    /// Nothing: the agent is being torn down or was aborted already.
    Nothing,
    /// Run the teardown of the runloop, then mark the agent aborted and cancel the worker.
    TeardownAndCancel,
}

/// The worker checks the abort flag before each step, and does what a step asked
/// for without checking it: `Never` ends the loop, `Auto` yields, `After` sleeps.
pub open spec fn worker_action_spec(aborted: bool, event: WorkerEvent) -> WorkerAction {
    match event {
        WorkerEvent::Stepped(r) => match r {
            Repeat::Never => WorkerAction::Stop,
            Repeat::Auto => WorkerAction::Yield,
            Repeat::After(d) => WorkerAction::Sleep(d),
        },
        _ => if aborted {
            WorkerAction::Stop
        } else {
            WorkerAction::Step
        },
    }
}

/// Decides what the worker does next, given whether the agent has been aborted and
/// what the worker has just finished.
pub fn worker_next(aborted: bool, event: WorkerEvent) -> (a: WorkerAction)
    ensures
        a == worker_action_spec(aborted, event),
{
    match event {
        WorkerEvent::Stepped(r) => match r {
            Repeat::Never => WorkerAction::Stop,
            Repeat::Auto => WorkerAction::Yield,
            Repeat::After(d) => WorkerAction::Sleep(d),
        },
        _ => if aborted {
            WorkerAction::Stop
        } else {
            WorkerAction::Step
        },
    }
}

/// Where an agent is in its life: running, tearing down after the first abort, or
/// aborted once the teardown has returned.
#[derive(PartialEq, Eq, Structural)]
pub enum AgentPhase {
    Running,
    TearingDown,
    Aborted,
}

impl AgentPhase {
    /// The number that stands for the phase in an atomic byte.
    pub open spec fn code_spec(self) -> u8 {
        match self {
            AgentPhase::Running => 0,
            AgentPhase::TearingDown => 1,
            AgentPhase::Aborted => 2,
        }
    }

    /// The number that stands for the phase in an atomic byte.
    pub fn code(&self) -> (c: u8)
        ensures
            c == self.code_spec(),
    {
        match self {
            AgentPhase::Running => 0,
            AgentPhase::TearingDown => 1,
            AgentPhase::Aborted => 2,
        }
    }

    /// The phase that a number from `code` stands for; any other number is read as
    /// aborted.
    pub fn from_code(c: u8) -> (p: AgentPhase)
        ensures
            c <= 2 ==> p.code_spec() == c,
            c > 2 ==> p == AgentPhase::Aborted,
    {
        if c == 0 {
            AgentPhase::Running
        } else if c == 1 {
            AgentPhase::TearingDown
        } else {
            AgentPhase::Aborted
        }
    }

    /// Whether the agent has been aborted: the flag that its worker reads.
    pub fn is_aborted(&self) -> (r: bool)
        ensures
            r == (*self is Aborted),
    {
        match self {
            AgentPhase::Aborted => true,
            _ => false,
        }
    }
}

/// An abort that finds the agent running starts its teardown; one that finds it
/// tearing down or aborted does nothing.
pub open spec fn abort_begin_spec(phase: AgentPhase) -> (AbortAction, AgentPhase) {
    match phase {
        AgentPhase::Running => (AbortAction::TeardownAndCancel, AgentPhase::TearingDown),
        _ => (AbortAction::Nothing, phase),
    }
}

/// The end of a teardown marks the agent aborted.
pub open spec fn abort_finish_spec(phase: AgentPhase) -> AgentPhase {
    match phase {
        AgentPhase::TearingDown => AgentPhase::Aborted,
        _ => phase,
    }
}

/// Decides what an abort does, given the phase it found, and the phase after it:
/// only an abort that finds the agent running tears the runloop down. For that to
/// hold of aborts that run at the same time, the phase must be what an atomic
/// compare-and-exchange from running to tearing down found: the exchanges order
/// the aborts one after another (`lemma_teardown_at_most_once`).
pub fn abort_begin(phase: AgentPhase) -> (r: (AbortAction, AgentPhase))
    ensures
        r == abort_begin_spec(phase),
{
    match phase {
        AgentPhase::Running => (AbortAction::TeardownAndCancel, AgentPhase::TearingDown),
        _ => (AbortAction::Nothing, phase),
    }
}

/// The phase after the teardown of an abort has returned.
pub fn abort_finish(phase: AgentPhase) -> (r: AgentPhase)
    ensures
        r == abort_finish_spec(phase),
{
    match phase {
        AgentPhase::TearingDown => AgentPhase::Aborted,
        _ => phase,
    }
}

/// Whether the agent, polled as a future, has finished: exactly when it is aborted,
/// so not while its teardown runs. A worker that stopped because a step returned
/// `Never` does not finish it.
pub fn poll_ready(phase: &AgentPhase) -> (ready: bool)
    ensures
        ready == (*phase is Aborted),
{
    phase.is_aborted()
}

/// The number of teardowns that `n` aborts in a row start, from `phase`, each abort
/// doing what `abort_begin` decides and leaving the phase it returns.
pub open spec fn teardowns(phase: AgentPhase, n: nat) -> nat
    decreases n,
{
    if n == 0 {
        0
    } else {
        let (action, next) = abort_begin_spec(phase);
        (if action == AbortAction::TeardownAndCancel { 1nat } else { 0nat }) + teardowns(
            next,
            (n - 1) as nat,
        )
    }
}

/// Once the abort flag is set, the worker never invokes another step.
pub proof fn lemma_no_step_after_abort(event: WorkerEvent)
    ensures
        worker_action_spec(true, event) != WorkerAction::Step,
{
}

/// However many times an agent is aborted, its runloop is torn down at most once,
/// and exactly once when it was running and aborted at least once. This holds of
/// aborts at the same time too when each takes its phase from an atomic exchange,
/// since the exchanges happen one after another.
pub proof fn lemma_teardown_at_most_once(phase: AgentPhase, n: nat)
    ensures
        teardowns(phase, n) <= 1,
        teardowns(phase, n) == (if phase == AgentPhase::Running && n > 0 { 1nat } else { 0nat }),
    decreases n,
{
    if n > 0 {
        lemma_teardown_at_most_once(abort_begin_spec(phase).1, (n - 1) as nat);
    }
}

/// The agent is finished only once the teardown of an abort has returned: no abort
/// decision makes it aborted, and the end of a teardown makes it aborted only from
/// tearing down. So while a teardown runs, polls are pending.
pub proof fn lemma_ready_only_after_teardown(phase: AgentPhase)
    ensures
        abort_begin_spec(phase).1 is Aborted ==> phase is Aborted,
        abort_finish_spec(phase) is Aborted ==> phase is TearingDown || phase is Aborted,
        phase is TearingDown ==> !(abort_begin_spec(phase).1 is Aborted),
{
}

/// The worker may go from what it did at `prev` (the abort flag it read, and the
/// event it had just finished) to the event `next`: a step is followed by its
/// result, a yield or a sleep by a resume, and nothing follows a stop.
pub open spec fn worker_follows(prev: (bool, WorkerEvent), next: WorkerEvent) -> bool {
    match worker_action_spec(prev.0, prev.1) {
        WorkerAction::Step => next is Stepped,
        WorkerAction::Yield => next is Resumed,
        WorkerAction::Sleep(_) => next is Resumed,
        WorkerAction::Stop => false,
    }
}

/// A run of the worker: the flag it read and the event it had finished, at each of
/// its decisions, starting from the end of the setup.
pub open spec fn is_worker_run(run: Seq<(bool, WorkerEvent)>) -> bool {
    &&& run.len() > 0 ==> run[0].1 is SetupDone
    &&& forall|i: int| 0 <= i < run.len() - 1 ==> worker_follows(#[trigger] run[i], run[i + 1].1)
}

/// In every run of the worker: each step is begun right after a read of the abort
/// flag that saw it clear, one step at a time; after a step that returned `Never`,
/// or a read that saw the flag set, the worker does nothing more; after a step that
/// returned `After(d)` the worker sleeps for `d` before anything else, and after
/// `Auto` it yields, so that no step starts before the sleep or the yield is over.
pub proof fn lemma_worker_run(run: Seq<(bool, WorkerEvent)>, i: int)
    requires
        is_worker_run(run),
        0 <= i < run.len(),
    ensures
        run[i].1 is Stepped ==> i > 0 && !run[i - 1].0 && !(run[i - 1].1 is Stepped)
            && worker_action_spec(run[i - 1].0, run[i - 1].1) == WorkerAction::Step,
        run[i].1 == WorkerEvent::Stepped(Repeat::Never) ==> i == run.len() - 1,
        run[i].0 && !(run[i].1 is Stepped) ==> i == run.len() - 1,
        forall|d: Duration|
            run[i].1 == WorkerEvent::Stepped(Repeat::After(d)) ==> worker_action_spec(
                run[i].0,
                run[i].1,
            ) == WorkerAction::Sleep(d) && (i + 1 < run.len() ==> run[i + 1].1 is Resumed),
        run[i].1 == WorkerEvent::Stepped(Repeat::Auto) ==> worker_action_spec(run[i].0, run[i].1)
            == WorkerAction::Yield && (i + 1 < run.len() ==> run[i + 1].1 is Resumed),
{
    if i > 0 {
        assert(worker_follows(run[i - 1], run[i].1));
    }
    if i + 1 < run.len() {
        assert(worker_follows(run[i], run[i + 1].1));
    }
}

} // verus!
