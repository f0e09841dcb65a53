//! The state machine of one script.
//!
//! A script is supervised by a waiter: a task of the program that performs one
//! action after another and reports what came of each. The decisions are made
//! here. `started`, `stopped` and `next` say, for every state and every event,
//! which state follows and what the waiter does next.

use vstd::prelude::*;

verus! {

/// The script was never started.
pub const SCRIPT_STATUS_NOT_STARTED: usize = 0;

/// The script waits to be launched.
pub const SCRIPT_STATUS_STARTING: usize = 1;

/// The child of the script runs.
pub const SCRIPT_STATUS_RUNNING: usize = 2;

/// The script was stopped while it was starting or running.
pub const SCRIPT_STATUS_INTERRUPTED: usize = 3;

/// The child of the script has exited, or was shown in a dry run.
pub const SCRIPT_STATUS_FINISHED: usize = 4;

/// The child of the script could not be spawned or polled.
pub const SCRIPT_STATUS_FAILED: usize = 5;

/// The child of the script was killed. No step of the machine leads here.
pub const SCRIPT_STATUS_KILLED: usize = 6;

/// The milliseconds between two polls of a readiness condition.
pub const READINESS_PAUSE_MILLIS: u64 = 1000;

/// The milliseconds between two polls of a running child.
pub const SUPERVISION_PAUSE_MILLIS: u64 = 100;

/// Whether a waiter is at work on a script of this status.
pub open spec fn is_active(status: usize) -> bool {
    status == SCRIPT_STATUS_STARTING || status == SCRIPT_STATUS_RUNNING
}

/// Whether a script of this status can be started.
pub open spec fn is_startable(status: usize) -> bool {
    status == SCRIPT_STATUS_NOT_STARTED || status == SCRIPT_STATUS_INTERRUPTED || status
        == SCRIPT_STATUS_FINISHED || status == SCRIPT_STATUS_KILLED || status
        == SCRIPT_STATUS_FAILED
}

/// What the waiter of a script is waiting for.
#[derive(Clone, Copy, Debug, PartialEq, Eq, Structural)]
pub enum Phase {
    /// There is no waiter.
    Idle,
    /// The ports are being probed.
    Ports,
    /// A pause before the ports are probed again.
    PortsPause,
    /// A pause before the dependencies are looked at again.
    DependenciesPause,
    /// The startup delay.
    DelayPause,
    /// The child is being spawned.
    Launch,
    /// The child is being polled.
    Poll,
    /// A pause before the child is polled again.
    PollPause,
}

/// What the waiter reports.
#[derive(Debug)]
pub enum Event {
    /// The waiter has just taken up the script.
    Begin,
    /// The ports were probed; `true` where every one accepted a connection.
    PortsProbed(bool),
    /// A sleep is over.
    Tick,
    /// The child was spawned.
    Spawned,
    /// The child could not be spawned; the text says why.
    SpawnFailed(String),
    /// The child has exited and was reaped; the text is its exit status.
    Exited(String),
    /// The child is still running.
    Alive,
    /// The child could not be polled; the text says why.
    PollFailed(String),
}

/// The text that an event carries; empty where it carries none.
pub open spec fn event_text(e: Event) -> Seq<char> {
    match e {
        Event::SpawnFailed(text) => text@,
        Event::Exited(text) => text@,
        Event::PollFailed(text) => text@,
        _ => Seq::empty(),
    }
}

/// What the waiter does next.
#[derive(Clone, Copy, Debug, PartialEq, Eq, Structural)]
pub enum Action {
    /// Nothing more: the waiter ends.
    Done,
    /// Connect to each port of the script, then report `PortsProbed`.
    ProbePorts,
    /// Sleep for so many milliseconds, then report `Tick`.
    Sleep(u64),
    /// Sleep for so many seconds, then report `Tick`.
    Delay(u64),
    /// Spawn the child, then report `Spawned` or `SpawnFailed`.
    Spawn,
    /// Poll the child without blocking, then report `Exited`, `Alive` or
    /// `PollFailed`.
    Poll,
    /// Kill the child; the waiter ends.
    Kill,
}

/// What a step leaves to tell.
#[derive(Clone, Copy, Debug, PartialEq, Eq, Structural)]
pub enum Note {
    Nothing,
    /// The child runs.
    Started,
    /// The child has exited.
    Finished,
    /// The command was shown and not run.
    DryRun,
    /// The child could not be spawned.
    FailedToStart,
    /// The child could not be polled and was killed.
    FailedToWait,
}

/// The part of a script that changes while it is supervised.
#[derive(Clone, Copy, Debug, PartialEq, Eq, Structural)]
pub struct RunState {
    /// One of the seven status values.
    pub status: usize,
    /// What the waiter is waiting for.
    pub phase: Phase,
    /// Whether a stop was asked for and the waiter has not seen it yet.
    pub interrupt: bool,
    /// Whether the present cycle is a dry run.
    pub noexec: bool,
    /// Whether a waiter has taken up the present cycle.
    pub attended: bool,
}

/// A state, the action for the waiter and the note that go with it.
#[derive(Clone, Copy, Debug, PartialEq, Eq, Structural)]
pub struct Step {
    pub state: RunState,
    pub action: Action,
    pub note: Note,
}

/// The state of a script that was never started.
pub open spec fn initial() -> RunState {
    RunState {
        status: SCRIPT_STATUS_NOT_STARTED,
        phase: Phase::Idle,
        interrupt: false,
        noexec: false,
        attended: false,
    }
}

/// Whether status and phase agree: a waiter is at work exactly on a starting
/// or running script, a child exists exactly while the script is running, and
/// a dry run never comes to a child.
pub open spec fn well_formed(s: RunState) -> bool {
    &&& s.status <= SCRIPT_STATUS_KILLED
    &&& (s.phase == Phase::Idle <==> !is_active(s.status))
    &&& (s.phase == Phase::Poll || s.phase == Phase::PollPause <==> s.status
        == SCRIPT_STATUS_RUNNING)
    &&& (s.phase == Phase::Launch || s.phase == Phase::Poll || s.phase == Phase::PollPause
        ==> !s.noexec)
}

/// The action that a waiter in this phase has in hand.
pub open spec fn pending(phase: Phase, delay: Option<u64>) -> Action {
    match phase {
        Phase::Idle => Action::Done,
        Phase::Ports => Action::ProbePorts,
        Phase::PortsPause => Action::Sleep(READINESS_PAUSE_MILLIS),
        Phase::DependenciesPause => Action::Sleep(READINESS_PAUSE_MILLIS),
        Phase::DelayPause => match delay {
            Some(d) => Action::Delay(d),
            None => Action::Delay(0),
        },
        Phase::Launch => Action::Spawn,
        Phase::Poll => Action::Poll,
        Phase::PollPause => Action::Sleep(SUPERVISION_PAUSE_MILLIS),
    }
}

/// The script goes on in `phase`.
pub open spec fn go(s: RunState, phase: Phase, delay: Option<u64>) -> Step {
    Step { state: RunState { phase, ..s }, action: pending(phase, delay), note: Note::Nothing }
}

/// The cycle ends with `status`; the interrupt, if there was one, is used up.
pub open spec fn end(s: RunState, status: usize, action: Action, note: Note) -> Step {
    Step {
        state: RunState { status, phase: Phase::Idle, interrupt: false, ..s },
        action,
        note,
    }
}

/// The readiness of the script is given up: no child was spawned.
pub open spec fn abort(s: RunState) -> Step {
    end(s, SCRIPT_STATUS_INTERRUPTED, Action::Done, Note::Nothing)
}

/// The child is launched, or, in a dry run, shown.
pub open spec fn launch(s: RunState, delay: Option<u64>) -> Step {
    if s.noexec {
        end(s, SCRIPT_STATUS_FINISHED, Action::Done, Note::DryRun)
    } else {
        go(s, Phase::Launch, delay)
    }
}

/// The dependencies are done: the delay follows, or the launch where there
/// is none.
pub open spec fn after_dependencies(s: RunState, delay: Option<u64>) -> Step {
    match delay {
        Some(d) => go(s, Phase::DelayPause, delay),
        None => launch(s, delay),
    }
}

/// A pause of readiness is about to begin: where the interrupt is set, the
/// cycle ends at once and no child is spawned; else the script pauses in
/// `phase`.
pub open spec fn pause(s: RunState, phase: Phase, delay: Option<u64>) -> Step {
    if s.interrupt {
        abort(s)
    } else {
        go(s, phase, delay)
    }
}

/// The ports are open: the dependencies follow. `ready` says whether every
/// script that this one waits for is finished now.
pub open spec fn after_ports(s: RunState, ready: bool, delay: Option<u64>) -> Step {
    if ready {
        after_dependencies(s, delay)
    } else {
        pause(s, Phase::DependenciesPause, delay)
    }
}

/// What follows a start: nothing where the script cannot be started; else
/// the script is starting, with no interrupt, with its ports to probe, or,
/// where the start is forced, with its child to launch.
pub open spec fn started(s: RunState, forced: bool, noexec: bool, delay: Option<u64>) -> Step {
    if is_startable(s.status) {
        let fresh = RunState {
            status: SCRIPT_STATUS_STARTING,
            phase: Phase::Idle,
            interrupt: false,
            noexec,
            attended: false,
        };
        if forced {
            launch(fresh, delay)
        } else {
            go(fresh, Phase::Ports, delay)
        }
    } else {
        Step { state: s, action: pending(s.phase, delay), note: Note::Nothing }
    }
}

/// What follows a stop: the interrupt is set where the script is starting or
/// running, and nothing changes where it is not.
pub open spec fn stopped(s: RunState) -> RunState {
    if is_active(s.status) {
        RunState { interrupt: true, ..s }
    } else {
        s
    }
}

/// Whether a waiter has to be found for the script.
pub open spec fn unattended(s: RunState) -> bool {
    s.phase != Phase::Idle && !s.attended
}

/// What follows when a waiter takes up the script.
pub open spec fn claimed(s: RunState) -> RunState {
    if unattended(s) {
        RunState { attended: true, ..s }
    } else {
        s
    }
}

/// What follows an event. `ready` says whether every script that this one
/// waits for is finished now.
///
/// The interrupt is looked at before a pause begins, so that a script that
/// was asked to stop ends at once and does not sleep first, and again when a
/// pause is over. An event that the phase does not wait for changes nothing
/// and gives the action in hand again.
pub open spec fn next(s: RunState, e: Event, ready: bool, delay: Option<u64>) -> Step {
    match (s.phase, e) {
        (Phase::Ports, Event::PortsProbed(true)) => after_ports(s, ready, delay),
        (Phase::Ports, Event::PortsProbed(false)) => pause(s, Phase::PortsPause, delay),
        (Phase::PortsPause, Event::Tick) => if s.interrupt {
            abort(s)
        } else {
            go(s, Phase::Ports, delay)
        },
        (Phase::DependenciesPause, Event::Tick) => if s.interrupt {
            abort(s)
        } else {
            after_ports(s, ready, delay)
        },
        (Phase::DelayPause, Event::Tick) => if s.interrupt {
            abort(s)
        } else {
            launch(s, delay)
        },
        (Phase::Launch, Event::Spawned) => Step {
            state: RunState { status: SCRIPT_STATUS_RUNNING, phase: Phase::Poll, ..s },
            action: Action::Poll,
            note: Note::Started,
        },
        (Phase::Launch, Event::SpawnFailed(_)) => end(
            s,
            SCRIPT_STATUS_FAILED,
            Action::Done,
            Note::FailedToStart,
        ),
        (Phase::Poll, Event::Exited(_)) => end(
            s,
            SCRIPT_STATUS_FINISHED,
            Action::Done,
            Note::Finished,
        ),
        (Phase::Poll, Event::Alive) => if s.interrupt {
            end(s, SCRIPT_STATUS_INTERRUPTED, Action::Kill, Note::Nothing)
        } else {
            go(s, Phase::PollPause, delay)
        },
        (Phase::Poll, Event::PollFailed(_)) => end(
            s,
            SCRIPT_STATUS_FAILED,
            Action::Kill,
            Note::FailedToWait,
        ),
        (Phase::PollPause, Event::Tick) => if s.interrupt {
            end(s, SCRIPT_STATUS_INTERRUPTED, Action::Kill, Note::Nothing)
        } else {
            go(s, Phase::Poll, delay)
        },
        _ => Step { state: s, action: pending(s.phase, delay), note: Note::Nothing },
    }
}

/// Whether the machine has an edge from status `a` to status `b`.
pub open spec fn is_transition(a: usize, b: usize) -> bool {
    ||| is_startable(a) && b == SCRIPT_STATUS_STARTING
    ||| a == SCRIPT_STATUS_STARTING && (b == SCRIPT_STATUS_RUNNING || b == SCRIPT_STATUS_FAILED
        || b == SCRIPT_STATUS_FINISHED || b == SCRIPT_STATUS_INTERRUPTED)
    ||| a == SCRIPT_STATUS_RUNNING && (b == SCRIPT_STATUS_FINISHED || b == SCRIPT_STATUS_FAILED
        || b == SCRIPT_STATUS_INTERRUPTED)
}

/// Whether the script has passed its dependencies in the present cycle.
pub open spec fn past_dependencies(phase: Phase) -> bool {
    phase == Phase::DelayPause || phase == Phase::Launch || phase == Phase::Poll || phase
        == Phase::PollPause
}

/// Status and phase agree in the beginning and after every start, stop,
/// claim and event.
pub proof fn lemma_well_formed_is_kept(
    s: RunState,
    e: Event,
    ready: bool,
    forced: bool,
    noexec: bool,
    delay: Option<u64>,
)
    requires
        well_formed(s),
    ensures
        well_formed(initial()),
        well_formed(started(s, forced, noexec, delay).state),
        well_formed(stopped(s)),
        well_formed(claimed(s)),
        well_formed(next(s, e, ready, delay).state),
{
}

/// Every change of status is an edge of the machine. An event changes the
/// status by one edge or not at all and never starts a script; a start leaves
/// the status, or makes the script starting, or, in a forced dry run, takes
/// it through starting to finished; a stop and a claim leave the status.
pub proof fn lemma_transitions_follow_machine(
    s: RunState,
    e: Event,
    ready: bool,
    forced: bool,
    noexec: bool,
    delay: Option<u64>,
)
    requires
        well_formed(s),
    ensures
        ({
            let t = next(s, e, ready, delay).state;
            t.status == s.status || (is_active(s.status) && is_transition(s.status, t.status))
        }),
        ({
            let t = started(s, forced, noexec, delay).state;
            ||| t.status == s.status && !is_startable(s.status)
            ||| is_transition(s.status, t.status)
            ||| forced && noexec && is_transition(s.status, SCRIPT_STATUS_STARTING)
                && is_transition(SCRIPT_STATUS_STARTING, t.status)
        }),
        stopped(s).status == s.status,
        claimed(s).status == s.status,
{
}

/// A script leaves the running state only with a child that was reaped or
/// with the order to kill it.
pub proof fn lemma_running_ends_with_reap_or_kill(
    s: RunState,
    e: Event,
    ready: bool,
    delay: Option<u64>,
)
    requires
        well_formed(s),
        s.status == SCRIPT_STATUS_RUNNING,
        next(s, e, ready, delay).state.status != SCRIPT_STATUS_RUNNING,
    ensures
        e is Exited || next(s, e, ready, delay).action == Action::Kill,
{
}

/// A script that was started without force passes its dependencies only in a
/// step at which every script it waits for is finished, and it comes to run
/// only after it has passed them.
pub proof fn lemma_runs_after_dependencies(
    s: RunState,
    e: Event,
    ready: bool,
    noexec: bool,
    delay: Option<u64>,
)
    requires
        well_formed(s),
    ensures
        is_startable(s.status) ==> !past_dependencies(
            started(s, false, noexec, delay).state.phase,
        ),
        is_startable(s.status) ==> started(s, false, noexec, delay).state.status
            == SCRIPT_STATUS_STARTING,
        !past_dependencies(s.phase) && past_dependencies(next(s, e, ready, delay).state.phase)
            ==> ready,
        next(s, e, ready, delay).state.status == SCRIPT_STATUS_RUNNING ==> past_dependencies(
            s.phase,
        ),
        !past_dependencies(s.phase) && next(s, e, ready, delay).state.status
            == SCRIPT_STATUS_FINISHED && s.status != SCRIPT_STATUS_FINISHED ==> ready,
{
}

/// What can happen to a script in the course of one cycle.
pub enum Happening {
    /// The waiter reports an event; the flag says whether every script that
    /// this one waits for is finished at that moment.
    Event(Event, bool),
    /// Someone asks the script to stop.
    Stop,
    /// A waiter takes the script up.
    Claim,
}

/// The state of a script after the happenings, one after the other.
pub open spec fn after(s: RunState, happenings: Seq<Happening>, delay: Option<u64>) -> RunState
    decreases happenings.len(),
{
    if happenings.len() == 0 {
        s
    } else {
        let before = after(s, happenings.drop_last(), delay);
        match happenings.last() {
            Happening::Event(e, ready) => next(before, e, ready, delay).state,
            Happening::Stop => stopped(before),
            Happening::Claim => claimed(before),
        }
    }
}

/// Whether, among the happenings, there is an event that found every script
/// that this one waits for finished while this one had not yet passed them.
pub open spec fn found_ready(s: RunState, happenings: Seq<Happening>, delay: Option<u64>) -> bool
    decreases happenings.len(),
{
    if happenings.len() == 0 {
        false
    } else {
        found_ready(s, happenings.drop_last(), delay) || match happenings.last() {
            Happening::Event(e, ready) => ready && !past_dependencies(
                after(s, happenings.drop_last(), delay).phase,
            ),
            _ => false,
        }
    }
}

/// A script that was started without force never comes to run before every
/// script that it waits for was found finished: whatever the waiter reports
/// and however often a stop is asked for, where the script is running, or
/// has passed its dependencies at all, one of the events before had found
/// them all finished.
pub proof fn lemma_never_runs_before_its_dependencies(
    s: RunState,
    noexec: bool,
    delay: Option<u64>,
    happenings: Seq<Happening>,
)
    requires
        well_formed(s),
        is_startable(s.status),
    ensures
        ({
            let begun = started(s, false, noexec, delay).state;
            let now = after(begun, happenings, delay);
            &&& well_formed(now)
            &&& past_dependencies(now.phase) ==> found_ready(begun, happenings, delay)
            &&& now.status == SCRIPT_STATUS_RUNNING ==> found_ready(begun, happenings, delay)
        }),
    decreases happenings.len(),
{
    let begun = started(s, false, noexec, delay).state;
    if happenings.len() > 0 {
        lemma_never_runs_before_its_dependencies(s, noexec, delay, happenings.drop_last());
        let before = after(begun, happenings.drop_last(), delay);
        match happenings.last() {
            Happening::Event(e, ready) => {
                lemma_well_formed_is_kept(before, e, ready, false, noexec, delay);
                lemma_runs_after_dependencies(before, e, ready, noexec, delay);
            },
            _ => {},
        }
    }
}

/// A stop on a script that is neither starting nor running changes nothing,
/// and a second stop changes nothing after a first.
pub proof fn lemma_stop_is_idempotent(s: RunState)
    ensures
        !is_active(s.status) ==> stopped(s) == s,
        stopped(stopped(s)) == stopped(s),
{
}

/// An interrupt that the waiter sees during readiness ends the cycle as
/// interrupted, and no child is spawned for it.
pub proof fn lemma_interrupt_before_launch(s: RunState, ready: bool, delay: Option<u64>)
    requires
        well_formed(s),
        s.interrupt,
        s.phase == Phase::PortsPause || s.phase == Phase::DependenciesPause || s.phase
            == Phase::DelayPause,
    ensures
        next(s, Event::Tick, ready, delay).state.status == SCRIPT_STATUS_INTERRUPTED,
        next(s, Event::Tick, ready, delay).action == Action::Done,
{
}

/// A script that was asked to stop never begins a pause: where the ports are
/// not open, the scripts it waits for are not finished, or the child is still
/// alive, and the interrupt is set, the cycle ends at once as interrupted,
/// with no sleep before it; the child, where there is one, is killed. Where
/// the interrupt is not set, the pause begins and nothing else changes.
pub proof fn lemma_interrupt_comes_before_the_pause(s: RunState, ready: bool, delay: Option<u64>)
    requires
        well_formed(s),
    ensures
        s.phase == Phase::Ports && s.interrupt ==> next(
            s,
            Event::PortsProbed(false),
            ready,
            delay,
        ) == abort(s),
        s.phase == Phase::Ports && s.interrupt && !ready ==> next(
            s,
            Event::PortsProbed(true),
            ready,
            delay,
        ) == abort(s),
        s.phase == Phase::Poll && s.interrupt ==> next(s, Event::Alive, ready, delay) == end(
            s,
            SCRIPT_STATUS_INTERRUPTED,
            Action::Kill,
            Note::Nothing,
        ),
        s.phase == Phase::Ports && !s.interrupt ==> next(
            s,
            Event::PortsProbed(false),
            ready,
            delay,
        ) == go(s, Phase::PortsPause, delay),
        s.phase == Phase::Poll && !s.interrupt ==> next(s, Event::Alive, ready, delay) == go(
            s,
            Phase::PollPause,
            delay,
        ),
        forall|e: Event|
            s.interrupt ==> !(#[trigger] next(s, e, ready, delay).action is Sleep) || s.phase
                == Phase::PortsPause || s.phase == Phase::DependenciesPause || s.phase
                == Phase::PollPause,
{
}

/// In a dry run no child is ever spawned: neither a start nor an event gives
/// the order to spawn, and the launch ends the cycle as finished.
pub proof fn lemma_dry_run_spawns_nothing(
    s: RunState,
    e: Event,
    ready: bool,
    forced: bool,
    delay: Option<u64>,
)
    requires
        well_formed(s),
    ensures
        s.noexec ==> next(s, e, ready, delay).action != Action::Spawn,
        s.noexec ==> next(s, e, ready, delay).state.noexec,
        is_startable(s.status) ==> started(s, forced, true, delay).action != Action::Spawn,
        is_startable(s.status) ==> started(s, true, true, delay).state.status
            == SCRIPT_STATUS_FINISHED,
        s.noexec ==> launch(s, delay).state.status == SCRIPT_STATUS_FINISHED,
{
}

/// A script that no waiter is at work on stays so until it is started: a
/// stop, a claim and an event leave it as it is.
pub proof fn lemma_idle_stays_idle(s: RunState, e: Event, ready: bool, delay: Option<u64>)
    requires
        well_formed(s),
        !is_active(s.status),
    ensures
        stopped(s) == s,
        claimed(s) == s,
        next(s, e, ready, delay).state == s,
        next(s, e, ready, delay).action == Action::Done,
{
}

/// Each cycle gets one waiter: a script that was claimed is not claimed again
/// before its next start.
pub proof fn lemma_claimed_once(s: RunState, e: Event, ready: bool, delay: Option<u64>)
    ensures
        !unattended(claimed(s)),
        !unattended(s) ==> !unattended(next(s, e, ready, delay).state),
        !unattended(s) ==> !unattended(stopped(s)),
{
}

/// The step that follows a start.
pub fn start_step(s: RunState, forced: bool, noexec: bool, delay: Option<u64>) -> (r: Step)
    ensures
        r == started(s, forced, noexec, delay),
{
    if s.status == SCRIPT_STATUS_NOT_STARTED || s.status == SCRIPT_STATUS_INTERRUPTED || s.status
        == SCRIPT_STATUS_FINISHED || s.status == SCRIPT_STATUS_KILLED || s.status
        == SCRIPT_STATUS_FAILED {
        let fresh = RunState {
            status: SCRIPT_STATUS_STARTING,
            phase: Phase::Idle,
            interrupt: false,
            noexec,
            attended: false,
        };
        if forced {
            launch_step(fresh, delay)
        } else {
            go_step(fresh, Phase::Ports, delay)
        }
    } else {
        Step { state: s, action: pending_action(s.phase, delay), note: Note::Nothing }
    }
}

/// The state that follows a stop.
pub fn stop_state(s: RunState) -> (r: RunState)
    ensures
        r == stopped(s),
{
    if s.status == SCRIPT_STATUS_STARTING || s.status == SCRIPT_STATUS_RUNNING {
        RunState { interrupt: true, ..s }
    } else {
        s
    }
}

/// The action that a waiter in this phase has in hand.
pub fn pending_action(phase: Phase, delay: Option<u64>) -> (r: Action)
    ensures
        r == pending(phase, delay),
{
    match phase {
        Phase::Idle => Action::Done,
        Phase::Ports => Action::ProbePorts,
        Phase::PortsPause => Action::Sleep(READINESS_PAUSE_MILLIS),
        Phase::DependenciesPause => Action::Sleep(READINESS_PAUSE_MILLIS),
        Phase::DelayPause => match delay {
            Some(d) => Action::Delay(d),
            None => Action::Delay(0),
        },
        Phase::Launch => Action::Spawn,
        Phase::Poll => Action::Poll,
        Phase::PollPause => Action::Sleep(SUPERVISION_PAUSE_MILLIS),
    }
}

fn go_step(s: RunState, phase: Phase, delay: Option<u64>) -> (r: Step)
    ensures
        r == go(s, phase, delay),
{
    Step { state: RunState { phase, ..s }, action: pending_action(phase, delay), note: Note::Nothing }
}

fn end_step(s: RunState, status: usize, action: Action, note: Note) -> (r: Step)
    ensures
        r == end(s, status, action, note),
{
    Step { state: RunState { status, phase: Phase::Idle, interrupt: false, ..s }, action, note }
}

fn launch_step(s: RunState, delay: Option<u64>) -> (r: Step)
    ensures
        r == launch(s, delay),
{
    if s.noexec {
        end_step(s, SCRIPT_STATUS_FINISHED, Action::Done, Note::DryRun)
    } else {
        go_step(s, Phase::Launch, delay)
    }
}

fn pause_step(s: RunState, phase: Phase, delay: Option<u64>) -> (r: Step)
    ensures
        r == pause(s, phase, delay),
{
    if s.interrupt {
        end_step(s, SCRIPT_STATUS_INTERRUPTED, Action::Done, Note::Nothing)
    } else {
        go_step(s, phase, delay)
    }
}

fn after_ports_step(s: RunState, ready: bool, delay: Option<u64>) -> (r: Step)
    ensures
        r == after_ports(s, ready, delay),
{
    if !ready {
        pause_step(s, Phase::DependenciesPause, delay)
    } else if delay.is_some() {
        go_step(s, Phase::DelayPause, delay)
    } else {
        launch_step(s, delay)
    }
}

/// The step that follows an event.
pub fn next_step(s: RunState, e: &Event, ready: bool, delay: Option<u64>) -> (r: Step)
    ensures
        r == next(s, *e, ready, delay),
{
    let same = Step { state: s, action: pending_action(s.phase, delay), note: Note::Nothing };
    match s.phase {
        Phase::Idle => same,
        Phase::Ports => match e {
            Event::PortsProbed(true) => after_ports_step(s, ready, delay),
            Event::PortsProbed(false) => pause_step(s, Phase::PortsPause, delay),
            _ => same,
        },
        Phase::PortsPause => match e {
            Event::Tick => if s.interrupt {
                end_step(s, SCRIPT_STATUS_INTERRUPTED, Action::Done, Note::Nothing)
            } else {
                go_step(s, Phase::Ports, delay)
            },
            _ => same,
        },
        Phase::DependenciesPause => match e {
            Event::Tick => if s.interrupt {
                end_step(s, SCRIPT_STATUS_INTERRUPTED, Action::Done, Note::Nothing)
            } else {
                after_ports_step(s, ready, delay)
            },
            _ => same,
        },
        Phase::DelayPause => match e {
            Event::Tick => if s.interrupt {
                end_step(s, SCRIPT_STATUS_INTERRUPTED, Action::Done, Note::Nothing)
            } else {
                launch_step(s, delay)
            },
            _ => same,
        },
        Phase::Launch => match e {
            Event::Spawned => Step {
                state: RunState { status: SCRIPT_STATUS_RUNNING, phase: Phase::Poll, ..s },
                action: Action::Poll,
                note: Note::Started,
            },
            Event::SpawnFailed(_) => end_step(
                s,
                SCRIPT_STATUS_FAILED,
                Action::Done,
                Note::FailedToStart,
            ),
            _ => same,
        },
        Phase::Poll => match e {
            Event::Exited(_) => end_step(s, SCRIPT_STATUS_FINISHED, Action::Done, Note::Finished),
            Event::Alive => if s.interrupt {
                end_step(s, SCRIPT_STATUS_INTERRUPTED, Action::Kill, Note::Nothing)
            } else {
                go_step(s, Phase::PollPause, delay)
            },
            Event::PollFailed(_) => end_step(
                s,
                SCRIPT_STATUS_FAILED,
                Action::Kill,
                Note::FailedToWait,
            ),
            _ => same,
        },
        Phase::PollPause => match e {
            Event::Tick => if s.interrupt {
                end_step(s, SCRIPT_STATUS_INTERRUPTED, Action::Kill, Note::Nothing)
            } else {
                go_step(s, Phase::Poll, delay)
            },
            _ => same,
        },
    }
}

} // verus!
