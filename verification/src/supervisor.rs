//! Decisions of the `dsh web` supervisor: lifecycle state, the supervision
//! loop as a state machine, the log tail, the readiness line and the liveness
//! probe's failure counting. The caller performs every action (spawn, wait,
//! kill, sleep) and hands back what happened.

use vstd::prelude::*;
use crate::text::decimal;
use crate::text::{chars_of, concat_str, extend, string_of};

verus! {

/// Which child stream a log line came from.
#[derive(Debug, Clone, Copy, PartialEq, Eq, Structural)]
pub enum LogStream {
    Stdout,
    Stderr,
}

/// Coarse lifecycle state for status displays.
#[derive(Debug, Clone, Copy, PartialEq, Eq, Structural)]
pub enum State {
    Starting,
    Running,
    Backoff,
    Stopped,
}

/// Everything the outside world can observe about the supervised daemon.
#[derive(Debug, Clone)]
pub enum SupervisorEvent {
    /// A launch attempt began (attempt counts from 1).
    Starting { attempt: u32 },
    /// The daemon printed its URL line: /api is mounted and accepting.
    Ready { port: u16, pid: u32 },
    /// The child died or never became ready; next attempt after `retry_in_ms`.
    Crashed { attempt: u32, reason: String, retry_in_ms: u64 },
    /// Supervision ended by request; the child tree is gone.
    Stopped,
    /// One stdout/stderr line from the child tree.
    Log { stream: LogStream, line: String },
}

/// Snapshot of the supervisor's current view.
#[derive(Debug, Clone)]
pub struct Status {
    pub state: State,
    pub pid: Option<u32>,
    pub port: Option<u16>,
    pub attempt: u32,
    pub restarts: u32,
    pub last_error: Option<String>,
}

pub enum EventView {
    Starting { attempt: u32 },
    Ready { port: u16, pid: u32 },
    Crashed { attempt: u32, reason: Seq<char>, retry_in_ms: u64 },
    Stopped,
    Log { stream: LogStream, line: Seq<char> },
}

impl View for SupervisorEvent {
    type V = EventView;

    open spec fn view(&self) -> EventView {
        match self {
            SupervisorEvent::Starting { attempt } => EventView::Starting { attempt: *attempt },
            SupervisorEvent::Ready { port, pid } => EventView::Ready { port: *port, pid: *pid },
            SupervisorEvent::Crashed { attempt, reason, retry_in_ms } => EventView::Crashed {
                attempt: *attempt,
                reason: reason@,
                retry_in_ms: *retry_in_ms,
            },
            SupervisorEvent::Stopped => EventView::Stopped,
            SupervisorEvent::Log { stream, line } => EventView::Log { stream: *stream, line: line@ },
        }
    }
}

pub struct StatusView {
    pub state: State,
    pub pid: Option<u32>,
    pub port: Option<u16>,
    pub attempt: u32,
    pub restarts: u32,
    pub last_error: Option<Seq<char>>,
}

pub open spec fn opt_text(o: Option<String>) -> Option<Seq<char>> {
    match o {
        Some(s) => Some(s@),
        None => None,
    }
}

impl View for Status {
    type V = StatusView;

    open spec fn view(&self) -> StatusView {
        StatusView {
            state: self.state,
            pid: self.pid,
            port: self.port,
            attempt: self.attempt,
            restarts: self.restarts,
            last_error: opt_text(self.last_error),
        }
    }
}

/// What `format!("{:?}", Duration::from_millis(ms))` prints.
pub uninterp spec fn duration_debug_text(ms: u64) -> Seq<char>;

/// `format!("{:?}", Duration::from_millis(ms))` (`<Duration as Debug>::fmt`).
/// The contract names the result and says no more: the decimal and unit rules
/// are std's.
#[verifier::external_body]
pub fn duration_debug(ms: u64) -> (s: String)
    ensures
        s@ == duration_debug_text(ms),
{
    format!("{:?}", std::time::Duration::from_millis(ms))
}

/// The status a launch attempt starts from.
pub open spec fn status_begin(s: StatusView, attempt: u32) -> StatusView {
    StatusView { state: State::Starting, attempt, pid: None, port: None, last_error: None, ..s }
}

pub open spec fn status_ready(s: StatusView, port: u16, pid: u32) -> StatusView {
    StatusView { state: State::Running, port: Some(port), pid: Some(pid), ..s }
}

/// `"<reason> (retry in <delay>)"`
pub open spec fn backoff_note(reason: Seq<char>, delay_ms: u64) -> Seq<char> {
    reason + " (retry in "@ + duration_debug_text(delay_ms) + ")"@
}

pub open spec fn status_backoff(s: StatusView, reason: Seq<char>, delay_ms: u64) -> StatusView
    recommends
        s.restarts < u32::MAX,
{
    StatusView {
        state: State::Backoff,
        pid: None,
        port: None,
        restarts: (s.restarts + 1) as u32,
        last_error: Some(backoff_note(reason, delay_ms)),
        ..s
    }
}

pub open spec fn status_stopped(s: StatusView) -> StatusView {
    StatusView { state: State::Stopped, pid: None, port: None, ..s }
}

impl Status {
    /// The status before the first attempt has run.
    pub fn initial() -> (s: Status)
        ensures
            s@ == (StatusView {
                state: State::Starting,
                pid: None,
                port: None,
                attempt: 1,
                restarts: 0,
                last_error: None,
            }),
    {
        Status { state: State::Starting, pid: None, port: None, attempt: 1, restarts: 0, last_error: None }
    }

    /// A copy with the same model.
    pub fn snapshot(&self) -> (s: Status)
        ensures
            s@ == self@,
    {
        Status {
            state: self.state,
            pid: self.pid,
            port: self.port,
            attempt: self.attempt,
            restarts: self.restarts,
            last_error: match &self.last_error {
                Some(e) => Some(e.clone()),
                None => None,
            },
        }
    }
}

/// Control-plane commands the owner can send at any time (`Run` is the
/// channel's initial value and is never re-sent).
#[derive(Debug, Clone, Copy, PartialEq, Eq, Structural)]
pub enum Control {
    Run,
    Stop,
    Restart,
}

/// What happened since the last action.
pub enum LoopEvent {
    /// Supervision begins.
    Begin,
    /// The child was spawned.
    Spawned { pid: u32 },
    /// Spawning failed with this error text.
    SpawnFailed { error: String },
    /// The child printed the readiness line for this port.
    ReadyLine { port: u16 },
    /// The child exited (or waiting on it failed); the text says how.
    ChildExited { reason: String },
    /// No readiness line within the startup timeout.
    StartupTimedOut,
    /// The port stopped answering while the process lived.
    ServiceDead,
    /// A control command arrived.
    ControlChanged { control: Control },
    /// The kill requested by [`LoopAction::Kill`] is done and the child reaped.
    Killed,
    /// The backoff delay for the attempt asked by [`LoopAction::ComputeDelay`].
    DelayComputed { delay_ms: u64 },
    /// The backoff sleep ran out with no control command.
    BackoffElapsed,
}

pub enum LoopEventView {
    Begin,
    Spawned { pid: u32 },
    SpawnFailed { error: Seq<char> },
    ReadyLine { port: u16 },
    ChildExited { reason: Seq<char> },
    StartupTimedOut,
    ServiceDead,
    ControlChanged { control: Control },
    Killed,
    DelayComputed { delay_ms: u64 },
    BackoffElapsed,
}

impl View for LoopEvent {
    type V = LoopEventView;

    open spec fn view(&self) -> LoopEventView {
        match self {
            LoopEvent::Begin => LoopEventView::Begin,
            LoopEvent::Spawned { pid } => LoopEventView::Spawned { pid: *pid },
            LoopEvent::SpawnFailed { error } => LoopEventView::SpawnFailed { error: error@ },
            LoopEvent::ReadyLine { port } => LoopEventView::ReadyLine { port: *port },
            LoopEvent::ChildExited { reason } => LoopEventView::ChildExited { reason: reason@ },
            LoopEvent::StartupTimedOut => LoopEventView::StartupTimedOut,
            LoopEvent::ServiceDead => LoopEventView::ServiceDead,
            LoopEvent::ControlChanged { control } => LoopEventView::ControlChanged {
                control: *control,
            },
            LoopEvent::Killed => LoopEventView::Killed,
            LoopEvent::DelayComputed { delay_ms } => LoopEventView::DelayComputed {
                delay_ms: *delay_ms,
            },
            LoopEvent::BackoffElapsed => LoopEventView::BackoffElapsed,
        }
    }
}

/// What the caller does next.
#[derive(Debug, Clone, Copy, PartialEq, Eq, Structural)]
pub enum LoopAction {
    /// Spawn the child; answer `Spawned` or `SpawnFailed`.
    Spawn,
    /// Wait for the readiness line; answer `ReadyLine`, `ChildExited`,
    /// `ControlChanged` or `StartupTimedOut`.
    AwaitReady,
    /// Watch the running service; answer `ChildExited`, `ControlChanged` or
    /// `ServiceDead`.
    Supervise,
    /// Take the child tree down and reap it; answer `Killed`.
    Kill,
    /// Compute the backoff delay before this attempt's successor; answer
    /// `DelayComputed`.
    ComputeDelay { attempt: u32 },
    /// Sleep this long unless a control command arrives; answer
    /// `BackoffElapsed` or `ControlChanged`.
    Sleep { delay_ms: u64 },
    /// Supervision is over.
    Finish,
}

/// Why the child is being killed.
pub enum AfterKill {
    Stop,
    Restart,
    Crash { reason: String },
}

pub enum AfterKillView {
    Stop,
    Restart,
    Crash { reason: Seq<char> },
}

/// Where the supervision loop stands.
pub enum Phase {
    Idle,
    Spawning,
    AwaitingReady { pid: u32 },
    Running,
    Killing { next: AfterKill },
    Delaying { reason: String },
    BackingOff,
    Stopped,
}

pub enum PhaseView {
    Idle,
    Spawning,
    AwaitingReady { pid: u32 },
    Running,
    Killing { next: AfterKillView },
    Delaying { reason: Seq<char> },
    BackingOff,
    Stopped,
}

impl View for Phase {
    type V = PhaseView;

    open spec fn view(&self) -> PhaseView {
        match self {
            Phase::Idle => PhaseView::Idle,
            Phase::Spawning => PhaseView::Spawning,
            Phase::AwaitingReady { pid } => PhaseView::AwaitingReady { pid: *pid },
            Phase::Running => PhaseView::Running,
            Phase::Killing { next } => PhaseView::Killing {
                next: match next {
                    AfterKill::Stop => AfterKillView::Stop,
                    AfterKill::Restart => AfterKillView::Restart,
                    AfterKill::Crash { reason } => AfterKillView::Crash { reason: reason@ },
                },
            },
            Phase::Delaying { reason } => PhaseView::Delaying { reason: reason@ },
            Phase::BackingOff => PhaseView::BackingOff,
            Phase::Stopped => PhaseView::Stopped,
        }
    }
}

/// The supervision loop's own state: attempt counter, phase, and the status
/// that `Supervisor::status` reports.
pub struct SupervisorCore {
    pub attempt: u32,
    pub phase: Phase,
    pub status: Status,
}

pub struct CoreView {
    pub attempt: u32,
    pub phase: PhaseView,
    pub status: StatusView,
}

impl View for SupervisorCore {
    type V = CoreView;

    open spec fn view(&self) -> CoreView {
        CoreView { attempt: self.attempt, phase: self.phase@, status: self.status@ }
    }
}

pub struct StepView {
    pub emit: Option<EventView>,
    pub action: LoopAction,
}

/// One transition's output: the event to broadcast, if any, and the action.
pub struct Step {
    pub emit: Option<SupervisorEvent>,
    pub action: LoopAction,
}

impl View for Step {
    type V = StepView;

    open spec fn view(&self) -> StepView {
        StepView {
            emit: match self.emit {
                Some(e) => Some(e@),
                None => None,
            },
            action: self.action,
        }
    }
}

/// `"no ready line within <startup timeout>"`
pub open spec fn startup_timeout_reason() -> Seq<char> {
    "no ready line within "@ + duration_debug_text(300000)
}

pub open spec fn service_dead_reason() -> Seq<char> {
    "service stopped responding on its port"@
}

pub open spec fn spawn_failed_reason(error: Seq<char>) -> Seq<char> {
    "spawn failed: "@ + error
}

/// The events each phase can answer with (and no counter overflow).
pub open spec fn accepts(c: CoreView, e: LoopEventView) -> bool {
    match c.phase {
        PhaseView::Idle => e is Begin && c.attempt < u32::MAX,
        PhaseView::Spawning => e is Spawned || e is SpawnFailed,
        PhaseView::AwaitingReady { .. } => {
            ||| e is ReadyLine
            ||| e is ChildExited
            ||| e is StartupTimedOut
            ||| (e matches LoopEventView::ControlChanged { control } && control != Control::Run)
        },
        PhaseView::Running => {
            ||| e is ChildExited
            ||| e is ServiceDead
            ||| (e matches LoopEventView::ControlChanged { control } && control != Control::Run)
        },
        PhaseView::Killing { .. } => e is Killed,
        PhaseView::Delaying { .. } => e is DelayComputed && c.status.restarts < u32::MAX,
        PhaseView::BackingOff => (e is BackoffElapsed || e is ControlChanged) && c.attempt < u32::MAX,
        PhaseView::Stopped => false,
    }
}

/// Start attempt `a`: fresh status, `Starting { attempt: a }`, spawn.
pub open spec fn launch(c: CoreView, a: u32) -> (CoreView, StepView) {
    (
        CoreView { attempt: a, phase: PhaseView::Spawning, status: status_begin(c.status, a) },
        StepView { emit: Some(EventView::Starting { attempt: a }), action: LoopAction::Spawn },
    )
}

/// Supervision ends: stopped status, `Stopped`, finish.
pub open spec fn stop(c: CoreView) -> (CoreView, StepView) {
    (
        CoreView { phase: PhaseView::Stopped, status: status_stopped(c.status), ..c },
        StepView { emit: Some(EventView::Stopped), action: LoopAction::Finish },
    )
}

/// The attempt failed for `reason`: ask for its backoff delay.
pub open spec fn crash(c: CoreView, reason: Seq<char>) -> (CoreView, StepView) {
    (
        CoreView { phase: PhaseView::Delaying { reason }, ..c },
        StepView { emit: None, action: LoopAction::ComputeDelay { attempt: c.attempt } },
    )
}

pub open spec fn kill(c: CoreView, next: AfterKillView) -> (CoreView, StepView) {
    (
        CoreView { phase: PhaseView::Killing { next }, ..c },
        StepView { emit: None, action: LoopAction::Kill },
    )
}

/// The supervision loop's transition: from the state and what happened, the
/// next state, the event to broadcast and the next action.
pub open spec fn next(c: CoreView, e: LoopEventView) -> (CoreView, StepView)
    recommends
        accepts(c, e),
{
    match c.phase {
        PhaseView::Idle => launch(c, (c.attempt + 1) as u32),
        PhaseView::Spawning => match e {
            LoopEventView::Spawned { pid } => (
                CoreView { phase: PhaseView::AwaitingReady { pid }, ..c },
                StepView { emit: None, action: LoopAction::AwaitReady },
            ),
            LoopEventView::SpawnFailed { error } => crash(c, spawn_failed_reason(error)),
            _ => (c, StepView { emit: None, action: LoopAction::Finish }),
        },
        PhaseView::AwaitingReady { pid } => match e {
            LoopEventView::ReadyLine { port } => (
                CoreView { phase: PhaseView::Running, status: status_ready(c.status, port, pid), ..c },
                StepView { emit: Some(EventView::Ready { port, pid }), action: LoopAction::Supervise },
            ),
            LoopEventView::ChildExited { reason } => crash(c, reason),
            LoopEventView::StartupTimedOut => kill(c, AfterKillView::Crash { reason: startup_timeout_reason() }),
            LoopEventView::ControlChanged { control } => if control == Control::Stop {
                kill(c, AfterKillView::Stop)
            } else {
                kill(c, AfterKillView::Restart)
            },
            _ => (c, StepView { emit: None, action: LoopAction::Finish }),
        },
        PhaseView::Running => match e {
            LoopEventView::ChildExited { reason } => crash(c, reason),
            LoopEventView::ServiceDead => kill(c, AfterKillView::Crash { reason: service_dead_reason() }),
            LoopEventView::ControlChanged { control } => if control == Control::Stop {
                kill(c, AfterKillView::Stop)
            } else {
                kill(c, AfterKillView::Restart)
            },
            _ => (c, StepView { emit: None, action: LoopAction::Finish }),
        },
        PhaseView::Killing { next } => match next {
            AfterKillView::Stop => stop(c),
            AfterKillView::Restart => launch(c, 1),
            AfterKillView::Crash { reason } => crash(c, reason),
        },
        PhaseView::Delaying { reason } => match e {
            LoopEventView::DelayComputed { delay_ms } => (
                CoreView {
                    phase: PhaseView::BackingOff,
                    status: status_backoff(c.status, reason, delay_ms),
                    ..c
                },
                StepView {
                    emit: Some(EventView::Crashed { attempt: c.attempt, reason, retry_in_ms: delay_ms }),
                    action: LoopAction::Sleep { delay_ms },
                },
            ),
            _ => (c, StepView { emit: None, action: LoopAction::Finish }),
        },
        PhaseView::BackingOff => match e {
            LoopEventView::ControlChanged { control } => if control == Control::Stop {
                stop(c)
            } else if control == Control::Restart {
                launch(c, 1)
            } else {
                launch(c, (c.attempt + 1) as u32)
            },
            _ => launch(c, (c.attempt + 1) as u32),
        },
        PhaseView::Stopped => (c, StepView { emit: None, action: LoopAction::Finish }),
    }
}

impl SupervisorCore {
    /// The loop before `Begin`: attempt counter at zero, initial status.
    pub fn new() -> (c: SupervisorCore)
        ensures
            c@ == initial_core(),
            core_wf(c@),
            c@.attempt == 0,
            c@.phase is Idle,
            c@.status == (StatusView {
                state: State::Starting,
                pid: None,
                port: None,
                attempt: 1,
                restarts: 0,
                last_error: None,
            }),
    {
        SupervisorCore { attempt: 0, phase: Phase::Idle, status: Status::initial() }
    }

    /// Whether `e` is an answer the current phase can take.
    pub fn accepts_event(&self, e: &LoopEvent) -> (b: bool)
        ensures
            b == accepts(self@, e@),
    {
        match &self.phase {
            Phase::Idle => matches!(e, LoopEvent::Begin) && self.attempt < u32::MAX,
            Phase::Spawning => matches!(e, LoopEvent::Spawned { .. } | LoopEvent::SpawnFailed { .. }),
            Phase::AwaitingReady { .. } => match e {
                LoopEvent::ReadyLine { .. } | LoopEvent::ChildExited { .. } | LoopEvent::StartupTimedOut => true,
                LoopEvent::ControlChanged { control } => !matches!(control, Control::Run),
                _ => false,
            },
            Phase::Running => match e {
                LoopEvent::ChildExited { .. } | LoopEvent::ServiceDead => true,
                LoopEvent::ControlChanged { control } => !matches!(control, Control::Run),
                _ => false,
            },
            Phase::Killing { .. } => matches!(e, LoopEvent::Killed),
            Phase::Delaying { .. } => matches!(e, LoopEvent::DelayComputed { .. })
                && self.status.restarts < u32::MAX,
            Phase::BackingOff => matches!(e, LoopEvent::BackoffElapsed | LoopEvent::ControlChanged { .. })
                && self.attempt < u32::MAX,
            Phase::Stopped => false,
        }
    }

    fn do_launch(&mut self, a: u32) -> (s: Step)
        ensures
            (final(self)@, s@) == launch(old(self)@, a),
    {
        self.attempt = a;
        self.phase = Phase::Spawning;
        self.status.state = State::Starting;
        self.status.attempt = a;
        self.status.pid = None;
        self.status.port = None;
        self.status.last_error = None;
        Step { emit: Some(SupervisorEvent::Starting { attempt: a }), action: LoopAction::Spawn }
    }

    fn do_stop(&mut self) -> (s: Step)
        ensures
            (final(self)@, s@) == stop(old(self)@),
    {
        self.phase = Phase::Stopped;
        self.status.state = State::Stopped;
        self.status.pid = None;
        self.status.port = None;
        Step { emit: Some(SupervisorEvent::Stopped), action: LoopAction::Finish }
    }

    fn do_crash(&mut self, reason: String) -> (s: Step)
        ensures
            (final(self)@, s@) == crash(old(self)@, reason@),
    {
        self.phase = Phase::Delaying { reason };
        Step { emit: None, action: LoopAction::ComputeDelay { attempt: self.attempt } }
    }

    fn do_kill(&mut self, next: AfterKill) -> (s: Step)
        ensures
            (final(self)@, s@) == kill(old(self)@, (Phase::Killing { next })@->next),
    {
        self.phase = Phase::Killing { next };
        Step { emit: None, action: LoopAction::Kill }
    }

    /// One transition of the supervision loop.
    pub fn step(&mut self, e: LoopEvent) -> (s: Step)
        requires
            accepts(old(self)@, e@),
        ensures
            (final(self)@, s@) == next(old(self)@, e@),
    {
        let mut phase = Phase::Stopped;
        std::mem::swap(&mut phase, &mut self.phase);
        let ghost c0 = CoreView { phase: phase@, ..old(self)@ };
        assert(old(self)@ == c0);
        match phase {
            Phase::Idle => {
                let a = self.attempt + 1;
                self.do_launch(a)
            },
            Phase::Spawning => match e {
                LoopEvent::Spawned { pid } => {
                    self.phase = Phase::AwaitingReady { pid };
                    Step { emit: None, action: LoopAction::AwaitReady }
                },
                LoopEvent::SpawnFailed { error } => {
                    let v = concat_str("spawn failed: ", chars_of(error.as_str()).as_slice());
                    self.do_crash(string_of(v.as_slice()))
                },
                _ => {
                    self.phase = Phase::Spawning;
                    Step { emit: None, action: LoopAction::Finish }
                },
            },
            Phase::AwaitingReady { pid } => match e {
                LoopEvent::ReadyLine { port } => {
                    self.phase = Phase::Running;
                    self.status.state = State::Running;
                    self.status.port = Some(port);
                    self.status.pid = Some(pid);
                    Step { emit: Some(SupervisorEvent::Ready { port, pid }), action: LoopAction::Supervise }
                },
                LoopEvent::ChildExited { reason } => self.do_crash(reason),
                LoopEvent::StartupTimedOut => {
                    let d = duration_debug(300000);
                    let v = concat_str("no ready line within ", chars_of(d.as_str()).as_slice());
                    self.do_kill(AfterKill::Crash { reason: string_of(v.as_slice()) })
                },
                LoopEvent::ControlChanged { control } => {
                    if control == Control::Stop {
                        self.do_kill(AfterKill::Stop)
                    } else {
                        self.do_kill(AfterKill::Restart)
                    }
                },
                _ => {
                    self.phase = Phase::AwaitingReady { pid };
                    Step { emit: None, action: LoopAction::Finish }
                },
            },
            Phase::Running => match e {
                LoopEvent::ChildExited { reason } => self.do_crash(reason),
                LoopEvent::ServiceDead => {
                    let r = string_of(chars_of("service stopped responding on its port").as_slice());
                    self.do_kill(AfterKill::Crash { reason: r })
                },
                LoopEvent::ControlChanged { control } => {
                    if control == Control::Stop {
                        self.do_kill(AfterKill::Stop)
                    } else {
                        self.do_kill(AfterKill::Restart)
                    }
                },
                _ => {
                    self.phase = Phase::Running;
                    Step { emit: None, action: LoopAction::Finish }
                },
            },
            Phase::Killing { next } => match next {
                AfterKill::Stop => self.do_stop(),
                AfterKill::Restart => self.do_launch(1),
                AfterKill::Crash { reason } => self.do_crash(reason),
            },
            Phase::Delaying { reason } => match e {
                LoopEvent::DelayComputed { delay_ms } => {
                    let d = duration_debug(delay_ms);
                    let mut note = chars_of(reason.as_str());
                    let mid = concat_str(" (retry in ", chars_of(d.as_str()).as_slice());
                    extend(&mut note, mid.as_slice());
                    extend(&mut note, chars_of(")").as_slice());
                    assert(note@ =~= backoff_note(reason@, delay_ms));
                    self.phase = Phase::BackingOff;
                    self.status.state = State::Backoff;
                    self.status.pid = None;
                    self.status.port = None;
                    self.status.restarts = self.status.restarts + 1;
                    self.status.last_error = Some(string_of(note.as_slice()));
                    Step {
                        emit: Some(
                            SupervisorEvent::Crashed { attempt: self.attempt, reason, retry_in_ms: delay_ms },
                        ),
                        action: LoopAction::Sleep { delay_ms },
                    }
                },
                _ => {
                    self.phase = Phase::Delaying { reason };
                    Step { emit: None, action: LoopAction::Finish }
                },
            },
            Phase::BackingOff => match e {
                LoopEvent::ControlChanged { control: Control::Stop } => self.do_stop(),
                LoopEvent::ControlChanged { control: Control::Restart } => self.do_launch(1),
                _ => {
                    let a = self.attempt + 1;
                    self.do_launch(a)
                },
            },
            Phase::Stopped => Step { emit: None, action: LoopAction::Finish },
        }
    }
}

} // verus!

verus! {

/// The status mirrors the loop: the attempt it reports is the loop's, and its
/// state, pid and port agree with the phase.
pub open spec fn core_wf(c: CoreView) -> bool {
    let s = c.status;
    let starting = s.state == State::Starting && s.pid is None && s.port is None && s.last_error is None;
    let running = s.state == State::Running && s.pid is Some && s.port is Some && s.last_error is None;
    &&& s.attempt >= 1
    &&& match c.phase {
        PhaseView::Idle => c.attempt == 0 && starting,
        PhaseView::Spawning | PhaseView::AwaitingReady { .. } => c.attempt >= 1 && s.attempt == c.attempt
            && starting,
        PhaseView::Running => c.attempt >= 1 && s.attempt == c.attempt && running,
        PhaseView::Killing { .. } | PhaseView::Delaying { .. } => c.attempt >= 1 && s.attempt
            == c.attempt && (starting || running),
        PhaseView::BackingOff => c.attempt >= 1 && s.attempt == c.attempt && s.state == State::Backoff
            && s.pid is None && s.port is None && s.last_error is Some,
        PhaseView::Stopped => s.state == State::Stopped && s.pid is None && s.port is None,
    }
}

/// What a status snapshot always shows: running exactly when a port is
/// known, a pid exactly when a port is, an attempt counted from 1, an error
/// while backing off and none while starting or running.
pub open spec fn status_consistent(s: StatusView) -> bool {
    &&& (s.state == State::Running) == (s.port is Some)
    &&& (s.port is Some) == (s.pid is Some)
    &&& s.attempt >= 1
    &&& (s.state == State::Backoff ==> s.last_error is Some)
    &&& ((s.state == State::Starting || s.state == State::Running) ==> s.last_error is None)
}

/// Every status the loop holds is consistent: `core_wf` holds from
/// [`SupervisorCore::new`] on and is kept by every transition
/// ([`lemma_step_keeps_wf`]), and implies it.
pub proof fn lemma_status_consistent(c: CoreView)
    requires
        core_wf(c),
    ensures
        status_consistent(c.status),
{
}

/// Every transition keeps the status in step with the loop (`core_wf`), and a
/// `Starting` event always announces the attempt the status reports.
pub proof fn lemma_step_keeps_wf(c: CoreView, e: LoopEventView)
    requires
        core_wf(c),
        accepts(c, e),
    ensures
        core_wf(next(c, e).0),
        next(c, e).1.emit matches Some(EventView::Starting { attempt }) ==> attempt == next(
            c,
            e,
        ).0.status.attempt && attempt >= 1,
        next(c, e).1.emit matches Some(EventView::Crashed { attempt, .. }) ==> attempt == c.attempt
            && next(c, e).0.status.restarts == c.status.restarts + 1,
{
}

/// A restart, in any phase where one can arrive, kills the child if one is
/// alive and relaunches at attempt 1: the backoff starts over.
pub proof fn lemma_restart_resets_backoff(c: CoreView)
    requires
        core_wf(c),
        c.phase is AwaitingReady || c.phase is Running || c.phase is BackingOff,
        c.attempt < u32::MAX,
    ensures
        ({
            let e = LoopEventView::ControlChanged { control: Control::Restart };
            let (c1, s1) = next(c, e);
            let (c2, s2) = if s1.action == LoopAction::Kill {
                next(c1, LoopEventView::Killed)
            } else {
                (c1, s1)
            };
            &&& accepts(c, e)
            &&& (s1.action == LoopAction::Kill ==> accepts(c1, LoopEventView::Killed) && s1.emit is None)
            &&& (s1.action == LoopAction::Kill <==> !(c.phase is BackingOff))
            &&& s2.emit == Some(EventView::Starting { attempt: 1 })
            &&& s2.action == LoopAction::Spawn
            &&& c2.attempt == 1
            &&& c2.status.attempt == 1
            &&& c2.status.restarts == c.status.restarts
        }),
{
}

/// A stop, in any phase where one can arrive, takes the child tree down if
/// one is alive, then announces `Stopped` and ends supervision with the
/// stopped status.
pub proof fn lemma_stop_is_announced(c: CoreView)
    requires
        core_wf(c),
        c.phase is AwaitingReady || c.phase is Running || c.phase is BackingOff,
        c.attempt < u32::MAX,
    ensures
        ({
            let e = LoopEventView::ControlChanged { control: Control::Stop };
            let (c1, s1) = next(c, e);
            let (c2, s2) = if s1.action == LoopAction::Kill {
                next(c1, LoopEventView::Killed)
            } else {
                (c1, s1)
            };
            &&& accepts(c, e)
            &&& (s1.action == LoopAction::Kill ==> accepts(c1, LoopEventView::Killed) && s1.emit is None)
            &&& (s1.action == LoopAction::Kill <==> !(c.phase is BackingOff))
            &&& s2.emit == Some(EventView::Stopped)
            &&& s2.action == LoopAction::Finish
            &&& c2.status.state == State::Stopped
            &&& c2.status.pid is None
            &&& c2.status.port is None
            &&& c2.phase is Stopped
            &&& forall|e2: LoopEventView| !accepts(c2, e2)
        }),
{
}

/// Supervision ends only through a stop: every transition that finishes the
/// loop announces `Stopped` and leaves the stopped status behind.
pub proof fn lemma_finish_only_after_stop(c: CoreView, e: LoopEventView)
    requires
        accepts(c, e),
        next(c, e).1.action == LoopAction::Finish,
    ensures
        next(c, e).1.emit == Some(EventView::Stopped),
        next(c, e).0.phase is Stopped,
        next(c, e).0.status.state == State::Stopped,
        next(c, e).0.status.pid is None,
        next(c, e).0.status.port is None,
{
}

/// `restarts` counts the `Crashed` announcements: a transition that announces
/// a crash raises it by one, and no other transition changes it.
pub proof fn lemma_restarts_count_crashes(c: CoreView, e: LoopEventView)
    requires
        accepts(c, e),
    ensures
        next(c, e).0.status.restarts == c.status.restarts + (if next(c, e).1.emit matches Some(
            EventView::Crashed { .. },
        ) {
            1int
        } else {
            0int
        }),
{
}

/// A failed attempt is reported once, with the delay computed for that same
/// attempt; the retry that follows is the next attempt.
pub proof fn lemma_crash_then_retry(c: CoreView, reason: Seq<char>, delay_ms: u64)
    requires
        core_wf(c),
        c.phase == (PhaseView::Delaying { reason }),
        c.status.restarts < u32::MAX,
        c.attempt < u32::MAX,
    ensures
        ({
            let (c1, s1) = next(c, LoopEventView::DelayComputed { delay_ms });
            let (c2, s2) = next(c1, LoopEventView::BackoffElapsed);
            &&& s1.emit == Some(
                EventView::Crashed { attempt: c.attempt, reason, retry_in_ms: delay_ms },
            )
            &&& s1.action == LoopAction::Sleep { delay_ms }
            &&& c1.status.state == State::Backoff
            &&& c1.status.restarts == c.status.restarts + 1
            &&& c1.status.last_error == Some(backoff_note(reason, delay_ms))
            &&& accepts(c1, LoopEventView::BackoffElapsed)
            &&& s2.emit == Some(EventView::Starting { attempt: (c.attempt + 1) as u32 })
            &&& s2.action == LoopAction::Spawn
            &&& c2.status.restarts == c1.status.restarts
        }),
{
}


/// What an observer of the loop sees: the events it broadcasts, and the
/// restart commands it takes.
pub enum Observed {
    Broadcast(EventView),
    RestartCommand,
}

/// What one transition on event `e` shows: the restart command, if `e` is
/// one, then the event broadcast, if any.
pub open spec fn observed(e: LoopEventView, s: StepView) -> Seq<Observed> {
    let cmd: Seq<Observed> = if e matches LoopEventView::ControlChanged { control }
        && control == Control::Restart {
        seq![Observed::RestartCommand]
    } else {
        seq![]
    };
    cmd + match s.emit {
        Some(ev) => seq![Observed::Broadcast(ev)],
        None => seq![],
    }
}

/// Each event of `es` is one that the phase it reaches takes.
pub open spec fn all_accepted(c: CoreView, es: Seq<LoopEventView>) -> bool
    decreases es.len(),
{
    es.len() == 0 || (accepts(c, es[0]) && all_accepted(next(c, es[0]).0, es.drop_first()))
}

/// The state reached and what is observed when the loop takes `es` from `c`.
pub open spec fn run_from(c: CoreView, es: Seq<LoopEventView>) -> (CoreView, Seq<Observed>)
    decreases es.len(),
{
    if es.len() == 0 {
        (c, seq![])
    } else {
        let (c1, s1) = next(c, es[0]);
        let (cf, out) = run_from(c1, es.drop_first());
        (cf, observed(es[0], s1) + out)
    }
}

/// The loop as [`SupervisorCore::new`] makes it.
pub open spec fn initial_core() -> CoreView {
    CoreView {
        attempt: 0,
        phase: PhaseView::Idle,
        status: StatusView {
            state: State::Starting,
            pid: None,
            port: None,
            attempt: 1,
            restarts: 0,
            last_error: None,
        },
    }
}

/// The latest broadcast event of `s`.
pub open spec fn last_event(s: Seq<Observed>) -> Option<EventView>
    decreases s.len(),
{
    if s.len() == 0 {
        None
    } else {
        match s.last() {
            Observed::Broadcast(e) => Some(e),
            Observed::RestartCommand => last_event(s.drop_last()),
        }
    }
}

/// Whether a restart command came after the latest broadcast event.
pub open spec fn restart_since(s: Seq<Observed>) -> bool {
    s.len() > 0 && s.last() is RestartCommand
}

/// The attempt of the latest `Starting` in `s` (0 when there is none).
pub open spec fn latest_attempt(s: Seq<Observed>) -> u32
    decreases s.len(),
{
    if s.len() == 0 {
        0
    } else {
        match s.last() {
            Observed::Broadcast(EventView::Starting { attempt }) => attempt,
            _ => latest_attempt(s.drop_last()),
        }
    }
}

/// The order of what is observed: the first event is `Starting { 1 }`; a
/// restart command comes only once something was announced, and the next
/// announcement after it is a `Starting` of attempt 1; a `Starting`
/// right after `Crashed { n }` is attempt `n + 1`, or attempt 1 when a restart
/// command came between them; any other `Starting` is attempt 1 after a
/// restart command; `Ready` directly follows a `Starting`; `Crashed` follows
/// a `Starting` or `Ready` and reports the attempt of the latest `Starting`;
/// nothing follows `Stopped`.
pub open spec fn observed_ok(s: Seq<Observed>) -> bool
    decreases s.len(),
{
    if s.len() == 0 {
        true
    } else {
        let p = s.drop_last();
        &&& observed_ok(p)
        &&& !(last_event(p) == Some(EventView::Stopped))
        &&& match s.last() {
            Observed::RestartCommand => last_event(p) is Some && !restart_since(p),
            Observed::Broadcast(EventView::Starting { attempt }) => match last_event(p) {
                None => attempt == 1,
                Some(EventView::Crashed { attempt: n, .. }) => if restart_since(p) {
                    attempt == 1
                } else {
                    attempt == n + 1
                },
                Some(_) => restart_since(p) && attempt == 1,
            },
            Observed::Broadcast(EventView::Ready { .. }) => (last_event(p) matches Some(
                EventView::Starting { .. },
            )) && !restart_since(p),
            Observed::Broadcast(EventView::Crashed { attempt, .. }) => {
                &&& (last_event(p) matches Some(EventView::Starting { .. })) || (last_event(p) matches Some(
                    EventView::Ready { .. },
                ))
                &&& !restart_since(p)
                &&& attempt == latest_attempt(p)
            },
            Observed::Broadcast(EventView::Stopped) => last_event(p) is Some && !restart_since(p),
            Observed::Broadcast(EventView::Log { .. }) => false,
        }
    }
}

pub open spec fn started_or_ready(e: Option<EventView>) -> bool {
    (e matches Some(EventView::Starting { .. })) || (e matches Some(EventView::Ready { .. }))
}

/// How what was observed so far stands to the loop's state.
pub open spec fn run_inv(c: CoreView, s: Seq<Observed>) -> bool {
    &&& observed_ok(s)
    &&& match c.phase {
        PhaseView::Idle => s.len() == 0 && c.attempt == 0,
        PhaseView::Spawning | PhaseView::AwaitingReady { .. } => last_event(s) == Some(
            EventView::Starting { attempt: c.attempt },
        ) && !restart_since(s),
        PhaseView::Running => (last_event(s) matches Some(EventView::Ready { .. })) && latest_attempt(s)
            == c.attempt && !restart_since(s),
        PhaseView::Killing { next } => started_or_ready(last_event(s)) && latest_attempt(s)
            == c.attempt && restart_since(s) == (next is Restart),
        PhaseView::Delaying { .. } => started_or_ready(last_event(s)) && latest_attempt(s) == c.attempt
            && !restart_since(s),
        PhaseView::BackingOff => (last_event(s) matches Some(EventView::Crashed { attempt: n, .. }) && n
            == c.attempt) && !restart_since(s),
        PhaseView::Stopped => last_event(s) == Some(EventView::Stopped),
    }
}

proof fn lemma_push_facts(s: Seq<Observed>, x: Observed)
    ensures
        s.push(x).drop_last() == s,
        s.push(x).last() == x,
        s.push(x).len() > 0,
        last_event(s.push(x)) == (match x {
            Observed::Broadcast(e) => Some(e),
            Observed::RestartCommand => last_event(s),
        }),
        restart_since(s.push(x)) == (x is RestartCommand),
        latest_attempt(s.push(x)) == (match x {
            Observed::Broadcast(EventView::Starting { attempt }) => attempt,
            _ => latest_attempt(s),
        }),
        observed_ok(s.push(x)) == ({
            let p = s;
            &&& observed_ok(p)
            &&& !(last_event(p) == Some(EventView::Stopped))
            &&& match x {
                Observed::RestartCommand => last_event(p) is Some && !restart_since(p),
                Observed::Broadcast(EventView::Starting { attempt }) => match last_event(p) {
                    None => attempt == 1,
                    Some(EventView::Crashed { attempt: n, .. }) => if restart_since(p) {
                        attempt == 1
                    } else {
                        attempt == n + 1
                    },
                    Some(_) => restart_since(p) && attempt == 1,
                },
                Observed::Broadcast(EventView::Ready { .. }) => (last_event(p) matches Some(
                    EventView::Starting { .. },
                )) && !restart_since(p),
                Observed::Broadcast(EventView::Crashed { attempt, .. }) => {
                    &&& (last_event(p) matches Some(EventView::Starting { .. })) || (last_event(
                        p,
                    ) matches Some(EventView::Ready { .. }))
                    &&& !restart_since(p)
                    &&& attempt == latest_attempt(p)
                },
                Observed::Broadcast(EventView::Stopped) => last_event(p) is Some && !restart_since(p),
                Observed::Broadcast(EventView::Log { .. }) => false,
            }
        }),
{
    assert(s.push(x).drop_last() =~= s);
}

proof fn lemma_step_inv(c: CoreView, s: Seq<Observed>, e: LoopEventView)
    requires
        run_inv(c, s),
        accepts(c, e),
    ensures
        run_inv(next(c, e).0, s + observed(e, next(c, e).1)),
{
    let (c1, s1) = next(c, e);
    let is_restart = e matches LoopEventView::ControlChanged { control } && control == Control::Restart;
    let s0 = if is_restart {
        s.push(Observed::RestartCommand)
    } else {
        s
    };
    if is_restart {
        lemma_push_facts(s, Observed::RestartCommand);
    }
    let out = s + observed(e, s1);
    match s1.emit {
        Some(ev) => {
            lemma_push_facts(s0, Observed::Broadcast(ev));
            assert(out =~= s0.push(Observed::Broadcast(ev)));
        },
        None => {
            assert(out =~= s0);
        },
    }
}

proof fn lemma_run_inv(c: CoreView, s: Seq<Observed>, es: Seq<LoopEventView>)
    requires
        run_inv(c, s),
        all_accepted(c, es),
    ensures
        run_inv(run_from(c, es).0, s + run_from(c, es).1),
    decreases es.len(),
{
    if es.len() == 0 {
        assert(s + run_from(c, es).1 =~= s);
    } else {
        let (c1, s1) = next(c, es[0]);
        lemma_step_inv(c, s, es[0]);
        lemma_run_inv(c1, s + observed(es[0], s1), es.drop_first());
        let rest = run_from(c1, es.drop_first()).1;
        assert(s + observed(es[0], s1) + rest =~= s + (observed(es[0], s1) + rest));
    }
}

/// Over any run from a fresh loop, what is observed keeps its order
/// ([`observed_ok`]): the first announcement is `Starting { attempt: 1 }`; a
/// `Ready` directly follows a `Starting`; a `Crashed` reports the attempt of
/// the latest `Starting`; the `Starting` right after `Crashed { n }` is attempt
/// `n + 1` unless a restart command came between them, and then attempt 1;
/// a `Starting` after a `Starting` or `Ready` comes only through a restart
/// and is attempt 1; after a restart command the next announcement is that
/// `Starting` of attempt 1 (never `Stopped`, `Ready` or `Crashed`), so the
/// backoff starts over; nothing follows `Stopped`.
pub proof fn lemma_event_sequence(es: Seq<LoopEventView>)
    requires
        all_accepted(initial_core(), es),
    ensures
        observed_ok(run_from(initial_core(), es).1),
{
    let c = initial_core();
    let s = Seq::<Observed>::empty();
    lemma_run_inv(c, s, es);
    assert(s + run_from(c, es).1 =~= run_from(c, es).1);
}

} // verus!

verus! {

/// Retained log lines.
pub const LOG_TAIL_CAP: usize = 500;

/// The last `n` elements of `s` (all of `s` when shorter).
pub open spec fn keep_last<A>(s: Seq<A>, n: nat) -> Seq<A> {
    if s.len() > n {
        s.skip(s.len() - n)
    } else {
        s
    }
}

pub open spec fn log_entry_views(v: Seq<(LogStream, String)>) -> Seq<(LogStream, Seq<char>)> {
    v.map_values(|e: (LogStream, String)| (e.0, e.1@))
}

/// The daemon's bounded log tail: the most recent lines, oldest first.
pub struct LogTail {
    entries: std::collections::VecDeque<(LogStream, String)>,
}

impl View for LogTail {
    type V = Seq<(LogStream, Seq<char>)>;

    closed spec fn view(&self) -> Seq<(LogStream, Seq<char>)> {
        log_entry_views(self.entries@)
    }
}

impl LogTail {
    /// At most [`LOG_TAIL_CAP`] lines are held.
    #[verifier::type_invariant]
    spec fn bounded(&self) -> bool {
        self.entries@.len() <= LOG_TAIL_CAP
    }

    pub fn new() -> (t: LogTail)
        ensures
            t@ == Seq::<(LogStream, Seq<char>)>::empty(),
    {
        let t = LogTail { entries: std::collections::VecDeque::new() };
        assert(t@ =~= Seq::<(LogStream, Seq<char>)>::empty());
        t
    }

    /// Appends a line, dropping the oldest beyond [`LOG_TAIL_CAP`].
    pub fn push(&mut self, stream: LogStream, line: String)
        ensures
            final(self)@ == keep_last(old(self)@.push((stream, line@)), LOG_TAIL_CAP as nat),
            final(self)@.len() <= LOG_TAIL_CAP,
    {
        proof {
            use_type_invariant(&*self);
        }
        let ghost before = self@;
        let mut entries = std::collections::VecDeque::new();
        std::mem::swap(&mut entries, &mut self.entries);
        if entries.len() >= LOG_TAIL_CAP {
            let _ = entries.pop_front();
            assert(log_entry_views(entries@) =~= before.drop_first());
        }
        let ghost mid = log_entry_views(entries@);
        entries.push_back((stream, line));
        assert(log_entry_views(entries@) =~= mid.push((stream, line@)));
        self.entries = entries;
        assert(self@ =~= keep_last(before.push((stream, line@)), LOG_TAIL_CAP as nat));
    }

    pub fn len(&self) -> (n: usize)
        ensures
            n == self@.len(),
    {
        self.entries.len()
    }

    /// The last `max` lines (all of them when fewer), oldest first.
    pub fn tail(&self, max: usize) -> (r: Vec<(LogStream, String)>)
        ensures
            log_entry_views(r@) == keep_last(self@, max as nat),
    {
        let n = self.entries.len();
        let skip = if n > max { n - max } else { 0 };
        let mut r: Vec<(LogStream, String)> = Vec::new();
        let mut i = skip;
        while i < n
            invariant
                n == self.entries@.len(),
                skip <= i <= n,
                skip == (if n > max { n - max } else { 0 }),
                log_entry_views(r@) == self@.subrange(skip as int, i as int),
            decreases n - i,
        {
            let e = &self.entries[i];
            let ghost before = r@;
            r.push((e.0, e.1.clone()));
            assert(log_entry_views(r@) =~= log_entry_views(before).push((e.0, e.1@)));
            assert(self@.subrange(skip as int, i + 1) =~= self@.subrange(skip as int, i as int).push(
                self@[i as int],
            ));
            i += 1;
        }
        assert(self@.subrange(skip as int, n as int) =~= keep_last(self@, max as nat));
        r
    }
}

/// Upstream's readiness contract printed on stdout.
pub open spec fn ready_prefix() -> Seq<char> {
    "dsh web: http://127.0.0.1:"@
}

/// The longest prefix of `s` made of ASCII digits.
pub open spec fn leading_digits(s: Seq<char>) -> Seq<char>
    decreases s.len(),
{
    if s.len() > 0 && crate::text::is_digit(s[0]) {
        seq![s[0]] + leading_digits(s.drop_first())
    } else {
        seq![]
    }
}

/// The number a run of ASCII digits spells.
pub open spec fn digits_value(s: Seq<char>) -> nat
    decreases s.len(),
{
    if s.len() == 0 {
        0
    } else {
        digits_value(s.drop_last()) * 10 + ((s.last() as u32) - ('0' as u32)) as nat
    }
}

/// The port of the readiness line `dsh web: http://127.0.0.1:<port>`, found
/// anywhere in the line: the digits right after the first occurrence of the
/// prefix, when there are some and they fit a `u16`.
pub open spec fn ready_port_spec(line: Seq<char>) -> Option<u16> {
    let k = crate::text::index_of_sub(line, ready_prefix());
    if k < 0 {
        None
    } else {
        let d = leading_digits(line.skip(k + ready_prefix().len()));
        if d.len() == 0 || digits_value(d) > 65535 {
            None
        } else {
            Some(digits_value(d) as u16)
        }
    }
}

proof fn lemma_digits_value_decimal(n: nat)
    ensures
        decimal(n).len() > 0,
        forall|i: int| 0 <= i < decimal(n).len() ==> crate::text::is_digit(#[trigger] decimal(n)[i]),
        digits_value(decimal(n)) == n,
    decreases n,
{
    let d = decimal(n);
    if n < 10 {
        assert(d.drop_last() =~= Seq::<char>::empty());
        assert(d.last() == crate::text::digit_char(n));
        assert(digits_value(d) == digits_value(d.drop_last()) * 10 + ((d.last() as u32) - ('0' as u32)) as nat);
    } else {
        lemma_digits_value_decimal(n / 10);
        assert(d.drop_last() =~= decimal(n / 10));
        assert(d.last() == crate::text::digit_char(n % 10));
        assert((n / 10) * 10 + n % 10 == n) by (nonlinear_arith);
        assert(digits_value(d) == digits_value(d.drop_last()) * 10 + ((d.last() as u32) - ('0' as u32)) as nat);
        assert forall|i: int| 0 <= i < d.len() implies crate::text::is_digit(#[trigger] d[i]) by {
            if i < d.len() - 1 {
                assert(d[i] == decimal(n / 10)[i]);
            }
        }
    }
}

proof fn lemma_leading_digits_run(a: Seq<char>, tail: Seq<char>)
    requires
        forall|i: int| 0 <= i < a.len() ==> crate::text::is_digit(#[trigger] a[i]),
        tail.len() == 0 || !crate::text::is_digit(tail[0]),
    ensures
        leading_digits(a + tail) == a,
    decreases a.len(),
{
    if a.len() == 0 {
        assert(a + tail =~= tail);
    } else {
        assert((a + tail)[0] == a[0]);
        assert((a + tail).drop_first() =~= a.drop_first() + tail);
        assert forall|i: int| 0 <= i < a.drop_first().len() implies crate::text::is_digit(
            #[trigger] a.drop_first()[i],
        ) by {
            assert(a.drop_first()[i] == a[i + 1]);
        }
        lemma_leading_digits_run(a.drop_first(), tail);
        assert(seq![a[0]] + a.drop_first() =~= a);
    }
}

/// The readiness line for any port, followed by anything that does not
/// continue the number (nothing, a space, a path, ...), gives that port back.
pub proof fn lemma_ready_line_port(port: u16, tail: Seq<char>)
    requires
        tail.len() == 0 || !crate::text::is_digit(tail[0]),
    ensures
        ready_port_spec(ready_prefix() + decimal(port as nat) + tail) == Some(port),
{
    let pre = ready_prefix();
    let d = decimal(port as nat);
    let line = pre + d + tail;
    lemma_digits_value_decimal(port as nat);
    assert(line.subrange(0, pre.len() as int) =~= pre);
    assert(crate::text::occurs_at(line, pre, 0));
    assert(crate::text::index_of_sub(line, pre) == 0);
    assert(line.skip(pre.len() as int) =~= d + tail);
    lemma_leading_digits_run(d, tail);
}

proof fn lemma_leading_digits_step(s: Seq<char>, i: int)
    requires
        0 <= i < s.len(),
        forall|j: int| 0 <= j < i ==> crate::text::is_digit(#[trigger] s[j]),
    ensures
        crate::text::is_digit(s[i]) ==> leading_digits(s).len() > i && leading_digits(s)[i] == s[i],
        !crate::text::is_digit(s[i]) ==> leading_digits(s) == s.take(i),
        forall|j: int| 0 <= j < i ==> leading_digits(s).len() > j && #[trigger] leading_digits(s)[j] == s[j],
    decreases i,
{
    if i > 0 {
        lemma_leading_digits_step(s.drop_first(), i - 1);
        assert forall|j: int| 0 <= j < i - 1 implies crate::text::is_digit(#[trigger] s.drop_first()[j]) by {
            assert(s.drop_first()[j] == s[j + 1]);
        }
        if !crate::text::is_digit(s[i]) {
            assert(s.take(i) =~= seq![s[0]] + s.drop_first().take(i - 1));
        }
    } else {
        if !crate::text::is_digit(s[0]) {
            assert(s.take(0) =~= Seq::<char>::empty());
        }
    }
}

proof fn lemma_leading_digits_all(s: Seq<char>)
    requires
        forall|j: int| 0 <= j < s.len() ==> crate::text::is_digit(#[trigger] s[j]),
    ensures
        leading_digits(s) == s,
    decreases s.len(),
{
    if s.len() > 0 {
        lemma_leading_digits_all(s.drop_first());
        assert(seq![s[0]] + s.drop_first() =~= s);
    } else {
        assert(s =~= Seq::<char>::empty());
    }
}

proof fn lemma_digits_value_grows(s: Seq<char>, i: int)
    requires
        0 <= i <= s.len(),
        forall|j: int| 0 <= j < s.len() ==> crate::text::is_digit(#[trigger] s[j]),
    ensures
        digits_value(s.take(i)) <= digits_value(s),
    decreases s.len() - i,
{
    if i < s.len() {
        lemma_digits_value_grows(s, i + 1);
        assert(s.take(i + 1).drop_last() =~= s.take(i));
    } else {
        assert(s.take(i) =~= s);
    }
}

/// Extracts the port from `dsh web: http://127.0.0.1:<port>` (anywhere in
/// the line; upstream may append a LAN variant).
pub fn parse_ready_port(line: &str) -> (r: Option<u16>)
    ensures
        r == ready_port_spec(line@),
{
    let l = chars_of(line);
    let p = chars_of("dsh web: http://127.0.0.1:");
    let k = match crate::text::find_sub(l.as_slice(), p.as_slice()) {
        Some(k) => k,
        None => return None,
    };
    let pl = p.len();
    let n = l.len();
    assert(k + pl <= n);
    let start = k + pl;
    let ghost rest = l@.skip(start as int);
    let mut value: u32 = 0;
    let mut i = start;
    while i < l.len() && crate::text::char_is_digit(l[i])
        invariant
            start <= i <= l@.len(),
            l@ == line@,
            p@ == ready_prefix(),
            k == crate::text::index_of_sub(line@, ready_prefix()),
            start == k + p@.len(),
            rest == l@.skip(start as int),
            forall|j: int| 0 <= j < i - start ==> crate::text::is_digit(#[trigger] rest[j]),
            value == digits_value(rest.take(i - start)),
            value <= 65535,
        decreases l@.len() - i,
    {
        let d = (l[i] as u32) - ('0' as u32);
        assert(rest[i - start] == l@[i as int]);
        assert(rest.take(i - start + 1).drop_last() =~= rest.take(i - start));
        let v = value * 10 + d;
        if v > 65535 {
            proof {
                lemma_leading_digits_step(rest, i - start);
                let ld = leading_digits(rest);
                assert forall|j: int| 0 <= j < ld.len() implies crate::text::is_digit(#[trigger] ld[j]) by {
                    lemma_leading_digits_prefix(rest, j);
                }
                assert(ld.take(i - start + 1) =~= rest.take(i - start + 1));
                assert(rest.take(i - start + 1).last() == l@[i as int]);
                assert(digits_value(rest.take(i - start + 1)) == value * 10 + d);
                lemma_digits_value_grows(ld, i - start + 1);
            }
            return None;
        }
        value = v;
        i += 1;
    }
    proof {
        if i - start < rest.len() {
            lemma_leading_digits_step(rest, i - start);
        } else {
            assert(rest.take(i - start) =~= rest);
            lemma_leading_digits_all(rest);
        }
    }
    if i == start {
        return None;
    }
    Some(value as u16)
}

proof fn lemma_leading_digits_prefix(s: Seq<char>, j: int)
    requires
        0 <= j < leading_digits(s).len(),
    ensures
        j < s.len(),
        leading_digits(s)[j] == s[j],
        crate::text::is_digit(s[j]),
    decreases s.len(),
{
    if j > 0 {
        lemma_leading_digits_prefix(s.drop_first(), j - 1);
    }
}

/// How a child's exit reads in a crash reason.
pub open spec fn describe_exit_spec(code: Option<i32>) -> Seq<char> {
    match code {
        Some(c) => "exit code "@ + crate::text::signed_decimal(c as int),
        None => "killed by signal"@,
    }
}

/// `exit code <code>`, or `killed by signal` when there is no code.
pub fn describe_exit(code: Option<i32>) -> (s: String)
    ensures
        s@ == describe_exit_spec(code),
{
    match code {
        Some(c) => {
            let d = crate::text::signed_decimal_of(c as i64);
            string_of(concat_str("exit code ", d.as_slice()).as_slice())
        },
        None => string_of(chars_of("killed by signal").as_slice()),
    }
}

/// Consecutive refused probes after which the service counts as dead.
pub const PROBE_FAILURES: u32 = 3;

/// Failure counting of the post-ready liveness probe: how many probes in a
/// row were refused, always below [`PROBE_FAILURES`].
pub struct ProbeCounter {
    failures: u32,
}

impl View for ProbeCounter {
    type V = u32;

    closed spec fn view(&self) -> u32 {
        self.failures
    }
}

impl ProbeCounter {
    #[verifier::type_invariant]
    spec fn below_limit(&self) -> bool {
        self.failures < PROBE_FAILURES
    }

    pub fn new() -> (p: ProbeCounter)
        ensures
            p@ == 0,
    {
        ProbeCounter { failures: 0 }
    }

    /// Records one probe; `true` once [`PROBE_FAILURES`] probes in a row were
    /// refused (the count then starts over). An accepted probe resets the
    /// count.
    pub fn record(&mut self, accepted: bool) -> (dead: bool)
        ensures
            old(self)@ < PROBE_FAILURES,
            accepted ==> final(self)@ == 0 && !dead,
            !accepted ==> dead == (old(self)@ + 1 >= PROBE_FAILURES),
            !accepted && !dead ==> final(self)@ == old(self)@ + 1,
            !accepted && dead ==> final(self)@ == 0,
    {
        proof {
            use_type_invariant(&*self);
        }
        if accepted {
            self.failures = 0;
            false
        } else if self.failures + 1 >= PROBE_FAILURES {
            self.failures = 0;
            true
        } else {
            self.failures = self.failures + 1;
            false
        }
    }
}

/// What one line read from the child says about readiness, and whether the
/// reader keeps looking: every stdout line is matched against the readiness
/// line until one parses; the port it names is signalled once and the reader
/// stops looking. Stderr lines, and lines once the port is known, tell
/// nothing.
pub fn ready_signal(stream: LogStream, awaiting: bool, line: &str) -> (r: (Option<u16>, bool))
    ensures
        (stream == LogStream::Stdout && awaiting) ==> r == (
            ready_port_spec(line@),
            ready_port_spec(line@) is None,
        ),
        !(stream == LogStream::Stdout && awaiting) ==> r == (None::<u16>, awaiting),
{
    if stream == LogStream::Stdout && awaiting {
        let port = parse_ready_port(line);
        let still = port.is_none();
        (port, still)
    } else {
        (None, awaiting)
    }
}

/// The crash reason when waiting on the child failed.
pub fn wait_failed_reason(error: &str) -> (s: String)
    ensures
        s@ == "wait failed: "@ + error@,
{
    let mut s = String::from_str("wait failed: ");
    s.append(error);
    s
}

} // verus!
