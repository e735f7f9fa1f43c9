//! Stopping and starting the audio service and the services that depend on it.
//!
//! A run says what to do next; the caller does it and reports what came of it.
//! Times are in milliseconds on a clock that does not go back.

use vstd::prelude::*;
use crate::install::audiodg;
use crate::install::audiodg::{
    start_poll, stop_poll, ServiceState, ServiceStep, AUDIO_SERVICE, DEFAULT_STOP_TIMEOUT_SECS,
    START_RETRY_MS,
};
use crate::text;

verus! {

/// The latest time at which a run can be asked what comes next.
pub const LATEST_MS: u64 = 0x7FFF_FFFF_FFFF_FFFF;

/// What is done with a service.
#[derive(Clone, Copy, Debug, PartialEq, Eq, Structural)]
pub enum TaskKind {
    /// Stop it if it runs, and wait until it has stopped.
    Stop,
    /// Ask it to start, whatever its state.
    Start,
    /// Ask it to start unless it runs.
    Ensure,
    /// Start it unless it runs, and wait until it runs.
    StartAndWait,
}

/// A part of a run.
#[derive(Clone, Debug, PartialEq, Eq)]
pub enum RunItem {
    /// Something is done with a service. One that is optional is left out where it
    /// cannot be opened.
    Service { name: String, kind: TaskKind, timeout_secs: u32, optional: bool },
    /// The same is done with each active service that depends on the audio
    /// service.
    Dependents { kind: TaskKind, timeout_secs: u32 },
}

/// The contents of a part of a run.
pub enum ItemView {
    Service { name: Seq<char>, kind: TaskKind, timeout_secs: u32, optional: bool },
    Dependents { kind: TaskKind, timeout_secs: u32 },
}

impl View for RunItem {
    type V = ItemView;

    open spec fn view(&self) -> ItemView {
        match self {
            RunItem::Service { name, kind, timeout_secs, optional } => ItemView::Service {
                name: name@,
                kind: *kind,
                timeout_secs: *timeout_secs,
                optional: *optional,
            },
            RunItem::Dependents { kind, timeout_secs } => ItemView::Dependents {
                kind: *kind,
                timeout_secs: *timeout_secs,
            },
        }
    }
}

/// The contents of the parts of a run.
pub open spec fn items(v: Seq<RunItem>) -> Seq<ItemView> {
    v.map_values(|i: RunItem| i@)
}

/// How far the part of a run that is under way has come.
#[derive(Clone, Copy, Debug, PartialEq, Eq, Structural)]
pub enum RunPhase {
    /// The run has not begun.
    Idle,
    /// The state of the service was asked for.
    Looking,
    /// The service was asked to stop.
    StopSent,
    /// The service is stopping.
    Stopping,
    /// The service was asked to start, and is not waited for.
    StartSent,
    /// The service is starting.
    Starting,
    /// The dependents were asked for.
    Listing,
    /// The run is over.
    Over,
}

/// What to do next.
#[derive(Clone, Debug, PartialEq, Eq)]
pub enum RunAction {
    /// Look at the state of a service.
    Look(String),
    /// Ask a service to stop, then look at its state.
    SendStop(String),
    /// Ask a service to start.
    SendStart(String),
    /// Ask a service to start, whatever it answers, then look at its state.
    StartAndLook(String),
    /// Ask a service to start, whatever it answers, and go on as for `Pause`.
    Retry(String),
    /// Pause, ask a service that is starting to start, then look at its state.
    Pause(String),
    /// List the active services that depend on the audio service.
    ListDependents,
    Finished,
    Failed(String),
}

/// The contents of what to do next.
pub enum ActionView {
    Look(Seq<char>),
    SendStop(Seq<char>),
    SendStart(Seq<char>),
    StartAndLook(Seq<char>),
    Retry(Seq<char>),
    Pause(Seq<char>),
    ListDependents,
    Finished,
    Failed(Seq<char>),
}

impl View for RunAction {
    type V = ActionView;

    open spec fn view(&self) -> ActionView {
        match self {
            RunAction::Look(n) => ActionView::Look(n@),
            RunAction::SendStop(n) => ActionView::SendStop(n@),
            RunAction::SendStart(n) => ActionView::SendStart(n@),
            RunAction::StartAndLook(n) => ActionView::StartAndLook(n@),
            RunAction::Retry(n) => ActionView::Retry(n@),
            RunAction::Pause(n) => ActionView::Pause(n@),
            RunAction::ListDependents => ActionView::ListDependents,
            RunAction::Finished => ActionView::Finished,
            RunAction::Failed(m) => ActionView::Failed(m@),
        }
    }
}

/// What came of what was done.
#[derive(Clone, Debug, PartialEq, Eq)]
pub enum RunEvent {
    /// The state of the service.
    State(ServiceState),
    /// The service was asked to start, and did not refuse.
    Sent,
    /// The service cannot be opened.
    Unavailable(String),
    /// The names of the dependents.
    Dependents(Vec<String>),
    /// The service manager refused, with this message.
    Refused(String),
}

/// The contents of what came of what was done.
pub enum EventView {
    State(ServiceState),
    Sent,
    Unavailable(Seq<char>),
    Dependents(Seq<Seq<char>>),
    Refused(Seq<char>),
}

impl View for RunEvent {
    type V = EventView;

    open spec fn view(&self) -> EventView {
        match self {
            RunEvent::State(s) => EventView::State(*s),
            RunEvent::Sent => EventView::Sent,
            RunEvent::Unavailable(m) => EventView::Unavailable(m@),
            RunEvent::Dependents(v) => EventView::Dependents(text::texts(v@)),
            RunEvent::Refused(m) => EventView::Refused(m@),
        }
    }
}

/// A run that has come some way.
#[derive(Clone, Debug, PartialEq, Eq)]
pub struct ServiceRun {
    pub plan: Vec<RunItem>,
    pub at: usize,
    pub phase: RunPhase,
    pub deadline_ms: u64,
    pub next_retry_ms: u64,
}

/// The contents of a run.
pub struct RunView {
    pub plan: Seq<ItemView>,
    pub at: int,
    pub phase: RunPhase,
    pub deadline_ms: u64,
    pub next_retry_ms: u64,
}

impl View for ServiceRun {
    type V = RunView;

    open spec fn view(&self) -> RunView {
        RunView {
            plan: items(self.plan@),
            at: self.at as int,
            phase: self.phase,
            deadline_ms: self.deadline_ms,
            next_retry_ms: self.next_retry_ms,
        }
    }
}

// ---------------------------------------------------------------------------
// Model
// ---------------------------------------------------------------------------
/// A run that has not begun.
pub open spec fn fresh(plan: Seq<ItemView>) -> RunView {
    RunView { plan, at: 0, phase: RunPhase::Idle, deadline_ms: 0, next_retry_ms: 0 }
}

/// What is done with the audio service itself.
pub open spec fn audio(kind: TaskKind, timeout_secs: u32) -> ItemView {
    ItemView::Service { name: AUDIO_SERVICE@, kind, timeout_secs, optional: false }
}

/// What stopping the audio service and its dependents takes: the dependents first.
pub open spec fn stop_plan(timeout_secs: u32) -> Seq<ItemView> {
    seq![
        ItemView::Dependents { kind: TaskKind::Stop, timeout_secs },
        audio(TaskKind::Stop, timeout_secs),
    ]
}

/// What starting the audio service and its dependents takes: the dependents last.
pub open spec fn start_plan(timeout_secs: u32) -> Seq<ItemView> {
    seq![
        audio(TaskKind::StartAndWait, timeout_secs),
        ItemView::Dependents { kind: TaskKind::StartAndWait, timeout_secs },
    ]
}

/// The parts of a run for some dependents.
pub open spec fn dependent_items(
    names: Seq<Seq<char>>,
    kind: TaskKind,
    timeout_secs: u32,
) -> Seq<ItemView> {
    names.map_values(
        |n: Seq<char>| ItemView::Service { name: n, kind, timeout_secs, optional: true },
    )
}

/// Whether a run stands at one of its parts, in a phase that belongs to it.
pub open spec fn is_sound(r: RunView) -> bool {
    &&& 0 <= r.at <= r.plan.len()
    &&& match r.phase {
        RunPhase::Idle => true,
        RunPhase::Over => true,
        RunPhase::Listing => r.at < r.plan.len() && r.plan[r.at] is Dependents,
        _ => r.at < r.plan.len() && r.plan[r.at] is Service,
    }
}

/// Whether something can have come of what was asked in a phase.
pub open spec fn fits(phase: RunPhase, event: EventView) -> bool {
    match phase {
        RunPhase::Idle | RunPhase::Over => false,
        RunPhase::Looking => event is State || event is Unavailable || event is Refused,
        RunPhase::StartSent => event is Sent || event is Refused,
        RunPhase::Listing => event is Dependents || event is Refused,
        _ => event is State || event is Refused,
    }
}

/// A run at the beginning of the part where it stands, and what to do there.
pub open spec fn begun(r: RunView) -> (RunView, ActionView) {
    if r.at < r.plan.len() {
        match r.plan[r.at] {
            ItemView::Service { name, kind, .. } => if kind == TaskKind::Start {
                (RunView { phase: RunPhase::StartSent, ..r }, ActionView::SendStart(name))
            } else {
                (RunView { phase: RunPhase::Looking, ..r }, ActionView::Look(name))
            },
            ItemView::Dependents { .. } => (
                RunView { phase: RunPhase::Listing, ..r },
                ActionView::ListDependents,
            ),
        }
    } else {
        (RunView { phase: RunPhase::Over, ..r }, ActionView::Finished)
    }
}

/// A run that goes on to the next part.
pub open spec fn passed(r: RunView) -> (RunView, ActionView) {
    begun(RunView { at: r.at + 1, ..r })
}

/// A run that is over without success.
pub open spec fn failed(r: RunView, message: Seq<char>) -> (RunView, ActionView) {
    (RunView { phase: RunPhase::Over, ..r }, ActionView::Failed(message))
}

/// A run that waits for a service, given what waiting for it comes to.
pub open spec fn waiting(r: RunView, step: audiodg::StepView, name: Seq<char>) -> (
    RunView,
    ActionView,
) {
    match step {
        audiodg::StepView::Done => passed(r),
        audiodg::StepView::TimedOut(m) => failed(r, m),
        audiodg::StepView::Retry => (r, ActionView::Retry(name)),
        _ => (r, ActionView::Pause(name)),
    }
}

/// The end of a waiting time.
pub open spec fn deadline(now_ms: u64, timeout_secs: u32) -> u64 {
    (now_ms + timeout_secs * 1000) as u64
}

/// What the state of a service at the first look comes to.
pub open spec fn looked(r: RunView, state: ServiceState, now_ms: u64) -> (RunView, ActionView) {
    match r.plan[r.at] {
        ItemView::Service { name, kind, timeout_secs, .. } => match kind {
            TaskKind::Stop => if state == ServiceState::Running {
                (RunView { phase: RunPhase::StopSent, ..r }, ActionView::SendStop(name))
            } else {
                passed(r)
            },
            TaskKind::StartAndWait => if state == ServiceState::Running {
                passed(r)
            } else {
                (
                    RunView {
                        phase: RunPhase::Starting,
                        deadline_ms: deadline(now_ms, timeout_secs),
                        next_retry_ms: (now_ms + START_RETRY_MS) as u64,
                        ..r
                    },
                    ActionView::StartAndLook(name),
                )
            },
            _ => if state == ServiceState::Running {
                passed(r)
            } else {
                (RunView { phase: RunPhase::StartSent, ..r }, ActionView::SendStart(name))
            },
        },
        ItemView::Dependents { .. } => passed(r),
    }
}

/// What the state of a service that is waited for comes to.
pub open spec fn polled(r: RunView, state: ServiceState, now_ms: u64) -> (RunView, ActionView) {
    match r.plan[r.at] {
        ItemView::Service { name, timeout_secs, .. } => if r.phase == RunPhase::Starting {
            let step = audiodg::start_next(
                state,
                now_ms,
                r.deadline_ms,
                r.next_retry_ms,
                name,
                timeout_secs,
            );
            let later = if step is Retry {
                RunView { next_retry_ms: (now_ms + START_RETRY_MS) as u64, ..r }
            } else {
                r
            };
            waiting(later, step, name)
        } else {
            let s = if r.phase == RunPhase::StopSent {
                RunView {
                    phase: RunPhase::Stopping,
                    deadline_ms: deadline(now_ms, timeout_secs),
                    ..r
                }
            } else {
                r
            };
            waiting(
                s,
                audiodg::stop_next(state, now_ms, s.deadline_ms, name, timeout_secs),
                name,
            )
        },
        ItemView::Dependents { .. } => passed(r),
    }
}

/// What comes next after what came of what was done.
pub open spec fn following(r: RunView, event: EventView, now_ms: u64) -> (RunView, ActionView) {
    match event {
        EventView::Refused(m) => failed(r, m),
        EventView::Unavailable(m) => if r.plan[r.at]->optional {
            passed(r)
        } else {
            failed(r, m)
        },
        EventView::Sent => passed(r),
        EventView::Dependents(names) => match r.plan[r.at] {
            ItemView::Dependents { kind, timeout_secs } => passed(
                RunView {
                    plan: r.plan.take(r.at + 1) + dependent_items(names, kind, timeout_secs)
                        + r.plan.skip(r.at + 1),
                    ..r
                },
            ),
            ItemView::Service { .. } => passed(r),
        },
        EventView::State(state) => if r.phase == RunPhase::Looking {
            looked(r, state, now_ms)
        } else {
            polled(r, state, now_ms)
        },
    }
}

// ---------------------------------------------------------------------------
// Runs
// ---------------------------------------------------------------------------
fn audio_item(kind: TaskKind, timeout_secs: u32) -> (r: RunItem)
    ensures
        r@ == audio(kind, timeout_secs),
{
    RunItem::Service { name: AUDIO_SERVICE.to_owned(), kind, timeout_secs, optional: false }
}

fn run_of(plan: Vec<RunItem>) -> (r: ServiceRun)
    ensures
        r@ == fresh(items(plan@)),
        is_sound(r@),
{
    ServiceRun { plan, at: 0, phase: RunPhase::Idle, deadline_ms: 0, next_retry_ms: 0 }
}

/// Stops the audio service if it runs.
pub fn stop_audio_service() -> (r: ServiceRun)
    ensures
        r@ == fresh(seq![audio(TaskKind::Stop, DEFAULT_STOP_TIMEOUT_SECS)]),
        is_sound(r@),
{
    let mut plan: Vec<RunItem> = Vec::new();
    plan.push(audio_item(TaskKind::Stop, DEFAULT_STOP_TIMEOUT_SECS));
    assert(items(plan@) =~= seq![audio(TaskKind::Stop, DEFAULT_STOP_TIMEOUT_SECS)]);
    run_of(plan)
}

/// Stops the audio service if it runs, and asks it to start.
pub fn restart_audio_service() -> (r: ServiceRun)
    ensures
        r@ == fresh(seq![audio(TaskKind::Stop, DEFAULT_STOP_TIMEOUT_SECS), audio(TaskKind::Start, 0)]),
        is_sound(r@),
{
    let mut plan: Vec<RunItem> = Vec::new();
    plan.push(audio_item(TaskKind::Stop, DEFAULT_STOP_TIMEOUT_SECS));
    plan.push(audio_item(TaskKind::Start, 0));
    assert(items(plan@) =~= seq![
        audio(TaskKind::Stop, DEFAULT_STOP_TIMEOUT_SECS),
        audio(TaskKind::Start, 0),
    ]);
    run_of(plan)
}

/// Asks the audio service to start unless it runs.
pub fn ensure_audio_service_running() -> (r: ServiceRun)
    ensures
        r@ == fresh(seq![audio(TaskKind::Ensure, 0)]),
        is_sound(r@),
{
    let mut plan: Vec<RunItem> = Vec::new();
    plan.push(audio_item(TaskKind::Ensure, 0));
    assert(items(plan@) =~= seq![audio(TaskKind::Ensure, 0)]);
    run_of(plan)
}

fn push_stop(plan: &mut Vec<RunItem>, timeout_secs: u32)
    ensures
        items(final(plan)@) == items(old(plan)@) + stop_plan(timeout_secs),
{
    plan.push(RunItem::Dependents { kind: TaskKind::Stop, timeout_secs });
    plan.push(audio_item(TaskKind::Stop, timeout_secs));
    assert(items(plan@) =~= items(old(plan)@) + stop_plan(timeout_secs));
}

fn push_start(plan: &mut Vec<RunItem>, timeout_secs: u32)
    ensures
        items(final(plan)@) == items(old(plan)@) + start_plan(timeout_secs),
{
    plan.push(audio_item(TaskKind::StartAndWait, timeout_secs));
    plan.push(RunItem::Dependents { kind: TaskKind::StartAndWait, timeout_secs });
    assert(items(plan@) =~= items(old(plan)@) + start_plan(timeout_secs));
}

/// Stops the services that depend on the audio service, then the audio service.
pub fn stop_audio_service_with_dependents(stop_timeout_secs: u32) -> (r: ServiceRun)
    ensures
        r@ == fresh(stop_plan(stop_timeout_secs)),
        is_sound(r@),
{
    let mut plan: Vec<RunItem> = Vec::new();
    push_stop(&mut plan, stop_timeout_secs);
    assert(items(plan@) =~= stop_plan(stop_timeout_secs));
    run_of(plan)
}

/// Starts the audio service, then the services that depend on it.
pub fn start_audio_service_with_dependents(start_timeout_secs: u32) -> (r: ServiceRun)
    ensures
        r@ == fresh(start_plan(start_timeout_secs)),
        is_sound(r@),
{
    let mut plan: Vec<RunItem> = Vec::new();
    push_start(&mut plan, start_timeout_secs);
    assert(items(plan@) =~= start_plan(start_timeout_secs));
    run_of(plan)
}

/// Stops the audio service with its dependents, then starts them.
pub fn restart_audio_service_wait(stop_timeout_secs: u32, start_timeout_secs: u32) -> (r:
    ServiceRun)
    ensures
        r@ == fresh(stop_plan(stop_timeout_secs) + start_plan(start_timeout_secs)),
        is_sound(r@),
{
    let mut plan: Vec<RunItem> = Vec::new();
    push_stop(&mut plan, stop_timeout_secs);
    push_start(&mut plan, start_timeout_secs);
    assert(items(plan@) =~= stop_plan(stop_timeout_secs) + start_plan(start_timeout_secs));
    run_of(plan)
}

impl ServiceRun {
    /// What to do first.
    pub fn begin(&mut self) -> (r: RunAction)
        requires
            is_sound(old(self)@),
            old(self).phase == RunPhase::Idle,
        ensures
            (final(self)@, r@) == begun(old(self)@),
            is_sound(final(self)@),
    {
        self.begin_item()
    }

    fn begin_item(&mut self) -> (r: RunAction)
        requires
            old(self).at <= old(self).plan@.len(),
        ensures
            (final(self)@, r@) == begun(old(self)@),
            is_sound(final(self)@),
    {
        let at: usize = self.at;
        if at >= self.plan.len() {
            self.phase = RunPhase::Over;
            return RunAction::Finished;
        }
        assert(self@.plan[at as int] == self.plan@[at as int]@);
        match &self.plan[at] {
            RunItem::Service { name, kind, .. } => {
                let name = name.clone();
                if *kind == TaskKind::Start {
                    self.phase = RunPhase::StartSent;
                    RunAction::SendStart(name)
                } else {
                    self.phase = RunPhase::Looking;
                    RunAction::Look(name)
                }
            },
            RunItem::Dependents { .. } => {
                self.phase = RunPhase::Listing;
                RunAction::ListDependents
            },
        }
    }

    fn pass(&mut self) -> (r: RunAction)
        requires
            old(self).at < old(self).plan@.len(),
        ensures
            (final(self)@, r@) == passed(old(self)@),
            is_sound(final(self)@),
    {
        let len: usize = self.plan.len();
        assert(self.at < len);
        self.at = self.at + 1;
        self.begin_item()
    }

    fn fail(&mut self, message: String) -> (r: RunAction)
        requires
            is_sound(old(self)@),
        ensures
            (final(self)@, r@) == failed(old(self)@, message@),
            is_sound(final(self)@),
    {
        self.phase = RunPhase::Over;
        RunAction::Failed(message)
    }

    fn wait(&mut self, step: ServiceStep, name: String) -> (r: RunAction)
        requires
            is_sound(old(self)@),
            old(self).at < old(self).plan@.len(),
        ensures
            (final(self)@, r@) == waiting(old(self)@, step@, name@),
            is_sound(final(self)@),
    {
        match step {
            ServiceStep::Done => self.pass(),
            ServiceStep::TimedOut(m) => self.fail(m),
            ServiceStep::Retry => RunAction::Retry(name),
            _ => RunAction::Pause(name),
        }
    }

    fn look(&mut self, state: ServiceState, now_ms: u64) -> (r: RunAction)
        requires
            is_sound(old(self)@),
            old(self).phase == RunPhase::Looking,
            now_ms <= LATEST_MS,
        ensures
            (final(self)@, r@) == looked(old(self)@, state, now_ms),
            is_sound(final(self)@),
    {
        let at: usize = self.at;
        assert(self@.plan[at as int] == self.plan@[at as int]@);
        match &self.plan[at] {
            RunItem::Service { name, kind, timeout_secs, .. } => {
                let name = name.clone();
                let secs: u32 = *timeout_secs;
                let kind = *kind;
                let running = state == ServiceState::Running;
                if kind == TaskKind::Stop {
                    if !running {
                        return self.pass();
                    }
                    self.phase = RunPhase::StopSent;
                    return RunAction::SendStop(name);
                }
                if running {
                    return self.pass();
                }
                if kind == TaskKind::StartAndWait {
                    self.phase = RunPhase::Starting;
                    self.deadline_ms = now_ms + secs as u64 * 1000;
                    self.next_retry_ms = now_ms + START_RETRY_MS;
                    RunAction::StartAndLook(name)
                } else {
                    self.phase = RunPhase::StartSent;
                    RunAction::SendStart(name)
                }
            },
            RunItem::Dependents { .. } => self.pass(),
        }
    }

    fn poll(&mut self, state: ServiceState, now_ms: u64) -> (r: RunAction)
        requires
            is_sound(old(self)@),
            old(self).phase == RunPhase::StopSent || old(self).phase == RunPhase::Stopping || old(
                self,
            ).phase == RunPhase::Starting,
            now_ms <= LATEST_MS,
        ensures
            (final(self)@, r@) == polled(old(self)@, state, now_ms),
            is_sound(final(self)@),
    {
        let at: usize = self.at;
        assert(self@.plan[at as int] == self.plan@[at as int]@);
        match &self.plan[at] {
            RunItem::Service { name, timeout_secs, .. } => {
                let name = name.clone();
                let secs: u32 = *timeout_secs;
                if self.phase == RunPhase::Starting {
                    let (step, retry) = start_poll(
                        state,
                        now_ms,
                        self.deadline_ms,
                        self.next_retry_ms,
                        name.as_str(),
                        secs,
                    );
                    self.next_retry_ms = retry;
                    self.wait(step, name)
                } else {
                    if self.phase == RunPhase::StopSent {
                        self.phase = RunPhase::Stopping;
                        self.deadline_ms = now_ms + secs as u64 * 1000;
                    }
                    let step = stop_poll(state, now_ms, self.deadline_ms, name.as_str(), secs);
                    self.wait(step, name)
                }
            },
            RunItem::Dependents { .. } => self.pass(),
        }
    }

    /// Enters the dependents that were asked for.
    fn list(&mut self, names: &[String]) -> (r: RunAction)
        requires
            is_sound(old(self)@),
            old(self).phase == RunPhase::Listing,
        ensures
            (final(self)@, r@) == following(
                old(self)@,
                EventView::Dependents(text::texts(names@)),
                0,
            ),
            is_sound(final(self)@),
    {
        let at: usize = self.at;
        let ghost before = self@.plan;
        let ghost all = text::texts(names@);
        let len: usize = self.plan.len();
        assert(at < len);
        assert(before[at as int] == self.plan@[at as int]@);
        let (kind, timeout_secs) = match &self.plan[at] {
            RunItem::Dependents { kind, timeout_secs } => (*kind, *timeout_secs),
            RunItem::Service { .. } => {
                return self.pass();
            },
        };
        let mut rest = self.plan.split_off(at + 1);
        let ghost head = before.take(at + 1);
        let ghost tail = items(rest@);
        assert(items(self.plan@) =~= head);
        assert(tail =~= before.skip(at + 1));
        let ghost added = dependent_items(all, kind, timeout_secs);
        let mut i: usize = 0;
        assert(items(self.plan@) =~= head + added.take(0));
        while i < names.len()
            invariant
                i <= names@.len(),
                all == text::texts(names@),
                added == dependent_items(all, kind, timeout_secs),
                items(self.plan@) == head + added.take(i as int),
                self.at == at,
                self.phase == old(self).phase,
                self.deadline_ms == old(self).deadline_ms,
                self.next_retry_ms == old(self).next_retry_ms,
            decreases names@.len() - i,
        {
            let ghost was = self.plan@;
            assert(all[i as int] == names@[i as int]@);
            self.plan.push(
                RunItem::Service { name: names[i].clone(), kind, timeout_secs, optional: true },
            );
            assert(items(self.plan@) =~= items(was).push(added[i as int]));
            assert(head + added.take(i + 1) =~= (head + added.take(i as int)).push(
                added[i as int],
            ));
            i += 1;
        }
        assert(added.take(i as int) =~= added);
        let ghost was = self.plan@;
        let ghost end = rest@;
        self.plan.append(&mut rest);
        assert(items(self.plan@) =~= items(was) + items(end));
        assert(self.plan@.len() == items(self.plan@).len());
        self.pass()
    }

    /// What to do next, given what came of what was done.
    pub fn next(&mut self, event: RunEvent, now_ms: u64) -> (r: RunAction)
        requires
            is_sound(old(self)@),
            fits(old(self).phase, event@),
            now_ms <= LATEST_MS,
        ensures
            (final(self)@, r@) == following(old(self)@, event@, now_ms),
            is_sound(final(self)@),
    {
        let at: usize = self.at;
        match event {
            RunEvent::Refused(m) => self.fail(m),
            RunEvent::Sent => self.pass(),
            RunEvent::Unavailable(m) => {
                assert(self@.plan[at as int] == self.plan@[at as int]@);
                let skip = match &self.plan[at] {
                    RunItem::Service { optional, .. } => *optional,
                    RunItem::Dependents { .. } => false,
                };
                if skip {
                    self.pass()
                } else {
                    self.fail(m)
                }
            },
            RunEvent::Dependents(names) => self.list(names.as_slice()),
            RunEvent::State(state) => if self.phase == RunPhase::Looking {
                self.look(state, now_ms)
            } else {
                self.poll(state, now_ms)
            },
        }
    }
}

// ---------------------------------------------------------------------------
// Laws
// ---------------------------------------------------------------------------
/// Only a service that runs is asked to stop.
pub proof fn law_only_running_services_are_stopped(
    r: RunView,
    event: EventView,
    now_ms: u64,
)
    requires
        is_sound(r),
        fits(r.phase, event),
        following(r, event, now_ms).1 is SendStop,
    ensures
        event == EventView::State(ServiceState::Running),
        r.phase == RunPhase::Looking,
{
}

/// A service that is to stop or to start is waited for no longer than its time:
/// once that has passed, the run goes on or is over.
pub proof fn law_waiting_ends(r: RunView, state: ServiceState, now_ms: u64)
    requires
        is_sound(r),
        r.phase == RunPhase::Stopping || r.phase == RunPhase::Starting,
        now_ms > r.deadline_ms,
    ensures
        ({
            let (after, action) = following(r, EventView::State(state), now_ms);
            !(action is Pause) && !(action is Retry) && (after.phase == RunPhase::Over || after.at
                == r.at + 1)
        }),
{
}

/// The dependents that are listed before the audio service is stopped come right
/// before it, each in turn.
pub proof fn law_dependents_stop_first(names: Seq<Seq<char>>, timeout_secs: u32, i: int)
    requires
        0 <= i < names.len(),
    ensures
        ({
            let listing = begun(fresh(stop_plan(timeout_secs))).0;
            let plan = following(listing, EventView::Dependents(names), 0).0.plan;
            &&& plan[1 + i] == (ItemView::Service {
                name: names[i],
                kind: TaskKind::Stop,
                timeout_secs,
                optional: true,
            })
            &&& plan[1int + names.len()] == audio(TaskKind::Stop, timeout_secs)
            &&& plan.len() == 2 + names.len()
        }),
{
}

/// A service that does not run when it is to be stopped, or runs when it is to be
/// started, is passed over; a stopped one that is to be started is started and waited
/// for, up to its time.
pub proof fn law_only_what_is_needed(r: RunView, now_ms: u64, name: Seq<char>, timeout_secs: u32)
    requires
        is_sound(r),
        r.phase == RunPhase::Looking,
        now_ms + timeout_secs * 1000 + 10_000 <= u64::MAX,
    ensures
        ({
            let stops = ItemView::Service { name, kind: TaskKind::Stop, timeout_secs, optional: false };
            let starts = ItemView::Service {
                name,
                kind: TaskKind::StartAndWait,
                timeout_secs,
                optional: false,
            };
            let stopped = EventView::State(ServiceState::Stopped);
            let running = EventView::State(ServiceState::Running);
            &&& r.plan[r.at] == stops ==> following(r, stopped, now_ms) == passed(r)
            &&& r.plan[r.at] == stops ==> following(r, running, now_ms).1 == ActionView::SendStop(
                name,
            )
            &&& r.plan[r.at] == starts ==> following(r, running, now_ms) == passed(r)
            &&& r.plan[r.at] == starts ==> following(r, stopped, now_ms).1
                == ActionView::StartAndLook(name)
            &&& r.plan[r.at] == starts ==> following(r, stopped, now_ms).0.deadline_ms == now_ms
                + timeout_secs * 1000
        }),
{
}

/// A run goes on past a service as soon as it is where it was meant to be, and not
/// before.
pub proof fn law_waits_for_the_state(r: RunView, state: ServiceState, now_ms: u64)
    requires
        is_sound(r),
        r.phase == RunPhase::Stopping || r.phase == RunPhase::Starting,
    ensures
        ({
            let after = following(r, EventView::State(state), now_ms);
            let wanted = if r.phase == RunPhase::Stopping {
                ServiceState::Stopped
            } else {
                ServiceState::Running
            };
            &&& state == wanted ==> after == passed(r)
            &&& state != wanted ==> after.0.at == r.at && !(after.1 is Finished)
        }),
{
}

/// What is refused ends a run with what was said; a service that cannot be opened ends it
/// too, unless it is one that may be missing.
pub proof fn law_refusals_end_a_run(r: RunView, message: Seq<char>, now_ms: u64)
    requires
        is_sound(r),
        fits(r.phase, EventView::Refused(message)),
    ensures
        following(r, EventView::Refused(message), now_ms).1 == ActionView::Failed(message),
        following(r, EventView::Refused(message), now_ms).0.phase == RunPhase::Over,
        r.plan[r.at] matches ItemView::Service { name, kind, timeout_secs, optional } ==> {
            &&& optional ==> following(r, EventView::Unavailable(message), now_ms) == passed(r)
            &&& !optional ==> following(r, EventView::Unavailable(message), now_ms).1
                == ActionView::Failed(message)
        },
{
}

/// The audio service starts before the dependents that are listed then, each in turn.
pub proof fn law_audio_starts_first(names: Seq<Seq<char>>, timeout_secs: u32, i: int)
    requires
        0 <= i < names.len(),
    ensures
        ({
            let plan0 = start_plan(timeout_secs);
            let listing = RunView { at: 1, phase: RunPhase::Listing, ..fresh(plan0) };
            let plan = following(listing, EventView::Dependents(names), 0).0.plan;
            &&& plan[0] == audio(TaskKind::StartAndWait, timeout_secs)
            &&& plan[2 + i] == (ItemView::Service {
                name: names[i],
                kind: TaskKind::StartAndWait,
                timeout_secs,
                optional: true,
            })
            &&& plan.len() == 2 + names.len()
        }),
{
}

} // verus!
