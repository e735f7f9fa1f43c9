//! The audio engine's protection switch, and the decisions behind stopping and
//! starting the audio service.
//!
//! Services are stopped and started by a caller that performs one step at a time
//! and reports the state it finds; the functions here say what the next step is.

pub mod run;

use vstd::prelude::*;
use crate::error::VxApoError;
use crate::registry;
use crate::registry::{Hkey, KeyView, OpView, RegKey, RegValue, Registry, ValueView};
use crate::text;
use crate::text::{concat2, concat3, decimal_text, eq_ignore_case, from_chars, sub_chars, to_chars};

pub use run::{
    ensure_audio_service_running, restart_audio_service, restart_audio_service_wait,
    start_audio_service_with_dependents, stop_audio_service, stop_audio_service_with_dependents,
};

verus! {

/// The key that holds the protection switch.
pub const AUDIO_KEY_PATH: &'static str = "SOFTWARE\\Microsoft\\Windows\\CurrentVersion\\Audio";

/// The protection switch.
pub const PROTECTION_VALUE: &'static str = "DisableProtectedAudioDG";

/// The audio service.
pub const AUDIO_SERVICE: &'static str = "AudioSrv";

/// How long a service is waited for, in seconds, where nothing else is asked.
pub const DEFAULT_STOP_TIMEOUT_SECS: u32 = 30;

/// The time between two attempts to start a service, in milliseconds.
pub const START_RETRY_MS: u64 = 5000;

// ---------------------------------------------------------------------------
// The protection switch
// ---------------------------------------------------------------------------
/// Whether protection is off at a place: the switch is there and holds one.
pub open spec fn protection_off(r: Seq<KeyView>, root: Hkey, path: Seq<char>) -> bool {
    registry::as_dword(registry::value_at(r, root, path, PROTECTION_VALUE@)) == Some(1u32)
}

/// Whether protection is off at a place.
pub fn is_disabled_at(registry: &Registry, root: Hkey, path: &str) -> (r: Result<bool, VxApoError>)
    ensures
        r == Ok::<bool, VxApoError>(protection_off(registry@, root, path@)),
{
    match RegKey::open(registry, root, path) {
        Some(key) => match key.read_dword(PROTECTION_VALUE) {
            Some(v) => Ok(v == 1),
            None => Ok(false),
        },
        None => Ok(false),
    }
}

/// Whether protection is off, so that objects like this library's can be loaded.
pub fn is_disabled(registry: &Registry) -> (r: Result<bool, VxApoError>)
    ensures
        r == Ok::<bool, VxApoError>(
            protection_off(registry@, Hkey::LocalMachine, AUDIO_KEY_PATH@),
        ),
{
    is_disabled_at(registry, Hkey::LocalMachine, AUDIO_KEY_PATH)
}

/// Whether objects like this library's can be loaded.
pub fn is_third_party_allowed(registry: &Registry) -> (r: Result<bool, VxApoError>)
    ensures
        r == Ok::<bool, VxApoError>(
            protection_off(registry@, Hkey::LocalMachine, AUDIO_KEY_PATH@),
        ),
{
    is_disabled(registry)
}

/// The changes that switch protection off.
pub open spec fn disable_ops() -> Seq<OpView> {
    seq![
        OpView::CreateKey { root: Hkey::LocalMachine, path: AUDIO_KEY_PATH@ },
        OpView::SetValue {
            root: Hkey::LocalMachine,
            path: AUDIO_KEY_PATH@,
            name: PROTECTION_VALUE@,
            value: ValueView::Dword(1),
        },
    ]
}

/// Switches protection off.
pub fn disable(registry: &mut Registry) -> (r: Result<(), VxApoError>)
    ensures
        r is Ok,
        registry::advanced(*old(registry), *final(registry), disable_ops()),
{
    let ghost r0 = *registry;
    registry.create_key(Hkey::LocalMachine, AUDIO_KEY_PATH);
    let ghost r1 = *registry;
    registry.set_value(Hkey::LocalMachine, AUDIO_KEY_PATH, PROTECTION_VALUE, RegValue::Dword(1));
    proof {
        let ops = disable_ops();
        registry::lemma_advanced_trans(r0, r1, *registry, seq![ops[0]], seq![ops[1]]);
        assert(seq![ops[0]] + seq![ops[1]] =~= ops);
    }
    Ok(())
}

/// The changes that leave protection to Windows.
pub open spec fn restore_ops(r: Seq<KeyView>) -> Seq<OpView> {
    if registry::has_key(r, Hkey::LocalMachine, AUDIO_KEY_PATH@) {
        seq![
            OpView::DeleteValue {
                root: Hkey::LocalMachine,
                path: AUDIO_KEY_PATH@,
                name: PROTECTION_VALUE@,
            },
        ]
    } else {
        Seq::empty()
    }
}

/// Leaves protection to Windows.
pub fn restore(registry: &mut Registry) -> (r: Result<(), VxApoError>)
    ensures
        r is Ok,
        registry::advanced(*old(registry), *final(registry), restore_ops(old(registry)@)),
{
    proof {
        registry::lemma_advanced_refl(*registry);
    }
    if registry.holds_key(Hkey::LocalMachine, AUDIO_KEY_PATH) {
        registry.delete_value(Hkey::LocalMachine, AUDIO_KEY_PATH, PROTECTION_VALUE);
    }
    Ok(())
}

/// Switches protection off unless it is off or known to be; `known` remembers
/// for as long as the process lives.
pub fn ensure_can_load(registry: &mut Registry, known: &mut bool) -> (r: Result<(), VxApoError>)
    ensures
        r is Ok,
        *final(known),
        registry::advanced(
            *old(registry),
            *final(registry),
            if *old(known) || protection_off(
                old(registry)@,
                Hkey::LocalMachine,
                AUDIO_KEY_PATH@,
            ) {
                Seq::empty()
            } else {
                disable_ops()
            },
        ),
{
    proof {
        registry::lemma_advanced_refl(*registry);
    }
    if *known {
        return Ok(());
    }
    let off = match is_disabled(registry) {
        Ok(b) => b,
        Err(e) => {
            return Err(e);
        },
    };
    *known = true;
    if off {
        return Ok(());
    }
    disable(registry)
}

/// Where protection was switched off, it is off.
pub proof fn law_disable_takes_effect(r: Seq<KeyView>)
    ensures
        protection_off(
            registry::apply_all(r, disable_ops()),
            Hkey::LocalMachine,
            AUDIO_KEY_PATH@,
        ),
{
    let ops = disable_ops();
    assert(ops.drop_last() =~= seq![ops[0]]);
    assert(ops.drop_last().drop_last() =~= Seq::<OpView>::empty());
    assert(registry::apply_all(r, ops.drop_last().drop_last()) == r);
    let r1 = registry::apply(r, ops[0]);
    assert(registry::apply_all(r, ops.drop_last()) == r1);
    registry::law_created_key_exists(
        r,
        Hkey::LocalMachine,
        AUDIO_KEY_PATH@,
        Hkey::LocalMachine,
        AUDIO_KEY_PATH@,
    );
    registry::law_read_after_write(
        r1,
        Hkey::LocalMachine,
        AUDIO_KEY_PATH@,
        PROTECTION_VALUE@,
        ValueView::Dword(1),
        Hkey::LocalMachine,
        AUDIO_KEY_PATH@,
        PROTECTION_VALUE@,
    );
}

/// Where protection was left to Windows, it is not off.
pub proof fn law_restore_takes_effect(r: Seq<KeyView>)
    ensures
        !protection_off(
            registry::apply_all(r, restore_ops(r)),
            Hkey::LocalMachine,
            AUDIO_KEY_PATH@,
        ),
{
    let ops = restore_ops(r);
    if ops.len() > 0 {
        assert(ops.drop_last() =~= Seq::<OpView>::empty());
        assert(registry::apply_all(r, ops.drop_last()) == r);
        registry::law_deleted_value_is_gone(
            r,
            Hkey::LocalMachine,
            AUDIO_KEY_PATH@,
            PROTECTION_VALUE@,
            Hkey::LocalMachine,
            AUDIO_KEY_PATH@,
            PROTECTION_VALUE@,
        );
    }
}

// ---------------------------------------------------------------------------
// Stopping and starting services
// ---------------------------------------------------------------------------
/// The state of a service, as far as it matters here.
#[derive(Clone, Copy, Debug, PartialEq, Eq, Structural)]
pub enum ServiceState {
    Stopped,
    Running,
    /// On the way between the two, or paused.
    Other,
}

/// The state that the service manager's number stands for.
pub open spec fn service_state(code: u32) -> ServiceState {
    if code == 1 {
        ServiceState::Stopped
    } else if code == 4 {
        ServiceState::Running
    } else {
        ServiceState::Other
    }
}

/// The state that the service manager's number stands for.
pub fn state_from_code(code: u32) -> (r: ServiceState)
    ensures
        r == service_state(code),
{
    if code == 1 {
        ServiceState::Stopped
    } else if code == 4 {
        ServiceState::Running
    } else {
        ServiceState::Other
    }
}

/// The next step of stopping or starting a service.
#[derive(Clone, Debug, PartialEq, Eq)]
pub enum ServiceStep {
    /// The service is where it is meant to be.
    Done,
    /// Ask the service to start at once, then go on as for `Wait`.
    Retry,
    /// Pause, then look at the state again; a service that is being started is
    /// asked to start right before each look.
    Wait,
    /// Give up, with this message.
    TimedOut(String),
}

/// The contents of a step.
pub enum StepView {
    Done,
    Retry,
    Wait,
    TimedOut(Seq<char>),
}

impl View for ServiceStep {
    type V = StepView;

    open spec fn view(&self) -> StepView {
        match self {
            ServiceStep::Done => StepView::Done,
            ServiceStep::Retry => StepView::Retry,
            ServiceStep::Wait => StepView::Wait,
            ServiceStep::TimedOut(m) => StepView::TimedOut(m@),
        }
    }
}

/// The message for a service that did not get where it was meant to be in time.
pub open spec fn timeout_text(name: Seq<char>, verb: Seq<char>, secs: u32) -> Seq<char> {
    name + verb + text::decimal(secs as nat) + "s)"@
}

fn timeout_message(name: &str, verb: &str, secs: u32) -> (r: String)
    ensures
        r@ == timeout_text(name@, verb@, secs),
{
    let n = decimal_text(secs as u64);
    let mut s = concat3(name, verb, n.as_str());
    s.append("s)");
    s
}

/// The next step of stopping a service that was asked to: done once it has
/// stopped, given up once the deadline has passed.
pub open spec fn stop_next(
    state: ServiceState,
    now_ms: u64,
    deadline_ms: u64,
    name: Seq<char>,
    timeout_secs: u32,
) -> StepView {
    if state == ServiceState::Stopped {
        StepView::Done
    } else if now_ms > deadline_ms {
        StepView::TimedOut(timeout_text(name, " stop timed out ("@, timeout_secs))
    } else {
        StepView::Wait
    }
}

/// The next step of stopping a service that was asked to.
pub fn stop_poll(
    state: ServiceState,
    now_ms: u64,
    deadline_ms: u64,
    name: &str,
    timeout_secs: u32,
) -> (r: ServiceStep)
    ensures
        r@ == stop_next(state, now_ms, deadline_ms, name@, timeout_secs),
{
    if state == ServiceState::Stopped {
        ServiceStep::Done
    } else if now_ms > deadline_ms {
        ServiceStep::TimedOut(timeout_message(name, " stop timed out (", timeout_secs))
    } else {
        ServiceStep::Wait
    }
}

/// The next step of starting a service that was asked to: done once it runs,
/// given up once the deadline has passed, asked once more where the time for it
/// has come.
pub open spec fn start_next(
    state: ServiceState,
    now_ms: u64,
    deadline_ms: u64,
    next_retry_ms: u64,
    name: Seq<char>,
    timeout_secs: u32,
) -> StepView {
    if state == ServiceState::Running {
        StepView::Done
    } else if now_ms > deadline_ms {
        StepView::TimedOut(timeout_text(name, " start timed out ("@, timeout_secs))
    } else if now_ms > next_retry_ms {
        StepView::Retry
    } else {
        StepView::Wait
    }
}

/// The next step of starting a service that was asked to, and the time of the
/// next attempt.
pub fn start_poll(
    state: ServiceState,
    now_ms: u64,
    deadline_ms: u64,
    next_retry_ms: u64,
    name: &str,
    timeout_secs: u32,
) -> (r: (ServiceStep, u64))
    requires
        now_ms <= u64::MAX - START_RETRY_MS,
    ensures
        r.0@ == start_next(state, now_ms, deadline_ms, next_retry_ms, name@, timeout_secs),
        r.1 == (if r.0@ is Retry {
            (now_ms + START_RETRY_MS) as u64
        } else {
            next_retry_ms
        }),
{
    if state == ServiceState::Running {
        (ServiceStep::Done, next_retry_ms)
    } else if now_ms > deadline_ms {
        (
            ServiceStep::TimedOut(timeout_message(name, " start timed out (", timeout_secs)),
            next_retry_ms,
        )
    } else if now_ms > next_retry_ms {
        (ServiceStep::Retry, now_ms + START_RETRY_MS)
    } else {
        (ServiceStep::Wait, next_retry_ms)
    }
}

// ---------------------------------------------------------------------------
// Waiting for the audio engine to leave
// ---------------------------------------------------------------------------
/// Whether a process is the audio engine.
pub fn is_audio_engine(exe_name: &str) -> (r: bool)
    ensures
        r == text::eq_ci(exe_name@, "audiodg.exe"@),
{
    eq_ignore_case(exe_name, "audiodg.exe")
}

/// What is left of a waiting time, in milliseconds.
pub fn remaining_ms(now_ms: u64, deadline_ms: u64) -> (r: u32)
    ensures
        r == (if now_ms >= deadline_ms {
            0
        } else if deadline_ms - now_ms > u32::MAX {
            u32::MAX as int
        } else {
            deadline_ms - now_ms
        }),
{
    if now_ms >= deadline_ms {
        0
    } else if deadline_ms - now_ms > u32::MAX as u64 {
        u32::MAX
    } else {
        (deadline_ms - now_ms) as u32
    }
}

/// What to do next while waiting for the audio engine to leave.
#[derive(Clone, Copy, Debug, PartialEq, Eq, Structural)]
pub enum EngineWait {
    /// List the engine's processes and wait for each in turn.
    Round,
    /// List the engine's processes once more: it has left if there are none.
    Check,
    /// The engine has left.
    Left,
}

/// What to do after a listing: nothing is left to wait for, or the round is
/// waited out. There are two rounds at most.
pub fn after_listing(processes: usize) -> (r: EngineWait)
    ensures
        r == (if processes == 0 {
            EngineWait::Left
        } else {
            EngineWait::Round
        }),
{
    if processes == 0 {
        EngineWait::Left
    } else {
        EngineWait::Round
    }
}

/// What to do after a round: a process that did not leave in time ends the
/// waiting, and so does the second round.
pub fn after_round(rounds_done: u32, all_left: bool) -> (r: EngineWait)
    ensures
        r == (if all_left && rounds_done < 2 {
            EngineWait::Round
        } else {
            EngineWait::Check
        }),
{
    if all_left && rounds_done < 2 {
        EngineWait::Round
    } else {
        EngineWait::Check
    }
}

// ---------------------------------------------------------------------------
// Restarting an endpoint
// ---------------------------------------------------------------------------
/// Whether a character is a brace.
pub open spec fn is_brace(c: char) -> bool {
    c == '{' || c == '}'
}

/// Text without braces at its start.
pub open spec fn unbrace_start(s: Seq<char>) -> Seq<char>
    decreases s.len(),
{
    if s.len() > 0 && is_brace(s[0]) {
        unbrace_start(s.subrange(1, s.len() as int))
    } else {
        s
    }
}

/// Text without braces at its end.
pub open spec fn unbrace_end(s: Seq<char>) -> Seq<char>
    decreases s.len(),
{
    if s.len() > 0 && is_brace(s.last()) {
        unbrace_end(s.drop_last())
    } else {
        s
    }
}

/// The instance identifier of an endpoint as a device.
pub open spec fn endpoint_instance(device_guid: Seq<char>, is_capture: bool) -> Seq<char> {
    "SWD\\MMDEVAPI\\{"@ + (if is_capture {
        "1.0.0.00000000"@
    } else {
        "0.0.0.00000000"@
    }) + "}.{"@ + unbrace_end(unbrace_start(device_guid)) + "}"@
}

fn without_braces(s: &str) -> (r: String)
    ensures
        r@ == unbrace_end(unbrace_start(s@)),
{
    let v = to_chars(s);
    let n: usize = v.len();
    let mut i: usize = 0;
    assert(v@.subrange(0, n as int) =~= v@);
    while i < n && (v[i] == '{' || v[i] == '}')
        invariant
            i <= n,
            n == v@.len(),
            unbrace_start(v@.subrange(i as int, n as int)) == unbrace_start(v@),
        decreases n - i,
    {
        assert(v@.subrange(i as int, n as int).subrange(1, n - i) =~= v@.subrange(
            i + 1,
            n as int,
        ));
        i += 1;
    }
    let mut j: usize = n;
    while j > i && (v[j - 1] == '{' || v[j - 1] == '}')
        invariant
            i <= j <= n,
            n == v@.len(),
            unbrace_end(v@.subrange(i as int, j as int)) == unbrace_end(
                v@.subrange(i as int, n as int),
            ),
        decreases j,
    {
        assert(v@.subrange(i as int, j as int).drop_last() =~= v@.subrange(i as int, j - 1));
        j -= 1;
    }
    let part = sub_chars(v.as_slice(), i, j);
    from_chars(part.as_slice())
}

/// The instance identifier of an endpoint as a device, by which it is restarted.
pub fn endpoint_instance_id(device_guid: &str, is_capture: bool) -> (r: String)
    ensures
        r@ == endpoint_instance(device_guid@, is_capture),
{
    let flow = if is_capture {
        "1.0.0.00000000"
    } else {
        "0.0.0.00000000"
    };
    let guid = without_braces(device_guid);
    let head = concat3("SWD\\MMDEVAPI\\{", flow, "}.{");
    let tail = concat2(guid.as_str(), "}");
    let r = concat2(head.as_str(), tail.as_str());
    assert(r@ =~= endpoint_instance(device_guid@, is_capture));
    r
}

// ---------------------------------------------------------------------------
// What waiting promises
// ---------------------------------------------------------------------------
/// A service that is to stop is done with once it has stopped, late or not; one that has
/// not is waited for up to the deadline, and given up after it.
pub proof fn law_stopping(
    state: ServiceState,
    now_ms: u64,
    deadline_ms: u64,
    name: Seq<char>,
    timeout_secs: u32,
)
    ensures
        ({
            let step = stop_next(state, now_ms, deadline_ms, name, timeout_secs);
            &&& step is Done <==> state is Stopped
            &&& step is Wait <==> !(state is Stopped) && now_ms <= deadline_ms
            &&& step is TimedOut <==> !(state is Stopped) && now_ms > deadline_ms
            &&& !(step is Retry)
        }),
{
}

/// A service that is to start is done with once it runs, late or not; one that does not
/// is given up after the deadline, and until then asked again whenever the time for that
/// has come.
pub proof fn law_starting(
    state: ServiceState,
    now_ms: u64,
    deadline_ms: u64,
    next_retry_ms: u64,
    name: Seq<char>,
    timeout_secs: u32,
)
    ensures
        ({
            let step = start_next(
                state,
                now_ms,
                deadline_ms,
                next_retry_ms,
                name,
                timeout_secs,
            );
            &&& step is Done <==> state is Running
            &&& step is TimedOut <==> !(state is Running) && now_ms > deadline_ms
            &&& step is Retry <==> !(state is Running) && now_ms <= deadline_ms && now_ms
                > next_retry_ms
            &&& step is Wait <==> !(state is Running) && now_ms <= deadline_ms && now_ms
                <= next_retry_ms
        }),
{
}

/// The service manager's numbers: one for stopped, four for running, others for neither.
pub proof fn law_service_states(code: u32)
    ensures
        service_state(code) is Stopped <==> code == 1,
        service_state(code) is Running <==> code == 4,
{
}

proof fn lemma_unbraced(inner: Seq<char>)
    requires
        inner.len() > 0,
        !is_brace(inner[0]),
        !is_brace(inner.last()),
    ensures
        unbrace_end(unbrace_start(seq!['{'] + inner + seq!['}'])) == inner,
        unbrace_end(unbrace_start(inner)) == inner,
{
    let s = seq!['{'] + inner + seq!['}'];
    let t = inner + seq!['}'];
    assert(s.subrange(1, s.len() as int) =~= t);
    assert(s[0] == '{');
    assert(t[0] == inner[0]);
    assert(unbrace_start(t) == t);
    assert(unbrace_start(s) == t);
    assert(t.drop_last() =~= inner);
    assert(t.last() == '}');
    assert(unbrace_end(inner) == inner);
}

/// The instance of an endpoint names its direction and its GUID, written with braces or
/// without them.
pub proof fn law_endpoint_instance(inner: Seq<char>, is_capture: bool)
    requires
        inner.len() > 0,
        !is_brace(inner[0]),
        !is_brace(inner.last()),
    ensures
        ({
            let front = if is_capture {
                "SWD\\MMDEVAPI\\{1.0.0.00000000}.{"@
            } else {
                "SWD\\MMDEVAPI\\{0.0.0.00000000}.{"@
            };
            let braced = seq!['{'] + inner + seq!['}'];
            &&& endpoint_instance(braced, is_capture) == front + inner + "}"@
            &&& endpoint_instance(inner, is_capture) == front + inner + "}"@
        }),
{
    lemma_unbraced(inner);
    reveal_strlit("SWD\\MMDEVAPI\\{");
    reveal_strlit("1.0.0.00000000");
    reveal_strlit("0.0.0.00000000");
    reveal_strlit("}.{");
    reveal_strlit("SWD\\MMDEVAPI\\{1.0.0.00000000}.{");
    reveal_strlit("SWD\\MMDEVAPI\\{0.0.0.00000000}.{");
    assert("SWD\\MMDEVAPI\\{"@ + "1.0.0.00000000"@ + "}.{"@
        =~= "SWD\\MMDEVAPI\\{1.0.0.00000000}.{"@);
    assert("SWD\\MMDEVAPI\\{"@ + "0.0.0.00000000"@ + "}.{"@
        =~= "SWD\\MMDEVAPI\\{0.0.0.00000000}.{"@);
}

} // verus!
