//! Event dispatcher and listener state machine: classifies decoded
//! supervisor events, applies the auto-restart policy, mutates the alert
//! and heartbeat stores, and drives the three-phase acknowledgement
//! handshake.

use vstd::prelude::*;

use crate::childutils::{eventdata, eventdata_headers, header_map_spec, HeaderMap};
use crate::namedmap::NamedMap;
use crate::policy::{get_autorestart_state, ConfigDBTrait};
use crate::state::AlertEntry;
use crate::strutil::{contains_name, parse_i32, parse_i32_spec, parse_u64, parse_u64_spec, seq_contains_str, str_eq};

verus! {

/// The three textual states of the acknowledgement handshake.
#[derive(Clone, Copy, PartialEq, Eq, Structural, Debug)]
pub enum ListenerState {
    Ready,
    Busy,
    Acknowledged,
}

/// The one cycle the handshake permits: an available event makes a ready
/// listener busy, finishing the event acknowledges, and acknowledging
/// returns to ready.  No other transition exists.
pub fn listener_transition(s: ListenerState) -> (r: ListenerState)
    ensures
        s is Ready ==> r is Busy,
        s is Busy ==> r is Acknowledged,
        s is Acknowledged ==> r is Ready,
{
    match s {
        ListenerState::Ready => ListenerState::Busy,
        ListenerState::Busy => ListenerState::Acknowledged,
        ListenerState::Acknowledged => ListenerState::Ready,
    }
}

/// The idle token written on entering the ready state.
pub fn ready_token() -> (r: &'static str)
    ensures
        r@ == "READY\n"@,
{
    "READY\n"
}

/// The fixed acknowledgement written when an event has been processed.
pub fn ack_token() -> (r: &'static str)
    ensures
        r@ == "RESULT 2\nOK"@,
{
    "RESULT 2\nOK"
}

/// What the ready state read from the stream: its end, or one header
/// line.
pub enum ReadyInput {
    EndOfStream,
    HeaderLine(String),
}

/// What a ready listener does with its input: exit the loop with success,
/// or go busy over the decoded header line.
pub enum ReadyAction {
    ExitSuccess,
    Process { next_state: ListenerState, decision: HeaderDecision },
}

/// What a decoded header line asks for: reading `len` payload bytes, or
/// discarding the event because `len` is absent or unparsable.
pub enum HeaderDecision {
    ReadPayload { headers: HeaderMap, len: usize },
    Discard { headers: HeaderMap },
}

/// Decodes one header line and extracts the mandatory `len` field.  An
/// absent or unparsable `len` discards the event; no payload is read for
/// it.
pub fn begin_event(line: &str) -> (r: HeaderDecision)
    ensures
        ({
            let m = header_map_spec(line@);
            match r {
                HeaderDecision::ReadPayload { headers, len } => {
                    &&& headers.wf()
                    &&& headers@ == m
                    &&& m.contains_key("len"@)
                    &&& parse_u64_spec(m["len"@]) == Some(len as u64)
                },
                HeaderDecision::Discard { headers } => {
                    &&& headers.wf()
                    &&& headers@ == m
                    &&& (m.contains_key("len"@) ==> match parse_u64_spec(m["len"@]) {
                        Some(v) => v > usize::MAX as u64,
                        None => true,
                    })
                },
            }
        }),
{
    let headers = crate::childutils::get_headers(line);
    let len_val: Option<u64> = match headers.get("len") {
        Some(s) => parse_u64(s.as_str()),
        None => None,
    };
    match len_val {
        Some(v) => {
            if v <= usize::MAX as u64 {
                let len: usize = v as usize;
                HeaderDecision::ReadPayload { headers, len }
            } else {
                HeaderDecision::Discard { headers }
            }
        },
        None => HeaderDecision::Discard { headers },
    }
}

/// One ready-state step.  End of stream is the sole terminal case and
/// always exits with success; a header line makes the listener busy with
/// the line's decision.
pub fn on_ready_input(state: ListenerState, input: ReadyInput) -> (r: ReadyAction)
    requires
        state is Ready,
    ensures
        input is EndOfStream <==> r is ExitSuccess,
        match r {
            ReadyAction::ExitSuccess => true,
            ReadyAction::Process { next_state, decision } => {
                &&& next_state is Busy
                &&& input matches ReadyInput::HeaderLine(line) && match decision {
                    HeaderDecision::ReadPayload { headers, .. } => headers@ == header_map_spec(
                        line@,
                    ),
                    HeaderDecision::Discard { headers } => headers@ == header_map_spec(line@),
                }
            },
        },
{
    match input {
        ReadyInput::EndOfStream => ReadyAction::ExitSuccess,
        ReadyInput::HeaderLine(line) => {
            let decision = begin_event(line.as_str());
            let next_state = listener_transition(state);
            ReadyAction::Process { next_state, decision }
        },
    }
}

/// The event names the dispatcher acts on; everything else is
/// acknowledged and otherwise ignored.
#[derive(Clone, Copy, PartialEq, Eq, Structural, Debug)]
pub enum EventKind {
    StateExited,
    StateRunning,
    CommunicationStdout,
    Unknown,
}

pub fn classify_event(eventname: &str) -> (r: EventKind)
    ensures
        r is StateExited <==> eventname@ == "PROCESS_STATE_EXITED"@,
        r is StateRunning <==> eventname@ == "PROCESS_STATE_RUNNING"@,
        r is CommunicationStdout <==> eventname@ == "PROCESS_COMMUNICATION_STDOUT"@,
{
    proof {
        reveal_strlit("PROCESS_STATE_EXITED");
        reveal_strlit("PROCESS_STATE_RUNNING");
        reveal_strlit("PROCESS_COMMUNICATION_STDOUT");
        assert("PROCESS_STATE_EXITED"@.len() == 20);
        assert("PROCESS_STATE_RUNNING"@.len() == 21);
        assert("PROCESS_COMMUNICATION_STDOUT"@.len() == 28);
    }
    if str_eq(eventname, "PROCESS_STATE_EXITED") {
        EventKind::StateExited
    } else if str_eq(eventname, "PROCESS_STATE_RUNNING") {
        EventKind::StateRunning
    } else if str_eq(eventname, "PROCESS_COMMUNICATION_STDOUT") {
        EventKind::CommunicationStdout
    } else {
        EventKind::Unknown
    }
}

/// The listener's whole mutable state: the name lists and threshold table
/// fixed at startup, and the two per-process stores the dispatcher and
/// the sweep mutate.
pub struct ListenerCore {
    pub critical_group_list: Vec<String>,
    pub critical_process_list: Vec<String>,
    pub watch_process_list: Vec<String>,
    pub heartbeat_intervals: NamedMap<i64>,
    pub process_under_alerting: NamedMap<AlertEntry>,
    pub process_heart_beat_info: NamedMap<u64>,
}

pub open spec fn names_view(v: Seq<String>) -> Seq<Seq<char>> {
    v.map_values(|s: String| s@)
}

impl ListenerCore {
    pub open spec fn wf(&self) -> bool {
        &&& self.heartbeat_intervals.wf()
        &&& self.process_under_alerting.wf()
        &&& self.process_heart_beat_info.wf()
    }

    pub fn new(
        critical_group_list: Vec<String>,
        critical_process_list: Vec<String>,
        watch_process_list: Vec<String>,
        heartbeat_intervals: NamedMap<i64>,
    ) -> (r: ListenerCore)
        requires
            heartbeat_intervals.wf(),
        ensures
            r.wf(),
            r.critical_group_list == critical_group_list,
            r.critical_process_list == critical_process_list,
            r.watch_process_list == watch_process_list,
            r.heartbeat_intervals == heartbeat_intervals,
            r.process_under_alerting@ == Map::<Seq<char>, AlertEntry>::empty(),
            r.process_heart_beat_info@ == Map::<Seq<char>, u64>::empty(),
    {
        ListenerCore {
            critical_group_list,
            critical_process_list,
            watch_process_list,
            heartbeat_intervals,
            process_under_alerting: NamedMap::new(),
            process_heart_beat_info: NamedMap::new(),
        }
    }
}

/// The field a payload mapping gives a key, or the empty string.
pub open spec fn field_or_empty(m: Map<Seq<char>, Seq<char>>, k: Seq<char>) -> Seq<char> {
    if m.contains_key(k) {
        m[k]
    } else {
        Seq::<char>::empty()
    }
}

/// The `expected` flag of an exit payload: its field read as a signed
/// decimal, with zero standing in where the field is absent or
/// unparsable.
pub open spec fn exited_expected(m: Map<Seq<char>, Seq<char>>) -> int {
    if m.contains_key("expected"@) {
        match parse_i32_spec(m["expected"@]) {
            Some(v) => v as int,
            None => 0,
        }
    } else {
        0
    }
}

/// Whether an exit payload names a critical process or group.
pub open spec fn exit_is_critical(core: ListenerCore, m: Map<Seq<char>, Seq<char>>) -> bool {
    ||| seq_contains_str(names_view(core.critical_process_list@), field_or_empty(m, "processname"@))
    ||| seq_contains_str(names_view(core.critical_group_list@), field_or_empty(m, "groupname"@))
}

/// How the policy answer reads: `enabled` itself, or any lookup failure,
/// permits restart; fail-open by design.
pub open spec fn autorestart_effective_enabled(st: Option<String>) -> bool {
    match st {
        Some(s) => s@ == "enabled"@,
        None => true,
    }
}

/// Everything but the alert store agrees between two cores.
pub open spec fn same_except_alerts(a: ListenerCore, b: ListenerCore) -> bool {
    &&& a.critical_group_list == b.critical_group_list
    &&& a.critical_process_list == b.critical_process_list
    &&& a.watch_process_list == b.watch_process_list
    &&& a.heartbeat_intervals == b.heartbeat_intervals
    &&& a.process_heart_beat_info == b.process_heart_beat_info
}

/// Everything but the heartbeat store agrees between two cores.
pub open spec fn same_except_heartbeats(a: ListenerCore, b: ListenerCore) -> bool {
    &&& a.critical_group_list == b.critical_group_list
    &&& a.critical_process_list == b.critical_process_list
    &&& a.watch_process_list == b.watch_process_list
    &&& a.heartbeat_intervals == b.heartbeat_intervals
    &&& a.process_under_alerting == b.process_under_alerting
}

/// What became of one critical unexpected exit: the container is to be
/// terminated, or the process was put under alerting.
#[derive(Clone, Copy, PartialEq, Eq, Structural, Debug)]
pub enum ExitedOutcome {
    Terminate,
    Recorded,
    Ignored,
}

/// Applies the auto-restart policy to a critical process that exited
/// unexpectedly.  An `enabled` answer — or none at all, failing open —
/// asks for termination and touches no state.  Anything else puts the
/// process under alerting with a fresh entry: time stamped `now`, zero
/// dead minutes, any earlier entry overwritten, so a flapping process
/// restarts its own escalation clock.
pub fn apply_exit_policy(
    core: &mut ListenerCore,
    process_name: String,
    auto_restart: &Option<String>,
    now: u64,
) -> (terminate: bool)
    requires
        old(core).wf(),
    ensures
        final(core).wf(),
        terminate == autorestart_effective_enabled(*auto_restart),
        terminate ==> *final(core) == *old(core),
        !terminate ==> same_except_alerts(*final(core), *old(core))
            && final(core).process_under_alerting@ == old(core).process_under_alerting@.insert(
            process_name@,
            AlertEntry { last_alert_time: now, dead_minutes: 0 },
        ),
{
    let enabled: bool = match auto_restart {
        Some(s) => str_eq(s.as_str(), "enabled"),
        None => true,
    };
    if enabled {
        true
    } else {
        core.process_under_alerting.upsert(
            process_name,
            AlertEntry { last_alert_time: now, dead_minutes: 0 },
        );
        false
    }
}

/// Handles `PROCESS_STATE_EXITED`.  A planned exit (`expected` not zero)
/// or a non-critical process changes nothing.  A critical unexpected exit
/// queries the policy: restart permission asks for termination, leaving
/// all state untouched; otherwise the process goes under alerting stamped
/// `now` with zero dead minutes.
pub fn handle_process_state_exited<D: ConfigDBTrait + ?Sized>(
    core: &mut ListenerCore,
    payload_headers: &HeaderMap,
    container_name: &str,
    config_db: &D,
    now: u64,
) -> (r: ExitedOutcome)
    requires
        old(core).wf(),
        payload_headers.wf(),
    ensures
        final(core).wf(),
        ({
            let m = payload_headers@;
            let acted = exit_is_critical(*old(core), m) && exited_expected(m) == 0;
            &&& (!acted ==> r is Ignored && *final(core) == *old(core))
            &&& (r is Ignored ==> !acted)
            &&& (r is Terminate ==> acted && *final(core) == *old(core))
            &&& (r is Recorded ==> acted && same_except_alerts(*final(core), *old(core))
                && final(core).process_under_alerting@ == old(
                core,
            ).process_under_alerting@.insert(
                field_or_empty(m, "processname"@),
                AlertEntry { last_alert_time: now, dead_minutes: 0 },
            ))
        }),
{
    let process_name: String = match payload_headers.get("processname") {
        Some(v) => v.clone(),
        None => String::new(),
    };
    let group_name: String = match payload_headers.get("groupname") {
        Some(v) => v.clone(),
        None => String::new(),
    };
    let expected: i32 = match payload_headers.get("expected") {
        Some(v) => match parse_i32(v.as_str()) {
            Some(x) => x,
            None => 0,
        },
        None => 0,
    };
    let critical = contains_name(&core.critical_process_list, process_name.as_str())
        || contains_name(&core.critical_group_list, group_name.as_str());
    if critical && expected == 0 {
        let auto_restart = get_autorestart_state(container_name, config_db);
        if apply_exit_policy(core, process_name, &auto_restart, now) {
            ExitedOutcome::Terminate
        } else {
            ExitedOutcome::Recorded
        }
    } else {
        ExitedOutcome::Ignored
    }
}

/// Handles `PROCESS_STATE_RUNNING`: a process reporting itself running
/// has recovered, so its alert entry — if any — is dropped; nothing else
/// changes.
pub fn handle_process_state_running(core: &mut ListenerCore, payload_headers: &HeaderMap)
    requires
        old(core).wf(),
        payload_headers.wf(),
    ensures
        final(core).wf(),
        same_except_alerts(*final(core), *old(core)),
        final(core).process_under_alerting@ == old(core).process_under_alerting@.remove(
            field_or_empty(payload_headers@, "processname"@),
        ),
{
    let process_name: String = match payload_headers.get("processname") {
        Some(v) => v.clone(),
        None => String::new(),
    };
    core.process_under_alerting.remove(process_name.as_str());
}

/// Handles `PROCESS_COMMUNICATION_STDOUT`: a liveness signal from a
/// watched process stamps its heartbeat with `now`; an unwatched sender
/// changes nothing.
pub fn handle_process_communication_stdout(
    core: &mut ListenerCore,
    payload_headers: &HeaderMap,
    now: u64,
)
    requires
        old(core).wf(),
        payload_headers.wf(),
    ensures
        final(core).wf(),
        ({
            let p = field_or_empty(payload_headers@, "processname"@);
            if seq_contains_str(names_view(old(core).watch_process_list@), p) {
                same_except_heartbeats(*final(core), *old(core))
                    && final(core).process_heart_beat_info@ == old(
                    core,
                ).process_heart_beat_info@.insert(p, now)
            } else {
                *final(core) == *old(core)
            }
        }),
{
    let process_name: String = match payload_headers.get("processname") {
        Some(v) => v.clone(),
        None => String::new(),
    };
    if contains_name(&core.watch_process_list, process_name.as_str()) {
        core.process_heart_beat_info.upsert(process_name, now);
    }
}

/// Whether the dispatched event ended the loop: a termination decision,
/// or not.
#[derive(Clone, Copy, PartialEq, Eq, Structural, Debug)]
pub enum EventOutcome {
    Continue,
    Terminate,
}

/// Dispatches one decoded event: decodes the payload's header line and
/// acts by event name.  Only a critical unexpected exit with restart
/// permission asks the caller to terminate; every other event, the
/// unknown ones included, continues the loop.
pub fn handle_event<D: ConfigDBTrait + ?Sized>(
    core: &mut ListenerCore,
    eventname: &str,
    payload: &str,
    container_name: &str,
    config_db: &D,
    now: u64,
) -> (r: EventOutcome)
    requires
        old(core).wf(),
    ensures
        final(core).wf(),
        ({
            let m = eventdata_headers(payload@);
            let p = field_or_empty(m, "processname"@);
            &&& (eventname@ == "PROCESS_STATE_EXITED"@ ==> {
                let acted = exit_is_critical(*old(core), m) && exited_expected(m) == 0;
                &&& (!acted ==> r is Continue && *final(core) == *old(core))
                &&& (r is Terminate ==> acted && *final(core) == *old(core))
                &&& ((acted && r is Continue) ==> same_except_alerts(*final(core), *old(core))
                    && final(core).process_under_alerting@ == old(
                    core,
                ).process_under_alerting@.insert(
                    p,
                    AlertEntry { last_alert_time: now, dead_minutes: 0 },
                ))
            })
            &&& (eventname@ == "PROCESS_STATE_RUNNING"@ ==> r is Continue && same_except_alerts(
                *final(core),
                *old(core),
            ) && final(core).process_under_alerting@ == old(core).process_under_alerting@.remove(p))
            &&& (eventname@ == "PROCESS_COMMUNICATION_STDOUT"@ ==> r is Continue && (
            if seq_contains_str(names_view(old(core).watch_process_list@), p) {
                same_except_heartbeats(*final(core), *old(core))
                    && final(core).process_heart_beat_info@ == old(
                    core,
                ).process_heart_beat_info@.insert(p, now)
            } else {
                *final(core) == *old(core)
            }))
            &&& (eventname@ != "PROCESS_STATE_EXITED"@ && eventname@ != "PROCESS_STATE_RUNNING"@
                && eventname@ != "PROCESS_COMMUNICATION_STDOUT"@ ==> r is Continue && *final(core)
                == *old(core))
            &&& (r is Terminate ==> eventname@ == "PROCESS_STATE_EXITED"@)
        }),
{
    let kind = classify_event(eventname);
    match kind {
        EventKind::StateExited => {
            let (payload_headers, _payload_data) = eventdata(payload);
            let outcome = handle_process_state_exited(
                core,
                &payload_headers,
                container_name,
                config_db,
                now,
            );
            match outcome {
                ExitedOutcome::Terminate => EventOutcome::Terminate,
                ExitedOutcome::Recorded => EventOutcome::Continue,
                ExitedOutcome::Ignored => EventOutcome::Continue,
            }
        },
        EventKind::StateRunning => {
            let (payload_headers, _payload_data) = eventdata(payload);
            handle_process_state_running(core, &payload_headers);
            EventOutcome::Continue
        },
        EventKind::CommunicationStdout => {
            let (payload_headers, _payload_data) = eventdata(payload);
            handle_process_communication_stdout(core, &payload_headers, now);
            EventOutcome::Continue
        },
        EventKind::Unknown => EventOutcome::Continue,
    }
}

} // verus!
