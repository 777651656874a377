//! Tests of the listener core: the name-list loader, the event
//! dispatcher, the policy engine and the periodic sweeps.

use sonic_util::childutils::HeaderMap;
use sonic_util::dispatch::{
    ack_token, begin_event, classify_event, handle_event, listener_transition, on_ready_input,
    ready_token, EventKind, EventOutcome, HeaderDecision, ListenerCore, ListenerState, ReadyAction,
    ReadyInput,
};
use sonic_util::namedmap::NamedMap;
use sonic_util::namelist::{parse_group_and_process_list, NameListError};
use sonic_util::policy::{
    autorestart_state_from_table, get_autorestart_state, load_heartbeat_alert_interval,
    ConfigDBTrait, DbError,
};
use sonic_util::state::{
    get_heartbeat_alert_interval, sweep_alerts, sweep_heartbeats, AlertEntry,
};
use sonic_util::strutil::{parse_i64, parse_u64};

/// A substitute configuration store over fixed rows.
struct MockConfigDb {
    feature: Vec<(String, Vec<(String, String)>)>,
    heartbeat: Vec<(String, Vec<(String, String)>)>,
    fail: bool,
}

impl MockConfigDb {
    fn empty() -> Self {
        MockConfigDb { feature: Vec::new(), heartbeat: Vec::new(), fail: false }
    }

    fn with_feature(container: &str, auto_restart: &str) -> Self {
        MockConfigDb {
            feature: vec![(
                container.to_string(),
                vec![("auto_restart".to_string(), auto_restart.to_string())],
            )],
            heartbeat: Vec::new(),
            fail: false,
        }
    }

    fn unreachable_store() -> Self {
        MockConfigDb { feature: Vec::new(), heartbeat: Vec::new(), fail: true }
    }

    fn build(rows: &[(String, Vec<(String, String)>)]) -> Vec<(String, HeaderMap)> {
        let mut out = Vec::new();
        for (key, fields) in rows {
            let mut m = HeaderMap::new();
            for (f, v) in fields {
                m.upsert(f.clone(), v.clone());
            }
            out.push((key.clone(), m));
        }
        out
    }
}

impl ConfigDBTrait for MockConfigDb {
    fn get_table(&self, table: &str) -> Result<Vec<(String, HeaderMap)>, DbError> {
        if self.fail {
            return Err(DbError { msg: "store unreachable".to_string() });
        }
        if table == "FEATURE" {
            Ok(MockConfigDb::build(&self.feature))
        } else if table == "HEARTBEAT" {
            Ok(MockConfigDb::build(&self.heartbeat))
        } else {
            Ok(Vec::new())
        }
    }
}

fn lines(v: &[&str]) -> Vec<String> {
    v.iter().map(|s| s.to_string()).collect()
}

fn core_with(critical_groups: &[&str], critical_processes: &[&str], watched: &[&str]) -> ListenerCore {
    ListenerCore::new(
        lines(critical_groups),
        lines(critical_processes),
        lines(watched),
        NamedMap::new(),
    )
}

#[test]
fn test_get_group_and_process_list() {
    let file = lines(&[
        "program:orchagent",
        "program:portsyncd",
        "group:dhcp-relay",
        "program:fdbsyncd",
        "",
        "program:vlanmgrd",
    ]);
    let (groups, processes) = parse_group_and_process_list(&file).unwrap();

    assert_eq!(groups, vec!["dhcp-relay"]);
    assert_eq!(processes, vec!["orchagent", "portsyncd", "fdbsyncd", "vlanmgrd"]);

    assert!(processes.contains(&"orchagent".to_string()));
    assert!(groups.contains(&"dhcp-relay".to_string()));
    assert!(!processes.contains(&"unknown".to_string()));
}

#[test]
fn test_name_list_errors() {
    let bad_shape = lines(&["program:orchagent", "orchagent"]);
    match parse_group_and_process_list(&bad_shape) {
        Err(NameListError::BadShape { line }) => {
            assert_eq!(line, 1);
            assert_eq!(NameListError::BadShape { line }.exit_code(), 5);
        }
        other => panic!("expected a shape error, got {:?}", other.is_ok()),
    }

    let bad_entry = lines(&["daemon:orchagent"]);
    match parse_group_and_process_list(&bad_entry) {
        Err(NameListError::BadEntry { line }) => {
            assert_eq!(line, 0);
            assert_eq!(NameListError::BadEntry { line }.exit_code(), 6);
        }
        other => panic!("expected an entry error, got {:?}", other.is_ok()),
    }

    let empty_name = lines(&["group:  "]);
    assert!(parse_group_and_process_list(&empty_name).is_err());

    let spaced = lines(&["  group :  dhcp-relay  ", "program: snmpd"]);
    let (groups, processes) = parse_group_and_process_list(&spaced).unwrap();
    assert_eq!(groups, vec!["dhcp-relay"]);
    assert_eq!(processes, vec!["snmpd"]);
}

#[test]
fn test_critical_exit_autorestart_enabled_terminates() {
    let mut core = core_with(&[], &["orchagent"], &[]);
    let db = MockConfigDb::with_feature("swss", "enabled");
    let payload = "processname:orchagent groupname:orch from_state:RUNNING expected:0 pid:1234";

    let outcome = handle_event(&mut core, "PROCESS_STATE_EXITED", payload, "swss", &db, 100);
    assert!(matches!(outcome, EventOutcome::Terminate));
    assert_eq!(core.process_under_alerting.len(), 0);
}

#[test]
fn test_critical_exit_autorestart_disabled_records_alert() {
    let mut core = core_with(&[], &["snmpd"], &[]);
    let db = MockConfigDb::with_feature("snmp", "disabled");
    let payload = "processname:snmpd groupname:snmp-group from_state:RUNNING expected:0 pid:77";

    let outcome = handle_event(&mut core, "PROCESS_STATE_EXITED", payload, "snmp", &db, 500);
    assert!(matches!(outcome, EventOutcome::Continue));
    assert_eq!(
        core.process_under_alerting.get("snmpd"),
        Some(AlertEntry { last_alert_time: 500, dead_minutes: 0 })
    );
}

#[test]
fn test_critical_group_exit_is_also_critical() {
    let mut core = core_with(&["dhcp-relay"], &[], &[]);
    let db = MockConfigDb::with_feature("swss", "disabled");
    let payload = "processname:dhcpmon groupname:dhcp-relay from_state:RUNNING expected:0 pid:9";

    let outcome = handle_event(&mut core, "PROCESS_STATE_EXITED", payload, "swss", &db, 7);
    assert!(matches!(outcome, EventOutcome::Continue));
    assert!(core.process_under_alerting.get("dhcpmon").is_some());
}

#[test]
fn test_expected_exit_mutates_nothing() {
    let mut core = core_with(&[], &["orchagent"], &[]);
    let db = MockConfigDb::with_feature("swss", "disabled");
    let payload = "processname:orchagent groupname:orch from_state:RUNNING expected:1 pid:12";

    let outcome = handle_event(&mut core, "PROCESS_STATE_EXITED", payload, "swss", &db, 3);
    assert!(matches!(outcome, EventOutcome::Continue));
    assert_eq!(core.process_under_alerting.len(), 0);
}

#[test]
fn test_noncritical_exit_mutates_nothing() {
    let mut core = core_with(&[], &["orchagent"], &[]);
    let db = MockConfigDb::with_feature("swss", "disabled");
    let payload = "processname:lldpd groupname:lldp from_state:RUNNING expected:0 pid:12";

    let outcome = handle_event(&mut core, "PROCESS_STATE_EXITED", payload, "swss", &db, 3);
    assert!(matches!(outcome, EventOutcome::Continue));
    assert_eq!(core.process_under_alerting.len(), 0);
}

#[test]
fn test_store_failure_fails_open_to_termination() {
    let mut core = core_with(&[], &["orchagent"], &[]);
    let db = MockConfigDb::unreachable_store();
    let payload = "processname:orchagent groupname:orch from_state:RUNNING expected:0 pid:1";

    let outcome = handle_event(&mut core, "PROCESS_STATE_EXITED", payload, "swss", &db, 1);
    assert!(matches!(outcome, EventOutcome::Terminate));
    assert_eq!(core.process_under_alerting.len(), 0);
}

#[test]
fn test_alert_sweep_charges_elapsed_minutes() {
    let mut core = core_with(&[], &["snmpd"], &[]);
    let db = MockConfigDb::with_feature("snmp", "disabled");
    let payload = "processname:snmpd groupname:snmp-group from_state:RUNNING expected:0 pid:77";
    let t0 = 1000u64;
    handle_event(&mut core, "PROCESS_STATE_EXITED", payload, "snmp", &db, t0);

    let alerts = sweep_alerts(&mut core.process_under_alerting, t0 + 30);
    assert_eq!(alerts.len(), 0);

    let alerts = sweep_alerts(&mut core.process_under_alerting, t0 + 65);
    assert_eq!(alerts.len(), 1);
    assert_eq!(alerts[0].process_name, "snmpd");
    assert_eq!(alerts[0].dead_minutes, 1);
    assert_eq!(
        core.process_under_alerting.get("snmpd"),
        Some(AlertEntry { last_alert_time: t0 + 65, dead_minutes: 1 })
    );
}

#[test]
fn test_running_event_clears_alert_and_next_sweep_is_quiet() {
    let mut core = core_with(&[], &["snmpd"], &[]);
    let db = MockConfigDb::with_feature("snmp", "disabled");
    let exit_payload = "processname:snmpd groupname:g from_state:RUNNING expected:0 pid:7";
    let t0 = 50u64;
    handle_event(&mut core, "PROCESS_STATE_EXITED", exit_payload, "snmp", &db, t0);
    assert!(core.process_under_alerting.get("snmpd").is_some());

    let running_payload = "processname:snmpd groupname:g from_state:STARTING pid:8";
    let outcome = handle_event(
        &mut core,
        "PROCESS_STATE_RUNNING",
        running_payload,
        "snmp",
        &db,
        t0 + 5,
    );
    assert!(matches!(outcome, EventOutcome::Continue));
    assert!(core.process_under_alerting.get("snmpd").is_none());

    let alerts = sweep_alerts(&mut core.process_under_alerting, t0 + 1000);
    assert_eq!(alerts.len(), 0);
}

#[test]
fn test_flapping_process_resets_its_alert_clock() {
    let mut core = core_with(&[], &["snmpd"], &[]);
    let db = MockConfigDb::with_feature("snmp", "disabled");
    let payload = "processname:snmpd groupname:g from_state:RUNNING expected:0 pid:7";
    handle_event(&mut core, "PROCESS_STATE_EXITED", payload, "snmp", &db, 100);
    sweep_alerts(&mut core.process_under_alerting, 100 + 120);
    assert_eq!(
        core.process_under_alerting.get("snmpd").unwrap().dead_minutes,
        2
    );

    handle_event(&mut core, "PROCESS_STATE_EXITED", payload, "snmp", &db, 400);
    assert_eq!(
        core.process_under_alerting.get("snmpd"),
        Some(AlertEntry { last_alert_time: 400, dead_minutes: 0 })
    );
}

#[test]
fn test_heartbeat_stuck_alert_fires_at_override_threshold() {
    let mut core = core_with(&[], &[], &["bgpd"]);
    let mut intervals: NamedMap<i64> = NamedMap::new();
    intervals.upsert("bgpd".to_string(), 30000);
    let db = MockConfigDb::empty();
    let t0 = 2000u64;

    let payload = "processname:bgpd pid:11";
    handle_event(&mut core, "PROCESS_COMMUNICATION_STDOUT", payload, "bgp", &db, t0);
    assert_eq!(core.process_heart_beat_info.get("bgpd"), Some(t0));

    let alerts = sweep_heartbeats(&core.process_heart_beat_info, &intervals, t0 + 29);
    assert_eq!(alerts.len(), 0);

    let alerts = sweep_heartbeats(&core.process_heart_beat_info, &intervals, t0 + 30);
    assert_eq!(alerts.len(), 1);
    assert_eq!(alerts[0].process_name, "bgpd");
    assert_eq!(alerts[0].stuck_minutes, 0);

    let alerts = sweep_heartbeats(&core.process_heart_beat_info, &intervals, t0 + 31);
    assert_eq!(alerts.len(), 1);

    let alerts = sweep_heartbeats(&core.process_heart_beat_info, &intervals, t0 + 120);
    assert_eq!(alerts.len(), 1);
    assert_eq!(alerts[0].stuck_minutes, 2);
}

#[test]
fn test_alert_sweep_keeps_store_order_and_skips_fresh_entries() {
    let mut store: NamedMap<AlertEntry> = NamedMap::new();
    store.upsert("first".to_string(), AlertEntry { last_alert_time: 0, dead_minutes: 0 });
    store.upsert("fresh".to_string(), AlertEntry { last_alert_time: 170, dead_minutes: 0 });
    store.upsert("second".to_string(), AlertEntry { last_alert_time: 40, dead_minutes: 0 });

    let alerts = sweep_alerts(&mut store, 180);
    assert_eq!(alerts.len(), 2);
    assert_eq!(alerts[0].process_name, "first");
    assert_eq!(alerts[0].dead_minutes, 3);
    assert_eq!(alerts[1].process_name, "second");
    assert_eq!(alerts[1].dead_minutes, 2);
    assert_eq!(
        store.get("fresh"),
        Some(AlertEntry { last_alert_time: 170, dead_minutes: 0 })
    );
}

#[test]
fn test_unwatched_sender_records_no_heartbeat() {
    let mut core = core_with(&[], &[], &["bgpd"]);
    let db = MockConfigDb::empty();
    let payload = "processname:zebra pid:11";
    handle_event(&mut core, "PROCESS_COMMUNICATION_STDOUT", payload, "bgp", &db, 5);
    assert_eq!(core.process_heart_beat_info.len(), 0);
}

#[test]
fn test_unknown_event_changes_nothing() {
    let mut core = core_with(&[], &["orchagent"], &[]);
    let db = MockConfigDb::empty();
    let outcome = handle_event(&mut core, "TICK_60", "when:12\n", "swss", &db, 5);
    assert!(matches!(outcome, EventOutcome::Continue));
    assert_eq!(core.process_under_alerting.len(), 0);
    assert_eq!(core.process_heart_beat_info.len(), 0);
}

#[test]
fn test_end_of_stream_in_ready_exits_with_success() {
    let action = on_ready_input(ListenerState::Ready, ReadyInput::EndOfStream);
    assert!(matches!(action, ReadyAction::ExitSuccess));
}

#[test]
fn test_header_line_in_ready_goes_busy() {
    let action = on_ready_input(
        ListenerState::Ready,
        ReadyInput::HeaderLine("ver:3.0 eventname:PROCESS_STATE_EXITED len:78".to_string()),
    );
    match action {
        ReadyAction::Process { next_state, decision } => {
            assert!(matches!(next_state, ListenerState::Busy));
            match decision {
                HeaderDecision::ReadPayload { headers, len } => {
                    assert_eq!(len, 78);
                    assert_eq!(headers.get("ver"), Some(&"3.0".to_string()));
                }
                HeaderDecision::Discard { .. } => panic!("len:78 must be read"),
            }
        }
        ReadyAction::ExitSuccess => panic!("a header line must not exit"),
    }
}

#[test]
fn test_begin_event_discards_bad_len() {
    match begin_event("ver:3.0 eventname:TICK_60") {
        HeaderDecision::Discard { headers } => {
            assert_eq!(headers.get("eventname"), Some(&"TICK_60".to_string()));
        }
        HeaderDecision::ReadPayload { .. } => panic!("a line without len must be discarded"),
    }
    assert!(matches!(
        begin_event("len:abc eventname:TICK_60"),
        HeaderDecision::Discard { .. }
    ));
    assert!(matches!(
        begin_event("len:0 eventname:TICK_60"),
        HeaderDecision::ReadPayload { len: 0, .. }
    ));
}

#[test]
fn test_listener_state_cycle() {
    let s = ListenerState::Ready;
    let s = listener_transition(s);
    assert!(matches!(s, ListenerState::Busy));
    let s = listener_transition(s);
    assert!(matches!(s, ListenerState::Acknowledged));
    let s = listener_transition(s);
    assert!(matches!(s, ListenerState::Ready));

    assert_eq!(ready_token(), "READY\n");
    assert_eq!(ack_token(), "RESULT 2\nOK");
}

#[test]
fn test_classify_event_names() {
    assert!(matches!(classify_event("PROCESS_STATE_EXITED"), EventKind::StateExited));
    assert!(matches!(classify_event("PROCESS_STATE_RUNNING"), EventKind::StateRunning));
    assert!(matches!(
        classify_event("PROCESS_COMMUNICATION_STDOUT"),
        EventKind::CommunicationStdout
    ));
    assert!(matches!(classify_event("PROCESS_LOG_STDERR"), EventKind::Unknown));
}

#[test]
fn test_autorestart_state_checking() {
    let db = MockConfigDb::with_feature("swss", "enabled");
    assert_eq!(get_autorestart_state("swss", &db), Some("enabled".to_string()));

    let db = MockConfigDb::with_feature("snmp", "disabled");
    assert_eq!(get_autorestart_state("snmp", &db), Some("disabled".to_string()));

    let db = MockConfigDb::with_feature("snmp", "disabled");
    assert_eq!(get_autorestart_state("unknown", &db), None);

    let db = MockConfigDb::empty();
    assert_eq!(get_autorestart_state("swss", &db), None);

    let db = MockConfigDb::unreachable_store();
    assert_eq!(get_autorestart_state("swss", &db), None);

    let missing_field = MockConfigDb {
        feature: vec![("swss".to_string(), vec![("state".to_string(), "enabled".to_string())])],
        heartbeat: Vec::new(),
        fail: false,
    };
    assert_eq!(get_autorestart_state("swss", &missing_field), Some("enabled".to_string()));

    let table = MockConfigDb::build(&missing_field.feature);
    assert_eq!(
        autorestart_state_from_table(&table, "swss"),
        Some("enabled".to_string())
    );
}

#[test]
fn test_heartbeat_alert_interval_functions() {
    let db = MockConfigDb {
        feature: Vec::new(),
        heartbeat: vec![
            (
                "orchagent".to_string(),
                vec![("alert_interval".to_string(), "30000".to_string())],
            ),
            (
                "skipped".to_string(),
                vec![("alert_interval".to_string(), "soon".to_string())],
            ),
            ("bare".to_string(), vec![]),
        ],
        fail: false,
    };
    let intervals = load_heartbeat_alert_interval(&db);

    assert_eq!(get_heartbeat_alert_interval("unknown_process", &intervals), 60000);
    assert_eq!(get_heartbeat_alert_interval("orchagent", &intervals), 30000);
    assert_eq!(get_heartbeat_alert_interval("", &intervals), 60000);
    assert_eq!(
        get_heartbeat_alert_interval("very_long_process_name_that_should_not_exist", &intervals),
        60000
    );
    assert_eq!(get_heartbeat_alert_interval("skipped", &intervals), 60000);
    assert_eq!(get_heartbeat_alert_interval("bare", &intervals), 60000);
}

#[test]
fn test_nonpositive_threshold_suppresses_stuck_alerts() {
    let mut hb: NamedMap<u64> = NamedMap::new();
    hb.upsert("bgpd".to_string(), 0);
    let mut intervals: NamedMap<i64> = NamedMap::new();
    intervals.upsert("bgpd".to_string(), -1);

    let alerts = sweep_heartbeats(&hb, &intervals, 1_000_000);
    assert_eq!(alerts.len(), 0);
}

#[test]
fn test_decimal_parsers() {
    assert_eq!(parse_u64("123"), Some(123));
    assert_eq!(parse_u64("+7"), Some(7));
    assert_eq!(parse_u64(""), None);
    assert_eq!(parse_u64("12a"), None);
    assert_eq!(parse_u64("18446744073709551615"), Some(u64::MAX));
    assert_eq!(parse_u64("18446744073709551616"), None);

    assert_eq!(parse_i64("-30000"), Some(-30000));
    assert_eq!(parse_i64("30000"), Some(30000));
    assert_eq!(parse_i64("-9223372036854775808"), Some(i64::MIN));
    assert_eq!(parse_i64("9223372036854775808"), None);
    assert_eq!(parse_i64("-"), None);
}
