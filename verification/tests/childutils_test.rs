//! Tests of the supervisor event-protocol codec.

use sonic_util::childutils::{eventdata, get_headers, HeaderMap};

#[test]
fn test_get_headers() {
    let line = "ver:3.0 server:supervisor serial:21442 pool:supervisor poolserial:21442 eventname:PROCESS_STATE_EXITED len:71";
    let headers = get_headers(line);

    assert_eq!(headers.get("ver"), Some(&"3.0".to_string()));
    assert_eq!(headers.get("server"), Some(&"supervisor".to_string()));
    assert_eq!(headers.get("serial"), Some(&"21442".to_string()));
    assert_eq!(headers.get("eventname"), Some(&"PROCESS_STATE_EXITED".to_string()));
    assert_eq!(headers.get("len"), Some(&"71".to_string()));
}

#[test]
fn test_eventdata() {
    let payload = "processname:cat groupname:cat from_state:RUNNING expected:0 pid:2766\n";
    let (headers, data) = eventdata(payload);

    assert_eq!(headers.get("processname"), Some(&"cat".to_string()));
    assert_eq!(headers.get("groupname"), Some(&"cat".to_string()));
    assert_eq!(headers.get("from_state"), Some(&"RUNNING".to_string()));
    assert_eq!(headers.get("expected"), Some(&"0".to_string()));
    assert_eq!(headers.get("pid"), Some(&"2766".to_string()));
    assert_eq!(data, "");
}

#[test]
fn test_eventdata_with_payload() {
    let payload = "processname:test groupname:test from_state:RUNNING expected:1 pid:1234\nSome payload data\nMore data";
    let (headers, data) = eventdata(payload);

    assert_eq!(headers.get("processname"), Some(&"test".to_string()));
    assert_eq!(data, "Some payload data\nMore data");
}

#[test]
fn test_supervisor_protocol_complete_workflow() {
    let header_line = "ver:3.0 server:supervisor serial:54 pool:supervisor-proc-exit-listener poolserial:19 eventname:PROCESS_STATE_EXITED len:78";
    let headers = get_headers(header_line);
    assert_eq!(headers.get("eventname"), Some(&"PROCESS_STATE_EXITED".to_string()));
    assert_eq!(headers.get("ver"), Some(&"3.0".to_string()));
    assert_eq!(headers.get("serial"), Some(&"54".to_string()));
    assert_eq!(headers.get("len"), Some(&"78".to_string()));

    let payload = "processname:orchagent groupname:bgp from_state:RUNNING expected:0 pid:1234\n";
    let (process_headers, payload_data) = eventdata(payload);
    assert_eq!(process_headers.get("processname"), Some(&"orchagent".to_string()));
    assert_eq!(process_headers.get("groupname"), Some(&"bgp".to_string()));
    assert_eq!(process_headers.get("from_state"), Some(&"RUNNING".to_string()));
    assert_eq!(process_headers.get("expected"), Some(&"0".to_string()));
    assert_eq!(process_headers.get("pid"), Some(&"1234".to_string()));
    assert_eq!(payload_data, "");
}

#[test]
fn test_header_line_round_trip() {
    let mut m = HeaderMap::new();
    m.upsert("ver".to_string(), "3.0".to_string());
    m.upsert("len".to_string(), "71".to_string());
    m.upsert("eventname".to_string(), "PROCESS_STATE_EXITED".to_string());

    let line = m.encode_header_line();
    assert_eq!(line, "ver:3.0 len:71 eventname:PROCESS_STATE_EXITED");

    let decoded = get_headers(line.as_str());
    assert_eq!(decoded.get("ver"), Some(&"3.0".to_string()));
    assert_eq!(decoded.get("len"), Some(&"71".to_string()));
    assert_eq!(decoded.get("eventname"), Some(&"PROCESS_STATE_EXITED".to_string()));
    assert_eq!(decoded.len(), 3);
}

#[test]
fn test_get_headers_overrides_and_ignores() {
    let headers = get_headers("a:1 bare b:2 a:3");
    assert_eq!(headers.get("a"), Some(&"3".to_string()));
    assert_eq!(headers.get("b"), Some(&"2".to_string()));
    assert_eq!(headers.get("bare"), None);
    assert_eq!(headers.len(), 2);
}

#[test]
fn test_get_headers_empty_and_colon_edges() {
    let headers = get_headers("   ");
    assert_eq!(headers.len(), 0);

    let headers = get_headers("k: :v a:b:c");
    assert_eq!(headers.get("k"), Some(&"".to_string()));
    assert_eq!(headers.get(""), Some(&"v".to_string()));
    assert_eq!(headers.get("a"), Some(&"b:c".to_string()));
}

#[test]
fn test_eventdata_empty_payload() {
    let (headers, data) = eventdata("");
    assert_eq!(headers.len(), 0);
    assert_eq!(data, "");
}
