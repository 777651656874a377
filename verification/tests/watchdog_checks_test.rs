//! Tests of the container-watchdog health classification.

use sonic_util::watchdog_checks::{
    auditd_rules_hash_for_bitness, check_auditd_active, check_auditd_conf, check_auditd_rules,
    check_auditd_service, check_gnmi_status, check_rate_limit_running, check_syslog_conf,
    get_security_config, gnmi_port_from_config, read_rate_limit_config, str_contains,
    str_eq_ignore_ascii_case, telemetry_enabled_from_state, RateLimitConfig,
};

#[test]
fn test_check_auditd_conf() {
    let good = Ok("7cdbd1450570c7c12bdc67115b46d9ae778cbd76  -\n".to_string());
    assert_eq!(check_auditd_conf(&good), "OK");

    let bad = Ok("deadbeef  -\n".to_string());
    assert_eq!(
        check_auditd_conf(&bad),
        "FAIL (sha1 = deadbeef  -, expected = 7cdbd1450570c7c12bdc67115b46d9ae778cbd76)"
    );

    let err = Err("command failed".to_string());
    assert_eq!(check_auditd_conf(&err), "FAIL (command failed)");
}

#[test]
fn test_check_syslog_conf() {
    assert_eq!(check_syslog_conf(&Ok("active = yes\n".to_string())), "OK");
    assert_eq!(
        check_syslog_conf(&Err("no match".to_string())),
        "FAIL (syslog.conf does not contain 'active = yes': no match)"
    );
}

#[test]
fn test_auditd_rules_hash_for_bitness() {
    let b64 = Ok("/bin/sh: ELF 64-bit LSB executable\n".to_string());
    assert_eq!(
        auditd_rules_hash_for_bitness(&b64).unwrap(),
        "1c532e73fdd3f7366d9c516eb712102d3063bd5a"
    );

    let b32 = Ok("/bin/sh: ELF 32-bit LSB executable\n".to_string());
    assert_eq!(
        auditd_rules_hash_for_bitness(&b32).unwrap(),
        "ac45b13d45de02f08e12918e38b4122206859555"
    );

    let odd = Ok("/bin/sh: data\n".to_string());
    assert_eq!(
        auditd_rules_hash_for_bitness(&odd).unwrap_err(),
        "FAIL (unknown bitness: /bin/sh: data)"
    );

    let err = Err("spawn failed".to_string());
    assert_eq!(
        auditd_rules_hash_for_bitness(&err).unwrap_err(),
        "FAIL (could not get bitness: spawn failed)"
    );
}

#[test]
fn test_check_auditd_rules() {
    let expected = "1c532e73fdd3f7366d9c516eb712102d3063bd5a";
    assert_eq!(
        check_auditd_rules(&expected, &Ok(format!("{}  -\n", expected))),
        "OK"
    );
    assert_eq!(
        check_auditd_rules(&expected, &Ok("feed  -\n".to_string())),
        "FAIL (rules sha1 = feed  -, expected 1c532e73fdd3f7366d9c516eb712102d3063bd5a)"
    );
    assert_eq!(check_auditd_rules(&expected, &Err("boom".to_string())), "FAIL (boom)");
}

#[test]
fn test_check_auditd_service_and_active() {
    assert_eq!(check_auditd_service(&Ok("CPUQuota=10%\n".to_string())), "OK");
    assert_eq!(
        check_auditd_service(&Err("no line".to_string())),
        "FAIL (auditd.service does not contain 'CPUQuota=10%': no line)"
    );

    assert_eq!(check_auditd_active(&Ok("active\n".to_string())), "OK");
    assert_eq!(
        check_auditd_active(&Ok("inactive\n".to_string())),
        "FAIL (auditd status = inactive)"
    );
    assert_eq!(check_auditd_active(&Err("gone".to_string())), "FAIL (gone)");

    assert_eq!(check_gnmi_status(), "OK");
}

#[test]
fn test_get_security_config() {
    let cfg = get_security_config(
        &Some("/tmp/ca.crt".to_string()),
        &Some("   ".to_string()),
        &None,
        &Some("TRUE".to_string()),
    );
    assert!(cfg.use_client_auth);
    assert_eq!(cfg.ca_crt, "/tmp/ca.crt");
    assert_eq!(cfg.server_crt, "/etc/sonic/telemetry/streamingtelemetryserver.cer");
    assert_eq!(cfg.server_key, "/etc/sonic/telemetry/streamingtelemetryserver.key");

    let cfg = get_security_config(&None, &None, &None, &Some("yes".to_string()));
    assert!(!cfg.use_client_auth);
    assert_eq!(cfg.ca_crt, "/etc/sonic/telemetry/dsmsroot.cer");

    let cfg = get_security_config(&None, &None, &None, &None);
    assert!(!cfg.use_client_auth);
}

#[test]
fn test_gnmi_port_and_telemetry_state() {
    assert_eq!(gnmi_port_from_config(&Some("8080".to_string())), 8080);
    assert_eq!(gnmi_port_from_config(&Some("65536".to_string())), 50051);
    assert_eq!(gnmi_port_from_config(&Some("soon".to_string())), 50051);
    assert_eq!(gnmi_port_from_config(&None), 50051);

    assert!(!telemetry_enabled_from_state(&Some("Disabled".to_string())));
    assert!(telemetry_enabled_from_state(&Some("enabled".to_string())));
    assert!(telemetry_enabled_from_state(&None));
}

#[test]
fn test_read_rate_limit_config() {
    let with_limit = Ok("-D\n-b 8192\n-r 100\n".to_string());
    match read_rate_limit_config(&with_limit) {
        RateLimitConfig::Limit { rate } => assert_eq!(rate, "100"),
        _ => panic!("a -r line must set a limit"),
    }

    let without_limit = Ok("-D\n-b 8192\n".to_string());
    assert!(matches!(read_rate_limit_config(&without_limit), RateLimitConfig::Disabled));

    let unreadable = Err("no such file".to_string());
    match read_rate_limit_config(&unreadable) {
        RateLimitConfig::Unreadable { message } => assert_eq!(
            message,
            "FAIL (open config file failed, error message = no such file)"
        ),
        _ => panic!("a read failure must be reported"),
    }
}

#[test]
fn test_check_rate_limit_running() {
    let running = Ok("enabled 1\nfailure 1\nrate_limit 100\n".to_string());
    assert_eq!(check_rate_limit_running("100", &running), "OK");

    let mismatch = Ok("rate_limit 50".to_string());
    assert_eq!(
        check_rate_limit_running("100", &mismatch),
        "FAIL (rate_limit: rate_limit 50 mismatch with config file setting: 100)"
    );

    let unset = Ok("enabled 1".to_string());
    assert_eq!(
        check_rate_limit_running("100", &unset),
        "FAIL (rate_limit not set = enabled 1, config file setting: 100)"
    );

    let err = Err("auditctl failed".to_string());
    assert_eq!(
        check_rate_limit_running("100", &err),
        "FAIL (error message = auditctl failed)"
    );
}

#[test]
fn test_string_helpers() {
    assert!(str_contains("hello world", "lo wo"));
    assert!(str_contains("hello", ""));
    assert!(!str_contains("hello", "world"));
    assert!(!str_contains("hi", "hello"));

    assert!(str_eq_ignore_ascii_case("TrUe", "true"));
    assert!(!str_eq_ignore_ascii_case("true", "truth"));
    assert!(str_eq_ignore_ascii_case("", ""));
}
