//! Container-watchdog health classification: the checks the per-container
//! watchdog servers compute over command output, configuration values and
//! environment overrides.  Running commands, reaching redis and serving
//! HTTP stay outside; everything here is a function of the values read.

use vstd::prelude::*;
use vstd::string::StringExecFns;

use crate::strutil::{parse_u64_spec, parse_u64, str_eq, trim_spec, trim_str};

verus! {

/// Whether `n` occurs contiguously in `h`.
pub open spec fn spec_contains(h: Seq<char>, n: Seq<char>) -> bool {
    exists|i: int| 0 <= i <= h.len() - n.len() && #[trigger] h.subrange(i, i + n.len()) == n
}

/// Substring search, the verified equivalent of `str::contains`.
pub fn str_contains(haystack: &str, needle: &str) -> (r: bool)
    ensures
        r == spec_contains(haystack@, needle@),
{
    let hn: usize = haystack.unicode_len();
    let nn: usize = needle.unicode_len();
    if nn > hn {
        return false;
    }
    if nn == 0 {
        proof {
            assert(haystack@.subrange(0, 0 + needle@.len() as int) =~= needle@);
            assert(spec_contains(haystack@, needle@));
        }
        return true;
    }
    let mut i: usize = 0;
    while i <= hn - nn
        invariant
            hn == haystack@.len(),
            nn == needle@.len(),
            0 < nn <= hn,
            0 <= i <= hn - nn + 1,
            forall|k: int| 0 <= k < i ==> #[trigger] haystack@.subrange(k, k + nn) != needle@,
        decreases hn - nn - i + 1,
    {
        let part = haystack.substring_char(i, i + nn);
        if str_eq(part, needle) {
            proof {
                assert(haystack@.subrange(i as int, i as int + nn) == needle@);
            }
            return true;
        }
        i = i + 1;
    }
    false
}

/// Case-insensitive ASCII character equality: equal outright, or an
/// upper/lower pair of one letter.
pub open spec fn ci_char(x: char, y: char) -> bool {
    ||| x == y
    ||| ('A' <= x && x <= 'Z' && x as int + 32 == y as int)
    ||| ('A' <= y && y <= 'Z' && y as int + 32 == x as int)
}

/// What `str::eq_ignore_ascii_case` decides.
pub open spec fn ascii_ci_eq(a: Seq<char>, b: Seq<char>) -> bool {
    a.len() == b.len() && forall|i: int| 0 <= i < a.len() ==> ci_char(#[trigger] a[i], b[i])
}

/// Verified equivalent of `str::eq_ignore_ascii_case`.
pub fn str_eq_ignore_ascii_case(a: &str, b: &str) -> (r: bool)
    ensures
        r == ascii_ci_eq(a@, b@),
{
    let na: usize = a.unicode_len();
    let nb: usize = b.unicode_len();
    if na != nb {
        return false;
    }
    let mut i: usize = 0;
    while i < na
        invariant
            na == a@.len(),
            na == b@.len(),
            0 <= i <= na,
            forall|k: int| 0 <= k < i ==> ci_char(#[trigger] a@[k], b@[k]),
        decreases na - i,
    {
        let x = a.get_char(i) as u32;
        let y = b.get_char(i) as u32;
        let xl: u32 = if 65 <= x && x <= 90 {
            x + 32
        } else {
            x
        };
        let yl: u32 = if 65 <= y && y <= 90 {
            y + 32
        } else {
            y
        };
        if xl != yl {
            return false;
        }
        i = i + 1;
    }
    true
}

/// `prefix + middle + suffix`, for assembling fixed-format messages.
fn concat3(prefix: &str, middle: &str, suffix: &str) -> (r: String)
    ensures
        r@ == prefix@ + middle@ + suffix@,
{
    let mut out = prefix.to_owned();
    out.append(middle);
    out.append(suffix);
    proof {
        assert(out@ =~= prefix@ + middle@ + suffix@);
    }
    out
}

/// `a + b + c + d + e`, for two-field messages.
fn concat5(a: &str, b: &str, c: &str, d: &str, e: &str) -> (r: String)
    ensures
        r@ == a@ + b@ + c@ + d@ + e@,
{
    let mut out = a.to_owned();
    out.append(b);
    out.append(c);
    out.append(d);
    out.append(e);
    proof {
        assert(out@ =~= a@ + b@ + c@ + d@ + e@);
    }
    out
}

/// Classifies the audit configuration digest: `OK` when the command
/// output holds the expected checksum, a diagnostic otherwise.
pub fn check_auditd_conf(output: &Result<String, String>) -> (r: String)
    ensures
        match output {
            Ok(s) => if spec_contains(s@, "7cdbd1450570c7c12bdc67115b46d9ae778cbd76"@) {
                r@ == "OK"@
            } else {
                r@ == "FAIL (sha1 = "@ + trim_spec(s@) + ", expected = "@
                    + "7cdbd1450570c7c12bdc67115b46d9ae778cbd76"@ + ")"@
            },
            Err(e) => r@ == "FAIL ("@ + e@ + ")"@,
        },
{
    match output {
        Ok(s) => {
            if str_contains(s.as_str(), "7cdbd1450570c7c12bdc67115b46d9ae778cbd76") {
                "OK".to_owned()
            } else {
                let trimmed = trim_str(s.as_str());
                concat5(
                    "FAIL (sha1 = ",
                    trimmed.as_str(),
                    ", expected = ",
                    "7cdbd1450570c7c12bdc67115b46d9ae778cbd76",
                    ")",
                )
            }
        },
        Err(e) => concat3("FAIL (", e.as_str(), ")"),
    }
}

/// Classifies the syslog-plugin check: the command succeeding at all
/// means the active line was found.
pub fn check_syslog_conf(output: &Result<String, String>) -> (r: String)
    ensures
        match output {
            Ok(_) => r@ == "OK"@,
            Err(e) => r@ == "FAIL (syslog.conf does not contain 'active = yes': "@ + e@ + ")"@,
        },
{
    match output {
        Ok(_) => "OK".to_owned(),
        Err(e) => concat3("FAIL (syslog.conf does not contain 'active = yes': ", e.as_str(), ")"),
    }
}

/// Picks the expected audit-rules checksum for the platform's word size,
/// read from the interpreter's file classification; an unreadable or
/// unrecognised classification is the returned diagnostic.
pub fn auditd_rules_hash_for_bitness(bitness: &Result<String, String>) -> (r: Result<
    &'static str,
    String,
>)
    ensures
        match bitness {
            Ok(s) => if spec_contains(trim_spec(s@), "32-bit"@) {
                r matches Ok(h) && h@ == "ac45b13d45de02f08e12918e38b4122206859555"@
            } else if spec_contains(trim_spec(s@), "64-bit"@) {
                r matches Ok(h) && h@ == "1c532e73fdd3f7366d9c516eb712102d3063bd5a"@
            } else {
                r matches Err(m) && m@ == "FAIL (unknown bitness: "@ + trim_spec(s@) + ")"@
            },
            Err(e) => r matches Err(m) && m@ == "FAIL (could not get bitness: "@ + e@ + ")"@,
        },
{
    match bitness {
        Ok(s) => {
            let trimmed = trim_str(s.as_str());
            if str_contains(trimmed.as_str(), "32-bit") {
                Ok("ac45b13d45de02f08e12918e38b4122206859555")
            } else if str_contains(trimmed.as_str(), "64-bit") {
                Ok("1c532e73fdd3f7366d9c516eb712102d3063bd5a")
            } else {
                Err(concat3("FAIL (unknown bitness: ", trimmed.as_str(), ")"))
            }
        },
        Err(e) => Err(concat3("FAIL (could not get bitness: ", e.as_str(), ")")),
    }
}

/// Classifies the audit-rules digest against the expected checksum.
pub fn check_auditd_rules(expected_hash: &str, output: &Result<String, String>) -> (r: String)
    ensures
        match output {
            Ok(s) => if spec_contains(s@, expected_hash@) {
                r@ == "OK"@
            } else {
                r@ == "FAIL (rules sha1 = "@ + trim_spec(s@) + ", expected "@ + expected_hash@
                    + ")"@
            },
            Err(e) => r@ == "FAIL ("@ + e@ + ")"@,
        },
{
    match output {
        Ok(s) => {
            if str_contains(s.as_str(), expected_hash) {
                "OK".to_owned()
            } else {
                let trimmed = trim_str(s.as_str());
                concat5("FAIL (rules sha1 = ", trimmed.as_str(), ", expected ", expected_hash, ")")
            }
        },
        Err(e) => concat3("FAIL (", e.as_str(), ")"),
    }
}

/// Classifies the audit-service quota check: the command succeeding at
/// all means the quota line was found.
pub fn check_auditd_service(output: &Result<String, String>) -> (r: String)
    ensures
        match output {
            Ok(_) => r@ == "OK"@,
            Err(e) => r@ == "FAIL (auditd.service does not contain 'CPUQuota=10%': "@ + e@ + ")"@,
        },
{
    match output {
        Ok(_) => "OK".to_owned(),
        Err(e) => concat3(
            "FAIL (auditd.service does not contain 'CPUQuota=10%': ",
            e.as_str(),
            ")",
        ),
    }
}

/// Classifies the audit-daemon liveness check: its reported state must be
/// exactly `active`.
pub fn check_auditd_active(output: &Result<String, String>) -> (r: String)
    ensures
        match output {
            Ok(s) => if trim_spec(s@) == "active"@ {
                r@ == "OK"@
            } else {
                r@ == "FAIL (auditd status = "@ + trim_spec(s@) + ")"@
            },
            Err(e) => r@ == "FAIL ("@ + e@ + ")"@,
        },
{
    match output {
        Ok(s) => {
            let trimmed = trim_str(s.as_str());
            if str_eq(trimmed.as_str(), "active") {
                "OK".to_owned()
            } else {
                concat3("FAIL (auditd status = ", trimmed.as_str(), ")")
            }
        },
        Err(e) => concat3("FAIL (", e.as_str(), ")"),
    }
}

/// The rate value the audit-rules file sets: what the pattern
/// `-r (?<rate>\d+)` captures from the file text, when it matches.
pub uninterp spec fn conf_rate_of(s: Seq<char>) -> Option<Seq<char>>;

/// The rate value the audit daemon reports: what the pattern
/// `rate_limit (?<rate>\d+)` captures from its status output, when it
/// matches.
pub uninterp spec fn running_rate_of(s: Seq<char>) -> Option<Seq<char>>;

/// Relies on the regex library's `Regex::captures` with the fixed pattern
/// `-r (?<rate>\d+)`: the leftmost match's digit group, a function of the
/// text alone.
#[verifier::external_body]
fn capture_conf_rate(s: &str) -> (r: Option<String>)
    ensures
        match r {
            Some(v) => conf_rate_of(s@) == Some(v@),
            None => conf_rate_of(s@) == None::<Seq<char>>,
        },
{
    match regex::Regex::new(r"-r (?<rate>\d+)") {
        Ok(re) => re.captures(s).map(|caps| caps["rate"].to_string()),
        Err(_) => None,
    }
}

/// Relies on the regex library's `Regex::captures` with the fixed pattern
/// `rate_limit (?<rate>\d+)`: the leftmost match's digit group, a
/// function of the text alone.
#[verifier::external_body]
fn capture_running_rate(s: &str) -> (r: Option<String>)
    ensures
        match r {
            Some(v) => running_rate_of(s@) == Some(v@),
            None => running_rate_of(s@) == None::<Seq<char>>,
        },
{
    match regex::Regex::new(r"rate_limit (?<rate>\d+)") {
        Ok(re) => re.captures(s).map(|caps| caps["rate"].to_string()),
        Err(_) => None,
    }
}

/// What the audit-rules file asks of the rate limit: the file could not
/// be read, no limit is set, or one value is demanded.
pub enum RateLimitConfig {
    Unreadable { message: String },
    Disabled,
    Limit { rate: String },
}

/// Reads the rate-limit demand out of the audit-rules file text: the
/// captured `-r` value when one occurs, no demand when none does, and a
/// diagnostic when the file could not be read.
pub fn read_rate_limit_config(file_config: &Result<String, String>) -> (r: RateLimitConfig)
    ensures
        match file_config {
            Ok(s) => match conf_rate_of(s@) {
                Some(v) => r matches RateLimitConfig::Limit { rate } && rate@ == v,
                None => r is Disabled,
            },
            Err(e) => r matches RateLimitConfig::Unreadable { message } && message@
                == "FAIL (open config file failed, error message = "@ + e@ + ")"@,
        },
{
    match file_config {
        Ok(s) => {
            match capture_conf_rate(s.as_str()) {
                Some(rate) => RateLimitConfig::Limit { rate },
                None => RateLimitConfig::Disabled,
            }
        },
        Err(e) => RateLimitConfig::Unreadable {
            message: concat3("FAIL (open config file failed, error message = ", e.as_str(), ")"),
        },
    }
}

/// Classifies the running audit rate limit against the configured one:
/// `OK` when the reported value equals the configured value, a diagnostic
/// when it is absent, differs, or could not be read.
pub fn check_rate_limit_running(config_rate: &str, running: &Result<String, String>) -> (r: String)
    ensures
        match running {
            Ok(s) => match running_rate_of(s@) {
                Some(v) => if v == config_rate@ {
                    r@ == "OK"@
                } else {
                    r@ == "FAIL (rate_limit: "@ + s@ + " mismatch with config file setting: "@
                        + config_rate@ + ")"@
                },
                None => r@ == "FAIL (rate_limit not set = "@ + s@ + ", config file setting: "@
                    + config_rate@ + ")"@,
            },
            Err(e) => r@ == "FAIL (error message = "@ + e@ + ")"@,
        },
{
    match running {
        Ok(s) => {
            match capture_running_rate(s.as_str()) {
                Some(v) => {
                    if str_eq(v.as_str(), config_rate) {
                        "OK".to_owned()
                    } else {
                        concat5(
                            "FAIL (rate_limit: ",
                            s.as_str(),
                            " mismatch with config file setting: ",
                            config_rate,
                            ")",
                        )
                    }
                },
                None => concat5(
                    "FAIL (rate_limit not set = ",
                    s.as_str(),
                    ", config file setting: ",
                    config_rate,
                    ")",
                ),
            }
        },
        Err(e) => concat3("FAIL (error message = ", e.as_str(), ")"),
    }
}

/// The telemetry-stack status check: nothing is probed, the answer is
/// always healthy.
pub fn check_gnmi_status() -> (r: String)
    ensures
        r@ == "OK"@,
{
    "OK".to_owned()
}

/// The TLS material of a telemetry probe, as resolved from the
/// configuration store.
pub struct TelemetrySecurityConfig {
    pub use_client_auth: bool,
    pub ca_crt: String,
    pub server_crt: String,
    pub server_key: String,
}

/// A stored path when one with non-blank text is present, the default
/// otherwise.
pub open spec fn path_or_default(v: Option<String>, default: Seq<char>) -> Seq<char> {
    match v {
        Some(s) => if trim_spec(s@).len() > 0 {
            s@
        } else {
            default
        },
        None => default,
    }
}

fn pick_path(v: &Option<String>, default: &str) -> (r: String)
    ensures
        r@ == path_or_default(*v, default@),
{
    match v {
        Some(s) => {
            let trimmed = trim_str(s.as_str());
            if trimmed.as_str().unicode_len() > 0 {
                s.clone()
            } else {
                default.to_owned()
            }
        },
        None => default.to_owned(),
    }
}

/// Resolves the telemetry probe's TLS settings from the stored
/// certificate paths and client-auth flag: blank or missing paths fall
/// back to the fixed defaults, and only an explicit case-insensitive
/// `true` turns client authentication on.
pub fn get_security_config(
    ca_crt: &Option<String>,
    server_crt: &Option<String>,
    server_key: &Option<String>,
    client_auth: &Option<String>,
) -> (r: TelemetrySecurityConfig)
    ensures
        r.ca_crt@ == path_or_default(*ca_crt, "/etc/sonic/telemetry/dsmsroot.cer"@),
        r.server_crt@ == path_or_default(
            *server_crt,
            "/etc/sonic/telemetry/streamingtelemetryserver.cer"@,
        ),
        r.server_key@ == path_or_default(
            *server_key,
            "/etc/sonic/telemetry/streamingtelemetryserver.key"@,
        ),
        r.use_client_auth == match client_auth {
            Some(s) => ascii_ci_eq(s@, "true"@),
            None => false,
        },
{
    let use_client_auth = match client_auth {
        Some(s) => str_eq_ignore_ascii_case(s.as_str(), "true"),
        None => false,
    };
    TelemetrySecurityConfig {
        use_client_auth,
        ca_crt: pick_path(ca_crt, "/etc/sonic/telemetry/dsmsroot.cer"),
        server_crt: pick_path(server_crt, "/etc/sonic/telemetry/streamingtelemetryserver.cer"),
        server_key: pick_path(server_key, "/etc/sonic/telemetry/streamingtelemetryserver.key"),
    }
}

/// The telemetry service port a stored value selects: a decimal fitting a
/// port number, or the fixed default.
pub fn gnmi_port_from_config(port: &Option<String>) -> (r: u16)
    ensures
        r as int == match port {
            Some(s) => match parse_u64_spec(s@) {
                Some(v) => if v <= u16::MAX {
                    v as int
                } else {
                    50051
                },
                None => 50051,
            },
            None => 50051,
        },
{
    match port {
        Some(s) => {
            match parse_u64(s.as_str()) {
                Some(v) => {
                    if v <= 65535 {
                        v as u16
                    } else {
                        50051
                    }
                },
                None => 50051,
            }
        },
        None => 50051,
    }
}

/// Whether the telemetry feature is on: anything but an explicit
/// case-insensitive `disabled` — a missing value included — enables it,
/// failing open.
pub fn telemetry_enabled_from_state(state: &Option<String>) -> (r: bool)
    ensures
        r == match state {
            Some(s) => !ascii_ci_eq(s@, "disabled"@),
            None => true,
        },
{
    match state {
        Some(s) => !str_eq_ignore_ascii_case(s.as_str(), "disabled"),
        None => true,
    }
}

} // verus!
