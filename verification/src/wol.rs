//! Wake-on-LAN packet building and its argument parsers: MAC addresses,
//! quad-dotted IPv4 addresses, the optional SecureOn password, and the
//! magic-packet byte layout.

use vstd::prelude::*;
use vstd::string::StringExecFns;
use std::str::FromStr;

use crate::strutil::{parse_u64, parse_u64_spec, split_char, split_on_char};

verus! {

/// An error of the wake-on-LAN tool: a message and the process exit code
/// it asks for.
#[derive(Debug)]
pub struct WolErr {
    pub msg: String,
    pub code: i32,
}

impl WolErr {
    /// The error as the tool prints it.
    pub fn message(&self) -> (r: String)
        ensures
            r@ == "Error: "@ + self.msg@,
    {
        let mut out = "Error: ".to_owned();
        out.append(self.msg.as_str());
        proof {
            assert(out@ =~= "Error: "@ + self.msg@);
        }
        out
    }
}

/// The tool's exit-code classes.
#[derive(Clone, Copy, PartialEq, Eq, Structural, Debug)]
pub enum WolErrCode {
    SocketError,
    InvalidArguments,
    InternalError,
}

impl WolErrCode {
    /// The numeric exit code of this class.
    pub fn code(&self) -> (r: i32)
        ensures
            self is SocketError ==> r == 1,
            self is InvalidArguments ==> r == 2,
            self is InternalError ==> r == 255,
    {
        match self {
            WolErrCode::SocketError => 1,
            WolErrCode::InvalidArguments => 2,
            WolErrCode::InternalError => 255,
        }
    }
}

/// A 4- or 6-byte SecureOn password.
#[derive(Debug, Clone)]
pub struct Password(pub Vec<u8>);

impl Password {
    pub open spec fn view(&self) -> Seq<u8> {
        self.0@
    }

    pub fn ref_bytes(&self) -> (r: &Vec<u8>)
        ensures
            r@ == self@,
    {
        &self.0
    }
}

pub open spec fn is_hex_digit(c: char) -> bool {
    ('0' <= c && c <= '9') || ('a' <= c && c <= 'f') || ('A' <= c && c <= 'F')
}

pub open spec fn hex_digit_val(c: char) -> nat {
    if '0' <= c && c <= '9' {
        (c as nat - '0' as nat) as nat
    } else if 'a' <= c && c <= 'f' {
        (c as nat - 'a' as nat + 10) as nat
    } else if 'A' <= c && c <= 'F' {
        (c as nat - 'A' as nat + 10) as nat
    } else {
        0
    }
}

pub open spec fn all_hex_digits(s: Seq<char>) -> bool {
    forall|i: int| 0 <= i < s.len() ==> is_hex_digit(#[trigger] s[i])
}

pub open spec fn hex_value(s: Seq<char>) -> nat
    decreases s.len(),
{
    if s.len() == 0 {
        0
    } else {
        hex_value(s.drop_last()) * 16 + hex_digit_val(s.last())
    }
}

/// What `u8::from_str_radix(s, 16)` accepts: an optional leading `+`,
/// then one or more hexadecimal digits, with a value below 256.
pub open spec fn hex_byte_spec(s: Seq<char>) -> Option<u8> {
    let t = if s.len() > 0 && s[0] == '+' {
        s.skip(1)
    } else {
        s
    };
    if t.len() > 0 && all_hex_digits(t) && hex_value(t) < 256 {
        Some(hex_value(t) as u8)
    } else {
        None
    }
}

/// Whether a MAC string parses: six colon-separated groups, each a
/// hexadecimal byte.
pub open spec fn mac_parses(s: Seq<char>) -> bool {
    let parts = split_char(s, ':');
    parts.len() == 6 && forall|i: int| 0 <= i < 6 ==> hex_byte_spec(#[trigger] parts[i]) is Some
}

/// The six bytes a well-formed MAC string denotes.
pub open spec fn mac_bytes(s: Seq<char>) -> Seq<u8> {
    Seq::new(6nat, |i: int| hex_byte_spec(split_char(s, ':')[i]).unwrap())
}

/// Relies on pnet's `MacAddr::from_str` and `MacAddr::octets`: the parser
/// splits on `:`, reads every part with `u8::from_str_radix(part, 16)`,
/// and accepts exactly six parts; `octets` hands the six bytes back in
/// order.
#[verifier::external_body]
fn pnet_parse_mac(s: &str) -> (r: Option<[u8; 6]>)
    ensures
        match r {
            Some(b) => mac_parses(s@) && b@ == mac_bytes(s@),
            None => !mac_parses(s@),
        },
{
    match pnet::datalink::MacAddr::from_str(s) {
        Ok(mac) => Some(mac.octets()),
        Err(_) => None,
    }
}

/// Parses a colon-separated MAC address through the datalink library's
/// parser; any refusal is an invalid-argument error.
pub fn parse_mac_addr(mac_str: &str) -> (r: Result<[u8; 6], WolErr>)
    ensures
        match r {
            Ok(b) => mac_parses(mac_str@) && b@ == mac_bytes(mac_str@),
            Err(e) => !mac_parses(mac_str@) && e.msg@ == "Invalid MAC address"@ && e.code == 2,
        },
{
    match pnet_parse_mac(mac_str) {
        Some(b) => Ok(b),
        None => Err(
            WolErr {
                msg: "Invalid MAC address".to_owned(),
                code: WolErrCode::InvalidArguments.code(),
            },
        ),
    }
}

/// Whether a string replaced of its colons is exactly twelve hexadecimal
/// digits, the shape accepted for a MAC-formatted password.
pub open spec fn mac_string_valid(s: Seq<char>) -> bool {
    let digits = s.filter(|c: char| c != ':');
    digits.len() == 12 && all_hex_digits(digits)
}

/// Checks the MAC password shape: colons removed, exactly twelve
/// hexadecimal digits remain.
pub fn is_mac_string_valid(mac_str: &str) -> (r: bool)
    ensures
        r == mac_string_valid(mac_str@),
{
    let n: usize = mac_str.unicode_len();
    let mut count: usize = 0;
    let mut all_hex: bool = true;
    let mut i: usize = 0;
    while i < n
        invariant
            n == mac_str@.len(),
            0 <= i <= n,
            count == mac_str@.take(i as int).filter(|c: char| c != ':').len(),
            count <= i,
            all_hex == all_hex_digits(mac_str@.take(i as int).filter(|c: char| c != ':')),
        decreases n - i,
    {
        let c = mac_str.get_char(i);
        proof {
            assert(mac_str@.take(i as int + 1) =~= mac_str@.take(i as int).push(c));
            mac_str@.take(i as int).lemma_filter_push(c, |c: char| c != ':');
        }
        if c != ':' {
            count = count + 1;
            let hex = ('0' <= c && c <= '9') || ('a' <= c && c <= 'f') || ('A' <= c && c <= 'F');
            all_hex = all_hex && hex;
            proof {
                let f = mac_str@.take(i as int + 1).filter(|c: char| c != ':');
                let fp = mac_str@.take(i as int).filter(|c: char| c != ':');
                assert(f == fp.push(c));
                assert(all_hex_digits(f) <==> (all_hex_digits(fp) && is_hex_digit(c))) by {
                    if all_hex_digits(fp) && is_hex_digit(c) {
                        assert forall|k: int| 0 <= k < f.len() implies is_hex_digit(
                            #[trigger] f[k],
                        ) by {
                            if k < fp.len() {
                                assert(f[k] == fp[k]);
                            } else {
                                assert(f[k] == c);
                            }
                        }
                    }
                    if all_hex_digits(f) {
                        assert forall|k: int| 0 <= k < fp.len() implies is_hex_digit(
                            #[trigger] fp[k],
                        ) by {
                            assert(fp[k] == f[k]);
                        }
                        assert(c == f[f.len() - 1]);
                        assert(is_hex_digit(c));
                    }
                }
            }
        }
        i = i + 1;
    }
    proof {
        assert(mac_str@.take(n as int) =~= mac_str@);
    }
    count == 12 && all_hex
}

/// Whether a string is a valid quad-dotted IPv4 address: four dot-parts,
/// each parsing as an unsigned decimal below 256.
pub open spec fn ipv4_string_valid(s: Seq<char>) -> bool {
    let parts = split_char(s, '.');
    parts.len() == 4 && forall|i: int|
        0 <= i < 4 ==> match parse_u64_spec(#[trigger] parts[i]) {
            Some(v) => v < 256,
            None => false,
        }
}

/// The four octets of a valid quad-dotted IPv4 address.
pub open spec fn ipv4_octets(s: Seq<char>) -> Seq<u8> {
    Seq::new(4nat, |i: int| parse_u64_spec(split_char(s, '.')[i]).unwrap() as u8)
}

/// Checks the quad-dotted IPv4 shape: four dot-separated decimal parts,
/// each below 256.
pub fn is_ipv4_address_valid(ipv4_str: &str) -> (r: bool)
    ensures
        r == ipv4_string_valid(ipv4_str@),
{
    let parts = split_on_char(ipv4_str, '.');
    let ghost pv = split_char(ipv4_str@, '.');
    if parts.len() != 4 {
        return false;
    }
    let mut i: usize = 0;
    while i < 4
        invariant
            parts@.len() == 4,
            pv == split_char(ipv4_str@, '.'),
            parts@.map_values(|p: String| p@) == pv,
            0 <= i <= 4,
            forall|k: int|
                0 <= k < i ==> match parse_u64_spec(#[trigger] pv[k]) {
                    Some(v) => v < 256,
                    None => false,
                },
        decreases 4 - i,
    {
        let p: &String = &parts[i];
        proof {
            assert(parts@.map_values(|p: String| p@)[i as int] == p@);
        }
        match parse_u64(p.as_str()) {
            Some(v) => {
                if v >= 256 {
                    return false;
                }
            },
            None => {
                return false;
            },
        }
        i = i + 1;
    }
    true
}

/// Parses a quad-dotted IPv4 address into its four octets; any other
/// shape is an invalid-argument error.
pub fn parse_ipv4_addr(ipv4_str: &str) -> (r: Result<Vec<u8>, WolErr>)
    ensures
        match r {
            Ok(v) => ipv4_string_valid(ipv4_str@) && v@ == ipv4_octets(ipv4_str@),
            Err(e) => !ipv4_string_valid(ipv4_str@) && e.msg@ == "Invalid IPv4 address"@ && e.code
                == 2,
        },
{
    if !is_ipv4_address_valid(ipv4_str) {
        return Err(
            WolErr {
                msg: "Invalid IPv4 address".to_owned(),
                code: WolErrCode::InvalidArguments.code(),
            },
        );
    }
    let parts = split_on_char(ipv4_str, '.');
    let ghost pv = split_char(ipv4_str@, '.');
    let mut octets: Vec<u8> = Vec::new();
    let mut i: usize = 0;
    while i < 4
        invariant
            parts@.len() == 4,
            pv == split_char(ipv4_str@, '.'),
            parts@.map_values(|p: String| p@) == pv,
            ipv4_string_valid(ipv4_str@),
            0 <= i <= 4,
            octets@.len() == i,
            forall|k: int| 0 <= k < i ==> octets@[k] == ipv4_octets(ipv4_str@)[k],
        decreases 4 - i,
    {
        let p: &String = &parts[i];
        proof {
            assert(parts@.map_values(|p: String| p@)[i as int] == p@);
        }
        match parse_u64(p.as_str()) {
            Some(v) => {
                octets.push(v as u8);
            },
            None => {
                proof {
                    assert(false);
                }
            },
        }
        i = i + 1;
    }
    proof {
        assert(octets@ =~= ipv4_octets(ipv4_str@));
    }
    Ok(octets)
}

/// Parses a SecureOn password, given either as a quad-dotted IPv4 address
/// (four bytes) or as a colon-separated MAC address (six bytes).
pub fn parse_password(password: &str) -> (r: Result<Password, WolErr>)
    ensures
        match r {
            Ok(p) => {
                ||| (ipv4_string_valid(password@) && p@ == ipv4_octets(password@))
                ||| (!ipv4_string_valid(password@) && mac_string_valid(password@) && mac_parses(
                    password@,
                ) && p@ == mac_bytes(password@))
            },
            Err(e) => {
                &&& !ipv4_string_valid(password@)
                &&& (mac_string_valid(password@) ==> (!mac_parses(password@) && e.msg@
                    == "Invalid MAC address"@))
                &&& (!mac_string_valid(password@) ==> e.msg@ == "Invalid password"@)
                &&& e.code == 2
            },
        },
{
    if is_ipv4_address_valid(password) {
        match parse_ipv4_addr(password) {
            Ok(v) => Ok(Password(v)),
            Err(e) => Err(e),
        }
    } else if is_mac_string_valid(password) {
        match parse_mac_addr(password) {
            Ok(mac) => {
                let mut v: Vec<u8> = Vec::new();
                let mut i: usize = 0;
                while i < 6
                    invariant
                        0 <= i <= 6,
                        v@.len() == i,
                        forall|k: int| 0 <= k < i ==> v@[k] == mac@[k],
                    decreases 6 - i,
                {
                    v.push(mac[i]);
                    i = i + 1;
                }
                proof {
                    assert(v@ =~= mac@);
                }
                Ok(Password(v))
            },
            Err(e) => Err(e),
        }
    } else {
        Err(
            WolErr {
                msg: "Invalid password".to_owned(),
                code: WolErrCode::InvalidArguments.code(),
            },
        )
    }
}

/// Whether every comma-separated part of a target list parses as a MAC
/// address.
pub open spec fn target_macs_parse(s: Seq<char>) -> bool {
    forall|i: int|
        0 <= i < split_char(s, ',').len() ==> mac_parses(#[trigger] split_char(s, ',')[i])
}

/// The parsed targets of a well-formed list.
pub open spec fn target_macs_of(s: Seq<char>) -> Seq<Seq<u8>> {
    split_char(s, ',').map_values(|p: Seq<char>| mac_bytes(p))
}

/// Parses a comma-separated list of target MAC addresses; the first part
/// that is no MAC address fails the whole list.
pub fn parse_target_macs(target_mac: &str) -> (r: Result<Vec<[u8; 6]>, WolErr>)
    ensures
        match r {
            Ok(v) => {
                &&& target_macs_parse(target_mac@)
                &&& v@.len() == split_char(target_mac@, ',').len()
                &&& forall|i: int| 0 <= i < v@.len() ==> #[trigger] v@[i]@ == target_macs_of(
                    target_mac@,
                )[i]
            },
            Err(e) => !target_macs_parse(target_mac@) && e.msg@ == "Invalid MAC address"@ && e.code
                == 2,
        },
{
    let parts = split_on_char(target_mac, ',');
    let ghost pv = split_char(target_mac@, ',');
    let mut macs: Vec<[u8; 6]> = Vec::new();
    let n: usize = parts.len();
    let mut i: usize = 0;
    while i < n
        invariant
            n == parts@.len(),
            pv == split_char(target_mac@, ','),
            parts@.map_values(|p: String| p@) == pv,
            0 <= i <= n,
            macs@.len() == i,
            forall|k: int| 0 <= k < i ==> mac_parses(#[trigger] pv[k]),
            forall|k: int| 0 <= k < i ==> #[trigger] macs@[k]@ == mac_bytes(pv[k]),
        decreases n - i,
    {
        let p: &String = &parts[i];
        proof {
            assert(parts@.map_values(|p: String| p@)[i as int] == p@);
        }
        match parse_mac_addr(p.as_str()) {
            Ok(mac) => {
                macs.push(mac);
            },
            Err(e) => {
                return Err(e);
            },
        }
        i = i + 1;
    }
    proof {
        assert forall|k: int| 0 <= k < macs@.len() implies #[trigger] macs@[k]@ == target_macs_of(
            target_mac@,
        )[k] by {
            assert(target_macs_of(target_mac@)[k] == mac_bytes(pv[k]));
        }
    }
    Ok(macs)
}

/// `s` repeated `n` times.
pub open spec fn repeated(s: Seq<u8>, n: int) -> Seq<u8>
    decreases n,
{
    if n <= 0 {
        Seq::<u8>::empty()
    } else {
        repeated(s, n - 1) + s
    }
}

/// The frameless magic payload: six `0xff` bytes, the target MAC sixteen
/// times, then the password bytes.
pub open spec fn magic_payload(target: Seq<u8>, pw: Seq<u8>) -> Seq<u8> {
    Seq::new(6nat, |i: int| 0xffu8) + repeated(target, 16) + pw
}

/// The Ethernet header of a raw-socket magic packet: destination MAC
/// (broadcast when asked), source MAC, and the wake-on-LAN EtherType.
pub open spec fn ether_header(broadcast: bool, src: Seq<u8>, target: Seq<u8>) -> Seq<u8> {
    (if broadcast {
        Seq::new(6nat, |i: int| 0xffu8)
    } else {
        target
    }) + src + seq![0x08u8, 0x42u8]
}

/// The bytes of one magic packet: the bare payload for UDP, an
/// Ethernet-framed payload for a raw socket.
pub open spec fn magic_packet_bytes(
    udp: bool,
    broadcast: bool,
    src: Seq<u8>,
    target: Seq<u8>,
    pw: Seq<u8>,
) -> Seq<u8> {
    if udp {
        magic_payload(target, pw)
    } else {
        ether_header(broadcast, src, target) + magic_payload(target, pw)
    }
}

/// Builds the bytes of one wake-on-LAN magic packet.
pub fn build_magic_bytes(
    udp: bool,
    broadcast: bool,
    src_mac: &[u8; 6],
    target_mac: &[u8; 6],
    password: &Option<Password>,
) -> (r: Result<Vec<u8>, WolErr>)
    ensures
        r is Ok,
        r matches Ok(v) ==> v@ == magic_packet_bytes(
            udp,
            broadcast,
            src_mac@,
            target_mac@,
            match password {
                Some(p) => p@,
                None => Seq::<u8>::empty(),
            },
        ),
{
    let mut mbs: Vec<u8> = Vec::new();
    if !udp {
        if broadcast {
            let mut i: usize = 0;
            while i < 6
                invariant
                    0 <= i <= 6,
                    mbs@ =~= Seq::new(i as nat, |k: int| 0xffu8),
                decreases 6 - i,
            {
                mbs.push(0xff);
                proof {
                    assert(mbs@ =~= Seq::new((i + 1) as nat, |k: int| 0xffu8));
                }
                i = i + 1;
            }
            proof {
                assert(mbs@ =~= Seq::new(6nat, |k: int| 0xffu8));
            }
        } else {
            mbs.extend_from_slice(target_mac.as_slice());
        }
        mbs.extend_from_slice(src_mac.as_slice());
        mbs.push(0x08);
        mbs.push(0x42);
        proof {
            assert(mbs@ =~= ether_header(broadcast, src_mac@, target_mac@));
        }
    }
    let ghost header = mbs@;
    let mut i: usize = 0;
    while i < 6
        invariant
            0 <= i <= 6,
            mbs@ =~= header + Seq::new(i as nat, |k: int| 0xffu8),
        decreases 6 - i,
    {
        mbs.push(0xff);
        proof {
            assert(mbs@ =~= header + Seq::new((i + 1) as nat, |k: int| 0xffu8));
        }
        i = i + 1;
    }
    let ghost sync = mbs@;
    let mut j: usize = 0;
    while j < 16
        invariant
            0 <= j <= 16,
            mbs@ =~= sync + repeated(target_mac@, j as int),
        decreases 16 - j,
    {
        mbs.extend_from_slice(target_mac.as_slice());
        j = j + 1;
    }
    match password {
        Some(p) => {
            mbs.extend_from_slice(p.0.as_slice());
        },
        None => {},
    }
    proof {
        assert(mbs@ =~= magic_packet_bytes(
            udp,
            broadcast,
            src_mac@,
            target_mac@,
            match password {
                Some(p) => p@,
                None => Seq::<u8>::empty(),
            },
        ));
    }
    Ok(mbs)
}

/// Checks the repeat options of a send: the wait interval must lie within
/// two seconds and the per-target count within one and five; the interval
/// is checked first.
pub fn validate_send_options(count: u8, interval: u64) -> (r: Result<(), WolErr>)
    ensures
        r is Ok <==> (1 <= count <= 5 && interval <= 2000),
        r matches Err(e) ==> e.code == 2 && (if interval > 2000 {
            e.msg@ == "Invalid value for \"INTERVAL\": interval must between 0 and 2000"@
        } else {
            e.msg@ == "Invalid value for \"COUNT\": count must between 1 and 5"@
        }),
{
    if interval > 2000 {
        return Err(
            WolErr {
                msg: "Invalid value for \"INTERVAL\": interval must between 0 and 2000".to_owned(),
                code: WolErrCode::InvalidArguments.code(),
            },
        );
    }
    if count == 0 || count > 5 {
        return Err(
            WolErr {
                msg: "Invalid value for \"COUNT\": count must between 1 and 5".to_owned(),
                code: WolErrCode::InvalidArguments.code(),
            },
        );
    }
    Ok(())
}

} // verus!
