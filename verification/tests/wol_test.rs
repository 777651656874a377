//! Tests of the wake-on-LAN parsers and packet builder.

use sonic_util::wol::{
    build_magic_bytes, is_ipv4_address_valid, is_mac_string_valid, parse_ipv4_addr, parse_mac_addr,
    parse_password, parse_target_macs, validate_send_options, Password, WolErrCode,
};

#[test]
fn test_parse_mac_addr() {
    let mac_str = "00:11:22:33:44:55";
    let mac = parse_mac_addr(mac_str).unwrap();
    assert_eq!(mac, [0x00, 0x11, 0x22, 0x33, 0x44, 0x55]);

    let mac_str = "00:11:22:33:44:GG";
    assert!(parse_mac_addr(mac_str).is_err());
    assert_eq!(
        parse_mac_addr(mac_str).unwrap_err().msg,
        "Invalid MAC address"
    );
    assert_eq!(
        parse_mac_addr(mac_str).unwrap_err().code,
        WolErrCode::InvalidArguments.code()
    );

    let mac_str = "00-01-22-33-44-55";
    assert!(parse_mac_addr(mac_str).is_err());
    assert_eq!(
        parse_mac_addr(mac_str).unwrap_err().msg,
        "Invalid MAC address"
    );
    assert_eq!(
        parse_mac_addr(mac_str).unwrap_err().code,
        WolErrCode::InvalidArguments.code()
    );
}

#[test]
fn test_parse_ipv4_addr() {
    let ipv4_str = "127.0.0.1";
    let ipv4 = parse_ipv4_addr(ipv4_str).unwrap();
    assert_eq!(ipv4, [127, 0, 0, 1]);

    let ipv4_str = "127.0.0.256";
    assert!(parse_ipv4_addr(ipv4_str).is_err());
    assert_eq!(
        parse_ipv4_addr(ipv4_str).unwrap_err().msg,
        "Invalid IPv4 address"
    );
    assert_eq!(
        parse_ipv4_addr(ipv4_str).unwrap_err().code,
        WolErrCode::InvalidArguments.code()
    );

    let ipv4_str = "127.0.0";
    assert!(parse_ipv4_addr(ipv4_str).is_err());
    assert_eq!(
        parse_ipv4_addr(ipv4_str).unwrap_err().msg,
        "Invalid IPv4 address"
    );
    assert_eq!(
        parse_ipv4_addr(ipv4_str).unwrap_err().code,
        WolErrCode::InvalidArguments.code()
    );

    let ipv4_str = "::1";
    assert!(parse_ipv4_addr(ipv4_str).is_err());
    assert_eq!(
        parse_ipv4_addr(ipv4_str).unwrap_err().msg,
        "Invalid IPv4 address"
    );
    assert_eq!(
        parse_ipv4_addr(ipv4_str).unwrap_err().code,
        WolErrCode::InvalidArguments.code()
    );
}

#[test]
fn test_parse_password() {
    let password_str = "127.0.0.1";
    let password = parse_password(password_str);
    assert_eq!(*password.unwrap().ref_bytes(), [127, 0, 0, 1]);

    let password_str = "00:11:22:33:44:55";
    let password = parse_password(password_str);
    assert_eq!(*password.unwrap().ref_bytes(), [0, 17, 34, 51, 68, 85]);

    let password_str = "127.0.0.256";
    assert!(parse_password(password_str).is_err());
    assert_eq!(
        parse_password(password_str).unwrap_err().code,
        WolErrCode::InvalidArguments.code()
    );

    let password_str = "127.0.0";
    assert!(parse_password(password_str).is_err());
    assert_eq!(
        parse_password(password_str).unwrap_err().code,
        WolErrCode::InvalidArguments.code()
    );

    let password_str = "::1";
    assert!(parse_password(password_str).is_err());
    assert_eq!(
        parse_password(password_str).unwrap_err().code,
        WolErrCode::InvalidArguments.code()
    );

    let password_str = "00:11:22:33:44:GG";
    assert!(parse_password(password_str).is_err());
    assert_eq!(
        parse_password(password_str).unwrap_err().code,
        WolErrCode::InvalidArguments.code()
    );

    let password_str = "00-01-22-33-44-55";
    assert!(parse_password(password_str).is_err());
    assert_eq!(
        parse_password(password_str).unwrap_err().code,
        WolErrCode::InvalidArguments.code()
    );
}

#[test]
fn test_parse_target_macs() {
    let target_macs = parse_target_macs("00:11:22:33:44:55").unwrap();
    assert_eq!(target_macs.len(), 1);
    assert_eq!(target_macs[0], [0x00, 0x11, 0x22, 0x33, 0x44, 0x55]);

    let target_macs = parse_target_macs("00:11:22:33:44:55,11:22:33:44:55:66,22:33:44:55:66:77")
        .unwrap();
    assert_eq!(target_macs.len(), 3);
    assert_eq!(target_macs[0], [0x00, 0x11, 0x22, 0x33, 0x44, 0x55]);
    assert_eq!(target_macs[1], [0x11, 0x22, 0x33, 0x44, 0x55, 0x66]);
    assert_eq!(target_macs[2], [0x22, 0x33, 0x44, 0x55, 0x66, 0x77]);

    let bad = "00:01";
    assert!(parse_target_macs(bad).is_err());
    assert_eq!(parse_target_macs(bad).unwrap_err().msg, "Invalid MAC address");
    assert_eq!(
        parse_target_macs(bad).unwrap_err().code,
        WolErrCode::InvalidArguments.code()
    );
}

#[test]
fn test_is_mac_string_valid() {
    assert!(is_mac_string_valid("00:11:22:33:44:55"));
    assert!(!is_mac_string_valid(""));
    assert!(!is_mac_string_valid("0:1:2:3:4:G"));
    assert!(!is_mac_string_valid("00:11:22:33:44:GG"));
    assert!(!is_mac_string_valid("00-11-22-33-44-55"));
    assert!(!is_mac_string_valid("00:11:22:33:44:55:66"));
}

#[test]
fn test_is_ipv4_address_valid() {
    assert!(is_ipv4_address_valid("192.168.1.1"));
    assert!(!is_ipv4_address_valid(""));
    assert!(!is_ipv4_address_valid("0::1"));
    assert!(!is_ipv4_address_valid("192.168.1"));
    assert!(!is_ipv4_address_valid("192.168.1.256"));
    assert!(!is_ipv4_address_valid("192.168.1.1.1"));
}

#[test]
fn test_build_magic_bytes() {
    let src_mac = [0x00, 0x11, 0x22, 0x33, 0x44, 0x55];
    let target_mac = [0xff, 0xff, 0xff, 0xff, 0xff, 0xff];
    let four_bytes_password = Some(Password(vec![0x00, 0x11, 0x22, 0x33]));
    let magic_packet =
        build_magic_bytes(false, false, &src_mac, &target_mac, &four_bytes_password).unwrap();
    assert_eq!(magic_packet.len(), 120);
    assert_eq!(&magic_packet[0..6], &target_mac);
    assert_eq!(&magic_packet[6..12], &src_mac);
    assert_eq!(&magic_packet[12..14], &[0x08, 0x42]);
    assert_eq!(&magic_packet[14..20], &[0xff; 6]);
    assert_eq!(&magic_packet[20..116], target_mac.repeat(16));
    assert_eq!(&magic_packet[116..120], &[0x00, 0x11, 0x22, 0x33]);

    let six_bytes_password = Some(Password(vec![0x00, 0x11, 0x22, 0x33, 0x44, 0x55]));
    let magic_packet =
        build_magic_bytes(false, false, &src_mac, &target_mac, &six_bytes_password).unwrap();
    assert_eq!(magic_packet.len(), 122);
    assert_eq!(&magic_packet[0..6], &target_mac);
    assert_eq!(&magic_packet[6..12], &src_mac);
    assert_eq!(&magic_packet[12..14], &[0x08, 0x42]);
    assert_eq!(&magic_packet[14..20], &[0xff; 6]);
    assert_eq!(&magic_packet[20..116], target_mac.repeat(16));
    assert_eq!(
        &magic_packet[116..122],
        &[0x00, 0x11, 0x22, 0x33, 0x44, 0x55]
    );
}

#[test]
fn test_build_magic_bytes_without_password() {
    let src_mac = [0x00, 0x11, 0x22, 0x33, 0x44, 0x55];
    let target_mac = [0x01, 0x02, 0x03, 0x04, 0x05, 0x06];
    let magic_packet = build_magic_bytes(false, false, &src_mac, &target_mac, &None).unwrap();
    assert_eq!(magic_packet.len(), 116);
    assert_eq!(&magic_packet[0..6], &target_mac);
    assert_eq!(&magic_packet[6..12], &src_mac);
    assert_eq!(&magic_packet[12..14], &[0x08, 0x42]);
    assert_eq!(&magic_packet[14..20], &[0xff; 6]);
    assert_eq!(&magic_packet[20..116], target_mac.repeat(16));

    let broadcast_mac = [0xff, 0xff, 0xff, 0xff, 0xff, 0xff];
    let magic_packet = build_magic_bytes(false, true, &src_mac, &target_mac, &None).unwrap();
    assert_eq!(magic_packet.len(), 116);
    assert_eq!(&magic_packet[0..6], broadcast_mac);
    assert_eq!(&magic_packet[6..12], &src_mac);
    assert_eq!(&magic_packet[12..14], &[0x08, 0x42]);
    assert_eq!(&magic_packet[14..20], &[0xff; 6]);
    assert_eq!(&magic_packet[20..116], target_mac.repeat(16));
}

#[test]
fn test_build_magic_bytes_udp() {
    let src_mac = [0x00, 0x11, 0x22, 0x33, 0x44, 0x55];
    let target_mac = [0x01, 0x02, 0x03, 0x04, 0x05, 0x06];
    let magic_packet = build_magic_bytes(true, false, &src_mac, &target_mac, &None).unwrap();
    assert_eq!(magic_packet.len(), 102);
    assert_eq!(&magic_packet[0..6], &[0xff; 6]);
    assert_eq!(&magic_packet[6..102], target_mac.repeat(16));
}

#[test]
fn test_validate_send_options() {
    assert!(validate_send_options(1, 0).is_ok());
    assert!(validate_send_options(5, 2000).is_ok());

    let err = validate_send_options(0, 0).unwrap_err();
    assert_eq!(err.msg, "Invalid value for \"COUNT\": count must between 1 and 5");
    assert_eq!(err.code, WolErrCode::InvalidArguments.code());

    let err = validate_send_options(6, 0).unwrap_err();
    assert_eq!(err.msg, "Invalid value for \"COUNT\": count must between 1 and 5");

    let err = validate_send_options(1, 2001).unwrap_err();
    assert_eq!(err.msg, "Invalid value for \"INTERVAL\": interval must between 0 and 2000");
    assert_eq!(err.code, WolErrCode::InvalidArguments.code());
}

#[test]
fn test_wol_err_message() {
    let err = validate_send_options(1, 2001).unwrap_err();
    assert_eq!(
        err.message(),
        "Error: Invalid value for \"INTERVAL\": interval must between 0 and 2000"
    );
}

#[test]
fn test_wol_err_codes() {
    assert_eq!(WolErrCode::SocketError.code(), 1);
    assert_eq!(WolErrCode::InvalidArguments.code(), 2);
    assert_eq!(WolErrCode::InternalError.code(), 255);
}
