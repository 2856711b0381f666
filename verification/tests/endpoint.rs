use whichport::endpoint::{parse_port, parse_port_from_endpoint};

#[test]
fn test_parse_port_from_endpoint_ipv4() {
    assert_eq!(parse_port_from_endpoint("*:8080"), Some(8080));
}

#[test]
fn test_parse_port_from_endpoint_ipv6() {
    assert_eq!(parse_port_from_endpoint("[::1]:5432"), Some(5432));
}

#[test]
fn test_parse_port_from_endpoint_invalid() {
    assert_eq!(parse_port_from_endpoint("localhost"), None);
}

#[test]
fn test_parse_port_valid() {
    assert_eq!(parse_port("8080").unwrap(), 8080);
}

#[test]
fn test_parse_port_zero() {
    assert!(parse_port("0").is_err());
}

#[test]
fn test_parse_port_invalid() {
    assert!(parse_port("abc").is_err());
}

#[test]
fn test_parse_port_overflow() {
    assert!(parse_port("99999").is_err());
}

#[test]
fn endpoint_port_is_what_follows_the_last_colon() {
    assert_eq!(parse_port_from_endpoint("127.0.0.53%lo:53"), Some(53));
    assert_eq!(parse_port_from_endpoint("[fe80::1%eth0]:443"), Some(443));
    assert_eq!(parse_port_from_endpoint("a:1:b:2"), Some(2));
    assert_eq!(parse_port_from_endpoint(":7"), Some(7));
    assert_eq!(parse_port_from_endpoint("*:0"), Some(0));
    assert_eq!(parse_port_from_endpoint("*:65535"), Some(65535));
}

#[test]
fn endpoint_without_a_port_has_none() {
    assert_eq!(parse_port_from_endpoint(""), None);
    assert_eq!(parse_port_from_endpoint("*:*"), None);
    assert_eq!(parse_port_from_endpoint("*:"), None);
    assert_eq!(parse_port_from_endpoint("*:65536"), None);
    assert_eq!(parse_port_from_endpoint("*:-1"), None);
    assert_eq!(parse_port_from_endpoint("*:8o"), None);
    assert_eq!(parse_port_from_endpoint("*: 80"), None);
    assert_eq!(parse_port_from_endpoint("*:80 "), None);
    assert_eq!(parse_port_from_endpoint("[::1]"), None);
    assert_eq!(parse_port_from_endpoint("*:+"), None);
}

#[test]
fn endpoint_port_may_have_a_plus_and_leading_zeros() {
    assert_eq!(parse_port_from_endpoint("*:+80"), Some(80));
    assert_eq!(parse_port_from_endpoint("*:00080"), Some(80));
    assert_eq!(
        parse_port_from_endpoint("*:000000000000000000000000000000065535"),
        Some(65535)
    );
    assert_eq!(
        parse_port_from_endpoint("*:99999999999999999999999999999999999999"),
        None
    );
}

#[test]
fn endpoint_port_of_every_port_written_in_base_ten() {
    for port in 0..=u16::MAX {
        assert_eq!(parse_port_from_endpoint(&format!("*:{port}")), Some(port));
        assert_eq!(
            parse_port_from_endpoint(&format!("[2001:db8::1]:{port}")),
            Some(port)
        );
    }
}

#[test]
fn endpoint_port_agrees_with_the_standard_parser() {
    let tails = [
        "", "0", "1", "+1", "-1", "++1", "+-1", "65535", "65536", "065535", "0x10", "1e3", "٣",
        "１２", "80\n", "\t80", "+", "-", "4294967296", "18446744073709551616",
    ];
    for tail in tails {
        let address = format!("host:{tail}");
        assert_eq!(
            parse_port_from_endpoint(&address),
            tail.parse::<u16>().ok(),
            "{address:?}"
        );
    }
}

#[test]
fn port_argument_errors_say_why() {
    assert_eq!(parse_port("abc"), Err("invalid port: abc".to_string()));
    assert_eq!(parse_port(""), Err("invalid port: ".to_string()));
    assert_eq!(parse_port("99999"), Err("invalid port: 99999".to_string()));
    assert_eq!(parse_port("-5"), Err("invalid port: -5".to_string()));
    assert_eq!(parse_port(" 80"), Err("invalid port:  80".to_string()));
    assert_eq!(
        parse_port("0"),
        Err("port 0 is reserved and cannot be queried".to_string())
    );
    assert_eq!(
        parse_port("+000"),
        Err("port 0 is reserved and cannot be queried".to_string())
    );
}

#[test]
fn port_argument_bounds() {
    assert_eq!(parse_port("1"), Ok(1));
    assert_eq!(parse_port("65535"), Ok(65535));
    assert_eq!(parse_port("+443"), Ok(443));
    assert_eq!(parse_port("0022"), Ok(22));
    assert!(parse_port("65536").is_err());
}
