use http_queue_lite::remote::{parse_remote_addr, RemoteAddr};

#[test]
fn peer_address_is_split_into_ip_and_port() {
    assert_eq!(parse_remote_addr("192.168.1.20:54321"), Some(RemoteAddr { ip: "192.168.1.20".to_string(), port: 54321 }));
    assert_eq!(parse_remote_addr("0.0.0.0:0"), Some(RemoteAddr { ip: "0.0.0.0".to_string(), port: 0 }));
    assert_eq!(parse_remote_addr("h:65535"), Some(RemoteAddr { ip: "h".to_string(), port: 65535 }));
}

#[test]
fn port_may_have_a_plus_sign_and_leading_zeros() {
    assert_eq!(parse_remote_addr("a:+80"), Some(RemoteAddr { ip: "a".to_string(), port: 80 }));
    assert_eq!(parse_remote_addr("a:00080"), Some(RemoteAddr { ip: "a".to_string(), port: 80 }));
    assert_eq!(parse_remote_addr(":1"), Some(RemoteAddr { ip: String::new(), port: 1 }));
}

#[test]
fn only_the_first_two_tokens_count() {
    assert_eq!(parse_remote_addr("a:80:junk"), Some(RemoteAddr { ip: "a".to_string(), port: 80 }));
}

#[test]
fn address_without_port_is_none() {
    assert_eq!(parse_remote_addr("192.168.1.20"), None);
    assert_eq!(parse_remote_addr(""), None);
    assert_eq!(parse_remote_addr("a:"), None);
    assert_eq!(parse_remote_addr("a:+"), None);
}

#[test]
fn port_that_is_no_number_or_too_large_is_none() {
    assert_eq!(parse_remote_addr("a:65536"), None);
    assert_eq!(parse_remote_addr("a:99999999999999999999"), None);
    assert_eq!(parse_remote_addr("a:-1"), None);
    assert_eq!(parse_remote_addr("a:8o"), None);
    assert_eq!(parse_remote_addr("a: 80"), None);
    assert_eq!(parse_remote_addr("a:++80"), None);
    assert_eq!(parse_remote_addr("[::1]:8080"), None);
}
