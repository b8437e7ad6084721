use sview::sockets::parse_address;
use sview::geoip::{is_private_ip, GeoLocation};

#[test]
fn test_parse_address_ipv4() {
    let (ip, port) = parse_address("192.168.1.1:12798").unwrap();
    assert_eq!(ip, "192.168.1.1");
    assert_eq!(port, 12798);
}

#[test]
fn test_parse_address_ipv6() {
    let (ip, port) = parse_address("[::1]:12798").unwrap();
    assert_eq!(ip, "::1");
    assert_eq!(port, 12798);
}

#[test]
fn test_parse_address_rejects() {
    assert!(parse_address("no-port-here").is_none());
    assert!(parse_address("[::1]").is_none());
    assert!(parse_address("host:notaport").is_none());
    assert!(parse_address("host:99999").is_none());
}

#[test]
fn test_is_private_ip() {
    assert!(is_private_ip("127.0.0.1"));
    assert!(is_private_ip("::1"));
    assert!(is_private_ip("localhost"));
    assert!(is_private_ip("10.1.2.3"));
    assert!(is_private_ip("172.16.0.1"));
    assert!(is_private_ip("172.31.255.255"));
    assert!(is_private_ip("192.168.1.1"));
    assert!(is_private_ip("fe80::1"));
    assert!(is_private_ip("fd00::1"));
    assert!(!is_private_ip("8.8.8.8"));
    assert!(!is_private_ip("172.32.0.1"));
    assert!(!is_private_ip("192.169.0.1"));
}

#[test]
fn test_geo_location_short() {
    let loc = GeoLocation {
        city: "Berlin".to_string(),
        country_code: "DE".to_string(),
        country: "Germany".to_string(),
        region: "BE".to_string(),
        isp: None,
        lat: None,
        lon: None,
    };
    assert_eq!(loc.short(), "Berlin, DE");

    let unknown = GeoLocation {
        city: "?".to_string(),
        country_code: "US".to_string(),
        country: "United States".to_string(),
        region: "".to_string(),
        isp: None,
        lat: None,
        lon: None,
    };
    assert_eq!(unknown.short(), "US");
}
