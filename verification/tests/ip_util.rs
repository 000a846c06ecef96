use echoip::headers::Headers;
use echoip::ip::{extract_ip, ip_from_forwarded_for, normalize_hostname, parse_ip, to_decimal, IpAddress};

fn v4(a: u8, b: u8, c: u8, d: u8) -> IpAddress {
    IpAddress::V4([a, b, c, d])
}

fn v6(groups: [u16; 8]) -> IpAddress {
    let mut o = [0u8; 16];
    for (i, g) in groups.iter().enumerate() {
        o[2 * i] = (g >> 8) as u8;
        o[2 * i + 1] = (g & 0xff) as u8;
    }
    IpAddress::V6(o)
}

#[test]
fn test_to_decimal() {
    let tests = vec![
        ("127.0.0.1", "2130706433"),
        ("::1", "1"),
        ("8000::", "170141183460469231731687303715884105728"),
    ];
    for (input, expected) in tests {
        let ip = parse_ip(input).unwrap();
        let decimal = to_decimal(ip);
        assert_eq!(decimal.to_string(), expected, "Failed for {input}");
    }
}

#[test]
fn test_parse_ip() {
    assert_eq!(parse_ip("127.0.0.1").unwrap(), v4(127, 0, 0, 1));
    assert_eq!(parse_ip("1.3.3.7:1337").unwrap(), v4(1, 3, 3, 7));
    assert_eq!(
        parse_ip("[::ffff:103:307]:1337").unwrap(),
        v6([0, 0, 0, 0, 0, 0xffff, 0x103, 0x307])
    );
    assert_eq!(parse_ip("::1").unwrap(), v6([0, 0, 0, 0, 0, 0, 0, 1]));
    assert!(parse_ip("").is_err());
}

#[test]
fn test_ip_from_forwarded_for() {
    assert_eq!(ip_from_forwarded_for("1.3.3.7"), "1.3.3.7");
    assert_eq!(ip_from_forwarded_for("1.3.3.7,4.2.4.2"), "1.3.3.7");
    assert_eq!(ip_from_forwarded_for("1.3.3.7, 4.2.4.2"), "1.3.3.7");
}

#[test]
fn test_extract_ip_from_query() {
    let headers = Headers::new();
    let result = extract_ip(&vec![], &headers, Some("8.8.8.8"), None);
    assert_eq!(result.unwrap(), v4(8, 8, 8, 8));
}

#[test]
fn test_extract_ip_from_remote() {
    let headers = Headers::new();
    let remote = v4(192, 168, 1, 1);
    let result = extract_ip(&vec![], &headers, None, Some(remote));
    assert_eq!(result.unwrap(), remote);
}

#[test]
fn test_extract_ip_from_trusted_header() {
    let mut headers = Headers::new();
    headers.insert("x-real-ip", "10.0.0.1");
    let trusted = vec!["x-real-ip".to_string()];
    let result = extract_ip(&trusted, &headers, None, None);
    assert_eq!(result.unwrap(), v4(10, 0, 0, 1));
}

#[test]
fn test_extract_ip_forwarded_for() {
    let mut headers = Headers::new();
    headers.insert("x-forwarded-for", "1.2.3.4, 5.6.7.8");
    let trusted = vec!["x-forwarded-for".to_string()];
    let result = extract_ip(&trusted, &headers, None, None);
    assert_eq!(result.unwrap(), v4(1, 2, 3, 4));
}

#[test]
fn test_extract_ip_query_priority() {
    let mut headers = Headers::new();
    headers.insert("x-real-ip", "10.0.0.1");
    let trusted = vec!["x-real-ip".to_string()];
    let remote = v4(192, 168, 1, 1);
    // Query IP takes priority over header and remote
    let result = extract_ip(&trusted, &headers, Some("8.8.8.8"), Some(remote));
    assert_eq!(result.unwrap(), v4(8, 8, 8, 8));
}

#[test]
fn test_parse_ip_whitespace() {
    assert_eq!(parse_ip("  127.0.0.1  ").unwrap(), v4(127, 0, 0, 1));
}

#[test]
fn test_parse_ip_invalid() {
    assert!(parse_ip("not-an-ip").is_err());
    assert!(parse_ip("999.999.999.999").is_err());
}

#[test]
fn test_parse_ip_ipv6_no_port() {
    assert_eq!(
        parse_ip("2001:db8::1").unwrap(),
        v6([0x2001, 0xdb8, 0, 0, 0, 0, 0, 1])
    );
}

#[test]
fn test_parse_ip_ipv6_bracket_only() {
    // Bracket but no port separator — should fail since [addr] isn't valid by itself
    assert!(parse_ip("[::1]").is_err());
}

#[test]
fn test_extract_ip_empty_query() {
    let headers = Headers::new();
    let remote = v4(192, 168, 1, 1);
    // Empty query string should fall through to remote
    let result = extract_ip(&vec![], &headers, Some(""), Some(remote));
    assert_eq!(result.unwrap(), remote);
}

#[test]
fn test_extract_ip_empty_header_value() {
    let mut headers = Headers::new();
    headers.insert("x-real-ip", "");
    let trusted = vec!["x-real-ip".to_string()];
    let remote = v4(192, 168, 1, 1);
    // Empty header should be skipped, fall through to remote
    let result = extract_ip(&trusted, &headers, None, Some(remote));
    assert_eq!(result.unwrap(), remote);
}

#[test]
fn test_extract_ip_no_source() {
    let headers = Headers::new();
    let result = extract_ip(&vec![], &headers, None, None);
    assert!(result.is_err());
}

#[test]
fn parse_ip_error_messages() {
    assert_eq!(parse_ip("   ").unwrap_err(), "empty IP string");
    assert_eq!(parse_ip(" nope ").unwrap_err(), "could not parse IP: nope");
}

#[test]
fn parse_ip_textual_forms() {
    assert_eq!(parse_ip("0.0.0.0").unwrap(), v4(0, 0, 0, 0));
    assert_eq!(parse_ip("255.255.255.255").unwrap(), v4(255, 255, 255, 255));
    assert!(parse_ip("256.1.1.1").is_err());
    assert!(parse_ip("01.2.3.4").is_err());
    assert!(parse_ip("1.2.3").is_err());
    assert!(parse_ip("1.2.3.4.5").is_err());
    assert_eq!(parse_ip("::").unwrap(), v6([0; 8]));
    assert_eq!(parse_ip("1::").unwrap(), v6([1, 0, 0, 0, 0, 0, 0, 0]));
    assert_eq!(
        parse_ip("1:2:3:4:5:6:7:8").unwrap(),
        v6([1, 2, 3, 4, 5, 6, 7, 8])
    );
    assert_eq!(
        parse_ip("::ffff:1.2.3.4").unwrap(),
        v6([0, 0, 0, 0, 0, 0xffff, 0x102, 0x304])
    );
    assert_eq!(
        parse_ip("1:2:3:4:5:6:1.2.3.4").unwrap(),
        v6([1, 2, 3, 4, 5, 6, 0x102, 0x304])
    );
    assert_eq!(parse_ip("ABCD::Ef").unwrap(), v6([0xabcd, 0, 0, 0, 0, 0, 0, 0xef]));
    assert!(parse_ip("1:2:3:4:5:6:7:8:9").is_err());
    assert!(parse_ip("1:2:3:4:5:6:7::8").is_err());
    assert!(parse_ip("12345::").is_err());
    assert!(parse_ip("1.2.3.4::").is_err());
    assert!(parse_ip(":::").is_err());
    assert_eq!(parse_ip("[2001:db8::1]:443").unwrap(), v6([0x2001, 0xdb8, 0, 0, 0, 0, 0, 1]));
}

#[test]
fn forwarded_for_header_case_and_order() {
    let mut headers = Headers::new();
    headers.append("X-Real-IP", "");
    headers.append("X-Forwarded-For", "9.9.9.9, 1.1.1.1");
    let trusted = vec!["x-real-ip".to_string(), "X-FORWARDED-FOR".to_string()];
    let result = extract_ip(&trusted, &headers, None, Some(v4(1, 2, 3, 4)));
    assert_eq!(result.unwrap(), v4(9, 9, 9, 9));
    let bad = {
        let mut h = Headers::new();
        h.insert("x-real-ip", "garbage");
        extract_ip(&vec!["x-real-ip".to_string()], &h, None, Some(v4(1, 2, 3, 4)))
    };
    assert_eq!(bad.unwrap_err(), "could not parse IP: garbage");
}

#[test]
fn headers_insert_replaces_same_name() {
    let mut h = Headers::new();
    h.append("Accept", "a");
    h.append("accept", "b");
    assert_eq!(h.get("ACCEPT"), Some("a"));
    h.append("User-Agent", "curl/7.0");
    h.insert("aCCept", "c");
    assert_eq!(h.get("accept"), Some("c"));
    assert_eq!(h.get("user-agent"), Some("curl/7.0"));
    assert_eq!(h.get("host"), None);
}

#[test]
fn hostname_trailing_dots() {
    assert_eq!(normalize_hostname("example.com.").as_deref(), Some("example.com"));
    assert_eq!(normalize_hostname("localhost").as_deref(), Some("localhost"));
    assert_eq!(normalize_hostname("..."), None);
    assert_eq!(normalize_hostname(""), None);
}

#[test]
fn ipv4_decimal_below_2_32() {
    assert_eq!(to_decimal(v4(255, 255, 255, 255)), 4294967295);
    assert_eq!(v4(1, 2, 3, 4).key(), (4, 16909060));
    assert_eq!(v6([0, 0, 0, 0, 0, 0, 0x102, 0x304]).key(), (6, 16909060));
}

#[test]
fn address_texts_read_back() {
    assert_eq!(parse_ip("10.200.0.255").unwrap(), v4(10, 200, 0, 255));
    assert_eq!(parse_ip(" 10.200.0.255\t").unwrap(), v4(10, 200, 0, 255));
    assert_eq!(parse_ip("10.200.0.255:").unwrap(), v4(10, 200, 0, 255));
    assert_eq!(parse_ip("10.200.0.255:8080").unwrap(), v4(10, 200, 0, 255));
    let full = v6([0x2001, 0xdb8, 0, 0, 0, 0xabc, 0xffff, 1]);
    assert_eq!(parse_ip("2001:db8:0:0:0:abc:ffff:1").unwrap(), full);
    assert_eq!(parse_ip("  2001:db8:0:0:0:abc:ffff:1 ").unwrap(), full);
    assert_eq!(parse_ip("[2001:db8:0:0:0:abc:ffff:1]:443").unwrap(), full);
}

#[test]
fn compressed_texts_read_back() {
    let a = v6([0x2001, 0xdb8, 0, 0, 0, 0xabc, 0xffff, 1]);
    assert_eq!(parse_ip("2001:db8::abc:ffff:1").unwrap(), a);
    assert_eq!(parse_ip("2001:db8:0::abc:ffff:1").unwrap(), a);
    assert_eq!(parse_ip(" 2001:db8::abc:ffff:1\n").unwrap(), a);
    assert_eq!(parse_ip("[2001:db8::abc:ffff:1]:8080").unwrap(), a);
    assert_eq!(parse_ip("::1").unwrap(), v6([0, 0, 0, 0, 0, 0, 0, 1]));
    assert_eq!(parse_ip("::").unwrap(), v6([0; 8]));
    assert_eq!(parse_ip("fe80::").unwrap(), v6([0xfe80, 0, 0, 0, 0, 0, 0, 0]));
    assert_eq!(parse_ip("1:2:3:4:5:6:7::").unwrap(), v6([1, 2, 3, 4, 5, 6, 7, 0]));
}

#[test]
fn mapped_texts_read_back() {
    let a = v6([0, 0, 0, 0, 0, 0xffff, 0xc000, 0x0280]);
    assert_eq!(parse_ip("::ffff:192.0.2.128").unwrap(), a);
    assert_eq!(parse_ip(" ::ffff:192.0.2.128 ").unwrap(), a);
    assert_eq!(parse_ip("[::ffff:192.0.2.128]:80").unwrap(), a);
}
