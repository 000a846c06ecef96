use echoip::user_agent::{is_cli, parse, UserAgent};

fn ua(product: &str, version: &str, comment: &str) -> UserAgent {
    UserAgent {
        product: product.into(),
        version: version.into(),
        comment: comment.into(),
        ..Default::default()
    }
}

#[test]
fn test_parse() {
    let tests = vec![
        ("", UserAgent::default()),
        ("curl/", ua("curl", "", "")),
        ("curl/foo", ua("curl", "", "foo")),
        ("curl/7.26.0", ua("curl", "7.26.0", "")),
        ("Wget/1.13.4 (linux-gnu)", ua("Wget", "1.13.4", "(linux-gnu)")),
        ("Wget", ua("Wget", "", "")),
        ("fetch libfetch/2.0", ua("fetch libfetch", "2.0", "")),
        ("Go 1.1 package http", ua("Go", "", "1.1 package http")),
        ("Mikrotik/6.x Fetch", ua("Mikrotik", "6.x", "Fetch")),
        (
            "Mozilla/5.0 (Macintosh; Intel Mac OS X 10_8_4) \
             AppleWebKit/537.36 (KHTML, like Gecko) Chrome/30.0.1599.28 \
             Safari/537.36",
            ua(
                "Mozilla",
                "5.0",
                "(Macintosh; Intel Mac OS X 10_8_4) \
                 AppleWebKit/537.36 (KHTML, like Gecko) Chrome/30.0.1599.28 \
                 Safari/537.36",
            ),
        ),
    ];

    for (input, expected) in &tests {
        let ua = parse(input);
        assert_eq!(ua.product, expected.product, "Product mismatch for {input:?}");
        assert_eq!(ua.version, expected.version, "Version mismatch for {input:?}");
        assert_eq!(ua.comment, expected.comment, "Comment mismatch for {input:?}");
    }
}

#[test]
fn test_is_cli() {
    assert!(is_cli("curl/7.26.0"));
    assert!(is_cli("Wget/1.13.4 (linux-gnu)"));
    assert!(is_cli("Wget"));
    assert!(is_cli("fetch libfetch/2.0"));
    assert!(is_cli("HTTPie/0.9.3"));
    assert!(is_cli("httpie-go/0.6.0"));
    assert!(is_cli("Go 1.1 package http"));
    assert!(is_cli("Go-http-client/1.1"));
    assert!(is_cli("Go-http-client/2.0"));
    assert!(is_cli("ddclient/3.8.3"));
    assert!(is_cli("Mikrotik/6.x Fetch"));
    assert!(is_cli("xh/0.1.0"));
    assert!(!is_cli(
        "Mozilla/5.0 (Macintosh; Intel Mac OS X 10_8_4) \
         AppleWebKit/537.36 (KHTML, like Gecko) Chrome/30.0.1599.28 Safari/537.36"
    ));
}

#[test]
fn parse_keeps_raw_value() {
    let ua = parse("curl/7.26.0");
    assert_eq!(ua.raw_value, "curl/7.26.0");
}

#[test]
fn parse_clone_is_equal() {
    let ua = parse("Wget/1.13.4 (linux-gnu)");
    assert_eq!(ua.clone(), ua);
}

#[test]
fn is_cli_rejects_unknown_product() {
    assert!(!is_cli("foo/bar"));
    assert!(!is_cli(""));
}
