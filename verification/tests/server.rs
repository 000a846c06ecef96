use echoip::cache::Cache;
use echoip::config::Config;
use echoip::geo::{Asn, AsnView, City, CityView, Coordinate, Country, CountryView, GeoProvider};
use echoip::headers::Headers;
use echoip::ip::IpAddress;
use echoip::server::{
    begin_lookup, enabled_routes, finish_lookup, negotiate, not_found_error, parse_capacity,
    parse_port, port_test_ip, resize_message, text_line, Lookup, RootHandler,
};

fn config() -> Config {
    Config {
        country_db: String::new(),
        city_db: String::new(),
        asn_db: String::new(),
        listen: ":8080".to_string(),
        reverse_lookup: false,
        port_lookup: false,
        template: String::new(),
        cache_size: 0,
        profile: false,
        sponsor: false,
        trusted_headers: vec![],
        ip66_db: None,
        data_dir: "data".to_string(),
        update_interval: 24,
        no_auto_download: false,
    }
}

struct Elbonia;

impl GeoProvider for Elbonia {
    // The spec functions of the trait exist only for the verifier; nothing calls them.
    fn country_of(&self, _ip: IpAddress) -> Option<CountryView> {
        unreachable!()
    }
    fn city_of(&self, _ip: IpAddress) -> Option<CityView> {
        unreachable!()
    }
    fn asn_of(&self, _ip: IpAddress) -> Option<AsnView> {
        unreachable!()
    }
    fn holds_no_data(&self) -> bool {
        unreachable!()
    }
    fn country(&self, _ip: IpAddress) -> Option<Country> {
        Some(Country { name: "Elbonia".to_string(), iso: "EB".to_string(), is_eu: false })
    }
    fn city(&self, _ip: IpAddress) -> Option<City> {
        Some(City {
            name: "Bornyasherk".to_string(),
            latitude: Coordinate { bits: 63.416667f64.to_bits() },
            longitude: Coordinate { bits: 10.416667f64.to_bits() },
            postal_code: "1234".to_string(),
            timezone: "Europe/Bornyasherk".to_string(),
            metro_code: 1234,
            region_name: "North Elbonia".to_string(),
            region_code: "1234".to_string(),
        })
    }
    fn asn(&self, _ip: IpAddress) -> Option<Asn> {
        Some(Asn { number: 59795, organization: "Hosting4Real".to_string() })
    }
    fn is_empty(&self) -> bool {
        false
    }
}

#[test]
fn negotiate_prefers_json() {
    assert_eq!(negotiate("application/json", "Mozilla/5.0", true), RootHandler::Json);
    assert_eq!(negotiate("text/html, application/json", "curl/7.0", false), RootHandler::Json);
}

#[test]
fn negotiate_cli_and_plain_text() {
    assert_eq!(negotiate("*/*", "curl/7.43.0", true), RootHandler::Ip);
    assert_eq!(negotiate("text/plain", "Mozilla/5.0", true), RootHandler::Ip);
}

#[test]
fn negotiate_html_only_with_template() {
    assert_eq!(negotiate("text/html", "Mozilla/5.0 (Macintosh)", true), RootHandler::Html);
    assert_eq!(negotiate("*/*", "Mozilla/5.0 (Macintosh)", false), RootHandler::Ip);
    assert_eq!(negotiate("", "", true), RootHandler::Html);
}

#[test]
fn routes_follow_config() {
    let mut c = config();
    let r = enabled_routes(&c, false);
    assert!(r.geo && !r.port && !r.debug);
    c.no_auto_download = true;
    c.port_lookup = true;
    c.profile = true;
    let r = enabled_routes(&c, true);
    assert!(!r.geo && r.port && r.debug);
    let r = enabled_routes(&c, false);
    assert!(r.geo);
}

#[test]
fn parse_port_accepts_valid_ports() {
    assert_eq!(parse_port("1337").unwrap(), 1337);
    assert_eq!(parse_port("65535").unwrap(), 65535);
    assert_eq!(parse_port("+80").unwrap(), 80);
    assert_eq!(parse_port("0080").unwrap(), 80);
}

#[test]
fn parse_port_refusals() {
    for s in ["foo", "0", "65537", "", "-1", " 80"] {
        let e = parse_port(s).unwrap_err();
        assert_eq!(e.code, 400);
        assert_eq!(e.message, format!("invalid port: {s}"));
        assert_eq!(e.content_type.as_deref(), Some("application/json"));
    }
}

#[test]
fn parse_capacity_trims_body() {
    assert_eq!(parse_capacity("10").unwrap(), 10);
    assert_eq!(parse_capacity("  42\n").unwrap(), 42);
    assert_eq!(parse_capacity("0").unwrap(), 0);
    let e = parse_capacity(" not-a-number ").unwrap_err();
    assert_eq!(e.code, 400);
    assert_eq!(e.message, "invalid capacity: not-a-number");
    assert!(e.is_json());
}

#[test]
fn resize_message_text() {
    assert_eq!(resize_message(10), "Changed cache capacity to 10.");
    assert_eq!(resize_message(0), "Changed cache capacity to 0.");
}

#[test]
fn not_found_error_negotiates() {
    let e = not_found_error("application/json");
    assert_eq!(e.code, 404);
    assert_eq!(e.message, "404 page not found");
    assert!(e.is_json());
    let e = not_found_error("text/plain");
    assert_eq!(e.code, 404);
    assert!(!e.is_json());
}

#[test]
fn text_line_appends_newline() {
    assert_eq!(text_line("127.0.0.1"), "127.0.0.1\n");
    assert_eq!(text_line(""), "\n");
}

#[test]
fn port_test_ip_ignores_nothing_but_uses_peer() {
    let headers = Headers::new();
    let ip = port_test_ip(&vec![], &headers, Some(IpAddress::V4([127, 0, 0, 1]))).unwrap();
    assert_eq!(ip, IpAddress::V4([127, 0, 0, 1]));
    let e = port_test_ip(&vec![], &headers, None).unwrap_err();
    assert_eq!(e.code, 400);
    assert!(e.is_json());
}

#[test]
fn lookup_builds_then_serves_from_cache() {
    let mut cache = Cache::new(10);
    let mut headers = Headers::new();
    headers.insert("user-agent", "curl/7.2.6.0");
    let remote = Some(IpAddress::V4([127, 0, 0, 1]));

    let first = begin_lookup(&vec![], &headers, None, remote, &mut cache).unwrap();
    let ip = match first {
        Lookup::Fresh(ip) => ip,
        Lookup::Cached(_) => panic!("empty cache answered"),
    };
    let resp = finish_lookup(&Elbonia, &mut cache, ip, Some("localhost".to_string()), &headers);
    assert_eq!(resp.ip_decimal, 2130706433);
    assert_eq!(resp.country, "Elbonia");
    assert_eq!(resp.country_iso, "EB");
    assert_eq!(resp.city, "Bornyasherk");
    assert_eq!(resp.asn, "AS59795");
    assert_eq!(resp.asn_org, "Hosting4Real");
    assert_eq!(resp.hostname, "localhost");
    assert_eq!(resp.metro_code, 1234);
    let ua = resp.user_agent.clone().unwrap();
    assert_eq!(ua.product, "curl");
    assert_eq!(ua.version, "7.2.6.0");
    assert_eq!(cache.stats().size, 1);

    let mut other = Headers::new();
    other.insert("user-agent", "Wget/1.0");
    match begin_lookup(&vec![], &other, None, remote, &mut cache).unwrap() {
        Lookup::Cached(r) => {
            assert_eq!(r.country, "Elbonia");
            assert_eq!(r.user_agent.unwrap().product, "Wget");
        }
        Lookup::Fresh(_) => panic!("cached response not found"),
    }
}

#[test]
fn lookup_refuses_bad_query() {
    let mut cache = Cache::new(10);
    let headers = Headers::new();
    match begin_lookup(&vec![], &headers, Some("invalid"), None, &mut cache) {
        Err(e) => {
            assert_eq!(e.code, 400);
            assert!(e.is_json());
            assert_eq!(e.message, "could not parse IP: invalid");
        }
        Ok(_) => panic!("invalid address accepted"),
    }
}

#[test]
fn lookup_without_user_agent_reports_none() {
    let mut cache = Cache::new(0);
    let headers = Headers::new();
    let resp = finish_lookup(&Elbonia, &mut cache, IpAddress::V4([8, 8, 8, 8]), None, &headers);
    assert!(resp.user_agent.is_none());
    assert_eq!(resp.hostname, "");
    assert_eq!(cache.stats().size, 0);
}

#[test]
fn listen_addr_fills_in_host() {
    let mut c = config();
    assert_eq!(c.listen_addr(), "0.0.0.0:8080");
    c.listen = "127.0.0.1:9000".to_string();
    assert_eq!(c.listen_addr(), "127.0.0.1:9000");
    c.listen = String::new();
    assert_eq!(c.listen_addr(), "");
}

#[test]
fn update_period_from_hours() {
    let mut c = config();
    c.update_interval = 0;
    assert_eq!(c.update_period_secs(), None);
    c.update_interval = 24;
    assert_eq!(c.update_period_secs(), Some(86400));
    c.update_interval = u64::MAX;
    assert_eq!(c.update_period_secs(), Some(u64::MAX));
}

#[test]
fn cached_answer_without_user_agent_equals_first() {
    let mut cache = Cache::new(4);
    let mut with_ua = Headers::new();
    with_ua.insert("user-agent", "curl/7.0");
    let remote = Some(IpAddress::V4([127, 0, 0, 1]));
    let ip = match begin_lookup(&vec![], &with_ua, None, remote, &mut cache).unwrap() {
        Lookup::Fresh(ip) => ip,
        Lookup::Cached(_) => panic!("empty cache answered"),
    };
    let mut first = finish_lookup(&Elbonia, &mut cache, ip, None, &with_ua);
    assert!(first.user_agent.is_some());
    match begin_lookup(&vec![], &Headers::new(), None, remote, &mut cache).unwrap() {
        Lookup::Cached(second) => {
            assert!(second.user_agent.is_none());
            first.user_agent = None;
            assert_eq!(second, first);
        }
        Lookup::Fresh(_) => panic!("cached response not found"),
    }
}
