use echoip::geo::maxmind::{
    asn_from_record, city_from_record, country_from_record, text_or_empty, text_with_fallback,
};
use echoip::geo::mmdb::{AsnRecord, CityRecord, CountryRecord};
use echoip::geo::{Asn, City, Coordinate, Country};
use echoip::ip::IpAddress;
use echoip::response::{
    asn_string, assemble_response, attach_user_agent, decimal_field, decimal_string, is_false,
    is_zero_u32,
};

fn s(v: &str) -> Option<String> {
    Some(v.to_string())
}

#[test]
fn decimal_notation() {
    assert_eq!(decimal_string(0), "0");
    assert_eq!(decimal_string(7), "7");
    assert_eq!(decimal_string(2130706433), "2130706433");
    assert_eq!(decimal_string(u64::MAX as u128), "18446744073709551615");
    assert_eq!(decimal_string(u128::MAX), "340282366920938463463374607431768211455");
}

#[test]
fn asn_notation() {
    assert_eq!(asn_string(59795), "AS59795");
    assert_eq!(asn_string(0), "");
}

#[test]
fn skipped_fields() {
    assert!(is_false(&false));
    assert!(!is_false(&true));
    assert!(is_zero_u32(&0));
    assert!(!is_zero_u32(&1234));
}

#[test]
fn assemble_with_answers() {
    let ip = IpAddress::V4([127, 0, 0, 1]);
    let country = Country { name: "Elbonia".into(), iso: "EB".into(), is_eu: true };
    let city = City { name: "Bornyasherk".into(), metro_code: 1234, ..Default::default() };
    let asn = Asn { number: 59795, organization: "Hosting4Real".into() };
    let r = assemble_response(ip, Some(country), Some(city), Some(asn), "localhost".into());
    assert_eq!(r.ip, ip);
    assert_eq!(r.ip_decimal, 2130706433);
    assert_eq!(r.country, "Elbonia");
    assert_eq!(r.country_iso, "EB");
    assert!(r.country_eu);
    assert_eq!(r.city, "Bornyasherk");
    assert_eq!(r.metro_code, 1234);
    assert_eq!(r.asn, "AS59795");
    assert_eq!(r.asn_org, "Hosting4Real");
    assert_eq!(r.hostname, "localhost");
    assert!(r.user_agent.is_none());
}

#[test]
fn assemble_without_answers() {
    let ip = IpAddress::V6([0; 16]);
    let r = assemble_response(ip, None, None, None, String::new());
    assert_eq!(r.ip_decimal, 0);
    assert_eq!(r.country, "");
    assert_eq!(r.asn, "");
    assert_eq!(r.latitude, Coordinate::zero());
}

#[test]
fn user_agent_attached_or_cleared() {
    let ip = IpAddress::V4([1, 1, 1, 1]);
    let mut r = assemble_response(ip, None, None, None, String::new());
    attach_user_agent(&mut r, "curl/7.0");
    let ua = r.user_agent.clone().unwrap();
    assert_eq!(ua.product, "curl");
    assert_eq!(ua.version, "7.0");
    assert_eq!(ua.raw_value, "curl/7.0");
    attach_user_agent(&mut r, "");
    assert!(r.user_agent.is_none());
}

#[test]
fn text_helpers() {
    assert_eq!(text_or_empty(None), "");
    assert_eq!(text_or_empty(s("x")), "x");
    assert_eq!(text_with_fallback(String::new(), s("fb")), "fb");
    assert_eq!(text_with_fallback("p".into(), s("fb")), "p");
    assert_eq!(text_with_fallback(String::new(), None), "");
}

#[test]
fn country_record_falls_back_to_registered_country() {
    let c = country_from_record(CountryRecord {
        name: None,
        iso_code: s(""),
        is_in_european_union: None,
        registered_name: s("Sweden"),
        registered_iso_code: s("SE"),
    });
    assert_eq!(c.name, "Sweden");
    assert_eq!(c.iso, "SE");
    assert!(!c.is_eu);

    let c = country_from_record(CountryRecord {
        name: s("Germany"),
        iso_code: s("DE"),
        is_in_european_union: Some(true),
        registered_name: s("Sweden"),
        registered_iso_code: s("SE"),
    });
    assert_eq!(c.name, "Germany");
    assert_eq!(c.iso, "DE");
    assert!(c.is_eu);
}

#[test]
fn city_record_metro_code_only_in_us() {
    let rec = |iso: &str| CityRecord {
        name: s("Springfield"),
        subdivision_name: s("Illinois"),
        subdivision_iso_code: s("IL"),
        latitude: Some(39.78f64.to_bits()),
        longitude: Some(f64::NAN.to_bits()),
        metro_code: Some(648),
        time_zone: s("America/Chicago"),
        postal_code: s("62701"),
        country_iso_code: s(iso),
    };
    let c = city_from_record(rec("US"));
    assert_eq!(c.name, "Springfield");
    assert_eq!(c.region_name, "Illinois");
    assert_eq!(c.region_code, "IL");
    assert_eq!(f64::from_bits(c.latitude.bits), 39.78);
    assert_eq!(c.longitude, Coordinate::zero());
    assert_eq!(c.metro_code, 648);
    assert_eq!(c.timezone, "America/Chicago");
    assert_eq!(c.postal_code, "62701");
    assert_eq!(city_from_record(rec("CA")).metro_code, 0);
}

#[test]
fn asn_record_defaults() {
    let a = asn_from_record(AsnRecord { number: None, organization: None });
    assert_eq!(a.number, 0);
    assert_eq!(a.organization, "");
    let a = asn_from_record(AsnRecord { number: Some(15169), organization: s("Google LLC") });
    assert_eq!(a.number, 15169);
    assert_eq!(a.organization, "Google LLC");
}

#[test]
fn decimal_field_fails_beyond_64_bits() {
    assert_eq!(decimal_field(2130706433), Ok(2130706433));
    assert_eq!(decimal_field(u64::MAX as u128), Ok(u64::MAX));
    assert_eq!(decimal_field(u64::MAX as u128 + 1).unwrap_err(), "number too large to fit in target type");
    assert_eq!("18446744073709551616".parse::<u64>().unwrap_err().to_string(), "number too large to fit in target type");
}
