use echoip::db_updater::{build_provider, validate_mmdb};
use echoip::geo::layout::check_mmdb;
use echoip::geo::ip66::Ip66Provider;
use echoip::geo::maxmind::MaxmindProvider;
use echoip::geo::GeoProvider;
use echoip::ip::{parse_ip, IpAddress};

// A minimal MaxMind DB writer: one search-tree node whose left branch holds
// one record and whose right branch is empty, so that IPv4 addresses and IPv6
// addresses starting with a zero bit find the record and the others do not.

fn ctrl(type_num: u8, size: usize) -> Vec<u8> {
    let mut out = Vec::new();
    let (first, extra): (u8, Vec<u8>) = if size < 29 {
        (size as u8, vec![])
    } else {
        assert!(size < 285);
        (29, vec![(size - 29) as u8])
    };
    if type_num <= 7 {
        out.push((type_num << 5) | first);
    } else {
        out.push(first);
        out.push(type_num - 7);
    }
    out.extend(extra);
    out
}

fn text(s: &str) -> Vec<u8> {
    let mut v = ctrl(2, s.len());
    v.extend(s.as_bytes());
    v
}

fn double(f: f64) -> Vec<u8> {
    let mut v = ctrl(3, 8);
    v.extend(f.to_be_bytes());
    v
}

fn uint16(n: u16) -> Vec<u8> {
    let mut v = ctrl(5, 2);
    v.extend(n.to_be_bytes());
    v
}

fn uint32(n: u32) -> Vec<u8> {
    let mut v = ctrl(6, 4);
    v.extend(n.to_be_bytes());
    v
}

fn uint64(n: u64) -> Vec<u8> {
    let mut v = ctrl(9, 8);
    v.extend(n.to_be_bytes());
    v
}

fn boolean(b: bool) -> Vec<u8> {
    ctrl(14, b as usize)
}

fn map(entries: Vec<(&str, Vec<u8>)>) -> Vec<u8> {
    let mut v = ctrl(7, entries.len());
    for (k, val) in entries {
        v.extend(text(k));
        v.extend(val);
    }
    v
}

fn array(items: Vec<Vec<u8>>) -> Vec<u8> {
    let mut v = ctrl(11, items.len());
    for item in items {
        v.extend(item);
    }
    v
}

fn names(en: &str) -> Vec<u8> {
    map(vec![("en", text(en))])
}

fn database(record: Vec<u8>) -> Vec<u8> {
    let node_count: u32 = 1;
    let data_pointer = node_count + 16;
    let mut tree = Vec::new();
    tree.extend(&data_pointer.to_be_bytes()[1..]);
    tree.extend(&node_count.to_be_bytes()[1..]);
    database_with(node_count, tree, record)
}

fn database_with(node_count: u32, tree: Vec<u8>, record: Vec<u8>) -> Vec<u8> {
    let mut db = tree;
    db.extend([0u8; 16]);
    db.extend(record);
    db.extend(b"\xab\xcd\xefMaxMind.com");
    db.extend(map(vec![
        ("binary_format_major_version", uint16(2)),
        ("binary_format_minor_version", uint16(0)),
        ("build_epoch", uint64(1_700_000_000)),
        ("database_type", text("Test")),
        ("description", map(vec![("en", text("test database"))])),
        ("ip_version", uint16(6)),
        ("languages", array(vec![text("en")])),
        ("node_count", uint32(node_count)),
        ("record_size", uint16(24)),
    ]));
    db
}

fn elbonia() -> Vec<u8> {
    database(map(vec![
        ("city", map(vec![("names", names("Bornyasherk"))])),
        (
            "country",
            map(vec![
                ("iso_code", text("US")),
                ("is_in_european_union", boolean(true)),
                ("names", names("Elbonia")),
            ]),
        ),
        (
            "location",
            map(vec![
                ("latitude", double(63.416667)),
                ("longitude", double(10.416667)),
                ("metro_code", uint16(1234)),
                ("time_zone", text("Europe/Bornyasherk")),
            ]),
        ),
        ("postal", map(vec![("code", text("1234"))])),
        (
            "subdivisions",
            array(vec![map(vec![("iso_code", text("NE")), ("names", names("North Elbonia"))])]),
        ),
        ("autonomous_system_number", uint32(59795)),
        ("autonomous_system_organization", text("Hosting4Real")),
    ]))
}

fn registered_only() -> Vec<u8> {
    database(map(vec![
        ("registered_country", map(vec![("iso_code", text("SE")), ("names", names("Sweden"))])),
        ("autonomous_system_number", uint32(0)),
    ]))
}

fn found() -> IpAddress {
    parse_ip("127.0.0.1").unwrap()
}

fn missing() -> IpAddress {
    parse_ip("8000::1").unwrap()
}

#[test]
fn maxmind_reads_every_field() {
    let p = MaxmindProvider::open(Some(elbonia()), Some(elbonia()), Some(elbonia())).unwrap();
    assert!(!p.is_empty());

    let c = p.country(found()).unwrap();
    assert_eq!(c.name, "Elbonia");
    assert_eq!(c.iso, "US");
    assert!(c.is_eu);

    let t = p.city(found()).unwrap();
    assert_eq!(t.name, "Bornyasherk");
    assert_eq!(t.region_name, "North Elbonia");
    assert_eq!(t.region_code, "NE");
    assert_eq!(f64::from_bits(t.latitude.bits), 63.416667);
    assert_eq!(f64::from_bits(t.longitude.bits), 10.416667);
    assert_eq!(t.metro_code, 1234);
    assert_eq!(t.timezone, "Europe/Bornyasherk");
    assert_eq!(t.postal_code, "1234");

    let a = p.asn(found()).unwrap();
    assert_eq!(a.number, 59795);
    assert_eq!(a.organization, "Hosting4Real");
}

#[test]
fn maxmind_missing_address_has_no_answer() {
    let p = MaxmindProvider::open(Some(elbonia()), Some(elbonia()), Some(elbonia())).unwrap();
    assert!(p.country(missing()).is_none());
    assert!(p.city(missing()).is_none());
    assert!(p.asn(missing()).is_none());
}

#[test]
fn maxmind_without_a_database_has_no_answer() {
    let p = MaxmindProvider::open(None, Some(elbonia()), None).unwrap();
    assert!(p.country(found()).is_none());
    assert!(p.city(found()).is_some());
    assert!(p.asn(found()).is_none());
}

#[test]
fn maxmind_falls_back_to_registered_country() {
    let p = MaxmindProvider::open(Some(registered_only()), Some(registered_only()), Some(registered_only()))
        .unwrap();
    let c = p.country(found()).unwrap();
    assert_eq!(c.name, "Sweden");
    assert_eq!(c.iso, "SE");
    assert!(!c.is_eu);
    let t = p.city(found()).unwrap();
    assert_eq!(t.name, "");
    assert_eq!(t.metro_code, 0);
    let a = p.asn(found()).unwrap();
    assert_eq!(a.number, 0);
}

#[test]
fn ip66_answers_country_and_asn_only() {
    let p = Ip66Provider::open(elbonia()).unwrap();
    assert!(!p.is_empty());
    let c = p.country(found()).unwrap();
    assert_eq!(c.name, "Elbonia");
    assert_eq!(c.iso, "US");
    assert!(!c.is_eu);
    assert!(p.city(found()).is_none());
    let a = p.asn(found()).unwrap();
    assert_eq!(a.number, 59795);
    assert_eq!(a.organization, "Hosting4Real");
    assert!(p.country(missing()).is_none());
    assert!(p.asn(missing()).is_none());
}

#[test]
fn ip66_skips_empty_answers() {
    let p = Ip66Provider::open(registered_only()).unwrap();
    assert_eq!(p.country(found()).unwrap().name, "Sweden");
    assert!(p.asn(found()).is_none());
}

#[test]
fn composite_prefers_maxmind_then_ip66() {
    let m = MaxmindProvider::open(Some(registered_only()), None, Some(registered_only())).unwrap();
    let i = Ip66Provider::open(elbonia()).unwrap();
    let p = build_provider(Some(m), Some(i));
    assert!(!p.is_empty());
    assert_eq!(p.country(found()).unwrap().name, "Sweden");
    assert_eq!(p.asn(found()).unwrap().organization, "Hosting4Real");
    assert!(p.city(found()).is_none());
}

#[test]
fn validate_accepts_database() {
    assert!(validate_mmdb("x.mmdb", elbonia()).is_ok());
}

#[test]
fn layout_check_accepts_a_sound_database() {
    assert!(check_mmdb(&elbonia()));
    assert!(check_mmdb(b"no marker at all"));
}

#[test]
fn tree_longer_than_the_file_is_refused() {
    // Metadata claims a thousand nodes, but the tree holds one.
    let tree = vec![0, 0, 0x11, 0, 0, 1];
    let db = database_with(1000, tree, map(vec![("a", text("b"))]));
    assert!(!check_mmdb(&db));
    let e = Ip66Provider::open(db.clone()).err().unwrap();
    assert_eq!(e, "unsupported or damaged MaxMind DB layout");
    assert_eq!(
        MaxmindProvider::open(None, Some(db), None).err().unwrap(),
        "unsupported or damaged MaxMind DB layout"
    );
}

#[test]
fn record_inside_the_separator_is_refused() {
    // A record of 5 points neither at a node (below 1) nor past the separator (17 and up).
    let tree = vec![0, 0, 5, 0, 0, 1];
    let db = database_with(1, tree, map(vec![("a", text("b"))]));
    assert!(!check_mmdb(&db));
    assert!(validate_mmdb("x", db).is_err());
}

#[test]
fn first_failing_database_is_reported() {
    let e = MaxmindProvider::open(Some(elbonia()), Some(b"junk".to_vec()), Some(vec![0xab, 0xcd])).err().unwrap();
    let city_error = Ip66Provider::open(b"junk".to_vec()).err().unwrap();
    assert_eq!(e, city_error);
}

#[test]
fn record_into_the_middle_of_a_value_is_refused() {
    // The data section is the map {"a": "b"}; a record of 1 + 16 + 2 points to
    // offset 2, the letter inside the key, where 1 + 16 + 1 would point to the key.
    let tree = vec![0, 0, 19, 0, 0, 1];
    let db = database_with(1, tree, map(vec![("a", text("b"))]));
    assert!(!check_mmdb(&db));
    let tree = vec![0, 0, 18, 0, 0, 1];
    assert!(check_mmdb(&database_with(1, tree, map(vec![("a", text("b"))]))));
}

#[test]
fn pointer_must_land_on_a_value() {
    // {"a": pointer to offset 1}: offset 1 starts the key "a", a value of its own.
    let mut sound = ctrl(7, 1);
    sound.extend(text("a"));
    sound.extend([0x20, 0x01]);
    assert!(check_mmdb(&database(sound)));
    // The same pointer to offset 2 lands inside the key's text.
    let mut broken = ctrl(7, 1);
    broken.extend(text("a"));
    broken.extend([0x20, 0x02]);
    assert!(!check_mmdb(&database(broken)));
}

#[test]
fn extended_type_past_the_last_is_refused() {
    // {"a": <control byte 0x00, type byte 0xf9>}: the reader would add 7 to
    // 0xf9 in a u8 while decoding this record.
    let mut rec = ctrl(7, 1);
    rec.extend(text("a"));
    rec.extend([0x00, 0xF9]);
    let db = database(rec);
    assert!(!check_mmdb(&db));
    assert_eq!(Ip66Provider::open(db).err().unwrap(), "unsupported or damaged MaxMind DB layout");
}

#[test]
fn pointer_into_its_own_map_is_refused() {
    // {"a": pointer to offset 0}: the pointer leads back into the map that
    // holds it, and skipping the field would never end.
    let mut rec = ctrl(7, 1);
    rec.extend(text("a"));
    rec.extend([0x20, 0x00]);
    assert!(!check_mmdb(&database(rec)));
}

#[test]
fn pointer_forward_is_refused_and_back_is_kept() {
    // {"a": pointer to offset 5} followed by "z" at offset 5: the target has
    // not ended where the pointer stands.
    let mut forward = ctrl(7, 1);
    forward.extend(text("a"));
    forward.extend([0x20, 0x05]);
    forward.extend(text("z"));
    assert!(!check_mmdb(&database(forward)));
    // "z" at offset 0, then {"a": pointer to offset 0} at offset 2, which the
    // tree record points to: a shared value written before its use.
    let mut back = text("z");
    back.extend(ctrl(7, 1));
    back.extend(text("a"));
    back.extend([0x20, 0x00]);
    let tree = vec![0, 0, 19, 0, 0, 1];
    let db = database_with(1, tree, back);
    assert!(check_mmdb(&db));
    assert!(Ip66Provider::open(db).is_ok());
}

#[test]
fn nesting_past_the_bound_is_refused() {
    let mut deep = Vec::new();
    for _ in 0..600 {
        deep.extend(ctrl(11, 1));
    }
    deep.extend(text("x"));
    assert!(!check_mmdb(&database(deep)));
    let mut shallow = Vec::new();
    for _ in 0..100 {
        shallow.extend(ctrl(11, 1));
    }
    shallow.extend(text("x"));
    assert!(check_mmdb(&database(shallow)));
}

fn database_with_metadata_entry(key: &str, value: Vec<u8>) -> Vec<u8> {
    let mut db = vec![0, 0, 0x11, 0, 0, 1];
    db.extend([0u8; 16]);
    db.extend(map(vec![("country", map(vec![("iso_code", text("SE")), ("names", names("Sweden"))]))]));
    db.extend(b"\xab\xcd\xefMaxMind.com");
    db.extend(map(vec![
        ("binary_format_major_version", uint16(2)),
        ("binary_format_minor_version", uint16(0)),
        ("build_epoch", uint64(1_700_000_000)),
        ("database_type", text("Test")),
        ("description", map(vec![("en", text("test database"))])),
        (key, value),
        ("ip_version", uint16(6)),
        ("languages", array(vec![text("en")])),
        ("node_count", uint32(1)),
        ("record_size", uint16(24)),
    ]));
    db
}

#[test]
fn nested_metadata_is_read() {
    let nested = map(vec![("a", map(vec![("b", array(vec![uint16(1), map(vec![("c", text("d"))])]))]))]);
    let db = database_with_metadata_entry("extra", nested);
    assert!(check_mmdb(&db));
    let p = Ip66Provider::open(db).unwrap();
    assert_eq!(p.country(found()).unwrap().iso, "SE");
}

#[test]
fn pointer_in_metadata_is_refused() {
    let db = database_with_metadata_entry("extra", vec![0x20, 0x00]);
    assert!(!check_mmdb(&db));
}
