use echoip::db_updater::{
    download_result,
    build_provider, find_mmdb, ip66_status_error, maxmind_editions, maxmind_request,
    maxmind_status_error, mmdb_file_name, provider_paths, request_failed, require_credentials, resolve_paths,
    temporary_name, validate_mmdb, DbUpdateError, MaxmindAuth, IP66_URL,
};
use echoip::geo::maxmind::MaxmindProvider;
use echoip::geo::GeoProvider;
use echoip::ip::IpAddress;

fn tar_gz(members: &[(&str, &[u8])]) -> Vec<u8> {
    let enc = flate2::write::GzEncoder::new(Vec::new(), flate2::Compression::default());
    let mut builder = tar::Builder::new(enc);
    for (path, data) in members {
        let mut header = tar::Header::new_gnu();
        header.set_size(data.len() as u64);
        header.set_mode(0o644);
        header.set_cksum();
        builder.append_data(&mut header, path, *data).unwrap();
    }
    builder.into_inner().unwrap().finish().unwrap()
}

#[test]
fn resolve_paths_prefers_cli() {
    assert_eq!(resolve_paths("/a.mmdb", &Some("/b.mmdb".to_string())), Some("/a.mmdb".to_string()));
    assert_eq!(resolve_paths("", &Some("/b.mmdb".to_string())), Some("/b.mmdb".to_string()));
    assert_eq!(resolve_paths("", &None), None);
}

#[test]
fn auth_from_values() {
    let s = |v: &str| Some(v.to_string());
    match MaxmindAuth::from_values(s("123"), s("key"), s("legacy")) {
        Some(MaxmindAuth::BasicAuth { account_id, license_key }) => {
            assert_eq!(account_id, "123");
            assert_eq!(license_key, "key");
        }
        other => panic!("unexpected {other:?}"),
    }
    match MaxmindAuth::from_values(s("123"), s(""), s("legacy")) {
        Some(MaxmindAuth::LegacyKey(k)) => assert_eq!(k, "legacy"),
        other => panic!("unexpected {other:?}"),
    }
    assert!(MaxmindAuth::from_values(None, s("key"), s("")).is_none());
    assert!(MaxmindAuth::from_values(None, None, None).is_none());
}

#[test]
fn request_urls() {
    let auth = MaxmindAuth::BasicAuth { account_id: "1".to_string(), license_key: "k".to_string() };
    let r = maxmind_request(&auth, "GeoLite2-City");
    assert_eq!(r.url, "https://download.maxmind.com/geoip/databases/GeoLite2-City/download?suffix=tar.gz");
    assert_eq!(r.basic_auth, Some(("1".to_string(), "k".to_string())));

    let auth = MaxmindAuth::LegacyKey("abc".to_string());
    let r = maxmind_request(&auth, "GeoLite2-ASN");
    assert_eq!(
        r.url,
        "https://download.maxmind.com/app/geoip_download?edition_id=GeoLite2-ASN&license_key=abc&suffix=tar.gz"
    );
    assert!(r.basic_auth.is_none());
    assert_eq!(IP66_URL, "https://downloads.ip66.dev/db/ip66.mmdb");
}

#[test]
fn editions_need_credentials() {
    assert!(maxmind_editions(&None).is_empty());
    let auth = Some(MaxmindAuth::LegacyKey("k".to_string()));
    assert_eq!(maxmind_editions(&auth), vec!["GeoLite2-Country", "GeoLite2-City", "GeoLite2-ASN"]);
}

#[test]
fn file_names() {
    assert_eq!(mmdb_file_name("GeoLite2-Country"), "GeoLite2-Country.mmdb");
    assert_eq!(temporary_name("ip66.mmdb"), "ip66.mmdb.tmp");
}

#[test]
fn error_messages() {
    assert_eq!(DbUpdateError::Http("timeout".into()).message(), "HTTP request failed: timeout");
    assert_eq!(DbUpdateError::Io("denied".into()).message(), "IO error: denied");
    assert_eq!(
        DbUpdateError::MmdbNotFound("GeoLite2-City".into()).message(),
        "No .mmdb file found in archive for GeoLite2-City"
    );
    assert_eq!(
        DbUpdateError::Validation("bad".into()).message(),
        "Downloaded file is not a valid MMDB: bad"
    );
}

#[test]
fn find_mmdb_takes_named_member() {
    let archive = tar_gz(&[
        ("GeoLite2-City_20240101/LICENSE.txt", b"license"),
        ("GeoLite2-City_20240101/GeoLite2-City.mmdb", b"city-bytes"),
    ]);
    assert_eq!(find_mmdb("GeoLite2-City", &archive).unwrap(), b"city-bytes".to_vec());
}

#[test]
fn find_mmdb_missing_member() {
    let archive = tar_gz(&[("dir/GeoLite2-ASN.mmdb", b"asn")]);
    match find_mmdb("GeoLite2-City", &archive) {
        Err(DbUpdateError::MmdbNotFound(e)) => assert_eq!(e, "GeoLite2-City"),
        other => panic!("unexpected {other:?}"),
    }
}

#[test]
fn find_mmdb_unreadable_archive() {
    match find_mmdb("GeoLite2-City", b"definitely not gzip") {
        Err(DbUpdateError::Io(_)) => {}
        other => panic!("unexpected {other:?}"),
    }
}

#[test]
fn paths_to_open() {
    let p = provider_paths(Some(""), None, Some("/asn.mmdb"), Some("/ip66.mmdb"));
    assert_eq!(p.maxmind, Some((None, None, Some("/asn.mmdb".to_string()))));
    assert_eq!(p.ip66, Some("/ip66.mmdb".to_string()));
    let p = provider_paths(Some(""), Some(""), None, Some(""));
    assert!(p.maxmind.is_none());
    assert!(p.ip66.is_none());
}

#[test]
fn provider_without_databases_is_empty() {
    let p = build_provider(None, None);
    assert!(p.is_empty());
    let ip = IpAddress::V4([1, 2, 3, 4]);
    assert!(p.country(ip).is_none());
    assert!(p.city(ip).is_none());
    assert!(p.asn(ip).is_none());
}

#[test]
fn provider_with_empty_maxmind() {
    let m = MaxmindProvider::open(None, None, None).unwrap();
    let p = build_provider(Some(m), None);
    assert!(p.is_empty());
}

#[test]
fn maxmind_open_refuses_garbage() {
    assert!(MaxmindProvider::open(Some(vec![1, 2, 3]), None, None).is_err());
    assert!(echoip::geo::ip66::Ip66Provider::open(Vec::new()).is_err());
}

#[test]
fn download_error_messages() {
    match request_failed("GeoLite2-ASN", "timed out") {
        DbUpdateError::Validation(m) => assert_eq!(m, "HTTP request failed for GeoLite2-ASN: timed out"),
        other => panic!("unexpected {other:?}"),
    }
    match maxmind_status_error("401 Unauthorized", "GeoLite2-City", "bad key") {
        DbUpdateError::Validation(m) => {
            assert_eq!(m, "MaxMind returned 401 Unauthorized for GeoLite2-City: bad key")
        }
        other => panic!("unexpected {other:?}"),
    }
    match ip66_status_error("503 Service Unavailable") {
        DbUpdateError::Validation(m) => assert_eq!(m, "ip66.dev returned 503 Service Unavailable"),
        other => panic!("unexpected {other:?}"),
    }
}

#[test]
fn validate_refuses_non_database() {
    match validate_mmdb("data/ip66.mmdb.tmp", b"not a database".to_vec()) {
        Err(DbUpdateError::Validation(m)) => assert!(m.starts_with("data/ip66.mmdb.tmp: ")),
        other => panic!("unexpected {other:?}"),
    }
}

fn noise(n: usize) -> Vec<u8> {
    let mut x: u32 = 12345;
    (0..n)
        .map(|_| {
            x = x.wrapping_mul(1103515245).wrapping_add(12345);
            (x >> 16) as u8
        })
        .collect()
}

#[test]
fn find_mmdb_ignores_damage_after_the_member() {
    let big = noise(200_000);
    let mut archive = tar_gz(&[("d/GeoLite2-City.mmdb", b"city-bytes"), ("d/big.bin", &big)]);
    archive.truncate(archive.len() / 2);
    assert_eq!(find_mmdb("GeoLite2-City", &archive).unwrap(), b"city-bytes".to_vec());
}

#[test]
fn find_mmdb_reports_damage_before_the_member() {
    let big = noise(200_000);
    let mut archive = tar_gz(&[("d/big.bin", &big), ("d/GeoLite2-City.mmdb", b"city-bytes")]);
    archive.truncate(archive.len() / 2);
    match find_mmdb("GeoLite2-City", &archive) {
        Err(DbUpdateError::Io(_)) => {}
        other => panic!("unexpected {other:?}"),
    }
}

#[test]
fn credentials_required_for_maxmind() {
    match require_credentials(&None) {
        Err(DbUpdateError::Validation(m)) => assert_eq!(m, "No MaxMind credentials configured"),
        other => panic!("unexpected {other:?}"),
    }
    let auth = Some(MaxmindAuth::LegacyKey("k".to_string()));
    assert!(matches!(require_credentials(&auth), Ok(MaxmindAuth::LegacyKey(k)) if k == "k"));
}

#[test]
fn empty_paths_are_absent() {
    let a = provider_paths(Some(""), Some("/c"), None, Some(""));
    let b = provider_paths(None, Some("/c"), Some(""), None);
    assert_eq!(a.maxmind, b.maxmind);
    assert_eq!(a.ip66, b.ip66);
}

#[test]
fn failed_downloads_leave_their_paths_out() {
    let maxmind = vec![
        Ok("/data/GeoLite2-Country.mmdb".to_string()),
        Err(DbUpdateError::Http("timeout".to_string())),
        Ok("/data/GeoLite2-ASN.mmdb".to_string()),
    ];
    let r = download_result(&maxmind, &Err(DbUpdateError::Io("disk full".to_string())));
    assert_eq!(r.country_path.as_deref(), Some("/data/GeoLite2-Country.mmdb"));
    assert_eq!(r.city_path, None);
    assert_eq!(r.asn_path.as_deref(), Some("/data/GeoLite2-ASN.mmdb"));
    assert_eq!(r.ip66_path, None);

    let r = download_result(&Vec::new(), &Ok("/data/ip66.mmdb".to_string()));
    assert_eq!(r.country_path, None);
    assert_eq!(r.city_path, None);
    assert_eq!(r.asn_path, None);
    assert_eq!(r.ip66_path.as_deref(), Some("/data/ip66.mmdb"));
}
