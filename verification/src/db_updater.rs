//! Database downloads and the choice of geo providers: credentials, download
//! addresses, the member of an archive that holds a database, and which
//! databases back the provider.
use vstd::prelude::*;

use crate::geo::composite::{
    asn_has_data, city_has_data, country_has_data, first_asn, first_city, first_country,
    CompositeProvider,
};
use crate::geo::ip66::Ip66Provider;
use crate::geo::maxmind::MaxmindProvider;
use crate::geo::{Asn, AsnView, City, CityView, Country, CountryView, GeoProvider};
use crate::ip::IpAddress;

verus! {

/// How to authenticate to MaxMind.
#[derive(Debug, Clone)]
pub enum MaxmindAuth {
    /// Legacy API: the license key as a query parameter.
    LegacyKey(String),
    /// New API: HTTP basic authentication with account ID and license key.
    BasicAuth { account_id: String, license_key: String },
}

/// A value that is present and not empty.
pub open spec fn given(o: Option<String>) -> bool {
    o is Some && o->0@.len() > 0
}

fn is_given(o: &Option<String>) -> (r: bool)
    ensures
        r == given(*o),
{
    match o {
        Some(s) => !s.as_str().is_empty(),
        None => false,
    }
}

impl MaxmindAuth {
    /// Picks the credentials from the values of `MAXMIND_ACCOUNT_ID`,
    /// `MAXMIND_LICENSE_KEY` and `GEOIP_LICENSE_KEY` (empty values count as
    /// absent): the new API when account ID and license key are both given,
    /// else the legacy API when its key is given, else none.
    pub fn from_values(
        account_id: Option<String>,
        license_key: Option<String>,
        legacy_key: Option<String>,
    ) -> (r: Option<MaxmindAuth>)
        ensures
            given(account_id) && given(license_key) ==> (r matches Some(
                MaxmindAuth::BasicAuth { account_id: id, license_key: key },
            ) && id@ == account_id->0@ && key@ == license_key->0@),
            !(given(account_id) && given(license_key)) && given(legacy_key) ==> (r matches Some(
                MaxmindAuth::LegacyKey(key),
            ) && key@ == legacy_key->0@),
            !(given(account_id) && given(license_key)) && !given(legacy_key) ==> r is None,
    {
        if is_given(&account_id) && is_given(&license_key) {
            match (account_id, license_key) {
                (Some(id), Some(key)) => Some(MaxmindAuth::BasicAuth { account_id: id, license_key: key }),
                _ => None,
            }
        } else if is_given(&legacy_key) {
            match legacy_key {
                Some(key) => Some(MaxmindAuth::LegacyKey(key)),
                None => None,
            }
        } else {
            None
        }
    }
}

/// The credentials for a MaxMind download; without them, a validation error.
pub fn require_credentials(auth: &Option<MaxmindAuth>) -> (r: Result<&MaxmindAuth, DbUpdateError>)
    ensures
        match auth {
            Some(a) => r == Ok::<&MaxmindAuth, DbUpdateError>(a),
            None => r matches Err(DbUpdateError::Validation(m)) && m@ == "No MaxMind credentials configured"@,
        },
{
    proof {
        broadcast use vstd::string::group_string_axioms;
    }
    match auth {
        Some(a) => Ok(a),
        None => Err(DbUpdateError::Validation("No MaxMind credentials configured".to_string())),
    }
}

/// The paths of the databases that were downloaded.
#[derive(Debug, Default)]
pub struct DownloadResult {
    pub country_path: Option<String>,
    pub city_path: Option<String>,
    pub asn_path: Option<String>,
    pub ip66_path: Option<String>,
}

/// The view of an optional text.
pub open spec fn opt_text(o: Option<String>) -> Option<Seq<char>> {
    match o {
        Some(s) => Some(s@),
        None => None,
    }
}

/// The path that a download gave, if it succeeded.
pub open spec fn ok_text(o: Result<String, DbUpdateError>) -> Option<Seq<char>> {
    match o {
        Ok(p) => Some(p@),
        Err(_) => None,
    }
}

/// The path of the `i`-th MaxMind download, when there is one and it succeeded.
pub open spec fn nth_path(outcomes: Seq<Result<String, DbUpdateError>>, i: int) -> Option<Seq<char>> {
    if 0 <= i < outcomes.len() {
        ok_text(outcomes[i])
    } else {
        None
    }
}

fn path_of(o: &Result<String, DbUpdateError>) -> (r: Option<String>)
    ensures
        opt_text(r) == ok_text(*o),
{
    proof {
        broadcast use vstd::string::group_string_axioms;
    }
    match o {
        Ok(p) => Some(p.as_str().to_string()),
        Err(_) => None,
    }
}

/// What a round of downloads leaves: the paths of the MaxMind editions (in
/// the order country, city, ASN, as `maxmind_editions` gives them) and of the
/// ip66.dev database whose downloads succeeded; a failed or missing download
/// leaves its path out.
pub fn download_result(
    maxmind: &Vec<Result<String, DbUpdateError>>,
    ip66: &Result<String, DbUpdateError>,
) -> (r: DownloadResult)
    ensures
        opt_text(r.country_path) == nth_path(maxmind@, 0),
        opt_text(r.city_path) == nth_path(maxmind@, 1),
        opt_text(r.asn_path) == nth_path(maxmind@, 2),
        opt_text(r.ip66_path) == ok_text(*ip66),
{
    let country_path = if maxmind.len() > 0 { path_of(&maxmind[0]) } else { None };
    let city_path = if maxmind.len() > 1 { path_of(&maxmind[1]) } else { None };
    let asn_path = if maxmind.len() > 2 { path_of(&maxmind[2]) } else { None };
    DownloadResult { country_path, city_path, asn_path, ip66_path: path_of(ip66) }
}

/// The database path to use: the one given on the command line, else the
/// downloaded one.
pub fn resolve_paths(cli_path: &str, downloaded: &Option<String>) -> (r: Option<String>)
    ensures
        cli_path@.len() > 0 ==> opt_text(r) == Some(cli_path@),
        cli_path@.len() == 0 ==> opt_text(r) == opt_text(*downloaded),
{
    proof {
        broadcast use vstd::string::group_string_axioms;
    }
    if !cli_path.is_empty() {
        return Some(cli_path.to_string());
    }
    match downloaded {
        Some(p) => Some(p.as_str().to_string()),
        None => None,
    }
}

/// The address of the ip66.dev database.
pub const IP66_URL: &'static str = "https://downloads.ip66.dev/db/ip66.mmdb";

/// A download to make: the address and, for the new API, the basic
/// authentication credentials.
#[derive(Debug)]
pub struct DownloadRequest {
    pub url: String,
    pub basic_auth: Option<(String, String)>,
}

/// The download address of a MaxMind edition under the new API.
pub open spec fn new_api_url(edition: Seq<char>) -> Seq<char> {
    "https://download.maxmind.com/geoip/databases/"@ + edition + "/download?suffix=tar.gz"@
}

/// The download address of a MaxMind edition under the legacy API.
pub open spec fn legacy_url(edition: Seq<char>, key: Seq<char>) -> Seq<char> {
    "https://download.maxmind.com/app/geoip_download?edition_id="@ + edition + "&license_key="@ + key
        + "&suffix=tar.gz"@
}

/// The request for the `tar.gz` archive of a MaxMind edition: the new API
/// with basic authentication, or the legacy API with the key in the query.
pub fn maxmind_request(auth: &MaxmindAuth, edition_id: &str) -> (r: DownloadRequest)
    ensures
        match auth {
            MaxmindAuth::BasicAuth { account_id, license_key } => r.url@ == new_api_url(edition_id@)
                && (r.basic_auth matches Some((id, key)) && id@ == account_id@ && key@ == license_key@),
            MaxmindAuth::LegacyKey(key) => r.url@ == legacy_url(edition_id@, key@) && r.basic_auth is None,
        },
{
    proof {
        broadcast use vstd::string::group_string_axioms;
    }
    match auth {
        MaxmindAuth::BasicAuth { account_id, license_key } => {
            let mut url = "https://download.maxmind.com/geoip/databases/".to_string();
            url.append(edition_id);
            url.append("/download?suffix=tar.gz");
            DownloadRequest {
                url,
                basic_auth: Some((account_id.clone(), license_key.clone())),
            }
        },
        MaxmindAuth::LegacyKey(key) => {
            let mut url = "https://download.maxmind.com/app/geoip_download?edition_id=".to_string();
            url.append(edition_id);
            url.append("&license_key=");
            url.append(key.as_str());
            url.append("&suffix=tar.gz");
            DownloadRequest { url, basic_auth: None }
        },
    }
}

/// The MaxMind editions to download: country, city and ASN when there are
/// credentials, none otherwise.
pub fn maxmind_editions(auth: &Option<MaxmindAuth>) -> (r: Vec<&'static str>)
    ensures
        auth is Some ==> r@.len() == 3 && r@[0]@ == "GeoLite2-Country"@ && r@[1]@ == "GeoLite2-City"@
            && r@[2]@ == "GeoLite2-ASN"@,
        auth is None ==> r@.len() == 0,
{
    let mut v: Vec<&'static str> = Vec::new();
    if auth.is_some() {
        v.push("GeoLite2-Country");
        v.push("GeoLite2-City");
        v.push("GeoLite2-ASN");
    }
    v
}

/// The file name of a downloaded edition.
pub fn mmdb_file_name(edition_id: &str) -> (r: String)
    ensures
        r@ == edition_id@ + ".mmdb"@,
{
    proof {
        broadcast use vstd::string::group_string_axioms;
    }
    let mut s = edition_id.to_string();
    s.append(".mmdb");
    s
}

/// The name under which a download is written before it is checked.
pub fn temporary_name(file_name: &str) -> (r: String)
    ensures
        r@ == file_name@ + ".tmp"@,
{
    proof {
        broadcast use vstd::string::group_string_axioms;
    }
    let mut s = file_name.to_string();
    s.append(".tmp");
    s
}

/// The first of two country answers that carries data.
pub open spec fn first_with_country(a: Option<CountryView>, b: Option<CountryView>) -> Option<CountryView> {
    if a is Some && country_has_data(a->0) {
        a
    } else if b is Some && country_has_data(b->0) {
        b
    } else {
        None
    }
}

/// The first of two city answers that carries data.
pub open spec fn first_with_city(a: Option<CityView>, b: Option<CityView>) -> Option<CityView> {
    if a is Some && city_has_data(a->0) {
        a
    } else if b is Some && city_has_data(b->0) {
        b
    } else {
        None
    }
}

/// The first of two ASN answers that carries data.
pub open spec fn first_with_asn(a: Option<AsnView>, b: Option<AsnView>) -> Option<AsnView> {
    if a is Some && asn_has_data(a->0) {
        a
    } else if b is Some && asn_has_data(b->0) {
        b
    } else {
        None
    }
}

/// One database-backed provider.
pub enum Source {
    Maxmind(MaxmindProvider),
    Ip66(Ip66Provider),
}

/// The provider behind the lookups: one source alone, or several asked in
/// turn.
pub enum Provider {
    Single(Source),
    Composite(CompositeProvider<Source>),
}

impl GeoProvider for Source {
    open spec fn country_of(&self, ip: IpAddress) -> Option<CountryView> {
        match self {
            Source::Maxmind(p) => p.country_of(ip),
            Source::Ip66(p) => p.country_of(ip),
        }
    }

    open spec fn city_of(&self, ip: IpAddress) -> Option<CityView> {
        match self {
            Source::Maxmind(p) => p.city_of(ip),
            Source::Ip66(p) => p.city_of(ip),
        }
    }

    open spec fn asn_of(&self, ip: IpAddress) -> Option<AsnView> {
        match self {
            Source::Maxmind(p) => p.asn_of(ip),
            Source::Ip66(p) => p.asn_of(ip),
        }
    }

    open spec fn holds_no_data(&self) -> bool {
        match self {
            Source::Maxmind(p) => p.holds_no_data(),
            Source::Ip66(p) => p.holds_no_data(),
        }
    }

    fn country(&self, ip: IpAddress) -> (r: Option<Country>) {
        match self {
            Source::Maxmind(p) => p.country(ip),
            Source::Ip66(p) => p.country(ip),
        }
    }

    fn city(&self, ip: IpAddress) -> (r: Option<City>) {
        match self {
            Source::Maxmind(p) => p.city(ip),
            Source::Ip66(p) => p.city(ip),
        }
    }

    fn asn(&self, ip: IpAddress) -> (r: Option<Asn>) {
        match self {
            Source::Maxmind(p) => p.asn(ip),
            Source::Ip66(p) => p.asn(ip),
        }
    }

    fn is_empty(&self) -> (r: bool) {
        match self {
            Source::Maxmind(p) => p.is_empty(),
            Source::Ip66(p) => p.is_empty(),
        }
    }
}

impl GeoProvider for Provider {
    open spec fn country_of(&self, ip: IpAddress) -> Option<CountryView> {
        match self {
            Provider::Single(p) => p.country_of(ip),
            Provider::Composite(p) => p.country_of(ip),
        }
    }

    open spec fn city_of(&self, ip: IpAddress) -> Option<CityView> {
        match self {
            Provider::Single(p) => p.city_of(ip),
            Provider::Composite(p) => p.city_of(ip),
        }
    }

    open spec fn asn_of(&self, ip: IpAddress) -> Option<AsnView> {
        match self {
            Provider::Single(p) => p.asn_of(ip),
            Provider::Composite(p) => p.asn_of(ip),
        }
    }

    open spec fn holds_no_data(&self) -> bool {
        match self {
            Provider::Single(p) => p.holds_no_data(),
            Provider::Composite(p) => p.holds_no_data(),
        }
    }

    fn country(&self, ip: IpAddress) -> (r: Option<Country>) {
        match self {
            Provider::Single(p) => p.country(ip),
            Provider::Composite(p) => p.country(ip),
        }
    }

    fn city(&self, ip: IpAddress) -> (r: Option<City>) {
        match self {
            Provider::Single(p) => p.city(ip),
            Provider::Composite(p) => p.city(ip),
        }
    }

    fn asn(&self, ip: IpAddress) -> (r: Option<Asn>) {
        match self {
            Provider::Single(p) => p.asn(ip),
            Provider::Composite(p) => p.asn(ip),
        }
    }

    fn is_empty(&self) -> (r: bool) {
        match self {
            Provider::Single(p) => p.is_empty(),
            Provider::Composite(p) => p.is_empty(),
        }
    }
}

/// The provider that answers lookups from the databases that could be
/// opened: MaxMind and ip66.dev, asked in that order, where both are there
/// (the first answer with data wins); the one that is there, answering
/// alone; an empty MaxMind provider, answering nothing, where neither is.
pub fn build_provider(maxmind: Option<MaxmindProvider>, ip66: Option<Ip66Provider>) -> (r: Provider)
    ensures
        maxmind is None && ip66 is None ==> r.holds_no_data(),
        maxmind is None && ip66 is None ==> (forall|ip: IpAddress|
            r.country_of(ip) is None && r.city_of(ip) is None && r.asn_of(ip) is None),
        maxmind is Some && ip66 is None ==> (forall|ip: IpAddress|
            r.country_of(ip) == maxmind->0.country_of(ip) && r.city_of(ip) == maxmind->0.city_of(ip)
                && r.asn_of(ip) == maxmind->0.asn_of(ip)),
        maxmind is None && ip66 is Some ==> (forall|ip: IpAddress|
            r.country_of(ip) == ip66->0.country_of(ip) && r.city_of(ip) == ip66->0.city_of(ip)
                && r.asn_of(ip) == ip66->0.asn_of(ip)),
        maxmind is Some && ip66 is Some ==> (forall|ip: IpAddress|
            r.country_of(ip) == first_with_country(maxmind->0.country_of(ip), ip66->0.country_of(ip))
                && r.city_of(ip) == first_with_city(maxmind->0.city_of(ip), ip66->0.city_of(ip))
                && r.asn_of(ip) == first_with_asn(maxmind->0.asn_of(ip), ip66->0.asn_of(ip))),
        r.holds_no_data() == (ip66 is None && (maxmind is None || maxmind->0.holds_no_data())),
{
    match (maxmind, ip66) {
        (None, None) => Provider::Single(Source::Maxmind(MaxmindProvider::new(None, None, None))),
        (Some(m), None) => Provider::Single(Source::Maxmind(m)),
        (None, Some(i)) => Provider::Single(Source::Ip66(i)),
        (Some(m), Some(i)) => {
            let ghost gm = m;
            let ghost gi = i;
            let mut providers: Vec<Source> = Vec::new();
            providers.push(Source::Maxmind(m));
            providers.push(Source::Ip66(i));
            let c = CompositeProvider::new(providers);
            proof {
                let ps = c.providers();
                assert(ps[0] == Source::Maxmind(gm));
                assert(ps.drop_first()[0] == Source::Ip66(gi));
                assert(ps.drop_first().drop_first().len() == 0);
                assert(!ps[1].holds_no_data());
                assert forall|ip: IpAddress|
                    #[trigger] c.country_of(ip) == first_with_country(gm.country_of(ip), gi.country_of(ip))
                        && c.city_of(ip) == first_with_city(gm.city_of(ip), gi.city_of(ip))
                        && c.asn_of(ip) == first_with_asn(gm.asn_of(ip), gi.asn_of(ip)) by {
                    reveal_with_fuel(first_country, 3);
                    reveal_with_fuel(first_city, 3);
                    reveal_with_fuel(first_asn, 3);
                }
            }
            Provider::Composite(c)
        },
    }
}

/// The database paths to open: the MaxMind paths that are given and not
/// empty (none at all when every one is missing or empty), and the ip66.dev
/// path when given and not empty.
pub struct ProviderPaths {
    pub maxmind: Option<(Option<String>, Option<String>, Option<String>)>,
    pub ip66: Option<String>,
}

/// A path that is given and not empty.
pub open spec fn nonempty_path(p: Option<&str>) -> Option<Seq<char>> {
    match p {
        Some(s) => if s@.len() > 0 { Some(s@) } else { None },
        None => None,
    }
}

fn keep_nonempty(p: Option<&str>) -> (r: Option<String>)
    ensures
        opt_text(r) == nonempty_path(p),
{
    proof {
        broadcast use vstd::string::group_string_axioms;
    }
    match p {
        Some(s) => if s.is_empty() { None } else { Some(s.to_string()) },
        None => None,
    }
}

/// The paths that `provider_paths` chooses, as text: the MaxMind triple
/// (absent where no MaxMind path is given and not empty) and the ip66.dev path.
pub open spec fn chosen_paths(
    country: Option<&str>,
    city: Option<&str>,
    asn: Option<&str>,
    ip66: Option<&str>,
) -> (Option<(Option<Seq<char>>, Option<Seq<char>>, Option<Seq<char>>)>, Option<Seq<char>>) {
    let (c, t, a) = (nonempty_path(country), nonempty_path(city), nonempty_path(asn));
    (if c is None && t is None && a is None { None } else { Some((c, t, a)) }, nonempty_path(ip66))
}

impl ProviderPaths {
    /// The chosen paths as text.
    pub open spec fn paths(&self) -> (
        Option<(Option<Seq<char>>, Option<Seq<char>>, Option<Seq<char>>)>,
        Option<Seq<char>>,
    ) {
        (
            match self.maxmind {
                Some((c, t, a)) => Some((opt_text(c), opt_text(t), opt_text(a))),
                None => None,
            },
            opt_text(self.ip66),
        )
    }
}

/// An empty path counts as no path: in every position, `provider_paths`
/// chooses with `Some("")` exactly the paths it chooses with `None`.
pub proof fn law_empty_path_is_no_path(
    s: &str,
    country: Option<&str>,
    city: Option<&str>,
    asn: Option<&str>,
    ip66: Option<&str>,
)
    requires
        s@.len() == 0,
    ensures
        chosen_paths(Some(s), city, asn, ip66) == chosen_paths(None, city, asn, ip66),
        chosen_paths(country, Some(s), asn, ip66) == chosen_paths(country, None, asn, ip66),
        chosen_paths(country, city, Some(s), ip66) == chosen_paths(country, city, None, ip66),
        chosen_paths(country, city, asn, Some(s)) == chosen_paths(country, city, asn, None),
{
}

/// Chooses the database paths to open; see `ProviderPaths`.
pub fn provider_paths(
    country: Option<&str>,
    city: Option<&str>,
    asn: Option<&str>,
    ip66: Option<&str>,
) -> (r: ProviderPaths)
    ensures
        r.paths() == chosen_paths(country, city, asn, ip66),
        (nonempty_path(country) is None && nonempty_path(city) is None && nonempty_path(asn) is None)
            ==> r.maxmind is None,
        !(nonempty_path(country) is None && nonempty_path(city) is None && nonempty_path(asn) is None)
            ==> (r.maxmind matches Some((c, t, a)) && opt_text(c) == nonempty_path(country) && opt_text(t)
            == nonempty_path(city) && opt_text(a) == nonempty_path(asn)),
        opt_text(r.ip66) == nonempty_path(ip66),
{
    let c = keep_nonempty(country);
    let t = keep_nonempty(city);
    let a = keep_nonempty(asn);
    let maxmind = if c.is_none() && t.is_none() && a.is_none() {
        None
    } else {
        Some((c, t, a))
    };
    ProviderPaths { maxmind, ip66: keep_nonempty(ip66) }
}

/// Why a database could not be brought up to date.
#[derive(Debug)]
pub enum DbUpdateError {
    /// The HTTP request failed.
    Http(String),
    /// Reading or writing failed.
    Io(String),
    /// The archive of an edition has no `.mmdb` member.
    MmdbNotFound(String),
    /// The downloaded file is not a valid database.
    Validation(String),
}

impl DbUpdateError {
    /// The description of the error.
    pub fn message(&self) -> (r: String)
        ensures
            r@ == match self {
                DbUpdateError::Http(m) => "HTTP request failed: "@ + m@,
                DbUpdateError::Io(m) => "IO error: "@ + m@,
                DbUpdateError::MmdbNotFound(m) => "No .mmdb file found in archive for "@ + m@,
                DbUpdateError::Validation(m) => "Downloaded file is not a valid MMDB: "@ + m@,
            },
    {
        proof {
            broadcast use vstd::string::group_string_axioms;
        }
        let (mut s, m) = match self {
            DbUpdateError::Http(m) => ("HTTP request failed: ".to_string(), m),
            DbUpdateError::Io(m) => ("IO error: ".to_string(), m),
            DbUpdateError::MmdbNotFound(m) => ("No .mmdb file found in archive for ".to_string(), m),
            DbUpdateError::Validation(m) => ("Downloaded file is not a valid MMDB: ".to_string(), m),
        };
        s.append(m.as_str());
        s
    }
}

/// The error of a MaxMind download whose request could not be sent; the
/// detail leaves out the address, which holds the license key.
pub fn request_failed(edition_id: &str, detail: &str) -> (r: DbUpdateError)
    ensures
        r matches DbUpdateError::Validation(m) && m@ == "HTTP request failed for "@ + edition_id@ + ": "@
            + detail@,
{
    proof {
        broadcast use vstd::string::group_string_axioms;
    }
    let mut m = "HTTP request failed for ".to_string();
    m.append(edition_id);
    m.append(": ");
    m.append(detail);
    DbUpdateError::Validation(m)
}

/// The error of a MaxMind download answered with an unsuccessful status.
pub fn maxmind_status_error(status: &str, edition_id: &str, body: &str) -> (r: DbUpdateError)
    ensures
        r matches DbUpdateError::Validation(m) && m@ == "MaxMind returned "@ + status@ + " for "@
            + edition_id@ + ": "@ + body@,
{
    proof {
        broadcast use vstd::string::group_string_axioms;
    }
    let mut m = "MaxMind returned ".to_string();
    m.append(status);
    m.append(" for ");
    m.append(edition_id);
    m.append(": ");
    m.append(body);
    DbUpdateError::Validation(m)
}

/// The error of an ip66.dev download answered with an unsuccessful status.
pub fn ip66_status_error(status: &str) -> (r: DbUpdateError)
    ensures
        r matches DbUpdateError::Validation(m) && m@ == "ip66.dev returned "@ + status@,
{
    proof {
        broadcast use vstd::string::group_string_axioms;
    }
    let mut m = "ip66.dev returned ".to_string();
    m.append(status);
    DbUpdateError::Validation(m)
}

/// Checks that the bytes of the file at `path` are a database that opens; a
/// refusal is a validation error whose message is the path, `: ` and the
/// reason (see `open_failure`).
pub fn validate_mmdb(path: &str, bytes: Vec<u8>) -> (r: Result<(), DbUpdateError>)
    ensures
        match crate::geo::mmdb::open_failure(bytes@) {
            None => r is Ok,
            Some(reason) => r matches Err(DbUpdateError::Validation(m)) && m@ == path@ + ": "@ + reason,
        },
{
    proof {
        broadcast use vstd::string::group_string_axioms;
    }
    proof {
        reveal_strlit(": ");
    }
    match crate::geo::mmdb::open_checked(bytes) {
        Ok(_) => Ok(()),
        Err(e) => {
            let mut m = path.to_string();
            m.append(": ");
            m.append(e.as_str());
            Err(DbUpdateError::Validation(m))
        },
    }
}

/// A member of an archive: its file name (empty when the path has no file
/// name or it is not UTF-8) and its contents.
pub type Member = (String, Vec<u8>);

/// Names what `tar::Archive::entries` reads from the gzip-compressed tar
/// archive `bytes` (through `flate2::read::GzDecoder`): the file names and
/// contents of the members in archive order, up to the first one that cannot
/// be read, and the message of that failure, if there is one.
pub uninterp spec fn tar_gz_members(bytes: Seq<u8>) -> (Seq<(Seq<char>, Seq<u8>)>, Option<Seq<char>>);

/// The view of a list of members.
pub open spec fn members_view(ms: Seq<Member>) -> Seq<(Seq<char>, Seq<u8>)> {
    ms.map_values(|m: Member| (m.0@, m.1@))
}

/// Reads the members of a gzip-compressed tar archive with `tar::Archive`
/// over `flate2::read::GzDecoder`, stopping at the first one that cannot be
/// read; the contract claims that the members and the failure are those
/// named by `tar_gz_members`.
#[verifier::external_body]
fn read_tar_gz(bytes: &[u8]) -> (r: (Vec<Member>, Option<String>))
    ensures
        tar_gz_members(bytes@) == (members_view(r.0@), opt_text(r.1)),
{
    let mut members = vec![];
    let mut archive = tar::Archive::new(flate2::read::GzDecoder::new(bytes));
    let entries = match archive.entries() { Ok(es) => es, Err(e) => return (members, Some(e.to_string())) };
    for entry in entries {
        match entry.and_then(|mut e| {
            let name = e.path()?.file_name().and_then(|n| n.to_str()).unwrap_or_default().to_string();
            let mut data = vec![];
            std::io::Read::read_to_end(&mut e, &mut data).map(|_| (name, data))
        }) {
            Ok(m) => members.push(m),
            Err(e) => return (members, Some(e.to_string())),
        }
    }
    (members, None)
}

/// The contents of the first member named `name`, if any.
pub open spec fn member_named(ms: Seq<(Seq<char>, Seq<u8>)>, name: Seq<char>) -> Option<Seq<u8>>
    decreases ms.len(),
{
    if ms.len() == 0 {
        None
    } else if ms[0].0 == name {
        Some(ms[0].1)
    } else {
        member_named(ms.drop_first(), name)
    }
}

/// The database of an edition in its downloaded `tar.gz` archive: the
/// contents of the first member named `{edition_id}.mmdb`. A failure to read
/// the archive before that member is an I/O error; an archive without that
/// member is `MmdbNotFound`.
pub fn find_mmdb(edition_id: &str, tar_gz: &[u8]) -> (r: Result<Vec<u8>, DbUpdateError>)
    ensures
        match member_named(tar_gz_members(tar_gz@).0, edition_id@ + ".mmdb"@) {
            Some(data) => r matches Ok(d) && d@ == data,
            None => match tar_gz_members(tar_gz@).1 {
                Some(msg) => r matches Err(DbUpdateError::Io(e)) && e@ == msg,
                None => r matches Err(DbUpdateError::MmdbNotFound(e)) && e@ == edition_id@,
            },
        },
{
    proof {
        broadcast use vstd::string::group_string_axioms;
    }
    let target = mmdb_file_name(edition_id);
    let (members, failure) = read_tar_gz(tar_gz);
    let ghost mv = members_view(members@);
    let mut i: usize = 0;
    assert(mv.skip(0) =~= mv);
    while i < members.len()
        invariant
            mv == members_view(members@),
            tar_gz_members(tar_gz@).0 == mv,
            i <= members.len(),
            target@ == edition_id@ + ".mmdb"@,
            member_named(mv, target@) == member_named(mv.skip(i as int), target@),
        decreases members.len() - i,
    {
        assert(mv.skip(i as int)[0] == mv[i as int]);
        assert(mv.skip(i as int).drop_first() =~= mv.skip(i + 1));
        if crate::text::str_eq(members[i].0.as_str(), target.as_str()) {
            let data = members[i].1.clone();
            assert(data@ =~= members@[i as int].1@);
            assert(mv[i as int].0 == target@);
            return Ok(data);
        }
        i = i + 1;
    }
    assert(mv.skip(i as int).len() == 0);
    match failure {
        Some(e) => Err(DbUpdateError::Io(e)),
        None => Err(DbUpdateError::MmdbNotFound(edition_id.to_string())),
    }
}

} // verus!
