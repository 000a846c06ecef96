//! MaxMind DB files, read with the `maxminddb` crate: the records that a
//! database holds, by the fields that the providers use.
use vstd::prelude::*;

use maxminddb::{geoip2, Reader};

use crate::ip::IpAddress;
use super::layout::{check_mmdb, mmdb_safe};

verus! {

/// An opened MaxMind DB database: a `maxminddb::Reader` over the bytes of the
/// file. Verus refuses a declaration of `Reader` (its parameter is bounded by
/// `AsRef<[u8]>`), so the reader is held here, out of Verus's sight.
#[verifier::external_body]
pub struct Database {
    reader: Reader<Vec<u8>>,
}

/// The view of an optional text.
pub open spec fn opt_text(o: Option<String>) -> Option<Seq<char>> {
    match o {
        Some(s) => Some(s@),
        None => None,
    }
}

/// The country fields of a record: the English name, ISO code and EU
/// membership of the country, and the English name and ISO code of the
/// registered country.
#[derive(Debug)]
pub struct CountryRecord {
    pub name: Option<String>,
    pub iso_code: Option<String>,
    pub is_in_european_union: Option<bool>,
    pub registered_name: Option<String>,
    pub registered_iso_code: Option<String>,
}

/// What the country fields of a record say.
pub struct CountryRecordView {
    pub name: Option<Seq<char>>,
    pub iso_code: Option<Seq<char>>,
    pub is_in_european_union: Option<bool>,
    pub registered_name: Option<Seq<char>>,
    pub registered_iso_code: Option<Seq<char>>,
}

impl View for CountryRecord {
    type V = CountryRecordView;

    open spec fn view(&self) -> CountryRecordView {
        CountryRecordView {
            name: opt_text(self.name),
            iso_code: opt_text(self.iso_code),
            is_in_european_union: self.is_in_european_union,
            registered_name: opt_text(self.registered_name),
            registered_iso_code: opt_text(self.registered_iso_code),
        }
    }
}

/// The city fields of a record: the English city name; the English name and
/// ISO code of the first subdivision; latitude and longitude by their bit
/// patterns; metro code and time zone; postal code; the country's ISO code.
#[derive(Debug)]
pub struct CityRecord {
    pub name: Option<String>,
    pub subdivision_name: Option<String>,
    pub subdivision_iso_code: Option<String>,
    pub latitude: Option<u64>,
    pub longitude: Option<u64>,
    pub metro_code: Option<u32>,
    pub time_zone: Option<String>,
    pub postal_code: Option<String>,
    pub country_iso_code: Option<String>,
}

/// What the city fields of a record say.
pub struct CityRecordView {
    pub name: Option<Seq<char>>,
    pub subdivision_name: Option<Seq<char>>,
    pub subdivision_iso_code: Option<Seq<char>>,
    pub latitude: Option<u64>,
    pub longitude: Option<u64>,
    pub metro_code: Option<u32>,
    pub time_zone: Option<Seq<char>>,
    pub postal_code: Option<Seq<char>>,
    pub country_iso_code: Option<Seq<char>>,
}

impl View for CityRecord {
    type V = CityRecordView;

    open spec fn view(&self) -> CityRecordView {
        CityRecordView {
            name: opt_text(self.name),
            subdivision_name: opt_text(self.subdivision_name),
            subdivision_iso_code: opt_text(self.subdivision_iso_code),
            latitude: self.latitude,
            longitude: self.longitude,
            metro_code: self.metro_code,
            time_zone: opt_text(self.time_zone),
            postal_code: opt_text(self.postal_code),
            country_iso_code: opt_text(self.country_iso_code),
        }
    }
}

/// The autonomous-system fields of a record.
#[derive(Debug)]
pub struct AsnRecord {
    pub number: Option<u32>,
    pub organization: Option<String>,
}

/// What the autonomous-system fields of a record say.
pub struct AsnRecordView {
    pub number: Option<u32>,
    pub organization: Option<Seq<char>>,
}

impl View for AsnRecord {
    type V = AsnRecordView;

    open spec fn view(&self) -> AsnRecordView {
        AsnRecordView { number: self.number, organization: opt_text(self.organization) }
    }
}

/// Names the bytes of the database file that a reader was made from.
pub uninterp spec fn source_of(db: Database) -> Seq<u8>;

/// Names the country records of the database in `source`: the addresses that
/// have a record that decodes as `geoip2::Country`, with its fields.
pub uninterp spec fn country_records(source: Seq<u8>) -> Map<IpAddress, CountryRecordView>;

/// Names the city records of the database in `source`: the addresses that
/// have a record that decodes as `geoip2::City`, with its fields.
pub uninterp spec fn city_records(source: Seq<u8>) -> Map<IpAddress, CityRecordView>;

/// Names the autonomous-system records of the database in `source`: the
/// addresses that have a record that decodes as `geoip2::Asn`, with its fields.
pub uninterp spec fn asn_records(source: Seq<u8>) -> Map<IpAddress, AsnRecordView>;

/// The entry of `m` for `k`, if any.
pub open spec fn entry<K, V>(m: Map<K, V>, k: K) -> Option<V> {
    if m.dom().contains(k) {
        Some(m[k])
    } else {
        None
    }
}

/// Names what `Reader::from_source` says of the bytes `bytes`: `None` when it
/// accepts them as a database, else the text of the error it refuses them with.
pub uninterp spec fn mmdb_open_error(bytes: Seq<u8>) -> Option<Seq<char>>;

/// Makes a reader of the database bytes `bytes` with `Reader::from_source`,
/// which checks the metadata section; the contract claims that the reader
/// reads these bytes, and that it is refused exactly when `mmdb_open_error`
/// names an error, with that error's text. The bytes must pass `mmdb_safe`:
/// on bytes whose search tree runs past the metadata, `from_source` indexes
/// past the end of the buffer and panics, and on metadata with an extended
/// type byte of 249 or more its decoder overflows a `u8` and panics.
#[verifier::external_body]
pub(crate) fn open_database(bytes: Vec<u8>) -> (r: Result<Database, String>)
    requires
        mmdb_safe(bytes@),
    ensures
        match r {
            Ok(db) => source_of(db) == bytes@ && mmdb_open_error(bytes@) is None,
            Err(e) => mmdb_open_error(bytes@) == Some(e@),
        },
{
    Reader::from_source(bytes).map(|reader| Database { reader }).map_err(|e| e.to_string())
}

/// Looks `ip` up with `Reader::lookup` (on bytes that pass `mmdb_safe`, its
/// node reads stay in the tree, its data pointers past the separator, every
/// control byte it decodes names a known type, so that the `u8` addition of
/// `Decoder::size_and_type` cannot overflow, and skipping an unknown field,
/// which follows pointers with no depth bound, ends within `max_depth`) and
/// decodes what is found with `LookupResult::decode::<geoip2::Country>`; the
/// contract claims that the
/// fields are those of the record named by `country_records`, and that there
/// is none where lookup or decoding fails or finds nothing.
#[verifier::external_body]
pub(crate) fn lookup_country(db: &Database, ip: IpAddress) -> (r: Option<CountryRecord>)
    requires
        mmdb_safe(source_of(*db)),
    ensures
        opt_record(r) == entry(country_records(source_of(*db)), ip),
{
    let found = match ip {
        IpAddress::V4(a) => db.reader.lookup(a.into()),
        IpAddress::V6(a) => db.reader.lookup(a.into()),
    };
    let c = found.ok()?.decode::<geoip2::Country>().ok()??;
    Some(CountryRecord {
        name: c.country.names.english.map(String::from),
        iso_code: c.country.iso_code.map(String::from),
        is_in_european_union: c.country.is_in_european_union,
        registered_name: c.registered_country.names.english.map(String::from),
        registered_iso_code: c.registered_country.iso_code.map(String::from),
    })
}

/// The place fields of a city record: city name, name and ISO code of the
/// first subdivision, postal code, country ISO code.
pub type CityPlace = (Option<String>, Option<String>, Option<String>, Option<String>, Option<String>);

/// The location fields of a city record: latitude and longitude by their bit
/// patterns, metro code, time zone.
pub type CityLocation = (Option<u64>, Option<u64>, Option<u32>, Option<String>);

/// What the place fields say.
pub open spec fn place_view(p: CityPlace) -> (
    Option<Seq<char>>,
    Option<Seq<char>>,
    Option<Seq<char>>,
    Option<Seq<char>>,
    Option<Seq<char>>,
) {
    (opt_text(p.0), opt_text(p.1), opt_text(p.2), opt_text(p.3), opt_text(p.4))
}

/// The place fields of a city record view.
pub open spec fn place_of(r: CityRecordView) -> (
    Option<Seq<char>>,
    Option<Seq<char>>,
    Option<Seq<char>>,
    Option<Seq<char>>,
    Option<Seq<char>>,
) {
    (r.name, r.subdivision_name, r.subdivision_iso_code, r.postal_code, r.country_iso_code)
}

/// What the location fields say.
pub open spec fn location_view(l: CityLocation) -> (Option<u64>, Option<u64>, Option<u32>, Option<Seq<char>>) {
    (l.0, l.1, l.2, opt_text(l.3))
}

/// The location fields of a city record view.
pub open spec fn location_of(r: CityRecordView) -> (Option<u64>, Option<u64>, Option<u32>, Option<Seq<char>>) {
    (r.latitude, r.longitude, r.metro_code, r.time_zone)
}

/// Looks `ip` up with `Reader::lookup` (on bytes that pass `mmdb_safe`, as
/// for `lookup_country`), decodes what is found with
/// `LookupResult::decode::<geoip2::City>` and keeps the place fields (of the
/// first subdivision); the contract claims that they are those of the record
/// named by `city_records`, and that there are none where lookup or decoding
/// fails or finds nothing.
#[verifier::external_body]
fn lookup_city_place(db: &Database, ip: IpAddress) -> (r: Option<CityPlace>)
    requires
        mmdb_safe(source_of(*db)),
    ensures
        match r {
            Some(p) => entry(city_records(source_of(*db)), ip) matches Some(v) && place_view(p) == place_of(v),
            None => entry(city_records(source_of(*db)), ip) is None,
        },
{
    let found = match ip {
        IpAddress::V4(a) => db.reader.lookup(a.into()),
        IpAddress::V6(a) => db.reader.lookup(a.into()),
    };
    let c = found.ok()?.decode::<geoip2::City>().ok()??;
    let sub = c.subdivisions.first();
    Some((
        c.city.names.english.map(String::from),
        sub.and_then(|s| s.names.english).map(String::from),
        sub.and_then(|s| s.iso_code).map(String::from),
        c.postal.code.map(String::from),
        c.country.iso_code.map(String::from),
    ))
}

/// Looks `ip` up with `Reader::lookup` (on bytes that pass `mmdb_safe`, as
/// for `lookup_country`), decodes what is found with
/// `LookupResult::decode::<geoip2::City>` and keeps the location fields,
/// coordinates by their bit patterns; the contract claims that they are those
/// of the record named by `city_records`, and that there are none where lookup
/// or decoding fails or finds nothing.
#[verifier::external_body]
fn lookup_city_location(db: &Database, ip: IpAddress) -> (r: Option<CityLocation>)
    requires
        mmdb_safe(source_of(*db)),
    ensures
        match r {
            Some(l) => entry(city_records(source_of(*db)), ip) matches Some(v) && location_view(l)
                == location_of(v),
            None => entry(city_records(source_of(*db)), ip) is None,
        },
{
    let found = match ip {
        IpAddress::V4(a) => db.reader.lookup(a.into()),
        IpAddress::V6(a) => db.reader.lookup(a.into()),
    };
    let l = found.ok()?.decode::<geoip2::City>().ok()??.location;
    Some((
        l.latitude.map(|v| v.to_bits()),
        l.longitude.map(|v| v.to_bits()),
        l.metro_code.map(u32::from),
        l.time_zone.map(String::from),
    ))
}

/// The city record of `ip`, put together from its place and location fields.
pub(crate) fn lookup_city(db: &Database, ip: IpAddress) -> (r: Option<CityRecord>)
    requires
        mmdb_safe(source_of(*db)),
    ensures
        opt_record(r) == entry(city_records(source_of(*db)), ip),
{
    match (lookup_city_place(db, ip), lookup_city_location(db, ip)) {
        (Some(p), Some(l)) => Some(CityRecord {
            name: p.0,
            subdivision_name: p.1,
            subdivision_iso_code: p.2,
            latitude: l.0,
            longitude: l.1,
            metro_code: l.2,
            time_zone: l.3,
            postal_code: p.3,
            country_iso_code: p.4,
        }),
        _ => None,
    }
}

/// Looks `ip` up with `Reader::lookup` (on bytes that pass `mmdb_safe`, as
/// for `lookup_country`) and decodes what is found with
/// `LookupResult::decode::<geoip2::Asn>`; the contract claims that the fields
/// are those of the record named by `asn_records`, and that there is none
/// where lookup or decoding fails or finds nothing.
#[verifier::external_body]
pub(crate) fn lookup_asn(db: &Database, ip: IpAddress) -> (r: Option<AsnRecord>)
    requires
        mmdb_safe(source_of(*db)),
    ensures
        opt_record(r) == entry(asn_records(source_of(*db)), ip),
{
    let found = match ip {
        IpAddress::V4(a) => db.reader.lookup(a.into()),
        IpAddress::V6(a) => db.reader.lookup(a.into()),
    };
    let a = found.ok()?.decode::<geoip2::Asn>().ok()??;
    Some(AsnRecord {
        number: a.autonomous_system_number,
        organization: a.autonomous_system_organization.map(String::from),
    })
}

/// The view of an optional record.
pub open spec fn opt_record<T: View>(o: Option<T>) -> Option<T::V> {
    match o {
        Some(x) => Some(x@),
        None => None,
    }
}

/// The refusal of bytes that `mmdb_safe` does not accept. Such bytes include
/// some that the reader would open and serve: metadata that holds a pointer or
/// values nested deeper than `max_depth`, or gives `node_count` or
/// `record_size` other than as a plain uint16, uint32 or uint64; a data section
/// that does not read as a stream of values; a record or pointer that leads
/// into the middle of a value or past the data; a pointer to a value that has
/// not ended before it; values nested deeper than `max_depth`.
pub open spec fn layout_refusal() -> Seq<char> {
    "unsupported or damaged MaxMind DB layout"@
}

/// Why bytes do not open as a database: the layout is refused, or the reader
/// refuses them; `None` when they open.
pub open spec fn open_failure(b: Seq<u8>) -> Option<Seq<char>> {
    if mmdb_safe(b) {
        mmdb_open_error(b)
    } else {
        Some(layout_refusal())
    }
}

/// Opens a database from its bytes, after checking their layout; see
/// `open_failure`.
pub(crate) fn open_checked(bytes: Vec<u8>) -> (r: Result<Database, String>)
    ensures
        match r {
            Ok(db) => source_of(db) == bytes@ && mmdb_safe(bytes@) && open_failure(bytes@) is None,
            Err(e) => open_failure(bytes@) == Some(e@),
        },
{
    if check_mmdb(bytes.as_slice()) {
        open_database(bytes)
    } else {
        proof {
            broadcast use vstd::string::group_string_axioms;
        }
        Err("unsupported or damaged MaxMind DB layout".to_string())
    }
}

} // verus!
