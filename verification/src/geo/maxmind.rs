//! The MaxMind GeoIP2/GeoLite2 provider: separate country, city and ASN
//! databases, each optional.
use vstd::prelude::*;

use super::mmdb::{
    entry, lookup_asn, lookup_city, lookup_country, open_checked, open_failure, asn_records, city_records,
    country_records, source_of, AsnRecord, AsnRecordView, CityRecord, CityRecordView,
    CountryRecord, CountryRecordView, Database,
};
use super::{bits_are_nan, Asn, AsnView, City, CityView, Coordinate, Country, CountryView, GeoProvider};
use crate::ip::IpAddress;
use super::layout::mmdb_safe;
use crate::text::str_eq;

verus! {

/// An optional text, empty when absent.
pub open spec fn or_empty(o: Option<Seq<char>>) -> Seq<char> {
    match o {
        Some(s) => s,
        None => Seq::empty(),
    }
}

/// `primary` unless it is empty and `fallback` is present.
pub open spec fn with_fallback(primary: Seq<char>, fallback: Option<Seq<char>>) -> Seq<char> {
    if primary.len() == 0 && fallback is Some {
        fallback->0
    } else {
        primary
    }
}

/// The country of a MaxMind record: the country's English name and ISO code,
/// each falling back to the registered country's when empty, and the
/// country's EU membership (false when unknown).
pub open spec fn maxmind_country(r: CountryRecordView) -> CountryView {
    CountryView {
        name: with_fallback(or_empty(r.name), r.registered_name),
        iso: with_fallback(or_empty(r.iso_code), r.registered_iso_code),
        is_eu: match r.is_in_european_union {
            Some(b) => b,
            None => false,
        },
    }
}

/// A coordinate of a record, zero when absent or NaN.
pub open spec fn coordinate_of(o: Option<u64>) -> u64 {
    match o {
        Some(b) => if bits_are_nan(b) { 0 } else { b },
        None => 0,
    }
}

/// The city of a MaxMind record. The metro code is kept only for a non-zero
/// code of an address in the US.
pub open spec fn maxmind_city(r: CityRecordView) -> CityView {
    CityView {
        name: or_empty(r.name),
        latitude: coordinate_of(r.latitude),
        longitude: coordinate_of(r.longitude),
        postal_code: or_empty(r.postal_code),
        timezone: or_empty(r.time_zone),
        metro_code: match r.metro_code {
            Some(m) => if m > 0 && r.country_iso_code == Some("US"@) { m } else { 0 },
            None => 0,
        },
        region_name: or_empty(r.subdivision_name),
        region_code: or_empty(r.subdivision_iso_code),
    }
}

/// The ASN of a MaxMind record: number zero and empty organization when absent.
pub open spec fn maxmind_asn(r: AsnRecordView) -> AsnView {
    AsnView {
        number: match r.number {
            Some(n) => n,
            None => 0,
        },
        organization: or_empty(r.organization),
    }
}

/// The text of an optional field, empty when absent.
pub fn text_or_empty(o: Option<String>) -> (r: String)
    ensures
        r@ == or_empty(crate::geo::mmdb::opt_text(o)),
{
    match o {
        Some(s) => s,
        None => String::new(),
    }
}

/// `primary`, or the fallback when `primary` is empty and a fallback is present.
pub fn text_with_fallback(primary: String, fallback: Option<String>) -> (r: String)
    ensures
        r@ == with_fallback(primary@, crate::geo::mmdb::opt_text(fallback)),
{
    if primary.as_str().is_empty() {
        match fallback {
            Some(f) => f,
            None => primary,
        }
    } else {
        primary
    }
}

/// The country of a MaxMind country record.
pub fn country_from_record(rec: CountryRecord) -> (r: Country)
    ensures
        r@ == maxmind_country(rec@),
{
    let is_eu = match rec.is_in_european_union {
        Some(b) => b,
        None => false,
    };
    Country {
        name: text_with_fallback(text_or_empty(rec.name), rec.registered_name),
        iso: text_with_fallback(text_or_empty(rec.iso_code), rec.registered_iso_code),
        is_eu,
    }
}

fn coordinate_from(o: Option<u64>) -> (r: Coordinate)
    ensures
        r.bits == coordinate_of(o),
{
    match o {
        Some(b) => {
            let c = Coordinate { bits: b };
            if c.is_nan() {
                Coordinate::zero()
            } else {
                c
            }
        },
        None => Coordinate::zero(),
    }
}

/// The city of a MaxMind city record.
pub fn city_from_record(rec: CityRecord) -> (r: City)
    ensures
        r@ == maxmind_city(rec@),
{
    let is_us = match &rec.country_iso_code {
        Some(code) => str_eq(code.as_str(), "US"),
        None => false,
    };
    proof {
        reveal_strlit("US");
    }
    let metro_code = match rec.metro_code {
        Some(m) => if m > 0 && is_us { m } else { 0 },
        None => 0,
    };
    City {
        name: text_or_empty(rec.name),
        latitude: coordinate_from(rec.latitude),
        longitude: coordinate_from(rec.longitude),
        postal_code: text_or_empty(rec.postal_code),
        timezone: text_or_empty(rec.time_zone),
        metro_code,
        region_name: text_or_empty(rec.subdivision_name),
        region_code: text_or_empty(rec.subdivision_iso_code),
    }
}

/// The ASN of a MaxMind ASN record.
pub fn asn_from_record(rec: AsnRecord) -> (r: Asn)
    ensures
        r@ == maxmind_asn(rec@),
{
    let number = match rec.number {
        Some(n) => n,
        None => 0,
    };
    Asn { number, organization: text_or_empty(rec.organization) }
}

/// The MaxMind provider: a country, a city and an ASN database, each optional.
pub struct MaxmindProvider {
    country_db: Option<Database>,
    city_db: Option<Database>,
    asn_db: Option<Database>,
}

/// The bytes a database was opened from, if there is one.
pub open spec fn db_source(db: Option<Database>) -> Option<Seq<u8>> {
    match db {
        Some(d) => Some(source_of(d)),
        None => None,
    }
}

/// The bytes of an optional database file.
pub open spec fn opt_bytes(b: Option<Vec<u8>>) -> Option<Seq<u8>> {
    match b {
        Some(v) => Some(v@),
        None => None,
    }
}

/// A database, if there is one, has a layout that the reader can search.
pub open spec fn db_searchable(db: Option<Database>) -> bool {
    match db {
        Some(d) => mmdb_safe(source_of(d)),
        None => true,
    }
}

/// Why an optional database file does not open; `None` when it opens or is
/// not given.
pub open spec fn opt_failure(b: Option<Seq<u8>>) -> Option<Seq<char>> {
    match b {
        Some(bytes) => open_failure(bytes),
        None => None,
    }
}

/// The first failure among the country, city and ASN database files, in
/// that order.
pub open spec fn first_failure(
    country: Option<Seq<u8>>,
    city: Option<Seq<u8>>,
    asn: Option<Seq<u8>>,
) -> Option<Seq<char>> {
    if opt_failure(country) is Some {
        opt_failure(country)
    } else if opt_failure(city) is Some {
        opt_failure(city)
    } else {
        opt_failure(asn)
    }
}

fn open_optional(bytes: Option<Vec<u8>>) -> (r: Result<Option<Database>, String>)
    ensures
        match r {
            Ok(db) => db_source(db) == opt_bytes(bytes) && db_searchable(db) && opt_failure(opt_bytes(bytes))
                is None,
            Err(e) => opt_failure(opt_bytes(bytes)) == Some(e@),
        },
{
    match bytes {
        Some(b) => match open_checked(b) {
            Ok(db) => Ok(Some(db)),
            Err(e) => Err(e),
        },
        None => Ok(None),
    }
}

impl MaxmindProvider {
    /// Each database has a layout that the reader can search.
    #[verifier::type_invariant]
    spec fn searchable(self) -> bool {
        db_searchable(self.country_db) && db_searchable(self.city_db) && db_searchable(self.asn_db)
    }

    /// A provider over the given databases.
    pub fn new(country_db: Option<Database>, city_db: Option<Database>, asn_db: Option<Database>) -> (r:
        MaxmindProvider)
        requires
            db_searchable(country_db),
            db_searchable(city_db),
            db_searchable(asn_db),
        ensures
            r.sources() == (db_source(country_db), db_source(city_db), db_source(asn_db)),
    {
        MaxmindProvider { country_db, city_db, asn_db }
    }

    /// Opens the country, city and ASN databases from the bytes of their
    /// files, in that order: it succeeds exactly when every file given opens,
    /// and otherwise fails with the reason of the first one that does not.
    pub fn open(country: Option<Vec<u8>>, city: Option<Vec<u8>>, asn: Option<Vec<u8>>) -> (r: Result<
        MaxmindProvider,
        String,
    >)
        ensures
            match r {
                Ok(p) => p.sources() == (opt_bytes(country), opt_bytes(city), opt_bytes(asn)) && first_failure(
                    opt_bytes(country),
                    opt_bytes(city),
                    opt_bytes(asn),
                ) is None,
                Err(e) => first_failure(opt_bytes(country), opt_bytes(city), opt_bytes(asn)) == Some(e@),
            },
    {
        let country_db = open_optional(country)?;
        let city_db = open_optional(city)?;
        let asn_db = open_optional(asn)?;
        Ok(MaxmindProvider { country_db, city_db, asn_db })
    }

    /// The bytes of the country, city and ASN databases.
    pub closed spec fn sources(&self) -> (Option<Seq<u8>>, Option<Seq<u8>>, Option<Seq<u8>>) {
        (db_source(self.country_db), db_source(self.city_db), db_source(self.asn_db))
    }
}

/// The country answer of a provider whose country database is `src`.
pub open spec fn maxmind_country_of(src: Option<Seq<u8>>, ip: IpAddress) -> Option<CountryView> {
    match src {
        Some(s) => match entry(country_records(s), ip) {
            Some(rec) => Some(maxmind_country(rec)),
            None => None,
        },
        None => None,
    }
}

/// The city answer of a provider whose city database is `src`.
pub open spec fn maxmind_city_of(src: Option<Seq<u8>>, ip: IpAddress) -> Option<CityView> {
    match src {
        Some(s) => match entry(city_records(s), ip) {
            Some(rec) => Some(maxmind_city(rec)),
            None => None,
        },
        None => None,
    }
}

/// The ASN answer of a provider whose ASN database is `src`.
pub open spec fn maxmind_asn_of(src: Option<Seq<u8>>, ip: IpAddress) -> Option<AsnView> {
    match src {
        Some(s) => match entry(asn_records(s), ip) {
            Some(rec) => Some(maxmind_asn(rec)),
            None => None,
        },
        None => None,
    }
}

impl GeoProvider for MaxmindProvider {
    open spec fn country_of(&self, ip: IpAddress) -> Option<CountryView> {
        maxmind_country_of(self.sources().0, ip)
    }

    open spec fn city_of(&self, ip: IpAddress) -> Option<CityView> {
        maxmind_city_of(self.sources().1, ip)
    }

    open spec fn asn_of(&self, ip: IpAddress) -> Option<AsnView> {
        maxmind_asn_of(self.sources().2, ip)
    }

    open spec fn holds_no_data(&self) -> bool {
        self.sources().0 is None && self.sources().1 is None && self.sources().2 is None
    }

    fn country(&self, ip: IpAddress) -> (r: Option<Country>) {
        proof {
            use_type_invariant(self);
        }
        match &self.country_db {
            Some(db) => match lookup_country(db, ip) {
                Some(rec) => Some(country_from_record(rec)),
                None => None,
            },
            None => None,
        }
    }

    fn city(&self, ip: IpAddress) -> (r: Option<City>) {
        proof {
            use_type_invariant(self);
        }
        match &self.city_db {
            Some(db) => match lookup_city(db, ip) {
                Some(rec) => Some(city_from_record(rec)),
                None => None,
            },
            None => None,
        }
    }

    fn asn(&self, ip: IpAddress) -> (r: Option<Asn>) {
        proof {
            use_type_invariant(self);
        }
        match &self.asn_db {
            Some(db) => match lookup_asn(db, ip) {
                Some(rec) => Some(asn_from_record(rec)),
                None => None,
            },
            None => None,
        }
    }

    fn is_empty(&self) -> (r: bool) {
        self.country_db.is_none() && self.city_db.is_none() && self.asn_db.is_none()
    }
}

/// A metro code is reported only for addresses in the United States.
pub proof fn law_metro_code_only_in_us(r: CityRecordView)
    ensures
        maxmind_city(r).metro_code != 0 ==> r.country_iso_code == Some("US"@),
{
}

/// A reported coordinate is never a NaN: a NaN in the database reads as zero.
pub proof fn law_coordinates_never_nan(r: CityRecordView)
    ensures
        !bits_are_nan(maxmind_city(r).latitude),
        !bits_are_nan(maxmind_city(r).longitude),
{
    assert(!bits_are_nan(0u64)) by (bit_vector);
}

} // verus!
