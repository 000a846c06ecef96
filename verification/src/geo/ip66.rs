//! The ip66.dev provider: one database with country and ASN data.
use vstd::prelude::*;

use super::maxmind::{or_empty, text_or_empty, text_with_fallback, with_fallback};
use super::mmdb::{
    asn_records, country_records, entry, lookup_asn, lookup_country, open_checked, open_failure, source_of,
    AsnRecordView, CountryRecordView, Database,
};
use super::{Asn, AsnView, City, CityView, Country, CountryView, GeoProvider};
use crate::ip::IpAddress;
use super::layout::mmdb_safe;

verus! {

/// The country of an ip66.dev record: English name and ISO code, each falling
/// back to the registered country's when empty; never in the EU. No answer
/// when both are empty.
pub open spec fn ip66_country(r: CountryRecordView) -> Option<CountryView> {
    let name = with_fallback(or_empty(r.name), r.registered_name);
    let iso = with_fallback(or_empty(r.iso_code), r.registered_iso_code);
    if name.len() == 0 && iso.len() == 0 {
        None
    } else {
        Some(CountryView { name, iso, is_eu: false })
    }
}

/// The ASN of an ip66.dev record; no answer when the number is absent or zero.
pub open spec fn ip66_asn(r: AsnRecordView) -> Option<AsnView> {
    match r.number {
        Some(n) => if n == 0 {
            None
        } else {
            Some(AsnView { number: n, organization: or_empty(r.organization) })
        },
        None => None,
    }
}

/// The ip66.dev provider.
pub struct Ip66Provider {
    db: Database,
}

impl Ip66Provider {
    /// The database's bytes have a layout that the reader can search.
    #[verifier::type_invariant]
    spec fn searchable(self) -> bool {
        mmdb_safe(source_of(self.db))
    }

    /// Opens the database from the bytes of its file; refused, with the
    /// reason, when the bytes do not open as a database.
    pub fn open(bytes: Vec<u8>) -> (r: Result<Ip66Provider, String>)
        ensures
            match r {
                Ok(p) => p.source() == bytes@ && open_failure(bytes@) is None,
                Err(e) => open_failure(bytes@) == Some(e@),
            },
    {
        match open_checked(bytes) {
            Ok(db) => Ok(Ip66Provider { db }),
            Err(e) => Err(e),
        }
    }

    /// The bytes of the database.
    pub closed spec fn source(&self) -> Seq<u8> {
        source_of(self.db)
    }
}

impl GeoProvider for Ip66Provider {
    open spec fn country_of(&self, ip: IpAddress) -> Option<CountryView> {
        match entry(country_records(self.source()), ip) {
            Some(rec) => ip66_country(rec),
            None => None,
        }
    }

    open spec fn city_of(&self, ip: IpAddress) -> Option<CityView> {
        None
    }

    open spec fn asn_of(&self, ip: IpAddress) -> Option<AsnView> {
        match entry(asn_records(self.source()), ip) {
            Some(rec) => ip66_asn(rec),
            None => None,
        }
    }

    open spec fn holds_no_data(&self) -> bool {
        false
    }

    fn country(&self, ip: IpAddress) -> (r: Option<Country>) {
        proof {
            use_type_invariant(self);
        }
        let rec = lookup_country(&self.db, ip)?;
        let name = text_with_fallback(text_or_empty(rec.name), rec.registered_name);
        let iso = text_with_fallback(text_or_empty(rec.iso_code), rec.registered_iso_code);
        if name.as_str().is_empty() && iso.as_str().is_empty() {
            return None;
        }
        Some(Country { name, iso, is_eu: false })
    }

    fn city(&self, _ip: IpAddress) -> (r: Option<City>) {
        None
    }

    fn asn(&self, ip: IpAddress) -> (r: Option<Asn>) {
        proof {
            use_type_invariant(self);
        }
        let rec = lookup_asn(&self.db, ip)?;
        let number = match rec.number {
            Some(n) => n,
            None => 0,
        };
        if number == 0 {
            return None;
        }
        Some(Asn { number, organization: text_or_empty(rec.organization) })
    }

    fn is_empty(&self) -> (r: bool) {
        false
    }
}

/// The ip66.dev provider never places a country in the EU, never answers a
/// country without name and code, and never answers ASN zero.
pub proof fn law_ip66_answers(c: CountryRecordView, a: AsnRecordView)
    ensures
        ip66_country(c) is Some ==> !ip66_country(c)->0.is_eu && (ip66_country(c)->0.name.len() > 0
            || ip66_country(c)->0.iso.len() > 0),
        ip66_asn(a) is Some ==> ip66_asn(a)->0.number > 0,
{
}

/// The country that the ip66.dev provider answers for a record: its name is
/// the country's English name when that is there and not empty, else the
/// registered country's; its ISO code likewise the country's code, else the
/// registered country's; it is never in the EU; and there is an answer
/// exactly when the name or the code is not empty.
pub proof fn law_ip66_country_fields(p: Ip66Provider, ip: IpAddress)
    ensures
        ({
            let picked = |own: Option<Seq<char>>, registered: Option<Seq<char>>|
                if own is Some && own->0.len() > 0 {
                    own->0
                } else if registered is Some {
                    registered->0
                } else {
                    Seq::<char>::empty()
                };
            match entry(country_records(p.source()), ip) {
                Some(rec) => {
                    let name = picked(rec.name, rec.registered_name);
                    let iso = picked(rec.iso_code, rec.registered_iso_code);
                    p.country_of(ip) == if name.len() == 0 && iso.len() == 0 {
                        None
                    } else {
                        Some(CountryView { name, iso, is_eu: false })
                    }
                },
                None => p.country_of(ip) is None,
            }
        }),
{
    if let Some(rec) = entry(country_records(p.source()), ip) {
        if rec.name is Some && rec.name->0.len() == 0 {
            assert(rec.name->0 =~= Seq::<char>::empty());
        }
        if rec.iso_code is Some && rec.iso_code->0.len() == 0 {
            assert(rec.iso_code->0 =~= Seq::<char>::empty());
        }
    }
}

} // verus!
