//! Geolocation data about an address, and the providers that look it up.
pub mod composite;
pub mod ip66;
pub mod layout;
pub mod maxmind;
pub mod mmdb;

use vstd::prelude::*;

use crate::ip::IpAddress;

verus! {

/// A coordinate in degrees, held as the bit pattern of its IEEE-754 binary64 value.
#[derive(Clone, Copy, Debug, PartialEq, Eq)]
pub struct Coordinate {
    pub bits: u64,
}

/// The value compares equal to `0.0` (it is `+0.0` or `-0.0`).
pub open spec fn bits_are_zero(bits: u64) -> bool {
    bits & 0x7fff_ffff_ffff_ffffu64 == 0
}

/// The value is a NaN: all exponent bits set and a non-zero fraction.
pub open spec fn bits_are_nan(bits: u64) -> bool {
    bits & 0x7ff0_0000_0000_0000u64 == 0x7ff0_0000_0000_0000u64 && bits
        & 0x000f_ffff_ffff_ffffu64 != 0
}

impl Coordinate {
    /// `0.0`.
    pub fn zero() -> (r: Coordinate)
        ensures
            r.bits == 0,
    {
        Coordinate { bits: 0 }
    }

    /// Whether the value compares equal to `0.0`.
    pub fn is_zero(&self) -> (r: bool)
        ensures
            r == bits_are_zero(self.bits),
    {
        self.bits & 0x7fff_ffff_ffff_ffffu64 == 0
    }

    /// Whether the value is a NaN.
    pub fn is_nan(&self) -> (r: bool)
        ensures
            r == bits_are_nan(self.bits),
    {
        self.bits & 0x7ff0_0000_0000_0000u64 == 0x7ff0_0000_0000_0000u64 && self.bits
            & 0x000f_ffff_ffff_ffffu64 != 0
    }
}

/// The country an address is located in.
#[derive(Clone, Debug, PartialEq)]
pub struct Country {
    pub name: String,
    pub iso: String,
    pub is_eu: bool,
}

/// The city-level location of an address.
#[derive(Clone, Debug, PartialEq)]
pub struct City {
    pub name: String,
    pub latitude: Coordinate,
    pub longitude: Coordinate,
    pub postal_code: String,
    pub timezone: String,
    pub metro_code: u32,
    pub region_name: String,
    pub region_code: String,
}

/// The autonomous system an address belongs to.
#[derive(Clone, Debug, PartialEq)]
pub struct Asn {
    pub number: u32,
    pub organization: String,
}

/// What a country answer says.
pub struct CountryView {
    pub name: Seq<char>,
    pub iso: Seq<char>,
    pub is_eu: bool,
}

/// What a city answer says; coordinates by their bit patterns.
pub struct CityView {
    pub name: Seq<char>,
    pub latitude: u64,
    pub longitude: u64,
    pub postal_code: Seq<char>,
    pub timezone: Seq<char>,
    pub metro_code: u32,
    pub region_name: Seq<char>,
    pub region_code: Seq<char>,
}

/// What an ASN answer says.
pub struct AsnView {
    pub number: u32,
    pub organization: Seq<char>,
}

impl View for Country {
    type V = CountryView;

    open spec fn view(&self) -> CountryView {
        CountryView { name: self.name@, iso: self.iso@, is_eu: self.is_eu }
    }
}

impl View for City {
    type V = CityView;

    open spec fn view(&self) -> CityView {
        CityView {
            name: self.name@,
            latitude: self.latitude.bits,
            longitude: self.longitude.bits,
            postal_code: self.postal_code@,
            timezone: self.timezone@,
            metro_code: self.metro_code,
            region_name: self.region_name@,
            region_code: self.region_code@,
        }
    }
}

impl View for Asn {
    type V = AsnView;

    open spec fn view(&self) -> AsnView {
        AsnView { number: self.number, organization: self.organization@ }
    }
}

/// The country answer with no data: empty name and code, outside the EU.
pub open spec fn empty_country() -> CountryView {
    CountryView { name: Seq::empty(), iso: Seq::empty(), is_eu: false }
}

/// The city answer with no data: empty texts, zero coordinates and metro code.
pub open spec fn empty_city() -> CityView {
    CityView {
        name: Seq::empty(),
        latitude: 0,
        longitude: 0,
        postal_code: Seq::empty(),
        timezone: Seq::empty(),
        metro_code: 0,
        region_name: Seq::empty(),
        region_code: Seq::empty(),
    }
}

/// The ASN answer with no data: number zero and an empty organization.
pub open spec fn empty_asn() -> AsnView {
    AsnView { number: 0, organization: Seq::empty() }
}

/// The view of an optional answer.
pub open spec fn opt_view<T: View>(o: Option<T>) -> Option<T::V> {
    match o {
        Some(x) => Some(x@),
        None => None,
    }
}

impl Default for Country {
    fn default() -> (r: Country)
        ensures
            r@ == empty_country(),
    {
        let r = Country { name: String::new(), iso: String::new(), is_eu: false };
        assert(r@.name =~= Seq::<char>::empty());
        r
    }
}

impl Default for City {
    fn default() -> (r: City)
        ensures
            r@ == empty_city(),
    {
        City {
            name: String::new(),
            latitude: Coordinate::zero(),
            longitude: Coordinate::zero(),
            postal_code: String::new(),
            timezone: String::new(),
            metro_code: 0,
            region_name: String::new(),
            region_code: String::new(),
        }
    }
}

impl Default for Asn {
    fn default() -> (r: Asn)
        ensures
            r@ == empty_asn(),
    {
        Asn { number: 0, organization: String::new() }
    }
}

/// A source of geolocation data. Each answer is a function of the provider
/// and the address, named by the spec functions of the trait. Those exist for
/// verification only; compiled code never calls them.
pub trait GeoProvider {
    /// What `country` answers for `ip`.
    spec fn country_of(&self, ip: IpAddress) -> Option<CountryView>;

    /// What `city` answers for `ip`.
    spec fn city_of(&self, ip: IpAddress) -> Option<CityView>;

    /// What `asn` answers for `ip`.
    spec fn asn_of(&self, ip: IpAddress) -> Option<AsnView>;

    /// What `is_empty` answers.
    spec fn holds_no_data(&self) -> bool;

    /// The country of `ip`, if known.
    fn country(&self, ip: IpAddress) -> (r: Option<Country>)
        ensures
            opt_view(r) == self.country_of(ip),
    ;

    /// The city-level location of `ip`, if known.
    fn city(&self, ip: IpAddress) -> (r: Option<City>)
        ensures
            opt_view(r) == self.city_of(ip),
    ;

    /// The autonomous system of `ip`, if known.
    fn asn(&self, ip: IpAddress) -> (r: Option<Asn>)
        ensures
            opt_view(r) == self.asn_of(ip),
    ;

    /// Whether the provider has no data source at all.
    fn is_empty(&self) -> (r: bool)
        ensures
            r == self.holds_no_data(),
    ;
}

} // verus!
