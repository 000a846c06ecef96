//! The answer to a lookup, as the handlers render it.
use vstd::prelude::*;

use crate::geo::{Asn, AsnView, City, CityView, Coordinate, Country, CountryView};
use crate::ip::{be_value, octets, to_decimal, IpAddress};
use crate::text::chars_of;
use crate::geo::{empty_asn, empty_city, empty_country, opt_view};
use crate::user_agent::{parse, ua_view, UserAgent, UserAgentView};

verus! {

/// Everything known about an address.
#[derive(Debug, PartialEq)]
pub struct Response {
    pub ip: IpAddress,
    pub ip_decimal: u128,
    pub country: String,
    pub country_iso: String,
    pub country_eu: bool,
    pub region_name: String,
    pub region_code: String,
    pub metro_code: u32,
    pub zip_code: String,
    pub city: String,
    pub latitude: Coordinate,
    pub longitude: Coordinate,
    pub time_zone: String,
    pub asn: String,
    pub asn_org: String,
    pub hostname: String,
    pub user_agent: Option<UserAgent>,
}

/// The answer to a port test.
#[derive(Debug, Clone, Copy, PartialEq)]
pub struct PortResponse {
    pub ip: IpAddress,
    pub port: u16,
    pub reachable: bool,
}

/// What a response says.
pub struct ResponseView {
    pub ip: IpAddress,
    pub ip_decimal: u128,
    pub country: Seq<char>,
    pub country_iso: Seq<char>,
    pub country_eu: bool,
    pub region_name: Seq<char>,
    pub region_code: Seq<char>,
    pub metro_code: u32,
    pub zip_code: Seq<char>,
    pub city: Seq<char>,
    pub latitude: u64,
    pub longitude: u64,
    pub time_zone: Seq<char>,
    pub asn: Seq<char>,
    pub asn_org: Seq<char>,
    pub hostname: Seq<char>,
    pub user_agent: Option<UserAgentView>,
}

impl View for Response {
    type V = ResponseView;

    open spec fn view(&self) -> ResponseView {
        ResponseView {
            ip: self.ip,
            ip_decimal: self.ip_decimal,
            country: self.country@,
            country_iso: self.country_iso@,
            country_eu: self.country_eu,
            region_name: self.region_name@,
            region_code: self.region_code@,
            metro_code: self.metro_code,
            zip_code: self.zip_code@,
            city: self.city@,
            latitude: self.latitude.bits,
            longitude: self.longitude.bits,
            time_zone: self.time_zone@,
            asn: self.asn@,
            asn_org: self.asn_org@,
            hostname: self.hostname@,
            user_agent: match self.user_agent {
                Some(ua) => Some(ua@),
                None => None,
            },
        }
    }
}

impl Clone for Response {
    fn clone(&self) -> (r: Response)
        ensures
            r@ == self@,
    {
        let user_agent = match &self.user_agent {
            Some(ua) => Some(ua.clone()),
            None => None,
        };
        Response {
            ip: self.ip,
            ip_decimal: self.ip_decimal,
            country: self.country.clone(),
            country_iso: self.country_iso.clone(),
            country_eu: self.country_eu,
            region_name: self.region_name.clone(),
            region_code: self.region_code.clone(),
            metro_code: self.metro_code,
            zip_code: self.zip_code.clone(),
            city: self.city.clone(),
            latitude: self.latitude,
            longitude: self.longitude,
            time_zone: self.time_zone.clone(),
            asn: self.asn.clone(),
            asn_org: self.asn_org.clone(),
            hostname: self.hostname.clone(),
            user_agent,
        }
    }
}

/// A flag that the JSON document leaves out: one that is false.
pub fn is_false(v: &bool) -> (r: bool)
    ensures
        r == !*v,
{
    !*v
}

/// A number that the JSON document leaves out: zero.
pub fn is_zero_u32(v: &u32) -> (r: bool)
    ensures
        r == (*v == 0),
{
    *v == 0
}

/// The decimal digit `d`.
pub open spec fn digit_char(d: nat) -> char {
    ((d + 48) as u8) as char
}

/// The decimal notation of `n`, without leading zeros.
pub open spec fn decimal(n: nat) -> Seq<char>
    decreases n,
{
    if n < 10 {
        seq![digit_char(n)]
    } else {
        decimal(n / 10).push(digit_char(n % 10))
    }
}

/// The decimal notation of `n`.
pub fn decimal_string(n: u128) -> (r: String)
    ensures
        r@ == decimal(n as nat),
{
    let mut digits: Vec<u8> = Vec::new();
    let mut m: u128 = n;
    let ghost mut tail: Seq<char> = Seq::empty();
    while m >= 10
        invariant
            decimal(n as nat) == decimal(m as nat) + tail,
            tail.len() == digits.len(),
            forall|j: int| 0 <= j < digits.len() ==> digits@[j] < 10 && tail[tail.len() - 1 - j]
                == digit_char(digits@[j] as nat),
        decreases m,
    {
        let d = (m % 10) as u8;
        proof {
            assert(decimal(m as nat) == decimal((m / 10) as nat).push(digit_char(d as nat)));
            let t2 = seq![digit_char(d as nat)] + tail;
            assert(decimal((m / 10) as nat).push(digit_char(d as nat)) + tail =~= decimal(
                (m / 10) as nat,
            ) + t2);
            assert forall|j: int| 0 <= j < digits.len() + 1 implies (if j < digits.len() {
                digits@[j]
            } else {
                d
            }) < 10 && t2[t2.len() - 1 - j] == digit_char(
                (if j < digits.len() {
                    digits@[j]
                } else {
                    d
                }) as nat,
            ) by {
                if j < digits.len() {
                    assert(t2[t2.len() - 1 - j] == tail[tail.len() - 1 - j]);
                }
            }
            tail = t2;
        }
        digits.push(d);
        m = m / 10;
    }
    let mut s = String::new();
    proof {
        reveal_strlit("0");
        reveal_strlit("1");
        reveal_strlit("2");
        reveal_strlit("3");
        reveal_strlit("4");
        reveal_strlit("5");
        reveal_strlit("6");
        reveal_strlit("7");
        reveal_strlit("8");
        reveal_strlit("9");
    }
    append_digit(&mut s, m as u8);
    let mut k = digits.len();
    while k > 0
        invariant
            k <= digits.len(),
            tail.len() == digits.len(),
            forall|j: int| 0 <= j < digits.len() ==> digits@[j] < 10 && tail[tail.len() - 1 - j]
                == digit_char(digits@[j] as nat),
            s@ == decimal(m as nat) + tail.take(tail.len() - k),
            m < 10,
            decimal(n as nat) == decimal(m as nat) + tail,
        decreases k,
    {
        k = k - 1;
        let d = digits[k];
        append_digit(&mut s, d);
        assert(tail.take(tail.len() - k) =~= tail.take(tail.len() - (k + 1)).push(
            tail[tail.len() - 1 - k],
        ));
    }
    assert(tail.take(tail.len() as int) =~= tail);
    s
}

fn append_digit(s: &mut String, d: u8)
    requires
        d < 10,
    ensures
        final(s)@ == old(s)@.push(digit_char(d as nat)),
{
    let t = match d {
        0 => "0",
        1 => "1",
        2 => "2",
        3 => "3",
        4 => "4",
        5 => "5",
        6 => "6",
        7 => "7",
        8 => "8",
        _ => "9",
    };
    proof {
        reveal_strlit("0");
        reveal_strlit("1");
        reveal_strlit("2");
        reveal_strlit("3");
        reveal_strlit("4");
        reveal_strlit("5");
        reveal_strlit("6");
        reveal_strlit("7");
        reveal_strlit("8");
        reveal_strlit("9");
    }
    s.append(t);
    assert(s@ =~= old(s)@.push(digit_char(d as nat)));
}

/// `o`, or `d` when absent.
pub open spec fn or_default<T>(o: Option<T>, d: T) -> T {
    match o {
        Some(x) => x,
        None => d,
    }
}

/// The ASN text: `AS` and the number, or empty for number zero.
pub open spec fn asn_text(n: u32) -> Seq<char> {
    if n > 0 {
        "AS"@ + decimal(n as nat)
    } else {
        Seq::empty()
    }
}

/// The response for `ip` built from the provider's answers (absent answers
/// count as empty ones) and the host name, without a user agent.
pub open spec fn response_spec(
    ip: IpAddress,
    country: Option<CountryView>,
    city: Option<CityView>,
    asn: Option<AsnView>,
    hostname: Seq<char>,
) -> ResponseView {
    let c = or_default(country, empty_country());
    let t = or_default(city, empty_city());
    let a = or_default(asn, empty_asn());
    ResponseView {
        ip,
        ip_decimal: be_value(octets(ip)) as u128,
        country: c.name,
        country_iso: c.iso,
        country_eu: c.is_eu,
        region_name: t.region_name,
        region_code: t.region_code,
        metro_code: t.metro_code,
        zip_code: t.postal_code,
        city: t.name,
        latitude: t.latitude,
        longitude: t.longitude,
        time_zone: t.timezone,
        asn: asn_text(a.number),
        asn_org: a.organization,
        hostname,
        user_agent: None,
    }
}

/// Every field of a built response comes from the same-named field of the
/// answer it belongs to (the country's name, code and EU flag; the city's
/// name, region, postal code, coordinates, time zone and metro code; the
/// ASN's number and organization), or is empty or zero when that answer is
/// missing; the address and host name are those given, and there is no user
/// agent.
pub proof fn law_response_fields(
    ip: IpAddress,
    country: Option<CountryView>,
    city: Option<CityView>,
    asn: Option<AsnView>,
    hostname: Seq<char>,
)
    ensures
        ({
            let r = response_spec(ip, country, city, asn, hostname);
            &&& r.ip == ip
            &&& r.hostname == hostname
            &&& r.user_agent is None
            &&& match country {
                Some(c) => r.country == c.name && r.country_iso == c.iso && r.country_eu == c.is_eu,
                None => r.country.len() == 0 && r.country_iso.len() == 0 && !r.country_eu,
            }
            &&& match city {
                Some(t) => {
                    &&& r.city == t.name
                    &&& r.latitude == t.latitude
                    &&& r.longitude == t.longitude
                    &&& r.region_name == t.region_name
                    &&& r.region_code == t.region_code
                    &&& r.zip_code == t.postal_code
                    &&& r.time_zone == t.timezone
                    &&& r.metro_code == t.metro_code
                },
                None => {
                    &&& r.city.len() == 0 && r.region_name.len() == 0 && r.region_code.len() == 0
                    &&& r.zip_code.len() == 0 && r.time_zone.len() == 0
                    &&& r.latitude == 0 && r.longitude == 0 && r.metro_code == 0
                },
            }
            &&& match asn {
                Some(a) => r.asn_org == a.organization && (a.number > 0 ==> r.asn == seq!['A', 'S']
                    + decimal(a.number as nat)) && (a.number == 0 ==> r.asn.len() == 0),
                None => r.asn.len() == 0 && r.asn_org.len() == 0,
            }
        }),
{
    reveal_strlit("AS");
    assert("AS"@ =~= seq!['A', 'S']);
}

/// The text `AS` followed by `n` in decimal, or empty for zero.
pub fn asn_string(n: u32) -> (r: String)
    ensures
        r@ == asn_text(n),
{
    if n > 0 {
        let mut s = "AS".to_string();
        proof {
            broadcast use vstd::string::group_string_axioms;
            reveal_strlit("AS");
        }
        let d = decimal_string(n as u128);
        s.append(d.as_str());
        s
    } else {
        String::new()
    }
}

/// The message of the error that writing a decimal form too large for 64
/// bits fails with: what std's `u64` parse reports on such digits.
pub open spec fn too_large_message() -> Seq<char> {
    "number too large to fit in target type"@
}

/// The decimal form of an address as the JSON document writes it: a number
/// when it fits in 64 bits; beyond that writing fails, with the message of
/// std's `u64` parse.
pub fn decimal_field(n: u128) -> (r: Result<u64, String>)
    ensures
        n <= u64::MAX ==> r == Ok::<u64, String>(n as u64),
        n > u64::MAX ==> (r matches Err(m) && m@ == too_large_message()),
{
    if n <= u64::MAX as u128 {
        Ok(n as u64)
    } else {
        Err("number too large to fit in target type".to_string())
    }
}

/// Puts the provider's answers and the host name together into the response
/// for `ip`; see `response_spec`.
pub fn assemble_response(
    ip: IpAddress,
    country: Option<Country>,
    city: Option<City>,
    asn: Option<Asn>,
    hostname: String,
) -> (r: Response)
    ensures
        r@ == response_spec(ip, opt_view(country), opt_view(city), opt_view(asn), hostname@),
{
    let c = match country {
        Some(c) => c,
        None => Country::default(),
    };
    let t = match city {
        Some(t) => t,
        None => City::default(),
    };
    let a = match asn {
        Some(a) => a,
        None => Asn::default(),
    };
    let r = Response {
        ip,
        ip_decimal: to_decimal(ip),
        country: c.name,
        country_iso: c.iso,
        country_eu: c.is_eu,
        region_name: t.region_name,
        region_code: t.region_code,
        metro_code: t.metro_code,
        zip_code: t.postal_code,
        city: t.name,
        latitude: t.latitude,
        longitude: t.longitude,
        time_zone: t.timezone,
        asn: asn_string(a.number),
        asn_org: a.organization,
        hostname,
        user_agent: None,
    };
    assert(r@ =~= response_spec(ip, opt_view(country), opt_view(city), opt_view(asn), hostname@));
    r
}

/// The user agent a response reports for a `User-Agent` value: none for an
/// empty value, else its parse.
pub open spec fn reported_user_agent(ua: Seq<char>) -> Option<UserAgentView> {
    if ua.len() == 0 {
        None
    } else {
        Some(ua_view(ua))
    }
}

/// `r` with the user agent field set.
pub open spec fn with_user_agent_spec(r: ResponseView, ua: Option<UserAgentView>) -> ResponseView {
    ResponseView { user_agent: ua, ..r }
}

/// Sets the user agent of a response from the request's `User-Agent` value.
pub fn attach_user_agent(resp: &mut Response, ua: &str)
    ensures
        final(resp)@ == with_user_agent_spec(old(resp)@, reported_user_agent(ua@)),
{
    resp.user_agent = if ua.is_empty() {
        None
    } else {
        Some(parse(ua))
    };
}

} // verus!
