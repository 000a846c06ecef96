//! A provider that asks several providers in turn and keeps the first
//! answer that carries data.
use vstd::prelude::*;

use super::{Asn, AsnView, City, CityView, Country, CountryView, GeoProvider, bits_are_zero};
use crate::ip::IpAddress;

verus! {

/// A country answer with a name or a code.
pub open spec fn country_has_data(c: CountryView) -> bool {
    c.name.len() > 0 || c.iso.len() > 0
}

/// A city answer with a name or a non-zero coordinate.
pub open spec fn city_has_data(c: CityView) -> bool {
    c.name.len() > 0 || !bits_are_zero(c.latitude) || !bits_are_zero(c.longitude)
}

/// An ASN answer with a non-zero number.
pub open spec fn asn_has_data(a: AsnView) -> bool {
    a.number > 0
}

/// The first answer among `ps` that carries a country.
pub open spec fn first_country<P: GeoProvider>(ps: Seq<P>, ip: IpAddress) -> Option<CountryView>
    decreases ps.len(),
{
    if ps.len() == 0 {
        None
    } else {
        match ps[0].country_of(ip) {
            Some(c) => if country_has_data(c) { Some(c) } else { first_country(ps.drop_first(), ip) },
            None => first_country(ps.drop_first(), ip),
        }
    }
}

/// The first answer among `ps` that carries a city.
pub open spec fn first_city<P: GeoProvider>(ps: Seq<P>, ip: IpAddress) -> Option<CityView>
    decreases ps.len(),
{
    if ps.len() == 0 {
        None
    } else {
        match ps[0].city_of(ip) {
            Some(c) => if city_has_data(c) { Some(c) } else { first_city(ps.drop_first(), ip) },
            None => first_city(ps.drop_first(), ip),
        }
    }
}

/// The first answer among `ps` that carries an ASN.
pub open spec fn first_asn<P: GeoProvider>(ps: Seq<P>, ip: IpAddress) -> Option<AsnView>
    decreases ps.len(),
{
    if ps.len() == 0 {
        None
    } else {
        match ps[0].asn_of(ip) {
            Some(a) => if asn_has_data(a) { Some(a) } else { first_asn(ps.drop_first(), ip) },
            None => first_asn(ps.drop_first(), ip),
        }
    }
}

/// Providers asked in order; the first one with data answers.
pub struct CompositeProvider<P> {
    providers: Vec<P>,
}

impl<P: GeoProvider> CompositeProvider<P> {
    /// A composite of `providers`, asked in the given order.
    pub fn new(providers: Vec<P>) -> (r: CompositeProvider<P>)
        ensures
            r.providers() == providers@,
    {
        CompositeProvider { providers }
    }

    /// The providers, in the order they are asked.
    pub closed spec fn providers(&self) -> Seq<P> {
        self.providers@
    }
}

impl<P: GeoProvider> GeoProvider for CompositeProvider<P> {
    open spec fn country_of(&self, ip: IpAddress) -> Option<CountryView> {
        first_country(self.providers(), ip)
    }

    open spec fn city_of(&self, ip: IpAddress) -> Option<CityView> {
        first_city(self.providers(), ip)
    }

    open spec fn asn_of(&self, ip: IpAddress) -> Option<AsnView> {
        first_asn(self.providers(), ip)
    }

    open spec fn holds_no_data(&self) -> bool {
        forall|i: int| 0 <= i < self.providers().len() ==> #[trigger] self.providers()[i].holds_no_data()
    }

    fn country(&self, ip: IpAddress) -> (r: Option<Country>) {
        let ghost ps = self.providers@;
        let mut i: usize = 0;
        assert(ps.skip(0) =~= ps);
        while i < self.providers.len()
            invariant
                ps == self.providers@,
                i <= ps.len(),
                first_country(ps, ip) == first_country(ps.skip(i as int), ip),
            decreases ps.len() - i,
        {
            assert(ps.skip(i as int)[0] == ps[i as int]);
            assert(ps.skip(i as int).drop_first() =~= ps.skip(i + 1));
            if let Some(country) = self.providers[i].country(ip) {
                if !country.name.as_str().is_empty() || !country.iso.as_str().is_empty() {
                    return Some(country);
                }
            }
            i = i + 1;
        }
        None
    }

    fn city(&self, ip: IpAddress) -> (r: Option<City>) {
        let ghost ps = self.providers@;
        let mut i: usize = 0;
        assert(ps.skip(0) =~= ps);
        while i < self.providers.len()
            invariant
                ps == self.providers@,
                i <= ps.len(),
                first_city(ps, ip) == first_city(ps.skip(i as int), ip),
            decreases ps.len() - i,
        {
            assert(ps.skip(i as int)[0] == ps[i as int]);
            assert(ps.skip(i as int).drop_first() =~= ps.skip(i + 1));
            if let Some(city) = self.providers[i].city(ip) {
                if !city.name.as_str().is_empty() || !city.latitude.is_zero()
                    || !city.longitude.is_zero() {
                    return Some(city);
                }
            }
            i = i + 1;
        }
        None
    }

    fn asn(&self, ip: IpAddress) -> (r: Option<Asn>) {
        let ghost ps = self.providers@;
        let mut i: usize = 0;
        assert(ps.skip(0) =~= ps);
        while i < self.providers.len()
            invariant
                ps == self.providers@,
                i <= ps.len(),
                first_asn(ps, ip) == first_asn(ps.skip(i as int), ip),
            decreases ps.len() - i,
        {
            assert(ps.skip(i as int)[0] == ps[i as int]);
            assert(ps.skip(i as int).drop_first() =~= ps.skip(i + 1));
            if let Some(asn) = self.providers[i].asn(ip) {
                if asn.number > 0 {
                    return Some(asn);
                }
            }
            i = i + 1;
        }
        None
    }

    fn is_empty(&self) -> (r: bool) {
        let mut i: usize = 0;
        while i < self.providers.len()
            invariant
                i <= self.providers@.len(),
                forall|j: int| 0 <= j < i ==> #[trigger] self.providers()[j].holds_no_data(),
            decreases self.providers@.len() - i,
        {
            if !self.providers[i].is_empty() {
                assert(!self.providers()[i as int].holds_no_data());
                return false;
            }
            i = i + 1;
        }
        true
    }
}

/// The first provider whose answer carries a country decides the answer.
pub proof fn law_first_provider_with_data_wins<P: GeoProvider>(ps: Seq<P>, ip: IpAddress, i: int)
    requires
        0 <= i < ps.len(),
        ps[i].country_of(ip) is Some,
        country_has_data(ps[i].country_of(ip)->0),
        forall|j: int| 0 <= j < i ==> !(#[trigger] ps[j].country_of(ip) is Some && country_has_data(
            ps[j].country_of(ip)->0,
        )),
    ensures
        first_country(ps, ip) == ps[i].country_of(ip),
    decreases i,
{
    if i > 0 {
        let t = ps.drop_first();
        assert(!(ps[0].country_of(ip) is Some && country_has_data(ps[0].country_of(ip)->0)));
        assert forall|j: int| 0 <= j < i - 1 implies !(#[trigger] t[j].country_of(ip) is Some
            && country_has_data(t[j].country_of(ip)->0)) by {
            assert(t[j] == ps[j + 1]);
        }
        assert(t[i - 1] == ps[i]);
        law_first_provider_with_data_wins(t, ip, i - 1);
    }
}

/// A composite answers a country only when some provider answered it with
/// data; when no provider has data, it answers nothing.
pub proof fn law_country_answer_comes_from_a_provider<P: GeoProvider>(ps: Seq<P>, ip: IpAddress)
    ensures
        first_country(ps, ip) is Some ==> country_has_data(first_country(ps, ip)->0) && exists|i: int|
            0 <= i < ps.len() && #[trigger] ps[i].country_of(ip) == first_country(ps, ip),
        (forall|i: int| 0 <= i < ps.len() ==> !(#[trigger] ps[i].country_of(ip) is Some
            && country_has_data(ps[i].country_of(ip)->0))) ==> first_country(ps, ip) is None,
    decreases ps.len(),
{
    if ps.len() > 0 {
        let t = ps.drop_first();
        law_country_answer_comes_from_a_provider(t, ip);
        if first_country(t, ip) is Some && first_country(ps, ip) == first_country(t, ip) {
            let i = choose|i: int| 0 <= i < t.len() && #[trigger] t[i].country_of(ip) == first_country(t, ip);
            assert(ps[i + 1] == t[i]);
        }
        if forall|i: int| 0 <= i < ps.len() ==> !(#[trigger] ps[i].country_of(ip) is Some
            && country_has_data(ps[i].country_of(ip)->0)) {
            assert forall|i: int| 0 <= i < t.len() implies !(#[trigger] t[i].country_of(ip) is Some
                && country_has_data(t[i].country_of(ip)->0)) by {
                assert(t[i] == ps[i + 1]);
            }
            assert(!(ps[0].country_of(ip) is Some && country_has_data(ps[0].country_of(ip)->0)));
        }
    }
}

} // verus!
