use echoip::geo::composite::CompositeProvider;
use echoip::geo::{Asn, AsnView, City, CityView, Coordinate, Country, CountryView, GeoProvider};
use echoip::ip::IpAddress;

#[derive(Clone)]
struct MockProvider {
    country: Option<Country>,
    city: Option<City>,
    asn: Option<Asn>,
    empty: bool,
}

impl GeoProvider for MockProvider {
    // The spec functions of the trait exist only for the verifier; nothing calls them.
    fn country_of(&self, _ip: IpAddress) -> Option<CountryView> {
        unreachable!()
    }
    fn city_of(&self, _ip: IpAddress) -> Option<CityView> {
        unreachable!()
    }
    fn asn_of(&self, _ip: IpAddress) -> Option<AsnView> {
        unreachable!()
    }
    fn holds_no_data(&self) -> bool {
        unreachable!()
    }
    fn country(&self, _ip: IpAddress) -> Option<Country> {
        self.country.clone()
    }
    fn city(&self, _ip: IpAddress) -> Option<City> {
        self.city.clone()
    }
    fn asn(&self, _ip: IpAddress) -> Option<Asn> {
        self.asn.clone()
    }
    fn is_empty(&self) -> bool {
        self.empty
    }
}

fn ip() -> IpAddress {
    IpAddress::V4([127, 0, 0, 1])
}

fn coord(v: f64) -> Coordinate {
    Coordinate { bits: v.to_bits() }
}

fn empty_provider() -> MockProvider {
    MockProvider { country: None, city: None, asn: None, empty: true }
}

fn full_provider(name: &str) -> MockProvider {
    MockProvider {
        country: Some(Country { name: name.to_string(), iso: "XX".to_string(), is_eu: false }),
        city: Some(City {
            name: name.to_string(),
            latitude: coord(1.0),
            longitude: coord(2.0),
            ..Default::default()
        }),
        asn: Some(Asn { number: 12345, organization: name.to_string() }),
        empty: false,
    }
}

#[test]
fn test_composite_uses_first_valid_provider() {
    let composite =
        CompositeProvider::new(vec![full_provider("Primary"), full_provider("Fallback")]);
    assert_eq!(composite.country(ip()).unwrap().name, "Primary");
    assert_eq!(composite.city(ip()).unwrap().name, "Primary");
    assert_eq!(composite.asn(ip()).unwrap().organization, "Primary");
}

#[test]
fn test_composite_falls_back_to_second() {
    let composite = CompositeProvider::new(vec![empty_provider(), full_provider("Fallback")]);
    assert_eq!(composite.country(ip()).unwrap().name, "Fallback");
    assert_eq!(composite.city(ip()).unwrap().name, "Fallback");
    assert_eq!(composite.asn(ip()).unwrap().organization, "Fallback");
}

#[test]
fn test_composite_all_empty() {
    let composite = CompositeProvider::new(vec![empty_provider(), empty_provider()]);
    assert!(composite.country(ip()).is_none());
    assert!(composite.city(ip()).is_none());
    assert!(composite.asn(ip()).is_none());
}

#[test]
fn test_composite_skips_empty_names() {
    // A provider whose answers carry no data is passed over.
    let partial = MockProvider {
        country: Some(Country { name: String::new(), iso: String::new(), is_eu: false }),
        city: Some(City::default()),
        asn: Some(Asn { number: 0, organization: String::new() }),
        empty: false,
    };
    let composite = CompositeProvider::new(vec![partial, full_provider("Good")]);
    assert_eq!(composite.country(ip()).unwrap().name, "Good");
    assert_eq!(composite.city(ip()).unwrap().name, "Good");
    assert_eq!(composite.asn(ip()).unwrap().organization, "Good");
}

#[test]
fn test_is_empty() {
    let all_empty = CompositeProvider::new(vec![empty_provider(), empty_provider()]);
    assert!(all_empty.is_empty());

    let has_one = CompositeProvider::new(vec![empty_provider(), full_provider("X")]);
    assert!(!has_one.is_empty());
}

#[test]
fn test_no_providers() {
    let composite: CompositeProvider<MockProvider> = CompositeProvider::new(vec![]);
    assert!(composite.country(ip()).is_none());
    assert!(composite.city(ip()).is_none());
    assert!(composite.asn(ip()).is_none());
    assert!(composite.is_empty());
}

#[test]
fn test_default_structs() {
    let country = Country::default();
    assert!(country.name.is_empty());
    assert!(country.iso.is_empty());
    assert!(!country.is_eu);

    let city = City::default();
    assert!(city.name.is_empty());
    assert_eq!(f64::from_bits(city.latitude.bits), 0.0);
    assert_eq!(f64::from_bits(city.longitude.bits), 0.0);

    let asn = Asn::default();
    assert_eq!(asn.number, 0);
    assert!(asn.organization.is_empty());
}

#[test]
fn city_with_only_coordinates_counts_as_data() {
    let only_coords = MockProvider {
        country: None,
        city: Some(City { latitude: coord(-0.5), ..Default::default() }),
        asn: None,
        empty: false,
    };
    let composite = CompositeProvider::new(vec![only_coords, full_provider("Later")]);
    let city = composite.city(ip()).unwrap();
    assert!(city.name.is_empty());
    assert_eq!(f64::from_bits(city.latitude.bits), -0.5);
}

#[test]
fn negative_zero_coordinate_is_no_data() {
    let neg_zero = MockProvider {
        country: None,
        city: Some(City { latitude: coord(-0.0), ..Default::default() }),
        asn: None,
        empty: false,
    };
    let composite = CompositeProvider::new(vec![neg_zero, full_provider("Later")]);
    assert_eq!(composite.city(ip()).unwrap().name, "Later");
}

#[test]
fn coordinate_zero_and_nan_tests() {
    assert!(Coordinate::zero().is_zero());
    assert!(coord(-0.0).is_zero());
    assert!(!coord(1.5).is_zero());
    assert!(coord(f64::NAN).is_nan());
    assert!(!coord(f64::INFINITY).is_nan());
}
