use geoip_lookup::model::{City, CityLocation, Location, LookupEntry};

fn coordinates(latitude: Option<f64>, longitude: Option<f64>) -> CityLocation {
    CityLocation {
        latitude: latitude.map(|v| v.to_string()),
        longitude: longitude.map(|v| v.to_string()),
    }
}

#[test]
fn location_needs_both_coordinates() {
    let found = Location::from_city_loc(coordinates(Some(37.751), Some(-97.822)));
    assert_eq!(
        found,
        Some(Location { longitude: "-97.822".to_string(), latitude: "37.751".to_string() })
    );
}

#[test]
fn location_without_latitude_is_none() {
    assert_eq!(Location::from_city_loc(coordinates(None, Some(-97.822))), None);
}

#[test]
fn location_without_longitude_is_none() {
    assert_eq!(Location::from_city_loc(coordinates(Some(37.751), None)), None);
}

#[test]
fn location_without_coordinates_is_none() {
    assert_eq!(Location::from_city_loc(coordinates(None, None)), None);
}

#[test]
fn location_keeps_latitude_and_longitude_apart() {
    let found = Location::from_city_loc(coordinates(Some(1.5), Some(2.5))).unwrap();
    assert_eq!(found.latitude, "1.5");
    assert_eq!(found.longitude, "2.5");
}

#[test]
fn entry_from_full_record() {
    let city = City { location: Some(coordinates(Some(51.5074), Some(-0.1278))) };
    let entry = LookupEntry::from_city("81.2.69.142", city).unwrap();
    assert_eq!(entry.ip_str, "81.2.69.142");
    assert_eq!(entry.loc.latitude, "51.5074");
    assert_eq!(entry.loc.longitude, "-0.1278");
}

#[test]
fn entry_keeps_the_address_as_written() {
    let city = City { location: Some(coordinates(Some(1.0), Some(2.0))) };
    let entry = LookupEntry::from_city("::ffff:8.8.8.8", city).unwrap();
    assert_eq!(entry.ip_str, "::ffff:8.8.8.8");
}

#[test]
fn entry_from_record_without_location_is_none() {
    assert_eq!(LookupEntry::from_city("8.8.8.8", City { location: None }), None);
}

#[test]
fn entry_from_record_with_one_coordinate_is_none() {
    let city = City { location: Some(coordinates(Some(37.751), None)) };
    assert_eq!(LookupEntry::from_city("8.8.8.8", city), None);
    let city = City { location: Some(coordinates(None, Some(-97.822))) };
    assert_eq!(LookupEntry::from_city("8.8.8.8", city), None);
}

#[test]
fn entry_clone_is_equal() {
    let city = City { location: Some(coordinates(Some(37.751), Some(-97.822))) };
    let entry = LookupEntry::from_city("8.8.8.8", city).unwrap();
    let copy = entry.clone();
    assert_eq!(copy, entry);
    assert_eq!(copy.loc.clone(), entry.loc);
}
