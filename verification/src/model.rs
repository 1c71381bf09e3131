//! The value types: a resolved location, and the association of a queried
//! address with it.
//!
//! Coordinates are decimal degrees held as decimal text, exactly as they
//! appear later in metric labels. Every value has a view over `Seq<char>`,
//! and the contracts of the crate speak of views only.

use vstd::prelude::*;

verus! {

/// What a geolocation record says about where an address is. Either
/// coordinate may be missing from a record.
#[derive(Debug, PartialEq, Eq)]
pub struct CityLocation {
    pub latitude: Option<String>,
    pub longitude: Option<String>,
}

pub struct CityLocationView {
    pub latitude: Option<Seq<char>>,
    pub longitude: Option<Seq<char>>,
}

/// The view of an optional text.
pub open spec fn text_view(text: Option<String>) -> Option<Seq<char>> {
    match text {
        Some(t) => Some(t@),
        None => None,
    }
}

impl View for CityLocation {
    type V = CityLocationView;

    open spec fn view(&self) -> CityLocationView {
        CityLocationView {
            latitude: text_view(self.latitude),
            longitude: text_view(self.longitude),
        }
    }
}

/// A geolocation record for one address, reduced to the part this crate reads.
#[derive(Debug, PartialEq, Eq)]
pub struct City {
    pub location: Option<CityLocation>,
}

pub struct CityView {
    pub location: Option<CityLocationView>,
}

impl View for City {
    type V = CityView;

    open spec fn view(&self) -> CityView {
        CityView {
            location: match self.location {
                Some(loc) => Some(loc@),
                None => None,
            },
        }
    }
}

/// A resolved location: both coordinates are present.
#[derive(Debug, PartialEq, Eq)]
pub struct Location {
    pub longitude: String,
    pub latitude: String,
}

pub struct LocationView {
    pub longitude: Seq<char>,
    pub latitude: Seq<char>,
}

impl View for Location {
    type V = LocationView;

    open spec fn view(&self) -> LocationView {
        LocationView { longitude: self.longitude@, latitude: self.latitude@ }
    }
}

impl Clone for Location {
    fn clone(&self) -> (copy: Self)
        ensures
            copy@ == self@,
    {
        Location { longitude: self.longitude.clone(), latitude: self.latitude.clone() }
    }
}

/// The location that a record's coordinates make: one exists exactly when
/// both coordinates are present.
pub open spec fn located(loc: CityLocationView) -> Option<LocationView> {
    match (loc.longitude, loc.latitude) {
        (Some(longitude), Some(latitude)) => Some(LocationView { longitude, latitude }),
        _ => None,
    }
}

impl Location {
    /// Builds a location from a record's coordinates. A record with only one
    /// coordinate, or none, gives no location.
    pub fn from_city_loc(loc: CityLocation) -> (found: Option<Self>)
        ensures
            match found {
                Some(l) => located(loc@) == Some(l@),
                None => located(loc@) is None,
            },
    {
        match (loc.longitude, loc.latitude) {
            (Some(longitude), Some(latitude)) => Some(Location { longitude, latitude }),
            _ => None,
        }
    }
}

/// One resolved lookup: the address as it was asked for, and where it is.
#[derive(Debug, PartialEq, Eq)]
pub struct LookupEntry {
    pub ip_str: String,
    pub loc: Location,
}

pub struct LookupEntryView {
    pub ip_str: Seq<char>,
    pub loc: LocationView,
}

impl View for LookupEntry {
    type V = LookupEntryView;

    open spec fn view(&self) -> LookupEntryView {
        LookupEntryView { ip_str: self.ip_str@, loc: self.loc@ }
    }
}

impl Clone for LookupEntry {
    fn clone(&self) -> (copy: Self)
        ensures
            copy@ == self@,
    {
        LookupEntry { ip_str: self.ip_str.clone(), loc: self.loc.clone() }
    }
}

/// The entry that a record gives for the address `ip`: the record must hold
/// a location section, and that section both coordinates.
pub open spec fn entry_for(ip: Seq<char>, city: CityView) -> Option<LookupEntryView> {
    match city.location {
        Some(section) => match located(section) {
            Some(loc) => Some(LookupEntryView { ip_str: ip, loc }),
            None => None,
        },
        None => None,
    }
}

impl LookupEntry {
    /// Builds the entry for `ip` from the record found for it. The address
    /// is kept as it was written.
    pub fn from_city(ip: &str, city: City) -> (found: Option<Self>)
        ensures
            match found {
                Some(entry) => entry_for(ip@, city@) == Some(entry@),
                None => entry_for(ip@, city@) is None,
            },
    {
        if let Some(section) = city.location {
            match Location::from_city_loc(section) {
                Some(loc) => Some(LookupEntry { ip_str: ip.to_owned(), loc }),
                None => None,
            }
        } else {
            None
        }
    }
}

} // verus!
