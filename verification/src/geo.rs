//! What a location lookup contributes to an event.
//!
//! The location database is asked by the caller. This module takes what the
//! database answered and decides whether it amounts to a location: a
//! latitude, a longitude and an English country name, all three or nothing.
//!
//! Coordinates are carried, never computed with, so their type `C` is left to
//! the caller.

use vstd::prelude::*;
use vstd::string::*;
use crate::text::{is_leftmost, leftmost, lemma_leftmost_absent, lemma_leftmost_found};

verus! {

/// A country name in one language.
#[derive(Debug, PartialEq, Eq)]
pub struct LocaleName {
    /// The language, as the database keys it: `en`, `de`, ...
    pub locale: String,
    /// The name in that language.
    pub name: String,
}

/// What the database holds for an address. Any part may be missing.
#[derive(Debug, PartialEq)]
pub struct LocationRecord<C> {
    pub latitude: Option<C>,
    pub longitude: Option<C>,
    /// The country's names, by language. Where a language occurs twice, the
    /// first entry counts.
    pub country_names: Vec<LocaleName>,
}

/// How a lookup ended.
#[derive(Debug, PartialEq)]
pub enum LookupOutcome<C> {
    /// The database has a record for the address.
    Found(LocationRecord<C>),
    /// The database has no record for the address.
    NoEntry,
    /// The text does not denote an address the database can be asked for.
    MalformedAddress,
    /// The database could not be read.
    DatabaseError,
}

/// Why an event goes out without a location.
#[derive(Clone, Copy, Debug, PartialEq, Eq)]
pub enum LookupFailure {
    MalformedAddress,
    NoEntry,
    DatabaseError,
    /// The record lacks the latitude or the longitude.
    MissingCoordinates,
    /// The record has no English country name.
    MissingCountryName,
}

/// A location: always whole.
#[derive(Debug, PartialEq)]
pub struct GeoInfo<C> {
    pub latitude: C,
    pub longitude: C,
    pub country_name: String,
}

/// What a `GeoInfo` stands for.
pub struct GeoModel<C> {
    pub latitude: C,
    pub longitude: C,
    pub country_name: Seq<char>,
}

impl<C> View for GeoInfo<C> {
    type V = GeoModel<C>;

    open spec fn view(&self) -> GeoModel<C> {
        GeoModel {
            latitude: self.latitude,
            longitude: self.longitude,
            country_name: self.country_name@,
        }
    }
}

/// The language whose country name is used.
pub open spec fn wanted_locale() -> Seq<char> {
    "en"@
}

/// The entry at position `i` is in the given language.
pub open spec fn in_locale(names: Seq<LocaleName>, locale: Seq<char>) -> spec_fn(int) -> bool {
    |i: int| names[i].locale@ == locale
}

/// The name in the given language: that of the first entry in it.
pub open spec fn name_in(names: Seq<LocaleName>, locale: Seq<char>) -> Option<Seq<char>> {
    match leftmost(names.len() as int, in_locale(names, locale)) {
        Some(i) => Some(names[i].name@),
        None => None,
    }
}

/// What a lookup contributes. A record counts only if it holds both
/// coordinates and an English country name; every other outcome is a
/// failure, named by what was missing first.
pub open spec fn lookup_spec<C>(outcome: LookupOutcome<C>) -> Result<GeoModel<C>, LookupFailure> {
    match outcome {
        LookupOutcome::MalformedAddress => Err(LookupFailure::MalformedAddress),
        LookupOutcome::NoEntry => Err(LookupFailure::NoEntry),
        LookupOutcome::DatabaseError => Err(LookupFailure::DatabaseError),
        LookupOutcome::Found(record) => match (record.latitude, record.longitude) {
            (Some(latitude), Some(longitude)) => match name_in(
                record.country_names@,
                wanted_locale(),
            ) {
                Some(country_name) => Ok(GeoModel { latitude, longitude, country_name }),
                None => Err(LookupFailure::MissingCountryName),
            },
            _ => Err(LookupFailure::MissingCoordinates),
        },
    }
}

/// Finds the first entry in the given language.
pub fn find_name(names: &Vec<LocaleName>, locale: &str) -> (r: Option<usize>)
    ensures
        r matches Some(i) ==> i < names.len() && leftmost(
            names@.len() as int,
            in_locale(names@, locale@),
        ) == Some(i as int),
        r is None ==> leftmost(names@.len() as int, in_locale(names@, locale@)) is None,
{
    let wanted = locale.to_owned();
    let mut i: usize = 0;
    while i < names.len()
        invariant
            wanted@ == locale@,
            forall|p: int| 0 <= p < i ==> !#[trigger] in_locale(names@, locale@)(p),
        decreases names.len() - i,
    {
        if names[i].locale == wanted {
            proof {
                assert(in_locale(names@, locale@)(i as int));
                assert(is_leftmost(names@.len() as int, i as int, in_locale(names@, locale@)));
                lemma_leftmost_found(names@.len() as int, i as int, in_locale(names@, locale@));
            }
            return Some(i);
        }
        i += 1;
    }
    proof {
        lemma_leftmost_absent(names@.len() as int, in_locale(names@, locale@));
    }
    None
}

/// Decides what a lookup contributes to an event: a whole location, or the
/// reason why there is none.
pub fn lookup<C>(outcome: LookupOutcome<C>) -> (r: Result<GeoInfo<C>, LookupFailure>)
    ensures
        r matches Ok(geo) ==> lookup_spec(outcome) == Ok::<GeoModel<C>, LookupFailure>(geo@),
        r matches Err(failure) ==> lookup_spec(outcome) == Err::<GeoModel<C>, LookupFailure>(
            failure,
        ),
{
    match outcome {
        LookupOutcome::MalformedAddress => Err(LookupFailure::MalformedAddress),
        LookupOutcome::NoEntry => Err(LookupFailure::NoEntry),
        LookupOutcome::DatabaseError => Err(LookupFailure::DatabaseError),
        LookupOutcome::Found(record) => {
            let LocationRecord { latitude, longitude, country_names } = record;
            match (latitude, longitude) {
                (Some(latitude), Some(longitude)) => match find_name(&country_names, "en") {
                    Some(i) => Ok(
                        GeoInfo { latitude, longitude, country_name: country_names[i].name.clone() },
                    ),
                    None => Err(LookupFailure::MissingCountryName),
                },
                _ => Err(LookupFailure::MissingCoordinates),
            }
        },
    }
}

} // verus!
