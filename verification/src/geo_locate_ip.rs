//! The country of a client, as decided from a lookup in the country
//! database.

use vstd::prelude::*;

verus! {

/// What a lookup of an address in the country database gave.
pub enum GeoLookup {
    /// The lookup or the decoding of its record failed.
    Failed,
    /// The database holds no record for the address.
    NotFound,
    /// The record found, with its ISO country code where it has one.
    Found(Option<String>),
}

/// The country of a lookup: the ISO code of the record found; nothing
/// where the lookup failed or found no record. A record without a code
/// is not accepted.
pub fn country_from_lookup(lookup: GeoLookup) -> (r: Option<String>)
    requires
        !(lookup matches GeoLookup::Found(None)),
    ensures
        match lookup {
            GeoLookup::Found(Some(code)) => r == Some(code),
            _ => r is None,
        },
{
    match lookup {
        GeoLookup::Found(Some(code)) => Some(code),
        _ => None,
    }
}

} // verus!
