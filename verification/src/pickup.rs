//! Collection kinds and single pickup records, with their fixed ordering
//! (Recyclables < Organics < Trash), their display renderings, and the
//! parser that turns raw text fragments into records.

use vstd::prelude::*;
use vstd::string::StringExecFns;

use crate::date::{parse_date, spec_parse_date, Date};
use crate::error::Error;
use crate::text::str_eq;

verus! {

/// The closed set of collection kinds.
#[derive(Clone, Copy, PartialEq, Eq, Structural, Debug, Hash)]
pub enum PickupType {
    Recyclables,
    Organics,
    Trash,
}

/// The fixed sort rank of a kind: Recyclables < Organics < Trash.
pub open spec fn kind_rank(k: PickupType) -> int {
    match k {
        PickupType::Recyclables => 0,
        PickupType::Organics => 1,
        PickupType::Trash => 2,
    }
}

/// The canonical machine name of each kind, as the scraped page spells it.
pub open spec fn spec_kind_name(k: PickupType) -> Seq<char> {
    match k {
        PickupType::Recyclables => "Recyclables"@,
        PickupType::Organics => "Organics"@,
        PickupType::Trash => "Trash"@,
    }
}

/// The whimsical display rendering: the kind name decorated with an emoji.
pub open spec fn spec_whimsical_name(k: PickupType) -> Seq<char> {
    match k {
        PickupType::Recyclables => "♻️ Recyclables"@,
        PickupType::Organics => "🌳 Organics"@,
        PickupType::Trash => "🗑️ Trash"@,
    }
}

/// What `display_string` returns for each kind and display mode.
pub open spec fn spec_display_string(k: PickupType, whimsy: bool) -> Seq<char> {
    if whimsy {
        spec_whimsical_name(k)
    } else {
        spec_kind_name(k)
    }
}

/// Which kind a raw fragment names: an exact, case-sensitive match against
/// one of the three canonical names, or nothing.
pub open spec fn spec_parse_kind(s: Seq<char>) -> Option<PickupType> {
    if s == spec_kind_name(PickupType::Recyclables) {
        Some(PickupType::Recyclables)
    } else if s == spec_kind_name(PickupType::Organics) {
        Some(PickupType::Organics)
    } else if s == spec_kind_name(PickupType::Trash) {
        Some(PickupType::Trash)
    } else {
        None
    }
}

impl PickupType {
    /// Renders the kind for display: with `whimsy` the emoji-decorated
    /// form, without it the bare canonical name.
    pub fn display_string(&self, whimsy: bool) -> (r: String)
        ensures
            r@ == spec_display_string(*self, whimsy),
    {
        if whimsy {
            match self {
                PickupType::Recyclables => String::from_str("♻️ Recyclables"),
                PickupType::Organics => String::from_str("🌳 Organics"),
                PickupType::Trash => String::from_str("🗑️ Trash"),
            }
        } else {
            match self {
                PickupType::Recyclables => String::from_str("Recyclables"),
                PickupType::Organics => String::from_str("Organics"),
                PickupType::Trash => String::from_str("Trash"),
            }
        }
    }

    /// Parses a canonical kind name. Rejects, with `ParseError`, every
    /// string that is not exactly one of the three canonical names.
    pub fn parse_name(s: &str) -> (r: Result<PickupType, Error>)
        ensures
            match r {
                Ok(k) => spec_parse_kind(s@) == Some(k),
                Err(e) => spec_parse_kind(s@) is None && e == Error::ParseError,
            },
    {
        if str_eq(s, "Recyclables") {
            Ok(PickupType::Recyclables)
        } else if str_eq(s, "Organics") {
            Ok(PickupType::Organics)
        } else if str_eq(s, "Trash") {
            Ok(PickupType::Trash)
        } else {
            Err(Error::ParseError)
        }
    }
}

/// One observed or synthesized pickup: a collection kind on a calendar date.
#[derive(Clone, Copy, PartialEq, Eq, Structural, Debug)]
pub struct Pickup {
    pub date: Date,
    pub name: PickupType,
}

impl Pickup {
    pub fn new(name: PickupType, date: Date) -> (r: Pickup)
        ensures
            r == (Pickup { date, name }),
    {
        Pickup { date, name }
    }

    /// Parses one raw fragment, already split by the page-structure
    /// extractor into its kind-name text and its date text. Fails with
    /// `ParseError` unless the kind is canonical and the date is a real
    /// calendar day written as month/day/4-digit-year.
    pub fn parse(name: &str, date: &str) -> (r: Result<Pickup, Error>)
        ensures
            match r {
                Ok(p) => spec_parse_record(name@, date@) == Some(p),
                Err(e) => spec_parse_record(name@, date@) is None && e == Error::ParseError,
            },
    {
        let kind = PickupType::parse_name(name)?;
        let d = parse_date(date)?;
        Ok(Pickup { date: d, name: kind })
    }
}

/// What parsing a raw (kind text, date text) fragment yields, if anything.
pub open spec fn spec_parse_record(name: Seq<char>, date: Seq<char>) -> Option<Pickup> {
    match (spec_parse_kind(name), spec_parse_date(date)) {
        (Some(k), Some(d)) => Some(Pickup { date: d, name: k }),
        _ => None,
    }
}

} // verus!
