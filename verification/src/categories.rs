//! Removal-safety categories a package can be assigned to, and the
//! mapping from a category's bit value to its display name.

use vstd::prelude::*;

verus! {

pub const RECOMMENDED: u8 = 0b10000;

pub const ADVANCED: u8 = 0b01000;

pub const EXPERT: u8 = 0b00100;

pub const UNSAFE: u8 = 0b00010;

pub const UNIDENTIFIED: u8 = 0b00001;

/// The display name for a category bit value; every value outside the
/// four named categories reads as unidentified.
pub open spec fn spec_value_to_name(value: u8) -> Seq<char> {
    if value == RECOMMENDED {
        "Recommended"@
    } else if value == ADVANCED {
        "Advanced"@
    } else if value == EXPERT {
        "Expert"@
    } else if value == UNSAFE {
        "Unsafe"@
    } else {
        "Unidentified"@
    }
}

pub fn value_to_name(value: u8) -> (r: &'static str)
    ensures
        r@ == spec_value_to_name(value),
{
    match value {
        RECOMMENDED => "Recommended",
        ADVANCED => "Advanced",
        EXPERT => "Expert",
        UNSAFE => "Unsafe",
        _ => "Unidentified",
    }
}

} // verus!
