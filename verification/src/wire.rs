//! Wire-type tags: the small integer codes, embedded in field and
//! collection headers, that say how the following bytes are structured.
//! The two boolean tags carry the value itself, so a boolean field
//! consumes no value bytes.

use vstd::prelude::*;

verus! {

/// A wire-type tag. `BoolTrue` and `BoolFalse` are two distinct codes:
/// in a field header they carry the boolean value inline.
#[derive(Clone, Copy, Debug, PartialEq, Eq, Structural)]
pub enum WireType {
    BoolTrue,
    BoolFalse,
    I8,
    I16,
    I32,
    I64,
    Double,
    Binary,
    List,
    SetOf,
    MapOf,
    Struct,
}

/// The wire type a tag nibble denotes, `None` outside the known set.
pub open spec fn spec_wire_of(tag: u8) -> Option<WireType> {
    if tag == 1 {
        Some(WireType::BoolTrue)
    } else if tag == 2 {
        Some(WireType::BoolFalse)
    } else if tag == 3 {
        Some(WireType::I8)
    } else if tag == 4 {
        Some(WireType::I16)
    } else if tag == 5 {
        Some(WireType::I32)
    } else if tag == 6 {
        Some(WireType::I64)
    } else if tag == 7 {
        Some(WireType::Double)
    } else if tag == 8 {
        Some(WireType::Binary)
    } else if tag == 9 {
        Some(WireType::List)
    } else if tag == 10 {
        Some(WireType::SetOf)
    } else if tag == 11 {
        Some(WireType::MapOf)
    } else if tag == 12 {
        Some(WireType::Struct)
    } else {
        None
    }
}

/// The tag nibble of a wire type: the inverse of `spec_wire_of`.
pub open spec fn spec_tag_of(w: WireType) -> u8 {
    match w {
        WireType::BoolTrue => 1,
        WireType::BoolFalse => 2,
        WireType::I8 => 3,
        WireType::I16 => 4,
        WireType::I32 => 5,
        WireType::I64 => 6,
        WireType::Double => 7,
        WireType::Binary => 8,
        WireType::List => 9,
        WireType::SetOf => 10,
        WireType::MapOf => 11,
        WireType::Struct => 12,
    }
}

/// Maps a tag nibble to its wire type.
pub fn wire_of(tag: u8) -> (r: Option<WireType>)
    ensures
        r == spec_wire_of(tag),
{
    match tag {
        1 => Some(WireType::BoolTrue),
        2 => Some(WireType::BoolFalse),
        3 => Some(WireType::I8),
        4 => Some(WireType::I16),
        5 => Some(WireType::I32),
        6 => Some(WireType::I64),
        7 => Some(WireType::Double),
        8 => Some(WireType::Binary),
        9 => Some(WireType::List),
        10 => Some(WireType::SetOf),
        11 => Some(WireType::MapOf),
        12 => Some(WireType::Struct),
        _ => None,
    }
}

} // verus!
