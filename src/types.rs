//! Classification of marker bytes.

use vstd::prelude::*;
use crate::markers;

verus! {

/// A positive tiny integer: the byte is the value.
pub fn is_tiny_int_pos(b: u8) -> (r: bool)
    ensures
        r == (b <= 0x7F),
{
    b <= 0x7F
}

/// A negative tiny integer: the low nibble of `0xF0`..`0xFF`.
pub fn is_tiny_int_neg(b: u8) -> (r: bool)
    ensures
        r == (b >= 0xF0),
{
    b >= markers::TINY_INT_NEG_NIBBLE
}

pub open spec fn spec_is_tiny_int(b: u8) -> bool {
    b <= 0x7F || b >= 0xF0
}

pub fn is_tiny_int(b: u8) -> (r: bool)
    ensures
        r == spec_is_tiny_int(b),
{
    is_tiny_int_pos(b) || is_tiny_int_neg(b)
}

/// The value of a tiny integer byte: the byte itself below `0x80`, else its
/// low nibble read as a negative number.
pub fn read_tiny_int(b: u8) -> (r: i8)
    ensures
        r == (if b <= 0x7F {
            b as int
        } else {
            b % 16 - 16
        }),
{
    if is_tiny_int_pos(b) {
        b as i8
    } else {
        ((b % 16) as i8) - 16
    }
}

pub fn is_tiny_string(b: u8) -> (r: bool)
    ensures
        r == (0x80 <= b <= 0x8F),
{
    markers::TINY_STRING_NIBBLE <= b && b <= 0x8F
}

pub fn is_tiny_list(b: u8) -> (r: bool)
    ensures
        r == (0x90 <= b <= 0x9F),
{
    markers::TINY_LIST_NIBBLE <= b && b <= 0x9F
}

pub fn is_tiny_map(b: u8) -> (r: bool)
    ensures
        r == (0xA0 <= b <= 0xAF),
{
    markers::TINY_MAP_NIBBLE <= b && b <= 0xAF
}

pub fn is_tiny_structure(b: u8) -> (r: bool)
    ensures
        r == (0xB0 <= b <= 0xBF),
{
    markers::TINY_STRUCT_NIBBLE <= b && b <= 0xBF
}

/// The bytes that start an integer of at most 8 bits.
pub open spec fn spec_is_int8_or_lesser(b: u8) -> bool {
    b == 0xC8 || spec_is_tiny_int(b)
}

pub open spec fn spec_is_int16_or_lesser(b: u8) -> bool {
    b == 0xC9 || spec_is_int8_or_lesser(b)
}

pub open spec fn spec_is_int32_or_lesser(b: u8) -> bool {
    b == 0xCA || spec_is_int16_or_lesser(b)
}

pub open spec fn spec_is_int64_or_lesser(b: u8) -> bool {
    b == 0xCB || spec_is_int32_or_lesser(b)
}

pub fn is_int8_or_lesser(b: u8) -> (r: bool)
    ensures
        r == spec_is_int8_or_lesser(b),
{
    b == markers::INT_8 || is_tiny_int(b)
}

pub fn is_int16_or_lesser(b: u8) -> (r: bool)
    ensures
        r == spec_is_int16_or_lesser(b),
{
    b == markers::INT_16 || is_int8_or_lesser(b)
}

pub fn is_int32_or_lesser(b: u8) -> (r: bool)
    ensures
        r == spec_is_int32_or_lesser(b),
{
    b == markers::INT_32 || is_int16_or_lesser(b)
}

pub fn is_int64_or_lesser(b: u8) -> (r: bool)
    ensures
        r == spec_is_int64_or_lesser(b),
{
    b == markers::INT_64 || is_int32_or_lesser(b)
}

pub open spec fn spec_is_string(b: u8) -> bool {
    0x80 <= b <= 0x8F || 0xD0 <= b <= 0xD2
}

pub open spec fn spec_is_list(b: u8) -> bool {
    0x90 <= b <= 0x9F || 0xD4 <= b <= 0xD6
}

pub open spec fn spec_is_map(b: u8) -> bool {
    0xA0 <= b <= 0xAF || 0xD8 <= b <= 0xDA
}

pub open spec fn spec_is_structure(b: u8) -> bool {
    0xB0 <= b <= 0xBF || b == 0xDC || b == 0xDD
}

/// The markers of a string in any tier.
pub fn is_string(b: u8) -> (r: bool)
    ensures
        r == spec_is_string(b),
{
    is_tiny_string(b) || b == markers::STRING_8 || b == markers::STRING_16 || b
        == markers::STRING_32
}

/// The markers of a list in any tier.
pub fn is_list(b: u8) -> (r: bool)
    ensures
        r == spec_is_list(b),
{
    is_tiny_list(b) || b == markers::LIST_8 || b == markers::LIST_16 || b == markers::LIST_32
}

/// The markers of a map in any tier.
pub fn is_map(b: u8) -> (r: bool)
    ensures
        r == spec_is_map(b),
{
    is_tiny_map(b) || b == markers::MAP_8 || b == markers::MAP_16 || b == markers::MAP_32
}

/// The markers of a structure in any tier.
pub fn is_structure(b: u8) -> (r: bool)
    ensures
        r == spec_is_structure(b),
{
    is_tiny_structure(b) || b == markers::STRUCT_8 || b == markers::STRUCT_16
}

/// The name of the kind and tier that a marker byte starts.
pub open spec fn marker_name(b: u8) -> Option<&'static str> {
    if b == 0xC0 {
        Some("NULL")
    } else if b == 0xC3 {
        Some("TRUE")
    } else if b == 0xC2 {
        Some("FALSE")
    } else if spec_is_tiny_int(b) {
        Some("TINY_INT")
    } else if b == 0xC8 {
        Some("INT_8")
    } else if b == 0xC9 {
        Some("INT_16")
    } else if b == 0xCA {
        Some("INT_32")
    } else if b == 0xCB {
        Some("INT_64")
    } else if b == 0xC1 {
        Some("FLOAT")
    } else if 0x80 <= b <= 0x8F {
        Some("TINY_STRING")
    } else if b == 0xD0 {
        Some("STRING_8")
    } else if b == 0xD1 {
        Some("STRING_16")
    } else if b == 0xD2 {
        Some("STRING_32")
    } else if 0x90 <= b <= 0x9F {
        Some("TINY_LIST")
    } else if b == 0xD4 {
        Some("LIST_8")
    } else if b == 0xD5 {
        Some("LIST_16")
    } else if b == 0xD6 {
        Some("LIST_32")
    } else if 0xA0 <= b <= 0xAF {
        Some("TINY_MAP")
    } else if b == 0xD8 {
        Some("MAP_8")
    } else if b == 0xD9 {
        Some("MAP_16")
    } else if b == 0xDA {
        Some("MAP_32")
    } else if 0xB0 <= b <= 0xBF {
        Some("TINY_STRUCT")
    } else if b == 0xDC {
        Some("STRUCT_8")
    } else if b == 0xDD {
        Some("STRUCT_16")
    } else {
        None
    }
}

/// The name of the kind and tier that a marker byte starts, if it starts one.
pub fn which(b: u8) -> (r: Option<&'static str>)
    ensures
        r == marker_name(b),
{
    if b == markers::NULL {
        Some("NULL")
    } else if b == markers::TRUE {
        Some("TRUE")
    } else if b == markers::FALSE {
        Some("FALSE")
    } else if is_tiny_int(b) {
        Some("TINY_INT")
    } else if b == markers::INT_8 {
        Some("INT_8")
    } else if b == markers::INT_16 {
        Some("INT_16")
    } else if b == markers::INT_32 {
        Some("INT_32")
    } else if b == markers::INT_64 {
        Some("INT_64")
    } else if b == markers::FLOAT {
        Some("FLOAT")
    } else if is_tiny_string(b) {
        Some("TINY_STRING")
    } else if b == markers::STRING_8 {
        Some("STRING_8")
    } else if b == markers::STRING_16 {
        Some("STRING_16")
    } else if b == markers::STRING_32 {
        Some("STRING_32")
    } else if is_tiny_list(b) {
        Some("TINY_LIST")
    } else if b == markers::LIST_8 {
        Some("LIST_8")
    } else if b == markers::LIST_16 {
        Some("LIST_16")
    } else if b == markers::LIST_32 {
        Some("LIST_32")
    } else if is_tiny_map(b) {
        Some("TINY_MAP")
    } else if b == markers::MAP_8 {
        Some("MAP_8")
    } else if b == markers::MAP_16 {
        Some("MAP_16")
    } else if b == markers::MAP_32 {
        Some("MAP_32")
    } else if is_tiny_structure(b) {
        Some("TINY_STRUCT")
    } else if b == markers::STRUCT_8 {
        Some("STRUCT_8")
    } else if b == markers::STRUCT_16 {
        Some("STRUCT_16")
    } else {
        None
    }
}

} // verus!
