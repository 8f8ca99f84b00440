//! Marker bytes of the packstream wire format and the integer ranges that
//! decide which integer encoding a value takes.

use vstd::prelude::*;

verus! {

pub const NULL: u8 = 0xC0;
pub const TRUE: u8 = 0xC3;
pub const FALSE: u8 = 0xC2;

pub const TINY_INT_NEG_NIBBLE: u8 = 0xF0;

pub const INT_8: u8 = 0xC8;
pub const INT_16: u8 = 0xC9;
pub const INT_32: u8 = 0xCA;
pub const INT_64: u8 = 0xCB;

pub const RANGE_POS_INT_64: (i64, i64) = (2_147_483_648, 9_223_372_036_854_775_807);
pub const RANGE_POS_INT_32: (i64, i64) = (32_768, 2_147_483_647);
pub const RANGE_POS_INT_16: (i64, i64) = (128, 32_767);
pub const RANGE_TINY_INT: (i64, i64) = (-16, 127);
pub const RANGE_NEG_INT_8: (i64, i64) = (-128, -17);
pub const RANGE_NEG_INT_16: (i64, i64) = (-32_768, -129);
pub const RANGE_NEG_INT_32: (i64, i64) = (-2_147_483_648, -32_769);
pub const RANGE_NEG_INT_64: (i64, i64) = (-9_223_372_036_854_775_808, -2_147_483_649);

pub const FLOAT: u8 = 0xC1;

pub const TINY_STRING_NIBBLE: u8 = 0x80;
pub const STRING_8: u8 = 0xD0;
pub const STRING_16: u8 = 0xD1;
pub const STRING_32: u8 = 0xD2;

pub const TINY_LIST_NIBBLE: u8 = 0x90;
pub const LIST_8: u8 = 0xD4;
pub const LIST_16: u8 = 0xD5;
pub const LIST_32: u8 = 0xD6;

pub const TINY_MAP_NIBBLE: u8 = 0xA0;
pub const MAP_8: u8 = 0xD8;
pub const MAP_16: u8 = 0xD9;
pub const MAP_32: u8 = 0xDA;

pub const TINY_STRUCT_NIBBLE: u8 = 0xB0;
pub const STRUCT_8: u8 = 0xDC;
pub const STRUCT_16: u8 = 0xDD;

/// Largest size that fits in the low nibble of a marker byte.
pub const USE_TINY: u64 = 15;
/// Largest size written with a one-byte length field.
pub const USE_8: u64 = 255;
/// Largest size written with a two-byte length field.
pub const USE_16: u64 = 65_535;
/// Largest size written with a four-byte length field.
pub const USE_32: u64 = 4_294_967_295;

/// The two-byte chunk header that ends a message.
pub const END: u16 = 0x0000;

} // verus!
