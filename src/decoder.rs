//! Reads values of shapes known in advance: the next item must be an integer
//! that fits a given width, a string, a list, a map or a structure of a
//! given arity.

use vstd::prelude::*;
use vstd::string::StrSliceExecFns;
use crate::deserialize::{DeserializerError, read_len, read_value};
use crate::endian::lemma_be_bounds;
use crate::format::{parse_value, parse_len, tier_width};
use crate::markers;
use crate::types::{
    is_int8_or_lesser,
    is_int16_or_lesser,
    is_int32_or_lesser,
    is_int64_or_lesser,
    is_list,
    is_map,
    is_string,
    is_structure,
    marker_name,
    spec_is_int8_or_lesser,
    spec_is_int16_or_lesser,
    spec_is_int32_or_lesser,
    spec_is_int64_or_lesser,
    spec_is_list,
    spec_is_map,
    spec_is_string,
    spec_is_structure,
    which,
};
use crate::value::{Val, Value, bytes_equal};

verus! {

/// Why the next item does not have the expected shape.
#[derive(Debug, Clone, PartialEq, Eq)]
pub enum DecoderError {
    /// The marker names another kind or tier: what was expected, what was
    /// found.
    UnexpectedMarker(String, String),
    /// The item is of the expected kind but not the expected value: what was
    /// expected, what was found.
    UnexpectedInput(String, String),
    /// A structure field has another name: the name found, the name
    /// expected.
    WrongField(String, String),
    /// The bytes of a string are not UTF-8.
    InvalidUTF8,
    /// The input ended inside an item.
    UnexpectedEOF,
}

/// Relies on `format!`: a hexadecimal rendering of a byte for messages.
#[verifier::external_body]
fn hex_text(b: u8) -> String {
    format!("0x{:02X}", b)
}

/// Relies on `format!`: the text of a structure name and arity for messages.
#[verifier::external_body]
fn arity_text(name: &str, n: usize) -> String {
    format!("{} ({} fields)", name, n)
}

/// `r` reports a marker of another kind than `expected`, naming the one
/// found.
pub open spec fn wrong_marker<T>(r: Result<T, DecoderError>, expected: &str, m: u8) -> bool {
    r matches Err(DecoderError::UnexpectedMarker(e, g)) && e@ == expected@ && (marker_name(m) matches Some(n) ==> g@ == n@)
}

fn marker_error(expected: &str, m: u8) -> (r: DecoderError)
    ensures
        r matches DecoderError::UnexpectedMarker(e, g) && e@ == expected@ && (marker_name(m) matches Some(n) ==> g@ == n@),
{
    let got = match which(m) {
        Some(n) => n.to_owned(),
        None => hex_text(m),
    };
    DecoderError::UnexpectedMarker(expected.to_owned(), got)
}

/// The decoder's error for a failure of the value reader.
pub open spec fn from_value_error(e: DeserializerError) -> DecoderError {
    match e {
        DeserializerError::InvalidUTF8 => DecoderError::InvalidUTF8,
        _ => DecoderError::UnexpectedEOF,
    }
}

/// The size that a string, list or map header at `p` declares, and where
/// the header ends.
pub open spec fn parse_size(b: Seq<u8>, p: int) -> Result<(nat, int), DeserializerError> {
    let m = b[p];
    if 0x80 <= m <= 0xAF {
        Ok(((m % 16) as nat, p + 1))
    } else {
        parse_len(b, p + 1, tier_width((m % 4) as int))
    }
}

/// The field count that a structure header at `p` declares, and where the
/// count ends.
pub open spec fn parse_struct_size(b: Seq<u8>, p: int) -> Result<(nat, int), DeserializerError> {
    let m = b[p];
    if 0xB0 <= m <= 0xBF {
        Ok(((m % 16) as nat, p + 1))
    } else if m == 0xDC {
        parse_len(b, p + 1, 1)
    } else {
        parse_len(b, p + 1, 2)
    }
}

/// The kind of a record being read: a map of named fields (`Fields`) or a tagged
/// structure of positional fields.
#[derive(Debug, Clone, Copy, PartialEq, Eq, Structural)]
pub enum StructState {
    Fields,
    Structure,
}

/// Reads items of known shape from a buffer of packstream bytes.
pub struct PackstreamDecoder {
    bytes: Vec<u8>,
    pos: usize,
    struct_stack: Vec<StructState>,
}

impl PackstreamDecoder {
    /// A decoder at the start of `bytes`.
    pub fn new(bytes: Vec<u8>) -> (r: Self)
        ensures
            r.wf(),
            r.input() == bytes@,
            r.position() == 0,
    {
        let _len = bytes.len();
        PackstreamDecoder { bytes, pos: 0, struct_stack: Vec::new() }
    }

    /// The bytes being read.
    pub closed spec fn input(&self) -> Seq<u8> {
        self.bytes@
    }

    /// Where the next item starts.
    pub closed spec fn position(&self) -> int {
        self.pos as int
    }

    /// The kinds of the records being read, innermost last.
    pub closed spec fn open_structs(&self) -> Seq<StructState> {
        self.struct_stack@
    }

    pub closed spec fn wf(&self) -> bool {
        self.pos <= self.bytes@.len() <= usize::MAX
    }

    /// The marker of the next item.
    pub open spec fn next_marker(&self) -> u8 {
        self.input()[self.position()]
    }

    /// Whether the input ends before the next item.
    pub open spec fn at_end(&self) -> bool {
        self.position() >= self.input().len()
    }

    fn peek(&self) -> (r: Result<u8, DecoderError>)
        requires
            self.wf(),
        ensures
            self.at_end() ==> r == Err::<u8, DecoderError>(DecoderError::UnexpectedEOF),
            !self.at_end() ==> r == Ok::<u8, DecoderError>(self.next_marker()),
    {
        if self.pos >= self.bytes.len() {
            Err(DecoderError::UnexpectedEOF)
        } else {
            Ok(self.bytes[self.pos])
        }
    }

    /// Reads a null.
    pub fn read_nil(&mut self) -> (r: Result<(), DecoderError>)
        requires
            old(self).wf(),
        ensures
            final(self).wf(),
            final(self).input() == old(self).input(),
            final(self).open_structs() == old(self).open_structs(),
            old(self).at_end() ==> r == Err::<(), DecoderError>(DecoderError::UnexpectedEOF),
            !old(self).at_end() && old(self).next_marker() == 0xC0 ==> r is Ok
                && final(self).position() == old(self).position() + 1,
            !old(self).at_end() && old(self).next_marker() != 0xC0 ==> wrong_marker(
                r,
                "NULL",
                old(self).next_marker(),
            ),
            r is Err ==> final(self).position() == old(self).position(),
    {
        let m = self.peek()?;
        if m != markers::NULL {
            return Err(marker_error("NULL", m));
        }
        self.pos = self.pos + 1;
        Ok(())
    }

    /// Reads a boolean.
    pub fn read_bool(&mut self) -> (r: Result<bool, DecoderError>)
        requires
            old(self).wf(),
        ensures
            final(self).wf(),
            final(self).input() == old(self).input(),
            final(self).open_structs() == old(self).open_structs(),
            old(self).at_end() ==> r == Err::<bool, DecoderError>(DecoderError::UnexpectedEOF),
            !old(self).at_end() ==> match old(self).next_marker() {
                0xC3u8 => r == Ok::<bool, DecoderError>(true),
                0xC2u8 => r == Ok::<bool, DecoderError>(false),
                m => wrong_marker(r, "BOOLEAN", m),
            },
            r is Ok ==> final(self).position() == old(self).position() + 1,
            r is Err ==> final(self).position() == old(self).position(),
    {
        let m = self.peek()?;
        if m == markers::TRUE {
            self.pos = self.pos + 1;
            Ok(true)
        } else if m == markers::FALSE {
            self.pos = self.pos + 1;
            Ok(false)
        } else {
            Err(marker_error("BOOLEAN", m))
        }
    }

    /// Reads an integer of any tier, its marker already known to start one.
    fn read_int(&mut self) -> (r: Result<i64, DecoderError>)
        requires
            old(self).wf(),
            !old(self).at_end(),
            spec_is_int64_or_lesser(old(self).next_marker()),
        ensures
            final(self).wf(),
            final(self).input() == old(self).input(),
            final(self).open_structs() == old(self).open_structs(),
            match parse_value(old(self).input(), old(self).position()) {
                Ok((Val::Integer(v), q)) => r == Ok::<i64, DecoderError>(v)
                    && final(self).position() == q,
                _ => r == Err::<i64, DecoderError>(DecoderError::UnexpectedEOF)
                    && final(self).position() == old(self).position(),
            },
            spec_is_int32_or_lesser(old(self).next_marker()) ==> (r matches Ok(v) ==> -2147483648
                <= v < 2147483648),
            spec_is_int16_or_lesser(old(self).next_marker()) ==> (r matches Ok(v) ==> -32768 <= v
                < 32768),
            spec_is_int8_or_lesser(old(self).next_marker()) ==> (r matches Ok(v) ==> -128 <= v
                < 128),
    {
        proof {
            let b = self.bytes@;
            let p = self.pos as int;
            if p + 3 <= b.len() {
                lemma_be_bounds(b.subrange(p + 1, p + 3));
            }
            if p + 5 <= b.len() {
                lemma_be_bounds(b.subrange(p + 1, p + 5));
            }
        }
        match read_value(self.bytes.as_slice(), self.pos) {
            Ok((Value::Integer(v), q)) => {
                self.pos = q;
                Ok(v)
            },
            _ => Err(DecoderError::UnexpectedEOF),
        }
    }

    /// Reads an integer written in the tier of `i64` or a narrower one.
    pub fn read_i64(&mut self) -> (r: Result<i64, DecoderError>)
        requires
            old(self).wf(),
        ensures
            final(self).wf(),
            final(self).input() == old(self).input(),
            final(self).open_structs() == old(self).open_structs(),
            old(self).at_end() ==> r == Err::<i64, DecoderError>(DecoderError::UnexpectedEOF),
            !old(self).at_end() && !spec_is_int64_or_lesser(old(self).next_marker()) ==> wrong_marker(
                r,
                "INT_64",
                old(self).next_marker(),
            ),
            !old(self).at_end() && spec_is_int64_or_lesser(old(self).next_marker()) ==> match parse_value(
                old(self).input(),
                old(self).position(),
            ) {
                Ok((Val::Integer(v), q)) => r matches Ok(x) && x as i64 == v && final(self).position() == q,
                _ => r == Err::<i64, DecoderError>(DecoderError::UnexpectedEOF),
            },
            r is Err ==> final(self).position() == old(self).position(),
    {
        let m = self.peek()?;
        if !is_int64_or_lesser(m) {
            return Err(marker_error("INT_64", m));
        }
        let v = self.read_int()?;
        Ok(v as i64)
    }

    /// Reads an integer written in the tier of `i32` or a narrower one.
    pub fn read_i32(&mut self) -> (r: Result<i32, DecoderError>)
        requires
            old(self).wf(),
        ensures
            final(self).wf(),
            final(self).input() == old(self).input(),
            final(self).open_structs() == old(self).open_structs(),
            old(self).at_end() ==> r == Err::<i32, DecoderError>(DecoderError::UnexpectedEOF),
            !old(self).at_end() && !spec_is_int32_or_lesser(old(self).next_marker()) ==> wrong_marker(
                r,
                "INT_32",
                old(self).next_marker(),
            ),
            !old(self).at_end() && spec_is_int32_or_lesser(old(self).next_marker()) ==> match parse_value(
                old(self).input(),
                old(self).position(),
            ) {
                Ok((Val::Integer(v), q)) => r matches Ok(x) && x as i64 == v && final(self).position() == q,
                _ => r == Err::<i32, DecoderError>(DecoderError::UnexpectedEOF),
            },
            r is Err ==> final(self).position() == old(self).position(),
    {
        let m = self.peek()?;
        if !is_int32_or_lesser(m) {
            return Err(marker_error("INT_32", m));
        }
        let v = self.read_int()?;
        Ok(v as i32)
    }

    /// Reads an integer written in the tier of `i16` or a narrower one.
    pub fn read_i16(&mut self) -> (r: Result<i16, DecoderError>)
        requires
            old(self).wf(),
        ensures
            final(self).wf(),
            final(self).input() == old(self).input(),
            final(self).open_structs() == old(self).open_structs(),
            old(self).at_end() ==> r == Err::<i16, DecoderError>(DecoderError::UnexpectedEOF),
            !old(self).at_end() && !spec_is_int16_or_lesser(old(self).next_marker()) ==> wrong_marker(
                r,
                "INT_16",
                old(self).next_marker(),
            ),
            !old(self).at_end() && spec_is_int16_or_lesser(old(self).next_marker()) ==> match parse_value(
                old(self).input(),
                old(self).position(),
            ) {
                Ok((Val::Integer(v), q)) => r matches Ok(x) && x as i64 == v && final(self).position() == q,
                _ => r == Err::<i16, DecoderError>(DecoderError::UnexpectedEOF),
            },
            r is Err ==> final(self).position() == old(self).position(),
    {
        let m = self.peek()?;
        if !is_int16_or_lesser(m) {
            return Err(marker_error("INT_16", m));
        }
        let v = self.read_int()?;
        Ok(v as i16)
    }

    /// Reads an integer written in the tier of `i8` or a narrower one.
    pub fn read_i8(&mut self) -> (r: Result<i8, DecoderError>)
        requires
            old(self).wf(),
        ensures
            final(self).wf(),
            final(self).input() == old(self).input(),
            final(self).open_structs() == old(self).open_structs(),
            old(self).at_end() ==> r == Err::<i8, DecoderError>(DecoderError::UnexpectedEOF),
            !old(self).at_end() && !spec_is_int8_or_lesser(old(self).next_marker()) ==> wrong_marker(
                r,
                "INT_8",
                old(self).next_marker(),
            ),
            !old(self).at_end() && spec_is_int8_or_lesser(old(self).next_marker()) ==> match parse_value(
                old(self).input(),
                old(self).position(),
            ) {
                Ok((Val::Integer(v), q)) => r matches Ok(x) && x as i64 == v && final(self).position() == q,
                _ => r == Err::<i8, DecoderError>(DecoderError::UnexpectedEOF),
            },
            r is Err ==> final(self).position() == old(self).position(),
    {
        let m = self.peek()?;
        if !is_int8_or_lesser(m) {
            return Err(marker_error("INT_8", m));
        }
        let v = self.read_int()?;
        Ok(v as i8)
    }

    /// Reads a non-negative integer written in the tier of `i64` or a
    /// narrower one; a negative one is refused.
    pub fn read_u64(&mut self) -> (r: Result<u64, DecoderError>)
        requires
            old(self).wf(),
        ensures
            final(self).wf(),
            final(self).input() == old(self).input(),
            final(self).open_structs() == old(self).open_structs(),
            old(self).at_end() ==> r == Err::<u64, DecoderError>(DecoderError::UnexpectedEOF),
            !old(self).at_end() && !spec_is_int64_or_lesser(old(self).next_marker()) ==> wrong_marker(
                r,
                "INT_64",
                old(self).next_marker(),
            ),
            !old(self).at_end() && spec_is_int64_or_lesser(old(self).next_marker()) ==> match parse_value(
                old(self).input(),
                old(self).position(),
            ) {
                Ok((Val::Integer(v), q)) => if v >= 0 {
                    r matches Ok(x) && x as i64 == v && final(self).position() == q
                } else {
                    r matches Err(DecoderError::UnexpectedInput(e, g)) && e@ == "+INT_64"@ && g@ == "-INTEGER"@
                },
                _ => r == Err::<u64, DecoderError>(DecoderError::UnexpectedEOF),
            },
    {
        let v = self.read_i64()?;
        if v < 0 {
            return Err(DecoderError::UnexpectedInput("+INT_64".to_owned(), "-INTEGER".to_owned()));
        }
        Ok(v as u64)
    }

    /// Reads a non-negative integer written in the tier of `i32` or a
    /// narrower one; a negative one is refused.
    pub fn read_u32(&mut self) -> (r: Result<u32, DecoderError>)
        requires
            old(self).wf(),
        ensures
            final(self).wf(),
            final(self).input() == old(self).input(),
            final(self).open_structs() == old(self).open_structs(),
            old(self).at_end() ==> r == Err::<u32, DecoderError>(DecoderError::UnexpectedEOF),
            !old(self).at_end() && !spec_is_int32_or_lesser(old(self).next_marker()) ==> wrong_marker(
                r,
                "INT_32",
                old(self).next_marker(),
            ),
            !old(self).at_end() && spec_is_int32_or_lesser(old(self).next_marker()) ==> match parse_value(
                old(self).input(),
                old(self).position(),
            ) {
                Ok((Val::Integer(v), q)) => if v >= 0 {
                    r matches Ok(x) && x as i64 == v && final(self).position() == q
                } else {
                    r matches Err(DecoderError::UnexpectedInput(e, g)) && e@ == "+INT_32"@ && g@ == "-INTEGER"@
                },
                _ => r == Err::<u32, DecoderError>(DecoderError::UnexpectedEOF),
            },
    {
        let v = self.read_i32()?;
        if v < 0 {
            return Err(DecoderError::UnexpectedInput("+INT_32".to_owned(), "-INTEGER".to_owned()));
        }
        Ok(v as u32)
    }

    /// Reads a non-negative integer written in the tier of `i16` or a
    /// narrower one; a negative one is refused.
    pub fn read_u16(&mut self) -> (r: Result<u16, DecoderError>)
        requires
            old(self).wf(),
        ensures
            final(self).wf(),
            final(self).input() == old(self).input(),
            final(self).open_structs() == old(self).open_structs(),
            old(self).at_end() ==> r == Err::<u16, DecoderError>(DecoderError::UnexpectedEOF),
            !old(self).at_end() && !spec_is_int16_or_lesser(old(self).next_marker()) ==> wrong_marker(
                r,
                "INT_16",
                old(self).next_marker(),
            ),
            !old(self).at_end() && spec_is_int16_or_lesser(old(self).next_marker()) ==> match parse_value(
                old(self).input(),
                old(self).position(),
            ) {
                Ok((Val::Integer(v), q)) => if v >= 0 {
                    r matches Ok(x) && x as i64 == v && final(self).position() == q
                } else {
                    r matches Err(DecoderError::UnexpectedInput(e, g)) && e@ == "+INT_16"@ && g@ == "-INTEGER"@
                },
                _ => r == Err::<u16, DecoderError>(DecoderError::UnexpectedEOF),
            },
    {
        let v = self.read_i16()?;
        if v < 0 {
            return Err(DecoderError::UnexpectedInput("+INT_16".to_owned(), "-INTEGER".to_owned()));
        }
        Ok(v as u16)
    }

    /// Reads a non-negative integer written in the tier of `i8` or a
    /// narrower one; a negative one is refused.
    pub fn read_u8(&mut self) -> (r: Result<u8, DecoderError>)
        requires
            old(self).wf(),
        ensures
            final(self).wf(),
            final(self).input() == old(self).input(),
            final(self).open_structs() == old(self).open_structs(),
            old(self).at_end() ==> r == Err::<u8, DecoderError>(DecoderError::UnexpectedEOF),
            !old(self).at_end() && !spec_is_int8_or_lesser(old(self).next_marker()) ==> wrong_marker(
                r,
                "INT_8",
                old(self).next_marker(),
            ),
            !old(self).at_end() && spec_is_int8_or_lesser(old(self).next_marker()) ==> match parse_value(
                old(self).input(),
                old(self).position(),
            ) {
                Ok((Val::Integer(v), q)) => if v >= 0 {
                    r matches Ok(x) && x as i64 == v && final(self).position() == q
                } else {
                    r matches Err(DecoderError::UnexpectedInput(e, g)) && e@ == "+INT_8"@ && g@ == "-INTEGER"@
                },
                _ => r == Err::<u8, DecoderError>(DecoderError::UnexpectedEOF),
            },
    {
        let v = self.read_i8()?;
        if v < 0 {
            return Err(DecoderError::UnexpectedInput("+INT_8".to_owned(), "-INTEGER".to_owned()));
        }
        Ok(v as u8)
    }

    /// Reads a float, as the bits of its IEEE-754 double.
    pub fn read_float_bits(&mut self) -> (r: Result<u64, DecoderError>)
        requires
            old(self).wf(),
        ensures
            final(self).wf(),
            final(self).input() == old(self).input(),
            final(self).open_structs() == old(self).open_structs(),
            old(self).at_end() ==> r == Err::<u64, DecoderError>(DecoderError::UnexpectedEOF),
            !old(self).at_end() && old(self).next_marker() != 0xC1 ==> wrong_marker(
                r,
                "FLOAT",
                old(self).next_marker(),
            ),
            !old(self).at_end() && old(self).next_marker() == 0xC1 ==> match parse_value(
                old(self).input(),
                old(self).position(),
            ) {
                Ok((Val::Float(bits), q)) => r == Ok::<u64, DecoderError>(bits) && final(self).position() == q,
                _ => r == Err::<u64, DecoderError>(DecoderError::UnexpectedEOF),
            },
            r is Err ==> final(self).position() == old(self).position(),
    {
        let m = self.peek()?;
        if m != markers::FLOAT {
            return Err(marker_error("FLOAT", m));
        }
        match read_value(self.bytes.as_slice(), self.pos) {
            Ok((Value::Float(bits), q)) => {
                self.pos = q;
                Ok(bits)
            },
            _ => Err(DecoderError::UnexpectedEOF),
        }
    }

    /// Reads a string in any tier.
    pub fn read_str(&mut self) -> (r: Result<String, DecoderError>)
        requires
            old(self).wf(),
        ensures
            final(self).wf(),
            final(self).input() == old(self).input(),
            final(self).open_structs() == old(self).open_structs(),
            old(self).at_end() ==> r == Err::<String, DecoderError>(DecoderError::UnexpectedEOF),
            !old(self).at_end() && !spec_is_string(old(self).next_marker()) ==> wrong_marker(
                r,
                "STRING",
                old(self).next_marker(),
            ),
            !old(self).at_end() && spec_is_string(old(self).next_marker()) ==> match parse_value(
                old(self).input(),
                old(self).position(),
            ) {
                Ok((Val::Str(t), q)) => r matches Ok(s) && s@ == t && final(self).position() == q,
                Err(e) => r == Err::<String, DecoderError>(from_value_error(e)),
                _ => false,
            },
            r is Err ==> final(self).position() == old(self).position(),
    {
        let m = self.peek()?;
        if !is_string(m) {
            return Err(marker_error("STRING", m));
        }
        match read_value(self.bytes.as_slice(), self.pos) {
            Ok((Value::String(s), q)) => {
                self.pos = q;
                Ok(s)
            },
            Err(DeserializerError::InvalidUTF8) => Err(DecoderError::InvalidUTF8),
            _ => Err(DecoderError::UnexpectedEOF),
        }
    }

    /// Reads a string of exactly one character.
    pub fn read_char(&mut self) -> (r: Result<char, DecoderError>)
        requires
            old(self).wf(),
        ensures
            final(self).wf(),
            final(self).input() == old(self).input(),
            final(self).open_structs() == old(self).open_structs(),
            old(self).at_end() ==> r == Err::<char, DecoderError>(DecoderError::UnexpectedEOF),
            !old(self).at_end() && !spec_is_string(old(self).next_marker()) ==> wrong_marker(
                r,
                "STRING",
                old(self).next_marker(),
            ),
            !old(self).at_end() && spec_is_string(old(self).next_marker()) ==> match parse_value(
                old(self).input(),
                old(self).position(),
            ) {
                Ok((Val::Str(t), q)) => if t.len() == 1 {
                    r == Ok::<char, DecoderError>(t[0]) && final(self).position() == q
                } else {
                    r matches Err(DecoderError::UnexpectedInput(e, _)) && e@ == "CHAR"@
                },
                Err(e) => r == Err::<char, DecoderError>(from_value_error(e)),
                _ => false,
            },
    {
        let s = self.read_str()?;
        let n = s.as_str().unicode_len();
        if n == 0 {
            return Err(DecoderError::UnexpectedInput("CHAR".to_owned(), "Empty String".to_owned()));
        }
        if n > 1 {
            return Err(DecoderError::UnexpectedInput("CHAR".to_owned(), "STRING".to_owned()));
        }
        Ok(s.as_str().get_char(0))
    }

    /// Reads the header of a list or map, its marker already known to start
    /// one, and returns the size it declares.
    fn read_size(&mut self) -> (r: Result<usize, DecoderError>)
        requires
            old(self).wf(),
            !old(self).at_end(),
            spec_is_list(old(self).next_marker()) || spec_is_map(old(self).next_marker()),
        ensures
            final(self).wf(),
            final(self).input() == old(self).input(),
            final(self).open_structs() == old(self).open_structs(),
            match parse_size(old(self).input(), old(self).position()) {
                Ok((n, q)) => r == Ok::<usize, DecoderError>(n as usize) && final(self).position() == q,
                Err(_) => r == Err::<usize, DecoderError>(DecoderError::UnexpectedEOF)
                    && final(self).position() == old(self).position(),
            },
    {
        let m = self.bytes[self.pos];
        if m <= 0xAF {
            self.pos = self.pos + 1;
            Ok((m % 16) as usize)
        } else {
            let w: usize = if m % 4 == 0 { 1 } else if m % 4 == 1 { 2 } else { 4 };
            match read_len(self.bytes.as_slice(), self.pos + 1, w) {
                Ok((n, q)) => {
                    self.pos = q;
                    Ok(n)
                },
                Err(_) => Err(DecoderError::UnexpectedEOF),
            }
        }
    }

    /// Reads the header of a list in any tier and returns its length.
    pub fn read_seq(&mut self) -> (r: Result<usize, DecoderError>)
        requires
            old(self).wf(),
        ensures
            final(self).wf(),
            final(self).input() == old(self).input(),
            final(self).open_structs() == old(self).open_structs(),
            old(self).at_end() ==> r == Err::<usize, DecoderError>(DecoderError::UnexpectedEOF),
            !old(self).at_end() && !spec_is_list(old(self).next_marker()) ==> wrong_marker(
                r,
                "LIST",
                old(self).next_marker(),
            ),
            !old(self).at_end() && spec_is_list(old(self).next_marker()) ==> match parse_size(
                old(self).input(),
                old(self).position(),
            ) {
                Ok((n, q)) => r == Ok::<usize, DecoderError>(n as usize) && final(self).position() == q,
                Err(_) => r == Err::<usize, DecoderError>(DecoderError::UnexpectedEOF),
            },
            r is Err ==> final(self).position() == old(self).position(),
    {
        let m = self.peek()?;
        if !is_list(m) {
            return Err(marker_error("LIST", m));
        }
        self.read_size()
    }

    /// Reads the header of a map in any tier and returns its entry count.
    pub fn read_map(&mut self) -> (r: Result<usize, DecoderError>)
        requires
            old(self).wf(),
        ensures
            final(self).wf(),
            final(self).input() == old(self).input(),
            final(self).open_structs() == old(self).open_structs(),
            old(self).at_end() ==> r == Err::<usize, DecoderError>(DecoderError::UnexpectedEOF),
            !old(self).at_end() && !spec_is_map(old(self).next_marker()) ==> wrong_marker(
                r,
                "MAP",
                old(self).next_marker(),
            ),
            !old(self).at_end() && spec_is_map(old(self).next_marker()) ==> match parse_size(
                old(self).input(),
                old(self).position(),
            ) {
                Ok((n, q)) => r == Ok::<usize, DecoderError>(n as usize) && final(self).position() == q,
                Err(_) => r == Err::<usize, DecoderError>(DecoderError::UnexpectedEOF),
            },
            r is Err ==> final(self).position() == old(self).position(),
    {
        let m = self.peek()?;
        if !is_map(m) {
            return Err(marker_error("MAP", m));
        }
        self.read_size()
    }

    /// Reads the header of a record of `len` fields: a map of named fields,
    /// or a tagged structure, whose tag is returned. A record of another
    /// arity is refused.
    pub fn read_struct(&mut self, name: &str, len: usize) -> (r: Result<Option<u8>, DecoderError>)
        requires
            old(self).wf(),
        ensures
            final(self).wf(),
            final(self).input() == old(self).input(),
            old(self).at_end() ==> r == Err::<Option<u8>, DecoderError>(DecoderError::UnexpectedEOF),
            !old(self).at_end() && !spec_is_map(old(self).next_marker()) && !spec_is_structure(
                old(self).next_marker(),
            ) ==> wrong_marker(r, "MAP or STRUCTURE", old(self).next_marker()),
            !old(self).at_end() && spec_is_map(old(self).next_marker()) ==> match parse_size(
                old(self).input(),
                old(self).position(),
            ) {
                Ok((n, q)) => if n == len {
                    r == Ok::<Option<u8>, DecoderError>(None) && final(self).position() == q
                } else {
                    r matches Err(DecoderError::UnexpectedInput(_, _))
                },
                Err(_) => r == Err::<Option<u8>, DecoderError>(DecoderError::UnexpectedEOF),
            },
            !old(self).at_end() && spec_is_structure(old(self).next_marker()) ==> match parse_struct_size(
                old(self).input(),
                old(self).position(),
            ) {
                Ok((n, q)) => if q >= old(self).input().len() {
                    r == Err::<Option<u8>, DecoderError>(DecoderError::UnexpectedEOF)
                } else if n == len {
                    r == Ok::<Option<u8>, DecoderError>(Some(old(self).input()[q]))
                        && final(self).position() == q + 1
                } else {
                    r matches Err(DecoderError::UnexpectedInput(_, _))
                },
                Err(_) => r == Err::<Option<u8>, DecoderError>(DecoderError::UnexpectedEOF),
            },
            r matches Ok(t) ==> final(self).open_structs() == old(self).open_structs().push(
                if t is Some {
                    StructState::Structure
                } else {
                    StructState::Fields
                },
            ),
            r is Err ==> final(self).position() == old(self).position() && final(self).open_structs()
                == old(self).open_structs(),
    {
        let m = self.peek()?;
        let start = self.pos;
        let tag: Option<u8>;
        let size: usize;
        if is_map(m) {
            size = self.read_size()?;
            tag = None;
        } else if is_structure(m) {
            let q: usize;
            if m <= 0xBF {
                size = (m % 16) as usize;
                q = self.pos + 1;
            } else {
                let w: usize = if m == markers::STRUCT_8 { 1 } else { 2 };
                match read_len(self.bytes.as_slice(), self.pos + 1, w) {
                    Ok((n, e)) => {
                        size = n;
                        q = e;
                    },
                    Err(_) => {
                        return Err(DecoderError::UnexpectedEOF);
                    },
                }
            }
            if q >= self.bytes.len() {
                return Err(DecoderError::UnexpectedEOF);
            }
            tag = Some(self.bytes[q]);
            self.pos = q + 1;
        } else {
            return Err(marker_error("MAP or STRUCTURE", m));
        }
        if size != len {
            self.pos = start;
            return Err(DecoderError::UnexpectedInput(arity_text(name, len), arity_text("?", size)));
        }
        let state = if tag.is_some() {
            StructState::Structure
        } else {
            StructState::Fields
        };
        self.struct_stack.push(state);
        Ok(tag)
    }

    /// Ends the innermost record begun by `read_struct`.
    pub fn end_struct(&mut self)
        requires
            old(self).wf(),
        ensures
            final(self).wf(),
            final(self).input() == old(self).input(),
            final(self).position() == old(self).position(),
            old(self).open_structs().len() > 0 ==> final(self).open_structs() == old(
                self,
            ).open_structs().drop_last(),
            old(self).open_structs().len() == 0 ==> final(self).open_structs() == old(
                self,
            ).open_structs(),
    {
        if self.struct_stack.len() > 0 {
            self.struct_stack.pop();
        }
    }

    /// Reads the name of the next field of the innermost record when it is a
    /// map of named fields, and refuses another name than `name`. The fields
    /// of a tagged structure have no names, and nothing is read for them.
    pub fn read_struct_field(&mut self, name: &str) -> (r: Result<(), DecoderError>)
        requires
            old(self).wf(),
        ensures
            final(self).wf(),
            final(self).input() == old(self).input(),
            final(self).open_structs() == old(self).open_structs(),
            !(old(self).open_structs().len() > 0 && old(self).open_structs().last() == StructState::Fields) ==> r is Ok
                && final(self).position() == old(self).position(),
            old(self).open_structs().len() > 0 && old(self).open_structs().last() == StructState::Fields ==> {
                &&& old(self).at_end() ==> r == Err::<(), DecoderError>(DecoderError::UnexpectedEOF)
                &&& !old(self).at_end() && !spec_is_string(old(self).next_marker()) ==> wrong_marker(
                    r,
                    "STRING",
                    old(self).next_marker(),
                )
                &&& !old(self).at_end() && spec_is_string(old(self).next_marker()) ==> match parse_value(
                    old(self).input(),
                    old(self).position(),
                ) {
                    Ok((Val::Str(t), q)) => if t == name@ {
                        r is Ok && final(self).position() == q
                    } else {
                        r matches Err(DecoderError::WrongField(g, e)) && g@ == t && e@ == name@
                    },
                    Err(e) => r == Err::<(), DecoderError>(from_value_error(e)),
                    _ => false,
                }
            },
    {
        let n = self.struct_stack.len();
        if n == 0 || self.struct_stack[n - 1] == StructState::Structure {
            return Ok(());
        }
        let prop = self.read_str()?;
        if bytes_equal(prop.as_str().as_bytes(), name.as_bytes()) {
            proof {
                vstd::utf8::encode_utf8_decode_utf8(prop@);
                vstd::utf8::encode_utf8_decode_utf8(name@);
            }
            Ok(())
        } else {
            Err(DecoderError::WrongField(prop, name.to_owned()))
        }
    }
}

} // verus!
