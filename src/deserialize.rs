//! Reads value trees from packstream bytes.

use vstd::prelude::*;
use vstd::utf8::{valid_utf8, decode_utf8};
use crate::endian::{read_u16, read_u32, read_u64};
use crate::format::{parse_value, parse_list, parse_entries, parse_text, parse_len, parse_fixed_int};
use crate::markers;
use crate::value::{Val, Value, model_list, model_entries, put_entry};

verus! {

/// Why bytes could not be read as a value.
#[derive(Debug, Clone, Copy, PartialEq, Eq, Structural)]
pub enum DeserializerError {
    /// The input ended inside a value.
    UnexpectedEOF,
    /// This byte starts no value.
    UnexpectedMarker(u8),
    /// The bytes of a string are not UTF-8.
    InvalidUTF8,
    /// A map key is not a string.
    InvalidMapKey,
}

} // verus!

verus! {

/// Relies on `String::from_utf8`: it succeeds exactly on valid UTF-8 and
/// then holds the characters that the bytes encode.
#[verifier::external_body]
fn string_from_utf8(bytes: Vec<u8>) -> (r: Option<String>)
    ensures
        r is Some <==> valid_utf8(bytes@),
        r matches Some(s) ==> s@ == decode_utf8(bytes@),
{
    String::from_utf8(bytes).ok()
}

/// The exec result `r` agrees with the spec result `s`.
pub open spec fn agrees(
    r: Result<(Value, usize), DeserializerError>,
    s: Result<(Val, int), DeserializerError>,
) -> bool {
    match s {
        Ok((v, q)) => r matches Ok((x, q2)) && x@ == v && q2 == q,
        Err(e) => r == Err::<(Value, usize), DeserializerError>(e),
    }
}

/// Reads the `n` UTF-8 bytes of a string at `p`.
fn read_text(b: &[u8], p: usize, n: usize) -> (r: Result<(Value, usize), DeserializerError>)
    requires
        p <= b@.len(),
    ensures
        agrees(r, parse_text(b@, p as int, n as nat)),
{
    if n > b.len() - p {
        return Err(DeserializerError::UnexpectedEOF);
    }
    let mut bytes: Vec<u8> = Vec::new();
    let end = p + n;
    let mut i: usize = p;
    while i < end
        invariant
            end == p + n,
            p <= i <= p + n <= b@.len(),
            bytes@ == b@.subrange(p as int, i as int),
        decreases end - i,
    {
        bytes.push(b[i]);
        i = i + 1;
        assert(bytes@ =~= b@.subrange(p as int, i as int));
    }
    match string_from_utf8(bytes) {
        Some(s) => Ok((Value::String(s), end)),
        None => Err(DeserializerError::InvalidUTF8),
    }
}

/// Reads a `w`-byte big-endian length field at `p`.
pub(crate) fn read_len(b: &[u8], p: usize, w: usize) -> (r: Result<(usize, usize), DeserializerError>)
    requires
        p <= b@.len(),
        w == 1 || w == 2 || w == 4,
    ensures
        match parse_len(b@, p as int, w as int) {
            Ok((n, q)) => r == Ok::<(usize, usize), DeserializerError>((n as usize, q as usize))
                && n <= 4294967295 && q == p + w,
            Err(e) => r == Err::<(usize, usize), DeserializerError>(e),
        },
{
    if w > b.len() - p {
        return Err(DeserializerError::UnexpectedEOF);
    }
    if w == 1 {
        Ok((b[p] as usize, p + 1))
    } else if w == 2 {
        Ok((read_u16(b, p) as usize, p + 2))
    } else {
        Ok((read_u32(b, p) as usize, p + 4))
    }
}

/// Reads a fixed-width integer of `w` bytes at `p`.
fn read_fixed_int(b: &[u8], p: usize, w: usize) -> (r: Result<(Value, usize), DeserializerError>)
    requires
        p <= b@.len(),
        w == 1 || w == 2 || w == 4 || w == 8,
    ensures
        agrees(r, parse_fixed_int(b@, p as int, w as int)),
{
    if w > b.len() - p {
        return Err(DeserializerError::UnexpectedEOF);
    }
    let v: i64 = if w == 1 {
        let u = b[p];
        if u >= 128 {
            u as i64 - 256
        } else {
            u as i64
        }
    } else if w == 2 {
        let u = read_u16(b, p);
        if u >= 32768 {
            u as i64 - 65536
        } else {
            u as i64
        }
    } else if w == 4 {
        let u = read_u32(b, p);
        if u >= 2147483648 {
            u as i64 - 4294967296
        } else {
            u as i64
        }
    } else {
        let u = read_u64(b, p);
        if u >= 9223372036854775808 {
            ((u - 9223372036854775808) as i64) - 9223372036854775807 - 1
        } else {
            u as i64
        }
    };
    Ok((Value::Integer(v), p + w))
}

/// Reads the value whose encoding starts at `p`.
pub(crate) fn read_value(b: &[u8], p: usize) -> (r: Result<(Value, usize), DeserializerError>)
    requires
        p <= b@.len(),
    ensures
        agrees(r, parse_value(b@, p as int)),
        r matches Ok((_, q)) ==> p < q <= b@.len(),
    decreases b@.len() - p, 1nat,
{
    if p >= b.len() {
        return Err(DeserializerError::UnexpectedEOF);
    }
    let m = b[p];
    if m == markers::NULL {
        Ok((Value::Null, p + 1))
    } else if m == markers::TRUE {
        Ok((Value::Boolean(true), p + 1))
    } else if m == markers::FALSE {
        Ok((Value::Boolean(false), p + 1))
    } else if m <= 0x7F {
        Ok((Value::Integer(m as i64), p + 1))
    } else if m >= 0xF0 {
        Ok((Value::Integer(m as i64 - 256), p + 1))
    } else if m == markers::INT_8 {
        read_fixed_int(b, p + 1, 1)
    } else if m == markers::INT_16 {
        read_fixed_int(b, p + 1, 2)
    } else if m == markers::INT_32 {
        read_fixed_int(b, p + 1, 4)
    } else if m == markers::INT_64 {
        read_fixed_int(b, p + 1, 8)
    } else if m == markers::FLOAT {
        if 9 > b.len() - p {
            return Err(DeserializerError::UnexpectedEOF);
        }
        Ok((Value::Float(read_u64(b, p + 1)), p + 9))
    } else if 0x80 <= m && m <= 0x8F {
        read_text(b, p + 1, (m - 0x80) as usize)
    } else if 0xD0 <= m && m <= 0xD2 {
        let w: usize = if m == 0xD0 { 1 } else if m == 0xD1 { 2 } else { 4 };
        match read_len(b, p + 1, w) {
            Ok((n, q)) => read_text(b, q, n),
            Err(e) => Err(e),
        }
    } else if 0x90 <= m && m <= 0x9F {
        match read_items(b, p + 1, (m - 0x90) as usize) {
            Ok((items, q)) => Ok((Value::List(items), q)),
            Err(e) => Err(e),
        }
    } else if 0xD4 <= m && m <= 0xD6 {
        let w: usize = if m == 0xD4 { 1 } else if m == 0xD5 { 2 } else { 4 };
        match read_len(b, p + 1, w) {
            Ok((n, q)) => match read_items(b, q, n) {
                Ok((items, r)) => Ok((Value::List(items), r)),
                Err(e) => Err(e),
            },
            Err(e) => Err(e),
        }
    } else if 0xA0 <= m && m <= 0xAF {
        match read_entries(b, p + 1, (m - 0xA0) as usize) {
            Ok((entries, q)) => Ok((Value::Dict(entries), q)),
            Err(e) => Err(e),
        }
    } else if 0xD8 <= m && m <= 0xDA {
        let w: usize = if m == 0xD8 { 1 } else if m == 0xD9 { 2 } else { 4 };
        match read_len(b, p + 1, w) {
            Ok((n, q)) => match read_entries(b, q, n) {
                Ok((entries, r)) => Ok((Value::Dict(entries), r)),
                Err(e) => Err(e),
            },
            Err(e) => Err(e),
        }
    } else if 0xB0 <= m && m <= 0xBF {
        if 2 > b.len() - p {
            return Err(DeserializerError::UnexpectedEOF);
        }
        let tag = b[p + 1];
        match read_items(b, p + 2, (m - 0xB0) as usize) {
            Ok((fields, q)) => Ok((Value::Structure(tag, fields), q)),
            Err(e) => Err(e),
        }
    } else if m == markers::STRUCT_8 || m == markers::STRUCT_16 {
        let w: usize = if m == markers::STRUCT_8 { 1 } else { 2 };
        if 2 + w > b.len() - p {
            return Err(DeserializerError::UnexpectedEOF);
        }
        let n: usize = if w == 1 {
            b[p + 1] as usize
        } else {
            read_u16(b, p + 1) as usize
        };
        let tag = b[p + 1 + w];
        match read_items(b, p + 2 + w, n) {
            Ok((fields, q)) => Ok((Value::Structure(tag, fields), q)),
            Err(e) => Err(e),
        }
    } else {
        Err(DeserializerError::UnexpectedMarker(m))
    }
}

/// Reads `n` values one after another from `p`.
fn read_items(b: &[u8], p: usize, n: usize) -> (r: Result<(Vec<Value>, usize), DeserializerError>)
    requires
        p <= b@.len(),
    ensures
        match parse_list(b@, p as int, n as nat) {
            Ok((items, q)) => r matches Ok((x, q2)) && model_list(x@) == items && q2 == q
                && p <= q <= b@.len(),
            Err(e) => r == Err::<(Vec<Value>, usize), DeserializerError>(e),
        },
    decreases b@.len() - p, 2nat,
{
    let mut items: Vec<Value> = Vec::new();
    let mut cur: usize = p;
    let mut i: usize = 0;
    while i < n
        invariant
            p <= cur <= b@.len(),
            0 <= i <= n,
            parse_list(b@, p as int, i as nat) == Ok::<(Seq<Val>, int), DeserializerError>(
                (model_list(items@), cur as int),
            ),
        decreases n - i,
    {
        match read_value(b, cur) {
            Ok((v, q)) => {
                proof {
                    assert(items@.push(v).drop_last() =~= items@);
                }
                items.push(v);
                cur = q;
            },
            Err(e) => {
                proof {
                    lemma_parse_list_err(b@, p as int, i as nat, n as nat);
                }
                return Err(e);
            },
        }
        i = i + 1;
    }
    Ok((items, cur))
}

/// Reads `n` key and value pairs one after another from `p` and puts each
/// into a map in turn.
fn read_entries(b: &[u8], p: usize, n: usize) -> (r: Result<
    (Vec<(String, Value)>, usize),
    DeserializerError,
>)
    requires
        p <= b@.len(),
    ensures
        match parse_entries(b@, p as int, n as nat) {
            Ok((entries, q)) => r matches Ok((x, q2)) && model_entries(x@) == entries && q2 == q
                && p <= q <= b@.len(),
            Err(e) => r == Err::<(Vec<(String, Value)>, usize), DeserializerError>(e),
        },
    decreases b@.len() - p, 2nat,
{
    let mut entries: Vec<(String, Value)> = Vec::new();
    let mut cur: usize = p;
    let mut i: usize = 0;
    while i < n
        invariant
            p <= cur <= b@.len(),
            0 <= i <= n,
            parse_entries(b@, p as int, i as nat) == Ok::<
                (Seq<(Seq<char>, Val)>, int),
                DeserializerError,
            >((model_entries(entries@), cur as int)),
        decreases n - i,
    {
        let ghost before = model_entries(entries@);
        match read_value(b, cur) {
            Ok((Value::String(k), q)) => {
                match read_value(b, q) {
                    Ok((v, q2)) => {
                        put_entry(&mut entries, k, v);
                        cur = q2;
                    },
                    Err(e) => {
                        proof {
                            lemma_parse_entries_err(b@, p as int, i as nat, n as nat);
                        }
                        return Err(e);
                    },
                }
            },
            Ok((_, _)) => {
                proof {
                    lemma_parse_entries_err(b@, p as int, i as nat, n as nat);
                }
                return Err(DeserializerError::InvalidMapKey);
            },
            Err(e) => {
                proof {
                    lemma_parse_entries_err(b@, p as int, i as nat, n as nat);
                }
                return Err(e);
            },
        }
        i = i + 1;
    }
    Ok((entries, cur))
}

/// Once the first `i` values are read, a failure on the next is the
/// failure of the whole list.
proof fn lemma_parse_list_err(b: Seq<u8>, p: int, i: nat, n: nat)
    requires
        i < n,
        parse_list(b, p, i) matches Ok((_, q)) && p <= q <= b.len() && parse_value(b, q) is Err,
    ensures
        parse_list(b, p, n) == Err::<(Seq<Val>, int), DeserializerError>(
            parse_value(b, parse_list(b, p, i)->Ok_0.1)->Err_0,
        ),
    decreases n,
{
    if n - 1 > i {
        lemma_parse_list_err(b, p, i, (n - 1) as nat);
    }
}

/// Once the first `i` entries are read, a failure on the next is the
/// failure of the whole map.
proof fn lemma_parse_entries_err(b: Seq<u8>, p: int, i: nat, n: nat)
    requires
        i < n,
        parse_entries(b, p, i) matches Ok((_, q)) && p <= q <= b.len(),
        parse_entries(b, p, (i + 1) as nat) is Err,
    ensures
        parse_entries(b, p, n) == parse_entries(b, p, (i + 1) as nat),
    decreases n,
{
    if n - 1 > i {
        lemma_parse_entries_err(b, p, i, (n - 1) as nat);
    }
}

} // verus!

verus! {

/// The value whose encoding starts the bytes. Bytes after it are left
/// unread.
pub fn deserialize(bytes: &[u8]) -> (r: Result<Value, DeserializerError>)
    ensures
        match parse_value(bytes@, 0) {
            Ok((v, _)) => r matches Ok(x) && x@ == v,
            Err(e) => r == Err::<Value, DeserializerError>(e),
        },
{
    match read_value(bytes, 0) {
        Ok((v, _)) => Ok(v),
        Err(e) => Err(e),
    }
}

/// Reads values one after another from a buffer of packstream bytes.
pub struct Deserializer {
    bytes: Vec<u8>,
    pos: usize,
}

impl Deserializer {
    /// A deserializer at the start of `bytes`.
    pub fn new(bytes: Vec<u8>) -> (r: Self)
        ensures
            r.input() == bytes@,
            r.position() == 0,
    {
        Deserializer { bytes, pos: 0 }
    }

    /// The bytes being read.
    pub closed spec fn input(&self) -> Seq<u8> {
        self.bytes@
    }

    /// Where the next value starts.
    pub closed spec fn position(&self) -> int {
        self.pos as int
    }

    pub closed spec fn wf(&self) -> bool {
        self.pos <= self.bytes@.len()
    }

    /// Reads the next value and moves past it; on a failure the position
    /// stays where it was.
    pub fn parse_value(&mut self) -> (r: Result<Value, DeserializerError>)
        requires
            old(self).wf(),
        ensures
            final(self).wf(),
            final(self).input() == old(self).input(),
            match parse_value(old(self).input(), old(self).position()) {
                Ok((v, q)) => r matches Ok(x) && x@ == v && final(self).position() == q,
                Err(e) => r == Err::<Value, DeserializerError>(e) && final(self).position()
                    == old(self).position(),
            },
    {
        match read_value(self.bytes.as_slice(), self.pos) {
            Ok((v, q)) => {
                self.pos = q;
                Ok(v)
            },
            Err(e) => Err(e),
        }
    }
}

} // verus!
