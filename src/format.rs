//! The packstream wire format, stated over the model of a value.

use vstd::prelude::*;
use vstd::utf8::*;
use crate::deserialize::DeserializerError;
use crate::endian::{be2, be4, be8, be2_value, be4_value, be8_value, signed_of, unsigned_of};
use crate::value::{Val, map_put, keys_sorted};

verus! {

/// The canonical encoding of an integer: the narrowest tier that holds it.
pub open spec fn enc_int(v: int) -> Seq<u8> {
    if v < -2147483648 || v > 2147483647 {
        seq![0xCBu8] + be8(unsigned_of(v, 18446744073709551616) as nat)
    } else if v < -32768 || v > 32767 {
        seq![0xCAu8] + be4(unsigned_of(v, 4294967296) as nat)
    } else if v < -128 || v > 127 {
        seq![0xC9u8] + be2(unsigned_of(v, 65536) as nat)
    } else if v >= -16 {
        seq![unsigned_of(v, 256) as u8]
    } else {
        seq![0xC8u8, unsigned_of(v, 256) as u8]
    }
}

/// The marker and length field of a string, list or map of `n` items, whose
/// tiny marker is `tiny` and whose 8-bit tier marker is `m8` (the 16-bit and
/// 32-bit tiers follow it).
pub open spec fn size_header(tiny: u8, m8: u8, n: nat) -> Seq<u8> {
    if n <= 15 {
        seq![(tiny + n) as u8]
    } else if n <= 255 {
        seq![m8, n as u8]
    } else if n <= 65535 {
        seq![(m8 + 1) as u8] + be2(n)
    } else {
        seq![(m8 + 2) as u8] + be4(n)
    }
}

/// The marker, length field and tag of a structure of `n` fields.
pub open spec fn struct_header(n: nat, tag: u8) -> Seq<u8> {
    if n <= 15 {
        seq![(0xB0 + n) as u8, tag]
    } else if n <= 255 {
        seq![0xDCu8, n as u8, tag]
    } else {
        seq![0xDDu8] + be2(n) + seq![tag]
    }
}

/// The encoding of a string: its UTF-8 byte count, then its UTF-8 bytes.
pub open spec fn enc_str(s: Seq<char>) -> Seq<u8> {
    size_header(0x80, 0xD0, encode_utf8(s).len()) + encode_utf8(s)
}

/// The canonical encoding of a value.
pub open spec fn enc(v: Val) -> Seq<u8>
    decreases v,
{
    match v {
        Val::Null => seq![0xC0u8],
        Val::Boolean(b) => if b {
            seq![0xC3u8]
        } else {
            seq![0xC2u8]
        },
        Val::Integer(i) => enc_int(i as int),
        Val::Float(bits) => seq![0xC1u8] + be8(bits as nat),
        Val::Str(s) => enc_str(s),
        Val::List(items) => size_header(0x90, 0xD4, items.len()) + enc_list(items),
        Val::Dict(entries) => size_header(0xA0, 0xD8, entries.len()) + enc_entries(entries),
        Val::Structure(tag, fields) => struct_header(fields.len(), tag) + enc_list(fields),
    }
}

/// The encodings of the items, one after another.
pub open spec fn enc_list(items: Seq<Val>) -> Seq<u8>
    decreases items,
{
    if items.len() == 0 {
        Seq::empty()
    } else {
        enc_list(items.drop_last()) + enc(items.last())
    }
}

/// Each entry's key, then its value, one entry after another.
pub open spec fn enc_entries(entries: Seq<(Seq<char>, Val)>) -> Seq<u8>
    decreases entries,
{
    if entries.len() == 0 {
        Seq::empty()
    } else {
        enc_entries(entries.drop_last()) + enc_str(entries.last().0) + enc(entries.last().1)
    }
}

/// Every size in the tree fits the length field of its widest tier, and every
/// structure has at most 65535 fields.
pub open spec fn encodable(v: Val) -> bool
    decreases v,
{
    match v {
        Val::Str(s) => encode_utf8(s).len() <= 4294967295,
        Val::List(items) => items.len() <= 4294967295 && encodable_list(items),
        Val::Dict(entries) => entries.len() <= 4294967295 && encodable_entries(entries),
        Val::Structure(_, fields) => fields.len() <= 65535 && encodable_list(fields),
        _ => true,
    }
}

pub open spec fn encodable_list(items: Seq<Val>) -> bool
    decreases items,
{
    if items.len() == 0 {
        true
    } else {
        encodable_list(items.drop_last()) && encodable(items.last())
    }
}

pub open spec fn encodable_entries(entries: Seq<(Seq<char>, Val)>) -> bool
    decreases entries,
{
    if entries.len() == 0 {
        true
    } else {
        encodable_entries(entries.drop_last()) && encode_utf8(entries.last().0).len()
            <= 4294967295 && encodable(entries.last().1)
    }
}

} // verus!

verus! {

/// Every string, list and map in the tree is short enough for a four-byte
/// length field.
pub open spec fn sizes_fit(v: Val) -> bool
    decreases v,
{
    match v {
        Val::Str(s) => encode_utf8(s).len() <= 4294967295,
        Val::List(items) => items.len() <= 4294967295 && sizes_fit_list(items),
        Val::Dict(entries) => entries.len() <= 4294967295 && sizes_fit_entries(entries),
        Val::Structure(_, fields) => sizes_fit_list(fields),
        _ => true,
    }
}

pub open spec fn sizes_fit_list(items: Seq<Val>) -> bool
    decreases items,
{
    if items.len() == 0 {
        true
    } else {
        sizes_fit_list(items.drop_last()) && sizes_fit(items.last())
    }
}

pub open spec fn sizes_fit_entries(entries: Seq<(Seq<char>, Val)>) -> bool
    decreases entries,
{
    if entries.len() == 0 {
        true
    } else {
        sizes_fit_entries(entries.drop_last()) && encode_utf8(entries.last().0).len()
            <= 4294967295 && sizes_fit(entries.last().1)
    }
}

} // verus!

verus! {

pub proof fn lemma_enc_list_push(items: Seq<Val>, v: Val)
    ensures
        enc_list(items.push(v)) == enc_list(items) + enc(v),
{
    assert(items.push(v).drop_last() =~= items);
}

pub proof fn lemma_enc_entries_push(entries: Seq<(Seq<char>, Val)>, k: Seq<char>, v: Val)
    ensures
        enc_entries(entries.push((k, v))) == enc_entries(entries) + enc_str(k) + enc(v),
{
    assert(entries.push((k, v)).drop_last() =~= entries);
}

pub proof fn lemma_encodable_list(items: Seq<Val>)
    ensures
        encodable_list(items) <==> forall|i: int|
            0 <= i < items.len() ==> #[trigger] encodable(items[i]),
        sizes_fit_list(items) <==> forall|i: int|
            0 <= i < items.len() ==> #[trigger] sizes_fit(items[i]),
    decreases items.len(),
{
    if items.len() > 0 {
        let init = items.drop_last();
        lemma_encodable_list(init);
        let n = items.len() - 1;
        assert(encodable_list(items) == (encodable_list(init) && encodable(items[n])));
        assert(sizes_fit_list(items) == (sizes_fit_list(init) && sizes_fit(items[n])));
        assert(forall|i: int| 0 <= i < init.len() ==> init[i] == items[i]);
        if forall|i: int| 0 <= i < items.len() ==> #[trigger] encodable(items[i]) {
            assert(forall|i: int| 0 <= i < init.len() ==> #[trigger] encodable(init[i]));
        }
        if forall|i: int| 0 <= i < items.len() ==> #[trigger] sizes_fit(items[i]) {
            assert(forall|i: int| 0 <= i < init.len() ==> #[trigger] sizes_fit(init[i]));
        }
        if encodable_list(items) {
            assert forall|i: int| 0 <= i < items.len() implies #[trigger] encodable(items[i]) by {
                if i < init.len() {
                    assert(encodable(init[i]));
                }
            }
        }
        if sizes_fit_list(items) {
            assert forall|i: int| 0 <= i < items.len() implies #[trigger] sizes_fit(items[i]) by {
                if i < init.len() {
                    assert(sizes_fit(init[i]));
                }
            }
        }
    }
}

pub proof fn lemma_encodable_entries(entries: Seq<(Seq<char>, Val)>)
    ensures
        encodable_entries(entries) <==> forall|i: int|
            0 <= i < entries.len() ==> encode_utf8(#[trigger] entries[i].0).len() <= 4294967295
                && encodable(entries[i].1),
        sizes_fit_entries(entries) <==> forall|i: int|
            0 <= i < entries.len() ==> encode_utf8(#[trigger] entries[i].0).len() <= 4294967295
                && sizes_fit(entries[i].1),
    decreases entries.len(),
{
    if entries.len() > 0 {
        let init = entries.drop_last();
        lemma_encodable_entries(init);
        assert(forall|i: int| 0 <= i < init.len() ==> init[i] == entries[i]);
        if encodable_entries(entries) {
            assert forall|i: int| 0 <= i < entries.len() implies encode_utf8(
                #[trigger] entries[i].0,
            ).len() <= 4294967295 && encodable(entries[i].1) by {
                if i < init.len() {
                    assert(init[i] == entries[i]);
                }
            }
        }
        if sizes_fit_entries(entries) {
            assert forall|i: int| 0 <= i < entries.len() implies encode_utf8(
                #[trigger] entries[i].0,
            ).len() <= 4294967295 && sizes_fit(entries[i].1) by {
                if i < init.len() {
                    assert(init[i] == entries[i]);
                }
            }
        }
    }
}

} // verus!

verus! {

/// Reads a `w`-byte big-endian length field at `p`.
pub open spec fn parse_len(b: Seq<u8>, p: int, w: int) -> Result<(nat, int), DeserializerError> {
    if p < 0 || p + w > b.len() {
        Err(DeserializerError::UnexpectedEOF)
    } else if w == 1 {
        Ok((b[p] as nat, p + 1))
    } else if w == 2 {
        Ok((be2_value(b.subrange(p, p + 2)), p + 2))
    } else {
        Ok((be4_value(b.subrange(p, p + 4)), p + 4))
    }
}

/// Reads the `n` UTF-8 bytes of a string at `p`.
pub open spec fn parse_text(b: Seq<u8>, p: int, n: nat) -> Result<(Val, int), DeserializerError> {
    if p < 0 || p + n > b.len() {
        Err(DeserializerError::UnexpectedEOF)
    } else if !valid_utf8(b.subrange(p, p + n)) {
        Err(DeserializerError::InvalidUTF8)
    } else {
        Ok((Val::Str(decode_utf8(b.subrange(p, p + n))), p + n))
    }
}

/// Reads a fixed-width integer of `w` bytes at `p`, following its marker.
pub open spec fn parse_fixed_int(b: Seq<u8>, p: int, w: int) -> Result<(Val, int), DeserializerError> {
    if p < 0 || p + w > b.len() {
        Err(DeserializerError::UnexpectedEOF)
    } else if w == 1 {
        Ok((Val::Integer(signed_of(b[p] as int, 256) as i64), p + 1))
    } else if w == 2 {
        Ok((Val::Integer(signed_of(be2_value(b.subrange(p, p + 2)) as int, 65536) as i64), p + 2))
    } else if w == 4 {
        Ok((Val::Integer(signed_of(be4_value(b.subrange(p, p + 4)) as int, 4294967296) as i64), p + 4))
    } else {
        Ok((Val::Integer(signed_of(be8_value(b.subrange(p, p + 8)) as int, 18446744073709551616) as i64), p + 8))
    }
}

/// The value whose encoding starts at `p`, and where its encoding ends. Any
/// size tier is accepted, not only the narrowest.
pub open spec fn parse_value(b: Seq<u8>, p: int) -> Result<(Val, int), DeserializerError>
    decreases b.len() - p, 0nat,
{
    if p < 0 || p >= b.len() {
        Err(DeserializerError::UnexpectedEOF)
    } else {
        let m = b[p];
        if m == 0xC0 {
            Ok((Val::Null, p + 1))
        } else if m == 0xC3 {
            Ok((Val::Boolean(true), p + 1))
        } else if m == 0xC2 {
            Ok((Val::Boolean(false), p + 1))
        } else if m <= 0x7F {
            Ok((Val::Integer(m as i64), p + 1))
        } else if m >= 0xF0 {
            Ok((Val::Integer((m - 256) as i64), p + 1))
        } else if m == 0xC8 {
            parse_fixed_int(b, p + 1, 1)
        } else if m == 0xC9 {
            parse_fixed_int(b, p + 1, 2)
        } else if m == 0xCA {
            parse_fixed_int(b, p + 1, 4)
        } else if m == 0xCB {
            parse_fixed_int(b, p + 1, 8)
        } else if m == 0xC1 {
            if p + 9 > b.len() {
                Err(DeserializerError::UnexpectedEOF)
            } else {
                Ok((Val::Float(be8_value(b.subrange(p + 1, p + 9)) as u64), p + 9))
            }
        } else if 0x80 <= m <= 0x8F {
            parse_text(b, p + 1, (m - 0x80) as nat)
        } else if 0xD0 <= m <= 0xD2 {
            match parse_len(b, p + 1, tier_width(m - 0xD0)) {
                Ok((n, q)) => parse_text(b, q, n),
                Err(e) => Err(e),
            }
        } else if 0x90 <= m <= 0x9F {
            match parse_list(b, p + 1, (m - 0x90) as nat) {
                Ok((items, q)) => Ok((Val::List(items), q)),
                Err(e) => Err(e),
            }
        } else if 0xD4 <= m <= 0xD6 {
            match parse_len(b, p + 1, tier_width(m - 0xD4)) {
                Ok((n, q)) => if p < q <= b.len() {
                    match parse_list(b, q, n) {
                        Ok((items, r)) => Ok((Val::List(items), r)),
                        Err(e) => Err(e),
                    }
                } else {
                    Err(DeserializerError::UnexpectedEOF)
                },
                Err(e) => Err(e),
            }
        } else if 0xA0 <= m <= 0xAF {
            match parse_entries(b, p + 1, (m - 0xA0) as nat) {
                Ok((entries, q)) => Ok((Val::Dict(entries), q)),
                Err(e) => Err(e),
            }
        } else if 0xD8 <= m <= 0xDA {
            match parse_len(b, p + 1, tier_width(m - 0xD8)) {
                Ok((n, q)) => if p < q <= b.len() {
                    match parse_entries(b, q, n) {
                        Ok((entries, r)) => Ok((Val::Dict(entries), r)),
                        Err(e) => Err(e),
                    }
                } else {
                    Err(DeserializerError::UnexpectedEOF)
                },
                Err(e) => Err(e),
            }
        } else if 0xB0 <= m <= 0xBF {
            if p + 2 > b.len() {
                Err(DeserializerError::UnexpectedEOF)
            } else {
                match parse_list(b, p + 2, (m - 0xB0) as nat) {
                    Ok((fields, q)) => Ok((Val::Structure(b[p + 1], fields), q)),
                    Err(e) => Err(e),
                }
            }
        } else if m == 0xDC || m == 0xDD {
            let w: int = if m == 0xDC { 1 } else { 2 };
            if p + 2 + w > b.len() {
                Err(DeserializerError::UnexpectedEOF)
            } else {
                let n: nat = if m == 0xDC {
                    b[p + 1] as nat
                } else {
                    be2_value(b.subrange(p + 1, p + 3))
                };
                match parse_list(b, p + 2 + w, n) {
                    Ok((fields, q)) => Ok((Val::Structure(b[p + 1 + w], fields), q)),
                    Err(e) => Err(e),
                }
            }
        } else {
            Err(DeserializerError::UnexpectedMarker(m))
        }
    }
}

/// The width of the length field of the 8-, 16- and 32-bit tiers.
pub open spec fn tier_width(t: int) -> int {
    if t == 0 {
        1
    } else if t == 1 {
        2
    } else {
        4
    }
}

/// `n` values one after another from `p`.
pub open spec fn parse_list(b: Seq<u8>, p: int, n: nat) -> Result<(Seq<Val>, int), DeserializerError>
    decreases b.len() - p, n,
{
    if n == 0 {
        Ok((Seq::empty(), p))
    } else {
        match parse_list(b, p, (n - 1) as nat) {
            Ok((items, q)) => if p <= q <= b.len() {
                match parse_value(b, q) {
                    Ok((v, r)) => Ok((items.push(v), r)),
                    Err(e) => Err(e),
                }
            } else {
                Err(DeserializerError::UnexpectedEOF)
            },
            Err(e) => Err(e),
        }
    }
}

/// `n` key and value pairs one after another from `p`, each put into the map
/// in turn; a key that is not a string is refused.
pub open spec fn parse_entries(b: Seq<u8>, p: int, n: nat) -> Result<
    (Seq<(Seq<char>, Val)>, int),
    DeserializerError,
>
    decreases b.len() - p, n,
{
    if n == 0 {
        Ok((Seq::empty(), p))
    } else {
        match parse_entries(b, p, (n - 1) as nat) {
            Ok((entries, q)) => if p <= q <= b.len() {
                match parse_value(b, q) {
                    Ok((Val::Str(k), r)) => if q <= r <= b.len() {
                        match parse_value(b, r) {
                            Ok((v, s)) => Ok((map_put(entries, k, v), s)),
                            Err(e) => Err(e),
                        }
                    } else {
                        Err(DeserializerError::UnexpectedEOF)
                    },
                    Ok((_, _)) => Err(DeserializerError::InvalidMapKey),
                    Err(e) => Err(e),
                }
            } else {
                Err(DeserializerError::UnexpectedEOF)
            },
            Err(e) => Err(e),
        }
    }
}

} // verus!

verus! {

/// A value that can be written and read back as itself: every size fits its
/// widest tier, and every map holds its keys in ascending order.
pub open spec fn well_formed(v: Val) -> bool
    decreases v,
{
    match v {
        Val::Str(s) => encode_utf8(s).len() <= 4294967295,
        Val::List(items) => items.len() <= 4294967295 && forall|i: int|
            0 <= i < items.len() ==> well_formed(#[trigger] items[i]),
        Val::Dict(entries) => entries.len() <= 4294967295 && keys_sorted(entries) && forall|i: int|
            0 <= i < entries.len() ==> encode_utf8((#[trigger] entries[i]).0).len() <= 4294967295
                && well_formed(entries[i].1),
        Val::Structure(_, fields) => fields.len() <= 65535 && forall|i: int|
            0 <= i < fields.len() ==> well_formed(#[trigger] fields[i]),
        _ => true,
    }
}

} // verus!
