//! Laws of the codec, proved over the spec of the wire format.

use vstd::prelude::*;
use vstd::utf8::{encode_utf8, encode_utf8_decode_utf8, encode_utf8_valid_utf8};
use crate::deserialize::DeserializerError;
use crate::endian::{
    be2,
    be4,
    be8,
    be2_value,
    lemma_be2,
    lemma_be4,
    lemma_be8,
    unsigned_of,
};
use crate::format::{
    enc,
    enc_int,
    enc_str,
    enc_list,
    enc_entries,
    size_header,
    struct_header,
    parse_value,
    parse_list,
    parse_entries,
    parse_len,
    parse_text,
    well_formed,
    sizes_fit,
    encodable,
    tier_width,
    lemma_encodable_list,
    lemma_encodable_entries,
    lemma_enc_list_push,
    lemma_enc_entries_push,
};
use crate::transport::{full_chunks, chunk_rest, chunk_of, dechunk, TransportError};
use crate::value::{
    Val,
    keys_sorted,
    key_lt,
    map_put,
    insert_pos,
    lemma_key_lt_total,
    lemma_insert_pos_bounds,
    lemma_insert_pos_split,
    lemma_insert_pos_unique,
    lemma_bytes_lt_transitive,
    lemma_map_put_last,
    lemma_map_put_sorted,
};

verus! {

/// `s` holds `x` from `p` on.
pub open spec fn holds_at(s: Seq<u8>, p: int, x: Seq<u8>) -> bool {
    0 <= p && p + x.len() <= s.len() && s.subrange(p, p + x.len()) == x
}

proof fn lemma_holds_split(s: Seq<u8>, p: int, x: Seq<u8>, y: Seq<u8>)
    requires
        holds_at(s, p, x + y),
    ensures
        holds_at(s, p, x),
        holds_at(s, p + x.len(), y),
{
    let whole = s.subrange(p, p + x.len() + y.len());
    assert(whole == x + y);
    assert(s.subrange(p, p + x.len()) =~= whole.subrange(0, x.len() as int));
    assert((x + y).subrange(0, x.len() as int) =~= x);
    assert(s.subrange(p + x.len(), p + x.len() + y.len()) =~= whole.subrange(
        x.len() as int,
        whole.len() as int,
    ));
    assert((x + y).subrange(x.len() as int, (x + y).len() as int) =~= y);
}

proof fn lemma_holds_byte(s: Seq<u8>, p: int, x: Seq<u8>, k: int)
    requires
        holds_at(s, p, x),
        0 <= k < x.len(),
    ensures
        s[p + k] == x[k],
{
    assert(s.subrange(p, p + x.len())[k] == s[p + k]);
}

proof fn lemma_round_trip_int(v: i64, s: Seq<u8>, p: int)
    requires
        holds_at(s, p, enc_int(v as int)),
    ensures
        parse_value(s, p) == Ok::<(Val, int), DeserializerError>(
            (Val::Integer(v), p + enc_int(v as int).len()),
        ),
{
    let e = enc_int(v as int);
    lemma_holds_byte(s, p, e, 0);
    if v < -2147483648 || v > 2147483647 {
        let u = unsigned_of(v as int, 18446744073709551616) as nat;
        lemma_be8(u);
        lemma_holds_split(s, p, seq![0xCBu8], be8(u));
        assert(s.subrange(p + 1, p + 9) == be8(u));
    } else if v < -32768 || v > 32767 {
        let u = unsigned_of(v as int, 4294967296) as nat;
        lemma_be4(u);
        lemma_holds_split(s, p, seq![0xCAu8], be4(u));
        assert(s.subrange(p + 1, p + 5) == be4(u));
    } else if v < -128 || v > 127 {
        let u = unsigned_of(v as int, 65536) as nat;
        lemma_be2(u);
        lemma_holds_split(s, p, seq![0xC9u8], be2(u));
        assert(s.subrange(p + 1, p + 3) == be2(u));
    } else if v >= -16 {
    } else {
        lemma_holds_byte(s, p, e, 1);
    }
}

proof fn lemma_round_trip_header(tiny: u8, m8: u8, n: nat, s: Seq<u8>, p: int)
    requires
        (tiny == 0x80 && m8 == 0xD0) || (tiny == 0x90 && m8 == 0xD4) || (tiny == 0xA0 && m8
            == 0xD8),
        n <= 4294967295,
        holds_at(s, p, size_header(tiny, m8, n)),
    ensures
        n <= 15 ==> s[p] == tiny + n,
        n > 15 ==> s[p] == m8 + (if n <= 255 { 0int } else if n <= 65535 { 1int } else { 2int })
            && parse_len(s, p + 1, tier_width(s[p] - m8)) == Ok::<(nat, int), DeserializerError>(
            (n, p + size_header(tiny, m8, n).len()),
        ),
{
    let h = size_header(tiny, m8, n);
    lemma_holds_byte(s, p, h, 0);
    if n <= 15 {
    } else if n <= 255 {
        lemma_holds_byte(s, p, h, 1);
    } else if n <= 65535 {
        lemma_be2(n);
        lemma_holds_split(s, p, seq![(m8 + 1) as u8], be2(n));
        assert(s.subrange(p + 1, p + 3) == be2(n));
    } else {
        lemma_be4(n);
        lemma_holds_split(s, p, seq![(m8 + 2) as u8], be4(n));
        assert(s.subrange(p + 1, p + 5) == be4(n));
    }
}

proof fn lemma_round_trip_text(t: Seq<char>, s: Seq<u8>, p: int)
    requires
        holds_at(s, p, encode_utf8(t)),
    ensures
        parse_text(s, p, encode_utf8(t).len()) == Ok::<(Val, int), DeserializerError>(
            (Val::Str(t), p + encode_utf8(t).len()),
        ),
{
    encode_utf8_valid_utf8(t);
    encode_utf8_decode_utf8(t);
}

proof fn lemma_round_trip_str(t: Seq<char>, s: Seq<u8>, p: int)
    requires
        encode_utf8(t).len() <= 4294967295,
        holds_at(s, p, enc_str(t)),
    ensures
        parse_value(s, p) == Ok::<(Val, int), DeserializerError>(
            (Val::Str(t), p + enc_str(t).len()),
        ),
{
    let n = encode_utf8(t).len();
    let h = size_header(0x80, 0xD0, n);
    lemma_holds_split(s, p, h, encode_utf8(t));
    lemma_round_trip_header(0x80, 0xD0, n, s, p);
    lemma_round_trip_text(t, s, p + h.len());
}

/// A well-formed value is read back from its encoding, wherever the encoding
/// stands in the input.
pub proof fn lemma_round_trip_at(v: Val, s: Seq<u8>, p: int)
    requires
        well_formed(v),
        holds_at(s, p, enc(v)),
    ensures
        parse_value(s, p) == Ok::<(Val, int), DeserializerError>((v, p + enc(v).len())),
    decreases v, 0nat,
{
    let e = enc(v);
    lemma_holds_byte(s, p, e, 0);
    match v {
        Val::Null => {},
        Val::Boolean(_) => {},
        Val::Integer(i) => {
            lemma_round_trip_int(i, s, p);
        },
        Val::Float(bits) => {
            lemma_be8(bits as nat);
            lemma_holds_split(s, p, seq![0xC1u8], be8(bits as nat));
            assert(s.subrange(p + 1, p + 9) == be8(bits as nat));
        },
        Val::Str(t) => {
            lemma_round_trip_str(t, s, p);
        },
        Val::List(items) => {
            let h = size_header(0x90, 0xD4, items.len());
            lemma_holds_split(s, p, h, enc_list(items));
            lemma_round_trip_header(0x90, 0xD4, items.len(), s, p);
            lemma_round_trip_list(items, s, p + h.len());
        },
        Val::Dict(entries) => {
            let h = size_header(0xA0, 0xD8, entries.len());
            lemma_holds_split(s, p, h, enc_entries(entries));
            lemma_round_trip_header(0xA0, 0xD8, entries.len(), s, p);
            lemma_round_trip_entries(entries, s, p + h.len());
        },
        Val::Structure(tag, fields) => {
            let n = fields.len();
            let h = struct_header(n, tag);
            lemma_holds_split(s, p, h, enc_list(fields));
            lemma_holds_byte(s, p, h, 1);
            if n > 15 {
                lemma_holds_byte(s, p, h, 2);
            }
            if n > 255 {
                lemma_be2(n);
                lemma_holds_byte(s, p, h, 3);
                assert(s.subrange(p + 1, p + 3) =~= h.subrange(1, 3));
                assert(h.subrange(1, 3) =~= be2(n));
            }
            lemma_round_trip_list(fields, s, p + h.len());
        },
    }
}

proof fn lemma_round_trip_list(items: Seq<Val>, s: Seq<u8>, p: int)
    requires
        forall|i: int| 0 <= i < items.len() ==> well_formed(#[trigger] items[i]),
        holds_at(s, p, enc_list(items)),
    ensures
        parse_list(s, p, items.len()) == Ok::<(Seq<Val>, int), DeserializerError>(
            (items, p + enc_list(items).len()),
        ),
    decreases items, 1nat,
{
    if items.len() > 0 {
        let init = items.drop_last();
        let last = items.last();
        assert(init.push(last) =~= items);
        lemma_enc_list_push(init, last);
        lemma_holds_split(s, p, enc_list(init), enc(last));
        assert(forall|i: int| 0 <= i < init.len() ==> init[i] == items[i]);
        lemma_round_trip_list(init, s, p);
        assert(well_formed(items[items.len() - 1]));
        lemma_round_trip_at(last, s, p + enc_list(init).len());
    } else {
        assert(items =~= Seq::<Val>::empty());
    }
}

proof fn lemma_round_trip_entries(entries: Seq<(Seq<char>, Val)>, s: Seq<u8>, p: int)
    requires
        keys_sorted(entries),
        forall|i: int|
            0 <= i < entries.len() ==> encode_utf8((#[trigger] entries[i]).0).len() <= 4294967295
                && well_formed(entries[i].1),
        holds_at(s, p, enc_entries(entries)),
    ensures
        parse_entries(s, p, entries.len()) == Ok::<
            (Seq<(Seq<char>, Val)>, int),
            DeserializerError,
        >((entries, p + enc_entries(entries).len())),
    decreases entries, 1nat,
{
    if entries.len() > 0 {
        let init = entries.drop_last();
        let (k, v) = entries.last();
        assert(init.push((k, v)) =~= entries);
        lemma_enc_entries_push(init, k, v);
        lemma_holds_split(s, p, enc_entries(init) + enc_str(k), enc(v));
        lemma_holds_split(s, p, enc_entries(init), enc_str(k));
        assert(forall|i: int| 0 <= i < init.len() ==> init[i] == entries[i]);
        assert(keys_sorted(init)) by {
            assert forall|i: int| 0 <= i < init.len() - 1 implies key_lt(
                #[trigger] init[i].0,
                init[i + 1].0,
            ) by {
                assert(key_lt(entries[i].0, entries[i + 1].0));
            }
        }
        lemma_round_trip_entries(init, s, p);
        let last_i = entries.len() - 1;
        assert(entries[last_i] == (k, v));
        assert(encode_utf8(entries[last_i].0).len() <= 4294967295 && well_formed(
            entries[last_i].1,
        ));
        let q = p + enc_entries(init).len();
        lemma_round_trip_str(k, s, q);
        lemma_round_trip_at(v, s, q + enc_str(k).len());
        if init.len() > 0 {
            assert(key_lt(entries[last_i - 1].0, entries[last_i].0));
        }
        lemma_map_put_last(init, k, v);
    } else {
        assert(entries =~= Seq::<(Seq<char>, Val)>::empty());
    }
}

/// A well-formed value fits every length field and can be written.
pub proof fn lemma_well_formed_writable(v: Val)
    requires
        well_formed(v),
    ensures
        sizes_fit(v),
        encodable(v),
    decreases v,
{
    match v {
        Val::List(items) => {
            assert forall|i: int| 0 <= i < items.len() implies sizes_fit(#[trigger] items[i])
                && encodable(items[i]) by {
                lemma_well_formed_writable(items[i]);
            }
            lemma_encodable_list(items);
        },
        Val::Structure(_, items) => {
            assert forall|i: int| 0 <= i < items.len() implies sizes_fit(#[trigger] items[i])
                && encodable(items[i]) by {
                lemma_well_formed_writable(items[i]);
            }
            lemma_encodable_list(items);
        },
        Val::Dict(entries) => {
            assert forall|i: int|
                0 <= i < entries.len() implies encode_utf8((#[trigger] entries[i]).0).len()
                <= 4294967295 && sizes_fit(entries[i].1) && encodable(entries[i].1) by {
                lemma_well_formed_writable(entries[i].1);
            }
            lemma_encodable_entries(entries);
        },
        _ => {},
    }
}

/// Round trip: a well-formed value can be written, and reading its
/// encoding gives the value back and stops where the encoding ends.
pub proof fn law_round_trip(v: Val)
    requires
        well_formed(v),
    ensures
        sizes_fit(v),
        encodable(v),
        parse_value(enc(v), 0) == Ok::<(Val, int), DeserializerError>((v, enc(v).len() as int)),
{
    lemma_well_formed_writable(v);
    assert(enc(v).subrange(0, enc(v).len() as int) =~= enc(v));
    lemma_round_trip_at(v, enc(v), 0);
}

} // verus!

verus! {

/// Canonical size: an integer takes the narrowest tier whose range holds it,
/// one byte for -16..127, then two, three, five or nine bytes.
pub proof fn law_int_narrowest(v: i64)
    ensures
        enc_int(v as int).len() == (if -16 <= v <= 127 {
            1int
        } else if -128 <= v <= 127 {
            2int
        } else if -32768 <= v <= 32767 {
            3int
        } else if -2147483648 <= v <= 2147483647 {
            5int
        } else {
            9int
        }),
{
    if v < -2147483648 || v > 2147483647 {
        lemma_be8(unsigned_of(v as int, 18446744073709551616) as nat);
    } else if v < -32768 || v > 32767 {
        lemma_be4(unsigned_of(v as int, 4294967296) as nat);
    } else if v < -128 || v > 127 {
        lemma_be2(unsigned_of(v as int, 65536) as nat);
    }
}

/// Tier boundaries of strings, lists and maps: 15 items fit the marker's
/// nibble and 16 take the 8-bit tier; 255 take the 8-bit tier and 256 the
/// 16-bit one; 65535 take the 16-bit tier and 65536 the 32-bit one.
pub proof fn law_size_tier_boundaries(tiny: u8, m8: u8)
    requires
        (tiny == 0x80 && m8 == 0xD0) || (tiny == 0x90 && m8 == 0xD4) || (tiny == 0xA0 && m8
            == 0xD8),
    ensures
        size_header(tiny, m8, 15) == seq![(tiny + 15) as u8],
        size_header(tiny, m8, 16) == seq![m8, 0x10u8],
        size_header(tiny, m8, 255) == seq![m8, 0xFFu8],
        size_header(tiny, m8, 256) == seq![(m8 + 1) as u8, 0x01u8, 0x00u8],
        size_header(tiny, m8, 65535) == seq![(m8 + 1) as u8, 0xFFu8, 0xFFu8],
        size_header(tiny, m8, 65536) == seq![(m8 + 2) as u8, 0x00u8, 0x01u8, 0x00u8, 0x00u8],
{
    assert(size_header(tiny, m8, 256) =~= seq![(m8 + 1) as u8, 0x01u8, 0x00u8]);
    assert(size_header(tiny, m8, 65535) =~= seq![(m8 + 1) as u8, 0xFFu8, 0xFFu8]);
    assert(be4(65536) =~= seq![0x00u8, 0x01u8, 0x00u8, 0x00u8]);
    assert(size_header(tiny, m8, 65536) =~= seq![
        (m8 + 2) as u8,
        0x00u8,
        0x01u8,
        0x00u8,
        0x00u8,
    ]);
}

/// A string of 15 UTF-8 bytes is written behind the marker `0x8F`, one of
/// 16 behind `0xD0, 0x10`.
pub proof fn law_string_tier_boundary(t: Seq<char>)
    ensures
        encode_utf8(t).len() == 15 ==> enc_str(t)[0] == 0x8F,
        encode_utf8(t).len() == 16 ==> enc_str(t).subrange(0, 2) == seq![0xD0u8, 0x10u8],
{
    law_size_tier_boundaries(0x80, 0xD0);
    if encode_utf8(t).len() == 16 {
        assert(enc_str(t).subrange(0, 2) =~= seq![0xD0u8, 0x10u8]);
    }
}

/// Chunk splitting: 65535 bytes written at once into an empty stream go out
/// as one full chunk and leave nothing waiting; 65536 bytes go out as a full
/// chunk and leave one byte, which a flush frames as a chunk of one byte.
pub proof fn law_chunk_split(data: Seq<u8>)
    requires
        data.len() == 65535 || data.len() == 65536,
    ensures
        data.len() == 65535 ==> full_chunks(data) == seq![0xFFu8, 0xFFu8] + data && chunk_rest(
            data,
        ) == Seq::<u8>::empty(),
        data.len() == 65536 ==> full_chunks(data) == seq![0xFFu8, 0xFFu8] + data.subrange(0, 65535)
            && chunk_rest(data) == seq![data[65535]] && chunk_of(chunk_rest(data)) == seq![
            0x00u8,
            0x01u8,
            data[65535],
        ],
{
    let tail = data.subrange(65535, data.len() as int);
    assert(full_chunks(tail) == Seq::<u8>::empty());
    assert(chunk_rest(tail) == tail);
    if data.len() == 65535 {
        assert(data.subrange(0, 65535) =~= data);
        assert(tail =~= Seq::<u8>::empty());
        assert(full_chunks(data) =~= seq![0xFFu8, 0xFFu8] + data);
    } else {
        assert(tail =~= seq![data[65535]]);
        assert(full_chunks(data) =~= seq![0xFFu8, 0xFFu8] + data.subrange(0, 65535));
        assert(chunk_of(tail) =~= seq![0x00u8, 0x01u8, data[65535]]);
    }
}

/// The zero-length chunk ends a message: whatever follows it is not read.
pub proof fn law_terminator_ends_message(payload: Seq<u8>, trailing: Seq<u8>)
    requires
        0 < payload.len() <= 65535,
    ensures
        dechunk(be2(payload.len()) + payload + seq![0x00u8, 0x00u8] + trailing, 0) == Ok::<
            Seq<u8>,
            TransportError,
        >(payload),
{
    let n = payload.len();
    let b = be2(n) + payload + seq![0x00u8, 0x00u8] + trailing;
    lemma_be2(n);
    assert(b.subrange(0, 2) =~= be2(n));
    assert(b.subrange(2, 2 + n as int) =~= payload);
    assert(b.subrange(2 + n as int, 4 + n as int) =~= seq![0x00u8, 0x00u8]);
    assert(be2_value(b.subrange(2 + n as int, 4 + n as int)) == 0);
    assert(dechunk(b, 2 + n as int) == Ok::<Seq<u8>, TransportError>(Seq::empty()));
    assert(be2_value(b.subrange(0, 2)) == n);
    assert(payload + Seq::<u8>::empty() =~= payload);
    assert(dechunk(b, 0) == Ok::<Seq<u8>, TransportError>(b.subrange(2, 2 + n as int) + Seq::empty()));
}

/// Key order: whatever the order in which keys are put into a map, its
/// entries stay in ascending key order, and so are written in that order.
pub proof fn law_map_keys_ascending(entries: Seq<(Seq<char>, Val)>, k: Seq<char>, v: Val)
    requires
        keys_sorted(entries),
    ensures
        keys_sorted(map_put(entries, k, v)),
{
    lemma_map_put_sorted(entries, k, v);
}

/// Order of insertion does not matter: putting two different keys into an
/// empty map in either order gives the same entries, the lower key first.
pub proof fn law_map_put_order_free(k1: Seq<char>, v1: Val, k2: Seq<char>, v2: Val)
    requires
        k1 != k2,
    ensures
        map_put(map_put(Seq::empty(), k1, v1), k2, v2) == map_put(
            map_put(Seq::empty(), k2, v2),
            k1,
            v1,
        ),
        key_lt(k1, k2) ==> map_put(map_put(Seq::empty(), k1, v1), k2, v2) == seq![(k1, v1), (k2, v2)],
        key_lt(k2, k1) ==> map_put(map_put(Seq::empty(), k1, v1), k2, v2) == seq![(k2, v2), (k1, v1)],
{
    let e: Seq<(Seq<char>, Val)> = Seq::empty();
    lemma_key_lt_total(k1, k2);
    assert(map_put(e, k1, v1) =~= seq![(k1, v1)]);
    assert(map_put(e, k2, v2) =~= seq![(k2, v2)]);
    let a = seq![(k1, v1)];
    let b = seq![(k2, v2)];
    assert(a.drop_last() =~= e);
    assert(b.drop_last() =~= e);
    if key_lt(k1, k2) {
        assert(insert_pos(a, k2) == 1);
        assert(insert_pos(b, k1) == 0);
        assert(a.insert(1, (k2, v2)) =~= seq![(k1, v1), (k2, v2)]);
        assert(b.insert(0, (k1, v1)) =~= seq![(k1, v1), (k2, v2)]);
    } else {
        assert(insert_pos(a, k2) == 0);
        assert(insert_pos(b, k1) == 1);
        assert(a.insert(0, (k2, v2)) =~= seq![(k2, v2), (k1, v1)]);
        assert(b.insert(1, (k1, v1)) =~= seq![(k2, v2), (k1, v1)]);
    }
}

proof fn lemma_key_lt_transitive(a: Seq<char>, b: Seq<char>, c: Seq<char>)
    requires
        key_lt(a, b),
        key_lt(b, c),
    ensures
        key_lt(a, c),
{
    lemma_bytes_lt_transitive(encode_utf8(a), encode_utf8(b), encode_utf8(c));
}

/// Where `k2` goes after a lower key `k1` is put.
proof fn lemma_pos_after_lower_put(e: Seq<(Seq<char>, Val)>, k1: Seq<char>, v1: Val, k2: Seq<char>)
    requires
        keys_sorted(e),
        key_lt(k1, k2),
    ensures
        ({
            let p1 = insert_pos(e, k1);
            let p2 = insert_pos(e, k2);
            let f1 = p1 < e.len() && e[p1].0 == k1;
            &&& p1 <= p2
            &&& f1 ==> p1 < p2
            &&& insert_pos(map_put(e, k1, v1), k2) == if f1 {
                p2
            } else {
                p2 + 1
            }
        }),
{
    lemma_insert_pos_bounds(e, k1);
    lemma_insert_pos_bounds(e, k2);
    lemma_insert_pos_split(e, k1);
    lemma_insert_pos_split(e, k2);
    let p1 = insert_pos(e, k1);
    let p2 = insert_pos(e, k2);
    if p1 > p2 {
        assert(key_lt(e[p2].0, k1));
        lemma_key_lt_transitive(e[p2].0, k1, k2);
    }
    let f1 = p1 < e.len() && e[p1].0 == k1;
    if f1 && p1 >= p2 {
        assert(!key_lt(e[p1].0, k2));
    }
    let e1 = map_put(e, k1, v1);
    let q2 = if f1 {
        p2
    } else {
        p2 + 1
    };
    assert forall|i: int| 0 <= i < q2 implies key_lt(#[trigger] e1[i].0, k2) by {
        if i == p1 {
        } else if i < p1 {
            assert(e1[i] == e[i]);
        } else if f1 {
            assert(e1[i] == e[i]);
        } else {
            assert(e1[i] == e[i - 1]);
        }
    }
    assert forall|i: int| q2 <= i < e1.len() implies !key_lt(#[trigger] e1[i].0, k2) by {
        if f1 {
            assert(e1[i] == e[i]);
        } else {
            assert(e1[i] == e[i - 1]);
        }
    }
    lemma_insert_pos_unique(e1, k2, q2);
}

/// Where `k1` goes after a higher key `k2` is put.
proof fn lemma_pos_after_higher_put(e: Seq<(Seq<char>, Val)>, k2: Seq<char>, v2: Val, k1: Seq<char>)
    requires
        keys_sorted(e),
        key_lt(k1, k2),
        insert_pos(e, k1) <= insert_pos(e, k2),
    ensures
        insert_pos(map_put(e, k2, v2), k1) == insert_pos(e, k1),
{
    lemma_key_lt_distinct(k1, k2);
    lemma_key_lt_total(k1, k2);
    lemma_insert_pos_bounds(e, k1);
    lemma_insert_pos_bounds(e, k2);
    lemma_insert_pos_split(e, k1);
    let p1 = insert_pos(e, k1);
    let p2 = insert_pos(e, k2);
    let f2 = p2 < e.len() && e[p2].0 == k2;
    let e2 = map_put(e, k2, v2);
    assert forall|i: int| 0 <= i < p1 implies key_lt(#[trigger] e2[i].0, k1) by {
        assert(e2[i] == e[i]);
    }
    assert forall|i: int| p1 <= i < e2.len() implies !key_lt(#[trigger] e2[i].0, k1) by {
        if i == p2 {
        } else if i < p2 {
            assert(e2[i] == e[i]);
        } else if f2 {
            assert(e2[i] == e[i]);
        } else {
            assert(e2[i] == e[i - 1]);
        }
    }
    lemma_insert_pos_unique(e2, k1, p1);
}

proof fn lemma_key_lt_distinct(a: Seq<char>, b: Seq<char>)
    requires
        key_lt(a, b),
    ensures
        a != b,
{
    crate::value::lemma_bytes_lt_irreflexive(encode_utf8(a));
}

proof fn lemma_updates_commute<A>(s: Seq<A>, i: int, x: A, j: int, y: A)
    requires
        0 <= i < s.len(),
        0 <= j < s.len(),
        i != j,
    ensures
        s.update(i, x).update(j, y) == s.update(j, y).update(i, x),
{
    assert(s.update(i, x).update(j, y) =~= s.update(j, y).update(i, x));
}

proof fn lemma_update_insert_commute<A>(s: Seq<A>, i: int, x: A, j: int, y: A)
    requires
        0 <= i < j <= s.len(),
    ensures
        s.update(i, x).insert(j, y) == s.insert(j, y).update(i, x),
{
    assert(s.update(i, x).insert(j, y) =~= s.insert(j, y).update(i, x));
}

proof fn lemma_insert_update_commute<A>(s: Seq<A>, i: int, x: A, j: int, y: A)
    requires
        0 <= i <= j < s.len(),
    ensures
        s.insert(i, x).update(j + 1, y) == s.update(j, y).insert(i, x),
{
    assert(s.insert(i, x).update(j + 1, y) =~= s.update(j, y).insert(i, x));
}

proof fn lemma_inserts_commute<A>(s: Seq<A>, i: int, x: A, j: int, y: A)
    requires
        0 <= i <= j <= s.len(),
    ensures
        s.insert(i, x).insert(j + 1, y) == s.insert(j, y).insert(i, x),
{
    assert(s.insert(i, x).insert(j + 1, y) =~= s.insert(j, y).insert(i, x));
}

proof fn lemma_put_commutes_ordered(
    e: Seq<(Seq<char>, Val)>,
    k1: Seq<char>,
    v1: Val,
    k2: Seq<char>,
    v2: Val,
)
    requires
        keys_sorted(e),
        key_lt(k1, k2),
    ensures
        map_put(map_put(e, k1, v1), k2, v2) == map_put(map_put(e, k2, v2), k1, v1),
{
    lemma_key_lt_distinct(k1, k2);
    lemma_insert_pos_bounds(e, k1);
    lemma_insert_pos_bounds(e, k2);
    lemma_pos_after_lower_put(e, k1, v1, k2);
    lemma_pos_after_higher_put(e, k2, v2, k1);
    let n = e.len() as int;
    let p1 = insert_pos(e, k1);
    let p2 = insert_pos(e, k2);
    let f1 = p1 < n && e[p1].0 == k1;
    let f2 = p2 < n && e[p2].0 == k2;
    let x1 = (k1, v1);
    let x2 = (k2, v2);
    let e1 = map_put(e, k1, v1);
    let e2 = map_put(e, k2, v2);
    assert(e2 == if f2 {
        e.update(p2, x2)
    } else {
        e.insert(p2, x2)
    });
    if f1 {
        assert(e1 == e.update(p1, x1));
        assert(f2 <==> (p2 < e1.len() && e1[p2].0 == k2)) by {
            if p2 < n {
                assert(e1[p2] == e[p2]);
            }
        }
        assert(p1 < e2.len() && e2[p1].0 == k1) by {
            assert(e2[p1] == e[p1]);
        }
        if f2 {
            lemma_updates_commute(e, p1, x1, p2, x2);
        } else {
            lemma_update_insert_commute(e, p1, x1, p2, x2);
        }
    } else {
        assert(e1 == e.insert(p1, x1));
        assert(f2 <==> (p2 + 1 < e1.len() && e1[p2 + 1].0 == k2)) by {
            if p2 < n {
                assert(e1[p2 + 1] == e[p2]);
            }
        }
        assert(!(p1 < e2.len() && e2[p1].0 == k1)) by {
            if p1 < p2 {
                assert(e2[p1] == e[p1]);
            } else if p1 < e2.len() {
                assert(e2[p1] == x2);
            }
        }
        if f2 {
            lemma_insert_update_commute(e, p1, x1, p2, x2);
        } else {
            lemma_inserts_commute(e, p1, x1, p2, x2);
        }
    }
}

/// Order of insertion does not matter: putting two different keys into
/// sorted map entries in either order gives the same entries.
pub proof fn law_map_put_commutes(
    e: Seq<(Seq<char>, Val)>,
    k1: Seq<char>,
    v1: Val,
    k2: Seq<char>,
    v2: Val,
)
    requires
        keys_sorted(e),
        k1 != k2,
    ensures
        map_put(map_put(e, k1, v1), k2, v2) == map_put(map_put(e, k2, v2), k1, v1),
{
    lemma_key_lt_total(k1, k2);
    if key_lt(k1, k2) {
        lemma_put_commutes_ordered(e, k1, v1, k2, v2);
    } else {
        lemma_put_commutes_ordered(e, k2, v2, k1, v1);
    }
}

/// The bytes that start no value.
pub open spec fn is_unused_marker(m: u8) -> bool {
    (0xC4 <= m <= 0xC7) || (0xCC <= m <= 0xCF) || m == 0xD3 || m == 0xD7 || m == 0xDB || (0xDE
        <= m <= 0xEF)
}

/// A byte that starts no value is refused as a marker, never read past.
pub proof fn law_unused_marker_refused(b: Seq<u8>, p: int)
    requires
        0 <= p < b.len(),
        is_unused_marker(b[p]),
    ensures
        parse_value(b, p) == Err::<(Val, int), DeserializerError>(
            DeserializerError::UnexpectedMarker(b[p]),
        ),
{
}

} // verus!
