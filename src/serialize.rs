//! Writes values in the packstream format.

use vstd::prelude::*;
use vstd::utf8::{encode_utf8, encode_scalar};
use crate::endian::{push_u16, push_u32, push_u64};
use crate::format::{
    enc,
    enc_int,
    enc_str,
    enc_list,
    enc_entries,
    encodable,
    encodable_entries,
    sizes_fit,
    size_header,
    struct_header,
    lemma_enc_list_push,
    lemma_enc_entries_push,
    lemma_encodable_list,
    lemma_encodable_entries,
};
use crate::markers;
use crate::value::{
    Val,
    Value,
    model,
    model_list,
    model_entries,
    lemma_model_list,
    lemma_model_entries,
    lemma_model_list_step,
    lemma_model_entries_step,
};

verus! {

/// Why a value could not be written.
#[derive(Debug, PartialEq, Eq)]
pub enum SerializerError {
    /// A structure has more fields than the widest structure tier holds.
    InvalidStructureLength,
}

/// Writes packstream values to a growing byte buffer.
pub struct Serializer {
    writer: Vec<u8>,
}

impl View for Serializer {
    type V = Seq<u8>;

    closed spec fn view(&self) -> Seq<u8> {
        self.writer@
    }
}

impl Serializer {
    /// A serializer with nothing written yet.
    pub fn new() -> (r: Self)
        ensures
            r@ == Seq::<u8>::empty(),
    {
        Serializer { writer: Vec::new() }
    }

    /// The bytes written so far.
    pub fn into_inner(self) -> (r: Vec<u8>)
        ensures
            r@ == self@,
    {
        self.writer
    }

    pub fn serialize_nil(&mut self)
        ensures
            final(self)@ == old(self)@ + enc(Val::Null),
    {
        self.writer.push(markers::NULL);
    }

    pub fn serialize_bool(&mut self, v: bool)
        ensures
            final(self)@ == old(self)@ + enc(Val::Boolean(v)),
    {
        if v {
            self.writer.push(markers::TRUE);
        } else {
            self.writer.push(markers::FALSE);
        }
    }

    /// Writes `v` in the narrowest integer tier that holds it.
    pub fn serialize_i64(&mut self, v: i64)
        ensures
            final(self)@ == old(self)@ + enc_int(v as int),
    {
        if v < -2147483648 || v > 2147483647 {
            self.writer.push(markers::INT_64);
            let u: u64 = if v < 0 {
                ((v + 9223372036854775807 + 1) as u64) + 9223372036854775808
            } else {
                v as u64
            };
            push_u64(&mut self.writer, u);
        } else if v < -32768 || v > 32767 {
            self.writer.push(markers::INT_32);
            let u: u32 = if v < 0 {
                (v + 4294967296) as u32
            } else {
                v as u32
            };
            push_u32(&mut self.writer, u);
        } else if v < -128 || v > 127 {
            self.writer.push(markers::INT_16);
            let u: u16 = if v < 0 {
                (v + 65536) as u16
            } else {
                v as u16
            };
            push_u16(&mut self.writer, u);
        } else {
            let u: u8 = if v < 0 {
                (v + 256) as u8
            } else {
                v as u8
            };
            if v < -16 {
                self.writer.push(markers::INT_8);
            }
            self.writer.push(u);
        }
        assert(final(self)@ =~= old(self)@ + enc_int(v as int));
    }

    /// Writes the double whose IEEE-754 bits are `bits`.
    pub fn serialize_float(&mut self, bits: u64)
        ensures
            final(self)@ == old(self)@ + enc(Val::Float(bits)),
    {
        self.writer.push(markers::FLOAT);
        push_u64(&mut self.writer, bits);
        assert(final(self)@ =~= old(self)@ + enc(Val::Float(bits)));
    }

    /// Writes the marker and length field of a string, list or map of `n`
    /// items.
    fn write_size(&mut self, tiny: u8, m8: u8, n: usize)
        requires
            n <= 4294967295,
            tiny == 0x80 || tiny == 0x90 || tiny == 0xA0,
            m8 == 0xD0 || m8 == 0xD4 || m8 == 0xD8,
        ensures
            final(self)@ == old(self)@ + size_header(tiny, m8, n as nat),
    {
        if n <= 15 {
            self.writer.push(tiny + n as u8);
        } else if n <= 255 {
            self.writer.push(m8);
            self.writer.push(n as u8);
        } else if n <= 65535 {
            self.writer.push(m8 + 1);
            push_u16(&mut self.writer, n as u16);
        } else {
            self.writer.push(m8 + 2);
            push_u32(&mut self.writer, n as u32);
        }
        assert(final(self)@ =~= old(self)@ + size_header(tiny, m8, n as nat));
    }

    fn write_bytes(&mut self, b: &[u8])
        ensures
            final(self)@ == old(self)@ + b@,
    {
        let mut i: usize = 0;
        while i < b.len()
            invariant
                0 <= i <= b@.len(),
                self@ == old(self)@ + b@.subrange(0, i as int),
            decreases b@.len() - i,
        {
            self.writer.push(b[i]);
            i = i + 1;
            assert(self@ =~= old(self)@ + b@.subrange(0, i as int));
        }
        assert(b@.subrange(0, b@.len() as int) =~= b@);
    }

    /// Writes `v` as a string: its UTF-8 byte count in the narrowest tier,
    /// then its bytes.
    pub fn serialize_str(&mut self, v: &str)
        requires
            encode_utf8(v@).len() <= 4294967295,
        ensures
            final(self)@ == old(self)@ + enc_str(v@),
    {
        let bytes = v.as_bytes();
        self.write_size(markers::TINY_STRING_NIBBLE, markers::STRING_8, bytes.len());
        self.write_bytes(bytes);
        assert(final(self)@ =~= old(self)@ + enc_str(v@));
    }

    /// Writes a character as a string of one character.
    pub fn serialize_char(&mut self, c: char)
        ensures
            final(self)@ == old(self)@ + enc_str(seq![c]),
    {
        let s = c as u32;
        let mut bytes: Vec<u8> = Vec::new();
        if s <= 0x7F {
            bytes.push((s & 0x7F) as u8);
        } else if s <= 0x7FF {
            bytes.push(0xC0 | ((s >> 6) & 0x1F) as u8);
            bytes.push(0x80 | (s & 0x3F) as u8);
        } else if s <= 0xFFFF {
            bytes.push(0xE0 | ((s >> 12) & 0x0F) as u8);
            bytes.push(0x80 | ((s >> 6) & 0x3F) as u8);
            bytes.push(0x80 | (s & 0x3F) as u8);
        } else {
            bytes.push(0xF0 | ((s >> 18) & 0x7) as u8);
            bytes.push(0x80 | ((s >> 12) & 0x3F) as u8);
            bytes.push(0x80 | ((s >> 6) & 0x3F) as u8);
            bytes.push(0x80 | (s & 0x3F) as u8);
        }
        proof {
            vstd::utf8::char_is_scalar(c);
            assert(seq![c].drop_first() =~= Seq::<char>::empty());
            assert(encode_utf8(seq![c]) =~= encode_scalar(s) + encode_utf8(Seq::<char>::empty()));
            assert(bytes@ =~= encode_utf8(seq![c]));
        }
        self.write_size(markers::TINY_STRING_NIBBLE, markers::STRING_8, bytes.len());
        self.write_bytes(bytes.as_slice());
        assert(final(self)@ =~= old(self)@ + enc_str(seq![c]));
    }

    /// Writes the marker and length field of a list of `len` items.
    pub fn serialize_list_header(&mut self, len: usize)
        requires
            len <= 4294967295,
        ensures
            final(self)@ == old(self)@ + size_header(0x90, 0xD4, len as nat),
    {
        self.write_size(markers::TINY_LIST_NIBBLE, markers::LIST_8, len);
    }

    /// Writes the marker and length field of a map of `len` entries.
    pub fn serialize_map_header(&mut self, len: usize)
        requires
            len <= 4294967295,
        ensures
            final(self)@ == old(self)@ + size_header(0xA0, 0xD8, len as nat),
    {
        self.write_size(markers::TINY_MAP_NIBBLE, markers::MAP_8, len);
    }

    /// Writes the marker, length field and tag of a structure of `len`
    /// fields; a structure of more than 65535 fields is refused and nothing
    /// is written.
    pub fn serialize_struct_header(&mut self, len: usize, tag: u8) -> (r: Result<
        (),
        SerializerError,
    >)
        ensures
            r is Ok <==> len <= 65535,
            r is Ok ==> final(self)@ == old(self)@ + struct_header(len as nat, tag),
            r is Err ==> final(self)@ == old(self)@,
    {
        if len <= 15 {
            self.writer.push(markers::TINY_STRUCT_NIBBLE + len as u8);
        } else if len <= 255 {
            self.writer.push(markers::STRUCT_8);
            self.writer.push(len as u8);
        } else if len <= 65535 {
            self.writer.push(markers::STRUCT_16);
            push_u16(&mut self.writer, len as u16);
        } else {
            return Err(SerializerError::InvalidStructureLength);
        }
        self.writer.push(tag);
        assert(final(self)@ =~= old(self)@ + struct_header(len as nat, tag));
        Ok(())
    }

    /// Writes the items of a list or the fields of a structure, one after
    /// another.
    fn serialize_items(&mut self, items: &Vec<Value>) -> (r: Result<(), SerializerError>)
        requires
            forall|i: int| 0 <= i < items@.len() ==> sizes_fit(#[trigger] model(items@[i])),
        ensures
            r is Ok <==> forall|i: int|
                0 <= i < items@.len() ==> encodable(#[trigger] model(items@[i])),
            r is Ok ==> final(self)@ == old(self)@ + enc_list(model_list(items@)),
        decreases items, 0nat,
    {
        let mut i: usize = 0;
        while i < items.len()
            invariant
                0 <= i <= items@.len(),
                forall|j: int| 0 <= j < items@.len() ==> sizes_fit(#[trigger] model(items@[j])),
                forall|j: int| 0 <= j < i ==> encodable(#[trigger] model(items@[j])),
                self@ == old(self)@ + enc_list(model_list(items@.subrange(0, i as int))),
            decreases items@.len() - i,
        {
            proof {
                assert(decreases_to!(items => items@[i as int]));
            }
            let r = self.serialize_value(&items[i]);
            if r.is_err() {
                return r;
            }
            proof {
                lemma_model_list_step(items@, i as int);
                lemma_enc_list_push(model_list(items@.subrange(0, i as int)), model(items@[i as int]));
            }
            i = i + 1;
        }
        assert(items@.subrange(0, items@.len() as int) =~= items@);
        Ok(())
    }

    /// Writes the entries of a map: each key as a string, then its value.
    fn serialize_entries(&mut self, entries: &Vec<(String, Value)>) -> (r: Result<
        (),
        SerializerError,
    >)
        requires
            forall|i: int|
                0 <= i < entries@.len() ==> encode_utf8((#[trigger] entries@[i]).0@).len()
                    <= 4294967295 && sizes_fit(model(entries@[i].1)),
        ensures
            r is Ok <==> forall|i: int|
                0 <= i < entries@.len() ==> encodable(model((#[trigger] entries@[i]).1)),
            r is Ok ==> final(self)@ == old(self)@ + enc_entries(model_entries(entries@)),
        decreases entries, 0nat,
    {
        let mut i: usize = 0;
        while i < entries.len()
            invariant
                0 <= i <= entries@.len(),
                forall|j: int|
                    0 <= j < entries@.len() ==> encode_utf8((#[trigger] entries@[j]).0@).len()
                        <= 4294967295 && sizes_fit(model(entries@[j].1)),
                forall|j: int| 0 <= j < i ==> encodable(model((#[trigger] entries@[j]).1)),
                self@ == old(self)@ + enc_entries(model_entries(entries@.subrange(0, i as int))),
            decreases entries@.len() - i,
        {
            let entry = &entries[i];
            proof {
                assert(decreases_to!(entries => entries@[i as int]));
                assert(decreases_to!(entries@[i as int] => entries@[i as int].1));
            }
            self.serialize_str(entry.0.as_str());
            let r = self.serialize_value(&entry.1);
            if r.is_err() {
                return r;
            }
            proof {
                lemma_model_entries_step(entries@, i as int);
                lemma_enc_entries_push(
                    model_entries(entries@.subrange(0, i as int)),
                    entry.0@,
                    model(entry.1),
                );
            }
            i = i + 1;
        }
        assert(entries@.subrange(0, entries@.len() as int) =~= entries@);
        Ok(())
    }

    /// Writes a whole value tree.
    pub fn serialize_value(&mut self, v: &Value) -> (r: Result<(), SerializerError>)
        requires
            sizes_fit(v@),
        ensures
            r is Ok <==> encodable(v@),
            r is Ok ==> final(self)@ == old(self)@ + enc(v@),
        decreases v, 1nat,
    {
        match v {
            Value::Null => {
                self.serialize_nil();
                assert(encodable(v@));
                Ok(())
            },
            Value::Boolean(b) => {
                self.serialize_bool(*b);
                assert(encodable(v@));
                Ok(())
            },
            Value::Integer(i) => {
                self.serialize_i64(*i);
                assert(encodable(v@));
                Ok(())
            },
            Value::Float(bits) => {
                self.serialize_float(*bits);
                assert(encodable(v@));
                Ok(())
            },
            Value::String(s) => {
                self.serialize_str(s.as_str());
                assert(encodable(v@));
                Ok(())
            },
            Value::List(items) => {
                proof {
                    lemma_model_list(items@);
                    lemma_encodable_list(model_list(items@));
                    assert forall|i: int| 0 <= i < items@.len() implies sizes_fit(
                        #[trigger] model(items@[i]),
                    ) by {
                        assert(model_list(items@)[i] == model(items@[i]));
                    }
                }
                self.serialize_list_header(items.len());
                let r = self.serialize_items(items);
                proof {
                    if r is Ok {
                        assert(final(self)@ =~= old(self)@ + enc(v@));
                        assert forall|i: int| 0 <= i < items@.len() implies encodable(
                            #[trigger] model_list(items@)[i],
                        ) by {
                            assert(encodable(model(items@[i])));
                        }
                    } else {
                        let i = choose|i: int|
                            0 <= i < items@.len() && !encodable(#[trigger] model(items@[i]));
                        assert(!encodable(model_list(items@)[i]));
                    }
                    assert(r is Ok <==> encodable(v@));
                }
                r
            },
            Value::Dict(entries) => {
                proof {
                    lemma_model_entries(entries@);
                    lemma_encodable_entries(model_entries(entries@));
                    assert forall|i: int| 0 <= i < entries@.len() implies encode_utf8(
                        (#[trigger] entries@[i]).0@,
                    ).len() <= 4294967295 && sizes_fit(model(entries@[i].1)) by {
                        let me = model_entries(entries@);
                        assert(me[i] == (entries@[i].0@, model(entries@[i].1)));
                        assert(encode_utf8(me[i].0).len() <= 4294967295 && sizes_fit(me[i].1));
                    }
                }
                self.serialize_map_header(entries.len());
                let r = self.serialize_entries(entries);
                proof {
                    let me = model_entries(entries@);
                    if r is Ok {
                        assert(final(self)@ =~= old(self)@ + enc(v@));
                        assert forall|i: int| 0 <= i < entries@.len() implies encode_utf8(
                            (#[trigger] me[i]).0,
                        ).len() <= 4294967295 && encodable(me[i].1) by {
                            assert(encodable(model(entries@[i].1)));
                            assert(me[i] == (entries@[i].0@, model(entries@[i].1)));
                            assert(encode_utf8(me[i].0).len() <= 4294967295 && sizes_fit(me[i].1));
                        }
                    } else {
                        let i = choose|i: int|
                            0 <= i < entries@.len() && !encodable(model((#[trigger] entries@[i]).1));
                        assert(me[i] == (entries@[i].0@, model(entries@[i].1)));
                        assert(!encodable(me[i].1));
                        assert(me[i].0 == entries@[i].0@);
                        assert(!encodable_entries(me));
                    }
                    assert(r is Ok <==> encodable(v@));
                }
                r
            },
            Value::Structure(tag, fields) => {
                proof {
                    lemma_model_list(fields@);
                    lemma_encodable_list(model_list(fields@));
                    assert forall|i: int| 0 <= i < fields@.len() implies sizes_fit(
                        #[trigger] model(fields@[i]),
                    ) by {
                        assert(model_list(fields@)[i] == model(fields@[i]));
                    }
                }
                let h = self.serialize_struct_header(fields.len(), *tag);
                if h.is_err() {
                    assert(!encodable(v@));
                    return h;
                }
                let r = self.serialize_items(fields);
                proof {
                    if r is Ok {
                        assert(final(self)@ =~= old(self)@ + enc(v@));
                        assert forall|i: int| 0 <= i < fields@.len() implies encodable(
                            #[trigger] model_list(fields@)[i],
                        ) by {
                            assert(encodable(model(fields@[i])));
                        }
                    } else {
                        let i = choose|i: int|
                            0 <= i < fields@.len() && !encodable(#[trigger] model(fields@[i]));
                        assert(!encodable(model_list(fields@)[i]));
                    }
                    assert(r is Ok <==> encodable(v@));
                }
                r
            },
        }
    }
}

} // verus!

verus! {

/// The packstream bytes of a value tree. Fails only on a structure of more
/// than 65535 fields.
pub fn serialize(value: &Value) -> (r: Result<Vec<u8>, SerializerError>)
    requires
        sizes_fit(value@),
    ensures
        r is Ok <==> encodable(value@),
        r matches Ok(bytes) ==> bytes@ == enc(value@),
{
    let mut s = Serializer::new();
    match s.serialize_value(value) {
        Ok(()) => {
            assert(s@ =~= enc(value@));
            Ok(s.into_inner())
        },
        Err(e) => Err(e),
    }
}

} // verus!
