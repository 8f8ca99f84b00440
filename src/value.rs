//! The dynamically typed value tree that the codec reads and writes, and its
//! mathematical model.

use vstd::prelude::*;
use vstd::utf8::encode_utf8;

verus! {

/// A packstream value. A float is held as the bits of its IEEE-754 double.
/// A map holds its entries in ascending key order, each key once.
#[derive(Debug, PartialEq)]
pub enum Value {
    Null,
    Boolean(bool),
    Integer(i64),
    Float(u64),
    String(String),
    List(Vec<Value>),
    Dict(Vec<(String, Value)>),
    Structure(u8, Vec<Value>),
}

/// The model of a `Value`: strings are their characters, lists and maps are
/// sequences.
pub enum Val {
    Null,
    Boolean(bool),
    Integer(i64),
    Float(u64),
    Str(Seq<char>),
    List(Seq<Val>),
    Dict(Seq<(Seq<char>, Val)>),
    Structure(u8, Seq<Val>),
}

pub open spec fn model(v: Value) -> Val
    decreases v,
{
    match v {
        Value::Null => Val::Null,
        Value::Boolean(b) => Val::Boolean(b),
        Value::Integer(i) => Val::Integer(i),
        Value::Float(f) => Val::Float(f),
        Value::String(s) => Val::Str(s@),
        Value::List(items) => Val::List(model_list(items@)),
        Value::Dict(entries) => Val::Dict(model_entries(entries@)),
        Value::Structure(tag, fields) => Val::Structure(tag, model_list(fields@)),
    }
}

pub open spec fn model_list(s: Seq<Value>) -> Seq<Val>
    decreases s,
{
    if s.len() == 0 {
        Seq::empty()
    } else {
        model_list(s.drop_last()).push(model(s.last()))
    }
}

pub open spec fn model_entries(s: Seq<(String, Value)>) -> Seq<(Seq<char>, Val)>
    decreases s,
{
    if s.len() == 0 {
        Seq::empty()
    } else {
        model_entries(s.drop_last()).push((s.last().0@, model(s.last().1)))
    }
}

impl View for Value {
    type V = Val;

    open spec fn view(&self) -> Val {
        model(*self)
    }
}

} // verus!

verus! {

pub proof fn lemma_model_list(s: Seq<Value>)
    ensures
        model_list(s).len() == s.len(),
        forall|i: int| 0 <= i < s.len() ==> #[trigger] model_list(s)[i] == model(s[i]),
    decreases s.len(),
{
    if s.len() > 0 {
        lemma_model_list(s.drop_last());
    }
}

pub proof fn lemma_model_entries(s: Seq<(String, Value)>)
    ensures
        model_entries(s).len() == s.len(),
        forall|i: int|
            0 <= i < s.len() ==> #[trigger] model_entries(s)[i] == (s[i].0@, model(s[i].1)),
    decreases s.len(),
{
    if s.len() > 0 {
        lemma_model_entries(s.drop_last());
    }
}

/// The model of a prefix one item longer is the model of the prefix with
/// that item's model pushed.
pub proof fn lemma_model_list_step(s: Seq<Value>, i: int)
    requires
        0 <= i < s.len(),
    ensures
        model_list(s.subrange(0, i + 1)) == model_list(s.subrange(0, i)).push(model(s[i])),
{
    assert(s.subrange(0, i + 1).drop_last() =~= s.subrange(0, i));
}

pub proof fn lemma_model_entries_step(s: Seq<(String, Value)>, i: int)
    requires
        0 <= i < s.len(),
    ensures
        model_entries(s.subrange(0, i + 1)) == model_entries(s.subrange(0, i)).push(
            (s[i].0@, model(s[i].1)),
        ),
{
    assert(s.subrange(0, i + 1).drop_last() =~= s.subrange(0, i));
}

} // verus!

verus! {

/// Lexicographic order on byte strings, a proper prefix first.
pub open spec fn bytes_lt(a: Seq<u8>, b: Seq<u8>) -> bool
    decreases a.len(),
{
    if a.len() == 0 {
        b.len() > 0
    } else if b.len() == 0 {
        false
    } else if a[0] != b[0] {
        a[0] < b[0]
    } else {
        bytes_lt(a.drop_first(), b.drop_first())
    }
}

/// The order of map keys: the order of their UTF-8 bytes.
pub open spec fn key_lt(a: Seq<char>, b: Seq<char>) -> bool {
    bytes_lt(encode_utf8(a), encode_utf8(b))
}

/// Where `k` goes among `entries`: after the last entry whose key is below it.
pub open spec fn insert_pos(entries: Seq<(Seq<char>, Val)>, k: Seq<char>) -> int
    decreases entries.len(),
{
    if entries.len() == 0 {
        0
    } else if key_lt(entries.last().0, k) {
        entries.len() as int
    } else {
        insert_pos(entries.drop_last(), k)
    }
}

/// The entries after putting `v` under `k`: a value already under `k` is
/// replaced, else the entry goes in at its place in key order.
pub open spec fn map_put(entries: Seq<(Seq<char>, Val)>, k: Seq<char>, v: Val) -> Seq<
    (Seq<char>, Val),
> {
    let i = insert_pos(entries, k);
    if i < entries.len() && entries[i].0 == k {
        entries.update(i, (k, v))
    } else {
        entries.insert(i, (k, v))
    }
}

/// Each key is below the next one.
pub open spec fn keys_sorted(entries: Seq<(Seq<char>, Val)>) -> bool {
    forall|i: int| 0 <= i < entries.len() - 1 ==> key_lt(#[trigger] entries[i].0, entries[i + 1].0)
}

pub proof fn lemma_insert_pos_bounds(entries: Seq<(Seq<char>, Val)>, k: Seq<char>)
    ensures
        0 <= insert_pos(entries, k) <= entries.len(),
        insert_pos(entries, k) > 0 ==> key_lt(entries[insert_pos(entries, k) - 1].0, k),
        insert_pos(entries, k) < entries.len() ==> !key_lt(entries[insert_pos(entries, k)].0, k),
    decreases entries.len(),
{
    if entries.len() > 0 && !key_lt(entries.last().0, k) {
        let init = entries.drop_last();
        lemma_insert_pos_bounds(init, k);
        let i = insert_pos(init, k);
        if i > 0 {
            assert(init[i - 1] == entries[i - 1]);
        }
        if i < init.len() {
            assert(init[i] == entries[i]);
        }
    }
}

pub proof fn lemma_bytes_lt_irreflexive(a: Seq<u8>)
    ensures
        !bytes_lt(a, a),
    decreases a.len(),
{
    if a.len() > 0 {
        lemma_bytes_lt_irreflexive(a.drop_first());
    }
}

pub proof fn lemma_bytes_lt_total(a: Seq<u8>, b: Seq<u8>)
    ensures
        a != b ==> bytes_lt(a, b) || bytes_lt(b, a),
    decreases a.len(),
{
    if a.len() > 0 && b.len() > 0 && a[0] == b[0] {
        lemma_bytes_lt_total(a.drop_first(), b.drop_first());
        if a.drop_first() == b.drop_first() {
            assert(a =~= seq![a[0]] + a.drop_first());
            assert(b =~= seq![b[0]] + b.drop_first());
        }
    } else if a.len() == 0 && b.len() == 0 {
        assert(a =~= b);
    }
}

pub proof fn lemma_bytes_lt_asymmetric(a: Seq<u8>, b: Seq<u8>)
    ensures
        bytes_lt(a, b) ==> !bytes_lt(b, a),
    decreases a.len(),
{
    if a.len() > 0 && b.len() > 0 && a[0] == b[0] {
        lemma_bytes_lt_asymmetric(a.drop_first(), b.drop_first());
    }
}

/// Two different keys are ordered one way or the other, never both.
pub proof fn lemma_key_lt_total(a: Seq<char>, b: Seq<char>)
    requires
        a != b,
    ensures
        key_lt(a, b) != key_lt(b, a),
{
    vstd::utf8::encode_utf8_decode_utf8(a);
    vstd::utf8::encode_utf8_decode_utf8(b);
    lemma_bytes_lt_total(encode_utf8(a), encode_utf8(b));
    lemma_bytes_lt_asymmetric(encode_utf8(a), encode_utf8(b));
}

pub proof fn lemma_bytes_lt_transitive(a: Seq<u8>, b: Seq<u8>, c: Seq<u8>)
    requires
        bytes_lt(a, b),
        bytes_lt(b, c),
    ensures
        bytes_lt(a, c),
    decreases a.len(),
{
    if a.len() > 0 && b.len() > 0 && c.len() > 0 && a[0] == b[0] && b[0] == c[0] {
        lemma_bytes_lt_transitive(a.drop_first(), b.drop_first(), c.drop_first());
    }
}

/// In sorted entries every key is below every later key.
pub proof fn lemma_sorted_all(entries: Seq<(Seq<char>, Val)>, i: int, j: int)
    requires
        keys_sorted(entries),
        0 <= i < j < entries.len(),
    ensures
        key_lt(entries[i].0, entries[j].0),
    decreases j - i,
{
    if j > i + 1 {
        lemma_sorted_all(entries, i, j - 1);
        assert(key_lt(entries[j - 1].0, entries[j].0));
        lemma_bytes_lt_transitive(
            encode_utf8(entries[i].0),
            encode_utf8(entries[j - 1].0),
            encode_utf8(entries[j].0),
        );
    }
}

/// In sorted entries the keys below `k` are exactly those before
/// `insert_pos`.
pub proof fn lemma_insert_pos_split(entries: Seq<(Seq<char>, Val)>, k: Seq<char>)
    requires
        keys_sorted(entries),
    ensures
        forall|i: int| 0 <= i < insert_pos(entries, k) ==> key_lt(#[trigger] entries[i].0, k),
        forall|i: int|
            insert_pos(entries, k) <= i < entries.len() ==> !key_lt(#[trigger] entries[i].0, k),
    decreases entries.len(),
{
    lemma_insert_pos_bounds(entries, k);
    let p = insert_pos(entries, k);
    if entries.len() > 0 {
        let init = entries.drop_last();
        assert(keys_sorted(init)) by {
            assert forall|i: int| 0 <= i < init.len() - 1 implies key_lt(
                #[trigger] init[i].0,
                init[i + 1].0,
            ) by {
                assert(key_lt(entries[i].0, entries[i + 1].0));
            }
        }
        if key_lt(entries.last().0, k) {
            assert forall|i: int| 0 <= i < p implies key_lt(#[trigger] entries[i].0, k) by {
                if i < entries.len() - 1 {
                    lemma_sorted_all(entries, i, entries.len() - 1);
                    lemma_bytes_lt_transitive(
                        encode_utf8(entries[i].0),
                        encode_utf8(entries.last().0),
                        encode_utf8(k),
                    );
                }
            }
        } else {
            lemma_insert_pos_split(init, k);
            assert(forall|i: int| 0 <= i < init.len() ==> init[i] == entries[i]);
        }
    }
}

/// A place that splits sorted entries into the keys below `k` and the
/// others is `insert_pos`.
pub proof fn lemma_insert_pos_unique(entries: Seq<(Seq<char>, Val)>, k: Seq<char>, p: int)
    requires
        0 <= p <= entries.len(),
        forall|i: int| 0 <= i < p ==> key_lt(#[trigger] entries[i].0, k),
        forall|i: int| p <= i < entries.len() ==> !key_lt(#[trigger] entries[i].0, k),
    ensures
        insert_pos(entries, k) == p,
    decreases entries.len(),
{
    if entries.len() > 0 && p < entries.len() {
        let init = entries.drop_last();
        assert(!key_lt(entries[entries.len() - 1].0, k));
        assert(forall|i: int| 0 <= i < init.len() ==> init[i] == entries[i]);
        lemma_insert_pos_unique(init, k, p);
    } else if entries.len() > 0 {
        assert(key_lt(entries[entries.len() - 1].0, k));
    }
}

/// Putting a key above every key of sorted entries appends it.
pub proof fn lemma_map_put_last(entries: Seq<(Seq<char>, Val)>, k: Seq<char>, v: Val)
    requires
        entries.len() > 0 ==> key_lt(entries.last().0, k),
    ensures
        map_put(entries, k, v) == entries.push((k, v)),
{
    assert(entries.insert(entries.len() as int, (k, v)) =~= entries.push((k, v)));
}

/// Putting keeps the keys sorted.
pub proof fn lemma_map_put_sorted(entries: Seq<(Seq<char>, Val)>, k: Seq<char>, v: Val)
    requires
        keys_sorted(entries),
    ensures
        keys_sorted(map_put(entries, k, v)),
{
    lemma_insert_pos_bounds(entries, k);
    let i = insert_pos(entries, k);
    let r = map_put(entries, k, v);
    if i < entries.len() && entries[i].0 == k {
        assert forall|j: int| 0 <= j < r.len() - 1 implies key_lt(#[trigger] r[j].0, r[j + 1].0) by {
            assert(key_lt(entries[j].0, entries[j + 1].0));
        }
    } else {
        if i < entries.len() {
            lemma_bytes_lt_total(encode_utf8(entries[i].0), encode_utf8(k));
            if encode_utf8(entries[i].0) == encode_utf8(k) {
                vstd::utf8::encode_utf8_decode_utf8(k);
                vstd::utf8::encode_utf8_decode_utf8(entries[i].0);
            }
        }
        assert forall|j: int| 0 <= j < r.len() - 1 implies key_lt(#[trigger] r[j].0, r[j + 1].0) by {
            if j < i - 1 {
                assert(key_lt(entries[j].0, entries[j + 1].0));
            } else if j == i - 1 {
            } else if j == i {
            } else {
                assert(key_lt(entries[j - 1].0, entries[j].0));
            }
        }
    }
}

} // verus!

verus! {

/// Whether `a` comes before `b` in lexicographic byte order.
pub fn bytes_less(a: &[u8], b: &[u8]) -> (r: bool)
    ensures
        r == bytes_lt(a@, b@),
{
    let mut i: usize = 0;
    assert(a@.subrange(0, a@.len() as int) =~= a@);
    assert(b@.subrange(0, b@.len() as int) =~= b@);
    while i < a.len() && i < b.len() && a[i] == b[i]
        invariant
            0 <= i <= a@.len(),
            i <= b@.len(),
            bytes_lt(a@, b@) == bytes_lt(
                a@.subrange(i as int, a@.len() as int),
                b@.subrange(i as int, b@.len() as int),
            ),
        decreases a@.len() - i,
    {
        assert(a@.subrange(i as int, a@.len() as int).drop_first() =~= a@.subrange(
            i + 1,
            a@.len() as int,
        ));
        assert(b@.subrange(i as int, b@.len() as int).drop_first() =~= b@.subrange(
            i + 1,
            b@.len() as int,
        ));
        i = i + 1;
    }
    if i == a.len() {
        i < b.len()
    } else if i == b.len() {
        false
    } else {
        a[i] < b[i]
    }
}

/// Whether `a` and `b` hold the same bytes.
pub fn bytes_equal(a: &[u8], b: &[u8]) -> (r: bool)
    ensures
        r == (a@ == b@),
{
    if a.len() != b.len() {
        return false;
    }
    let mut i: usize = 0;
    while i < a.len()
        invariant
            0 <= i <= a@.len(),
            a@.len() == b@.len(),
            a@.subrange(0, i as int) == b@.subrange(0, i as int),
        decreases a@.len() - i,
    {
        if a[i] != b[i] {
            return false;
        }
        assert(a@.subrange(0, i + 1) =~= a@.subrange(0, i as int).push(a@[i as int]));
        assert(b@.subrange(0, i + 1) =~= b@.subrange(0, i as int).push(b@[i as int]));
        i = i + 1;
    }
    assert(a@ =~= a@.subrange(0, a@.len() as int));
    assert(b@ =~= b@.subrange(0, b@.len() as int));
    true
}

/// Puts `value` under `key` in map entries kept in key order: a value
/// already under `key` is replaced.
pub fn put_entry(entries: &mut Vec<(String, Value)>, key: String, value: Value)
    ensures
        model_entries(final(entries)@) == map_put(model_entries(old(entries)@), key@, value@),
{
    let ghost me = model_entries(entries@);
    proof {
        lemma_model_entries(entries@);
    }
    let mut i: usize = entries.len();
    assert(me.subrange(0, i as int) =~= me);
    while i > 0 && !bytes_less(entries[i - 1].0.as_str().as_bytes(), key.as_str().as_bytes())
        invariant
            0 <= i <= entries@.len(),
            entries@ == old(entries)@,
            me == model_entries(entries@),
            me.len() == entries@.len(),
            forall|j: int|
                0 <= j < entries@.len() ==> #[trigger] me[j] == (
                    entries@[j].0@,
                    model(entries@[j].1),
                ),
            insert_pos(me, key@) == insert_pos(me.subrange(0, i as int), key@),
        decreases i,
    {
        assert(me.subrange(0, i as int).drop_last() =~= me.subrange(0, i - 1));
        i = i - 1;
    }
    proof {
        if i > 0 {
            assert(me.subrange(0, i as int).last() == me[i - 1]);
        }
        assert(insert_pos(me, key@) == i);
    }
    if i < entries.len() && bytes_equal(
        entries[i].0.as_str().as_bytes(),
        key.as_str().as_bytes(),
    ) {
        proof {
            vstd::utf8::encode_utf8_decode_utf8(key@);
            vstd::utf8::encode_utf8_decode_utf8(entries@[i as int].0@);
        }
        entries.remove(i);
        entries.insert(i, (key, value));
    } else {
        proof {
            if i < entries@.len() {
                assert(me[i as int].0 != key@);
            }
        }
        entries.insert(i, (key, value));
    }
    proof {
        lemma_model_entries(final(entries)@);
        assert(model_entries(final(entries)@) =~= map_put(me, key@, value@));
    }
}

} // verus!

verus! {

impl Value {
    pub fn is_null(&self) -> (r: bool)
        ensures
            r == (self@ is Null),
    {
        match self {
            Value::Null => true,
            _ => false,
        }
    }

    pub fn as_boolean(&self) -> (r: Option<bool>)
        ensures
            r == (match self@ {
                Val::Boolean(b) => Some(b),
                _ => None::<bool>,
            }),
    {
        match self {
            Value::Boolean(b) => Some(*b),
            _ => None,
        }
    }

    pub fn is_boolean(&self) -> (r: bool)
        ensures
            r == (self@ is Boolean),
    {
        self.as_boolean().is_some()
    }

    pub fn as_integer(&self) -> (r: Option<i64>)
        ensures
            r == (match self@ {
                Val::Integer(i) => Some(i),
                _ => None::<i64>,
            }),
    {
        match self {
            Value::Integer(i) => Some(*i),
            _ => None,
        }
    }

    pub fn is_integer(&self) -> (r: bool)
        ensures
            r == (self@ is Integer),
    {
        self.as_integer().is_some()
    }

    /// The IEEE-754 bits of a float.
    pub fn as_float(&self) -> (r: Option<u64>)
        ensures
            r == (match self@ {
                Val::Float(f) => Some(f),
                _ => None::<u64>,
            }),
    {
        match self {
            Value::Float(f) => Some(*f),
            _ => None,
        }
    }

    pub fn is_float(&self) -> (r: bool)
        ensures
            r == (self@ is Float),
    {
        self.as_float().is_some()
    }

    pub fn as_string(&self) -> (r: Option<&str>)
        ensures
            match self@ {
                Val::Str(s) => r matches Some(x) && x@ == s,
                _ => r is None,
            },
    {
        match self {
            Value::String(s) => Some(s.as_str()),
            _ => None,
        }
    }

    pub fn is_string(&self) -> (r: bool)
        ensures
            r == (self@ is Str),
    {
        self.as_string().is_some()
    }

    pub fn as_list(&self) -> (r: Option<&Vec<Value>>)
        ensures
            match self@ {
                Val::List(items) => r matches Some(x) && model_list(x@) == items,
                _ => r is None,
            },
    {
        match self {
            Value::List(items) => Some(items),
            _ => None,
        }
    }

    pub fn is_list(&self) -> (r: bool)
        ensures
            r == (self@ is List),
    {
        self.as_list().is_some()
    }

    pub fn as_map(&self) -> (r: Option<&Vec<(String, Value)>>)
        ensures
            match self@ {
                Val::Dict(entries) => r matches Some(x) && model_entries(x@) == entries,
                _ => r is None,
            },
    {
        match self {
            Value::Dict(entries) => Some(entries),
            _ => None,
        }
    }

    pub fn is_map(&self) -> (r: bool)
        ensures
            r == (self@ is Dict),
    {
        self.as_map().is_some()
    }

    pub fn as_structure(&self) -> (r: Option<(u8, &Vec<Value>)>)
        ensures
            match self@ {
                Val::Structure(tag, fields) => r matches Some((t, x)) && t == tag && model_list(x@)
                    == fields,
                _ => r is None,
            },
    {
        match self {
            Value::Structure(tag, fields) => Some((*tag, fields)),
            _ => None,
        }
    }

    pub fn is_structure(&self) -> (r: bool)
        ensures
            r == (self@ is Structure),
    {
        self.as_structure().is_some()
    }
}

} // verus!
