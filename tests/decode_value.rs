use std::collections::BTreeMap;
use neo4j_rust_driver::deserialize::{deserialize, DeserializerError};
use neo4j_rust_driver::markers as m;
use neo4j_rust_driver::value::{put_entry, Value};

fn dict(entries: BTreeMap<String, Value>) -> Value {
    let mut out = Vec::new();
    for (k, v) in entries {
        put_entry(&mut out, k, v);
    }
    Value::Dict(out)
}

#[test]
fn decode_nil() {
    let input = vec![0xC0];
    let result = deserialize(&input).unwrap();
    assert_eq!(Value::Null, result);
}

#[test]
fn decode_bool() {
    let input = vec![0xC3];
    let result = deserialize(&input).unwrap();
    assert_eq!(Value::Boolean(true), result);

    let input = vec![0xC2];
    let result = deserialize(&input).unwrap();
    assert_eq!(Value::Boolean(false), result);
}

// Integer 64
#[test]
fn decode_int64_positive() {
    let input = vec![m::INT_64, 0x7F, 0xFF, 0xFF, 0xFF, 0xFF, 0xFF, 0xFF, 0xFF];
    let result = deserialize(&input).unwrap();
    assert_eq!(Value::Integer(m::RANGE_POS_INT_64.1), result);
}

#[test]
fn decode_int64_negative() {
    let input = vec![m::INT_64, 0x80, 0x00, 0x00, 0x00, 0x00, 0x00, 0x00, 0x00];
    let result = deserialize(&input).unwrap();
    assert_eq!(Value::Integer(m::RANGE_NEG_INT_64.0), result);
}

// Integer 32
#[test]
fn decode_int32_positive() {
    let input = vec![m::INT_32, 0x7F, 0xFF, 0xFF, 0xFF];
    let result = deserialize(&input).unwrap();
    assert_eq!(Value::Integer(m::RANGE_POS_INT_32.1), result);
}

#[test]
fn decode_int32_negative() {
    let input = vec![m::INT_32, 0x80, 0x00, 0x00, 0x00];
    let result = deserialize(&input).unwrap();
    assert_eq!(Value::Integer(m::RANGE_NEG_INT_32.0), result);
}

// Integer 16
#[test]
fn decode_int16_positive() {
    let input = vec![m::INT_16, 0x7F, 0xFF];
    let result = deserialize(&input).unwrap();
    assert_eq!(Value::Integer(m::RANGE_POS_INT_16.1), result);
}

#[test]
fn decode_int16_negative() {
    let input = vec![m::INT_16, 0x80, 0x00];
    let result = deserialize(&input).unwrap();
    assert_eq!(Value::Integer(m::RANGE_NEG_INT_16.0), result);
}

// Integer 8
#[test]
fn decode_int8_positive() {
    let input = vec![0x7F];
    let result = deserialize(&input).unwrap();
    assert_eq!(Value::Integer(m::RANGE_TINY_INT.1), result);
}

#[test]
fn decode_int8_negative() {
    let input = vec![m::INT_8, 0x80];
    let result = deserialize(&input).unwrap();
    assert_eq!(Value::Integer(m::RANGE_NEG_INT_8.0), result);

    let input = vec![0xF0];
    let result = deserialize(&input).unwrap();
    assert_eq!(Value::Integer(m::RANGE_TINY_INT.0), result);
}

#[test]
fn decode_float_positive() {
    let input = vec![m::FLOAT, 0x3F, 0xF1, 0x99, 0x99, 0x99, 0x99, 0x99, 0x9A];
    let result = deserialize(&input).unwrap();
    assert_eq!(Value::Float((1.1f64).to_bits()), result);
}

#[test]
fn decode_float_negative() {
    let input = vec![m::FLOAT, 0xBF, 0xF1, 0x99, 0x99, 0x99, 0x99, 0x99, 0x9A];
    let result = deserialize(&input).unwrap();
    assert_eq!(Value::Float((-1.1f64).to_bits()), result);
}

#[test]
fn decode_string32() {
    let size = 70_000;
    let input = ((0..size).fold(
        vec![m::STRING_32, 0x00, 0x01, 0x11, 0x70],
        |mut acc, _| { acc.push(b'A'); acc }
    ));

    let expected = (0..size).fold(String::new(), |mut acc, _| { acc.push('A'); acc });
    let result = deserialize(&input).unwrap();

    assert_eq!(Value::String(expected), result);
}

#[test]
fn decode_string16() {
    let size = 5_000;
    let input = ((0..size).fold(
        vec![m::STRING_16, 0x13, 0x88],
        |mut acc, _| { acc.push(b'A'); acc }
    ));

    let expected = (0..size).fold(String::new(), |mut acc, _| { acc.push('A'); acc });
    let result = deserialize(&input).unwrap();

    assert_eq!(Value::String(expected), result);
}

#[test]
fn decode_string8() {
    let size = 200;
    let input = ((0..size).fold(
        vec![m::STRING_8, 0xC8],
        |mut acc, _| { acc.push(b'A'); acc }
    ));

    let expected = (0..size).fold(String::new(), |mut acc, _| { acc.push('A'); acc });
    let result = deserialize(&input).unwrap();

    assert_eq!(Value::String(expected), result);
}

#[test]
fn decode_tiny_string() {
    for marker in 0x80..0x8F {
        let size = marker - m::TINY_STRING_NIBBLE;
        let input = ((0..size).fold(
            vec![marker],
            |mut acc, _| { acc.push(b'A'); acc }
        ));

        let expected = (0..size).fold(String::new(), |mut acc, _| { acc.push('A'); acc });
        let result = deserialize(&input).unwrap();

        assert_eq!(Value::String(expected), result);
    }
}

#[test]
fn decode_char() {
    for c in b'A'..b'Z' {
        let input = vec![0x81, c];
        let result = deserialize(&input).unwrap();

        assert_eq!(Value::String(format!("{}", c as char)), result);
    }
}

#[test]
fn decode_list32() {
    let size = 70_000;
    let input = ((0..size).fold(
        vec![m::LIST_32, 0x00, 0x01, 0x11, 0x70],
        |mut acc, _| { acc.push(0x01); acc }
    ));

    let expected = Value::List((0..size).map(|_| Value::Integer(1)).collect::<Vec<Value>>());
    let result = deserialize(&input).unwrap();

    assert_eq!(expected, result);
}

#[test]
fn decode_list16() {
    let size = 5_000;
    let input = ((0..size).fold(
        vec![m::LIST_16, 0x13, 0x88],
        |mut acc, _| { acc.push(0x01); acc }
    ));

    let expected = Value::List((0..size).map(|_| Value::Integer(1)).collect::<Vec<Value>>());
    let result = deserialize(&input).unwrap();

    assert_eq!(expected, result);
}

#[test]
fn decode_list8() {
    let size = 200;
    let input = ((0..size).fold(
        vec![m::LIST_8, 0xC8],
        |mut acc, _| { acc.push(0x01); acc }
    ));

    let expected = Value::List((0..size).map(|_| Value::Integer(1)).collect::<Vec<Value>>());
    let result = deserialize(&input).unwrap();

    assert_eq!(expected, result);
}

#[test]
fn decode_tiny_list() {
    for marker in 0x90..0x9F {
        let size = (marker - m::TINY_LIST_NIBBLE) as usize;
        let input = ((0..size).fold(
            vec![marker],
            |mut acc, _| { acc.push(0x01); acc }
        ));

        let expected = Value::List((0..size).map(|_| Value::Integer(1)).collect::<Vec<Value>>());
        let result = deserialize(&input).unwrap();

        assert_eq!(expected, result);
    }
}

#[test]
fn decode_list_of_string() {
    let size = 3;

    let input = (
        vec![m::TINY_LIST_NIBBLE + size as u8,
             m::STRING_8, 0x1A, 0x61, 0x62, 0x63, 0x64, 0x65, 0x66,
             0x67, 0x68, 0x69, 0x6A, 0x6B, 0x6C, 0x6D, 0x6E,
             0x6F, 0x70, 0x71, 0x72, 0x73, 0x74, 0x75, 0x76,
             0x77, 0x78, 0x79, 0x7A,
             m::STRING_8, 0x1A, 0x61, 0x62, 0x63, 0x64, 0x65, 0x66,
             0x67, 0x68, 0x69, 0x6A, 0x6B, 0x6C, 0x6D, 0x6E,
             0x6F, 0x70, 0x71, 0x72, 0x73, 0x74, 0x75, 0x76,
             0x77, 0x78, 0x79, 0x7A,
             m::STRING_8, 0x1A, 0x61, 0x62, 0x63, 0x64, 0x65, 0x66,
             0x67, 0x68, 0x69, 0x6A, 0x6B, 0x6C, 0x6D, 0x6E,
             0x6F, 0x70, 0x71, 0x72, 0x73, 0x74, 0x75, 0x76,
             0x77, 0x78, 0x79, 0x7A]
    );

    let result = deserialize(&input).unwrap();
    let expected = Value::List((0..size).map(|_| Value::String("abcdefghijklmnopqrstuvwxyz".to_owned())).collect::<Vec<Value>>());

    assert_eq!(expected, result);
}

#[test]
fn decode_list_of_int() {
    let size = 3;

    let input = (
        vec![m::TINY_LIST_NIBBLE + size as u8,
             m::INT_16, 0x7D, 0x00,
             m::INT_16, 0x7D, 0x00,
             m::INT_16, 0x7D, 0x00]
         );

    let result = deserialize(&input).unwrap();
    let expected = Value::List((0..size).map(|_| Value::Integer(32_000)).collect::<Vec<Value>>());

    assert_eq!(expected, result);
}

#[test]
fn decode_list_of_float() {
    let size = 3;

    let input = (
        vec![m::TINY_LIST_NIBBLE + size as u8,
             m::FLOAT, 0x3F, 0xF1, 0x99, 0x99, 0x99, 0x99, 0x99, 0x9A,
             m::FLOAT, 0x3F, 0xF1, 0x99, 0x99, 0x99, 0x99, 0x99, 0x9A,
             m::FLOAT, 0x3F, 0xF1, 0x99, 0x99, 0x99, 0x99, 0x99, 0x9A]
         );

    let result = deserialize(&input).unwrap();
    let expected = Value::List((0..size).map(|_| Value::Float((1.1f64).to_bits())).collect::<Vec<Value>>());

    assert_eq!(expected, result);
}

#[test]
fn decode_list_of_bool() {
    let size = 4;

    let input = (
        vec![m::TINY_LIST_NIBBLE + size as u8,
             m::TRUE, m::FALSE, m::TRUE, m::FALSE]
         );

    let result = deserialize(&input).unwrap();
    let expected = Value::List(vec![Value::Boolean(true),
                                    Value::Boolean(false),
                                    Value::Boolean(true),
                                    Value::Boolean(false)]);

    assert_eq!(expected, result);
}

#[test]
fn decode_mixed_list() {
    let size = 3;

    let input = (
        vec![m::TINY_LIST_NIBBLE + size as u8,
             0x01,
             m::FLOAT, 0x3F, 0xF1, 0x99, 0x99, 0x99, 0x99, 0x99, 0x9A,
             m::TINY_STRING_NIBBLE + 1, 0x41]
         );

    let result = deserialize(&input).unwrap();
    let expected = Value::List(vec![Value::Integer(1),
                                    Value::Float((1.1f64).to_bits()),
                                    Value::String("A".to_owned())]);

    assert_eq!(expected, result);
}

#[test]
fn decode_map32() {
    let size = 70_000;

    let input = ((0..size).fold(
        vec![m::MAP_32, 0x00, 0x01, 0x11, 0x70],
        |mut acc, i| {
            let b1 = 48 + ((i % 100000) / 10000) as u8;
            let b2 = 48 + ((i % 10000) / 1000) as u8;
            let b3 = 48 + ((i % 1000) / 100) as u8;
            let b4 = 48 + ((i % 100) / 10) as u8;
            let b5 = 48 + (i % 10) as u8;
            acc.extend([0x85, b1, b2, b3, b4, b5, 0x01].iter());
            acc
        }
    ));

    let expected = dict((0..size).fold(
        BTreeMap::<String, Value>::new(),
        |mut acc, i| { acc.insert(format!("{:05}", i), Value::Integer(1)); acc }
    ));

    let result = deserialize(&input).unwrap();

    assert_eq!(expected, result);
}

#[test]
fn decode_map16() {
    let size = 5_000;

    let input = ((0..size).fold(
        vec![m::MAP_16, 0x13, 0x88],
        |mut acc, i| {
            let b1 = 48 + ((i % 10000) / 1000) as u8;
            let b2 = 48 + ((i % 1000) / 100) as u8;
            let b3 = 48 + ((i % 100) / 10) as u8;
            let b4 = 48 + (i % 10) as u8;
            acc.extend([0x84, b1, b2, b3, b4, 0x01].iter());
            acc
        }
    ));

    let expected = dict((0..size).fold(
        BTreeMap::<String, Value>::new(),
        |mut acc, i| { acc.insert(format!("{:04}", i), Value::Integer(1)); acc }
    ));

    let result = deserialize(&input).unwrap();

    assert_eq!(expected, result);
}

#[test]
fn decode_map8() {
    let size = 200;

    let input = ((0..size).fold(
        vec![m::MAP_8, 0xC8],
        |mut acc, i| {
            let b1 = 48 + ((i % 1000) / 100) as u8;
            let b2 = 48 + ((i % 100) / 10) as u8;
            let b3 = 48 + (i % 10) as u8;
            acc.extend([0x83, b1, b2, b3, 0x01].iter());
            acc
        }
    ));

    let expected = dict((0..size).fold(
        BTreeMap::<String, Value>::new(),
        |mut acc, i| { acc.insert(format!("{:03}", i), Value::Integer(1)); acc }
    ));

    let result = deserialize(&input).unwrap();

    assert_eq!(expected, result);
}

#[test]
fn decode_tiny_map() {
    let size = 3;

    let input = ((0..size).fold(
        vec![m::TINY_MAP_NIBBLE + size],
        |mut acc, i| {
            acc.extend([0x81, 0x30 + i].iter());
            acc.push(0x01);
            acc
        }
    ));

    let expected = dict((0..size).fold(
        BTreeMap::<String, Value>::new(),
        |mut acc, i| { acc.insert(format!("{}", i), Value::Integer(1)); acc }
    ));

    let result = deserialize(&input).unwrap();

    assert_eq!(expected, result);
}

#[test]
fn decode_map_of_string() {
    let size = 3;

    let input = (
        vec![m::TINY_MAP_NIBBLE + size,
             0x81, 0x41,
             m::STRING_8, 0x1A, 0x61, 0x62, 0x63, 0x64, 0x65, 0x66,
             0x67, 0x68, 0x69, 0x6A, 0x6B, 0x6C, 0x6D, 0x6E,
             0x6F, 0x70, 0x71, 0x72, 0x73, 0x74, 0x75, 0x76,
             0x77, 0x78, 0x79, 0x7A,
             0x81, 0x42,
             m::STRING_8, 0x1A, 0x61, 0x62, 0x63, 0x64, 0x65, 0x66,
             0x67, 0x68, 0x69, 0x6A, 0x6B, 0x6C, 0x6D, 0x6E,
             0x6F, 0x70, 0x71, 0x72, 0x73, 0x74, 0x75, 0x76,
             0x77, 0x78, 0x79, 0x7A,
             0x81, 0x43,
             m::STRING_8, 0x1A, 0x61, 0x62, 0x63, 0x64, 0x65, 0x66,
             0x67, 0x68, 0x69, 0x6A, 0x6B, 0x6C, 0x6D, 0x6E,
             0x6F, 0x70, 0x71, 0x72, 0x73, 0x74, 0x75, 0x76,
             0x77, 0x78, 0x79, 0x7A]
    );

    let expected = {
        let mut expected: BTreeMap<String, Value> = BTreeMap::new();
        expected.insert("A".to_owned(), Value::String("abcdefghijklmnopqrstuvwxyz".to_owned()));
        expected.insert("B".to_owned(), Value::String("abcdefghijklmnopqrstuvwxyz".to_owned()));
        expected.insert("C".to_owned(), Value::String("abcdefghijklmnopqrstuvwxyz".to_owned()));
        dict(expected)
    };

    let result = deserialize(&input).unwrap();

    assert_eq!(expected, result);
}

#[test]
fn decode_map_of_int() {
    let size = 3;

    let input = (
        vec![m::TINY_MAP_NIBBLE + size,
             0x81, 0x41, m::INT_16, 0x7D, 0x00,
             0x81, 0x42, m::INT_16, 0x7D, 0x00,
             0x81, 0x43, m::INT_16, 0x7D, 0x00]
    );

    let expected = {
        let mut expected: BTreeMap<String, Value> = BTreeMap::new();
        expected.insert("A".to_owned(), Value::Integer(32_000));
        expected.insert("B".to_owned(), Value::Integer(32_000));
        expected.insert("C".to_owned(), Value::Integer(32_000));
        dict(expected)
    };

    let result = deserialize(&input).unwrap();

    assert_eq!(expected, result);
}

#[test]
fn decode_map_of_float() {
    let size = 3;

    let input = (
        vec![m::TINY_MAP_NIBBLE + size,
             0x81, 0x41, m::FLOAT, 0x3F, 0xF1, 0x99, 0x99, 0x99, 0x99, 0x99, 0x9A,
             0x81, 0x42, m::FLOAT, 0x3F, 0xF1, 0x99, 0x99, 0x99, 0x99, 0x99, 0x9A,
             0x81, 0x43, m::FLOAT, 0x3F, 0xF1, 0x99, 0x99, 0x99, 0x99, 0x99, 0x9A]
    );

    let expected = {
        let mut expected: BTreeMap<String, Value> = BTreeMap::new();
        expected.insert("A".to_owned(), Value::Float((1.1f64).to_bits()));
        expected.insert("B".to_owned(), Value::Float((1.1f64).to_bits()));
        expected.insert("C".to_owned(), Value::Float((1.1f64).to_bits()));
        dict(expected)
    };

    let result = deserialize(&input).unwrap();

    assert_eq!(expected, result);
}

#[test]
fn decode_map_of_bool() {
    let size = 4;

    let input = (
        vec![m::TINY_MAP_NIBBLE + size,
             0x81, 0x41, m::TRUE,
             0x81, 0x42, m::FALSE,
             0x81, 0x43, m::TRUE,
             0x81, 0x44, m::FALSE]
    );

    let expected = {
        let mut expected: BTreeMap<String, Value> = BTreeMap::new();
        expected.insert("A".to_owned(), Value::Boolean(true));
        expected.insert("B".to_owned(), Value::Boolean(false));
        expected.insert("C".to_owned(), Value::Boolean(true));
        expected.insert("D".to_owned(), Value::Boolean(false));
        dict(expected)
    };

    let result = deserialize(&input).unwrap();

    assert_eq!(expected, result);
}

#[test]
fn decode_tiny_structure() {
    let input = (vec![m::TINY_STRUCT_NIBBLE + 0x03, 0x22,
        0x01,
        m::FLOAT, 0x3F, 0xF1, 0x99, 0x99, 0x99, 0x99, 0x99, 0x9A,
        0x81, 0x41
    ]);

    let expected = Value::Structure(0x22, vec![Value::Integer(1),
                                               Value::Float((1.1f64).to_bits()),
                                               Value::String("A".to_owned())]);

    let result = deserialize(&input).unwrap();

    assert_eq!(expected, result);
}

#[test]
fn decode_structure8() {
    let size = 16;
    let input = ((0..size).fold(
        vec![m::STRUCT_8, 0x10, 0x22],
        |mut acc, _| { acc.push(0x01); acc }
    ));

    let expected = Value::Structure(0x22, (0..size).map(|_| Value::Integer(1)).collect::<Vec<Value>>());
    let result = deserialize(&input).unwrap();

    assert_eq!(expected, result);
}

#[test]
fn decode_structure16() {
    let size = 256;
    let input = ((0..size).fold(
        vec![m::STRUCT_16, 0x01, 0x00, 0x22],
        |mut acc, _| { acc.push(0x01); acc }
    ));

    let expected = Value::Structure(0x22, (0..size).map(|_| Value::Integer(1)).collect::<Vec<Value>>());
    let result = deserialize(&input).unwrap();

    assert_eq!(expected, result);
}
