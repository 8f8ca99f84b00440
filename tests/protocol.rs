use neo4j_rust_driver::protocol::{signature, Run, ServerMessage};
use neo4j_rust_driver::value::Value;

#[test]
fn client_serialize_run() {
    let input = Run::new("RETURN 1 AS num");

    let result = input.encode().unwrap();
    let expected = vec![0xB2, 0x10, 0x8F, 0x52,
                        0x45, 0x54, 0x55, 0x52,
                        0x4E, 0x20, 0x31, 0x20,
                        0x41, 0x53, 0x20, 0x6E,
                        0x75, 0x6D, 0xA0];

    assert_eq!(expected, result);
}

#[test]
fn client_serialize_run_with_parameters() {
    let input = Run::new("CREATE (n {p: {v}})").with_param("v", Value::Integer(1));

    let result = input.encode().unwrap();
    let expected = vec![0xB2, 0x10, 0xD0, 0x13,
                        0x43, 0x52, 0x45, 0x41,
                        0x54, 0x45, 0x20, 0x28,
                        0x6E, 0x20, 0x7B, 0x70,
                        0x3A, 0x20, 0x7B, 0x76,
                        0x7D, 0x7D, 0x29,
                        0xA1, 0x81, 0x76, 0x01];

    assert_eq!(expected, result);
}

#[test]
fn message_serialize_run() {
    let input = Run::new("RETURN 1 AS num");

    let result = input.encode().unwrap();
    let expected = vec![0xB2, 0x10, 0x8F, 0x52,
                        0x45, 0x54, 0x55, 0x52,
                        0x4E, 0x20, 0x31, 0x20,
                        0x41, 0x53, 0x20, 0x6E,
                        0x75, 0x6D, 0xA0];

    assert_eq!(expected, result);
}

#[test]
fn message_serialize_run_with_parameters() {
    let input = Run::new("CREATE (n {p: {v}})").with_param("v", Value::Integer(1));

    let result = input.encode().unwrap();
    let expected = vec![0xB2, 0x10, 0xD0, 0x13,
                        0x43, 0x52, 0x45, 0x41,
                        0x54, 0x45, 0x20, 0x28,
                        0x6E, 0x20, 0x7B, 0x70,
                        0x3A, 0x20, 0x7B, 0x76,
                        0x7D, 0x7D, 0x29,
                        0xA1, 0x81, 0x76, 0x01];

    assert_eq!(expected, result);
}

#[test]
fn run_param_set_twice_keeps_last_value() {
    let mut input = Run::new("RETURN 1");
    input.add_param("v", Value::Integer(1));
    input.add_param("v", Value::Integer(2));

    let result = input.encode().unwrap();
    assert_eq!(vec![0xA1, 0x81, 0x76, 0x02], result[result.len() - 4..].to_vec());
}

#[test]
fn signatures_of_request_messages() {
    assert_eq!(Some(0x01), signature("INIT"));
    assert_eq!(Some(0x10), signature("RUN"));
    assert_eq!(Some(0x2F), signature("DISCARD_ALL"));
    assert_eq!(Some(0x3F), signature("PULL_ALL"));
    assert_eq!(Some(0x0F), signature("ACK_FAILURE"));
    assert_eq!(None, signature("RESET"));
    assert_eq!(None, signature("init"));
}

#[test]
fn server_message_kinds_by_tag() {
    assert_eq!(ServerMessage::Record, ServerMessage::from_signature(0x71));
    assert_eq!(ServerMessage::Success, ServerMessage::from_signature(0x70));
    assert_eq!(ServerMessage::Failure, ServerMessage::from_signature(0x7F));
    assert_eq!(ServerMessage::Ignored, ServerMessage::from_signature(0x7E));
    assert_eq!(ServerMessage::Unknown(0x42), ServerMessage::from_signature(0x42));
}
