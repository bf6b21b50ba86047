use escanor::decode::decode_bytes;
use escanor::types::{Frame, RedisProtocolError};

fn str_to_bytes(s: &str) -> Vec<u8> {
    s.as_bytes().to_vec()
}

fn to_bytes(s: &str) -> Vec<u8> {
    s.as_bytes().to_vec()
}

fn pretty_print_panic(e: RedisProtocolError) {
    panic!("{:?}", e.kind());
}

fn decode_and_verify_some(bytes: &mut Vec<u8>, expected: &(Option<Frame>, usize)) {
    let (frame, len) = match decode_bytes(&bytes) {
        Ok((f, l)) => (f, l),
        Err(e) => return pretty_print_panic(e),
    };
    assert_eq!(frame, expected.0, "decoded frame matched");
    assert_eq!(len, expected.1, "decoded frame len matched");
}

fn decode_and_verify_padded_some(bytes: &mut Vec<u8>, expected: &(Option<Frame>, usize)) {
    bytes.extend_from_slice("FOOBARBAZ".as_bytes());
    let (frame, len) = match decode_bytes(&bytes) {
        Ok((f, l)) => (f, l),
        Err(e) => return pretty_print_panic(e),
    };
    assert_eq!(frame, expected.0, "decoded frame matched");
    assert_eq!(len, expected.1, "decoded frame len matched");
}

fn decode_and_verify_none(bytes: &mut Vec<u8>) {
    let (frame, len) = match decode_bytes(&bytes) {
        Ok((f, l)) => (f, l),
        Err(e) => return pretty_print_panic(e),
    };
    assert!(frame.is_none());
    assert_eq!(len, 0);
}

#[test]
fn should_decode_llen_res_example() {
    let expected = (Some(Frame::Integer(48293)), 8);
    let mut bytes: Vec<u8> = to_bytes(":48293\r\n");
    decode_and_verify_some(&mut bytes, &expected);
    decode_and_verify_padded_some(&mut bytes, &expected);
}

#[test]
fn should_decode_simple_string() {
    let expected = (Some(Frame::SimpleString("string".into())), 9);
    let mut bytes: Vec<u8> = to_bytes("+string\r\n");
    decode_and_verify_some(&mut bytes, &expected);
    decode_and_verify_padded_some(&mut bytes, &expected);
}

#[test]
fn should_decode_bulk_string() {
    let expected = (Some(Frame::BulkString(str_to_bytes("foo"))), 9);
    let mut bytes: Vec<u8> = to_bytes("$3\r\nfoo\r\n");
    decode_and_verify_some(&mut bytes, &expected);
    decode_and_verify_padded_some(&mut bytes, &expected);
}

#[test]
fn should_decode_array_no_nulls() {
    let expected = (
        Some(Frame::Array(vec![
            Frame::SimpleString("Foo".into()),
            Frame::SimpleString("Bar".into()),
        ])),
        16,
    );
    let mut bytes: Vec<u8> = to_bytes("*2\r\n+Foo\r\n+Bar\r\n");
    decode_and_verify_some(&mut bytes, &expected);
    decode_and_verify_padded_some(&mut bytes, &expected);
}

#[test]
fn should_decode_array_nulls() {
    let mut bytes: Vec<u8> = to_bytes("*3\r\n$3\r\nFoo\r\n$-1\r\n$3\r\nBar\r\n");
    let expected = (
        Some(Frame::Array(vec![
            Frame::BulkString(str_to_bytes("Foo")),
            Frame::Null,
            Frame::BulkString(str_to_bytes("Bar")),
        ])),
        bytes.len(),
    );
    decode_and_verify_some(&mut bytes, &expected);
    decode_and_verify_padded_some(&mut bytes, &expected);
}

#[test]
fn should_decode_normal_error() {
    let mut bytes: Vec<u8> =
        to_bytes("-WRONGTYPE Operation against a key holding the wrong kind of value\r\n");
    let expected = (
        Some(Frame::Error(
            "WRONGTYPE Operation against a key holding the wrong kind of value".into(),
        )),
        bytes.len(),
    );
    decode_and_verify_some(&mut bytes, &expected);
    decode_and_verify_padded_some(&mut bytes, &expected);
}

#[test]
fn should_decode_moved_error() {
    let mut bytes: Vec<u8> = to_bytes("-MOVED 3999 127.0.0.1:6381\r\n");
    let expected = (Some(Frame::Moved("3999 127.0.0.1:6381".into())), bytes.len());
    decode_and_verify_some(&mut bytes, &expected);
    decode_and_verify_padded_some(&mut bytes, &expected);
}

#[test]
fn should_decode_ask_error() {
    let mut bytes: Vec<u8> = to_bytes("-ASK 3999 127.0.0.1:6381\r\n");
    let expected = (Some(Frame::Ask("3999 127.0.0.1:6381".into())), bytes.len());
    decode_and_verify_some(&mut bytes, &expected);
    decode_and_verify_padded_some(&mut bytes, &expected);
}

#[test]
fn should_decode_incomplete() {
    let mut bytes: Vec<u8> = to_bytes("*3\r\n$3\r\nFoo\r\n$-1\r\n$3\r\nBar");
    decode_and_verify_none(&mut bytes);
}

#[test]
#[should_panic]
fn should_error_on_junk() {
    let bytes: Vec<u8> = to_bytes("foobarbazwibblewobble");
    let _ = decode_bytes(&bytes).map_err(|e| pretty_print_panic(e));
}
