use escanor::encode::{encode, encode_bytes};
use escanor::types::Frame;

const PADDING: &str = "foobar";

fn str_to_bytes(s: &str) -> Vec<u8> {
    s.as_bytes().to_vec()
}

fn empty_bytes() -> Vec<u8> {
    Vec::new()
}

fn encode_and_verify_empty(input: &Frame, expected: &str) {
    let mut buf = empty_bytes();
    let len = match encode_bytes(&mut buf, input) {
        Ok(l) => l,
        Err(e) => panic!("{:?}", e.kind()),
    };
    assert_eq!(buf, expected.as_bytes(), "empty buf contents match");
    assert_eq!(len, expected.as_bytes().len(), "empty expected len is correct");
}

fn encode_and_verify_non_empty(input: &Frame, expected: &str) {
    let mut buf = empty_bytes();
    buf.extend_from_slice(PADDING.as_bytes());
    let len = match encode_bytes(&mut buf, input) {
        Ok(l) => l,
        Err(e) => panic!("{:?}", e.kind()),
    };
    let padded = vec![PADDING, expected].join("");
    assert_eq!(buf, padded.as_bytes(), "padded buf contents match");
    assert_eq!(len, padded.as_bytes().len(), "padded expected len is correct");
}

fn encode_raw_and_verify_empty(input: &Frame, expected: &str) {
    let mut buf = vec![0u8; expected.as_bytes().len()];
    let len = match encode(&mut buf, input) {
        Ok(l) => l,
        Err(e) => panic!("{:?}", e.kind()),
    };
    assert_eq!(buf, expected.as_bytes(), "empty buf contents match");
    assert_eq!(len, expected.as_bytes().len(), "empty expected len is correct");
}

#[test]
fn should_encode_llen_req_example() {
    let expected = "*2\r\n$4\r\nLLEN\r\n$6\r\nmylist\r\n";
    let input = Frame::Array(vec![
        Frame::BulkString(str_to_bytes("LLEN")),
        Frame::BulkString(str_to_bytes("mylist")),
    ]);
    encode_and_verify_empty(&input, expected);
    encode_and_verify_non_empty(&input, expected);
}

#[test]
fn should_encode_incr_req_example() {
    let expected = "*2\r\n$4\r\nINCR\r\n$5\r\nmykey\r\n";
    let input = Frame::Array(vec![
        Frame::BulkString(str_to_bytes("INCR")),
        Frame::BulkString(str_to_bytes("mykey")),
    ]);
    encode_and_verify_empty(&input, expected);
    encode_and_verify_non_empty(&input, expected);
}

#[test]
fn should_encode_bitcount_req_example() {
    let expected = "*2\r\n$8\r\nBITCOUNT\r\n$5\r\nmykey\r\n";
    let input = Frame::Array(vec![
        Frame::BulkString(str_to_bytes("BITCOUNT")),
        Frame::BulkString(str_to_bytes("mykey")),
    ]);
    encode_and_verify_empty(&input, expected);
    encode_and_verify_non_empty(&input, expected);
}

#[test]
fn should_encode_array_bulk_string_test() {
    let expected = "*3\r\n$5\r\nWATCH\r\n$6\r\nWIBBLE\r\n$9\r\nfooBARbaz\r\n";
    let input = Frame::Array(vec![
        Frame::BulkString(str_to_bytes("WATCH")),
        Frame::BulkString(str_to_bytes("WIBBLE")),
        Frame::BulkString(str_to_bytes("fooBARbaz")),
    ]);
    encode_and_verify_empty(&input, expected);
    encode_and_verify_non_empty(&input, expected);
}

#[test]
fn should_encode_array_null_test() {
    let expected = "*3\r\n$4\r\nHSET\r\n$3\r\nfoo\r\n$-1\r\n";
    let input = Frame::Array(vec![
        Frame::BulkString(str_to_bytes("HSET")),
        Frame::BulkString(str_to_bytes("foo")),
        Frame::Null,
    ]);
    encode_and_verify_empty(&input, expected);
    encode_and_verify_non_empty(&input, expected);
}

#[test]
fn should_encode_array_various_types_test() {
    let expected = "*4\r\n$5\r\nWATCH\r\n:1000\r\n-SERVER_ERR error\r\n+OK\r\n";
    let input = Frame::Array(vec![
        Frame::BulkString(str_to_bytes("WATCH")),
        Frame::Integer(1000),
        Frame::Error("SERVER_ERR error".into()),
        Frame::SimpleString("OK".into()),
    ]);
    encode_and_verify_empty(&input, expected);
    encode_and_verify_non_empty(&input, expected);
}

#[test]
fn should_encode_raw_llen_req_example() {
    let expected = "*2\r\n$4\r\nLLEN\r\n$6\r\nmylist\r\n";
    let input = Frame::Array(vec![
        Frame::BulkString(str_to_bytes("LLEN")),
        Frame::BulkString(str_to_bytes("mylist")),
    ]);
    encode_raw_and_verify_empty(&input, expected);
}

#[test]
fn should_encode_raw_incr_req_example() {
    let expected = "*2\r\n$4\r\nINCR\r\n$5\r\nmykey\r\n";
    let input = Frame::Array(vec![
        Frame::BulkString(str_to_bytes("INCR")),
        Frame::BulkString(str_to_bytes("mykey")),
    ]);
    encode_raw_and_verify_empty(&input, expected);
}

#[test]
fn should_encode_raw_bitcount_req_example() {
    let expected = "*2\r\n$8\r\nBITCOUNT\r\n$5\r\nmykey\r\n";
    let input = Frame::Array(vec![
        Frame::BulkString(str_to_bytes("BITCOUNT")),
        Frame::BulkString(str_to_bytes("mykey")),
    ]);
    encode_raw_and_verify_empty(&input, expected);
}

#[test]
fn should_encode_raw_array_bulk_string_test() {
    let expected = "*3\r\n$5\r\nWATCH\r\n$6\r\nWIBBLE\r\n$9\r\nfooBARbaz\r\n";
    let input = Frame::Array(vec![
        Frame::BulkString(str_to_bytes("WATCH")),
        Frame::BulkString(str_to_bytes("WIBBLE")),
        Frame::BulkString(str_to_bytes("fooBARbaz")),
    ]);
    encode_raw_and_verify_empty(&input, expected);
}

#[test]
fn should_encode_raw_array_null_test() {
    let expected = "*3\r\n$4\r\nHSET\r\n$3\r\nfoo\r\n$-1\r\n";
    let input = Frame::Array(vec![
        Frame::BulkString(str_to_bytes("HSET")),
        Frame::BulkString(str_to_bytes("foo")),
        Frame::Null,
    ]);
    encode_raw_and_verify_empty(&input, expected);
}

#[test]
fn should_encode_raw_array_various_types_test() {
    let expected = "*4\r\n$5\r\nWATCH\r\n:1000\r\n-SERVER_ERR error\r\n+OK\r\n";
    let input = Frame::Array(vec![
        Frame::BulkString(str_to_bytes("WATCH")),
        Frame::Integer(1000),
        Frame::Error("SERVER_ERR error".into()),
        Frame::SimpleString("OK".into()),
    ]);
    encode_raw_and_verify_empty(&input, expected);
}

#[test]
fn should_encode_moved_error() {
    let expected = "-MOVED 3999 127.0.0.1:6381\r\n";
    let input = Frame::Moved("MOVED 3999 127.0.0.1:6381".into());
    encode_and_verify_empty(&input, expected);
    encode_and_verify_non_empty(&input, expected);
}

#[test]
fn should_encode_ask_error() {
    let expected = "-ASK 3999 127.0.0.1:6381\r\n";
    let input = Frame::Ask("ASK 3999 127.0.0.1:6381".into());
    encode_and_verify_empty(&input, expected);
    encode_and_verify_non_empty(&input, expected);
}

#[test]
fn should_encode_error() {
    let expected = "-WRONGTYPE Operation against a key holding the wrong kind of value\r\n";
    let input =
        Frame::Error("WRONGTYPE Operation against a key holding the wrong kind of value".into());
    encode_and_verify_empty(&input, expected);
    encode_and_verify_non_empty(&input, expected);
}

#[test]
fn should_encode_simplestring() {
    let expected = "+OK\r\n";
    let input = Frame::SimpleString("OK".into());
    encode_and_verify_empty(&input, expected);
    encode_and_verify_non_empty(&input, expected);
}

#[test]
fn should_encode_integer() {
    let i1_expected = ":1000\r\n";
    let i1_input = Frame::Integer(1000);
    encode_and_verify_empty(&i1_input, i1_expected);
    encode_and_verify_non_empty(&i1_input, i1_expected);
}

#[test]
fn should_encode_negative_integer() {
    let i2_expected = ":-1000\r\n";
    let i2_input = Frame::Integer(-1000);
    encode_and_verify_empty(&i2_input, i2_expected);
    encode_and_verify_non_empty(&i2_input, i2_expected);
}

#[test]
fn round_trip_of_encoded_frames() {
    let frames = vec![
        Frame::SimpleString("OK".into()),
        Frame::Error("ERR wrong".into()),
        Frame::Integer(-42),
        Frame::BulkString(str_to_bytes("payload")),
        Frame::Null,
        Frame::Array(vec![
            Frame::Integer(7),
            Frame::BulkString(str_to_bytes("x")),
            Frame::Null,
            Frame::Array(vec![Frame::SimpleString("deep".into())]),
        ]),
    ];
    for f in frames {
        let mut buf = Vec::new();
        encode_bytes(&mut buf, &f).unwrap();
        let (decoded, used) = decode_tests_decode(&buf);
        assert_eq!(decoded, Some(f));
        assert_eq!(used, buf.len());
    }
}

fn decode_tests_decode(buf: &Vec<u8>) -> (Option<Frame>, usize) {
    escanor::decode::decode_bytes(buf).expect("decode failed")
}

#[test]
fn strict_prefixes_stay_incomplete() {
    let f = Frame::Array(vec![
        Frame::BulkString(str_to_bytes("GET")),
        Frame::BulkString(str_to_bytes("key")),
    ]);
    let mut buf = Vec::new();
    encode_bytes(&mut buf, &f).unwrap();
    for n in 0..buf.len() {
        let prefix = buf[..n].to_vec();
        let (decoded, used) = escanor::decode::decode_bytes(&prefix).expect("prefix failed");
        assert!(decoded.is_none());
        assert_eq!(used, 0);
    }
}
