use escanor::types::{Frame, FrameKind, Redirection, RedisProtocolError, RedisProtocolErrorKind,
    ARRAY_BYTE, BULKSTRING_BYTE, ERROR_BYTE, INTEGER_BYTE, SIMPLESTRING_BYTE};
use escanor::utils::{is_pattern_pubsub, redis_keyslot};

#[test]
fn should_convert_ask_redirection_to_frame() {
    let redirection = Redirection::Ask { slot: 3999, host: "127.0.0.1".into(), port: 6381 };
    let frame = Frame::Ask("ASK 3999 127.0.0.1:6381".into());
    assert_eq!(Frame::from(redirection), frame);
}

#[test]
fn should_convert_moved_redirection_to_frame() {
    let redirection = Redirection::Moved { slot: 3999, host: "127.0.0.1".into(), port: 6381 };
    let frame = Frame::Moved("MOVED 3999 127.0.0.1:6381".into());
    assert_eq!(Frame::from(redirection), frame);
}

#[test]
fn should_convert_frame_to_redirection_moved() {
    let redirection = Redirection::Moved { slot: 3999, host: "127.0.0.1".into(), port: 6381 };
    let frame = Frame::Ask("MOVED 3999 127.0.0.1:6381".into());
    assert_eq!(frame.to_redirection().unwrap(), redirection);
}

#[test]
fn should_convert_frame_to_redirection_ask() {
    let redirection = Redirection::Ask { slot: 3999, host: "127.0.0.1".into(), port: 6381 };
    let frame = Frame::Ask("ASK 3999 127.0.0.1:6381".into());
    assert_eq!(frame.to_redirection().unwrap(), redirection);
}

#[test]
#[should_panic]
fn should_convert_frame_to_redirection_error() {
    let redirection = Redirection::Ask { slot: 3999, host: "127.0.0.1".into(), port: 6381 };
    let frame = Frame::BulkString("ASK 3999 127.0.0.1:6381".as_bytes().to_vec());
    assert_eq!(frame.to_redirection().unwrap(), redirection);
}

#[test]
#[should_panic]
fn should_convert_frame_to_redirection_error_invalid_1() {
    let f1 = Frame::Moved("abc def".into());
    let _ = f1.to_redirection().unwrap();
}

#[test]
#[should_panic]
fn should_convert_frame_to_redirection_error_invalid_2() {
    let f2 = Frame::Moved("abc def ghi".into());
    let _ = f2.to_redirection().unwrap();
}

#[test]
#[should_panic]
fn should_convert_frame_to_redirection_error_invalid_3() {
    let f3 = Frame::Moved("MOVED abc def".into());
    let _ = f3.to_redirection().unwrap();
}

#[test]
#[should_panic]
fn should_convert_frame_to_redirection_error_invalid_4() {
    let f4 = Frame::Moved("MOVED 3999 abc".into());
    let _ = f4.to_redirection().unwrap();
}

#[test]
#[should_panic]
fn should_convert_frame_to_redirection_error_invalid_5() {
    let f5 = Frame::Moved("MOVED 3999 abc:def".into());
    let _ = f5.to_redirection().unwrap();
}

#[test]
fn should_parse_pattern_pubsub_message() {
    let frames = vec![
        Frame::BulkString("pmessage".into()),
        Frame::BulkString("fo*".into()),
        Frame::BulkString("foo".into()),
        Frame::BulkString("bar".into()),
    ];
    assert!(is_pattern_pubsub(&frames));
    let frame = Frame::Array(frames);
    let (channel, message) = frame.parse_as_pubsub().expect("Expected pubsub frames");
    assert_eq!(channel, "foo");
    assert_eq!(message, "bar");
}

#[test]
fn should_parse_pubsub_message() {
    let frames = vec![
        Frame::BulkString("message".into()),
        Frame::BulkString("foo".into()),
        Frame::BulkString("bar".into()),
    ];
    assert!(!is_pattern_pubsub(&frames));
    let frame = Frame::Array(frames);
    let (channel, message) = frame.parse_as_pubsub().expect("Expected pubsub frames");
    assert_eq!(channel, "foo");
    assert_eq!(message, "bar");
}

#[test]
#[should_panic]
fn should_fail_parsing_non_pubsub_message() {
    let frame = Frame::Array(vec![
        Frame::BulkString("baz".into()),
        Frame::BulkString("foo".into()),
    ]);
    frame.parse_as_pubsub().expect("Expected non pubsub frames");
}

#[test]
fn should_create_empty_error() {
    let e = RedisProtocolError::new_empty();
    let _s = e.to_string();
    assert_eq!(e.description(), "");
    assert_eq!(e.kind(), &RedisProtocolErrorKind::Unknown);
    assert!(e.context().is_none());
}

#[test]
fn should_create_encode_error() {
    let e = RedisProtocolError::new(RedisProtocolErrorKind::EncodeError, "foo");
    let _s = e.to_string();
    assert_eq!(e.description(), "foo");
    assert_eq!(e.kind(), &RedisProtocolErrorKind::EncodeError);
    assert!(e.context().is_none());
}

#[test]
fn should_create_decode_error() {
    let e = RedisProtocolError::new(RedisProtocolErrorKind::DecodeError, "foo");
    let _s = e.to_string();
    assert_eq!(e.description(), "foo");
    assert_eq!(e.kind(), &RedisProtocolErrorKind::DecodeError);
    assert!(e.context().is_none());
}

#[test]
fn should_create_buf_too_small_error() {
    let e = RedisProtocolError::new(RedisProtocolErrorKind::BufferTooSmall(10), "foo");
    let _s = e.to_string();
    assert_eq!(e.description(), "foo");
    assert_eq!(e.kind(), &RedisProtocolErrorKind::BufferTooSmall(10));
    assert!(e.context().is_none());
}

#[test]
fn should_check_frame_types() {
    let f = Frame::Null;
    assert!(f.is_null());
    assert!(!f.is_string());
    assert!(!f.is_error());
    assert!(!f.is_array());
    assert!(!f.is_integer());
    assert!(!f.is_moved_or_ask_error());

    let f = Frame::BulkString("foo".as_bytes().to_vec());
    assert!(!f.is_null());
    assert!(f.is_string());
    assert!(!f.is_error());
    assert!(!f.is_array());
    assert!(!f.is_integer());
    assert!(!f.is_moved_or_ask_error());

    let f = Frame::SimpleString("foo".into());
    assert!(!f.is_null());
    assert!(f.is_string());
    assert!(!f.is_error());
    assert!(!f.is_array());
    assert!(!f.is_integer());
    assert!(!f.is_moved_or_ask_error());

    let f = Frame::Error("foo".into());
    assert!(!f.is_null());
    assert!(!f.is_string());
    assert!(f.is_error());
    assert!(!f.is_array());
    assert!(!f.is_integer());
    assert!(!f.is_moved_or_ask_error());

    let f = Frame::Array(vec![Frame::SimpleString("foo".into())]);
    assert!(!f.is_null());
    assert!(!f.is_string());
    assert!(!f.is_error());
    assert!(f.is_array());
    assert!(!f.is_integer());
    assert!(!f.is_moved_or_ask_error());

    let f = Frame::Integer(10);
    assert!(!f.is_null());
    assert!(!f.is_string());
    assert!(!f.is_error());
    assert!(!f.is_array());
    assert!(f.is_integer());
    assert!(!f.is_moved_or_ask_error());

    let f = Frame::Moved("foo".into());
    assert!(!f.is_null());
    assert!(!f.is_string());
    assert!(f.is_error());
    assert!(!f.is_array());
    assert!(!f.is_integer());
    assert!(f.is_moved_or_ask_error());

    let f = Frame::Ask("foo".into());
    assert!(!f.is_null());
    assert!(!f.is_string());
    assert!(f.is_error());
    assert!(!f.is_array());
    assert!(!f.is_integer());
    assert!(f.is_moved_or_ask_error());
}

#[test]
fn should_decode_frame_kind_byte() {
    assert_eq!(FrameKind::from_byte(SIMPLESTRING_BYTE), Some(FrameKind::SimpleString));
    assert_eq!(FrameKind::from_byte(ERROR_BYTE), Some(FrameKind::Error));
    assert_eq!(FrameKind::from_byte(BULKSTRING_BYTE), Some(FrameKind::BulkString));
    assert_eq!(FrameKind::from_byte(INTEGER_BYTE), Some(FrameKind::Integer));
    assert_eq!(FrameKind::from_byte(ARRAY_BYTE), Some(FrameKind::Array));
}

#[test]
fn should_encode_frame_kind_byte() {
    assert_eq!(FrameKind::SimpleString.to_byte(), SIMPLESTRING_BYTE);
    assert_eq!(FrameKind::Error.to_byte(), ERROR_BYTE);
    assert_eq!(FrameKind::BulkString.to_byte(), BULKSTRING_BYTE);
    assert_eq!(FrameKind::Integer.to_byte(), INTEGER_BYTE);
    assert_eq!(FrameKind::Array.to_byte(), ARRAY_BYTE);
}

#[test]
fn should_print_error_kinds() {
    assert_eq!(RedisProtocolErrorKind::EncodeError.to_str(), "Encode Error");
    assert_eq!(RedisProtocolErrorKind::DecodeError.to_str(), "Decode Error");
    assert_eq!(RedisProtocolErrorKind::Unknown.to_str(), "Unknown Error");
    assert_eq!(RedisProtocolErrorKind::BufferTooSmall(10).to_str(), "Buffer too small");
}

#[test]
fn should_get_encode_len_simplestring() {
    let ss1 = "Ok";
    let ss2 = "FooBarBaz";
    let ss3 = "-&#$@9232";
    assert_eq!(escanor::utils::simplestring_encode_len(ss1), 5);
    assert_eq!(escanor::utils::simplestring_encode_len(ss2), 12);
    assert_eq!(escanor::utils::simplestring_encode_len(ss3), 12);
}

#[test]
fn should_get_encode_len_error() {
    let e1 = "MOVED 3999 127.0.0.1:6381";
    let e2 = "ERR unknown command 'foobar'";
    let e3 = "WRONGTYPE Operation against a key holding the wrong kind of value";
    assert_eq!(escanor::utils::error_encode_len(e1), 28);
    assert_eq!(escanor::utils::error_encode_len(e2), 31);
    assert_eq!(escanor::utils::error_encode_len(e3), 68);
}

#[test]
fn should_get_encode_len_integer() {
    let i1: i64 = 38473;
    let i2: i64 = -74834;
    assert_eq!(escanor::utils::integer_encode_len(&i1), 8);
    assert_eq!(escanor::utils::integer_encode_len(&i2), 9);
}

#[test]
fn should_crc16_123456789() {
    let key = "123456789";
    let expected: u16 = 12739;
    let actual = redis_keyslot(key);
    assert_eq!(actual, expected);
}

#[test]
fn should_crc16_with_brackets() {
    let key = "foo{123456789}bar";
    let expected: u16 = 12739;
    let actual = redis_keyslot(key);
    assert_eq!(actual, expected);
}

#[test]
fn should_crc16_with_brackets_no_padding() {
    let key = "{123456789}";
    let expected: u16 = 12739;
    let actual = redis_keyslot(key);
    assert_eq!(actual, expected);
}

#[test]
fn should_crc16_with_invalid_brackets_lhs() {
    let key = "foo{123456789";
    let expected: u16 = 10378;
    let actual = redis_keyslot(key);
    assert_eq!(actual, expected);
}

#[test]
fn should_crc16_with_invalid_brackets_rhs() {
    let key = "foo}123456789";
    let expected: u16 = 6965;
    let actual = redis_keyslot(key);
    assert_eq!(actual, expected);
}

#[test]
fn should_crc16_with_random_string() {
    let key = "8xjx7vWrfPq54mKfFD3Y1CcjjofpnAcQ";
    let expected: u16 = 5458;
    let actual = redis_keyslot(key);
    assert_eq!(actual, expected);
}

#[test]
fn test_array_print() {
    let tester = "*2\r\n$3\r\nfoo\r\n$3\r\nbar\r\n";
    let foo = String::from("foo");
    let bar = String::from("bar");
    let sample_arr: Vec<&String> = vec![&foo, &bar];
    let sample = escanor::printer::print_string_arr(sample_arr);
    assert_eq!(sample, tester)
}
