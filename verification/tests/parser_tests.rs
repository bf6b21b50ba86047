use escanor::parser::parse_raw_cmd;
use escanor::json::{deep_merge, json_to_string, parse_json, Json};
use escanor::util::{is_integer, is_numeric};

#[test]
fn test_merge() {
    let a = parse_json(
        "{\"person\":{\"firstName\":\"John\",\"lastName\":\"Doe\"},\"cities\":[\"london\",\"paris\"]}"
            .as_bytes(),
    )
    .unwrap();
    let b = parse_json(
        "{\"title\":\"This is another title\",\"payment\":20,\"person\":{\"firstName\":\"Jane\"},\"cities\":null}"
            .as_bytes(),
    )
    .unwrap();
    let merged = deep_merge(a, &b);
    let expected = "{\"person\":{\"firstName\":\"Jane\",\"lastName\":\"Doe\"},\"cities\":[\"london\",\"paris\"],\"title\":\"This is another title\",\"payment\":20}";
    assert_eq!(json_to_string(&merged), expected);
}

#[test]
fn test_redis_parser() {
    let buf: Vec<u8> = "*3\r\n$3\r\nFoo\r\n$-1\r\n$3\r\nBar\r\n".as_bytes().to_vec();
    let (frame, consumed) = match escanor::decode::decode_bytes(&buf) {
        Ok((f, c)) => (f, c),
        Err(e) => panic!("Error parsing bytes: {:?}", e.kind()),
    };
    assert!(frame.is_some());
    assert_eq!(consumed, buf.len());
}

#[test]
fn test_numeric() {
    let float_str = String::from("8.5");
    assert!(is_numeric(&float_str));
    let float_str = String::from("-8.5");
    assert!(is_numeric(&float_str));
    assert!(is_integer(&String::from("42")));
    assert!(!is_integer(&String::from("4.2")));
    assert!(!is_numeric(&String::from("abc")));
}

#[test]
fn tokenizer_splits_quoted_and_plain() {
    let toks = parse_raw_cmd("set `my key` value".as_bytes());
    assert_eq!(toks, vec!["set", "my key", "value"]);
    let toks = parse_raw_cmd("a  b".as_bytes());
    assert_eq!(toks, vec!["a", "b"]);
}

#[test]
fn token_streams_agree_between_text_and_resp() {
    // the same command, once as a quoted text line, once as a RESP array
    let text_tokens = parse_raw_cmd("`set` `k` `v v`".as_bytes());
    let frame = escanor::types::Frame::Array(vec![
        escanor::types::Frame::BulkString("set".into()),
        escanor::types::Frame::BulkString("k".into()),
        escanor::types::Frame::BulkString("v v".into()),
    ]);
    let mut buf = Vec::new();
    escanor::encode::encode_bytes(&mut buf, &frame).unwrap();
    let resp_tokens = escanor::tokenizer::generate_tokens_from_resp(&buf);
    assert_eq!(text_tokens, resp_tokens);
}

#[test]
fn merge_laws_on_values() {
    let a = parse_json("{\"x\":1}".as_bytes()).unwrap();
    let merged = deep_merge(a, &Json::Null);
    assert_eq!(json_to_string(&merged), "{\"x\":1}");

    let b = parse_json("{\"y\":2}".as_bytes()).unwrap();
    let merged = deep_merge(Json::Null, &b);
    assert_eq!(json_to_string(&merged), "{\"y\":2}");

    // disjoint keys commute as maps
    let a1 = parse_json("{\"x\":1}".as_bytes()).unwrap();
    let b1 = parse_json("{\"y\":2}".as_bytes()).unwrap();
    let ab = deep_merge(a1, &b1);
    let a2 = parse_json("{\"x\":1}".as_bytes()).unwrap();
    let b2 = parse_json("{\"y\":2}".as_bytes()).unwrap();
    let ba = deep_merge(b2, &a2);
    assert_eq!(json_to_string(&ab), "{\"x\":1,\"y\":2}");
    assert_eq!(json_to_string(&ba), "{\"y\":2,\"x\":1}");
}

#[test]
fn log_store_keeps_indexes_dense() {
    let mut log = escanor::storage::LogStore::new();
    for i in 1..=5u64 {
        log.append_entry(escanor::storage::Entry {
            term: 1,
            index: i,
            payload: escanor::storage::EntryPayload::Blank,
        });
    }
    assert_eq!(log.last_log(), (1, 5));
    log.delete_logs_from(4, None);
    assert_eq!(log.last_log(), (1, 3));
}

#[test]
fn unit_parse_accepts_exactly_three_units() {
    assert!(escanor::unit_conv::parse(&String::from("km")).is_ok());
    assert!(escanor::unit_conv::parse(&String::from("m")).is_ok());
    assert!(escanor::unit_conv::parse(&String::from("mi")).is_ok());
    assert!(escanor::unit_conv::parse(&String::from("yd")).is_err());
}

#[test]
fn config_round_trips_through_its_map() {
    let conf = escanor::config::Conf {
        database: escanor::config::DatabaseConf { save_after: 60, mutations: 5 },
        network: escanor::config::NetConf {
            port: 6379,
            bind: String::from("127.0.0.1"),
            max_packet: 10,
            max_connections: 0,
        },
    };
    let map = conf.to_map();
    assert_eq!(
        map.get_conf_by_key(&String::from("network.port")).map(|s| s.as_str()),
        Some("6379")
    );
    let back = escanor::config::Conf::from_map(&map);
    assert_eq!(back.network.port, 6379);
    assert_eq!(back.network.bind, "127.0.0.1");
    assert_eq!(back.database.mutations, 5);
}

#[test]
fn geohash_format_of_coordinates() {
    assert_eq!(escanor::geo::format_e7(381155560), "38.115556");
    assert_eq!(escanor::geo::format_e7(-1800000000), "-180");
    assert_eq!(escanor::geo::format_e7(15000000), "1.5");
    assert_eq!(escanor::geo::geohash_e7(381155560, 133613890).len(), 10);
}
