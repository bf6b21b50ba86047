use escanor::command::{compile_raw, ArgOrder, Context};
use escanor::db::{apply, geo_dist_reply, geo_radius_reply, ApplyOutcome, Store};

fn open_context() -> Context {
    Context {
        client_addr: String::from("127.0.0.1"),
        auth_is_required: false,
        auth_key: None,
        client_authenticated: false,
        client_auth_key: None,
    }
}

fn run(store: &mut Store, ctx: &mut Context, line: &str, now: i64) -> String {
    let cmd = compile_raw(line.as_bytes()).expect("command should compile");
    match apply(store, ctx, &cmd, now) {
        ApplyOutcome::Reply(r) => r,
        ApplyOutcome::NeedDist { a, b, unit } => {
            let d = haversine(a, b, unit);
            geo_dist_reply(&format!("{}", d))
        },
        ApplyOutcome::NeedRadius { origin, candidates, radius, order } => {
            finish_radius(origin, candidates, radius, order)
        },
    }
}

fn finish_radius(
    origin: (i64, i64),
    candidates: Vec<(String, String, i64, i64)>,
    radius: i64,
    order: ArgOrder,
) -> String {
    let mut dists_nm = Vec::new();
    let mut texts = Vec::new();
    for c in candidates.iter() {
        let meters = haversine(origin, (c.2, c.3), escanor::unit_conv::Units::Meters);
        dists_nm.push((meters * 1e9) as i64);
        texts.push(format!("{}", meters));
    }
    geo_radius_reply(&candidates, &dists_nm, &texts, radius, order)
}

fn haversine(a: (i64, i64), b: (i64, i64), unit: escanor::unit_conv::Units) -> f64 {
    let r = match unit {
        escanor::unit_conv::Units::Kilometers => 6371.0,
        escanor::unit_conv::Units::Miles => 3960.0,
        escanor::unit_conv::Units::Meters => 6_371_000.0,
    };
    let lat1 = (a.0 as f64 / 1e7).to_radians();
    let lat2 = (b.0 as f64 / 1e7).to_radians();
    let d_lat = ((b.0 - a.0) as f64 / 1e7).to_radians();
    let d_lon = ((b.1 - a.1) as f64 / 1e7).to_radians();
    let h = (d_lat / 2.0).sin() * (d_lat / 2.0).sin()
        + (d_lon / 2.0).sin() * (d_lon / 2.0).sin() * lat1.cos() * lat2.cos();
    let c = 2.0 * h.sqrt().atan2((1.0 - h).sqrt());
    r * c
}

#[test]
fn set_command_test() {
    let mut store = Store::new();
    let mut ctx = open_context();
    let reply = run(&mut store, &mut ctx, "set name mambisi", 0);
    assert_eq!(reply, "+OK\r\n");
}

#[test]
fn set_command_with_type_test() {
    // a third bare argument is no longer a value type: SET takes key,
    // value, and an optional EX pair only
    let r = compile_raw("set name json mambisi".as_bytes());
    assert!(r.is_err());
}

#[test]
fn set_command_test_valid_with_expiration() {
    let mut store = Store::new();
    let mut ctx = open_context();
    let reply = run(&mut store, &mut ctx, "set name mambisi ex 2", 0);
    assert_eq!(reply, "+OK\r\n");
}

#[test]
fn set_command_test_invalid() {
    let r = compile_raw("set name mambisi joke".as_bytes());
    assert!(r.is_err());
}

#[test]
fn set_incrby_get_scenario() {
    let mut store = Store::new();
    let mut ctx = open_context();
    assert_eq!(run(&mut store, &mut ctx, "SET k 10", 0), "+OK\r\n");
    assert_eq!(run(&mut store, &mut ctx, "INCRBY k 5", 0), ":15\r\n");
    assert_eq!(run(&mut store, &mut ctx, "GET k", 0), ":15\r\n");
}

#[test]
fn auth_gate_scenario() {
    let mut store = Store::new();
    let mut ctx = Context {
        client_addr: String::from("127.0.0.1"),
        auth_is_required: true,
        auth_key: Some(String::from("SECRET-REDACTED")),
        client_authenticated: false,
        client_auth_key: None,
    };
    assert_eq!(run(&mut store, &mut ctx, "SET k v", 0), "-ERR auth failed\r\n");
    assert_eq!(run(&mut store, &mut ctx, "AUTH SECRET-REDACTED", 0), "+OK\r\n");
    assert_eq!(run(&mut store, &mut ctx, "SET k v", 0), "+OK\r\n");
    assert_eq!(run(&mut store, &mut ctx, "GET k", 0), "$1\r\nv\r\n");
}

#[test]
fn ttl_expiry_scenario() {
    let mut store = Store::new();
    let mut ctx = open_context();
    assert_eq!(run(&mut store, &mut ctx, "SET k v EX 1", 0), "+OK\r\n");
    assert_eq!(run(&mut store, &mut ctx, "GET k", 0), "$1\r\nv\r\n");
    // two seconds later the key is gone
    assert_eq!(run(&mut store, &mut ctx, "TTL k", 2), ":-1\r\n");
    assert_eq!(run(&mut store, &mut ctx, "EXISTS k", 2), ":0\r\n");
    assert_eq!(run(&mut store, &mut ctx, "GET k", 2), "-KEY_NOT_FOUND\r\n");
}

#[test]
fn del_and_exists() {
    let mut store = Store::new();
    let mut ctx = open_context();
    run(&mut store, &mut ctx, "SET a 1", 0);
    run(&mut store, &mut ctx, "SET b 2", 0);
    assert_eq!(run(&mut store, &mut ctx, "EXISTS a b c", 0), ":2\r\n");
    assert_eq!(run(&mut store, &mut ctx, "DEL a", 0), ":1\r\n");
    assert_eq!(run(&mut store, &mut ctx, "DEL a", 0), ":0\r\n");
    assert_eq!(run(&mut store, &mut ctx, "EXISTS a b c", 0), ":1\r\n");
}

#[test]
fn getset_returns_old_value() {
    let mut store = Store::new();
    let mut ctx = open_context();
    assert_eq!(run(&mut store, &mut ctx, "GETSET k first", 0), "+nil\r\n");
    assert_eq!(run(&mut store, &mut ctx, "GETSET k second", 0), "$5\r\nfirst\r\n");
}

#[test]
fn keys_glob_matching() {
    let mut store = Store::new();
    let mut ctx = open_context();
    run(&mut store, &mut ctx, "SET user:1 a", 0);
    run(&mut store, &mut ctx, "SET user:2 b", 0);
    run(&mut store, &mut ctx, "SET other c", 0);
    assert_eq!(
        run(&mut store, &mut ctx, "KEYS user:*", 0),
        "*2\r\n$6\r\nuser:1\r\n$6\r\nuser:2\r\n"
    );
}

#[test]
fn randomkey_is_25_alphanumerics() {
    let mut store = Store::new();
    let mut ctx = open_context();
    let reply = run(&mut store, &mut ctx, "RANDOMKEY", 0);
    assert!(reply.starts_with("$25\r\n"));
    let key = &reply[5..30];
    assert!(key.chars().all(|c| c.is_ascii_alphanumeric()));
}

#[test]
fn json_set_and_get_scenario() {
    let mut store = Store::new();
    let mut ctx = open_context();
    assert_eq!(
        run(&mut store, &mut ctx, "JSETR u `{\"name\":\"Ada\",\"age\":30}`", 0),
        "+OK\r\n"
    );
    assert_eq!(run(&mut store, &mut ctx, "JSET u age 31 city Paris", 0), "+OK\r\n");
    assert_eq!(run(&mut store, &mut ctx, "JGET u age", 0), "$2\r\n31\r\n");
    let doc = "{\"name\":\"Ada\",\"age\":31,\"city\":\"Paris\"}";
    assert_eq!(run(&mut store, &mut ctx, "JGET u", 0), format!("${}\r\n{}\r\n", doc.len(), doc));
}

#[test]
fn json_merge_scenario() {
    let mut store = Store::new();
    let mut ctx = open_context();
    run(&mut store, &mut ctx, "JSETR u `{\"name\":\"Ada\",\"age\":30}`", 0);
    run(&mut store, &mut ctx, "JSET u age 31 city Paris", 0);
    assert_eq!(
        run(
            &mut store,
            &mut ctx,
            "JMERGE u `{\"name\":\"Bob\",\"address\":{\"city\":\"Rome\"}}`",
            0
        ),
        "+OK\r\n"
    );
    let doc = "{\"name\":\"Bob\",\"age\":31,\"city\":\"Paris\",\"address\":{\"city\":\"Rome\"}}";
    assert_eq!(run(&mut store, &mut ctx, "JGET u", 0), format!("${}\r\n{}\r\n", doc.len(), doc));
}

#[test]
fn json_incr_and_remove() {
    let mut store = Store::new();
    let mut ctx = open_context();
    run(&mut store, &mut ctx, "JSETR u `{\"n\":5,\"x\":1}`", 0);
    assert_eq!(run(&mut store, &mut ctx, "JINCRBY u n 7", 0), ":12\r\n");
    assert_eq!(run(&mut store, &mut ctx, "JREM u x", 0), ":1\r\n");
    let doc = "{\"n\":12}";
    assert_eq!(run(&mut store, &mut ctx, "JGET u", 0), format!("${}\r\n{}\r\n", doc.len(), doc));
}

#[test]
fn json_path_selection() {
    let mut store = Store::new();
    let mut ctx = open_context();
    run(&mut store, &mut ctx, "JSETR u `{\"a\":{\"x\":1},\"b\":{\"x\":2}}`", 0);
    let reply = run(&mut store, &mut ctx, "JPATH u $..x", 0);
    assert_eq!(reply, "*2\r\n$1\r\n1\r\n$1\r\n2\r\n");
}

#[test]
fn geo_add_dist_radius_scenario() {
    let mut store = Store::new();
    let mut ctx = open_context();
    assert_eq!(
        run(
            &mut store,
            &mut ctx,
            "GEOADD g 13.361389 38.115556 Palermo 15.087269 37.502669 Catania",
            0
        ),
        ":2\r\n"
    );
    let dist = run(&mut store, &mut ctx, "GEODIST g Palermo Catania km", 0);
    assert!(dist.starts_with("$"));
    let body: Vec<&str> = dist.split("\r\n").collect();
    let km: f64 = body[1].parse().unwrap();
    assert!((km - 166.27).abs() < 0.5, "distance was {}", km);

    let radius = run(&mut store, &mut ctx, "GEORADIUS g 15 37 200 km ASC", 0);
    let catania_pos = radius.find("Catania").expect("Catania in radius");
    let palermo_pos = radius.find("Palermo").expect("Palermo in radius");
    assert!(catania_pos < palermo_pos, "Catania should come first: {}", radius);
}

#[test]
fn geo_hash_matches_reference_encoder() {
    let mut store = Store::new();
    let mut ctx = open_context();
    run(&mut store, &mut ctx, "GEOADD g 13.361389 38.115556 Palermo", 0);
    let reply = run(&mut store, &mut ctx, "GEOHASH g Palermo", 0);
    let expected = geohash::encode(geohash::Coord { x: 13.361389, y: 38.115556 }, 10).unwrap();
    assert_eq!(reply, format!("*1\r\n$10\r\n{}\r\n", expected));
}

#[test]
fn geo_rem_and_pos() {
    let mut store = Store::new();
    let mut ctx = open_context();
    run(&mut store, &mut ctx, "GEOADD g 1.5 2.5 a 3 4 b", 0);
    assert_eq!(
        run(&mut store, &mut ctx, "GEOPOS g a missing", 0),
        "*2\r\n*2\r\n$3\r\n2.5\r\n$3\r\n1.5\r\n*0\r\n"
    );
    assert_eq!(run(&mut store, &mut ctx, "GEOREM g a", 0), ":1\r\n");
    assert_eq!(run(&mut store, &mut ctx, "GEOREM g a", 0), ":0\r\n");
    assert_eq!(run(&mut store, &mut ctx, "GEODEL g", 0), ":1\r\n");
}

#[test]
fn apply_is_deterministic_across_replicas() {
    let script = [
        "SET k 10",
        "INCRBY k 5",
        "JSETR u `{\"a\":1}`",
        "JSET u b 2",
        "GEOADD g 1.0 2.0 t",
        "DEL missing",
    ];
    let mut s1 = Store::new();
    let mut s2 = Store::new();
    let mut c1 = open_context();
    let mut c2 = open_context();
    for line in script.iter() {
        let r1 = run(&mut s1, &mut c1, line, 7);
        let r2 = run(&mut s2, &mut c2, line, 7);
        assert_eq!(r1, r2);
    }
    // both replicas answer every later read the same way
    for q in ["GET k", "JGET u", "KEYS *", "GEOPOS g t"].iter() {
        assert_eq!(run(&mut s1, &mut c1, q, 7), run(&mut s2, &mut c2, q, 7));
    }
}

#[test]
fn incrby_promotes_integer_string() {
    let mut store = Store {
        entries: vec![(String::from("k"), escanor::db::Data::String(String::from("41")))],
        ttl: vec![],
    };
    let mut ctx = open_context();
    assert_eq!(run(&mut store, &mut ctx, "INCRBY k 1", 0), ":42\r\n");
    assert_eq!(run(&mut store, &mut ctx, "GET k", 0), ":42\r\n");
}

#[test]
fn incrby_rejects_non_numeric_string() {
    let mut store = Store {
        entries: vec![(String::from("k"), escanor::db::Data::String(String::from("abc")))],
        ttl: vec![],
    };
    let mut ctx = open_context();
    assert_eq!(run(&mut store, &mut ctx, "INCRBY k 1", 0), "-ERR\r\n");
}

#[test]
fn set_with_bad_expiry_is_syntax_error() {
    assert!(compile_raw(b"set k v ex abc").is_err());
    assert!(compile_raw(b"set k v ex 10").is_ok());
}

#[test]
fn merge_appends_strings() {
    let r = escanor::db::merge_data(
        Some(escanor::db::Data::String(String::from("ab"))),
        escanor::db::Data::String(String::from("cd")),
    );
    match r {
        escanor::db::Data::String(s) => assert_eq!(s, "abcd"),
        _ => panic!("expected a string"),
    }
}

#[test]
fn merge_null_and_absent_take_new() {
    match escanor::db::merge_data(Some(escanor::db::Data::Null), escanor::db::Data::Int(5)) {
        escanor::db::Data::Int(v) => assert_eq!(v, 5),
        _ => panic!("expected the new integer"),
    }
    match escanor::db::merge_data(None, escanor::db::Data::Int(7)) {
        escanor::db::Data::Int(v) => assert_eq!(v, 7),
        _ => panic!("expected the new integer"),
    }
}

#[test]
fn merge_mixed_types_keep_old() {
    match escanor::db::merge_data(
        Some(escanor::db::Data::Int(3)),
        escanor::db::Data::String(String::from("x")),
    ) {
        escanor::db::Data::Int(v) => assert_eq!(v, 3),
        _ => panic!("expected the old integer"),
    }
}

#[test]
fn merge_ints_last_writer_wins() {
    match escanor::db::merge_data(Some(escanor::db::Data::Int(3)), escanor::db::Data::Int(9)) {
        escanor::db::Data::Int(v) => assert_eq!(v, 9),
        _ => panic!("expected the new integer"),
    }
}

#[test]
fn radius_ties_break_by_tag() {
    let candidates = vec![
        (String::from("b"), String::from("h1"), 0, 0),
        (String::from("a"), String::from("h2"), 0, 0),
    ];
    let dists = vec![5, 5];
    let texts = vec![String::from("5"), String::from("5")];
    let r = geo_radius_reply(&candidates, &dists, &texts, 10, ArgOrder::ASC);
    assert_eq!(r, "*2\r\n*3\r\n$1\r\na\r\n$2\r\nh2\r\n$1\r\n5\r\n*3\r\n$1\r\nb\r\n$2\r\nh1\r\n$1\r\n5\r\n");
    let d = geo_radius_reply(&candidates, &dists, &texts, 10, ArgOrder::DESC);
    assert_eq!(d, "*2\r\n*3\r\n$1\r\nb\r\n$2\r\nh1\r\n$1\r\n5\r\n*3\r\n$1\r\na\r\n$2\r\nh2\r\n$1\r\n5\r\n");
}

#[test]
fn radius_filters_by_distance() {
    let candidates = vec![
        (String::from("near"), String::from("h1"), 0, 0),
        (String::from("far"), String::from("h2"), 0, 0),
    ];
    let dists = vec![5, 50];
    let texts = vec![String::from("5"), String::from("50")];
    let r = geo_radius_reply(&candidates, &dists, &texts, 10, ArgOrder::UNSPECIFIED);
    assert_eq!(r, "*1\r\n*3\r\n$4\r\nnear\r\n$2\r\nh1\r\n$1\r\n5\r\n");
}
