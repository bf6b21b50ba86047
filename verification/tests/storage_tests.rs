use escanor::command::Context;
use escanor::config::{Conf, ConfMap};
use escanor::db::Store;
use escanor::storage::{replicate_to_state_machine, Entry, EntryPayload, LogStore};

fn open_context() -> Context {
    Context {
        client_addr: String::from("127.0.0.1"),
        auth_is_required: false,
        auth_key: None,
        client_authenticated: false,
        client_auth_key: None,
    }
}

fn log_of(first: u64, terms: &[u64]) -> LogStore {
    let mut entries = Vec::new();
    for (i, t) in terms.iter().enumerate() {
        entries.push(Entry { term: *t, index: first + i as u64, payload: EntryPayload::Blank });
    }
    LogStore { entries, first, last_applied: 0 }
}

#[test]
fn compact_through_keeps_suffix_behind_pointer() {
    let mut log = log_of(1, &[1, 1, 2]);
    log.compact_through(2, vec![7]);
    assert_eq!(log.first, 2);
    assert_eq!(log.entries.len(), 2);
    assert_eq!(log.entries[0].index, 2);
    assert_eq!(log.entries[0].term, 1);
    assert!(matches!(log.entries[0].payload, EntryPayload::SnapshotPointer(_)));
    assert_eq!(log.entries[1].index, 3);
    assert_eq!(log.entries[1].term, 2);
}

#[test]
fn compact_through_out_of_range_is_a_no_op() {
    let mut log = log_of(5, &[3, 3]);
    log.compact_through(2, vec![1]);
    assert_eq!(log.first, 5);
    assert_eq!(log.entries.len(), 2);
    log.compact_through(9, vec![1]);
    assert_eq!(log.first, 5);
    assert_eq!(log.entries.len(), 2);
}

#[test]
fn initial_state_reads_last_entry_and_membership() {
    let mut log = log_of(1, &[1, 2]);
    log.entries[0].payload = EntryPayload::ConfigChange(vec![1, 2, 3]);
    log.last_applied = 1;
    let (term, index, applied, members) = log.initial_state(9);
    assert_eq!(term, 2);
    assert_eq!(index, 2);
    assert_eq!(applied, 1);
    assert_eq!(members, vec![1, 2, 3]);
}

#[test]
fn initial_state_of_empty_log_is_single_node() {
    let log = LogStore { entries: Vec::new(), first: 1, last_applied: 0 };
    let (term, index, applied, members) = log.initial_state(9);
    assert_eq!(term, 0);
    assert_eq!(index, 0);
    assert_eq!(applied, 0);
    assert_eq!(members, vec![9]);
}

#[test]
fn replicate_applies_entries_in_order() {
    let mut store = Store { entries: Vec::new(), ttl: Vec::new() };
    let mut log = LogStore { entries: Vec::new(), first: 1, last_applied: 0 };
    let mut ctx = open_context();
    let set_k = b"*3\r\n$3\r\nSET\r\n$1\r\nk\r\n$2\r\n10\r\n".to_vec();
    let incr_k = b"*3\r\n$6\r\nINCRBY\r\n$1\r\nk\r\n$1\r\n5\r\n".to_vec();
    let entries = vec![(1u64, set_k), (2u64, incr_k)];
    replicate_to_state_machine(&mut store, &mut log, &mut ctx, &entries, 0);
    assert_eq!(log.last_applied, 2);
    assert_eq!(store.entries.len(), 1);
    assert_eq!(store.entries[0].0, "k");
    match store.entries[0].1 {
        escanor::db::Data::Int(v) => assert_eq!(v, 15),
        _ => panic!("expected an integer"),
    }
}

#[test]
fn conf_round_trips_through_its_map() {
    let conf = Conf::from_map(&ConfMap::new());
    assert_eq!(conf.network.port, 6379);
    assert_eq!(conf.network.bind, "127.0.0.1");
    assert_eq!(conf.network.max_packet, 10);
    assert_eq!(conf.network.max_connections, 0);
    assert_eq!(conf.database.save_after, 60);
    assert_eq!(conf.database.mutations, 4);
    let again = Conf::from_map(&conf.to_map());
    assert_eq!(again.network.port, 6379);
    assert_eq!(again.database.save_after, 60);
}

#[test]
fn conf_reads_overrides_and_falls_back_on_junk() {
    let mut map = ConfMap::new();
    map.push_entry(String::from("network.port"), String::from("7000"));
    map.push_entry(String::from("database.mutations"), String::from("junk"));
    let conf = Conf::from_map(&map);
    assert_eq!(conf.network.port, 7000);
    assert_eq!(conf.database.mutations, 4);
}
