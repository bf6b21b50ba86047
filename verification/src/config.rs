//! The configuration the server runs under, and its flat key/value view.
//! The file itself is read and parsed outside the library; the values
//! arrive here as plain strings.

use vstd::prelude::*;
use vstd::utf8::encode_utf8;
use crate::db::{kidx, khas, lemma_kidx, lemma_kidx_is};
use crate::num::parse_i64;
use crate::text::{dec_chars, push_u64_dec};

verus! {

pub struct DatabaseConf {
    pub save_after: usize,
    pub mutations: usize,
}

pub struct NetConf {
    pub port: usize,
    pub bind: String,
    pub max_packet: usize,
    pub max_connections: usize,
}

pub struct Conf {
    pub database: DatabaseConf,
    pub network: NetConf,
}

/// A flat configuration view: dotted keys to value strings.
pub struct ConfMap {
    pub entries: Vec<(String, String)>,
}

impl ConfMap {
    pub fn new() -> (r: ConfMap)
        ensures
            r.entries@.len() == 0,
    {
        ConfMap { entries: Vec::new() }
    }

    /// The value stored under a key, by its first occurrence.
    pub fn get_conf_by_key(&self, key: &String) -> (r: Option<&String>)
        ensures
            khas(self.entries@, key@) && self.entries@[kidx(self.entries@, key@)].1@.len() > 0
                ==> (r matches Some(v) && v@ == self.entries@[kidx(self.entries@, key@)].1@),
            khas(self.entries@, key@) && self.entries@[kidx(self.entries@, key@)].1@.len() == 0
                ==> r is None,
            !khas(self.entries@, key@) ==> r is None,
    {
        let mut i: usize = 0;
        while i < self.entries.len()
            invariant
                i <= self.entries@.len(),
                forall|j: int| 0 <= j < i ==> (#[trigger] self.entries@[j]).0@ != key@,
            decreases self.entries@.len() - i,
        {
            if crate::utils::str_eq(self.entries[i].0.as_str(), key.as_str()) {
                proof {
                    lemma_kidx_is(self.entries@, key@, i as int);
                }
                if self.entries[i].1.as_str().unicode_len() == 0 {
                    return None;
                }
                return Some(&self.entries[i].1);
            }
            i = i + 1;
        }
        proof {
            lemma_kidx_is(self.entries@, key@, self.entries@.len() as int);
        }
        None
    }

    pub fn push_entry(&mut self, key: String, value: String)
        ensures
            final(self).entries@ == old(self).entries@.push((key, value)),
    {
        self.entries.push((key, value));
    }
}

impl Conf {
    /// The flat view of this configuration: every setting under its dotted
    /// name.
    pub fn to_map(&self) -> (r: ConfMap)
        ensures
            r.entries@.len() == 6,
            r.entries@[0].0@ == "database.save_after"@ && r.entries@[0].1@ == dec_chars(
                self.database.save_after as nat,
            ),
            r.entries@[1].0@ == "database.mutations"@ && r.entries@[1].1@ == dec_chars(
                self.database.mutations as nat,
            ),
            r.entries@[2].0@ == "network.port"@ && r.entries@[2].1@ == dec_chars(
                self.network.port as nat,
            ),
            r.entries@[3].0@ == "network.bind"@ && r.entries@[3].1@ == self.network.bind@,
            r.entries@[4].0@ == "network.max_packet"@ && r.entries@[4].1@ == dec_chars(
                self.network.max_packet as nat,
            ),
            r.entries@[5].0@ == "network.max_connections"@ && r.entries@[5].1@ == dec_chars(
                self.network.max_connections as nat,
            ),
    {
        let mut m = ConfMap::new();
        m.push_entry("database.save_after".to_owned(), usize_text(self.database.save_after));
        m.push_entry("database.mutations".to_owned(), usize_text(self.database.mutations));
        m.push_entry("network.port".to_owned(), usize_text(self.network.port));
        m.push_entry("network.bind".to_owned(), self.network.bind.clone());
        m.push_entry("network.max_packet".to_owned(), usize_text(self.network.max_packet));
        m.push_entry(
            "network.max_connections".to_owned(),
            usize_text(self.network.max_connections),
        );
        m
    }

    /// Reads a configuration back from a flat view, with the documented
    /// defaults for absent or unreadable settings.
    pub fn from_map(map: &ConfMap) -> (r: Conf)
        ensures
            r.network.port == spec_read_usize(map.entries@, "network.port"@, 6379),
            (khas(map.entries@, "network.bind"@) && map.entries@[kidx(
                map.entries@,
                "network.bind"@,
            )].1@.len() > 0 ==> r.network.bind@ == map.entries@[kidx(
                map.entries@,
                "network.bind"@,
            )].1@),
            (!(khas(map.entries@, "network.bind"@) && map.entries@[kidx(
                map.entries@,
                "network.bind"@,
            )].1@.len() > 0) ==> r.network.bind@ == "127.0.0.1"@),
            r.network.max_packet == spec_read_usize(map.entries@, "network.max_packet"@, 10),
            r.network.max_connections == spec_read_usize(
                map.entries@,
                "network.max_connections"@,
                0,
            ),
            r.database.save_after == spec_read_usize(map.entries@, "database.save_after"@, 60),
            r.database.mutations == spec_read_usize(map.entries@, "database.mutations"@, 4),
    {
        let port = read_usize(map, "network.port", 6379);
        let bind = match map.get_conf_by_key(&"network.bind".to_owned()) {
            Some(v) => v.clone(),
            None => "127.0.0.1".to_owned(),
        };
        let max_packet = read_usize(map, "network.max_packet", 10);
        let max_connections = read_usize(map, "network.max_connections", 0);
        let save_after = read_usize(map, "database.save_after", 60);
        let mutations = read_usize(map, "database.mutations", 4);
        Conf {
            database: DatabaseConf { save_after, mutations },
            network: NetConf { port, bind, max_packet, max_connections },
        }
    }
}

/// The numeral of an unsigned size.
pub fn usize_text(n: usize) -> (r: String)
    ensures
        r@ == dec_chars(n as nat),
{
    let mut s = String::new();
    push_u64_dec(&mut s, n as u64);
    proof {
        assert(s@ =~= dec_chars(n as nat));
    }
    s
}

/// The setting under a key read as a size: the default when absent, empty,
/// not a numeral, or out of range.
pub open spec fn spec_read_usize(entries: Seq<(String, String)>, k: Seq<char>, default: usize) -> usize {
    if khas(entries, k) {
        let v = entries[kidx(entries, k)].1@;
        match parse_i64(encode_utf8(v)) {
            Some(n) => if 0 <= n <= usize::MAX && v.len() > 0 {
                n as usize
            } else {
                default
            },
            None => default,
        }
    } else {
        default
    }
}

pub fn read_usize(map: &ConfMap, key: &str, default: usize) -> (r: usize)
    ensures
        r == spec_read_usize(map.entries@, key@, default),
{
    match map.get_conf_by_key(&key.to_owned()) {
        Some(v) => match crate::num::parse_i64_bytes(v.as_str().as_bytes()) {
            Some(n) => {
                if n >= 0 && (n as u128) <= usize::MAX as u128 {
                    n as usize
                } else {
                    default
                }
            },
            None => default,
        },
        None => default,
    }
}

} // verus!
