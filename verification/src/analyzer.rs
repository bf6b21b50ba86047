//! The syntax analyzer: turns an argv token stream into a typed command,
//! validating arity and argument lexemes; any failure is one syntax error
//! and no partial command.

use vstd::prelude::*;
use vstd::utf8::encode_utf8;
use crate::command::{
    command_model, geo_items_model, jset_items_model, ArgOrder, AuthCmd, CmdGeoItem, Command,
    CommandModel, DBSizeCmd, DelCmd, ExistsCmd, ExpireAtCmd, ExpireCmd, GeoAddCmd, GeoDelCmd,
    GeoDistCmd, GeoHashCmd, GeoJsonCmd, GeoPosCmd, GeoRadiusByMemberCmd, GeoRadiusCmd,
    GeoRemoveCmd, GetCmd, GetSetCmd, IncrByCmd, InfoCmd, JDelCmd, JGetCmd, JIncrByCmd,
    JIncrByFloatCmd, JMergeCmd, JPathCmd, JRemCmd, JSetArgItem, JSetCmd, JSetRawCmd, KeysCmd,
    PersistCmd, PingCmd, RandomKeyCmd, SetCmd, TTLCmd,
};
use crate::db::{data_model, Data, DataModel};
use crate::error::SyntaxError;
use crate::json::{Json, JsonModel};
use crate::num::parse_i64;
use crate::text::push_char;
use crate::unit_conv::Units;
use crate::util::{spec_is_integer, spec_is_numeric, spec_scaled_e7};

verus! {

/// ASCII lowercasing, character by character.
pub open spec fn lower_char(c: char) -> char {
    if 'A' <= c <= 'Z' {
        ((c as u32) + 32) as char
    } else {
        c
    }
}

pub open spec fn lower_chars(s: Seq<char>) -> Seq<char> {
    s.map_values(|c: char| lower_char(c))
}

/// Lowercases the ASCII letters of a token.
pub fn ascii_lower(s: &str) -> (r: String)
    ensures
        r@ == lower_chars(s@),
{
    let n = s.unicode_len();
    let mut out = String::new();
    let mut i: usize = 0;
    while i < n
        invariant
            i <= n,
            n == s@.len(),
            out@ =~= lower_chars(s@).take(i as int),
        decreases n - i,
    {
        let c = s.get_char(i);
        let lc: char = if 'A' <= c && c <= 'Z' {
            proof {
                assert('A' as u32 == 65 && 'Z' as u32 == 90);
                vstd::utf8::char_u32_cast(c, c as u32);
            }
            (((c as u32) + 32) as u8) as char
        } else {
            c
        };
        proof {
            if 'A' <= c && c <= 'Z' {
                assert(c as u32 <= 90);
                assert((((c as u32) + 32) as u8) as char == ((c as u32) + 32) as char) by {
                    let u = c as u32;
                    assert(u + 32 <= 122);
                    let b8 = ((u + 32) as u8);
                    assert(b8 == u + 32);
                }
            }
            assert(lc == lower_char(s@[i as int]));
        }
        push_char(&mut out, lc);
        i = i + 1;
        proof {
            assert(out@ =~= lower_chars(s@).take(i as int));
        }
    }
    proof {
        assert(lower_chars(s@).take(n as int) =~= lower_chars(s@));
    }
    out
}

/// The token at `i`, or the empty token past the end.
pub open spec fn tk(ts: Seq<Seq<char>>, i: int) -> Seq<char> {
    if 0 <= i < ts.len() {
        ts[i]
    } else {
        Seq::empty()
    }
}

/// The bytes of a token.
pub open spec fn tb(ts: Seq<Seq<char>>, i: int) -> Seq<u8> {
    encode_utf8(tk(ts, i))
}

/// The value a SET or GETSET token stores: an integer when it lexes as one,
/// the raw text otherwise.
pub open spec fn set_value_model(ts: Seq<Seq<char>>, i: int) -> DataModel {
    if spec_is_integer(tb(ts, i)) {
        DataModel::Int(parse_i64(tb(ts, i))->0)
    } else {
        DataModel::Str(tk(ts, i))
    }
}

/// The radius of a geo query in nanometers: the token at scale ten
/// to the minus seventh of its unit, converted exactly for meters and
/// kilometers and to the nanometer floor for miles.
pub open spec fn spec_radius_nm(tok: Seq<u8>, unit: Units) -> Option<i64> {
    match spec_scaled_e7(tok) {
        Some(v) => {
            let nm: int = match unit {
                Units::Meters => v * 100,
                Units::Kilometers => v * 100000,
                Units::Miles => if v >= 0 {
                    (v * 1609344) / 10
                } else {
                    0 - (((0 - v) * 1609344 + 9) / 10)
                },
            };
            if i64::MIN <= nm <= i64::MAX {
                Some(nm as i64)
            } else {
                None
            }
        },
        None => None,
    }
}

/// Reads a radius token in its unit as nanometers.
pub fn parse_radius_nm(tok: &String, unit: Units) -> (r: Option<i64>)
    ensures
        r == spec_radius_nm(encode_utf8(tok@), unit),
{
    let v = match crate::util::parse_scaled_e7(tok) {
        Some(v) => v,
        None => {
            return None;
        },
    };
    let nm: i128 = match unit {
        Units::Meters => (v as i128) * 100,
        Units::Kilometers => (v as i128) * 100000,
        Units::Miles => if v >= 0 {
            ((v as i128) * 1609344) / 10
        } else {
            0 - (((0 - (v as i128)) * 1609344 + 9) / 10)
        },
    };
    if nm < i64::MIN as i128 || nm > i64::MAX as i128 {
        return None;
    }
    Some(nm as i64)
}

/// The unit a token names.
pub open spec fn spec_unit(tok: Seq<char>) -> Option<Units> {
    if tok == "km"@ {
        Some(Units::Kilometers)
    } else if tok == "m"@ {
        Some(Units::Meters)
    } else if tok == "mi"@ {
        Some(Units::Miles)
    } else {
        None
    }
}

/// The order a trailing token requests: absent means unspecified.
pub open spec fn spec_order(tok: Seq<char>) -> Option<ArgOrder> {
    if tok.len() == 0 {
        Some(ArgOrder::UNSPECIFIED)
    } else if tok == "asc"@ {
        Some(ArgOrder::ASC)
    } else if tok == "desc"@ {
        Some(ArgOrder::DESC)
    } else {
        None
    }
}

/// Validates a trailing order token.
pub fn check_validate_arg_order(arg_order_string: String, arg_order: &mut ArgOrder) -> (r: Result<
    (),
    SyntaxError,
>)
    ensures
        match spec_order(lower_chars(arg_order_string@)) {
            Some(o) => {
                &&& r is Ok
                &&& lower_chars(arg_order_string@).len() == 0 ==> *final(arg_order) == *old(
                    arg_order,
                )
                &&& lower_chars(arg_order_string@).len() > 0 ==> *final(arg_order) == o
            },
            None => r is Err,
        },
{
    proof {
        reveal_strlit("asc");
        reveal_strlit("desc");
    }
    let low = ascii_lower(arg_order_string.as_str());
    if low.as_str().unicode_len() == 0 {
        return Ok(());
    }
    if crate::utils::str_eq(low.as_str(), "asc") {
        *arg_order = ArgOrder::ASC;
        Ok(())
    } else if crate::utils::str_eq(low.as_str(), "desc") {
        *arg_order = ArgOrder::DESC;
        Ok(())
    } else {
        proof {
            assert(lower_chars(arg_order_string@).len() > 0);
        }
        Err(SyntaxError)
    }
}

/// What a geo point argument triple denotes: the latitude and longitude at
/// scale ten to the minus seventh, on the globe. The wire order is
/// longitude, latitude, tag.
pub open spec fn spec_geo_item(lng: Seq<u8>, lat: Seq<u8>, tag: Seq<char>) -> Option<
    (i64, i64, Seq<char>),
> {
    if spec_is_numeric(lat) && spec_is_numeric(lng) {
        match (spec_scaled_e7(lat), spec_scaled_e7(lng)) {
            (Some(la), Some(lo)) => if -900000000 <= la <= 900000000 && -1800000000 <= lo
                <= 1800000000 {
                Some((la, lo, tag))
            } else {
                None
            },
            _ => None,
        }
    } else {
        None
    }
}

/// The geo items of the tokens after the key, three per point.
pub open spec fn spec_geo_items(ts: Seq<Seq<char>>, i: int) -> Option<Seq<(i64, i64, Seq<char>)>>
    decreases ts.len() - i,
{
    if i >= ts.len() {
        Some(Seq::empty())
    } else if i + 3 > ts.len() {
        None
    } else {
        match spec_geo_item(tb(ts, i), tb(ts, i + 1), tk(ts, i + 2)) {
            Some(item) => match spec_geo_items(ts, i + 3) {
                Some(rest) => Some(seq![item] + rest),
                None => None,
            },
            None => None,
        }
    }
}

/// The dot-path writes of the tokens after the key, two per write: numeric
/// values become number literals, anything else a string.
pub open spec fn spec_jset_items(ts: Seq<Seq<char>>, i: int) -> Seq<(Seq<char>, JsonModel)>
    decreases ts.len() - i,
{
    if i + 2 > ts.len() {
        Seq::empty()
    } else {
        let v = if spec_is_numeric(tb(ts, i + 1)) {
            JsonModel::Num(tk(ts, i + 1))
        } else {
            JsonModel::Str(tk(ts, i + 1))
        };
        seq![(tk(ts, i), v)] + spec_jset_items(ts, i + 2)
    }
}

/// The command a lowercased name token names.
pub enum CmdId {
    Ping,
    DbSize,
    RandomKey,
    Info,
    Auth,
    SetK,
    GetSet,
    Get,
    Ttl,
    Persist,
    Expire,
    ExpireAt,
    IncrBy,
    Del,
    Keys,
    Exists,
    GeoAdd,
    GeoJson,
    GeoHash,
    GeoPos,
    GeoRadius,
    GeoDist,
    GeoRadiusByMember,
    GeoDel,
    GeoRem,
    JSetR,
    JSetK,
    JMerge,
    JGet,
    JPath,
    JDel,
    JRem,
    JIncrBy,
    JIncrByFloat,
    Unknown,
}

pub open spec fn spec_cmd_id(cmd: Seq<char>) -> CmdId {
    if cmd == "ping"@ {
        CmdId::Ping
    } else if cmd == "dbsize"@ {
        CmdId::DbSize
    } else if cmd == "randomkey"@ {
        CmdId::RandomKey
    } else if cmd == "info"@ {
        CmdId::Info
    } else if cmd == "auth"@ {
        CmdId::Auth
    } else if cmd == "set"@ {
        CmdId::SetK
    } else if cmd == "getset"@ {
        CmdId::GetSet
    } else if cmd == "get"@ {
        CmdId::Get
    } else if cmd == "ttl"@ {
        CmdId::Ttl
    } else if cmd == "persist"@ {
        CmdId::Persist
    } else if cmd == "expire"@ {
        CmdId::Expire
    } else if cmd == "expire_at"@ {
        CmdId::ExpireAt
    } else if cmd == "incrby"@ {
        CmdId::IncrBy
    } else if cmd == "del"@ {
        CmdId::Del
    } else if cmd == "keys"@ {
        CmdId::Keys
    } else if cmd == "exists"@ {
        CmdId::Exists
    } else if cmd == "geoadd"@ {
        CmdId::GeoAdd
    } else if cmd == "geojson"@ {
        CmdId::GeoJson
    } else if cmd == "geohash"@ {
        CmdId::GeoHash
    } else if cmd == "geopos"@ {
        CmdId::GeoPos
    } else if cmd == "georadius"@ {
        CmdId::GeoRadius
    } else if cmd == "geodist"@ {
        CmdId::GeoDist
    } else if cmd == "georadiusbymember"@ {
        CmdId::GeoRadiusByMember
    } else if cmd == "geodel"@ {
        CmdId::GeoDel
    } else if cmd == "georem"@ {
        CmdId::GeoRem
    } else if cmd == "jsetr"@ {
        CmdId::JSetR
    } else if cmd == "jset"@ {
        CmdId::JSetK
    } else if cmd == "jmerge"@ {
        CmdId::JMerge
    } else if cmd == "jget"@ {
        CmdId::JGet
    } else if cmd == "jpath"@ {
        CmdId::JPath
    } else if cmd == "jdel"@ {
        CmdId::JDel
    } else if cmd == "jrem"@ {
        CmdId::JRem
    } else if cmd == "jincrby"@ {
        CmdId::JIncrBy
    } else if cmd == "jincrbyfloat"@ {
        CmdId::JIncrByFloat
    } else {
        CmdId::Unknown
    }
}

/// Resolves a lowercased command name.
#[verifier::rlimit(100)]
fn cmd_id_exec(cmd: &String) -> (r: CmdId)
    ensures
        r == spec_cmd_id(cmd@),
{
    proof {
        reveal_strlit("ping");
        reveal_strlit("dbsize");
        reveal_strlit("randomkey");
        reveal_strlit("info");
        reveal_strlit("auth");
        reveal_strlit("set");
        reveal_strlit("getset");
        reveal_strlit("get");
        reveal_strlit("ttl");
        reveal_strlit("persist");
        reveal_strlit("expire");
        reveal_strlit("expire_at");
        reveal_strlit("incrby");
        reveal_strlit("del");
        reveal_strlit("keys");
        reveal_strlit("exists");
        reveal_strlit("geoadd");
        reveal_strlit("geojson");
        reveal_strlit("geohash");
        reveal_strlit("geopos");
        reveal_strlit("georadius");
        reveal_strlit("geodist");
        reveal_strlit("georadiusbymember");
        reveal_strlit("geodel");
        reveal_strlit("georem");
        reveal_strlit("jsetr");
        reveal_strlit("jset");
        reveal_strlit("jmerge");
        reveal_strlit("jget");
        reveal_strlit("jpath");
        reveal_strlit("jdel");
        reveal_strlit("jrem");
        reveal_strlit("jincrby");
        reveal_strlit("jincrbyfloat");
    }
    if streq(cmd, "ping") {
        CmdId::Ping
    } else if streq(cmd, "dbsize") {
        CmdId::DbSize
    } else if streq(cmd, "randomkey") {
        CmdId::RandomKey
    } else if streq(cmd, "info") {
        CmdId::Info
    } else if streq(cmd, "auth") {
        CmdId::Auth
    } else if streq(cmd, "set") {
        CmdId::SetK
    } else if streq(cmd, "getset") {
        CmdId::GetSet
    } else if streq(cmd, "get") {
        CmdId::Get
    } else if streq(cmd, "ttl") {
        CmdId::Ttl
    } else if streq(cmd, "persist") {
        CmdId::Persist
    } else if streq(cmd, "expire") {
        CmdId::Expire
    } else if streq(cmd, "expire_at") {
        CmdId::ExpireAt
    } else if streq(cmd, "incrby") {
        CmdId::IncrBy
    } else if streq(cmd, "del") {
        CmdId::Del
    } else if streq(cmd, "keys") {
        CmdId::Keys
    } else if streq(cmd, "exists") {
        CmdId::Exists
    } else if streq(cmd, "geoadd") {
        CmdId::GeoAdd
    } else if streq(cmd, "geojson") {
        CmdId::GeoJson
    } else if streq(cmd, "geohash") {
        CmdId::GeoHash
    } else if streq(cmd, "geopos") {
        CmdId::GeoPos
    } else if streq(cmd, "georadius") {
        CmdId::GeoRadius
    } else if streq(cmd, "geodist") {
        CmdId::GeoDist
    } else if streq(cmd, "georadiusbymember") {
        CmdId::GeoRadiusByMember
    } else if streq(cmd, "geodel") {
        CmdId::GeoDel
    } else if streq(cmd, "georem") {
        CmdId::GeoRem
    } else if streq(cmd, "jsetr") {
        CmdId::JSetR
    } else if streq(cmd, "jset") {
        CmdId::JSetK
    } else if streq(cmd, "jmerge") {
        CmdId::JMerge
    } else if streq(cmd, "jget") {
        CmdId::JGet
    } else if streq(cmd, "jpath") {
        CmdId::JPath
    } else if streq(cmd, "jdel") {
        CmdId::JDel
    } else if streq(cmd, "jrem") {
        CmdId::JRem
    } else if streq(cmd, "jincrby") {
        CmdId::JIncrBy
    } else if streq(cmd, "jincrbyfloat") {
        CmdId::JIncrByFloat
    } else {
        CmdId::Unknown
    }
}

/// What a token stream compiles to, or nothing on any validation failure.
/// The command name is case-insensitive; argument counts and lexemes follow
/// each command's form.
pub open spec fn spec_analyse(ts: Seq<Seq<char>>) -> Option<CommandModel> {
    let cmd = lower_chars(tk(ts, 0));
    if cmd.len() == 0 {
        None
    } else {
    match spec_cmd_id(cmd) {
    CmdId::Ping => {
        Some(CommandModel::Ping)
    },
    CmdId::DbSize => {
        Some(CommandModel::DBSize)
    },
    CmdId::RandomKey => {
        Some(CommandModel::RandomKey)
    },
    CmdId::Info => {
        Some(CommandModel::Info)
    },
    CmdId::Auth => {
        if tk(ts, 1).len() == 0 {
            None
        } else {
            Some(CommandModel::Auth { password: tk(ts, 1) })
        }
    },
    CmdId::SetK => {
        if tk(ts, 1).len() == 0 || tk(ts, 2).len() == 0 {
            None
        } else {
            let excmd = lower_chars(tk(ts, 3));
            if excmd.len() == 0 {
                Some(
                    CommandModel::SetKey {
                        key: tk(ts, 1),
                        value: set_value_model(ts, 2),
                        exp: 0,
                    },
                )
            } else if excmd == "ex"@ {
                match parse_i64(tb(ts, 4)) {
                    Some(v) => if 0 <= v <= u32::MAX {
                        Some(
                            CommandModel::SetKey {
                                key: tk(ts, 1),
                                value: set_value_model(ts, 2),
                                exp: v as u32,
                            },
                        )
                    } else {
                        None
                    },
                    None => None,
                }
            } else {
                None
            }
        }
    },
    CmdId::GetSet => {
        if tk(ts, 1).len() == 0 || tk(ts, 2).len() == 0 {
            None
        } else {
            Some(CommandModel::GetSet { key: tk(ts, 1), value: set_value_model(ts, 2) })
        }
    },
    CmdId::Get => {
        if tk(ts, 1).len() == 0 {
            None
        } else {
            Some(CommandModel::Get { key: tk(ts, 1) })
        }
    },
    CmdId::Ttl => {
        if tk(ts, 1).len() == 0 {
            None
        } else {
            Some(CommandModel::Ttl { key: tk(ts, 1) })
        }
    },
    CmdId::Persist => {
        if tk(ts, 1).len() == 0 {
            None
        } else {
            Some(CommandModel::Persist { key: tk(ts, 1) })
        }
    },
    CmdId::Expire => {
        if tk(ts, 1).len() == 0 || tk(ts, 2).len() == 0 {
            None
        } else {
            match parse_i64(tb(ts, 2)) {
                Some(v) => if v < 0 {
                    None
                } else {
                    Some(CommandModel::Expire { key: tk(ts, 1), secs: v })
                },
                None => None,
            }
        }
    },
    CmdId::ExpireAt => {
        if tk(ts, 1).len() == 0 || tk(ts, 2).len() == 0 {
            None
        } else {
            match parse_i64(tb(ts, 2)) {
                Some(v) => if v < 0 {
                    None
                } else {
                    Some(CommandModel::ExpireAt { key: tk(ts, 1), ts: v })
                },
                None => None,
            }
        }
    },
    CmdId::IncrBy => {
        if tk(ts, 1).len() == 0 || tk(ts, 2).len() == 0 {
            None
        } else if !spec_is_integer(tb(ts, 2)) {
            None
        } else {
            Some(CommandModel::IncrBy { key: tk(ts, 1), delta: parse_i64(tb(ts, 2))->0 })
        }
    },
    CmdId::Del => {
        if tk(ts, 1).len() == 0 {
            None
        } else {
            Some(CommandModel::Del { key: tk(ts, 1) })
        }
    },
    CmdId::Keys => {
        if tk(ts, 1).len() == 0 {
            None
        } else {
            Some(CommandModel::Keys { pattern: tk(ts, 1) })
        }
    },
    CmdId::Exists => {
        if ts.len() <= 1 {
            None
        } else {
            Some(CommandModel::Exists { keys: ts.skip(1) })
        }
    },
    CmdId::GeoAdd => {
        if tk(ts, 1).len() == 0 || ts.len() <= 2 || (ts.len() - 2) % 3 != 0 {
            None
        } else {
            match spec_geo_items(ts, 2) {
                Some(items) => Some(CommandModel::GeoAdd { key: tk(ts, 1), items }),
                None => None,
            }
        }
    },
    CmdId::GeoJson => {
        if tk(ts, 1).len() == 0 || ts.len() <= 2 {
            None
        } else {
            Some(CommandModel::GeoJson { key: tk(ts, 1), items: ts.skip(2) })
        }
    },
    CmdId::GeoHash => {
        if tk(ts, 1).len() == 0 || ts.len() <= 2 {
            None
        } else {
            Some(CommandModel::GeoHash { key: tk(ts, 1), items: ts.skip(2) })
        }
    },
    CmdId::GeoPos => {
        if tk(ts, 1).len() == 0 || ts.len() <= 2 {
            None
        } else {
            Some(CommandModel::GeoPos { key: tk(ts, 1), items: ts.skip(2) })
        }
    },
    CmdId::GeoRadius => {
        if tk(ts, 1).len() == 0 || tk(ts, 2).len() == 0 || tk(ts, 3).len() == 0 || tk(
            ts,
            4,
        ).len() == 0 || lower_chars(tk(ts, 5)).len() == 0 {
            None
        } else {
            match spec_unit(lower_chars(tk(ts, 5))) {
                Some(unit) => match spec_order(lower_chars(tk(ts, 6))) {
                    Some(order) => {
                        if spec_is_numeric(tb(ts, 2)) && spec_is_numeric(tb(ts, 3))
                            && spec_is_numeric(tb(ts, 4)) {
                            match (
                                spec_scaled_e7(tb(ts, 3)),
                                spec_scaled_e7(tb(ts, 2)),
                                spec_radius_nm(tb(ts, 4), unit),
                            ) {
                                (Some(lat), Some(lng), Some(radius)) => Some(
                                    CommandModel::GeoRadius {
                                        key: tk(ts, 1),
                                        lng,
                                        lat,
                                        radius,
                                        unit,
                                        order,
                                    },
                                ),
                                _ => None,
                            }
                        } else {
                            None
                        }
                    },
                    None => None,
                },
                None => None,
            }
        }
    },
    CmdId::GeoDist => {
        if tk(ts, 1).len() == 0 || tk(ts, 2).len() == 0 || tk(ts, 3).len() == 0 || lower_chars(
            tk(ts, 4),
        ).len() == 0 {
            None
        } else {
            match spec_unit(lower_chars(tk(ts, 4))) {
                Some(unit) => Some(
                    CommandModel::GeoDist {
                        key: tk(ts, 1),
                        m1: tk(ts, 2),
                        m2: tk(ts, 3),
                        unit,
                    },
                ),
                None => None,
            }
        }
    },
    CmdId::GeoRadiusByMember => {
        if tk(ts, 1).len() == 0 || tk(ts, 2).len() == 0 || tk(ts, 3).len() == 0 || lower_chars(
            tk(ts, 4),
        ).len() == 0 {
            None
        } else {
            match spec_unit(lower_chars(tk(ts, 4))) {
                Some(unit) => match spec_order(lower_chars(tk(ts, 5))) {
                    Some(order) => if spec_is_numeric(tb(ts, 3)) {
                        match spec_radius_nm(tb(ts, 3), unit) {
                            Some(radius) => Some(
                                CommandModel::GeoRadiusByMember {
                                    key: tk(ts, 1),
                                    member: tk(ts, 2),
                                    radius,
                                    unit,
                                    order,
                                },
                            ),
                            None => None,
                        }
                    } else {
                        None
                    },
                    None => None,
                },
                None => None,
            }
        }
    },
    CmdId::GeoDel => {
        if tk(ts, 1).len() == 0 {
            None
        } else {
            Some(CommandModel::GeoDel { key: tk(ts, 1) })
        }
    },
    CmdId::GeoRem => {
        if tk(ts, 1).len() == 0 || ts.len() <= 2 {
            None
        } else {
            Some(CommandModel::GeoRem { key: tk(ts, 1), items: ts.skip(2) })
        }
    },
    CmdId::JSetR => {
        if tk(ts, 1).len() == 0 || tk(ts, 2).len() == 0 {
            None
        } else {
            Some(CommandModel::JSetRaw { key: tk(ts, 1), value: tk(ts, 2) })
        }
    },
    CmdId::JSetK => {
        if tk(ts, 1).len() == 0 || ts.len() <= 2 || (ts.len() - 2) % 2 != 0 {
            None
        } else {
            Some(CommandModel::JSet { key: tk(ts, 1), items: spec_jset_items(ts, 2) })
        }
    },
    CmdId::JMerge => {
        if tk(ts, 1).len() == 0 || tk(ts, 2).len() == 0 {
            None
        } else {
            Some(CommandModel::JMerge { key: tk(ts, 1), value: tk(ts, 2) })
        }
    },
    CmdId::JGet => {
        if tk(ts, 1).len() == 0 {
            None
        } else {
            Some(
                CommandModel::JGet {
                    key: tk(ts, 1),
                    path: if tk(ts, 2).len() == 0 {
                        None
                    } else {
                        Some(tk(ts, 2))
                    },
                },
            )
        }
    },
    CmdId::JPath => {
        if tk(ts, 1).len() == 0 || tk(ts, 2).len() == 0 {
            None
        } else {
            Some(CommandModel::JPath { key: tk(ts, 1), selector: tk(ts, 2) })
        }
    },
    CmdId::JDel => {
        if tk(ts, 1).len() == 0 {
            None
        } else {
            Some(CommandModel::JDel { key: tk(ts, 1) })
        }
    },
    CmdId::JRem => {
        if tk(ts, 1).len() == 0 || ts.len() <= 2 {
            None
        } else {
            Some(CommandModel::JRem { key: tk(ts, 1), paths: ts.skip(2) })
        }
    },
    CmdId::JIncrBy => {
        if tk(ts, 1).len() == 0 || tk(ts, 2).len() == 0 || tk(ts, 3).len() == 0 {
            None
        } else if !spec_is_integer(tb(ts, 3)) {
            None
        } else {
            Some(
                CommandModel::JIncrBy {
                    key: tk(ts, 1),
                    path: tk(ts, 2),
                    delta: parse_i64(tb(ts, 3))->0,
                },
            )
        }
    },
    CmdId::JIncrByFloat => {
        if tk(ts, 1).len() == 0 || tk(ts, 2).len() == 0 || tk(ts, 3).len() == 0 {
            None
        } else if !spec_is_numeric(tb(ts, 3)) {
            None
        } else {
            match spec_scaled_e7(tb(ts, 3)) {
                Some(v) => if v == 0 {
                    None
                } else {
                    Some(
                        CommandModel::JIncrByFloat {
                            key: tk(ts, 1),
                            path: tk(ts, 2),
                            delta: tk(ts, 3),
                        },
                    )
                },
                None => None,
            }
        }
    },
    CmdId::Unknown => {
        None
    },
    }
    }
}

/// The token at `i`, or an empty string past the end.
fn tok_at(tokens: &Vec<String>, i: usize) -> (r: String)
    ensures
        r@ == tk(tokens@.map_values(|s: String| s@), i as int),
{
    if i < tokens.len() {
        tokens[i].clone()
    } else {
        String::new()
    }
}

/// Compiles a token stream into a typed command, or one syntax error.
#[verifier::rlimit(100)]
pub fn analyse_token_stream(tokens: Vec<String>) -> (r: Result<Command, SyntaxError>)
    ensures
        match spec_analyse(tokens@.map_values(|s: String| s@)) {
            Some(cm) => r matches Ok(c) && command_model(c) == cm,
            None => r is Err,
        },
{
    proof {
        reveal_strlit("ex");
    }
    let ghost ts = tokens@.map_values(|s: String| s@);
    let cmd0 = tok_at(&tokens, 0);
    let cmd = ascii_lower(cmd0.as_str());
    if cmd.as_str().unicode_len() == 0 {
        return Err(SyntaxError);
    }
    match cmd_id_exec(&cmd) {
    CmdId::Ping => {
        Ok(Command::Ping(PingCmd))
    },
    CmdId::DbSize => {
        Ok(Command::DBSize(DBSizeCmd))
    },
    CmdId::RandomKey => {
        Ok(Command::RandomKey(RandomKeyCmd))
    },
    CmdId::Info => {
        Ok(Command::Info(InfoCmd))
    },
    CmdId::Auth => {
        let pw = tok_at(&tokens, 1);
        if pw.as_str().unicode_len() == 0 {
            return Err(SyntaxError);
        }
        Ok(Command::Auth(AuthCmd { arg_password: pw }))
    },
    CmdId::SetK => {
        let arg_key = tok_at(&tokens, 1);
        let arg_value = tok_at(&tokens, 2);
        if arg_key.as_str().unicode_len() == 0 || arg_value.as_str().unicode_len() == 0 {
            return Err(SyntaxError);
        }
        let es_val = parse_set_value(arg_value);
        proof {
            assert(data_model(es_val) == set_value_model(ts, 2));
        }
        let ex0 = tok_at(&tokens, 3);
        let arg_ex_cmd = ascii_lower(ex0.as_str());
        if arg_ex_cmd.as_str().unicode_len() == 0 {
            Ok(Command::SetKey(SetCmd { arg_key, arg_value: es_val, arg_exp: 0 }))
        } else if streq(&arg_ex_cmd, "ex") {
            let next = tok_at(&tokens, 4);
            match crate::num::parse_i64_bytes(next.as_str().as_bytes()) {
                Some(v) => {
                    if 0 <= v && v <= u32::MAX as i64 {
                        Ok(Command::SetKey(SetCmd { arg_key, arg_value: es_val, arg_exp: v as u32 }))
                    } else {
                        Err(SyntaxError)
                    }
                },
                None => Err(SyntaxError),
            }
        } else {
            Err(SyntaxError)
        }
    },
    CmdId::GetSet => {
        let arg_key = tok_at(&tokens, 1);
        let arg_value = tok_at(&tokens, 2);
        if arg_key.as_str().unicode_len() == 0 || arg_value.as_str().unicode_len() == 0 {
            return Err(SyntaxError);
        }
        let es_val = parse_set_value(arg_value);
        proof {
            assert(data_model(es_val) == set_value_model(ts, 2));
        }
        Ok(Command::GetSet(GetSetCmd { arg_key, arg_value: es_val }))
    },
    CmdId::Get => {
        let arg_key = tok_at(&tokens, 1);
        if arg_key.as_str().unicode_len() == 0 {
            return Err(SyntaxError);
        }
        Ok(Command::Get(GetCmd { arg_key }))
    },
    CmdId::Ttl => {
        let arg_key = tok_at(&tokens, 1);
        if arg_key.as_str().unicode_len() == 0 {
            return Err(SyntaxError);
        }
        Ok(Command::Ttl(TTLCmd { arg_key }))
    },
    CmdId::Persist => {
        let arg_key = tok_at(&tokens, 1);
        if arg_key.as_str().unicode_len() == 0 {
            return Err(SyntaxError);
        }
        Ok(Command::Persist(PersistCmd { arg_key }))
    },
    CmdId::Expire => {
        let arg_key = tok_at(&tokens, 1);
        let arg_value = tok_at(&tokens, 2);
        if arg_key.as_str().unicode_len() == 0 || arg_value.as_str().unicode_len() == 0 {
            return Err(SyntaxError);
        }
        match crate::num::parse_i64_bytes(arg_value.as_str().as_bytes()) {
            Some(t) => {
                if t < 0 {
                    return Err(SyntaxError);
                }
                Ok(Command::Expire(ExpireCmd { arg_key, arg_value: t }))
            },
            None => Err(SyntaxError),
        }
    },
    CmdId::ExpireAt => {
        let arg_key = tok_at(&tokens, 1);
        let arg_value = tok_at(&tokens, 2);
        if arg_key.as_str().unicode_len() == 0 || arg_value.as_str().unicode_len() == 0 {
            return Err(SyntaxError);
        }
        match crate::num::parse_i64_bytes(arg_value.as_str().as_bytes()) {
            Some(t) => {
                if t < 0 {
                    return Err(SyntaxError);
                }
                Ok(Command::ExpireAt(ExpireAtCmd { arg_key, arg_value: t }))
            },
            None => Err(SyntaxError),
        }
    },
    CmdId::IncrBy => {
        let arg_key = tok_at(&tokens, 1);
        let arg_value = tok_at(&tokens, 2);
        if arg_key.as_str().unicode_len() == 0 || arg_value.as_str().unicode_len() == 0 {
            return Err(SyntaxError);
        }
        if !crate::util::is_integer(&arg_value) {
            return Err(SyntaxError);
        }
        let delta = match crate::num::parse_i64_bytes(arg_value.as_str().as_bytes()) {
            Some(v) => v,
            None => {
                return Err(SyntaxError);
            },
        };
        Ok(Command::IncrBy(IncrByCmd { arg_key, arg_value: delta }))
    },
    CmdId::Del => {
        let arg_key = tok_at(&tokens, 1);
        if arg_key.as_str().unicode_len() == 0 {
            return Err(SyntaxError);
        }
        Ok(Command::Del(DelCmd { arg_key }))
    },
    CmdId::Keys => {
        let arg_pattern = tok_at(&tokens, 1);
        if arg_pattern.as_str().unicode_len() == 0 {
            return Err(SyntaxError);
        }
        Ok(Command::Keys(KeysCmd { pattern: arg_pattern }))
    },
    CmdId::Exists => {
        if tokens.len() <= 1 {
            return Err(SyntaxError);
        }
        let keys = rest_of(&tokens, 1);
        Ok(Command::Exists(ExistsCmd { keys }))
    },
    CmdId::GeoAdd => {
        let arg_key = tok_at(&tokens, 1);
        if arg_key.as_str().unicode_len() == 0 {
            return Err(SyntaxError);
        }
        if tokens.len() <= 2 || (tokens.len() - 2) % 3 != 0 {
            return Err(SyntaxError);
        }
        let mut items: Vec<CmdGeoItem> = Vec::new();
        let mut i: usize = 2;
        while i < tokens.len() - 2
            invariant
                tokens@.len() >= 3,
                2 <= i <= tokens@.len(),
                (i - 2) % 3 == 0,
                ts == tokens@.map_values(|s: String| s@),
                spec_analyse(ts) == (match spec_geo_items(ts, 2) {
                    Some(its) => Some(CommandModel::GeoAdd { key: tk(ts, 1), items: its }),
                    None => None,
                }),
                spec_geo_items(ts, 2) matches Some(all) ==> i <= ts.len() && geo_items_model(
                    items@,
                ) + (spec_geo_items(ts, i as int)->0) == all && spec_geo_items(
                    ts,
                    i as int,
                ) is Some,
                spec_geo_items(ts, 2) is None ==> spec_geo_items(ts, i as int) is None,
            decreases tokens@.len() - i,
        {
            let lng_t = tok_at(&tokens, i);
            let lat_t = tok_at(&tokens, i + 1);
            let tag_t = tok_at(&tokens, i + 2);
            let ghost item = spec_geo_item(tb(ts, i as int), tb(ts, i + 1), tk(ts, i + 2));
            if !(crate::util::is_numeric(&lat_t) && crate::util::is_numeric(&lng_t)) {
                proof {
                    assert(item is None);
                    assert(spec_geo_items(ts, i as int) is None);
                }
                return Err(SyntaxError);
            }
            let la = match crate::util::parse_scaled_e7(&lat_t) {
                Some(v) => v,
                None => {
                    proof {
                        assert(item is None);
                        assert(spec_geo_items(ts, i as int) is None);
                    }
                    return Err(SyntaxError);
                },
            };
            let lo = match crate::util::parse_scaled_e7(&lng_t) {
                Some(v) => v,
                None => {
                    proof {
                        assert(item is None);
                        assert(spec_geo_items(ts, i as int) is None);
                    }
                    return Err(SyntaxError);
                },
            };
            if !(-900000000 <= la && la <= 900000000 && -1800000000 <= lo && lo <= 1800000000) {
                proof {
                    assert(item is None);
                    assert(spec_geo_items(ts, i as int) is None);
                }
                return Err(SyntaxError);
            }
            let ghost pre = items@;
            items.push((la, lo, tag_t));
            proof {
                assert(geo_items_model(items@) =~= geo_items_model(pre).push(
                    (la, lo, tk(ts, i + 2)),
                ));
                if spec_geo_items(ts, 2) is Some {
                    assert(geo_items_model(items@) + (spec_geo_items(ts, i + 3)->0)
                        =~= geo_items_model(pre) + (spec_geo_items(ts, i as int)->0));
                }
            }
            i = i + 3;
        }
        proof {
            assert(i == ts.len());
            assert(spec_geo_items(ts, i as int) == Some(Seq::<(i64, i64, Seq<char>)>::empty()));
            if spec_geo_items(ts, 2) is Some {
                assert(geo_items_model(items@) + Seq::<(i64, i64, Seq<char>)>::empty()
                    =~= geo_items_model(items@));
            }
        }
        Ok(Command::GeoAdd(GeoAddCmd { arg_key, items }))
    },
    CmdId::GeoJson => {
        let arg_key = tok_at(&tokens, 1);
        if arg_key.as_str().unicode_len() == 0 || tokens.len() <= 2 {
            return Err(SyntaxError);
        }
        Ok(Command::GeoJson(GeoJsonCmd { arg_key, items: rest_of(&tokens, 2) }))
    },
    CmdId::GeoHash => {
        let arg_key = tok_at(&tokens, 1);
        if arg_key.as_str().unicode_len() == 0 || tokens.len() <= 2 {
            return Err(SyntaxError);
        }
        Ok(Command::GeoHash(GeoHashCmd { arg_key, items: rest_of(&tokens, 2) }))
    },
    CmdId::GeoPos => {
        let arg_key = tok_at(&tokens, 1);
        if arg_key.as_str().unicode_len() == 0 || tokens.len() <= 2 {
            return Err(SyntaxError);
        }
        Ok(Command::GeoPos(GeoPosCmd { arg_key, items: rest_of(&tokens, 2) }))
    },
    CmdId::GeoRadius => {
        let arg_key = tok_at(&tokens, 1);
        let arg_lng = tok_at(&tokens, 2);
        let arg_lat = tok_at(&tokens, 3);
        let arg_radius = tok_at(&tokens, 4);
        let unit0 = tok_at(&tokens, 5);
        let unit_low = ascii_lower(unit0.as_str());
        if arg_key.as_str().unicode_len() == 0 || arg_lng.as_str().unicode_len() == 0
            || arg_lat.as_str().unicode_len() == 0 || arg_radius.as_str().unicode_len() == 0
            || unit_low.as_str().unicode_len() == 0 {
            return Err(SyntaxError);
        }
        let arg_unit = match crate::unit_conv::parse(&unit_low) {
            Ok(u) => u,
            Err(_) => {
                return Err(SyntaxError);
            },
        };
        proof {
            reveal_strlit("km");
            reveal_strlit("m");
            reveal_strlit("mi");
        }
        let mut arg_order = ArgOrder::UNSPECIFIED;
        let order0 = tok_at(&tokens, 6);
        match check_validate_arg_order(order0, &mut arg_order) {
            Ok(()) => {},
            Err(e) => {
                return Err(e);
            },
        }
        if !(crate::util::is_numeric(&arg_lng) && crate::util::is_numeric(&arg_lat)
            && crate::util::is_numeric(&arg_radius)) {
            return Err(SyntaxError);
        }
        let lat = match crate::util::parse_scaled_e7(&arg_lat) {
            Some(v) => v,
            None => {
                return Err(SyntaxError);
            },
        };
        let lng = match crate::util::parse_scaled_e7(&arg_lng) {
            Some(v) => v,
            None => {
                return Err(SyntaxError);
            },
        };
        let rad = match parse_radius_nm(&arg_radius, arg_unit) {
            Some(v) => v,
            None => {
                return Err(SyntaxError);
            },
        };
        Ok(
            Command::GeoRadius(
                GeoRadiusCmd {
                    arg_key,
                    arg_lng: lng,
                    arg_lat: lat,
                    arg_radius: rad,
                    arg_unit,
                    arg_order,
                },
            ),
        )
    },
    CmdId::GeoDist => {
        let arg_key = tok_at(&tokens, 1);
        let member_1 = tok_at(&tokens, 2);
        let member_2 = tok_at(&tokens, 3);
        let unit0 = tok_at(&tokens, 4);
        let unit_low = ascii_lower(unit0.as_str());
        if arg_key.as_str().unicode_len() == 0 || member_1.as_str().unicode_len() == 0
            || member_2.as_str().unicode_len() == 0 || unit_low.as_str().unicode_len() == 0 {
            return Err(SyntaxError);
        }
        let arg_unit = match crate::unit_conv::parse(&unit_low) {
            Ok(u) => u,
            Err(_) => {
                return Err(SyntaxError);
            },
        };
        proof {
            reveal_strlit("km");
            reveal_strlit("m");
            reveal_strlit("mi");
        }
        Ok(
            Command::GeoDist(
                GeoDistCmd { arg_key, arg_mem_1: member_1, arg_mem_2: member_2, arg_unit },
            ),
        )
    },
    CmdId::GeoRadiusByMember => {
        let arg_key = tok_at(&tokens, 1);
        let arg_member = tok_at(&tokens, 2);
        let arg_radius = tok_at(&tokens, 3);
        let unit0 = tok_at(&tokens, 4);
        let unit_low = ascii_lower(unit0.as_str());
        if arg_key.as_str().unicode_len() == 0 || arg_member.as_str().unicode_len() == 0
            || arg_radius.as_str().unicode_len() == 0 || unit_low.as_str().unicode_len() == 0 {
            return Err(SyntaxError);
        }
        let arg_unit = match crate::unit_conv::parse(&unit_low) {
            Ok(u) => u,
            Err(_) => {
                return Err(SyntaxError);
            },
        };
        proof {
            reveal_strlit("km");
            reveal_strlit("m");
            reveal_strlit("mi");
        }
        let mut arg_order = ArgOrder::UNSPECIFIED;
        let order0 = tok_at(&tokens, 5);
        match check_validate_arg_order(order0, &mut arg_order) {
            Ok(()) => {},
            Err(e) => {
                return Err(e);
            },
        }
        if !crate::util::is_numeric(&arg_radius) {
            return Err(SyntaxError);
        }
        let rad = match parse_radius_nm(&arg_radius, arg_unit) {
            Some(v) => v,
            None => {
                return Err(SyntaxError);
            },
        };
        Ok(
            Command::GeoRadiusByMember(
                GeoRadiusByMemberCmd {
                    arg_key,
                    member: arg_member,
                    arg_radius: rad,
                    arg_unit,
                    arg_order,
                },
            ),
        )
    },
    CmdId::GeoDel => {
        let arg_key = tok_at(&tokens, 1);
        if arg_key.as_str().unicode_len() == 0 {
            return Err(SyntaxError);
        }
        Ok(Command::GeoDel(GeoDelCmd { arg_key }))
    },
    CmdId::GeoRem => {
        let arg_key = tok_at(&tokens, 1);
        if arg_key.as_str().unicode_len() == 0 || tokens.len() <= 2 {
            return Err(SyntaxError);
        }
        Ok(Command::GeoRem(GeoRemoveCmd { arg_key, items: rest_of(&tokens, 2) }))
    },
    CmdId::JSetR => {
        let arg_key = tok_at(&tokens, 1);
        let arg_value = tok_at(&tokens, 2);
        if arg_key.as_str().unicode_len() == 0 || arg_value.as_str().unicode_len() == 0 {
            return Err(SyntaxError);
        }
        Ok(Command::JSetRaw(JSetRawCmd { arg_key, arg_value }))
    },
    CmdId::JSetK => {
        let arg_key = tok_at(&tokens, 1);
        if arg_key.as_str().unicode_len() == 0 {
            return Err(SyntaxError);
        }
        if tokens.len() <= 2 || (tokens.len() - 2) % 2 != 0 {
            return Err(SyntaxError);
        }
        let mut items: Vec<JSetArgItem> = Vec::new();
        let mut i: usize = 2;
        while i < tokens.len() - 1
            invariant
                tokens@.len() >= 2,
                2 <= i <= tokens@.len(),
                (i - 2) % 2 == 0,
                ts == tokens@.map_values(|s: String| s@),
                jset_items_model(items@) + spec_jset_items(ts, i as int) == spec_jset_items(
                    ts,
                    2,
                ),
            decreases tokens@.len() - i,
        {
            let dot_path = tok_at(&tokens, i);
            let value_string = tok_at(&tokens, i + 1);
            let v: Json = if crate::util::is_numeric(&value_string) {
                Json::Num(value_string)
            } else {
                Json::Str(value_string)
            };
            let ghost pre = items@;
            items.push((dot_path, v));
            proof {
                assert(jset_items_model(items@) =~= jset_items_model(pre).push(
                    (tk(ts, i as int), crate::json::jmodel(items@.last().1)),
                ));
                assert(jset_items_model(items@) + spec_jset_items(ts, i + 2) =~= jset_items_model(
                    pre,
                ) + spec_jset_items(ts, i as int));
            }
            i = i + 2;
        }
        proof {
            assert(i == ts.len());
            assert(spec_jset_items(ts, i as int) =~= Seq::<(Seq<char>, JsonModel)>::empty());
            assert(jset_items_model(items@) + Seq::<(Seq<char>, JsonModel)>::empty()
                =~= jset_items_model(items@));
        }
        Ok(Command::JSet(JSetCmd { arg_key, arg_set_items: items }))
    },
    CmdId::JMerge => {
        let arg_key = tok_at(&tokens, 1);
        let arg_value = tok_at(&tokens, 2);
        if arg_key.as_str().unicode_len() == 0 || arg_value.as_str().unicode_len() == 0 {
            return Err(SyntaxError);
        }
        Ok(Command::JMerge(JMergeCmd { arg_key, arg_value }))
    },
    CmdId::JGet => {
        let arg_key = tok_at(&tokens, 1);
        if arg_key.as_str().unicode_len() == 0 {
            return Err(SyntaxError);
        }
        let arg_value = tok_at(&tokens, 2);
        let path = if arg_value.as_str().unicode_len() == 0 {
            None
        } else {
            Some(arg_value)
        };
        Ok(Command::JGet(JGetCmd { arg_key, arg_dot_path: path }))
    },
    CmdId::JPath => {
        let arg_key = tok_at(&tokens, 1);
        let arg_selector = tok_at(&tokens, 2);
        if arg_key.as_str().unicode_len() == 0 || arg_selector.as_str().unicode_len() == 0 {
            return Err(SyntaxError);
        }
        Ok(Command::JPath(JPathCmd { arg_key, arg_selector }))
    },
    CmdId::JDel => {
        let arg_key = tok_at(&tokens, 1);
        if arg_key.as_str().unicode_len() == 0 {
            return Err(SyntaxError);
        }
        Ok(Command::JDel(JDelCmd { arg_key }))
    },
    CmdId::JRem => {
        let arg_key = tok_at(&tokens, 1);
        if arg_key.as_str().unicode_len() == 0 || tokens.len() <= 2 {
            return Err(SyntaxError);
        }
        Ok(Command::JRem(JRemCmd { arg_key, arg_paths: rest_of(&tokens, 2) }))
    },
    CmdId::JIncrBy => {
        let arg_key = tok_at(&tokens, 1);
        let arg_path = tok_at(&tokens, 2);
        let arg_value = tok_at(&tokens, 3);
        if arg_key.as_str().unicode_len() == 0 || arg_path.as_str().unicode_len() == 0
            || arg_value.as_str().unicode_len() == 0 {
            return Err(SyntaxError);
        }
        if !crate::util::is_integer(&arg_value) {
            return Err(SyntaxError);
        }
        let incr = match crate::num::parse_i64_bytes(arg_value.as_str().as_bytes()) {
            Some(v) => v,
            None => {
                return Err(SyntaxError);
            },
        };
        Ok(Command::JIncrBy(JIncrByCmd { arg_key, arg_path, arg_increment_value: incr }))
    },
    CmdId::JIncrByFloat => {
        let arg_key = tok_at(&tokens, 1);
        let arg_path = tok_at(&tokens, 2);
        let arg_value = tok_at(&tokens, 3);
        if arg_key.as_str().unicode_len() == 0 || arg_path.as_str().unicode_len() == 0
            || arg_value.as_str().unicode_len() == 0 {
            return Err(SyntaxError);
        }
        if !crate::util::is_numeric(&arg_value) {
            return Err(SyntaxError);
        }
        match crate::util::parse_scaled_e7(&arg_value) {
            Some(v) => {
                if v == 0 {
                    return Err(SyntaxError);
                }
            },
            None => {
                return Err(SyntaxError);
            },
        }
        Ok(
            Command::JIncrByFloat(
                JIncrByFloatCmd { arg_key, arg_path, arg_increment_value: arg_value },
            ),
        )
    },
    CmdId::Unknown => {
        Err(SyntaxError)
    },
    }
}

/// The value a SET token stores.
fn parse_set_value(arg_value: String) -> (r: Data)
    ensures
        data_model(r) == (if spec_is_integer(encode_utf8(arg_value@)) {
            DataModel::Int(parse_i64(encode_utf8(arg_value@))->0)
        } else {
            DataModel::Str(arg_value@)
        }),
{
    if crate::util::is_integer(&arg_value) {
        match crate::num::parse_i64_bytes(arg_value.as_str().as_bytes()) {
            Some(i) => Data::Int(i),
            None => Data::String(arg_value),
        }
    } else {
        Data::String(arg_value)
    }
}

/// Case-sensitive equality against a literal.
fn streq(a: &String, b: &str) -> (r: bool)
    ensures
        r == (a@ == b@),
{
    crate::utils::str_eq(a.as_str(), b)
}

/// The tokens from `from` on, cloned.
fn rest_of(tokens: &Vec<String>, from: usize) -> (r: Vec<String>)
    requires
        from <= tokens@.len(),
    ensures
        r@.map_values(|s: String| s@) == tokens@.map_values(|s: String| s@).skip(from as int),
{
    let mut out: Vec<String> = Vec::new();
    let mut i: usize = from;
    while i < tokens.len()
        invariant
            from <= i <= tokens@.len(),
            out@.map_values(|s: String| s@) =~= tokens@.map_values(|s: String| s@).subrange(
                from as int,
                i as int,
            ),
        decreases tokens@.len() - i,
    {
        let ghost pre = out@.map_values(|s: String| s@);
        out.push(tokens[i].clone());
        i = i + 1;
        proof {
            assert(out@.map_values(|s: String| s@) =~= pre.push(out@.last()@));
            assert(out@.map_values(|s: String| s@) =~= tokens@.map_values(
                |s: String| s@,
            ).subrange(from as int, i as int));
        }
    }
    proof {
        assert(tokens@.map_values(|s: String| s@).subrange(from as int, tokens@.len() as int)
            =~= tokens@.map_values(|s: String| s@).skip(from as int));
    }
    out
}

} // verus!
