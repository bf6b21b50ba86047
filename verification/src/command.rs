//! Typed commands: the closed command set, its mathematical model, and the
//! compilation pipeline from frames or raw lines to commands.

use vstd::prelude::*;
use crate::db::{Data, DataModel, data_model};
use crate::error::SyntaxError;
use crate::json::{Json, JsonModel, jmodel, jobj_models, jmodels};
use crate::types::Frame;
use crate::unit_conv::Units;

verus! {

/// The order requested for a radius query.
#[derive(Debug, Clone, Copy, PartialEq, Eq, Structural)]
pub enum ArgOrder {
    ASC,
    DESC,
    UNSPECIFIED,
}

/// One geo point argument: latitude and longitude in ten-millionths of a
/// degree, and the member tag.
pub type CmdGeoItem = (i64, i64, String);

/// One dot-path write: the path and the value to store.
pub type JSetArgItem = (String, Json);

pub struct PingCmd;

pub struct AuthCmd {
    pub arg_password: String,
}

pub struct RandomKeyCmd;

pub struct InfoCmd;

pub struct DBSizeCmd;

pub struct SetCmd {
    pub arg_key: String,
    pub arg_value: Data,
    pub arg_exp: u32,
}

pub struct GetSetCmd {
    pub arg_key: String,
    pub arg_value: Data,
}

pub struct GetCmd {
    pub arg_key: String,
}

pub struct DelCmd {
    pub arg_key: String,
}

pub struct PersistCmd {
    pub arg_key: String,
}

pub struct TTLCmd {
    pub arg_key: String,
}

pub struct ExpireCmd {
    pub arg_key: String,
    pub arg_value: i64,
}

pub struct ExpireAtCmd {
    pub arg_key: String,
    pub arg_value: i64,
}

pub struct IncrByCmd {
    pub arg_key: String,
    pub arg_value: i64,
}

pub struct KeysCmd {
    pub pattern: String,
}

pub struct ExistsCmd {
    pub keys: Vec<String>,
}

pub struct GeoAddCmd {
    pub arg_key: String,
    pub items: Vec<CmdGeoItem>,
}

pub struct GeoHashCmd {
    pub arg_key: String,
    pub items: Vec<String>,
}

pub struct GeoPosCmd {
    pub arg_key: String,
    pub items: Vec<String>,
}

pub struct GeoJsonCmd {
    pub arg_key: String,
    pub items: Vec<String>,
}

pub struct GeoRemoveCmd {
    pub arg_key: String,
    pub items: Vec<String>,
}

pub struct GeoDelCmd {
    pub arg_key: String,
}

pub struct GeoRadiusCmd {
    pub arg_key: String,
    pub arg_lng: i64,
    pub arg_lat: i64,
    /// The radius in nanometers.
    pub arg_radius: i64,
    pub arg_unit: Units,
    pub arg_order: ArgOrder,
}

pub struct GeoRadiusByMemberCmd {
    pub arg_key: String,
    pub member: String,
    /// The radius in nanometers.
    pub arg_radius: i64,
    pub arg_unit: Units,
    pub arg_order: ArgOrder,
}

pub struct GeoDistCmd {
    pub arg_key: String,
    pub arg_mem_1: String,
    pub arg_mem_2: String,
    pub arg_unit: Units,
}

pub struct JSetRawCmd {
    pub arg_key: String,
    pub arg_value: String,
}

pub struct JSetCmd {
    pub arg_key: String,
    pub arg_set_items: Vec<JSetArgItem>,
}

pub struct JMergeCmd {
    pub arg_key: String,
    pub arg_value: String,
}

pub struct JGetCmd {
    pub arg_key: String,
    pub arg_dot_path: Option<String>,
}

pub struct JPathCmd {
    pub arg_key: String,
    pub arg_selector: String,
}

pub struct JDelCmd {
    pub arg_key: String,
}

pub struct JRemCmd {
    pub arg_key: String,
    pub arg_paths: Vec<String>,
}

pub struct JIncrByCmd {
    pub arg_key: String,
    pub arg_path: String,
    pub arg_increment_value: i64,
}

pub struct JIncrByFloatCmd {
    pub arg_key: String,
    pub arg_path: String,
    /// The increment as its decimal literal.
    pub arg_increment_value: String,
}

/// The closed command set: a tagged variant per command, so dispatch is a
/// match and the apply path carries no trait objects.
pub enum Command {
    Ping(PingCmd),
    Auth(AuthCmd),
    RandomKey(RandomKeyCmd),
    Info(InfoCmd),
    DBSize(DBSizeCmd),
    SetKey(SetCmd),
    GetSet(GetSetCmd),
    Get(GetCmd),
    Del(DelCmd),
    Persist(PersistCmd),
    Ttl(TTLCmd),
    Expire(ExpireCmd),
    ExpireAt(ExpireAtCmd),
    IncrBy(IncrByCmd),
    Keys(KeysCmd),
    Exists(ExistsCmd),
    GeoAdd(GeoAddCmd),
    GeoHash(GeoHashCmd),
    GeoPos(GeoPosCmd),
    GeoJson(GeoJsonCmd),
    GeoRem(GeoRemoveCmd),
    GeoDel(GeoDelCmd),
    GeoRadius(GeoRadiusCmd),
    GeoRadiusByMember(GeoRadiusByMemberCmd),
    GeoDist(GeoDistCmd),
    JSetRaw(JSetRawCmd),
    JSet(JSetCmd),
    JMerge(JMergeCmd),
    JGet(JGetCmd),
    JPath(JPathCmd),
    JDel(JDelCmd),
    JRem(JRemCmd),
    JIncrBy(JIncrByCmd),
    JIncrByFloat(JIncrByFloatCmd),
}

/// Whether a command can change the store: exactly these go through the
/// replicated log; reads are answered from the local state.
pub open spec fn spec_is_mutation(c: Command) -> bool {
    match c {
        Command::SetKey(_) => true,
        Command::GetSet(_) => true,
        Command::Del(_) => true,
        Command::Persist(_) => true,
        Command::Expire(_) => true,
        Command::ExpireAt(_) => true,
        Command::IncrBy(_) => true,
        Command::GeoAdd(_) => true,
        Command::GeoRem(_) => true,
        Command::GeoDel(_) => true,
        Command::JSetRaw(_) => true,
        Command::JSet(_) => true,
        Command::JMerge(_) => true,
        Command::JDel(_) => true,
        Command::JRem(_) => true,
        Command::JIncrBy(_) => true,
        Command::JIncrByFloat(_) => true,
        _ => false,
    }
}

/// Runtime form of `spec_is_mutation`.
pub fn is_mutation(c: &Command) -> (r: bool)
    ensures
        r == spec_is_mutation(*c),
{
    match *c {
        Command::SetKey(_) => true,
        Command::GetSet(_) => true,
        Command::Del(_) => true,
        Command::Persist(_) => true,
        Command::Expire(_) => true,
        Command::ExpireAt(_) => true,
        Command::IncrBy(_) => true,
        Command::GeoAdd(_) => true,
        Command::GeoRem(_) => true,
        Command::GeoDel(_) => true,
        Command::JSetRaw(_) => true,
        Command::JSet(_) => true,
        Command::JMerge(_) => true,
        Command::JDel(_) => true,
        Command::JRem(_) => true,
        Command::JIncrBy(_) => true,
        Command::JIncrByFloat(_) => true,
        _ => false,
    }
}

/// The mathematical shape of a command.
pub enum CommandModel {
    Ping,
    Auth { password: Seq<char> },
    RandomKey,
    Info,
    DBSize,
    SetKey { key: Seq<char>, value: DataModel, exp: u32 },
    GetSet { key: Seq<char>, value: DataModel },
    Get { key: Seq<char> },
    Del { key: Seq<char> },
    Persist { key: Seq<char> },
    Ttl { key: Seq<char> },
    Expire { key: Seq<char>, secs: i64 },
    ExpireAt { key: Seq<char>, ts: i64 },
    IncrBy { key: Seq<char>, delta: i64 },
    Keys { pattern: Seq<char> },
    Exists { keys: Seq<Seq<char>> },
    GeoAdd { key: Seq<char>, items: Seq<(i64, i64, Seq<char>)> },
    GeoHash { key: Seq<char>, items: Seq<Seq<char>> },
    GeoPos { key: Seq<char>, items: Seq<Seq<char>> },
    GeoJson { key: Seq<char>, items: Seq<Seq<char>> },
    GeoRem { key: Seq<char>, items: Seq<Seq<char>> },
    GeoDel { key: Seq<char> },
    GeoRadius { key: Seq<char>, lng: i64, lat: i64, radius: i64, unit: Units, order: ArgOrder },
    GeoRadiusByMember {
        key: Seq<char>,
        member: Seq<char>,
        radius: i64,
        unit: Units,
        order: ArgOrder,
    },
    GeoDist { key: Seq<char>, m1: Seq<char>, m2: Seq<char>, unit: Units },
    JSetRaw { key: Seq<char>, value: Seq<char> },
    JSet { key: Seq<char>, items: Seq<(Seq<char>, JsonModel)> },
    JMerge { key: Seq<char>, value: Seq<char> },
    JGet { key: Seq<char>, path: Option<Seq<char>> },
    JPath { key: Seq<char>, selector: Seq<char> },
    JDel { key: Seq<char> },
    JRem { key: Seq<char>, paths: Seq<Seq<char>> },
    JIncrBy { key: Seq<char>, path: Seq<char>, delta: i64 },
    JIncrByFloat { key: Seq<char>, path: Seq<char>, delta: Seq<char> },
}

pub open spec fn strings_views(v: Seq<String>) -> Seq<Seq<char>> {
    v.map_values(|s: String| s@)
}

pub open spec fn geo_items_model(v: Seq<CmdGeoItem>) -> Seq<(i64, i64, Seq<char>)> {
    v.map_values(|it: CmdGeoItem| (it.0, it.1, it.2@))
}

pub open spec fn jset_items_model(v: Seq<JSetArgItem>) -> Seq<(Seq<char>, JsonModel)> {
    v.map_values(|it: JSetArgItem| (it.0@, jmodel(it.1)))
}

/// The shape of a command value.
pub open spec fn command_model(c: Command) -> CommandModel {
    match c {
        Command::Ping(_) => CommandModel::Ping,
        Command::Auth(a) => CommandModel::Auth { password: a.arg_password@ },
        Command::RandomKey(_) => CommandModel::RandomKey,
        Command::Info(_) => CommandModel::Info,
        Command::DBSize(_) => CommandModel::DBSize,
        Command::SetKey(s) => CommandModel::SetKey {
            key: s.arg_key@,
            value: data_model(s.arg_value),
            exp: s.arg_exp,
        },
        Command::GetSet(s) => CommandModel::GetSet {
            key: s.arg_key@,
            value: data_model(s.arg_value),
        },
        Command::Get(s) => CommandModel::Get { key: s.arg_key@ },
        Command::Del(s) => CommandModel::Del { key: s.arg_key@ },
        Command::Persist(s) => CommandModel::Persist { key: s.arg_key@ },
        Command::Ttl(s) => CommandModel::Ttl { key: s.arg_key@ },
        Command::Expire(s) => CommandModel::Expire { key: s.arg_key@, secs: s.arg_value },
        Command::ExpireAt(s) => CommandModel::ExpireAt { key: s.arg_key@, ts: s.arg_value },
        Command::IncrBy(s) => CommandModel::IncrBy { key: s.arg_key@, delta: s.arg_value },
        Command::Keys(s) => CommandModel::Keys { pattern: s.pattern@ },
        Command::Exists(s) => CommandModel::Exists { keys: strings_views(s.keys@) },
        Command::GeoAdd(s) => CommandModel::GeoAdd {
            key: s.arg_key@,
            items: geo_items_model(s.items@),
        },
        Command::GeoHash(s) => CommandModel::GeoHash {
            key: s.arg_key@,
            items: strings_views(s.items@),
        },
        Command::GeoPos(s) => CommandModel::GeoPos {
            key: s.arg_key@,
            items: strings_views(s.items@),
        },
        Command::GeoJson(s) => CommandModel::GeoJson {
            key: s.arg_key@,
            items: strings_views(s.items@),
        },
        Command::GeoRem(s) => CommandModel::GeoRem {
            key: s.arg_key@,
            items: strings_views(s.items@),
        },
        Command::GeoDel(s) => CommandModel::GeoDel { key: s.arg_key@ },
        Command::GeoRadius(s) => CommandModel::GeoRadius {
            key: s.arg_key@,
            lng: s.arg_lng,
            lat: s.arg_lat,
            radius: s.arg_radius,
            unit: s.arg_unit,
            order: s.arg_order,
        },
        Command::GeoRadiusByMember(s) => CommandModel::GeoRadiusByMember {
            key: s.arg_key@,
            member: s.member@,
            radius: s.arg_radius,
            unit: s.arg_unit,
            order: s.arg_order,
        },
        Command::GeoDist(s) => CommandModel::GeoDist {
            key: s.arg_key@,
            m1: s.arg_mem_1@,
            m2: s.arg_mem_2@,
            unit: s.arg_unit,
        },
        Command::JSetRaw(s) => CommandModel::JSetRaw { key: s.arg_key@, value: s.arg_value@ },
        Command::JSet(s) => CommandModel::JSet {
            key: s.arg_key@,
            items: jset_items_model(s.arg_set_items@),
        },
        Command::JMerge(s) => CommandModel::JMerge { key: s.arg_key@, value: s.arg_value@ },
        Command::JGet(s) => CommandModel::JGet {
            key: s.arg_key@,
            path: match s.arg_dot_path {
                Some(p) => Some(p@),
                None => None,
            },
        },
        Command::JPath(s) => CommandModel::JPath { key: s.arg_key@, selector: s.arg_selector@ },
        Command::JDel(s) => CommandModel::JDel { key: s.arg_key@ },
        Command::JRem(s) => CommandModel::JRem { key: s.arg_key@, paths: strings_views(
            s.arg_paths@,
        ) },
        Command::JIncrBy(s) => CommandModel::JIncrBy {
            key: s.arg_key@,
            path: s.arg_path@,
            delta: s.arg_increment_value,
        },
        Command::JIncrByFloat(s) => CommandModel::JIncrByFloat {
            key: s.arg_key@,
            path: s.arg_path@,
            delta: s.arg_increment_value@,
        },
    }
}

/// Compiles a frame into a command.
pub fn compile_frame(frame: Frame) -> (r: Result<Command, SyntaxError>)
    ensures
        ({
            let toks = match crate::decode::frame_model(frame) {
                crate::decode::FrameModel::Arr(ms) => crate::tokenizer::tokens_of_models(ms),
                _ => Seq::<Seq<char>>::empty(),
            };
            match crate::analyzer::spec_analyse(toks) {
                Some(cm) => r matches Ok(c) && command_model(c) == cm,
                None => r is Err,
            }
        }),
{
    let tokens = crate::tokenizer::generate_token_from_frame(frame);
    proof {
        if !(frame is Array) {
            assert(tokens@.map_values(|s: String| s@) =~= Seq::<Seq<char>>::empty());
        }
    }
    crate::analyzer::analyse_token_stream(tokens)
}

/// The token stream a buffer compiles through: a RESP array's tokens when
/// the buffer opens like a frame, the text line's tokens otherwise (one
/// trailing CRLF stripped).
pub open spec fn compile_tokens(buf: Seq<u8>) -> Seq<Seq<char>> {
    if buf[0] == 42 || buf[0] == 36 || buf[0] == 43 {
        match crate::decode::spec_parse(buf) {
            crate::decode::SpecParse::Done(m, _) => match m {
                crate::decode::FrameModel::Arr(ms) => crate::tokenizer::tokens_of_models(ms),
                _ => Seq::<Seq<char>>::empty(),
            },
            _ => Seq::<Seq<char>>::empty(),
        }
    } else {
        let line = if buf.len() >= 2 && buf[buf.len() - 2] == 13 && buf[buf.len() - 1] == 10 {
            buf.take(buf.len() - 2)
        } else {
            buf
        };
        crate::parser::spec_parse_raw(line).map_values(
            |t: Seq<u8>| crate::parser::token_text(t),
        )
    }
}

/// Compiles a buffer: a RESP frame when it opens like one, a raw text line
/// otherwise. The two forms of one command meet in the same token stream,
/// so they compile to the same command object.
pub fn compile(buf: &[u8]) -> (r: Result<Command, SyntaxError>)
    requires
        buf@.len() > 0,
    ensures
        match crate::analyzer::spec_analyse(compile_tokens(buf@)) {
            Some(cm) => r matches Ok(c) && command_model(c) == cm,
            None => r is Err,
        },
{
    let first = buf[0];
    if first == 42 || first == 36 || first == 43 {
        compile_resp(buf)
    } else {
        compile_raw(buf)
    }
}

/// Compiles a raw text line, stripping one trailing CRLF when present.
pub fn compile_raw(cmd: &[u8]) -> (r: Result<Command, SyntaxError>)
    ensures
        ({
            let line = if cmd@.len() >= 2 && cmd@[cmd@.len() - 2] == 13 && cmd@[cmd@.len() - 1]
                == 10 {
                cmd@.take(cmd@.len() - 2)
            } else {
                cmd@
            };
            let toks = crate::parser::spec_parse_raw(line).map_values(
                |t: Seq<u8>| crate::parser::token_text(t),
            );
            match crate::analyzer::spec_analyse(toks) {
                Some(cm) => r matches Ok(c) && command_model(c) == cm,
                None => r is Err,
            }
        }),
{
    let n = cmd.len();
    let tokens = if n >= 2 && cmd[n - 2] == 13 && cmd[n - 1] == 10 {
        let trimmed = vstd::slice::slice_subrange(cmd, 0, n - 2);
        proof {
            assert(trimmed@ =~= cmd@.take(cmd@.len() - 2));
        }
        crate::tokenizer::generate_tokens(trimmed)
    } else {
        crate::tokenizer::generate_tokens(cmd)
    };
    proof {
        assert(tokens@.map_values(|s: String| s@) =~= crate::parser::spec_parse_raw(
            if cmd@.len() >= 2 && cmd@[cmd@.len() - 2] == 13 && cmd@[cmd@.len() - 1] == 10 {
                cmd@.take(cmd@.len() - 2)
            } else {
                cmd@
            },
        ).map_values(|t: Seq<u8>| crate::parser::token_text(t)));
    }
    crate::analyzer::analyse_token_stream(tokens)
}

/// Compiles a RESP-encoded buffer.
pub fn compile_resp(buf: &[u8]) -> (r: Result<Command, SyntaxError>)
    ensures
        ({
            let toks = match crate::decode::spec_parse(buf@) {
                crate::decode::SpecParse::Done(m, _) => match m {
                    crate::decode::FrameModel::Arr(ms) => crate::tokenizer::tokens_of_models(ms),
                    _ => Seq::<Seq<char>>::empty(),
                },
                _ => Seq::<Seq<char>>::empty(),
            };
            match crate::analyzer::spec_analyse(toks) {
                Some(cm) => r matches Ok(c) && command_model(c) == cm,
                None => r is Err,
            }
        }),
{
    let tokens = crate::tokenizer::generate_tokens_from_resp(buf);
    proof {
        match crate::decode::spec_parse(buf@) {
            crate::decode::SpecParse::Done(m, _) => {
                if !(m is Arr) {
                    assert(tokens@.map_values(|s: String| s@) =~= Seq::<Seq<char>>::empty());
                }
            },
            _ => {
                assert(tokens@.map_values(|s: String| s@) =~= Seq::<Seq<char>>::empty());
            },
        }
    }
    crate::analyzer::analyse_token_stream(tokens)
}

/// Per-connection session state: the configured password, whether clients
/// must authenticate, and whether this session has.
pub struct Context {
    pub client_addr: String,
    pub auth_is_required: bool,
    pub auth_key: Option<String>,
    pub client_authenticated: bool,
    pub client_auth_key: Option<String>,
}

/// Whether the session passes the authentication gate: authentication is
/// off, or the client's key matches the configured one.
pub open spec fn spec_auth_ok(ctx: Context) -> bool {
    ||| !ctx.auth_is_required
    ||| (ctx.auth_key matches Some(k) && ctx.client_auth_key matches Some(c) && k@ == c@)
}

/// The authentication gate: a command's work runs only when the session
/// passes; otherwise the auth error is returned and nothing runs.
pub fn auth_ok(context: &mut Context) -> (r: bool)
    ensures
        r == spec_auth_ok(*old(context)),
        final(context).auth_is_required == old(context).auth_is_required,
        final(context).auth_key == old(context).auth_key,
        final(context).client_auth_key == old(context).client_auth_key,
        final(context).client_addr == old(context).client_addr,
        old(context).auth_is_required ==> final(context).client_authenticated == r,
        !old(context).auth_is_required ==> final(context).client_authenticated == old(
            context,
        ).client_authenticated,
{
    if !context.auth_is_required {
        return true;
    }
    let ok = match (&context.auth_key, &context.client_auth_key) {
        (Some(k), Some(c)) => crate::utils::str_eq(k.as_str(), c.as_str()),
        _ => false,
    };
    context.client_authenticated = ok;
    ok
}

} // verus!
