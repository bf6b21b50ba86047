//! The RESP frame type and its companions: frame kinds, protocol errors,
//! and cluster redirection messages.

use vstd::prelude::*;
use vstd::utf8::{decode_utf8, encode_utf8, valid_utf8};
use crate::text::{bytes_as_str, bytes_eq, push_char, push_u64_dec, dec_chars};
use crate::num::parse_i64;

verus! {

pub const SIMPLESTRING_BYTE: u8 = 43;

pub const ERROR_BYTE: u8 = 45;

pub const INTEGER_BYTE: u8 = 58;

pub const BULKSTRING_BYTE: u8 = 36;

pub const ARRAY_BYTE: u8 = 42;

#[derive(Clone, Debug, Eq, PartialEq)]
pub enum RedisProtocolErrorKind {
    /// An error that occurred while encoding data.
    EncodeError,
    /// The provided buffer needs to be extended by the inner `usize` bytes
    /// before encoding can continue.
    BufferTooSmall(usize),
    /// An error that occurred while decoding data.
    DecodeError,
    /// An unknown error, or one that can occur during encoding or decoding.
    Unknown,
}

impl RedisProtocolErrorKind {
    pub fn to_str(&self) -> (r: &'static str)
        ensures
            r@ == match *self {
                RedisProtocolErrorKind::EncodeError => "Encode Error"@,
                RedisProtocolErrorKind::DecodeError => "Decode Error"@,
                RedisProtocolErrorKind::Unknown => "Unknown Error"@,
                RedisProtocolErrorKind::BufferTooSmall(_) => "Buffer too small"@,
            },
    {
        match *self {
            RedisProtocolErrorKind::EncodeError => "Encode Error",
            RedisProtocolErrorKind::DecodeError => "Decode Error",
            RedisProtocolErrorKind::Unknown => "Unknown Error",
            RedisProtocolErrorKind::BufferTooSmall(_) => "Buffer too small",
        }
    }
}

#[derive(Clone, Debug, Eq, PartialEq)]
pub struct RedisProtocolError {
    desc: String,
    kind: RedisProtocolErrorKind,
    context: Option<Vec<u8>>,
}

impl RedisProtocolError {
    pub closed spec fn spec_kind(&self) -> RedisProtocolErrorKind {
        self.kind
    }

    pub closed spec fn spec_desc(&self) -> Seq<char> {
        self.desc@
    }

    pub closed spec fn spec_context(&self) -> Option<Seq<u8>> {
        match self.context {
            Some(c) => Some(c@),
            None => None,
        }
    }

    pub fn new(kind: RedisProtocolErrorKind, desc: &str) -> (r: Self)
        ensures
            r.spec_kind() == kind,
            r.spec_desc() == desc@,
    {
        RedisProtocolError { kind, desc: desc.to_owned(), context: None }
    }

    pub fn new_empty() -> (r: Self)
        ensures
            r.spec_kind() == RedisProtocolErrorKind::Unknown,
            r.spec_desc() == Seq::<char>::empty(),
    {
        RedisProtocolError { kind: RedisProtocolErrorKind::Unknown, desc: String::new(), context: None }
    }

    /// The error rendered as "<kind>: <description>".
    pub fn to_string(&self) -> (r: String)
        ensures
            r@ == match self.spec_kind() {
                RedisProtocolErrorKind::EncodeError => "Encode Error"@,
                RedisProtocolErrorKind::DecodeError => "Decode Error"@,
                RedisProtocolErrorKind::Unknown => "Unknown Error"@,
                RedisProtocolErrorKind::BufferTooSmall(_) => "Buffer too small"@,
            } + ": "@ + self.spec_desc(),
    {
        let mut out = self.kind.to_str().to_owned();
        out.append(": ");
        out.append(self.desc.as_str());
        out
    }

    pub fn description(&self) -> (r: &str)
        ensures
            r@ == self.spec_desc(),
    {
        self.desc.as_str()
    }

    pub fn kind(&self) -> (r: &RedisProtocolErrorKind)
        ensures
            *r == self.spec_kind(),
    {
        &self.kind
    }

    /// The underlying data on which the encoding or decoding error occurred.
    pub fn context(&self) -> (r: Option<&[u8]>)
        ensures
            match self.spec_context() {
                Some(c) => r matches Some(s) && s@ == c,
                None => r is None,
            },
    {
        match self.context {
            Some(ref c) => Some(c.as_slice()),
            None => None,
        }
    }
}

/// A cluster redirection message.
#[derive(Clone, Debug, Eq, PartialEq)]
pub enum Redirection {
    Moved { slot: u16, host: String, port: u16 },
    Ask { slot: u16, host: String, port: u16 },
}

/// The kind of a frame, without references to any inner data.
#[derive(Clone, Debug, Eq, PartialEq)]
pub enum FrameKind {
    SimpleString,
    Error,
    Integer,
    BulkString,
    Array,
    Moved,
    Ask,
    Null,
}

impl FrameKind {
    pub fn from_byte(d: u8) -> (r: Option<FrameKind>)
        ensures
            r == match d {
                SIMPLESTRING_BYTE => Some(FrameKind::SimpleString),
                ERROR_BYTE => Some(FrameKind::Error),
                INTEGER_BYTE => Some(FrameKind::Integer),
                BULKSTRING_BYTE => Some(FrameKind::BulkString),
                ARRAY_BYTE => Some(FrameKind::Array),
                _ => None::<FrameKind>,
            },
    {
        match d {
            SIMPLESTRING_BYTE => Some(FrameKind::SimpleString),
            ERROR_BYTE => Some(FrameKind::Error),
            INTEGER_BYTE => Some(FrameKind::Integer),
            BULKSTRING_BYTE => Some(FrameKind::BulkString),
            ARRAY_BYTE => Some(FrameKind::Array),
            _ => None,
        }
    }

    pub fn to_byte(&self) -> (r: u8)
        ensures
            r == match *self {
                FrameKind::SimpleString => SIMPLESTRING_BYTE,
                FrameKind::Error | FrameKind::Moved | FrameKind::Ask => ERROR_BYTE,
                FrameKind::Integer => INTEGER_BYTE,
                FrameKind::BulkString | FrameKind::Null => BULKSTRING_BYTE,
                FrameKind::Array => ARRAY_BYTE,
            },
    {
        match *self {
            FrameKind::SimpleString => SIMPLESTRING_BYTE,
            FrameKind::Error | FrameKind::Moved | FrameKind::Ask => ERROR_BYTE,
            FrameKind::Integer => INTEGER_BYTE,
            FrameKind::BulkString | FrameKind::Null => BULKSTRING_BYTE,
            FrameKind::Array => ARRAY_BYTE,
        }
    }
}

/// A frame of data. Frames are recursively defined to account for arrays.
#[derive(Debug, Eq, PartialEq)]
pub enum Frame {
    SimpleString(String),
    Error(String),
    Integer(i64),
    BulkString(Vec<u8>),
    Array(Vec<Frame>),
    Moved(String),
    Ask(String),
    Null,
}

/// The text a frame carries, where it carries any that `to_string` returns:
/// the inner string of a simple string, or a bulk string's bytes decoded as
/// UTF-8.
pub open spec fn frame_text(f: Frame) -> Option<Seq<char>> {
    match f {
        Frame::SimpleString(s) => Some(s@),
        Frame::BulkString(b) => if valid_utf8(b@) {
            Some(decode_utf8(b@))
        } else {
            None
        },
        _ => None,
    }
}

/// A publish-subscribe message on a plain channel subscription.
pub open spec fn spec_is_normal_pubsub(frames: Seq<Frame>) -> bool {
    &&& frames.len() == 3
    &&& frames[0] matches Frame::BulkString(b)
    &&& frames[0]->BulkString_0@ == encode_utf8("message"@)
}

/// A publish-subscribe message matched against a pattern subscription.
pub open spec fn spec_is_pattern_pubsub(frames: Seq<Frame>) -> bool {
    &&& frames.len() == 4
    &&& frames[0] matches Frame::BulkString(b)
    &&& frames[0]->BulkString_0@ == encode_utf8("pmessage"@)
}

pub open spec fn spec_is_pubsub(f: Frame) -> bool {
    f matches Frame::Array(frames) && (spec_is_normal_pubsub(frames@) || spec_is_pattern_pubsub(
        frames@,
    ))
}

impl Frame {
    pub open spec fn spec_kind(&self) -> FrameKind {
        match *self {
            Frame::SimpleString(_) => FrameKind::SimpleString,
            Frame::Error(_) => FrameKind::Error,
            Frame::Integer(_) => FrameKind::Integer,
            Frame::BulkString(_) => FrameKind::BulkString,
            Frame::Array(_) => FrameKind::Array,
            Frame::Moved(_) => FrameKind::Moved,
            Frame::Ask(_) => FrameKind::Ask,
            Frame::Null => FrameKind::Null,
        }
    }

    /// Whether or not the frame is an error.
    pub fn is_error(&self) -> (r: bool)
        ensures
            r == (*self is Error || *self is Moved || *self is Ask),
    {
        match *self {
            Frame::Error(_) | Frame::Moved(_) | Frame::Ask(_) => true,
            _ => false,
        }
    }

    /// Whether the frame is a message on a publish-subscribe channel.
    pub fn is_pubsub_message(&self) -> (r: bool)
        ensures
            r == spec_is_pubsub(*self),
    {
        if let Frame::Array(ref frames) = *self {
            crate::utils::is_normal_pubsub(frames) || crate::utils::is_pattern_pubsub(frames)
        } else {
            false
        }
    }

    /// Whether the frame is a pattern-matched publish-subscribe message.
    pub fn is_pattern_pubsub_message(&self) -> (r: bool)
        ensures
            r == (*self matches Frame::Array(frames) && spec_is_pattern_pubsub(frames@)),
    {
        if let Frame::Array(ref frames) = *self {
            crate::utils::is_pattern_pubsub(frames)
        } else {
            false
        }
    }

    /// The `FrameKind` value for this frame.
    pub fn kind(&self) -> (r: FrameKind)
        ensures
            r == self.spec_kind(),
    {
        match *self {
            Frame::SimpleString(_) => FrameKind::SimpleString,
            Frame::Error(_) => FrameKind::Error,
            Frame::Integer(_) => FrameKind::Integer,
            Frame::BulkString(_) => FrameKind::BulkString,
            Frame::Array(_) => FrameKind::Array,
            Frame::Moved(_) => FrameKind::Moved,
            Frame::Ask(_) => FrameKind::Ask,
            Frame::Null => FrameKind::Null,
        }
    }

    /// The frame value as a string slice: the text of a simple string,
    /// error, or UTF-8 bulk string.
    pub fn as_str(&self) -> (r: Option<&str>)
        ensures
            match *self {
                Frame::BulkString(b) => if valid_utf8(b@) {
                    r matches Some(s) && s@ == decode_utf8(b@)
                } else {
                    r is None
                },
                Frame::SimpleString(s) => r matches Some(t) && t@ == s@,
                Frame::Error(s) => r matches Some(t) && t@ == s@,
                _ => r is None,
            },
    {
        match *self {
            Frame::BulkString(ref b) => bytes_as_str(b.as_slice()),
            Frame::SimpleString(ref s) => Some(s.as_str()),
            Frame::Error(ref s) => Some(s.as_str()),
            _ => None,
        }
    }

    /// Whether the frame is a simple string or bulk string.
    pub fn is_string(&self) -> (r: bool)
        ensures
            r == (*self is SimpleString || *self is BulkString),
    {
        match *self {
            Frame::SimpleString(_) | Frame::BulkString(_) => true,
            _ => false,
        }
    }

    /// Whether the frame is Null.
    pub fn is_null(&self) -> (r: bool)
        ensures
            r == (*self is Null),
    {
        match *self {
            Frame::Null => true,
            _ => false,
        }
    }

    /// Whether the frame is an array of frames.
    pub fn is_array(&self) -> (r: bool)
        ensures
            r == (*self is Array),
    {
        match *self {
            Frame::Array(_) => true,
            _ => false,
        }
    }

    /// Whether the frame is an integer.
    pub fn is_integer(&self) -> (r: bool)
        ensures
            r == (*self is Integer),
    {
        match *self {
            Frame::Integer(_) => true,
            _ => false,
        }
    }

    /// Whether the frame is a Moved or Ask error.
    pub fn is_moved_or_ask_error(&self) -> (r: bool)
        ensures
            r == (*self is Moved || *self is Ask),
    {
        match *self {
            Frame::Moved(_) | Frame::Ask(_) => true,
            _ => false,
        }
    }

    /// Copies and reads the inner value as a string, if possible.
    pub fn to_string(&self) -> (r: Option<String>)
        ensures
            match frame_text(*self) {
                Some(t) => r matches Some(s) && s@ == t,
                None => r is None,
            },
    {
        match *self {
            Frame::SimpleString(ref s) => Some(s.clone()),
            Frame::BulkString(ref b) => crate::text::bytes_to_string(b),
            _ => None,
        }
    }

    /// Parses the frame as a publish-subscribe message, returning the
    /// `(channel, message)` pair, or the frame itself if it is no
    /// publish-subscribe message.
    pub fn parse_as_pubsub(self) -> (r: Result<(String, String), Self>)
        requires
            spec_is_pubsub(self) ==> {
                let frames = self->Array_0@;
                frame_text(frames[frames.len() - 2]) is Some && frame_text(
                    frames[frames.len() - 1],
                ) is Some
            },
        ensures
            spec_is_pubsub(self) ==> ({
                let frames = self->Array_0@;
                r matches Ok((channel, message)) && Some(channel@) == frame_text(
                    frames[frames.len() - 2],
                ) && Some(message@) == frame_text(frames[frames.len() - 1])
            }),
            !spec_is_pubsub(self) ==> (r matches Err(f) && f == self),
    {
        if self.is_pubsub_message() {
            match self {
                Frame::Array(mut frames) => {
                    let message = frames.pop().unwrap();
                    let channel = frames.pop().unwrap();
                    let message = message.to_string().unwrap();
                    let channel = channel.to_string().unwrap();
                    Ok((channel, message))
                },
                other => unreached(),
            }
        } else {
            Err(self)
        }
    }

    /// Parses the frame as a cluster redirection.
    pub fn to_redirection(&self) -> (r: Result<Redirection, RedisProtocolError>)
        ensures
            match *self {
                Frame::Moved(s) => redirection_result_matches(r, s@),
                Frame::Ask(s) => redirection_result_matches(r, s@),
                Frame::Error(s) => redirection_result_matches(r, s@),
                _ => r is Err,
            },
    {
        match *self {
            Frame::Moved(ref s) => crate::utils::string_to_redirection(s.as_str()),
            Frame::Ask(ref s) => crate::utils::string_to_redirection(s.as_str()),
            Frame::Error(ref s) => crate::utils::string_to_redirection(s.as_str()),
            _ => Err(
                RedisProtocolError::new(
                    RedisProtocolErrorKind::Unknown,
                    "Invalid frame kind. Expected Moved, Ask, or Error.",
                ),
            ),
        }
    }
}

/// What a well-formed redirection text denotes: whether it moves (or asks),
/// its slot, host, and port.
pub open spec fn spec_redirection(s: Seq<char>) -> Option<(bool, u16, Seq<char>, u16)> {
    if count_char(s, ' ') == 2 {
        let i = find_char(s, ' ');
        let rest = s.skip(i + 1);
        let j = find_char(rest, ' ');
        let part0 = s.take(i);
        let part1 = rest.take(j);
        let part2 = rest.skip(j + 1);
        if part0 == "MOVED"@ || part0 == "ASK"@ {
            match spec_parse_u16(part1) {
                Some(slot) => if count_char(part2, ':') == 1 {
                    let k = find_char(part2, ':');
                    let host = part2.take(k);
                    let ports = part2.skip(k + 1);
                    match spec_parse_u16(ports) {
                        Some(port) => Some((part0 == "MOVED"@, slot, host, port)),
                        None => None,
                    }
                } else {
                    None
                },
                None => None,
            }
        } else {
            None
        }
    } else {
        None
    }
}

pub open spec fn redirection_result_matches(
    r: Result<Redirection, RedisProtocolError>,
    s: Seq<char>,
) -> bool {
    match spec_redirection(s) {
        Some((moved, slot, host, port)) => if moved {
            r matches Ok(Redirection::Moved { slot: sl, host: h, port: p }) && sl == slot && h@
                == host && p == port
        } else {
            r matches Ok(Redirection::Ask { slot: sl, host: h, port: p }) && sl == slot && h@
                == host && p == port
        },
        None => r is Err,
    }
}

/// The number of occurrences of `c` in `s`.
pub open spec fn count_char(s: Seq<char>, c: char) -> nat
    decreases s.len(),
{
    if s.len() == 0 {
        0
    } else {
        count_char(s.drop_last(), c) + (if s.last() == c {
            1nat
        } else {
            0nat
        })
    }
}

/// The index of the first occurrence of `c` in `s`, or the length if absent.
pub open spec fn find_char(s: Seq<char>, c: char) -> int
    decreases s.len(),
{
    if s.len() == 0 {
        0
    } else if s[0] == c {
        0
    } else {
        1 + find_char(s.drop_first(), c)
    }
}

/// What `str::parse::<u16>` accepts: an optional leading plus, then digits,
/// value at most 65535.
pub open spec fn spec_parse_u16(s: Seq<char>) -> Option<u16> {
    let bytes = encode_utf8(s);
    if bytes.len() > 0 && bytes[0] == 45 {
        None
    } else {
        match parse_i64(bytes) {
            Some(v) => if 0 <= v <= 65535 {
                Some(v as u16)
            } else {
                None
            },
            None => None,
        }
    }
}

impl From<Redirection> for Frame {
    fn from(redirection: Redirection) -> (r: Frame) {
        match redirection {
            Redirection::Moved { slot, host, port } => Frame::Moved(
                crate::utils::redirection_to_frame("MOVED", slot, host.as_str(), port),
            ),
            Redirection::Ask { slot, host, port } => Frame::Ask(
                crate::utils::redirection_to_frame("ASK", slot, host.as_str(), port),
            ),
        }
    }
}

// A `String` value cannot be assembled in specification code, so the exact
// frame `from` builds is not statable here; `redirection_to_frame` carries
// the precise contract for the rendered text.
impl vstd::std_specs::convert::FromSpecImpl<Redirection> for Frame {
    open spec fn obeys_from_spec() -> bool {
        false
    }

    open spec fn from_spec(redirection: Redirection) -> Frame {
        Frame::Null
    }
}

} // verus!
