//! The wire form of frames, sizes of encodings, publish-subscribe checks,
//! cluster redirections, and key slots.

use vstd::prelude::*;
use vstd::utf8::{decode_utf8, encode_utf8, valid_utf8};
use vstd::string::StringSliceAdditionalSpecFns;
use crate::num::{dec_rep, dec_rep_i64, lemma_dec_rep_len_bound};
use crate::text::{bytes_eq, dec_chars, push_char, push_u64_dec};
use crate::types::{
    count_char, find_char, frame_text, spec_is_normal_pubsub, spec_is_pattern_pubsub,
    spec_parse_u16, redirection_result_matches, Frame, Redirection, RedisProtocolError,
    RedisProtocolErrorKind, ARRAY_BYTE, BULKSTRING_BYTE, ERROR_BYTE, INTEGER_BYTE,
    SIMPLESTRING_BYTE,
};

verus! {

/// Terminating bytes between frames.
pub open spec fn crlf() -> Seq<u8> {
    seq![13u8, 10u8]
}

/// The wire form of the `null` value, "$-1\r\n".
pub open spec fn null_enc() -> Seq<u8> {
    seq![36u8, 45u8, 49u8, 13u8, 10u8]
}

/// The wire form of a frame: each variant is length-delimited or
/// CRLF-terminated in the RESP conventions. Moved and Ask frames go out as
/// plain error frames carrying their text.
pub open spec fn frame_enc(f: Frame) -> Seq<u8>
    decreases f,
{
    match f {
        Frame::SimpleString(s) => seq![SIMPLESTRING_BYTE] + encode_utf8(s@) + crlf(),
        Frame::Error(s) => seq![ERROR_BYTE] + encode_utf8(s@) + crlf(),
        Frame::Moved(s) => seq![ERROR_BYTE] + encode_utf8(s@) + crlf(),
        Frame::Ask(s) => seq![ERROR_BYTE] + encode_utf8(s@) + crlf(),
        Frame::Integer(i) => seq![INTEGER_BYTE] + dec_rep_i64(i as int) + crlf(),
        Frame::BulkString(b) => seq![BULKSTRING_BYTE] + dec_rep(b@.len()) + crlf() + b@ + crlf(),
        Frame::Null => null_enc(),
        Frame::Array(v) => seq![ARRAY_BYTE] + dec_rep(v@.len()) + crlf() + frames_enc(v@),
    }
}

/// The concatenated wire forms of a sequence of frames. Array encodings do
/// not emit a trailing CRLF: the inner frames supply their own terminators.
pub open spec fn frames_enc(s: Seq<Frame>) -> Seq<u8>
    decreases s,
{
    if s.len() == 0 {
        Seq::empty()
    } else {
        frame_enc(s[0]) + frames_enc(s.drop_first())
    }
}

pub proof fn lemma_frames_enc_take_snoc(s: Seq<Frame>, i: int)
    requires
        0 <= i < s.len(),
    ensures
        frames_enc(s.take(i + 1)) == frames_enc(s.take(i)) + frame_enc(s[i]),
    decreases i,
{
    if i == 0 {
        let t = s.take(1);
        assert(t.drop_first() =~= Seq::<Frame>::empty());
        assert(s.take(0) =~= Seq::<Frame>::empty());
        assert(frames_enc(s.take(1)) =~= frames_enc(s.take(0)) + frame_enc(s[0]));
    } else {
        lemma_frames_enc_take_snoc(s.drop_first(), i - 1);
        let a = s.take(i + 1);
        let b = s.take(i);
        assert(a.drop_first() =~= s.drop_first().take(i));
        assert(b.drop_first() =~= s.drop_first().take(i - 1));
        assert(s.drop_first().take(i - 1 + 1) == s.drop_first().take(i));
        assert(s.drop_first()[i - 1] == s[i]);
        assert(frames_enc(a) =~= frames_enc(b) + frame_enc(s[i])) by {
            assert(frames_enc(a) == frame_enc(s[0]) + frames_enc(s.drop_first().take(i)));
            assert(frames_enc(b) == frame_enc(s[0]) + frames_enc(s.drop_first().take(i - 1)));
        }
    }
}

pub proof fn lemma_frames_enc_split(s: Seq<Frame>, i: int)
    requires
        0 <= i <= s.len(),
    ensures
        frames_enc(s) == frames_enc(s.take(i)) + frames_enc(s.skip(i)),
    decreases i,
{
    if i == 0 {
        assert(s.take(0) =~= Seq::<Frame>::empty());
        assert(s.skip(0) =~= s);
        assert(frames_enc(s) =~= frames_enc(s.take(0)) + frames_enc(s.skip(0)));
    } else {
        lemma_frames_enc_split(s, i - 1);
        lemma_frames_enc_take_snoc(s, i - 1);
        let rest = s.skip(i - 1);
        assert(rest.len() > 0);
        assert(rest[0] == s[i - 1]);
        assert(rest.drop_first() =~= s.skip(i));
        assert(frames_enc(s.skip(i - 1)) == frame_enc(s[i - 1]) + frames_enc(s.skip(i)));
        assert(frames_enc(s) =~= frames_enc(s.take(i)) + frames_enc(s.skip(i)));
    }
}

/// The number of bytes necessary to encode a decimal representation of `d`.
pub fn digits_in_number(d: usize) -> (r: usize)
    ensures
        r == dec_rep(d as nat).len(),
{
    dec_len_u64(d as u64)
}

/// The length of the decimal numeral of `m`.
pub fn dec_len_u64(m: u64) -> (r: usize)
    ensures
        r == dec_rep(m as nat).len(),
{
    proof {
        lemma_dec_rep_len_bound(m as nat, 20);
    }
    let mut count: usize = 1;
    let mut x: u64 = m;
    while x >= 10
        invariant
            count >= 1,
            dec_rep(m as nat).len() == count + dec_rep(x as nat).len() - 1,
            count <= dec_rep(m as nat).len(),
            dec_rep(m as nat).len() <= 20,
        decreases x,
    {
        x = x / 10;
        count = count + 1;
    }
    count
}

/// The size of the wire form of a bulk string of `b`.
pub open spec fn spec_bulkstring_encode_len(b: Seq<u8>) -> nat {
    (1 + dec_rep(b.len()).len() + 2 + b.len() + 2) as nat
}

pub fn bulkstring_encode_len(b: &[u8]) -> (r: usize)
    requires
        b@.len() + 25 <= usize::MAX,
    ensures
        r == spec_bulkstring_encode_len(b@),
        r == frame_enc_len_of_bulk(b@),
{
    proof {
        lemma_dec_rep_len_bound(b@.len(), 20);
    }
    1 + digits_in_number(b.len()) + 2 + b.len() + 2
}

/// The size of the wire form of a bulk string, phrased over `frame_enc`.
pub open spec fn frame_enc_len_of_bulk(b: Seq<u8>) -> nat {
    (5 + dec_rep(b.len()).len() + b.len()) as nat
}

pub open spec fn spec_simplestring_encode_len(s: Seq<char>) -> nat {
    (1 + encode_utf8(s).len() + 2) as nat
}

pub fn simplestring_encode_len(s: &str) -> (r: usize)
    requires
        encode_utf8(s@).len() + 3 <= usize::MAX,
    ensures
        r == spec_simplestring_encode_len(s@),
{
    1 + crate::text::str_byte_len(s) + 2
}

pub fn error_encode_len(s: &str) -> (r: usize)
    requires
        encode_utf8(s@).len() + 3 <= usize::MAX,
    ensures
        r == spec_simplestring_encode_len(s@),
{
    1 + crate::text::str_byte_len(s) + 2
}

pub fn integer_encode_len(i: &i64) -> (r: usize)
    ensures
        r == 1 + dec_rep_i64(*i as int).len() + 2,
{
    proof {
        lemma_dec_rep_len_bound(i64_magnitude(*i as int), 20);
    }
    let prefix: usize = if *i < 0 {
        1
    } else {
        0
    };
    let m: u64 = if *i == i64::MIN {
        9223372036854775808u64
    } else if *i < 0 {
        (-*i) as u64
    } else {
        *i as u64
    };
    1 + dec_len_u64(m) + 2 + prefix
}

pub open spec fn i64_magnitude(i: int) -> nat {
    if i < 0 {
        (-i) as nat
    } else {
        i as nat
    }
}

/// The number of bytes necessary to represent the frame on the wire.
/// Fails exactly when that number does not fit a `usize`.
pub fn encode_len(data: &Frame) -> (r: Result<usize, RedisProtocolError>)
    ensures
        r matches Ok(n) ==> n == frame_enc(*data).len(),
        r is Ok <==> frame_enc(*data).len() <= usize::MAX,
        r matches Err(e) ==> e.spec_kind() == RedisProtocolErrorKind::EncodeError,
    decreases *data,
{
    match *data {
        Frame::BulkString(ref b) => {
            let digits = digits_in_number(b.len());
            proof {
                lemma_dec_rep_len_bound(b@.len(), 20);
            }
            if b.len() > usize::MAX - 5 - digits {
                Err(RedisProtocolError::new(RedisProtocolErrorKind::EncodeError, "Frame too large."))
            } else {
                Ok(1 + digits + 2 + b.len() + 2)
            }
        },
        Frame::Array(ref frames) => array_encode_len(frames),
        Frame::Null => Ok(5),
        Frame::SimpleString(ref s) => {
            if crate::text::str_byte_len(s.as_str()) > usize::MAX - 3 {
                proof {
                    assert(frame_enc(*data).len() > usize::MAX);
                }
                Err(RedisProtocolError::new(RedisProtocolErrorKind::EncodeError, "Frame too large."))
            } else {
                Ok(simplestring_encode_len(s.as_str()))
            }
        },
        Frame::Error(ref s) => {
            if crate::text::str_byte_len(s.as_str()) > usize::MAX - 3 {
                Err(RedisProtocolError::new(RedisProtocolErrorKind::EncodeError, "Frame too large."))
            } else {
                Ok(error_encode_len(s.as_str()))
            }
        },
        Frame::Moved(ref s) => {
            if crate::text::str_byte_len(s.as_str()) > usize::MAX - 3 {
                Err(RedisProtocolError::new(RedisProtocolErrorKind::EncodeError, "Frame too large."))
            } else {
                Ok(error_encode_len(s.as_str()))
            }
        },
        Frame::Ask(ref s) => {
            if crate::text::str_byte_len(s.as_str()) > usize::MAX - 3 {
                Err(RedisProtocolError::new(RedisProtocolErrorKind::EncodeError, "Frame too large."))
            } else {
                Ok(error_encode_len(s.as_str()))
            }
        },
        Frame::Integer(ref i) => Ok(integer_encode_len(i)),
    }
}

fn array_encode_len(frames: &Vec<Frame>) -> (r: Result<usize, RedisProtocolError>)
    ensures
        r matches Ok(n) ==> n == frame_enc(Frame::Array(*frames)).len(),
        r is Ok <==> frame_enc(Frame::Array(*frames)).len() <= usize::MAX,
        r matches Err(e) ==> e.spec_kind() == RedisProtocolErrorKind::EncodeError,
    decreases *frames,
{
    let len = frames.len();
    proof {
        assert(frames@.len() <= usize::MAX);
        lemma_dec_rep_len_bound(frames@.len(), 20);
    }
    let header: usize = 1 + digits_in_number(frames.len()) + 2;
    let ghost total = frame_enc(Frame::Array(*frames)).len();
    let mut acc: u128 = header as u128;
    let mut i: usize = 0;
    while i < frames.len()
        invariant
            i <= frames@.len(),
            header == 3 + dec_rep(frames@.len()).len(),
            acc == header + frames_enc(frames@.take(i as int)).len(),
            acc <= usize::MAX,
            total == frame_enc(Frame::Array(*frames)).len(),
        decreases frames@.len() - i,
    {
        let child = match encode_len(&frames[i]) {
            Ok(n) => n,
            Err(e) => {
                proof {
                    lemma_frames_enc_split(frames@, i as int);
                    lemma_frames_enc_take_snoc(frames@, i as int);
                    lemma_frames_enc_split(frames@.skip(i as int), 1);
                    assert(frames@.skip(i as int).take(1) =~= seq![frames@[i as int]]);
                    assert(frames_enc(seq![frames@[i as int]]) =~= frame_enc(frames@[i as int]));
                    assert(frames_enc(frames@).len() >= frame_enc(frames@[i as int]).len());
                }
                return Err(e);
            },
        };
        acc = acc + child as u128;
        i = i + 1;
        proof {
            lemma_frames_enc_take_snoc(frames@, i - 1);
        }
        if acc > usize::MAX as u128 {
            proof {
                lemma_frames_enc_split(frames@, i as int);
                assert(frames_enc(frames@).len() >= frames_enc(frames@.take(i as int)).len());
            }
            return Err(
                RedisProtocolError::new(RedisProtocolErrorKind::EncodeError, "Frame too large."),
            );
        }
    }
    proof {
        assert(frames@.take(frames@.len() as int) =~= frames@);
    }
    Ok(acc as usize)
}

/// Whether `frames` is a message published on a plain channel subscription.
pub fn is_normal_pubsub(frames: &Vec<Frame>) -> (r: bool)
    ensures
        r == spec_is_normal_pubsub(frames@),
{
    if frames.len() != 3 {
        return false;
    }
    match frames[0] {
        Frame::BulkString(ref b) => bytes_eq(b.as_slice(), "message".as_bytes()),
        _ => false,
    }
}

/// Whether `frames` is a message matched against a pattern subscription.
pub fn is_pattern_pubsub(frames: &Vec<Frame>) -> (r: bool)
    ensures
        r == spec_is_pattern_pubsub(frames@),
{
    if frames.len() != 4 {
        return false;
    }
    match frames[0] {
        Frame::BulkString(ref b) => bytes_eq(b.as_slice(), "pmessage".as_bytes()),
        _ => false,
    }
}

/// Character-for-character equality of two string slices.
pub fn str_eq(a: &str, b: &str) -> (r: bool)
    ensures
        r == (a@ == b@),
{
    let r = bytes_eq(a.as_bytes(), b.as_bytes());
    proof {
        broadcast use vstd::utf8::encode_utf8_decode_utf8;

        if a.spec_bytes() == b.spec_bytes() {
            assert(decode_utf8(encode_utf8(a@)) == decode_utf8(encode_utf8(b@)));
        }
    }
    r
}

/// Renders a redirection as "<prefix> <slot> <host>:<port>".
pub fn redirection_to_frame(prefix: &str, slot: u16, host: &str, port: u16) -> (r: String)
    ensures
        r@ == prefix@ + " "@ + dec_chars(slot as nat) + " "@ + host@ + ":"@ + dec_chars(
            port as nat,
        ),
{
    proof {
        reveal_strlit(" ");
        reveal_strlit(":");
    }
    let mut out = prefix.to_owned();
    push_char(&mut out, ' ');
    push_u64_dec(&mut out, slot as u64);
    push_char(&mut out, ' ');
    out.append(host);
    push_char(&mut out, ':');
    push_u64_dec(&mut out, port as u64);
    proof {
        assert(" "@ =~= seq![' ']);
        assert(":"@ =~= seq![':']);
        assert(out@ =~= prefix@ + " "@ + dec_chars(slot as nat) + " "@ + host@ + ":"@ + dec_chars(
            port as nat,
        ));
    }
    out
}

pub proof fn lemma_find_char_props(s: Seq<char>, c: char)
    ensures
        0 <= find_char(s, c) <= s.len(),
        find_char(s, c) < s.len() ==> s[find_char(s, c)] == c,
        forall|j: int| 0 <= j < find_char(s, c) ==> s[j] != c,
    decreases s.len(),
{
    if s.len() > 0 && s[0] != c {
        lemma_find_char_props(s.drop_first(), c);
        assert forall|j: int| 0 <= j < find_char(s, c) implies s[j] != c by {
            if j > 0 {
                assert(s.drop_first()[j - 1] == s[j]);
            }
        }
    }
}

proof fn lemma_find_char_is(s: Seq<char>, c: char, k: int)
    requires
        0 <= k <= s.len(),
        k < s.len() ==> s[k] == c,
        forall|j: int| 0 <= j < k ==> s[j] != c,
    ensures
        find_char(s, c) == k,
    decreases s.len(),
{
    if s.len() > 0 && s[0] != c {
        lemma_find_char_is(s.drop_first(), c, k - 1);
    }
}

proof fn lemma_count_char_take_step(s: Seq<char>, c: char, i: int)
    requires
        0 <= i < s.len(),
    ensures
        count_char(s.take(i + 1), c) == count_char(s.take(i), c) + (if s[i] == c {
            1int
        } else {
            0int
        }),
{
    assert(s.take(i + 1).drop_last() =~= s.take(i));
    assert(s.take(i + 1).last() == s[i]);
}

/// Scans a string, returning how many times `c` occurs and the positions of
/// the first two occurrences (each the length when missing).
fn scan_char(s: &str, c: char) -> (r: (usize, usize, usize))
    ensures
        r.0 == count_char(s@, c),
        r.0 > 0 ==> r.1 == find_char(s@, c) && r.1 < s@.len(),
        r.0 == 0 ==> r.1 == s@.len(),
        r.0 > 1 ==> r.1 < r.2 < s@.len() && r.2 == r.1 + 1 + find_char(s@.skip(r.1 + 1), c),
        r.0 <= s@.len(),
{
    let n = s.unicode_len();
    let mut count: usize = 0;
    let mut first: usize = n;
    let mut second: usize = n;
    let mut i: usize = 0;
    while i < n
        invariant
            n == s@.len(),
            i <= n,
            count == count_char(s@.take(i as int), c),
            count <= i,
            count == 0 ==> first == n && (forall|j: int| 0 <= j < i ==> s@[j] != c),
            count > 0 ==> first < i && s@[first as int] == c && (forall|j: int|
                0 <= j < first ==> s@[j] != c),
            count <= 1 ==> second == n,
            count == 1 ==> (forall|j: int| first < j < i ==> s@[j] != c),
            count > 1 ==> first < second < i && s@[second as int] == c && (forall|j: int|
                first < j < second ==> s@[j] != c),
        decreases n - i,
    {
        let ch = s.get_char(i);
        proof {
            lemma_count_char_take_step(s@, c, i as int);
        }
        if ch == c {
            if count == 0 {
                first = i;
            } else if count == 1 {
                second = i;
            }
            count = count + 1;
        }
        i = i + 1;
    }
    proof {
        assert(s@.take(n as int) =~= s@);
        if count > 0 {
            lemma_find_char_is(s@, c, first as int);
        } else {
            lemma_find_char_is(s@, c, n as int);
        }
        if count > 1 {
            let rest = s@.skip(first + 1);
            assert forall|j: int| 0 <= j < second - first - 1 implies rest[j] != c by {
                assert(rest[j] == s@[first + 1 + j]);
            }
            assert(rest[second - first - 1] == s@[second as int]);
            lemma_find_char_is(rest, c, second - first - 1);
        }
    }
    (count, first, second)
}

/// What `str::parse::<u16>` accepts, as an executable check.
pub fn parse_u16(s: &str) -> (r: Option<u16>)
    ensures
        r == spec_parse_u16(s@),
{
    let b = s.as_bytes();
    if b.len() > 0 && b[0] == 45 {
        return None;
    }
    match crate::num::parse_i64_bytes(b) {
        Some(v) => if 0 <= v && v <= 65535 {
            Some(v as u16)
        } else {
            None
        },
        None => None,
    }
}

/// Parses "MOVED <slot> <host>:<port>" or "ASK <slot> <host>:<port>".
pub fn string_to_redirection(s: &str) -> (r: Result<Redirection, RedisProtocolError>)
    ensures
        redirection_result_matches(r, s@),
{
    let (spaces, i, j) = scan_char(s, ' ');
    if spaces != 2 {
        return Err(RedisProtocolError::new(RedisProtocolErrorKind::Unknown, "Invalid redirection."));
    }
    let n = s.unicode_len();
    let part0 = s.substring_char(0, i);
    let part1 = s.substring_char(i + 1, j);
    let part2 = s.substring_char(j + 1, n);
    proof {
        assert(part0@ =~= s@.take(i as int));
        assert(s@.skip(i + 1).take(j - i - 1) =~= s@.subrange(i + 1, j as int));
        assert(part1@ =~= s@.skip(i + 1).take(find_char(s@.skip(i + 1), ' ')));
        assert(part2@ =~= s@.skip(i + 1).skip(find_char(s@.skip(i + 1), ' ') + 1));
    }
    let is_moved = if str_eq(part0, "MOVED") {
        true
    } else if str_eq(part0, "ASK") {
        false
    } else {
        return Err(
            RedisProtocolError::new(RedisProtocolErrorKind::Unknown, "Invalid redirection kind."),
        );
    };
    let slot = match parse_u16(part1) {
        Some(v) => v,
        None => {
            return Err(
                RedisProtocolError::new(
                    RedisProtocolErrorKind::Unknown,
                    "Invalid hash slot redirection.",
                ),
            );
        },
    };
    let (colons, k, _) = scan_char(part2, ':');
    if colons != 1 {
        return Err(
            RedisProtocolError::new(RedisProtocolErrorKind::Unknown, "Invalid redirection address."),
        );
    }
    let m = part2.unicode_len();
    let host = part2.substring_char(0, k);
    let ports = part2.substring_char(k + 1, m);
    proof {
        assert(host@ =~= part2@.take(k as int));
        assert(ports@ =~= part2@.skip(k + 1));
    }
    let port = match parse_u16(ports) {
        Some(v) => v,
        None => {
            return Err(
                RedisProtocolError::new(
                    RedisProtocolErrorKind::Unknown,
                    "Invalid redirection address port.",
                ),
            );
        },
    };
    if is_moved {
        Ok(Redirection::Moved { slot, host: host.to_owned(), port })
    } else {
        Ok(Redirection::Ask { slot, host: host.to_owned(), port })
    }
}

/// Reads "MOVED ..." or "ASK ..." error text into the matching frame
/// variant, carrying everything after the first space.
pub fn read_cluster_error(payload: &str) -> (r: Option<Frame>)
    ensures
        spec_starts_with(payload@, "MOVED"@) ==> (r matches Some(f) && f matches Frame::Moved(m)
            && m@ == after_first_space(payload@)),
        !spec_starts_with(payload@, "MOVED"@) && spec_starts_with(payload@, "ASK"@) ==> (r matches
            Some(f) && f matches Frame::Ask(m) && m@ == after_first_space(payload@)),
        !spec_starts_with(payload@, "MOVED"@) && !spec_starts_with(payload@, "ASK"@) ==> r is None,
{
    let moved = starts_with_str(payload, "MOVED");
    let ask = starts_with_str(payload, "ASK");
    if !moved && !ask {
        return None;
    }
    let n = payload.unicode_len();
    let (spaces, i, _) = scan_char(payload, ' ');
    let tail = if spaces == 0 {
        String::new()
    } else {
        payload.substring_char(i + 1, n).to_owned()
    };
    proof {
        lemma_find_char_props(payload@, ' ');
        if count_char(payload@, ' ') == 0 {
            lemma_count_char_none(payload@, ' ');
            assert(find_char(payload@, ' ') == payload@.len()) by {
                lemma_find_char_is(payload@, ' ', payload@.len() as int);
            }
            assert(tail@ =~= after_first_space(payload@));
        } else {
            assert(tail@ =~= after_first_space(payload@));
        }
    }
    if moved {
        Some(Frame::Moved(tail))
    } else {
        Some(Frame::Ask(tail))
    }
}

/// Everything after the first space, or nothing when there is none: what
/// splitting at spaces and joining all parts but the head reconstructs.
pub open spec fn after_first_space(s: Seq<char>) -> Seq<char> {
    if find_char(s, ' ') < s.len() {
        s.skip(find_char(s, ' ') + 1)
    } else {
        Seq::empty()
    }
}

proof fn lemma_count_char_none(s: Seq<char>, c: char)
    requires
        count_char(s, c) == 0,
    ensures
        forall|j: int| 0 <= j < s.len() ==> s[j] != c,
    decreases s.len(),
{
    if s.len() > 0 {
        lemma_count_char_none(s.drop_last(), c);
        assert forall|j: int| 0 <= j < s.len() implies s[j] != c by {
            if j < s.len() - 1 {
                assert(s.drop_last()[j] == s[j]);
            }
        }
    }
}

pub open spec fn spec_starts_with(s: Seq<char>, prefix: Seq<char>) -> bool {
    s.len() >= prefix.len() && s.take(prefix.len() as int) == prefix
}

/// Whether `s` starts with `prefix`.
pub fn starts_with_str(s: &str, prefix: &str) -> (r: bool)
    ensures
        r == spec_starts_with(s@, prefix@),
{
    let n = s.unicode_len();
    let m = prefix.unicode_len();
    if n < m {
        return false;
    }
    let head = s.substring_char(0, m);
    proof {
        assert(head@ =~= s@.take(m as int));
    }
    str_eq(head, prefix)
}

/// The checksum of a key maps it to its cluster key slot.
pub uninterp spec fn crc16_xmodem_of(data: Seq<u8>) -> u16;

/// Relies on crc16::State::<XMODEM>::calculate: the checksum is a function
/// of the bytes alone.
#[verifier::external_body]
fn crc16_xmodem_calc(data: &[u8]) -> (r: u16)
    ensures
        r == crc16_xmodem_of(data@),
{
    crc16::State::<crc16::XMODEM>::calculate(data)
}

/// The bytes whose checksum decides a key's slot: the text between the
/// first brace pair when a nonempty one exists, otherwise the whole key.
pub open spec fn keyslot_input(b: Seq<u8>) -> Seq<u8> {
    let i = find_byte(b, 123);
    if i >= b.len() - 1 {
        b
    } else {
        let rest = b.skip(i + 1);
        let j = find_byte(rest, 125);
        if j == rest.len() || j == 0 {
            b
        } else {
            rest.take(j)
        }
    }
}

pub open spec fn find_byte(s: Seq<u8>, c: u8) -> int
    decreases s.len(),
{
    if s.len() == 0 {
        0
    } else if s[0] == c {
        0
    } else {
        1 + find_byte(s.drop_first(), c)
    }
}

proof fn lemma_find_byte_is(s: Seq<u8>, c: u8, k: int)
    requires
        0 <= k <= s.len(),
        k < s.len() ==> s[k] == c,
        forall|j: int| 0 <= j < k ==> s[j] != c,
    ensures
        find_byte(s, c) == k,
    decreases s.len(),
{
    if s.len() > 0 && s[0] != c {
        lemma_find_byte_is(s.drop_first(), c, k - 1);
    }
}

pub fn find_byte_exec(s: &[u8], c: u8) -> (r: usize)
    ensures
        r == find_byte(s@, c),
        r <= s@.len(),
{
    let mut i: usize = 0;
    while i < s.len()
        invariant
            i <= s@.len(),
            forall|j: int| 0 <= j < i ==> s@[j] != c,
        decreases s@.len() - i,
    {
        if s[i] == c {
            proof {
                lemma_find_byte_is(s@, c, i as int);
            }
            return i;
        }
        i = i + 1;
    }
    proof {
        lemma_find_byte_is(s@, c, s@.len() as int);
    }
    i
}

/// Maps a key to its cluster key slot: the XMODEM checksum of the braced
/// hash tag when one exists, of the whole key otherwise, folded onto the
/// 16384 slots.
pub fn redis_keyslot(key: &str) -> (r: u16)
    ensures
        r == crc16_xmodem_of(keyslot_input(encode_utf8(key@))) % 16384,
{
    let b = key.as_bytes();
    let i = find_byte_exec(b, 123);
    if i >= b.len() || i + 1 == b.len() {
        return crc16_xmodem_calc(b) % 16384;
    }
    let rest = vstd::slice::slice_subrange(b, i + 1, b.len());
    proof {
        assert(rest@ =~= b@.skip(i + 1));
    }
    let j = find_byte_exec(rest, 125);
    if j == rest.len() || j == 0 {
        return crc16_xmodem_calc(b) % 16384;
    }
    let tag = vstd::slice::slice_subrange(rest, 0, j);
    proof {
        assert(tag@ =~= rest@.take(j as int));
    }
    crc16_xmodem_calc(tag) % 16384
}

/// Unwraps a frame expected to carry text.
pub fn opt_frame_to_string_panic(f: Option<Frame>, msg: &str) -> (r: String)
    requires
        f matches Some(fr) && frame_text(fr) is Some,
    ensures
        r@ == frame_text(f->0)->0,
{
    match f {
        Some(fr) => fr.to_string().unwrap(),
        None => unreached(),
    }
}

} // verus!
