//! Decoding frames from an incremental byte buffer: a mathematical parser
//! over byte sequences, and an executable decoder proved to follow it.

use vstd::prelude::*;
use vstd::utf8::{decode_utf8, valid_utf8};
use crate::num::parse_i64;
use crate::text::{bytes_to_string};
use crate::types::{
    Frame, RedisProtocolError, RedisProtocolErrorKind, ARRAY_BYTE, BULKSTRING_BYTE, ERROR_BYTE,
    INTEGER_BYTE, SIMPLESTRING_BYTE,
};
use crate::utils::{after_first_space, spec_starts_with};

verus! {

/// The mathematical shape of a frame: text as character sequences, bulk
/// payloads as byte sequences, arrays as sequences of shapes. Contracts on
/// the codec speak of frames through this view.
pub enum FrameModel {
    Simple(Seq<char>),
    Error(Seq<char>),
    Int(i64),
    Bulk(Seq<u8>),
    Arr(Seq<FrameModel>),
    Moved(Seq<char>),
    Ask(Seq<char>),
    Null,
}

/// The shape of a frame.
pub open spec fn frame_model(f: Frame) -> FrameModel
    decreases f,
{
    match f {
        Frame::SimpleString(s) => FrameModel::Simple(s@),
        Frame::Error(s) => FrameModel::Error(s@),
        Frame::Integer(i) => FrameModel::Int(i),
        Frame::BulkString(b) => FrameModel::Bulk(b@),
        Frame::Moved(s) => FrameModel::Moved(s@),
        Frame::Ask(s) => FrameModel::Ask(s@),
        Frame::Null => FrameModel::Null,
        Frame::Array(v) => FrameModel::Arr(frames_model(v@)),
    }
}

pub open spec fn frames_model(s: Seq<Frame>) -> Seq<FrameModel>
    decreases s,
{
    if s.len() == 0 {
        Seq::empty()
    } else {
        seq![frame_model(s[0])] + frames_model(s.drop_first())
    }
}

pub proof fn lemma_frames_model(s: Seq<Frame>)
    ensures
        frames_model(s).len() == s.len(),
        forall|i: int| 0 <= i < s.len() ==> frames_model(s)[i] == frame_model(s[i]),
    decreases s,
{
    if s.len() > 0 {
        lemma_frames_model(s.drop_first());
        assert forall|i: int| 0 <= i < s.len() implies frames_model(s)[i] == frame_model(
            s[i],
        ) by {
            if i > 0 {
                assert(frames_model(s.drop_first())[i - 1] == frame_model(s.drop_first()[i - 1]));
                assert(s.drop_first()[i - 1] == s[i]);
            }
        }
    }
}

/// One outcome of parsing: a complete frame shape and how many bytes it
/// took, a buffer that does not yet hold a complete frame, or a malformed
/// buffer.
pub enum SpecParse {
    Done(FrameModel, int),
    Partial,
    Fail,
}

pub enum SpecParseN {
    Done(Seq<FrameModel>, int),
    Partial,
    Fail,
}

/// The index of the first CRLF pair, or -1 when there is none.
pub open spec fn find_crlf(s: Seq<u8>) -> int
    decreases s.len(),
{
    if s.len() < 2 {
        -1
    } else if s[0] == 13 && s[1] == 10 {
        0
    } else {
        let r = find_crlf(s.drop_first());
        if r < 0 {
            -1
        } else {
            1 + r
        }
    }
}

pub proof fn lemma_find_crlf_props(s: Seq<u8>)
    ensures
        find_crlf(s) >= 0 ==> 0 <= find_crlf(s) && find_crlf(s) + 1 < s.len() && s[find_crlf(s)]
            == 13 && s[find_crlf(s) + 1] == 10,
        forall|j: int|
            #![trigger s[j]]
            0 <= j < find_crlf(s) ==> !(s[j] == 13 && j + 1 < s.len() && s[j + 1] == 10),
        find_crlf(s) < 0 ==> find_crlf(s) == -1 && (forall|j: int|
            #![trigger s[j]]
            0 <= j && j + 1 < s.len() ==> !(s[j] == 13 && s[j + 1] == 10)),
    decreases s.len(),
{
    if s.len() >= 2 && !(s[0] == 13 && s[1] == 10) {
        lemma_find_crlf_props(s.drop_first());
        assert forall|j: int|
            #![trigger s[j]]
            0 <= j < find_crlf(s) implies !(s[j] == 13 && j + 1 < s.len() && s[j + 1] == 10) by {
            if j > 0 {
                assert(s.drop_first()[j - 1] == s[j]);
                assert(s.drop_first()[j] == s[j + 1]);
            }
        }
        if find_crlf(s) < 0 {
            assert forall|j: int| 0 <= j && j + 1 < s.len() implies !(#[trigger] s[j] == 13 && s[j
                + 1] == 10) by {
                if j > 0 {
                    assert(s.drop_first()[j - 1] == s[j]);
                    assert(s.drop_first()[j] == s[j + 1]);
                }
            }
        }
    }
}

pub proof fn lemma_find_crlf_is(s: Seq<u8>, k: int)
    requires
        0 <= k,
        k + 1 < s.len(),
        s[k] == 13,
        s[k + 1] == 10,
        forall|j: int| #![trigger s[j]] 0 <= j < k ==> !(s[j] == 13 && s[j + 1] == 10),
    ensures
        find_crlf(s) == k,
    decreases s.len(),
{
    if !(s[0] == 13 && s[1] == 10) {
        assert forall|j: int| #![trigger s.drop_first()[j]] 0 <= j < k - 1 implies !(
        s.drop_first()[j] == 13 && s.drop_first()[j + 1] == 10) by {
            assert(s.drop_first()[j] == s[j + 1]);
            assert(s.drop_first()[j + 1] == s[j + 2]);
        }
        assert(s.drop_first()[k - 1] == s[k]);
        assert(s.drop_first()[k] == s[k + 1]);
        lemma_find_crlf_is(s.drop_first(), k - 1);
    }
}

/// The shape an error line denotes: reserved "MOVED" and "ASK" prefixes are
/// reparsed into their own variants, carrying what follows the first space.
pub open spec fn error_model_of(text: Seq<char>) -> FrameModel {
    if spec_starts_with(text, "MOVED"@) {
        FrameModel::Moved(after_first_space(text))
    } else if spec_starts_with(text, "ASK"@) {
        FrameModel::Ask(after_first_space(text))
    } else {
        FrameModel::Error(text)
    }
}

/// Parses the first frame of `s`: the frame's shape and the bytes consumed,
/// or `Partial` when `s` does not yet hold a complete frame, or `Fail` on a
/// malformed prefix (an unknown type byte, a line that is not valid UTF-8
/// where text is expected, or a malformed length or integer).
pub open spec fn spec_parse(s: Seq<u8>) -> SpecParse
    decreases s.len(), 0int,
    via spec_parse_decreases
{
    if s.len() == 0 {
        SpecParse::Partial
    } else {
        let b0 = s[0];
        let rest = s.skip(1);
        let f = find_crlf(rest);
        if b0 == SIMPLESTRING_BYTE {
            if f < 0 {
                SpecParse::Partial
            } else {
                let line = rest.take(f);
                if valid_utf8(line) {
                    SpecParse::Done(FrameModel::Simple(decode_utf8(line)), 3 + f)
                } else {
                    SpecParse::Fail
                }
            }
        } else if b0 == ERROR_BYTE {
            if f < 0 {
                SpecParse::Partial
            } else {
                let line = rest.take(f);
                if valid_utf8(line) {
                    SpecParse::Done(error_model_of(decode_utf8(line)), 3 + f)
                } else {
                    SpecParse::Fail
                }
            }
        } else if b0 == INTEGER_BYTE {
            if f < 0 {
                SpecParse::Partial
            } else {
                match parse_i64(rest.take(f)) {
                    Some(v) => SpecParse::Done(FrameModel::Int(v), 3 + f),
                    None => SpecParse::Fail,
                }
            }
        } else if b0 == BULKSTRING_BYTE {
            if f < 0 {
                SpecParse::Partial
            } else {
                match parse_i64(rest.take(f)) {
                    Some(v) => if v == -1 {
                        SpecParse::Done(FrameModel::Null, 3 + f)
                    } else if v < -1 {
                        SpecParse::Fail
                    } else {
                        let start = 3 + f;
                        if start + v + 2 <= s.len() {
                            SpecParse::Done(
                                FrameModel::Bulk(s.subrange(start, start + v)),
                                start + v + 2,
                            )
                        } else {
                            SpecParse::Partial
                        }
                    },
                    None => SpecParse::Fail,
                }
            }
        } else if b0 == ARRAY_BYTE {
            if f < 0 {
                SpecParse::Partial
            } else {
                match parse_i64(rest.take(f)) {
                    Some(v) => if v == -1 {
                        SpecParse::Done(FrameModel::Null, 3 + f)
                    } else if v < -1 {
                        SpecParse::Fail
                    } else {
                        let start = 3 + f;
                        match spec_parse_n(s.skip(start), v as int) {
                            SpecParseN::Done(ms, c) => SpecParse::Done(
                                FrameModel::Arr(ms),
                                start + c,
                            ),
                            SpecParseN::Partial => SpecParse::Partial,
                            SpecParseN::Fail => SpecParse::Fail,
                        }
                    },
                    None => SpecParse::Fail,
                }
            }
        } else {
            SpecParse::Fail
        }
    }
}

#[via_fn]
proof fn spec_parse_decreases(s: Seq<u8>) {
    if s.len() > 0 {
        lemma_find_crlf_props(s.skip(1));
    }
}

/// Parses `n` consecutive frames.
pub open spec fn spec_parse_n(s: Seq<u8>, n: int) -> SpecParseN
    decreases s.len(), n, 1int,
{
    if n <= 0 {
        SpecParseN::Done(Seq::empty(), 0)
    } else {
        match spec_parse(s) {
            SpecParse::Done(m, c) => if 0 < c <= s.len() {
                match spec_parse_n(s.skip(c), n - 1) {
                    SpecParseN::Done(ms, c2) => SpecParseN::Done(seq![m] + ms, c + c2),
                    SpecParseN::Partial => SpecParseN::Partial,
                    SpecParseN::Fail => SpecParseN::Fail,
                }
            } else {
                SpecParseN::Fail
            },
            SpecParse::Partial => SpecParseN::Partial,
            SpecParse::Fail => SpecParseN::Fail,
        }
    }
}

/// A complete parse consumes at least one byte and never more than the
/// whole buffer.
pub proof fn lemma_spec_parse_consumed(s: Seq<u8>)
    ensures
        spec_parse(s) matches SpecParse::Done(_, c) ==> 1 <= c <= s.len(),
    decreases s.len(), 0int,
{
    if s.len() > 0 {
        let rest = s.skip(1);
        lemma_find_crlf_props(rest);
        let f = find_crlf(rest);
        if f >= 0 {
            assert(f + 1 < rest.len());
            assert(rest.len() == s.len() - 1);
            if s[0] == ARRAY_BYTE {
                match parse_i64(rest.take(f)) {
                    Some(v) => if v >= 0 {
                        lemma_spec_parse_n_consumed(s.skip(3 + f), v as int);
                    },
                    None => {},
                }
            }
        }
    }
}

pub proof fn lemma_spec_parse_n_consumed(s: Seq<u8>, n: int)
    ensures
        spec_parse_n(s, n) matches SpecParseN::Done(_, c) ==> 0 <= c <= s.len(),
    decreases s.len(), n, 1int,
{
    if n > 0 {
        lemma_spec_parse_consumed_inner(s, n);
    }
}

proof fn lemma_spec_parse_consumed_inner(s: Seq<u8>, n: int)
    requires
        n > 0,
    ensures
        spec_parse_n(s, n) matches SpecParseN::Done(_, c) ==> 0 <= c <= s.len(),
    decreases s.len(), n, 0int,
{
    match spec_parse(s) {
        SpecParse::Done(m, c) => {
            lemma_spec_parse_consumed(s);
            if 0 < c <= s.len() {
                lemma_spec_parse_n_consumed(s.skip(c), n - 1);
            }
        },
        _ => {},
    }
}

/// An executable parse outcome over a buffer position.
enum ParseOutcome {
    Done(Frame, usize),
    Partial,
    Fail,
}

/// Finds the first CRLF at or after `from`, as an absolute index.
fn find_crlf_at(buf: &[u8], from: usize) -> (r: Option<usize>)
    requires
        from <= buf@.len(),
    ensures
        r matches Some(k) ==> from <= k && k + 1 < buf@.len() && find_crlf(buf@.skip(from as int))
            == k - from,
        r is None ==> find_crlf(buf@.skip(from as int)) == -1,
{
    let ghost s = buf@.skip(from as int);
    let n = buf.len();
    if n < 1 || from > n - 1 {
        proof {
            lemma_find_crlf_props(s);
            if find_crlf(s) >= 0 {
                assert(find_crlf(s) + 1 < s.len());
            }
        }
        return None;
    }
    let mut i: usize = from;
    while i < n - 1
        invariant
            n >= 1,
            from <= i <= n,
            n == buf@.len(),
            s == buf@.skip(from as int),
            forall|j: int| #![trigger s[j]] 0 <= j < i - from ==> !(s[j] == 13 && s[j + 1] == 10),
        decreases n - i,
    {
        if buf[i] == 13 && buf[i + 1] == 10 {
            proof {
                assert(s[i - from] == buf@[i as int]);
                assert(s[i - from + 1] == buf@[i + 1]);
                lemma_find_crlf_is(s, i - from);
            }
            return Some(i);
        }
        proof {
            assert(s[i - from] == buf@[i as int]);
            assert(s[i - from + 1] == buf@[i + 1]);
        }
        i = i + 1;
    }
    proof {
        lemma_find_crlf_props(s);
        if find_crlf(s) >= 0 {
            let k = find_crlf(s);
            assert(!(s[k] == 13 && s[k + 1] == 10));
        }
    }
    None
}

/// How the parse of `n` frames continues after some frames were read.
pub open spec fn lift_n(ms: Seq<FrameModel>, used: int, r: SpecParseN) -> SpecParseN {
    match r {
        SpecParseN::Done(ms2, c) => SpecParseN::Done(ms + ms2, used + c),
        SpecParseN::Partial => SpecParseN::Partial,
        SpecParseN::Fail => SpecParseN::Fail,
    }
}

/// Parses the first frame of `buf` starting at `pos`, following
/// `spec_parse` on the suffix.
fn parse_at(buf: &[u8], pos: usize) -> (r: ParseOutcome)
    requires
        pos <= buf@.len(),
    ensures
        ({
            let sp = spec_parse(buf@.skip(pos as int));
            match r {
                ParseOutcome::Done(fr, c) => sp matches SpecParse::Done(m, sc) && frame_model(fr)
                    == m && c == pos + sc && pos < c <= buf@.len(),
                ParseOutcome::Partial => sp is Partial,
                ParseOutcome::Fail => sp is Fail,
            }
        }),
    decreases buf@.len() - pos,
{
    let ghost s = buf@.skip(pos as int);
    let n = buf.len();
    if pos == n {
        return ParseOutcome::Partial;
    }
    let b0 = buf[pos];
    proof {
        assert(s[0] == b0);
        assert(s.skip(1) =~= buf@.skip(pos + 1));
    }
    let k = match find_crlf_at(buf, pos + 1) {
        Some(k) => k,
        None => {
            if b0 == SIMPLESTRING_BYTE || b0 == ERROR_BYTE || b0 == INTEGER_BYTE || b0
                == BULKSTRING_BYTE || b0 == ARRAY_BYTE {
                return ParseOutcome::Partial;
            } else {
                return ParseOutcome::Fail;
            }
        },
    };
    let ghost f = k - (pos + 1);
    let line = vstd::slice::slice_subrange(buf, pos + 1, k);
    proof {
        assert(line@ =~= s.skip(1).take(f));
    }
    if b0 == SIMPLESTRING_BYTE || b0 == ERROR_BYTE {
        let owned = vstd::slice::slice_to_vec(line);
        let text = match bytes_to_string(&owned) {
            Some(t) => t,
            None => {
                return ParseOutcome::Fail;
            },
        };
        if b0 == SIMPLESTRING_BYTE {
            ParseOutcome::Done(Frame::SimpleString(text), k + 2)
        } else {
            match crate::utils::read_cluster_error(text.as_str()) {
                Some(fr) => ParseOutcome::Done(fr, k + 2),
                None => ParseOutcome::Done(Frame::Error(text), k + 2),
            }
        }
    } else if b0 == INTEGER_BYTE {
        match crate::num::parse_i64_bytes(line) {
            Some(v) => ParseOutcome::Done(Frame::Integer(v), k + 2),
            None => ParseOutcome::Fail,
        }
    } else if b0 == BULKSTRING_BYTE {
        match crate::num::parse_i64_bytes(line) {
            None => ParseOutcome::Fail,
            Some(v) => {
                if v == -1 {
                    return ParseOutcome::Done(Frame::Null, k + 2);
                }
                if v < -1 {
                    return ParseOutcome::Fail;
                }
                let start = k + 2;
                if (start as u128) + (v as u128) + 2 > n as u128 {
                    return ParseOutcome::Partial;
                }
                let vlen = v as usize;
                let content = vstd::slice::slice_to_vec(
                    vstd::slice::slice_subrange(buf, start, start + vlen),
                );
                proof {
                    assert(content@ =~= s.subrange(3 + f, 3 + f + v));
                }
                ParseOutcome::Done(Frame::BulkString(content), start + vlen + 2)
            },
        }
    } else if b0 == ARRAY_BYTE {
        match crate::num::parse_i64_bytes(line) {
            None => ParseOutcome::Fail,
            Some(v) => {
                if v == -1 {
                    return ParseOutcome::Done(Frame::Null, k + 2);
                }
                if v < -1 {
                    return ParseOutcome::Fail;
                }
                let start = k + 2;
                let ghost s0 = buf@.skip(start as int);
                proof {
                    assert(s.skip(3 + f) =~= s0);
                    assert(frames_model(Seq::<Frame>::empty()) + Seq::<FrameModel>::empty()
                        =~= Seq::<FrameModel>::empty());
                }
                let ghost arr_eq = (match spec_parse_n(s0, v as int) {
                    SpecParseN::Done(ms, c) => SpecParse::Done(FrameModel::Arr(ms), 3 + f + c),
                    SpecParseN::Partial => SpecParse::Partial,
                    SpecParseN::Fail => SpecParse::Fail,
                });
                proof {
                    assert(spec_parse(s) == arr_eq);
                }
                let mut items: Vec<Frame> = Vec::new();
                let mut cur: usize = start;
                let mut idx: u64 = 0;
                let count = v as u64;
                loop
                    invariant_except_break
                        idx <= count,
                        count == v,
                        pos < start <= cur <= buf@.len(),
                        start == pos + 3 + f,
                        n == buf@.len(),
                        s == buf@.skip(pos as int),
                        s0 == buf@.skip(start as int),
                        items@.len() == idx,
                        spec_parse(s) == (match spec_parse_n(s0, v as int) {
                            SpecParseN::Done(ms, c) => SpecParse::Done(
                                FrameModel::Arr(ms),
                                3 + f + c,
                            ),
                            SpecParseN::Partial => SpecParse::Partial,
                            SpecParseN::Fail => SpecParse::Fail,
                        }),
                        spec_parse_n(s0, v as int) == lift_n(
                            frames_model(items@),
                            cur - start,
                            spec_parse_n(buf@.skip(cur as int), v - idx),
                        ),
                    ensures
                        spec_parse(s) == (match spec_parse_n(s0, v as int) {
                            SpecParseN::Done(ms, c) => SpecParse::Done(
                                FrameModel::Arr(ms),
                                3 + f + c,
                            ),
                            SpecParseN::Partial => SpecParse::Partial,
                            SpecParseN::Fail => SpecParse::Fail,
                        }),
                        spec_parse_n(s0, v as int) matches SpecParseN::Done(ms, c) && ms
                            == frames_model(items@) && cur == start + c && cur <= buf@.len()
                            && start == pos + 3 + f && pos < cur,
                    decreases count - idx,
                {
                    if idx == count {
                        proof {
                            assert(spec_parse_n(buf@.skip(cur as int), 0) == SpecParseN::Done(
                                Seq::<FrameModel>::empty(),
                                0,
                            ));
                            assert(frames_model(items@) + Seq::<FrameModel>::empty()
                                =~= frames_model(items@));
                        }
                        break;
                    }
                    let ghost pre_items = items@;
                    let ghost pre_cur = cur as int;
                    let outcome = parse_at(buf, cur);
                    match outcome {
                        ParseOutcome::Done(fr, c) => {
                            items.push(fr);
                            proof {
                                let m = frame_model(fr);
                                let tail = buf@.skip(pre_cur);
                                let c_rel = c - pre_cur;
                                assert(spec_parse(tail) == SpecParse::Done(m, c_rel));
                                assert(tail.skip(c_rel) =~= buf@.skip(c as int));
                                assert(spec_parse_n(tail, v - idx) == (match spec_parse_n(
                                    buf@.skip(c as int),
                                    v - idx - 1,
                                ) {
                                    SpecParseN::Done(ms, c2) => SpecParseN::Done(
                                        seq![m] + ms,
                                        c_rel + c2,
                                    ),
                                    SpecParseN::Partial => SpecParseN::Partial,
                                    SpecParseN::Fail => SpecParseN::Fail,
                                }));
                                lemma_frames_model(pre_items);
                                lemma_frames_model(items@);
                                assert(items@.drop_last() =~= pre_items);
                                assert(frames_model(items@) =~= frames_model(pre_items).push(m))
                                    by {
                                    lemma_frames_model(items@);
                                    lemma_frames_model(pre_items);
                                }
                                match spec_parse_n(buf@.skip(c as int), v - idx - 1) {
                                    SpecParseN::Done(ms, c2) => {
                                        assert(frames_model(pre_items) + (seq![m] + ms)
                                            =~= frames_model(items@) + ms);
                                    },
                                    _ => {},
                                }
                            }
                            cur = c;
                            idx = idx + 1;
                        },
                        ParseOutcome::Partial => {
                            return ParseOutcome::Partial;
                        },
                        ParseOutcome::Fail => {
                            return ParseOutcome::Fail;
                        },
                    }
                }
                ParseOutcome::Done(Frame::Array(items), cur)
            },
        }
    } else {
        ParseOutcome::Fail
    }
}

/// Parses the contents of `buf`, returning the first frame and the number
/// of bytes consumed. Returns no frame and zero consumed bytes when the
/// buffer does not yet hold a complete frame; partial parses never consume.
/// Fails exactly on a malformed buffer.
pub fn decode(buf: &[u8]) -> (r: Result<(Option<Frame>, usize), RedisProtocolError>)
    ensures
        match spec_parse(buf@) {
            SpecParse::Done(m, c) => r matches Ok(p) && p.0 matches Some(f) && frame_model(f) == m
                && p.1 == c,
            SpecParse::Partial => r matches Ok(p) && p.0 is None && p.1 == 0,
            SpecParse::Fail => r matches Err(e) && e.spec_kind()
                == RedisProtocolErrorKind::DecodeError,
        },
{
    proof {
        assert(buf@.skip(0) =~= buf@);
    }
    match parse_at(buf, 0) {
        ParseOutcome::Done(f, c) => Ok((Some(f), c)),
        ParseOutcome::Partial => Ok((None, 0)),
        ParseOutcome::Fail => Err(
            RedisProtocolError::new(RedisProtocolErrorKind::DecodeError, "Invalid frame."),
        ),
    }
}

/// Parses the contents of `buf` as `decode` does. The caller is responsible
/// for consuming the underlying bytes.
pub fn decode_bytes(buf: &Vec<u8>) -> (r: Result<(Option<Frame>, usize), RedisProtocolError>)
    ensures
        match spec_parse(buf@) {
            SpecParse::Done(m, c) => r matches Ok(p) && p.0 matches Some(f) && frame_model(f) == m
                && p.1 == c,
            SpecParse::Partial => r matches Ok(p) && p.0 is None && p.1 == 0,
            SpecParse::Fail => r matches Err(e) && e.spec_kind()
                == RedisProtocolErrorKind::DecodeError,
        },
{
    decode(buf.as_slice())
}

} // verus!
