//! The codec's laws: decoding an encoding yields the frame back and
//! consumes exactly its bytes, and no strict prefix of an encoding decodes
//! to anything.

use vstd::prelude::*;
use vstd::utf8::{
    char_is_scalar, char_u32_cast, encode_scalar, encode_utf8, encode_utf8_decode_utf8,
    encode_utf8_valid_utf8, has_width_1_encoding, has_width_2_encoding, has_width_3_encoding,
    is_scalar,
};
use crate::num::{
    dec_rep, dec_rep_i64, is_digit, all_digits, lemma_dec_rep_wf, lemma_parse_int_rep, parse_i64,
    parse_int, dec_val,
};
use crate::decode::{
    find_crlf, frame_model, frames_model, lemma_find_crlf_is, lemma_find_crlf_props,
    lemma_frames_model, spec_parse, spec_parse_n, error_model_of, FrameModel, SpecParse,
    SpecParseN,
};
use crate::types::{Frame, ARRAY_BYTE, BULKSTRING_BYTE, ERROR_BYTE, INTEGER_BYTE,
    SIMPLESTRING_BYTE};
use crate::utils::{crlf, frame_enc, frames_enc, null_enc, spec_starts_with};

verus! {

/// Text that may ride in a simple string or error frame: no carriage
/// return and no line feed.
pub open spec fn line_safe(s: Seq<char>) -> bool {
    forall|i: int| 0 <= i < s.len() ==> s[i] != '\r' && #[trigger] s[i] != '\n'
}

/// The frames of the wire grammar: what the encoder may be handed and the
/// decoder hands back unchanged. Simple strings and errors carry no line
/// breaks; error text does not open with a reserved redirection prefix;
/// lengths fit a signed 64-bit length field; redirection frames are not in
/// the grammar, since they go out as plain errors.
pub open spec fn in_grammar(f: Frame) -> bool
    decreases f,
{
    match f {
        Frame::SimpleString(s) => line_safe(s@),
        Frame::Error(s) => line_safe(s@) && !spec_starts_with(s@, "MOVED"@) && !spec_starts_with(
            s@,
            "ASK"@,
        ),
        Frame::Integer(_) => true,
        Frame::BulkString(b) => b@.len() <= i64::MAX,
        Frame::Null => true,
        Frame::Array(v) => v@.len() <= i64::MAX && (forall|i: int|
            0 <= i < v@.len() ==> in_grammar(#[trigger] v@[i])),
        Frame::Moved(_) => false,
        Frame::Ask(_) => false,
    }
}

proof fn lemma_encode_scalar_no_crlf(c: char)
    requires
        c != '\r',
        c != '\n',
    ensures
        forall|i: int|
            0 <= i < encode_scalar(c as u32).len() ==> #[trigger] encode_scalar(c as u32)[i] != 13
                && encode_scalar(c as u32)[i] != 10,
{
    broadcast use char_is_scalar, char_u32_cast;

    let u = c as u32;
    assert(is_scalar(u));
    if has_width_1_encoding(u) {
        assert((u & 0x7F) == u) by (bit_vector)
            requires
                u < 0x80,
        ;
        assert(u != 13 && u != 10) by {
            if u == 13 {
                assert('\r' as u32 == 13);
                assert((13u32 as char) == c);
                assert((13u32 as char) == '\r');
            }
            if u == 10 {
                assert('\n' as u32 == 10);
                assert((10u32 as char) == c);
                assert((10u32 as char) == '\n');
            }
        }
        assert(encode_scalar(u) == seq![(u & 0x7F) as u8]);
        assert((u & 0x7F) as u8 != 13 && (u & 0x7F) as u8 != 10);
    } else {
        let lead2 = vstd::utf8::leading_byte_width_2(u);
        let lead3 = vstd::utf8::leading_byte_width_3(u);
        let lead4 = vstd::utf8::leading_byte_width_4(u);
        let cont1 = vstd::utf8::last_continuation_byte(u);
        let cont2 = vstd::utf8::second_last_continuation_byte(u);
        let cont3 = vstd::utf8::third_last_continuation_byte(u);
        assert(lead2 >= 0xC0 && lead3 >= 0xE0 && lead4 >= 0xF0 && cont1 >= 0x80 && cont2 >= 0x80
            && cont3 >= 0x80) by (bit_vector)
            requires
                lead2 == 0xC0 | ((u >> 6) & 0x1F) as u8,
                lead3 == 0xE0 | ((u >> 12) & 0x0F) as u8,
                lead4 == 0xF0 | ((u >> 18) & 0x7) as u8,
                cont1 == 0x80 | (u & 0x3F) as u8,
                cont2 == 0x80 | ((u >> 6) & 0x3F) as u8,
                cont3 == 0x80 | ((u >> 12) & 0x3F) as u8,
        ;
    }
}

/// The UTF-8 bytes of line-safe text contain no CR and no LF.
proof fn lemma_encode_utf8_no_crlf(s: Seq<char>)
    requires
        line_safe(s),
    ensures
        forall|i: int|
            0 <= i < encode_utf8(s).len() ==> #[trigger] encode_utf8(s)[i] != 13 && encode_utf8(
                s,
            )[i] != 10,
    decreases s.len(),
{
    if s.len() > 0 {
        lemma_encode_scalar_no_crlf(s[0]);
        assert(line_safe(s.drop_first())) by {
            assert(forall|i: int|
                0 <= i < s.drop_first().len() ==> #[trigger] s.drop_first()[i] == s[i + 1]);
        }
        lemma_encode_utf8_no_crlf(s.drop_first());
        let head = encode_scalar(s[0] as u32);
        let tail = encode_utf8(s.drop_first());
        assert(encode_utf8(s) == head + tail);
        assert forall|i: int|
            0 <= i < encode_utf8(s).len() implies #[trigger] encode_utf8(s)[i] != 13 && encode_utf8(
            s,
        )[i] != 10 by {
            if i < head.len() {
                assert(encode_utf8(s)[i] == head[i]);
            } else {
                assert(encode_utf8(s)[i] == tail[i - head.len()]);
            }
        }
    }
}

/// Digit strings, and numerals with their sign, contain no CR and no LF.
proof fn lemma_numeral_no_crlf(s: Seq<u8>)
    requires
        forall|i: int| 0 <= i < s.len() ==> is_digit(#[trigger] s[i]) || s[i] == 45,
    ensures
        forall|i: int| 0 <= i < s.len() ==> #[trigger] s[i] != 13 && s[i] != 10,
{
}

/// A payload line with no CR/LF followed by CRLF and anything at all has
/// its first CRLF exactly at the end of the payload.
proof fn lemma_line_crlf(payload: Seq<u8>, tail: Seq<u8>)
    requires
        forall|i: int| 0 <= i < payload.len() ==> #[trigger] payload[i] != 13 && payload[i] != 10,
    ensures
        find_crlf(payload + crlf() + tail) == payload.len(),
{
    let s = payload + crlf() + tail;
    let k = payload.len() as int;
    assert(s[k] == 13);
    assert(s[k + 1] == 10);
    assert forall|j: int| #![trigger s[j]] 0 <= j < k implies !(s[j] == 13 && s[j + 1] == 10) by {
        assert(s[j] == payload[j]);
    }
    lemma_find_crlf_is(s, k);
}

/// Every frame's wire form is nonempty.
pub proof fn lemma_frame_enc_nonempty(f: Frame)
    ensures
        frame_enc(f).len() >= 1,
{
    match f {
        Frame::SimpleString(s) => {},
        Frame::Error(s) => {},
        Frame::Moved(s) => {},
        Frame::Ask(s) => {},
        Frame::Integer(i) => {},
        Frame::BulkString(b) => {},
        Frame::Null => {},
        Frame::Array(v) => {},
    }
}

/// Round trip, generalized over what follows the encoding: parsing
/// `encode(f)` followed by anything yields `f`'s shape and consumes
/// exactly the encoding.
#[verifier::rlimit(60)]
pub proof fn lemma_parse_of_encoding(f: Frame, tail: Seq<u8>)
    requires
        in_grammar(f),
    ensures
        spec_parse(frame_enc(f) + tail) == SpecParse::Done(
            frame_model(f),
            frame_enc(f).len() as int,
        ),
    decreases f,
{
    broadcast use encode_utf8_valid_utf8, encode_utf8_decode_utf8, lemma_dec_rep_wf;

    let s = frame_enc(f) + tail;
    match f {
        Frame::SimpleString(str0) => {
            let payload = encode_utf8(str0@);
            lemma_encode_utf8_no_crlf(str0@);
            assert(s.skip(1) =~= payload + crlf() + tail);
            lemma_line_crlf(payload, tail);
            let rest = s.skip(1);
            assert(rest.take(payload.len() as int) =~= payload);
            assert(s[0] == SIMPLESTRING_BYTE);
        },
        Frame::Error(str0) => {
            let payload = encode_utf8(str0@);
            lemma_encode_utf8_no_crlf(str0@);
            assert(s.skip(1) =~= payload + crlf() + tail);
            lemma_line_crlf(payload, tail);
            let rest = s.skip(1);
            assert(rest.take(payload.len() as int) =~= payload);
            assert(s[0] == ERROR_BYTE);
            assert(error_model_of(str0@) == FrameModel::Error(str0@));
        },
        Frame::Integer(i) => {
            let payload = dec_rep_i64(i as int);
            assert(forall|k: int|
                0 <= k < payload.len() ==> is_digit(#[trigger] payload[k]) || payload[k] == 45)
                by {
                if i < 0 {
                    assert(forall|k: int|
                        1 <= k < payload.len() ==> #[trigger] payload[k] == dec_rep((-i) as nat)[k
                            - 1]);
                }
            }
            lemma_numeral_no_crlf(payload);
            assert(s.skip(1) =~= payload + crlf() + tail);
            lemma_line_crlf(payload, tail);
            let rest = s.skip(1);
            assert(rest.take(payload.len() as int) =~= payload);
            lemma_parse_int_rep(i as int);
            assert(s[0] == INTEGER_BYTE);
        },
        Frame::BulkString(b) => {
            let digits = dec_rep(b@.len());
            lemma_numeral_no_crlf(digits);
            assert(s.skip(1) =~= digits + crlf() + (b@ + crlf() + tail));
            lemma_line_crlf(digits, b@ + crlf() + tail);
            let rest = s.skip(1);
            let dl = digits.len() as int;
            assert(rest.take(dl) =~= digits);
            crate::num::lemma_dec_val_rep(b@.len());
            assert(digits[0] != 43 && digits[0] != 45);
            assert(parse_i64(digits) == Some(b@.len() as i64));
            let start = 3 + dl;
            assert(start + b@.len() + 2 == frame_enc(f).len());
            assert(start + b@.len() + 2 <= s.len());
            assert(s.subrange(start, start + b@.len() as int) =~= b@);
            assert(s[0] == BULKSTRING_BYTE);
        },
        Frame::Null => {
            assert(s[0] == BULKSTRING_BYTE);
            let rest = s.skip(1);
            assert(rest =~= seq![45u8, 49u8, 13u8, 10u8] + tail);
            assert(rest[2] == 13 && rest[3] == 10);
            assert(rest[0] == 45 && rest[1] == 49);
            assert forall|j: int| #![trigger rest[j]] 0 <= j < 2 implies !(rest[j] == 13 && rest[j
                + 1] == 10) by {}
            lemma_find_crlf_is(rest, 2);
            let line = rest.take(2);
            assert(line =~= seq![45u8, 49u8]);
            assert(line.drop_first() =~= seq![49u8]);
            assert(all_digits(seq![49u8]));
            assert(dec_val(Seq::<u8>::empty()) == 0);
            assert(seq![49u8].drop_last() =~= Seq::<u8>::empty());
            assert(seq![49u8].last() == 49);
            assert(dec_val(seq![49u8]) == 1);
            assert(parse_int(line) == Some(-1int));
            assert(parse_i64(line) == Some(-1i64));
        },
        Frame::Array(v) => {
            let digits = dec_rep(v@.len());
            lemma_numeral_no_crlf(digits);
            let body = frames_enc(v@);
            assert(s.skip(1) =~= digits + crlf() + (body + tail));
            lemma_line_crlf(digits, body + tail);
            let rest = s.skip(1);
            let dl = digits.len() as int;
            assert(rest.take(dl) =~= digits);
            crate::num::lemma_dec_val_rep(v@.len());
            assert(digits[0] != 43 && digits[0] != 45);
            assert(parse_i64(digits) == Some(v@.len() as i64));
            let start = 3 + dl;
            assert(s.skip(start) =~= body + tail);
            assert(decreases_to!(f => f->Array_0));
            assert(decreases_to!(f->Array_0 => v@));
            lemma_parse_n_of_encoding(v@, tail);
            assert(s[0] == ARRAY_BYTE);
            assert(frame_enc(f).len() == start + body.len());
        },
        Frame::Moved(_) => {
            assert(false);
        },
        Frame::Ask(_) => {
            assert(false);
        },
    }
}

/// Parsing the concatenated encodings of `v.len()` frames, followed by
/// anything, yields their shapes and consumes exactly the encodings.
pub proof fn lemma_parse_n_of_encoding(v: Seq<Frame>, tail: Seq<u8>)
    requires
        forall|i: int| 0 <= i < v.len() ==> in_grammar(#[trigger] v[i]),
    ensures
        spec_parse_n(frames_enc(v) + tail, v.len() as int) == SpecParseN::Done(
            frames_model(v),
            frames_enc(v).len() as int,
        ),
    decreases v,
{
    let s = frames_enc(v) + tail;
    if v.len() == 0 {
        assert(frames_enc(v) =~= Seq::<u8>::empty());
    } else {
        let e0 = frame_enc(v[0]);
        let drop = v.drop_first();
        let body = frames_enc(drop);
        assert(frames_enc(v) == e0 + body);
        assert(s =~= e0 + (body + tail));
        assert(decreases_to!(v => v[0]));
        lemma_parse_of_encoding(v[0], body + tail);
        lemma_frame_enc_nonempty(v[0]);
        assert(spec_parse(s) == SpecParse::Done(frame_model(v[0]), e0.len() as int));
        assert(0 < e0.len() <= s.len());
        assert(s.skip(e0.len() as int) =~= body + tail);
        lemma_parse_n_of_encoding(drop, tail);
        assert(spec_parse_n(s.skip(e0.len() as int), v.len() - 1) == SpecParseN::Done(
            frames_model(drop),
            body.len() as int,
        ));
        assert(seq![frame_model(v[0])] + frames_model(drop) == frames_model(v));
        assert(spec_parse_n(s, v.len() as int) == SpecParseN::Done(
            frames_model(v),
            frames_enc(v).len() as int,
        ));
    }
}

/// Round trip: for every frame of the grammar, decoding its encoding
/// yields the frame back and consumes exactly the encoding's length.
pub proof fn lemma_round_trip(f: Frame)
    requires
        in_grammar(f),
    ensures
        spec_parse(frame_enc(f)) == SpecParse::Done(frame_model(f), frame_enc(f).len() as int),
{
    lemma_parse_of_encoding(f, Seq::empty());
    assert(frame_enc(f) + Seq::<u8>::empty() =~= frame_enc(f));
}

/// Incrementality: on any strict prefix of a frame's encoding, the parse
/// is partial, so a decoder returns no frame and consumes nothing.
pub proof fn lemma_incremental(f: Frame, n: int)
    requires
        in_grammar(f),
        0 <= n < frame_enc(f).len(),
    ensures
        spec_parse(frame_enc(f).take(n)) == SpecParse::Partial,
    decreases f,
{
    broadcast use lemma_dec_rep_wf;

    let enc = frame_enc(f);
    let p = enc.take(n);
    if n == 0 {
        assert(p.len() == 0);
    } else {
        match f {
            Frame::SimpleString(str0) => {
                lemma_encode_utf8_no_crlf(str0@);
                lemma_line_prefix_partial(encode_utf8(str0@), p, n);
            },
            Frame::Error(str0) => {
                lemma_encode_utf8_no_crlf(str0@);
                lemma_line_prefix_partial(encode_utf8(str0@), p, n);
            },
            Frame::Integer(i) => {
                let payload = dec_rep_i64(i as int);
                assert(forall|k: int|
                    0 <= k < payload.len() ==> is_digit(#[trigger] payload[k]) || payload[k] == 45)
                    by {
                    if i < 0 {
                        assert(forall|k: int|
                            1 <= k < payload.len() ==> #[trigger] payload[k] == dec_rep(
                                (-i) as nat,
                            )[k - 1]);
                    }
                }
                lemma_numeral_no_crlf(payload);
                lemma_line_prefix_partial(payload, p, n);
            },
            Frame::Null => {
                let rest = p.skip(1);
                assert(rest.len() <= 3);
                assert(forall|j: int|
                    0 <= j < rest.len() ==> #[trigger] rest[j] == null_enc()[j + 1]);
                lemma_find_crlf_props(rest);
                if find_crlf(rest) >= 0 {
                    let k = find_crlf(rest);
                    assert(rest[k] == 13 && rest[k + 1] == 10);
                    assert(false);
                }
            },
            Frame::BulkString(b) => {
                let digits = dec_rep(b@.len());
                let dl = digits.len() as int;
                lemma_numeral_no_crlf(digits);
                if n <= 1 + dl + 1 {
                    lemma_line_prefix_partial(digits, p, n);
                } else {
                    let rest = p.skip(1);
                    let tail2 = p.skip(3 + dl);
                    assert(rest =~= digits + crlf() + tail2);
                    lemma_line_crlf(digits, tail2);
                    assert(rest.take(dl) =~= digits);
                    crate::num::lemma_dec_val_rep(b@.len());
                    assert(digits[0] != 43 && digits[0] != 45);
                    assert(parse_i64(digits) == Some(b@.len() as i64));
                    assert(3 + dl + b@.len() + 2 == enc.len());
                    assert(3 + dl + b@.len() + 2 > p.len());
                }
            },
            Frame::Array(v) => {
                let digits = dec_rep(v@.len());
                let dl = digits.len() as int;
                lemma_numeral_no_crlf(digits);
                if n <= 1 + dl + 1 {
                    lemma_line_prefix_partial(digits, p, n);
                } else {
                    let body = frames_enc(v@);
                    let m = n - dl - 3;
                    let rest = p.skip(1);
                    assert(rest =~= digits + crlf() + body.take(m));
                    lemma_line_crlf(digits, body.take(m));
                    assert(rest.take(dl) =~= digits);
                    crate::num::lemma_dec_val_rep(v@.len());
                    assert(digits[0] != 43 && digits[0] != 45);
                    assert(parse_i64(digits) == Some(v@.len() as i64));
                    assert(p.skip(3 + dl) =~= body.take(m));
                    assert(0 <= m < body.len());
                    assert(decreases_to!(f => f->Array_0));
                    assert(decreases_to!(f->Array_0 => v@));
                    lemma_parse_n_prefix_partial(v@, m);
                }
            },
            Frame::Moved(_) => {
                assert(false);
            },
            Frame::Ask(_) => {
                assert(false);
            },
        }
    }
}

/// A strict prefix of a CRLF-terminated line never shows a CRLF pair, so
/// line-shaped frames parse as partial.
proof fn lemma_line_prefix_partial(payload: Seq<u8>, p: Seq<u8>, n: int)
    requires
        forall|i: int| 0 <= i < payload.len() ==> #[trigger] payload[i] != 13 && payload[i] != 10,
        1 <= n,
        p.len() == n,
        n <= 1 + payload.len() + 1,
        forall|j: int| 1 <= j < n ==> #[trigger] p[j] == (payload + crlf())[j - 1],
    ensures
        find_crlf(p.skip(1)) == -1,
{
    let rest = p.skip(1);
    lemma_find_crlf_props(rest);
    if find_crlf(rest) >= 0 {
        let k = find_crlf(rest);
        assert(rest[k] == 13 && rest[k + 1] == 10);
        assert(rest[k] == (payload + crlf())[k]);
        assert(rest[k + 1] == (payload + crlf())[k + 1]);
        assert(k + 1 < rest.len());
        assert(rest.len() == n - 1 <= payload.len() + 1);
        if k + 1 < payload.len() {
            assert(payload[k + 1] == 10);
            assert(false);
        } else {
            assert(k < payload.len());
            assert(payload[k] == 13);
            assert(false);
        }
    }
}

/// A strict prefix of the concatenated encodings of `v.len()` frames
/// parses as partial.
pub proof fn lemma_parse_n_prefix_partial(v: Seq<Frame>, m: int)
    requires
        forall|i: int| 0 <= i < v.len() ==> in_grammar(#[trigger] v[i]),
        0 <= m < frames_enc(v).len(),
    ensures
        spec_parse_n(frames_enc(v).take(m), v.len() as int) == SpecParseN::Partial,
    decreases v,
{
    let e0 = frame_enc(v[0]);
    let drop = v.drop_first();
    let body = frames_enc(drop);
    assert(frames_enc(v) == e0 + body);
    let p = frames_enc(v).take(m);
    assert(decreases_to!(v => v[0]));
    if m < e0.len() {
        assert(p =~= e0.take(m));
        lemma_incremental(v[0], m);
        assert(spec_parse(p) == SpecParse::Partial);
    } else {
        assert(p =~= e0 + body.take(m - e0.len()));
        lemma_parse_of_encoding(v[0], body.take(m - e0.len()));
        lemma_frame_enc_nonempty(v[0]);
        assert(spec_parse(p) == SpecParse::Done(frame_model(v[0]), e0.len() as int));
        assert(0 < e0.len() <= p.len());
        assert(p.skip(e0.len() as int) =~= body.take(m - e0.len()));
        if drop.len() == 0 {
            assert(body.len() == 0);
            assert(frames_enc(v).len() == e0.len());
            assert(false);
        } else {
            if m == e0.len() {
                assert(p.skip(e0.len() as int).len() == 0);
                assert(spec_parse(p.skip(e0.len() as int)) == SpecParse::Partial);
            } else {
                assert(0 <= m - e0.len() < body.len());
                lemma_parse_n_prefix_partial(drop, m - e0.len());
            }
        }
    }
}

} // verus!
