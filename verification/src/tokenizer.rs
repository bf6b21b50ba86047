//! Turning a RESP array frame or a raw text line into an argv token list.

use vstd::prelude::*;
use vstd::utf8::{decode_utf8, valid_utf8};
use crate::decode::{frame_model, frames_model, lemma_frames_model, spec_parse, FrameModel,
    SpecParse};
use crate::parser::{quoted_join, spec_parse_raw, token_quotable, token_text,
    lemma_parse_raw_of_quoted};
use crate::text::{bytes_to_string, dec_chars_i64, push_i64_dec};
use crate::types::Frame;

verus! {

/// The token a frame contributes to an argv list: the text of a simple
/// string, the numeral of an integer, the UTF-8 text of a bulk string
/// (empty when invalid); other frames contribute none.
pub open spec fn token_of_model(m: FrameModel) -> Option<Seq<char>> {
    match m {
        FrameModel::Simple(t) => Some(t),
        FrameModel::Int(i) => Some(dec_chars_i64(i as int)),
        FrameModel::Bulk(b) => Some(token_text(b)),
        _ => None,
    }
}

/// The argv tokens of a sequence of frames.
pub open spec fn tokens_of_models(ms: Seq<FrameModel>) -> Seq<Seq<char>>
    decreases ms.len(),
{
    if ms.len() == 0 {
        Seq::empty()
    } else {
        (match token_of_model(ms[0]) {
            Some(t) => seq![t],
            None => Seq::empty(),
        }) + tokens_of_models(ms.drop_first())
    }
}

proof fn lemma_tokens_take_snoc(ms: Seq<FrameModel>, i: int)
    requires
        0 <= i < ms.len(),
    ensures
        tokens_of_models(ms.take(i + 1)) == tokens_of_models(ms.take(i)) + (match token_of_model(
            ms[i],
        ) {
            Some(t) => seq![t],
            None => Seq::empty(),
        }),
    decreases i,
{
    if i == 0 {
        assert(ms.take(1).drop_first() =~= Seq::<FrameModel>::empty());
        assert(ms.take(0) =~= Seq::<FrameModel>::empty());
        assert(tokens_of_models(ms.take(1)) =~= tokens_of_models(ms.take(0)) + (
        match token_of_model(ms[0]) {
            Some(t) => seq![t],
            None => Seq::empty(),
        }));
    } else {
        lemma_tokens_take_snoc(ms.drop_first(), i - 1);
        let a = ms.take(i + 1);
        let b = ms.take(i);
        assert(a.drop_first() =~= ms.drop_first().take(i));
        assert(b.drop_first() =~= ms.drop_first().take(i - 1));
        assert(ms.drop_first().take(i - 1 + 1) == ms.drop_first().take(i));
        assert(ms.drop_first()[i - 1] == ms[i]);
        assert(tokens_of_models(a) =~= tokens_of_models(b) + (match token_of_model(ms[i]) {
            Some(t) => seq![t],
            None => Seq::empty(),
        }));
    }
}

/// The argv tokens of an array frame, in order: other frames yield none.
pub fn generate_token_from_frame(frame: Frame) -> (r: Vec<String>)
    ensures
        frame_model(frame) matches FrameModel::Arr(ms) ==> r@.map_values(|s: String| s@)
            == tokens_of_models(ms),
        !(frame is Array) ==> r@.len() == 0,
{
    let req = match frame {
        Frame::Array(a) => a,
        _ => {
            let empty: Vec<String> = Vec::new();
            return empty;
        },
    };
    let ghost ms = frames_model(req@);
    proof {
        lemma_frames_model(req@);
    }
    let mut tokens: Vec<String> = Vec::new();
    let mut i: usize = 0;
    while i < req.len()
        invariant
            i <= req@.len(),
            ms == frames_model(req@),
            ms.len() == req@.len(),
            forall|j: int| 0 <= j < req@.len() ==> ms[j] == frame_model(#[trigger] req@[j]),
            tokens@.map_values(|s: String| s@) == tokens_of_models(ms.take(i as int)),
        decreases req@.len() - i,
    {
        let ghost pre = tokens@.map_values(|s: String| s@);
        match req[i] {
            Frame::SimpleString(ref s) => {
                tokens.push(s.clone());
                proof {
                    assert(tokens@.map_values(|s: String| s@) =~= pre.push(tokens@.last()@));
                }
            },
            Frame::Integer(n) => {
                let mut t = String::new();
                push_i64_dec(&mut t, n);
                tokens.push(t);
                proof {
                    assert(tokens@.map_values(|s: String| s@) =~= pre.push(tokens@.last()@));
                }
            },
            Frame::BulkString(ref b) => {
                let st = match bytes_to_string(b) {
                    Some(s) => s,
                    None => String::new(),
                };
                tokens.push(st);
                proof {
                    assert(tokens@.map_values(|s: String| s@) =~= pre.push(tokens@.last()@));
                }
            },
            _ => {},
        }
        proof {
            lemma_tokens_take_snoc(ms, i as int);
        }
        i = i + 1;
    }
    proof {
        assert(ms.take(ms.len() as int) =~= ms);
    }
    tokens
}

/// The argv tokens of a buffer holding a RESP array frame; anything else
/// yields no tokens.
pub fn generate_tokens_from_resp(buf: &[u8]) -> (r: Vec<String>)
    ensures
        match spec_parse(buf@) {
            SpecParse::Done(m, c) => (m matches FrameModel::Arr(ms) ==> r@.map_values(
                |s: String| s@,
            ) == tokens_of_models(ms)) && (!(m is Arr) ==> r@.len() == 0),
            _ => r@.len() == 0,
        },
{
    let frame = match crate::decode::decode(buf) {
        Ok((Some(f), _)) => f,
        Ok((None, _)) => {
            let empty: Vec<String> = Vec::new();
            return empty;
        },
        Err(_) => {
            let empty: Vec<String> = Vec::new();
            return empty;
        },
    };
    generate_token_from_frame(frame)
}

/// The argv tokens of a raw text line.
pub fn generate_tokens(cmd: &[u8]) -> (r: Vec<String>)
    ensures
        r@.len() == spec_parse_raw(cmd@).len(),
        forall|k: int|
            0 <= k < r@.len() ==> #[trigger] r@[k]@ == token_text(spec_parse_raw(cmd@)[k]),
{
    crate::parser::parse_raw_cmd(cmd)
}

proof fn lemma_tokens_of_bulks(toks: Seq<Seq<u8>>)
    ensures
        tokens_of_models(Seq::new(toks.len(), |i: int| FrameModel::Bulk(toks[i])))
            == toks.map_values(|t: Seq<u8>| token_text(t)),
    decreases toks.len(),
{
    let ms = Seq::new(toks.len(), |i: int| FrameModel::Bulk(toks[i]));
    if toks.len() == 0 {
        assert(tokens_of_models(ms) =~= toks.map_values(|t: Seq<u8>| token_text(t)));
    } else {
        lemma_tokens_of_bulks(toks.drop_first());
        assert(ms.drop_first() =~= Seq::new(
            toks.drop_first().len(),
            |i: int| FrameModel::Bulk(toks.drop_first()[i]),
        ));
        assert(tokens_of_models(ms) =~= toks.map_values(|t: Seq<u8>| token_text(t)));
    }
}

/// Token idempotence: tokenizing the backtick-quoted text form of a token
/// list and tokenizing the RESP array that carries the same tokens as bulk
/// strings yield the same argv tokens, so the two forms compile to the same
/// command.
pub proof fn lemma_token_idempotence(f: Frame, toks: Seq<Seq<u8>>)
    requires
        toks.len() >= 1,
        forall|k: int| 0 <= k < toks.len() ==> token_quotable(#[trigger] toks[k]),
        forall|k: int|
            0 <= k < toks.len() ==> (#[trigger] toks[k]).len() == 0 || toks[k][0] != 32,
        crate::laws::in_grammar(f),
        frame_model(f) == FrameModel::Arr(Seq::new(toks.len(), |i: int| FrameModel::Bulk(toks[i]))),
    ensures
        spec_parse(crate::utils::frame_enc(f)) matches SpecParse::Done(m, c) && m == frame_model(f)
            && c == crate::utils::frame_enc(f).len(),
        tokens_of_models(frame_model(f)->Arr_0) == spec_parse_raw(quoted_join(toks)).map_values(
            |t: Seq<u8>| token_text(t),
        ),
{
    crate::laws::lemma_round_trip(f);
    lemma_parse_raw_of_quoted(toks);
    lemma_tokens_of_bulks(toks);
}

} // verus!
