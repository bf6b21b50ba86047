//! The text tokenizer: splits a raw command line into tokens, space as the
//! delimiter and backtick as the text qualifier.

use vstd::prelude::*;
use vstd::utf8::{decode_utf8, valid_utf8};
use crate::text::bytes_to_string;

verus! {

/// One step of the tokenizer: at position `i` with the quoting state, the
/// bytes of the block being built, and the tokens already produced. A
/// backtick opens a quoted segment at the start of a token and closes one
/// at its end; doubled spaces outside a quote collapse; a space outside a
/// quote ends the token.
pub open spec fn raw_tokens(
    cmd: Seq<u8>,
    i: int,
    ins: bool,
    block: Seq<u8>,
    acc: Seq<Seq<u8>>,
) -> Seq<Seq<u8>>
    decreases cmd.len() - i,
{
    if i < 0 || i >= cmd.len() {
        acc.push(block)
    } else {
        let b = cmd[i];
        let prev: u8 = if i > 0 {
            cmd[i - 1]
        } else {
            0
        };
        let next: u8 = if i + 1 < cmd.len() {
            cmd[i + 1]
        } else {
            0
        };
        if b == 96 && (prev == 0 || prev == 32) && !ins {
            raw_tokens(cmd, i + 1, true, block, acc)
        } else if b == 96 && (next == 0 || next == 32) && ins {
            raw_tokens(cmd, i + 1, false, block, acc)
        } else if b == 32 && next == 32 && !ins {
            raw_tokens(cmd, i + 1, ins, block, acc)
        } else if b == 32 && !ins {
            raw_tokens(cmd, i + 1, ins, Seq::empty(), acc.push(block))
        } else {
            raw_tokens(cmd, i + 1, ins, block.push(b), acc)
        }
    }
}

/// The token byte strings of a raw command line.
pub open spec fn spec_parse_raw(cmd: Seq<u8>) -> Seq<Seq<u8>> {
    raw_tokens(cmd, 0, false, Seq::empty(), Seq::empty())
}

/// The text of a token: its bytes decoded as UTF-8, or nothing when they
/// are not valid UTF-8.
pub open spec fn token_text(b: Seq<u8>) -> Seq<char> {
    if valid_utf8(b) {
        decode_utf8(b)
    } else {
        Seq::empty()
    }
}

/// Splits a raw command line into tokens: space-delimited, backtick-quoted
/// segments kept whole, consecutive unquoted spaces collapsed. Tokens that
/// are not valid UTF-8 come out empty.
pub fn parse_raw_cmd(cmd: &[u8]) -> (r: Vec<String>)
    ensures
        r@.len() == spec_parse_raw(cmd@).len(),
        forall|k: int|
            0 <= k < r@.len() ==> #[trigger] r@[k]@ == token_text(spec_parse_raw(cmd@)[k]),
{
    let n = cmd.len();
    let mut blocks: Vec<Vec<u8>> = Vec::new();
    let mut block: Vec<u8> = Vec::new();
    let mut ins = false;
    let mut i: usize = 0;
    proof {
        assert(blocks@.map_values(|bb: Vec<u8>| bb@) =~= Seq::<Seq<u8>>::empty());
    }
    while i < n
        invariant
            i <= n,
            n == cmd@.len(),
            spec_parse_raw(cmd@) == raw_tokens(cmd@, i as int, ins, block@, blocks@.map_values(
                |b: Vec<u8>| b@,
            )),
        decreases n - i,
    {
        let b = cmd[i];
        let prev: u8 = if i > 0 {
            cmd[i - 1]
        } else {
            0
        };
        let next: u8 = if i + 1 < n {
            cmd[i + 1]
        } else {
            0
        };
        if b == 96 && (prev == 0 || prev == 32) && !ins {
            ins = true;
        } else if b == 96 && (next == 0 || next == 32) && ins {
            ins = false;
        } else if b == 32 && next == 32 && !ins {
        } else if b == 32 && !ins {
            let ghost old_blocks = blocks@.map_values(|bb: Vec<u8>| bb@);
            blocks.push(block);
            block = Vec::new();
            proof {
                assert(blocks@.map_values(|bb: Vec<u8>| bb@) =~= old_blocks.push(
                    blocks@.last()@,
                ));
            }
        } else {
            block.push(b);
        }
        i = i + 1;
    }
    blocks.push(block);
    let ghost toks = spec_parse_raw(cmd@);
    proof {
        assert(blocks@.map_values(|bb: Vec<u8>| bb@) =~= toks);
    }
    let mut out: Vec<String> = Vec::new();
    let mut k: usize = 0;
    while k < blocks.len()
        invariant
            k <= blocks@.len(),
            blocks@.map_values(|bb: Vec<u8>| bb@) == toks,
            out@.len() == k,
            forall|j: int| 0 <= j < k ==> #[trigger] out@[j]@ == token_text(toks[j]),
        decreases blocks@.len() - k,
    {
        let s = match bytes_to_string(&blocks[k]) {
            Some(s) => s,
            None => String::new(),
        };
        proof {
            assert(blocks@.map_values(|bb: Vec<u8>| bb@)[k as int] == blocks@[k as int]@);
        }
        out.push(s);
        k = k + 1;
    }
    out
}

/// The quoted text form of a token sequence: each token wrapped in
/// backticks, tokens separated by single spaces.
pub open spec fn quoted_join(toks: Seq<Seq<u8>>) -> Seq<u8>
    decreases toks.len(),
{
    if toks.len() == 0 {
        Seq::empty()
    } else if toks.len() == 1 {
        seq![96u8] + toks[0] + seq![96u8]
    } else {
        seq![96u8] + toks[0] + seq![96u8, 32u8] + quoted_join(toks.drop_first())
    }
}

pub open spec fn token_quotable(t: Seq<u8>) -> bool {
    forall|i: int| 0 <= i < t.len() ==> #[trigger] t[i] != 96
}

/// Consuming the quoted bytes of one token from inside the quote: every
/// byte joins the block.
proof fn lemma_consume_quoted(cmd: Seq<u8>, i: int, block: Seq<u8>, acc: Seq<Seq<u8>>, m: int)
    requires
        0 <= i,
        0 <= m,
        i + m < cmd.len(),
        forall|j: int| i <= j < i + m ==> #[trigger] cmd[j] != 96,
        cmd[i + m] == 96,
    ensures
        raw_tokens(cmd, i, true, block, acc) == raw_tokens(
            cmd,
            i + m,
            true,
            block + cmd.subrange(i, i + m),
            acc,
        ),
    decreases m,
{
    if m == 0 {
        assert(block + cmd.subrange(i, i) =~= block);
    } else {
        let b = cmd[i];
        assert(b != 96);
        if b == 32 {
            // inside a quote a space joins the block
            assert(raw_tokens(cmd, i, true, block, acc) == raw_tokens(
                cmd,
                i + 1,
                true,
                block.push(b),
                acc,
            ));
        }
        lemma_consume_quoted(cmd, i + 1, block.push(b), acc, m - 1);
        assert(block.push(b) + cmd.subrange(i + 1, i + m) =~= block + cmd.subrange(i, i + m));
    }
}

/// Consuming one whole quoted token and its trailing separator (or the end
/// of the line).
proof fn lemma_consume_token(cmd: Seq<u8>, i: int, acc: Seq<Seq<u8>>, t: Seq<u8>)
    requires
        0 <= i,
        i == 0 || cmd[i - 1] == 32,
        token_quotable(t),
        i + t.len() + 2 <= cmd.len(),
        cmd[i] == 96,
        cmd.subrange(i + 1, i + 1 + t.len()) == t,
        cmd[i + 1 + t.len()] == 96,
        i + t.len() + 2 == cmd.len() || cmd[i + t.len() + 2] == 32,
        i + t.len() + 2 < cmd.len() ==> (i + t.len() + 3 == cmd.len() || cmd[i + t.len() + 3]
            != 32),
    ensures
        i + t.len() + 2 == cmd.len() ==> raw_tokens(cmd, i, false, Seq::empty(), acc)
            == acc.push(t),
        i + t.len() + 2 < cmd.len() ==> raw_tokens(cmd, i, false, Seq::empty(), acc)
            == raw_tokens(cmd, i + t.len() + 3, false, Seq::empty(), acc.push(t)),
{
    let tl = t.len() as int;
    // the opening backtick: the previous byte is a space or the start
    assert(raw_tokens(cmd, i, false, Seq::empty(), acc) == raw_tokens(
        cmd,
        i + 1,
        true,
        Seq::empty(),
        acc,
    ));
    assert forall|j: int| i + 1 <= j < i + 1 + tl implies #[trigger] cmd[j] != 96 by {
        assert(cmd.subrange(i + 1, i + 1 + tl)[j - i - 1] == cmd[j]);
    }
    lemma_consume_quoted(cmd, i + 1, Seq::empty(), acc, tl);
    assert(Seq::<u8>::empty() + cmd.subrange(i + 1, i + 1 + tl) =~= t);
    // the closing backtick: the next byte is a space or the end
    let close = i + 1 + tl;
    assert(raw_tokens(cmd, close, true, t, acc) == raw_tokens(cmd, close + 1, false, t, acc));
    if close + 1 == cmd.len() {
        assert(raw_tokens(cmd, close + 1, false, t, acc) == acc.push(t));
    } else {
        // the separating space pushes the token; the byte after it is never
        // another space, so unquoted spaces do not collapse here
        assert(cmd[close + 1] == 32);
        assert(raw_tokens(cmd, close + 1, false, t, acc) == raw_tokens(
            cmd,
            close + 2,
            false,
            Seq::empty(),
            acc.push(t),
        ));
    }
}

/// The text form of a token sequence tokenizes back to exactly those
/// tokens: the backtick-quoted rendering is parsed token for token.
pub proof fn lemma_parse_raw_of_quoted(toks: Seq<Seq<u8>>)
    requires
        toks.len() >= 1,
        forall|k: int| 0 <= k < toks.len() ==> token_quotable(#[trigger] toks[k]),
        forall|k: int|
            0 <= k < toks.len() ==> (#[trigger] toks[k]).len() == 0 || toks[k][0] != 32,
    ensures
        spec_parse_raw(quoted_join(toks)) == toks,
{
    assert(quoted_join(toks).subrange(0, quoted_join(toks).len() as int) =~= quoted_join(toks));
    lemma_parse_raw_of_quoted_from(toks, quoted_join(toks), 0, Seq::empty());
    assert(Seq::<Seq<u8>>::empty() + toks =~= toks);
}

proof fn lemma_parse_raw_of_quoted_from(
    toks: Seq<Seq<u8>>,
    cmd: Seq<u8>,
    i: int,
    acc: Seq<Seq<u8>>,
)
    requires
        toks.len() >= 1,
        forall|k: int| 0 <= k < toks.len() ==> token_quotable(#[trigger] toks[k]),
        forall|k: int|
            0 <= k < toks.len() ==> (#[trigger] toks[k]).len() == 0 || toks[k][0] != 32,
        0 <= i,
        i == 0 || cmd[i - 1] == 32,
        cmd.len() == i + quoted_join(toks).len(),
        cmd.subrange(i, cmd.len() as int) == quoted_join(toks),
    ensures
        raw_tokens(cmd, i, false, Seq::empty(), acc) == acc + toks,
    decreases toks.len(),
{
    let t = toks[0];
    let tl = t.len() as int;
    let q = quoted_join(toks);
    assert(cmd[i] == q[0]);
    if toks.len() == 1 {
        assert(q =~= seq![96u8] + t + seq![96u8]);
        assert(cmd[i] == 96);
        assert forall|j: int| 0 <= j < tl implies cmd.subrange(i + 1, i + 1 + tl)[j] == t[j] by {
            assert(cmd[i + 1 + j] == cmd.subrange(i, cmd.len() as int)[1 + j]);
            assert(q[1 + j] == t[j]);
        }
        assert(cmd.subrange(i + 1, i + 1 + tl) =~= t);
        assert(cmd[i + 1 + tl] == q[1 + tl]);
        assert(cmd[i + 1 + tl] == 96);
        assert(i + tl + 2 == cmd.len());
        lemma_consume_token(cmd, i, acc, t);
        assert(acc.push(t) =~= acc + toks);
    } else {
        let rest = toks.drop_first();
        assert(q =~= seq![96u8] + t + seq![96u8, 32u8] + quoted_join(rest));
        assert(cmd[i] == 96);
        assert forall|j: int| 0 <= j < tl implies cmd.subrange(i + 1, i + 1 + tl)[j] == t[j] by {
            assert(cmd[i + 1 + j] == cmd.subrange(i, cmd.len() as int)[1 + j]);
            assert(q[1 + j] == t[j]);
        }
        assert(cmd.subrange(i + 1, i + 1 + tl) =~= t);
        assert(cmd[i + 1 + tl] == q[1 + tl]);
        assert(cmd[i + 1 + tl] == 96);
        assert(cmd[i + 2 + tl] == q[2 + tl]);
        assert(cmd[i + 2 + tl] == 32);
        assert(i + tl + 2 < cmd.len());
        assert(quoted_join(rest)[0] == 96) by {
            if rest.len() == 1 {
                assert(quoted_join(rest) == seq![96u8] + rest[0] + seq![96u8]);
            } else {
                assert(quoted_join(rest) == seq![96u8] + rest[0] + seq![96u8, 32u8] + quoted_join(
                    rest.drop_first(),
                ));
            }
        }
        assert(cmd[i + tl + 3] == q[tl + 3]);
        assert(q[tl + 3] == quoted_join(rest)[0]);
        lemma_consume_token(cmd, i, acc, t);
        let i2 = i + tl + 3;
        assert(cmd.subrange(i2, cmd.len() as int) =~= quoted_join(rest)) by {
            assert(forall|j: int|
                0 <= j < quoted_join(rest).len() ==> #[trigger] cmd.subrange(
                    i2,
                    cmd.len() as int,
                )[j] == cmd[i2 + j] && cmd[i2 + j] == q[tl + 3 + j]);
        }
        assert(cmd[i2 - 1] == 32);
        lemma_parse_raw_of_quoted_from(rest, cmd, i2, acc.push(t));
        assert(acc.push(t) + rest =~= acc + toks);
    }
}

} // verus!
