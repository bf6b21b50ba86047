//! Rendering RESP reply text: every engine reply is built here, so a
//! reply's exact characters follow from these contracts.

use vstd::prelude::*;
use vstd::utf8::encode_utf8;
use crate::text::{dec_chars, dec_chars_i64, push_char, push_i64_dec, push_u64_dec, str_byte_len};

verus! {

/// The CRLF terminator, as characters.
pub open spec fn crlf_chars() -> Seq<char> {
    seq!['\r', '\n']
}

/// A simple-string reply "+<msg>".
pub open spec fn simple_reply(msg: Seq<char>) -> Seq<char> {
    seq!['+'] + msg + crlf_chars()
}

/// An error reply "-<msg>".
pub open spec fn error_reply(msg: Seq<char>) -> Seq<char> {
    seq!['-'] + msg + crlf_chars()
}

/// An integer reply ":<i>".
pub open spec fn int_reply(i: int) -> Seq<char> {
    seq![':'] + dec_chars_i64(i) + crlf_chars()
}

/// A bulk-string reply "$<byte length><content>".
pub open spec fn bulk_reply(s: Seq<char>) -> Seq<char> {
    seq!['$'] + dec_chars(encode_utf8(s).len()) + crlf_chars() + s + crlf_chars()
}

/// An array reply of bulk strings.
pub open spec fn arr_reply(items: Seq<Seq<char>>) -> Seq<char> {
    seq!['*'] + dec_chars(items.len()) + crlf_chars() + cat_bulks(items)
}

pub open spec fn cat_bulks(items: Seq<Seq<char>>) -> Seq<char>
    decreases items.len(),
{
    if items.len() == 0 {
        Seq::empty()
    } else {
        bulk_reply(items[0]) + cat_bulks(items.drop_first())
    }
}

/// A nested array reply, one inner array of bulk strings per item.
pub open spec fn nested_arr_reply(items: Seq<Seq<Seq<char>>>) -> Seq<char> {
    seq!['*'] + dec_chars(items.len()) + crlf_chars() + cat_arrs(items)
}

pub open spec fn cat_arrs(items: Seq<Seq<Seq<char>>>) -> Seq<char>
    decreases items.len(),
{
    if items.len() == 0 {
        Seq::empty()
    } else {
        arr_reply(items[0]) + cat_arrs(items.drop_first())
    }
}

pub proof fn lemma_cat_bulks_snoc(items: Seq<Seq<char>>, i: int)
    requires
        0 <= i < items.len(),
    ensures
        cat_bulks(items.take(i + 1)) == cat_bulks(items.take(i)) + bulk_reply(items[i]),
    decreases i,
{
    if i == 0 {
        assert(items.take(1).drop_first() =~= Seq::<Seq<char>>::empty());
        assert(items.take(0) =~= Seq::<Seq<char>>::empty());
        assert(cat_bulks(items.take(1)) =~= cat_bulks(items.take(0)) + bulk_reply(items[0]));
    } else {
        lemma_cat_bulks_snoc(items.drop_first(), i - 1);
        assert(items.take(i + 1).drop_first() =~= items.drop_first().take(i));
        assert(items.take(i).drop_first() =~= items.drop_first().take(i - 1));
        assert(items.drop_first().take(i - 1 + 1) == items.drop_first().take(i));
        assert(items.drop_first()[i - 1] == items[i]);
        assert(cat_bulks(items.take(i + 1)) =~= cat_bulks(items.take(i)) + bulk_reply(items[i]));
    }
}

pub proof fn lemma_cat_arrs_snoc(items: Seq<Seq<Seq<char>>>, i: int)
    requires
        0 <= i < items.len(),
    ensures
        cat_arrs(items.take(i + 1)) == cat_arrs(items.take(i)) + arr_reply(items[i]),
    decreases i,
{
    if i == 0 {
        assert(items.take(1).drop_first() =~= Seq::<Seq<Seq<char>>>::empty());
        assert(items.take(0) =~= Seq::<Seq<Seq<char>>>::empty());
        assert(cat_arrs(items.take(1)) =~= cat_arrs(items.take(0)) + arr_reply(items[0]));
    } else {
        lemma_cat_arrs_snoc(items.drop_first(), i - 1);
        assert(items.take(i + 1).drop_first() =~= items.drop_first().take(i));
        assert(items.take(i).drop_first() =~= items.drop_first().take(i - 1));
        assert(items.drop_first().take(i - 1 + 1) == items.drop_first().take(i));
        assert(items.drop_first()[i - 1] == items[i]);
        assert(cat_arrs(items.take(i + 1)) =~= cat_arrs(items.take(i)) + arr_reply(items[i]));
    }
}

/// Renders an error reply.
pub fn print_err(msg: &str) -> (r: String)
    ensures
        r@ == error_reply(msg@),
{
    let mut out = String::new();
    push_char(&mut out, '-');
    out.append(msg);
    push_char(&mut out, '\r');
    push_char(&mut out, '\n');
    proof {
        assert(out@ =~= error_reply(msg@));
    }
    out
}

/// Renders an error reply from an already-rendered error message.
pub fn print_from_error(error: &str) -> (r: String)
    ensures
        r@ == error_reply(error@),
{
    print_err(error)
}

/// Renders a simple-string reply.
pub fn print_str(msg: &str) -> (r: String)
    ensures
        r@ == simple_reply(msg@),
{
    let mut out = String::new();
    push_char(&mut out, '+');
    out.append(msg);
    push_char(&mut out, '\r');
    push_char(&mut out, '\n');
    proof {
        assert(out@ =~= simple_reply(msg@));
    }
    out
}

/// Renders a bulk-string reply: the length prefix counts bytes.
pub fn print_string(str: &String) -> (r: String)
    ensures
        r@ == bulk_reply(str@),
{
    let mut out = String::new();
    push_char(&mut out, '$');
    let len = str_byte_len(str.as_str());
    push_u64_dec(&mut out, len as u64);
    push_char(&mut out, '\r');
    push_char(&mut out, '\n');
    out.append(str.as_str());
    push_char(&mut out, '\r');
    push_char(&mut out, '\n');
    proof {
        assert(out@ =~= bulk_reply(str@));
    }
    out
}

/// Renders an integer reply.
pub fn print_integer(i: i64) -> (r: String)
    ensures
        r@ == int_reply(i as int),
{
    let mut out = String::new();
    push_char(&mut out, ':');
    push_i64_dec(&mut out, i);
    push_char(&mut out, '\r');
    push_char(&mut out, '\n');
    proof {
        assert(out@ =~= int_reply(i as int));
    }
    out
}

/// Renders "+OK".
pub fn print_ok() -> (r: String)
    ensures
        r@ == simple_reply("OK"@),
{
    print_str("OK")
}

/// Renders "+PONG".
pub fn print_pong() -> (r: String)
    ensures
        r@ == simple_reply("PONG"@),
{
    print_str("PONG")
}

/// Renders an array reply of borrowed strings.
pub fn print_string_arr(arr: Vec<&String>) -> (r: String)
    ensures
        r@ == arr_reply(arr@.map_values(|s: &String| s@)),
{
    let ghost items = arr@.map_values(|s: &String| s@);
    let mut out = String::new();
    push_char(&mut out, '*');
    push_u64_dec(&mut out, arr.len() as u64);
    push_char(&mut out, '\r');
    push_char(&mut out, '\n');
    let ghost headered = out@;
    proof {
        assert(headered =~= seq!['*'] + dec_chars(items.len()) + crlf_chars());
        assert(out@ =~= headered + cat_bulks(items.take(0)));
    }
    let mut i: usize = 0;
    while i < arr.len()
        invariant
            i <= arr@.len(),
            items == arr@.map_values(|s: &String| s@),
            out@ == headered + cat_bulks(items.take(i as int)),
        decreases arr@.len() - i,
    {
        let piece = print_string(arr[i]);
        out.append(piece.as_str());
        proof {
            lemma_cat_bulks_snoc(items, i as int);
            assert(items[i as int] == arr@[i as int]@);
        }
        i = i + 1;
    }
    proof {
        assert(items.take(items.len() as int) =~= items);
        assert(out@ =~= arr_reply(items));
    }
    out
}

/// Renders an array reply of owned strings.
pub fn print_arr(arr: Vec<String>) -> (r: String)
    ensures
        r@ == arr_reply(arr@.map_values(|s: String| s@)),
{
    let ghost items = arr@.map_values(|s: String| s@);
    let mut out = String::new();
    push_char(&mut out, '*');
    push_u64_dec(&mut out, arr.len() as u64);
    push_char(&mut out, '\r');
    push_char(&mut out, '\n');
    let ghost headered = out@;
    proof {
        assert(headered =~= seq!['*'] + dec_chars(items.len()) + crlf_chars());
        assert(out@ =~= headered + cat_bulks(items.take(0)));
    }
    let mut i: usize = 0;
    while i < arr.len()
        invariant
            i <= arr@.len(),
            items == arr@.map_values(|s: String| s@),
            out@ == headered + cat_bulks(items.take(i as int)),
        decreases arr@.len() - i,
    {
        let piece = print_string(&arr[i]);
        out.append(piece.as_str());
        proof {
            lemma_cat_bulks_snoc(items, i as int);
            assert(items[i as int] == arr@[i as int]@);
        }
        i = i + 1;
    }
    proof {
        assert(items.take(items.len() as int) =~= items);
        assert(out@ =~= arr_reply(items));
    }
    out
}

/// Renders a nested array reply.
pub fn print_nested_arr(arr: Vec<Vec<String>>) -> (r: String)
    ensures
        r@ == nested_arr_reply(
            arr@.map_values(|v: Vec<String>| v@.map_values(|s: String| s@)),
        ),
{
    let ghost items = arr@.map_values(|v: Vec<String>| v@.map_values(|s: String| s@));
    let mut out = String::new();
    push_char(&mut out, '*');
    push_u64_dec(&mut out, arr.len() as u64);
    push_char(&mut out, '\r');
    push_char(&mut out, '\n');
    let ghost headered = out@;
    proof {
        assert(headered =~= seq!['*'] + dec_chars(items.len()) + crlf_chars());
        assert(out@ =~= headered + cat_arrs(items.take(0)));
    }
    let mut i: usize = 0;
    while i < arr.len()
        invariant
            i <= arr@.len(),
            items == arr@.map_values(|v: Vec<String>| v@.map_values(|s: String| s@)),
            out@ == headered + cat_arrs(items.take(i as int)),
        decreases arr@.len() - i,
    {
        let piece = print_arr_ref(&arr[i]);
        out.append(piece.as_str());
        proof {
            lemma_cat_arrs_snoc(items, i as int);
            assert(items[i as int] == arr@[i as int]@.map_values(|s: String| s@));
        }
        i = i + 1;
    }
    proof {
        assert(items.take(items.len() as int) =~= items);
        assert(out@ =~= nested_arr_reply(items));
    }
    out
}

/// Renders an array reply from a borrowed vector.
fn print_arr_ref(arr: &Vec<String>) -> (r: String)
    ensures
        r@ == arr_reply(arr@.map_values(|s: String| s@)),
{
    let ghost items = arr@.map_values(|s: String| s@);
    let mut out = String::new();
    push_char(&mut out, '*');
    push_u64_dec(&mut out, arr.len() as u64);
    push_char(&mut out, '\r');
    push_char(&mut out, '\n');
    let ghost headered = out@;
    proof {
        assert(headered =~= seq!['*'] + dec_chars(items.len()) + crlf_chars());
        assert(out@ =~= headered + cat_bulks(items.take(0)));
    }
    let mut i: usize = 0;
    while i < arr.len()
        invariant
            i <= arr@.len(),
            items == arr@.map_values(|s: String| s@),
            out@ == headered + cat_bulks(items.take(i as int)),
        decreases arr@.len() - i,
    {
        let piece = print_string(&arr[i]);
        out.append(piece.as_str());
        proof {
            lemma_cat_bulks_snoc(items, i as int);
            assert(items[i as int] == arr@[i as int]@);
        }
        i = i + 1;
    }
    proof {
        assert(items.take(items.len() as int) =~= items);
        assert(out@ =~= arr_reply(items));
    }
    out
}

} // verus!
