//! JSON documents: an insertion-ordered document model, a parser and
//! serializer over it, dot-path addressing, and the recursive merge the
//! store's merge operator uses.

use vstd::prelude::*;
use vstd::utf8::{decode_utf8, valid_utf8};
use crate::text::{bytes_to_string, push_char};

verus! {

/// A JSON value. Numbers keep their literal text, so no precision is lost
/// and serialization reproduces them exactly; object members keep their
/// insertion order.
pub enum Json {
    Null,
    Bool(bool),
    Num(String),
    Str(String),
    Arr(Vec<Json>),
    Obj(Vec<(String, Json)>),
}

/// The mathematical shape of a JSON value.
pub enum JsonModel {
    Null,
    Bool(bool),
    Num(Seq<char>),
    Str(Seq<char>),
    Arr(Seq<JsonModel>),
    Obj(Seq<(Seq<char>, JsonModel)>),
}

pub open spec fn jmodel(j: Json) -> JsonModel
    decreases j,
{
    match j {
        Json::Null => JsonModel::Null,
        Json::Bool(b) => JsonModel::Bool(b),
        Json::Num(t) => JsonModel::Num(t@),
        Json::Str(s) => JsonModel::Str(s@),
        Json::Arr(v) => JsonModel::Arr(jmodels(v@)),
        Json::Obj(v) => JsonModel::Obj(jobj_models(v@)),
    }
}

pub open spec fn jmodels(v: Seq<Json>) -> Seq<JsonModel>
    decreases v,
{
    if v.len() == 0 {
        Seq::empty()
    } else {
        seq![jmodel(v[0])] + jmodels(v.drop_first())
    }
}

pub open spec fn jobj_models(v: Seq<(String, Json)>) -> Seq<(Seq<char>, JsonModel)>
    decreases v,
{
    if v.len() == 0 {
        Seq::empty()
    } else {
        seq![(v[0].0@, jmodel(v[0].1))] + jobj_models(v.drop_first())
    }
}

pub proof fn lemma_jmodels(v: Seq<Json>)
    ensures
        jmodels(v).len() == v.len(),
        forall|i: int| 0 <= i < v.len() ==> jmodels(v)[i] == jmodel(v[i]),
    decreases v,
{
    if v.len() > 0 {
        lemma_jmodels(v.drop_first());
        assert forall|i: int| 0 <= i < v.len() implies jmodels(v)[i] == jmodel(v[i]) by {
            if i > 0 {
                assert(jmodels(v.drop_first())[i - 1] == jmodel(v.drop_first()[i - 1]));
                assert(v.drop_first()[i - 1] == v[i]);
            }
        }
    }
}

pub proof fn lemma_jobj_models(v: Seq<(String, Json)>)
    ensures
        jobj_models(v).len() == v.len(),
        forall|i: int|
            0 <= i < v.len() ==> jobj_models(v)[i] == (v[i].0@, jmodel(v[i].1)),
    decreases v,
{
    if v.len() > 0 {
        lemma_jobj_models(v.drop_first());
        assert forall|i: int|
            0 <= i < v.len() implies jobj_models(v)[i] == (v[i].0@, jmodel(v[i].1)) by {
            if i > 0 {
                assert(jobj_models(v.drop_first())[i - 1] == (
                    v.drop_first()[i - 1].0@,
                    jmodel(v.drop_first()[i - 1].1),
                ));
                assert(v.drop_first()[i - 1] == v[i]);
            }
        }
    }
}

/// The keys of an object's members.
pub open spec fn obj_keys(ms: Seq<(Seq<char>, JsonModel)>) -> Seq<Seq<char>> {
    ms.map_values(|m: (Seq<char>, JsonModel)| m.0)
}

/// The index of a key among an object's members, or the member count when
/// absent.
pub open spec fn key_index(ms: Seq<(Seq<char>, JsonModel)>, k: Seq<char>) -> int
    decreases ms.len(),
{
    if ms.len() == 0 {
        0
    } else if ms[0].0 == k {
        0
    } else {
        1 + key_index(ms.drop_first(), k)
    }
}

pub open spec fn has_key(ms: Seq<(Seq<char>, JsonModel)>, k: Seq<char>) -> bool {
    key_index(ms, k) < ms.len()
}

pub proof fn lemma_key_index(ms: Seq<(Seq<char>, JsonModel)>, k: Seq<char>)
    ensures
        0 <= key_index(ms, k) <= ms.len(),
        key_index(ms, k) < ms.len() ==> ms[key_index(ms, k)].0 == k,
        forall|j: int| 0 <= j < key_index(ms, k) ==> ms[j].0 != k,
    decreases ms.len(),
{
    if ms.len() > 0 && ms[0].0 != k {
        lemma_key_index(ms.drop_first(), k);
        assert forall|j: int| 0 <= j < key_index(ms, k) implies ms[j].0 != k by {
            if j > 0 {
                assert(ms.drop_first()[j - 1] == ms[j]);
            }
        }
    }
}

pub proof fn lemma_key_index_is(ms: Seq<(Seq<char>, JsonModel)>, k: Seq<char>, i: int)
    requires
        0 <= i <= ms.len(),
        i < ms.len() ==> ms[i].0 == k,
        forall|j: int| 0 <= j < i ==> ms[j].0 != k,
    ensures
        key_index(ms, k) == i,
    decreases ms.len(),
{
    if ms.len() > 0 && ms[0].0 != k {
        lemma_key_index_is(ms.drop_first(), k, i - 1);
    }
}

/// Looks a key up among an object's members.
pub fn obj_get<'a>(members: &'a Vec<(String, Json)>, key: &str) -> (r: Option<&'a Json>)
    ensures
        ({
            let ms = jobj_models(members@);
            let i = key_index(ms, key@);
            if i < ms.len() {
                r matches Some(j) && jmodel(*j) == ms[i].1
            } else {
                r is None
            }
        }),
{
    proof {
        lemma_jobj_models(members@);
    }
    let ghost ms = jobj_models(members@);
    let mut i: usize = 0;
    while i < members.len()
        invariant
            i <= members@.len(),
            ms == jobj_models(members@),
            ms.len() == members@.len(),
            forall|j: int| 0 <= j < members@.len() ==> ms[j] == (
                #[trigger] members@[j].0@,
                jmodel(members@[j].1),
            ),
            forall|j: int| 0 <= j < i ==> ms[j].0 != key@,
        decreases members@.len() - i,
    {
        if crate::utils::str_eq(members[i].0.as_str(), key) {
            proof {
                lemma_key_index_is(ms, key@, i as int);
            }
            return Some(&members[i].1);
        }
        i = i + 1;
    }
    proof {
        lemma_key_index_is(ms, key@, ms.len() as int);
    }
    None
}

/// One serialized character: the characters JSON requires escaping get
/// their short escapes.
pub open spec fn esc_char(c: char) -> Seq<char> {
    if c == '"' {
        seq!['\\', '"']
    } else if c == '\\' {
        seq!['\\', '\\']
    } else if c == '\n' {
        seq!['\\', 'n']
    } else if c == '\r' {
        seq!['\\', 'r']
    } else if c == '\t' {
        seq!['\\', 't']
    } else {
        seq![c]
    }
}

pub open spec fn esc(s: Seq<char>) -> Seq<char>
    decreases s.len(),
{
    if s.len() == 0 {
        Seq::empty()
    } else {
        esc_char(s[0]) + esc(s.drop_first())
    }
}

proof fn lemma_esc_snoc(s: Seq<char>, i: int)
    requires
        0 <= i < s.len(),
    ensures
        esc(s.take(i + 1)) == esc(s.take(i)) + esc_char(s[i]),
    decreases i,
{
    if i == 0 {
        assert(s.take(1).drop_first() =~= Seq::<char>::empty());
        assert(s.take(0) =~= Seq::<char>::empty());
        assert(esc(s.take(1)) =~= esc(s.take(0)) + esc_char(s[0]));
    } else {
        lemma_esc_snoc(s.drop_first(), i - 1);
        assert(s.take(i + 1).drop_first() =~= s.drop_first().take(i));
        assert(s.take(i).drop_first() =~= s.drop_first().take(i - 1));
        assert(s.drop_first().take(i - 1 + 1) == s.drop_first().take(i));
        assert(s.drop_first()[i - 1] == s[i]);
        assert(esc(s.take(i + 1)) =~= esc(s.take(i)) + esc_char(s[i]));
    }
}

/// The serialized text of a value: compact, object members in stored
/// order, number literals verbatim.
pub open spec fn jser(m: JsonModel) -> Seq<char>
    decreases m, 2int,
{
    match m {
        JsonModel::Null => seq!['n', 'u', 'l', 'l'],
        JsonModel::Bool(b) => if b {
            seq!['t', 'r', 'u', 'e']
        } else {
            seq!['f', 'a', 'l', 's', 'e']
        },
        JsonModel::Num(t) => t,
        JsonModel::Str(s) => seq!['"'] + esc(s) + seq!['"'],
        JsonModel::Arr(vs) => seq!['['] + jser_items(vs) + seq![']'],
        JsonModel::Obj(ms) => seq!['{'] + jser_members(ms) + seq!['}'],
    }
}

pub open spec fn jser_items(vs: Seq<JsonModel>) -> Seq<char>
    decreases vs, 1int,
{
    if vs.len() == 0 {
        Seq::empty()
    } else {
        jser(vs[0]) + jser_rest(vs.drop_first())
    }
}

pub open spec fn jser_rest(vs: Seq<JsonModel>) -> Seq<char>
    decreases vs, 2int,
{
    if vs.len() == 0 {
        Seq::empty()
    } else {
        seq![','] + jser(vs[0]) + jser_rest(vs.drop_first())
    }
}

pub open spec fn jser_member(m: (Seq<char>, JsonModel)) -> Seq<char>
    decreases m, 3int,
{
    seq!['"'] + esc(m.0) + seq!['"', ':'] + jser(m.1)
}

pub open spec fn jser_members(ms: Seq<(Seq<char>, JsonModel)>) -> Seq<char>
    decreases ms, 1int,
{
    if ms.len() == 0 {
        Seq::empty()
    } else {
        jser_member(ms[0]) + jser_members_rest(ms.drop_first())
    }
}

pub open spec fn jser_members_rest(ms: Seq<(Seq<char>, JsonModel)>) -> Seq<char>
    decreases ms, 2int,
{
    if ms.len() == 0 {
        Seq::empty()
    } else {
        seq![','] + jser_member(ms[0]) + jser_members_rest(ms.drop_first())
    }
}

proof fn lemma_jser_rest_snoc(vs: Seq<JsonModel>, i: int)
    requires
        0 <= i < vs.len(),
    ensures
        jser_rest(vs.take(i + 1)) == jser_rest(vs.take(i)) + seq![','] + jser(vs[i]),
    decreases i,
{
    if i == 0 {
        assert(vs.take(1).drop_first() =~= Seq::<JsonModel>::empty());
        assert(vs.take(0) =~= Seq::<JsonModel>::empty());
        assert(jser_rest(vs.take(1)) =~= jser_rest(vs.take(0)) + seq![','] + jser(vs[0]));
    } else {
        lemma_jser_rest_snoc(vs.drop_first(), i - 1);
        assert(vs.take(i + 1).drop_first() =~= vs.drop_first().take(i));
        assert(vs.take(i).drop_first() =~= vs.drop_first().take(i - 1));
        assert(vs.drop_first().take(i - 1 + 1) == vs.drop_first().take(i));
        assert(vs.drop_first()[i - 1] == vs[i]);
        assert(jser_rest(vs.take(i + 1)) =~= jser_rest(vs.take(i)) + seq![','] + jser(vs[i]));
    }
}

proof fn lemma_jser_members_rest_snoc(ms: Seq<(Seq<char>, JsonModel)>, i: int)
    requires
        0 <= i < ms.len(),
    ensures
        jser_members_rest(ms.take(i + 1)) == jser_members_rest(ms.take(i)) + seq![',']
            + jser_member(ms[i]),
    decreases i,
{
    if i == 0 {
        assert(ms.take(1).drop_first() =~= Seq::<(Seq<char>, JsonModel)>::empty());
        assert(ms.take(0) =~= Seq::<(Seq<char>, JsonModel)>::empty());
        assert(jser_members_rest(ms.take(1)) =~= jser_members_rest(ms.take(0)) + seq![',']
            + jser_member(ms[0]));
    } else {
        lemma_jser_members_rest_snoc(ms.drop_first(), i - 1);
        assert(ms.take(i + 1).drop_first() =~= ms.drop_first().take(i));
        assert(ms.take(i).drop_first() =~= ms.drop_first().take(i - 1));
        assert(ms.drop_first().take(i - 1 + 1) == ms.drop_first().take(i));
        assert(ms.drop_first()[i - 1] == ms[i]);
        assert(jser_members_rest(ms.take(i + 1)) =~= jser_members_rest(ms.take(i)) + seq![',']
            + jser_member(ms[i]));
    }
}

/// Appends the escaped form of `s` to `out`.
fn push_escaped(out: &mut String, s: &str)
    ensures
        final(out)@ == old(out)@ + esc(s@),
{
    let n = s.unicode_len();
    let mut i: usize = 0;
    while i < n
        invariant
            i <= n,
            n == s@.len(),
            out@ == old(out)@ + esc(s@.take(i as int)),
        decreases n - i,
    {
        let c = s.get_char(i);
        if c == '"' {
            push_char(out, '\\');
            push_char(out, '"');
        } else if c == '\\' {
            push_char(out, '\\');
            push_char(out, '\\');
        } else if c == '\n' {
            push_char(out, '\\');
            push_char(out, 'n');
        } else if c == '\r' {
            push_char(out, '\\');
            push_char(out, 'r');
        } else if c == '\t' {
            push_char(out, '\\');
            push_char(out, 't');
        } else {
            push_char(out, c);
        }
        proof {
            lemma_esc_snoc(s@, i as int);
            assert(out@ =~= old(out)@ + esc(s@.take(i + 1)));
        }
        i = i + 1;
    }
    proof {
        assert(s@.take(n as int) =~= s@);
    }
}

/// Appends the serialized text of `j` to `out`.
pub fn write_json(out: &mut String, j: &Json)
    ensures
        final(out)@ == old(out)@ + jser(jmodel(*j)),
    decreases *j,
{
    match *j {
        Json::Null => {
            out.append("null");
            proof {
                reveal_strlit("null");
                assert(out@ =~= old(out)@ + jser(jmodel(*j)));
            }
        },
        Json::Bool(b) => {
            if b {
                out.append("true");
            } else {
                out.append("false");
            }
            proof {
                reveal_strlit("true");
                reveal_strlit("false");
                assert(out@ =~= old(out)@ + jser(jmodel(*j)));
            }
        },
        Json::Num(ref t) => {
            out.append(t.as_str());
        },
        Json::Str(ref s) => {
            push_char(out, '"');
            push_escaped(out, s.as_str());
            push_char(out, '"');
            proof {
                assert(out@ =~= old(out)@ + jser(jmodel(*j)));
            }
        },
        Json::Arr(ref vs) => {
            push_char(out, '[');
            let ghost models = jmodels(vs@);
            proof {
                lemma_jmodels(vs@);
            }
            let ghost headered = out@;
            let mut i: usize = 0;
            while i < vs.len()
                invariant
                    i <= vs@.len(),
                    *j == Json::Arr(*vs),
                    models == jmodels(vs@),
                    models.len() == vs@.len(),
                    forall|k: int| 0 <= k < vs@.len() ==> models[k] == jmodel(#[trigger] vs@[k]),
                    headered == old(out)@.push('['),
                    i == 0 ==> out@ == headered,
                    i > 0 ==> out@ == headered + jser(models[0]) + jser_rest(models.subrange(
                        1,
                        i as int,
                    )),
                decreases vs@.len() - i,
            {
                if i > 0 {
                    push_char(out, ',');
                }
                let ghost pre = out@;
                proof {
                    assert(decreases_to!(*j => j->Arr_0));
                    assert(decreases_to!(*vs => vs@));
                    assert(decreases_to!(vs@ => vs@[i as int]));
                }
                write_json(out, &vs[i]);
                proof {
                    if i == 0 {
                        assert(models.subrange(1, 1) =~= Seq::<JsonModel>::empty());
                        assert(out@ =~= headered + jser(models[0]) + jser_rest(models.subrange(
                            1,
                            1,
                        )));
                    } else {
                        let sub = models.subrange(1, i as int);
                        let sub2 = models.subrange(1, i + 1);
                        assert(sub2.take(i - 1) =~= sub);
                        assert(sub2[i - 1] == models[i as int]);
                        lemma_jser_rest_snoc_full(models, i as int);
                        assert(out@ =~= headered + jser(models[0]) + jser_rest(sub2));
                    }
                }
                i = i + 1;
            }
            push_char(out, ']');
            proof {
                if vs@.len() == 0 {
                    assert(jser_items(models) =~= Seq::<char>::empty());
                } else {
                    assert(models.subrange(1, models.len() as int) =~= models.drop_first());
                }
                assert(out@ =~= old(out)@ + jser(jmodel(*j)));
            }
        },
        Json::Obj(ref ms) => {
            push_char(out, '{');
            let ghost models = jobj_models(ms@);
            proof {
                lemma_jobj_models(ms@);
            }
            let ghost headered = out@;
            let mut i: usize = 0;
            while i < ms.len()
                invariant
                    i <= ms@.len(),
                    *j == Json::Obj(*ms),
                    models == jobj_models(ms@),
                    models.len() == ms@.len(),
                    forall|k: int| 0 <= k < ms@.len() ==> models[k] == (
                        #[trigger] ms@[k].0@,
                        jmodel(ms@[k].1),
                    ),
                    headered == old(out)@.push('{'),
                    i == 0 ==> out@ == headered,
                    i > 0 ==> out@ == headered + jser_member(models[0]) + jser_members_rest(
                        models.subrange(1, i as int),
                    ),
                decreases ms@.len() - i,
            {
                if i > 0 {
                    push_char(out, ',');
                }
                push_char(out, '"');
                push_escaped(out, ms[i].0.as_str());
                push_char(out, '"');
                push_char(out, ':');
                proof {
                    assert(decreases_to!(*j => j->Obj_0));
                    assert(decreases_to!(*ms => ms@));
                    assert(decreases_to!(ms@ => ms@[i as int]));
                    assert(decreases_to!(ms@[i as int] => ms@[i as int].1));
                }
                write_json(out, &ms[i].1);
                proof {
                    if i == 0 {
                        assert(models.subrange(1, 1) =~= Seq::<(Seq<char>, JsonModel)>::empty());
                        assert(out@ =~= headered + jser_member(models[0]) + jser_members_rest(
                            models.subrange(1, 1),
                        ));
                    } else {
                        let sub2 = models.subrange(1, i + 1);
                        assert(sub2.take(i - 1) =~= models.subrange(1, i as int));
                        assert(sub2[i - 1] == models[i as int]);
                        lemma_jser_members_rest_snoc_full(models, i as int);
                        assert(out@ =~= headered + jser_member(models[0]) + jser_members_rest(
                            sub2,
                        ));
                    }
                }
                i = i + 1;
            }
            push_char(out, '}');
            proof {
                if ms@.len() == 0 {
                    assert(jser_members(models) =~= Seq::<char>::empty());
                } else {
                    assert(models.subrange(1, models.len() as int) =~= models.drop_first());
                }
                assert(out@ =~= old(out)@ + jser(jmodel(*j)));
            }
        },
    }
}

proof fn lemma_jser_rest_snoc_full(models: Seq<JsonModel>, i: int)
    requires
        1 <= i < models.len(),
    ensures
        jser_rest(models.subrange(1, i + 1)) == jser_rest(models.subrange(1, i)) + seq![','] + jser(
            models[i],
        ),
{
    let tail = models.drop_first();
    assert(models.subrange(1, i + 1) =~= tail.take(i));
    assert(models.subrange(1, i) =~= tail.take(i - 1));
    lemma_jser_rest_snoc(tail, i - 1);
    assert(tail[i - 1] == models[i]);
}

proof fn lemma_jser_members_rest_snoc_full(models: Seq<(Seq<char>, JsonModel)>, i: int)
    requires
        1 <= i < models.len(),
    ensures
        jser_members_rest(models.subrange(1, i + 1)) == jser_members_rest(models.subrange(1, i))
            + seq![','] + jser_member(models[i]),
{
    let tail = models.drop_first();
    assert(models.subrange(1, i + 1) =~= tail.take(i));
    assert(models.subrange(1, i) =~= tail.take(i - 1));
    lemma_jser_members_rest_snoc(tail, i - 1);
    assert(tail[i - 1] == models[i]);
}

/// Serializes a document.
pub fn json_to_string(j: &Json) -> (r: String)
    ensures
        r@ == jser(jmodel(*j)),
{
    let mut out = String::new();
    write_json(&mut out, j);
    proof {
        assert(out@ =~= jser(jmodel(*j)));
    }
    out
}

/// ASCII bytes read as characters.
pub open spec fn to_chars(bs: Seq<u8>) -> Seq<char> {
    bs.map_values(|b: u8| b as char)
}

/// A parse outcome: a value's shape and the position after it, or failure.
pub enum JParse {
    Done(JsonModel, int),
    Fail,
}

pub open spec fn is_ws(b: u8) -> bool {
    b == 32 || b == 9 || b == 10 || b == 13
}

/// The first position at or after `i` that does not hold whitespace.
pub open spec fn skip_ws(s: Seq<u8>, i: int) -> int
    decreases s.len() - i,
{
    if i < 0 || i >= s.len() {
        i
    } else if is_ws(s[i]) {
        skip_ws(s, i + 1)
    } else {
        i
    }
}

pub proof fn lemma_skip_ws(s: Seq<u8>, i: int)
    ensures
        skip_ws(s, i) >= i,
        i >= 0 ==> skip_ws(s, i) <= vstd::math::max(i, s.len() as int),
        0 <= skip_ws(s, i) < s.len() ==> !is_ws(s[skip_ws(s, i)]),
        forall|j: int| i <= j < skip_ws(s, i) ==> is_ws(#[trigger] s[j]),
    decreases s.len() - i,
{
    if 0 <= i < s.len() && is_ws(s[i]) {
        lemma_skip_ws(s, i + 1);
    }
}

/// The first position at or after `i` that does not hold a digit.
pub open spec fn digits_end(s: Seq<u8>, i: int) -> int
    decreases s.len() - i,
{
    if i < 0 || i >= s.len() {
        i
    } else if crate::num::is_digit(s[i]) {
        digits_end(s, i + 1)
    } else {
        i
    }
}

pub proof fn lemma_digits_end(s: Seq<u8>, i: int)
    ensures
        digits_end(s, i) >= i,
        i >= 0 ==> digits_end(s, i) <= vstd::math::max(i, s.len() as int),
        0 <= digits_end(s, i) < s.len() ==> !crate::num::is_digit(s[digits_end(s, i)]),
        forall|j: int| i <= j < digits_end(s, i) ==> crate::num::is_digit(#[trigger] s[j]),
    decreases s.len() - i,
{
    if 0 <= i < s.len() && crate::num::is_digit(s[i]) {
        lemma_digits_end(s, i + 1);
    }
}

/// Parses a number literal at `i`: an optional minus, an integer part with
/// no leading zero, and an optional fraction. The literal's text is the
/// value.
pub open spec fn jp_num(s: Seq<u8>, i: int) -> JParse {
    let j = if s[i] == 45 {
        i + 1
    } else {
        i
    };
    if j >= s.len() || !crate::num::is_digit(s[j]) {
        JParse::Fail
    } else {
        let int_end = if s[j] == 48 {
            j + 1
        } else {
            digits_end(s, j)
        };
        if int_end < s.len() && s[int_end] == 46 {
            let fe = digits_end(s, int_end + 1);
            if fe == int_end + 1 {
                JParse::Fail
            } else {
                JParse::Done(JsonModel::Num(to_chars(s.subrange(i, fe))), fe)
            }
        } else {
            JParse::Done(JsonModel::Num(to_chars(s.subrange(i, int_end))), int_end)
        }
    }
}

/// Parses the body of a string literal from just after the opening quote,
/// with `acc` the bytes read so far: plain bytes and the short escapes; raw
/// control bytes and unknown escapes are malformed, and the body must be
/// valid UTF-8.
pub open spec fn jp_str(s: Seq<u8>, i: int, acc: Seq<u8>) -> JParse
    decreases s.len() - i,
{
    if i < 0 || i >= s.len() {
        JParse::Fail
    } else if s[i] == 34 {
        if valid_utf8(acc) {
            JParse::Done(JsonModel::Str(decode_utf8(acc)), i + 1)
        } else {
            JParse::Fail
        }
    } else if s[i] == 92 {
        if i + 1 < s.len() {
            let e = s[i + 1];
            if e == 34 {
                jp_str(s, i + 2, acc.push(34))
            } else if e == 92 {
                jp_str(s, i + 2, acc.push(92))
            } else if e == 47 {
                jp_str(s, i + 2, acc.push(47))
            } else if e == 98 {
                jp_str(s, i + 2, acc.push(8))
            } else if e == 102 {
                jp_str(s, i + 2, acc.push(12))
            } else if e == 110 {
                jp_str(s, i + 2, acc.push(10))
            } else if e == 114 {
                jp_str(s, i + 2, acc.push(13))
            } else if e == 116 {
                jp_str(s, i + 2, acc.push(9))
            } else {
                JParse::Fail
            }
        } else {
            JParse::Fail
        }
    } else if s[i] < 32 {
        JParse::Fail
    } else {
        jp_str(s, i + 1, acc.push(s[i]))
    }
}

/// Parses a value at `i`, which must not hold whitespace.
pub open spec fn jp_val(s: Seq<u8>, i: int) -> JParse
    decreases s.len() - i, 2int,
{
    if i < 0 || i >= s.len() {
        JParse::Fail
    } else {
        let b = s[i];
        if b == 110 {
            if i + 4 <= s.len() && s[i + 1] == 117 && s[i + 2] == 108 && s[i + 3] == 108 {
                JParse::Done(JsonModel::Null, i + 4)
            } else {
                JParse::Fail
            }
        } else if b == 116 {
            if i + 4 <= s.len() && s[i + 1] == 114 && s[i + 2] == 117 && s[i + 3] == 101 {
                JParse::Done(JsonModel::Bool(true), i + 4)
            } else {
                JParse::Fail
            }
        } else if b == 102 {
            if i + 5 <= s.len() && s[i + 1] == 97 && s[i + 2] == 108 && s[i + 3] == 115 && s[i + 4]
                == 101 {
                JParse::Done(JsonModel::Bool(false), i + 5)
            } else {
                JParse::Fail
            }
        } else if b == 34 {
            jp_str(s, i + 1, Seq::empty())
        } else if b == 91 {
            let j = skip_ws(s, i + 1);
            if j < s.len() && s[j] == 93 {
                JParse::Done(JsonModel::Arr(Seq::empty()), j + 1)
            } else if j <= i || j > s.len() {
                JParse::Fail
            } else {
                jp_arr(s, j, Seq::empty())
            }
        } else if b == 123 {
            let j = skip_ws(s, i + 1);
            if j < s.len() && s[j] == 125 {
                JParse::Done(JsonModel::Obj(Seq::empty()), j + 1)
            } else if j <= i || j > s.len() {
                JParse::Fail
            } else {
                jp_obj(s, j, Seq::empty())
            }
        } else if b == 45 || crate::num::is_digit(b) {
            jp_num(s, i)
        } else {
            JParse::Fail
        }
    }
}

/// Parses array elements from the start of an element.
pub open spec fn jp_arr(s: Seq<u8>, i: int, acc: Seq<JsonModel>) -> JParse
    decreases s.len() - i, 3int,
{
    match jp_val(s, i) {
        JParse::Done(m, i2) => if i2 <= i || i2 > s.len() {
            JParse::Fail
        } else {
            let j = skip_ws(s, i2);
            if j < s.len() && s[j] == 44 {
                let k = skip_ws(s, j + 1);
                if k <= i || k > s.len() {
                    JParse::Fail
                } else {
                    jp_arr(s, k, acc.push(m))
                }
            } else if j < s.len() && s[j] == 93 {
                JParse::Done(JsonModel::Arr(acc.push(m)), j + 1)
            } else {
                JParse::Fail
            }
        },
        JParse::Fail => JParse::Fail,
    }
}

/// Replaces the value under a key, or appends the member when the key is
/// new: a repeated key keeps its first position and the last value.
pub open spec fn mset(ms: Seq<(Seq<char>, JsonModel)>, k: Seq<char>, v: JsonModel) -> Seq<
    (Seq<char>, JsonModel),
> {
    if has_key(ms, k) {
        ms.update(key_index(ms, k), (k, v))
    } else {
        ms.push((k, v))
    }
}

/// Parses object members from the start of a member's key.
pub open spec fn jp_obj(s: Seq<u8>, i: int, acc: Seq<(Seq<char>, JsonModel)>) -> JParse
    decreases s.len() - i, 3int,
{
    if i < 0 || i >= s.len() || s[i] != 34 {
        JParse::Fail
    } else {
        match jp_str(s, i + 1, Seq::empty()) {
            JParse::Done(km, i2) => if i2 <= i || i2 > s.len() || !(km is Str) {
                JParse::Fail
            } else {
                let j = skip_ws(s, i2);
                if j >= s.len() || s[j] != 58 {
                    JParse::Fail
                } else {
                    let v0 = skip_ws(s, j + 1);
                    if v0 <= i || v0 > s.len() {
                        JParse::Fail
                    } else {
                        match jp_val(s, v0) {
                            JParse::Done(v, i3) => if i3 <= i || i3 > s.len() {
                                JParse::Fail
                            } else {
                                let acc2 = mset(acc, km->Str_0, v);
                                let j2 = skip_ws(s, i3);
                                if j2 < s.len() && s[j2] == 44 {
                                    let n0 = skip_ws(s, j2 + 1);
                                    if n0 <= i || n0 > s.len() {
                                        JParse::Fail
                                    } else {
                                        jp_obj(s, n0, acc2)
                                    }
                                } else if j2 < s.len() && s[j2] == 125 {
                                    JParse::Done(JsonModel::Obj(acc2), j2 + 1)
                                } else {
                                    JParse::Fail
                                }
                            },
                            JParse::Fail => JParse::Fail,
                        }
                    }
                }
            },
            JParse::Fail => JParse::Fail,
        }
    }
}

/// What a whole buffer denotes: one value, possibly surrounded by
/// whitespace, or nothing when malformed.
pub open spec fn spec_json_doc(s: Seq<u8>) -> Option<JsonModel> {
    let i0 = skip_ws(s, 0);
    match jp_val(s, i0) {
        JParse::Done(m, e) => if skip_ws(s, e) == s.len() {
            Some(m)
        } else {
            None
        },
        JParse::Fail => None,
    }
}

/// An executable parse outcome.
enum JRes {
    Done(Json, usize),
    Fail,
}

fn skip_ws_exec(s: &[u8], i: usize) -> (r: usize)
    requires
        i <= s@.len(),
    ensures
        r == skip_ws(s@, i as int),
        i <= r <= s@.len(),
{
    let mut k = i;
    while k < s.len()
        invariant
            i <= k <= s@.len(),
            skip_ws(s@, i as int) == skip_ws(s@, k as int),
        decreases s@.len() - k,
    {
        let b = s[k];
        if !(b == 32 || b == 9 || b == 10 || b == 13) {
            proof {
                lemma_skip_ws(s@, k as int);
            }
            return k;
        }
        k = k + 1;
    }
    k
}

fn digits_end_exec(s: &[u8], i: usize) -> (r: usize)
    requires
        i <= s@.len(),
    ensures
        r == digits_end(s@, i as int),
        i <= r <= s@.len(),
{
    let mut k = i;
    while k < s.len()
        invariant
            i <= k <= s@.len(),
            digits_end(s@, i as int) == digits_end(s@, k as int),
        decreases s@.len() - k,
    {
        let b = s[k];
        if b < 48 || b > 57 {
            proof {
                lemma_digits_end(s@, k as int);
            }
            return k;
        }
        k = k + 1;
    }
    k
}

/// Relies on String::from_utf8 on ASCII bytes: every byte below 128 decodes
/// to the character of the same value.
fn ascii_to_string(v: &Vec<u8>) -> (r: String)
    requires
        forall|i: int| 0 <= i < v@.len() ==> #[trigger] v@[i] < 128,
    ensures
        r@ == to_chars(v@),
{
    broadcast use vstd::utf8::is_ascii_chars_encode_utf8, vstd::utf8::encode_utf8_valid_utf8,
        vstd::utf8::encode_utf8_decode_utf8;

    proof {
        let cs = to_chars(v@);
        assert(vstd::utf8::is_ascii_chars(cs)) by {
            assert(forall|i: int| 0 <= i < cs.len() ==> (#[trigger] cs[i]) as u32 == v@[i]);
        }
        assert(vstd::utf8::encode_utf8(cs) =~= v@) by {
            assert(vstd::utf8::encode_utf8(cs) =~= Seq::new(cs.len(), |i: int| cs[i] as u8));
        }
        assert(valid_utf8(v@));
        assert(decode_utf8(v@) == cs);
    }
    match bytes_to_string(v) {
        Some(s) => s,
        None => unreached(),
    }
}

fn p_num(s: &[u8], i: usize) -> (r: JRes)
    requires
        i < s@.len(),
        s@[i as int] == 45 || crate::num::is_digit(s@[i as int]),
    ensures
        match jp_num(s@, i as int) {
            JParse::Done(m, e) => r matches JRes::Done(j, e2) && jmodel(j) == m && e2 == e && i
                < e2 <= s@.len(),
            JParse::Fail => r is Fail,
        },
{
    let j: usize = if s[i] == 45 {
        i + 1
    } else {
        i
    };
    if j >= s.len() {
        return JRes::Fail;
    }
    let d0 = s[j];
    if d0 < 48 || d0 > 57 {
        return JRes::Fail;
    }
    let int_end: usize = if d0 == 48 {
        j + 1
    } else {
        digits_end_exec(s, j)
    };
    proof {
        lemma_digits_end(s@, j as int);
    }
    let end: usize = if int_end < s.len() && s[int_end] == 46 {
        if int_end + 1 > s.len() {
            return JRes::Fail;
        }
        let fe = digits_end_exec(s, int_end + 1);
        if fe == int_end + 1 {
            return JRes::Fail;
        }
        fe
    } else {
        int_end
    };
    let lit = vstd::slice::slice_to_vec(vstd::slice::slice_subrange(s, i, end));
    proof {
        lemma_digits_end(s@, int_end + 1);
        assert(lit@ =~= s@.subrange(i as int, end as int));
        assert forall|k: int| 0 <= k < lit@.len() implies #[trigger] lit@[k] < 128 by {
            let b = s@[i + k];
            assert(lit@[k] == b);
            if i + k == i && b == 45 {
            } else {
                if int_end < s@.len() && s@[int_end as int] == 46 && i + k == int_end {
                } else {
                }
            }
            assert(b == 45 || b == 46 || crate::num::is_digit(b));
        }
    }
    let text = ascii_to_string(&lit);
    JRes::Done(Json::Num(text), end)
}

/// Parses a value at `i`, following `jp_val`.
fn p_val(s: &[u8], i: usize) -> (r: JRes)
    requires
        i <= s@.len(),
    ensures
        match jp_val(s@, i as int) {
            JParse::Done(m, e) => r matches JRes::Done(j, e2) && jmodel(j) == m && e2 == e && i
                < e2 <= s@.len(),
            JParse::Fail => r is Fail,
        },
    decreases s@.len() - i, 2int,
{
    if i >= s.len() {
        return JRes::Fail;
    }
    let b = s[i];
    if b == 110 {
        if s.len() - i >= 4 && s[i + 1] == 117 && s[i + 2] == 108 && s[i + 3] == 108 {
            JRes::Done(Json::Null, i + 4)
        } else {
            JRes::Fail
        }
    } else if b == 116 {
        if s.len() - i >= 4 && s[i + 1] == 114 && s[i + 2] == 117 && s[i + 3] == 101 {
            JRes::Done(Json::Bool(true), i + 4)
        } else {
            JRes::Fail
        }
    } else if b == 102 {
        if s.len() - i >= 5 && s[i + 1] == 97 && s[i + 2] == 108 && s[i + 3] == 115 && s[i + 4]
            == 101 {
            JRes::Done(Json::Bool(false), i + 5)
        } else {
            JRes::Fail
        }
    } else if b == 34 {
        p_str(s, i + 1)
    } else if b == 91 {
        let j = skip_ws_exec(s, i + 1);
        if j < s.len() && s[j] == 93 {
            JRes::Done(Json::Arr(Vec::new()), j + 1)
        } else {
            proof {
                assert(jmodels(Seq::<Json>::empty()) =~= Seq::<JsonModel>::empty());
            }
            p_arr(s, j, i)
        }
    } else if b == 123 {
        let j = skip_ws_exec(s, i + 1);
        if j < s.len() && s[j] == 125 {
            JRes::Done(Json::Obj(Vec::new()), j + 1)
        } else {
            proof {
                assert(jobj_models(Seq::<(String, Json)>::empty()) =~= Seq::<(
                    Seq<char>,
                    JsonModel,
                )>::empty());
            }
            p_obj(s, j, i)
        }
    } else if b == 45 || (48 <= b && b <= 57) {
        p_num(s, i)
    } else {
        JRes::Fail
    }
}

/// Parses a string body from just after the opening quote, following
/// `jp_str`.
fn p_str(s: &[u8], i: usize) -> (r: JRes)
    requires
        i <= s@.len(),
    ensures
        match jp_str(s@, i as int, Seq::empty()) {
            JParse::Done(m, e) => r matches JRes::Done(j, e2) && jmodel(j) == m && e2 == e && i
                < e2 <= s@.len(),
            JParse::Fail => r is Fail,
        },
{
    let mut acc: Vec<u8> = Vec::new();
    let mut k = i;
    proof {
        assert(acc@ =~= Seq::<u8>::empty());
    }
    loop
        invariant_except_break
            i <= k <= s@.len(),
            jp_str(s@, i as int, Seq::empty()) == jp_str(s@, k as int, acc@),
        ensures
            ({
                let sp = jp_str(s@, i as int, Seq::empty());
                match sp {
                    JParse::Done(m, e) => i <= k < s@.len() && e <= s@.len() && s@[k as int]
                        == 34 && e == k + 1 && valid_utf8(acc@) && m == JsonModel::Str(
                        decode_utf8(acc@),
                    ),
                    JParse::Fail => false,
                }
            }),
        decreases s@.len() - k,
    {
        if k >= s.len() {
            return JRes::Fail;
        }
        let b = s[k];
        if b == 34 {
            if crate::text::bytes_to_string(&acc).is_some() {
                break;
            } else {
                return JRes::Fail;
            }
        } else if b == 92 {
            if k + 1 >= s.len() {
                return JRes::Fail;
            }
            let e = s[k + 1];
            let mapped: u8 = if e == 34 {
                34
            } else if e == 92 {
                92
            } else if e == 47 {
                47
            } else if e == 98 {
                8
            } else if e == 102 {
                12
            } else if e == 110 {
                10
            } else if e == 114 {
                13
            } else if e == 116 {
                9
            } else {
                return JRes::Fail;
            };
            acc.push(mapped);
            k = k + 2;
        } else if b < 32 {
            return JRes::Fail;
        } else {
            acc.push(b);
            k = k + 1;
        }
    }
    let text = match crate::text::bytes_to_string(&acc) {
        Some(t) => t,
        None => unreached(),
    };
    let n2 = s.len();
    proof {
        assert(k < n2);
    }
    JRes::Done(Json::Str(text), k + 1)
}

/// Parses array elements, following `jp_arr`. `lo` is a position strictly
/// before the first element, for termination.
fn p_arr(s: &[u8], start: usize, lo: usize) -> (r: JRes)
    requires
        lo < start || start > s@.len(),
        start <= s@.len() + 1,
        lo <= s@.len(),
    ensures
        match jp_arr(s@, start as int, Seq::empty()) {
            JParse::Done(m, e) => r matches JRes::Done(j, e2) && jmodel(j) == m && e2 == e && lo
                < e2 <= s@.len(),
            JParse::Fail => r is Fail,
        },
    decreases s@.len() - lo, 1int,
{
    let mut items: Vec<Json> = Vec::new();
    let mut cur = start;
    proof {
        lemma_jmodels(items@);
        assert(jmodels(items@) =~= Seq::<JsonModel>::empty());
    }
    loop
        invariant_except_break
            lo < cur,
            cur <= s@.len() + 1,
            lo <= s@.len(),
            jp_arr(s@, start as int, Seq::empty()) == jp_arr(s@, cur as int, jmodels(items@)),
        ensures
            ({
                let sp = jp_arr(s@, start as int, Seq::empty());
                sp matches JParse::Done(m, e) && ({
                    &&& m == JsonModel::Arr(jmodels(items@))
                    &&& cur == e
                    &&& lo < cur <= s@.len()
                })
            }),
        decreases s@.len() - cur,
    {
        if cur > s.len() {
            return JRes::Fail;
        }
        let ghost pre_items = items@;
        let ghost pre_models = jmodels(items@);
        match p_val(s, cur) {
            JRes::Done(v, c) => {
                let ghost vm = jmodel(v);
                let j = skip_ws_exec(s, c);
                if j < s.len() && s[j] == 44 {
                    let k = skip_ws_exec(s, j + 1);
                    items.push(v);
                    proof {
                        lemma_jmodels(items@);
                        lemma_jmodels(pre_items);
                        assert(jmodels(items@) =~= pre_models.push(vm));
                    }
                    cur = k;
                } else if j < s.len() && s[j] == 93 {
                    items.push(v);
                    proof {
                        lemma_jmodels(items@);
                        lemma_jmodels(pre_items);
                        assert(jmodels(items@) =~= pre_models.push(vm));
                    }
                    cur = j + 1;
                    break;
                } else {
                    return JRes::Fail;
                }
            },
            JRes::Fail => {
                return JRes::Fail;
            },
        };
    }
    JRes::Done(Json::Arr(items), cur)
}

/// Parses object members, following `jp_obj`. `lo` is a position strictly
/// before the first member, for termination.
fn p_obj(s: &[u8], start: usize, lo: usize) -> (r: JRes)
    requires
        lo < start || start > s@.len(),
        start <= s@.len() + 1,
        lo <= s@.len(),
    ensures
        match jp_obj(s@, start as int, Seq::empty()) {
            JParse::Done(m, e) => r matches JRes::Done(j, e2) && jmodel(j) == m && e2 == e && lo
                < e2 <= s@.len(),
            JParse::Fail => r is Fail,
        },
    decreases s@.len() - lo, 1int,
{
    let mut members: Vec<(String, Json)> = Vec::new();
    let mut cur = start;
    proof {
        lemma_jobj_models(members@);
        assert(jobj_models(members@) =~= Seq::<(Seq<char>, JsonModel)>::empty());
    }
    loop
        invariant_except_break
            lo < cur,
            cur <= s@.len() + 1,
            lo <= s@.len(),
            jp_obj(s@, start as int, Seq::empty()) == jp_obj(s@, cur as int, jobj_models(
                members@,
            )),
        ensures
            ({
                let sp = jp_obj(s@, start as int, Seq::empty());
                sp matches JParse::Done(m, e) && ({
                    &&& m == JsonModel::Obj(jobj_models(members@))
                    &&& cur == e
                    &&& lo < cur <= s@.len()
                })
            }),
        decreases s@.len() - cur,
    {
        if cur >= s.len() {
            return JRes::Fail;
        }
        if s[cur] != 34 {
            return JRes::Fail;
        }
        let key = match p_str(s, cur + 1) {
            JRes::Done(kj, c) => {
                let kstr = match kj {
                    Json::Str(t) => t,
                    _ => {
                        return JRes::Fail;
                    },
                };
                let j = skip_ws_exec(s, c);
                if j >= s.len() || s[j] != 58 {
                    return JRes::Fail;
                }
                let v0 = skip_ws_exec(s, j + 1);
                match p_val(s, v0) {
                    JRes::Done(v, i3) => {
                        let ghost pre = jobj_models(members@);
                        obj_set(&mut members, kstr, v);
                        let j2 = skip_ws_exec(s, i3);
                        if j2 < s.len() && s[j2] == 44 {
                            let n0 = skip_ws_exec(s, j2 + 1);
                            cur = n0;
                        } else if j2 < s.len() && s[j2] == 125 {
                            cur = j2 + 1;
                            break;
                        } else {
                            return JRes::Fail;
                        }
                    },
                    JRes::Fail => {
                        return JRes::Fail;
                    },
                }
            },
            JRes::Fail => {
                return JRes::Fail;
            },
        };
    }
    JRes::Done(Json::Obj(members), cur)
}

/// Replaces the value under `key`, or appends the member when the key is
/// new.
pub fn obj_set(members: &mut Vec<(String, Json)>, key: String, v: Json)
    ensures
        jobj_models(final(members)@) == mset(jobj_models(old(members)@), key@, jmodel(v)),
{
    proof {
        lemma_jobj_models(members@);
        lemma_key_index(jobj_models(members@), key@);
    }
    let ghost ms = jobj_models(members@);
    let mut i: usize = 0;
    while i < members.len()
        invariant
            i <= members@.len(),
            members@ == old(members)@,
            ms == jobj_models(members@),
            ms.len() == members@.len(),
            forall|j: int| 0 <= j < members@.len() ==> ms[j] == (
                #[trigger] members@[j].0@,
                jmodel(members@[j].1),
            ),
            forall|j: int| 0 <= j < i ==> ms[j].0 != key@,
        decreases members@.len() - i,
    {
        if crate::utils::str_eq(members[i].0.as_str(), key.as_str()) {
            let ghost kv = key@;
            let ghost vm = jmodel(v);
            proof {
                lemma_key_index_is(ms, kv, i as int);
            }
            members.set(i, (key, v));
            proof {
                lemma_jobj_models(members@);
                assert(jobj_models(members@) =~= ms.update(i as int, (kv, vm)));
            }
            return ;
        }
        i = i + 1;
    }
    let ghost kv = key@;
    let ghost vm = jmodel(v);
    proof {
        lemma_key_index_is(ms, kv, ms.len() as int);
    }
    members.push((key, v));
    proof {
        lemma_jobj_models(members@);
        assert(jobj_models(members@) =~= ms.push((kv, vm)));
    }
}

/// Parses a whole buffer as one JSON document.
pub fn parse_json(s: &[u8]) -> (r: Option<Json>)
    ensures
        match spec_json_doc(s@) {
            Some(m) => r matches Some(j) && jmodel(j) == m,
            None => r is None,
        },
{
    let i0 = skip_ws_exec(s, 0);
    match p_val(s, i0) {
        JRes::Done(j, e) => {
            let t = skip_ws_exec(s, e);
            if t == s.len() {
                Some(j)
            } else {
                None
            }
        },
        JRes::Fail => None,
    }
}

/// The pieces of `s` between occurrences of `d`.
pub open spec fn spec_split(s: Seq<char>, d: char) -> Seq<Seq<char>>
    decreases s.len(),
    via spec_split_decreases
{
    let i = crate::types::find_char(s, d);
    if i >= s.len() {
        seq![s]
    } else {
        seq![s.take(i)] + spec_split(s.skip(i + 1), d)
    }
}

#[via_fn]
proof fn spec_split_decreases(s: Seq<char>, d: char) {
    crate::utils::lemma_find_char_props(s, d);
}

/// How a split continues: the block read so far extends into the rest.
pub open spec fn split_cont(block: Seq<char>, rest: Seq<char>, d: char) -> Seq<Seq<char>> {
    let i = crate::types::find_char(rest, d);
    if i >= rest.len() {
        seq![block + rest]
    } else {
        seq![block + rest.take(i)] + spec_split(rest.skip(i + 1), d)
    }
}

proof fn lemma_split_cont_push(block: Seq<char>, rest: Seq<char>, d: char)
    requires
        rest.len() > 0,
        rest[0] != d,
    ensures
        split_cont(block, rest, d) == split_cont(block.push(rest[0]), rest.drop_first(), d),
{
    crate::utils::lemma_find_char_props(rest, d);
    crate::utils::lemma_find_char_props(rest.drop_first(), d);
    let i = crate::types::find_char(rest, d);
    assert(i == 1 + crate::types::find_char(rest.drop_first(), d));
    if i >= rest.len() {
        assert(block + rest =~= block.push(rest[0]) + rest.drop_first());
    } else {
        assert(block + rest.take(i) =~= block.push(rest[0]) + rest.drop_first().take(i - 1));
        assert(rest.skip(i + 1) =~= rest.drop_first().skip(i));
    }
}

proof fn lemma_split_cont_delim(block: Seq<char>, rest: Seq<char>, d: char)
    requires
        rest.len() > 0,
        rest[0] == d,
    ensures
        split_cont(block, rest, d) == seq![block] + split_cont(
            Seq::empty(),
            rest.drop_first(),
            d,
        ),
{
    crate::utils::lemma_find_char_props(rest.drop_first(), d);
    assert(block + rest.take(0) =~= block);
    assert(rest.skip(1) =~= rest.drop_first());
    let r2 = rest.drop_first();
    let i2 = crate::types::find_char(r2, d);
    if i2 >= r2.len() {
        assert(spec_split(r2, d) == seq![r2]);
        assert(Seq::<char>::empty() + r2 =~= r2);
    } else {
        assert(Seq::<char>::empty() + r2.take(i2) =~= r2.take(i2));
    }
}

proof fn lemma_split_cont_start(s: Seq<char>, d: char)
    ensures
        spec_split(s, d) == split_cont(Seq::empty(), s, d),
{
    let i = crate::types::find_char(s, d);
    if i >= s.len() {
        assert(Seq::<char>::empty() + s =~= s);
    } else {
        assert(Seq::<char>::empty() + s.take(i) =~= s.take(i));
    }
}

/// Splits a string at every occurrence of `d`.
pub fn split_str(s: &str, d: char) -> (r: Vec<String>)
    ensures
        r@.map_values(|p: String| p@) == spec_split(s@, d),
{
    let n = s.unicode_len();
    let mut parts: Vec<String> = Vec::new();
    let mut block = String::new();
    let mut i: usize = 0;
    proof {
        lemma_split_cont_start(s@, d);
        assert(parts@.map_values(|p: String| p@) =~= Seq::<Seq<char>>::empty());
        assert(s@.skip(0) =~= s@);
    }
    while i < n
        invariant
            i <= n,
            n == s@.len(),
            spec_split(s@, d) == parts@.map_values(|p: String| p@) + split_cont(
                block@,
                s@.skip(i as int),
                d,
            ),
        decreases n - i,
    {
        let c = s.get_char(i);
        let ghost rest = s@.skip(i as int);
        proof {
            assert(rest[0] == s@[i as int]);
            assert(rest.drop_first() =~= s@.skip(i + 1));
        }
        if c == d {
            let ghost pre = parts@.map_values(|p: String| p@);
            proof {
                lemma_split_cont_delim(block@, rest, d);
            }
            parts.push(block);
            block = String::new();
            proof {
                assert(parts@.map_values(|p: String| p@) =~= pre.push(parts@.last()@));
                assert(pre.push(parts@.last()@) + split_cont(block@, s@.skip(i + 1), d) =~= pre + (
                seq![parts@.last()@] + split_cont(block@, s@.skip(i + 1), d)));
            }
        } else {
            proof {
                lemma_split_cont_push(block@, rest, d);
            }
            push_char(&mut block, c);
        }
        i = i + 1;
    }
    proof {
        assert(s@.skip(n as int) =~= Seq::<char>::empty());
        crate::utils::lemma_find_char_props(Seq::<char>::empty(), d);
        assert(split_cont(block@, Seq::<char>::empty(), d) =~= seq![block@ + Seq::<char>::empty()]);
        assert(block@ + Seq::<char>::empty() =~= block@);
    }
    let ghost pre = parts@.map_values(|p: String| p@);
    parts.push(block);
    proof {
        assert(parts@.map_values(|p: String| p@) =~= pre.push(parts@.last()@));
    }
    parts
}

/// A path segment read as an array index: a nonempty run of digits.
pub open spec fn seg_as_index(seg: Seq<char>) -> Option<int> {
    if seg.len() > 0 && (forall|i: int| 0 <= i < seg.len() ==> '0' <= #[trigger] seg[i] <= '9') {
        Some(dec_val_chars(seg))
    } else {
        None
    }
}

pub open spec fn dec_val_chars(s: Seq<char>) -> int
    decreases s.len(),
{
    if s.len() == 0 {
        0
    } else {
        dec_val_chars(s.drop_last()) * 10 + (s.last() as int - 48)
    }
}

/// Reads a segment as an array index, refusing indexes beyond `bound`.
fn seg_index_exec(seg: &String, bound: usize) -> (r: Option<usize>)
    ensures
        match seg_as_index(seg@) {
            Some(v) => if v <= bound {
                r matches Some(u) && u == v
            } else {
                r is None
            },
            None => r is None,
        },
{
    let s = seg.as_str();
    let n = s.unicode_len();
    if n == 0 {
        return None;
    }
    let ghost cs = seg@;
    let mut acc: u128 = 0;
    let mut i: usize = 0;
    while i < n
        invariant
            i <= n,
            n == cs.len(),
            s@ == cs,
            cs == seg@,
            forall|j: int| 0 <= j < i ==> '0' <= #[trigger] cs[j] <= '9',
            acc == dec_val_chars(cs.take(i as int)),
            acc <= bound,
        decreases n - i,
    {
        let c = s.get_char(i);
        if c < '0' || c > '9' {
            proof {
                assert(cs[i as int] == c);
                assert(!('0' <= cs[i as int] && cs[i as int] <= '9'));
                assert(seg_as_index(cs) is None);
            }
            return None;
        }
        proof {
            assert(cs.take(i + 1).drop_last() =~= cs.take(i as int));
            assert('0' as int == 48 && '9' as int == 57);
            assert(48 <= c as int <= 57) by {
                assert('0' <= c <= '9');
            }
        }
        acc = acc * 10 + (char_digit_val(c)) as u128;
        i = i + 1;
        if acc > bound as u128 {
            proof {
                if forall|j: int| 0 <= j < cs.len() ==> '0' <= #[trigger] cs[j] <= '9' {
                    lemma_dec_val_chars_prefix(cs, i as int);
                    assert(cs.take(cs.len() as int) =~= cs);
                    assert(dec_val_chars(cs) >= acc);
                    assert(seg_as_index(cs) matches Some(v) && v > bound);
                } else {
                    assert(seg_as_index(cs) is None);
                }
            }
            return None;
        }
    }
    proof {
        assert(cs.take(cs.len() as int) =~= cs);
    }
    Some(acc as usize)
}

/// The value of a digit character.
fn char_digit_val(c: char) -> (r: u8)
    requires
        '0' <= c <= '9',
    ensures
        r == c as int - 48,
        r <= 9,
{
    proof {
        assert('0' as int == 48 && '9' as int == 57);
    }
    (c as u32 as u8) - 48
}


/// Digits-so-far dominate: a longer digit prefix has at least the value of
/// a shorter one.
proof fn lemma_dec_val_chars_prefix(s: Seq<char>, i: int)
    requires
        0 <= i <= s.len(),
        forall|j: int| 0 <= j < s.len() ==> '0' <= #[trigger] s[j] <= '9',
    ensures
        dec_val_chars(s.take(i)) <= dec_val_chars(s.take(s.len() as int)),
        dec_val_chars(s.take(i)) >= 0,
    decreases s.len() - i,
{
    assert forall|k: int| 0 <= k <= s.len() implies dec_val_chars(s.take(k)) >= 0 by {
        lemma_dec_val_chars_nonneg(s, k);
    }
    if i < s.len() {
        lemma_dec_val_chars_prefix(s, i + 1);
        assert(s.take(i + 1).drop_last() =~= s.take(i));
        assert('0' as int == 48);
        assert(dec_val_chars(s.take(i + 1)) >= dec_val_chars(s.take(i)));
    }
}

proof fn lemma_dec_val_chars_nonneg(s: Seq<char>, k: int)
    requires
        0 <= k <= s.len(),
        forall|j: int| 0 <= j < s.len() ==> '0' <= #[trigger] s[j] <= '9',
    ensures
        dec_val_chars(s.take(k)) >= 0,
    decreases k,
{
    if k > 0 {
        lemma_dec_val_chars_nonneg(s, k - 1);
        assert(s.take(k).drop_last() =~= s.take(k - 1));
        assert('0' as int == 48);
    }
}

/// The value a dot path addresses: object segments select members, numeric
/// segments index arrays.
pub open spec fn jget_path(m: JsonModel, segs: Seq<Seq<char>>) -> Option<JsonModel>
    decreases segs.len(),
{
    if segs.len() == 0 {
        Some(m)
    } else {
        match m {
            JsonModel::Obj(ms) => if has_key(ms, segs[0]) {
                jget_path(ms[key_index(ms, segs[0])].1, segs.drop_first())
            } else {
                None
            },
            JsonModel::Arr(vs) => match seg_as_index(segs[0]) {
                Some(i) => if 0 <= i < vs.len() {
                    jget_path(vs[i], segs.drop_first())
                } else {
                    None
                },
                None => None,
            },
            _ => None,
        }
    }
}

/// The document after a dot-path write: absent keys create objects on the
/// way down (a null stands in for an empty object), array segments replace
/// elements in bounds, and anything else is refused.
pub open spec fn jset_path(m: JsonModel, segs: Seq<Seq<char>>, v: JsonModel) -> Option<JsonModel>
    decreases segs.len(),
{
    if segs.len() == 0 {
        Some(v)
    } else {
        match m {
            JsonModel::Obj(ms) => if has_key(ms, segs[0]) {
                match jset_path(ms[key_index(ms, segs[0])].1, segs.drop_first(), v) {
                    Some(sub) => Some(
                        JsonModel::Obj(ms.update(key_index(ms, segs[0]), (segs[0], sub))),
                    ),
                    None => None,
                }
            } else {
                match jset_path(JsonModel::Obj(Seq::empty()), segs.drop_first(), v) {
                    Some(sub) => Some(JsonModel::Obj(ms.push((segs[0], sub)))),
                    None => None,
                }
            },
            JsonModel::Null => match jset_path(JsonModel::Obj(Seq::empty()), segs.drop_first(), v) {
                Some(sub) => Some(JsonModel::Obj(seq![(segs[0], sub)])),
                None => None,
            },
            JsonModel::Arr(vs) => match seg_as_index(segs[0]) {
                Some(i) => if 0 <= i < vs.len() {
                    match jset_path(vs[i], segs.drop_first(), v) {
                        Some(sub) => Some(JsonModel::Arr(vs.update(i, sub))),
                        None => None,
                    }
                } else {
                    None
                },
                None => None,
            },
            _ => None,
        }
    }
}

/// The document after a dot-path removal, or nothing when the path does not
/// address a member or element.
pub open spec fn jrem_path(m: JsonModel, segs: Seq<Seq<char>>) -> Option<JsonModel>
    decreases segs.len(),
{
    if segs.len() == 0 {
        None
    } else {
        match m {
            JsonModel::Obj(ms) => if has_key(ms, segs[0]) {
                if segs.len() == 1 {
                    Some(JsonModel::Obj(ms.remove(key_index(ms, segs[0]))))
                } else {
                    match jrem_path(ms[key_index(ms, segs[0])].1, segs.drop_first()) {
                        Some(sub) => Some(
                            JsonModel::Obj(ms.update(key_index(ms, segs[0]), (segs[0], sub))),
                        ),
                        None => None,
                    }
                }
            } else {
                None
            },
            JsonModel::Arr(vs) => match seg_as_index(segs[0]) {
                Some(i) => if 0 <= i < vs.len() {
                    if segs.len() == 1 {
                        Some(JsonModel::Arr(vs.remove(i)))
                    } else {
                        match jrem_path(vs[i], segs.drop_first()) {
                            Some(sub) => Some(JsonModel::Arr(vs.update(i, sub))),
                            None => None,
                        }
                    }
                } else {
                    None
                },
                None => None,
            },
            _ => None,
        }
    }
}

/// A deep copy.
pub fn clone_json(j: &Json) -> (r: Json)
    ensures
        jmodel(r) == jmodel(*j),
    decreases *j,
{
    match *j {
        Json::Null => Json::Null,
        Json::Bool(b) => Json::Bool(b),
        Json::Num(ref t) => Json::Num(t.clone()),
        Json::Str(ref s) => Json::Str(s.clone()),
        Json::Arr(ref vs) => {
            let mut out: Vec<Json> = Vec::new();
            let mut i: usize = 0;
            proof {
                lemma_jmodels(vs@);
                lemma_jmodels(out@);
            }
            while i < vs.len()
                invariant
                    i <= vs@.len(),
                    *j == Json::Arr(*vs),
                    out@.len() == i,
                    forall|k: int| 0 <= k < i ==> jmodel(#[trigger] out@[k]) == jmodel(vs@[k]),
                decreases vs@.len() - i,
            {
                proof {
                    assert(decreases_to!(*j => j->Arr_0));
                    assert(decreases_to!(*vs => vs@));
                    assert(decreases_to!(vs@ => vs@[i as int]));
                }
                let c = clone_json(&vs[i]);
                out.push(c);
                i = i + 1;
            }
            proof {
                lemma_jmodels(vs@);
                lemma_jmodels(out@);
                assert(jmodels(out@) =~= jmodels(vs@));
            }
            Json::Arr(out)
        },
        Json::Obj(ref ms) => {
            let mut out: Vec<(String, Json)> = Vec::new();
            let mut i: usize = 0;
            while i < ms.len()
                invariant
                    i <= ms@.len(),
                    *j == Json::Obj(*ms),
                    out@.len() == i,
                    forall|k: int| 0 <= k < i ==> (#[trigger] out@[k]).0@ == ms@[k].0@ && jmodel(
                        out@[k].1,
                    ) == jmodel(ms@[k].1),
                decreases ms@.len() - i,
            {
                proof {
                    assert(decreases_to!(*j => j->Obj_0));
                    assert(decreases_to!(*ms => ms@));
                    assert(decreases_to!(ms@ => ms@[i as int]));
                    assert(decreases_to!(ms@[i as int] => ms@[i as int].1));
                }
                let c = clone_json(&ms[i].1);
                let k = ms[i].0.clone();
                out.push((k, c));
                i = i + 1;
            }
            proof {
                lemma_jobj_models(ms@);
                lemma_jobj_models(out@);
                assert(jobj_models(out@) =~= jobj_models(ms@));
            }
            Json::Obj(out)
        },
    }
}

/// Looks up a key's value.
pub open spec fn obj_lookup(ms: Seq<(Seq<char>, JsonModel)>, k: Seq<char>) -> Option<JsonModel> {
    if has_key(ms, k) {
        Some(ms[key_index(ms, k)].1)
    } else {
        None
    }
}

/// The recursive merge: a null on the right keeps the left side; two
/// objects merge member-wise, the right side winning inside; anything else
/// takes the right side.
pub open spec fn jmerge_model(a: JsonModel, b: JsonModel) -> JsonModel
    decreases b, 1int,
{
    if b is Null {
        a
    } else if a is Obj && b is Obj {
        JsonModel::Obj(merged_members(a->Obj_0, b->Obj_0) + fresh_members(a->Obj_0, b->Obj_0))
    } else {
        b
    }
}

/// The left object's members, each merged with the right object's value
/// under the same key when it has one.
pub open spec fn merged_members(
    ams: Seq<(Seq<char>, JsonModel)>,
    bms: Seq<(Seq<char>, JsonModel)>,
) -> Seq<(Seq<char>, JsonModel)>
    decreases bms, 0int, ams.len(),
    via merged_members_decreases
{
    if ams.len() == 0 {
        Seq::empty()
    } else {
        let head = if has_key(bms, ams[0].0) {
            (ams[0].0, jmerge_model(ams[0].1, bms[key_index(bms, ams[0].0)].1))
        } else {
            ams[0]
        };
        seq![head] + merged_members(ams.drop_first(), bms)
    }
}

#[via_fn]
proof fn merged_members_decreases(
    ams: Seq<(Seq<char>, JsonModel)>,
    bms: Seq<(Seq<char>, JsonModel)>,
) {
    if ams.len() > 0 {
        lemma_key_index(bms, ams[0].0);
        if has_key(bms, ams[0].0) {
            let e = bms[key_index(bms, ams[0].0)];
            assert(decreases_to!(bms => e));
            assert(decreases_to!(e => e.1));
        }
    }
}

/// The right object's members whose keys the left object lacks.
pub open spec fn fresh_members(
    ams: Seq<(Seq<char>, JsonModel)>,
    bms: Seq<(Seq<char>, JsonModel)>,
) -> Seq<(Seq<char>, JsonModel)>
    decreases bms.len(),
{
    if bms.len() == 0 {
        Seq::empty()
    } else {
        (if has_key(ams, bms[0].0) {
            Seq::empty()
        } else {
            seq![bms[0]]
        }) + fresh_members(ams, bms.drop_first())
    }
}

/// Finds the position of a key among the first `n` members.
fn lookup_member_upto(members: &Vec<(String, Json)>, n: usize, key: &str) -> (r: Option<usize>)
    requires
        n <= members@.len(),
    ensures
        ({
            let ms = jobj_models(members@).take(n as int);
            match r {
                Some(i) => i == key_index(ms, key@) && i < n,
                None => !has_key(ms, key@),
            }
        }),
{
    proof {
        lemma_jobj_models(members@);
    }
    let ghost ms = jobj_models(members@).take(n as int);
    let mut i: usize = 0;
    while i < n
        invariant
            i <= n <= members@.len(),
            ms == jobj_models(members@).take(n as int),
            ms.len() == n,
            forall|j: int| 0 <= j < n ==> ms[j] == (
                #[trigger] members@[j].0@,
                jmodel(members@[j].1),
            ),
            forall|j: int| 0 <= j < i ==> ms[j].0 != key@,
        decreases n - i,
    {
        if crate::utils::str_eq(members[i].0.as_str(), key) {
            proof {
                lemma_key_index_is(ms, key@, i as int);
            }
            return Some(i);
        }
        i = i + 1;
    }
    proof {
        lemma_key_index_is(ms, key@, ms.len() as int);
        lemma_key_index(ms, key@);
    }
    None
}

proof fn lemma_merged_members_snoc(
    ams: Seq<(Seq<char>, JsonModel)>,
    bms: Seq<(Seq<char>, JsonModel)>,
    i: int,
)
    requires
        0 <= i < ams.len(),
    ensures
        merged_members(ams.take(i + 1), bms) == merged_members(ams.take(i), bms) + seq![
            (if has_key(bms, ams[i].0) {
                (ams[i].0, jmerge_model(ams[i].1, bms[key_index(bms, ams[i].0)].1))
            } else {
                ams[i]
            }),
        ],
    decreases i,
{
    if i == 0 {
        assert(ams.take(1).drop_first() =~= Seq::<(Seq<char>, JsonModel)>::empty());
        assert(ams.take(0) =~= Seq::<(Seq<char>, JsonModel)>::empty());
        assert(merged_members(ams.take(1), bms) =~= merged_members(ams.take(0), bms) + seq![
            (if has_key(bms, ams[0].0) {
                (ams[0].0, jmerge_model(ams[0].1, bms[key_index(bms, ams[0].0)].1))
            } else {
                ams[0]
            }),
        ]);
    } else {
        lemma_merged_members_snoc(ams.drop_first(), bms, i - 1);
        assert(ams.take(i + 1).drop_first() =~= ams.drop_first().take(i));
        assert(ams.take(i).drop_first() =~= ams.drop_first().take(i - 1));
        assert(ams.drop_first().take(i - 1 + 1) == ams.drop_first().take(i));
        assert(ams.drop_first()[i - 1] == ams[i]);
        assert(ams.take(i + 1)[0] == ams[0]);
        assert(ams.take(i)[0] == ams[0]);
        assert(merged_members(ams.take(i + 1), bms) =~= merged_members(ams.take(i), bms) + seq![
            (if has_key(bms, ams[i].0) {
                (ams[i].0, jmerge_model(ams[i].1, bms[key_index(bms, ams[i].0)].1))
            } else {
                ams[i]
            }),
        ]);
    }
}

proof fn lemma_fresh_members_snoc(
    ams: Seq<(Seq<char>, JsonModel)>,
    bms: Seq<(Seq<char>, JsonModel)>,
    i: int,
)
    requires
        0 <= i < bms.len(),
    ensures
        fresh_members(ams, bms.take(i + 1)) == fresh_members(ams, bms.take(i)) + (if has_key(
            ams,
            bms[i].0,
        ) {
            Seq::<(Seq<char>, JsonModel)>::empty()
        } else {
            seq![bms[i]]
        }),
    decreases i,
{
    if i == 0 {
        assert(bms.take(1).drop_first() =~= Seq::<(Seq<char>, JsonModel)>::empty());
        assert(bms.take(0) =~= Seq::<(Seq<char>, JsonModel)>::empty());
        assert(fresh_members(ams, bms.take(1)) =~= fresh_members(ams, bms.take(0)) + (if has_key(
            ams,
            bms[0].0,
        ) {
            Seq::<(Seq<char>, JsonModel)>::empty()
        } else {
            seq![bms[0]]
        }));
    } else {
        lemma_fresh_members_snoc(ams, bms.drop_first(), i - 1);
        assert(bms.take(i + 1).drop_first() =~= bms.drop_first().take(i));
        assert(bms.take(i).drop_first() =~= bms.drop_first().take(i - 1));
        assert(bms.drop_first().take(i - 1 + 1) == bms.drop_first().take(i));
        assert(bms.drop_first()[i - 1] == bms[i]);
        assert(bms.take(i + 1)[0] == bms[0]);
        assert(bms.take(i)[0] == bms[0]);
        assert(fresh_members(ams, bms.take(i + 1)) =~= fresh_members(ams, bms.take(i)) + (
        if has_key(ams, bms[i].0) {
            Seq::<(Seq<char>, JsonModel)>::empty()
        } else {
            seq![bms[i]]
        }));
    }
}

/// Merged members keep the left side's keys, in order.
proof fn lemma_merged_members_keys(
    ams: Seq<(Seq<char>, JsonModel)>,
    bms: Seq<(Seq<char>, JsonModel)>,
)
    ensures
        merged_members(ams, bms).len() == ams.len(),
        forall|i: int| 0 <= i < ams.len() ==> (#[trigger] merged_members(ams, bms)[i]).0
            == ams[i].0,
    decreases ams.len(),
{
    if ams.len() > 0 {
        lemma_merged_members_keys(ams.drop_first(), bms);
        assert forall|i: int|
            0 <= i < ams.len() implies (#[trigger] merged_members(ams, bms)[i]).0 == ams[i].0 by {
            if i > 0 {
                assert(merged_members(ams, bms)[i] == merged_members(ams.drop_first(), bms)[i
                    - 1]);
                assert(ams.drop_first()[i - 1] == ams[i]);
            }
        }
    }
}

/// A key's position depends on the keys alone.
proof fn lemma_key_index_same_keys(
    xs: Seq<(Seq<char>, JsonModel)>,
    ys: Seq<(Seq<char>, JsonModel)>,
    k: Seq<char>,
)
    requires
        xs.len() == ys.len(),
        forall|i: int| 0 <= i < xs.len() ==> (#[trigger] xs[i]).0 == ys[i].0,
    ensures
        key_index(xs, k) == key_index(ys, k),
    decreases xs.len(),
{
    if xs.len() > 0 && xs[0].0 != k {
        assert(forall|i: int|
            0 <= i < xs.drop_first().len() ==> (#[trigger] xs.drop_first()[i]).0
                == ys.drop_first()[i].0 && xs.drop_first()[i] == xs[i + 1] && ys.drop_first()[i]
                == ys[i + 1]);
        lemma_key_index_same_keys(xs.drop_first(), ys.drop_first(), k);
    }
}

/// Merges two documents: the merge the store's merge operator applies to
/// JSON values.
pub fn deep_merge(a: Json, b: &Json) -> (r: Json)
    ensures
        jmodel(r) == jmerge_model(jmodel(a), jmodel(*b)),
    decreases *b,
{
    if let Json::Null = *b {
        return a;
    }
    let bms = match *b {
        Json::Obj(ref v) => v,
        _ => {
            return clone_json(b);
        },
    };
    let mut rest = match a {
        Json::Obj(v) => v,
        other => {
            return clone_json(b);
        },
    };
    let ghost am = jobj_models(rest@);
    let ghost bm = jobj_models(bms@);
    proof {
        lemma_jobj_models(rest@);
        lemma_jobj_models(bms@);
        lemma_key_index(bm, Seq::empty());
    }
    let mut out: Vec<(String, Json)> = Vec::new();
    let mut i: usize = 0;
    let alen = rest.len();
    proof {
        assert(jobj_models(out@) =~= Seq::<(Seq<char>, JsonModel)>::empty());
        assert(merged_members(am.take(0), bm) =~= Seq::<(Seq<char>, JsonModel)>::empty());
    }
    while rest.len() > 0
        invariant
            i + rest@.len() == alen,
            alen == am.len(),
            bm == jobj_models(bms@),
            bm.len() == bms@.len(),
            forall|k: int|
                #![trigger bms@[k]]
                0 <= k < bms@.len() ==> bm[k] == (bms@[k].0@, jmodel(bms@[k].1)),
            jobj_models(rest@) == am.skip(i as int),
            jobj_models(out@) == merged_members(am.take(i as int), bm),
            *b == Json::Obj(*bms),
        decreases rest@.len(),
    {
        let ghost pre_rest = jobj_models(rest@);
        let ghost pre_out = jobj_models(out@);
        let (k, va) = rest.remove(0);
        let ghost kv = k@;
        let ghost vam = jmodel(va);
        proof {
            lemma_jobj_models(rest@);
            assert(jobj_models(rest@) =~= pre_rest.drop_first()) by {
                lemma_jobj_models(rest@);
            }
            assert(jobj_models(rest@) =~= am.skip(i + 1));
            assert(am[i as int] == pre_rest[0]);
            assert(am[i as int] == (kv, vam));
        }
        let merged: Json = match lookup_member_upto(bms, bms.len(), k.as_str()) {
            Some(idx) => {
                proof {
                    assert(bm.take(bm.len() as int) =~= bm);
                    assert(decreases_to!(*b => b->Obj_0));
                    assert(decreases_to!(*bms => bms@));
                    assert(decreases_to!(bms@ => bms@[idx as int]));
                    assert(decreases_to!(bms@[idx as int] => bms@[idx as int].1));
                }
                let m2 = deep_merge(va, &bms[idx].1);
                proof {
                    assert(idx == key_index(bm, kv));
                    assert(has_key(bm, kv));
                    assert(jmodel(bms@[idx as int].1) == bm[idx as int].1);
                    assert(jmodel(m2) == jmerge_model(vam, bm[idx as int].1));
                }
                m2
            },
            None => {
                proof {
                    assert(bm.take(bm.len() as int) =~= bm);
                    assert(!has_key(bm, kv));
                }
                va
            },
        };
        let ghost mm = jmodel(merged);
        let ghost pre_items = out@;
        out.push((k, merged));
        proof {
            assert(bm.take(bm.len() as int) =~= bm);
            lemma_jobj_models(out@);
            lemma_jobj_models(pre_items);
            lemma_merged_members_snoc(am, bm, i as int);
            lemma_key_index(bm, kv);
            assert(jobj_models(out@) =~= pre_out.push((kv, mm)));
            let ghost head = if has_key(bm, kv) {
                (kv, jmerge_model(vam, bm[key_index(bm, kv)].1))
            } else {
                am[i as int]
            };
            assert(merged_members(am.take(i + 1), bm) == merged_members(am.take(i as int), bm)
                + seq![head]);
            assert(head.0 == kv);
            assert(head.1 == mm);
            assert(jobj_models(out@) =~= merged_members(am.take(i + 1), bm));
        }
        i = i + 1;
    }
    proof {
        assert(am.take(alen as int) =~= am);
        lemma_merged_members_keys(am, bm);
        assert(bm.take(0) =~= Seq::<(Seq<char>, JsonModel)>::empty());
        assert(fresh_members(am, bm.take(0)) =~= Seq::<(Seq<char>, JsonModel)>::empty());
        assert(jobj_models(out@) =~= merged_members(am, bm) + fresh_members(am, bm.take(0)));
        assert(jobj_models(out@).take(alen as int) =~= merged_members(am, bm));
    }
    // append the right side's members under keys the left side lacks
    let mut j: usize = 0;
    while j < bms.len()
        invariant
            j <= bms@.len(),
            alen == am.len(),
            bm == jobj_models(bms@),
            bm.len() == bms@.len(),
            forall|k: int|
                #![trigger bms@[k]]
                0 <= k < bms@.len() ==> bm[k] == (bms@[k].0@, jmodel(bms@[k].1)),
            jobj_models(out@) == merged_members(am, bm) + fresh_members(am, bm.take(j as int)),
            jobj_models(out@).len() >= alen,
            jobj_models(out@).take(alen as int) == merged_members(am, bm),
            *b == Json::Obj(*bms),
        decreases bms@.len() - j,
    {
        let ghost pre_out = jobj_models(out@);
        proof {
            lemma_jobj_models(out@);
        }
        let key_here = match lookup_member_upto(&out, alen, bms[j].0.as_str()) {
            Some(_) => true,
            None => false,
        };
        proof {
            lemma_merged_members_keys(am, bm);
            lemma_key_index_same_keys(
                jobj_models(out@).take(alen as int),
                am,
                bms@[j as int].0@,
            );
            lemma_fresh_members_snoc(am, bm, j as int);
        }
        if !key_here {
            let kc = bms[j].0.clone();
            let vc = clone_json(&bms[j].1);
            let ghost kv = kc@;
            let ghost vm = jmodel(vc);
            let ghost pre_items = out@;
            out.push((kc, vc));
            proof {
                lemma_jobj_models(out@);
                lemma_jobj_models(pre_items);
                assert(jobj_models(out@) =~= pre_out.push((kv, vm)));
                assert(jobj_models(out@) =~= merged_members(am, bm) + fresh_members(
                    am,
                    bm.take(j + 1),
                ));
                assert(jobj_models(out@).take(alen as int) =~= pre_out.take(alen as int));
            }
        } else {
            proof {
                assert(fresh_members(am, bm.take(j + 1)) =~= fresh_members(am, bm.take(j as int)));
                assert(jobj_models(out@) =~= merged_members(am, bm) + fresh_members(
                    am,
                    bm.take(j + 1),
                ));
            }
        }
        j = j + 1;
    }
    proof {
        assert(bm.take(bm.len() as int) =~= bm);
    }
    Json::Obj(out)
}

/// Merging with a null right side keeps the left document.
pub proof fn lemma_merge_null_right(a: JsonModel)
    ensures
        jmerge_model(a, JsonModel::Null) == a,
{
}

/// Merging into a null left side takes the right document.
pub proof fn lemma_merge_null_left(b: JsonModel)
    ensures
        jmerge_model(JsonModel::Null, b) == b,
{
}

/// Merging two objects with disjoint keys commutes: as key-to-value maps,
/// the two merge orders agree.
pub proof fn lemma_merge_disjoint_commutes(
    ams: Seq<(Seq<char>, JsonModel)>,
    bms: Seq<(Seq<char>, JsonModel)>,
)
    requires
        forall|i: int| 0 <= i < ams.len() ==> !has_key(bms, (#[trigger] ams[i]).0),
        forall|i: int| 0 <= i < bms.len() ==> !has_key(ams, (#[trigger] bms[i]).0),
    ensures
        jmerge_model(JsonModel::Obj(ams), JsonModel::Obj(bms)) == JsonModel::Obj(ams + bms),
        jmerge_model(JsonModel::Obj(bms), JsonModel::Obj(ams)) == JsonModel::Obj(bms + ams),
        forall|k: Seq<char>|
            #![trigger obj_lookup(ams + bms, k)]
            obj_lookup(ams + bms, k) == obj_lookup(bms + ams, k),
{
    lemma_merged_disjoint(ams, bms);
    lemma_fresh_disjoint(ams, bms);
    lemma_merged_disjoint(bms, ams);
    lemma_fresh_disjoint(bms, ams);
    assert(merged_members(ams, bms) + fresh_members(ams, bms) =~= ams + bms);
    assert(merged_members(bms, ams) + fresh_members(bms, ams) =~= bms + ams);
    assert forall|k: Seq<char>|
        #![trigger obj_lookup(ams + bms, k)]
        obj_lookup(ams + bms, k) == obj_lookup(bms + ams, k) by {
        lemma_lookup_concat(ams, bms, k);
        lemma_lookup_concat(bms, ams, k);
        lemma_key_index(ams, k);
        lemma_key_index(bms, k);
        if has_key(ams, k) {
            assert(!has_key(bms, k)) by {
                assert(ams[key_index(ams, k)].0 == k);
            }
        }
        if has_key(bms, k) {
            assert(!has_key(ams, k)) by {
                assert(bms[key_index(bms, k)].0 == k);
            }
        }
    }
}

proof fn lemma_merged_disjoint(
    ams: Seq<(Seq<char>, JsonModel)>,
    bms: Seq<(Seq<char>, JsonModel)>,
)
    requires
        forall|i: int| 0 <= i < ams.len() ==> !has_key(bms, (#[trigger] ams[i]).0),
    ensures
        merged_members(ams, bms) == ams,
    decreases ams.len(),
{
    if ams.len() > 0 {
        assert(forall|i: int|
            0 <= i < ams.drop_first().len() ==> (#[trigger] ams.drop_first()[i]) == ams[i + 1]);
        lemma_merged_disjoint(ams.drop_first(), bms);
        assert(merged_members(ams, bms) =~= ams);
    }
}

proof fn lemma_fresh_disjoint(
    ams: Seq<(Seq<char>, JsonModel)>,
    bms: Seq<(Seq<char>, JsonModel)>,
)
    requires
        forall|i: int| 0 <= i < bms.len() ==> !has_key(ams, (#[trigger] bms[i]).0),
    ensures
        fresh_members(ams, bms) == bms,
    decreases bms.len(),
{
    if bms.len() > 0 {
        assert(forall|i: int|
            0 <= i < bms.drop_first().len() ==> (#[trigger] bms.drop_first()[i]) == bms[i + 1]);
        lemma_fresh_disjoint(ams, bms.drop_first());
        assert(fresh_members(ams, bms) =~= bms);
    }
}

/// A lookup in concatenated members takes the left hit first.
proof fn lemma_lookup_concat(
    xs: Seq<(Seq<char>, JsonModel)>,
    ys: Seq<(Seq<char>, JsonModel)>,
    k: Seq<char>,
)
    ensures
        has_key(xs, k) ==> obj_lookup(xs + ys, k) == obj_lookup(xs, k),
        !has_key(xs, k) && has_key(ys, k) ==> obj_lookup(xs + ys, k) == obj_lookup(ys, k),
        !has_key(xs, k) && !has_key(ys, k) ==> obj_lookup(xs + ys, k) is None,
    decreases xs.len(),
{
    lemma_key_index(xs, k);
    lemma_key_index(ys, k);
    lemma_key_index(xs + ys, k);
    if xs.len() == 0 {
        assert(xs + ys =~= ys);
    } else if xs[0].0 == k {
        assert((xs + ys)[0] == xs[0]);
    } else {
        assert((xs + ys)[0] == xs[0]);
        assert((xs + ys).drop_first() =~= xs.drop_first() + ys);
        lemma_lookup_concat(xs.drop_first(), ys, k);
        lemma_key_index(xs.drop_first(), k);
        if has_key(xs, k) {
            assert(xs.drop_first()[key_index(xs.drop_first(), k)] == xs[key_index(
                xs.drop_first(),
                k,
            ) + 1]);
        }
    }
}

/// The views of a path's segments.
pub open spec fn seg_views(segs: Seq<String>) -> Seq<Seq<char>> {
    segs.map_values(|s: String| s@)
}

/// Reads the value a dot path addresses, starting at segment `si`.
pub fn json_get_path<'a>(j: &'a Json, segs: &Vec<String>, si: usize) -> (r: Option<&'a Json>)
    requires
        si <= segs@.len(),
    ensures
        match jget_path(jmodel(*j), seg_views(segs@).skip(si as int)) {
            Some(m) => r matches Some(x) && jmodel(*x) == m,
            None => r is None,
        },
    decreases segs@.len() - si,
{
    let ghost path = seg_views(segs@).skip(si as int);
    if si == segs.len() {
        proof {
            assert(path.len() == 0);
        }
        return Some(j);
    }
    proof {
        assert(path[0] == segs@[si as int]@);
        assert(path.drop_first() =~= seg_views(segs@).skip(si + 1));
    }
    match *j {
        Json::Obj(ref ms) => {
            match lookup_member_upto(ms, ms.len(), segs[si].as_str()) {
                Some(i) => {
                    proof {
                        lemma_jobj_models(ms@);
                        assert(jobj_models(ms@).take(jobj_models(ms@).len() as int) =~= jobj_models(
                            ms@,
                        ));
                    }
                    json_get_path(&ms[i].1, segs, si + 1)
                },
                None => {
                    proof {
                        lemma_jobj_models(ms@);
                        assert(jobj_models(ms@).take(jobj_models(ms@).len() as int) =~= jobj_models(
                            ms@,
                        ));
                    }
                    None
                },
            }
        },
        Json::Arr(ref vs) => {
            if vs.len() == 0 {
                proof {
                    lemma_jmodels(vs@);
                }
                return None;
            }
            match seg_index_exec(&segs[si], vs.len() - 1) {
                Some(i) => {
                    proof {
                        lemma_jmodels(vs@);
                    }
                    json_get_path(&vs[i], segs, si + 1)
                },
                None => {
                    proof {
                        lemma_jmodels(vs@);
                    }
                    None
                },
            }
        },
        _ => None,
    }
}

/// Writes `v` at a dot path, starting at segment `si`: the written document,
/// or nothing when the path cannot be addressed.
pub fn json_set_path(j: Json, segs: &Vec<String>, si: usize, v: Json) -> (r: Option<Json>)
    requires
        si <= segs@.len(),
    ensures
        match jset_path(jmodel(j), seg_views(segs@).skip(si as int), jmodel(v)) {
            Some(m) => r matches Some(x) && jmodel(x) == m,
            None => r is None,
        },
    decreases segs@.len() - si,
{
    let ghost path = seg_views(segs@).skip(si as int);
    let ghost vm = jmodel(v);
    if si == segs.len() {
        proof {
            assert(path.len() == 0);
        }
        return Some(v);
    }
    proof {
        assert(path[0] == segs@[si as int]@);
        assert(path.drop_first() =~= seg_views(segs@).skip(si + 1));
    }
    match j {
        Json::Obj(mut ms) => {
            let ghost mm = jobj_models(ms@);
            proof {
                lemma_jobj_models(ms@);
            }
            match lookup_member_upto(&ms, ms.len(), segs[si].as_str()) {
                Some(i) => {
                    proof {
                        assert(mm.take(mm.len() as int) =~= mm);
                    }
                    let (k, old) = ms.remove(i);
                    let ghost kv = k@;
                    proof {
                        lemma_key_index(mm, path[0]);
                        assert(kv == path[0]);
                    }
                    match json_set_path(old, segs, si + 1, v) {
                        Some(sub) => {
                            let ghost subm = jmodel(sub);
                            ms.insert(i, (k, sub));
                            proof {
                                lemma_jobj_models(ms@);
                                assert(jobj_models(ms@) =~= mm.update(i as int, (kv, subm)));
                            }
                            Some(Json::Obj(ms))
                        },
                        None => None,
                    }
                },
                None => {
                    proof {
                        assert(mm.take(mm.len() as int) =~= mm);
                        assert(jobj_models(Seq::<(String, Json)>::empty()) =~= Seq::<(
                            Seq<char>,
                            JsonModel,
                        )>::empty());
                    }
                    let fresh = Json::Obj(Vec::new());
                    match json_set_path(fresh, segs, si + 1, v) {
                        Some(sub) => {
                            let k = segs[si].clone();
                            let ghost kv = k@;
                            let ghost subm = jmodel(sub);
                            ms.push((k, sub));
                            proof {
                                lemma_jobj_models(ms@);
                                assert(jobj_models(ms@) =~= mm.push((kv, subm)));
                            }
                            Some(Json::Obj(ms))
                        },
                        None => None,
                    }
                },
            }
        },
        Json::Null => {
            proof {
                assert(jobj_models(Seq::<(String, Json)>::empty()) =~= Seq::<(
                    Seq<char>,
                    JsonModel,
                )>::empty());
            }
            let fresh = Json::Obj(Vec::new());
            match json_set_path(fresh, segs, si + 1, v) {
                Some(sub) => {
                    let k = segs[si].clone();
                    let ghost kv = k@;
                    let ghost subm = jmodel(sub);
                    let mut ms: Vec<(String, Json)> = Vec::new();
                    ms.push((k, sub));
                    proof {
                        lemma_jobj_models(ms@);
                        assert(jobj_models(ms@) =~= seq![(kv, subm)]);
                    }
                    Some(Json::Obj(ms))
                },
                None => None,
            }
        },
        Json::Arr(mut vs) => {
            let ghost vm0 = jmodels(vs@);
            proof {
                lemma_jmodels(vs@);
            }
            if vs.len() == 0 {
                return None;
            }
            match seg_index_exec(&segs[si], vs.len() - 1) {
                Some(i) => {
                    let old = vs.remove(i);
                    match json_set_path(old, segs, si + 1, v) {
                        Some(sub) => {
                            let ghost subm = jmodel(sub);
                            vs.insert(i, sub);
                            proof {
                                lemma_jmodels(vs@);
                                assert(jmodels(vs@) =~= vm0.update(i as int, subm));
                            }
                            Some(Json::Arr(vs))
                        },
                        None => None,
                    }
                },
                None => None,
            }
        },
        other => {
            proof {
                assert(jmodel(j) == jmodel(other));
                assert(jset_path(jmodel(j), path, vm) is None);
            }
            None
        },
    }
}

/// Removes what a dot path addresses, starting at segment `si`: the
/// remaining document, or nothing when the path addresses no member.
pub fn json_rem_path(j: Json, segs: &Vec<String>, si: usize) -> (r: Option<Json>)
    requires
        si <= segs@.len(),
    ensures
        match jrem_path(jmodel(j), seg_views(segs@).skip(si as int)) {
            Some(m) => r matches Some(x) && jmodel(x) == m,
            None => r is None,
        },
    decreases segs@.len() - si,
{
    let ghost path = seg_views(segs@).skip(si as int);
    if si == segs.len() {
        proof {
            assert(path.len() == 0);
        }
        return None;
    }
    proof {
        assert(path[0] == segs@[si as int]@);
        assert(path.drop_first() =~= seg_views(segs@).skip(si + 1));
    }
    match j {
        Json::Obj(mut ms) => {
            let ghost mm = jobj_models(ms@);
            proof {
                lemma_jobj_models(ms@);
            }
            match lookup_member_upto(&ms, ms.len(), segs[si].as_str()) {
                Some(i) => {
                    proof {
                        assert(mm.take(mm.len() as int) =~= mm);
                    }
                    if si + 1 == segs.len() {
                        let _gone = ms.remove(i);
                        proof {
                            lemma_jobj_models(ms@);
                            assert(jobj_models(ms@) =~= mm.remove(i as int));
                            assert(path.len() == 1);
                        }
                        Some(Json::Obj(ms))
                    } else {
                        let (k, old) = ms.remove(i);
                        let ghost kv = k@;
                        proof {
                            lemma_key_index(mm, path[0]);
                            assert(kv == path[0]);
                        }
                        match json_rem_path(old, segs, si + 1) {
                            Some(sub) => {
                                let ghost subm = jmodel(sub);
                                ms.insert(i, (k, sub));
                                proof {
                                    lemma_jobj_models(ms@);
                                    assert(jobj_models(ms@) =~= mm.update(i as int, (kv, subm)));
                                }
                                Some(Json::Obj(ms))
                            },
                            None => None,
                        }
                    }
                },
                None => {
                    proof {
                        assert(mm.take(mm.len() as int) =~= mm);
                    }
                    None
                },
            }
        },
        Json::Arr(mut vs) => {
            let ghost vm0 = jmodels(vs@);
            proof {
                lemma_jmodels(vs@);
            }
            if vs.len() == 0 {
                return None;
            }
            match seg_index_exec(&segs[si], vs.len() - 1) {
                Some(i) => {
                    if si + 1 == segs.len() {
                        let _gone = vs.remove(i);
                        proof {
                            lemma_jmodels(vs@);
                            assert(jmodels(vs@) =~= vm0.remove(i as int));
                            assert(path.len() == 1);
                        }
                        Some(Json::Arr(vs))
                    } else {
                        let old = vs.remove(i);
                        match json_rem_path(old, segs, si + 1) {
                            Some(sub) => {
                                let ghost subm = jmodel(sub);
                                vs.insert(i, sub);
                                proof {
                                    lemma_jmodels(vs@);
                                    assert(jmodels(vs@) =~= vm0.update(i as int, subm));
                                }
                                Some(Json::Arr(vs))
                            },
                            None => None,
                        }
                    }
                },
                None => None,
            }
        },
        other => {
            proof {
                assert(jmodel(j) == jmodel(other));
                assert(jrem_path(jmodel(j), path) is None);
            }
            None
        },
    }
}

/// Whether a string is a well-formed JSON document.
pub fn is_json(json_str: &String) -> (r: bool)
    ensures
        r == (spec_json_doc(vstd::utf8::encode_utf8(json_str@)) is Some),
{
    match parse_json(json_str.as_str().as_bytes()) {
        Some(_) => true,
        None => false,
    }
}

} // verus!
