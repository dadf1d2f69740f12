//! The wire format's value model: a tree of JSON-like values, together with
//! the lookup operations the message classifier needs, a verified serializer,
//! and a trusted parser backed by serde_json.
use vstd::prelude::*;

verus! {

/// A parsed JSON document. Numbers that fit `i64` are held exactly; any other
/// number (a float, or an integer out of `i64`'s range) is `NonInt`, which the
/// protocol never reads as a value and which cannot be re-serialized.
#[derive(Debug, PartialEq)]
pub enum JsonValue {
    Null,
    Bool(bool),
    Int(i64),
    NonInt,
    Str(String),
    Arr(Vec<JsonValue>),
    Obj(Vec<(String, JsonValue)>),
}

/// The first value bound to `key`, if any. Objects produced by parsing have
/// unique keys, so this is the only binding.
pub open spec fn pairs_lookup(pairs: Seq<(String, JsonValue)>, key: Seq<char>) -> Option<JsonValue>
    decreases pairs.len(),
{
    if pairs.len() == 0 {
        None
    } else if pairs[0].0@ == key {
        Some(pairs[0].1)
    } else {
        pairs_lookup(pairs.drop_first(), key)
    }
}

/// Indexing as the protocol understands it: looking a key up in a non-object,
/// or a key that is absent, yields `Null`.
pub open spec fn field(v: JsonValue, key: Seq<char>) -> JsonValue {
    match v {
        JsonValue::Obj(pairs) => match pairs_lookup(pairs@, key) {
            Some(x) => x,
            None => JsonValue::Null,
        },
        _ => JsonValue::Null,
    }
}

/// Whether `v` is the JSON string whose characters are `s`.
pub open spec fn is_str_val(v: JsonValue, s: Seq<char>) -> bool {
    v matches JsonValue::Str(t) && t@ == s
}

/// Character-by-character string comparison.
pub fn str_eq(a: &str, b: &str) -> (r: bool)
    ensures
        r == (a@ == b@),
{
    let alen = a.unicode_len();
    let blen = b.unicode_len();
    if alen != blen {
        return false;
    }
    let mut i: usize = 0;
    while i < alen
        invariant
            alen == a@.len(),
            alen == b@.len(),
            i <= alen,
            forall|k: int| 0 <= k < i ==> a@[k] == b@[k],
        decreases alen - i,
    {
        if a.get_char(i) != b.get_char(i) {
            return false;
        }
        i += 1;
    }
    proof {
        assert(a@ =~= b@);
    }
    true
}

proof fn lemma_pairs_lookup_hit(pairs: Seq<(String, JsonValue)>, key: Seq<char>, i: int)
    requires
        0 <= i < pairs.len(),
        forall|k: int| 0 <= k < i ==> pairs[k].0@ != key,
        pairs[i].0@ == key,
    ensures
        pairs_lookup(pairs, key) == Some(pairs[i].1),
    decreases i,
{
    if i > 0 {
        lemma_pairs_lookup_hit(pairs.drop_first(), key, i - 1);
    }
}

proof fn lemma_pairs_lookup_miss(pairs: Seq<(String, JsonValue)>, key: Seq<char>)
    requires
        forall|k: int| 0 <= k < pairs.len() ==> pairs[k].0@ != key,
    ensures
        pairs_lookup(pairs, key) is None,
    decreases pairs.len(),
{
    if pairs.len() > 0 {
        lemma_pairs_lookup_miss(pairs.drop_first(), key);
    }
}

/// The value bound to `key` when `v` is an object that binds it; `None`
/// otherwise, in which case indexing yields `Null`.
#[verifier::loop_isolation(false)]
pub fn get_field<'a>(v: &'a JsonValue, key: &str) -> (r: Option<&'a JsonValue>)
    ensures
        r matches Some(x) ==> *x == field(*v, key@),
        r is None ==> field(*v, key@) == JsonValue::Null,
{
    match v {
        JsonValue::Obj(pairs) => {
            let n = pairs.len();
            let mut i: usize = 0;
            while i < n
                invariant
                    n == pairs@.len(),
                    i <= n,
                    forall|k: int| 0 <= k < i ==> pairs@[k].0@ != key@,
                decreases n - i,
            {
                if str_eq(pairs[i].0.as_str(), key) {
                    proof {
                        lemma_pairs_lookup_hit(pairs@, key@, i as int);
                    }
                    return Some(&pairs[i].1);
                }
                i += 1;
            }
            proof {
                lemma_pairs_lookup_miss(pairs@, key@);
            }
            None
        },
        _ => None,
    }
}

/// The sixteen digits used both for decimal rendering and for the hex part
/// of `\u00XX` escapes.
pub open spec fn hex_digit(n: int) -> char {
    if n == 0 { '0' } else if n == 1 { '1' } else if n == 2 { '2' } else if n == 3 { '3' }
    else if n == 4 { '4' } else if n == 5 { '5' } else if n == 6 { '6' } else if n == 7 { '7' }
    else if n == 8 { '8' } else if n == 9 { '9' } else if n == 10 { 'a' } else if n == 11 { 'b' }
    else if n == 12 { 'c' } else if n == 13 { 'd' } else if n == 14 { 'e' } else { 'f' }
}

/// How one character appears inside a serialized JSON string: quotes and
/// backslashes get a backslash, control characters become `\u00XX`, and
/// everything else stands as itself.
pub open spec fn escape_char(c: char) -> Seq<char> {
    if c == '"' {
        seq!['\\', '"']
    } else if c == '\\' {
        seq!['\\', '\\']
    } else if (c as u32) < 32 {
        seq!['\\', 'u', '0', '0', hex_digit(c as u32 as int / 16), hex_digit(c as u32 as int % 16)]
    } else {
        seq![c]
    }
}

pub open spec fn escape_str(s: Seq<char>) -> Seq<char>
    decreases s.len(),
{
    if s.len() == 0 {
        Seq::empty()
    } else {
        escape_char(s[0]) + escape_str(s.drop_first())
    }
}

/// The decimal digits of `n`, most significant first.
pub open spec fn dec_digits(n: nat) -> Seq<char>
    decreases n,
{
    if n < 10 {
        seq![hex_digit(n as int)]
    } else {
        dec_digits(n / 10).push(hex_digit((n % 10) as int))
    }
}

/// The decimal rendering of an integer, with a leading minus sign when negative.
pub open spec fn int_text(i: int) -> Seq<char> {
    if i < 0 {
        seq!['-'] + dec_digits((-i) as nat)
    } else {
        dec_digits(i as nat)
    }
}

/// A value can be written back out unless a `NonInt` number hides somewhere
/// inside it. Requests built by this library never contain one.
pub open spec fn serializable(v: JsonValue) -> bool
    decreases v,
{
    match v {
        JsonValue::NonInt => false,
        JsonValue::Arr(elts) => forall|i: int|
            0 <= i < elts@.len() ==> serializable(#[trigger] elts@[i]),
        JsonValue::Obj(pairs) => forall|i: int|
            0 <= i < pairs@.len() ==> serializable(#[trigger] pairs@[i].1),
        _ => true,
    }
}

/// The compact one-line JSON text of a value: no spaces, object keys in
/// stored order, strings escaped by `escape_str`.
pub open spec fn json_text(v: JsonValue) -> Seq<char>
    decreases v,
{
    match v {
        JsonValue::Null => "null"@,
        JsonValue::Bool(b) => if b { "true"@ } else { "false"@ },
        JsonValue::Int(i) => int_text(i as int),
        JsonValue::NonInt => Seq::empty(),
        JsonValue::Str(s) => seq!['"'] + escape_str(s@) + seq!['"'],
        JsonValue::Arr(elts) => seq!['['] + arr_text(elts@) + seq![']'],
        JsonValue::Obj(pairs) => seq!['{'] + obj_text(pairs@) + seq!['}'],
    }
}

/// The elements' texts joined by commas.
pub open spec fn arr_text(elts: Seq<JsonValue>) -> Seq<char>
    decreases elts,
{
    if elts.len() == 0 {
        Seq::empty()
    } else if elts.len() == 1 {
        json_text(elts[0])
    } else {
        json_text(elts[0]) + seq![','] + arr_text(elts.drop_first())
    }
}

/// The `"key":value` entries joined by commas.
pub open spec fn obj_text(pairs: Seq<(String, JsonValue)>) -> Seq<char>
    decreases pairs,
{
    if pairs.len() == 0 {
        Seq::empty()
    } else if pairs.len() == 1 {
        entry_text(pairs[0])
    } else {
        entry_text(pairs[0]) + seq![','] + obj_text(pairs.drop_first())
    }
}

pub open spec fn entry_text(pair: (String, JsonValue)) -> Seq<char>
    decreases pair,
{
    seq!['"'] + escape_str(pair.0@) + seq!['"', ':'] + json_text(pair.1)
}

/// Relies on String::push: appends exactly the given character.
#[verifier::external_body]
fn push_char(s: &mut String, c: char)
    ensures
        final(s)@ == old(s)@.push(c),
{
    s.push(c);
}

fn dec_digit_char(n: u64) -> (r: char)
    requires
        n < 10,
    ensures
        r == hex_digit(n as int),
{
    match n {
        0 => '0',
        1 => '1',
        2 => '2',
        3 => '3',
        4 => '4',
        5 => '5',
        6 => '6',
        7 => '7',
        8 => '8',
        _ => '9',
    }
}

fn hex_digit_char(n: u32) -> (r: char)
    requires
        n < 16,
    ensures
        r == hex_digit(n as int),
{
    match n {
        0 => '0',
        1 => '1',
        2 => '2',
        3 => '3',
        4 => '4',
        5 => '5',
        6 => '6',
        7 => '7',
        8 => '8',
        9 => '9',
        10 => 'a',
        11 => 'b',
        12 => 'c',
        13 => 'd',
        14 => 'e',
        _ => 'f',
    }
}

fn append_u64(out: &mut String, n: u64)
    ensures
        final(out)@ == old(out)@ + dec_digits(n as nat),
    decreases n,
{
    if n < 10 {
        push_char(out, dec_digit_char(n));
        proof {
            assert(out@ =~= old(out)@ + dec_digits(n as nat));
        }
    } else {
        append_u64(out, n / 10);
        push_char(out, dec_digit_char(n % 10));
        proof {
            assert(out@ =~= old(out)@ + dec_digits(n as nat));
        }
    }
}

fn append_i64(out: &mut String, i: i64)
    ensures
        final(out)@ == old(out)@ + int_text(i as int),
{
    if i >= 0 {
        append_u64(out, i as u64);
    } else {
        push_char(out, '-');
        let mag: u64 = (-(i as i128)) as u64;
        proof {
            assert(mag == -(i as int));
        }
        append_u64(out, mag);
        proof {
            assert(out@ =~= old(out)@ + int_text(i as int));
        }
    }
}

proof fn lemma_escape_str_push(s: Seq<char>, c: char)
    ensures
        escape_str(s.push(c)) == escape_str(s) + escape_char(c),
    decreases s.len(),
{
    if s.len() == 0 {
        assert(s.push(c).drop_first() =~= Seq::<char>::empty());
        assert(s.push(c)[0] == c);
        assert(escape_str(Seq::<char>::empty()) == Seq::<char>::empty());
        assert(escape_str(s.push(c)) == escape_char(c) + Seq::<char>::empty());
        assert(escape_str(s.push(c)) =~= escape_str(s) + escape_char(c));
    } else {
        assert(s.push(c).drop_first() =~= s.drop_first().push(c));
        lemma_escape_str_push(s.drop_first(), c);
        assert(s.push(c)[0] == s[0]);
        assert(escape_str(s.push(c)) == escape_char(s[0]) + (escape_str(s.drop_first())
            + escape_char(c)));
        assert(escape_char(s[0]) + (escape_str(s.drop_first()) + escape_char(c)) =~= (escape_char(
            s[0]) + escape_str(s.drop_first())) + escape_char(c));
        assert(escape_str(s.push(c)) =~= escape_str(s) + escape_char(c));
    }
}

fn append_escaped(out: &mut String, s: &str)
    ensures
        final(out)@ == old(out)@ + escape_str(s@),
{
    let n = s.unicode_len();
    let mut i: usize = 0;
    while i < n
        invariant
            i <= n,
            n == s@.len(),
            out@ == old(out)@ + escape_str(s@.take(i as int)),
        decreases n - i,
    {
        let c = s.get_char(i);
        if c == '"' {
            out.append("\\\"");
            proof {
                reveal_strlit("\\\"");
                assert("\\\""@ =~= escape_char(c));
            }
        } else if c == '\\' {
            out.append("\\\\");
            proof {
                reveal_strlit("\\\\");
                assert("\\\\"@ =~= escape_char(c));
            }
        } else if (c as u32) < 32 {
            let u = c as u32;
            out.append("\\u00");
            push_char(out, hex_digit_char(u / 16));
            push_char(out, hex_digit_char(u % 16));
            proof {
                reveal_strlit("\\u00");
                assert("\\u00"@ + seq![hex_digit(u as int / 16)] + seq![hex_digit(u as int % 16)]
                    =~= escape_char(c));
            }
        } else {
            push_char(out, c);
            proof {
                assert(seq![c] =~= escape_char(c));
            }
        }
        proof {
            assert(s@.take(i + 1) =~= s@.take(i as int).push(s@[i as int]));
            lemma_escape_str_push(s@.take(i as int), s@[i as int]);
            assert(out@ =~= old(out)@ + escape_str(s@.take(i + 1)));
        }
        i += 1;
    }
    proof {
        assert(s@.take(n as int) =~= s@);
    }
}

proof fn lemma_arr_text_push(s: Seq<JsonValue>, v: JsonValue)
    ensures
        arr_text(s.push(v)) == if s.len() == 0 {
            json_text(v)
        } else {
            arr_text(s) + seq![','] + json_text(v)
        },
    decreases s.len(),
{
    if s.len() == 0 {
        assert(s.push(v)[0] == v);
        assert(arr_text(s.push(v)) == json_text(v));
    } else {
        assert(s.push(v).drop_first() =~= s.drop_first().push(v));
        lemma_arr_text_push(s.drop_first(), v);
        assert(s.push(v)[0] == s[0]);
        assert(arr_text(s.push(v)) == json_text(s[0]) + seq![','] + arr_text(
            s.drop_first().push(v),
        ));
        if s.len() == 1 {
            assert(arr_text(s) == json_text(s[0]));
            assert(arr_text(s.push(v)) =~= arr_text(s) + seq![','] + json_text(v));
        } else {
            assert(arr_text(s) == json_text(s[0]) + seq![','] + arr_text(s.drop_first()));
            assert(arr_text(s.push(v)) =~= arr_text(s) + seq![','] + json_text(v));
        }
    }
}

proof fn lemma_obj_text_push(s: Seq<(String, JsonValue)>, p: (String, JsonValue))
    ensures
        obj_text(s.push(p)) == if s.len() == 0 {
            entry_text(p)
        } else {
            obj_text(s) + seq![','] + entry_text(p)
        },
    decreases s.len(),
{
    if s.len() == 0 {
        assert(s.push(p)[0] == p);
        assert(obj_text(s.push(p)) == entry_text(p));
    } else {
        assert(s.push(p).drop_first() =~= s.drop_first().push(p));
        lemma_obj_text_push(s.drop_first(), p);
        assert(s.push(p)[0] == s[0]);
        assert(obj_text(s.push(p)) == entry_text(s[0]) + seq![','] + obj_text(
            s.drop_first().push(p),
        ));
        if s.len() == 1 {
            assert(obj_text(s) == entry_text(s[0]));
            assert(obj_text(s.push(p)) =~= obj_text(s) + seq![','] + entry_text(p));
        } else {
            assert(obj_text(s) == entry_text(s[0]) + seq![','] + obj_text(s.drop_first()));
            assert(obj_text(s.push(p)) =~= obj_text(s) + seq![','] + entry_text(p));
        }
    }
}

/// Whether the whole tree can be serialized, which the protocol's own
/// requests always can.
#[verifier::loop_isolation(false)]
pub fn is_serializable(v: &JsonValue) -> (r: bool)
    ensures
        r == serializable(*v),
    decreases *v,
{
    match v {
        JsonValue::NonInt => false,
        JsonValue::Arr(elts) => {
            let n = elts.len();
            let mut i: usize = 0;
            while i < n
                invariant
                    i <= n,
                    n == elts@.len(),
                    forall|k: int| 0 <= k < i ==> serializable(#[trigger] elts@[k]),
                decreases n - i,
            {
                if !is_serializable(&elts[i]) {
                    return false;
                }
                i += 1;
            }
            true
        },
        JsonValue::Obj(pairs) => {
            let n = pairs.len();
            let mut i: usize = 0;
            while i < n
                invariant
                    i <= n,
                    n == pairs@.len(),
                    forall|k: int| 0 <= k < i ==> serializable(#[trigger] pairs@[k].1),
                decreases n - i,
            {
                if !is_serializable(&pairs[i].1) {
                    return false;
                }
                i += 1;
            }
            true
        },
        _ => true,
    }
}

#[verifier::loop_isolation(false)]
fn append_json(out: &mut String, v: &JsonValue)
    requires
        serializable(*v),
    ensures
        final(out)@ == old(out)@ + json_text(*v),
    decreases *v,
{
    match v {
        JsonValue::Null => {
            out.append("null");
        },
        JsonValue::Bool(b) => {
            if *b {
                out.append("true");
            } else {
                out.append("false");
            }
        },
        JsonValue::Int(i) => {
            append_i64(out, *i);
        },
        JsonValue::NonInt => {
            proof {
                assert(false);
            }
        },
        JsonValue::Str(s) => {
            push_char(out, '"');
            append_escaped(out, s.as_str());
            push_char(out, '"');
            proof {
                assert(out@ =~= old(out)@ + json_text(*v));
            }
        },
        JsonValue::Arr(elts) => {
            push_char(out, '[');
            let n = elts.len();
            let mut i: usize = 0;
            proof {
                assert(arr_text(elts@.take(0)) == Seq::<char>::empty());
                assert(out@ =~= old(out)@ + seq!['['] + arr_text(elts@.take(0)));
            }
            while i < n
                invariant
                    i <= n,
                    n == elts@.len(),
                    out@ == old(out)@ + seq!['['] + arr_text(elts@.take(i as int)),
                decreases n - i,
            {
                if i > 0 {
                    push_char(out, ',');
                }
                append_json(out, &elts[i]);
                proof {
                    assert(elts@.take(i as int).push(elts@[i as int]) =~= elts@.take(i + 1));
                    lemma_arr_text_push(elts@.take(i as int), elts@[i as int]);
                    assert(out@ =~= old(out)@ + seq!['['] + arr_text(elts@.take(i + 1)));
                }
                i += 1;
            }
            push_char(out, ']');
            proof {
                assert(elts@.take(n as int) =~= elts@);
                assert(out@ =~= old(out)@ + json_text(*v));
            }
        },
        JsonValue::Obj(pairs) => {
            push_char(out, '{');
            let n = pairs.len();
            let mut i: usize = 0;
            proof {
                assert(obj_text(pairs@.take(0)) == Seq::<char>::empty());
                assert(out@ =~= old(out)@ + seq!['{'] + obj_text(pairs@.take(0)));
            }
            while i < n
                invariant
                    i <= n,
                    n == pairs@.len(),
                    out@ == old(out)@ + seq!['{'] + obj_text(pairs@.take(i as int)),
                decreases n - i,
            {
                if i > 0 {
                    push_char(out, ',');
                }
                push_char(out, '"');
                append_escaped(out, pairs[i].0.as_str());
                push_char(out, '"');
                push_char(out, ':');
                append_json(out, &pairs[i].1);
                proof {
                    assert(pairs@.take(i as int).push(pairs@[i as int]) =~= pairs@.take(i + 1));
                    lemma_obj_text_push(pairs@.take(i as int), pairs@[i as int]);
                    assert(out@ =~= old(out)@ + seq!['{'] + obj_text(pairs@.take(i + 1)));
                }
                i += 1;
            }
            push_char(out, '}');
            proof {
                assert(pairs@.take(n as int) =~= pairs@);
                assert(out@ =~= old(out)@ + json_text(*v));
            }
        },
    }
}

/// One line of compact JSON for `v`, unless a `NonInt` makes `v`
/// unserializable.
pub fn to_json_text(v: &JsonValue) -> (r: Option<String>)
    ensures
        r matches Some(s) ==> serializable(*v) && s@ == json_text(*v),
        r is None ==> !serializable(*v),
{
    if is_serializable(v) {
        let mut out = String::new();
        append_json(&mut out, v);
        proof {
            assert(out@ =~= json_text(*v));
        }
        Some(out)
    } else {
        None
    }
}

/// No newline anywhere in the text: it fits on one wire line.
pub open spec fn line_safe(s: Seq<char>) -> bool {
    forall|i: int| 0 <= i < s.len() ==> s[i] != '\n'
}

proof fn lemma_line_safe_concat(a: Seq<char>, b: Seq<char>)
    requires
        line_safe(a),
        line_safe(b),
    ensures
        line_safe(a + b),
{
    assert forall|i: int| 0 <= i < (a + b).len() implies (a + b)[i] != '\n' by {
        if i < a.len() {
            assert((a + b)[i] == a[i]);
        } else {
            assert((a + b)[i] == b[i - a.len()]);
        }
    }
}

proof fn lemma_dec_digits_line_safe(n: nat)
    ensures
        line_safe(dec_digits(n)),
    decreases n,
{
    assert(forall|d: int| hex_digit(d) != '\n');
    if n < 10 {
    } else {
        lemma_dec_digits_line_safe(n / 10);
        lemma_line_safe_concat(dec_digits(n / 10), seq![hex_digit((n % 10) as int)]);
        assert(dec_digits(n / 10).push(hex_digit((n % 10) as int)) =~= dec_digits(n / 10) + seq![
            hex_digit((n % 10) as int),
        ]);
    }
}

proof fn lemma_escape_str_line_safe(s: Seq<char>)
    ensures
        line_safe(escape_str(s)),
    decreases s.len(),
{
    if s.len() > 0 {
        lemma_escape_str_line_safe(s.drop_first());
        let c = s[0];
        assert(line_safe(escape_char(c))) by {
            if c != '"' && c != '\\' && (c as u32) >= 32 {
                assert('\n' as u32 == 10);
                assert(escape_char(c) == seq![c]);
            }
        }
        lemma_line_safe_concat(escape_char(c), escape_str(s.drop_first()));
    }
}

/// Law: a serializable value's wire text holds no newline, so every request
/// goes out as exactly one line.
pub proof fn lemma_json_text_single_line(v: JsonValue)
    requires
        serializable(v),
    ensures
        line_safe(json_text(v)),
    decreases v,
{
    reveal_strlit("null");
    reveal_strlit("true");
    reveal_strlit("false");
    match v {
        JsonValue::Null => {
            assert("null"@ =~= seq!['n', 'u', 'l', 'l']);
        },
        JsonValue::Bool(b) => {
            assert("true"@ =~= seq!['t', 'r', 'u', 'e']);
            assert("false"@ =~= seq!['f', 'a', 'l', 's', 'e']);
        },
        JsonValue::Int(i) => {
            lemma_dec_digits_line_safe(if i < 0 {
                (-(i as int)) as nat
            } else {
                i as nat
            });
            if i < 0 {
                lemma_line_safe_concat(seq!['-'], dec_digits((-(i as int)) as nat));
            }
        },
        JsonValue::NonInt => {},
        JsonValue::Str(t) => {
            lemma_escape_str_line_safe(t@);
            lemma_line_safe_concat(seq!['"'], escape_str(t@));
            lemma_line_safe_concat(seq!['"'] + escape_str(t@), seq!['"']);
        },
        JsonValue::Arr(elts) => {
            lemma_arr_text_line_safe(elts@);
            lemma_line_safe_concat(seq!['['], arr_text(elts@));
            lemma_line_safe_concat(seq!['['] + arr_text(elts@), seq![']']);
        },
        JsonValue::Obj(pairs) => {
            lemma_obj_text_line_safe(pairs@);
            lemma_line_safe_concat(seq!['{'], obj_text(pairs@));
            lemma_line_safe_concat(seq!['{'] + obj_text(pairs@), seq!['}']);
        },
    }
}

proof fn lemma_arr_text_line_safe(elts: Seq<JsonValue>)
    requires
        forall|i: int| 0 <= i < elts.len() ==> serializable(#[trigger] elts[i]),
    ensures
        line_safe(arr_text(elts)),
    decreases elts,
{
    if elts.len() == 0 {
    } else if elts.len() == 1 {
        lemma_json_text_single_line(elts[0]);
    } else {
        lemma_json_text_single_line(elts[0]);
        lemma_arr_text_line_safe(elts.drop_first());
        lemma_line_safe_concat(json_text(elts[0]), seq![',']);
        lemma_line_safe_concat(json_text(elts[0]) + seq![','], arr_text(elts.drop_first()));
    }
}

proof fn lemma_obj_text_line_safe(pairs: Seq<(String, JsonValue)>)
    requires
        forall|i: int| 0 <= i < pairs.len() ==> serializable(#[trigger] pairs[i].1),
    ensures
        line_safe(obj_text(pairs)),
    decreases pairs,
{
    if pairs.len() == 0 {
    } else {
        lemma_entry_text_line_safe(pairs[0]);
        if pairs.len() > 1 {
            lemma_obj_text_line_safe(pairs.drop_first());
            lemma_line_safe_concat(entry_text(pairs[0]), seq![',']);
            lemma_line_safe_concat(entry_text(pairs[0]) + seq![','], obj_text(pairs.drop_first()));
        }
    }
}

proof fn lemma_entry_text_line_safe(pair: (String, JsonValue))
    requires
        serializable(pair.1),
    ensures
        line_safe(entry_text(pair)),
    decreases pair,
{
    lemma_escape_str_line_safe(pair.0@);
    lemma_json_text_single_line(pair.1);
    lemma_line_safe_concat(seq!['"'], escape_str(pair.0@));
    lemma_line_safe_concat(seq!['"'] + escape_str(pair.0@), seq!['"', ':']);
    lemma_line_safe_concat(seq!['"'] + escape_str(pair.0@) + seq!['"', ':'], json_text(pair.1));
}

#[verifier::external_type_specification]
#[verifier::external_body]
pub struct ExSerdeValue(serde_json::Value);

/// What serde_json's parser yields for one line of text: `None` when the line
/// is not valid JSON, otherwise the parsed tree. A function of the line's
/// characters alone.
pub uninterp spec fn json_of(s: Seq<char>) -> Option<JsonValue>;

/// Conversion of serde_json's value tree into the library's own: variants
/// correspond one to one, with numbers split by whether they fit `i64`.
#[verifier::external_body]
fn json_value_from(v: serde_json::Value) -> JsonValue {
    match v {
        serde_json::Value::Null => JsonValue::Null,
        serde_json::Value::Bool(b) => JsonValue::Bool(b),
        serde_json::Value::Number(n) => match n.as_i64() {
            Some(i) => JsonValue::Int(i),
            None => JsonValue::NonInt,
        },
        serde_json::Value::String(t) => JsonValue::Str(t),
        serde_json::Value::Array(a) => JsonValue::Arr(a.into_iter().map(json_value_from).collect()),
        serde_json::Value::Object(m) => JsonValue::Obj(
            m.into_iter().map(|p| (p.0, json_value_from(p.1))).collect(),
        ),
    }
}

/// Relies on serde_json::from_str: whether a line is valid JSON, and the
/// value it denotes, depend on the line's characters alone.
#[verifier::external_body]
fn parse_json(s: &str) -> (r: Option<JsonValue>)
    ensures
        r == json_of(s@),
{
    match serde_json::from_str::<serde_json::Value>(s) {
        Ok(v) => Some(json_value_from(v)),
        Err(_) => None,
    }
}

/// Parses one raw frame of the wire protocol into a structured value.
pub fn parse_line(s: &str) -> (r: Option<JsonValue>)
    ensures
        r == json_of(s@),
{
    parse_json(s)
}

/// Whether the value bound to `key` is the string `val`.
pub fn field_is_str_val(v: &JsonValue, key: &str, val: &str) -> (r: bool)
    ensures
        r == is_str_val(field(*v, key@), val@),
{
    match get_field(v, key) {
        Some(x) => match x {
            JsonValue::Str(s) => str_eq(s.as_str(), val),
            _ => false,
        },
        None => false,
    }
}

} // verus!
