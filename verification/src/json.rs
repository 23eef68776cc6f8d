//! JSON as RFC 8259 reads it: a decoder of JSON texts into values, used to
//! state what the request body and escaped strings mean to a JSON reader.

use vstd::prelude::*;

use crate::laws::lemma_json_escape_concat;
use crate::number::{all_digits, decimal, digit_char, is_digit};
use crate::prompt::{chat_json, join_commas, message_json};
use crate::wire::{json_escape, json_escape_char};

verus! {

/// A JSON value. Numbers keep their numeral.
pub enum Json {
    Null,
    Bool(bool),
    Number(Seq<char>),
    Text(Seq<char>),
    Array(Seq<Json>),
    Object(Seq<(Seq<char>, Json)>),
}

/// The value of the hexadecimal digit `c`, if it is one.
pub open spec fn hex_digit(c: char) -> Option<int> {
    if '0' <= c && c <= '9' {
        Some(c as int - '0' as int)
    } else if 'a' <= c && c <= 'f' {
        Some(c as int - 'a' as int + 10)
    } else if 'A' <= c && c <= 'F' {
        Some(c as int - 'A' as int + 10)
    } else {
        None
    }
}

/// The value of the four hexadecimal digits at position `i` of `s`.
pub open spec fn hex4(s: Seq<char>, i: int) -> Option<int> {
    if i < 0 || i + 4 > s.len() {
        None
    } else {
        match (hex_digit(s[i]), hex_digit(s[i + 1]), hex_digit(s[i + 2]), hex_digit(s[i + 3])) {
            (Some(a), Some(b), Some(c), Some(d)) => Some(((a * 16 + b) * 16 + c) * 16 + d),
            _ => None,
        }
    }
}

/// The character that the simple escape `\e` stands for, if any.
pub open spec fn simple_escape(e: char) -> Option<char> {
    if e == '"' {
        Some('"')
    } else if e == '\\' {
        Some('\\')
    } else if e == '/' {
        Some('/')
    } else if e == 'b' {
        Some('\u{8}')
    } else if e == 'f' {
        Some('\u{c}')
    } else if e == 'n' {
        Some('\n')
    } else if e == 'r' {
        Some('\r')
    } else if e == 't' {
        Some('\t')
    } else {
        None
    }
}

/// `c` in front of the text of a scanned string.
pub open spec fn prepend_scan(c: char, r: Option<(Seq<char>, Seq<char>)>) -> Option<
    (Seq<char>, Seq<char>),
> {
    match r {
        Some((t, rest)) => Some((seq![c] + t, rest)),
        None => None,
    }
}

/// Reads the rest of a JSON string after its opening quote: the text it
/// stands for and what follows the closing quote. Control characters must
/// be escaped; `\u` escapes give a character, surrogate pairs combined.
pub open spec fn string_scan(s: Seq<char>) -> Option<(Seq<char>, Seq<char>)>
    decreases s.len(),
{
    if s.len() == 0 {
        None
    } else if s[0] == '"' {
        Some((Seq::empty(), s.skip(1)))
    } else if s[0] == '\\' {
        if s.len() < 2 {
            None
        } else if s[1] == 'u' {
            match hex4(s, 2) {
                None => None,
                Some(v) => if 0xD800 <= v < 0xDC00 {
                    if s.len() >= 12 && s[6] == '\\' && s[7] == 'u' {
                        match hex4(s, 8) {
                            Some(w) => if 0xDC00 <= w < 0xE000 {
                                prepend_scan(
                                    (0x10000 + (v - 0xD800) * 1024 + (w - 0xDC00)) as char,
                                    string_scan(s.skip(12)),
                                )
                            } else {
                                None
                            },
                            None => None,
                        }
                    } else {
                        None
                    }
                } else if 0xDC00 <= v < 0xE000 {
                    None
                } else {
                    prepend_scan(v as char, string_scan(s.skip(6)))
                },
            }
        } else {
            match simple_escape(s[1]) {
                Some(c) => prepend_scan(c, string_scan(s.skip(2))),
                None => None,
            }
        }
    } else if (s[0] as int) < 0x20 {
        None
    } else {
        prepend_scan(s[0], string_scan(s.skip(1)))
    }
}

/// The text that the JSON string literal `lit` stands for, if `lit` is one
/// and nothing follows it.
pub open spec fn json_string_literal(lit: Seq<char>) -> Option<Seq<char>> {
    if lit.len() > 0 && lit[0] == '"' {
        match string_scan(lit.skip(1)) {
            Some((t, rest)) => if rest.len() == 0 {
                Some(t)
            } else {
                None
            },
            None => None,
        }
    } else {
        None
    }
}

/// Whether `s` holds no control character other than newline, carriage
/// return and tab (the ones that `json` escapes).
pub open spec fn json_safe(s: Seq<char>) -> bool {
    forall|i: int|
        0 <= i < s.len() ==> (#[trigger] s[i] as int) >= 0x20 || s[i] == '\n' || s[i] == '\r'
            || s[i] == '\t'
}

/// Whether `c` is JSON whitespace.
pub open spec fn is_json_ws(c: char) -> bool {
    c == ' ' || c == '\t' || c == '\n' || c == '\r'
}

/// `s` without its leading JSON whitespace.
pub open spec fn skip_ws(s: Seq<char>) -> Seq<char>
    decreases s.len(),
{
    if s.len() > 0 && is_json_ws(s[0]) {
        skip_ws(s.skip(1))
    } else {
        s
    }
}

/// Skipping whitespace never lengthens a text.
pub proof fn lemma_skip_ws_len(s: Seq<char>)
    ensures
        skip_ws(s).len() <= s.len(),
    decreases s.len(),
{
    if s.len() > 0 && is_json_ws(s[0]) {
        lemma_skip_ws_len(s.skip(1));
    }
}

/// How many digits `s` starts with.
pub open spec fn digit_run(s: Seq<char>) -> nat
    decreases s.len(),
{
    if s.len() > 0 && is_digit(s[0]) {
        1 + digit_run(s.skip(1))
    } else {
        0
    }
}

/// Whether `c` can be part of a JSON numeral.
pub open spec fn numeral_char(c: char) -> bool {
    is_digit(c) || c == '-' || c == '+' || c == '.' || c == 'e' || c == 'E'
}

/// How many numeral characters `s` starts with.
pub open spec fn numeral_run(s: Seq<char>) -> nat
    decreases s.len(),
{
    if s.len() > 0 && numeral_char(s[0]) {
        1 + numeral_run(s.skip(1))
    } else {
        0
    }
}

/// Whether `t` is a JSON number: an optional minus, an integer part without
/// leading zeros, an optional fraction and an optional exponent.
pub open spec fn valid_number(t: Seq<char>) -> bool {
    let a: int = if t.len() > 0 && t[0] == '-' {
        1
    } else {
        0
    };
    let d = digit_run(t.skip(a)) as int;
    let p = a + d;
    let int_ok = d >= 1 && (d == 1 || t[a] != '0');
    let frac = p < t.len() && t[p] == '.';
    let f = digit_run(t.skip(p + 1)) as int;
    let p2 = if frac {
        p + 1 + f
    } else {
        p
    };
    let frac_ok = !frac || f >= 1;
    let exp = p2 < t.len() && (t[p2] == 'e' || t[p2] == 'E');
    let q = if p2 + 1 < t.len() && (t[p2 + 1] == '+' || t[p2 + 1] == '-') {
        p2 + 2
    } else {
        p2 + 1
    };
    let g = digit_run(t.skip(q)) as int;
    let end = if exp {
        q + g
    } else {
        p2
    };
    let exp_ok = !exp || g >= 1;
    int_ok && frac_ok && exp_ok && end == t.len()
}

/// Reads one JSON value at the front of `s`: the value and what follows it.
pub open spec fn parse_value(s: Seq<char>) -> Option<(Json, Seq<char>)>
    decreases s.len(), 0int,
{
    if s.len() == 0 {
        None
    } else if s[0] == '{' {
        let t = skip_ws(s.skip(1));
        proof {
            lemma_skip_ws_len(s.skip(1));
        }
        if t.len() > 0 && t[0] == '}' {
            Some((Json::Object(Seq::empty()), t.skip(1)))
        } else {
            match parse_members(t) {
                Some((ms, r)) => Some((Json::Object(ms), r)),
                None => None,
            }
        }
    } else if s[0] == '[' {
        let t = skip_ws(s.skip(1));
        proof {
            lemma_skip_ws_len(s.skip(1));
        }
        if t.len() > 0 && t[0] == ']' {
            Some((Json::Array(Seq::empty()), t.skip(1)))
        } else {
            match parse_elements(t) {
                Some((vs, r)) => Some((Json::Array(vs), r)),
                None => None,
            }
        }
    } else if s[0] == '"' {
        match string_scan(s.skip(1)) {
            Some((x, r)) => Some((Json::Text(x), r)),
            None => None,
        }
    } else if s.len() >= 4 && s.take(4) == "true"@ {
        Some((Json::Bool(true), s.skip(4)))
    } else if s.len() >= 5 && s.take(5) == "false"@ {
        Some((Json::Bool(false), s.skip(5)))
    } else if s.len() >= 4 && s.take(4) == "null"@ {
        Some((Json::Null, s.skip(4)))
    } else {
        let n = numeral_run(s) as int;
        if n > 0 && valid_number(s.take(n)) {
            Some((Json::Number(s.take(n)), s.skip(n)))
        } else {
            None
        }
    }
}

/// Reads the values of an array from its first value to its closing
/// bracket: the values and what follows the bracket. (Every value takes at
/// least one character, so each further value starts in a shorter text.)
pub open spec fn parse_elements(s: Seq<char>) -> Option<(Seq<Json>, Seq<char>)>
    decreases s.len(), 1int,
{
    match parse_value(s) {
        None => None,
        Some((v, r)) => {
            let t = skip_ws(r);
            if t.len() > 0 && t[0] == ']' {
                Some((seq![v], t.skip(1)))
            } else if t.len() > 0 && t[0] == ',' {
                let u = skip_ws(t.skip(1));
                if u.len() < s.len() {
                    match parse_elements(u) {
                        Some((vs, r2)) => Some((seq![v] + vs, r2)),
                        None => None,
                    }
                } else {
                    None
                }
            } else {
                None
            }
        },
    }
}

/// Reads the members of an object from its first key to its closing brace:
/// the members and what follows the brace.
pub open spec fn parse_members(s: Seq<char>) -> Option<(Seq<(Seq<char>, Json)>, Seq<char>)>
    decreases s.len(), 1int,
{
    if s.len() == 0 || s[0] != '"' {
        None
    } else {
        match string_scan(s.skip(1)) {
            None => None,
            Some((k, r)) => {
                let t = skip_ws(r);
                if t.len() > 0 && t[0] == ':' {
                    let u = skip_ws(t.skip(1));
                    if u.len() < s.len() {
                        match parse_value(u) {
                            None => None,
                            Some((v, r2)) => {
                                let t2 = skip_ws(r2);
                                if t2.len() > 0 && t2[0] == '}' {
                                    Some((seq![(k, v)], t2.skip(1)))
                                } else if t2.len() > 0 && t2[0] == ',' {
                                    let w = skip_ws(t2.skip(1));
                                    if w.len() < s.len() {
                                        match parse_members(w) {
                                            Some((ms, r3)) => Some((seq![(k, v)] + ms, r3)),
                                            None => None,
                                        }
                                    } else {
                                        None
                                    }
                                } else {
                                    None
                                }
                            },
                        }
                    } else {
                        None
                    }
                } else {
                    None
                }
            },
        }
    }
}

/// The value of the JSON text `s`, if `s` is one: a value with only
/// whitespace around it.
pub open spec fn json_text(s: Seq<char>) -> Option<Json> {
    match parse_value(skip_ws(s)) {
        Some((v, r)) => if skip_ws(r).len() == 0 {
            Some(v)
        } else {
            None
        },
        None => None,
    }
}

/// `v`, escaped by `json` and followed by a closing quote and `rest`, scans
/// back to `v` with `rest` after it.
pub proof fn lemma_scan_escaped(v: Seq<char>, rest: Seq<char>)
    requires
        json_safe(v),
    ensures
        string_scan(json_escape(v) + seq!['"'] + rest) == Some((v, rest)),
    decreases v.len(),
{
    if v.len() == 0 {
        assert(json_escape(v) + seq!['"'] + rest =~= seq!['"'] + rest);
        assert((seq!['"'] + rest).skip(1) =~= rest);
    } else {
        let c = v[0];
        let t = v.drop_first();
        assert(v =~= seq![c] + t);
        assert(json_safe(t)) by {
            assert forall|i: int| 0 <= i < t.len() implies (#[trigger] t[i] as int) >= 0x20
                || t[i] == '\n' || t[i] == '\r' || t[i] == '\t' by {
                assert(t[i] == v[i + 1]);
            }
        }
        lemma_json_escape_concat(seq![c], t);
        assert(seq![c].drop_last() =~= Seq::<char>::empty());
        assert(seq![c].last() == c);
        assert(json_escape(Seq::<char>::empty()) =~= Seq::<char>::empty());
        assert(json_escape(seq![c]) =~= json_escape_char(c));
        let r = json_escape(t) + seq!['"'] + rest;
        lemma_scan_escaped(t, rest);
        let e = json_escape_char(c);
        assert(json_escape(v) + seq!['"'] + rest =~= e + r);
        if e.len() == 2 {
            assert((e + r).skip(2) =~= r);
        } else {
            assert((e + r).skip(1) =~= r);
        }
        assert(seq![c] + t =~= v);
    }
}

/// Text escaped by `json` and put between quotes is a JSON string literal
/// (RFC 8259) that stands for the text, when the text holds no control
/// character other than newline, carriage return and tab.
pub proof fn law_json_string_literal(s: Seq<char>)
    requires
        json_safe(s),
    ensures
        json_string_literal(seq!['"'] + json_escape(s) + seq!['"']) == Some(s),
{
    let lit = seq!['"'] + json_escape(s) + seq!['"'];
    assert(lit.skip(1) =~= json_escape(s) + seq!['"'] + Seq::<char>::empty());
    lemma_scan_escaped(s, Seq::empty());
}

/// Whether `c` may follow a value inside an array or an object.
pub open spec fn closes(c: char) -> bool {
    c == ',' || c == '}' || c == ']'
}

/// Whether `text` reads as the value `v` wherever a separator or a closing
/// bracket follows it, and starts with no whitespace.
pub open spec fn value_text(text: Seq<char>, v: Json) -> bool {
    &&& text.len() > 0
    &&& !is_json_ws(text[0])
    &&& forall|after: Seq<char>|
        after.len() > 0 && closes(after[0]) ==> #[trigger] parse_value(text + after) == Some(
            (v, after),
        )
}

/// A quoted, escaped text reads as that text.
pub proof fn lemma_string_value(x: Seq<char>)
    requires
        json_safe(x),
    ensures
        value_text(seq!['"'] + json_escape(x) + seq!['"'], Json::Text(x)),
{
    let text = seq!['"'] + json_escape(x) + seq!['"'];
    assert forall|after: Seq<char>| after.len() > 0 && closes(after[0]) implies #[trigger] parse_value(
        text + after,
    ) == Some((Json::Text(x), after)) by {
        assert((text + after).skip(1) =~= json_escape(x) + seq!['"'] + after);
        lemma_scan_escaped(x, after);
    }
}

/// `true` reads as true.
pub proof fn lemma_true_value()
    ensures
        value_text("true"@, Json::Bool(true)),
{
    reveal_strlit("true");
    assert forall|after: Seq<char>| after.len() > 0 && closes(after[0]) implies #[trigger] parse_value(
        "true"@ + after,
    ) == Some((Json::Bool(true), after)) by {
        assert(("true"@ + after).take(4) =~= "true"@);
        assert(("true"@ + after).skip(4) =~= after);
    }
}

/// `digit_run` counts digits and stops at a non-digit.
pub proof fn lemma_digit_run(s: Seq<char>)
    ensures
        digit_run(s) <= s.len(),
        forall|i: int| 0 <= i < digit_run(s) ==> #[trigger] is_digit(s[i]),
        digit_run(s) < s.len() ==> !is_digit(s[digit_run(s) as int]),
    decreases s.len(),
{
    if s.len() > 0 && is_digit(s[0]) {
        lemma_digit_run(s.skip(1));
        assert forall|i: int| 0 <= i < digit_run(s) implies #[trigger] is_digit(s[i]) by {
            if i > 0 {
                assert(s[i] == s.skip(1)[i - 1]);
            }
        }
    }
}

/// A JSON number is made of numeral characters and starts with a digit or
/// a minus.
pub proof fn lemma_number_chars(t: Seq<char>)
    requires
        valid_number(t),
    ensures
        t.len() > 0,
        is_digit(t[0]) || t[0] == '-',
        forall|i: int| 0 <= i < t.len() ==> #[trigger] numeral_char(t[i]),
{
    let a: int = if t.len() > 0 && t[0] == '-' {
        1
    } else {
        0
    };
    lemma_digit_run(t.skip(a));
    let d = digit_run(t.skip(a)) as int;
    let p = a + d;
    lemma_digit_run(t.skip(p + 1));
    let f = digit_run(t.skip(p + 1)) as int;
    let frac = p < t.len() && t[p] == '.';
    let p2 = if frac {
        p + 1 + f
    } else {
        p
    };
    let q = if p2 + 1 < t.len() && (t[p2 + 1] == '+' || t[p2 + 1] == '-') {
        p2 + 2
    } else {
        p2 + 1
    };
    lemma_digit_run(t.skip(q));
    assert(t.len() > 0) by {
        assert(d >= 1);
    }
    assert(is_digit(t.skip(a)[0]));
    assert forall|i: int| 0 <= i < t.len() implies #[trigger] numeral_char(t[i]) by {
        if i < a {
        } else if i < p {
            assert(is_digit(t.skip(a)[i - a]));
        } else if frac && i == p {
        } else if frac && i < p + 1 + f {
            assert(is_digit(t.skip(p + 1)[i - p - 1]));
        } else if i == p2 {
        } else if i < q {
        } else {
            assert(is_digit(t.skip(q)[i - q]));
        }
    }
}

/// A run of numeral characters ends where the numeral characters do.
pub proof fn lemma_numeral_run_concat(t: Seq<char>, after: Seq<char>)
    requires
        forall|i: int| 0 <= i < t.len() ==> #[trigger] numeral_char(t[i]),
        after.len() == 0 || !numeral_char(after[0]),
    ensures
        numeral_run(t + after) == t.len(),
    decreases t.len(),
{
    if t.len() == 0 {
        assert(t + after =~= after);
    } else {
        assert((t + after).skip(1) =~= t.skip(1) + after);
        assert forall|i: int| 0 <= i < t.skip(1).len() implies #[trigger] numeral_char(t.skip(1)[i]) by {
            assert(t.skip(1)[i] == t[i + 1]);
        }
        lemma_numeral_run_concat(t.skip(1), after);
    }
}

/// A JSON number reads as itself.
pub proof fn lemma_number_value(t: Seq<char>)
    requires
        valid_number(t),
    ensures
        value_text(t, Json::Number(t)),
{
    reveal_strlit("true");
    reveal_strlit("false");
    reveal_strlit("null");
    lemma_number_chars(t);
    assert forall|after: Seq<char>| after.len() > 0 && closes(after[0]) implies #[trigger] parse_value(
        t + after,
    ) == Some((Json::Number(t), after)) by {
        let s = t + after;
        assert(s[0] == t[0]);
        lemma_numeral_run_concat(t, after);
        assert(s.len() >= 4 ==> s.take(4)[0] == t[0]);
        assert(s.len() >= 5 ==> s.take(5)[0] == t[0]);
        assert(s.take(t.len() as int) =~= t);
        assert(s.skip(t.len() as int) =~= after);
    }
}

/// Whether `k` can stand between quotes as it is: no control character,
/// quote or backslash.
pub open spec fn plain_text(k: Seq<char>) -> bool {
    forall|i: int|
        0 <= i < k.len() ==> (#[trigger] k[i] as int) >= 0x20 && k[i] != '"' && k[i] != '\\'
}

/// Plain text followed by a closing quote scans back to itself.
pub proof fn lemma_scan_plain(k: Seq<char>, rest: Seq<char>)
    requires
        plain_text(k),
    ensures
        string_scan(k + seq!['"'] + rest) == Some((k, rest)),
    decreases k.len(),
{
    let s = k + seq!['"'] + rest;
    if k.len() == 0 {
        assert(s =~= seq!['"'] + rest);
        assert(s.skip(1) =~= rest);
    } else {
        let t = k.skip(1);
        assert forall|i: int| 0 <= i < t.len() implies (#[trigger] t[i] as int) >= 0x20 && t[i]
            != '"' && t[i] != '\\' by {
            assert(t[i] == k[i + 1]);
        }
        lemma_scan_plain(t, rest);
        assert(s.skip(1) =~= t + seq!['"'] + rest);
        assert(s[0] == k[0]);
        assert(seq![k[0]] + t =~= k);
    }
}

/// A join with commas, read from its front.
pub proof fn lemma_join_front<T>(s: Seq<T>, f: spec_fn(T) -> Seq<char>)
    requires
        s.len() >= 2,
    ensures
        join_commas(s, f) == f(s[0]) + ","@ + join_commas(s.drop_first(), f),
    decreases s.len(),
{
    if s.len() == 2 {
        assert(s.drop_last().len() == 1);
        assert(s.drop_first().len() == 1);
        assert(join_commas(s.drop_last(), f) == f(s[0]));
        assert(join_commas(s.drop_first(), f) == f(s[1]));
    } else {
        lemma_join_front(s.drop_last(), f);
        assert(s.drop_last().drop_first() =~= s.drop_first().drop_last());
        assert(s.drop_first().last() == s.last());
        assert(join_commas(s, f) =~= f(s[0]) + ","@ + join_commas(s.drop_first(), f));
    }
}

/// How one member (key, value text, value) of an object is written.
pub open spec fn member_text(e: (Seq<char>, Seq<char>, Json)) -> Seq<char> {
    seq!['"'] + e.0 + seq!['"', ':'] + e.1
}

/// The (key, value) pairs of members.
pub open spec fn members_of(es: Seq<(Seq<char>, Seq<char>, Json)>) -> Seq<(Seq<char>, Json)> {
    es.map_values(|e: (Seq<char>, Seq<char>, Json)| (e.0, e.2))
}

/// Whether each member has a plain key and a value text that reads as its value.
pub open spec fn members_ok(es: Seq<(Seq<char>, Seq<char>, Json)>) -> bool {
    forall|i: int| 0 <= i < es.len() ==> plain_text(#[trigger] es[i].0) && value_text(es[i].1, es[i].2)
}

/// One member followed by a brace or a comma reads as that member, then
/// the end of the object or the members after the comma.
proof fn lemma_member_step(k: Seq<char>, vt: Seq<char>, v: Json, x: Seq<char>)
    requires
        plain_text(k),
        value_text(vt, v),
        x.len() > 0,
        x[0] == '}' || x[0] == ',',
    ensures
        ({
            let s = seq!['"'] + k + seq!['"', ':'] + vt + x;
            parse_members(s) == if x[0] == '}' {
                Some((seq![(k, v)], x.skip(1)))
            } else {
                let w = skip_ws(x.skip(1));
                if w.len() < s.len() {
                    match parse_members(w) {
                        Some((ms, r3)) => Some((seq![(k, v)] + ms, r3)),
                        None => None,
                    }
                } else {
                    None
                }
            }
        }),
{
    let s = seq!['"'] + k + seq!['"', ':'] + vt + x;
    assert(s.skip(1) =~= k + seq!['"'] + (seq![':'] + vt + x));
    lemma_scan_plain(k, seq![':'] + vt + x);
    let t = seq![':'] + vt + x;
    assert(skip_ws(t) == t);
    assert(t.skip(1) =~= vt + x);
    assert(skip_ws(vt + x) == vt + x) by {
        assert((vt + x)[0] == vt[0]);
    }
    assert(closes(x[0]));
    assert(parse_value(vt + x) == Some((v, x)));
    assert(skip_ws(x) == x);
}

/// Members written with commas and closed with a brace read back.
#[verifier::rlimit(40)]
pub proof fn lemma_parse_members(es: Seq<(Seq<char>, Seq<char>, Json)>, rest: Seq<char>)
    requires
        es.len() >= 1,
        members_ok(es),
    ensures
        parse_members(join_commas(es, |e: (Seq<char>, Seq<char>, Json)| member_text(e)) + seq!['}']
            + rest) == Some((members_of(es), rest)),
    decreases es.len(),
{
    reveal_strlit(",");
    let f = |e: (Seq<char>, Seq<char>, Json)| member_text(e);
    let e = es[0];
    assert(plain_text(e.0) && value_text(e.1, e.2));
    let tail = es.drop_first();
    let x = if es.len() == 1 {
        seq!['}'] + rest
    } else {
        seq![','] + join_commas(tail, f) + seq!['}'] + rest
    };
    let s = join_commas(es, f) + seq!['}'] + rest;
    if es.len() >= 2 {
        lemma_join_front(es, f);
    }
    assert(s =~= seq!['"'] + e.0 + seq!['"', ':'] + e.1 + x);
    lemma_member_step(e.0, e.1, e.2, x);
    if es.len() == 1 {
        assert(x.skip(1) =~= rest);
        assert(members_of(es) =~= seq![(e.0, e.2)]);
    } else {
        let w = join_commas(tail, f) + seq!['}'] + rest;
        assert(x.skip(1) =~= w);
        assert(members_ok(tail)) by {
            assert forall|i: int| 0 <= i < tail.len() implies plain_text(#[trigger] tail[i].0)
                && value_text(tail[i].1, tail[i].2) by {
                assert(tail[i] == es[i + 1]);
            }
        }
        if tail.len() >= 2 {
            lemma_join_front(tail, f);
        }
        assert(w[0] == '"');
        assert(skip_ws(w) == w);
        assert(w.len() < s.len());
        lemma_parse_members(tail, rest);
        assert(members_of(es) =~= seq![(e.0, e.2)] + members_of(tail));
    }
}

/// A value text starts with no closing bracket or brace.
proof fn lemma_value_start(t: Seq<char>, v: Json)
    requires
        value_text(t, v),
    ensures
        t[0] != ']' && t[0] != '}',
{
    reveal_strlit("true");
    reveal_strlit("false");
    reveal_strlit("null");
    let after = seq![','];
    let s = t + after;
    assert(after.len() > 0 && closes(after[0]));
    assert(parse_value(s) == Some((v, after)));
    assert(s[0] == t[0]);
    if t[0] == ']' || t[0] == '}' {
        assert(s.len() >= 4 ==> s.take(4)[0] == t[0]);
        assert(s.len() >= 5 ==> s.take(5)[0] == t[0]);
        assert(numeral_run(s) == 0);
        assert(parse_value(s) is None);
    }
}

/// An object written as its members between braces reads back, whatever follows it.
pub proof fn lemma_parse_object(es: Seq<(Seq<char>, Seq<char>, Json)>, rest: Seq<char>)
    requires
        es.len() >= 1,
        members_ok(es),
    ensures
        parse_value(seq!['{'] + join_commas(es, |e: (Seq<char>, Seq<char>, Json)| member_text(e))
            + seq!['}'] + rest) == Some((Json::Object(members_of(es)), rest)),
{
    reveal_strlit(",");
    let f = |e: (Seq<char>, Seq<char>, Json)| member_text(e);
    let j = join_commas(es, f);
    let s = seq!['{'] + j + seq!['}'] + rest;
    if es.len() >= 2 {
        lemma_join_front(es, f);
    }
    assert(j[0] == '"');
    let t = j + seq!['}'] + rest;
    assert(s.skip(1) =~= t);
    assert(skip_ws(t) == t);
    lemma_parse_members(es, rest);
}

/// Values written with commas and closed with a bracket read back.
pub proof fn lemma_parse_elements(es: Seq<(Seq<char>, Json)>, rest: Seq<char>)
    requires
        es.len() >= 1,
        forall|i: int| 0 <= i < es.len() ==> value_text(#[trigger] es[i].0, es[i].1),
    ensures
        parse_elements(join_commas(es, |e: (Seq<char>, Json)| e.0) + seq![']'] + rest) == Some(
            (es.map_values(|e: (Seq<char>, Json)| e.1), rest),
        ),
    decreases es.len(),
{
    reveal_strlit(",");
    let f = |e: (Seq<char>, Json)| e.0;
    let e = es[0];
    assert(value_text(e.0, e.1));
    let tail = es.drop_first();
    let x = if es.len() == 1 {
        seq![']'] + rest
    } else {
        seq![','] + join_commas(tail, f) + seq![']'] + rest
    };
    let s = join_commas(es, f) + seq![']'] + rest;
    if es.len() >= 2 {
        lemma_join_front(es, f);
    }
    assert(s =~= e.0 + x);
    assert(x.len() > 0 && closes(x[0]));
    assert(parse_value(e.0 + x) == Some((e.1, x)));
    assert(skip_ws(x) == x);
    if es.len() == 1 {
        assert(x.skip(1) =~= rest);
        assert(es.map_values(|e: (Seq<char>, Json)| e.1) =~= seq![e.1]);
    } else {
        let w = join_commas(tail, f) + seq![']'] + rest;
        assert(x.skip(1) =~= w);
        assert forall|i: int| 0 <= i < tail.len() implies value_text(#[trigger] tail[i].0, tail[i].1) by {
            assert(tail[i] == es[i + 1]);
        }
        if tail.len() >= 2 {
            lemma_join_front(tail, f);
        }
        assert(value_text(tail[0].0, tail[0].1));
        assert(w[0] == tail[0].0[0]);
        assert(skip_ws(w) == w);
        assert(w.len() < s.len());
        lemma_parse_elements(tail, rest);
        assert(es.map_values(|e: (Seq<char>, Json)| e.1) =~= seq![e.1] + tail.map_values(
            |e: (Seq<char>, Json)| e.1,
        ));
    }
}

/// An array written as its values between brackets reads back.
pub proof fn lemma_array_value(es: Seq<(Seq<char>, Json)>)
    requires
        forall|i: int| 0 <= i < es.len() ==> value_text(#[trigger] es[i].0, es[i].1),
    ensures
        value_text(
            seq!['['] + join_commas(es, |e: (Seq<char>, Json)| e.0) + seq![']'],
            Json::Array(es.map_values(|e: (Seq<char>, Json)| e.1)),
        ),
{
    let f = |e: (Seq<char>, Json)| e.0;
    let j = join_commas(es, f);
    let text = seq!['['] + j + seq![']'];
    assert forall|after: Seq<char>| after.len() > 0 && closes(after[0]) implies #[trigger] parse_value(
        text + after,
    ) == Some((Json::Array(es.map_values(|e: (Seq<char>, Json)| e.1)), after)) by {
        let s = text + after;
        let t = j + seq![']'] + after;
        assert(s.skip(1) =~= t);
        if es.len() == 0 {
            assert(j =~= Seq::<char>::empty());
            assert(t =~= seq![']'] + after);
            assert(skip_ws(t) == t);
            assert(t.skip(1) =~= after);
            assert(es.map_values(|e: (Seq<char>, Json)| e.1) =~= Seq::<Json>::empty());
        } else {
            reveal_strlit(",");
            if es.len() >= 2 {
                lemma_join_front(es, f);
            }
            assert(value_text(es[0].0, es[0].1));
            lemma_value_start(es[0].0, es[0].1);
            assert(j[0] == es[0].0[0]);
            assert(skip_ws(t) == t);
            assert(t[0] != ']');
            lemma_parse_elements(es, after);
        }
    }
}

/// A join of mapped elements is the join of the composed pieces.
proof fn lemma_join_map<A, B>(s: Seq<A>, g: spec_fn(A) -> B, f: spec_fn(B) -> Seq<char>)
    ensures
        join_commas(s.map_values(g), f) == join_commas(s, |x: A| f(g(x))),
    decreases s.len(),
{
    let h = |x: A| f(g(x));
    if s.len() > 0 {
        lemma_join_map(s.drop_last(), g, f);
        assert(s.map_values(g).drop_last() =~= s.drop_last().map_values(g));
        assert(s.map_values(g).last() == g(s.last()));
        if s.len() == 1 {
            assert(s.map_values(g)[0] == g(s[0]));
        }
    }
}

/// The JSON value of one message (role, content).
pub open spec fn message_value(m: (Seq<char>, Seq<char>)) -> Json {
    Json::Object(seq![("role"@, Json::Text(m.0)), ("content"@, Json::Text(m.1))])
}

/// A quoted, escaped text.
pub open spec fn quoted(x: Seq<char>) -> Seq<char> {
    seq!['"'] + json_escape(x) + seq!['"']
}

/// A written message reads as its value when its role and content hold no
/// control characters but newline, carriage return and tab.
proof fn lemma_message_value(m: (Seq<char>, Seq<char>))
    requires
        json_safe(m.0),
        json_safe(m.1),
    ensures
        value_text(message_json(m), message_value(m)),
{
    reveal_strlit("{\"role\":\"");
    reveal_strlit("\",\"content\":\"");
    reveal_strlit("\"}");
    reveal_strlit("role");
    reveal_strlit("content");
    reveal_strlit(",");
    let e0 = ("role"@, quoted(m.0), Json::Text(m.0));
    let e1 = ("content"@, quoted(m.1), Json::Text(m.1));
    let es = seq![e0, e1];
    let f = |e: (Seq<char>, Seq<char>, Json)| member_text(e);
    lemma_join_front(es, f);
    assert(es.drop_first() =~= seq![e1]);
    assert(join_commas(es.drop_first(), f) == member_text(e1));
    assert(message_json(m) =~= seq!['{'] + join_commas(es, f) + seq!['}']);
    lemma_string_value(m.0);
    lemma_string_value(m.1);
    assert(members_ok(es)) by {
        assert forall|i: int| 0 <= i < es.len() implies plain_text(#[trigger] es[i].0) && value_text(
            es[i].1,
            es[i].2,
        ) by {
            if i == 0 {
                assert forall|k: int| 0 <= k < e0.0.len() implies (#[trigger] e0.0[k] as int) >= 0x20
                    && e0.0[k] != '"' && e0.0[k] != '\\' by {}
            } else {
                assert forall|k: int| 0 <= k < e1.0.len() implies (#[trigger] e1.0[k] as int) >= 0x20
                    && e1.0[k] != '"' && e1.0[k] != '\\' by {}
            }
        }
    }
    assert(members_of(es) =~= seq![("role"@, Json::Text(m.0)), ("content"@, Json::Text(m.1))]);
    assert forall|after: Seq<char>| after.len() > 0 && closes(after[0]) implies #[trigger] parse_value(
        message_json(m) + after,
    ) == Some((message_value(m), after)) by {
        lemma_parse_object(es, after);
        assert(message_json(m) + after =~= seq!['{'] + join_commas(es, f) + seq!['}'] + after);
    }
}

/// A numeral of `decimal` is a JSON number.
proof fn lemma_decimal_number(n: nat)
    ensures
        valid_number(decimal(n)),
    decreases n,
{
    crate::laws::lemma_decimal_value(n);
    let t = decimal(n);
    lemma_digit_run_all(t);
    assert(t.skip(0) =~= t);
    lemma_decimal_leading(n);
}

/// In a text of digits only, the run of digits is the whole text.
proof fn lemma_digit_run_all(t: Seq<char>)
    requires
        all_digits(t),
    ensures
        digit_run(t) == t.len(),
    decreases t.len(),
{
    if t.len() > 0 {
        assert(all_digits(t.skip(1))) by {
            assert forall|i: int| 0 <= i < t.skip(1).len() implies #[trigger] is_digit(t.skip(1)[i]) by {
                assert(t.skip(1)[i] == t[i + 1]);
            }
        }
        lemma_digit_run_all(t.skip(1));
    }
}

/// A numeral of `decimal` with more than one digit does not start with zero.
proof fn lemma_decimal_leading(n: nat)
    ensures
        decimal(n).len() >= 1,
        decimal(n).len() > 1 ==> decimal(n)[0] != '0',
        n >= 10 ==> decimal(n).len() > 1,
    decreases n,
{
    if n >= 10 {
        lemma_decimal_leading(n / 10);
        assert(decimal(n)[0] == decimal(n / 10)[0]);
        if decimal(n / 10).len() == 1 {
            assert(n / 10 < 10);
            assert(decimal(n / 10)[0] == digit_char(n / 10));
        }
    }
}

/// The value that the request body stands for: the model, streaming on,
/// the messages as role/content objects, then the temperature and the
/// output-token limit when they are set.
pub open spec fn chat_value(
    model: Seq<char>,
    messages: Seq<(Seq<char>, Seq<char>)>,
    temperature: Option<Seq<char>>,
    max_tokens: Option<u32>,
) -> Json {
    Json::Object(
        seq![
            ("model"@, Json::Text(model)),
            ("stream"@, Json::Bool(true)),
            (
                "messages"@,
                Json::Array(messages.map_values(|m: (Seq<char>, Seq<char>)| message_value(m))),
            ),
        ] + (match temperature {
            Some(t) => seq![("temperature"@, Json::Number(t))],
            None => Seq::empty(),
        }) + (match max_tokens {
            Some(n) => seq![("max_tokens"@, Json::Number(decimal(n as nat)))],
            None => Seq::empty(),
        }),
    )
}

/// Whether every message's role and content hold no control character but
/// newline, carriage return and tab.
pub open spec fn messages_safe(messages: Seq<(Seq<char>, Seq<char>)>) -> bool {
    forall|i: int| 0 <= i < messages.len() ==> json_safe(#[trigger] messages[i].0) && json_safe(messages[i].1)
}

/// A key made of the given literal characters is plain.
proof fn lemma_plain_key(k: Seq<char>)
    requires
        forall|i: int| 0 <= i < k.len() ==> ('a' <= #[trigger] k[i] && k[i] <= 'z') || k[i] == '_',
    ensures
        plain_text(k),
{
}

/// The members of the request body: key, text, and value.
pub open spec fn body_entries(
    model: Seq<char>,
    messages: Seq<(Seq<char>, Seq<char>)>,
    temperature: Option<Seq<char>>,
    max_tokens: Option<u32>,
) -> Seq<(Seq<char>, Seq<char>, Json)> {
    seq![
        ("model"@, quoted(model), Json::Text(model)),
        ("stream"@, "true"@, Json::Bool(true)),
        (
            "messages"@,
            seq!['['] + join_commas(messages, |m: (Seq<char>, Seq<char>)| message_json(m)) + seq![
                ']',
            ],
            Json::Array(messages.map_values(|m: (Seq<char>, Seq<char>)| message_value(m))),
        ),
    ] + (match temperature {
        Some(t) => seq![("temperature"@, t, Json::Number(t))],
        None => Seq::empty(),
    }) + (match max_tokens {
        Some(n) => seq![("max_tokens"@, decimal(n as nat), Json::Number(decimal(n as nat)))],
        None => Seq::empty(),
    })
}

/// Joining `s` with one more element adds a comma and its piece.
proof fn lemma_join_push<T>(s: Seq<T>, x: T, f: spec_fn(T) -> Seq<char>)
    requires
        s.len() >= 1,
    ensures
        join_commas(s.push(x), f) == join_commas(s, f) + ","@ + f(x),
{
    assert(s.push(x).drop_last() =~= s);
    assert(s.push(x).last() == x);
}

/// The request body is its members between braces.
#[verifier::rlimit(40)]
proof fn lemma_body_text(
    model: Seq<char>,
    messages: Seq<(Seq<char>, Seq<char>)>,
    temperature: Option<Seq<char>>,
    max_tokens: Option<u32>,
)
    ensures
        chat_json(model, messages, temperature, max_tokens) == seq!['{'] + join_commas(
            body_entries(model, messages, temperature, max_tokens),
            |e: (Seq<char>, Seq<char>, Json)| member_text(e),
        ) + seq!['}'],
{
    reveal_strlit("{\"model\":\"");
    reveal_strlit("\",\"stream\":true,\"messages\":[");
    reveal_strlit("]");
    reveal_strlit("}");
    reveal_strlit(",\"temperature\":");
    reveal_strlit(",\"max_tokens\":");
    reveal_strlit("model");
    reveal_strlit("stream");
    reveal_strlit("messages");
    reveal_strlit("temperature");
    reveal_strlit("max_tokens");
    reveal_strlit("true");
    reveal_strlit(",");
    let f = |e: (Seq<char>, Seq<char>, Json)| member_text(e);
    let es = body_entries(model, messages, temperature, max_tokens);
    let e0 = es[0];
    let e1 = es[1];
    let e2 = es[2];
    let base = seq![e0, e1, e2];
    lemma_join_push(seq![e0], e1, f);
    assert(seq![e0].push(e1) =~= seq![e0, e1]);
    lemma_join_push(seq![e0, e1], e2, f);
    assert(seq![e0, e1].push(e2) =~= base);
    assert(join_commas(seq![e0], f) == f(e0));
    let j = join_commas(messages, |m: (Seq<char>, Seq<char>)| message_json(m));
    let head = "{\"model\":\""@ + json_escape(model) + "\",\"stream\":true,\"messages\":["@ + j + "]"@;
    assert(seq!['{'] + join_commas(base, f) =~= head);
    let tpart = match temperature {
        Some(t) => ",\"temperature\":"@ + t,
        None => Seq::empty(),
    };
    let with_t = match temperature {
        Some(t) => base.push(("temperature"@, t, Json::Number(t))),
        None => base,
    };
    match temperature {
        Some(t) => {
            lemma_join_push(base, ("temperature"@, t, Json::Number(t)), f);
            assert(join_commas(with_t, f) =~= join_commas(base, f) + tpart);
        },
        None => {},
    }
    let mpart = match max_tokens {
        Some(n) => ",\"max_tokens\":"@ + decimal(n as nat),
        None => Seq::empty(),
    };
    match max_tokens {
        Some(n) => {
            let x = ("max_tokens"@, decimal(n as nat), Json::Number(decimal(n as nat)));
            lemma_join_push(with_t, x, f);
            assert(es =~= with_t.push(x));
            assert(join_commas(es, f) =~= join_commas(with_t, f) + mpart);
        },
        None => {
            assert(es =~= with_t);
        },
    }
    assert(join_commas(es, f) =~= join_commas(base, f) + tpart + mpart);
    assert(chat_json(model, messages, temperature, max_tokens) =~= head + tpart + mpart + "}"@);
}

/// Every member of the request body has a plain key and reads as its value.
proof fn lemma_body_members_ok(
    model: Seq<char>,
    messages: Seq<(Seq<char>, Seq<char>)>,
    temperature: Option<Seq<char>>,
    max_tokens: Option<u32>,
)
    requires
        json_safe(model),
        messages_safe(messages),
        temperature matches Some(t) ==> valid_number(t),
    ensures
        members_ok(body_entries(model, messages, temperature, max_tokens)),
{
    reveal_strlit("model");
    reveal_strlit("stream");
    reveal_strlit("messages");
    reveal_strlit("temperature");
    reveal_strlit("max_tokens");
    let mf = |m: (Seq<char>, Seq<char>)| message_json(m);
    let g = |m: (Seq<char>, Seq<char>)| (message_json(m), message_value(m));
    let ms = messages.map_values(g);
    let ef = |e: (Seq<char>, Json)| e.0;
    lemma_join_map(messages, g, ef);
    assert((|x: (Seq<char>, Seq<char>)| ef(g(x))) =~= mf);
    assert forall|i: int| 0 <= i < ms.len() implies value_text(#[trigger] ms[i].0, ms[i].1) by {
        assert(ms[i] == g(messages[i]));
        assert(json_safe(messages[i].0) && json_safe(messages[i].1));
        lemma_message_value(messages[i]);
    }
    lemma_array_value(ms);
    assert(ms.map_values(|e: (Seq<char>, Json)| e.1) =~= messages.map_values(
        |m: (Seq<char>, Seq<char>)| message_value(m),
    ));
    lemma_string_value(model);
    lemma_true_value();
    lemma_plain_key("model"@);
    lemma_plain_key("stream"@);
    lemma_plain_key("messages"@);
    lemma_plain_key("temperature"@);
    lemma_plain_key("max_tokens"@);
    match temperature {
        Some(t) => lemma_number_value(t),
        None => {},
    }
    match max_tokens {
        Some(n) => {
            lemma_decimal_number(n as nat);
            lemma_number_value(decimal(n as nat));
        },
        None => {},
    }
    let es = body_entries(model, messages, temperature, max_tokens);
    assert forall|i: int| 0 <= i < es.len() implies plain_text(#[trigger] es[i].0) && value_text(
        es[i].1,
        es[i].2,
    ) by {
        if i == 3 {
            if temperature is Some {
            } else {
            }
        }
    }
}

/// The request body is a JSON text (RFC 8259): an object holding the model,
/// `stream: true`, the messages as role/content objects in order, and the
/// temperature and output-token limit exactly when they are set; when the
/// model and messages hold no control character but newline, carriage
/// return and tab, and the temperature text is a JSON number.
pub proof fn law_chat_body_is_json(
    model: Seq<char>,
    messages: Seq<(Seq<char>, Seq<char>)>,
    temperature: Option<Seq<char>>,
    max_tokens: Option<u32>,
)
    requires
        json_safe(model),
        messages_safe(messages),
        temperature matches Some(t) ==> valid_number(t),
    ensures
        json_text(chat_json(model, messages, temperature, max_tokens)) == Some(
            chat_value(model, messages, temperature, max_tokens),
        ),
{
    let es = body_entries(model, messages, temperature, max_tokens);
    let f = |e: (Seq<char>, Seq<char>, Json)| member_text(e);
    lemma_body_text(model, messages, temperature, max_tokens);
    lemma_body_members_ok(model, messages, temperature, max_tokens);
    let body = chat_json(model, messages, temperature, max_tokens);
    lemma_parse_object(es, Seq::empty());
    assert(seq!['{'] + join_commas(es, f) + seq!['}'] + Seq::<char>::empty() =~= body);
    assert(skip_ws(body) == body);
    assert(skip_ws(Seq::<char>::empty()).len() == 0);
    assert(members_of(es) =~= match chat_value(model, messages, temperature, max_tokens) {
        Json::Object(m) => m,
        _ => Seq::empty(),
    });
}

} // verus!
