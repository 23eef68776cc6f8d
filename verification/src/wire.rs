//! The chat wire format: JSON string escaping for request bodies and the
//! extraction of streamed `content` tokens from server-sent-event lines.

use vstd::prelude::*;

use crate::text::{
    chars_of, find, find_from, find_in, lemma_find_from_bounds, matches_at, trim, trim_range,
};

verus! {

/// How one character is written inside a JSON string literal.
pub open spec fn json_escape_char(c: char) -> Seq<char> {
    if c == '"' {
        seq!['\\', '"']
    } else if c == '\\' {
        seq!['\\', '\\']
    } else if c == '\n' {
        seq!['\\', 'n']
    } else if c == '\r' {
        seq!['\\', 'r']
    } else if c == '\t' {
        seq!['\\', 't']
    } else {
        seq![c]
    }
}

/// `s` with every character written as `json_escape_char` writes it.
pub open spec fn json_escape(s: Seq<char>) -> Seq<char>
    decreases s.len(),
{
    if s.len() == 0 {
        Seq::empty()
    } else {
        json_escape(s.drop_last()) + json_escape_char(s.last())
    }
}

/// The character that a backslash followed by `c` stands for in a streamed token.
pub open spec fn unescape_char(c: char) -> char {
    if c == 'n' {
        '\n'
    } else if c == 'r' {
        '\r'
    } else if c == 't' {
        '\t'
    } else {
        c
    }
}

/// The token text at the front of `s`: characters up to the first unescaped
/// quote, each backslash pair decoded by `unescape_char`; a backslash at the
/// very end is dropped.
pub open spec fn sse_unescape(s: Seq<char>) -> Seq<char>
    decreases s.len(),
{
    if s.len() == 0 {
        Seq::empty()
    } else if s[0] == '\\' {
        if s.len() == 1 {
            Seq::empty()
        } else {
            seq![unescape_char(s[1])] + sse_unescape(s.skip(2))
        }
    } else if s[0] == '"' {
        Seq::empty()
    } else {
        seq![s[0]] + sse_unescape(s.skip(1))
    }
}

/// What is left to decode when a backslash has just been read and `s` follows it.
pub open spec fn after_backslash(s: Seq<char>) -> Seq<char> {
    if s.len() == 0 {
        Seq::empty()
    } else {
        seq![unescape_char(s[0])] + sse_unescape(s.skip(1))
    }
}

/// The prefix that marks an event-stream data line.
pub open spec fn data_prefix() -> Seq<char> {
    "data: "@
}

/// The marker that ends the stream.
pub open spec fn done_marker() -> Seq<char> {
    "[DONE]"@
}

/// The key whose string value is the streamed token.
pub open spec fn content_key() -> Seq<char> {
    "\"content\":\""@
}

/// The token that one server-sent-event line carries: `None` unless the line
/// starts with `data: `, its trimmed payload is not `[DONE]` and holds the
/// key `"content":"`; otherwise the unescaped text after the first such key.
pub open spec fn sse_payload(line: Seq<char>) -> Option<Seq<char>> {
    if !(line.len() >= data_prefix().len() && line.take(data_prefix().len() as int)
        == data_prefix()) {
        None
    } else {
        let data = trim(line.skip(data_prefix().len() as int));
        if data == done_marker() {
            None
        } else {
            match find(data, content_key()) {
                None => None,
                Some(i) => Some(sse_unescape(data.skip(i + content_key().len()))),
            }
        }
    }
}

/// Escapes `value` for use inside a JSON string literal: quote, backslash,
/// newline, carriage return and tab are written with a backslash; every other
/// character is kept.
pub fn json(value: &str) -> (r: String)
    ensures
        r@ == json_escape(value@),
{
    let v = chars_of(value);
    let mut out = String::new();
    let mut i: usize = 0;
    while i < v.len()
        invariant
            i <= v@.len(),
            out@ == json_escape(v@.take(i as int)),
        decreases v@.len() - i,
    {
        let c = v[i];
        let ghost before = out@;
        if c == '"' {
            out.push('\\');
            out.push('"');
        } else if c == '\\' {
            out.push('\\');
            out.push('\\');
        } else if c == '\n' {
            out.push('\\');
            out.push('n');
        } else if c == '\r' {
            out.push('\\');
            out.push('r');
        } else if c == '\t' {
            out.push('\\');
            out.push('t');
        } else {
            out.push(c);
        }
        assert(out@ =~= before + json_escape_char(c));
        assert(v@.take(i + 1).drop_last() =~= v@.take(i as int));
        i = i + 1;
    }
    assert(v@.take(v@.len() as int) =~= v@);
    out
}

/// Decodes the streamed token in `d[start..]` up to the first unescaped quote.
fn unescape_from(d: &Vec<char>, start: usize) -> (r: String)
    requires
        start <= d@.len(),
    ensures
        r@ == sse_unescape(d@.skip(start as int)),
{
    let n = d.len();
    let mut out = String::new();
    let mut escaped = false;
    let mut i = start;
    while i < n
        invariant
            n == d@.len(),
            start <= i <= n,
            out@ + (if escaped {
                after_backslash(d@.skip(i as int))
            } else {
                sse_unescape(d@.skip(i as int))
            }) == sse_unescape(d@.skip(start as int)),
        decreases n - i,
    {
        let ghost rest = d@.skip(i as int);
        let ghost before = out@;
        let ch = d[i];
        assert(rest[0] == ch);
        assert(rest.skip(1) =~= d@.skip(i + 1));
        if escaped {
            let decoded = match ch {
                'n' => '\n',
                'r' => '\r',
                't' => '\t',
                other => other,
            };
            out.push(decoded);
            escaped = false;
            assert(decoded == unescape_char(ch));
            assert(out@ + sse_unescape(d@.skip(i + 1)) =~= before + after_backslash(rest));
        } else if ch == '\\' {
            escaped = true;
            if i + 1 < n {
                assert(rest.skip(2) =~= d@.skip(i + 1).skip(1));
            }
        } else if ch == '"' {
            return out;
        } else {
            out.push(ch);
            assert(out@ + sse_unescape(d@.skip(i + 1)) =~= before + sse_unescape(rest));
        }
        i = i + 1;
    }
    out
}

/// A copy of `v[lo..hi]`.
fn sub_vec(v: &Vec<char>, lo: usize, hi: usize) -> (r: Vec<char>)
    requires
        lo <= hi <= v@.len(),
    ensures
        r@ == v@.subrange(lo as int, hi as int),
{
    let mut r: Vec<char> = Vec::new();
    let mut i = lo;
    while i < hi
        invariant
            lo <= i <= hi <= v@.len(),
            r@ == v@.subrange(lo as int, i as int),
        decreases hi - i,
    {
        r.push(v[i]);
        i = i + 1;
        assert(r@ =~= v@.subrange(lo as int, i as int));
    }
    r
}

/// The token carried by one line of the chat event stream: the text after
/// the first `"content":"` in the trimmed payload of a `data: ` line, up to
/// the closing quote, with backslash escapes decoded. A line that is not a
/// data line, the `[DONE]` marker and a payload without that key carry none.
pub fn sse_content(line: &str) -> (r: Option<String>)
    ensures
        match r {
            Some(token) => sse_payload(line@) == Some(token@),
            None => sse_payload(line@) is None,
        },
{
    let v = chars_of(line);
    let prefix = chars_of("data: ");
    proof {
        assert(prefix@ == data_prefix());
    }
    if prefix.len() > v.len() || !matches_at(&v, &prefix, 0) {
        assert(v@.subrange(0, prefix@.len() as int) =~= v@.take(prefix@.len() as int));
        return None;
    }
    assert(v@.subrange(0, prefix@.len() as int) =~= v@.take(prefix@.len() as int));
    let (a, b) = trim_range(&v, prefix.len(), v.len());
    assert(v@.subrange(prefix@.len() as int, v@.len() as int) =~= v@.skip(prefix@.len() as int));
    let data = sub_vec(&v, a, b);
    let done = chars_of("[DONE]");
    if data.len() == done.len() && matches_at(&data, &done, 0) {
        assert(data@ =~= data@.subrange(0, done@.len() as int));
        return None;
    }
    assert(data@ != done_marker()) by {
        if data@ == done_marker() {
            assert(data@.subrange(0, done@.len() as int) =~= data@);
        }
    }
    let key = chars_of("\"content\":\"");
    match find_in(&data, &key, 0) {
        None => None,
        Some(i) => {
            proof {
                let k = find_from(data@, key@, 0).unwrap();
                assert(0 <= k && k + key@.len() <= data@.len()) by {
                    lemma_find_from_bounds(data@, key@, 0);
                }
            }
            Some(unescape_from(&data, i + key.len()))
        }
    }
}

} // verus!
