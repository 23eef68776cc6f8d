//! Character-level helpers over `str` and `String`: whitespace trimming,
//! substring search and conversions between strings and character vectors.

use vstd::prelude::*;
use vstd::string::StrSliceExecFns;
use vstd::utf8::{
    encode_scalar, encode_utf8, encode_utf8_first_scalar, is_char_boundary, pop_first_scalar,
};

verus! {

/// `String::push` appends one character.
pub assume_specification[ String::push ](s: &mut String, ch: char)
    ensures
        final(s)@ == old(s)@.push(ch),
;

/// The characters that `char::is_whitespace` accepts: those with the Unicode
/// `White_Space` property.
pub open spec fn is_ws(c: char) -> bool {
    ||| ('\u{9}' <= c && c <= '\u{d}')
    ||| c == ' '
    ||| c == '\u{85}'
    ||| c == '\u{a0}'
    ||| c == '\u{1680}'
    ||| ('\u{2000}' <= c && c <= '\u{200a}')
    ||| c == '\u{2028}'
    ||| c == '\u{2029}'
    ||| c == '\u{202f}'
    ||| c == '\u{205f}'
    ||| c == '\u{3000}'
}

/// `s` without its leading whitespace.
pub open spec fn trim_start(s: Seq<char>) -> Seq<char>
    decreases s.len(),
{
    if s.len() > 0 && is_ws(s[0]) {
        trim_start(s.drop_first())
    } else {
        s
    }
}

/// `s` without its trailing whitespace.
pub open spec fn trim_end(s: Seq<char>) -> Seq<char>
    decreases s.len(),
{
    if s.len() > 0 && is_ws(s.last()) {
        trim_end(s.drop_last())
    } else {
        s
    }
}

/// `s` without leading and trailing whitespace, as `str::trim` gives it.
pub open spec fn trim(s: Seq<char>) -> Seq<char> {
    trim_end(trim_start(s))
}

/// The first position at or after `i` where `pat` occurs in `s`.
pub open spec fn find_from(s: Seq<char>, pat: Seq<char>, i: int) -> Option<int>
    decreases s.len() + 1 - i,
{
    if i < 0 || i + pat.len() > s.len() {
        None
    } else if s.subrange(i, i + pat.len()) == pat {
        Some(i)
    } else {
        find_from(s, pat, i + 1)
    }
}

/// The first position where `pat` occurs in `s`, as `str::find` gives it
/// (counted in characters).
pub open spec fn find(s: Seq<char>, pat: Seq<char>) -> Option<int> {
    find_from(s, pat, 0)
}

/// Whether `pat` occurs somewhere in `s`, as `str::contains` tells.
pub open spec fn contains_seq(s: Seq<char>, pat: Seq<char>) -> bool {
    exists|i: int| 0 <= i && i + pat.len() <= s.len() && #[trigger] s.subrange(i, i + pat.len()) == pat
}

/// Whether `c` is whitespace in the sense of `char::is_whitespace`.
pub fn is_whitespace(c: char) -> (r: bool)
    ensures
        r == is_ws(c),
{
    ('\u{9}' <= c && c <= '\u{d}') || c == ' ' || c == '\u{85}' || c == '\u{a0}' || c == '\u{1680}'
        || ('\u{2000}' <= c && c <= '\u{200a}') || c == '\u{2028}' || c == '\u{2029}' || c
        == '\u{202f}' || c == '\u{205f}' || c == '\u{3000}'
}

/// The characters of `s`, in order.
pub fn chars_of(s: &str) -> (v: Vec<char>)
    ensures
        v@ == s@,
{
    let mut v: Vec<char> = Vec::new();
    for c in it: s.chars()
        invariant
            v@ == it.seq().take(it.index() as int),
    {
        v.push(c);
    }
    v
}

/// A `String` holding `v[lo..hi]`.
pub fn string_of(v: &Vec<char>, lo: usize, hi: usize) -> (s: String)
    requires
        lo <= hi <= v@.len(),
    ensures
        s@ == v@.subrange(lo as int, hi as int),
{
    let mut s = String::new();
    let mut i = lo;
    while i < hi
        invariant
            lo <= i <= hi <= v@.len(),
            s@ == v@.subrange(lo as int, i as int),
        decreases hi - i,
    {
        s.push(v[i]);
        i = i + 1;
        assert(s@ =~= v@.subrange(lo as int, i as int));
    }
    s
}

/// Appends `v[lo..hi]` to `out`.
pub fn push_range(out: &mut String, v: &Vec<char>, lo: usize, hi: usize)
    requires
        lo <= hi <= v@.len(),
    ensures
        final(out)@ == old(out)@ + v@.subrange(lo as int, hi as int),
{
    let mut i = lo;
    while i < hi
        invariant
            lo <= i <= hi <= v@.len(),
            out@ == old(out)@ + v@.subrange(lo as int, i as int),
        decreases hi - i,
    {
        out.push(v[i]);
        i = i + 1;
        assert(out@ =~= old(out)@ + v@.subrange(lo as int, i as int));
    }
}

/// Appends the characters of `s` to `out`.
pub fn push_str(out: &mut String, s: &str)
    ensures
        final(out)@ == old(out)@ + s@,
{
    let v = chars_of(s);
    push_range(out, &v, 0, v.len());
    assert(v@.subrange(0, v@.len() as int) =~= v@);
}

proof fn lemma_trim_start_step(s: Seq<char>, a: int, hi: int)
    requires
        0 <= a < hi <= s.len(),
        is_ws(s[a]),
    ensures
        trim_start(s.subrange(a, hi)) == trim_start(s.subrange(a + 1, hi)),
{
    assert(s.subrange(a, hi).drop_first() =~= s.subrange(a + 1, hi));
}

proof fn lemma_trim_end_step(s: Seq<char>, a: int, b: int)
    requires
        0 <= a < b <= s.len(),
        is_ws(s[b - 1]),
    ensures
        trim_end(s.subrange(a, b)) == trim_end(s.subrange(a, b - 1)),
{
    assert(s.subrange(a, b).drop_last() =~= s.subrange(a, b - 1));
}

/// The bounds `(a, b)` of `v[lo..hi]` with its surrounding whitespace cut off.
pub fn trim_range(v: &Vec<char>, lo: usize, hi: usize) -> (r: (usize, usize))
    requires
        lo <= hi <= v@.len(),
    ensures
        lo <= r.0 <= r.1 <= hi,
        v@.subrange(r.0 as int, r.1 as int) == trim(v@.subrange(lo as int, hi as int)),
{
    let mut a = lo;
    while a < hi && is_whitespace(v[a])
        invariant
            lo <= a <= hi <= v@.len(),
            trim_start(v@.subrange(lo as int, hi as int)) == trim_start(v@.subrange(a as int, hi as int)),
        decreases hi - a,
    {
        proof {
            lemma_trim_start_step(v@, a as int, hi as int);
        }
        a = a + 1;
    }
    assert(trim_start(v@.subrange(a as int, hi as int)) == v@.subrange(a as int, hi as int));
    let mut b = hi;
    while b > a && is_whitespace(v[b - 1])
        invariant
            lo <= a <= b <= hi <= v@.len(),
            trim(v@.subrange(lo as int, hi as int)) == trim_end(v@.subrange(a as int, b as int)),
        decreases b - a,
    {
        proof {
            lemma_trim_end_step(v@, a as int, b as int);
        }
        b = b - 1;
    }
    (a, b)
}

/// `s` with leading and trailing whitespace removed, as `str::trim` does.
pub fn trim_str(s: &str) -> (r: &str)
    ensures
        r@ == trim(s@),
{
    let v = chars_of(s);
    let (a, b) = trim_range(&v, 0, v.len());
    assert(v@.subrange(0, v@.len() as int) =~= v@);
    s.substring_char(a, b)
}

/// Whether `pat` occurs in `v` at position `i`.
pub fn matches_at(v: &Vec<char>, pat: &Vec<char>, i: usize) -> (r: bool)
    requires
        i + pat@.len() <= v@.len(),
    ensures
        r == (v@.subrange(i as int, i + pat@.len()) == pat@),
{
    let n = v.len();
    let mut k: usize = 0;
    while k < pat.len()
        invariant
            n == v@.len(),
            i + pat@.len() <= v@.len(),
            k <= pat@.len(),
            forall|j: int| 0 <= j < k ==> v@[i + j] == pat@[j],
        decreases pat@.len() - k,
    {
        if v[i + k] != pat[k] {
            assert(v@.subrange(i as int, i + pat@.len())[k as int] != pat@[k as int]);
            return false;
        }
        k = k + 1;
    }
    assert(v@.subrange(i as int, i + pat@.len()) =~= pat@);
    true
}

/// The first position at or after `from` where `pat` occurs in `v`.
pub fn find_in(v: &Vec<char>, pat: &Vec<char>, from: usize) -> (r: Option<usize>)
    requires
        from <= v@.len(),
    ensures
        match r {
            Some(i) => find_from(v@, pat@, from as int) == Some(i as int),
            None => find_from(v@, pat@, from as int) is None,
        },
{
    let mut i = from;
    if pat.len() > v.len() {
        return None;
    }
    let last = v.len() - pat.len();
    while i <= last
        invariant
            from <= i,
            last + pat@.len() == v@.len(),
            find_from(v@, pat@, from as int) == find_from(v@, pat@, i as int),
        decreases last + 1 - i,
    {
        if matches_at(v, pat, i) {
            return Some(i);
        }
        if i == last {
            return None;
        }
        i = i + 1;
    }
    None
}

/// A position that `find_from` reports lies inside `s` with room for `pat`.
pub proof fn lemma_find_from_bounds(s: Seq<char>, pat: Seq<char>, i: int)
    ensures
        find_from(s, pat, i) matches Some(k) ==> i <= k && k + pat.len() <= s.len()
            && s.subrange(k, k + pat.len()) == pat,
    decreases s.len() + 1 - i,
{
    if i < 0 || i + pat.len() > s.len() {
    } else if s.subrange(i, i + pat.len()) == pat {
    } else {
        lemma_find_from_bounds(s, pat, i + 1);
    }
}

/// A position past which `find_from` reports nothing holds no match.
pub proof fn lemma_find_from_none(s: Seq<char>, pat: Seq<char>, i: int, j: int)
    requires
        0 <= i <= j,
        j + pat.len() <= s.len(),
        find_from(s, pat, i) is None,
    ensures
        s.subrange(j, j + pat.len()) != pat,
    decreases j - i,
{
    if i < j {
        lemma_find_from_none(s, pat, i + 1, j);
    }
}

/// Encoding a concatenation encodes each part in turn.
pub proof fn lemma_encode_concat(a: Seq<char>, b: Seq<char>)
    ensures
        encode_utf8(a + b) == encode_utf8(a) + encode_utf8(b),
    decreases a.len(),
{
    if a.len() == 0 {
        assert(a + b =~= b);
        assert(encode_utf8(a) =~= Seq::<u8>::empty());
        assert(encode_utf8(a) + encode_utf8(b) =~= encode_utf8(b));
    } else {
        assert((a + b).drop_first() =~= a.drop_first() + b);
        assert((a + b)[0] == a[0]);
        lemma_encode_concat(a.drop_first(), b);
        assert(encode_utf8(a + b) =~= encode_utf8(a) + encode_utf8(b));
    }
}

/// A single character encodes as its scalar.
pub proof fn lemma_encode_single(c: char)
    ensures
        encode_utf8(seq![c]) == encode_scalar(c as u32),
{
    assert(seq![c].drop_first() =~= Seq::<char>::empty());
    assert(seq![c][0] == c);
    assert(encode_utf8(Seq::<char>::empty()) =~= Seq::<u8>::empty());
    assert(encode_utf8(seq![c]) =~= encode_scalar(c as u32) + encode_utf8(Seq::<char>::empty()));
    assert(encode_scalar(c as u32) + Seq::<u8>::empty() =~= encode_scalar(c as u32));
}

/// The UTF-8 length of a prefix grows with the prefix, strictly.
pub proof fn lemma_encode_prefix_len(s: Seq<char>, j: int, k: int)
    requires
        0 <= j <= k <= s.len(),
    ensures
        encode_utf8(s.take(j)).len() + (k - j) <= encode_utf8(s.take(k)).len(),
        encode_utf8(s.take(k)).take(encode_utf8(s.take(j)).len() as int) == encode_utf8(s.take(j)),
    decreases k - j,
{
    if j < k {
        lemma_encode_prefix_len(s, j, k - 1);
        assert(s.take(k) =~= s.take(k - 1) + seq![s[k - 1]]);
        lemma_encode_concat(s.take(k - 1), seq![s[k - 1]]);
        lemma_encode_single(s[k - 1]);
        vstd::utf8::char_is_scalar(s[k - 1]);
        assert(encode_utf8(seq![s[k - 1]]).len() >= 1);
        let a = encode_utf8(s.take(k - 1));
        let b = encode_utf8(s.take(j));
        assert((a + encode_utf8(seq![s[k - 1]])).take(b.len() as int) =~= a.take(b.len() as int));
    } else {
        assert(encode_utf8(s.take(k)).take(encode_utf8(s.take(j)).len() as int) =~= encode_utf8(s.take(j)));
    }
}

/// A byte index that is a character boundary of the encoding of `s` is the
/// encoded length of some prefix of `s`.
pub proof fn lemma_boundary_prefix(s: Seq<char>, n: int)
    requires
        is_char_boundary(encode_utf8(s), n),
    ensures
        exists|k: int| 0 <= k <= s.len() && #[trigger] encode_utf8(s.take(k)).len() == n,
    decreases s.len(),
{
    broadcast use vstd::utf8::encode_utf8_valid_utf8;

    let b = encode_utf8(s);
    if n == 0 {
        assert(s.take(0) =~= Seq::<char>::empty());
        assert(encode_utf8(s.take(0)).len() == 0);
    } else {
        assert(s.len() > 0);
        encode_utf8_first_scalar(s);
        lemma_encode_single(s[0]);
        assert(pop_first_scalar(b) =~= encode_utf8(s.drop_first()));
        let w = encode_scalar(s[0] as u32).len() as int;
        lemma_boundary_prefix(s.drop_first(), n - w);
        let k = choose|k: int|
            0 <= k <= s.drop_first().len() && #[trigger] encode_utf8(s.drop_first().take(k)).len()
                == n - w;
        assert(s.take(k + 1) =~= seq![s[0]] + s.drop_first().take(k));
        lemma_encode_concat(seq![s[0]], s.drop_first().take(k));
        assert(encode_utf8(s.take(k + 1)).len() == n);
    }
}

/// How many bytes the UTF-8 encoding of `c` takes.
pub fn utf8_width(c: char) -> (w: usize)
    ensures
        w == encode_utf8(seq![c]).len(),
        1 <= w <= 4,
{
    proof {
        vstd::utf8::char_is_scalar(c);
        lemma_encode_single(c);
    }
    let v = c as u32;
    if v <= 0x7f {
        1
    } else if v <= 0x7ff {
        2
    } else if v <= 0xffff {
        3
    } else {
        4
    }
}

/// `s` cut to at most `limit` bytes of UTF-8, as `String::truncate` cuts it:
/// unchanged when it is no longer, else its prefix of exactly `limit` bytes,
/// which must end on a character boundary (where `truncate` would panic).
pub fn truncate_bytes(s: String, limit: usize) -> (r: String)
    requires
        encode_utf8(s@).len() <= limit || is_char_boundary(encode_utf8(s@), limit as int),
    ensures
        r@ == s@.take(r@.len() as int),
        encode_utf8(r@) == (if encode_utf8(s@).len() <= limit {
            encode_utf8(s@)
        } else {
            encode_utf8(s@).take(limit as int)
        }),
{
    broadcast use vstd::utf8::encode_utf8_valid_utf8;

    let v = chars_of(s.as_str());
    let n = v.len();
    let mut bytes: usize = 0;
    let mut i: usize = 0;
    while i < n
        invariant
            n == v@.len(),
            v@ == s@,
            encode_utf8(s@).len() <= limit || is_char_boundary(encode_utf8(s@), limit as int),
            i <= n,
            bytes <= limit,
            bytes == encode_utf8(v@.take(i as int)).len(),
        decreases n - i,
    {
        let w = utf8_width(v[i]);
        proof {
            assert(v@.take(i + 1) =~= v@.take(i as int) + seq![v@[i as int]]);
            lemma_encode_concat(v@.take(i as int), seq![v@[i as int]]);
        }
        if w > limit - bytes {
            proof {
                assert(v@.take(n as int) =~= v@);
                lemma_encode_prefix_len(v@, i + 1, n as int);
                assert(encode_utf8(s@).len() > limit);
                lemma_boundary_prefix(s@, limit as int);
                let k = choose|k: int| 0 <= k <= s@.len() && #[trigger] encode_utf8(s@.take(k)).len() == limit;
                if k <= i {
                    lemma_encode_prefix_len(v@, k, i as int);
                } else {
                    lemma_encode_prefix_len(v@, i + 1, k);
                }
                assert(k == i);
                lemma_encode_prefix_len(v@, i as int, n as int);
            }
            let r = string_of(&v, 0, i);
            assert(v@.subrange(0, i as int) =~= s@.take(i as int));
            return r;
        }
        bytes = bytes + w;
        i = i + 1;
    }
    assert(v@.take(n as int) =~= v@);
    s
}

/// Whether `a` and `b` hold the same characters.
pub fn str_eq(a: &str, b: &str) -> (r: bool)
    ensures
        r == (a@ == b@),
{
    let x = chars_of(a);
    let y = chars_of(b);
    if x.len() != y.len() {
        return false;
    }
    let r = matches_at(&x, &y, 0);
    assert(x@.subrange(0, y@.len() as int) =~= x@);
    r
}


/// How many bytes the UTF-8 encoding of `s` takes.
pub fn byte_len(s: &str) -> (r: u128)
    ensures
        r == encode_utf8(s@).len(),
{
    let v = chars_of(s);
    let n = v.len();
    let mut total: u128 = 0;
    let mut i: usize = 0;
    while i < n
        invariant
            n == v@.len(),
            v@ == s@,
            i <= n,
            total == encode_utf8(v@.take(i as int)).len(),
            total <= 4 * i,
        decreases n - i,
    {
        let w = utf8_width(v[i]);
        proof {
            assert(v@.take(i + 1) =~= v@.take(i as int) + seq![v@[i as int]]);
            lemma_encode_concat(v@.take(i as int), seq![v@[i as int]]);
        }
        total = total + w as u128;
        i = i + 1;
    }
    assert(v@.take(n as int) =~= v@);
    total
}

/// Whether `pat` occurs in `v`.
pub fn contains_chars(v: &Vec<char>, pat: &str) -> (r: bool)
    ensures
        r == contains_seq(v@, pat@),
{
    let p = chars_of(pat);
    match find_in(v, &p, 0) {
        Some(k) => {
            proof {
                lemma_find_from_bounds(v@, p@, 0);
            }
            true
        },
        None => {
            assert forall|j: int|
                0 <= j && j + p@.len() <= v@.len() implies #[trigger] v@.subrange(
                j,
                j + p@.len(),
            ) != p@ by {
                lemma_find_from_none(v@, p@, 0, j);
            }
            false
        },
    }
}

/// `c` in front of the decoded text `rest`, if there is one.
pub open spec fn prepend(c: char, rest: Option<Seq<char>>) -> Option<Seq<char>> {
    match rest {
        Some(t) => Some(seq![c] + t),
        None => None,
    }
}

} // verus!
