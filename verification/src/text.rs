//! Character-level text helpers: substring search, literal matching, and
//! padded rendering, all stated over `Seq<char>`.

use vstd::prelude::*;

verus! {

use vstd::string::StrSliceExecFns;

/// A blank character: the characters of Unicode's White_Space property,
/// which is what the classifier's whitespace classes match.
pub open spec fn is_space(c: char) -> bool {
    c == ' ' || c == '\t' || c == '\n' || c == '\r' || c == '\x0b' || c == '\x0c' || c
        == '\u{85}' || c == '\u{a0}' || c == '\u{1680}' || c == '\u{2000}' || c == '\u{2001}' || c
        == '\u{2002}' || c == '\u{2003}' || c == '\u{2004}' || c == '\u{2005}' || c == '\u{2006}'
        || c == '\u{2007}' || c == '\u{2008}' || c == '\u{2009}' || c == '\u{200a}' || c
        == '\u{2028}' || c == '\u{2029}' || c == '\u{202f}' || c == '\u{205f}' || c == '\u{3000}'
}

/// `pat` occurs in `t` starting at position `i`.
pub open spec fn is_sub_at(t: Seq<char>, pat: Seq<char>, i: int) -> bool {
    0 <= i && i + pat.len() <= t.len() && t.subrange(i, i + pat.len()) == pat
}

/// `pat` occurs somewhere in `t`.
pub open spec fn contains_seq(t: Seq<char>, pat: Seq<char>) -> bool {
    exists|i: int| is_sub_at(t, pat, i)
}

/// `pat` occurs in `t` followed directly by a blank character.
pub open spec fn contains_spaced(t: Seq<char>, pat: Seq<char>) -> bool {
    exists|i: int| is_sub_at(t, pat, i) && i + pat.len() < t.len() && is_space(t[i + pat.len()])
}

/// Runs of `n` blanks and of `n` dashes, for fixed-width rendering.
pub open spec fn spaces(n: nat) -> Seq<char>
    decreases n,
{
    if n == 0 {
        Seq::empty()
    } else {
        spaces((n - 1) as nat).push(' ')
    }
}

pub open spec fn dashes(n: nat) -> Seq<char>
    decreases n,
{
    if n == 0 {
        Seq::empty()
    } else {
        dashes((n - 1) as nat).push('-')
    }
}

/// `s` left-aligned in a field of width `w`: blanks are appended until the
/// field is full; a longer `s` is kept whole.
pub open spec fn padded(s: Seq<char>, w: nat) -> Seq<char> {
    if s.len() >= w {
        s
    } else {
        s + spaces((w - s.len()) as nat)
    }
}

pub fn space_char(c: char) -> (b: bool)
    ensures
        b == is_space(c),
{
    c == ' ' || c == '\t' || c == '\n' || c == '\r' || c == '\x0b' || c == '\x0c' || c
        == '\u{85}' || c == '\u{a0}' || c == '\u{1680}' || c == '\u{2000}' || c == '\u{2001}' || c
        == '\u{2002}' || c == '\u{2003}' || c == '\u{2004}' || c == '\u{2005}' || c == '\u{2006}'
        || c == '\u{2007}' || c == '\u{2008}' || c == '\u{2009}' || c == '\u{200a}' || c
        == '\u{2028}' || c == '\u{2029}' || c == '\u{202f}' || c == '\u{205f}' || c == '\u{3000}'
}

/// The characters of `s`, in order.
pub fn chars_of(s: &str) -> (r: Vec<char>)
    ensures
        r@ == s@,
{
    let n = s.unicode_len();
    let mut r: Vec<char> = Vec::new();
    let mut i: usize = 0;
    while i < n
        invariant
            n == s@.len(),
            i <= n,
            r@ == s@.subrange(0, i as int),
        decreases n - i,
    {
        r.push(s.get_char(i));
        proof {
            assert(s@.subrange(0, i + 1) =~= s@.subrange(0, i as int).push(s@[i as int]));
        }
        i = i + 1;
    }
    proof {
        assert(s@.subrange(0, n as int) =~= s@);
    }
    r
}

/// Relies on `String`'s `FromIterator<char>` implementation (through
/// `Iterator::collect`): the resulting string holds exactly the given
/// characters, in order.
#[verifier::external_body]
pub fn string_from_chars(v: &Vec<char>) -> (r: String)
    ensures
        r@ == v@,
{
    v.iter().collect()
}

/// The characters of `text` from `a` (inclusive) to `b` (exclusive).
pub fn sub_chars(text: &Vec<char>, a: usize, b: usize) -> (r: Vec<char>)
    requires
        a <= b <= text@.len(),
    ensures
        r@ == text@.subrange(a as int, b as int),
{
    let mut r: Vec<char> = Vec::new();
    let mut i: usize = a;
    while i < b
        invariant
            a <= i <= b <= text@.len(),
            r@ == text@.subrange(a as int, i as int),
        decreases b - i,
    {
        r.push(text[i]);
        proof {
            assert(text@.subrange(a as int, i + 1) =~= text@.subrange(a as int, i as int).push(
                text@[i as int],
            ));
        }
        i = i + 1;
    }
    r
}

/// Does `pat` occur in `text` at position `i`?
pub fn lit_matches_at(text: &Vec<char>, i: usize, pat: &str) -> (b: bool)
    ensures
        b == is_sub_at(text@, pat@, i as int),
{
    let m = pat.unicode_len();
    let n = text.len();
    if i > n || m > n - i {
        return false;
    }
    let mut k: usize = 0;
    while k < m
        invariant
            m == pat@.len(),
            n == text@.len(),
            i + m <= n,
            k <= m,
            forall|j: int| 0 <= j < k ==> text@[i + j] == pat@[j],
        decreases m - k,
    {
        if text[i + k] != pat.get_char(k) {
            proof {
                assert(text@.subrange(i as int, i + m)[k as int] == text@[i + k]);
            }
            return false;
        }
        k = k + 1;
    }
    proof {
        assert(text@.subrange(i as int, i + m) =~= pat@);
    }
    true
}

/// Is `text` exactly the characters of `pat`?
pub fn eq_lit(text: &Vec<char>, pat: &str) -> (b: bool)
    ensures
        b == (text@ == pat@),
{
    if text.len() != pat.unicode_len() {
        return false;
    }
    let r = lit_matches_at(text, 0, pat);
    proof {
        assert(text@.subrange(0, text@.len() as int) =~= text@);
    }
    r
}

/// Are `a` and `b` the same characters?
pub fn str_eq(a: &str, b: &str) -> (r: bool)
    ensures
        r == (a@ == b@),
{
    let n = a.unicode_len();
    if n != b.unicode_len() {
        proof {
            assert(a@ != b@);
        }
        return false;
    }
    let mut i: usize = 0;
    while i < n
        invariant
            n == a@.len() == b@.len(),
            i <= n,
            forall|j: int| 0 <= j < i ==> a@[j] == b@[j],
        decreases n - i,
    {
        if a.get_char(i) != b.get_char(i) {
            return false;
        }
        i = i + 1;
    }
    proof {
        assert(a@ =~= b@);
    }
    true
}

/// Does `pat` occur anywhere in `text`?
pub fn contains_lit(text: &Vec<char>, pat: &str) -> (b: bool)
    ensures
        b == contains_seq(text@, pat@),
{
    let n = text.len();
    let m = pat.unicode_len();
    if m == 0 {
        proof {
            assert(text@.subrange(0, 0) =~= pat@);
            assert(is_sub_at(text@, pat@, 0));
        }
        return true;
    }
    if m > n {
        proof {
            assert(forall|i: int| !is_sub_at(text@, pat@, i));
        }
        return false;
    }
    let mut i: usize = 0;
    while i <= n - m
        invariant
            0 < m == pat@.len(),
            m <= n == text@.len(),
            i <= n - m + 1,
            forall|j: int| 0 <= j < i ==> !is_sub_at(text@, pat@, j),
        decreases n - i,
    {
        if lit_matches_at(text, i, pat) {
            return true;
        }
        i = i + 1;
    }
    proof {
        assert(forall|j: int| is_sub_at(text@, pat@, j) ==> 0 <= j <= n - m);
    }
    false
}

/// Does `pat` occur anywhere in `text` followed directly by a blank?
pub fn contains_lit_spaced(text: &Vec<char>, pat: &str) -> (b: bool)
    ensures
        b == contains_spaced(text@, pat@),
{
    let n = text.len();
    let m = pat.unicode_len();
    if m >= n {
        proof {
            assert(forall|i: int|
                !(is_sub_at(text@, pat@, i) && i + pat@.len() < text@.len() && is_space(
                    text@[i + pat@.len()],
                )));
        }
        return false;
    }
    let mut i: usize = 0;
    while i < n - m
        invariant
            m == pat@.len(),
            m < n == text@.len(),
            i <= n - m,
            forall|j: int|
                0 <= j < i ==> !(is_sub_at(text@, pat@, j) && j + pat@.len() < text@.len()
                    && is_space(text@[j + pat@.len()])),
        decreases n - m - i,
    {
        if lit_matches_at(text, i, pat) && space_char(text[i + m]) {
            return true;
        }
        i = i + 1;
    }
    proof {
        assert(forall|j: int|
            (is_sub_at(text@, pat@, j) && j + pat@.len() < text@.len()) ==> 0 <= j < n - m);
    }
    false
}

/// Appends the characters of `lit` to `out`.
pub fn push_lit(out: &mut Vec<char>, lit: &str)
    ensures
        final(out)@ == old(out)@ + lit@,
{
    let m = lit.unicode_len();
    let mut k: usize = 0;
    while k < m
        invariant
            m == lit@.len(),
            k <= m,
            out@ == old(out)@ + lit@.subrange(0, k as int),
        decreases m - k,
    {
        out.push(lit.get_char(k));
        proof {
            assert(old(out)@ + lit@.subrange(0, k + 1) =~= (old(out)@ + lit@.subrange(
                0,
                k as int,
            )).push(lit@[k as int]));
        }
        k = k + 1;
    }
    proof {
        assert(lit@.subrange(0, m as int) =~= lit@);
    }
}

/// Appends the characters of `s` to `out`.
pub fn push_chars(out: &mut Vec<char>, s: &Vec<char>)
    ensures
        final(out)@ == old(out)@ + s@,
{
    let m = s.len();
    let mut k: usize = 0;
    while k < m
        invariant
            m == s@.len(),
            k <= m,
            out@ == old(out)@ + s@.subrange(0, k as int),
        decreases m - k,
    {
        out.push(s[k]);
        proof {
            assert(old(out)@ + s@.subrange(0, k + 1) =~= (old(out)@ + s@.subrange(0, k as int)).push(
                s@[k as int],
            ));
        }
        k = k + 1;
    }
    proof {
        assert(s@.subrange(0, m as int) =~= s@);
    }
}

/// Appends `s` left-aligned in a field of width `w`.
pub fn push_padded(out: &mut Vec<char>, s: &Vec<char>, w: usize)
    ensures
        final(out)@ == old(out)@ + padded(s@, w as nat),
{
    push_chars(out, s);
    let mut k: usize = s.len();
    if k >= w {
        return ;
    }
    while k < w
        invariant
            s@.len() <= k <= w,
            out@ == old(out)@ + s@ + spaces((k - s@.len()) as nat),
        decreases w - k,
    {
        out.push(' ');
        k = k + 1;
    }
}

/// Appends `n` dashes.
pub fn push_dashes(out: &mut Vec<char>, n: usize)
    ensures
        final(out)@ == old(out)@ + dashes(n as nat),
{
    let mut k: usize = 0;
    while k < n
        invariant
            k <= n,
            out@ == old(out)@ + dashes(k as nat),
        decreases n - k,
    {
        out.push('-');
        k = k + 1;
    }
}

} // verus!
