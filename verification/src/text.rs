//! Text primitives shared by the identifier modules: whitespace
//! normalization, trimming, substring search, case-insensitive comparison,
//! brace escaping and decimal rendering.

use vstd::prelude::*;

use crate::chars::{chars_to_string, str_to_chars};

verus! {

/// The whitespace characters this crate collapses and trims: ASCII
/// whitespace together with the Unicode space separators.
pub open spec fn is_space(c: char) -> bool {
    c == ' ' || c == '\t' || c == '\n' || c == '\r' || c == '\u{b}' || c == '\u{c}'
        || c == '\u{85}' || c == '\u{a0}' || c == '\u{1680}' || ('\u{2000}' <= c && c
        <= '\u{200a}') || c == '\u{2028}' || c == '\u{2029}' || c == '\u{202f}' || c == '\u{205f}'
        || c == '\u{3000}'
}

pub fn space(c: char) -> (r: bool)
    ensures
        r == is_space(c),
{
    c == ' ' || c == '\t' || c == '\n' || c == '\r' || c == '\u{b}' || c == '\u{c}'
        || c == '\u{85}' || c == '\u{a0}' || c == '\u{1680}' || ('\u{2000}' <= c && c
        <= '\u{200a}') || c == '\u{2028}' || c == '\u{2029}' || c == '\u{202f}' || c == '\u{205f}'
        || c == '\u{3000}'
}

/// Whitespace runs collapsed to a single `' '`, other characters kept.
pub open spec fn collapse_ws(s: Seq<char>) -> Seq<char>
    decreases s.len(),
{
    if s.len() == 0 {
        Seq::empty()
    } else {
        let p = collapse_ws(s.drop_last());
        if is_space(s.last()) {
            if p.len() > 0 && p.last() == ' ' {
                p
            } else {
                p.push(' ')
            }
        } else {
            p.push(s.last())
        }
    }
}

pub open spec fn trim_start_sp(s: Seq<char>) -> Seq<char>
    decreases s.len(),
{
    if s.len() > 0 && is_space(s.first()) {
        trim_start_sp(s.drop_first())
    } else {
        s
    }
}

pub open spec fn trim_end_sp(s: Seq<char>) -> Seq<char>
    decreases s.len(),
{
    if s.len() > 0 && is_space(s.last()) {
        trim_end_sp(s.drop_last())
    } else {
        s
    }
}

pub open spec fn trim_sp(s: Seq<char>) -> Seq<char> {
    trim_end_sp(trim_start_sp(s))
}

/// What `normalize_ws` returns: whitespace runs collapsed, ends trimmed.
pub open spec fn spec_normalize_ws(s: Seq<char>) -> Seq<char> {
    trim_sp(collapse_ws(s))
}

pub proof fn lemma_trim_start_index(s: Seq<char>, i: int)
    requires
        0 <= i <= s.len(),
        forall|j: int| 0 <= j < i ==> is_space(s[j]),
        i == s.len() || !is_space(s[i]),
    ensures
        trim_start_sp(s) == s.subrange(i, s.len() as int),
    decreases i,
{
    if i == 0 {
        if s.len() > 0 && is_space(s.first()) {
            assert(false);
        }
        assert(s.subrange(0, s.len() as int) =~= s);
    } else {
        let d = s.drop_first();
        assert(forall|j: int| 0 <= j < i - 1 ==> is_space(d[j]));
        lemma_trim_start_index(d, i - 1);
        assert(d.subrange(i - 1, d.len() as int) =~= s.subrange(i, s.len() as int));
    }
}

pub proof fn lemma_trim_end_index(s: Seq<char>, i: int)
    requires
        0 <= i <= s.len(),
        forall|j: int| i <= j < s.len() ==> is_space(s[j]),
        i == 0 || !is_space(s[i - 1]),
    ensures
        trim_end_sp(s) == s.subrange(0, i),
    decreases s.len() - i,
{
    if i == s.len() {
        if s.len() > 0 && is_space(s.last()) {
            assert(false);
        }
        assert(s.subrange(0, s.len() as int) =~= s);
    } else {
        let d = s.drop_last();
        assert(forall|j: int| i <= j < d.len() ==> is_space(d[j]));
        lemma_trim_end_index(d, i);
        assert(d.subrange(0, i) =~= s.subrange(0, i));
    }
}

/// Trim the whitespace from both ends of a character vector.
pub fn trim_chars(v: &Vec<char>) -> (r: Vec<char>)
    ensures
        r@ == trim_sp(v@),
{
    let n = v.len();
    let mut a: usize = 0;
    while a < n && space(v[a])
        invariant
            0 <= a <= n,
            n == v.len(),
            forall|j: int| 0 <= j < a ==> is_space(v@[j]),
        decreases n - a,
    {
        a += 1;
    }
    proof {
        lemma_trim_start_index(v@, a as int);
    }
    let ghost tail = v@.subrange(a as int, n as int);
    let mut b: usize = n;
    while b > a && space(v[b - 1])
        invariant
            a <= b <= n,
            n == v.len(),
            forall|j: int| b <= j < n ==> is_space(v@[j]),
        decreases b,
    {
        b -= 1;
    }
    proof {
        assert(forall|j: int| b - a <= j < tail.len() ==> is_space(tail[j]));
        if b > a {
            assert(tail[b - a - 1] == v@[b - 1]);
        }
        lemma_trim_end_index(tail, b - a);
    }
    let mut r: Vec<char> = Vec::new();
    let mut i: usize = a;
    while i < b
        invariant
            a <= i <= b <= n,
            n == v.len(),
            r@ == v@.subrange(a as int, i as int),
        decreases b - i,
    {
        r.push(v[i]);
        i += 1;
        proof {
            assert(v@.subrange(a as int, i as int) =~= v@.subrange(a as int, i - 1).push(
                v@[i - 1],
            ));
        }
    }
    proof {
        assert(tail.subrange(0, b - a) =~= v@.subrange(a as int, b as int));
    }
    r
}

/// Trim the whitespace from the start of a character vector only.
pub fn trim_start_chars(v: &Vec<char>) -> (r: Vec<char>)
    ensures
        r@ == trim_start_sp(v@),
{
    let n = v.len();
    let mut a: usize = 0;
    while a < n && space(v[a])
        invariant
            0 <= a <= n,
            n == v.len(),
            forall|j: int| 0 <= j < a ==> is_space(v@[j]),
        decreases n - a,
    {
        a += 1;
    }
    proof {
        lemma_trim_start_index(v@, a as int);
    }
    subvec(v, a, n)
}

/// Collapse whitespace runs to single spaces and trim both ends, as the
/// identifier modules do before comparing or storing free text.
pub fn normalize_chars(v: &Vec<char>) -> (r: Vec<char>)
    ensures
        r@ == spec_normalize_ws(v@),
{
    let mut out: Vec<char> = Vec::new();
    let mut i: usize = 0;
    while i < v.len()
        invariant
            0 <= i <= v.len(),
            out@ == collapse_ws(v@.take(i as int)),
        decreases v.len() - i,
    {
        let c = v[i];
        let prev_space = out.len() > 0 && out[out.len() - 1] == ' ';
        if space(c) {
            if !prev_space {
                out.push(' ');
            }
        } else {
            out.push(c);
        }
        i += 1;
        proof {
            assert(v@.take(i as int).drop_last() =~= v@.take(i - 1));
            assert(v@.take(i as int).last() == v@[i - 1]);
        }
    }
    proof {
        assert(v@.take(v@.len() as int) =~= v@);
    }
    trim_chars(&out)
}

/// Collapse internal whitespace runs to single spaces and trim the ends.
pub fn normalize_ws(s: &str) -> (r: String)
    ensures
        r@ == spec_normalize_ws(s@),
{
    let v = str_to_chars(s);
    let n = normalize_chars(&v);
    chars_to_string(&n)
}

/// Leading characters satisfying `p` removed.
pub open spec fn trim_start_if(s: Seq<char>, p: spec_fn(char) -> bool) -> Seq<char>
    decreases s.len(),
{
    if s.len() > 0 && p(s.first()) {
        trim_start_if(s.drop_first(), p)
    } else {
        s
    }
}

/// Trailing characters satisfying `p` removed.
pub open spec fn trim_end_if(s: Seq<char>, p: spec_fn(char) -> bool) -> Seq<char>
    decreases s.len(),
{
    if s.len() > 0 && p(s.last()) {
        trim_end_if(s.drop_last(), p)
    } else {
        s
    }
}

pub proof fn lemma_trim_start_if_index(s: Seq<char>, p: spec_fn(char) -> bool, i: int)
    requires
        0 <= i <= s.len(),
        forall|j: int| 0 <= j < i ==> p(s[j]),
        i == s.len() || !p(s[i]),
    ensures
        trim_start_if(s, p) == s.subrange(i, s.len() as int),
    decreases i,
{
    if i == 0 {
        if s.len() > 0 && p(s.first()) {
            assert(false);
        }
        assert(s.subrange(0, s.len() as int) =~= s);
    } else {
        let d = s.drop_first();
        assert(forall|j: int| 0 <= j < i - 1 ==> p(d[j]));
        lemma_trim_start_if_index(d, p, i - 1);
        assert(d.subrange(i - 1, d.len() as int) =~= s.subrange(i, s.len() as int));
    }
}

pub proof fn lemma_trim_end_if_index(s: Seq<char>, p: spec_fn(char) -> bool, i: int)
    requires
        0 <= i <= s.len(),
        forall|j: int| i <= j < s.len() ==> p(s[j]),
        i == 0 || !p(s[i - 1]),
    ensures
        trim_end_if(s, p) == s.subrange(0, i),
    decreases s.len() - i,
{
    if i == s.len() {
        if s.len() > 0 && p(s.last()) {
            assert(false);
        }
        assert(s.subrange(0, s.len() as int) =~= s);
    } else {
        let d = s.drop_last();
        assert(forall|j: int| i <= j < d.len() ==> p(d[j]));
        lemma_trim_end_if_index(d, p, i);
        assert(d.subrange(0, i) =~= s.subrange(0, i));
    }
}

/// The views of a sequence of strings.
pub open spec fn sviews(s: Seq<String>) -> Seq<Seq<char>> {
    Seq::new(s.len(), |i: int| s[i]@)
}

/// The pattern `p` occurs in `s` at position `i`.
pub open spec fn occurs_at(s: Seq<char>, p: Seq<char>, i: int) -> bool {
    &&& 0 <= i
    &&& i + p.len() <= s.len()
    &&& forall|j: int| 0 <= j < p.len() ==> s[i + j] == p[j]
}

/// `p` occurs somewhere in `s`.
pub open spec fn contains_seq(s: Seq<char>, p: Seq<char>) -> bool {
    exists|i: int| occurs_at(s, p, i)
}

/// Test whether `pat` occurs in `v` at position `i`.
pub fn matches_at(v: &Vec<char>, pat: &Vec<char>, i: usize) -> (r: bool)
    ensures
        r == occurs_at(v@, pat@, i as int),
{
    if i > v.len() || pat.len() > v.len() - i {
        return false;
    }
    let mut j: usize = 0;
    while j < pat.len()
        invariant
            0 <= j <= pat.len(),
            i + pat.len() <= v.len(),
            forall|k: int| 0 <= k < j ==> v@[i + k] == pat@[k],
        decreases pat.len() - j,
    {
        if v[i + j] != pat[j] {
            return false;
        }
        j += 1;
    }
    true
}

/// Find the first occurrence of `pat` in `v` at or after `from`.
pub fn find_sub_from(v: &Vec<char>, pat: &Vec<char>, from: usize) -> (r: Option<usize>)
    ensures
        match r {
            Some(i) => {
                &&& from <= i
                &&& occurs_at(v@, pat@, i as int)
                &&& forall|k: int| from <= k < i ==> !occurs_at(v@, pat@, k)
            },
            None => forall|k: int| from <= k ==> !occurs_at(v@, pat@, k),
        },
{
    let n = v.len();
    let mut i: usize = from;
    while i < n
        invariant
            from <= i,
            n == v.len(),
            forall|k: int| from <= k < i ==> !occurs_at(v@, pat@, k),
        decreases n - i,
    {
        if matches_at(v, pat, i) {
            return Some(i);
        }
        i += 1;
    }
    if matches_at(v, pat, i) {
        return Some(i);
    }
    assert(forall|k: int| k > v@.len() ==> !occurs_at(v@, pat@, k));
    None
}

/// `a` and `b` hold the same characters.
pub fn eq_chars(a: &Vec<char>, b: &Vec<char>) -> (r: bool)
    ensures
        r == (a@ == b@),
{
    if a.len() != b.len() {
        assert(a@.len() != b@.len());
        return false;
    }
    let mut i: usize = 0;
    while i < a.len()
        invariant
            0 <= i <= a.len(),
            a@.len() == b@.len(),
            forall|j: int| 0 <= j < i ==> a@[j] == b@[j],
        decreases a.len() - i,
    {
        if a[i] != b[i] {
            return false;
        }
        i += 1;
    }
    proof {
        assert(a@ =~= b@);
    }
    true
}

/// ASCII lowercase of one character.
pub open spec fn lower(c: char) -> char {
    if 'A' <= c && c <= 'Z' {
        (c as u8 + 32) as char
    } else {
        c
    }
}

pub fn lower_char(c: char) -> (r: char)
    ensures
        r == lower(c),
{
    if 'A' <= c && c <= 'Z' {
        (c as u8 + 32) as char
    } else {
        c
    }
}

/// ASCII-case-insensitive equality of sequences.
pub open spec fn eq_ci(a: Seq<char>, b: Seq<char>) -> bool {
    a.len() == b.len() && forall|j: int| 0 <= j < a.len() ==> lower(a[j]) == lower(b[j])
}

pub fn eq_chars_ci(a: &Vec<char>, b: &Vec<char>) -> (r: bool)
    ensures
        r == eq_ci(a@, b@),
{
    if a.len() != b.len() {
        return false;
    }
    let mut i: usize = 0;
    while i < a.len()
        invariant
            0 <= i <= a.len(),
            a@.len() == b@.len(),
            forall|j: int| 0 <= j < i ==> lower(a@[j]) == lower(b@[j]),
        decreases a.len() - i,
    {
        if lower_char(a[i]) != lower_char(b[i]) {
            return false;
        }
        i += 1;
    }
    true
}

/// `p` occurs at `i` in `s` up to ASCII case.
pub open spec fn occurs_at_ci(s: Seq<char>, p: Seq<char>, i: int) -> bool {
    &&& 0 <= i
    &&& i + p.len() <= s.len()
    &&& forall|j: int| 0 <= j < p.len() ==> lower(s[i + j]) == lower(p[j])
}

pub fn matches_at_ci(v: &Vec<char>, pat: &Vec<char>, i: usize) -> (r: bool)
    ensures
        r == occurs_at_ci(v@, pat@, i as int),
{
    if i > v.len() || pat.len() > v.len() - i {
        return false;
    }
    let mut j: usize = 0;
    while j < pat.len()
        invariant
            0 <= j <= pat.len(),
            i + pat.len() <= v.len(),
            forall|k: int| 0 <= k < j ==> lower(v@[i + k]) == lower(pat@[k]),
        decreases pat.len() - j,
    {
        if lower_char(v[i + j]) != lower_char(pat[j]) {
            return false;
        }
        j += 1;
    }
    true
}

/// Copy `v[a..b]` out as a fresh vector.
pub fn subvec(v: &Vec<char>, a: usize, b: usize) -> (r: Vec<char>)
    requires
        a <= b <= v@.len(),
    ensures
        r@ == v@.subrange(a as int, b as int),
{
    let mut r: Vec<char> = Vec::new();
    let mut i: usize = a;
    while i < b
        invariant
            a <= i <= b <= v@.len(),
            r@ == v@.subrange(a as int, i as int),
        decreases b - i,
    {
        r.push(v[i]);
        i += 1;
        proof {
            assert(v@.subrange(a as int, i as int) =~= v@.subrange(a as int, i - 1).push(
                v@[i - 1],
            ));
        }
    }
    r
}

/// Append `v[a..b]` to `out`.
pub fn append_range(out: &mut Vec<char>, v: &Vec<char>, a: usize, b: usize)
    requires
        a <= b <= v@.len(),
    ensures
        final(out)@ == old(out)@ + v@.subrange(a as int, b as int),
{
    let mut i: usize = a;
    while i < b
        invariant
            a <= i <= b <= v@.len(),
            out@ == old(out)@ + v@.subrange(a as int, i as int),
        decreases b - i,
    {
        out.push(v[i]);
        i += 1;
        proof {
            assert(old(out)@ + v@.subrange(a as int, i as int) =~= (old(out)@ + v@.subrange(
                a as int,
                i - 1,
            )).push(v@[i - 1]));
        }
    }
    proof {
        assert(out@ =~= old(out)@ + v@.subrange(a as int, b as int));
    }
}

/// Append all of `v` to `out`.
pub fn append_all(out: &mut Vec<char>, v: &Vec<char>)
    ensures
        final(out)@ == old(out)@ + v@,
{
    append_range(out, v, 0, v.len());
    proof {
        assert(v@.subrange(0, v@.len() as int) =~= v@);
    }
}

/// `{` and `}` escaped as `\{` and `\}`, as BibLaTeX field values require.
pub open spec fn esc_braces(s: Seq<char>) -> Seq<char>
    decreases s.len(),
{
    if s.len() == 0 {
        Seq::empty()
    } else {
        let p = esc_braces(s.drop_last());
        if s.last() == '{' {
            p.push('\\').push('{')
        } else if s.last() == '}' {
            p.push('\\').push('}')
        } else {
            p.push(s.last())
        }
    }
}

pub fn escape_braces_chars(v: &Vec<char>) -> (r: Vec<char>)
    ensures
        r@ == esc_braces(v@),
{
    let mut out: Vec<char> = Vec::new();
    let mut i: usize = 0;
    while i < v.len()
        invariant
            0 <= i <= v.len(),
            out@ == esc_braces(v@.take(i as int)),
        decreases v.len() - i,
    {
        let c = v[i];
        if c == '{' {
            out.push('\\');
            out.push('{');
        } else if c == '}' {
            out.push('\\');
            out.push('}');
        } else {
            out.push(c);
        }
        i += 1;
        proof {
            assert(v@.take(i as int).drop_last() =~= v@.take(i - 1));
            assert(v@.take(i as int).last() == v@[i - 1]);
        }
    }
    proof {
        assert(v@.take(v@.len() as int) =~= v@);
    }
    out
}

/// Escape `{` and `}` in a field value.
pub fn escape_braces(s: &str) -> (r: String)
    ensures
        r@ == esc_braces(s@),
{
    let v = str_to_chars(s);
    let e = escape_braces_chars(&v);
    chars_to_string(&e)
}

/// The UTF-8 encoded width of one character: one byte below `0x80`, two
/// below `0x800`, three below `0x10000`, four otherwise.
pub open spec fn utf8_len(c: char) -> int {
    if '\u{7f}' >= c {
        1
    } else if '\u{7ff}' >= c {
        2
    } else if '\u{ffff}' >= c {
        3
    } else {
        4
    }
}

/// The UTF-8 encoded length of a text.
pub open spec fn byte_len(s: Seq<char>) -> int
    decreases s.len(),
{
    if s.len() == 0 {
        0
    } else {
        byte_len(s.drop_last()) + utf8_len(s.last())
    }
}

/// Compute the UTF-8 encoded length of a character vector.
pub fn byte_len_chars(v: &Vec<char>) -> (r: u128)
    ensures
        r == byte_len(v@),
        r <= 4 * v@.len(),
{
    let n = v.len();
    let mut r: u128 = 0;
    let mut i: usize = 0;
    while i < n
        invariant
            0 <= i <= n,
            n == v@.len(),
            r == byte_len(v@.take(i as int)),
            r <= 4 * i,
        decreases n - i,
    {
        let c = v[i];
        let w: u128 = if '\u{7f}' >= c {
            1
        } else if '\u{7ff}' >= c {
            2
        } else if '\u{ffff}' >= c {
            3
        } else {
            4
        };
        r = r + w;
        i += 1;
        proof {
            assert(v@.take(i as int).drop_last() =~= v@.take(i - 1));
            assert(v@.take(i as int).last() == v@[i - 1]);
        }
    }
    proof {
        assert(v@.take(v@.len() as int) =~= v@);
    }
    r
}

/// The decimal digits of `n`, most significant first.
pub open spec fn dec_str(n: nat) -> Seq<char>
    decreases n,
{
    if n < 10 {
        seq![digit_char(n)]
    } else {
        dec_str(n / 10).push(digit_char(n % 10))
    }
}

pub open spec fn digit_char(n: nat) -> char {
    if n == 0 {
        '0'
    } else if n == 1 {
        '1'
    } else if n == 2 {
        '2'
    } else if n == 3 {
        '3'
    } else if n == 4 {
        '4'
    } else if n == 5 {
        '5'
    } else if n == 6 {
        '6'
    } else if n == 7 {
        '7'
    } else if n == 8 {
        '8'
    } else {
        '9'
    }
}

fn digit_char_of(n: u64) -> (r: char)
    requires
        n < 10,
    ensures
        r == digit_char(n as nat),
{
    if n == 0 {
        '0'
    } else if n == 1 {
        '1'
    } else if n == 2 {
        '2'
    } else if n == 3 {
        '3'
    } else if n == 4 {
        '4'
    } else if n == 5 {
        '5'
    } else if n == 6 {
        '6'
    } else if n == 7 {
        '7'
    } else if n == 8 {
        '8'
    } else {
        '9'
    }
}

pub fn digit_char_of_u32(n: u32) -> (r: char)
    requires
        n < 10,
    ensures
        r == digit_char(n as nat),
{
    if n == 0 {
        '0'
    } else if n == 1 {
        '1'
    } else if n == 2 {
        '2'
    } else if n == 3 {
        '3'
    } else if n == 4 {
        '4'
    } else if n == 5 {
        '5'
    } else if n == 6 {
        '6'
    } else if n == 7 {
        '7'
    } else if n == 8 {
        '8'
    } else {
        '9'
    }
}

/// Render `n` in decimal.
pub fn u64_to_chars(n: u64) -> (r: Vec<char>)
    ensures
        r@ == dec_str(n as nat),
    decreases n,
{
    if n < 10 {
        let mut r: Vec<char> = Vec::new();
        r.push(digit_char_of(n));
        proof {
            assert(r@ =~= seq![digit_char(n as nat)]);
        }
        r
    } else {
        let mut r = u64_to_chars(n / 10);
        r.push(digit_char_of(n % 10));
        r
    }
}

/// Render `n` in decimal as a `String`.
pub fn u64_to_string(n: u64) -> (r: String)
    ensures
        r@ == dec_str(n as nat),
{
    let v = u64_to_chars(n);
    chars_to_string(&v)
}

} // verus!
