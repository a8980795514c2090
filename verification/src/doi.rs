//! The DOI identifier family: recognizing a DOI anywhere in a piece of
//! text, and building the registrar URL for it.
//!
//! A DOI is a substring `10.<4-9 digits>/<suffix>` whose suffix is drawn
//! from `[-._;()/:A-Za-z0-9]` and ends on a word boundary.  Recognition
//! first strips a `doi:`/`URN:DOI:` label, drops a query string or
//! fragment, and trims trailing prose punctuation; it then takes the
//! leftmost such substring.

use vstd::prelude::*;
use vstd::string::StringExecFns;

use crate::chars::{chars_to_string, is_alnum, is_digit, is_word, str_to_chars};
use crate::text::{
    digit_char, is_space, lemma_trim_start_index, matches_at, occurs_at, subvec, trim_chars,
    trim_end_sp, trim_start_chars, trim_start_sp, trim_sp,
};

verus! {

/// A recognized DOI, split into its registrant prefix and its suffix.
pub struct Doi {
    pub prefix: String,
    pub suffix: String,
}

/// The characters allowed in a DOI suffix.
pub open spec fn is_sclass(c: char) -> bool {
    is_alnum(c) || c == '-' || c == '.' || c == '_' || c == ';' || c == '(' || c == ')' || c == '/'
        || c == ':'
}

pub fn sclass(c: char) -> (r: bool)
    ensures
        r == is_sclass(c),
{
    crate::chars::alnum(c) || c == '-' || c == '.' || c == '_' || c == ';' || c == '(' || c == ')'
        || c == '/' || c == ':'
}

/// Trailing prose punctuation trimmed before searching for a DOI.
pub open spec fn is_prose_punct(c: char) -> bool {
    c == '.' || c == ',' || c == ';' || c == ':' || c == ')' || c == ']' || c == '}' || c == '"'
        || c == '\''
}

pub fn prose_punct(c: char) -> (r: bool)
    ensures
        r == is_prose_punct(c),
{
    c == '.' || c == ',' || c == ';' || c == ':' || c == ')' || c == ']' || c == '}' || c == '"'
        || c == '\''
}

// ------------------------------------------------------------------
// Preprocessing: label stripping, query/fragment cut, punctuation trim
// ------------------------------------------------------------------

pub open spec fn lit_doi_lower() -> Seq<char> {
    seq!['d', 'o', 'i', ':']
}

pub open spec fn lit_doi_upper() -> Seq<char> {
    seq!['D', 'O', 'I', ':']
}

pub open spec fn lit_urn_lower() -> Seq<char> {
    seq!['u', 'r', 'n', ':', 'd', 'o', 'i', ':']
}

pub open spec fn lit_urn_upper() -> Seq<char> {
    seq!['U', 'R', 'N', ':', 'D', 'O', 'I', ':']
}

/// One textual label (`doi:`, `DOI:`, `urn:doi:`, `URN:DOI:`) stripped
/// from the front, with any whitespace after it.
pub open spec fn strip_label(s: Seq<char>) -> Seq<char> {
    if occurs_at(s, lit_doi_lower(), 0) {
        trim_start_sp(s.skip(4))
    } else if occurs_at(s, lit_doi_upper(), 0) {
        trim_start_sp(s.skip(4))
    } else if occurs_at(s, lit_urn_lower(), 0) {
        trim_start_sp(s.skip(8))
    } else if occurs_at(s, lit_urn_upper(), 0) {
        trim_start_sp(s.skip(8))
    } else {
        s
    }
}

/// Everything before the first `?` or `#`.
pub open spec fn cut_qf(s: Seq<char>) -> Seq<char>
    decreases s.len(),
{
    if s.len() == 0 {
        s
    } else if s.first() == '?' || s.first() == '#' {
        Seq::empty()
    } else {
        seq![s.first()] + cut_qf(s.drop_first())
    }
}

pub proof fn lemma_cut_qf_index(s: Seq<char>, i: int)
    requires
        0 <= i <= s.len(),
        forall|j: int| 0 <= j < i ==> s[j] != '?' && s[j] != '#',
        i == s.len() || s[i] == '?' || s[i] == '#',
    ensures
        cut_qf(s) == s.take(i),
    decreases i,
{
    if s.len() == 0 {
        assert(s.take(0) =~= s);
    } else if s.first() == '?' || s.first() == '#' {
        assert(i == 0);
        assert(s.take(0) =~= Seq::<char>::empty());
    } else {
        assert(i >= 1);
        let d = s.drop_first();
        assert(forall|j: int| 0 <= j < i - 1 ==> d[j] != '?' && d[j] != '#');
        lemma_cut_qf_index(d, i - 1);
        assert(seq![s.first()] + d.take(i - 1) =~= s.take(i));
    }
}

/// Trailing prose punctuation removed.
pub open spec fn trim_end_punct(s: Seq<char>) -> Seq<char>
    decreases s.len(),
{
    if s.len() > 0 && is_prose_punct(s.last()) {
        trim_end_punct(s.drop_last())
    } else {
        s
    }
}

proof fn lemma_trim_end_punct_index(s: Seq<char>, i: int)
    requires
        0 <= i <= s.len(),
        forall|j: int| i <= j < s.len() ==> is_prose_punct(s[j]),
        i == 0 || !is_prose_punct(s[i - 1]),
    ensures
        trim_end_punct(s) == s.subrange(0, i),
    decreases s.len() - i,
{
    if i == s.len() {
        if s.len() > 0 && is_prose_punct(s.last()) {
            assert(false);
        }
        assert(s.subrange(0, s.len() as int) =~= s);
    } else {
        let d = s.drop_last();
        assert(forall|j: int| i <= j < d.len() ==> is_prose_punct(d[j]));
        lemma_trim_end_punct_index(d, i);
        assert(d.subrange(0, i) =~= s.subrange(0, i));
    }
}

/// The text actually searched for a DOI: trimmed, label stripped, query
/// and fragment dropped, trailing punctuation removed.
pub open spec fn doi_preprocess(s: Seq<char>) -> Seq<char> {
    trim_end_punct(cut_qf(strip_label(trim_sp(s))))
}

fn lit_vec_doi_lower() -> (r: Vec<char>)
    ensures
        r@ == lit_doi_lower(),
{
    let mut r: Vec<char> = Vec::new();
    r.push('d');
    r.push('o');
    r.push('i');
    r.push(':');
    proof {
        assert(r@ =~= lit_doi_lower());
    }
    r
}

fn lit_vec_doi_upper() -> (r: Vec<char>)
    ensures
        r@ == lit_doi_upper(),
{
    let mut r: Vec<char> = Vec::new();
    r.push('D');
    r.push('O');
    r.push('I');
    r.push(':');
    proof {
        assert(r@ =~= lit_doi_upper());
    }
    r
}

fn lit_vec_urn_lower() -> (r: Vec<char>)
    ensures
        r@ == lit_urn_lower(),
{
    let mut r: Vec<char> = Vec::new();
    r.push('u');
    r.push('r');
    r.push('n');
    r.push(':');
    r.push('d');
    r.push('o');
    r.push('i');
    r.push(':');
    proof {
        assert(r@ =~= lit_urn_lower());
    }
    r
}

fn lit_vec_urn_upper() -> (r: Vec<char>)
    ensures
        r@ == lit_urn_upper(),
{
    let mut r: Vec<char> = Vec::new();
    r.push('U');
    r.push('R');
    r.push('N');
    r.push(':');
    r.push('D');
    r.push('O');
    r.push('I');
    r.push(':');
    proof {
        assert(r@ =~= lit_urn_upper());
    }
    r
}

/// Apply the preprocessing pipeline to a character vector.
pub fn preprocess_chars(v: &Vec<char>) -> (r: Vec<char>)
    ensures
        r@ == doi_preprocess(v@),
{
    let t = trim_chars(v);
    let stripped: Vec<char>;
    if matches_at(&t, &lit_vec_doi_lower(), 0) {
        let rest = subvec(&t, 4, t.len());
        proof {
            assert(rest@ =~= t@.skip(4));
        }
        stripped = trim_start_chars(&rest);
    } else if matches_at(&t, &lit_vec_doi_upper(), 0) {
        let rest = subvec(&t, 4, t.len());
        proof {
            assert(rest@ =~= t@.skip(4));
        }
        stripped = trim_start_chars(&rest);
    } else if matches_at(&t, &lit_vec_urn_lower(), 0) {
        let rest = subvec(&t, 8, t.len());
        proof {
            assert(rest@ =~= t@.skip(8));
        }
        stripped = trim_start_chars(&rest);
    } else if matches_at(&t, &lit_vec_urn_upper(), 0) {
        let rest = subvec(&t, 8, t.len());
        proof {
            assert(rest@ =~= t@.skip(8));
        }
        stripped = trim_start_chars(&rest);
    } else {
        stripped = t;
    }
    let mut q: usize = 0;
    while q < stripped.len() && stripped[q] != '?' && stripped[q] != '#'
        invariant
            0 <= q <= stripped.len(),
            forall|j: int| 0 <= j < q ==> stripped@[j] != '?' && stripped@[j] != '#',
        decreases stripped.len() - q,
    {
        q += 1;
    }
    proof {
        lemma_cut_qf_index(stripped@, q as int);
    }
    let cut = subvec(&stripped, 0, q);
    proof {
        assert(cut@ =~= stripped@.take(q as int));
    }
    let mut b: usize = cut.len();
    while b > 0 && prose_punct(cut[b - 1])
        invariant
            0 <= b <= cut.len(),
            forall|j: int| b <= j < cut.len() ==> is_prose_punct(cut@[j]),
        decreases b,
    {
        b -= 1;
    }
    proof {
        lemma_trim_end_punct_index(cut@, b as int);
    }
    subvec(&cut, 0, b)
}

// ------------------------------------------------------------------
// The search itself
// ------------------------------------------------------------------

/// Length of the run of decimal digits starting at `i`.
pub open spec fn digit_run(s: Seq<char>, i: int) -> int
    decreases s.len() - i when 0 <= i <= s.len()
{
    if 0 <= i < s.len() && is_digit(s[i]) {
        1 + digit_run(s, i + 1)
    } else {
        0
    }
}

/// Length of the run of suffix-class characters starting at `i`.
pub open spec fn sclass_run(s: Seq<char>, i: int) -> int
    decreases s.len() - i when 0 <= i <= s.len()
{
    if 0 <= i < s.len() && is_sclass(s[i]) {
        1 + sclass_run(s, i + 1)
    } else {
        0
    }
}

/// There is a word boundary right after `base + k`: the last suffix
/// character and the character after it differ in wordness.
pub open spec fn end_boundary(s: Seq<char>, base: int, k: int) -> bool {
    is_word(s[base + k - 1]) != (base + k < s.len() && is_word(s[base + k]))
}

/// The longest suffix length `k' <= k` ending on a word boundary, 0 when
/// there is none.
pub open spec fn back_k(s: Seq<char>, base: int, k: int) -> int
    decreases k when k >= 0
{
    if k <= 0 {
        0
    } else if end_boundary(s, base, k) {
        k
    } else {
        back_k(s, base, k - 1)
    }
}

/// Position `i` opens a DOI candidate: a word boundary, then `10.`.
pub open spec fn doi_start_ok(s: Seq<char>, i: int) -> bool {
    &&& 0 <= i
    &&& i + 3 <= s.len()
    &&& (i == 0 || !is_word(s[i - 1]))
    &&& s[i] == '1'
    &&& s[i + 1] == '0'
    &&& s[i + 2] == '.'
}

/// A full DOI match begins at `i`.
pub open spec fn doi_here(s: Seq<char>, i: int) -> bool {
    let d = digit_run(s, i + 3);
    &&& doi_start_ok(s, i)
    &&& 4 <= d <= 9
    &&& i + 3 + d < s.len()
    &&& s[i + 3 + d] == '/'
    &&& back_k(s, i + 4 + d, sclass_run(s, i + 4 + d)) >= 1
}

/// The `(prefix, suffix)` pair extracted from the match at `i`.
pub open spec fn doi_extract(s: Seq<char>, i: int) -> (Seq<char>, Seq<char>) {
    let d = digit_run(s, i + 3);
    let k = back_k(s, i + 4 + d, sclass_run(s, i + 4 + d));
    (s.subrange(i, i + 3 + d), s.subrange(i + 4 + d, i + 4 + d + k))
}

/// Scan left to right from `i` for the first DOI match.
pub open spec fn doi_scan(s: Seq<char>, i: int) -> Option<(Seq<char>, Seq<char>)>
    decreases s.len() - i when 0 <= i
{
    if i >= s.len() {
        None
    } else if doi_here(s, i) {
        Some(doi_extract(s, i))
    } else {
        doi_scan(s, i + 1)
    }
}

/// What DOI recognition returns on a raw identifier.
pub open spec fn spec_doi_parse(s: Seq<char>) -> Option<(Seq<char>, Seq<char>)> {
    doi_scan(doi_preprocess(s), 0)
}

proof fn lemma_digit_run_exact(s: Seq<char>, i: int, n: int)
    requires
        0 <= i,
        i + n <= s.len(),
        0 <= n,
        forall|j: int| i <= j < i + n ==> is_digit(s[j]),
        i + n == s.len() || !is_digit(s[i + n]),
    ensures
        digit_run(s, i) == n,
    decreases n,
{
    if n == 0 {
    } else {
        lemma_digit_run_exact(s, i + 1, n - 1);
    }
}

proof fn lemma_sclass_run_exact(s: Seq<char>, i: int, n: int)
    requires
        0 <= i,
        i + n <= s.len(),
        0 <= n,
        forall|j: int| i <= j < i + n ==> is_sclass(s[j]),
        i + n == s.len() || !is_sclass(s[i + n]),
    ensures
        sclass_run(s, i) == n,
    decreases n,
{
    if n == 0 {
    } else {
        lemma_sclass_run_exact(s, i + 1, n - 1);
    }
}

/// Count the digit run starting at `i`.
pub fn run_digits(v: &Vec<char>, i: usize) -> (n: usize)
    requires
        i <= v@.len(),
    ensures
        i + n <= v@.len(),
        n == digit_run(v@, i as int),
{
    let mut j: usize = i;
    while j < v.len() && crate::chars::digit(v[j])
        invariant
            i <= j <= v@.len(),
            forall|m: int| i <= m < j ==> is_digit(v@[m]),
        decreases v.len() - j,
    {
        j += 1;
    }
    proof {
        lemma_digit_run_exact(v@, i as int, j - i);
    }
    j - i
}

/// Count the suffix-class run starting at `i`.
pub fn run_sclass(v: &Vec<char>, i: usize) -> (n: usize)
    requires
        i <= v@.len(),
    ensures
        i + n <= v@.len(),
        n == sclass_run(v@, i as int),
{
    let mut j: usize = i;
    while j < v.len() && sclass(v[j])
        invariant
            i <= j <= v@.len(),
            forall|m: int| i <= m < j ==> is_sclass(v@[m]),
        decreases v.len() - j,
    {
        j += 1;
    }
    proof {
        lemma_sclass_run_exact(v@, i as int, j - i);
    }
    j - i
}

/// Find the longest suffix length ending on a word boundary.
fn find_back_k(v: &Vec<char>, base: usize, m: usize) -> (k: usize)
    requires
        base + m <= v@.len(),
        base >= 1,
    ensures
        k == back_k(v@, base as int, m as int),
        k <= m,
{
    let n = v.len();
    let mut k: usize = m;
    while k > 0
        invariant
            0 <= k <= m,
            base + m <= n,
            n == v@.len(),
            back_k(v@, base as int, m as int) == back_k(v@, base as int, k as int),
        decreases k,
    {
        let last_word = crate::chars::word(v[base + k - 1]);
        let next_word = base + k < n && crate::chars::word(v[base + k]);
        if last_word != next_word {
            return k;
        }
        k -= 1;
    }
    k
}

/// Search `v` for the leftmost DOI match, returning the prefix and suffix.
pub fn scan_doi_chars(v: &Vec<char>) -> (r: Option<(Vec<char>, Vec<char>)>)
    ensures
        match r {
            Some(pair) => doi_scan(v@, 0) == Some((pair.0@, pair.1@)),
            None => doi_scan(v@, 0) is None,
        },
{
    let n = v.len();
    let mut i: usize = 0;
    while i < n
        invariant
            0 <= i <= n,
            n == v@.len(),
            doi_scan(v@, 0) == doi_scan(v@, i as int),
        decreases n - i,
    {
        let ghost s = v@;
        let start_ok = (i == 0 || !crate::chars::word(v[i - 1])) && n - i >= 3 && v[i] == '1'
            && v[i + 1] == '0' && v[i + 2] == '.';
        if start_ok {
            let d = run_digits(v, i + 3);
            if 4 <= d && d <= 9 && i + 3 + d < n && v[i + 3 + d] == '/' {
                let base = i + 4 + d;
                let m = run_sclass(v, base);
                let k = find_back_k(v, base, m);
                if k >= 1 {
                    assert(doi_here(s, i as int));
                    let prefix = subvec(v, i, i + 3 + d);
                    let suffix = subvec(v, base, base + k);
                    proof {
                        assert(doi_scan(s, i as int) == Some(doi_extract(s, i as int)));
                    }
                    return Some((prefix, suffix));
                } else {
                    assert(!doi_here(s, i as int));
                }
            } else {
                assert(!doi_here(s, i as int));
            }
        } else {
            assert(!doi_start_ok(s, i as int));
            assert(!doi_here(s, i as int));
        }
        i += 1;
    }
    None
}

// ------------------------------------------------------------------
// Laws of DOI recognition
// ------------------------------------------------------------------

/// A well-formed DOI registrant prefix: `10.` then four to nine digits.
pub open spec fn valid_doi_prefix(p: Seq<char>) -> bool {
    &&& 7 <= p.len() <= 12
    &&& p[0] == '1'
    &&& p[1] == '0'
    &&& p[2] == '.'
    &&& forall|j: int| 3 <= j < p.len() ==> is_digit(p[j])
}

/// A well-formed DOI suffix: suffix-class characters ending alphanumeric.
pub open spec fn valid_doi_suffix(x: Seq<char>) -> bool {
    &&& 1 <= x.len()
    &&& forall|j: int| 0 <= j < x.len() ==> is_sclass(x[j])
    &&& is_alnum(x.last())
}

proof fn lemma_scan_range(s: Seq<char>, j: int, i: int)
    requires
        0 <= j <= i <= s.len(),
        forall|m: int| j <= m < i ==> !doi_here(s, m),
    ensures
        doi_scan(s, j) == doi_scan(s, i),
    decreases i - j,
{
    if j < i {
        lemma_scan_range(s, j + 1, i);
    }
}

/// Given text with DOI-shaped substrings, recognition returns the first
/// one, left to right: if a match begins at `i` and none begins earlier,
/// the scan extracts the match at `i`.
pub proof fn lemma_doi_first_match(s: Seq<char>, i: int)
    requires
        0 <= i < s.len(),
        doi_here(s, i),
        forall|m: int| 0 <= m < i ==> !doi_here(s, m),
    ensures
        doi_scan(s, 0) == Some(doi_extract(s, i)),
{
    lemma_scan_range(s, 0, i);
}

/// A well-formed DOI planted at `i`, bounded by a word boundary before and
/// no suffix character after, is the match the scanner sees at `i`.
pub proof fn lemma_doi_here_at(s: Seq<char>, i: int, p: Seq<char>, x: Seq<char>)
    requires
        valid_doi_prefix(p),
        valid_doi_suffix(x),
        0 <= i,
        i + p.len() + 1 + x.len() <= s.len(),
        forall|j: int| 0 <= j < p.len() ==> s[i + j] == p[j],
        s[i + p.len()] == '/',
        forall|j: int| 0 <= j < x.len() ==> s[i + p.len() + 1 + j] == x[j],
        i == 0 || !is_word(s[i - 1]),
        i + p.len() + 1 + x.len() == s.len() || !is_sclass(s[i + p.len() + 1 + x.len()]),
    ensures
        doi_here(s, i),
        doi_extract(s, i) == (p, x),
{
    let d = p.len() - 3;
    assert forall|j: int| i + 3 <= j < i + 3 + d implies is_digit(s[j]) by {
        assert(s[j] == p[j - i]);
    }
    assert(s[i + 3 + d] == '/');
    lemma_digit_run_exact(s, i + 3, d);
    let base = i + 4 + d;
    assert forall|j: int| base <= j < base + x.len() implies is_sclass(s[j]) by {
        assert(s[j] == x[j - base]);
    }
    lemma_sclass_run_exact(s, base, x.len() as int);
    let m = x.len() as int;
    assert(s[base + m - 1] == x.last());
    assert(is_word(s[base + m - 1]));
    if base + m < s.len() {
        assert(!is_sclass(s[base + m]));
        assert(!is_word(s[base + m]));
    }
    assert(end_boundary(s, base, m));
    assert(back_k(s, base, m) == m);
    assert(doi_here(s, i));
    assert(s.subrange(i, i + 3 + d) =~= p);
    assert(s.subrange(base, base + m) =~= x);
}

/// Text that never needs preprocessing (no surrounding whitespace, label,
/// query, fragment or trailing punctuation) is searched as it is.
pub proof fn lemma_preprocess_plain(s: Seq<char>)
    requires
        s.len() > 0,
        !is_space(s[0]),
        !is_space(s.last()),
        !is_prose_punct(s.last()),
        forall|j: int| 0 <= j < s.len() ==> s[j] != '?' && s[j] != '#',
        s[0] != 'd' && s[0] != 'D' && s[0] != 'u' && s[0] != 'U',
    ensures
        doi_preprocess(s) == s,
{
    assert(trim_start_sp(s) == s);
    assert(trim_end_sp(s) == s);
    assert(!occurs_at(s, lit_doi_lower(), 0)) by {
        assert(lit_doi_lower()[0] == 'd');
    }
    assert(!occurs_at(s, lit_doi_upper(), 0)) by {
        assert(lit_doi_upper()[0] == 'D');
    }
    assert(!occurs_at(s, lit_urn_lower(), 0)) by {
        assert(lit_urn_lower()[0] == 'u');
    }
    assert(!occurs_at(s, lit_urn_upper(), 0)) by {
        assert(lit_urn_upper()[0] == 'U');
    }
    lemma_cut_qf_index(s, s.len() as int);
    assert(s.take(s.len() as int) =~= s);
    assert(trim_end_punct(s) == s);
}

/// A syntactically valid DOI standing alone is recognized exactly: the
/// extracted prefix and suffix are the planted ones.
pub proof fn lemma_doi_core_recognized(p: Seq<char>, x: Seq<char>)
    requires
        valid_doi_prefix(p),
        valid_doi_suffix(x),
    ensures
        spec_doi_parse(p + seq!['/'] + x) == Some((p, x)),
{
    let t = p + seq!['/'] + x;
    assert(t[0] == p[0]);
    assert(t.last() == x.last());
    assert(forall|j: int| 0 <= j < p.len() ==> t[j] == p[j]);
    assert(t[p.len() as int] == '/');
    assert(forall|j: int| 0 <= j < x.len() ==> t[p.len() + 1 + j] == x[j]);
    assert(forall|j: int| 0 <= j < t.len() ==> is_sclass(t[j]) || t[j] == '/') by {
        assert(forall|j: int| 0 <= j < t.len() ==> t[j] == p[j] || t[j] == '/' || t[j] == x[j - p.len() - 1]);
    }
    assert(forall|j: int| 0 <= j < t.len() ==> t[j] != '?' && t[j] != '#');
    lemma_preprocess_plain(t);
    lemma_doi_here_at(t, 0, p, x);
    lemma_doi_first_match(t, 0);
}

/// A valid DOI behind one of the textual labels `doi:`, `DOI:`,
/// `urn:doi:`, `URN:DOI:` and optional whitespace is recognized exactly.
#[verifier::rlimit(100)]
pub proof fn lemma_doi_labeled_recognized(lab: Seq<char>, ws: Seq<char>, p: Seq<char>, x: Seq<char>)
    requires
        lab == lit_doi_lower() || lab == lit_doi_upper() || lab == lit_urn_lower() || lab
            == lit_urn_upper(),
        forall|j: int| 0 <= j < ws.len() ==> is_space(ws[j]),
        valid_doi_prefix(p),
        valid_doi_suffix(x),
    ensures
        spec_doi_parse(lab + ws + (p + seq!['/'] + x)) == Some((p, x)),
{
    let t = p + seq!['/'] + x;
    let s = lab + ws + t;
    assert(s.last() == x.last());
    assert(s[0] == lab[0]);
    assert(trim_start_sp(s) == s);
    assert(trim_end_sp(s) == s);
    let rest = ws + t;
    if lab == lit_doi_lower() {
        assert(occurs_at(s, lit_doi_lower(), 0));
        assert(s.skip(4) =~= rest);
        assert(strip_label(s) == trim_start_sp(rest));
    } else if lab == lit_doi_upper() {
        assert(!occurs_at(s, lit_doi_lower(), 0)) by {
            assert(s[0] == 'D');
        }
        assert(occurs_at(s, lit_doi_upper(), 0));
        assert(s.skip(4) =~= rest);
        assert(strip_label(s) == trim_start_sp(rest));
    } else if lab == lit_urn_lower() {
        assert(!occurs_at(s, lit_doi_lower(), 0)) by {
            assert(s[0] == 'u');
        }
        assert(!occurs_at(s, lit_doi_upper(), 0)) by {
            assert(s[0] == 'u');
        }
        assert(occurs_at(s, lit_urn_lower(), 0));
        assert(s.skip(8) =~= rest);
        assert(strip_label(s) == trim_start_sp(rest));
    } else {
        assert(!occurs_at(s, lit_doi_lower(), 0)) by {
            assert(s[0] == 'U');
        }
        assert(!occurs_at(s, lit_doi_upper(), 0)) by {
            assert(s[0] == 'U');
        }
        assert(!occurs_at(s, lit_urn_lower(), 0)) by {
            assert(s[0] == 'U');
        }
        assert(occurs_at(s, lit_urn_upper(), 0));
        assert(s.skip(8) =~= rest);
        assert(strip_label(s) == trim_start_sp(rest));
    }
    assert(forall|j: int| 0 <= j < ws.len() ==> is_space(rest[j]));
    assert(rest[ws.len() as int] == t[0]);
    assert(!is_space(rest[ws.len() as int]));
    lemma_trim_start_index(rest, ws.len() as int);
    assert(rest.subrange(ws.len() as int, rest.len() as int) =~= t);
    assert(strip_label(s) == t);
    assert(forall|j: int| 0 <= j < t.len() ==> t[j] == p[j] || t[j] == '/' || t[j] == x[j - p.len() - 1]);
    assert(forall|j: int| 0 <= j < t.len() ==> t[j] != '?' && t[j] != '#');
    lemma_cut_qf_index(t, t.len() as int);
    assert(t.take(t.len() as int) =~= t);
    assert(trim_end_punct(t) == t);
    assert(doi_preprocess(s) == t);
    lemma_doi_here_at(t, 0, p, x);
    lemma_doi_first_match(t, 0);
}

/// The sixteen characters of `https://doi.org/`.
pub open spec fn lit_doi_org_url() -> Seq<char> {
    seq!['h', 't', 't', 'p', 's', ':', '/', '/', 'd', 'o', 'i', '.', 'o', 'r', 'g', '/']
}

/// A valid DOI wrapped in its `https://doi.org/` URL is recognized
/// exactly.
pub proof fn lemma_doi_url_recognized(p: Seq<char>, x: Seq<char>)
    requires
        valid_doi_prefix(p),
        valid_doi_suffix(x),
    ensures
        spec_doi_parse(lit_doi_org_url() + (p + seq!['/'] + x)) == Some((p, x)),
{
    let t = p + seq!['/'] + x;
    let u = lit_doi_org_url();
    let s = u + t;
    assert(s[0] == 'h');
    assert(s.last() == x.last());
    assert(forall|j: int| 0 <= j < u.len() ==> s[j] == u[j]);
    assert(forall|j: int| 0 <= j < t.len() ==> t[j] == p[j] || t[j] == '/' || t[j] == x[j - p.len() - 1]);
    assert(forall|j: int| 0 <= j < s.len() ==> s[j] != '?' && s[j] != '#') by {
        assert(forall|j: int| u.len() <= j < s.len() ==> s[j] == t[j - u.len()]);
    }
    lemma_preprocess_plain(s);
    assert(forall|m: int| 0 <= m < u.len() ==> s[m] != '1');
    assert(forall|m: int| 0 <= m < u.len() ==> !doi_here(s, m));
    assert(s[u.len() - 1] == '/');
    assert(!is_word(s[u.len() - 1]));
    assert(forall|j: int| 0 <= j < p.len() ==> s[u.len() + j] == p[j]);
    assert(s[u.len() + p.len() as int] == '/');
    assert(forall|j: int| 0 <= j < x.len() ==> s[u.len() + p.len() + 1 + j] == x[j]);
    lemma_doi_here_at(s, u.len() as int, p, x);
    lemma_doi_first_match(s, u.len() as int);
}

/// A valid DOI surrounded by prose whitespace and trailing punctuation
/// is recognized exactly: the whitespace is trimmed, the punctuation
/// stripped, and the planted prefix and suffix extracted.
#[verifier::rlimit(100)]
pub proof fn lemma_doi_prose_recognized(
    ws1: Seq<char>,
    p: Seq<char>,
    x: Seq<char>,
    ws2: Seq<char>,
    punct: Seq<char>,
)
    requires
        valid_doi_prefix(p),
        valid_doi_suffix(x),
        forall|j: int| 0 <= j < ws1.len() ==> is_space(ws1[j]),
        forall|j: int| 0 <= j < ws2.len() ==> is_space(ws2[j]),
        forall|j: int| 0 <= j < punct.len() ==> is_prose_punct(punct[j]),
    ensures
        spec_doi_parse(ws1 + (p + seq!['/'] + x) + ws2 + punct) == Some((p, x)),
{
    let t = p + seq!['/'] + x;
    let s = ws1 + t + ws2 + punct;
    assert(forall|j: int| 0 <= j < t.len() ==> t[j] == p[j] || t[j] == '/' || t[j] == x[j - p.len()
        - 1]);
    // the whitespace trim leaves the core with its trailing decoration
    let a = ws1.len() as int;
    let core_end = a + t.len();
    assert(forall|j: int| 0 <= j < a ==> is_space(s[j]));
    assert(s[a] == t[0]);
    assert(!is_space(s[a]));
    lemma_trim_start_index(s, a);
    let s1 = s.subrange(a, s.len() as int);
    assert(s1 =~= t + ws2 + punct);
    let keep: int = if punct.len() > 0 {
        s1.len() as int
    } else if ws2.len() > 0 {
        t.len() as int
    } else {
        s1.len() as int
    };
    if punct.len() > 0 {
        assert(s1.last() == punct.last());
        assert(!is_space(s1.last()));
        assert(trim_end_sp(s1) == s1);
    } else if ws2.len() > 0 {
        assert(forall|j: int| t.len() <= j < s1.len() ==> is_space(s1[j]));
        assert(!is_space(s1[t.len() - 1]));
        crate::text::lemma_trim_end_index(s1, t.len() as int);
        assert(trim_end_sp(s1) == s1.subrange(0, t.len() as int));
    } else {
        assert(s1 =~= t);
        assert(!is_space(s1.last()));
        assert(trim_end_sp(s1) == s1);
    }
    let s2 = trim_end_sp(s1);
    assert(trim_sp(s) == s2);
    // no label matches: the trimmed text begins with the prefix digit
    assert(s2.len() > 0 && s2[0] == t[0]);
    assert(!occurs_at(s2, lit_doi_lower(), 0)) by {
        assert(lit_doi_lower()[0] == 'd');
    }
    assert(!occurs_at(s2, lit_doi_upper(), 0)) by {
        assert(lit_doi_upper()[0] == 'D');
    }
    assert(!occurs_at(s2, lit_urn_lower(), 0)) by {
        assert(lit_urn_lower()[0] == 'u');
    }
    assert(!occurs_at(s2, lit_urn_upper(), 0)) by {
        assert(lit_urn_upper()[0] == 'U');
    }
    assert(strip_label(s2) == s2);
    // no query or fragment occurs anywhere
    assert(forall|j: int| 0 <= j < s2.len() ==> s2[j] != '?' && s2[j] != '#');
    lemma_cut_qf_index(s2, s2.len() as int);
    assert(s2.take(s2.len() as int) =~= s2);
    // the punctuation trim strips exactly the planted punctuation
    let s3: Seq<char>;
    if punct.len() > 0 && ws2.len() == 0 {
        assert(s2 =~= t + punct);
        assert(forall|j: int| t.len() <= j < s2.len() ==> is_prose_punct(s2[j]));
        assert(s2[t.len() - 1] == x.last());
        assert(!is_prose_punct(s2[t.len() - 1]));
        lemma_trim_end_punct_index(s2, t.len() as int);
        s3 = s2.subrange(0, t.len() as int);
        assert(s3 =~= t);
    } else if punct.len() > 0 {
        assert(s2 =~= t + ws2 + punct);
        assert(forall|j: int| t.len() + ws2.len() as int <= j < s2.len() ==> is_prose_punct(s2[j]));
        assert(s2[t.len() + ws2.len() as int - 1] == ws2.last());
        assert(!is_prose_punct(s2[t.len() + ws2.len() as int - 1]));
        lemma_trim_end_punct_index(s2, t.len() + ws2.len() as int);
        s3 = s2.subrange(0, t.len() + ws2.len() as int);
        assert(s3 =~= t + ws2);
    } else {
        assert(s2 =~= t);
        assert(!is_prose_punct(s2.last()));
        s3 = s2;
        assert(trim_end_punct(s2) == s3);
    }
    assert(doi_preprocess(s) == s3);
    // the scan finds the core at the start of what is left
    if punct.len() > 0 && ws2.len() > 0 {
        assert(s3 =~= t + ws2);
        assert(s3[t.len() as int] == ws2[0]);
        assert(!is_sclass(s3[t.len() as int]));
    }
    assert(forall|j: int| 0 <= j < p.len() ==> s3[j] == p[j]);
    assert(s3[p.len() as int] == '/');
    assert(forall|j: int| 0 <= j < x.len() ==> s3[p.len() + 1 + j] == x[j]);
    lemma_doi_here_at(s3, 0, p, x);
    lemma_doi_first_match(s3, 0);
}

proof fn lemma_trim_end_concat(a: Seq<char>, b: Seq<char>)
    requires
        trim_end_sp(b).len() > 0,
    ensures
        trim_end_sp(a + b) == a + trim_end_sp(b),
    decreases b.len(),
{
    if b.len() > 0 && is_space(b.last()) {
        assert((a + b).last() == b.last());
        assert((a + b).drop_last() =~= a + b.drop_last());
        lemma_trim_end_concat(a, b.drop_last());
    } else {
        assert(b.len() > 0);
        assert((a + b).last() == b.last());
    }
}

proof fn lemma_trim_start_concat(a: Seq<char>, b: Seq<char>)
    requires
        b.len() > 0,
        !is_space(b[0]),
    ensures
        trim_start_sp(a + b) == trim_start_sp(a) + b,
    decreases a.len(),
{
    if a.len() > 0 && is_space(a.first()) {
        assert((a + b).first() == a.first());
        assert((a + b).drop_first() =~= a.drop_first() + b);
        lemma_trim_start_concat(a.drop_first(), b);
    } else if a.len() == 0 {
        assert(a + b =~= b);
        assert((a + b).first() == b[0]);
        assert(trim_start_sp(a + b) == a + b);
        assert(trim_start_sp(a) + b =~= a + b);
    } else {
        assert((a + b).first() == a.first());
        assert(trim_start_sp(a + b) == a + b);
        assert(trim_start_sp(a) + b =~= a + b);
    }
}

/// A query string or fragment appended to an identifier never changes the
/// extracted prefix and suffix: everything from the first `?` or `#` on is
/// dropped before the search.
pub proof fn lemma_doi_query_fragment_ignored(s: Seq<char>, q: Seq<char>)
    requires
        s.len() > 0,
        !is_space(s[0]),
        !is_space(s.last()),
        forall|j: int| 0 <= j < s.len() ==> s[j] != '?' && s[j] != '#',
        q.len() > 0,
        q[0] == '?' || q[0] == '#',
    ensures
        spec_doi_parse(s + q) == spec_doi_parse(s),
{
    let w = s + q;
    assert(trim_start_sp(s) == s);
    assert(trim_end_sp(s) == s);
    // trimming the concatenation keeps all of s and at least the `?`/`#`
    assert(w.first() == s[0]);
    assert(trim_start_sp(w) == w);
    let q1 = trim_end_sp(q);
    assert(q1.len() > 0 && q1[0] == q[0]) by {
        lemma_trim_end_keeps_first(q);
    }
    lemma_trim_end_concat(s, q);
    let w1 = s + q1;
    assert(trim_sp(w) == w1);
    // the label check sees the same characters on both sides
    lemma_label_same(s, q1);
    let l = label_len(s);
    assert(strip_label(trim_sp(s)) == trim_start_sp(s.skip(l)));
    assert(strip_label(trim_sp(w)) == trim_start_sp(w1.skip(l)));
    assert(w1.skip(l) =~= s.skip(l) + q1);
    let u = trim_start_sp(s.skip(l));
    if s.len() - l > 0 {
        lemma_skip_first_nonspace(s, l);
        lemma_trim_start_concat(s.skip(l), q1);
        assert(strip_label(trim_sp(w)) == u + q1);
        // cutting at the first ? or # removes exactly q1
        lemma_trim_start_is_skip(s.skip(l));
        let k = choose|k: int|
            0 <= k <= s.skip(l).len() && trim_start_sp(s.skip(l)) == s.skip(l).skip(k);
        assert(u == s.skip(l).skip(k));
        assert(forall|j: int| 0 <= j < u.len() ==> u[j] == s[l + k + j]);
        assert(forall|j: int| 0 <= j < u.len() ==> u[j] != '?' && u[j] != '#');
        lemma_cut_qf_index(u, u.len() as int);
        assert(u.take(u.len() as int) =~= u);
        assert(cut_qf(u) == u);
        assert((u + q1)[u.len() as int] == q1[0]);
        assert(forall|j: int| 0 <= j < u.len() ==> (u + q1)[j] == u[j]);
        lemma_cut_qf_index(u + q1, u.len() as int);
        assert((u + q1).take(u.len() as int) =~= u);
        assert(cut_qf(u + q1) == u);
    } else {
        assert(s.skip(l).len() == 0);
        assert(s.skip(l) =~= Seq::<char>::empty());
        assert(u.len() == 0);
        assert(u =~= Seq::<char>::empty());
        assert(s.skip(l) + q1 =~= q1);
        assert(trim_start_sp(q1) == q1);
        assert(cut_qf(q1) =~= Seq::<char>::empty());
        assert(cut_qf(u) =~= Seq::<char>::empty());
        assert(cut_qf(u) == cut_qf(s.skip(l) + q1));
    }
}

proof fn lemma_trim_end_keeps_first(q: Seq<char>)
    requires
        q.len() > 0,
        !is_space(q[0]),
    ensures
        trim_end_sp(q).len() > 0,
        trim_end_sp(q)[0] == q[0],
    decreases q.len(),
{
    if is_space(q.last()) {
        assert(q.len() >= 2);
        assert(q.drop_last()[0] == q[0]);
        lemma_trim_end_keeps_first(q.drop_last());
    }
}

/// Which label, if any, `strip_label` removes from `s`, as a length.
pub open spec fn label_len(s: Seq<char>) -> int {
    if occurs_at(s, lit_doi_lower(), 0) {
        4
    } else if occurs_at(s, lit_doi_upper(), 0) {
        4
    } else if occurs_at(s, lit_urn_lower(), 0) {
        8
    } else if occurs_at(s, lit_urn_upper(), 0) {
        8
    } else {
        0
    }
}

proof fn lemma_label_same(s: Seq<char>, q1: Seq<char>)
    requires
        s.len() > 0,
        !is_space(s[0]),
        q1.len() > 0,
        q1[0] == '?' || q1[0] == '#',
        forall|j: int| 0 <= j < s.len() ==> s[j] != '?' && s[j] != '#',
    ensures
        label_len(s + q1) == label_len(s),
        strip_label(s) == trim_start_sp(s.skip(label_len(s))),
        strip_label(s + q1) == trim_start_sp((s + q1).skip(label_len(s))),
{
    let w = s + q1;
    assert(forall|j: int| 0 <= j < s.len() ==> w[j] == s[j]);
    assert(forall|j: int| s.len() <= j < w.len() ==> w[j] == q1[j - s.len()]);
    lemma_label_occurs_same(s, q1, lit_doi_lower());
    lemma_label_occurs_same(s, q1, lit_doi_upper());
    lemma_label_occurs_same(s, q1, lit_urn_lower());
    lemma_label_occurs_same(s, q1, lit_urn_upper());
    if label_len(s) == 0 {
        assert(s.skip(0) =~= s);
        assert(w.skip(0) =~= w);
        assert(strip_label(s) == s);
        assert(trim_start_sp(s) == s);
        assert(strip_label(w) == w);
        assert(w[0] == s[0]);
        assert(trim_start_sp(w) == w);
    }
}

proof fn lemma_label_occurs_same(s: Seq<char>, q1: Seq<char>, lab: Seq<char>)
    requires
        s.len() > 0,
        q1.len() > 0,
        q1[0] == '?' || q1[0] == '#',
        forall|j: int| 0 <= j < s.len() ==> s[j] != '?' && s[j] != '#',
        lab == lit_doi_lower() || lab == lit_doi_upper() || lab == lit_urn_lower() || lab
            == lit_urn_upper(),
    ensures
        occurs_at(s + q1, lab, 0) == occurs_at(s, lab, 0),
{
    let w = s + q1;
    if occurs_at(s, lab, 0) {
        assert(forall|j: int| 0 <= j < lab.len() ==> w[j] == s[j]);
        assert(occurs_at(w, lab, 0));
    } else if occurs_at(w, lab, 0) {
        if lab.len() <= s.len() {
            assert(forall|j: int| 0 <= j < lab.len() ==> s[j] == w[j]);
            assert(occurs_at(s, lab, 0));
        } else {
            assert(w[s.len() as int] == q1[0]);
            assert(lab[s.len() as int] == w[s.len() as int]);
            assert(forall|j: int| 0 <= j < lab.len() ==> lab[j] != '?' && lab[j] != '#');
            assert(false);
        }
    }
}

proof fn lemma_trim_start_is_skip(s: Seq<char>)
    ensures
        exists|k: int| 0 <= k <= s.len() && trim_start_sp(s) == s.skip(k),
    decreases s.len(),
{
    if s.len() > 0 && is_space(s.first()) {
        lemma_trim_start_is_skip(s.drop_first());
        let k = choose|k: int|
            0 <= k <= s.drop_first().len() && trim_start_sp(s.drop_first()) == s.drop_first().skip(
                k,
            );
        assert(s.drop_first().skip(k) =~= s.skip(k + 1));
        assert(trim_start_sp(s) == s.skip(k + 1));
    } else {
        assert(s.skip(0) =~= s);
        assert(trim_start_sp(s) == s.skip(0));
    }
}

proof fn lemma_skip_first_nonspace(s: Seq<char>, l: int)
    requires
        0 <= l <= s.len(),
        l < s.len(),
        l == label_len(s),
    ensures
        trim_start_sp(s.skip(l)).len() == 0 || !is_space(trim_start_sp(s.skip(l))[0]),
{
    lemma_trim_start_head(s.skip(l));
}

proof fn lemma_trim_start_head(s: Seq<char>)
    ensures
        trim_start_sp(s).len() == 0 || !is_space(trim_start_sp(s)[0]),
    decreases s.len(),
{
    if s.len() > 0 && is_space(s.first()) {
        lemma_trim_start_head(s.drop_first());
    }
}

// ------------------------------------------------------------------
// Non-DOI text yields nothing
// ------------------------------------------------------------------

/// `sub` sits inside `s` starting at `a`.
pub open spec fn seg_at(sub: Seq<char>, s: Seq<char>, a: int) -> bool {
    &&& 0 <= a
    &&& a + sub.len() <= s.len()
    &&& forall|j: int| 0 <= j < sub.len() ==> sub[j] == s[a + j]
}

/// `sub` appears contiguously inside `s`.
pub open spec fn is_segment(sub: Seq<char>, s: Seq<char>) -> bool {
    exists|a: int| seg_at(sub, s, a)
}

proof fn lemma_segment_take(s: Seq<char>, k: int)
    requires
        0 <= k <= s.len(),
    ensures
        is_segment(s.take(k), s),
{
    assert(seg_at(s.take(k), s, 0));
}

proof fn lemma_segment_skip(s: Seq<char>, k: int)
    requires
        0 <= k <= s.len(),
    ensures
        is_segment(s.skip(k), s),
{
    assert(seg_at(s.skip(k), s, k));
}

proof fn lemma_segment_trans(a: Seq<char>, b: Seq<char>, c: Seq<char>)
    requires
        is_segment(a, b),
        is_segment(b, c),
    ensures
        is_segment(a, c),
{
    let i = choose|i: int| seg_at(a, b, i);
    let k = choose|k: int| seg_at(b, c, k);
    assert(seg_at(a, c, i + k));
}

proof fn lemma_trim_end_is_take(s: Seq<char>)
    ensures
        exists|k: int| 0 <= k <= s.len() && trim_end_sp(s) == s.take(k),
    decreases s.len(),
{
    if s.len() > 0 && is_space(s.last()) {
        lemma_trim_end_is_take(s.drop_last());
        let k = choose|k: int|
            0 <= k <= s.drop_last().len() && trim_end_sp(s.drop_last()) == s.drop_last().take(k);
        assert(s.drop_last().take(k) =~= s.take(k));
        assert(trim_end_sp(s) == s.take(k));
    } else {
        assert(s.take(s.len() as int) =~= s);
        assert(trim_end_sp(s) == s.take(s.len() as int));
    }
}

proof fn lemma_trim_end_punct_is_take(s: Seq<char>)
    ensures
        exists|k: int| 0 <= k <= s.len() && trim_end_punct(s) == s.take(k),
    decreases s.len(),
{
    if s.len() > 0 && is_prose_punct(s.last()) {
        lemma_trim_end_punct_is_take(s.drop_last());
        let k = choose|k: int|
            0 <= k <= s.drop_last().len() && trim_end_punct(s.drop_last()) == s.drop_last().take(k);
        assert(s.drop_last().take(k) =~= s.take(k));
        assert(trim_end_punct(s) == s.take(k));
    } else {
        assert(s.take(s.len() as int) =~= s);
        assert(trim_end_punct(s) == s.take(s.len() as int));
    }
}

proof fn lemma_cut_qf_is_take(s: Seq<char>)
    ensures
        exists|k: int| 0 <= k <= s.len() && cut_qf(s) == s.take(k),
    decreases s.len(),
{
    if s.len() == 0 {
        assert(s.take(0) =~= s);
        assert(cut_qf(s) == s.take(0));
    } else if s.first() == '?' || s.first() == '#' {
        assert(s.take(0) =~= Seq::<char>::empty());
        assert(cut_qf(s) == s.take(0));
    } else {
        lemma_cut_qf_is_take(s.drop_first());
        let k = choose|k: int|
            0 <= k <= s.drop_first().len() && cut_qf(s.drop_first()) == s.drop_first().take(k);
        assert(seq![s.first()] + s.drop_first().take(k) =~= s.take(k + 1));
        assert(cut_qf(s) == s.take(k + 1));
    }
}

proof fn lemma_segment_trim_start(s: Seq<char>)
    ensures
        is_segment(trim_start_sp(s), s),
{
    lemma_trim_start_is_skip(s);
    let k = choose|k: int| 0 <= k <= s.len() && trim_start_sp(s) == s.skip(k);
    lemma_segment_skip(s, k);
}

/// The searched text is a contiguous segment of the raw identifier.
pub proof fn lemma_preprocess_segment(s: Seq<char>)
    ensures
        is_segment(doi_preprocess(s), s),
{
    let t1 = trim_start_sp(s);
    lemma_segment_trim_start(s);
    let t2 = trim_end_sp(t1);
    lemma_trim_end_is_take(t1);
    let k2 = choose|k: int| 0 <= k <= t1.len() && trim_end_sp(t1) == t1.take(k);
    lemma_segment_take(t1, k2);
    lemma_segment_trans(t2, t1, s);
    let t3 = strip_label(t2);
    assert(is_segment(t3, t2)) by {
        if occurs_at(t2, lit_doi_lower(), 0) || occurs_at(t2, lit_doi_upper(), 0) || occurs_at(
            t2,
            lit_urn_lower(),
            0,
        ) || occurs_at(t2, lit_urn_upper(), 0) {
            let l: int = if occurs_at(t2, lit_doi_lower(), 0) || occurs_at(t2, lit_doi_upper(), 0) {
                4
            } else {
                8
            };
            assert(t3 == trim_start_sp(t2.skip(l)));
            lemma_segment_trim_start(t2.skip(l));
            lemma_segment_skip(t2, l);
            lemma_segment_trans(t3, t2.skip(l), t2);
        } else {
            assert(t3 == t2);
            assert(seg_at(t3, t2, 0));
        }
    }
    lemma_segment_trans(t3, t2, s);
    let t4 = cut_qf(t3);
    lemma_cut_qf_is_take(t3);
    let k4 = choose|k: int| 0 <= k <= t3.len() && cut_qf(t3) == t3.take(k);
    lemma_segment_take(t3, k4);
    lemma_segment_trans(t4, t3, s);
    let t5 = trim_end_punct(t4);
    lemma_trim_end_punct_is_take(t4);
    let k5 = choose|k: int| 0 <= k <= t4.len() && trim_end_punct(t4) == t4.take(k);
    lemma_segment_take(t4, k5);
    lemma_segment_trans(t5, t4, s);
}

proof fn lemma_scan_some_here(s: Seq<char>, i: int)
    requires
        0 <= i,
        doi_scan(s, i) is Some,
    ensures
        exists|m: int| i <= m < s.len() && doi_here(s, m),
    decreases s.len() - i,
{
    if i >= s.len() {
    } else if doi_here(s, i) {
    } else {
        lemma_scan_some_here(s, i + 1);
    }
}

/// Text with no `10.` in it never yields a DOI.
pub proof fn lemma_doi_rejects_without_marker(s: Seq<char>)
    requires
        forall|a: int| !occurs_at(s, seq!['1', '0', '.'], a),
    ensures
        spec_doi_parse(s) is None,
{
    let pre = doi_preprocess(s);
    if spec_doi_parse(s) is Some {
        lemma_scan_some_here(pre, 0);
        let m = choose|m: int| 0 <= m < pre.len() && doi_here(pre, m);
        lemma_preprocess_segment(s);
        let a = choose|a: int| seg_at(pre, s, a);
        assert(s[a + m] == '1' && s[a + m + 1] == '0' && s[a + m + 2] == '.');
        assert(occurs_at(s, seq!['1', '0', '.'], a + m)) by {
            assert(seq!['1', '0', '.'][0] == '1');
            assert(seq!['1', '0', '.'][1] == '0');
            assert(seq!['1', '0', '.'][2] == '.');
        }
        assert(false);
    }
}

// ------------------------------------------------------------------
// The registrar URL
// ------------------------------------------------------------------

/// The characters percent-encoded in the suffix when building the
/// registrar URL: controls, space, `"`, `#`, `<`, `>`, `?`, `` ` ``, `{`,
/// `}`.
pub open spec fn in_doi_enc_set(c: char) -> bool {
    (c as u32) < 32 || c as u32 == 127 || c == ' ' || c == '"' || c == '#' || c == '<' || c == '>'
        || c == '?' || c == '`' || c == '{' || c == '}'
}

/// Uppercase hexadecimal digit for `n < 16`.
pub open spec fn hex_digit(n: nat) -> char {
    if n < 10 {
        digit_char(n)
    } else if n == 10 {
        'A'
    } else if n == 11 {
        'B'
    } else if n == 12 {
        'C'
    } else if n == 13 {
        'D'
    } else if n == 14 {
        'E'
    } else {
        'F'
    }
}

/// The suffix with every character of the encode set written `%XX`.
pub open spec fn pct_encoded(s: Seq<char>) -> Seq<char>
    decreases s.len(),
{
    if s.len() == 0 {
        Seq::empty()
    } else {
        let p = pct_encoded(s.drop_last());
        let c = s.last();
        if in_doi_enc_set(c) {
            p + seq!['%', hex_digit((c as u32 / 16) as nat), hex_digit((c as u32 % 16) as nat)]
        } else {
            p.push(c)
        }
    }
}

/// The registrar URL text for a prefix and suffix.
pub open spec fn spec_doi_to_url(p: Seq<char>, x: Seq<char>) -> Seq<char> {
    lit_doi_org_url() + p + seq!['/'] + pct_encoded(x)
}

pub fn hex_digit_of(n: u32) -> (r: char)
    requires
        n < 16,
    ensures
        r == hex_digit(n as nat),
{
    if n < 10 {
        crate::text::digit_char_of_u32(n)
    } else if n == 10 {
        'A'
    } else if n == 11 {
        'B'
    } else if n == 12 {
        'C'
    } else if n == 13 {
        'D'
    } else if n == 14 {
        'E'
    } else {
        'F'
    }
}

fn in_enc_set(c: char) -> (r: bool)
    ensures
        r == in_doi_enc_set(c),
{
    (c as u32) < 32 || c as u32 == 127 || c == ' ' || c == '"' || c == '#' || c == '<' || c == '>'
        || c == '?' || c == '`' || c == '{' || c == '}'
}

/// Percent-encode a suffix for the registrar URL.
pub fn percent_encode_suffix(v: &Vec<char>) -> (r: Vec<char>)
    ensures
        r@ == pct_encoded(v@),
{
    let mut out: Vec<char> = Vec::new();
    let mut i: usize = 0;
    while i < v.len()
        invariant
            0 <= i <= v.len(),
            out@ == pct_encoded(v@.take(i as int)),
        decreases v.len() - i,
    {
        let c = v[i];
        if in_enc_set(c) {
            let code = c as u32;
            out.push('%');
            out.push(hex_digit_of(code / 16));
            out.push(hex_digit_of(code % 16));
        } else {
            out.push(c);
        }
        i += 1;
        proof {
            assert(v@.take(i as int).drop_last() =~= v@.take(i - 1));
            assert(v@.take(i as int).last() == v@[i - 1]);
        }
    }
    proof {
        assert(v@.take(v@.len() as int) =~= v@);
    }
    out
}

impl Doi {
    /// Recognize a DOI anywhere in `identifier`, after stripping labels,
    /// query strings, fragments and trailing punctuation.
    pub fn parse(identifier: &str) -> (r: Option<Doi>)
        ensures
            match r {
                Some(d) => spec_doi_parse(identifier@) == Some((d.prefix@, d.suffix@)),
                None => spec_doi_parse(identifier@) is None,
            },
    {
        let v = str_to_chars(identifier);
        let pre = preprocess_chars(&v);
        match scan_doi_chars(&pre) {
            Some((p, s)) => Some(
                Doi { prefix: chars_to_string(&p), suffix: chars_to_string(&s) },
            ),
            None => None,
        }
    }

    /// The registrar URL text for this DOI, with the suffix
    /// percent-encoded.
    pub fn to_url(&self) -> (r: String)
        ensures
            r@ == spec_doi_to_url(self.prefix@, self.suffix@),
    {
        let mut out = String::from_str("https://doi.org/");
        proof {
            reveal_strlit("https://doi.org/");
            assert(out@ =~= lit_doi_org_url());
        }
        out.append(self.prefix.as_str());
        out.append("/");
        proof {
            reveal_strlit("/");
            assert("/"@ =~= seq!['/']);
        }
        let sv = str_to_chars(self.suffix.as_str());
        let enc = percent_encode_suffix(&sv);
        let encs = chars_to_string(&enc);
        out.append(encs.as_str());
        out
    }

    /// Interpret the registrar's response body as a bibliography and
    /// return its first entry, re-serialized.  The body parses to a
    /// non-empty bibliography exactly when this returns `Ok`.
    pub fn resolve_body(&self, body: &str) -> (r: Result<String, String>)
        ensures
            match r {
                Ok(t) => crate::record::bib_reparse(body@) == Some(Some(t@)),
                Err(e) => match crate::record::bib_reparse(body@) {
                    None => exists|m: Seq<char>| e@ == "failed to parse BibLaTeX: "@ + m,
                    Some(o) => o is None && e@ == "empty bibliography"@,
                },
            },
    {
        match crate::record::reparse_first_entry(body) {
            crate::record::BibReparse::First(t) => Ok(t),
            crate::record::BibReparse::Empty => Err(String::from_str("empty bibliography")),
            crate::record::BibReparse::Unparsable(m) => {
                let mut e = String::from_str("failed to parse BibLaTeX: ");
                e.append(m.as_str());
                proof {
                    assert(e@ == "failed to parse BibLaTeX: "@ + m@);
                }
                Err(e)
            },
        }
    }
}

} // verus!
