//! Signal extractors: light pattern scanning over raw HTML/XML text for
//! `<meta>`, `<link>`, `<title>`, `<html lang>`, `<time datetime>` and
//! `<base href>` signals.  Tags are found by substring search, and their
//! attributes by a quoted `key="value"` scanner; no parse tree is built.

use vstd::prelude::*;

use crate::chars::{is_digit, is_letter, is_word, str_to_chars};
use crate::text::{
    eq_chars_ci, eq_ci, is_space, lower, occurs_at, occurs_at_ci, spec_normalize_ws, subvec,
};

verus! {

// ------------------------------------------------------------------
// Spec-level searching
// ------------------------------------------------------------------

/// First position at or after `i` where `p` occurs in `s`, ignoring case.
pub open spec fn find_ci_from(s: Seq<char>, p: Seq<char>, i: int) -> Option<int>
    decreases s.len() - i when 0 <= i
{
    if i + p.len() > s.len() {
        None
    } else if occurs_at_ci(s, p, i) {
        Some(i)
    } else {
        find_ci_from(s, p, i + 1)
    }
}

/// First position at or after `i` where `p` occurs in `s` exactly.
pub open spec fn find_from(s: Seq<char>, p: Seq<char>, i: int) -> Option<int>
    decreases s.len() - i when 0 <= i
{
    if i + p.len() > s.len() {
        None
    } else if occurs_at(s, p, i) {
        Some(i)
    } else {
        find_from(s, p, i + 1)
    }
}

pub proof fn lemma_find_bounds(s: Seq<char>, p: Seq<char>, i: int)
    requires
        0 <= i,
        find_from(s, p, i) is Some,
    ensures
        i <= find_from(s, p, i)->Some_0,
        find_from(s, p, i)->Some_0 + p.len() <= s.len(),
    decreases s.len() - i,
{
    if i + p.len() > s.len() {
    } else if occurs_at(s, p, i) {
    } else {
        lemma_find_bounds(s, p, i + 1);
    }
}

/// Search for `p` in `v` from `from`, exactly.
pub fn find_exact(v: &Vec<char>, p: &Vec<char>, from: usize) -> (r: Option<usize>)
    requires
        from <= v@.len() + 1,
    ensures
        match r {
            Some(i) => from <= i && i + p@.len() <= v@.len() && find_from(v@, p@, from as int)
                == Some(i as int),
            None => find_from(v@, p@, from as int) is None,
        },
{
    let n = v.len();
    let mut i: usize = from;
    while i < n
        invariant
            from <= i,
            n == v@.len(),
            find_from(v@, p@, from as int) == find_from(v@, p@, i as int),
        decreases n - i,
    {
        if crate::text::matches_at(v, p, i) {
            return Some(i);
        }
        i += 1;
    }
    if crate::text::matches_at(v, p, i) {
        return Some(i);
    }
    None
}

/// First position at or after `i` holding character `c`.
pub open spec fn find_char_from(s: Seq<char>, c: char, i: int) -> Option<int>
    decreases s.len() - i when 0 <= i
{
    if i >= s.len() {
        None
    } else if s[i] == c {
        Some(i)
    } else {
        find_char_from(s, c, i + 1)
    }
}

/// Search for `p` in `v` from `from`, ignoring ASCII case.
pub fn find_ci(v: &Vec<char>, p: &Vec<char>, from: usize) -> (r: Option<usize>)
    requires
        from <= v@.len() + 1,
    ensures
        match r {
            Some(i) => from <= i && i + p@.len() <= v@.len() && find_ci_from(v@, p@, from as int)
                == Some(i as int),
            None => find_ci_from(v@, p@, from as int) is None,
        },
{
    let n = v.len();
    let mut i: usize = from;
    while i < n
        invariant
            from <= i,
            n == v@.len(),
            find_ci_from(v@, p@, from as int) == find_ci_from(v@, p@, i as int),
        decreases n - i,
    {
        if crate::text::matches_at_ci(v, p, i) {
            return Some(i);
        }
        i += 1;
    }
    if crate::text::matches_at_ci(v, p, i) {
        return Some(i);
    }
    None
}

/// Search for the character `c` in `v` from `from`.
pub fn find_char(v: &Vec<char>, c: char, from: usize) -> (r: Option<usize>)
    requires
        from <= v@.len() + 1,
    ensures
        match r {
            Some(i) => from <= i && i < v@.len() && find_char_from(v@, c, from as int) == Some(
                i as int,
            ),
            None => find_char_from(v@, c, from as int) is None,
        },
{
    let n = v.len();
    let mut i: usize = from;
    while i < n
        invariant
            from <= i,
            n == v@.len(),
            find_char_from(v@, c, from as int) == find_char_from(v@, c, i as int),
        decreases n - i,
    {
        if v[i] == c {
            return Some(i);
        }
        i += 1;
    }
    None
}

// ------------------------------------------------------------------
// Attribute scanning
// ------------------------------------------------------------------

/// A character allowed in an attribute key: letters, `_`, `:`, `-`.
pub open spec fn is_key_char(c: char) -> bool {
    is_letter(c) || c == '_' || c == ':' || c == '-'
}

pub fn key_char(c: char) -> (r: bool)
    ensures
        r == is_key_char(c),
{
    crate::chars::letter(c) || c == '_' || c == ':' || c == '-'
}

/// Length of the run of key characters starting at `i`.
pub open spec fn key_run(s: Seq<char>, i: int) -> int
    decreases s.len() - i when 0 <= i <= s.len()
{
    if 0 <= i < s.len() && is_key_char(s[i]) {
        1 + key_run(s, i + 1)
    } else {
        0
    }
}

/// Length of the run of whitespace starting at `i`.
pub open spec fn ws_run(s: Seq<char>, i: int) -> int
    decreases s.len() - i when 0 <= i <= s.len()
{
    if 0 <= i < s.len() && is_space(s[i]) {
        1 + ws_run(s, i + 1)
    } else {
        0
    }
}

/// An attribute `key="value"` or `key='value'` starting exactly at `p`:
/// the key, the value, and the position after the closing quote.
pub open spec fn attr_at(s: Seq<char>, p: int) -> Option<(Seq<char>, Seq<char>, int)> {
    let k = key_run(s, p);
    if k == 0 {
        None
    } else {
        let e = p + k + ws_run(s, p + k);
        if e < s.len() && s[e] == '=' {
            let v0 = e + 1 + ws_run(s, e + 1);
            if v0 < s.len() && (s[v0] == '"' || s[v0] == '\'') {
                match find_char_from(s, s[v0], v0 + 1) {
                    Some(q) => Some((s.subrange(p, p + k), s.subrange(v0 + 1, q), q + 1)),
                    None => None,
                }
            } else {
                None
            }
        } else {
            None
        }
    }
}

proof fn lemma_key_run_exact(s: Seq<char>, i: int, n: int)
    requires
        0 <= i,
        i + n <= s.len(),
        0 <= n,
        forall|j: int| i <= j < i + n ==> is_key_char(s[j]),
        i + n == s.len() || !is_key_char(s[i + n]),
    ensures
        key_run(s, i) == n,
    decreases n,
{
    if n > 0 {
        lemma_key_run_exact(s, i + 1, n - 1);
    }
}

proof fn lemma_ws_run_exact(s: Seq<char>, i: int, n: int)
    requires
        0 <= i,
        i + n <= s.len(),
        0 <= n,
        forall|j: int| i <= j < i + n ==> is_space(s[j]),
        i + n == s.len() || !is_space(s[i + n]),
    ensures
        ws_run(s, i) == n,
    decreases n,
{
    if n > 0 {
        lemma_ws_run_exact(s, i + 1, n - 1);
    }
}

fn exec_key_run(v: &Vec<char>, i: usize) -> (n: usize)
    requires
        i <= v@.len(),
    ensures
        i + n <= v@.len(),
        n == key_run(v@, i as int),
{
    let mut j: usize = i;
    while j < v.len() && key_char(v[j])
        invariant
            i <= j <= v@.len(),
            forall|m: int| i <= m < j ==> is_key_char(v@[m]),
        decreases v.len() - j,
    {
        j += 1;
    }
    proof {
        lemma_key_run_exact(v@, i as int, j - i);
    }
    j - i
}

pub fn exec_ws_run(v: &Vec<char>, i: usize) -> (n: usize)
    requires
        i <= v@.len(),
    ensures
        i + n <= v@.len(),
        n == ws_run(v@, i as int),
{
    let mut j: usize = i;
    while j < v.len() && crate::text::space(v[j])
        invariant
            i <= j <= v@.len(),
            forall|m: int| i <= m < j ==> is_space(v@[m]),
        decreases v.len() - j,
    {
        j += 1;
    }
    proof {
        lemma_ws_run_exact(v@, i as int, j - i);
    }
    j - i
}

/// Read the attribute starting exactly at `p`, if any.
pub fn exec_attr_at(v: &Vec<char>, p: usize) -> (r: Option<(Vec<char>, Vec<char>, usize)>)
    requires
        p <= v@.len(),
    ensures
        match r {
            Some(t) => {
                &&& attr_at(v@, p as int) == Some((t.0@, t.1@, t.2 as int))
                &&& p < t.2 <= v@.len()
            },
            None => attr_at(v@, p as int) is None,
        },
{
    let n = v.len();
    let k = exec_key_run(v, p);
    if k == 0 {
        return None;
    }
    let e = p + k + exec_ws_run(v, p + k);
    if !(e < n && v[e] == '=') {
        return None;
    }
    let v0 = e + 1 + exec_ws_run(v, e + 1);
    if !(v0 < n && (v[v0] == '"' || v[v0] == '\'')) {
        return None;
    }
    match find_char(v, v[v0], v0 + 1) {
        Some(q) => {
            let key = subvec(v, p, p + k);
            let val = subvec(v, v0 + 1, q);
            Some((key, val, q + 1))
        },
        None => None,
    }
}

// ------------------------------------------------------------------
// Tag blocks
// ------------------------------------------------------------------

/// The tag blocks `<pat ... >` of `s`, scanned left to right: each match
/// of `pat` (ignoring case) on a word boundary, extended to the next `>`.
pub open spec fn tag_blocks_from(s: Seq<char>, pat: Seq<char>, p: int) -> Seq<Seq<char>>
    decreases s.len() - p when 0 <= p
{
    match find_ci_from(s, pat, p) {
        None => Seq::empty(),
        Some(i) => if !(p <= i && i + pat.len() <= s.len()) {
            Seq::empty()
        } else if i + pat.len() < s.len() && is_word(s[i + pat.len()]) {
            tag_blocks_from(s, pat, i + 1)
        } else {
            match find_char_from(s, '>', i + pat.len()) {
                None => Seq::empty(),
                Some(j) => if j < i + pat.len() || j >= s.len() {
                    Seq::empty()
                } else {
                    seq![s.subrange(i, j + 1)] + tag_blocks_from(s, pat, j + 1)
                },
            }
        },
    }
}

pub proof fn lemma_find_ci_bounds(s: Seq<char>, p: Seq<char>, i: int)
    requires
        0 <= i,
        find_ci_from(s, p, i) is Some,
    ensures
        i <= find_ci_from(s, p, i)->Some_0,
        find_ci_from(s, p, i)->Some_0 + p.len() <= s.len(),
    decreases s.len() - i,
{
    if i + p.len() > s.len() {
    } else if occurs_at_ci(s, p, i) {
    } else {
        lemma_find_ci_bounds(s, p, i + 1);
    }
}

pub proof fn lemma_find_char_bounds(s: Seq<char>, c: char, i: int)
    requires
        0 <= i,
        find_char_from(s, c, i) is Some,
    ensures
        i <= find_char_from(s, c, i)->Some_0 < s.len(),
    decreases s.len() - i,
{
    if i >= s.len() {
    } else if s[i] == c {
    } else {
        lemma_find_char_bounds(s, c, i + 1);
    }
}

/// Collect the tag blocks of `v` beginning with `pat`.
pub fn collect_tag_blocks(v: &Vec<char>, pat: &Vec<char>) -> (r: Vec<Vec<char>>)
    ensures
        vviews(r@) == tag_blocks_from(v@, pat@, 0),
{
    let mut out: Vec<Vec<char>> = Vec::new();
    let mut p: usize = 0;
    loop
        invariant
            0 <= p <= v@.len() + 1,
            tag_blocks_from(v@, pat@, 0) == vviews(out@) + tag_blocks_from(v@, pat@, p as int),
        decreases v@.len() + 1 - p,
    {
        let n = v.len();
        let found = find_ci(v, pat, p);
        match found {
            None => {
                proof {
                    assert(vviews(out@) + tag_blocks_from(v@, pat@, p as int) =~= vviews(out@));
                }
                return out;
            },
            Some(i) => {
                proof {
                    lemma_find_ci_bounds(v@, pat@, p as int);
                }
                if i + pat.len() < n && crate::chars::word(v[i + pat.len()]) {
                    p = i + 1;
                } else {
                    match find_char(v, '>', i + pat.len()) {
                        None => {
                            proof {
                                assert(vviews(out@) + tag_blocks_from(v@, pat@, p as int) =~= vviews(
                                    out@,
                                ));
                            }
                            return out;
                        },
                        Some(j) => {
                            proof {
                                lemma_find_char_bounds(v@, '>', i + pat@.len());
                            }
                            let block = subvec(v, i, j + 1);
                            let ghost old_out = out@;
                            out.push(block);
                            proof {
                                assert(vviews(out@) =~= vviews(old_out).push(block@));
                                assert(vviews(old_out).push(block@) + tag_blocks_from(
                                    v@,
                                    pat@,
                                    j + 1,
                                ) =~= vviews(old_out) + (seq![block@] + tag_blocks_from(
                                    v@,
                                    pat@,
                                    j + 1,
                                )));
                            }
                            p = j + 1;
                        },
                    }
                }
            },
        }
    }
}

/// The views of a sequence of character vectors.
pub open spec fn vviews(s: Seq<Vec<char>>) -> Seq<Seq<char>> {
    Seq::new(s.len(), |i: int| s[i]@)
}

// ------------------------------------------------------------------
// Meta and link tags
// ------------------------------------------------------------------

/// One `<meta>` tag's signals.
pub struct MetaTag {
    pub name: Option<String>,
    pub property: Option<String>,
    pub http_equiv: Option<String>,
    pub content: String,
}

/// The ghost view of a meta tag.
pub struct MetaV {
    pub name: Option<Seq<char>>,
    pub property: Option<Seq<char>>,
    pub http_equiv: Option<Seq<char>>,
    pub content: Seq<char>,
}

/// The view of an `Option<String>`.
pub open spec fn sopt(o: Option<String>) -> Option<Seq<char>> {
    match o {
        Some(s) => Some(s@),
        None => None,
    }
}

/// The view of an `Option<Vec<char>>`.
pub open spec fn vopt(o: Option<Vec<char>>) -> Option<Seq<char>> {
    match o {
        Some(s) => Some(s@),
        None => None,
    }
}

/// The view of a meta tag.
pub open spec fn mview(m: MetaTag) -> MetaV {
    MetaV {
        name: sopt(m.name),
        property: sopt(m.property),
        http_equiv: sopt(m.http_equiv),
        content: m.content@,
    }
}

/// The views of a sequence of meta tags.
pub open spec fn mviews(s: Seq<MetaTag>) -> Seq<MetaV> {
    Seq::new(s.len(), |i: int| mview(s[i]))
}

/// The attribute-fold state while reading one meta tag.
pub struct MetaSt {
    pub name: Option<Seq<char>>,
    pub property: Option<Seq<char>>,
    pub http_equiv: Option<Seq<char>>,
    pub content: Option<Seq<char>>,
}

pub open spec fn meta_st_empty() -> MetaSt {
    MetaSt { name: None, property: None, http_equiv: None, content: None }
}

/// One attribute applied to the state: the last assignment to each of
/// `name`, `property`, `http-equiv`, `content` wins.
pub open spec fn apply_meta_attr(st: MetaSt, k: Seq<char>, val: Seq<char>) -> MetaSt {
    if eq_ci(k, "name"@) {
        MetaSt {
            name: Some(val),
            property: st.property,
            http_equiv: st.http_equiv,
            content: st.content,
        }
    } else if eq_ci(k, "property"@) {
        MetaSt {
            name: st.name,
            property: Some(val),
            http_equiv: st.http_equiv,
            content: st.content,
        }
    } else if eq_ci(k, "http-equiv"@) {
        MetaSt {
            name: st.name,
            property: st.property,
            http_equiv: Some(val),
            content: st.content,
        }
    } else if eq_ci(k, "content"@) {
        MetaSt {
            name: st.name,
            property: st.property,
            http_equiv: st.http_equiv,
            content: Some(val),
        }
    } else {
        st
    }
}

/// Fold all attributes of the tag text into the state.
pub open spec fn meta_fold(s: Seq<char>, p: int, st: MetaSt) -> MetaSt
    decreases s.len() - p when 0 <= p
{
    if p >= s.len() {
        st
    } else {
        match attr_at(s, p) {
            None => meta_fold(s, p + 1, st),
            Some(t) => if p < t.2 <= s.len() {
                meta_fold(s, t.2, apply_meta_attr(st, t.0, t.1))
            } else {
                st
            },
        }
    }
}

/// What reading one `<meta ...>` block yields: a tag when a `content`
/// attribute is present.
pub open spec fn spec_parse_meta_tag(t: Seq<char>) -> Option<MetaV> {
    let st = meta_fold(t, 0, meta_st_empty());
    match st.content {
        Some(c) => Some(
            MetaV { name: st.name, property: st.property, http_equiv: st.http_equiv, content: c },
        ),
        None => None,
    }
}

/// Read the attributes of one meta tag block.
pub fn parse_meta_tag(tag: &str) -> (r: Option<MetaTag>)
    ensures
        match r {
            Some(m) => spec_parse_meta_tag(tag@) == Some(mview(m)),
            None => spec_parse_meta_tag(tag@) is None,
        },
{
    let v = str_to_chars(tag);
    parse_meta_tag_chars(&v)
}

fn parse_meta_tag_chars(v: &Vec<char>) -> (r: Option<MetaTag>)
    ensures
        match r {
            Some(m) => spec_parse_meta_tag(v@) == Some(mview(m)),
            None => spec_parse_meta_tag(v@) is None,
        },
{
    let key_name = str_to_chars("name");
    let key_property = str_to_chars("property");
    let key_http_equiv = str_to_chars("http-equiv");
    let key_content = str_to_chars("content");
    let mut name: Option<Vec<char>> = None;
    let mut property: Option<Vec<char>> = None;
    let mut http_equiv: Option<Vec<char>> = None;
    let mut content: Option<Vec<char>> = None;
    let mut p: usize = 0;
    while p < v.len()
        invariant
            0 <= p <= v@.len() + 1,
            key_name@ == "name"@,
            key_property@ == "property"@,
            key_http_equiv@ == "http-equiv"@,
            key_content@ == "content"@,
            meta_fold(v@, 0, meta_st_empty()) == meta_fold(
                v@,
                p as int,
                MetaSt {
                    name: vopt(name),
                    property: vopt(property),
                    http_equiv: vopt(http_equiv),
                    content: vopt(content),
                },
            ),
        decreases v@.len() + 1 - p,
    {
        let ghost pre_st = MetaSt {
            name: vopt(name),
            property: vopt(property),
            http_equiv: vopt(http_equiv),
            content: vopt(content),
        };
        match exec_attr_at(v, p) {
            None => {
                p = p + 1;
            },
            Some((k, val, end)) => {
                let ghost gk = k@;
                let ghost gv = val@;
                proof {
                    assert(key_name@ == "name"@);
                    assert(key_property@ == "property"@);
                    assert(key_http_equiv@ == "http-equiv"@);
                    assert(key_content@ == "content"@);
                    assert(meta_fold(v@, p as int, pre_st) == meta_fold(
                        v@,
                        end as int,
                        apply_meta_attr(pre_st, gk, gv),
                    ));
                }
                if eq_chars_ci(&k, &key_name) {
                    name = Some(val);
                } else if eq_chars_ci(&k, &key_property) {
                    property = Some(val);
                } else if eq_chars_ci(&k, &key_http_equiv) {
                    http_equiv = Some(val);
                } else if eq_chars_ci(&k, &key_content) {
                    content = Some(val);
                }
                proof {
                    assert(apply_meta_attr(pre_st, gk, gv) == MetaSt {
                        name: vopt(name),
                        property: vopt(property),
                        http_equiv: vopt(http_equiv),
                        content: vopt(content),
                    });
                }
                p = end;
            },
        }
    }
    match content {
        Some(c) => Some(
            MetaTag {
                name: match name {
                    Some(x) => Some(crate::chars::chars_to_string(&x)),
                    None => None,
                },
                property: match property {
                    Some(x) => Some(crate::chars::chars_to_string(&x)),
                    None => None,
                },
                http_equiv: match http_equiv {
                    Some(x) => Some(crate::chars::chars_to_string(&x)),
                    None => None,
                },
                content: crate::chars::chars_to_string(&c),
            },
        ),
        None => None,
    }
}

// ------------------------------------------------------------------
// Collectors
// ------------------------------------------------------------------

/// The meta tags read from a sequence of tag blocks.
pub open spec fn metas_of_blocks(bs: Seq<Seq<char>>) -> Seq<MetaV>
    decreases bs.len(),
{
    if bs.len() == 0 {
        Seq::empty()
    } else {
        metas_of_blocks(bs.drop_last()) + (match spec_parse_meta_tag(bs.last()) {
            Some(m) => seq![m],
            None => Seq::empty(),
        })
    }
}

/// All `<meta ...>` signals of the document, in order.
pub open spec fn spec_collect_meta(s: Seq<char>) -> Seq<MetaV> {
    metas_of_blocks(tag_blocks_from(s, "<meta"@, 0))
}

/// Collect every `<meta>` tag that carries a `content` attribute.
pub fn collect_meta(html: &str) -> (r: Vec<MetaTag>)
    ensures
        mviews(r@) == spec_collect_meta(html@),
{
    let v = str_to_chars(html);
    let pat = str_to_chars("<meta");
    let blocks = collect_tag_blocks(&v, &pat);
    let mut out: Vec<MetaTag> = Vec::new();
    let mut i: usize = 0;
    while i < blocks.len()
        invariant
            0 <= i <= blocks@.len(),
            vviews(blocks@) == tag_blocks_from(html@, "<meta"@, 0),
            mviews(out@) == metas_of_blocks(vviews(blocks@).take(i as int)),
        decreases blocks@.len() - i,
    {
        let ghost old_out = out@;
        match parse_meta_tag_chars(&blocks[i]) {
            Some(m) => {
                out.push(m);
            },
            None => {},
        }
        i += 1;
        proof {
            assert(vviews(blocks@).take(i as int).drop_last() =~= vviews(blocks@).take(i - 1));
            assert(vviews(blocks@).take(i as int).last() == blocks@[i - 1]@);
            assert(mviews(out@) =~= metas_of_blocks(vviews(blocks@).take(i as int)));
        }
    }
    proof {
        assert(vviews(blocks@).take(blocks@.len() as int) =~= vviews(blocks@));
    }
    out
}

/// One `<link>` tag's signals.
pub struct LinkTag {
    pub rel: String,
    pub href: String,
}

/// The ghost view of a link tag.
pub struct LinkV {
    pub rel: Seq<char>,
    pub href: Seq<char>,
}

pub open spec fn lview(l: LinkTag) -> LinkV {
    LinkV { rel: l.rel@, href: l.href@ }
}

pub open spec fn lviews(s: Seq<LinkTag>) -> Seq<LinkV> {
    Seq::new(s.len(), |i: int| lview(s[i]))
}

/// The attribute-fold state while reading one link tag.
pub struct LinkSt {
    pub rel: Option<Seq<char>>,
    pub href: Option<Seq<char>>,
}

pub open spec fn apply_link_attr(st: LinkSt, k: Seq<char>, val: Seq<char>) -> LinkSt {
    if eq_ci(k, "rel"@) {
        LinkSt { rel: Some(val), href: st.href }
    } else if eq_ci(k, "href"@) {
        LinkSt { rel: st.rel, href: Some(val) }
    } else {
        st
    }
}

pub open spec fn link_fold(s: Seq<char>, p: int, st: LinkSt) -> LinkSt
    decreases s.len() - p when 0 <= p
{
    if p >= s.len() {
        st
    } else {
        match attr_at(s, p) {
            None => link_fold(s, p + 1, st),
            Some(t) => if p < t.2 <= s.len() {
                link_fold(s, t.2, apply_link_attr(st, t.0, t.1))
            } else {
                st
            },
        }
    }
}

/// What reading one `<link ...>` block yields: a tag when both `rel` and
/// `href` are present.
pub open spec fn spec_parse_link_tag(t: Seq<char>) -> Option<LinkV> {
    let st = link_fold(t, 0, LinkSt { rel: None, href: None });
    match st.rel {
        Some(r) => match st.href {
            Some(h) => Some(LinkV { rel: r, href: h }),
            None => None,
        },
        None => None,
    }
}

/// Read the attributes of one link tag block.
pub fn parse_link_tag(tag: &str) -> (r: Option<LinkTag>)
    ensures
        match r {
            Some(l) => spec_parse_link_tag(tag@) == Some(lview(l)),
            None => spec_parse_link_tag(tag@) is None,
        },
{
    let v = str_to_chars(tag);
    parse_link_tag_chars(&v)
}

fn parse_link_tag_chars(v: &Vec<char>) -> (r: Option<LinkTag>)
    ensures
        match r {
            Some(l) => spec_parse_link_tag(v@) == Some(lview(l)),
            None => spec_parse_link_tag(v@) is None,
        },
{
    let key_rel = str_to_chars("rel");
    let key_href = str_to_chars("href");
    let mut rel: Option<Vec<char>> = None;
    let mut href: Option<Vec<char>> = None;
    let mut p: usize = 0;
    while p < v.len()
        invariant
            0 <= p <= v@.len() + 1,
            key_rel@ == "rel"@,
            key_href@ == "href"@,
            link_fold(v@, 0, LinkSt { rel: None, href: None }) == link_fold(
                v@,
                p as int,
                LinkSt { rel: vopt(rel), href: vopt(href) },
            ),
        decreases v@.len() + 1 - p,
    {
        let ghost pre_st = LinkSt { rel: vopt(rel), href: vopt(href) };
        match exec_attr_at(v, p) {
            None => {
                p = p + 1;
            },
            Some((k, val, end)) => {
                let ghost gk = k@;
                let ghost gv = val@;
                proof {
                    assert(link_fold(v@, p as int, pre_st) == link_fold(
                        v@,
                        end as int,
                        apply_link_attr(pre_st, gk, gv),
                    ));
                }
                if eq_chars_ci(&k, &key_rel) {
                    rel = Some(val);
                } else if eq_chars_ci(&k, &key_href) {
                    href = Some(val);
                }
                proof {
                    assert(apply_link_attr(pre_st, gk, gv) == LinkSt {
                        rel: vopt(rel),
                        href: vopt(href),
                    });
                }
                p = end;
            },
        }
    }
    match rel {
        Some(r) => match href {
            Some(h) => Some(
                LinkTag {
                    rel: crate::chars::chars_to_string(&r),
                    href: crate::chars::chars_to_string(&h),
                },
            ),
            None => None,
        },
        None => None,
    }
}

/// The link tags read from a sequence of tag blocks.
pub open spec fn links_of_blocks(bs: Seq<Seq<char>>) -> Seq<LinkV>
    decreases bs.len(),
{
    if bs.len() == 0 {
        Seq::empty()
    } else {
        links_of_blocks(bs.drop_last()) + (match spec_parse_link_tag(bs.last()) {
            Some(l) => seq![l],
            None => Seq::empty(),
        })
    }
}

/// All `<link ...>` signals of the document, in order.
pub open spec fn spec_collect_links(s: Seq<char>) -> Seq<LinkV> {
    links_of_blocks(tag_blocks_from(s, "<link"@, 0))
}

/// Collect every `<link>` tag that carries both `rel` and `href`.
pub fn collect_links(html: &str) -> (r: Vec<LinkTag>)
    ensures
        lviews(r@) == spec_collect_links(html@),
{
    let v = str_to_chars(html);
    let pat = str_to_chars("<link");
    let blocks = collect_tag_blocks(&v, &pat);
    let mut out: Vec<LinkTag> = Vec::new();
    let mut i: usize = 0;
    while i < blocks.len()
        invariant
            0 <= i <= blocks@.len(),
            vviews(blocks@) == tag_blocks_from(html@, "<link"@, 0),
            lviews(out@) == links_of_blocks(vviews(blocks@).take(i as int)),
        decreases blocks@.len() - i,
    {
        match parse_link_tag_chars(&blocks[i]) {
            Some(l) => {
                out.push(l);
            },
            None => {},
        }
        i += 1;
        proof {
            assert(vviews(blocks@).take(i as int).drop_last() =~= vviews(blocks@).take(i - 1));
            assert(vviews(blocks@).take(i as int).last() == blocks@[i - 1]@);
            assert(lviews(out@) =~= links_of_blocks(vviews(blocks@).take(i as int)));
        }
    }
    proof {
        assert(vviews(blocks@).take(blocks@.len() as int) =~= vviews(blocks@));
    }
    out
}

/// The document's `<title>` text, whitespace-normalized: the first
/// `<title...>` opening, up to the first closing `</title>` after it.
pub open spec fn spec_collect_title(s: Seq<char>) -> Option<Seq<char>> {
    match find_ci_from(s, "<title"@, 0) {
        None => None,
        Some(i) => match find_char_from(s, '>', i + 6) {
            None => None,
            Some(j) => match find_ci_from(s, "</title>"@, j + 1) {
                None => None,
                Some(c) => Some(spec_normalize_ws(s.subrange(j + 1, c))),
            },
        },
    }
}

/// Extract the `<title>` text, if any.
pub fn collect_title(html: &str) -> (r: Option<String>)
    ensures
        sopt(r) == spec_collect_title(html@),
{
    let v = str_to_chars(html);
    let open_pat = str_to_chars("<title");
    let close_pat = str_to_chars("</title>");
    proof {
        reveal_strlit("<title");
        assert(open_pat@.len() == 6);
    }
    match find_ci(&v, &open_pat, 0) {
        None => None,
        Some(i) => match find_char(&v, '>', i + 6) {
            None => None,
            Some(j) => match find_ci(&v, &close_pat, j + 1) {
                None => None,
                Some(c) => {
                    let inner = subvec(&v, j + 1, c);
                    let norm = crate::text::normalize_chars(&inner);
                    Some(crate::chars::chars_to_string(&norm))
                },
            },
        },
    }
}

/// First attribute with the given key (ignoring case) in a tag block,
/// scanning from `p`.
pub open spec fn first_attr_from(t: Seq<char>, p: int, key: Seq<char>) -> Option<Seq<char>>
    decreases t.len() - p when 0 <= p
{
    if p >= t.len() {
        None
    } else {
        match attr_at(t, p) {
            None => first_attr_from(t, p + 1, key),
            Some(a) => if eq_ci(a.0, key) {
                Some(a.1)
            } else if p < a.2 <= t.len() {
                first_attr_from(t, a.2, key)
            } else {
                None
            },
        }
    }
}

/// Find the first attribute with the given key in a tag block.
pub fn first_attr(v: &Vec<char>, key: &Vec<char>) -> (r: Option<Vec<char>>)
    ensures
        vopt(r) == first_attr_from(v@, 0, key@),
{
    let mut p: usize = 0;
    while p < v.len()
        invariant
            0 <= p <= v@.len() + 1,
            first_attr_from(v@, 0, key@) == first_attr_from(v@, p as int, key@),
        decreases v@.len() + 1 - p,
    {
        match exec_attr_at(v, p) {
            None => {
                p = p + 1;
            },
            Some((k, val, end)) => {
                if eq_chars_ci(&k, key) {
                    return Some(val);
                }
                p = end;
            },
        }
    }
    None
}

/// The `lang` attribute of the document's first `<html ...>` tag.
pub open spec fn spec_collect_html_lang(s: Seq<char>) -> Option<Seq<char>> {
    let bs = tag_blocks_from(s, "<html"@, 0);
    if bs.len() == 0 {
        None
    } else {
        first_attr_from(bs[0], 0, "lang"@)
    }
}

/// Extract the `lang` attribute of the first `<html>` tag.
pub fn collect_html_lang(html: &str) -> (r: Option<String>)
    ensures
        sopt(r) == spec_collect_html_lang(html@),
{
    let v = str_to_chars(html);
    let pat = str_to_chars("<html");
    let key = str_to_chars("lang");
    let blocks = collect_tag_blocks(&v, &pat);
    if blocks.len() == 0 {
        return None;
    }
    proof {
        assert(vviews(blocks@)[0] == blocks@[0]@);
    }
    match first_attr(&blocks[0], &key) {
        Some(val) => Some(crate::chars::chars_to_string(&val)),
        None => None,
    }
}

/// The `href` attribute of the document's first `<base ...>` tag.
pub open spec fn spec_collect_base_href(s: Seq<char>) -> Option<Seq<char>> {
    let bs = tag_blocks_from(s, "<base"@, 0);
    if bs.len() == 0 {
        None
    } else {
        first_attr_from(bs[0], 0, "href"@)
    }
}

/// Extract the `href` attribute of the first `<base>` tag.
pub fn collect_base_href(html: &str) -> (r: Option<String>)
    ensures
        sopt(r) == spec_collect_base_href(html@),
{
    let v = str_to_chars(html);
    let pat = str_to_chars("<base");
    let key = str_to_chars("href");
    let blocks = collect_tag_blocks(&v, &pat);
    if blocks.len() == 0 {
        return None;
    }
    proof {
        assert(vviews(blocks@)[0] == blocks@[0]@);
    }
    match first_attr(&blocks[0], &key) {
        Some(val) => Some(crate::chars::chars_to_string(&val)),
        None => None,
    }
}

/// The first `datetime` attribute among `<time ...>` tags.
pub open spec fn time_of_blocks(bs: Seq<Seq<char>>) -> Option<Seq<char>>
    decreases bs.len(),
{
    if bs.len() == 0 {
        None
    } else {
        match first_attr_from(bs[0], 0, "datetime"@) {
            Some(val) => Some(val),
            None => time_of_blocks(bs.drop_first()),
        }
    }
}

pub open spec fn spec_collect_time_datetime(s: Seq<char>) -> Option<Seq<char>> {
    time_of_blocks(tag_blocks_from(s, "<time"@, 0))
}

/// Extract the first `<time datetime=...>` value of the document.
pub fn collect_time_datetime(html: &str) -> (r: Option<String>)
    ensures
        sopt(r) == spec_collect_time_datetime(html@),
{
    let v = str_to_chars(html);
    let pat = str_to_chars("<time");
    let key = str_to_chars("datetime");
    let blocks = collect_tag_blocks(&v, &pat);
    let mut i: usize = 0;
    proof {
        assert(vviews(blocks@).skip(0) =~= vviews(blocks@));
    }
    while i < blocks.len()
        invariant
            0 <= i <= blocks@.len(),
            key@ == "datetime"@,
            vviews(blocks@) == tag_blocks_from(html@, "<time"@, 0),
            spec_collect_time_datetime(html@) == time_of_blocks(
                vviews(blocks@).skip(i as int),
            ),
        decreases blocks@.len() - i,
    {
        proof {
            assert(vviews(blocks@).skip(i as int)[0] == blocks@[i as int]@);
        }
        match first_attr(&blocks[i], &key) {
            Some(val) => {
                return Some(crate::chars::chars_to_string(&val));
            },
            None => {},
        }
        i += 1;
        proof {
            assert(vviews(blocks@).skip(i - 1).drop_first() =~= vviews(blocks@).skip(i as int));
        }
    }
    proof {
        assert(vviews(blocks@).skip(i as int) =~= Seq::<Seq<char>>::empty());
    }
    None
}

// ------------------------------------------------------------------
// Reading the collected meta tags
// ------------------------------------------------------------------

/// The first meta tag whose `name` equals `name` exactly; its content,
/// trimmed.
pub open spec fn spec_meta_value(ms: Seq<MetaV>, name: Seq<char>) -> Option<Seq<char>>
    decreases ms.len(),
{
    if ms.len() == 0 {
        None
    } else if ms[0].name == Some(name) {
        Some(crate::text::trim_sp(ms[0].content))
    } else {
        spec_meta_value(ms.drop_first(), name)
    }
}

/// The first meta tag whose `name` equals `name` ignoring ASCII case.
pub open spec fn spec_meta_name(ms: Seq<MetaV>, name: Seq<char>) -> Option<Seq<char>>
    decreases ms.len(),
{
    if ms.len() == 0 {
        None
    } else if ms[0].name matches Some(n) && eq_ci(n, name) {
        Some(crate::text::trim_sp(ms[0].content))
    } else {
        spec_meta_name(ms.drop_first(), name)
    }
}

/// The first meta tag whose `property` equals `prop` exactly.
pub open spec fn spec_meta_property(ms: Seq<MetaV>, prop: Seq<char>) -> Option<Seq<char>>
    decreases ms.len(),
{
    if ms.len() == 0 {
        None
    } else if ms[0].property == Some(prop) {
        Some(crate::text::trim_sp(ms[0].content))
    } else {
        spec_meta_property(ms.drop_first(), prop)
    }
}

/// The first meta tag whose `http-equiv` equals `key` ignoring case.
pub open spec fn spec_meta_http_equiv(ms: Seq<MetaV>, key: Seq<char>) -> Option<Seq<char>>
    decreases ms.len(),
{
    if ms.len() == 0 {
        None
    } else if ms[0].http_equiv matches Some(n) && eq_ci(n, key) {
        Some(crate::text::trim_sp(ms[0].content))
    } else {
        spec_meta_http_equiv(ms.drop_first(), key)
    }
}

fn trimmed_content(m: &MetaTag) -> (r: String)
    ensures
        r@ == crate::text::trim_sp(m.content@),
{
    let c = str_to_chars(m.content.as_str());
    let t = crate::text::trim_chars(&c);
    crate::chars::chars_to_string(&t)
}

/// First `<meta name=...>` value with this exact name, trimmed.
pub fn meta_value(metas: &Vec<MetaTag>, name: &str) -> (r: Option<String>)
    ensures
        sopt(r) == spec_meta_value(mviews(metas@), name@),
{
    let target = str_to_chars(name);
    let mut i: usize = 0;
    proof {
        assert(mviews(metas@).skip(0) =~= mviews(metas@));
    }
    while i < metas.len()
        invariant
            0 <= i <= metas@.len(),
            target@ == name@,
            spec_meta_value(mviews(metas@), name@) == spec_meta_value(
                mviews(metas@).skip(i as int),
                name@,
            ),
        decreases metas@.len() - i,
    {
        proof {
            assert(mviews(metas@).skip(i as int)[0] == mview(metas@[i as int]));
        }
        let hit = match &metas[i].name {
            Some(n) => {
                let nv = str_to_chars(n.as_str());
                crate::text::eq_chars(&nv, &target)
            },
            None => false,
        };
        if hit {
            return Some(trimmed_content(&metas[i]));
        }
        i += 1;
        proof {
            assert(mviews(metas@).skip(i - 1).drop_first() =~= mviews(metas@).skip(i as int));
        }
    }
    proof {
        assert(mviews(metas@).skip(i as int) =~= Seq::<MetaV>::empty());
    }
    None
}

/// First `<meta name=...>` value with this name ignoring case, trimmed.
pub fn meta_name(metas: &Vec<MetaTag>, name: &str) -> (r: Option<String>)
    ensures
        sopt(r) == spec_meta_name(mviews(metas@), name@),
{
    let target = str_to_chars(name);
    let mut i: usize = 0;
    proof {
        assert(mviews(metas@).skip(0) =~= mviews(metas@));
    }
    while i < metas.len()
        invariant
            0 <= i <= metas@.len(),
            target@ == name@,
            spec_meta_name(mviews(metas@), name@) == spec_meta_name(
                mviews(metas@).skip(i as int),
                name@,
            ),
        decreases metas@.len() - i,
    {
        proof {
            assert(mviews(metas@).skip(i as int)[0] == mview(metas@[i as int]));
        }
        let hit = match &metas[i].name {
            Some(n) => {
                let nv = str_to_chars(n.as_str());
                eq_chars_ci(&nv, &target)
            },
            None => false,
        };
        if hit {
            return Some(trimmed_content(&metas[i]));
        }
        i += 1;
        proof {
            assert(mviews(metas@).skip(i - 1).drop_first() =~= mviews(metas@).skip(i as int));
        }
    }
    proof {
        assert(mviews(metas@).skip(i as int) =~= Seq::<MetaV>::empty());
    }
    None
}

/// First `<meta property=...>` value with this exact property, trimmed.
pub fn meta_property(metas: &Vec<MetaTag>, prop: &str) -> (r: Option<String>)
    ensures
        sopt(r) == spec_meta_property(mviews(metas@), prop@),
{
    let target = str_to_chars(prop);
    let mut i: usize = 0;
    proof {
        assert(mviews(metas@).skip(0) =~= mviews(metas@));
    }
    while i < metas.len()
        invariant
            0 <= i <= metas@.len(),
            target@ == prop@,
            spec_meta_property(mviews(metas@), prop@) == spec_meta_property(
                mviews(metas@).skip(i as int),
                prop@,
            ),
        decreases metas@.len() - i,
    {
        proof {
            assert(mviews(metas@).skip(i as int)[0] == mview(metas@[i as int]));
        }
        let hit = match &metas[i].property {
            Some(n) => {
                let nv = str_to_chars(n.as_str());
                crate::text::eq_chars(&nv, &target)
            },
            None => false,
        };
        if hit {
            return Some(trimmed_content(&metas[i]));
        }
        i += 1;
        proof {
            assert(mviews(metas@).skip(i - 1).drop_first() =~= mviews(metas@).skip(i as int));
        }
    }
    proof {
        assert(mviews(metas@).skip(i as int) =~= Seq::<MetaV>::empty());
    }
    None
}

/// First `<meta http-equiv=...>` value with this key ignoring case.
pub fn meta_http_equiv(metas: &Vec<MetaTag>, key: &str) -> (r: Option<String>)
    ensures
        sopt(r) == spec_meta_http_equiv(mviews(metas@), key@),
{
    let target = str_to_chars(key);
    let mut i: usize = 0;
    proof {
        assert(mviews(metas@).skip(0) =~= mviews(metas@));
    }
    while i < metas.len()
        invariant
            0 <= i <= metas@.len(),
            target@ == key@,
            spec_meta_http_equiv(mviews(metas@), key@) == spec_meta_http_equiv(
                mviews(metas@).skip(i as int),
                key@,
            ),
        decreases metas@.len() - i,
    {
        proof {
            assert(mviews(metas@).skip(i as int)[0] == mview(metas@[i as int]));
        }
        let hit = match &metas[i].http_equiv {
            Some(n) => {
                let nv = str_to_chars(n.as_str());
                eq_chars_ci(&nv, &target)
            },
            None => false,
        };
        if hit {
            return Some(trimmed_content(&metas[i]));
        }
        i += 1;
        proof {
            assert(mviews(metas@).skip(i - 1).drop_first() =~= mviews(metas@).skip(i as int));
        }
    }
    proof {
        assert(mviews(metas@).skip(i as int) =~= Seq::<MetaV>::empty());
    }
    None
}

/// The first of several exact names that has a value.
pub open spec fn spec_meta_value_any(ms: Seq<MetaV>, names: Seq<Seq<char>>) -> Option<Seq<char>>
    decreases names.len(),
{
    if names.len() == 0 {
        None
    } else {
        match spec_meta_value(ms, names[0]) {
            Some(v) => Some(v),
            None => spec_meta_value_any(ms, names.drop_first()),
        }
    }
}

/// Look several exact meta names up, first value wins.
pub fn meta_value_any(metas: &Vec<MetaTag>, names: &Vec<String>) -> (r: Option<String>)
    ensures
        sopt(r) == spec_meta_value_any(mviews(metas@), names@.map_values(|n: String| n@)),
{
    let ghost nv = names@.map_values(|n: String| n@);
    let mut i: usize = 0;
    proof {
        assert(nv.skip(0) =~= nv);
    }
    while i < names.len()
        invariant
            0 <= i <= names@.len(),
            nv == names@.map_values(|n: String| n@),
            spec_meta_value_any(mviews(metas@), nv) == spec_meta_value_any(
                mviews(metas@),
                nv.skip(i as int),
            ),
        decreases names@.len() - i,
    {
        proof {
            assert(nv.skip(i as int)[0] == names@[i as int]@);
        }
        match meta_value(metas, names[i].as_str()) {
            Some(v) => {
                return Some(v);
            },
            None => {},
        }
        i += 1;
        proof {
            assert(nv.skip(i - 1).drop_first() =~= nv.skip(i as int));
        }
    }
    proof {
        assert(nv.skip(i as int) =~= Seq::<Seq<char>>::empty());
    }
    None
}

} // verus!
