//! Shared field helpers for the webpage-style resolvers: creator lists,
//! keyword lists, dates, page ranges and site-name suffixes.

use vstd::prelude::*;

use crate::chars::{chars_to_string, is_digit, is_word, str_to_chars};
use crate::doi::doi_scan;
use crate::html::{
    find_char_from, find_from, lemma_find_char_bounds, mview, mviews, sopt, ws_run, MetaTag, MetaV,
};
use crate::text::{
    eq_ci, is_space, lemma_trim_end_if_index, lemma_trim_start_if_index, occurs_at, occurs_at_ci, sviews,
    spec_normalize_ws, trim_end_if, trim_sp, trim_start_if,
};

verus! {

pub open spec fn comma_pred() -> spec_fn(char) -> bool {
    |c: char| c == ','
}

pub open spec fn tagsep_pred() -> spec_fn(char) -> bool {
    |c: char| c == ',' || c == ';'
}

/// Both ends trimmed of characters satisfying `comma_pred`.
pub open spec fn trim_commas(s: Seq<char>) -> Seq<char> {
    trim_end_if(trim_start_if(s, comma_pred()), comma_pred())
}

fn trim_commas_chars(v: &Vec<char>) -> (r: Vec<char>)
    ensures
        r@ == trim_commas(v@),
{
    let n = v.len();
    let mut a: usize = 0;
    while a < n && v[a] == ','
        invariant
            0 <= a <= n,
            n == v@.len(),
            forall|j: int| 0 <= j < a ==> v@[j] == ',',
        decreases n - a,
    {
        a += 1;
    }
    proof {
        lemma_trim_start_if_index(v@, comma_pred(), a as int);
    }
    let ghost mid = v@.subrange(a as int, n as int);
    let mut b: usize = n;
    while b > a && v[b - 1] == ','
        invariant
            a <= b <= n,
            n == v@.len(),
            forall|j: int| b <= j < n ==> v@[j] == ',',
        decreases b,
    {
        b -= 1;
    }
    proof {
        assert(forall|j: int| b - a <= j < mid.len() ==> mid[j] == ',');
        if b > a {
            assert(mid[b - a - 1] == v@[b - 1]);
        }
        lemma_trim_end_if_index(mid, comma_pred(), b - a);
        assert(mid.subrange(0, b - a) =~= v@.subrange(a as int, b as int));
    }
    crate::text::subvec(v, a, b)
}

/// What `normalize_name` returns: whitespace normalized, commas and
/// whitespace trimmed from both ends.
pub open spec fn spec_normalize_name(s: Seq<char>) -> Seq<char> {
    trim_sp(trim_commas(spec_normalize_ws(s)))
}

/// Normalize one creator name.
pub fn normalize_name(s: &str) -> (r: String)
    ensures
        r@ == spec_normalize_name(s@),
{
    let v = str_to_chars(s);
    let w = crate::text::normalize_chars(&v);
    let t = trim_commas_chars(&w);
    let u = crate::text::trim_chars(&t);
    chars_to_string(&u)
}

/// A creator value that is really a URL or a handle, not a name.
pub open spec fn spec_looks_like_url_or_handle(s: Seq<char>) -> bool {
    contains_char(s, '@') || occurs_at(s, "http://"@, 0) || occurs_at(s, "https://"@, 0)
}

pub open spec fn contains_char(s: Seq<char>, c: char) -> bool {
    exists|i: int| 0 <= i < s.len() && s[i] == c
}

/// Does the string look like a URL or a social handle?
pub fn looks_like_url_or_handle(s: &str) -> (r: bool)
    ensures
        r == spec_looks_like_url_or_handle(s@),
{
    let v = str_to_chars(s);
    let mut has_at = false;
    let mut i: usize = 0;
    while i < v.len()
        invariant
            0 <= i <= v@.len(),
            has_at == exists|j: int| 0 <= j < i && v@[j] == '@',
        decreases v@.len() - i,
    {
        if v[i] == '@' {
            has_at = true;
        }
        i += 1;
    }
    let http = str_to_chars("http://");
    let https = str_to_chars("https://");
    has_at || crate::text::matches_at(&v, &http, 0) || crate::text::matches_at(&v, &https, 0)
}

// ------------------------------------------------------------------
// Splitting
// ------------------------------------------------------------------

/// Split on a separator character, pieces in order, scanning from `p`.
pub open spec fn split_char_from(s: Seq<char>, c: char, p: int) -> Seq<Seq<char>>
    decreases s.len() - p when 0 <= p <= s.len()
{
    match find_char_from(s, c, p) {
        None => seq![s.subrange(p, s.len() as int)],
        Some(i) => if p <= i < s.len() {
            seq![s.subrange(p, i)] + split_char_from(s, c, i + 1)
        } else {
            seq![s.subrange(p, s.len() as int)]
        },
    }
}

/// Split on a separator string, pieces in order, scanning from `p`.
pub open spec fn split_seq_from(s: Seq<char>, sep: Seq<char>, p: int) -> Seq<Seq<char>>
    decreases s.len() - p when 0 <= p <= s.len() && sep.len() > 0
{
    match find_from(s, sep, p) {
        None => seq![s.subrange(p, s.len() as int)],
        Some(i) => if p <= i && i + sep.len() <= s.len() {
            seq![s.subrange(p, i)] + split_seq_from(s, sep, i + sep.len())
        } else {
            seq![s.subrange(p, s.len() as int)]
        },
    }
}

/// Split `v` on the character `c`.
pub fn split_char_vec(v: &Vec<char>, c: char) -> (r: Vec<Vec<char>>)
    ensures
        crate::html::vviews(r@) == split_char_from(v@, c, 0),
{
    let mut out: Vec<Vec<char>> = Vec::new();
    let mut p: usize = 0;
    loop
        invariant
            0 <= p <= v@.len(),
            split_char_from(v@, c, 0) == crate::html::vviews(out@) + split_char_from(
                v@,
                c,
                p as int,
            ),
        decreases v@.len() - p,
    {
        match crate::html::find_char(v, c, p) {
            None => {
                let piece = crate::text::subvec(v, p, v.len());
                let ghost old_out = out@;
                out.push(piece);
                proof {
                    assert(crate::html::vviews(out@) =~= crate::html::vviews(old_out).push(
                        v@.subrange(p as int, v@.len() as int),
                    ));
                    assert(crate::html::vviews(out@) =~= crate::html::vviews(old_out) + seq![
                        v@.subrange(p as int, v@.len() as int),
                    ]);
                }
                return out;
            },
            Some(i) => {
                let n = v.len();
                proof {
                    lemma_find_char_bounds(v@, c, p as int);
                }
                let piece = crate::text::subvec(v, p, i);
                let ghost old_out = out@;
                out.push(piece);
                proof {
                    assert(crate::html::vviews(out@) =~= crate::html::vviews(old_out).push(
                        v@.subrange(p as int, i as int),
                    ));
                    assert(crate::html::vviews(old_out).push(v@.subrange(p as int, i as int))
                        + split_char_from(v@, c, i + 1) =~= crate::html::vviews(old_out) + (seq![
                        v@.subrange(p as int, i as int),
                    ] + split_char_from(v@, c, i + 1)));
                }
                p = i + 1;
            },
        }
    }
}

/// Split `v` on the separator `sep`.
pub fn split_seq_vec(v: &Vec<char>, sep: &Vec<char>) -> (r: Vec<Vec<char>>)
    requires
        sep@.len() > 0,
    ensures
        crate::html::vviews(r@) == split_seq_from(v@, sep@, 0),
{
    let mut out: Vec<Vec<char>> = Vec::new();
    let mut p: usize = 0;
    loop
        invariant
            0 <= p <= v@.len(),
            sep@.len() > 0,
            split_seq_from(v@, sep@, 0) == crate::html::vviews(out@) + split_seq_from(
                v@,
                sep@,
                p as int,
            ),
        decreases v@.len() - p,
    {
        match crate::html::find_exact(v, sep, p) {
            None => {
                let piece = crate::text::subvec(v, p, v.len());
                let ghost old_out = out@;
                out.push(piece);
                proof {
                    assert(crate::html::vviews(out@) =~= crate::html::vviews(old_out).push(
                        v@.subrange(p as int, v@.len() as int),
                    ));
                    assert(crate::html::vviews(out@) =~= crate::html::vviews(old_out) + seq![
                        v@.subrange(p as int, v@.len() as int),
                    ]);
                }
                return out;
            },
            Some(i) => {
                let n = v.len();
                let piece = crate::text::subvec(v, p, i);
                let ghost old_out = out@;
                out.push(piece);
                proof {
                    assert(crate::html::vviews(out@) =~= crate::html::vviews(old_out).push(
                        v@.subrange(p as int, i as int),
                    ));
                    assert(crate::html::vviews(old_out).push(v@.subrange(p as int, i as int))
                        + split_seq_from(v@, sep@, i + sep@.len()) =~= crate::html::vviews(old_out)
                        + (seq![v@.subrange(p as int, i as int)] + split_seq_from(
                        v@,
                        sep@,
                        i + sep@.len(),
                    )));
                }
                p = i + sep.len();
            },
        }
    }
}

/// Each piece put through `normalize_name`.
pub open spec fn names_of(pieces: Seq<Seq<char>>) -> Seq<Seq<char>> {
    Seq::new(pieces.len(), |i: int| spec_normalize_name(pieces[i]))
}

/// How a creator value splits into names: on `;` when present, else on
/// ` and `, else on `,` when one occurs, else the whole value.
pub open spec fn spec_split_creators(s: Seq<char>) -> Seq<Seq<char>> {
    let t = trim_sp(s);
    if contains_char(t, ';') {
        names_of(split_char_from(t, ';', 0))
    } else if find_from(t, " and "@, 0) is Some {
        names_of(split_seq_from(t, " and "@, 0))
    } else if contains_char(t, ',') {
        names_of(split_char_from(t, ',', 0))
    } else {
        seq![spec_normalize_name(t)]
    }
}

fn normalize_pieces(pieces: &Vec<Vec<char>>) -> (r: Vec<String>)
    ensures
        sviews(r@) == names_of(crate::html::vviews(pieces@)),
{
    let mut out: Vec<String> = Vec::new();
    let mut i: usize = 0;
    while i < pieces.len()
        invariant
            0 <= i <= pieces@.len(),
            sviews(out@) == names_of(crate::html::vviews(pieces@)).take(i as int),
        decreases pieces@.len() - i,
    {
        let w = crate::text::normalize_chars(&pieces[i]);
        let t = trim_commas_chars(&w);
        let u = crate::text::trim_chars(&t);
        let nstr = chars_to_string(&u);
        let ghost gn = nstr@;
        let ghost old_out = out@;
        out.push(nstr);
        proof {
            assert(sviews(out@) =~= sviews(old_out).push(gn));
            assert(gn == names_of(crate::html::vviews(pieces@))[i as int]);
            assert(sviews(old_out).push(gn) =~= names_of(crate::html::vviews(pieces@)).take(
                i + 1,
            ));
        }
        i += 1;
    }
    proof {
        assert(names_of(crate::html::vviews(pieces@)).take(pieces@.len() as int) =~= names_of(
            crate::html::vviews(pieces@),
        ));
    }
    out
}

/// Split a creator value into normalized names.
pub fn split_creators(s: &str) -> (r: Vec<String>)
    ensures
        sviews(r@) == spec_split_creators(s@),
{
    let v = str_to_chars(s);
    let t = crate::text::trim_chars(&v);
    let mut has_semi = false;
    let mut has_comma = false;
    let mut i: usize = 0;
    while i < t.len()
        invariant
            0 <= i <= t@.len(),
            has_semi == exists|j: int| 0 <= j < i && t@[j] == ';',
            has_comma == exists|j: int| 0 <= j < i && t@[j] == ',',
        decreases t@.len() - i,
    {
        if t[i] == ';' {
            has_semi = true;
        }
        if t[i] == ',' {
            has_comma = true;
        }
        i += 1;
    }
    if has_semi {
        let pieces = split_char_vec(&t, ';');
        normalize_pieces(&pieces)
    } else {
        let and_sep = str_to_chars(" and ");
        let has_and = crate::html::find_exact(&t, &and_sep, 0);
        match has_and {
            Some(_) => {
                proof {
                    reveal_strlit(" and ");
                }
                let pieces = split_seq_vec(&t, &and_sep);
                normalize_pieces(&pieces)
            },
            None => {
                if has_comma {
                    let pieces = split_char_vec(&t, ',');
                    normalize_pieces(&pieces)
                } else {
                    let w = crate::text::normalize_chars(&t);
                    let tc = trim_commas_chars(&w);
                    let u = crate::text::trim_chars(&tc);
                    let mut out: Vec<String> = Vec::new();
                    out.push(chars_to_string(&u));
                    proof {
                        assert(sviews(out@) =~= seq![spec_normalize_name(t@)]);
                    }
                    out
                }
            },
        }
    }
}

// ------------------------------------------------------------------
// Creator collection
// ------------------------------------------------------------------

/// A usable creator value: non-empty and not URL-shaped.
pub open spec fn usable_creator(s: Seq<char>) -> bool {
    s.len() > 0 && !spec_looks_like_url_or_handle(s)
}

/// The trimmed contents of every meta tag with this exact name whose
/// value is a usable creator.
pub open spec fn creators_of(ms: Seq<MetaV>, name: Seq<char>) -> Seq<Seq<char>>
    decreases ms.len(),
{
    if ms.len() == 0 {
        Seq::empty()
    } else {
        creators_of(ms.drop_last(), name) + (if ms.last().name == Some(name) && usable_creator(
            trim_sp(ms.last().content),
        ) {
            seq![trim_sp(ms.last().content)]
        } else {
            Seq::empty()
        })
    }
}

/// Append every usable creator from meta tags with this exact name.
pub fn extend_creators(out: &mut Vec<String>, metas: &Vec<MetaTag>, name: &str)
    ensures
        sviews(final(out)@) == sviews(old(out)@) + creators_of(mviews(metas@), name@),
{
    let target = str_to_chars(name);
    let mut i: usize = 0;
    while i < metas.len()
        invariant
            0 <= i <= metas@.len(),
            target@ == name@,
            sviews(out@) == sviews(old(out)@) + creators_of(
                mviews(metas@).take(i as int),
                name@,
            ),
        decreases metas@.len() - i,
    {
        let hit = match &metas[i].name {
            Some(n) => {
                let nv = str_to_chars(n.as_str());
                crate::text::eq_chars(&nv, &target)
            },
            None => false,
        };
        let ghost old_view = sviews(out@);
        if hit {
            let c = str_to_chars(metas[i].content.as_str());
            let t = crate::text::trim_chars(&c);
            let ts = chars_to_string(&t);
            if !ts.as_str().is_empty() && !looks_like_url_or_handle(ts.as_str()) {
                let ghost gn = ts@;
                out.push(ts);
                proof {
                    assert(sviews(out@) =~= old_view.push(gn));
                }
            } else {
                proof {
                    if ts@.len() == 0 {
                    } else {
                        assert(spec_looks_like_url_or_handle(ts@));
                    }
                }
            }
        }
        proof {
            assert(mviews(metas@).take(i + 1).drop_last() =~= mviews(metas@).take(i as int));
            assert(mviews(metas@).take(i + 1).last() == mview(metas@[i as int]));
            assert(sviews(out@) =~= sviews(old(out)@) + creators_of(
                mviews(metas@).take(i + 1),
                name@,
            ));
        }
        i += 1;
    }
    proof {
        assert(mviews(metas@).take(metas@.len() as int) =~= mviews(metas@));
    }
}

/// The names split out of the value of the first meta tag with this
/// name, keeping the usable ones.
pub open spec fn split_usable(names: Seq<Seq<char>>) -> Seq<Seq<char>>
    decreases names.len(),
{
    if names.len() == 0 {
        Seq::empty()
    } else {
        split_usable(names.drop_last()) + (if usable_creator(names.last()) {
            seq![names.last()]
        } else {
            Seq::empty()
        })
    }
}

pub open spec fn creators_split_of(ms: Seq<MetaV>, name: Seq<char>) -> Seq<Seq<char>> {
    match crate::html::spec_meta_value(ms, name) {
        Some(v) => split_usable(spec_split_creators(v)),
        None => Seq::empty(),
    }
}

/// Append the usable creators split out of the first meta tag with this
/// name.
pub fn extend_creators_split(out: &mut Vec<String>, metas: &Vec<MetaTag>, name: &str)
    ensures
        sviews(final(out)@) == sviews(old(out)@) + creators_split_of(mviews(metas@), name@),
{
    match crate::html::meta_value(metas, name) {
        None => {
            proof {
                assert(sviews(out@) =~= sviews(old(out)@) + Seq::<Seq<char>>::empty());
            }
        },
        Some(v) => {
            let names = split_creators(v.as_str());
            let mut j: usize = 0;
            while j < names.len()
                invariant
                    0 <= j <= names@.len(),
                    sviews(names@) == spec_split_creators(v@),
                    sviews(out@) == sviews(old(out)@) + split_usable(
                        sviews(names@).take(j as int),
                    ),
                decreases names@.len() - j,
            {
                let s = &names[j];
                let ghost old_view = sviews(out@);
                if !s.as_str().is_empty() && !looks_like_url_or_handle(s.as_str()) {
                    let copy = s.clone();
                    let ghost gn = copy@;
                    out.push(copy);
                    proof {
                        assert(sviews(out@) =~= old_view.push(gn));
                    }
                } else {
                    proof {
                        if s@.len() == 0 {
                        } else {
                            assert(spec_looks_like_url_or_handle(s@));
                        }
                    }
                }
                proof {
                    assert(sviews(names@).take(j + 1).drop_last() =~= sviews(names@).take(
                        j as int,
                    ));
                    assert(sviews(names@).take(j + 1).last() == names@[j as int]@);
                    assert(sviews(out@) =~= sviews(old(out)@) + split_usable(
                        sviews(names@).take(j + 1),
                    ));
                }
                j += 1;
            }
            proof {
                assert(sviews(names@).take(names@.len() as int) =~= sviews(names@));
            }
        },
    }
}

/// The usable OpenGraph `article:author` values: trimmed contents of the
/// tags with that property, keeping those that are non-empty and do not
/// parse as URLs.
pub open spec fn og_article_authors(ms: Seq<MetaV>) -> Seq<Seq<char>>
    decreases ms.len(),
{
    if ms.len() == 0 {
        Seq::empty()
    } else {
        og_article_authors(ms.drop_last()) + (if ms.last().property == Some("article:author"@)
            && trim_sp(ms.last().content).len() > 0 && crate::urlweb::url_parts(
            trim_sp(ms.last().content),
        ) is None {
            seq![trim_sp(ms.last().content)]
        } else {
            Seq::empty()
        })
    }
}

/// Collect the OpenGraph `article:author` values that are names, not
/// URLs.
pub fn collect_og_article_authors(metas: &Vec<MetaTag>) -> (r: Vec<String>)
    ensures
        sviews(r@) == og_article_authors(mviews(metas@)),
{
    let target = str_to_chars("article:author");
    let mut out: Vec<String> = Vec::new();
    let mut i: usize = 0;
    while i < metas.len()
        invariant
            0 <= i <= metas@.len(),
            target@ == "article:author"@,
            sviews(out@) == og_article_authors(mviews(metas@).take(i as int)),
        decreases metas@.len() - i,
    {
        let hit = match &metas[i].property {
            Some(p) => {
                let pv = str_to_chars(p.as_str());
                crate::text::eq_chars(&pv, &target)
            },
            None => false,
        };
        let ghost old_view = sviews(out@);
        if hit {
            let c = str_to_chars(metas[i].content.as_str());
            let t = crate::text::trim_chars(&c);
            if t.len() != 0 {
                let ts = chars_to_string(&t);
                match crate::urlweb::parse_url(ts.as_str()) {
                    Some(_) => {},
                    None => {
                        let ghost gn = ts@;
                        out.push(ts);
                        proof {
                            assert(sviews(out@) =~= old_view.push(gn));
                        }
                    },
                }
            }
        }
        proof {
            assert(mviews(metas@).take(i + 1).drop_last() =~= mviews(metas@).take(i as int));
            assert(mviews(metas@).take(i + 1).last() == mview(metas@[i as int]));
            assert(sviews(out@) =~= og_article_authors(mviews(metas@).take(i + 1)));
        }
        i += 1;
    }
    proof {
        assert(mviews(metas@).take(metas@.len() as int) =~= mviews(metas@));
    }
    out
}

// ------------------------------------------------------------------
// Deduplication
// ------------------------------------------------------------------

/// Keep the first occurrence of each value, comparing ASCII
/// case-insensitively.
pub open spec fn dedup_ci(s: Seq<Seq<char>>) -> Seq<Seq<char>>
    decreases s.len(),
{
    if s.len() == 0 {
        Seq::empty()
    } else {
        dedup_ci(s.drop_last()) + (if exists|j: int|
            0 <= j < s.len() - 1 && eq_ci(s[j], s.last()) {
            Seq::empty()
        } else {
            seq![s.last()]
        })
    }
}

/// Drop later case-insensitive duplicates, keeping first occurrences in
/// order.
pub fn dedup_in_place(v: &mut Vec<String>)
    ensures
        sviews(final(v)@) == dedup_ci(sviews(old(v)@)),
{
    let mut out: Vec<String> = Vec::new();
    let mut i: usize = 0;
    while i < v.len()
        invariant
            0 <= i <= v@.len(),
            v@ == old(v)@,
            sviews(out@) == dedup_ci(sviews(v@).take(i as int)),
        decreases v@.len() - i,
    {
        let cur = str_to_chars(v[i].as_str());
        let mut seen = false;
        let mut j: usize = 0;
        while j < i
            invariant
                0 <= j <= i < v@.len(),
                cur@ == v@[i as int]@,
                seen == exists|k: int| 0 <= k < j && eq_ci(v@[k]@, v@[i as int]@),
            decreases i - j,
        {
            let prev = str_to_chars(v[j].as_str());
            if crate::text::eq_chars_ci(&prev, &cur) {
                seen = true;
            }
            j += 1;
        }
        let ghost old_view = sviews(out@);
        if !seen {
            let copy = v[i].clone();
            let ghost gn = copy@;
            out.push(copy);
            proof {
                assert(sviews(out@) =~= old_view.push(gn));
            }
        }
        proof {
            let sv = sviews(v@);
            assert(sv.take(i + 1).drop_last() =~= sv.take(i as int));
            assert(sv.take(i + 1).last() == v@[i as int]@);
            assert forall|k: int| 0 <= k < i implies sv.take(i + 1)[k] == v@[k]@ by {}
            assert(sviews(out@) =~= dedup_ci(sv.take(i + 1)));
        }
        i += 1;
    }
    proof {
        assert(sviews(v@).take(v@.len() as int) =~= sviews(v@));
    }
    *v = out;
}

/// Strings joined with a separator.
pub open spec fn join_with(xs: Seq<Seq<char>>, sep: Seq<char>) -> Seq<char>
    decreases xs.len(),
{
    if xs.len() == 0 {
        Seq::empty()
    } else if xs.len() == 1 {
        xs[0]
    } else {
        join_with(xs.drop_last(), sep) + sep + xs.last()
    }
}

/// Join strings with a separator.
pub fn join_strings(v: &Vec<String>, sep: &str) -> (r: String)
    ensures
        r@ == join_with(sviews(v@), sep@),
{
    let mut out: Vec<char> = Vec::new();
    let sv = str_to_chars(sep);
    let mut i: usize = 0;
    while i < v.len()
        invariant
            0 <= i <= v@.len(),
            sv@ == sep@,
            out@ == join_with(sviews(v@).take(i as int), sep@),
        decreases v@.len() - i,
    {
        if i > 0 {
            crate::text::append_all(&mut out, &sv);
        }
        let ev = str_to_chars(v[i].as_str());
        crate::text::append_all(&mut out, &ev);
        i += 1;
        proof {
            let xs = sviews(v@);
            assert(xs.take(i as int).drop_last() =~= xs.take(i - 1));
            assert(xs.take(i as int).last() == v@[i - 1]@);
            if i == 1 {
                assert(out@ =~= join_with(xs.take(1), sep@));
            } else {
                assert(out@ =~= join_with(xs.take(i as int), sep@));
            }
        }
    }
    proof {
        assert(sviews(v@).take(v@.len() as int) =~= sviews(v@));
    }
    chars_to_string(&out)
}

// ------------------------------------------------------------------
// Keyword tags
// ------------------------------------------------------------------

/// One keyword piece cleaned: whitespace normalized, stray separators
/// and whitespace trimmed.
pub open spec fn clean_tag(p: Seq<char>) -> Seq<char> {
    trim_sp(trim_end_if(trim_start_if(spec_normalize_ws(p), tagsep_pred()), tagsep_pred()))
}

/// The cleaned, non-empty pieces.
pub open spec fn tags_clean(ps: Seq<Seq<char>>) -> Seq<Seq<char>>
    decreases ps.len(),
{
    if ps.len() == 0 {
        Seq::empty()
    } else {
        tags_clean(ps.drop_last()) + (if clean_tag(ps.last()).len() > 0 {
            seq![clean_tag(ps.last())]
        } else {
            Seq::empty()
        })
    }
}

/// How a keyword value splits into tags: on `;` when present, else on
/// `,`, else the whole value; each piece cleaned, empties dropped.
pub open spec fn spec_split_tags(s: Seq<char>) -> Seq<Seq<char>> {
    let t = trim_sp(s);
    if t.len() == 0 {
        Seq::empty()
    } else if contains_char(t, ';') {
        tags_clean(split_char_from(t, ';', 0))
    } else if contains_char(t, ',') {
        tags_clean(split_char_from(t, ',', 0))
    } else {
        tags_clean(seq![t])
    }
}

fn trim_tagsep_chars(v: &Vec<char>) -> (r: Vec<char>)
    ensures
        r@ == trim_end_if(trim_start_if(v@, tagsep_pred()), tagsep_pred()),
{
    let n = v.len();
    let mut a: usize = 0;
    while a < n && (v[a] == ',' || v[a] == ';')
        invariant
            0 <= a <= n,
            n == v@.len(),
            forall|j: int| 0 <= j < a ==> v@[j] == ',' || v@[j] == ';',
        decreases n - a,
    {
        a += 1;
    }
    proof {
        lemma_trim_start_if_index(v@, tagsep_pred(), a as int);
    }
    let ghost mid = v@.subrange(a as int, n as int);
    let mut b: usize = n;
    while b > a && (v[b - 1] == ',' || v[b - 1] == ';')
        invariant
            a <= b <= n,
            n == v@.len(),
            forall|j: int| b <= j < n ==> v@[j] == ',' || v@[j] == ';',
        decreases b,
    {
        b -= 1;
    }
    proof {
        assert(forall|j: int| b - a <= j < mid.len() ==> mid[j] == ',' || mid[j] == ';');
        if b > a {
            assert(mid[b - a - 1] == v@[b - 1]);
        }
        lemma_trim_end_if_index(mid, tagsep_pred(), b - a);
        assert(mid.subrange(0, b - a) =~= v@.subrange(a as int, b as int));
    }
    crate::text::subvec(v, a, b)
}

fn clean_tag_pieces(pieces: &Vec<Vec<char>>) -> (r: Vec<String>)
    ensures
        sviews(r@) == tags_clean(crate::html::vviews(pieces@)),
{
    let mut out: Vec<String> = Vec::new();
    let mut i: usize = 0;
    while i < pieces.len()
        invariant
            0 <= i <= pieces@.len(),
            sviews(out@) == tags_clean(crate::html::vviews(pieces@).take(i as int)),
        decreases pieces@.len() - i,
    {
        let w = crate::text::normalize_chars(&pieces[i]);
        let t = trim_tagsep_chars(&w);
        let u = crate::text::trim_chars(&t);
        let ghost old_view = sviews(out@);
        if u.len() != 0 {
            let nstr = chars_to_string(&u);
            let ghost gn = nstr@;
            out.push(nstr);
            proof {
                assert(sviews(out@) =~= old_view.push(gn));
            }
        }
        proof {
            assert(crate::html::vviews(pieces@).take(i + 1).drop_last() =~= crate::html::vviews(
                pieces@,
            ).take(i as int));
            assert(crate::html::vviews(pieces@).take(i + 1).last() == pieces@[i as int]@);
            assert(sviews(out@) =~= tags_clean(crate::html::vviews(pieces@).take(i + 1)));
        }
        i += 1;
    }
    proof {
        assert(crate::html::vviews(pieces@).take(pieces@.len() as int) =~= crate::html::vviews(
            pieces@,
        ));
    }
    out
}

/// Split a keyword value into cleaned tags.
pub fn split_tags(s: String) -> (r: Vec<String>)
    ensures
        sviews(r@) == spec_split_tags(s@),
{
    let v = str_to_chars(s.as_str());
    let t = crate::text::trim_chars(&v);
    if t.len() == 0 {
        let out: Vec<String> = Vec::new();
        proof {
            assert(sviews(out@) =~= Seq::<Seq<char>>::empty());
        }
        return out;
    }
    let mut has_semi = false;
    let mut has_comma = false;
    let mut i: usize = 0;
    while i < t.len()
        invariant
            0 <= i <= t@.len(),
            has_semi == exists|j: int| 0 <= j < i && t@[j] == ';',
            has_comma == exists|j: int| 0 <= j < i && t@[j] == ',',
        decreases t@.len() - i,
    {
        if t[i] == ';' {
            has_semi = true;
        }
        if t[i] == ',' {
            has_comma = true;
        }
        i += 1;
    }
    if has_semi {
        let pieces = split_char_vec(&t, ';');
        clean_tag_pieces(&pieces)
    } else if has_comma {
        let pieces = split_char_vec(&t, ',');
        clean_tag_pieces(&pieces)
    } else {
        let mut pieces: Vec<Vec<char>> = Vec::new();
        pieces.push(t);
        proof {
            assert(crate::html::vviews(pieces@) =~= seq![pieces@[0]@]);
        }
        clean_tag_pieces(&pieces)
    }
}

// ------------------------------------------------------------------
// Site-name suffix stripping
// ------------------------------------------------------------------

/// A separator character between a title and a trailing site name.
pub open spec fn is_site_sep(c: char) -> bool {
    c == '-' || c == '\u{2013}' || c == '\u{2014}' || c == '=' || c == '|' || c == ':' || c == '~'
        || c == '#'
}

pub fn site_sep(c: char) -> (r: bool)
    ensures
        r == is_site_sep(c),
{
    c == '-' || c == '\u{2013}' || c == '\u{2014}' || c == '=' || c == '|' || c == ':' || c == '~'
        || c == '#'
}

/// From `i` to the end, the title reads: whitespace, one separator,
/// whitespace, the site name (ignoring case), whitespace.
pub open spec fn site_match_at(s: Seq<char>, i: int, site: Seq<char>) -> bool {
    let a = ws_run(s, i);
    let p = i + a;
    &&& 0 <= i <= s.len()
    &&& p < s.len()
    &&& is_site_sep(s[p])
    &&& {
        let b = ws_run(s, p + 1);
        let q = p + 1 + b;
        &&& q + site.len() <= s.len()
        &&& eq_ci(s.subrange(q, q + site.len()), site)
        &&& forall|j: int| q + site.len() <= j < s.len() ==> is_space(s[j])
    }
}

/// The first position where the trailing site name starts, if any.
pub open spec fn site_scan(s: Seq<char>, i: int, site: Seq<char>) -> Option<int>
    decreases s.len() + 1 - i when 0 <= i
{
    if i > s.len() {
        None
    } else if site_match_at(s, i, site) {
        Some(i)
    } else {
        site_scan(s, i + 1, site)
    }
}

/// What `strip_site_suffix` returns: the title with a trailing
/// separator-plus-site-name removed, trimmed.
pub open spec fn spec_strip_site_suffix(title: Seq<char>, site: Seq<char>) -> Seq<char> {
    let st = trim_sp(site);
    match site_scan(title, 0, st) {
        Some(i) => trim_sp(title.take(i)),
        None => trim_sp(title),
    }
}

proof fn lemma_ws_run_props(s: Seq<char>, i: int)
    requires
        0 <= i <= s.len(),
    ensures
        i + ws_run(s, i) <= s.len(),
        forall|j: int| i <= j < i + ws_run(s, i) ==> is_space(s[j]),
        i + ws_run(s, i) == s.len() || !is_space(s[i + ws_run(s, i)]),
    decreases s.len() - i,
{
    if i < s.len() && is_space(s[i]) {
        lemma_ws_run_props(s, i + 1);
    }
}

fn site_match(v: &Vec<char>, i: usize, site: &Vec<char>) -> (r: bool)
    requires
        i <= v@.len(),
    ensures
        r == site_match_at(v@, i as int, site@),
{
    let n = v.len();
    let a = crate::html::exec_ws_run(v, i);
    let p = i + a;
    proof {
        lemma_ws_run_props(v@, i as int);
    }
    if !(p < n && site_sep(v[p])) {
        return false;
    }
    let b = crate::html::exec_ws_run(v, p + 1);
    let q = p + 1 + b;
    proof {
        lemma_ws_run_props(v@, p + 1);
    }
    if site.len() > n - q {
        return false;
    }
    if !crate::text::matches_at_ci(v, site, q) {
        proof {
            assert(!eq_ci(v@.subrange(q as int, q + site@.len()), site@)) by {
                if eq_ci(v@.subrange(q as int, q + site@.len()), site@) {
                    assert(forall|j: int|
                        0 <= j < site@.len() ==> #[trigger] v@.subrange(
                            q as int,
                            q + site@.len(),
                        )[j] == v@[q + j]);
                    assert(occurs_at_ci(v@, site@, q as int));
                }
            }
        }
        return false;
    }
    let e = q + site.len();
    let c = crate::html::exec_ws_run(v, e);
    proof {
        lemma_ws_run_props(v@, e as int);
    }
    if e + c == n {
        proof {
            assert(eq_ci(v@.subrange(q as int, q + site@.len()), site@)) by {
                assert(forall|j: int|
                    0 <= j < site@.len() ==> #[trigger] v@.subrange(q as int, q + site@.len())[j]
                        == v@[q + j]);
            }
        }
        true
    } else {
        proof {
            assert(!is_space(v@[e + c]));
        }
        false
    }
}

/// Strip a trailing ` — SiteName` style suffix from a title, then trim.
pub fn strip_site_suffix(title: &str, site: &str) -> (r: String)
    ensures
        r@ == spec_strip_site_suffix(title@, site@),
{
    let v = str_to_chars(title);
    let sv = str_to_chars(site);
    let st = crate::text::trim_chars(&sv);
    let n = v.len();
    let mut i: usize = 0;
    while i < n
        invariant
            0 <= i <= n,
            n == v@.len(),
            v@ == title@,
            st@ == trim_sp(site@),
            site_scan(v@, 0, st@) == site_scan(v@, i as int, st@),
        decreases n - i,
    {
        if site_match(&v, i, &st) {
            let head = crate::text::subvec(&v, 0, i);
            proof {
                assert(head@ =~= v@.take(i as int));
            }
            let t = crate::text::trim_chars(&head);
            return chars_to_string(&t);
        }
        i += 1;
    }
    if site_match(&v, i, &st) {
        let head = crate::text::subvec(&v, 0, i);
        proof {
            assert(head@ =~= v@.take(i as int));
        }
        let t = crate::text::trim_chars(&head);
        return chars_to_string(&t);
    }
    proof {
        assert(site_scan(v@, i + 1, st@) is None);
        assert(site_scan(v@, 0, st@) is None);
    }
    let t = crate::text::trim_chars(&v);
    chars_to_string(&t)
}

// ------------------------------------------------------------------
// Years and dates
// ------------------------------------------------------------------

/// A four-digit year on word boundaries begins at `i`.
pub open spec fn year_at(s: Seq<char>, i: int) -> bool {
    &&& 0 <= i
    &&& i + 4 <= s.len()
    &&& (i == 0 || !is_word(s[i - 1]))
    &&& forall|j: int| i <= j < i + 4 ==> is_digit(s[j])
    &&& (i + 4 == s.len() || !is_word(s[i + 4]))
}

pub open spec fn year_scan(s: Seq<char>, i: int) -> Option<int>
    decreases s.len() + 1 - i when 0 <= i
{
    if i > s.len() {
        None
    } else if year_at(s, i) {
        Some(i)
    } else {
        year_scan(s, i + 1)
    }
}

/// The numeric value of a digit character.
pub open spec fn digit_val(c: char) -> int {
    c as int - 48
}

/// The value of the four digits starting at `i`.
pub open spec fn year_value(s: Seq<char>, i: int) -> int {
    1000 * digit_val(s[i]) + 100 * digit_val(s[i + 1]) + 10 * digit_val(s[i + 2]) + digit_val(
        s[i + 3],
    )
}

/// The value of the first four-digit year in `s`, if any.
pub open spec fn spec_extract_year(s: Seq<char>) -> Option<int> {
    match year_scan(s, 0) {
        Some(i) => Some(year_value(s, i)),
        None => None,
    }
}

fn digit_value(c: char) -> (r: u32)
    requires
        is_digit(c),
    ensures
        r == digit_val(c),
        r <= 9,
{
    c as u32 - 48
}

/// Find the first four-digit year in `s`.
pub fn extract_year(s: &str) -> (r: Option<i32>)
    ensures
        match r {
            Some(y) => spec_extract_year(s@) == Some(y as int),
            None => spec_extract_year(s@) is None,
        },
{
    let v = str_to_chars(s);
    let n = v.len();
    let mut i: usize = 0;
    while i < n
        invariant
            0 <= i <= n,
            n == v@.len(),
            v@ == s@,
            year_scan(v@, 0) == year_scan(v@, i as int),
        decreases n - i,
    {
        let hit = (i == 0 || !crate::chars::word(v[i - 1])) && n - i >= 4 && crate::chars::digit(
            v[i],
        ) && crate::chars::digit(v[i + 1]) && crate::chars::digit(v[i + 2]) && crate::chars::digit(
            v[i + 3],
        ) && (i + 4 == n || !crate::chars::word(v[i + 4]));
        if hit {
            assert(year_at(v@, i as int));
            let y: u32 = 1000 * digit_value(v[i]) + 100 * digit_value(v[i + 1]) + 10 * digit_value(
                v[i + 2],
            ) + digit_value(v[i + 3]);
            return Some(y as i32);
        } else {
            assert(!year_at(v@, i as int));
        }
        i += 1;
    }
    assert(!year_at(v@, i as int));
    proof {
        assert(year_scan(v@, i + 1) is None);
        assert(year_scan(v@, 0) is None);
    }
    None
}

/// Between an online date and a cover year, prefer the one whose year is
/// earlier, falling back to the online date.
pub open spec fn spec_pick_earlier_year(online: Seq<char>, year: Seq<char>) -> Seq<char> {
    let oy: int = match spec_extract_year(online) {
        Some(y) => y,
        None => 0,
    };
    let cy: int = match spec_extract_year(year) {
        Some(y) => y,
        None => 0,
    };
    if oy > cy && cy > 0 {
        year
    } else {
        online
    }
}

/// Pick the earlier of two year-bearing date strings.
pub fn pick_earlier_year(online: &str, year: &str) -> (r: String)
    ensures
        r@ == spec_pick_earlier_year(online@, year@),
{
    let oy: i32 = match extract_year(online) {
        Some(y) => y,
        None => 0,
    };
    let cy: i32 = match extract_year(year) {
        Some(y) => y,
        None => 0,
    };
    if oy > cy && cy > 0 {
        String::from_str(year)
    } else {
        String::from_str(online)
    }
}

/// A date separator accepted in `YYYY-MM-DD` style values.
pub open spec fn is_date_sep(c: char) -> bool {
    c == '-' || c == '/'
}

/// The trimmed value starts `YYYY<sep>MM<sep>DD`.
pub open spec fn date_full_at(t: Seq<char>) -> bool {
    &&& t.len() >= 10
    &&& forall|j: int| 0 <= j < 4 ==> is_digit(t[j])
    &&& is_date_sep(t[4])
    &&& forall|j: int| 5 <= j < 7 ==> is_digit(t[j])
    &&& is_date_sep(t[7])
    &&& forall|j: int| 8 <= j < 10 ==> is_digit(t[j])
}

/// The trimmed value starts `YYYY<sep>MM` on a word boundary.
pub open spec fn date_ym_at(t: Seq<char>) -> bool {
    &&& t.len() >= 7
    &&& forall|j: int| 0 <= j < 4 ==> is_digit(t[j])
    &&& is_date_sep(t[4])
    &&& forall|j: int| 5 <= j < 7 ==> is_digit(t[j])
    &&& (t.len() == 7 || !is_word(t[7]))
}

/// The trimmed value starts `YYYY` on a word boundary.
pub open spec fn date_y_at(t: Seq<char>) -> bool {
    &&& t.len() >= 4
    &&& forall|j: int| 0 <= j < 4 ==> is_digit(t[j])
    &&& (t.len() == 4 || !is_word(t[4]))
}

/// The most specific ISO form a raw date value normalizes to: full date,
/// year-month, year, or nothing.
pub open spec fn spec_normalise_date(s: Seq<char>) -> Option<Seq<char>> {
    let t = trim_sp(s);
    if date_full_at(t) {
        Some(t.subrange(0, 4) + seq!['-'] + t.subrange(5, 7) + seq!['-'] + t.subrange(8, 10))
    } else if date_ym_at(t) {
        Some(t.subrange(0, 4) + seq!['-'] + t.subrange(5, 7))
    } else if date_y_at(t) {
        Some(t.subrange(0, 4))
    } else {
        None
    }
}

/// Normalize a raw date value to ISO `YYYY`, `YYYY-MM` or `YYYY-MM-DD`.
pub fn normalise_date(s: &str) -> (r: Option<String>)
    ensures
        sopt(r) == spec_normalise_date(s@),
{
    let v = str_to_chars(s);
    let t = crate::text::trim_chars(&v);
    let n = t.len();
    let d4 = n >= 4 && crate::chars::digit(t[0]) && crate::chars::digit(t[1])
        && crate::chars::digit(t[2]) && crate::chars::digit(t[3]);
    if !d4 {
        assert(!date_full_at(t@) && !date_ym_at(t@) && !date_y_at(t@));
        return None;
    }
    let m2 = n >= 7 && (t[4] == '-' || t[4] == '/') && crate::chars::digit(t[5])
        && crate::chars::digit(t[6]);
    if m2 && n >= 10 && (t[7] == '-' || t[7] == '/') && crate::chars::digit(t[8])
        && crate::chars::digit(t[9]) {
        assert(date_full_at(t@));
        let mut out = crate::text::subvec(&t, 0, 4);
        out.push('-');
        let mm = crate::text::subvec(&t, 5, 7);
        let dd = crate::text::subvec(&t, 8, 10);
        let mut j: usize = 0;
        while j < 2
            invariant
                0 <= j <= 2,
                t@.len() >= 10,
                mm@ == t@.subrange(5, 7),
                out@ == t@.subrange(0, 4) + seq!['-'] + t@.subrange(5, 7).take(j as int),
            decreases 2 - j,
        {
            out.push(mm[j]);
            j += 1;
            proof {
                assert(t@.subrange(5, 7).take(j as int) =~= t@.subrange(5, 7).take(j - 1).push(
                    t@.subrange(5, 7)[j - 1],
                ));
            }
        }
        out.push('-');
        let mut j2: usize = 0;
        while j2 < 2
            invariant
                0 <= j2 <= 2,
                t@.len() >= 10,
                dd@ == t@.subrange(8, 10),
                out@ == t@.subrange(0, 4) + seq!['-'] + t@.subrange(5, 7) + seq!['-']
                    + t@.subrange(8, 10).take(j2 as int),
            decreases 2 - j2,
        {
            out.push(dd[j2]);
            j2 += 1;
            proof {
                assert(t@.subrange(8, 10).take(j2 as int) =~= t@.subrange(8, 10).take(
                    j2 - 1,
                ).push(t@.subrange(8, 10)[j2 - 1]));
            }
        }
        proof {
            assert(t@.subrange(5, 7).take(2) =~= t@.subrange(5, 7));
            assert(t@.subrange(8, 10).take(2) =~= t@.subrange(8, 10));
            assert(t@.subrange(5, 7).take(0) =~= Seq::<char>::empty());
            assert(t@.subrange(8, 10).take(0) =~= Seq::<char>::empty());
        }
        return Some(chars_to_string(&out));
    }
    if m2 && (n == 7 || !crate::chars::word(t[7])) {
        assert(!date_full_at(t@));
        assert(date_ym_at(t@));
        let mut out = crate::text::subvec(&t, 0, 4);
        out.push('-');
        let mm = crate::text::subvec(&t, 5, 7);
        let mut j: usize = 0;
        while j < 2
            invariant
                0 <= j <= 2,
                t@.len() >= 7,
                mm@ == t@.subrange(5, 7),
                out@ == t@.subrange(0, 4) + seq!['-'] + t@.subrange(5, 7).take(j as int),
            decreases 2 - j,
        {
            out.push(mm[j]);
            j += 1;
            proof {
                assert(t@.subrange(5, 7).take(j as int) =~= t@.subrange(5, 7).take(j - 1).push(
                    t@.subrange(5, 7)[j - 1],
                ));
            }
        }
        proof {
            assert(t@.subrange(5, 7).take(2) =~= t@.subrange(5, 7));
            assert(t@.subrange(5, 7).take(0) =~= Seq::<char>::empty());
        }
        return Some(chars_to_string(&out));
    }
    if n == 4 || !crate::chars::word(t[4]) {
        assert(!date_full_at(t@) && !date_ym_at(t@));
        assert(date_y_at(t@));
        let out = crate::text::subvec(&t, 0, 4);
        return Some(chars_to_string(&out));
    }
    assert(!date_full_at(t@) && !date_ym_at(t@) && !date_y_at(t@));
    None
}

// ------------------------------------------------------------------
// Pages, DOIs in values, short titles
// ------------------------------------------------------------------

/// En and em dashes replaced by plain hyphens.
pub open spec fn dashes(s: Seq<char>) -> Seq<char> {
    Seq::new(
        s.len(),
        |i: int|
            if s[i] == '\u{2013}' || s[i] == '\u{2014}' {
                '-'
            } else {
                s[i]
            },
    )
}

fn dashes_chars(v: &Vec<char>) -> (r: Vec<char>)
    ensures
        r@ == dashes(v@),
{
    let mut out: Vec<char> = Vec::new();
    let mut i: usize = 0;
    while i < v.len()
        invariant
            0 <= i <= v@.len(),
            out@.len() == i,
            forall|j: int| 0 <= j < i ==> out@[j] == dashes(v@)[j],
        decreases v@.len() - i,
    {
        let c = v[i];
        if c == '\u{2013}' || c == '\u{2014}' {
            out.push('-');
        } else {
            out.push(c);
        }
        i += 1;
    }
    proof {
        assert(out@ =~= dashes(v@));
    }
    out
}

/// The pages field built from first and last page values: both present
/// joins them with `-`; one present passes it through; em and en dashes
/// become hyphens.
pub open spec fn spec_build_pages(f: Option<Seq<char>>, l: Option<Seq<char>>) -> Option<
    Seq<char>,
> {
    match (f, l) {
        (Some(a), Some(b)) => {
            let a1 = trim_sp(dashes(a));
            let b1 = trim_sp(dashes(b));
            if a1.len() == 0 && b1.len() == 0 {
                None
            } else {
                Some(a1 + seq!['-'] + b1)
            }
        },
        (Some(a), None) => Some(dashes(a)),
        (None, Some(b)) => Some(dashes(b)),
        (None, None) => None,
    }
}

/// Build the pages field from optional first and last page values.
pub fn build_pages(first: Option<String>, last: Option<String>) -> (r: Option<String>)
    ensures
        sopt(r) == spec_build_pages(sopt(first), sopt(last)),
{
    match (first, last) {
        (Some(a), Some(b)) => {
            let av = str_to_chars(a.as_str());
            let ad = dashes_chars(&av);
            let at = crate::text::trim_chars(&ad);
            let bv = str_to_chars(b.as_str());
            let bd = dashes_chars(&bv);
            let bt = crate::text::trim_chars(&bd);
            if at.len() == 0 && bt.len() == 0 {
                None
            } else {
                let mut out = at;
                out.push('-');
                let mut k: usize = 0;
                let ghost mid = out@;
                while k < bt.len()
                    invariant
                        0 <= k <= bt@.len(),
                        out@ == mid + bt@.take(k as int),
                    decreases bt@.len() - k,
                {
                    out.push(bt[k]);
                    k += 1;
                    proof {
                        assert(bt@.take(k as int) =~= bt@.take(k - 1).push(bt@[k - 1]));
                    }
                }
                proof {
                    assert(bt@.take(bt@.len() as int) =~= bt@);
                    assert(mid =~= trim_sp(dashes(a@)).push('-'));
                    assert(trim_sp(dashes(a@)).push('-') + bt@ =~= trim_sp(dashes(a@)) + seq!['-']
                        + trim_sp(dashes(b@)));
                }
                Some(chars_to_string(&out))
            }
        },
        (Some(a), None) => {
            let av = str_to_chars(a.as_str());
            let ad = dashes_chars(&av);
            Some(chars_to_string(&ad))
        },
        (None, Some(b)) => {
            let bv = str_to_chars(b.as_str());
            let bd = dashes_chars(&bv);
            Some(chars_to_string(&bd))
        },
        (None, None) => None,
    }
}

/// The first DOI-shaped substring of a raw value, as one `prefix/suffix`
/// text.
pub open spec fn spec_clean_doi(s: Seq<char>) -> Option<Seq<char>> {
    match doi_scan(s, 0) {
        Some(pair) => Some(pair.0 + seq!['/'] + pair.1),
        None => None,
    }
}

/// Extract a bare DOI from a metadata value.
pub fn clean_doi(s: String) -> (r: Option<String>)
    ensures
        sopt(r) == spec_clean_doi(s@),
{
    let v = str_to_chars(s.as_str());
    match crate::doi::scan_doi_chars(&v) {
        Some((p, x)) => {
            let mut out = p;
            out.push('/');
            let ghost mid = out@;
            let mut k: usize = 0;
            while k < x.len()
                invariant
                    0 <= k <= x@.len(),
                    out@ == mid + x@.take(k as int),
                decreases x@.len() - k,
            {
                out.push(x[k]);
                k += 1;
                proof {
                    assert(x@.take(k as int) =~= x@.take(k - 1).push(x@[k - 1]));
                }
            }
            proof {
                assert(x@.take(x@.len() as int) =~= x@);
                assert(mid + x@ =~= doi_scan(s@, 0)->Some_0.0 + seq!['/'] + doi_scan(
                    s@,
                    0,
                )->Some_0.1);
            }
            Some(chars_to_string(&out))
        },
        None => None,
    }
}

/// A short title: the head before the first colon, when it is
/// meaningfully shorter (in encoded bytes) than the whole title.
pub open spec fn spec_derive_short_title(t: Seq<char>) -> Option<Seq<char>> {
    match find_char_from(t, ':', 0) {
        None => None,
        Some(i) => {
            let h = trim_sp(t.take(i));
            if h.len() > 0 && crate::text::byte_len(h) + 3 < crate::text::byte_len(t) {
                Some(h)
            } else {
                None
            }
        },
    }
}

/// Derive a short title from the head of a colon-separated title.
pub fn derive_short_title_local(title: &str) -> (r: Option<String>)
    ensures
        sopt(r) == spec_derive_short_title(title@),
{
    let v = str_to_chars(title);
    match crate::html::find_char(&v, ':', 0) {
        None => None,
        Some(i) => {
            let head = crate::text::subvec(&v, 0, i);
            proof {
                assert(head@ =~= v@.take(i as int));
            }
            let h = crate::text::trim_chars(&head);
            let hb = crate::text::byte_len_chars(&h);
            let tb = crate::text::byte_len_chars(&v);
            if h.len() > 0 && hb + 3 < tb {
                Some(chars_to_string(&h))
            } else {
                None
            }
        },
    }
}

} // verus!
