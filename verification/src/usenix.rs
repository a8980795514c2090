//! The recognized conference-presentation-page family: the canonical
//! `https://www.usenix.org/conference/<x>/presentation/<y>` URL shape,
//! and the field-precedence synthesis for such pages.

use vstd::prelude::*;
use vstd::string::StringExecFns;

use crate::chars::{chars_to_string, str_to_chars};
use crate::extract::{
    creators_of, creators_split_of, dedup_ci, og_article_authors, spec_build_pages, spec_clean_doi,
    spec_derive_short_title, spec_normalise_date, spec_strip_site_suffix,
};
use crate::html::{
    sopt, spec_collect_meta, spec_collect_title, spec_meta_property, spec_meta_value, MetaTag,
};
use crate::json::{
    spec_json_authors, spec_json_is_part_of_name, spec_json_ld_types, spec_json_name,
    spec_json_str_key, Json,
};
use crate::record::{bib_reparse, pviews, spec_render_entry};
use crate::text::{occurs_at, spec_normalize_ws, sviews};
use crate::urlweb::{spec_absolutise, spec_build_key, url_parts, wview, WebUrl};

verus! {

/// A recognized USENIX presentation page.
pub struct Usenix {
    pub url: WebUrl,
}

// ------------------------------------------------------------------
// Recognition
// ------------------------------------------------------------------

/// The 34 characters of `https://www.usenix.org/conference/`.
pub open spec fn lit_usenix_prefix() -> Seq<char> {
    seq![
        'h', 't', 't', 'p', 's', ':', '/', '/', 'w', 'w', 'w', '.', 'u', 's', 'e', 'n', 'i', 'x',
        '.', 'o', 'r', 'g', '/', 'c', 'o', 'n', 'f', 'e', 'r', 'e', 'n', 'c', 'e', '/',
    ]
}

/// The 13 characters of `/presentation`.
pub open spec fn lit_presentation() -> Seq<char> {
    seq!['/', 'p', 'r', 'e', 's', 'e', 'n', 't', 'a', 't', 'i', 'o', 'n']
}

/// A `/presentation` segment stands at `j`, followed by nothing or by a
/// `/`, `?` or `#` tail, with no newline around it.
pub open spec fn usenix_pres_at(s: Seq<char>, j: int) -> bool {
    &&& 34 <= j
    &&& occurs_at(s, lit_presentation(), j)
    &&& (j + 13 == s.len() || s[j + 13] == '/' || s[j + 13] == '?' || s[j + 13] == '#')
    &&& forall|m: int| 34 <= m < j ==> s[m] != '\n'
    &&& forall|m: int| j + 13 <= m < s.len() ==> s[m] != '\n'
}

/// The canonical presentation-page URL shape: the exact scheme and host,
/// a `/conference/` path, and a `/presentation` segment.
pub open spec fn usenix_detect(s: Seq<char>) -> bool {
    occurs_at(s, lit_usenix_prefix(), 0) && exists|j: int| usenix_pres_at(s, j)
}

fn lit_vec_usenix_prefix() -> (r: Vec<char>)
    ensures
        r@ == lit_usenix_prefix(),
{
    let v = str_to_chars("https://www.usenix.org/conference/");
    proof {
        reveal_strlit("https://www.usenix.org/conference/");
        assert(v@ =~= lit_usenix_prefix());
    }
    v
}

fn lit_vec_presentation() -> (r: Vec<char>)
    ensures
        r@ == lit_presentation(),
{
    let v = str_to_chars("/presentation");
    proof {
        reveal_strlit("/presentation");
        assert(v@ =~= lit_presentation());
    }
    v
}

/// Does the raw text match the canonical presentation-page shape?
pub fn detect_usenix(identifier: &str) -> (r: bool)
    ensures
        r == usenix_detect(identifier@),
{
    let v = str_to_chars(identifier);
    let prefix = lit_vec_usenix_prefix();
    let pres = lit_vec_presentation();
    if !crate::text::matches_at(&v, &prefix, 0) {
        return false;
    }
    let n = v.len();
    let mut middle_clean = true;
    let mut j: usize = 34;
    while j < n
        invariant
            34 <= j,
            n == v@.len(),
            v@ == identifier@,
            occurs_at(v@, lit_usenix_prefix(), 0),
            pres@ == lit_presentation(),
            middle_clean == (forall|m: int| 34 <= m < j ==> v@[m] != '\n'),
            forall|j2: int| 34 <= j2 < j ==> !usenix_pres_at(v@, j2),
        decreases n - j,
    {
        if middle_clean && crate::text::matches_at(&v, &pres, j) && (j + 13 == n || v[j + 13]
            == '/' || v[j + 13] == '?' || v[j + 13] == '#') {
            // check the tail for newlines
            let mut ok = true;
            let mut m: usize = j + 13;
            while m < n
                invariant
                    j + 13 <= m <= n,
                    n == v@.len(),
                    ok == (forall|m2: int| j + 13 <= m2 < m ==> v@[m2] != '\n'),
                decreases n - m,
            {
                if v[m] == '\n' {
                    ok = false;
                }
                m += 1;
            }
            if ok {
                assert(usenix_pres_at(v@, j as int));
                return true;
            } else {
                assert(!usenix_pres_at(v@, j as int));
            }
        } else {
            assert(!usenix_pres_at(v@, j as int));
        }
        if v[j] == '\n' {
            middle_clean = false;
        }
        j += 1;
    }
    assert forall|j2: int| !usenix_pres_at(v@, j2) by {
        if usenix_pres_at(v@, j2) {
            assert(j2 + 13 <= v@.len());
            if j2 < j {
            } else {
                assert(j2 >= n);
                assert(false);
            }
        }
    }
    false
}

impl Usenix {
    /// Recognize a canonical USENIX presentation URL; non-canonical
    /// variants (another scheme, host or path family) are rejected, not
    /// corrected.
    pub fn parse(identifier: &str) -> (r: Option<Usenix>)
        ensures
            match r {
                Some(u) => usenix_detect(identifier@) && url_parts(identifier@) == Some(
                    wview(u.url),
                ),
                None => !usenix_detect(identifier@) || url_parts(identifier@) is None,
            },
    {
        if !detect_usenix(identifier) {
            return None;
        }
        match crate::urlweb::parse_url(identifier) {
            Some(u) => Some(Usenix { url: u }),
            None => None,
        }
    }
}

// ------------------------------------------------------------------
// Field synthesis
// ------------------------------------------------------------------

/// A linked-data type under which its author list is preferred.
pub open spec fn is_articleish(t: Seq<char>) -> bool {
    t == "ScholarlyArticle"@ || t == "Article"@ || t == "CreativeWork"@
        || t == "PresentationDigitalDocument"@
}

/// Any declared type is article-like.
pub open spec fn has_articleish(ts: Seq<Seq<char>>) -> bool {
    exists|i: int| 0 <= i < ts.len() && is_articleish(ts[i])
}

/// Does any declared linked-data type name an article-like document?
pub fn any_articleish(types: &Vec<String>) -> (r: bool)
    ensures
        r == has_articleish(sviews(types@)),
{
    let t1 = str_to_chars("ScholarlyArticle");
    let t2 = str_to_chars("Article");
    let t3 = str_to_chars("CreativeWork");
    let t4 = str_to_chars("PresentationDigitalDocument");
    let mut i: usize = 0;
    while i < types.len()
        invariant
            0 <= i <= types@.len(),
            t1@ == "ScholarlyArticle"@,
            t2@ == "Article"@,
            t3@ == "CreativeWork"@,
            t4@ == "PresentationDigitalDocument"@,
            forall|j: int| 0 <= j < i ==> !is_articleish(sviews(types@)[j]),
        decreases types@.len() - i,
    {
        let tv = str_to_chars(types[i].as_str());
        if crate::text::eq_chars(&tv, &t1) || crate::text::eq_chars(&tv, &t2)
            || crate::text::eq_chars(&tv, &t3) || crate::text::eq_chars(&tv, &t4) {
            assert(is_articleish(sviews(types@)[i as int]));
            return true;
        }
        i += 1;
    }
    false
}

/// The author list of a presentation page: linked-data authors when an
/// article-like type is declared, then HighWire authors, then usable
/// OpenGraph `article:author` values; deduplicated, order kept.
pub open spec fn spec_usenix_authors(
    metas: Seq<crate::html::MetaV>,
    ld: Seq<Json>,
) -> Seq<Seq<char>> {
    let a0: Seq<Seq<char>> = if has_articleish(spec_json_ld_types(ld)) {
        match spec_json_authors(ld) {
            Some(v) => v,
            None => Seq::empty(),
        }
    } else {
        Seq::empty()
    };
    let a1: Seq<Seq<char>> = if a0.len() == 0 {
        creators_of(metas, "citation_author"@) + creators_split_of(metas, "citation_authors"@)
    } else {
        a0
    };
    let a2: Seq<Seq<char>> = if a1.len() == 0 {
        og_article_authors(metas)
    } else {
        a1
    };
    dedup_ci(a2)
}

/// The first present value wins.
pub open spec fn opt_or(a: Option<Seq<char>>, b: Option<Seq<char>>) -> Option<Seq<char>> {
    match a {
        Some(x) => Some(x),
        None => b,
    }
}

/// The page title after precedence and site-suffix stripping.
pub open spec fn spec_usenix_title2(
    metas: Seq<crate::html::MetaV>,
    ld: Seq<Json>,
    html: Seq<char>,
    fu0: Seq<char>,
) -> Seq<char> {
    let title0 = match spec_json_name(ld) {
        Some(t) => t,
        None => match spec_meta_value(metas, "citation_title"@) {
            Some(t) => t,
            None => match spec_meta_property(metas, "og:title"@) {
                Some(t) => t,
                None => match spec_collect_title(html) {
                    Some(t) => t,
                    None => fu0,
                },
            },
        },
    };
    let title1 = spec_normalize_ws(title0);
    match spec_meta_property(metas, "og:site_name"@) {
        Some(site) => spec_strip_site_suffix(title1, site),
        None => title1,
    }
}

/// The normalized date after its precedence chain.
pub open spec fn spec_usenix_date(metas: Seq<crate::html::MetaV>, ld: Seq<Json>) -> Option<
    Seq<char>,
> {
    match opt_or(
        spec_json_str_key(ld, "datePublished"@),
        opt_or(
            spec_meta_value(metas, "citation_publication_date"@),
            opt_or(
                spec_meta_value(metas, "citation_cover_date"@),
                opt_or(
                    spec_meta_value(metas, "citation_date"@),
                    spec_meta_property(metas, "article:published_time"@),
                ),
            ),
        ),
    ) {
        Some(d) => spec_normalise_date(d),
        None => None,
    }
}

/// The container title: conference title, else linked-data `isPartOf`.
pub open spec fn spec_usenix_booktitle(metas: Seq<crate::html::MetaV>, ld: Seq<Json>) -> Option<
    Seq<char>,
> {
    opt_or(spec_meta_value(metas, "citation_conference_title"@), spec_json_is_part_of_name(ld))
}

/// The resolved record URL after its precedence chain.
pub open spec fn spec_usenix_url(
    metas: Seq<crate::html::MetaV>,
    ld: Seq<Json>,
    fu0: Seq<char>,
    fu1: Seq<char>,
) -> Seq<char> {
    let url_cand = opt_or(
        spec_json_str_key(ld, "url"@),
        opt_or(
            spec_meta_value(metas, "citation_public_url"@),
            opt_or(
                spec_meta_value(metas, "citation_abstract_html_url"@),
                opt_or(
                    spec_meta_value(metas, "citation_fulltext_html_url"@),
                    spec_meta_property(metas, "og:url"@),
                ),
            ),
        ),
    );
    match url_cand {
        Some(u) => match spec_absolutise(fu0, fu1, u) {
            Some(p) => p.0,
            None => fu0,
        },
        None => fu0,
    }
}

/// The language after its precedence chain.
pub open spec fn spec_usenix_language(metas: Seq<crate::html::MetaV>) -> Option<Seq<char>> {
    opt_or(
        spec_meta_value(metas, "citation_language"@),
        opt_or(
            crate::html::spec_meta_name(metas, "language"@),
            crate::html::spec_meta_name(metas, "lang"@),
        ),
    )
}

/// The short title: linked-data alternative headline, else derived.
pub open spec fn spec_usenix_shorttitle(ld: Seq<Json>, title2: Seq<char>) -> Option<Seq<char>> {
    opt_or(spec_json_str_key(ld, "alternativeHeadline"@), spec_derive_short_title(title2))
}

/// The fields of the synthesized record, in order.
pub open spec fn spec_usenix_fields(
    fu: (Seq<char>, Seq<char>, Option<Seq<char>>, Seq<char>),
    html: Seq<char>,
    ld: Seq<Json>,
) -> Seq<(Seq<char>, Seq<char>)> {
    let metas = spec_collect_meta(html);
    let title2 = spec_usenix_title2(metas, ld, html, fu.0);
    let authors = spec_usenix_authors(metas, ld);
    let fixed = spec_strip_braces(title2);
    seq![("title"@, fixed)] + crate::record::fopt("date"@, spec_usenix_date(metas, ld)) + (
    if authors.len() > 0 {
        seq![("author"@, crate::extract::join_with(authors, " and "@))]
    } else {
        Seq::<(Seq<char>, Seq<char>)>::empty()
    }) + crate::record::fopt("language"@, spec_usenix_language(metas)) + crate::record::fopt(
        "booktitle"@,
        spec_usenix_booktitle(metas, ld),
    ) + crate::record::fopt(
        "journaltitle"@,
        spec_meta_value(metas, "citation_journal_title"@),
    ) + crate::record::fopt("volume"@, spec_meta_value(metas, "citation_volume"@))
        + crate::record::fopt("number"@, spec_meta_value(metas, "citation_issue"@))
        + crate::record::fopt(
        "pages"@,
        spec_build_pages(
            spec_meta_value(metas, "citation_firstpage"@),
            spec_meta_value(metas, "citation_lastpage"@),
        ),
    ) + crate::record::fopt(
        "doi"@,
        match spec_meta_value(metas, "citation_doi"@) {
            Some(d) => spec_clean_doi(d),
            None => None,
        },
    ) + crate::record::fopt("isbn"@, spec_meta_value(metas, "citation_isbn"@)) + seq![
        ("url"@, spec_usenix_url(metas, ld, fu.0, fu.1)),
    ] + crate::record::fopt("shorttitle"@, spec_usenix_shorttitle(ld, title2))
}

/// The record a presentation page synthesizes before the round-trip
/// check: the rendered BibLaTeX text, or a validation error when the
/// title or the URL comes out empty.
pub open spec fn spec_usenix_pre(
    fu: (Seq<char>, Seq<char>, Option<Seq<char>>, Seq<char>),
    html: Seq<char>,
    ld: Seq<Json>,
) -> Result<Seq<char>, Seq<char>> {
    let metas = spec_collect_meta(html);
    let title2 = spec_usenix_title2(metas, ld, html, fu.0);
    let fixed = spec_strip_braces(title2);
    let url_full = spec_usenix_url(metas, ld, fu.0, fu.1);
    let ty: Seq<char> = if spec_usenix_booktitle(metas, ld) is Some {
        "@inproceedings"@
    } else {
        "@article"@
    };
    let key = spec_build_key("usenix"@, fu.2, fu.3, "www.usenix.org"@);
    if fixed.len() == 0 {
        Err("ValidationError: empty title for URL "@ + fu.0)
    } else if url_full.len() == 0 {
        Err("ValidationError: missing url for URL "@ + fu.0)
    } else {
        Ok(spec_render_entry(ty, key, spec_usenix_fields(fu, html, ld)))
    }
}

fn usenix_title(
    metas: &Vec<MetaTag>,
    ld: &Vec<Json>,
    html: &str,
    fu_full: &String,
) -> (r: String)
    ensures
        r@ == spec_usenix_title2(crate::html::mviews(metas@), ld@, html@, fu_full@),
{
    let og_site = crate::html::meta_property(metas, "og:site_name");
    let title0: String = match crate::json::json_name(ld) {
        Some(t) => t,
        None => match crate::html::meta_value(metas, "citation_title") {
            Some(t) => t,
            None => match crate::html::meta_property(metas, "og:title") {
                Some(t) => t,
                None => match crate::html::collect_title(html) {
                    Some(t) => t,
                    None => fu_full.clone(),
                },
            },
        },
    };
    let title1 = crate::text::normalize_ws(title0.as_str());
    match &og_site {
        Some(site) => crate::extract::strip_site_suffix(title1.as_str(), site.as_str()),
        None => title1,
    }
}

fn usenix_authors(metas: &Vec<MetaTag>, ld: &Vec<Json>) -> (r: Vec<String>)
    ensures
        sviews(r@) == spec_usenix_authors(crate::html::mviews(metas@), ld@),
{
    let types = crate::json::json_ld_types(ld);
    let articleish = any_articleish(&types);
    let mut authors: Vec<String> = if articleish {
        match crate::json::json_authors(ld) {
            Some(v) => v,
            None => Vec::new(),
        }
    } else {
        Vec::new()
    };
    proof {
        if authors@.len() == 0 {
            assert(sviews(authors@) =~= Seq::<Seq<char>>::empty());
        }
    }
    if authors.len() == 0 {
        crate::extract::extend_creators(&mut authors, metas, "citation_author");
        crate::extract::extend_creators_split(&mut authors, metas, "citation_authors");
    }
    if authors.len() == 0 {
        authors = crate::extract::collect_og_article_authors(metas);
    }
    crate::extract::dedup_in_place(&mut authors);
    authors
}

fn usenix_date(metas: &Vec<MetaTag>, ld: &Vec<Json>) -> (r: Option<String>)
    ensures
        sopt(r) == spec_usenix_date(crate::html::mviews(metas@), ld@),
{
    let raw: Option<String> = match crate::json::json_date_published(ld) {
        Some(d) => Some(d),
        None => match crate::html::meta_value(metas, "citation_publication_date") {
            Some(d) => Some(d),
            None => match crate::html::meta_value(metas, "citation_cover_date") {
                Some(d) => Some(d),
                None => match crate::html::meta_value(metas, "citation_date") {
                    Some(d) => Some(d),
                    None => crate::html::meta_property(metas, "article:published_time"),
                },
            },
        },
    };
    match raw {
        Some(d) => crate::extract::normalise_date(d.as_str()),
        None => None,
    }
}

fn usenix_url(
    metas: &Vec<MetaTag>,
    ld: &Vec<Json>,
    final_url: &WebUrl,
) -> (r: String)
    ensures
        r@ == spec_usenix_url(
            crate::html::mviews(metas@),
            ld@,
            final_url.full@,
            final_url.scheme@,
        ),
{
    let url_cand: Option<String> = match crate::json::json_url(ld) {
        Some(u) => Some(u),
        None => match crate::html::meta_value(metas, "citation_public_url") {
            Some(u) => Some(u),
            None => match crate::html::meta_value(metas, "citation_abstract_html_url") {
                Some(u) => Some(u),
                None => match crate::html::meta_value(metas, "citation_fulltext_html_url") {
                    Some(u) => Some(u),
                    None => crate::html::meta_property(metas, "og:url"),
                },
            },
        },
    };
    match url_cand {
        Some(u) => match crate::urlweb::absolutise(final_url, u.as_str()) {
            Some(w) => w.full,
            None => final_url.full.clone(),
        },
        None => final_url.full.clone(),
    }
}

fn usenix_language(metas: &Vec<MetaTag>) -> (r: Option<String>)
    ensures
        sopt(r) == spec_usenix_language(crate::html::mviews(metas@)),
{
    match crate::html::meta_value(metas, "citation_language") {
        Some(l) => Some(l),
        None => match crate::html::meta_name(metas, "language") {
            Some(l) => Some(l),
            None => crate::html::meta_name(metas, "lang"),
        },
    }
}

impl Usenix {
    /// Synthesize the page's record from one fetched document and its
    /// linked-data nodes, by this family's field precedence, and
    /// re-serialize it through the round-trip check.
    #[verifier::rlimit(100)]
    pub fn resolve_from_document(
        &self,
        final_url: &WebUrl,
        html: &str,
        json_ld: &Vec<Json>,
    ) -> (r: Result<String, String>)
        ensures
            match spec_usenix_pre(wview(*final_url), html@, json_ld@) {
                Err(m) => r matches Err(e) && e@ == m,
                Ok(text) => match bib_reparse(text) {
                    Some(Some(t)) => r matches Ok(o) && o@ == t,
                    Some(None) => r matches Err(e) && e@
                        == "empty bibliography from USENIX translator"@,
                    None => r matches Err(e) && exists|mm: Seq<char>|
                        e@ == "failed to parse constructed BibLaTeX: "@ + mm,
                },
            },
    {
        let metas = crate::html::collect_meta(html);
        let title2 = usenix_title(&metas, json_ld, html, &final_url.full);
        let authors = usenix_authors(&metas, json_ld);
        let date = usenix_date(&metas, json_ld);
        let booktitle: Option<String> = match crate::html::meta_value(
            &metas,
            "citation_conference_title",
        ) {
            Some(b) => Some(b),
            None => crate::json::json_is_part_of_name(json_ld),
        };
        let journaltitle = crate::html::meta_value(&metas, "citation_journal_title");
        let volume = crate::html::meta_value(&metas, "citation_volume");
        let number = crate::html::meta_value(&metas, "citation_issue");
        let pages = crate::extract::build_pages(
            crate::html::meta_value(&metas, "citation_firstpage"),
            crate::html::meta_value(&metas, "citation_lastpage"),
        );
        let doi: Option<String> = match crate::html::meta_value(&metas, "citation_doi") {
            Some(d) => crate::extract::clean_doi(d),
            None => None,
        };
        let isbn = crate::html::meta_value(&metas, "citation_isbn");
        let url_full = usenix_url(&metas, json_ld, final_url);
        let language = usenix_language(&metas);
        let shorttitle: Option<String> = match crate::json::json_short_title(json_ld) {
            Some(s) => Some(s),
            None => crate::extract::derive_short_title_local(title2.as_str()),
        };
        let fixed = strip_all_unescaped_braces(title2.as_str());
        if fixed.as_str().is_empty() {
            let mut e = String::from_str("ValidationError: empty title for URL ");
            e.append(final_url.full.as_str());
            return Err(e);
        }
        if url_full.as_str().is_empty() {
            let mut e = String::from_str("ValidationError: missing url for URL ");
            e.append(final_url.full.as_str());
            return Err(e);
        }
        let ty: &str = match &booktitle {
            Some(_) => "@inproceedings",
            None => "@article",
        };
        let mut fields: Vec<(String, String)> = Vec::new();
        crate::record::push_field(&mut fields, "title", fixed);
        crate::record::push_opt_field(&mut fields, "date", date);
        if authors.len() > 0 {
            let joined = crate::extract::join_strings(&authors, " and ");
            crate::record::push_field(&mut fields, "author", joined);
        }
        crate::record::push_opt_field(&mut fields, "language", language);
        crate::record::push_opt_field(&mut fields, "booktitle", booktitle);
        crate::record::push_opt_field(&mut fields, "journaltitle", journaltitle);
        crate::record::push_opt_field(&mut fields, "volume", volume);
        crate::record::push_opt_field(&mut fields, "number", number);
        crate::record::push_opt_field(&mut fields, "pages", pages);
        crate::record::push_opt_field(&mut fields, "doi", doi);
        crate::record::push_opt_field(&mut fields, "isbn", isbn);
        crate::record::push_field(&mut fields, "url", url_full);
        crate::record::push_opt_field(&mut fields, "shorttitle", shorttitle);
        proof {
            assert(pviews(fields@) =~= spec_usenix_fields(wview(*final_url), html@, json_ld@));
        }
        let key = crate::urlweb::build_key("usenix", final_url, "www.usenix.org");
        let text = crate::record::render_entry(ty, key.as_str(), &fields);
        match crate::record::reparse_first_entry(text.as_str()) {
            crate::record::BibReparse::First(t) => Ok(t),
            crate::record::BibReparse::Empty => Err(
                String::from_str("empty bibliography from USENIX translator"),
            ),
            crate::record::BibReparse::Unparsable(m) => {
                let mut e = String::from_str("failed to parse constructed BibLaTeX: ");
                e.append(m.as_str());
                proof {
                    assert(e@ == "failed to parse constructed BibLaTeX: "@ + m@);
                }
                Err(e)
            },
        }
    }
}

/// What resolving a fetched presentation page yields, given its
/// linked-data nodes.
pub open spec fn usenix_outcome(
    fu: (Seq<char>, Seq<char>, Option<Seq<char>>, Seq<char>),
    html: Seq<char>,
    ld: Seq<Json>,
    r: Result<String, String>,
) -> bool {
    match spec_usenix_pre(fu, html, ld) {
        Err(m) => r matches Err(e) && e@ == m,
        Ok(text) => match bib_reparse(text) {
            Some(Some(t)) => r matches Ok(o) && o@ == t,
            Some(None) => r matches Err(e) && e@ == "empty bibliography from USENIX translator"@,
            None => r matches Err(e) && exists|mm: Seq<char>|
                e@ == "failed to parse constructed BibLaTeX: "@ + mm,
        },
    }
}

impl Usenix {
    /// Resolve from the fetched document alone: collect its linked-data
    /// nodes and synthesize the record.
    pub fn resolve_document(&self, final_url: &WebUrl, html: &str) -> (r: Result<String, String>)
        ensures
            usenix_outcome(
                wview(*final_url),
                html@,
                crate::json::nodes_of_blocks(crate::json::ld_blocks_from(html@, 0)),
                r,
            ),
    {
        let json_ld = crate::json::collect_json_ld(html);
        self.resolve_from_document(final_url, html, &json_ld)
    }
}

fn self_full(u: &WebUrl) -> (r: String)
    ensures
        r@ == u.full@,
{
    u.full.clone()
}

// ------------------------------------------------------------------
// Brace stripping
// ------------------------------------------------------------------

/// The position of the first `{` or `}` at or after `k`.
pub open spec fn brace_from(s: Seq<char>, k: int) -> Option<int>
    decreases s.len() - k when 0 <= k
{
    if k >= s.len() {
        None
    } else if s[k] == '{' || s[k] == '}' {
        Some(k)
    } else {
        brace_from(s, k + 1)
    }
}

/// An unescaped `{` at `i` whose matching `}` at `j` encloses no other
/// brace.
pub open spec fn brace_span_at(s: Seq<char>, i: int) -> Option<int> {
    if 0 <= i < s.len() && s[i] == '{' && (i == 0 || s[i - 1] != '\\') {
        match brace_from(s, i + 1) {
            Some(j) => if s[j] == '}' {
                Some(j)
            } else {
                None
            },
            None => None,
        }
    } else {
        None
    }
}

/// One pass over the text from `i`: each innermost unescaped brace pair
/// loses its braces, and the flag says whether anything changed.
pub open spec fn strip_pass(s: Seq<char>, i: int) -> (Seq<char>, bool)
    decreases s.len() - i when 0 <= i
{
    if i >= s.len() {
        (Seq::empty(), false)
    } else {
        match brace_span_at(s, i) {
            Some(j) => if i < j < s.len() {
                let rest = strip_pass(s, j + 1);
                (s.subrange(i + 1, j) + rest.0, true)
            } else {
                let rest = strip_pass(s, i + 1);
                (seq![s[i]] + rest.0, rest.1)
            },
            None => {
                let rest = strip_pass(s, i + 1);
                (seq![s[i]] + rest.0, rest.1)
            },
        }
    }
}

proof fn lemma_strip_pass_shorter(s: Seq<char>, i: int)
    requires
        0 <= i <= s.len(),
    ensures
        strip_pass(s, i).0.len() <= s.len() - i,
        strip_pass(s, i).1 ==> strip_pass(s, i).0.len() <= s.len() - i - 2,
    decreases s.len() - i,
{
    if i >= s.len() {
    } else {
        match brace_span_at(s, i) {
            Some(j) => {
                if i < j < s.len() {
                    lemma_strip_pass_shorter(s, j + 1);
                } else {
                    lemma_strip_pass_shorter(s, i + 1);
                }
            },
            None => {
                lemma_strip_pass_shorter(s, i + 1);
            },
        }
    }
}

/// Brace-stripping passes applied until nothing changes.
pub open spec fn strip_fix(s: Seq<char>, fuel: nat) -> Seq<char>
    decreases fuel,
{
    if fuel == 0 {
        s
    } else {
        let pass = strip_pass(s, 0);
        if pass.1 {
            strip_fix(pass.0, (fuel - 1) as nat)
        } else {
            s
        }
    }
}

/// Escaped braces written back as plain braces.
pub open spec fn unescape_braces(s: Seq<char>) -> Seq<char> {
    crate::json::replace_seq(crate::json::replace_seq(s, "\\{"@, "{"@), "\\}"@, "}"@)
}

/// What brace stripping returns: every unescaped brace-delimited span
/// collapsed, repeatedly, then escaped braces unescaped.
pub open spec fn spec_strip_braces(s: Seq<char>) -> Seq<char> {
    unescape_braces(strip_fix(s, s.len() as nat))
}

fn exec_strip_pass(v: &Vec<char>) -> (r: (Vec<char>, bool))
    ensures
        (r.0@, r.1) == strip_pass(v@, 0),
{
    let n = v.len();
    let mut out: Vec<char> = Vec::new();
    let mut changed = false;
    let mut i: usize = 0;
    while i < n
        invariant
            0 <= i <= n,
            n == v@.len(),
            strip_pass(v@, 0) == (out@ + strip_pass(v@, i as int).0, changed || strip_pass(
                v@,
                i as int,
            ).1),
        decreases n - i,
    {
        let is_open = v[i] == '{' && (i == 0 || v[i - 1] != '\\');
        if is_open {
            let mut j: usize = i + 1;
            while j < n && v[j] != '{' && v[j] != '}'
                invariant
                    i + 1 <= j <= n,
                    n == v@.len(),
                    forall|m: int| i + 1 <= m < j ==> v@[m] != '{' && v@[m] != '}',
                decreases n - j,
            {
                j += 1;
            }
            proof {
                lemma_brace_from_exact(v@, i + 1, j as int);
            }
            if j < n && v[j] == '}' {
                assert(brace_span_at(v@, i as int) == Some(j as int));
                crate::text::append_range(&mut out, v, i + 1, j);
                changed = true;
                i = j + 1;
            } else {
                assert(brace_span_at(v@, i as int) is None);
                out.push(v[i]);
                i += 1;
                proof {
                    assert(out@ + strip_pass(v@, i as int).0 =~= out@.drop_last() + (seq![
                        v@[i - 1],
                    ] + strip_pass(v@, i as int).0));
                }
            }
        } else {
            assert(brace_span_at(v@, i as int) is None);
            out.push(v[i]);
            i += 1;
            proof {
                assert(out@ + strip_pass(v@, i as int).0 =~= out@.drop_last() + (seq![v@[i - 1]]
                    + strip_pass(v@, i as int).0));
            }
        }
    }
    proof {
        assert(out@ + strip_pass(v@, i as int).0 =~= out@);
    }
    (out, changed)
}

proof fn lemma_brace_from_exact(s: Seq<char>, k: int, j: int)
    requires
        0 <= k <= j <= s.len(),
        forall|m: int| k <= m < j ==> s[m] != '{' && s[m] != '}',
        j == s.len() || s[j] == '{' || s[j] == '}',
    ensures
        brace_from(s, k) == (if j == s.len() {
            Option::<int>::None
        } else {
            Option::<int>::Some(j)
        }),
    decreases j - k,
{
    if k < j {
        lemma_brace_from_exact(s, k + 1, j);
    }
}

/// Collapse every unescaped brace-delimited span, repeatedly, then
/// unescape `\{` and `\}`.
pub fn strip_all_unescaped_braces(s: &str) -> (r: String)
    ensures
        r@ == spec_strip_braces(s@),
{
    let v = str_to_chars(s);
    let ghost orig = v@;
    let esc_open = str_to_chars("\\{");
    let open_b = str_to_chars("{");
    let esc_close = str_to_chars("\\}");
    let close_b = str_to_chars("}");
    proof {
        reveal_strlit("\\{");
        reveal_strlit("{");
        reveal_strlit("\\}");
        reveal_strlit("}");
        assert(esc_open@.len() == 2);
        assert(esc_close@.len() == 2);
    }
    let mut cur = v;
    loop
        invariant
            cur@.len() <= orig.len(),
            esc_open@ == "\\{"@,
            open_b@ == "{"@,
            esc_close@ == "\\}"@,
            close_b@ == "}"@,
            esc_open@.len() == 2,
            esc_close@.len() == 2,
            orig == s@,
            strip_fix(orig, orig.len() as nat) == strip_fix(cur@, cur@.len() as nat),
        decreases cur@.len(),
    {
        let (next, changed) = exec_strip_pass(&cur);
        if !changed {
            proof {
                assert(strip_fix(cur@, cur@.len() as nat) == cur@) by {
                    if cur@.len() != 0 {
                        assert(!strip_pass(cur@, 0).1);
                    }
                }
            }
            let u1 = crate::json::replace_all(&cur, &esc_open, &open_b);
            let u2 = crate::json::replace_all(&u1, &esc_close, &close_b);
            return chars_to_string(&u2);
        }
        proof {
            lemma_strip_pass_shorter(cur@, 0);
            lemma_strip_fix_step(cur@, next@);
        }
        cur = next;
    }
}

proof fn lemma_strip_fix_step(s: Seq<char>, next: Seq<char>)
    requires
        strip_pass(s, 0).1,
        next == strip_pass(s, 0).0,
        next.len() + 2 <= s.len(),
    ensures
        strip_fix(s, s.len() as nat) == strip_fix(next, next.len() as nat),
{
    assert(s.len() >= 2);
    lemma_strip_fix_fuel(next, (s.len() - 1) as nat, next.len() as nat);
    assert(strip_fix(s, s.len() as nat) == strip_fix(next, (s.len() - 1) as nat));
}

/// Brace stripping runs to a fixpoint: the collapse of innermost
/// unescaped brace pairs is applied repeatedly until none is left, so
/// one more pass over the text that feeds the unescape step changes
/// nothing.
pub proof fn lemma_strip_braces_exhaustive(s: Seq<char>)
    ensures
        !strip_pass(strip_fix(s, s.len() as nat), 0).1,
{
    lemma_strip_fix_exhaustive(s, s.len() as nat);
}

proof fn lemma_strip_fix_exhaustive(s: Seq<char>, fuel: nat)
    requires
        fuel >= s.len(),
    ensures
        !strip_pass(strip_fix(s, fuel), 0).1,
    decreases fuel,
{
    if fuel == 0 {
        assert(s.len() == 0);
        assert(strip_pass(s, 0) == (Seq::<char>::empty(), false));
    } else {
        let pass = strip_pass(s, 0);
        if pass.1 {
            lemma_strip_pass_shorter(s, 0);
            lemma_strip_fix_exhaustive(pass.0, (fuel - 1) as nat);
        }
    }
}

proof fn lemma_strip_fix_fuel(s: Seq<char>, f1: nat, f2: nat)
    requires
        f1 >= s.len(),
        f2 >= s.len(),
    ensures
        strip_fix(s, f1) == strip_fix(s, f2),
    decreases f1 + f2,
{
    if f1 == 0 || f2 == 0 {
        assert(s.len() == 0);
        if f1 != 0 {
            assert(strip_pass(s, 0) == (Seq::<char>::empty(), false));
        }
        if f2 != 0 {
            assert(strip_pass(s, 0) == (Seq::<char>::empty(), false));
        }
    } else {
        let pass = strip_pass(s, 0);
        if pass.1 {
            lemma_strip_pass_shorter(s, 0);
            lemma_strip_fix_fuel(pass.0, (f1 - 1) as nat, (f2 - 1) as nat);
        }
    }
}

} // verus!
