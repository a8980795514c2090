//! The generic-webpage family: the last-resort resolver that reads the
//! embedded metadata of any HTTP(S) page and synthesizes a record from
//! HighWire, linked-data, OpenGraph and plain meta signals.

use vstd::prelude::*;
use vstd::string::StringExecFns;

use crate::chars::str_to_chars;
use crate::extract::{
    creators_of, creators_split_of, dedup_ci, og_article_authors, spec_build_pages, spec_clean_doi,
    spec_normalise_date, spec_pick_earlier_year, spec_split_creators, spec_split_tags,
    spec_strip_site_suffix,
};
use crate::html::{
    sopt, spec_collect_base_href, spec_collect_html_lang, spec_collect_meta, spec_collect_time_datetime,
    spec_collect_title, spec_meta_http_equiv, spec_meta_name, spec_meta_property, spec_meta_value,
    spec_meta_value_any, LinkV, MetaTag, MetaV,
};
use crate::json::{
    spec_json_authors, spec_json_headline, spec_json_keywords, spec_json_ld_types,
    spec_json_str_key, Json,
};
use crate::record::{bib_reparse, fopt, pviews, spec_render_entry};
use crate::text::{eq_ci, occurs_at, spec_normalize_ws, sviews};
use crate::urlweb::{spec_absolutise, spec_build_key, url_parts, wview, WebUrl};
use crate::usenix::opt_or;

verus! {

/// A generic webpage accepted by the fallback resolver.
pub struct Embedded {
    pub url: WebUrl,
}

/// The one denylisted utility endpoint the fallback declines.
pub open spec fn lit_denied() -> Seq<char> {
    "jetpack.wordpress.com/jetpack-comment/"@
}

/// The fallback accepts any syntactically valid `http`/`https` URL whose
/// serialization is not on the denylist.
pub open spec fn spec_embedded_accepts(s: Seq<char>) -> bool {
    match url_parts(s) {
        Some(p) => (p.1 == "http"@ || p.1 == "https"@) && !crate::text::contains_seq(
            p.0,
            lit_denied(),
        ),
        None => false,
    }
}

impl Embedded {
    /// Accept any syntactically valid HTTP(S) URL except the known
    /// utility endpoints.
    pub fn parse(identifier: &str) -> (r: Option<Embedded>)
        ensures
            match r {
                Some(e) => spec_embedded_accepts(identifier@) && url_parts(identifier@) == Some(
                    wview(e.url),
                ),
                None => !spec_embedded_accepts(identifier@),
            },
    {
        let u = match crate::urlweb::parse_url(identifier) {
            Some(u) => u,
            None => {
                return None;
            },
        };
        let sv = str_to_chars(u.scheme.as_str());
        let http = str_to_chars("http");
        let https = str_to_chars("https");
        if !(crate::text::eq_chars(&sv, &http) || crate::text::eq_chars(&sv, &https)) {
            return None;
        }
        let fv = str_to_chars(u.full.as_str());
        let denied = str_to_chars("jetpack.wordpress.com/jetpack-comment/");
        match crate::text::find_sub_from(&fv, &denied, 0) {
            Some(_) => {
                assert(crate::text::contains_seq(u.full@, lit_denied()));
                None
            },
            None => {
                assert(!crate::text::contains_seq(u.full@, lit_denied()));
                Some(Embedded { url: u })
            },
        }
    }
}

// ------------------------------------------------------------------
// Base URL
// ------------------------------------------------------------------

/// The base used to absolutize relative links: the document's
/// `<base href>` resolved against the fetched URL when present and
/// resolvable, the fetched URL otherwise.
pub open spec fn spec_effective_base(
    fu: (Seq<char>, Seq<char>, Option<Seq<char>>, Seq<char>),
    html: Seq<char>,
) -> (Seq<char>, Seq<char>, Option<Seq<char>>, Seq<char>) {
    match spec_collect_base_href(html) {
        Some(h) => match spec_absolutise(fu.0, fu.1, h) {
            Some(p) => p,
            None => fu,
        },
        None => fu,
    }
}

/// Honour a `<base href>` tag when absolutizing later links.
pub fn effective_base(url: WebUrl, html: &str) -> (r: WebUrl)
    ensures
        wview(r) == spec_effective_base(wview(url), html@),
{
    match crate::html::collect_base_href(html) {
        Some(h) => match crate::urlweb::absolutise(&url, h.as_str()) {
            Some(w) => w,
            None => url,
        },
        None => url,
    }
}

// ------------------------------------------------------------------
// Field chains
// ------------------------------------------------------------------

/// Any HighWire `citation_*` meta tag is present.
pub open spec fn highwire_at(ms: Seq<MetaV>, i: int) -> bool {
    &&& 0 <= i < ms.len()
    &&& ms[i].name matches Some(n) && occurs_at(n, "citation_"@, 0)
}

pub open spec fn has_highwire(ms: Seq<MetaV>) -> bool {
    exists|i: int| highwire_at(ms, i)
}

/// Does any meta tag carry a HighWire `citation_*` name?
pub fn any_highwire(metas: &Vec<MetaTag>) -> (r: bool)
    ensures
        r == has_highwire(crate::html::mviews(metas@)),
{
    let pat = str_to_chars("citation_");
    let mut i: usize = 0;
    while i < metas.len()
        invariant
            0 <= i <= metas@.len(),
            pat@ == "citation_"@,
            forall|j: int| 0 <= j < i ==> !highwire_at(crate::html::mviews(metas@), j),
        decreases metas@.len() - i,
    {
        let hit = match &metas[i].name {
            Some(n) => {
                let nv = str_to_chars(n.as_str());
                crate::text::matches_at(&nv, &pat, 0)
            },
            None => false,
        };
        if hit {
            assert(highwire_at(crate::html::mviews(metas@), i as int));
            return true;
        }
        i += 1;
    }
    false
}

/// The entry kind inferred from which HighWire container tag is present.
pub enum PageKind {
    Article,
    InProceedings,
    Thesis,
    Report,
    InCollection,
    Online,
}

/// The inferred kind: conference, dissertation, report, journal and
/// in-book container tags are checked in that order when any HighWire
/// tag is present; everything else is an online page.
pub open spec fn spec_page_kind(ms: Seq<MetaV>) -> PageKind {
    if has_highwire(ms) {
        if spec_meta_value(ms, "citation_conference_title"@) is Some || spec_meta_value(
            ms,
            "citation_conference"@,
        ) is Some {
            PageKind::InProceedings
        } else if spec_meta_value(ms, "citation_dissertation_institution"@) is Some {
            PageKind::Thesis
        } else if spec_meta_value(ms, "citation_technical_report_institution"@) is Some {
            PageKind::Report
        } else if spec_meta_value(ms, "citation_journal_title"@) is Some {
            PageKind::Article
        } else if spec_meta_value(ms, "citation_inbook_title"@) is Some {
            PageKind::InCollection
        } else {
            PageKind::Online
        }
    } else {
        PageKind::Online
    }
}

fn page_kind(metas: &Vec<MetaTag>) -> (r: PageKind)
    ensures
        r == spec_page_kind(crate::html::mviews(metas@)),
{
    if !any_highwire(metas) {
        return PageKind::Online;
    }
    if crate::html::meta_value(metas, "citation_conference_title").is_some() || crate::html::meta_value(
        metas,
        "citation_conference",
    ).is_some() {
        PageKind::InProceedings
    } else if crate::html::meta_value(metas, "citation_dissertation_institution").is_some() {
        PageKind::Thesis
    } else if crate::html::meta_value(metas, "citation_technical_report_institution").is_some() {
        PageKind::Report
    } else if crate::html::meta_value(metas, "citation_journal_title").is_some() {
        PageKind::Article
    } else if crate::html::meta_value(metas, "citation_inbook_title").is_some() {
        PageKind::InCollection
    } else {
        PageKind::Online
    }
}

/// The canonical URL: the first `rel="canonical"` link resolved against
/// the base, else the base itself.
pub open spec fn spec_canonical_link(ls: Seq<LinkV>) -> Option<Seq<char>>
    decreases ls.len(),
{
    if ls.len() == 0 {
        None
    } else if eq_ci(ls[0].rel, "canonical"@) {
        Some(ls[0].href)
    } else {
        spec_canonical_link(ls.drop_first())
    }
}

pub open spec fn spec_canonical(
    base: (Seq<char>, Seq<char>, Option<Seq<char>>, Seq<char>),
    html: Seq<char>,
) -> (Seq<char>, Seq<char>, Option<Seq<char>>, Seq<char>) {
    match spec_canonical_link(crate::html::spec_collect_links(html)) {
        Some(h) => match spec_absolutise(base.0, base.1, h) {
            Some(p) => p,
            None => base,
        },
        None => base,
    }
}

fn canonical_url(base: &WebUrl, html: &str) -> (r: WebUrl)
    ensures
        wview(r) == spec_canonical(wview(*base), html@),
{
    let links = crate::html::collect_links(html);
    let target = str_to_chars("canonical");
    let mut i: usize = 0;
    proof {
        assert(crate::html::lviews(links@).skip(0) =~= crate::html::lviews(links@));
    }
    while i < links.len()
        invariant
            0 <= i <= links@.len(),
            target@ == "canonical"@,
            crate::html::lviews(links@) == crate::html::spec_collect_links(html@),
            spec_canonical_link(crate::html::spec_collect_links(html@)) == spec_canonical_link(
                crate::html::lviews(links@).skip(i as int),
            ),
        decreases links@.len() - i,
    {
        proof {
            assert(crate::html::lviews(links@).skip(i as int)[0] == crate::html::lview(
                links@[i as int],
            ));
            assert(crate::html::lviews(links@).skip(i as int).drop_first()
                =~= crate::html::lviews(links@).skip(i + 1));
        }
        let rv = str_to_chars(links[i].rel.as_str());
        if crate::text::eq_chars_ci(&rv, &target) {
            match crate::urlweb::absolutise(base, links[i].href.as_str()) {
                Some(w) => {
                    return w;
                },
                None => {
                    return clone_weburl(base);
                },
            }
        }
        i += 1;
    }
    proof {
        assert(crate::html::lviews(links@).skip(i as int) =~= Seq::<LinkV>::empty());
    }
    clone_weburl(base)
}

fn clone_weburl(u: &WebUrl) -> (r: WebUrl)
    ensures
        wview(r) == wview(*u),
{
    WebUrl {
        full: u.full.clone(),
        scheme: u.scheme.clone(),
        host: match &u.host {
            Some(h) => Some(h.clone()),
            None => None,
        },
        path: u.path.clone(),
    }
}

/// The page title after precedence and site-suffix stripping: the
/// linked-data headline wins over the HighWire title, as in the
/// conference-page family.
pub open spec fn spec_embedded_title(
    ms: Seq<MetaV>,
    ld: Seq<Json>,
    html: Seq<char>,
    base0: Seq<char>,
) -> Seq<char> {
    let title0 = match spec_json_headline(ld) {
        Some(t) => t,
        None => match spec_meta_value(ms, "citation_title"@) {
            Some(t) => t,
            None => match spec_meta_property(ms, "og:title"@) {
                Some(t) => t,
                None => match spec_collect_title(html) {
                    Some(t) => t,
                    None => base0,
                },
            },
        },
    };
    let title1 = spec_normalize_ws(title0);
    match spec_meta_property(ms, "og:site_name"@) {
        Some(site) => spec_strip_site_suffix(title1, site),
        None => title1,
    }
}

fn embedded_title(
    metas: &Vec<MetaTag>,
    ld: &Vec<Json>,
    html: &str,
    base_full: &String,
) -> (r: String)
    ensures
        r@ == spec_embedded_title(crate::html::mviews(metas@), ld@, html@, base_full@),
{
    let site_name = crate::html::meta_property(metas, "og:site_name");
    let title0: String = match crate::json::json_headline(ld) {
        Some(t) => t,
        None => match crate::html::meta_value(metas, "citation_title") {
            Some(t) => t,
            None => match crate::html::meta_property(metas, "og:title") {
                Some(t) => t,
                None => match crate::html::collect_title(html) {
                    Some(t) => t,
                    None => base_full.clone(),
                },
            },
        },
    };
    let title1 = crate::text::normalize_ws(title0.as_str());
    match &site_name {
        Some(site) => crate::extract::strip_site_suffix(title1.as_str(), site.as_str()),
        None => title1,
    }
}

/// The author list: linked-data authors when an article-like type is
/// declared, then HighWire authors, then usable OpenGraph values, then a
/// split `author` meta; deduplicated, order kept.
pub open spec fn spec_embedded_authors(ms: Seq<MetaV>, ld: Seq<Json>) -> Seq<Seq<char>> {
    let a0: Seq<Seq<char>> = if crate::usenix::has_articleish(spec_json_ld_types(ld)) {
        match spec_json_authors(ld) {
            Some(v) => v,
            None => Seq::empty(),
        }
    } else {
        Seq::empty()
    };
    let a1: Seq<Seq<char>> = if a0.len() == 0 {
        creators_of(ms, "citation_author"@) + creators_split_of(ms, "citation_authors"@)
    } else {
        a0
    };
    let a2: Seq<Seq<char>> = if a1.len() == 0 {
        og_article_authors(ms)
    } else {
        a1
    };
    let a3: Seq<Seq<char>> = if a2.len() == 0 {
        match spec_meta_name(ms, "author"@) {
            Some(v) => spec_split_creators(v),
            None => a2,
        }
    } else {
        a2
    };
    dedup_ci(a3)
}

fn embedded_authors(metas: &Vec<MetaTag>, ld: &Vec<Json>) -> (r: Vec<String>)
    ensures
        sviews(r@) == spec_embedded_authors(crate::html::mviews(metas@), ld@),
{
    let types = crate::json::json_ld_types(ld);
    let articleish = crate::usenix::any_articleish(&types);
    let mut authors: Vec<String> = if articleish {
        match crate::json::json_authors(ld) {
            Some(list) => list,
            None => Vec::new(),
        }
    } else {
        Vec::new()
    };
    proof {
        if authors@.len() == 0 {
            assert(sviews(authors@) =~= Seq::<Seq<char>>::empty());
        }
    }
    if authors.len() == 0 {
        crate::extract::extend_creators(&mut authors, metas, "citation_author");
        crate::extract::extend_creators_split(&mut authors, metas, "citation_authors");
    }
    if authors.len() == 0 {
        authors = crate::extract::collect_og_article_authors(metas);
    }
    if authors.len() == 0 {
        proof {
            assert(sviews(authors@) =~= Seq::<Seq<char>>::empty());
        }
        match crate::html::meta_name(metas, "author") {
            Some(a) => {
                authors = crate::extract::split_creators(a.as_str());
            },
            None => {},
        }
    }
    crate::extract::dedup_in_place(&mut authors);
    authors
}

/// The editors: HighWire editor tags, deduplicated.
pub open spec fn spec_embedded_editors(ms: Seq<MetaV>) -> Seq<Seq<char>> {
    dedup_ci(
        creators_of(ms, "citation_editor"@) + creators_split_of(ms, "citation_editors"@),
    )
}

fn embedded_editors(metas: &Vec<MetaTag>) -> (r: Vec<String>)
    ensures
        sviews(r@) == spec_embedded_editors(crate::html::mviews(metas@)),
{
    let mut editors: Vec<String> = Vec::new();
    proof {
        assert(sviews(editors@) =~= Seq::<Seq<char>>::empty());
    }
    crate::extract::extend_creators(&mut editors, metas, "citation_editor");
    crate::extract::extend_creators_split(&mut editors, metas, "citation_editors");
    crate::extract::dedup_in_place(&mut editors);
    editors
}

/// The normalized date after the fallback's precedence chain: the
/// linked-data date wins over the HighWire dates, with the earlier of
/// online date and cover year, and inline `<time>` tags, as fallbacks.
pub open spec fn spec_embedded_date(
    ms: Seq<MetaV>,
    ld: Seq<Json>,
    html: Seq<char>,
) -> Option<Seq<char>> {
    let olyr: Option<Seq<char>> = match (
        spec_meta_value(ms, "citation_online_date"@),
        spec_meta_value(ms, "citation_year"@),
    ) {
        (Some(o), Some(y)) => Some(spec_pick_earlier_year(o, y)),
        (Some(o), None) => Some(o),
        (None, Some(y)) => Some(y),
        (None, None) => None,
    };
    let raw = opt_or(
        spec_json_str_key(ld, "datePublished"@),
        opt_or(
            spec_meta_value(ms, "citation_publication_date"@),
            opt_or(
                spec_meta_value(ms, "citation_cover_date"@),
                opt_or(
                    spec_meta_value(ms, "citation_date"@),
                    opt_or(
                        olyr,
                        opt_or(
                            spec_meta_property(ms, "article:published_time"@),
                            spec_collect_time_datetime(html),
                        ),
                    ),
                ),
            ),
        ),
    );
    match raw {
        Some(d) => spec_normalise_date(d),
        None => None,
    }
}

fn embedded_date(metas: &Vec<MetaTag>, ld: &Vec<Json>, html: &str) -> (r: Option<String>)
    ensures
        sopt(r) == spec_embedded_date(crate::html::mviews(metas@), ld@, html@),
{
    let olyr: Option<String> = {
        let online = crate::html::meta_value(metas, "citation_online_date");
        let year = crate::html::meta_value(metas, "citation_year");
        match (online, year) {
            (Some(o), Some(y)) => Some(
                crate::extract::pick_earlier_year(o.as_str(), y.as_str()),
            ),
            (Some(o), None) => Some(o),
            (None, Some(y)) => Some(y),
            (None, None) => None,
        }
    };
    let raw: Option<String> = match crate::json::json_date_published(ld) {
        Some(d) => Some(d),
        None => match crate::html::meta_value(metas, "citation_publication_date") {
            Some(d) => Some(d),
            None => match crate::html::meta_value(metas, "citation_cover_date") {
                Some(d) => Some(d),
                None => match crate::html::meta_value(metas, "citation_date") {
                    Some(d) => Some(d),
                    None => match olyr {
                        Some(d) => Some(d),
                        None => match crate::html::meta_property(
                            metas,
                            "article:published_time",
                        ) {
                            Some(d) => Some(d),
                            None => crate::html::collect_time_datetime(html),
                        },
                    },
                },
            },
        },
    };
    match raw {
        Some(d) => crate::extract::normalise_date(d.as_str()),
        None => None,
    }
}

/// The record URL: the HighWire/OpenGraph chain absolutized, else the
/// canonical URL.
pub open spec fn spec_embedded_url(
    ms: Seq<MetaV>,
    base: (Seq<char>, Seq<char>, Option<Seq<char>>, Seq<char>),
    canon0: Seq<char>,
) -> Seq<char> {
    let cand = opt_or(
        spec_meta_value(ms, "citation_public_url"@),
        opt_or(
            spec_meta_value(ms, "citation_abstract_html_url"@),
            opt_or(
                spec_meta_value(ms, "citation_fulltext_html_url"@),
                spec_meta_property(ms, "og:url"@),
            ),
        ),
    );
    match cand {
        Some(u) => match spec_absolutise(base.0, base.1, u) {
            Some(p) => p.0,
            None => canon0,
        },
        None => canon0,
    }
}

fn embedded_url(metas: &Vec<MetaTag>, base: &WebUrl, canon: &WebUrl) -> (r: String)
    ensures
        r@ == spec_embedded_url(crate::html::mviews(metas@), wview(*base), canon.full@),
{
    let cand: Option<String> = match crate::html::meta_value(metas, "citation_public_url") {
        Some(u) => Some(u),
        None => match crate::html::meta_value(metas, "citation_abstract_html_url") {
            Some(u) => Some(u),
            None => match crate::html::meta_value(metas, "citation_fulltext_html_url") {
                Some(u) => Some(u),
                None => crate::html::meta_property(metas, "og:url"),
            },
        },
    };
    match cand {
        Some(u) => match crate::urlweb::absolutise(base, u.as_str()) {
            Some(w) => w.full,
            None => canon.full.clone(),
        },
        None => canon.full.clone(),
    }
}

/// The language after the fallback's precedence chain, ending at the
/// `<html lang>` attribute.
pub open spec fn spec_embedded_language(ms: Seq<MetaV>, html: Seq<char>) -> Option<Seq<char>> {
    opt_or(
        spec_meta_value(ms, "citation_language"@),
        opt_or(
            spec_meta_name(ms, "language"@),
            opt_or(
                spec_meta_name(ms, "lang"@),
                opt_or(
                    spec_meta_http_equiv(ms, "content-language"@),
                    spec_collect_html_lang(html),
                ),
            ),
        ),
    )
}

fn embedded_language(metas: &Vec<MetaTag>, html: &str) -> (r: Option<String>)
    ensures
        sopt(r) == spec_embedded_language(crate::html::mviews(metas@), html@),
{
    match crate::html::meta_value(metas, "citation_language") {
        Some(l) => Some(l),
        None => match crate::html::meta_name(metas, "language") {
            Some(l) => Some(l),
            None => match crate::html::meta_name(metas, "lang") {
                Some(l) => Some(l),
                None => match crate::html::meta_http_equiv(metas, "content-language") {
                    Some(l) => Some(l),
                    None => crate::html::collect_html_lang(html),
                },
            },
        },
    }
}

/// The keyword list: the first keyword source split into cleaned tags,
/// deduplicated.
pub open spec fn spec_embedded_keywords(ms: Seq<MetaV>, ld: Seq<Json>) -> Seq<Seq<char>> {
    let raw = match opt_or(
        spec_meta_value(ms, "citation_keywords"@),
        opt_or(spec_json_keywords(ld), spec_meta_name(ms, "keywords"@)),
    ) {
        Some(k) => k,
        None => Seq::empty(),
    };
    dedup_ci(spec_split_tags(raw))
}

fn embedded_keywords(metas: &Vec<MetaTag>, ld: &Vec<Json>) -> (r: Vec<String>)
    ensures
        sviews(r@) == spec_embedded_keywords(crate::html::mviews(metas@), ld@),
{
    let raw: String = match crate::html::meta_value(metas, "citation_keywords") {
        Some(k) => k,
        None => match crate::json::json_keywords(ld) {
            Some(k) => k,
            None => match crate::html::meta_name(metas, "keywords") {
                Some(k) => k,
                None => String::new(),
            },
        },
    };
    let mut tags = crate::extract::split_tags(raw);
    crate::extract::dedup_in_place(&mut tags);
    tags
}

// ------------------------------------------------------------------
// Record synthesis
// ------------------------------------------------------------------

/// The entry type and key prefix of a page kind.
pub open spec fn spec_kind_strings(k: PageKind) -> (Seq<char>, Seq<char>) {
    match k {
        PageKind::Article => ("@article"@, "article"@),
        PageKind::InProceedings => ("@inproceedings"@, "conf"@),
        PageKind::Thesis => ("@thesis"@, "thesis"@),
        PageKind::Report => ("@report"@, "report"@),
        PageKind::InCollection => ("@incollection"@, "incollection"@),
        PageKind::Online => ("@online"@, "web"@),
    }
}

/// The fields of the synthesized webpage record, in order.
pub open spec fn spec_embedded_fields(
    fu: (Seq<char>, Seq<char>, Option<Seq<char>>, Seq<char>),
    html: Seq<char>,
    ld: Seq<Json>,
    today: Seq<char>,
) -> Seq<(Seq<char>, Seq<char>)> {
    let ms = spec_collect_meta(html);
    let canon = spec_canonical(fu, html);
    let title = spec_embedded_title(ms, ld, html, fu.0);
    let authors = spec_embedded_authors(ms, ld);
    let editors = spec_embedded_editors(ms);
    let journal = spec_meta_value(ms, "citation_journal_title"@);
    let inbook = spec_meta_value(ms, "citation_inbook_title"@);
    let book = spec_meta_value(ms, "citation_book_title"@);
    let issn = opt_or(
        spec_meta_value_any(ms, seq!["citation_issn"@, "citation_ISSN"@]),
        spec_meta_value(ms, "citation_eIssn"@),
    );
    let abstract_note = opt_or(
        spec_meta_value(ms, "citation_abstract"@),
        opt_or(spec_json_str_key(ld, "description"@), spec_meta_name(ms, "description"@)),
    );
    let keywords = spec_embedded_keywords(ms, ld);
    seq![("title"@, title)] + fopt("date"@, spec_embedded_date(ms, ld, html)) + (if authors.len()
        > 0 {
        seq![("author"@, crate::extract::join_with(authors, " and "@))]
    } else {
        Seq::<(Seq<char>, Seq<char>)>::empty()
    }) + (if editors.len() > 0 {
        seq![("editor"@, crate::extract::join_with(editors, " and "@))]
    } else {
        Seq::<(Seq<char>, Seq<char>)>::empty()
    }) + fopt("langid"@, spec_embedded_language(ms, html)) + (match abstract_note {
        Some(a) => seq![("abstract"@, spec_normalize_ws(a))],
        None => Seq::<(Seq<char>, Seq<char>)>::empty(),
    }) + fopt("journaltitle"@, journal) + (match inbook {
        Some(ib) => seq![("booktitle"@, ib)],
        None => if journal is None && book is Some {
            seq![("booktitle"@, book->Some_0)]
        } else {
            Seq::<(Seq<char>, Seq<char>)>::empty()
        },
    }) + fopt("volume"@, spec_meta_value(ms, "citation_volume"@)) + fopt(
        "number"@,
        spec_meta_value(ms, "citation_issue"@),
    ) + fopt(
        "pages"@,
        spec_build_pages(
            spec_meta_value(ms, "citation_firstpage"@),
            spec_meta_value(ms, "citation_lastpage"@),
        ),
    ) + fopt(
        "doi"@,
        match spec_meta_value(ms, "citation_doi"@) {
            Some(d) => spec_clean_doi(d),
            None => None,
        },
    ) + fopt("issn"@, issn) + seq![("url"@, spec_embedded_url(ms, fu, canon.0))] + seq![
        ("urldate"@, today),
    ] + (if keywords.len() > 0 {
        seq![("keywords"@, crate::extract::join_with(keywords, ", "@))]
    } else {
        Seq::<(Seq<char>, Seq<char>)>::empty()
    }) + fopt("publisher"@, spec_meta_value(ms, "citation_publisher"@)) + fopt(
        "institution"@,
        spec_meta_value(ms, "citation_dissertation_institution"@),
    ) + fopt(
        "institution"@,
        spec_meta_value(ms, "citation_technical_report_institution"@),
    ) + fopt("number"@, spec_meta_value(ms, "citation_technical_report_number"@)) + fopt(
        "eventtitle"@,
        opt_or(
            spec_meta_value(ms, "citation_conference_title"@),
            spec_meta_value(ms, "citation_conference"@),
        ),
    )
}

/// The rendered record text of a webpage document.
pub open spec fn spec_embedded_text(
    fu: (Seq<char>, Seq<char>, Option<Seq<char>>, Seq<char>),
    html: Seq<char>,
    ld: Seq<Json>,
    today: Seq<char>,
) -> Seq<char> {
    let ms = spec_collect_meta(html);
    let canon = spec_canonical(fu, html);
    let ks = spec_kind_strings(spec_page_kind(ms));
    let key = spec_build_key(ks.1, canon.2, canon.3, "site"@);
    spec_render_entry(ks.0, key, spec_embedded_fields(fu, html, ld, today))
}

/// What resolving a fetched webpage document yields, given its
/// linked-data nodes and the access date.
pub open spec fn embedded_outcome(
    fu: (Seq<char>, Seq<char>, Option<Seq<char>>, Seq<char>),
    html: Seq<char>,
    ld: Seq<Json>,
    today: Seq<char>,
    r: Result<String, String>,
) -> bool {
    match bib_reparse(spec_embedded_text(fu, html, ld, today)) {
        Some(Some(t)) => r matches Ok(o) && o@ == t,
        Some(None) => r matches Err(e) && e@ == "empty bibliography from embedded translator"@,
        None => r matches Err(e) && exists|mm: Seq<char>|
            e@ == "failed to parse constructed BibLaTeX: "@ + mm,
    }
}

impl Embedded {
    /// Synthesize the page's record from one fetched document, its
    /// linked-data nodes and the access date, by the fallback's field
    /// precedence, and re-serialize it through the round-trip check.
    #[verifier::rlimit(100)]
    pub fn resolve_from_document(
        &self,
        final_url: &WebUrl,
        html: &str,
        json_ld: &Vec<Json>,
        today: &str,
    ) -> (r: Result<String, String>)
        ensures
            embedded_outcome(wview(*final_url), html@, json_ld@, today@, r),
    {
        let metas = crate::html::collect_meta(html);
        let canon = canonical_url(final_url, html);
        let title = embedded_title(&metas, json_ld, html, &final_url.full);
        let authors = embedded_authors(&metas, json_ld);
        let editors = embedded_editors(&metas);
        let date = embedded_date(&metas, json_ld, html);
        let journal = crate::html::meta_value(&metas, "citation_journal_title");
        let inbook = crate::html::meta_value(&metas, "citation_inbook_title");
        let book = crate::html::meta_value(&metas, "citation_book_title");
        let volume = crate::html::meta_value(&metas, "citation_volume");
        let issue = crate::html::meta_value(&metas, "citation_issue");
        let pages = crate::extract::build_pages(
            crate::html::meta_value(&metas, "citation_firstpage"),
            crate::html::meta_value(&metas, "citation_lastpage"),
        );
        let doi: Option<String> = match crate::html::meta_value(&metas, "citation_doi") {
            Some(d) => crate::extract::clean_doi(d),
            None => None,
        };
        let mut issn_names: Vec<String> = Vec::new();
        issn_names.push(String::from_str("citation_issn"));
        issn_names.push(String::from_str("citation_ISSN"));
        proof {
            assert(issn_names@.map_values(|n: String| n@) =~= seq![
                "citation_issn"@,
                "citation_ISSN"@,
            ]);
        }
        let issn: Option<String> = match crate::html::meta_value_any(&metas, &issn_names) {
            Some(s) => Some(s),
            None => crate::html::meta_value(&metas, "citation_eIssn"),
        };
        let url_full = embedded_url(&metas, final_url, &canon);
        let language = embedded_language(&metas, html);
        let abstract_note: Option<String> = match crate::html::meta_value(
            &metas,
            "citation_abstract",
        ) {
            Some(a) => Some(a),
            None => match crate::json::json_description(json_ld) {
                Some(a) => Some(a),
                None => crate::html::meta_name(&metas, "description"),
            },
        };
        let keywords = embedded_keywords(&metas, json_ld);
        let kind = page_kind(&metas);
        let ty: &str = match kind {
            PageKind::Article => "@article",
            PageKind::InProceedings => "@inproceedings",
            PageKind::Thesis => "@thesis",
            PageKind::Report => "@report",
            PageKind::InCollection => "@incollection",
            PageKind::Online => "@online",
        };
        let kp: &str = match kind {
            PageKind::Article => "article",
            PageKind::InProceedings => "conf",
            PageKind::Thesis => "thesis",
            PageKind::Report => "report",
            PageKind::InCollection => "incollection",
            PageKind::Online => "web",
        };
        let mut fields: Vec<(String, String)> = Vec::new();
        crate::record::push_field(&mut fields, "title", title);
        crate::record::push_opt_field(&mut fields, "date", date);
        if authors.len() > 0 {
            let joined = crate::extract::join_strings(&authors, " and ");
            crate::record::push_field(&mut fields, "author", joined);
        }
        if editors.len() > 0 {
            let joined = crate::extract::join_strings(&editors, " and ");
            crate::record::push_field(&mut fields, "editor", joined);
        }
        crate::record::push_opt_field(&mut fields, "langid", language);
        match abstract_note {
            Some(a) => {
                let na = crate::text::normalize_ws(a.as_str());
                crate::record::push_field(&mut fields, "abstract", na);
            },
            None => {},
        }
        let journal_present = journal.is_some();
        crate::record::push_opt_field(&mut fields, "journaltitle", journal);
        match inbook {
            Some(ib) => {
                crate::record::push_field(&mut fields, "booktitle", ib);
            },
            None => {
                if !journal_present {
                    match book {
                        Some(b) => {
                            crate::record::push_field(&mut fields, "booktitle", b);
                        },
                        None => {},
                    }
                }
            },
        }
        crate::record::push_opt_field(&mut fields, "volume", volume);
        crate::record::push_opt_field(&mut fields, "number", issue);
        crate::record::push_opt_field(&mut fields, "pages", pages);
        crate::record::push_opt_field(&mut fields, "doi", doi);
        crate::record::push_opt_field(&mut fields, "issn", issn);
        crate::record::push_field(&mut fields, "url", url_full);
        crate::record::push_field(&mut fields, "urldate", String::from_str(today));
        if keywords.len() > 0 {
            let joined = crate::extract::join_strings(&keywords, ", ");
            crate::record::push_field(&mut fields, "keywords", joined);
        }
        crate::record::push_opt_field(
            &mut fields,
            "publisher",
            crate::html::meta_value(&metas, "citation_publisher"),
        );
        crate::record::push_opt_field(
            &mut fields,
            "institution",
            crate::html::meta_value(&metas, "citation_dissertation_institution"),
        );
        crate::record::push_opt_field(
            &mut fields,
            "institution",
            crate::html::meta_value(&metas, "citation_technical_report_institution"),
        );
        crate::record::push_opt_field(
            &mut fields,
            "number",
            crate::html::meta_value(&metas, "citation_technical_report_number"),
        );
        let eventtitle: Option<String> = match crate::html::meta_value(
            &metas,
            "citation_conference_title",
        ) {
            Some(c) => Some(c),
            None => crate::html::meta_value(&metas, "citation_conference"),
        };
        crate::record::push_opt_field(&mut fields, "eventtitle", eventtitle);
        proof {
            assert(pviews(fields@) =~= spec_embedded_fields(
                wview(*final_url),
                html@,
                json_ld@,
                today@,
            ));
        }
        let key = crate::urlweb::build_key(kp, &canon, "site");
        let text = crate::record::render_entry(ty, key.as_str(), &fields);
        match crate::record::reparse_first_entry(text.as_str()) {
            crate::record::BibReparse::First(t) => Ok(t),
            crate::record::BibReparse::Empty => Err(
                String::from_str("empty bibliography from embedded translator"),
            ),
            crate::record::BibReparse::Unparsable(m) => {
                let mut e = String::from_str("failed to parse constructed BibLaTeX: ");
                e.append(m.as_str());
                proof {
                    assert(e@ == "failed to parse constructed BibLaTeX: "@ + m@);
                }
                Err(e)
            },
        }
    }

    /// Resolve from the fetched document alone: collect its linked-data
    /// nodes, stamp the access date, and synthesize the record.
    pub fn resolve_document(&self, final_url: &WebUrl, html: &str) -> (r: Result<String, String>)
        ensures
            exists|today: Seq<char>|
                embedded_outcome(
                    wview(*final_url),
                    html@,
                    crate::json::nodes_of_blocks(crate::json::ld_blocks_from(html@, 0)),
                    today,
                    r,
                ),
    {
        let json_ld = crate::json::collect_json_ld(html);
        let today = crate::record::current_date_iso();
        let r = self.resolve_from_document(final_url, html, &json_ld, today.as_str());
        proof {
            assert(embedded_outcome(
                wview(*final_url),
                html@,
                crate::json::nodes_of_blocks(crate::json::ld_blocks_from(html@, 0)),
                today@,
                r,
            ));
        }
        r
    }
}

} // verus!
