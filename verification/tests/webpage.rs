use bib::embedded::Embedded;
use bib::extract::{normalise_date, strip_site_suffix};

#[test]
fn strip_site_suffix_basic() {
    let t = "An Interesting Post \u{2014} My Blog";
    assert_eq!(strip_site_suffix(t, "My Blog"), "An Interesting Post");
}

#[test]
fn normalise_date_variants() {
    assert_eq!(normalise_date("2020-01-02"), Some("2020-01-02".to_string()));
    assert_eq!(normalise_date("2020/01/02"), Some("2020-01-02".to_string()));
    assert_eq!(normalise_date("2020-01"), Some("2020-01".to_string()));
    assert_eq!(normalise_date("2020"), Some("2020".to_string()));
    assert_eq!(normalise_date("2020-01-02T10:00:00Z"), Some("2020-01-02".to_string()));
    assert_eq!(normalise_date("January 2020"), None);
}

#[test]
fn parse_accepts_http_urls_only() {
    assert!(Embedded::parse("https://example.com/a/b").is_some());
    assert!(Embedded::parse("http://example.com").is_some());
    assert!(Embedded::parse("ftp://example.com/file").is_none());
    assert!(Embedded::parse("not a url").is_none());
    assert!(Embedded::parse("https://jetpack.wordpress.com/jetpack-comment/x").is_none());
}

#[test]
fn resolve_webpage_without_highwire_is_online() {
    let e = Embedded::parse("https://example.com/post").expect("url accepted");
    let html = "<html lang=\"en\"><head><title>  Example   Post \u{2014} Example Site </title><meta property=\"og:site_name\" content=\"Example Site\"><meta name=\"author\" content=\"Doe, Jane; Roe, Rick\"><meta name=\"keywords\" content=\"alpha, beta, alpha\"><meta name=\"description\" content=\"A post.\"><link rel=\"canonical\" href=\"/post\"><time datetime=\"2021-03-04T10:00:00Z\"></time></head><body></body></html>";
    let out = e
        .resolve_from_document(&e.url, html, &bib::json::collect_json_ld(html), "2026-01-01")
        .expect("record builds");
    assert!(out.starts_with("@online"), "got: {out}");
    assert!(out.contains("Example Post"), "got: {out}");
    assert!(!out.contains("Example Post \u{2014} Example Site"));
    assert!(out.contains("Doe, Jane"));
    assert!(out.contains("Roe, Rick"));
    assert!(out.contains("2021-03-04"));
    assert!(out.contains("2026-01-01"));
    assert!(out.contains("langid"));
    // keywords deduplicated case-insensitively
    let kw_line = out.lines().find(|l| l.contains("keywords")).expect("keywords present");
    assert_eq!(kw_line.matches("alpha").count(), 1);
}

#[test]
fn resolve_webpage_with_highwire_journal_is_article() {
    let e = Embedded::parse("https://journal.example.org/article/7").expect("url accepted");
    let html = "<html><head><meta name=\"citation_title\" content=\"Field Study\"><meta name=\"citation_author\" content=\"Au, Thor\"><meta name=\"citation_journal_title\" content=\"Journal of Examples\"><meta name=\"citation_volume\" content=\"12\"><meta name=\"citation_issue\" content=\"3\"><meta name=\"citation_firstpage\" content=\"100\"><meta name=\"citation_lastpage\" content=\"110\"><meta name=\"citation_doi\" content=\"doi:10.1000/182\"><meta name=\"citation_issn\" content=\"1234-5678\"></head></html>";
    let out = e
        .resolve_from_document(&e.url, html, &bib::json::collect_json_ld(html), "2026-01-01")
        .expect("record builds");
    assert!(out.starts_with("@article"), "got: {out}");
    assert!(out.contains("Field Study"));
    assert!(out.contains("Journal of Examples"));
    assert!(out.contains("100-110"));
    assert!(out.contains("10.1000/182"));
    assert!(out.contains("1234-5678"));
}

#[test]
fn base_href_changes_relative_links() {
    let html = "<html><head><base href=\"https://other.example.net/root/\"></head></html>";
    let base = bib::embedded::effective_base(
        bib::urlweb::parse_url("https://example.com/deep/page").unwrap(),
        html,
    );
    assert_eq!(base.full, "https://other.example.net/root/");
}

#[test]
fn build_key_slugs_paths() {
    let u = bib::urlweb::parse_url("https://example.com/a/b/c/").unwrap();
    let key = bib::urlweb::build_key("web", &u, "site");
    assert_eq!(key, "web:example.com:a-b-c");
    let root = bib::urlweb::parse_url("https://example.com/").unwrap();
    assert_eq!(bib::urlweb::build_key("web", &root, "site"), "web:example.com:root");
}

#[test]
fn linked_data_title_wins_over_highwire() {
    let e = Embedded::parse("https://example.com/x").expect("url accepted");
    let html = "<html><head><script type=\"application/ld+json\">{\"headline\": \"LD Headline\"}</script><meta name=\"citation_title\" content=\"HW Title\"><meta name=\"citation_journal_title\" content=\"J\"></head></html>";
    let out = e
        .resolve_from_document(&e.url, html, &bib::json::collect_json_ld(html), "2026-01-01")
        .expect("record builds");
    assert!(out.contains("LD Headline"), "got: {out}");
    assert!(!out.contains("HW Title"), "got: {out}");
}

#[test]
fn linked_data_authors_win_for_article_types() {
    let e = Embedded::parse("https://example.com/y").expect("url accepted");
    let html = "<html><head><script type=\"application/ld+json\">{\"@type\": \"ScholarlyArticle\", \"author\": [{\"name\": \"Ell, Dee\"}]}</script><meta name=\"citation_author\" content=\"Aitch, Dub\"></head></html>";
    let out = e
        .resolve_from_document(&e.url, html, &bib::json::collect_json_ld(html), "2026-01-01")
        .expect("record builds");
    assert!(out.contains("Ell, Dee"), "got: {out}");
    assert!(!out.contains("Aitch, Dub"), "got: {out}");
}

#[test]
fn linked_data_date_wins_over_highwire() {
    let e = Embedded::parse("https://example.com/z").expect("url accepted");
    let html = "<html><head><script type=\"application/ld+json\">{\"datePublished\": \"2019-05-05\"}</script><meta name=\"citation_publication_date\" content=\"2021-01-01\"></head></html>";
    let out = e
        .resolve_from_document(&e.url, html, &bib::json::collect_json_ld(html), "2026-01-01")
        .expect("record builds");
    assert!(out.contains("2019-05-05"), "got: {out}");
    assert!(!out.contains("2021-01-01"), "got: {out}");
}
