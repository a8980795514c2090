use bib::usenix::{strip_all_unescaped_braces, Usenix};

#[test]
fn parse_accepts_presentation_url() {
    let url = "https://www.usenix.org/conference/pepr25/presentation/sharma";
    assert!(Usenix::parse(url).is_some());
}

#[test]
fn parse_rejects_non_canonical_hosts_and_paths() {
    for bad in [
        // http rejected
        "http://www.usenix.org/conference/pepr25/presentation/sharma",
        // non-www rejected
        "https://usenix.org/conference/pepr25/presentation/sharma",
        // different path family
        "https://www.usenix.org/event/pepr25/presentation/sharma",
        // presentation missing
        "https://www.usenix.org/conference/pepr25/program",
        // other subdomains
        "https://blog.usenix.org/conference/pepr25/presentation/sharma",
    ] {
        assert!(Usenix::parse(bad).is_none(), "should reject {bad}");
    }
}

#[test]
fn strip_all_unescaped_braces_behaviour() {
    assert_eq!(strip_all_unescaped_braces("{BLAKE2}"), "BLAKE2");
    assert_eq!(strip_all_unescaped_braces("{A {B} C}"), "A B C");
    assert_eq!(strip_all_unescaped_braces("\\{esc\\}"), "{esc}");
    assert_eq!(strip_all_unescaped_braces("nest {one {two}} end"), "nest one two end");
}

#[test]
fn presentation_url_allows_tails() {
    assert!(Usenix::parse("https://www.usenix.org/conference/x/presentation").is_some());
    assert!(Usenix::parse("https://www.usenix.org/conference/x/presentation/y?z=1").is_some());
    assert!(Usenix::parse("https://www.usenix.org/conference/x/presentation#frag").is_some());
    assert!(Usenix::parse("https://www.usenix.org/conference/x/presentationX").is_none());
}

#[test]
fn resolve_builds_an_inproceedings_record() {
    let u = Usenix::parse("https://www.usenix.org/conference/pepr25/presentation/sharma")
        .expect("canonical URL accepted");
    let html = "<html><head><meta name=\"citation_title\" content=\"A {Great} Paper\"><meta name=\"citation_author\" content=\"Sharma, A.\"><meta name=\"citation_conference_title\" content=\"PEPR 25\"><meta name=\"citation_publication_date\" content=\"2025/06/02\"><meta property=\"og:url\" content=\"https://www.usenix.org/conference/pepr25/presentation/sharma\"><title>ignored</title></head><body></body></html>";
    let out = u.resolve_document(&u.url, html).expect("record builds");
    assert!(out.starts_with("@inproceedings"), "got: {out}");
    assert!(out.contains("A Great Paper"), "got: {out}");
    assert!(out.contains("Sharma, A."));
    assert!(out.contains("PEPR 25"));
    assert!(out.contains("2025-06-02"));
}

#[test]
fn resolve_prefers_linked_data_for_article_pages() {
    let u = Usenix::parse("https://www.usenix.org/conference/pepr25/presentation/lee")
        .expect("canonical URL accepted");
    let html = "<html><head><script type=\"application/ld+json\">{\"@type\": \"ScholarlyArticle\", \"name\": \"LD Title\", \"author\": [{\"name\": \"Lee, B.\"}], \"datePublished\": \"2024-09-01\"}</script><meta name=\"citation_title\" content=\"Meta Title\"></head></html>";
    let out = u.resolve_document(&u.url, html).expect("record builds");
    assert!(out.contains("LD Title"), "got: {out}");
    assert!(out.contains("Lee, B."));
    assert!(out.contains("2024-09-01"));
    assert!(out.starts_with("@article"));
}

#[test]
fn resolve_fails_on_empty_title() {
    let u = Usenix::parse("https://www.usenix.org/conference/pepr25/presentation/x")
        .expect("canonical URL accepted");
    let html = "<html><head><meta name=\"citation_title\" content=\"{}\"></head></html>";
    let err = u.resolve_document(&u.url, html).unwrap_err();
    assert!(err.contains("ValidationError: empty title"), "got: {err}");
}
