use bib::doi::Doi;

fn check(input: &str, prefix: &str, suffix: &str) {
    let d = Doi::parse(input).expect("should parse");
    assert_eq!(d.prefix, prefix);
    assert_eq!(d.suffix, suffix);
}

#[test]
fn parse_finds_generated_doi() {
    check("10.1000/182", "10.1000", "182");
    check("10.123456789/ABC-123", "10.123456789", "ABC-123");
    check("10.48550/arXiv.1810.04805", "10.48550", "arXiv.1810.04805");
    check("10.1234/a.b;c(d)/e:f9", "10.1234", "a.b;c(d)/e:f9");
    check("10.9999/x", "10.9999", "x");
}

#[test]
fn parse_finds_embedded_doi() {
    check("  10.1000/182  ", "10.1000", "182");
    check("10.1000/182.", "10.1000", "182");
    check("\t10.5555/some.thing-42;", "10.5555", "some.thing-42");
    check("https://doi.org/10.1000/182", "10.1000", "182");
    check("see 10.1000/182, please", "10.1000", "182");
}

#[test]
fn to_url_roundtrips_suffix() {
    let d = Doi::parse("10.1000/182").expect("should parse");
    let url = url::Url::parse(&d.to_url()).expect("registrar URL parses");
    assert_eq!(url.scheme(), "https");
    assert_eq!(url.domain(), Some("doi.org"));
    let segs: Vec<_> = url.path_segments().expect("url has segments").collect();
    assert_eq!(segs, vec!["10.1000", "182"]);

    let d2 = Doi::parse("10.1234/a/b/c9").expect("should parse");
    let url2 = url::Url::parse(&d2.to_url()).expect("registrar URL parses");
    let segs2: Vec<_> = url2.path_segments().expect("url has segments").collect();
    assert_eq!(segs2.first(), Some(&"10.1234"));
    assert_eq!(segs2[1..].join("/"), "a/b/c9");
}

#[test]
fn parse_finds_first_of_multiple_dois() {
    let d = Doi::parse("x 10.1000/first9 10.2000/second9 y").expect("should parse first DOI");
    assert_eq!(d.prefix, "10.1000");
    assert_eq!(d.suffix, "first9");
}

#[test]
fn parse_with_textual_prefixes() {
    for pre in ["doi:", "DOI:", "urn:doi:", "URN:DOI:"] {
        for ws in ["", " ", "\t "] {
            let s = format!("{}{}{}", pre, ws, "10.1000/182");
            let d = Doi::parse(&s).expect("should parse with textual prefix");
            assert_eq!(d.prefix, "10.1000");
            assert_eq!(d.suffix, "182");
        }
    }
}

#[test]
fn parse_handles_query_and_fragment() {
    check("10.1000/182?utm=1#frag", "10.1000", "182");
    check("https://doi.org/10.1000/182?a=b#c", "10.1000", "182");
    check("10.1000/182#only-fragment", "10.1000", "182");
}

#[test]
fn parse_rejects_non_doi() {
    for s in [
        "this-is-not-a-doi",
        "hello world",
        "991000182",
        "10x1000/182",
        "https://example.com/page",
        "",
    ] {
        assert!(Doi::parse(s).is_none(), "should reject {s}");
    }
}

#[test]
fn suffix_must_end_on_word_boundary() {
    // trailing class characters that are not word characters are backed off
    let d = Doi::parse("10.1000/abc---").expect("should parse");
    assert_eq!(d.suffix, "abc");
    // fewer than four digits in the prefix is not a DOI
    assert!(Doi::parse("10.123/abc").is_none());
    // more than nine digits is not a DOI either
    assert!(Doi::parse("10.1234567890/abc").is_none());
}

#[test]
fn resolve_body_reads_a_bibliography() {
    let d = Doi::parse("10.1000/182").expect("should parse");
    let body = "@article{key1,\n    title = {A Title},\n}\n";
    let out = d.resolve_body(body).expect("body parses");
    assert!(out.contains("A Title"));
    assert!(d.resolve_body("not a bibliography @@@{{{").is_err());
}
