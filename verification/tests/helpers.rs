use bib::extract::{
    build_pages, clean_doi, derive_short_title_local, extract_year, looks_like_url_or_handle,
    normalize_name, pick_earlier_year, split_creators, split_tags,
};
use bib::html::{collect_html_lang, collect_meta, collect_title, meta_name, meta_value,
    parse_meta_tag};
use bib::json::collect_json_ld;
use bib::text::{escape_braces, normalize_ws, u64_to_string};
use bib::translator::DoiTranslator;

#[test]
fn normalize_ws_collapses_runs() {
    assert_eq!(normalize_ws("  a \t b\n\nc  "), "a b c");
    assert_eq!(normalize_ws(""), "");
    assert_eq!(normalize_ws(" \t\n"), "");
}

#[test]
fn creators_split_and_normalize() {
    assert_eq!(
        split_creators("Doe, Jane; Roe, Rick"),
        vec!["Doe, Jane".to_string(), "Roe, Rick".to_string()]
    );
    assert_eq!(
        split_creators("Jane Doe and Rick Roe"),
        vec!["Jane Doe".to_string(), "Rick Roe".to_string()]
    );
    assert_eq!(split_creators("Doe, Jane"), vec!["Doe".to_string(), "Jane".to_string()]);
    assert_eq!(split_creators("Prince"), vec!["Prince".to_string()]);
    assert_eq!(normalize_name("  ,Doe,  Jane,, "), "Doe, Jane");
    assert!(looks_like_url_or_handle("https://example.com/u"));
    assert!(looks_like_url_or_handle("@handle"));
    assert!(!looks_like_url_or_handle("Jane Doe"));
}

#[test]
fn tags_split_and_clean() {
    assert_eq!(
        split_tags("alpha, beta gamma,, ".to_string()),
        vec!["alpha".to_string(), "beta gamma".to_string()]
    );
    assert_eq!(
        split_tags("a;b; c".to_string()),
        vec!["a".to_string(), "b".to_string(), "c".to_string()]
    );
    assert_eq!(split_tags("   ".to_string()), Vec::<String>::new());
}

#[test]
fn years_and_pages() {
    assert_eq!(extract_year("published 2019, online 2021"), Some(2019));
    assert_eq!(extract_year("no year here"), None);
    assert_eq!(extract_year("12345"), None);
    assert_eq!(pick_earlier_year("2021-01-01", "2019"), "2019");
    assert_eq!(pick_earlier_year("2018-01-01", "2019"), "2018-01-01");
    assert_eq!(build_pages(Some("100".into()), Some("110".into())), Some("100-110".into()));
    assert_eq!(build_pages(Some("100\u{2013}".into()), None), Some("100-".into()));
    assert_eq!(build_pages(None, None), None);
}

#[test]
fn clean_doi_and_short_titles() {
    assert_eq!(
        clean_doi("https://doi.org/10.1000/182".to_string()),
        Some("10.1000/182".to_string())
    );
    assert_eq!(clean_doi("no doi".to_string()), None);
    assert_eq!(
        derive_short_title_local("Short: A Much Longer Subtitle"),
        Some("Short".to_string())
    );
    assert_eq!(derive_short_title_local("No colon here"), None);
    assert_eq!(derive_short_title_local("Toolong: x"), None);
    // lengths are compared in encoded bytes, not characters
    assert_eq!(derive_short_title_local("ab: \u{e9}"), Some("ab".to_string()));
}

#[test]
fn meta_scanning_reads_attributes() {
    let tag = "<meta NAME='citation_title' content=\"T en\" extra='1'>";
    let m = parse_meta_tag(tag).expect("tag parses");
    assert_eq!(m.name, Some("citation_title".to_string()));
    assert_eq!(m.content, "T en");
    assert!(parse_meta_tag("<meta name='x'>").is_none());

    let html = "<p><meta name=\"a\" content=\" one \"><meta property=\"og:b\" content=\"two\"></p>";
    let metas = collect_meta(html);
    assert_eq!(metas.len(), 2);
    assert_eq!(meta_value(&metas, "a"), Some("one".to_string()));
    assert_eq!(meta_name(&metas, "A"), Some("one".to_string()));
    assert_eq!(meta_value(&metas, "missing"), None);
}

#[test]
fn title_and_lang_collection() {
    let html = "<HTML Lang=\"de\"><head><TITLE> A  B </TITLE></head>";
    assert_eq!(collect_title(html), Some("A B".to_string()));
    assert_eq!(collect_html_lang(html), Some("de".to_string()));
    assert_eq!(collect_title("<p>no title</p>"), None);
}

#[test]
fn json_ld_blocks_are_parsed_and_spliced() {
    let html = "<script type=\"application/ld+json\">[{\"name\": \"First\"}, {\"name\": \"Second\"}]</script><script type=\"text/javascript\">ignored()</script><script type=\"application/ld+json\"><!-- {\"name\": \"Third\"} --></script>";
    let nodes = collect_json_ld(html);
    assert_eq!(nodes.len(), 3);
    assert_eq!(bib::json::json_name(&nodes), Some("First".to_string()));
}

#[test]
fn escaping_and_numbers() {
    assert_eq!(escape_braces("a{b}c"), "a\\{b\\}c");
    assert_eq!(u64_to_string(0), "0");
    assert_eq!(u64_to_string(90210), "90210");
}

#[test]
fn translator_matches_doi_family() {
    let t = DoiTranslator::parse("doi:10.1000/182").expect("should parse");
    assert_eq!(t.name, "10.1000/182");
    assert_eq!(t.prefix, "10.1000");
    assert_eq!(t.suffix, "182");
    assert!(t.to_url().starts_with("https://doi.org/10.1000/182"));
    assert!(DoiTranslator::parse("nope").is_none());
}
