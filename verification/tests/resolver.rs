use bib::resolver::{assemble_results, count_ok, format_duration, parse, unrecognized_message,
    Recognized};

#[test]
fn resolver_parse_accepts_generated_doi() {
    for s in ["10.1000/182", "10.123456/x.y-z9", "doi: 10.5555/abc"] {
        match parse(s) {
            Some(Recognized::DoiId(_)) => {},
            _ => panic!("expected a DOI for {s}"),
        }
    }
}

#[test]
fn resolver_parse_rejects_non_doi() {
    for s in ["this-is-not-a-doi", "hello world", ""] {
        assert!(parse(s).is_none(), "should reject {s}");
    }
}

#[test]
fn resolver_priority_order() {
    // a DOI wins even when the text is also a valid URL
    match parse("https://doi.org/10.1000/182") {
        Some(Recognized::DoiId(d)) => assert_eq!(d.prefix, "10.1000"),
        _ => panic!("expected the DOI family"),
    }
    // an arXiv URL is recognized before the webpage fallback
    match parse("https://arxiv.org/abs/1810.04805") {
        Some(Recognized::ArxivId(a)) => assert_eq!(a.canonical_id, "1810.04805"),
        _ => panic!("expected the arXiv family"),
    }
    // a canonical conference page beats the fallback
    match parse("https://www.usenix.org/conference/pepr25/presentation/sharma") {
        Some(Recognized::UsenixId(_)) => {},
        _ => panic!("expected the conference-page family"),
    }
    // everything else that is an HTTP URL falls through to the webpage family
    match parse("https://example.com/a") {
        Some(Recognized::EmbeddedId(_)) => {},
        _ => panic!("expected the webpage family"),
    }
}

#[test]
fn unrecognized_identifier_reports_one_failure() {
    let id = "this-is-not-a-doi";
    assert!(parse(id).is_none());
    let msg = unrecognized_message(id);
    assert!(msg.contains("unrecognized identifier: this-is-not-a-doi"));
    let results = vec![(0usize, Err::<String, String>(msg))];
    let (slots, errors) = assemble_results(1, &results);
    assert_eq!(count_ok(&slots), 0);
    assert_eq!(errors.len(), 1);
    assert!(errors[0].contains("unrecognized identifier: this-is-not-a-doi"));
}

#[test]
fn assemble_keeps_input_order_regardless_of_completion_order() {
    let in_order = vec![
        (0usize, Ok::<String, String>("a".to_string())),
        (1usize, Err::<String, String>("b failed".to_string())),
        (2usize, Ok::<String, String>("c".to_string())),
    ];
    let scrambled = vec![
        (2usize, Ok::<String, String>("c".to_string())),
        (0usize, Ok::<String, String>("a".to_string())),
        (1usize, Err::<String, String>("b failed".to_string())),
    ];
    let (s1, e1) = assemble_results(3, &in_order);
    let (s2, e2) = assemble_results(3, &scrambled);
    assert_eq!(s1, vec![Some("a".to_string()), None, Some("c".to_string())]);
    assert_eq!(s1, s2);
    assert_eq!(count_ok(&s1), 2);
    assert_eq!(e1.len(), 1);
    assert_eq!(e2.len(), 1);
}

#[test]
fn format_duration_breakpoints() {
    assert_eq!(format_duration(950), "950ms");
    assert_eq!(format_duration(1500), "1.500s");
    assert_eq!(format_duration(2050), "2.050s");
    assert_eq!(format_duration(2005), "2.005s");
    assert_eq!(format_duration(65_000), "1m 05s");
    assert_eq!(format_duration(600_000), "10m 00s");
}
