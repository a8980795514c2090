use bib::arxiv::{atom_query_url, map_category, Arxiv};

#[test]
fn parse_new_style_bare_and_version() {
    let a = Arxiv::parse("1810.04805").unwrap();
    assert_eq!(a.canonical_id, "1810.04805");
    assert!(a.version.is_none());

    let b = Arxiv::parse("1810.04805v2").unwrap();
    assert_eq!(b.canonical_id, "1810.04805");
    assert_eq!(b.version, Some("2".to_string()));
}

#[test]
fn parse_legacy_and_prefix_and_url() {
    let a = Arxiv::parse("astro-ph/0603274v1").unwrap();
    assert_eq!(a.canonical_id, "astro-ph/0603274");
    assert_eq!(a.version, Some("1".to_string()));
    assert!(a.legacy);

    let b = Arxiv::parse("arXiv:1810.04805v3").unwrap();
    assert_eq!(b.canonical_id, "1810.04805");
    assert_eq!(b.version, Some("3".to_string()));

    let c = Arxiv::parse("https://arxiv.org/pdf/1810.04805v1.pdf").unwrap();
    assert_eq!(c.canonical_id, "1810.04805");
    assert_eq!(c.version, Some("1".to_string()));
}

#[test]
fn build_keywords_mapping() {
    // cs.CL maps to "Computer Science - Computation and Language"
    let lbl = map_category("cs.CL", Some("cs")).unwrap();
    assert_eq!(lbl, "Computer Science - Computation and Language");

    // math-ph has a direct label
    let lbl2 = map_category("math-ph", None).unwrap();
    assert_eq!(lbl2, "Mathematical Physics");
}

#[test]
fn parse_rejects_listing_pages_and_junk() {
    assert!(Arxiv::parse("https://arxiv.org/list/cs.CL/recent").is_none());
    assert!(Arxiv::parse("https://arxiv.org/find/all").is_none());
    assert!(Arxiv::parse("https://arxiv.org/search/?query=x").is_none());
    assert!(Arxiv::parse("not an id").is_none());
    assert!(Arxiv::parse("1810.048").is_none());
    assert!(Arxiv::parse("astro-ph/060327").is_none());
}

#[test]
fn parse_accepts_abs_urls_and_legacy_hosts() {
    let a = Arxiv::parse("https://arxiv.org/abs/1810.04805v2").unwrap();
    assert_eq!(a.canonical_id, "1810.04805");
    assert_eq!(a.version, Some("2".to_string()));
    assert!(!a.legacy);

    let b = Arxiv::parse("http://xxx.lanl.gov/abs/astro-ph/0603274").unwrap();
    assert_eq!(b.canonical_id, "astro-ph/0603274");
    assert!(b.legacy);

    let c = Arxiv::parse("https://arxiv.org/abs/1810.04805?context=cs#top").unwrap();
    assert_eq!(c.canonical_id, "1810.04805");
}

#[test]
fn category_fallbacks() {
    // unknown subcategory falls back to the primary archive's display name
    let lbl = map_category("cs.ZZ", Some("cs")).unwrap();
    assert_eq!(lbl, "Computer Science");
    // nothing known yields nothing
    assert!(map_category("zz.ZZ", None).is_none());
    // archive plus subcategory composition
    assert_eq!(
        map_category("stat.ML", Some("stat")).unwrap(),
        "Statistics - Machine Learning"
    );
}

#[test]
fn resolve_atom_builds_a_record() {
    let a = Arxiv::parse("1810.04805v2").unwrap();
    let atom = "<?xml version=\"1.0\"?>\n<feed xmlns=\"http://www.w3.org/2005/Atom\">\n  <title>ArXiv Query</title>\n  <entry>\n    <title>BERT: Pre-training of Deep Bidirectional Transformers</title>\n    <summary>  We introduce a new language representation model.  </summary>\n    <updated>2019-05-24T00:00:00Z</updated>\n    <author><name>Jacob Devlin</name></author>\n    <author><name>Ming-Wei Chang</name></author>\n    <arxiv:primary_category xmlns:arxiv=\"http://arxiv.org/schemas/atom\" term=\"cs.CL\"/>\n    <category term=\"cs.CL\" scheme=\"http://arxiv.org/schemas/atom\"/>\n    <link rel=\"related\" href=\"https://doi.org/10.1000/182\"/>\n    <arxiv:comment xmlns:arxiv=\"http://arxiv.org/schemas/atom\">14 pages</arxiv:comment>\n  </entry>\n</feed>\n";
    let out = a.resolve_atom(atom).expect("record builds");
    assert!(out.contains("BERT"));
    assert!(out.contains("Jacob Devlin"));
    assert!(out.contains("10.1000/182"));
    assert!(out.contains("Computer Science - Computation and Language"));
    assert!(out.contains("1810.04805"));
}

#[test]
fn resolve_atom_without_entry_fails() {
    let a = Arxiv::parse("1810.04805").unwrap();
    let err = a.resolve_atom("<feed><title>empty</title></feed>").unwrap_err();
    assert!(err.contains("no Atom entry found for arXiv id 1810.04805"));
}

#[test]
fn query_url_encodes_the_id() {
    assert_eq!(
        atom_query_url("1810.04805"),
        "https://export.arxiv.org/api/query?id_list=1810.04805&max_results=1"
    );
    assert_eq!(
        atom_query_url("astro-ph/0603274"),
        "https://export.arxiv.org/api/query?id_list=astro-ph%2F0603274&max_results=1"
    );
}
