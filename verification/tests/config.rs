use bookmill::config::{sort_path_list, Content,
    default_ane_code, default_books_dir, default_voice, isbn13_valid, page_range,
    resolve_auto_grayscale, resolve_captions, resolve_digital_pdf_dpi, resolve_ink,
    resolve_paper, sample_count, sample_enabled, validate_color_compat, Edition, Sample, Status,
};
use bookmill::config::{
    cover_edit_mode, find_edition, validate_book, validate_book_editions, validate_editions, Listing,
};

fn eds(v: &[(&str, Option<&str>)]) -> Vec<(String, Edition)> {
    v.iter()
        .map(|(n, t)| (n.to_string(), Edition { target: t.map(|x| x.to_string()), ..Default::default() }))
        .collect()
}

fn names(v: &[&str]) -> Vec<String> {
    v.iter().map(|s| s.to_string()).collect()
}

#[test]
fn isbn13_checksum() {
    assert!(isbn13_valid("978-3-16-148410-0"));
    assert!(!isbn13_valid("978-3-16-148410-1"));
    assert!(!isbn13_valid("123"));
}

#[test]
fn resolve_paper_precedence() {
    let repo = Some("cream".to_string());
    let book = Some("groundwood".to_string());
    let ed = Edition { paper: Some("white".into()), ..Default::default() };
    assert_eq!(resolve_paper(Some(&ed), &book, &repo), "white");
    assert_eq!(resolve_paper(None, &book, &repo), "groundwood");
    assert_eq!(resolve_paper(None, &None, &repo), "cream");
    assert_eq!(resolve_paper(None, &None, &None), "white");
    let ed_noink = Edition::default();
    assert_eq!(resolve_paper(Some(&ed_noink), &book, &repo), "groundwood");
}

#[test]
fn resolve_ink_precedence() {
    let repo = Some("standard-color".to_string());
    let book = Some("premium-color".to_string());
    let ed = Edition { ink: Some("black".into()), ..Default::default() };
    assert_eq!(resolve_ink(Some(&ed), &book, &repo), "black");
    assert_eq!(resolve_ink(None, &book, &repo), "premium-color");
    assert_eq!(resolve_ink(None, &None, &repo), "standard-color");
    assert_eq!(resolve_ink(None, &None, &None), "black");
}

#[test]
fn sample_count_default_and_override() {
    let bare = Sample::default();
    assert_eq!(sample_count(&bare, 0), 0);
    assert_eq!(sample_count(&bare, 1), 1);
    assert_eq!(sample_count(&bare, 12), 2);
    assert_eq!(sample_count(&bare, 3), 1);
    assert_eq!(sample_count(&bare, 2), 1);
    let five = Sample { chapters: Some(5), enabled: None };
    assert_eq!(sample_count(&five, 12), 5);
    assert_eq!(sample_count(&five, 3), 3);
    assert!(sample_enabled(&bare));
    let off = Sample { chapters: None, enabled: Some(false) };
    assert!(!sample_enabled(&off));
}

#[test]
fn resolve_digital_pdf_dpi_precedence() {
    let ed = Edition { digital_pdf_dpi: Some(120), ..Default::default() };
    assert_eq!(resolve_digital_pdf_dpi(Some(&ed), Some(150)), Some(120));
    let ed_bare = Edition::default();
    assert_eq!(resolve_digital_pdf_dpi(Some(&ed_bare), Some(150)), Some(150));
    assert_eq!(resolve_digital_pdf_dpi(None, Some(150)), Some(150));
    assert_eq!(resolve_digital_pdf_dpi(None, None), None);
    assert_eq!(resolve_digital_pdf_dpi(None, Some(0)), None);
}

#[test]
fn captions_and_grayscale_layering() {
    let ed = Edition { captions: Some(false), ..Default::default() };
    assert!(!resolve_captions(Some(&ed), Some(true)));
    assert!(resolve_captions(None, None));
    assert!(!resolve_captions(None, Some(false)));
    assert!(resolve_auto_grayscale(Some(true), Some(false)));
    assert!(resolve_auto_grayscale(None, Some(true)));
    assert!(!resolve_auto_grayscale(None, None));
}

#[test]
fn ribbon_best_status_wins() {
    let mut st = Status::default();
    assert_eq!(st.ribbon(), "draft");
    st.kdp_hardcover = Some("blocked".into());
    assert_eq!(st.ribbon(), "blocked");
    st.kdp_kindle = Some(" In Review ".into());
    assert_eq!(st.ribbon(), "in-review");
    st.kdp_paperback = Some("LIVE".into());
    assert_eq!(st.ribbon(), "live");
    let canceled = Status { kdp_paperback: Some("canceled".into()), ..Default::default() };
    assert_eq!(canceled.ribbon(), "draft");
}

#[test]
fn ribbon_overall_override_wins() {
    let s = Status { overall: Some("blocked".into()), kdp_paperback: Some("live".into()), ..Default::default() };
    assert_eq!(s.ribbon(), "blocked");
    let s = Status { overall: Some(" Published ".into()), kdp_hardcover: Some("blocked".into()), ..Default::default() };
    assert_eq!(s.ribbon(), "live");
    let s = Status { overall: Some("canceled".into()), kdp_kindle: Some("live".into()), ..Default::default() };
    assert_eq!(s.ribbon(), "draft");
}

#[test]
fn kdp_ranges_and_color_rules() {
    assert_eq!(page_range("kdp-hardcover", "black"), (75, 550));
    assert_eq!(page_range("kdp-paperback", "standard-color"), (72, 600));
    assert_eq!(page_range("kdp-paperback", "premium-color"), (24, 828));
    let issues = validate_color_compat("s", "kdp-hardcover", "cream", "standard-color", "kdp-hardcover");
    assert_eq!(issues.len(), 2);
    assert_eq!(issues[0].level, "error");
    assert_eq!(issues[0].msg, "s/kdp-hardcover: standard-color ink requires white paper (got \"cream\")");
    assert_eq!(issues[1].msg, "s/kdp-hardcover: standard-color ink is paperback-only (not hardcover)");
    assert!(validate_color_compat("s", "e", "cream", "premium-color", "kdp-hardcover").is_empty());
}

#[test]
fn audiobook_defaults() {
    assert_eq!(default_voice("es"), "ef_dora");
    assert_eq!(default_voice("en"), "af_heart");
    assert_eq!(default_ane_code("es"), "e");
    assert_eq!(default_ane_code("pt"), "p");
    assert_eq!(default_ane_code("de"), "a");
    assert_eq!(default_books_dir(), "books");
}

#[test]
fn cover_edit_mode_derives_from_editions_and_override() {
    let repo = eds(&[
        ("kdp-paperback", Some("kdp-paperback")),
        ("kdp-epub", Some("kdp-epub")),
        ("gumroad", Some("gumroad")),
    ]);
    // a print edition present -> wrap
    assert_eq!(cover_edit_mode(&None, &None, &names(&["kdp-paperback", "kdp-epub"]), &repo), "wrap");
    // digital-only -> front
    assert_eq!(cover_edit_mode(&None, &None, &names(&["kdp-epub", "gumroad"]), &repo), "front");
    // explicit [cover].edit overrides the derivation
    assert_eq!(
        cover_edit_mode(&Some("front".into()), &None, &names(&["kdp-paperback"]), &repo),
        "front"
    );
}

#[test]
fn cover_edit_mode_override_is_trimmed_lowercased_and_checked() {
    let repo = eds(&[("hc", Some("kdp-hardcover")), ("pod", Some("bubok"))]);
    assert_eq!(cover_edit_mode(&None, &Some("  WRAP ".into()), &names(&[]), &repo), "wrap");
    // the book's setting wins over the repository's
    assert_eq!(cover_edit_mode(&Some("Front".into()), &Some("wrap".into()), &names(&["hc"]), &repo), "front");
    // an unknown setting falls back to the derivation
    assert_eq!(cover_edit_mode(&Some("both".into()), &None, &names(&["pod"]), &repo), "wrap");
    // an edition missing from the table is not a print edition
    assert_eq!(cover_edit_mode(&None, &None, &names(&["ghost"]), &repo), "front");
}

#[test]
fn unknown_edition_is_flagged() {
    let repo = eds(&[("kdp-paperback", Some("kdp-paperback"))]);
    let issues = validate_book_editions("s", &names(&["kdp-paperback", "typo"]), &repo);
    assert_eq!(issues.len(), 1);
    assert_eq!(issues[0].level, "error");
    assert!(issues[0].msg.contains("typo"));
    // all-known editions -> no issues
    assert!(validate_book_editions("s", &names(&["kdp-paperback"]), &repo).is_empty());
    // a book declaring no editions -> no issues
    assert!(validate_book_editions("s", &names(&[]), &repo).is_empty());
}

#[test]
fn unknown_edition_message_lists_known_editions() {
    let repo = eds(&[("a", None), ("b", None)]);
    let issues = validate_book_editions("slug", &names(&["x"]), &repo);
    assert_eq!(issues[0].msg, "slug: unknown edition \"x\" (not in [editions]; known: a, b)");
    let empty: Vec<(String, Edition)> = Vec::new();
    let issues = validate_book_editions("slug", &names(&["x"]), &empty);
    assert_eq!(issues[0].msg, "slug: unknown edition \"x\" (not in [editions]; known: none)");
    assert_eq!(find_edition(&repo, "b"), Some(1));
    assert_eq!(find_edition(&repo, "c"), None);
}

#[test]
fn edition_options_and_isbns_are_validated() {
    let mut table = eds(&[("e1", None), ("e2", None), ("e3", None)]);
    table[0].1.paper = Some("pink".into());
    table[0].1.isbn = Some("978-3-16-148410-0".into());
    table[1].1.isbn = Some("free".into());
    table[1].1.finish = Some("glossy".into());
    table[2].1.isbn = Some("123".into());
    table[2].1.ink = Some("neon".into());
    let issues = validate_editions(&Some("cream".into()), &None, &Some("satin".into()), &table);
    let got: Vec<(&str, &str)> = issues.iter().map(|i| (i.level, i.msg.as_str())).collect();
    assert_eq!(
        got,
        vec![
            ("error", "[defaults] finish=\"satin\" not one of [\"matte\", \"glossy\"]"),
            ("error", "[editions.e1] paper=\"pink\" not one of [\"white\", \"cream\", \"groundwood\"]"),
            ("warn", "[editions.e2] uses a free KDP ISBN (non-portable; imprint = \"Independently published\")"),
            ("error", "[editions.e3] ink=\"neon\" not one of [\"black\", \"standard-color\", \"premium-color\"]"),
            (
                "error",
                "[editions.e3] isbn \"123\" is not a valid ISBN-13 (use \"free\" for a KDP-assigned ISBN)"
            ),
        ]
    );
    assert!(validate_editions(&None, &None, &None, &Vec::new()).is_empty());
}

#[test]
fn book_metadata_rules() {
    let langs = names(&["en", "es"]);
    let titles = vec![("en".to_string(), "The Animal Farm Story".to_string())];
    let subtitles: Vec<(String, String)> = Vec::new();
    let long = "k".repeat(51);
    let listing = Listing {
        keywords: vec!["a".into(), "b".into(), "c".into(), "d".into(), "e".into(), "f".into(), "g".into(), long.clone()],
        blurb: Some("x".repeat(4001)),
        bisac: names(&["A", "B", "C", "D"]),
        reading_age: None,
    };
    let listings = vec![("en".to_string(), listing)];
    let issues = validate_book(&langs, &titles, &subtitles, &listings);
    let msgs: Vec<String> = issues.iter().map(|i| i.msg.clone()).collect();
    assert!(issues.iter().all(|i| i.level == "error"));
    assert_eq!(
        msgs,
        vec![
            "[es] missing title".to_string(),
            "[en] 8 keywords (KDP max 7)".to_string(),
            format!("[en] keyword over 50 chars: {:?}", long),
            "[en] blurb over 4000 chars".to_string(),
            "[en] 4 BISAC codes (max 3)".to_string(),
            "forbidden phrase in public copy: \"Animal Farm\"".to_string(),
        ]
    );
    let clean = vec![("en".to_string(), "A Story".to_string()), ("es".to_string(), "Un cuento".to_string())];
    assert!(validate_book(&langs, &clean, &subtitles, &Vec::new()).is_empty());
}

#[test]
fn content_resolves_front_glob_files_back_in_order() {
    let c = Content {
        glob: Some("capitulos/*.md".into()),
        files: vec!["extra/epilogo.md".into()],
        prepend: vec!["front/prologo.md".into()],
        append: vec!["back/notas.md".into()],
    };
    let hits = Some(Ok(vec![
        "/b/capitulos/cap-10.md".to_string(),
        "/b/capitulos/cap-02.md".to_string(),
        "/b/capitulos/cap-01.md".to_string(),
    ]));
    let r = c.resolve("/b", &hits, &vec![true]).unwrap();
    assert_eq!(
        r,
        vec![
            "/b/front/prologo.md",
            "/b/capitulos/cap-01.md",
            "/b/capitulos/cap-02.md",
            "/b/capitulos/cap-10.md",
            "/b/extra/epilogo.md",
            "/b/back/notas.md",
        ]
    );
}

#[test]
fn content_resolution_errors() {
    let c = Content { glob: Some("cap/*.md".into()), ..Default::default() };
    assert_eq!(c.resolve("/b", &Some(Ok(vec![])), &vec![]).unwrap_err(), "content glob matched no files: cap/*.md");
    assert_eq!(c.resolve("/b", &Some(Err("bad".into())), &vec![]).unwrap_err(), "bad glob cap/*.md");
    let f = Content { files: vec!["a.md".into(), "b.md".into()], ..Default::default() };
    assert_eq!(f.resolve("/b", &None, &vec![true, false]).unwrap_err(), "content file not found: /b/b.md");
    assert_eq!(f.resolve("/b", &None, &vec![true, true]).unwrap(), vec!["/b/a.md", "/b/b.md"]);
}

#[test]
fn paths_sort_by_component() {
    let v = vec!["a-b/x".to_string(), "a/b".to_string(), "a".to_string(), "a/a".to_string()];
    assert_eq!(sort_path_list(&v), vec!["a", "a/a", "a/b", "a-b/x"]);
}
