use bookmill::plan::queue_eta;
use bookmill::config::Edition;
use bookmill::plan::{
    fmt_dur, job_file_name, job_output_path, langs_for, localized_rights, outputs_for_format,
    outputs_for_target, plan_editions, plan_format, resolve_book_meta, BookInfo, Job, Out,
    find_book, jobs_for_req, BuildReq,
};

fn s(v: &[&str]) -> Vec<String> {
    v.iter().map(|x| x.to_string()).collect()
}

fn book(slug: &str, langs: &[&str], editions: &[&str]) -> BookInfo {
    BookInfo {
        slug: slug.into(),
        dir: format!("/repo/books/{slug}"),
        languages: s(langs),
        editions: s(editions),
        paper: None,
        ink: None,
    }
}

fn ed(target: &str) -> Edition {
    Edition { target: Some(target.into()), ..Default::default() }
}

fn job(out: Out, target: &str, edition: Option<&str>) -> Job {
    Job {
        slug: "la-riqueza".into(),
        dir: "/repo/books/la-riqueza".into(),
        lang: "es".into(),
        edition: edition.map(|e| e.to_string()),
        target: target.into(),
        out,
        epub_px: 1200,
    }
}

#[test]
fn format_and_target_outputs() {
    assert!(outputs_for_format("epub") == vec![Out::RetailEpub]);
    assert!(outputs_for_format("kdp") == vec![Out::KdpEpub, Out::KdpPdf]);
    assert!(outputs_for_format("print") == vec![Out::KdpPdf]);
    assert!(outputs_for_format("docx") == vec![Out::Docx]);
    assert!(
        outputs_for_format("all") == vec![Out::RetailEpub, Out::KdpEpub, Out::RetailPdf, Out::KdpPdf]
    );
    assert!(outputs_for_target("kdp-hardcover") == vec![Out::KdpPdf]);
    assert!(outputs_for_target("bubok") == vec![Out::KdpPdf]);
    assert!(outputs_for_target("kdp-epub") == vec![Out::KdpEpub]);
    assert!(outputs_for_target("gumroad") == vec![Out::RetailEpub, Out::RetailPdf]);
    assert!(outputs_for_target("retail") == vec![Out::RetailEpub, Out::RetailPdf]);
}

#[test]
fn job_label_and_output_files() {
    let j = job(Out::KdpPdf, "kdp-paperback", Some("kdp-paperback"));
    assert_eq!(j.label(), "la-riqueza es · kdp-paperback · KdpPdf");
    assert_eq!(job_file_name(&j), "la-riqueza-es-kdp.pdf");
    assert_eq!(
        job_output_path("/repo", &j),
        "/repo/output/la-riqueza/es/la-riqueza-es-kdp.pdf"
    );
    let b = job(Out::KdpPdf, "bubok", Some("bubok-mx"));
    assert_eq!(job_file_name(&b), "la-riqueza-es-bubok-mx.pdf");
    let f = job(Out::RetailEpub, "epub", None);
    assert_eq!(f.label(), "la-riqueza es · epub · RetailEpub");
    assert_eq!(job_file_name(&f), "la-riqueza-es.epub");
    assert_eq!(job_file_name(&job(Out::KdpEpub, "kdp", None)), "la-riqueza-es-kdp.epub");
    assert_eq!(job_file_name(&job(Out::RetailPdf, "pdf", None)), "la-riqueza-es.pdf");
    assert_eq!(job_file_name(&job(Out::Docx, "docx", None)), "la-riqueza-es.docx");
}

#[test]
fn compact_durations() {
    assert_eq!(fmt_dur(42), "42s");
    assert_eq!(fmt_dur(190), "3m10s");
    assert_eq!(fmt_dur(65), "1m05s");
    assert_eq!(fmt_dur(3720), "1h02m");
    assert_eq!(fmt_dur(0), "0s");
}

#[test]
fn front_matter_resolution() {
    assert_eq!(
        localized_rights("es", "Ana", "2025"),
        "© 2025 Ana. Todos los derechos reservados."
    );
    assert_eq!(localized_rights("en", "Ana", "2025"), "© 2025 Ana. All rights reserved.");
    let titles = vec![("es".to_string(), "La riqueza".to_string())];
    let subs: Vec<(String, String)> = Vec::new();
    let m = resolve_book_meta("s", "es", &titles, &subs, &None, &Some("Repo Author".into()), &None, &None)
        .unwrap();
    assert_eq!(m.title, "La riqueza");
    assert_eq!(m.subtitle, None);
    assert_eq!(m.author, "Repo Author");
    assert_eq!(m.rights, "© 2026 Repo Author. Todos los derechos reservados.");
    let own = resolve_book_meta("s", "es", &titles, &subs, &None, &None, &Some("2024".into()), &Some("CC BY".into()))
        .unwrap();
    assert_eq!(own.author, "Federico Ramallo");
    assert_eq!(own.rights, "CC BY");
    match resolve_book_meta("s", "en", &titles, &subs, &None, &None, &None, &None) {
        Err(e) => assert_eq!(e, "no [title.en] for s"),
        Ok(_) => panic!("a language without a title is an error"),
    }
}

#[test]
fn format_plan_expands_books_languages_outputs() {
    let books = vec![book("a", &["es", "en"], &[]), book("b", &["es"], &[])];
    let jobs = plan_format(&books, &Some("kdp".into()), &None);
    let labels: Vec<String> = jobs.iter().map(|j| j.label()).collect();
    assert_eq!(
        labels,
        vec![
            "a es · kdp · KdpEpub",
            "a es · kdp · KdpPdf",
            "a en · kdp · KdpEpub",
            "a en · kdp · KdpPdf",
            "b es · kdp · KdpEpub",
            "b es · kdp · KdpPdf",
        ]
    );
    assert!(jobs.iter().all(|j| j.epub_px == 1200 && j.edition.is_none()));
    let one = plan_format(&books, &None, &Some("en".into()));
    assert_eq!(one.len(), 8);
    assert!(one.iter().all(|j| j.lang == "en" && j.target == "all"));
    assert_eq!(langs_for(&s(&["es", "en"]), &Some("all".into())), s(&["es", "en"]));
}

#[test]
fn edition_plan_builds_each_target() {
    let mut eds = vec![("gumroad".to_string(), ed("gumroad")), ("kdp-paperback".to_string(), ed("kdp-paperback"))];
    eds[0].1.epub_image_px = Some(800);
    let books = vec![book("a", &["es"], &["gumroad", "kdp-paperback"])];
    let pages = vec![("a".to_string(), "es".to_string(), 120u32)];
    let (r, warnings) = plan_editions("/repo", &books, &eds, &None, &None, &None, &None, &None, &pages);
    assert!(warnings.is_empty());
    let jobs = r.unwrap();
    let labels: Vec<String> = jobs.iter().map(|j| j.label()).collect();
    assert_eq!(
        labels,
        vec!["a es · gumroad · RetailEpub", "a es · gumroad · RetailPdf", "a es · kdp-paperback · KdpPdf"]
    );
    assert_eq!(jobs[0].epub_px, 800);
    assert_eq!(jobs[2].epub_px, 1200);
    assert_eq!(jobs[2].target, "kdp-paperback");
}

#[test]
fn edition_plan_refuses_unknown_editions_and_bad_interiors() {
    let eds = vec![("kdp-paperback".to_string(), ed("kdp-paperback")), ("hc".to_string(), ed("kdp-hardcover"))];
    let books = vec![book("a", &["es"], &["kdp-paperback", "typo"])];
    let pages = vec![("a".to_string(), "es".to_string(), 20u32)];
    let (r, _) = plan_editions("/repo", &books, &eds, &None, &None, &None, &None, &None, &pages);
    assert_eq!(
        r.err().unwrap(),
        "edition config invalid:\n  - a/kdp-paperback [es]: interior is 20pp, outside kdp-paperback range 24–828pp\n  - a: unknown edition \"typo\" (not in [editions]; known: kdp-paperback, hc)"
    );
    // a hardcover not built yet only warns
    let hb = vec![book("b", &["en"], &["hc"])];
    let (r, warnings) = plan_editions("/repo", &hb, &eds, &None, &None, &None, &None, &None, &Vec::new());
    assert_eq!(r.unwrap().len(), 1);
    assert_eq!(
        warnings,
        vec!["b/hc [en]: hardcover needs ≥75pp — build the interior to verify (missing /repo/output/b/en/b-en-kdp.pdf)"]
    );
    // a free ISBN warns, an invalid paper refuses
    let mut bad = eds.clone();
    bad[0].1.isbn = Some("free".into());
    let (r, warnings) = plan_editions("/repo", &hb, &bad, &Some("pink".into()), &None, &None, &None, &Some("hc".into()), &Vec::new());
    assert!(r.is_err());
    assert_eq!(warnings.len(), 2);
    assert!(warnings[0].contains("free KDP ISBN"));
}

#[test]
fn edition_plan_checks_colour_choice() {
    let mut e = ed("kdp-hardcover");
    e.ink = Some("standard-color".into());
    let eds = vec![("hc".to_string(), e)];
    let mut b = book("c", &["es"], &["hc"]);
    b.paper = Some("cream".into());
    let pages = vec![("c".to_string(), "es".to_string(), 100u32)];
    let (r, _) = plan_editions("/r", &vec![b], &eds, &None, &None, &None, &None, &None, &pages);
    assert_eq!(
        r.err().unwrap(),
        "edition config invalid:\n  - c/hc: standard-color ink requires white paper (got \"cream\")\n  - c/hc: standard-color ink is paperback-only (not hardcover)"
    );
}

#[test]
fn find_book_by_slug_or_dir_name() {
    let mut b2 = book("second", &["es"], &[]);
    b2.dir = "/repo/books/02-second".into();
    let books = vec![book("first", &["es"], &[]), b2];
    assert_eq!(find_book(&books, "second"), Ok(1));
    assert_eq!(find_book(&books, "02-second"), Ok(1));
    assert_eq!(find_book(&books, "first"), Ok(0));
    assert_eq!(find_book(&books, "third"), Err("book not found: third".to_string()));
}

#[test]
fn selector_request_by_format_and_by_edition() {
    let books = vec![book("a", &["es", "en"], &["kdp-paperback"]), book("b", &["es"], &[])];
    let eds = vec![("kdp-paperback".to_string(), ed("kdp-paperback"))];
    let req = BuildReq { book: "a".into(), lang: "en".into(), edition: "all".into(), format: "epub".into() };
    let (r, w) = jobs_for_req(&req, books.clone(), "/repo", &eds, &None, &None, &None, &vec![]);
    let jobs = r.unwrap();
    assert!(w.is_empty());
    assert_eq!(jobs.len(), 1);
    assert_eq!(jobs[0].lang, "en");
    assert!(jobs[0].out == Out::RetailEpub);
    assert_eq!(jobs[0].target, "epub");

    let req = BuildReq { book: "a".into(), lang: "all".into(), edition: "all".into(), format: "edition".into() };
    let (r, _w) = jobs_for_req(&req, books.clone(), "/repo", &eds, &None, &None, &None, &vec![]);
    let jobs = r.unwrap();
    assert_eq!(jobs.len(), 2);
    assert!(jobs.iter().all(|j| j.edition.as_deref() == Some("kdp-paperback") && j.out == Out::KdpPdf));

    let req = BuildReq { book: "zzz".into(), lang: "all".into(), edition: "all".into(), format: "epub".into() };
    let (r, w) = jobs_for_req(&req, books, "/repo", &eds, &None, &None, &None, &vec![]);
    assert_eq!(r.unwrap_err(), "book not found: zzz");
    assert!(w.is_empty());
}

#[test]
fn queue_eta_is_mean_times_jobs_left() {
    assert_eq!(queue_eta(&vec![], 5, 0), None);
    assert_eq!(queue_eta(&vec![10, 20], 5, 2), Some(45));
    assert_eq!(queue_eta(&vec![7], 3, 1), Some(14));
    assert_eq!(queue_eta(&vec![u64::MAX, u64::MAX], 10, 2), Some(u64::MAX));
}
