use bookmill::a11y::{Finding, Level};
use bookmill::config::Issue;
use bookmill::deep::{
    ace_report, audit_dpi_rows, build_failed, config_checks, dpi_report, emit, epubcheck_lines,
    epubcheck_report, front_cover_report, spine_report, verdict, DpiImage, Report, MIN_IMG_PX,
    MIN_PRINT_DPI,
};

/// A placed image of `w×h` px at a known effective `dpi` (square pixels), as the
/// PDF reader measures it.
fn placed(page: u32, w: u32, h: u32, dpi: f64) -> DpiImage {
    let placed_w_pt = w as f64 / dpi * 72.0;
    let placed_h_pt = h as f64 / dpi * 72.0;
    let dpi_x = w as f64 / (placed_w_pt / 72.0);
    let dpi_y = h as f64 / (placed_h_pt / 72.0);
    DpiImage {
        page,
        px_w: w,
        px_h: h,
        placed: placed_w_pt > 0.0 && placed_h_pt > 0.0,
        dpi: dpi_x.min(dpi_y).round().max(0.0) as u32,
    }
}

fn sample() -> Vec<DpiImage> {
    vec![
        placed(6, 2048, 3072, 349.0),
        placed(8, 612, 820, 342.0),
        placed(10, 800, 600, 150.0),
        placed(12, 40, 40, 72.0),
    ]
}

#[test]
fn audits_placed_images_and_flags_low_dpi() {
    let (checked, min_seen, low) = audit_dpi_rows(&sample(), MIN_PRINT_DPI, MIN_IMG_PX);
    assert_eq!(checked, 3);
    assert_eq!(min_seen, Some(150));
    assert_eq!(low.len(), 1);
    assert_eq!(low[0].page, 10);
    assert_eq!(low[0].ppi, 150);
    assert_eq!((low[0].w, low[0].h), (800, 600));
}

#[test]
fn empty_audits_nothing() {
    let (checked, min_seen, low) = audit_dpi_rows(&vec![], MIN_PRINT_DPI, MIN_IMG_PX);
    assert_eq!(checked, 0);
    assert_eq!(min_seen, None);
    assert!(low.is_empty());
}

#[test]
fn zero_area_placement_is_skipped() {
    let ims = vec![DpiImage { page: 1, px_w: 500, px_h: 500, placed: false, dpi: 0 }];
    assert_eq!(audit_dpi_rows(&ims, MIN_PRINT_DPI, MIN_IMG_PX).0, 0);
}

fn levels(r: &bookmill::deep::Report) -> Vec<(String, String, Option<u32>)> {
    r.issues.iter().map(|i| (i.level.to_string(), i.message.clone(), i.page)).collect()
}

#[test]
fn report_logs_and_prints_outcomes() {
    let mut r = Report::new(false);
    r.cur_book = "b".into();
    r.cur_lang = Some("es".into());
    r.ok("fine");
    r.warn("hmm");
    r.warn_page("page", 7);
    r.bad("broken");
    r.say("progress");
    assert_eq!(r.take_lines(), vec!["  ✓ fine", "  ! hmm", "  ! page", "  ✗ broken", "progress"]);
    assert!(r.lines.is_empty());
    assert_eq!((r.count("ok"), r.count("warn"), r.count("error")), (1, 2, 1));
    assert_eq!(r.issues[2].page, Some(7));
    assert_eq!(r.issues[0].book, "b");
    assert_eq!(r.issues[0].lang.as_deref(), Some("es"));
    assert_eq!(verdict(1, 2, 1), "\n✗ NOT READY — 1 ok · 2 warning(s) · 1 error(s)");
    assert_eq!(verdict(3, 1, 0), "\n⚠ READY WITH WARNINGS — 3 ok · 1 warning(s) · 0 error(s)");
    assert_eq!(verdict(3, 0, 0), "\n✓ READY — 3 ok · 0 warning(s) · 0 error(s)");
    // a JSON report logs but prints nothing
    let mut j = Report::new(true);
    j.bad("x");
    j.say("y");
    assert!(j.lines.is_empty());
    assert_eq!(j.issues.len(), 1);
}

#[test]
fn config_and_a11y_outcomes() {
    let mut r = Report::new(false);
    config_checks(&mut r, &Vec::new(), 2);
    let issues = vec![
        Issue { level: "error", msg: "[es] missing title".into() },
        Issue { level: "warn", msg: "w".into() },
    ];
    config_checks(&mut r, &issues, 2);
    let findings = vec![
        Finding { level: Level::Fail, msg: "a11y img: no alt".into() },
        Finding { level: Level::Pass, msg: "a11y nav ok (a11y)".into() },
        Finding { level: Level::Warn, msg: "plain".into() },
    ];
    emit(&mut r, &findings, "s es · KdpEpub");
    assert_eq!(
        levels(&r),
        vec![
            ("ok".into(), "config/KDP rules (2 lang)".into(), None),
            ("error".into(), "config: [es] missing title".into(), None),
            ("warn".into(), "config: w".into(), None),
            ("error".into(), "a11y s es · KdpEpub img: no alt".into(), None),
            ("ok".into(), "a11y s es · KdpEpub nav ok (a11y)".into(), None),
            ("warn".into(), "plain".into(), None),
        ]
    );
}

#[test]
fn epubcheck_and_ace_outcomes() {
    let mut r = Report::new(false);
    let out = "Validating\n  ERROR(RSC-005): bad\nWARNING(ACC-1): w1\r\nFATAL x\nINFO y\n WARNING: w2\n";
    assert_eq!(epubcheck_lines(&mut r, out), 2);
    assert_eq!(
        r.take_lines(),
        vec!["      ERROR(RSC-005): bad", "      WARNING(ACC-1): w1", "      FATAL x", "      WARNING: w2"]
    );
    epubcheck_report(&mut r, "s es · RetailEpub", &Ok((0, true)));
    epubcheck_report(&mut r, "s es · RetailEpub", &Ok((3, true)));
    epubcheck_report(&mut r, "s es · RetailEpub", &Ok((0, false)));
    epubcheck_report(&mut r, "s es · RetailEpub", &Err("no epubcheck".into()));
    build_failed(&mut r, "EPUB", "s es · RetailEpub", "boom");
    ace_report(&mut r, "L", &Some(Vec::new()), "");
    ace_report(&mut r, "L", &Some(vec!["rule [serious] d".into(), "r2 [] ".into()]), "");
    ace_report(&mut r, "L", &None, "  crashed \n");
    ace_report(&mut r, "L", &None, "   ");
    let msgs: Vec<String> = r.issues.iter().map(|i| format!("{}|{}", i.level, i.message)).collect();
    assert_eq!(
        msgs,
        vec![
            "ok|EPUB s es · RetailEpub: epubcheck clean",
            "warn|EPUB s es · RetailEpub: epubcheck OK, 3 warning(s)",
            "error|EPUB s es · RetailEpub: epubcheck reported errors (see above)",
            "warn|EPUB s es · RetailEpub: epubcheck not run: no epubcheck",
            "error|EPUB s es · RetailEpub: build failed: boom",
            "ok|a11y L: DAISY Ace clean",
            "warn|a11y L: ace: rule [serious] d",
            "warn|a11y L: ace: r2 [] ",
            "warn|a11y L: ace produced no report: crashed",
            "warn|a11y L: ace produced no report",
        ]
    );
}

#[test]
fn cover_spine_and_dpi_outcomes() {
    let mut r = Report::new(true);
    front_cover_report(&mut r, "s", "es", &None, false);
    front_cover_report(&mut r, "s", "es", &None, true);
    front_cover_report(&mut r, "s", "es", &Some(Ok((1600, 2560))), false);
    front_cover_report(&mut r, "s", "es", &Some(Ok((1000, 2560))), true);
    front_cover_report(&mut r, "s", "es", &Some(Err("bad png".into())), true);
    spine_report(&mut r, "L", "kdp-paperback", Some(120));
    spine_report(&mut r, "L", "kdp-hardcover", Some(60));
    spine_report(&mut r, "L", "bubok", Some(60));
    spine_report(&mut r, "L", "kdp-paperback", None);
    dpi_report(&mut r, "L", false, &None);
    dpi_report(&mut r, "L", true, &None);
    dpi_report(&mut r, "L", true, &Some(Vec::new()));
    dpi_report(&mut r, "L", true, &Some(vec![placed(1, 3000, 3000, 400.0)]));
    dpi_report(&mut r, "L", true, &Some(vec![placed(1, 3000, 3000, 400.0), placed(4, 900, 600, 150.0)]));
    let got: Vec<(String, String, Option<u32>)> = levels(&r);
    let want: Vec<(&str, &str, Option<u32>)> = vec![
        ("warn", "cover s es: no cover assets (skipped)", None),
        ("warn", "cover s es: no front-es.png", None),
        ("ok", "cover s es: front 1600×2560 (≥1600×2560)", None),
        ("warn", "cover s es: front 1000×2560 below 1600×2560 (low-res)", None),
        ("warn", "cover s es: can't read front PNG: bad png", None),
        ("ok", "spine L: interior 120pp — spine text allowed (≥100pp)", None),
        ("ok", "spine L: interior 60pp — spine text NOT allowed (<100pp); ship a blank spine", None),
        ("warn", "image DPI L: PDF not built (skipped)", None),
        ("warn", "image DPI L: could not read PDF images", None),
        ("ok", "image DPI L: no raster images to audit", None),
        ("ok", "image DPI L: 1 image(s) ≥300dpi (min 400)", None),
        ("warn", "image DPI L: p4 900×600px @ 150dpi (below 300dpi; min 150)", Some(4)),
    ];
    let want: Vec<(String, String, Option<u32>)> =
        want.into_iter().map(|(a, b, c)| (a.to_string(), b.to_string(), c)).collect();
    assert_eq!(got, want);
    assert!(r.lines.is_empty());
}
