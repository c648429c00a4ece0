use bookmill::a11y::{
    attr_value, audit_doc_langs, audit_epub_texts, audit_headings, audit_img_alt, audit_nav,
    audit_opf, audit_pdf, has_html_lang, has_nav, has_nonempty_element, heading_levels, img_tags,
    Finding, Level,
};

fn levels(f: &[Finding]) -> Vec<Level> {
    f.iter().map(|x| x.level).collect()
}

const REQUIRED_A11Y_PROPS: [&str; 5] = [
    "schema:accessMode",
    "schema:accessModeSufficient",
    "schema:accessibilityFeature",
    "schema:accessibilityHazard",
    "schema:accessibilitySummary",
];

#[test]
fn flags_every_image_missing_alt_with_file_and_src() {
    let docs = vec![
        (
            "OEBPS/chapter-001.xhtml".to_string(),
            r#"<p><img src="a.png" alt="Un león" /></p><p><img src="b.png" alt="" /></p>"#
                .to_string(),
        ),
        (
            "OEBPS/chapter-002.xhtml".to_string(),
            r#"<p><img src="c.png" /></p>"#.to_string(),
        ),
    ];
    let f = audit_img_alt(&docs);
    assert_eq!(f.len(), 2, "one error per undescribed image");
    assert!(f.iter().all(|x| x.level == Level::Fail));
    assert!(f[0].msg.contains("chapter-001.xhtml") && f[0].msg.contains("b.png"));
    assert!(f[1].msg.contains("chapter-002.xhtml") && f[1].msg.contains("c.png"));
}

#[test]
fn passes_when_every_image_is_described() {
    let docs = vec![(
        "OEBPS/chapter-001.xhtml".to_string(),
        r#"<img src="a.png" alt="Un león"/><img src="b.png" alt="Una rata"/>"#.to_string(),
    )];
    let f = audit_img_alt(&docs);
    assert_eq!(levels(&f), [Level::Pass]);
    assert!(f[0].msg.contains("2 image(s)"));
}

#[test]
fn opf_missing_a11y_metadata_is_an_error() {
    let opf = r#"<metadata><dc:language>es</dc:language>
            <meta property="schema:accessMode">textual</meta></metadata>"#;
    let f = audit_opf(opf);
    let e = f.iter().find(|x| x.level == Level::Fail).expect("an error");
    assert!(e.msg.contains("schema:accessibilitySummary"));
    assert!(e.msg.contains("schema:accessibilityHazard"));
    assert!(!e.msg.contains("property"), "only the missing names are listed");
}

#[test]
fn opf_with_full_a11y_metadata_and_language_passes() {
    let mut opf = String::from("<metadata><dc:language>es</dc:language>");
    for p in REQUIRED_A11Y_PROPS {
        opf.push_str(&format!("<meta property=\"{p}\">x</meta>"));
    }
    opf.push_str("<item properties=\"cover-image\"/></metadata>");
    let f = audit_opf(&opf);
    assert!(f.iter().all(|x| x.level == Level::Pass), "{f:?}");
}

#[test]
fn empty_dc_language_is_an_error() {
    let opf = "<metadata><dc:language></dc:language></metadata>";
    assert!(audit_opf(opf)
        .iter()
        .any(|x| x.level == Level::Fail && x.msg.contains("dc:language")));
}

#[test]
fn content_document_without_lang_is_an_error() {
    let docs = vec![
        ("a.xhtml".to_string(), r#"<html lang="es" xml:lang="es"><body/></html>"#.to_string()),
        ("nav.xhtml".to_string(), r#"<html xmlns="x"><body/></html>"#.to_string()),
    ];
    let f = audit_doc_langs(&docs);
    assert_eq!(levels(&f), [Level::Fail]);
    assert!(f[0].msg.contains("nav.xhtml") && !f[0].msg.contains("a.xhtml"));
}

#[test]
fn nav_toc_required_landmarks_and_pagelist_only_warn() {
    let nav = r#"<html lang="es"><nav epub:type = "toc"><ol><li><a href="c1.xhtml">Uno</a></li></ol></nav>
            <nav epub:type = "landmarks"><ol><li><a epub:type="bodymatter" href="c1.xhtml">Uno</a></li></ol></nav></html>"#;
    let docs = vec![("OEBPS/nav.xhtml".to_string(), nav.to_string())];
    let f = audit_nav(&docs);
    assert_eq!(levels(&f), [Level::Pass, Level::Pass, Level::Warn]);
    assert!(f[2].msg.contains("page-list"));
}

#[test]
fn nav_without_landmarks_warns_but_does_not_error() {
    let nav = r#"<html lang="es"><nav epub:type="toc"><ol><li><a href="c1.xhtml">Uno</a></li></ol></nav></html>"#;
    let f = audit_nav(&[("OEBPS/nav.xhtml".to_string(), nav.to_string())]);
    assert!(!f.iter().any(|x| x.level == Level::Fail));
    assert_eq!(f.iter().filter(|x| x.level == Level::Warn).count(), 2);
}

#[test]
fn flags_a_skipped_heading_level_but_only_as_a_warning() {
    let docs = vec![(
        "OEBPS/chapter-001.xhtml".to_string(),
        "<h1>Capítulo</h1><h3>Un mapa mejor</h3>".to_string(),
    )];
    let f = audit_headings(&docs);
    assert_eq!(levels(&f), [Level::Warn]);
    assert!(f[0].msg.contains("h1 → h3") && f[0].msg.contains("chapter-001.xhtml"));
}

#[test]
fn well_nested_headings_pass() {
    let docs = vec![(
        "a.xhtml".to_string(),
        "<h1>T</h1><h2>S</h2><h3>Sub</h3><h2>S2</h2>".to_string(),
    )];
    assert_eq!(levels(&audit_headings(&docs)), [Level::Pass]);
}

#[test]
fn heading_scan_ignores_hr_header_and_html_tags() {
    assert_eq!(heading_levels("<html><hr/><header>x</header><h2 class=\"a\">Y</h2>"), [2]);
}

#[test]
fn img_tag_scan_ignores_lookalikes() {
    let html = r#"<image href="x.svg"/> img src=nope <img src="a.png" alt="ok"/>"#;
    let tags = img_tags(html);
    assert_eq!(tags.len(), 1);
    assert_eq!(attr_value(&tags[0], "src").as_deref(), Some("a.png"));
}

#[test]
fn missing_opf_is_a_single_error() {
    let f = audit_epub_texts("", &[]);
    assert_eq!(levels(&f), [Level::Fail]);
    assert!(f[0].msg.contains("no OPF"));
}

#[test]
fn untitled_languageless_pdf_fails() {
    let f = audit_pdf(None, None, false);
    assert!(f.iter().any(|x| x.level == Level::Fail));
    let ok = audit_pdf(Some("Un libro"), Some("es"), true);
    assert!(ok.iter().all(|x| x.level == Level::Pass), "{ok:?}");
}

#[test]
fn html_lang_and_nav_detection() {
    assert!(has_html_lang(r#"<html lang="es">"#));
    assert!(!has_html_lang(r#"<html xmlns="x">"#));
    assert!(has_nav(r#"<nav epub:type="toc">"#, "toc"));
    assert!(!has_nav(r#"<nav epub:type="toc">"#, "landmarks"));
    assert!(has_nonempty_element("<dc:language>es</dc:language>", "dc:language"));
    assert!(!has_nonempty_element("<dc:language> </dc:language>", "dc:language"));
}
