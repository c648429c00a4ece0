use bookmill::epub::{
    attr_block, chapter_fallback_title, chapter_href, clean_chapter, ext_of, figcaption_plates,
    image_srcs, is_remote, is_spot_image, mime_for, resolve_img, should_register,
    strip_attr_block, title_page, xhtml_doc, xml_escape, BookMeta,
};

#[test]
fn strips_heading_attrs_and_captures_title() {
    let md = "# El Tortugo recuerda {.unnumbered}\n\nUn párrafo.\n";
    let (clean, title) = clean_chapter(md);
    assert_eq!(title.as_deref(), Some("El Tortugo recuerda"));
    assert!(clean.contains("# El Tortugo recuerda\n"));
    assert!(!clean.contains("{.unnumbered}"));
}

#[test]
fn drops_spot_images_keeps_width_images() {
    let md = "![big](libros/x/ch01.png){width=80%}\n\n![vig](libros/x/vig.png){.spot}\n";
    let (clean, _) = clean_chapter(md);
    assert!(clean.contains("![big](libros/x/ch01.png)"));
    assert!(!clean.contains("{width=80%}"));
    assert!(!clean.contains("vig.png"));
}

#[test]
fn extracts_only_real_image_srcs() {
    let md = "![big](libros/x/ch01.png)\n\ntext\n\n![two](images/y.jpg)\n";
    let srcs = image_srcs(md);
    assert_eq!(srcs, vec!["libros/x/ch01.png", "images/y.jpg"]);
}

#[test]
fn xhtml_doc_is_xml_prologued_and_escapes_title() {
    let doc = xhtml_doc("es", "Q & A", "<p>hi</p>\n");
    assert!(doc.starts_with("<?xml version=\"1.0\" encoding=\"utf-8\"?>"));
    assert!(doc.contains("<title>Q &amp; A</title>"));
    assert!(doc.contains("href=\"stylesheet.css\""));
    assert!(doc.contains("lang=\"es\""));
}

#[test]
fn plates_get_visible_captions_only_with_alt() {
    let html = "<p>a</p>\n<p><img src=\"x.png\" alt=\"Un león\" /></p>\n<p><img src=\"y.png\" alt=\"\" /></p>\n";
    assert_eq!(
        figcaption_plates(html),
        "<p>a</p>\n<figure class=\"plate\"><img src=\"x.png\" alt=\"Un león\" /><figcaption>Un león</figcaption></figure>\n<p><img src=\"y.png\" alt=\"\" /></p>\n"
    );
}

#[test]
fn attribute_blocks() {
    assert_eq!(attr_block("![a](b.png){.spot width=3} ").as_deref(), Some(".spot width=3"));
    assert_eq!(attr_block("no block"), None);
    assert_eq!(strip_attr_block("  # T {.x}  "), "  # T");
    assert!(is_spot_image("![v](v.png){.spot}"));
    assert!(!is_spot_image("![v](v.png){width=2}"));
}

#[test]
fn escapes_and_media_types() {
    assert_eq!(xml_escape("a<b>&\"'"), "a&lt;b&gt;&amp;&quot;&#39;");
    assert_eq!(ext_of("cover/front-es.PNG"), "png");
    assert_eq!(ext_of("cover/front"), "png");
    assert_eq!(ext_of("a/b.JpEg"), "jpeg");
    assert_eq!(mime_for("jpg"), "image/jpeg");
    assert_eq!(mime_for("svg"), "image/svg+xml");
    assert_eq!(mime_for("tiff"), "image/png");
}

#[test]
fn titles_and_names() {
    assert_eq!(chapter_fallback_title("/b/es/capitulo-01.md", 0), "capitulo-01");
    assert_eq!(chapter_fallback_title("/", 4), "Chapter 5");
    assert_eq!(chapter_href(0), "chapter-001.xhtml");
    assert_eq!(chapter_href(41), "chapter-042.xhtml");
    assert_eq!(chapter_href(1233), "chapter-1234.xhtml");
    let meta = BookMeta {
        title: "Q & A".into(),
        subtitle: None,
        author: "Ana".into(),
        rights: "©".into(),
    };
    let page = title_page(&meta, "es");
    assert!(page.contains("<h1 class=\"title\">Q &amp; A</h1>\n<p class=\"author\">Ana</p>\n"));
}

#[test]
fn image_resolution_and_registration() {
    assert_eq!(resolve_img("/repo", "libros/a.png"), "/repo/libros/a.png");
    assert_eq!(resolve_img("/repo/", "libros/a.png"), "/repo/libros/a.png");
    assert_eq!(resolve_img("/repo", "/abs/a.png"), "/abs/a.png");
    assert!(is_remote("https://x/y.png"));
    assert!(!is_remote("img/y.png"));
    let added = vec!["img/a.png".to_string()];
    assert!(!should_register("img/a.png", &added));
    assert!(!should_register("http://x/b.png", &added));
    assert!(should_register("img/b.png", &added));
}
