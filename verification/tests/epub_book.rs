use bookmill::epub::{chapter_body, epub_image_reads, run, BookMeta};
use std::io::{Cursor, Read};

fn entries(bytes: &[u8]) -> Vec<(String, String)> {
    let mut z = zip::ZipArchive::new(Cursor::new(bytes)).unwrap();
    let mut v = Vec::new();
    for i in 0..z.len() {
        let mut f = z.by_index(i).unwrap();
        let name = f.name().unwrap().to_string();
        let mut d = Vec::new();
        f.read_to_end(&mut d).unwrap();
        v.push((name, String::from_utf8_lossy(&d).into_owned()));
    }
    v
}

#[test]
fn comrak_emits_well_formed_void_elements() {
    let html = chapter_body("![a](x.png)\n\n---\n\n| A | B |\n|---|---|\n| 1 | 2 |\n", false);
    assert!(html.contains("<img src=\"x.png\" alt=\"a\" />"));
    assert!(html.contains("<hr />"));
    assert!(html.contains("<table>"));
}

#[test]
fn image_reads_are_local_and_once_each() {
    let chapters = vec![
        ("c1.md".to_string(), "![a](img/a.png)\n\n![w](https://x.org/w.png)\n\n![a2](img/a.png)\n".to_string()),
        ("c2.md".to_string(), "![b](img/b.jpg)\n\n![a](img/a.png)\n\n![s](img/s.png){.spot}\n".to_string()),
    ];
    assert_eq!(epub_image_reads(&chapters), vec!["img/a.png".to_string(), "img/b.jpg".to_string()]);
}

#[test]
fn book_holds_title_copyright_chapters_and_images() {
    let meta = BookMeta { title: "La riqueza".into(), subtitle: None, author: "Ana".into(), rights: "© Ana".into() };
    let chapters = vec![
        ("libros/x/01-inicio.md".to_string(), "# Inicio\n\nTexto con ![a](img/a.png).\n".to_string()),
        ("libros/x/02-fin.md".to_string(), "Sin título ![b](img/b.png) ![a](img/a.png)\n".to_string()),
    ];
    let images = vec![("img/a.png".to_string(), Some(b"PNGDATA".to_vec())), ("img/b.png".to_string(), None)];
    let out = run(
        &meta,
        "es",
        &Some(b"p { margin: 0 }".to_vec()),
        &Some(("covers/front-es.png".to_string(), b"COVER".to_vec())),
        &Some("Copyright © Ana\n".to_string()),
        &chapters,
        &images,
        true,
        false,
    )
    .expect("built");
    let es = entries(&out);
    let names: Vec<&str> = es.iter().map(|e| e.0.as_str()).collect();
    for n in [
        "OEBPS/title.xhtml",
        "OEBPS/copyright.xhtml",
        "OEBPS/chapter-001.xhtml",
        "OEBPS/chapter-002.xhtml",
        "OEBPS/img/a.png",
        "OEBPS/cover.png",
        "OEBPS/stylesheet.css",
        "OEBPS/toc.xhtml",
        "OEBPS/content.opf",
    ] {
        assert!(names.contains(&n), "{n} missing from {names:?}");
    }
    assert!(!names.contains(&"OEBPS/img/b.png"));
    let opf = &es.iter().find(|e| e.0 == "OEBPS/content.opf").unwrap().1;
    assert!(opf.contains("La riqueza"));
    assert!(opf.contains(">es</dc:language>"), "{opf}");
    assert!(opf.contains("version=\"3.0\""), "{opf}");
    let nav = &es.iter().find(|e| e.0 == "OEBPS/nav.xhtml").unwrap().1;
    assert!(nav.contains("Inicio"));
    assert!(nav.contains("02-fin"));
    let ch1 = &es.iter().find(|e| e.0 == "OEBPS/chapter-001.xhtml").unwrap().1;
    assert!(ch1.contains("<title>Inicio</title>"));
    assert_eq!((es[0].0.as_str(), es[0].1.as_str()), ("mimetype", "application/epub+zip"));
    for n in ["META-INF/container.xml", "OEBPS/toc.ncx", "OEBPS/nav.xhtml"] {
        assert!(names.contains(&n), "{n} missing from {names:?}");
    }
    let file = |n: &str| es.iter().find(|e| e.0 == n).unwrap().1.clone();
    assert_eq!(file("OEBPS/img/a.png"), "PNGDATA");
    assert_eq!(file("OEBPS/cover.png"), "COVER");
    assert_eq!(file("OEBPS/stylesheet.css"), "p { margin: 0 }");
}

#[test]
fn book_without_stylesheet_gets_an_empty_one() {
    let meta = BookMeta { title: "T".into(), subtitle: None, author: "A".into(), rights: "R".into() };
    let chapters = vec![("c/01.md".to_string(), "# Uno\n".to_string())];
    let out = run(&meta, "en", &None, &None, &None, &chapters, &Vec::new(), false, false).expect("built");
    let es = entries(&out);
    let css = es.iter().find(|e| e.0 == "OEBPS/stylesheet.css").expect("stylesheet");
    assert_eq!(css.1, "");
    assert!(!es.iter().any(|e| e.0 == "OEBPS/toc.xhtml"));
}
