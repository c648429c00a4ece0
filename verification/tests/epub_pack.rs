use bookmill::a11y::{audit_epub, audit_epub_texts, Level};
use bookmill::epub_shrink::shrink_epub;
use std::io::{Cursor, Read, Write};

fn zip_of(entries: &[(&str, &[u8], bool)]) -> Vec<u8> {
    let mut w = zip::ZipWriter::new(Cursor::new(Vec::new()));
    for (name, data, stored) in entries {
        let o = if *stored {
            zip::write::SimpleFileOptions::default().compression_method(zip::CompressionMethod::Stored)
        } else {
            zip::write::SimpleFileOptions::default()
        };
        if name.ends_with('/') {
            w.add_directory(name.trim_end_matches('/'), o).unwrap();
        } else {
            w.start_file(*name, o).unwrap();
            w.write_all(data).unwrap();
        }
    }
    w.finish().unwrap().into_inner()
}

fn unzip(bytes: &[u8]) -> Vec<(String, Vec<u8>, zip::CompressionMethod)> {
    let mut z = zip::ZipArchive::new(Cursor::new(bytes)).unwrap();
    let mut v = Vec::new();
    for i in 0..z.len() {
        let mut f = z.by_index(i).unwrap();
        let name = f.name().unwrap().to_string();
        let method = f.compression();
        let mut d = Vec::new();
        f.read_to_end(&mut d).unwrap();
        v.push((name, d, method));
    }
    v
}

fn png(w: u32, h: u32, alpha: u8) -> Vec<u8> {
    let img = image::RgbaImage::from_fn(w, h, |x, y| image::Rgba([(x * 7 % 256) as u8, (y * 5 % 256) as u8, 90, alpha]));
    let mut out = Vec::new();
    image::DynamicImage::ImageRgba8(img).write_to(&mut Cursor::new(&mut out), image::ImageFormat::Png).unwrap();
    out
}

const OPF: &str = r#"<?xml version="1.0"?>
<package><metadata><meta name="cover" content="cover-img"/></metadata>
<manifest>
<item id="cover-img" href="media/cover.png" media-type="image/png"/>
<item id="p1" href="media/plate.png" media-type="image/png"/>
<item id="c1" href="chapter-001.xhtml" media-type="application/xhtml+xml"/>
</manifest></package>"#;

const CHAPTER: &str = r#"<html xmlns="http://www.w3.org/1999/xhtml" xml:lang="es"><body><img src="media/plate.png" alt="Lámina"/></body></html>"#;

fn sample_epub() -> Vec<u8> {
    let cover = png(40, 60, 255);
    let plate = png(300, 200, 255);
    zip_of(&[
        ("OEBPS/", b"", false),
        ("mimetype", b"application/epub+zip", false),
        ("OEBPS/content.opf", OPF.as_bytes(), false),
        ("OEBPS/chapter-001.xhtml", CHAPTER.as_bytes(), false),
        ("OEBPS/media/cover.png", &cover, false),
        ("OEBPS/media/plate.png", &plate, false),
    ])
}

#[test]
fn shrunk_epub_renames_opaque_plates_and_keeps_the_cover() {
    let out = shrink_epub(&sample_epub(), 100).expect("shrunk");
    let entries = unzip(&out);
    let names: Vec<&str> = entries.iter().map(|e| e.0.as_str()).collect();
    assert_eq!(
        names,
        vec!["mimetype", "OEBPS/", "OEBPS/content.opf", "OEBPS/chapter-001.xhtml", "OEBPS/media/cover.png", "OEBPS/media/plate.jpg"]
    );
    assert_eq!(entries[0].2, zip::CompressionMethod::Stored);
    assert_eq!(entries[0].1, b"application/epub+zip");
    let opf = String::from_utf8(entries[2].1.clone()).unwrap();
    assert!(opf.contains(r#"href="media/plate.jpg" media-type="image/jpeg""#), "{opf}");
    assert!(opf.contains(r#"href="media/cover.png" media-type="image/png""#), "{opf}");
    let ch = String::from_utf8(entries[3].1.clone()).unwrap();
    assert!(ch.contains(r#"src="media/plate.jpg""#));
    let cover = image::load_from_memory(&entries[4].1).unwrap();
    assert_eq!(image::guess_format(&entries[4].1).unwrap(), image::ImageFormat::Png);
    assert_eq!((cover.width(), cover.height()), (40, 60));
    assert_eq!(entries[4].1, png(40, 60, 255));
    let plate = image::load_from_memory(&entries[5].1).unwrap();
    assert_eq!(image::guess_format(&entries[5].1).unwrap(), image::ImageFormat::Jpeg);
    assert_eq!((plate.width(), plate.height()), (100, 67));
}

#[test]
fn shrunk_epub_leaves_a_wide_cover_untouched() {
    let cover = png(400, 600, 255);
    let epub = zip_of(&[
        ("mimetype", b"application/epub+zip", false),
        ("OEBPS/content.opf", OPF.as_bytes(), false),
        ("OEBPS/media/cover.png", &cover, false),
    ]);
    let out = shrink_epub(&epub, 100).expect("shrunk");
    let entries = unzip(&out);
    assert_eq!(entries[2].0, "OEBPS/media/cover.png");
    assert_eq!(entries[2].1, cover);
}

#[test]
fn shrinking_refuses_what_is_not_a_zip() {
    assert!(shrink_epub(b"definitely not a zip archive", 100).is_err());
}

#[test]
fn epub_audit_reads_the_package_and_the_documents() {
    let bytes = sample_epub();
    let f = audit_epub(&bytes).expect("audited");
    let docs = vec![("OEBPS/chapter-001.xhtml".to_string(), CHAPTER.to_string())];
    let expected = audit_epub_texts(OPF, &docs);
    assert_eq!(f.len(), expected.len());
    for (a, b) in f.iter().zip(expected.iter()) {
        assert_eq!(a.level, b.level);
        assert_eq!(a.msg, b.msg);
    }
}

#[test]
fn epub_without_a_package_document_fails_once() {
    let bytes = zip_of(&[("mimetype", b"application/epub+zip", true), ("a.xhtml", CHAPTER.as_bytes(), false)]);
    let f = audit_epub(&bytes).expect("audited");
    assert_eq!(f.len(), 1);
    assert_eq!(f[0].level, Level::Fail);
    assert_eq!(f[0].msg, "a11y: no OPF package document found in the EPUB");
}

#[test]
fn epub_audit_refuses_what_is_not_a_zip() {
    assert!(audit_epub(b"PK? no").is_err());
}
