use bookmill::epub_shrink::{
    cover_href, find_cover_image, fit_width, has_alpha, image_kind, reencode_ext, repack_order, renamed_bases, rewrite_opf, rewrite_refs, trns_len,
};
use bookmill::epub_shrink::{basename, is_text_ref, media_type_for, swap_ext};

#[test]
fn entry_names() {
    assert_eq!(basename("OEBPS/media/file0.png"), "file0.png");
    assert_eq!(basename("mimetype"), "mimetype");
    assert_eq!(swap_ext("media/file0.png", "jpg"), "media/file0.jpg");
    assert_eq!(swap_ext("noext", "jpg"), "noext.jpg");
    assert!(is_text_ref("oebps/ch1.xhtml"));
    assert!(is_text_ref("toc.ncx"));
    assert!(!is_text_ref("a.png"));
    assert_eq!(media_type_for("A.JPG"), "image/jpeg");
    assert_eq!(media_type_for("a.png"), "image/png");
}

#[test]
fn opf_items_follow_renamed_images() {
    let opf = "<package><manifest>\n<item id=\"i1\" href=\"media/file0.png\" media-type=\"image/png\"/>\n<item id=\"c\" href=\"text/ch1.xhtml\" media-type=\"application/xhtml+xml\"/>\n<items>not an item</items>\n<item id=\"i2\" media-type=\"image/png\" href=\"media/file1.PNG\">\n</manifest></package>";
    let renamed = renamed_bases(&vec![
        ("EPUB/media/file0.png".to_string(), "EPUB/media/file0.jpg".to_string()),
        ("EPUB/media/file1.PNG".to_string(), "EPUB/media/file1.jpg".to_string()),
    ]);
    assert_eq!(renamed, vec![
        ("file0.png".to_string(), "file0.jpg".to_string()),
        ("file1.PNG".to_string(), "file1.jpg".to_string()),
    ]);
    let out = rewrite_opf(opf, &renamed);
    assert_eq!(
        out,
        "<package><manifest>\n<item id=\"i1\" href=\"media/file0.jpg\" media-type=\"image/jpeg\"/>\n<item id=\"c\" href=\"text/ch1.xhtml\" media-type=\"application/xhtml+xml\"/>\n<items>not an item</items>\n<item id=\"i2\" media-type=\"image/jpeg\" href=\"media/file1.jpg\">\n</manifest></package>"
    );
    let x = rewrite_refs("<img src=\"../media/file0.png\"/> file1.PNG", &renamed);
    assert_eq!(x, "<img src=\"../media/file0.jpg\"/> file1.jpg");
}

#[test]
fn cover_image_is_found_from_the_package_document() {
    let by_property = "<manifest><item id=\"x\" href=\"a.png\"/><item properties=\"cover-image\" id=\"cv\" href=\"images/cover.png\"/></manifest>";
    assert_eq!(cover_href(by_property).as_deref(), Some("images/cover.png"));
    let by_meta = "<metadata><meta name=\"cover\" content=\"cimg\"/></metadata><manifest><item id=\"other\" href=\"o.png\"/><item id=\"cimg\" href=\"c.jpg\"/></manifest>";
    assert_eq!(cover_href(by_meta).as_deref(), Some("c.jpg"));
    assert_eq!(cover_href("<meta content=\"cimg\" name=\"cover\"/><item id=\"cimg\" href=\"c.jpg\"/>"), None);
    assert_eq!(cover_href("<package/>"), None);
    let entries = vec![
        ("mimetype".to_string(), b"application/epub+zip".to_vec()),
        ("EPUB/content.OPF".to_string(), by_meta.as_bytes().to_vec()),
    ];
    assert_eq!(find_cover_image(&entries).as_deref(), Some("EPUB/c.jpg"));
    let top = vec![("package.opf".to_string(), by_property.as_bytes().to_vec())];
    assert_eq!(find_cover_image(&top).as_deref(), Some("images/cover.png"));
    let bad = vec![("p.opf".to_string(), vec![0xFF, 0xFE])];
    assert_eq!(find_cover_image(&bad), None);
}

#[test]
fn image_sizes_and_palettes() {
    assert_eq!(image_kind("EPUB/media/A.PNG"), (true, false));
    assert_eq!(image_kind("x.jpeg"), (false, true));
    assert_eq!(image_kind("x.gif"), (false, false));
    assert_eq!(fit_width(2400, 3600, 1200), (1200, 1800));
    assert_eq!(fit_width(1000, 3, 400), (400, 1));
    assert_eq!(fit_width(3000, 1, 1200), (1200, 1)); // rounds to 0, kept at least 1
    assert_eq!(fit_width(800, 600, 1200), (800, 600));
    assert_eq!(fit_width(1201, 1000, 1200), (1200, 999));
    assert_eq!(trns_len(&[0, 128, 255, 255]), 2);
    assert_eq!(trns_len(&[255, 255]), 0);
    assert_eq!(trns_len(&[]), 0);
}

#[test]
fn reencoding_choices() {
    assert_eq!(reencode_ext(true, false, false), Some("jpg"));
    assert_eq!(reencode_ext(true, false, true), None);
    assert_eq!(reencode_ext(true, true, false), None);
    assert_eq!(reencode_ext(false, false, false), None);
    assert!(has_alpha(&[1, 2, 3, 255, 9, 9, 9, 254]));
    assert!(!has_alpha(&[1, 2, 3, 255, 9, 9, 9, 255, 0]));
    assert!(!has_alpha(&[]));
    assert_eq!(rewrite_opf("<item href=\"a.png\" media-type=\"image/png\"/>", &Vec::new()), "<item href=\"a.png\" media-type=\"image/png\"/>");
}

#[test]
fn repacking_puts_mimetype_first() {
    let entries = vec![
        ("META-INF/".to_string(), true),
        ("mimetype".to_string(), false),
        ("EPUB//".to_string(), true),
        ("EPUB/a.xhtml".to_string(), false),
    ];
    let (first, rest) = repack_order(&entries);
    assert_eq!(first, Some(1));
    assert_eq!(
        rest,
        vec![
            (0, "META-INF".to_string(), true),
            (2, "EPUB".to_string(), true),
            (3, "EPUB/a.xhtml".to_string(), false),
        ]
    );
    let (none, all) = repack_order(&vec![("x".to_string(), false)]);
    assert_eq!(none, None);
    assert_eq!(all.len(), 1);
}
