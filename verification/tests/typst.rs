use bookmill::markup::{all_images_described, emit_blocks, emit_heading, emit_table, join_diags};
use bookmill::paths::{is_bw_variant_path, is_raster_image, typst_img_path};
use bookmill::typst::{
    is_rule, is_table_separator, list_marker, parse_blocks, parse_heading, parse_image,
    split_table_row, ty_str, Block,
};

/// Inline markdown → Typst markup.
fn conv(s: &str) -> String {
    bookmill::typst::inline(s)
}

fn img(alt: &str, spot: bool) -> Block {
    Block::Image {
        src: "x.png".into(),
        alt: alt.into(),
        spot,
        width: None,
        height: None,
        fit: None,
        align: None,
        border: None,
        bw: None,
    }
}

#[test]
fn pdf_ua_claim_requires_every_content_image_to_be_described() {
    assert!(all_images_described(&[img("Un león", false), img("Una rata", false)]));
    assert!(!all_images_described(&[img("Un león", false), img("", false)]));
    assert!(!all_images_described(&[img("   ", false)]));
}

#[test]
fn decorative_spot_needs_no_alt_because_it_ships_as_an_artifact() {
    assert!(all_images_described(&[img("", true)]));
    assert!(all_images_described(&[img("Viñeta", true), img("Un león", false)]));
}

#[test]
fn text_only_book_is_trivially_described() {
    assert!(all_images_described(&[Block::Para("solo texto".into())]));
    assert!(all_images_described(&[]));
}

#[test]
fn is_bw_variant_path_detects_bw_dir() {
    assert!(is_bw_variant_path("/repo/libros/x/images/bw/ch01.jpg"));
    assert!(!is_bw_variant_path("/repo/libros/x/images/ch01.jpg"));
    assert!(!is_bw_variant_path("/repo/bw/images/ch01.jpg"));
}

#[test]
fn is_raster_image_matches_png_and_jpeg_only() {
    assert!(is_raster_image("/a/b.png"));
    assert!(is_raster_image("/a/b.JPG"));
    assert!(is_raster_image("/a/b.jpeg"));
    assert!(!is_raster_image("/a/b.svg"));
    assert!(!is_raster_image("/a/b"));
}

#[test]
fn inline_emphasis_and_escape() {
    assert_eq!(conv("plain text"), "plain text");
    assert_eq!(conv("**bold**"), "#strong[bold]");
    assert_eq!(conv("*italic*"), "#emph[italic]");
    assert_eq!(conv("**/ 5.0**"), "#strong[\\/ 5.0]");
    assert_eq!(conv("a/b"), "a\\/b");
    assert_eq!(conv("a #b [c]"), "a \\#b \\[c\\]");
}

#[test]
fn inline_link() {
    assert_eq!(conv("[t](http://x)"), "#link(\"http://x\")[t]");
}

#[test]
fn heading_unnumbered() {
    match parse_heading("# Epílogo {.unnumbered}").unwrap() {
        Block::Heading { level, text, unnumbered } => {
            assert_eq!(level, 1);
            assert_eq!(text, "Epílogo");
            assert!(unnumbered);
        }
        _ => panic!("not a heading"),
    }
}

#[test]
fn image_spot_and_width() {
    match parse_image("![a](x.png){.spot}").unwrap() {
        Block::Image { src, spot, .. } => {
            assert_eq!(src, "x.png");
            assert!(spot);
        }
        _ => panic!("not an image"),
    }
    match parse_image("![a](y.png){width=80%}").unwrap() {
        Block::Image { width, spot, .. } => {
            assert_eq!(width.as_deref(), Some("80%"));
            assert!(!spot);
        }
        _ => panic!("not an image"),
    }
    match parse_image("![a](z.png){width=80}").unwrap() {
        Block::Image { width, .. } => assert_eq!(width.as_deref(), Some("80%")),
        _ => panic!("not an image"),
    }
}

#[test]
fn image_full_attr_set() {
    match parse_image("![a](p.png){width=3in height=2in fit=contain align=left}").unwrap() {
        Block::Image { width, height, fit, align, border, spot, .. } => {
            assert_eq!(width.as_deref(), Some("3in"));
            assert_eq!(height.as_deref(), Some("2in"));
            assert_eq!(fit.as_deref(), Some("contain"));
            assert_eq!(align.as_deref(), Some("left"));
            assert_eq!(border, None);
            assert!(!spot);
        }
        _ => panic!("not an image"),
    }
    match parse_image("![a](p.png){.plain fit=bogus}").unwrap() {
        Block::Image { border, fit, .. } => {
            assert_eq!(border, Some(false));
            assert_eq!(fit, None);
        }
        _ => panic!("not an image"),
    }
    match parse_image("![a](p.png){border=false}").unwrap() {
        Block::Image { border, .. } => assert_eq!(border, Some(false)),
        _ => panic!("not an image"),
    }
}

#[test]
fn rule_detect() {
    assert!(is_rule("---"));
    assert!(is_rule("* * *"));
    assert!(!is_rule("-- a"));
}

#[test]
fn inline_footnote() {
    assert_eq!(conv("a^[note]b"), "a#footnote[note]b");
    assert_eq!(conv("2^3"), "2\\^3");
}

#[test]
fn table_parse_and_emit() {
    let md = "| A | B |\n|---|---|\n| 1 | two |\n| 3 | |\n";
    let blocks = parse_blocks(md);
    assert_eq!(blocks.len(), 1);
    match &blocks[0] {
        Block::Table { header, rows } => {
            assert_eq!(header, &vec!["A".to_string(), "B".to_string()]);
            assert_eq!(rows.len(), 2);
            assert_eq!(rows[0], vec!["1".to_string(), "two".to_string()]);
        }
        _ => panic!("not a table"),
    }
    let mut s = String::new();
    emit_blocks(&mut s, &blocks, "/repo", true, false, false);
    assert!(s.contains("#table("));
    assert!(s.contains("columns: 2"));
    assert!(s.contains("table.header([#strong[A]], [#strong[B]])"));
    assert!(s.contains("[1], [two]"));
    assert!(!s.contains("table.header([])"));
}

#[test]
fn table_separator_detection() {
    assert!(is_table_separator("|---|---|"));
    assert!(is_table_separator("| :--- | ---: | :--: |"));
    assert!(!is_table_separator("| a | b |"));
    assert!(!is_table_separator("---"));
}

#[test]
fn img_path_rooting() {
    let root = "/repo";
    assert_eq!(typst_img_path(root, "libros/a/ch01.png"), "/libros/a/ch01.png");
    assert_eq!(typst_img_path(root, "/repo/libros/a/ch01.png"), "/libros/a/ch01.png");
}

#[test]
fn bw_attr_parsed_and_swapped_only_for_print() {
    let md = "# T\n\n![a](libros/x/images/ch.jpg){bw=libros/x/images/bw/ch.jpg}\n";
    let blocks = parse_blocks(md);
    assert!(matches!(
        blocks.iter().find(|b| matches!(b, Block::Image { .. })),
        Some(Block::Image { bw: Some(p), .. }) if p == "libros/x/images/bw/ch.jpg"
    ));
    let mut color = String::new();
    emit_blocks(&mut color, &blocks, "/repo", true, false, false);
    assert!(color.contains("/libros/x/images/ch.jpg"));
    assert!(!color.contains("/libros/x/images/bw/ch.jpg"));
    let mut print = String::new();
    emit_blocks(&mut print, &blocks, "/repo", true, true, false);
    assert!(print.contains("/libros/x/images/bw/ch.jpg"));
}

#[test]
fn plate_renders_before_its_heading_and_proof_drops_it() {
    let blocks = parse_blocks("# Uno\n\n![Un león](img/ch01.png)\n\nTexto.\n");
    let mut s = String::new();
    emit_blocks(&mut s, &blocks, "/repo", true, false, false);
    assert_eq!(
        s,
        "#plate(\"/img/ch01.png\", c: \"Un león\", a: \"Un león\")\n= Uno\nTexto.\n\n"
    );
    let mut p = String::new();
    emit_blocks(&mut p, &blocks, "/repo", true, false, true);
    assert_eq!(
        p,
        "= Uno\n#align(center, text(fill: luma(45%), style: \"italic\")[[Un león]])\n\nTexto.\n\n"
    );
}

#[test]
fn lists_code_and_rules_render() {
    let md = "- uno\n- *dos*\n\n1. a\n2. b\n\n---\n\n```rust\nfn x() {}\n```\n";
    let blocks = parse_blocks(md);
    let mut s = String::new();
    emit_blocks(&mut s, &blocks, "/repo", false, true, false);
    assert!(s.starts_with("- uno\n- #emph[dos]\n\n+ a\n+ b\n\n#scenebreak\n"));
    assert!(s.contains("#set raw(theme: none)"));
    assert!(s.contains("````rust\nfn x() {}\n````\n"));
}

#[test]
fn raw_fences_are_dropped_and_comments_stripped() {
    let blocks = parse_blocks("<!-- nota -->Hola\n\n```{=latex}\n\\newpage\n```\n");
    assert_eq!(blocks.len(), 1);
    assert!(matches!(&blocks[0], Block::Para(t) if t == "Hola"));
}

#[test]
fn headings_and_tables_emit_exactly() {
    let mut s = String::new();
    emit_heading(&mut s, 2, "Sub *x*", false);
    emit_heading(&mut s, 1, "Fin", true);
    assert_eq!(s, "== Sub #emph[x]\n#heading(level: 1, numbering: none)[Fin]\n");
    let mut t = String::new();
    emit_table(&mut t, &vec!["A".to_string()], &vec![vec!["1".to_string(), "2".to_string()], vec![]]);
    assert_eq!(
        t,
        "#table(\n  columns: 1,\n  table.header([#strong[A]]),\n  [1],\n  [],\n)\n\n"
    );
}

#[test]
fn small_helpers() {
    assert_eq!(ty_str("a\"b\\c"), "\"a\\\"b\\\\c\"");
    assert_eq!(split_table_row("| a | b |"), vec!["a".to_string(), "b".to_string()]);
    assert_eq!(list_marker("3. tres"), Some((true, "tres".to_string())));
    assert_eq!(list_marker("* uno"), Some((false, "uno".to_string())));
    assert_eq!(join_diags(&vec![]), "(no diagnostics)");
    assert_eq!(join_diags(&vec!["a".to_string(), "b".to_string()]), "a\nb");
}
