use bookmill::kdp::{field, numbered, section, template, worksheet_problems};

fn filled_block(title: &str, kws: usize, cats: usize) -> String {
    let mut s = format!("- **title:** {title}\n- **subtitle:** Sub\n- **keywords:**\n");
    for i in 0..kws {
        s.push_str(&format!("  {}. kw{}\n", i + 1, i));
    }
    s.push_str("- **bisac_categories:**\n");
    for i in 0..cats {
        s.push_str(&format!("  {}. CAT{}\n", i + 1, i));
    }
    s.push_str("- **blurb:** |\n  Listo.\n");
    s
}

#[test]
fn fresh_template_is_flagged() {
    let t = template("libro", "libros", "Título", "Title");
    assert!(t.starts_with("# KDP metadata — libro\n"));
    assert!(t.contains("- **cover:** libros/libro/cover/front-es.png (eBook) · cover/wrap-es-KDP.pdf (paperback)\n"));
    let p = worksheet_problems(&t);
    assert_eq!(p[0], "contains unfilled TODO placeholder(s)");
    assert!(p.contains(&"[es] 0 keywords (need exactly 7)".to_string()));
    assert!(p.contains(&"[en] 0 BISAC categories (need 2-3)".to_string()));
}

#[test]
fn complete_worksheet_passes() {
    let text = format!(
        "# KDP\n\n## Spanish (es)\n\n{}\n## English (en)\n\n{}",
        filled_block("Uno", 7, 2),
        filled_block("One", 7, 3)
    );
    assert!(worksheet_problems(&text).is_empty(), "{:?}", worksheet_problems(&text));
}

#[test]
fn limits_are_reported() {
    let long_kw = "k".repeat(60);
    let mut es = filled_block(&"T".repeat(199), 6, 1);
    es.push_str(&format!("- **keywords:**\n  1. {long_kw}\n"));
    let text = format!("## Spanish (es)\n\n{es}");
    let p = worksheet_problems(&text);
    assert_eq!(
        p,
        vec![
            "[es] title+subtitle 202 > 200 chars".to_string(),
            "[es] 6 keywords (need exactly 7)".to_string(),
            "[es] 1 BISAC categories (need 2-3)".to_string(),
            "[en] section missing".to_string(),
        ]
    );
}

#[test]
fn fields_and_numbered_items() {
    let block = "- **title:** Hola \n- **keywords:**\n  1. uno\n  2.dos\n  x. no\n- **bisac_categories:**\n  1. A\n";
    assert_eq!(field(block, "title").as_deref(), Some("Hola"));
    assert_eq!(field(block, "subtitle"), None);
    assert_eq!(numbered(block, "keywords"), vec!["uno", "dos"]);
    assert_eq!(numbered(block, "bisac_categories"), vec!["A"]);
    assert_eq!(section("a\n## Spanish (es)\nX\n## English\nY", "## Spanish").as_deref(), Some(" (es)\nX"));
    assert_eq!(section("nothing", "## Spanish"), None);
}
