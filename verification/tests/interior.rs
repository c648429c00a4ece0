use bookmill::interior::{build_doc, PROOF_GEOMETRY};

const GEOM: &str = "width: 6.0000in, height: 9.0000in, margin: (top: 0.7500in, bottom: 0.7500in, inside: 1.1250in, outside: 0.6000in)";

fn doc(chapters: Vec<String>, proof: bool, retail: bool, framed: bool) -> (String, bool) {
    build_doc(
        "El zorro",
        "Ana",
        &Some("Fábula".to_string()),
        GEOM,
        &Some("images/paper-texture.jpg".to_string()),
        150,
        &Some("Todos los derechos.\n\n# Aviso\n\nEdición 1.".to_string()),
        &chapters,
        "/repo",
        &Some("/repo/books/zorro/cover/front-es.png".to_string()),
        true,
        framed,
        true,
        retail,
        false,
        proof,
        "es",
    )
}

#[test]
fn interior_document_has_its_parts_in_order() {
    let (s, described) = doc(vec!["# Uno\n\nTexto.\n".to_string()], false, true, true);
    assert!(described);
    assert!(s.starts_with("#set document(title: \"El zorro\", author: \"Ana\")\n#set page(width: 6.0000in"), "{s}");
    assert!(s.contains("#set page(background: image(\"/images/paper-texture.jpg\", width: 100%, height: 100%))\n"));
    assert!(s.contains("#set text(size: 11pt, lang: \"es\")\n"));
    assert!(s.contains("#let chlabel = \"Capítulo\"\n"));
    assert!(s.contains("#let plate(p, c: none, w: 100%, h: auto"), "plate width is kept at most 100%");
    assert!(s.contains("pagebreak(to: \"odd\", weak: true)"));
    assert!(s.contains("alt: \"Cubierta del libro: El zorro\")]\n"));
    assert!(s.contains("#text(size: 15pt, style: \"italic\")[Fábula]\n"));
    assert!(s.contains("  Todos los derechos.\n\n  Edición 1.\n\n  #v(1fr)\n]\n#outline(title: [Índice], depth: 1, indent: auto)\n"));
    let body = s.find("#set page(numbering: \"1\")\n#counter(page).update(1)\n\n").unwrap();
    let roman = s.find("#set page(numbering: \"i\")\n").unwrap();
    assert!(roman < body);
    assert!(s[body..].contains("Uno"));
    assert!(s.ends_with("\n"));
}

#[test]
fn undescribed_image_withholds_the_accessibility_claim() {
    let ch = vec!["# Uno\n\n![](images/a.png)\n".to_string()];
    assert!(!doc(ch.clone(), false, false, false).1);
    assert!(doc(ch, true, false, false).1, "a proof build shows no images");
    let spot = vec!["# Uno\n\n![](images/a.png){.spot}\n".to_string()];
    assert!(doc(spot, false, false, false).1, "a spot tailpiece is decorative");
}

#[test]
fn proof_and_kdp_builds_change_the_page_setup() {
    let (s, _) = doc(vec![], true, false, false);
    assert!(s.contains(&format!("#set page({PROOF_GEOMETRY})\n")));
    assert!(s.contains("pagebreak(weak: true)"));
    assert!(!s.contains("background: image"), "no paper texture outside retail");
    assert!(!s.contains("Cubierta"), "no cover page outside retail");
    assert!(s.contains("#let plate(p, c: none, w: none, h: none"));
}
