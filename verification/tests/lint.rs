use bookmill::lint::footnote_findings;

#[test]
fn broken_footnotes_detected() {
    let md = "# T\n\nref here [^6].\n\nanother [^3] here.\n\n[^6] Servicio + Disciplina = Creatividad\n\n[^9]: never referenced\n";
    let f = footnote_findings(md);
    let msgs: Vec<&str> = f.iter().map(|(_, m)| m.as_str()).collect();
    assert!(msgs.iter().any(|m| m.contains("[^6]") && m.contains("missing its colon")), "{msgs:?}");
    assert!(msgs.iter().any(|m| m.contains("[^3]") && m.contains("no definition")), "{msgs:?}");
    assert!(msgs.iter().any(|m| m.contains("[^9]") && m.contains("never referenced")), "{msgs:?}");
}

#[test]
fn healthy_footnotes_clean() {
    let md = "# T\n\nref [^1].\n\n[^1]: a proper definition\n";
    assert!(footnote_findings(md).is_empty());
    let code = "# T\n\n```md\n[^5] not a real footnote\n```\n";
    assert!(footnote_findings(code).is_empty());
}

#[test]
fn findings_are_sorted_by_line_then_message() {
    let md = "[^b]: def b\n[^a]: def a\nsee [^z]\n";
    let f = footnote_findings(md);
    assert_eq!(
        f,
        vec![
            (0, "footnote definition \"[^a]:\" is never referenced".to_string()),
            (0, "footnote definition \"[^b]:\" is never referenced".to_string()),
            (3, "footnote reference \"[^z]\" has no definition — renders as literal brackets".to_string()),
        ]
    );
}

#[test]
fn forbidden_terms_merge_without_case_repeats() {
    let repo = vec!["  orwell ".to_string(), "Big Brother".to_string(), "".to_string()];
    let book = vec!["big brother".to_string(), "Ministry".to_string()];
    let merged = bookmill::lint::merged_forbid(&repo, &book);
    assert_eq!(
        merged,
        vec!["Pingüina", "Animal Farm", "Orwell", "Rebelión en la granja", "Big Brother", "Ministry"]
    );
    let defaults_only = bookmill::lint::merged_forbid(&Vec::new(), &Vec::new());
    assert_eq!(defaults_only.len(), 4);
}

#[test]
fn allow_list_merges_lowercased_once() {
    let repo = vec![" Voseo ".to_string(), "ÁRBOL".to_string(), "  ".to_string()];
    let book = vec!["voseo".to_string(), "tilde".to_string()];
    let merged = bookmill::lint::merged_ignore(&repo, &book);
    assert_eq!(merged, vec!["voseo", "árbol", "tilde"]);
}
