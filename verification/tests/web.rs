use bookmill::web::{check_lang, check_repo_config, host_allowed};
use bookmill::web::{kdp_pdf_path, output_path, output_specs, push_recent, safe_segment, RECENT_CAP};

#[test]
fn segments_are_checked() {
    assert!(safe_segment("book", "mi-libro_2.v1").is_ok());
    assert_eq!(safe_segment("lang", ".."), Err("invalid lang segment: \"..\"".to_string()));
    assert!(safe_segment("book", "a/b").is_err());
    assert!(safe_segment("book", "a..b").is_err());
    assert!(safe_segment("book", "").is_err());
    assert!(safe_segment("book", "ñ").is_err());
}

#[test]
fn recents_move_to_front_and_cap() {
    let list: Vec<String> = (0..20).map(|i| format!("/p{i}")).collect();
    let r = push_recent(&list, "/p5");
    assert_eq!(r.len(), RECENT_CAP);
    assert_eq!(r[0], "/p5");
    assert_eq!(r[1], "/p0");
    assert_eq!(r.iter().filter(|x| x.as_str() == "/p5").count(), 1);
    assert_eq!(push_recent(&vec![], "/a"), vec!["/a"]);
}

#[test]
fn outputs_and_paths() {
    let specs = output_specs("uno", "es");
    assert_eq!(specs.len(), 6);
    assert_eq!(specs[0].file, "uno-es.epub");
    assert_eq!(specs[3].kind, "kdp-pdf");
    assert_eq!(specs[3].file, "uno-es-kdp.pdf");
    assert_eq!(specs[5].build, "audiobook");
    assert_eq!(output_path("/repo", "uno", "es", "uno-es.pdf"), "/repo/output/uno/es/uno-es.pdf");
    assert_eq!(kdp_pdf_path("/repo", "uno", "es"), "/repo/output/uno/es/uno-es-kdp.pdf");
}

#[test]
fn host_guard_admits_loopback_only() {
    assert!(host_allowed(None));
    assert!(host_allowed(Some("localhost:8080")));
    assert!(host_allowed(Some("127.0.0.1")));
    assert!(host_allowed(Some(" [::1]:3000 ")));
    assert!(host_allowed(Some("[::1]")));
    assert!(!host_allowed(Some("evil.example:8080")));
    assert!(!host_allowed(Some("localhost.evil.example")));
    assert!(!host_allowed(Some("")));
    assert!(!host_allowed(Some("::1")));
}

#[test]
fn languages_must_be_declared_and_safe() {
    let declared = vec!["es".to_string(), "en".to_string()];
    assert!(check_lang(&declared, "en").is_ok());
    assert_eq!(check_lang(&declared, "fr").unwrap_err(), "unknown lang \"fr\" (declared: es, en)");
    assert_eq!(check_lang(&declared, "../x").unwrap_err(), "invalid lang segment: \"../x\"");
}

#[test]
fn repo_folder_must_hold_a_repo_config() {
    assert!(check_repo_config("/r", "author = \"A\"\n[defaults]\ntrim = \"6x9\"\n").is_ok());
    assert_eq!(
        check_repo_config("/r/books/x", "slug = \"x\"\n").unwrap_err(),
        "/r/books/x looks like a BOOK config (has `slug`); open the repo root instead"
    );
    assert!(check_repo_config("/r", "= broken").unwrap_err().starts_with("bookmill.toml is not valid TOML: "));
}
