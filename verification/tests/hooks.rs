use bookmill::hooks::spawn_step;
use bookmill::hooks::{applies, exit_step, hook_args, label, substitute, Hook, HookStep};

fn hook(command: &str, args: &[&str], formats: &[&str], required: bool) -> Hook {
    Hook {
        command: command.into(),
        args: args.iter().map(|s| s.to_string()).collect(),
        formats: formats.iter().map(|s| s.to_string()).collect(),
        required,
        name: None,
    }
}

#[test]
fn substitutes_all_placeholders() {
    let out = substitute(
        "clean:{file}:{format}:{lang}:{slug}",
        "/o/book.epub",
        "epub",
        "es",
        "mybook",
    );
    assert_eq!(out, "clean:/o/book.epub:epub:es:mybook");
}

#[test]
fn format_filter_selects_hooks() {
    let h = hook("x", &["{file}"], &["pdf"], true);
    assert!(!applies(&h, "epub"));
    assert!(applies(&h, "pdf"));
    let all = hook("x", &[], &[], false);
    assert!(applies(&all, "epub"));
}

#[test]
fn args_labels_and_exit_steps() {
    let h = hook("cp", &["{file}", "/tmp/{slug}.{format}"], &[], true);
    assert_eq!(hook_args(&h, "/o/b.epub", "epub", "en", "b"), vec!["/o/b.epub", "/tmp/b.epub"]);
    assert_eq!(label(&h), "cp");
    let named = Hook { name: Some("copy".into()), ..h };
    assert_eq!(label(&named), "copy");
    assert_eq!(exit_step("copy", true, true, "0"), HookStep::Done);
    assert_eq!(
        exit_step("copy", true, false, "exit status: 1"),
        HookStep::Fail("hook 'copy' exited with status exit status: 1".into())
    );
    assert_eq!(
        exit_step("copy", false, false, "exit status: 1"),
        HookStep::Warn("hook 'copy' exited with status exit status: 1".into())
    );
}

#[test]
fn a_hook_that_cannot_start_follows_required() {
    assert_eq!(
        spawn_step("check", "epubcheck", true, "not found"),
        HookStep::Fail("failed to spawn hook 'check' (epubcheck): not found".to_string())
    );
    assert_eq!(
        spawn_step("check", "epubcheck", false, "not found"),
        HookStep::Warn("failed to spawn hook 'check' (epubcheck): not found".to_string())
    );
}
