use bookmill::tui::{cmd_string, format_outputs, target_outputs, tui_step, Action, Key, Pane, Picker, Step};

fn start() -> Picker {
    Picker { book: 0, action: 0, format: 0, lang: 0, edition: 0, focus: Pane::Books }
}

fn v(xs: &[&str]) -> Vec<String> {
    xs.iter().map(|s| s.to_string()).collect()
}

fn stay(s: Step) -> Picker {
    match s {
        Step::Stay(p) => p,
        _ => panic!("expected to stay"),
    }
}

#[test]
fn focus_wraps_both_ways() {
    let langs = v(&["es", "en"]);
    let eds = v(&["retail"]);
    let p = stay(tui_step(&start(), Key::Left, 3, "zorro", &langs, &eds));
    assert_eq!(p.focus, Pane::Edition);
    let p = stay(tui_step(&p, Key::Right, 3, "zorro", &langs, &eds));
    assert_eq!(p.focus, Pane::Books);
    let p = stay(tui_step(&p, Key::Char('l'), 3, "zorro", &langs, &eds));
    assert_eq!(p.focus, Pane::Language);
}

#[test]
fn cursors_stop_at_the_ends() {
    let langs = v(&["es", "en"]);
    let eds = v(&[]);
    let mut p = start();
    p = stay(tui_step(&p, Key::Up, 3, "zorro", &langs, &eds));
    assert_eq!(p.book, 0);
    for _ in 0..5 {
        p = stay(tui_step(&p, Key::Char('j'), 3, "zorro", &langs, &eds));
    }
    assert_eq!(p.book, 2);
    p.focus = Pane::Language;
    for _ in 0..5 {
        p = stay(tui_step(&p, Key::Down, 3, "zorro", &langs, &eds));
    }
    assert_eq!(p.lang, 2, "all + two languages");
    p = stay(tui_step(&p, Key::Char('k'), 3, "zorro", &langs, &eds));
    assert_eq!(p.lang, 1);
    assert_eq!(p.book, 2, "other lists keep their cursor");
}

#[test]
fn quit_and_other_keys() {
    let e: Vec<String> = Vec::new();
    assert!(matches!(tui_step(&start(), Key::Char('q'), 1, "z", &e, &e), Step::Quit));
    assert!(matches!(tui_step(&start(), Key::Esc, 1, "z", &e, &e), Step::Quit));
    assert_eq!(stay(tui_step(&start(), Key::Char('x'), 1, "z", &e, &e)), start());
}

#[test]
fn enter_builds_the_selected_action() {
    let langs = v(&["es", "en"]);
    let eds = v(&["retail", "kdp"]);
    let p = Picker { book: 0, action: 0, format: 0, lang: 0, edition: 0, focus: Pane::Books };
    match tui_step(&p, Key::Enter, 1, "zorro", &langs, &eds) {
        Step::Run(Action::Release(r)) => {
            assert_eq!((r.book.as_str(), r.lang.as_str(), r.edition.as_str(), r.format.as_str()), ("zorro", "all", "all", "all"))
        }
        _ => panic!("all runs a release"),
    }
    let p = Picker { book: 0, action: 1, format: 1, lang: 1, edition: 2, focus: Pane::Books };
    let a = match tui_step(&p, Key::Enter, 1, "zorro", &langs, &eds) {
        Step::Run(a) => a,
        _ => panic!("enter runs"),
    };
    assert_eq!(a.command(), "bookmill build zorro --edition kdp --lang es");
    let p = Picker { action: 4, lang: 9, ..p };
    match tui_step(&p, Key::Enter, 1, "zorro", &langs, &eds) {
        Step::Run(Action::Covers { book, lang }) => assert_eq!((book.as_str(), lang.as_str()), ("zorro", "en")),
        _ => panic!("covers"),
    }
    let p = Picker { action: 3, ..p };
    let a = match tui_step(&p, Key::Enter, 1, "zorro", &langs, &eds) {
        Step::Run(a) => a,
        _ => panic!("enter runs"),
    };
    assert_eq!(a.command(), "bookmill validate zorro --deep");
}

#[test]
fn command_strings_and_descriptions() {
    assert_eq!(cmd_string("Build", "z", "all", "all", "epub"), "bookmill build z --format epub");
    assert_eq!(cmd_string("Build", "z", "es", "all", "edition"), "bookmill build z --lang es");
    assert_eq!(cmd_string("all", "z", "en", "all", "all"), "bookmill build z --lang en ; build cover ; validate --deep");
    assert_eq!(cmd_string("Audiobook", "z", "es", "all", "edition"), "bookmill audiobook z --lang es");
    assert_eq!(format_outputs("kdp"), "EPUB + PDF (KDP)");
    assert_eq!(format_outputs("edition"), "");
    assert_eq!(target_outputs("bubok"), "PDF — print interior (POD, per region)");
    assert_eq!(target_outputs("whatever"), "EPUB + PDF — retail");
}
