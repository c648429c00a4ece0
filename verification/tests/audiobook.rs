use bookmill::audiobook::render_refusal;
use bookmill::audiobook::{
    audio_out_path, check_engine, kab_args, resolve_audio, staged_name, Audiobook, AudiobookLang,
};
use bookmill::audiobook::{audio_tmp_dir, change_report, chapter_entry, needs_render, stem, to_lower_hex, ChapterEntry, Manifest};

fn ch(file: &str, sha: &str) -> ChapterEntry {
    ChapterEntry { file: file.into(), sha: sha.into() }
}

fn manifest(chapters: Vec<ChapterEntry>) -> Manifest {
    Manifest {
        engine: "kab".into(),
        voice: "ef_dora".into(),
        code: "e".into(),
        speed: "1.0000".into(),
        speak_titles: true,
        chapters,
    }
}

#[test]
fn unchanged_manifests_are_equal_so_render_is_skipped() {
    let a = manifest(vec![ch("c01.md", "aaa"), ch("c02.md", "bbb")]);
    let b = manifest(vec![ch("c01.md", "aaa"), ch("c02.md", "bbb")]);
    assert_eq!(a, b, "identical content+settings must compare equal (skip)");
    assert!(a.same_render(&b));
}

#[test]
fn an_edited_chapter_breaks_equality() {
    let a = manifest(vec![ch("c01.md", "aaa"), ch("c02.md", "bbb")]);
    let b = manifest(vec![ch("c01.md", "aaa"), ch("c02.md", "ZZZ")]);
    assert_ne!(a, b, "a changed chapter hash must force a re-render");
    assert!(!a.same_render(&b));
}

#[test]
fn settings_change_forces_rerender() {
    let base = manifest(vec![ch("c01.md", "aaa")]);
    let mut diff_voice = manifest(vec![ch("c01.md", "aaa")]);
    diff_voice.voice = "af_heart".into();
    assert!(base.settings_differ(&diff_voice));
    assert_ne!(base, diff_voice);

    let mut diff_speed = manifest(vec![ch("c01.md", "aaa")]);
    diff_speed.speed = "1.1000".into();
    assert!(base.settings_differ(&diff_speed));

    let same = manifest(vec![ch("c01.md", "aaa")]);
    assert!(!base.settings_differ(&same));
}

#[test]
fn stem_strips_md() {
    assert_eq!(stem("capitulo-03.md"), "capitulo-03");
    assert_eq!(stem("epilogo"), "epilogo");
}

#[test]
fn scratch_dir_lives_outside_output() {
    assert_eq!(audio_tmp_dir("/repo", "libro", "es"), "/repo/.bookmill-tmp/audio/libro/es");
    assert_eq!(audio_tmp_dir("/repo/", "libro", "en"), "/repo/.bookmill-tmp/audio/libro/en");
}

#[test]
fn change_report_names_edited_added_and_removed() {
    let old = manifest(vec![ch("c01.md", "aaa"), ch("c02.md", "bbb"), ch("c03.md", "ccc")]);
    let new = manifest(vec![ch("c01.md", "aaa"), ch("c02.md", "XXX"), ch("c04.md", "ddd")]);
    assert_eq!(
        change_report(Some(&old), &new),
        "  changed: edited [c02]; added [c04]; removed [c03] → re-listen to the edited chapters"
    );
    assert_eq!(change_report(None, &new), "  first render — 3 chapters");
    assert_eq!(change_report(Some(&new), &new), "  re-rendering (audio missing) — 3 chapters");
    let mut other = manifest(vec![]);
    other.engine = "x".into();
    assert_eq!(change_report(Some(&other), &new), "  voice/speed/engine changed → full re-render");
}

#[test]
fn chapter_entries_hash_their_bytes() {
    let e = chapter_entry("/book/es/cap-01.md", b"abc");
    assert_eq!(e.file, "cap-01.md");
    assert_eq!(e.sha, "ba7816bf8f01cfea414140de5dae2223b00361a396177a9cb410ff61f20015ad");
    assert_eq!(to_lower_hex(&[0x00, 0xff, 0x1a]), "00ff1a");
}

#[test]
fn manifest_build_keeps_settings() {
    let m = Manifest::build("kab", "ef_dora", "e", "1.0000", true, vec![ch("c01.md", "aaa")]);
    assert_eq!(m, manifest(vec![ch("c01.md", "aaa")]));
}

#[test]
fn audio_settings_layering() {
    // nothing set: language defaults, spoken titles, house author, kab
    let r = resolve_audio(None, None, &None, &None, "es");
    assert_eq!((r.voice.as_str(), r.code.as_str(), r.speak_titles), ("ef_dora", "e", true));
    assert_eq!((r.artist.as_str(), r.engine.as_str()), ("Federico Ramallo", "kab"));
    let repo = Audiobook {
        artist: Some("Repo Voice".into()),
        speak_titles: Some(false),
        lang: vec![("en".into(), AudiobookLang { voice: Some("am_adam".into()), code: None, speak_titles: Some(true) })],
        ..Default::default()
    };
    let book = Audiobook {
        engine: Some("say".into()),
        lang: vec![("en".into(), AudiobookLang { voice: None, code: Some("b".into()), speak_titles: None })],
        ..Default::default()
    };
    let r = resolve_audio(Some(&repo), Some(&book), &Some("Author".into()), &None, "en");
    assert_eq!(r.voice, "am_adam"); // repo language voice (book language sets none)
    assert_eq!(r.code, "b"); // book language code
    assert!(r.speak_titles); // repo language flag beats the repo top-level flag
    assert_eq!(r.artist, "Repo Voice"); // [audiobook].artist beats the book author
    assert_eq!(r.engine, "say");
    let fr = resolve_audio(Some(&repo), None, &Some("Author".into()), &None, "fr");
    assert_eq!((fr.voice.as_str(), fr.code.as_str(), fr.speak_titles), ("af_heart", "f", false));
    let plain = resolve_audio(None, None, &Some("Author".into()), &Some("Repo".into()), "it");
    assert_eq!(plain.artist, "Author");
}

#[test]
fn engine_paths_and_kab_arguments() {
    assert!(check_engine("s", "es", "kab").is_ok());
    assert_eq!(
        check_engine("s", "es", "say").unwrap_err(),
        "s [es]: audiobook engine \"say\" not supported (only \"kab\")"
    );
    assert_eq!(audio_out_path("/r", "s", "es"), "/r/output/s/es/s-es.m4b");
    assert_eq!(staged_name(3, "ch01.md"), "0003-ch01.md");
    assert_eq!(staged_name(12345, "x.md"), "12345-x.md");
    let args = kab_args("/t/stage", "ef_dora", "e", "T", "A", "/o.m4b", "/t/cache", "1", false);
    assert_eq!(
        args,
        vec![
            "convert", "--chapters-dir", "/t/stage", "--glob", "*.md", "--voice", "ef_dora", "--lang", "e",
            "--title", "T", "--artist", "A", "--out", "/o.m4b", "--cache-dir", "/t/cache", "--speed", "1",
            "--drop-title",
        ]
    );
    assert_eq!(kab_args("a", "b", "c", "d", "e", "f", "g", "h", true).len(), 19);
}

#[test]
fn render_is_skipped_only_when_nothing_changed() {
    let a = manifest(vec![ch("c01.md", "aaa")]);
    let same = Some(manifest(vec![ch("c01.md", "aaa")]));
    let edited = Some(manifest(vec![ch("c01.md", "zzz")]));
    assert!(!needs_render(false, true, &same, &a));
    assert!(needs_render(true, true, &same, &a));
    assert!(needs_render(false, false, &same, &a));
    assert!(needs_render(false, true, &None, &a));
    assert!(needs_render(false, true, &edited, &a));
}

#[test]
fn empty_job_is_refused_before_render() {
    assert_eq!(render_refusal("zorro", "es", 0).as_deref(), Some("no chapters to render for zorro [es]"));
    assert_eq!(render_refusal("zorro", "es", 3), None);
}
