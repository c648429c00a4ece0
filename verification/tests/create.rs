use bookmill::create::{
    book_config_toml, chapter_stem, edition_block, humanize, list, q, repo_config_toml,
    split_commas, starter_chapter, validate_slug, LangConv,
};
use bookmill::create::{
    confirm_answer, confirm_text, default_series, gitignore_update, init_question, prompt_answer,
    prompt_text, resolve_slug, title_entries, untitled_langs, Archetype, Archetypes,
};

fn convs() -> Vec<(String, LangConv)> {
    vec![
        (
            "es".to_string(),
            LangConv { chapter_stem: "capitulo".into(), voice: "ef_dora".into(), code: "e".into() },
        ),
        (
            "default".to_string(),
            LangConv { chapter_stem: "chapter".into(), voice: "".into(), code: "a".into() },
        ),
    ]
}

#[test]
fn slugs_are_kebab_case() {
    assert!(validate_slug("no-hay-plata-2").is_ok());
    assert_eq!(validate_slug(""), Err("slug cannot be empty".to_string()));
    assert_eq!(
        validate_slug("No Hay"),
        Err("slug \"No Hay\" must be kebab-case (lowercase letters, digits, hyphens)".to_string())
    );
}

#[test]
fn titles_lists_and_quotes() {
    assert_eq!(humanize("no-hay-plata"), "No Hay Plata");
    assert_eq!(humanize("--a--b-"), "A B");
    assert_eq!(
        split_commas(&vec!["es, en".to_string(), " ,fr".to_string()]),
        vec!["es", "en", "fr"]
    );
    assert_eq!(q("a\"b\\"), "\"a\\\"b\\\\\"");
    assert_eq!(list(&vec!["es".to_string(), "en".to_string()]), "\"es\", \"en\"");
}

#[test]
fn conventions_and_starters() {
    assert_eq!(chapter_stem(&convs(), "es"), "capitulo");
    assert_eq!(chapter_stem(&convs(), "fr"), "chapter");
    assert_eq!(chapter_stem(&vec![], "fr"), "chapter");
    assert!(starter_chapter("es").starts_with("# Primer capítulo"));
    assert!(starter_chapter("en").starts_with("# First chapter"));
    assert!(edition_block("kdp-paperback").contains("isbn   = \"free\""));
    assert_eq!(edition_block("bubok-es"), "[editions.bubok-es]\ntarget = \"bubok\"\nmarket = \"US\"\n\n");
    assert_eq!(edition_block("x"), "[editions.x]\ntarget = \"x\"\nmarket = \"US\"\n\n");
}

#[test]
fn book_config_is_complete() {
    let langs = vec!["es".to_string(), "en".to_string()];
    let titles = vec![("es".to_string(), "Uno".to_string()), ("en".to_string(), "One".to_string())];
    let t = book_config_toml("uno", &langs, &titles, Some("Ana"), &vec!["kdp-epub".to_string()], &convs());
    assert_eq!(
        t,
        "slug      = \"uno\"\nlanguages = [\"es\", \"en\"]\neditions  = [\"kdp-epub\"]\n\n[title]\nes = \"Uno\"\nen = \"One\"\n\n[meta]\nauthor = \"Ana\"\n\n[content.es]\nglob = \"es/capitulo-*.md\"\n\n[content.en]\nglob = \"en/chapter-*.md\"\n\n[pdf]\nchapter_opens = \"recto\"   # chapters open on a right-hand page\n"
    );
}

#[test]
fn repo_config_lists_editions_and_voices() {
    let langs = vec!["es".to_string(), "en".to_string()];
    let t = repo_config_toml("Ana", None, &langs, "libros", &vec!["gumroad".to_string()], "6x9", &convs());
    assert!(t.contains("author    = \"Ana\"\n"));
    assert!(!t.contains("series"));
    assert!(t.contains("books_dir = \"libros\"\n\n[defaults]\ntrim   = \"6x9\"\n"));
    assert!(t.contains("[editions.gumroad]\n"));
    assert!(t.ends_with("[audiobook.es]\nvoice = \"ef_dora\"\ncode  = \"e\"\n\n"));
}

fn archetypes() -> Archetypes {
    let novel = Archetype {
        description: "A novel".into(),
        scope: "single".into(),
        languages: vec!["en".into()],
        editions: vec!["kdp-paperback".into()],
        trim: "6x9".into(),
    };
    let fables = Archetype { scope: "series".into(), ..novel.clone() };
    Archetypes {
        default: "novel".into(),
        archetype: vec![("fables".into(), fables), ("novel".into(), novel)],
        lang: vec![("es".into(), LangConv { chapter_stem: "capitulo".into(), voice: "ef_dora".into(), code: "e".into() })],
    }
}

#[test]
fn archetype_pick_and_stems() {
    let a = archetypes();
    let (name, arch) = a.pick(None).unwrap();
    assert_eq!((name.as_str(), arch.scope.as_str(), arch.trim.as_str()), ("novel", "single", "6x9"));
    let (name, arch) = a.pick(Some("fables")).unwrap();
    assert_eq!((name.as_str(), arch.scope.as_str()), ("fables", "series"));
    assert_eq!(a.pick(Some("poems")).unwrap_err(), "unknown archetype \"poems\"; known: [\"fables\", \"novel\"]");
    assert_eq!(a.chapter_stem("es"), "capitulo");
    assert_eq!(a.chapter_stem("en"), "chapter");
}

#[test]
fn titles_slugs_and_answers() {
    let t = title_entries(&vec![" es = Mi libro ".into(), "bogus".into(), "en=My Book=2".into()]);
    assert_eq!(t, vec![("es".to_string(), "Mi libro".to_string()), ("en".to_string(), "My Book=2".to_string())]);
    assert_eq!(untitled_langs(&t, &vec!["es".into(), "fr".into(), "en".into(), "it".into()]), vec!["fr", "it"]);
    assert_eq!(resolve_slug(&Some("my-book".into()), None).unwrap(), "my-book");
    assert_eq!(resolve_slug(&None, Some("typed-one")).unwrap(), "typed-one");
    assert_eq!(resolve_slug(&None, None).unwrap_err(), "--slug is required (or use --interactive)");
    assert!(resolve_slug(&Some("Bad Slug".into()), None).unwrap_err().contains("kebab-case"));
    assert_eq!(default_series("Ana"), "Ana's Series");
    assert_eq!(prompt_text("Author", ""), "? Author: ");
    assert_eq!(prompt_text("Author", "Ana"), "? Author [Ana]: ");
    assert_eq!(prompt_answer("  \n", "Ana"), "Ana");
    assert_eq!(prompt_answer(" Bea \n", "Ana"), "Bea");
    assert_eq!(confirm_text("Go?", true), "? Go? [Y/n]: ");
    assert_eq!(confirm_text("Go?", false), "? Go? [y/N]: ");
    assert!(confirm_answer("\n", true));
    assert!(!confirm_answer("  ", false));
    assert!(confirm_answer(" YES\n", false));
    assert!(confirm_answer("y", false));
    assert!(!confirm_answer("nope", true));
    assert_eq!(
        init_question("/tmp/x", true),
        "No bookmill repo found. Initialize a new bookmill project in /tmp/x (existing git repo detected)?"
    );
    assert_eq!(init_question("/tmp/x", false), "No bookmill repo found. Initialize a new bookmill project in /tmp/x?");
}

#[test]
fn gitignore_gets_missing_entries_once() {
    assert_eq!(gitignore_update("").unwrap(), "/output\n/target\n");
    assert_eq!(gitignore_update("*.log").unwrap(), "*.log\n/output\n/target\n");
    assert_eq!(gitignore_update(" /output \n").unwrap(), " /output \n/target\n");
    assert_eq!(gitignore_update("/target\r\n/output"), None);
    let once = gitignore_update("node_modules\n").unwrap();
    assert_eq!(gitignore_update(&once), None);
}
