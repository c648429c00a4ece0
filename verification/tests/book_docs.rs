use bookmill::book_docs::{readme_author, readme_primary};
use bookmill::book_docs::{
    lang_name, manuscript, page_str, readme_text, sample_note, sample_title, status_line,
    thousands, yaml_str, LangCounts, LangDoc, ReadmeDoc,
};
use bookmill::config::{Listing, Status};
use bookmill::epub::BookMeta;
use bookmill::pages::PageCount;

#[test]
fn numbers_and_names() {
    assert_eq!(thousands(0), "0");
    assert_eq!(thousands(999), "999");
    assert_eq!(thousands(49596), "49,596");
    assert_eq!(thousands(1234567), "1,234,567");
    assert_eq!(lang_name("es"), "Español (es)");
    assert_eq!(lang_name("fr"), "fr");
    assert_eq!(yaml_str("a: \"b\""), "\"a: \\\"b\\\"\"");
    assert_eq!(page_str(PageCount::Exact(140)), "140");
    assert_eq!(page_str(PageCount::Estimate(167)), "~167 (estimate)");
    assert_eq!(page_str(PageCount::Unknown), "— (print interior not built)");
}

#[test]
fn sample_title_and_note() {
    assert_eq!(sample_title("es", "Uno"), "Uno (Muestra)");
    assert_eq!(sample_title("en", "One"), "One (Sample)");
    assert!(sample_note("es", "Uno").contains("Gracias por leer esta muestra de *Uno*."));
}

#[test]
fn manuscript_joins_chapters() {
    let meta = BookMeta { title: "T".into(), subtitle: Some("S".into()), author: "A".into(), rights: "R".into() };
    let m = manuscript(&meta, "es", &vec!["# Uno\n\n".to_string(), "Dos  ".to_string()]);
    assert_eq!(
        m,
        "---\ntitle: \"T\"\nsubtitle: \"S\"\nauthor: \"A\"\nlanguage: es\nrights: \"R\"\n---\n\n# T\n\n*S*\n\n# Uno\n\n\nDos\n"
    );
}

#[test]
fn status_and_readme() {
    let st = Status { kdp_paperback: Some("live".into()), ..Default::default() };
    assert_eq!(status_line(&st), "live (kdp_paperback=live)");
    assert_eq!(status_line(&Status::default()), "draft");
    let doc = ReadmeDoc {
        primary: "Uno".into(),
        slug: "uno".into(),
        author: "Ana".into(),
        series: None,
        year: Some("2026".into()),
        languages: vec!["es".into()],
        editions: vec![],
        status: Status::default(),
        langs: vec![LangDoc {
            lang: "es".into(),
            title: Some("Uno".into()),
            subtitle: None,
            counts: Some(LangCounts { words: 1200, chapters: 3, pages: PageCount::Exact(24), sample: Some(1) }),
            listing: Some(Listing {
                keywords: vec!["a".into(), "b".into()],
                blurb: Some(" Hola \n mundo ".into()),
                bisac: vec![],
                reading_age: None,
            }),
            files: vec!["uno-es.epub".into()],
        }],
        asins: vec![("kindle_es".into(), "B0X".into())],
    };
    assert_eq!(
        readme_text(&doc),
        "# Uno\n\n> Auto-generated by `bookmill` on build. Describes this book and everything under `output/uno/`.\n\n- **Slug:** `uno`\n- **Author:** Ana\n- **Date:** 2026\n- **Languages:** es\n- **Status:** draft\n\n## Español (es)\n\n- **Title:** Uno\n- **Words:** 1,200 (3 chapter files)\n- **Print pages:** 24\n- **Free sample:** first 1 chapter file(s)\n- **Keywords:** a, b\n- **Blurb:**\n\n  > Hola\n  > mundo\n- **Files:**\n  - `uno-es.epub`\n\n## ASINs\n\n- **kindle_es:** B0X\n\n"
    );
}

#[test]
fn readme_author_and_heading_defaults() {
    assert_eq!(readme_author(&Some("Ana".into()), &Some("Repo".into())), "Ana");
    assert_eq!(readme_author(&None, &Some("Repo".into())), "Repo");
    assert_eq!(readme_author(&None, &None), "Federico Ramallo");
    let titles = vec![("en".to_string(), "The Fox".to_string()), ("es".to_string(), "El zorro".to_string())];
    assert_eq!(readme_primary(&vec!["es".into(), "en".into()], &titles, "zorro"), "El zorro");
    assert_eq!(readme_primary(&vec!["fr".into()], &titles, "zorro"), "The Fox");
    assert_eq!(readme_primary(&vec![], &vec![], "zorro"), "zorro");
}
