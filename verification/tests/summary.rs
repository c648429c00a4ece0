use bookmill::config::Issue;
use bookmill::pages::PageCount;
use bookmill::summary::{
    content_error_line, count_errors, interior_pages, list_header, list_line, no_content_line,
    validate_issue_line, validate_ok_line, words_line,
};

#[test]
fn word_count_lines_are_columned() {
    assert_eq!(
        words_line("la-riqueza", "es", 12345, PageCount::Exact(60)),
        format!("  {:<45} {:<3}  {:>6} words   {}", "la-riqueza", "es", 12345, "  60 pages")
    );
    assert_eq!(
        words_line("b", "en", 7, PageCount::Estimate(3)),
        format!("  {:<45} {:<3}  {:>6} words   {}", "b", "en", 7, "   3 pages ~")
    );
    assert_eq!(
        words_line("b", "en", 7, PageCount::Unknown),
        format!("  {:<45} {:<3}  {:>6} words   {}", "b", "en", 7, "   — pages (build the PDF)")
    );
    assert_eq!(no_content_line("b", "fr"), format!("  {:<45} {:<3}  (no [content.fr])", "b", "fr"));
    assert_eq!(content_error_line("b", "fr", "boom"), format!("  {:<45} {:<3}  (content error: boom)", "b", "fr"));
    assert_eq!(interior_pages(PageCount::Unknown, PageCount::Exact(9)), PageCount::Exact(9));
    assert_eq!(interior_pages(PageCount::Estimate(5), PageCount::Exact(9)), PageCount::Estimate(5));
}

#[test]
fn listing_and_validation_lines() {
    assert_eq!(list_header(2, "/r/books"), "2 book(s) in /r/books");
    let langs = vec!["es".to_string(), "en".to_string()];
    assert_eq!(
        list_line("s", "Título", &langs, &vec![]),
        format!("  {:30} {:36} [{}] editions: {}", "s", "Título", "es,en", "—")
    );
    assert_eq!(
        list_line("s", "T", &langs, &vec!["kdp".to_string(), "gumroad".to_string()]),
        format!("  {:30} {:36} [{}] editions: {}", "s", "T", "es,en", "kdp,gumroad")
    );
    assert_eq!(validate_ok_line("s"), "✓ s — ok");
    let e = Issue { level: "error", msg: "[es] missing title".into() };
    let w = Issue { level: "warn", msg: "hm".into() };
    assert_eq!(validate_issue_line("s", &e), "✗ s: [es] missing title");
    assert_eq!(validate_issue_line("s", &w), "! s: hm");
    assert_eq!(count_errors(&vec![e, w]), 1);
}
