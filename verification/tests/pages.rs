use bookmill::pages::{resolve, sidecar_path, word_count, PageCount, PagesRecord};

fn resolve_with(rec: PagesRecord, current_words: usize) -> PageCount {
    resolve(Some(rec), None, current_words)
}

#[test]
fn sidecar_path_swaps_extension() {
    assert_eq!(sidecar_path("output/x/es/x-es-kdp.pdf"), "output/x/es/x-es-kdp.pages.json");
}

#[test]
fn matching_words_are_exact() {
    let rec = PagesRecord { words: 49596, pages: 140 };
    assert_eq!(resolve_with(rec, 49596), PageCount::Exact(140));
}

#[test]
fn edited_source_rescales_by_density() {
    let rec = PagesRecord { words: 11000, pages: 37 };
    assert_eq!(resolve_with(rec, 49596), PageCount::Estimate(167));
}

#[test]
fn zero_word_record_is_unknown() {
    let rec = PagesRecord { words: 0, pages: 0 };
    assert_eq!(resolve_with(rec, 100), PageCount::Unknown);
}

#[test]
fn without_record_the_pdf_count_is_used() {
    assert_eq!(resolve(None, Some(88), 1000), PageCount::Exact(88));
    assert_eq!(resolve(None, None, 1000), PageCount::Unknown);
    assert_eq!(resolve(Some(PagesRecord { words: 1000, pages: 10 }), None, 1), PageCount::Estimate(1));
    assert_eq!(resolve(Some(PagesRecord { words: 1000, pages: 10 }), None, 1050), PageCount::Estimate(11));
}

#[test]
fn words_are_whitespace_separated() {
    assert_eq!(word_count("  uno dos\ttres\n\ncuatro "), 4);
    assert_eq!(word_count(""), 0);
}
