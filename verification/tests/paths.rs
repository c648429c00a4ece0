use bookmill::paths::{front_cover_name, wrap_cover_name};

#[test]
fn cover_names_fill_the_language() {
    assert_eq!(front_cover_name("front-{lang}.png", "es"), "front-es.png");
    assert_eq!(wrap_cover_name("wrap-{lang}.pdf", "en"), "wrap-en.pdf");
    assert_eq!(front_cover_name("{lang}/{lang}.png", "de"), "de/de.png");
    assert_eq!(wrap_cover_name("wrap.pdf", "en"), "wrap.pdf");
}
