use bookmill::barcode::modules;

#[test]
fn encodes_the_book_isbn() {
    let (digits, m) = modules("979-8-234-07044-9").unwrap();
    assert_eq!(digits.len(), 13);
    assert_eq!(m.len(), 95);
    assert!(m.starts_with("101") && m.ends_with("101"));
    assert_eq!(&m[45..50], "01010");
    assert_eq!(&m[3..10], "0111011");
}

#[test]
fn rejects_bad_input() {
    assert!(modules("12345").is_none());
    assert!(modules("free").is_none());
}
