use lopdf::{Dictionary, Document, Object};
use bookmill::pdfmeta::{catalog_lang, decode_text, is_tagged, page_count, present_text, set_catalog_lang, title};

#[test]
fn pdf_text_strings_decode() {
    assert_eq!(decode_text(b"Mi libro").unwrap(), "Mi libro");
    // UTF-16BE with a byte-order mark
    assert_eq!(decode_text(&[0xFE, 0xFF, 0x00, 0x4C, 0x00, 0xED]).unwrap(), "Lí");
    // a trailing odd byte is dropped
    assert_eq!(decode_text(&[0xFE, 0xFF, 0x00, 0x41, 0x00]).unwrap(), "A");
    // an unpaired surrogate does not decode
    assert_eq!(decode_text(&[0xFE, 0xFF, 0xD8, 0x00]), None);
    // invalid UTF-8 is replaced
    assert_eq!(decode_text(&[0x61, 0xFF]).unwrap(), "a\u{FFFD}");
}

#[test]
fn blank_metadata_counts_as_absent() {
    assert_eq!(present_text(b"  \t"), None);
    assert_eq!(present_text(b"").as_deref(), None);
    assert_eq!(present_text(b"es").as_deref(), Some("es"));
    assert_eq!(present_text(&[0xFE, 0xFF, 0x00, 0x20]), None);
}

fn one_page_pdf(title: Option<&str>, lang: Option<&str>, tagged: bool) -> Vec<u8> {
    let mut doc = Document::with_version("1.5");
    let pages_id = doc.new_object_id();
    let mut page = Dictionary::new();
    page.set("Type", Object::Name(b"Page".to_vec()));
    page.set("Parent", Object::Reference(pages_id));
    page.set("MediaBox", Object::Array(vec![0.into(), 0.into(), 612.into(), 792.into()]));
    let page_id = doc.add_object(page);
    let mut pages = Dictionary::new();
    pages.set("Type", Object::Name(b"Pages".to_vec()));
    pages.set("Kids", Object::Array(vec![Object::Reference(page_id)]));
    pages.set("Count", Object::Integer(1));
    doc.objects.insert(pages_id, Object::Dictionary(pages));
    let mut cat = Dictionary::new();
    cat.set("Type", Object::Name(b"Catalog".to_vec()));
    cat.set("Pages", Object::Reference(pages_id));
    if let Some(l) = lang {
        cat.set("Lang", Object::string_literal(l));
    }
    if tagged {
        let mut st = Dictionary::new();
        st.set("Type", Object::Name(b"StructTreeRoot".to_vec()));
        let st_id = doc.add_object(st);
        cat.set("StructTreeRoot", Object::Reference(st_id));
    }
    let cat_id = doc.add_object(cat);
    doc.trailer.set("Root", Object::Reference(cat_id));
    if let Some(t) = title {
        let mut info = Dictionary::new();
        info.set("Title", Object::string_literal(t));
        let info_id = doc.add_object(info);
        doc.trailer.set("Info", Object::Reference(info_id));
    }
    let mut out = Vec::new();
    doc.save_to(&mut out).unwrap();
    out
}

#[test]
fn pdf_metadata_is_read_from_bytes() {
    let pdf = one_page_pdf(Some("La riqueza"), Some("es"), true);
    assert_eq!(page_count(&pdf), Some(1));
    assert_eq!(title(&pdf).as_deref(), Some("La riqueza"));
    assert_eq!(catalog_lang(&pdf).as_deref(), Some("es"));
    assert!(is_tagged(&pdf));
}

#[test]
fn untitled_untagged_pdf_has_no_metadata() {
    let pdf = one_page_pdf(None, Some("  "), false);
    assert_eq!(title(&pdf), None);
    assert_eq!(catalog_lang(&pdf), None);
    assert!(!is_tagged(&pdf));
}

#[test]
fn unreadable_pdf_has_nothing() {
    assert_eq!(page_count(b"%PDF-garbage"), None);
    assert_eq!(title(b""), None);
    assert!(!is_tagged(b"nope"));
    assert_eq!(set_catalog_lang(b"nope", "es"), None);
}

#[test]
fn language_set_on_the_catalog_is_read_back() {
    let pdf = one_page_pdf(Some("T"), None, false);
    assert_eq!(catalog_lang(&pdf), None);
    let with = set_catalog_lang(&pdf, "en").expect("saved");
    assert_eq!(catalog_lang(&with).as_deref(), Some("en"));
    assert_eq!(page_count(&with), Some(1));
}

#[test]
fn utf16_surrogate_pairs_decode() {
    assert_eq!(decode_text(&[0xFE, 0xFF, 0x00, 0x48, 0xD8, 0x3D, 0xDE, 0x00, 0x00, 0x69]).unwrap(), "H\u{1F600}i");
    assert_eq!(decode_text(&[0xFE, 0xFF, 0xDC, 0x00, 0x00, 0x41]), None);
    assert_eq!(decode_text(&[0xFE, 0xFF, 0xD8, 0x3D, 0x00, 0x41]), None);
    assert_eq!(decode_text(&[0xFE, 0xFF]).unwrap(), "");
}
