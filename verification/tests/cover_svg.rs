use bookmill::cover_svg::{data_uri, pick_face, FontFace};
use bookmill::cover_svg::{attr_filter, b64, esc, fold, split_top_commas, up, xml_attr};

#[test]
fn escaping() {
    assert_eq!(esc("a & <b>"), "a &amp; &lt;b&gt;");
    assert_eq!(xml_attr("x\"<&>"), "x&quot;&lt;&amp;>");
    assert_eq!(up("ñandú & co"), "ÑANDÚ &amp; CO");
}

#[test]
fn folding_for_phrase_matching() {
    assert_eq!(fold("«Donde"), "donde");
    assert_eq!(fold("derecho.»"), "derecho");
    assert_eq!(fold("ÑANDÚ"), "nandu");
}

#[test]
fn top_level_commas() {
    assert_eq!(
        split_top_commas("1px 2px rgba(0,0,0,0.5), 0 0 3px #fff"),
        vec!["1px 2px rgba(0,0,0,0.5)", " 0 0 3px #fff"]
    );
    assert_eq!(split_top_commas("a, "), vec!["a"]);
    assert!(split_top_commas("").is_empty());
}

#[test]
fn filters_and_base64() {
    assert_eq!(attr_filter(""), "");
    assert_eq!(attr_filter("f1"), " filter=\"url(#f1)\"");
    assert_eq!(b64(b""), "");
    assert_eq!(b64(b"f"), "Zg==");
    assert_eq!(b64(b"fo"), "Zm8=");
    assert_eq!(b64(b"foo"), "Zm9v");
    assert_eq!(b64(b"foobar"), "Zm9vYmFy");
    assert_eq!(b64(&[0xff, 0xfe]), "//4=");
}

fn face(family: &str, weight: u16, italic: bool) -> FontFace {
    FontFace { family: family.into(), weight, italic }
}

#[test]
fn face_picker_prefers_family_then_weight_then_style() {
    let fonts = vec![
        face("Montserrat", 400, false),
        face("Baloo 2", 400, false),
        face("Baloo 2", 800, false),
        face("Baloo 2", 700, true),
        face("Montserrat", 700, true),
    ];
    assert_eq!(pick_face(&fonts, "baloo 2", 800, false), 2);
    assert_eq!(pick_face(&fonts, "Baloo 2", 650, false), 2); // 150 < 250
    assert_eq!(pick_face(&fonts, "Baloo 2", 700, true), 3);
    assert_eq!(pick_face(&fonts, "Baloo 2", 600, false), 1); // tie 200/200: first wins
    assert_eq!(pick_face(&fonts, "Unknown", 400, false), 0);
    assert_eq!(pick_face(&fonts, "MONTSERRAT", 700, true), 4);
}

#[test]
fn images_embed_as_data_uris() {
    assert_eq!(data_uri(Some("PNG"), b"abc"), "data:image/png;base64,YWJj");
    assert_eq!(data_uri(Some("jpeg"), b""), "data:image/jpeg;base64,");
    assert_eq!(data_uri(Some("webp"), b"a"), "data:image/webp;base64,YQ==");
    assert_eq!(data_uri(None, b"ab"), "data:application/octet-stream;base64,YWI=");
}
