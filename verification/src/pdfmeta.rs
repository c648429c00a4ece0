//! PDF metadata read from a PDF's bytes with `lopdf`: the page count, the
//! document title and language, whether it is tagged; setting the language.
//! Also how the bytes of a metadata text string decode, and when a value
//! counts as present.
use vstd::prelude::*;
use vstd::utf8::{decode_utf8, valid_utf8};
use crate::text::{chars_of, string_of, trim};

verus! {

/// What `String::from_utf8_lossy` gives for bytes (invalid sequences become
/// U+FFFD).
pub uninterp spec fn utf8_lossy(bytes: Seq<u8>) -> Seq<char>;

/// A UTF-16 lead (high) surrogate.
pub open spec fn is_lead(u: u16) -> bool {
    0xD800 <= u <= 0xDBFF
}

/// A UTF-16 trail (low) surrogate.
pub open spec fn is_trail(u: u16) -> bool {
    0xDC00 <= u <= 0xDFFF
}

/// The code point a lead and a trail surrogate stand for together.
pub open spec fn pair_point(hi: u16, lo: u16) -> u32 {
    (0x10000 + (hi - 0xD800) * 0x400 + (lo - 0xDC00)) as u32
}

/// A Unicode scalar value: at most U+10FFFF and not a surrogate.
pub open spec fn scalar(u: u32) -> bool {
    u <= 0x10FFFF && !(0xD800 <= u <= 0xDFFF)
}

/// UTF-16 code units as text: a lead surrogate followed by a trail one is one
/// character, any other surrogate makes the whole text undecodable, every
/// other unit is the character of that value.
pub open spec fn utf16_decode(u: Seq<u16>) -> Option<Seq<char>>
    decreases u.len(),
{
    if u.len() == 0 {
        Some(Seq::<char>::empty())
    } else if u.len() >= 2 && is_lead(u[0]) && is_trail(u[1]) {
        match utf16_decode(u.skip(2)) {
            Some(r) => Some(seq![pair_point(u[0], u[1]) as char] + r),
            None => None,
        }
    } else if is_lead(u[0]) || is_trail(u[0]) {
        None
    } else {
        match utf16_decode(u.skip(1)) {
            Some(r) => Some(seq![(u[0] as u32) as char] + r),
            None => None,
        }
    }
}

/// `char::from_u32`: the character of a scalar value, nothing for any other
/// value (as its documentation states).
#[verifier::external_body]
fn char_of(u: u32) -> (r: Option<char>)
    ensures
        scalar(u) ==> r == Some(u as char),
        !scalar(u) ==> r is None,
{
    char::from_u32(u)
}

/// Decode UTF-16 code units (see `utf16_decode`).
fn from_utf16(units: &[u16]) -> (r: Option<String>)
    ensures
        match r {
            Some(s) => utf16_decode(units@) == Some(s@),
            None => utf16_decode(units@) is None,
        },
{
    let ghost u = units@;
    let mut out: Vec<char> = Vec::new();
    let mut i: usize = 0;
    assert(u.skip(0) =~= u);
    while i < units.len()
        invariant
            0 <= i <= u.len(),
            u == units@,
            utf16_decode(u) == match utf16_decode(u.skip(i as int)) {
                Some(r) => Some(out@ + r),
                None => None::<Seq<char>>,
            },
        decreases u.len() - i,
    {
        let a = units[i];
        let ghost rest = u.skip(i as int);
        assert(rest[0] == a);
        if i + 1 < units.len() && 0xD800 <= a && a <= 0xDBFF && 0xDC00 <= units[i + 1] && units[i + 1] <= 0xDFFF {
            let b = units[i + 1];
            assert(rest[1] == b);
            assert(rest.skip(2) =~= u.skip(i as int + 2));
            let cp: u32 = 0x10000 + ((a - 0xD800) as u32) * 0x400 + ((b - 0xDC00) as u32);
            assert(cp == pair_point(a, b));
            match char_of(cp) {
                Some(c) => {
                    let ghost o0 = out@;
                    out.push(c);
                    assert(o0 + (seq![c] + Seq::<char>::empty()) =~= out@ + Seq::<char>::empty());
                    assert(forall|r: Seq<char>| o0 + (seq![c] + r) =~= out@ + r);
                },
                None => {
                    return None;
                },
            }
            i += 2;
        } else if 0xD800 <= a && a <= 0xDFFF {
            assert(is_lead(rest[0]) || is_trail(rest[0]));
            return None;
        } else {
            assert(rest.skip(1) =~= u.skip(i as int + 1));
            match char_of(a as u32) {
                Some(c) => {
                    let ghost o0 = out@;
                    out.push(c);
                    assert(forall|r: Seq<char>| o0 + (seq![c] + r) =~= out@ + r);
                },
                None => {
                    return None;
                },
            }
            i += 1;
        }
    }
    assert(u.skip(i as int) =~= Seq::<u16>::empty());
    assert(out@ + Seq::<char>::empty() =~= out@);
    Some(string_of(&out))
}

/// `String::from_utf8_lossy`; the result is named, and, as documented,
/// valid UTF-8 comes back as the text it encodes.
#[verifier::external_body]
fn from_utf8_lossy(bytes: &[u8]) -> (r: String)
    ensures
        r@ == utf8_lossy(bytes@),
        valid_utf8(bytes@) ==> r@ == decode_utf8(bytes@),
{
    String::from_utf8_lossy(bytes).into_owned()
}

/// Big-endian 16-bit units of `b`, pair by pair (a trailing odd byte is dropped).
pub open spec fn be_units(b: Seq<u8>) -> Seq<u16> {
    Seq::new(b.len() / 2, |i: int| (b[2 * i] as u16 * 256 + b[2 * i + 1] as u16) as u16)
}

/// How a PDF text string decodes: UTF-16BE after a `FE FF` byte-order mark,
/// else the bytes read as UTF-8 with invalid sequences replaced.
pub open spec fn spec_decode_text(b: Seq<u8>) -> Option<Seq<char>> {
    if b.len() >= 2 && b[0] == 0xFE && b[1] == 0xFF {
        utf16_decode(be_units(b.skip(2)))
    } else {
        Some(utf8_lossy(b))
    }
}

/// Decode the bytes of a PDF text string.
pub fn decode_text(b: &[u8]) -> (r: Option<String>)
    ensures
        match r {
            Some(s) => spec_decode_text(b@) == Some(s@),
            None => spec_decode_text(b@) is None,
        },
{
    if b.len() >= 2 && b[0] == 0xFE && b[1] == 0xFF {
        let ghost u = be_units(b@.skip(2));
        let mut units: Vec<u16> = Vec::new();
        let mut j: usize = 2;
        while j + 1 < b.len()
            invariant
                2 <= j <= b@.len(),
                b@.len() >= 2,
                (j - 2) % 2 == 0,
                u == be_units(b@.skip(2)),
                units@ == u.take((j - 2) / 2),
            decreases b@.len() - j,
        {
            let hi = b[j] as u16;
            let lo = b[j + 1] as u16;
            let x: u16 = hi * 256 + lo;
            assert(u[(j - 2) / 2] == x);
            units.push(x);
            assert(units@ =~= u.take((j - 2) / 2 + 1));
            j += 2;
        }
        assert((j - 2) / 2 == u.len());
        assert(u.take((j - 2) / 2) =~= u);
        from_utf16(&units)
    } else {
        Some(from_utf8_lossy(b))
    }
}

/// A metadata value counts when its text is not blank.
pub open spec fn spec_present_text(b: Seq<u8>) -> Option<Seq<char>> {
    match spec_decode_text(b) {
        Some(s) => if trim(s).len() == 0 {
            None
        } else {
            Some(s)
        },
        None => None,
    }
}

/// A metadata text value (`/Title`, `/Lang`) from its string's bytes: the
/// decoded text, unless it does not decode or is blank.
pub fn present_text(b: &[u8]) -> (r: Option<String>)
    ensures
        match r {
            Some(s) => spec_present_text(b@) == Some(s@),
            None => spec_present_text(b@) is None,
        },
{
    match decode_text(b) {
        Some(s) => {
            if crate::text::is_blank(&chars_of(s.as_str())) {
                None
            } else {
                Some(s)
            }
        },
        None => None,
    }
}


// ---------------------------------------------------------------------------
// Reading and changing a PDF
// ---------------------------------------------------------------------------

/// The number of pages `lopdf` finds in a PDF's bytes (`None`: it does not
/// load).
pub uninterp spec fn pdf_pages(pdf: Seq<u8>) -> Option<usize>;

/// `Document::load_mem`, then the size of `get_pages`. The result is the
/// crate's answer for these bytes. Malformed bytes are meant to come back as
/// an error, not a panic: the reader checks every offset it takes from the
/// file against the buffer before it slices (lopdf-0.46.0 src/reader.rs, the
/// checks before each `buffer[offset..]`), and its changelog records crash
/// fixes for crafted files. No input that makes it panic is known, so no
/// `requires` excludes one; that it never panics is not proved here.
#[verifier::external_body]
pub(crate) fn pdf_page_total(pdf: &[u8]) -> (r: Option<usize>)
    ensures
        r == pdf_pages(pdf@),
{
    lopdf::Document::load_mem(pdf).ok().map(|d| d.get_pages().len())
}

/// Optional bytes as plain values.
pub open spec fn opt_seq(o: Option<Vec<u8>>) -> Option<Seq<u8>> {
    match o {
        Some(v) => Some(v@),
        None => None,
    }
}

/// The bytes of the `/Title` string in a PDF's document information
/// dictionary, as `lopdf` reads it.
pub uninterp spec fn pdf_title_bytes(pdf: Seq<u8>) -> Option<Seq<u8>>;

/// `Document::load_mem`, the trailer's `/Info` (a reference or a dictionary),
/// its `/Title`, `as_str`. `None` when any step fails. The result is the
/// crate's answer for these bytes.
/// Loading rests on the reader as `pdf_page_total` describes.
#[verifier::external_body]
pub(crate) fn pdf_info_title(pdf: &[u8]) -> (r: Option<Vec<u8>>)
    ensures
        opt_seq(r) == pdf_title_bytes(pdf@),
{
    let doc = lopdf::Document::load_mem(pdf).ok()?;
    let dict = match doc.trailer.get(b"Info").ok()? {
        lopdf::Object::Reference(id) => doc.get_object(*id).ok()?.as_dict().ok()?,
        lopdf::Object::Dictionary(d) => d,
        _ => return None,
    };
    Some(dict.get(b"Title").ok()?.as_str().ok()?.to_vec())
}

/// The bytes of the `/Lang` string of a PDF's document catalog, as `lopdf`
/// reads it.
pub uninterp spec fn pdf_lang_bytes(pdf: Seq<u8>) -> Option<Seq<u8>>;

/// `Document::load_mem`, the trailer's `/Root` reference, that object as a
/// dictionary, its `/Lang`, `as_str`. `None` when any step fails. The result
/// is the crate's answer for these bytes.
/// Loading rests on the reader as `pdf_page_total` describes.
#[verifier::external_body]
pub(crate) fn pdf_catalog_lang(pdf: &[u8]) -> (r: Option<Vec<u8>>)
    ensures
        opt_seq(r) == pdf_lang_bytes(pdf@),
{
    let doc = lopdf::Document::load_mem(pdf).ok()?;
    let root = doc.trailer.get(b"Root").ok()?.as_reference().ok()?;
    let cat = doc.get_object(root).ok()?.as_dict().ok()?;
    Some(cat.get(b"Lang").ok()?.as_str().ok()?.to_vec())
}

/// Does `lopdf` find a `/StructTreeRoot` in a PDF's document catalog?
pub uninterp spec fn pdf_tagged(pdf: Seq<u8>) -> bool;

/// `Document::load_mem`, the trailer's `/Root` reference, that object as a
/// dictionary, `has(b"StructTreeRoot")`; false when any step fails. The
/// result is the crate's answer for these bytes.
/// Loading rests on the reader as `pdf_page_total` describes.
#[verifier::external_body]
pub(crate) fn pdf_struct_tree(pdf: &[u8]) -> (r: bool)
    ensures
        r == pdf_tagged(pdf@),
{
    let Ok(doc) = lopdf::Document::load_mem(pdf) else { return false };
    let Ok(root) = doc.trailer.get(b"Root").and_then(|r| r.as_reference()) else { return false };
    doc.get_object(root).and_then(|o| o.as_dict()).map(|c| c.has(b"StructTreeRoot")).unwrap_or(false)
}

/// The PDF `lopdf` writes after setting `/Lang` on the document catalog.
pub uninterp spec fn pdf_lang_set(pdf: Seq<u8>, lang: Seq<char>) -> Option<Seq<u8>>;

/// `Document::load_mem`, the catalog through `/Root`, `set("Lang",
/// Object::string_literal(lang))`, `save_to` a buffer; `None` when any step
/// fails. The result is the crate's answer for these arguments.
/// Loading rests on the reader as `pdf_page_total` describes.
#[verifier::external_body]
pub(crate) fn pdf_set_lang(pdf: &[u8], lang: &str) -> (r: Option<Vec<u8>>)
    ensures
        opt_seq(r) == pdf_lang_set(pdf@, lang@),
{
    let mut doc = lopdf::Document::load_mem(pdf).ok()?;
    let root = doc.trailer.get(b"Root").ok()?.as_reference().ok()?;
    let cat = doc.get_object_mut(root).ok()?.as_dict_mut().ok()?;
    cat.set("Lang", lopdf::Object::string_literal(lang));
    let mut out = Vec::new();
    doc.save_to(&mut out).ok()?;
    Some(out)
}

/// Number of pages in a PDF (its bytes); `None` when it cannot be parsed.
pub fn page_count(pdf: &[u8]) -> (r: Option<u32>)
    ensures
        r == (match pdf_pages(pdf@) {
            Some(n) => Some(n as u32),
            None => None,
        }),
{
    match pdf_page_total(pdf) {
        Some(n) => Some(n as u32),
        None => None,
    }
}

/// The document title (`/Info /Title`): `None` when it is absent, does not
/// decode, or is blank.
pub fn title(pdf: &[u8]) -> (r: Option<String>)
    ensures
        opt_text(r) == (match pdf_title_bytes(pdf@) {
            Some(b) => spec_present_text(b),
            None => None,
        }),
{
    match pdf_info_title(pdf) {
        Some(b) => present_text(&b),
        None => None,
    }
}

/// Optional text as plain values.
pub open spec fn opt_text(o: Option<String>) -> Option<Seq<char>> {
    match o {
        Some(s) => Some(s@),
        None => None,
    }
}

/// The document's natural language (`/Root /Lang`): `None` when it is unset,
/// does not decode, or is blank.
pub fn catalog_lang(pdf: &[u8]) -> (r: Option<String>)
    ensures
        opt_text(r) == (match pdf_lang_bytes(pdf@) {
            Some(b) => spec_present_text(b),
            None => None,
        }),
{
    match pdf_catalog_lang(pdf) {
        Some(b) => present_text(&b),
        None => None,
    }
}

/// True when the PDF carries a structure tree: a tagged PDF.
pub fn is_tagged(pdf: &[u8]) -> (r: bool)
    ensures
        r == pdf_tagged(pdf@),
{
    pdf_struct_tree(pdf)
}

/// The PDF with `/Lang` set on its document catalog (used to restore the
/// language after the Ghostscript shrink drops it); `None` when it cannot be
/// parsed or written.
pub fn set_catalog_lang(pdf: &[u8], lang: &str) -> (r: Option<Vec<u8>>)
    ensures
        opt_seq(r) == pdf_lang_set(pdf@, lang@),
{
    pdf_set_lang(pdf, lang)
}
} // verus!
