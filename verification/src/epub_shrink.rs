//! Shrinking a built EPUB: every PNG and JPEG inside but the cover is fitted
//! to a maximum width and re-encoded (the cover is left untouched), opaque PNGs that became
//! JPEGs are renamed with every reference to them, and the archive is packed
//! again with `mimetype` first. Also the names of its entries: file names,
//! extension swaps, which text entries may reference images, and the media
//! type an image entry declares.
use vstd::prelude::*;
use vstd::utf8::{decode_utf8, encode_utf8, valid_utf8};
use vstd::string::StrSliceExecFns;
use crate::images::{shrink_image, shrink_view, spec_shrink_image};
use crate::zipfile::{
    entries_view, entry_view, read_zip, zip_builder, zip_bytes, zip_finish, zip_listing, zip_put_deflated, zip_put_dir,
    zip_put_stored, zip_staged, EntryView, Put, ZipEntry,
};
use crate::paths::opt_view;
use crate::text::{
    copy_string, eq_str, chars_of, ends_with, find_c, find_char, find_from, finishes, lemma_find_char, lemma_find_from, lemma_rfind_char,
    lower_seq, match_at, push_slice, push_str, replace_all, rfind_c, rfind_char, string_of, sub_vec, to_lower,
};

verus! {

/// The part of a zip entry path after its last `/` (all of it when there is none).
pub open spec fn spec_basename(name: Seq<char>) -> Seq<char> {
    match rfind_char(name, '/', name.len() as int) {
        Some(i) => name.skip(i + 1),
        None => name,
    }
}

/// The file name portion of a zip entry path.
pub fn basename(name: &str) -> (r: String)
    ensures
        r@ == spec_basename(name@),
{
    let v = chars_of(name);
    proof {
        lemma_rfind_char(v@, '/', v@.len() as int);
    }
    match rfind_c(&v, '/', v.len()) {
        Some(i) => {
            let t = sub_vec(&v, i + 1, v.len());
            assert(t@ =~= v@.skip(i + 1));
            string_of(&t)
        },
        None => string_of(&v),
    }
}

/// A name with the text after its last `.` replaced by `ext` (or `.ext`
/// appended when it has no `.`).
pub open spec fn spec_swap_ext(name: Seq<char>, ext: Seq<char>) -> Seq<char> {
    match rfind_char(name, '.', name.len() as int) {
        Some(i) => name.take(i) + "."@ + ext,
        None => name + "."@ + ext,
    }
}

/// Replace a zip entry's extension (`media/file0.png` → `media/file0.jpg`).
pub fn swap_ext(name: &str, new_ext: &str) -> (r: String)
    ensures
        r@ == spec_swap_ext(name@, new_ext@),
{
    let v = chars_of(name);
    proof {
        lemma_rfind_char(v@, '.', v@.len() as int);
    }
    let mut out: Vec<char> = match rfind_c(&v, '.', v.len()) {
        Some(i) => {
            let t = sub_vec(&v, 0, i);
            assert(t@ =~= v@.take(i as int));
            t
        },
        None => v,
    };
    push_str(&mut out, ".");
    push_str(&mut out, new_ext);
    string_of(&out)
}

/// A text entry that may reference images by relative path (by its lower-case name).
pub open spec fn spec_is_text_ref(lower: Seq<char>) -> bool {
    ends_with(lower, ".xhtml"@) || ends_with(lower, ".html"@) || ends_with(lower, ".htm"@)
        || ends_with(lower, ".ncx"@) || ends_with(lower, ".css"@) || ends_with(lower, ".svg"@)
        || ends_with(lower, ".smil"@)
}

/// Text entry kinds that may reference images by relative path.
pub fn is_text_ref(lower: &str) -> (r: bool)
    ensures
        r == spec_is_text_ref(lower@),
{
    let v = chars_of(lower);
    finishes(&v, ".xhtml") || finishes(&v, ".html") || finishes(&v, ".htm") || finishes(&v, ".ncx")
        || finishes(&v, ".css") || finishes(&v, ".svg") || finishes(&v, ".smil")
}

/// The media type of an image entry: JPEG for `.jpg`/`.jpeg` (any case), PNG otherwise.
pub open spec fn spec_media_type_for(name: Seq<char>) -> Seq<char> {
    let lower = lower_seq(name);
    if ends_with(lower, ".jpg"@) || ends_with(lower, ".jpeg"@) {
        "image/jpeg"@
    } else {
        "image/png"@
    }
}

/// The media type an image entry declares in the OPF.
pub fn media_type_for(name: &str) -> (r: &'static str)
    ensures
        r@ == spec_media_type_for(name@),
{
    let v = chars_of(name);
    let mut l: Vec<char> = Vec::new();
    let mut i: usize = 0;
    while i < v.len()
        invariant
            0 <= i <= v@.len(),
            l@ == lower_seq(v@.take(i as int)),
        decreases v@.len() - i,
    {
        l.push(to_lower(v[i]));
        assert(lower_seq(v@.take(i as int + 1)) =~= lower_seq(v@.take(i as int)).push(
            crate::text::lower(v@[i as int]),
        ));
        i += 1;
    }
    assert(v@.take(v@.len() as int) =~= v@);
    if finishes(&l, ".jpg") || finishes(&l, ".jpeg") {
        "image/jpeg"
    } else {
        "image/png"
    }
}

// ---------------------------------------------------------------------------
// Manifest items of the package document
// ---------------------------------------------------------------------------

/// A character of a word (regex `\w`, taken as alphanumeric or `_`).
pub open spec fn word_char(c: char) -> bool {
    crate::cover_svg::alnum(c) || c == '_'
}

/// The first `<item` tag at or after `from`: where it starts and where its
/// closing `>` stands (`<item\b[^>]*?/?>`).
pub open spec fn item_tag_from(s: Seq<char>, from: int) -> Option<(int, int)>
    decreases s.len() - from,
{
    if from < 0 || from + 5 > s.len() {
        None
    } else if match_at(s, "<item"@, from) && (from + 5 == s.len() || !word_char(s[from + 5])) {
        match find_char(s, '>', from + 5) {
            Some(e) => Some((from, e)),
            None => None,
        }
    } else {
        item_tag_from(s, from + 1)
    }
}

pub proof fn lemma_item_tag_from(s: Seq<char>, from: int)
    requires
        0 <= from,
    ensures
        match item_tag_from(s, from) {
            Some((a, e)) => from <= a && a + 5 <= e < s.len() && match_at(s, "<item"@, a) && s[e] == '>',
            None => true,
        },
    decreases s.len() - from,
{
    if from + 5 > s.len() {
    } else if match_at(s, "<item"@, from) && (from + 5 == s.len() || !word_char(s[from + 5])) {
        lemma_find_char(s, '>', from + 5);
    } else {
        lemma_item_tag_from(s, from + 1);
    }
}

fn item_tag_exec(s: &Vec<char>, from: usize) -> (r: Option<(usize, usize)>)
    ensures
        match r {
            Some((a, e)) => item_tag_from(s@, from as int) == Some((a as int, e as int)),
            None => item_tag_from(s@, from as int) is None,
        },
    decreases s@.len() - from,
{
    let pat = chars_of("<item");
    if from > s.len() {
        return None;
    }
    let mut i = from;
    while s.len() - i >= 5
        invariant
            from <= i <= s@.len(),
            pat@ == "<item"@,
            item_tag_from(s@, from as int) == item_tag_from(s@, i as int),
        decreases s@.len() - i,
    {
        proof {
            reveal_strlit("<item");
        }
        if crate::text::match_here(s, &pat, i) && (i + 5 == s.len() || !(crate::cover_svg::is_alnum(s[i + 5]) || s[i + 5] == '_')) {
            return match find_c(s, '>', i + 5) {
                Some(e) => Some((i, e)),
                None => None,
            };
        }
        i += 1;
    }
    None
}

/// The value of `key="…"` in a tag: the text after the first `key="` up to the
/// next `"` (`key="([^"]*)"`).
pub open spec fn attr_of(tag: Seq<char>, key: Seq<char>) -> Option<Seq<char>> {
    let open = key + "=\""@;
    match find_from(tag, open, 0) {
        Some(i) => match find_char(tag, '"', i + open.len()) {
            Some(j) => Some(tag.subrange(i + open.len(), j)),
            None => None,
        },
        None => None,
    }
}

fn attr_exec(tag: &Vec<char>, key: &str) -> (r: Option<Vec<char>>)
    ensures
        match r {
            Some(v) => attr_of(tag@, key@) == Some(v@),
            None => attr_of(tag@, key@) is None,
        },
{
    let mut open = chars_of(key);
    push_str(&mut open, "=\"");
    match crate::text::find(tag, &open, 0) {
        Some(i) => {
            proof {
                lemma_find_from(tag@, open@, 0);
            }
            assert(i + open.len() <= tag.len());
            match find_c(tag, '"', i + open.len()) {
                Some(j) => {
                    proof {
                        lemma_find_char(tag@, '"', (i + open.len()) as int);
                    }
                    Some(sub_vec(tag, i + open.len(), j))
                },
                None => None,
            }
        },
        None => None,
    }
}

/// The value a base-name table gives a name (its last entry for the name).
pub open spec fn base_lookup(m: Seq<(Seq<char>, Seq<char>)>, k: Seq<char>) -> Option<Seq<char>>
    decreases m.len(),
{
    if m.len() == 0 {
        None
    } else if m.last().0 == k {
        Some(m.last().1)
    } else {
        base_lookup(m.drop_last(), k)
    }
}

/// Base-name pairs as plain values.
pub open spec fn pairs_of(m: Seq<(String, String)>) -> Seq<(Seq<char>, Seq<char>)> {
    m.map_values(|p: (String, String)| (p.0@, p.1@))
}

fn base_lookup_exec(m: &Vec<(String, String)>, k: &Vec<char>) -> (r: Option<Vec<char>>)
    ensures
        match r {
            Some(v) => base_lookup(pairs_of(m@), k@) == Some(v@),
            None => base_lookup(pairs_of(m@), k@) is None,
        },
{
    let mut i = m.len();
    assert(pairs_of(m@).take(m@.len() as int) =~= pairs_of(m@));
    while i > 0
        invariant
            i <= m@.len(),
            base_lookup(pairs_of(m@), k@) == base_lookup(pairs_of(m@).take(i as int), k@),
        decreases i,
    {
        let ghost t = pairs_of(m@).take(i as int);
        assert(t.drop_last() =~= pairs_of(m@).take(i as int - 1));
        if crate::text::eq_chars(&chars_of(m[i - 1].0.as_str()), k) {
            return Some(chars_of(m[i - 1].1.as_str()));
        }
        i -= 1;
    }
    None
}

/// The first `media-type="…"` of a tag replaced by `with`.
pub open spec fn set_media_type(tag: Seq<char>, with: Seq<char>) -> Seq<char> {
    let open = "media-type=\""@;
    match find_from(tag, open, 0) {
        Some(i) => match find_char(tag, '"', i + open.len()) {
            Some(j) => tag.take(i) + with + tag.skip(j + 1),
            None => tag,
        },
        None => tag,
    }
}

fn set_media_type_exec(tag: &Vec<char>, with: &Vec<char>) -> (r: Vec<char>)
    ensures
        r@ == set_media_type(tag@, with@),
{
    let open = chars_of("media-type=\"");
    match crate::text::find(tag, &open, 0) {
        Some(i) => {
            proof {
                lemma_find_from(tag@, open@, 0);
            }
            assert(i + open.len() <= tag.len());
            match find_c(tag, '"', i + open.len()) {
                Some(j) => {
                    proof {
                        lemma_find_char(tag@, '"', (i + open.len()) as int);
                    }
                    let mut out = sub_vec(tag, 0, i);
                    push_slice(&mut out, with);
                    push_slice(&mut out, &sub_vec(tag, j + 1, tag.len()));
                    assert(out@ =~= set_media_type(tag@, with@));
                    out
                },
                None => crate::text::copy_vec(tag),
            }
        },
        None => crate::text::copy_vec(tag),
    }
}

/// One manifest item after renames: when its `href` file name was renamed,
/// the name is swapped inside the `href` and the media type follows the new
/// name; other items are unchanged.
pub open spec fn rewrite_item(tag: Seq<char>, m: Seq<(Seq<char>, Seq<char>)>) -> Seq<char> {
    match attr_of(tag, "href"@) {
        None => tag,
        Some(href) => {
            let base = spec_basename(href);
            match base_lookup(m, base) {
                None => tag,
                Some(nb) => {
                    let new_href = replace_all(href, base, nb);
                    let t = replace_all(tag, "href=\""@ + href + "\""@, "href=\""@ + new_href + "\""@);
                    set_media_type(t, "media-type=\""@ + spec_media_type_for(nb) + "\""@)
                },
            }
        },
    }
}

fn rewrite_item_exec(tag: &Vec<char>, m: &Vec<(String, String)>) -> (r: Vec<char>)
    ensures
        r@ == rewrite_item(tag@, pairs_of(m@)),
{
    let href = match attr_exec(tag, "href") {
        None => return crate::text::copy_vec(tag),
        Some(h) => h,
    };
    let base = chars_of(basename(string_of(&href).as_str()).as_str());
    let nb = match base_lookup_exec(m, &base) {
        None => return crate::text::copy_vec(tag),
        Some(n) => n,
    };
    let base_s = string_of(&base);
    let nb_s = string_of(&nb);
    let new_href = crate::text::replace(&href, base_s.as_str(), nb_s.as_str());
    let mut old_attr = chars_of("href=\"");
    push_slice(&mut old_attr, &href);
    push_str(&mut old_attr, "\"");
    let mut new_attr = chars_of("href=\"");
    push_slice(&mut new_attr, &new_href);
    push_str(&mut new_attr, "\"");
    let t = crate::text::replace(tag, string_of(&old_attr).as_str(), string_of(&new_attr).as_str());
    let mut mt = chars_of("media-type=\"");
    push_str(&mut mt, media_type_for(nb_s.as_str()));
    push_str(&mut mt, "\"");
    set_media_type_exec(&t, &mt)
}

/// The package document with every manifest item rewritten for the renames,
/// from `from` on (`<item …>` tags are scanned left to right, without overlap).
pub open spec fn rewrite_items(s: Seq<char>, from: int, m: Seq<(Seq<char>, Seq<char>)>) -> Seq<char>
    decreases s.len() - from,
{
    if from < 0 || from > s.len() {
        seq![]
    } else {
        match item_tag_from(s, from) {
            None => s.skip(from),
            Some((a, e)) => if from <= a && a < e && e < s.len() {
                s.subrange(from, a) + rewrite_item(s.subrange(a, e + 1), m) + rewrite_items(s, e + 1, m)
            } else {
                s.skip(from)
            },
        }
    }
}

/// Rewrite the OPF manifest for renamed images: each item whose `href` file
/// name is in the table of renamed file names gets the new name and the
/// matching media type.
pub fn rewrite_opf(opf: &str, renamed: &Vec<(String, String)>) -> (r: String)
    ensures
        r@ == rewrite_items(opf@, 0, pairs_of(renamed@)),
{
    let s = chars_of(opf);
    let mut out: Vec<char> = Vec::new();
    let mut i: usize = 0;
    loop
        invariant_except_break
            0 <= i <= s@.len(),
            s@ == opf@,
            rewrite_items(s@, 0, pairs_of(renamed@)) == out@ + rewrite_items(s@, i as int, pairs_of(renamed@)),
        ensures
            rewrite_items(s@, 0, pairs_of(renamed@)) == out@,
        decreases s@.len() - i,
    {
        proof {
            lemma_item_tag_from(s@, i as int);
        }
        match item_tag_exec(&s, i) {
            None => {
                push_slice(&mut out, &sub_vec(&s, i, s.len()));
                assert(s@.subrange(i as int, s@.len() as int) =~= s@.skip(i as int));
                break;
            },
            Some((a, e)) => {
                assert(i <= a && a + 5 <= e && e < s@.len());
                push_slice(&mut out, &sub_vec(&s, i, a));
                let tag = sub_vec(&s, a, e + 1);
                push_slice(&mut out, &rewrite_item_exec(&tag, renamed));
                i = e + 1;
            },
        }
    }
    string_of(&out)
}

/// A text entry after renames: each old file name replaced by its new one,
/// table entry by table entry.
pub open spec fn rewrite_refs_spec(text: Seq<char>, m: Seq<(Seq<char>, Seq<char>)>) -> Seq<char>
    decreases m.len(),
{
    if m.len() == 0 {
        text
    } else {
        replace_all(rewrite_refs_spec(text, m.drop_last()), m.last().0, m.last().1)
    }
}

/// Rewrite the image references of a text entry (XHTML, NCX, CSS, SVG, SMIL)
/// for renamed images.
pub fn rewrite_refs(text: &str, renamed: &Vec<(String, String)>) -> (r: String)
    ensures
        r@ == rewrite_refs_spec(text@, pairs_of(renamed@)),
{
    let mut out = chars_of(text);
    let mut i: usize = 0;
    while i < renamed.len()
        invariant
            0 <= i <= renamed@.len(),
            out@ == rewrite_refs_spec(text@, pairs_of(renamed@).take(i as int)),
        decreases renamed@.len() - i,
    {
        assert(pairs_of(renamed@).take(i as int + 1).drop_last() =~= pairs_of(renamed@).take(i as int));
        out = crate::text::replace(&out, renamed[i].0.as_str(), renamed[i].1.as_str());
        i += 1;
    }
    assert(pairs_of(renamed@).take(renamed@.len() as int) =~= pairs_of(renamed@));
    string_of(&out)
}

/// The renamed file names of renamed entries: each entry's old and new base name.
pub open spec fn spec_renamed_bases(renames: Seq<(Seq<char>, Seq<char>)>) -> Seq<(Seq<char>, Seq<char>)> {
    renames.map_values(|p: (Seq<char>, Seq<char>)| (spec_basename(p.0), spec_basename(p.1)))
}

/// The base names of renamed entries, in order.
pub fn renamed_bases(renames: &Vec<(String, String)>) -> (r: Vec<(String, String)>)
    ensures
        pairs_of(r@) == spec_renamed_bases(pairs_of(renames@)),
{
    let mut r: Vec<(String, String)> = Vec::new();
    let mut i: usize = 0;
    while i < renames.len()
        invariant
            0 <= i <= renames@.len(),
            pairs_of(r@) == spec_renamed_bases(pairs_of(renames@)).take(i as int),
        decreases renames@.len() - i,
    {
        let a = basename(renames[i].0.as_str());
        let b = basename(renames[i].1.as_str());
        let ghost before = pairs_of(r@);
        r.push((a, b));
        assert(pairs_of(r@) =~= before.push((a@, b@)));
        assert(spec_renamed_bases(pairs_of(renames@)).take(i as int + 1) =~= spec_renamed_bases(pairs_of(renames@)).take(i as int).push((a@, b@)));
        i += 1;
    }
    assert(spec_renamed_bases(pairs_of(renames@)).take(renames@.len() as int) =~= spec_renamed_bases(pairs_of(renames@)));
    r
}

// ---------------------------------------------------------------------------
// The cover image
// ---------------------------------------------------------------------------

/// The `href` of the first manifest item at or after `from` that mentions
/// `cover-image` and has an `href`.
pub open spec fn cover_item_from(s: Seq<char>, from: int) -> Option<Seq<char>>
    decreases s.len() - from,
{
    if from < 0 || from > s.len() {
        None
    } else {
        match item_tag_from(s, from) {
            None => None,
            Some((a, e)) => if from <= a && a < e && e < s.len() {
                let tag = s.subrange(a, e + 1);
                if crate::text::contains(tag, "cover-image"@) && attr_of(tag, "href"@) is Some {
                    attr_of(tag, "href"@)
                } else {
                    cover_item_from(s, e + 1)
                }
            } else {
                None
            },
        }
    }
}

/// The `href` of the first manifest item at or after `from` whose `id` is
/// `id` and that has an `href`.
pub open spec fn id_item_from(s: Seq<char>, from: int, id: Seq<char>) -> Option<Seq<char>>
    decreases s.len() - from,
{
    if from < 0 || from > s.len() {
        None
    } else {
        match item_tag_from(s, from) {
            None => None,
            Some((a, e)) => if from <= a && a < e && e < s.len() {
                let tag = s.subrange(a, e + 1);
                if attr_of(tag, "id"@) == Some(id) && attr_of(tag, "href"@) is Some {
                    attr_of(tag, "href"@)
                } else {
                    id_item_from(s, e + 1, id)
                }
            } else {
                None
            },
        }
    }
}

/// A `content="` at `q` whose value is closed by a later `"`.
pub open spec fn content_at(s: Seq<char>, q: int) -> bool {
    match_at(s, "content=\""@, q) && find_char(s, '"', q + 9) is Some
}

/// The last such `content="` at or before `q` and not before `lo`.
pub open spec fn last_content(s: Seq<char>, lo: int, q: int) -> Option<int>
    decreases q - lo + 1,
{
    if q < lo {
        None
    } else if content_at(s, q) {
        Some(q)
    } else {
        last_content(s, lo, q - 1)
    }
}

proof fn lemma_last_content(s: Seq<char>, lo: int, q: int)
    ensures
        match last_content(s, lo, q) {
            Some(x) => lo <= x <= q && content_at(s, x),
            None => true,
        },
    decreases q - lo + 1,
{
    if q >= lo && !content_at(s, q) {
        lemma_last_content(s, lo, q - 1);
    }
}

/// Where the tag started at `st` ends: its first `>`, or the end of the text.
pub open spec fn tag_end(s: Seq<char>, st: int) -> int {
    match find_char(s, '>', st) {
        Some(e) => e,
        None => s.len() as int,
    }
}

/// The cover id a `<meta>` tag starting at `st` names
/// (`<meta\b[^>]*name="cover"[^>]*content="([^"]*)"`): within the tag, after
/// its first `name="cover"`, the value of its last `content="…"`.
pub open spec fn meta_at(s: Seq<char>, st: int) -> Option<Seq<char>> {
    if !(match_at(s, "<meta"@, st) && st + 5 < s.len() && !word_char(s[st + 5])) {
        None
    } else {
        let e = tag_end(s, st + 5);
        match find_from(s, "name=\"cover\""@, st + 5) {
            None => None,
            Some(p) => if p + 12 > e {
                None
            } else {
                match last_content(s, p + 12, e - 9) {
                    Some(q) => match find_char(s, '"', q + 9) {
                        Some(j) => Some(s.subrange(q + 9, j)),
                        None => None,
                    },
                    None => None,
                }
            },
        }
    }
}

/// The cover id of the first `<meta>` tag at or after `from` that names one.
pub open spec fn meta_from(s: Seq<char>, from: int) -> Option<Seq<char>>
    decreases s.len() - from,
{
    if from < 0 || from >= s.len() {
        None
    } else {
        match meta_at(s, from) {
            Some(id) => Some(id),
            None => meta_from(s, from + 1),
        }
    }
}

/// The cover image's `href` in a package document: the item marked
/// `cover-image`, else the item whose id the `cover` meta names.
pub open spec fn spec_cover_href(opf: Seq<char>) -> Option<Seq<char>> {
    match cover_item_from(opf, 0) {
        Some(h) => Some(h),
        None => match meta_from(opf, 0) {
            Some(id) => id_item_from(opf, 0, id),
            None => None,
        },
    }
}

fn cover_item_exec(s: &Vec<char>) -> (r: Option<Vec<char>>)
    ensures
        match r {
            Some(h) => cover_item_from(s@, 0) == Some(h@),
            None => cover_item_from(s@, 0) is None,
        },
{
    let n = s.len();
    let mut i: usize = 0;
    loop
        invariant
            n == s@.len(),
            0 <= i <= s@.len(),
            cover_item_from(s@, 0) == cover_item_from(s@, i as int),
        decreases s@.len() - i,
    {
        proof {
            lemma_item_tag_from(s@, i as int);
        }
        match item_tag_exec(s, i) {
            None => return None,
            Some((a, e)) => {
                assert(i <= a && a + 5 <= e && e < s@.len());
                let tag = sub_vec(s, a, e + 1);
                if crate::text::contains_str(&tag, "cover-image") {
                    match attr_exec(&tag, "href") {
                        Some(h) => return Some(h),
                        None => {},
                    }
                }
                i = e + 1;
            },
        }
    }
}

fn id_item_exec(s: &Vec<char>, id: &Vec<char>) -> (r: Option<Vec<char>>)
    ensures
        match r {
            Some(h) => id_item_from(s@, 0, id@) == Some(h@),
            None => id_item_from(s@, 0, id@) is None,
        },
{
    let n = s.len();
    let mut i: usize = 0;
    loop
        invariant
            n == s@.len(),
            0 <= i <= s@.len(),
            id_item_from(s@, 0, id@) == id_item_from(s@, i as int, id@),
        decreases s@.len() - i,
    {
        proof {
            lemma_item_tag_from(s@, i as int);
        }
        match item_tag_exec(s, i) {
            None => return None,
            Some((a, e)) => {
                assert(i <= a && a + 5 <= e && e < s@.len());
                let tag = sub_vec(s, a, e + 1);
                let same = match attr_exec(&tag, "id") {
                    Some(v) => crate::text::eq_chars(&v, id),
                    None => false,
                };
                if same {
                    match attr_exec(&tag, "href") {
                        Some(h) => return Some(h),
                        None => {},
                    }
                }
                i = e + 1;
            },
        }
    }
}

fn meta_at_exec(s: &Vec<char>, st: usize) -> (r: Option<Vec<char>>)
    requires
        st < s@.len(),
    ensures
        match r {
            Some(v) => meta_at(s@, st as int) == Some(v@),
            None => meta_at(s@, st as int) is None,
        },
{
    let pat = chars_of("<meta");
    if !(crate::text::match_here(s, &pat, st) && s.len() - st > 5) {
        return None;
    }
    let c = s[st + 5];
    if crate::cover_svg::is_alnum(c) || c == '_' {
        return None;
    }
    let e = match find_c(s, '>', st + 5) {
        Some(e) => e,
        None => s.len(),
    };
    proof {
        lemma_find_char(s@, '>', st as int + 5);
    }
    assert(e <= s@.len());
    let name = chars_of("name=\"cover\"");
    let p = match crate::text::find(s, &name, st + 5) {
        None => return None,
        Some(p) => p,
    };
    proof {
        lemma_find_from(s@, name@, st as int + 5);
        reveal_strlit("name=\"cover\"");
    }
    assert(name@.len() == 12);
    if p + 12 > e || e < 9 {
        proof {
            reveal_strlit("content=\"");
            if p + 12 <= e {
                assert(last_content(s@, p as int + 12, e as int - 9) is None);
            }
        }
        return None;
    }
    let lo = p + 12;
    let content = chars_of("content=\"");
    proof {
        reveal_strlit("content=\"");
    }
    assert(content@.len() == 9);
    let mut q: usize = e - 9;
    let mut found: Option<usize> = None;
    if q >= lo {
        loop
            invariant_except_break
                found is None,
            invariant
                lo <= q,
                q <= e - 9,
                content@ == "content=\""@,
                last_content(s@, lo as int, e as int - 9) == last_content(s@, lo as int, q as int),
            ensures
                match found {
                    Some(x) => last_content(s@, lo as int, e as int - 9) == Some(x as int),
                    None => last_content(s@, lo as int, e as int - 9) is None,
                },
            decreases q - lo,
        {
            let hit = crate::text::match_here(s, &content, q) && find_c(s, '"', q + 9).is_some();
            if hit {
                found = Some(q);
                break;
            }
            if q == lo {
                assert(last_content(s@, lo as int, lo as int - 1) is None);
                break;
            }
            q -= 1;
        }
    } else {
        assert(last_content(s@, lo as int, e as int - 9) is None);
    }
    proof {
        lemma_last_content(s@, lo as int, e as int - 9);
    }
    match found {
        None => None,
        Some(q) => {
            assert(q + 9 <= s@.len());
            match find_c(s, '"', q + 9) {
                Some(j) => {
                    proof {
                        lemma_find_char(s@, '"', q as int + 9);
                    }
                    Some(sub_vec(s, q + 9, j))
                },
                None => None,
            }
        },
    }
}

fn meta_exec(s: &Vec<char>) -> (r: Option<Vec<char>>)
    ensures
        match r {
            Some(v) => meta_from(s@, 0) == Some(v@),
            None => meta_from(s@, 0) is None,
        },
{
    let mut i: usize = 0;
    while i < s.len()
        invariant
            0 <= i <= s@.len(),
            meta_from(s@, 0) == meta_from(s@, i as int),
        decreases s@.len() - i,
    {
        match meta_at_exec(s, i) {
            Some(v) => return Some(v),
            None => {},
        }
        i += 1;
    }
    None
}

/// The `href` of the cover image in a package document.
pub fn cover_href(opf: &str) -> (r: Option<String>)
    ensures
        match r {
            Some(h) => spec_cover_href(opf@) == Some(h@),
            None => spec_cover_href(opf@) is None,
        },
{
    let s = chars_of(opf);
    match cover_item_exec(&s) {
        Some(h) => Some(string_of(&h)),
        None => match meta_exec(&s) {
            Some(id) => match id_item_exec(&s, &id) {
                Some(h) => Some(string_of(&h)),
                None => None,
            },
            None => None,
        },
    }
}

/// What `std::str::from_utf8` gives for bytes: their text when they are valid
/// UTF-8, else nothing.
pub open spec fn utf8_text(bytes: Seq<u8>) -> Option<Seq<char>> {
    if valid_utf8(bytes) {
        Some(decode_utf8(bytes))
    } else {
        None
    }
}

/// `std::str::from_utf8`, copied to a `String`. As documented: an error
/// exactly when the bytes are not valid UTF-8, else the text they encode.
#[verifier::external_body]
pub(crate) fn from_utf8(bytes: &[u8]) -> (r: Option<String>)
    ensures
        match r {
            Some(s) => utf8_text(bytes@) == Some(s@),
            None => utf8_text(bytes@) is None,
        },
{
    match std::str::from_utf8(bytes) {
        Ok(s) => Some(s.to_string()),
        Err(_) => None,
    }
}

/// The first entry whose name ends with `.opf` (any ASCII case).
pub open spec fn first_opf(names: Seq<Seq<char>>, from: int) -> Option<int>
    decreases names.len() - from,
{
    if from < 0 || from >= names.len() {
        None
    } else if ends_with(lower_seq(names[from]), ".opf"@) {
        Some(from)
    } else {
        first_opf(names, from + 1)
    }
}

/// The directory part of an entry path, with its trailing `/` (empty at the top).
pub open spec fn dir_of(name: Seq<char>) -> Seq<char> {
    match rfind_char(name, '/', name.len() as int) {
        Some(i) => name.take(i + 1),
        None => seq![],
    }
}

/// Zip entries (name, bytes) as plain values.
pub open spec fn plain_entries(es: Seq<(String, Vec<u8>)>) -> Seq<(Seq<char>, Seq<u8>)> {
    es.map_values(|e: (String, Vec<u8>)| (e.0@, e.1@))
}

/// The names of zip entries.
pub open spec fn entry_names(es: Seq<(Seq<char>, Seq<u8>)>) -> Seq<Seq<char>> {
    es.map_values(|e: (Seq<char>, Seq<u8>)| e.0)
}

/// The zip path of the cover image: found through the first package document
/// (when it is UTF-8), relative to that document's directory.
pub open spec fn spec_find_cover(es: Seq<(Seq<char>, Seq<u8>)>) -> Option<Seq<char>> {
    match first_opf(entry_names(es), 0) {
        None => None,
        Some(k) => match utf8_text(es[k].1) {
            None => None,
            Some(opf) => match spec_cover_href(opf) {
                Some(h) => Some(dir_of(es[k].0) + h),
                None => None,
            },
        },
    }
}

fn lower_vec(v: &Vec<char>) -> (r: Vec<char>)
    ensures
        r@ == lower_seq(v@),
{
    let mut l: Vec<char> = Vec::new();
    let mut i: usize = 0;
    while i < v.len()
        invariant
            0 <= i <= v@.len(),
            l@ == lower_seq(v@.take(i as int)),
        decreases v@.len() - i,
    {
        l.push(to_lower(v[i]));
        assert(lower_seq(v@.take(i as int + 1)) =~= lower_seq(v@.take(i as int)).push(
            crate::text::lower(v@[i as int]),
        ));
        i += 1;
    }
    assert(v@.take(v@.len() as int) =~= v@);
    l
}

/// Find the cover image among an EPUB's entries (name, bytes): the manifest
/// item marked `cover-image`, else the item the `cover` meta names, as a zip
/// path. The cover is left as it is when the EPUB is shrunk.
pub fn find_cover_image(entries: &Vec<(String, Vec<u8>)>) -> (r: Option<String>)
    ensures
        match r {
            Some(p) => spec_find_cover(plain_entries(entries@)) == Some(p@),
            None => spec_find_cover(plain_entries(entries@)) is None,
        },
{
    let ghost names = entry_names(plain_entries(entries@));
    assert(names.len() == entries@.len());
    let mut k: usize = 0;
    while k < entries.len()
        invariant
            0 <= k <= entries@.len(),
            names == entry_names(plain_entries(entries@)),
            first_opf(names, 0) == first_opf(names, k as int),
        ensures
            0 <= k <= entries@.len(),
            first_opf(names, 0) == first_opf(names, k as int),
            k < entries@.len() ==> ends_with(lower_seq(names[k as int]), ".opf"@),
        decreases entries@.len() - k,
    {
        let n = chars_of(entries[k].0.as_str());
        if finishes(&lower_vec(&n), ".opf") {
            break;
        }
        k += 1;
    }
    if k == entries.len() {
        return None;
    }
    assert(first_opf(names, 0) == Some(k as int));
    let opf = match from_utf8(entries[k].1.as_slice()) {
        None => return None,
        Some(t) => t,
    };
    let href = match cover_href(opf.as_str()) {
        None => return None,
        Some(h) => h,
    };
    let name = chars_of(entries[k].0.as_str());
    let mut out: Vec<char> = match rfind_c(&name, '/', name.len()) {
        Some(i) => {
            proof {
                lemma_rfind_char(name@, '/', name@.len() as int);
            }
            sub_vec(&name, 0, i + 1)
        },
        None => Vec::new(),
    };
    assert(out@ =~= dir_of(name@));
    push_str(&mut out, href.as_str());
    Some(string_of(&out))
}

// ---------------------------------------------------------------------------
// Images
// ---------------------------------------------------------------------------

/// Which image format an entry holds by its name (any ASCII case):
/// (`.png`, `.jpg` or `.jpeg`).
pub open spec fn spec_image_kind(name: Seq<char>) -> (bool, bool) {
    let l = lower_seq(name);
    (ends_with(l, ".png"@), ends_with(l, ".jpg"@) || ends_with(l, ".jpeg"@))
}

/// Is an entry a PNG, a JPEG (or neither), by its name?
pub fn image_kind(name: &str) -> (r: (bool, bool))
    ensures
        r == spec_image_kind(name@),
{
    let l = lower_vec(&chars_of(name));
    (finishes(&l, ".png"), finishes(&l, ".jpg") || finishes(&l, ".jpeg"))
}

/// The size an image is resized to for a maximum width: wider images are
/// scaled to `max_w` with the height scaled in proportion (rounded, at least
/// 1); others keep their size.
pub open spec fn spec_fit_width(w: u32, h: u32, max_w: u32) -> (u32, u32) {
    if w > max_w {
        let nh = (h as int * max_w as int + w as int / 2) / (w as int);
        (max_w, if nh < 1 {
            1
        } else {
            nh as u32
        })
    } else {
        (w, h)
    }
}

/// The size an image is shrunk to for a maximum width.
pub fn fit_width(w: u32, h: u32, max_w: u32) -> (r: (u32, u32))
    ensures
        r == spec_fit_width(w, h, max_w),
{
    if w > max_w {
        assert(h as u64 * max_w as u64 <= 0xFFFF_FFFE_0000_0001u64) by (nonlinear_arith)
            requires
                h <= 0xFFFF_FFFFu32,
                max_w <= 0xFFFF_FFFFu32,
        ;
        let num: u64 = h as u64 * max_w as u64 + w as u64 / 2;
        let nh: u64 = num / w as u64;
        assert(h as int * max_w as int <= h as int * w as int) by (nonlinear_arith)
            requires
                max_w < w,
                0 <= h,
        ;
        assert(h as int * max_w as int + w as int / 2 < (h as int + 1) * w as int) by (nonlinear_arith)
            requires
                h as int * max_w as int <= h as int * w as int,
                w > 0,
        ;
        assert(nh <= h) by (nonlinear_arith)
            requires
                nh == (h as int * max_w as int + w as int / 2) / (w as int),
                h as int * max_w as int + w as int / 2 < (h as int + 1) * w as int,
                w > 0,
        ;
        (max_w, if nh < 1 {
            1
        } else {
            nh as u32
        })
    } else {
        (w, h)
    }
}

/// How many palette alpha values a PNG keeps: up to the last one that is not
/// fully opaque (trailing opaque entries may be left out).
pub open spec fn spec_trns_len(alpha: Seq<u8>) -> nat
    decreases alpha.len(),
{
    if alpha.len() == 0 {
        0
    } else if alpha.last() != 255 {
        alpha.len()
    } else {
        spec_trns_len(alpha.drop_last())
    }
}

/// The length of the palette transparency table to write.
pub fn trns_len(alpha: &[u8]) -> (r: usize)
    ensures
        r == spec_trns_len(alpha@),
        r <= alpha@.len(),
{
    let mut n = alpha.len();
    assert(alpha@.take(n as int) =~= alpha@);
    while n > 0
        invariant
            n <= alpha@.len(),
            spec_trns_len(alpha@) == spec_trns_len(alpha@.take(n as int)),
        decreases n,
    {
        assert(alpha@.take(n as int).drop_last() =~= alpha@.take(n as int - 1));
        if alpha[n - 1] != 255 {
            return n;
        }
        n -= 1;
    }
    n
}

/// The extension a re-encoded image takes: an opaque PNG that is not the cover
/// becomes a JPEG (`jpg`); a PNG with transparency, the cover and JPEGs keep
/// their format and name (`None`).
pub open spec fn spec_reencode_ext(is_png: bool, is_cover: bool, has_alpha: bool) -> Option<Seq<char>> {
    if is_png && !has_alpha && !is_cover {
        Some("jpg"@)
    } else {
        None
    }
}

/// The new extension of a shrunk image entry, if it changes format.
pub fn reencode_ext(is_png: bool, is_cover: bool, has_alpha: bool) -> (r: Option<&'static str>)
    ensures
        match r {
            Some(e) => spec_reencode_ext(is_png, is_cover, has_alpha) == Some(e@),
            None => spec_reencode_ext(is_png, is_cover, has_alpha) is None,
        },
{
    if is_png && !has_alpha && !is_cover {
        Some("jpg")
    } else {
        None
    }
}

/// Does any pixel of RGBA data have an alpha below 255?
pub open spec fn spec_has_alpha(rgba: Seq<u8>) -> bool {
    exists|i: int| 0 <= i < rgba.len() / 4 && #[trigger] rgba[4 * i + 3] != 255
}

/// Whether an RGBA image (four bytes per pixel; a trailing partial pixel is
/// ignored) has any transparency.
pub fn has_alpha(rgba: &[u8]) -> (r: bool)
    ensures
        r == spec_has_alpha(rgba@),
{
    let len = rgba.len();
    let n = len / 4;
    let mut i: usize = 0;
    while i < n
        invariant
            len == rgba@.len(),
            0 <= i <= n,
            n == rgba@.len() / 4,
            forall|k: int| 0 <= k < i ==> #[trigger] rgba@[4 * k + 3] == 255,
        decreases n - i,
    {
        assert(4 * i + 3 < rgba@.len()) by (nonlinear_arith)
            requires
                i < n,
                n == rgba@.len() / 4,
        ;
        assert(4 * i + 3 < len);
        if rgba[4 * i + 3] != 255 {
            return true;
        }
        i += 1;
    }
    false
}

/// A zip entry as the repacking reads it: name and whether it is a directory.
pub open spec fn is_mimetype(n: Seq<char>) -> bool {
    n == "mimetype"@
}

/// The first entry named `mimetype`.
pub open spec fn first_mimetype(es: Seq<(Seq<char>, bool)>, from: int) -> Option<int>
    decreases es.len() - from,
{
    if from < 0 || from >= es.len() {
        None
    } else if is_mimetype(es[from].0) {
        Some(from)
    } else {
        first_mimetype(es, from + 1)
    }
}

/// `s` without its trailing `/`s (`str::trim_end_matches('/')`).
pub open spec fn trim_slashes(s: Seq<char>) -> Seq<char>
    decreases s.len(),
{
    if s.len() > 0 && s.last() == '/' {
        trim_slashes(s.drop_last())
    } else {
        s
    }
}

/// The other entries in order, as (index, name to write, is a directory):
/// directories are written without their trailing `/`.
pub open spec fn rest_entries(es: Seq<(Seq<char>, bool)>, n: int) -> Seq<(int, Seq<char>, bool)>
    decreases n,
{
    if n <= 0 || n > es.len() {
        seq![]
    } else {
        let prev = rest_entries(es, n - 1);
        let e = es[n - 1];
        if is_mimetype(e.0) {
            prev
        } else {
            prev.push((n - 1, if e.1 {
                trim_slashes(e.0)
            } else {
                e.0
            }, e.1))
        }
    }
}

/// The order an EPUB is repacked in: the first `mimetype` entry first (stored
/// uncompressed), then every other entry in its original order (compressed).
pub open spec fn spec_repack_order(es: Seq<(Seq<char>, bool)>) -> (Option<int>, Seq<(int, Seq<char>, bool)>) {
    (first_mimetype(es, 0), rest_entries(es, es.len() as int))
}

/// Entries as plain values.
pub open spec fn flags_of(es: Seq<(String, bool)>) -> Seq<(Seq<char>, bool)> {
    es.map_values(|e: (String, bool)| (e.0@, e.1))
}

/// Rest entries as plain values.
pub open spec fn rest_of(v: Seq<(usize, String, bool)>) -> Seq<(int, Seq<char>, bool)> {
    v.map_values(|e: (usize, String, bool)| (e.0 as int, e.1@, e.2))
}

fn trim_slashes_exec(v: &Vec<char>) -> (r: Vec<char>)
    ensures
        r@ == trim_slashes(v@),
{
    let mut n = v.len();
    assert(v@.take(n as int) =~= v@);
    while n > 0 && v[n - 1] == '/'
        invariant
            n <= v@.len(),
            trim_slashes(v@) == trim_slashes(v@.take(n as int)),
        decreases n,
    {
        assert(v@.take(n as int).drop_last() =~= v@.take(n as int - 1));
        n -= 1;
    }
    sub_vec(v, 0, n)
}

/// Plan the repacking of an EPUB's entries (name, is a directory).
pub fn repack_order(entries: &Vec<(String, bool)>) -> (r: (Option<usize>, Vec<(usize, String, bool)>))
    ensures
        (match r.0 {
            Some(i) => Some(i as int),
            None => None,
        }) == spec_repack_order(flags_of(entries@)).0,
        rest_of(r.1@) == spec_repack_order(flags_of(entries@)).1,
{
    let ghost es = flags_of(entries@);
    let mut first: Option<usize> = None;
    let mut rest: Vec<(usize, String, bool)> = Vec::new();
    let mut i: usize = 0;
    while i < entries.len()
        invariant
            0 <= i <= entries@.len(),
            es == flags_of(entries@),
            match first {
                Some(k) => first_mimetype(es, 0) == Some(k as int),
                None => first_mimetype(es, 0) == first_mimetype(es, i as int),
            },
            rest_of(rest@) == rest_entries(es, i as int),
        decreases entries@.len() - i,
    {
        let name = chars_of(entries[i].0.as_str());
        let mime = crate::text::eq_str(&name, "mimetype");
        if mime {
            if first.is_none() {
                first = Some(i);
            }
        } else {
            let written = if entries[i].1 {
                string_of(&trim_slashes_exec(&name))
            } else {
                string_of(&name)
            };
            let ghost before = rest_of(rest@);
            rest.push((i, written, entries[i].1));
            assert(rest_of(rest@) =~= before.push((i as int, written@, entries@[i as int].1)));
        }
        i += 1;
    }
    proof {
        if first is None {
            assert(first_mimetype(es, entries@.len() as int) is None);
        }
    }
    (first, rest)
}

// ---------------------------------------------------------------------------
// Laws
// ---------------------------------------------------------------------------

/// A base name holds no `/`.
pub proof fn law_basename_has_no_slash(name: Seq<char>)
    ensures
        !spec_basename(name).contains('/'),
{
    lemma_rfind_char(name, '/', name.len() as int);
    let b = spec_basename(name);
    if b.contains('/') {
        let k = choose|k: int| 0 <= k < b.len() && b[k] == '/';
        match rfind_char(name, '/', name.len() as int) {
            Some(i) => assert(name[i + 1 + k] == '/'),
            None => assert(name[k] == '/'),
        }
    }
}

/// A swapped name ends with the new extension after a dot.
pub proof fn law_swap_ext_suffix(name: Seq<char>, ext: Seq<char>)
    ensures
        ends_with(spec_swap_ext(name, ext), "."@ + ext),
{
    let r = spec_swap_ext(name, ext);
    let t = "."@ + ext;
    assert(r.skip(r.len() - t.len()) =~= t);
}

/// With no renamed images, the package document is left exactly as it was.
pub proof fn law_no_renames_keeps_opf(s: Seq<char>, from: int)
    requires
        0 <= from <= s.len(),
    ensures
        rewrite_items(s, from, seq![]) == s.skip(from),
    decreases s.len() - from,
{
    lemma_item_tag_from(s, from);
    match item_tag_from(s, from) {
        None => {},
        Some((a, e)) => {
            let tag = s.subrange(a, e + 1);
            assert(rewrite_item(tag, seq![]) == tag);
            law_no_renames_keeps_opf(s, e + 1);
            assert(s.subrange(from, a) + tag + s.skip(e + 1) =~= s.skip(from));
        },
    }
}

/// Shrinking never makes an image wider or (for a non-empty image) taller.
pub proof fn law_fit_never_enlarges(w: u32, h: u32, max_w: u32)
    requires
        h >= 1,
    ensures
        spec_fit_width(w, h, max_w).0 <= w,
        spec_fit_width(w, h, max_w).1 <= h,
        spec_fit_width(w, h, max_w).0 <= max_w || spec_fit_width(w, h, max_w).0 == w,
{
    if w > max_w {
        assert(h as int * max_w as int <= h as int * w as int) by (nonlinear_arith)
            requires
                max_w < w,
                0 <= h,
        ;
        assert(h as int * max_w as int + w as int / 2 < (h as int + 1) * w as int) by (nonlinear_arith)
            requires
                h as int * max_w as int <= h as int * w as int,
                w > 0,
        ;
        assert((h as int * max_w as int + w as int / 2) / (w as int) <= h) by (nonlinear_arith)
            requires
                h as int * max_w as int + w as int / 2 < (h as int + 1) * w as int,
                w > 0,
        ;
    }
}

/// The cover image is never renamed: it keeps its format whatever it holds.
pub proof fn law_cover_keeps_its_name(is_png: bool, has_alpha: bool)
    ensures
        spec_reencode_ext(is_png, true, has_alpha) is None,
{
}


// ---------------------------------------------------------------------------
// Shrinking the whole EPUB
// ---------------------------------------------------------------------------

/// Shrinking keeps every entry in its place, and the cover entry exactly as it
/// was: same name, same bytes, no rename.
pub proof fn law_cover_left_untouched(es: Seq<Plain>, cover: Seq<char>, max_w: u32, i: int)
    requires
        0 <= i < es.len(),
        es[i].0 == cover,
    ensures
        shrink_all(es, Some(cover), max_w).0.len() == es.len(),
        shrink_all(es, Some(cover), max_w).0[i] == es[i],
    decreases es.len(),
{
    lemma_shrink_all_len(es, Some(cover), max_w);
    if i < es.len() - 1 {
        law_cover_left_untouched(es.drop_last(), cover, max_w, i);
    }
}

/// Every rename's old name is the name of one of the entries.
proof fn lemma_renames_from_entries(es: Seq<Plain>, cover: Option<Seq<char>>, max_w: u32)
    ensures
        forall|i: int|
            0 <= i < shrink_all(es, cover, max_w).1.len() ==> exists|k: int|
                0 <= k < es.len() && #[trigger] shrink_all(es, cover, max_w).1[i].0 == es[k].0,
    decreases es.len(),
{
    if es.len() > 0 {
        let d = es.drop_last();
        lemma_renames_from_entries(d, cover, max_w);
        let p = shrink_all(d, cover, max_w).1;
        let r = shrink_all(es, cover, max_w).1;
        assert forall|i: int| 0 <= i < r.len() implies exists|k: int|
            0 <= k < es.len() && #[trigger] r[i].0 == es[k].0 by {
            if i < p.len() {
                assert(r[i] == p[i]);
                let k = choose|k: int| 0 <= k < d.len() && p[i].0 == d[k].0;
                assert(es[k] == d[k]);
            } else {
                assert(r[i].0 == es[es.len() - 1].0);
            }
        }
    }
}

/// Shrinking an archive whose entry names are distinct renames each entry at
/// most once: no old name occurs twice among the renames, so the list of
/// renames is a map from old names to new ones.
pub proof fn law_renames_are_distinct(es: Seq<Plain>, cover: Option<Seq<char>>, max_w: u32)
    requires
        forall|a: int, b: int| 0 <= a < b < es.len() ==> es[a].0 != es[b].0,
    ensures
        forall|a: int, b: int|
            0 <= a < b < shrink_all(es, cover, max_w).1.len() ==> shrink_all(es, cover, max_w).1[a].0
                != shrink_all(es, cover, max_w).1[b].0,
    decreases es.len(),
{
    if es.len() > 0 {
        let d = es.drop_last();
        law_renames_are_distinct(d, cover, max_w);
        lemma_renames_from_entries(d, cover, max_w);
        let p = shrink_all(d, cover, max_w).1;
        let r = shrink_all(es, cover, max_w).1;
        assert forall|a: int, b: int| 0 <= a < b < r.len() implies r[a].0 != r[b].0 by {
            if b < p.len() {
                assert(r[a] == p[a] && r[b] == p[b]);
            } else {
                assert(r[a] == p[a]);
                assert(r[b].0 == es[es.len() - 1].0);
                let k = choose|k: int| 0 <= k < d.len() && p[a].0 == d[k].0;
                assert(es[k] == d[k]);
            }
        }
    }
}

proof fn lemma_shrink_all_len(es: Seq<Plain>, cover: Option<Seq<char>>, max_w: u32)
    ensures
        shrink_all(es, cover, max_w).0.len() == es.len(),
    decreases es.len(),
{
    if es.len() > 0 {
        lemma_shrink_all_len(es.drop_last(), cover, max_w);
    }
}

/// A readable entry as plain values: name, is a directory, bytes.
pub type Plain = (Seq<char>, bool, Seq<u8>);

/// Readable entries as plain values.
pub open spec fn plains(v: Seq<(String, bool, Vec<u8>)>) -> Seq<Plain> {
    v.map_values(|e: (String, bool, Vec<u8>)| (e.0@, e.1, e.2@))
}

/// The message of the first entry whose bytes could not be read.
pub open spec fn first_read_error(es: Seq<EntryView>) -> Option<Seq<char>>
    decreases es.len(),
{
    if es.len() == 0 {
        None
    } else {
        match first_read_error(es.drop_last()) {
            Some(m) => Some(m),
            None => match es.last().2 {
                Err(m) => Some(m),
                Ok(_) => None,
            },
        }
    }
}

/// The entries with their bytes, once all were read.
pub open spec fn read_entries(es: Seq<EntryView>) -> Seq<Plain> {
    es.map_values(|e: EntryView| (e.0, e.1, match e.2 {
        Ok(d) => d,
        Err(_) => Seq::<u8>::empty(),
    }))
}

/// Names and bytes, for the cover search.
pub open spec fn named_bytes(es: Seq<Plain>) -> Seq<(Seq<char>, Seq<u8>)> {
    es.map_values(|e: Plain| (e.0, e.2))
}

/// One entry after its image, if it is one and not the cover, is shrunk; and
/// the rename it takes (old name, new name) when an opaque PNG became a JPEG.
/// The cover, and an image that does not decode or fails to encode, stay as
/// they were.
pub open spec fn shrink_entry(e: Plain, cover: Option<Seq<char>>, max_w: u32) -> (Plain, Option<(Seq<char>, Seq<char>)>) {
    let k = spec_image_kind(e.0);
    if e.1 || (!k.0 && !k.1) || cover == Some(e.0) {
        (e, None)
    } else {
        match spec_shrink_image(e.2, max_w, k.0, false) {
            Ok(Some((d, ext))) => match ext {
                Some(x) => {
                    let nn = spec_swap_ext(e.0, x);
                    if nn != e.0 {
                        ((nn, e.1, d), Some((e.0, nn)))
                    } else {
                        ((e.0, e.1, d), None)
                    }
                },
                None => ((e.0, e.1, d), None),
            },
            _ => (e, None),
        }
    }
}

/// Every entry shrunk, in order, with the renames in order.
pub open spec fn shrink_all(es: Seq<Plain>, cover: Option<Seq<char>>, max_w: u32) -> (Seq<Plain>, Seq<(Seq<char>, Seq<char>)>)
    decreases es.len(),
{
    if es.len() == 0 {
        (seq![], seq![])
    } else {
        let p = shrink_all(es.drop_last(), cover, max_w);
        let s = shrink_entry(es.last(), cover, max_w);
        (p.0.push(s.0), match s.1 {
            Some(r) => p.1.push(r),
            None => p.1,
        })
    }
}

/// One entry with its references to renamed images rewritten: the package
/// document's manifest, or the image names inside a text entry that may
/// reference images; entries that are not UTF-8 stay as they are.
pub open spec fn rewrite_entry(e: Plain, base: Seq<(Seq<char>, Seq<char>)>) -> Plain {
    let l = lower_seq(e.0);
    if e.1 {
        e
    } else if ends_with(l, ".opf"@) {
        match utf8_text(e.2) {
            Some(t) => (e.0, e.1, encode_utf8(rewrite_items(t, 0, base))),
            None => e,
        }
    } else if spec_is_text_ref(l) {
        match utf8_text(e.2) {
            Some(t) => (e.0, e.1, encode_utf8(rewrite_refs_spec(t, base))),
            None => e,
        }
    } else {
        e
    }
}

/// Every entry rewritten for the renames (nothing changes without any).
pub open spec fn rewrite_all(es: Seq<Plain>, renames: Seq<(Seq<char>, Seq<char>)>) -> Seq<Plain> {
    if renames.len() == 0 {
        es
    } else {
        es.map_values(|e: Plain| rewrite_entry(e, spec_renamed_bases(renames)))
    }
}

/// What is written, in order: the first `mimetype` entry stored, then every
/// other entry compressed (directories as directories).
pub open spec fn staged_for(es: Seq<Plain>) -> Seq<(Put, Seq<char>, Seq<u8>)> {
    let plan = spec_repack_order(es.map_values(|e: Plain| (e.0, e.1)));
    let head = match plan.0 {
        Some(k) => seq![(Put::Stored, "mimetype"@, es[k].2)],
        None => Seq::<(Put, Seq<char>, Seq<u8>)>::empty(),
    };
    head + plan.1.map_values(|r: (int, Seq<char>, bool)| put_entry(es, r))
}

/// How one planned entry is written: a directory, or a compressed file with
/// the bytes of the entry it comes from.
pub open spec fn put_entry(es: Seq<Plain>, r: (int, Seq<char>, bool)) -> (Put, Seq<char>, Seq<u8>) {
    if r.2 {
        (Put::Dir, r.1, Seq::<u8>::empty())
    } else {
        (Put::Deflated, r.1, es[r.0].2)
    }
}

/// The shrunk EPUB: read every entry, find the cover, shrink the images,
/// rewrite references to renamed ones, pack again.
pub open spec fn spec_shrink_epub(bytes: Seq<u8>, max_w: u32) -> Result<Seq<u8>, Seq<char>> {
    match zip_listing(bytes) {
        Err(m) => Err(m),
        Ok(es) => match first_read_error(es) {
            Some(m) => Err(m),
            None => {
                let ents = read_entries(es);
                let sh = shrink_all(ents, spec_find_cover(named_bytes(ents)), max_w);
                zip_bytes(staged_for(rewrite_all(sh.0, sh.1)))
            },
        },
    }
}

fn copy_bytes(v: &[u8]) -> (r: Vec<u8>)
    ensures
        r@ == v@,
{
    let mut r: Vec<u8> = Vec::new();
    let mut i: usize = 0;
    while i < v.len()
        invariant
            0 <= i <= v@.len(),
            r@ =~= v@.take(i as int),
        decreases v@.len() - i,
    {
        r.push(v[i]);
        i += 1;
    }
    assert(v@.take(v@.len() as int) =~= v@);
    r
}

/// The entries of an archive with their bytes, or the first read error.
fn readable_entries(es: &Vec<ZipEntry>) -> (r: Result<Vec<(String, bool, Vec<u8>)>, String>)
    ensures
        match first_read_error(entries_view(es@)) {
            Some(m) => r is Err && r->Err_0@ == m,
            None => r is Ok && plains(r->Ok_0@) == read_entries(entries_view(es@)),
        },
{
    let ghost ev = entries_view(es@);
    let mut out: Vec<(String, bool, Vec<u8>)> = Vec::new();
    let mut i: usize = 0;
    while i < es.len()
        invariant
            0 <= i <= es@.len(),
            ev == entries_view(es@),
            first_read_error(ev.take(i as int)) is None,
            plains(out@) =~= read_entries(ev.take(i as int)),
        decreases es@.len() - i,
    {
        assert(ev.take(i as int + 1).drop_last() =~= ev.take(i as int));
        assert(ev.take(i as int + 1).last() == ev[i as int]);
        let e = &es[i];
        match &e.data {
            Err(m) => {
                proof {
                    lemma_first_error_prefix(ev, i as int + 1);
                }
                return Err(copy_string(m.as_str()));
            },
            Ok(d) => {
                let ghost before = plains(out@);
                out.push((copy_string(e.name.as_str()), e.is_dir, copy_bytes(d.as_slice())));
                assert(ev[i as int] == entry_view(es@[i as int]));
                assert(plains(out@) =~= before.push((e.name@, e.is_dir, d@)));
                assert(read_entries(ev.take(i as int + 1)) =~= read_entries(ev.take(i as int)).push(
                    (e.name@, e.is_dir, d@),
                ));
            },
        }
        i += 1;
    }
    assert(ev.take(es@.len() as int) =~= ev);
    Ok(out)
}

proof fn lemma_first_error_prefix(es: Seq<EntryView>, n: int)
    requires
        0 <= n <= es.len(),
        first_read_error(es.take(n)) is Some,
    ensures
        first_read_error(es) == first_read_error(es.take(n)),
    decreases es.len() - n,
{
    if n < es.len() {
        assert(es.take(n + 1).drop_last() =~= es.take(n));
        lemma_first_error_prefix(es, n + 1);
    } else {
        assert(es.take(n) =~= es);
    }
}

fn shrink_one(e: &(String, bool, Vec<u8>), cover: &Option<String>, max_w: u32) -> (r: (
    (String, bool, Vec<u8>),
    Option<(String, String)>,
))
    ensures
        (r.0.0@, r.0.1, r.0.2@) == shrink_entry((e.0@, e.1, e.2@), opt_view(*cover), max_w).0,
        match r.1 {
            Some(p) => shrink_entry((e.0@, e.1, e.2@), opt_view(*cover), max_w).1 == Some((p.0@, p.1@)),
            None => shrink_entry((e.0@, e.1, e.2@), opt_view(*cover), max_w).1 is None,
        },
{
    let name = e.0.as_str();
    let same = (copy_string(name), e.1, copy_bytes(e.2.as_slice()));
    if e.1 {
        return (same, None);
    }
    let (is_png, is_jpg) = image_kind(name);
    if !is_png && !is_jpg {
        return (same, None);
    }
    let is_cover = match cover {
        Some(c) => eq_str(&chars_of(c.as_str()), name),
        None => false,
    };
    assert(is_cover == (opt_view(*cover) == Some(e.0@)));
    if is_cover {
        return (same, None);
    }
    let res = shrink_image(e.2.as_slice(), max_w, is_png, false);
    match res {
        Ok(Some((d, ext))) => match ext {
            Some(x) => {
                let nn = swap_ext(name, x.as_str());
                if !eq_str(&chars_of(nn.as_str()), name) {
                    let old = copy_string(name);
                    let nn2 = copy_string(nn.as_str());
                    ((nn, e.1, d), Some((old, nn2)))
                } else {
                    ((copy_string(name), e.1, d), None)
                }
            },
            None => ((copy_string(name), e.1, d), None),
        },
        _ => (same, None),
    }
}

fn shrink_entries(ents: &Vec<(String, bool, Vec<u8>)>, cover: &Option<String>, max_w: u32) -> (r: (
    Vec<(String, bool, Vec<u8>)>,
    Vec<(String, String)>,
))
    ensures
        plains(r.0@) == shrink_all(plains(ents@), opt_view(*cover), max_w).0,
        pairs_of(r.1@) == shrink_all(plains(ents@), opt_view(*cover), max_w).1,
{
    let ghost es = plains(ents@);
    let mut out: Vec<(String, bool, Vec<u8>)> = Vec::new();
    let mut renames: Vec<(String, String)> = Vec::new();
    let mut i: usize = 0;
    while i < ents.len()
        invariant
            0 <= i <= ents@.len(),
            es == plains(ents@),
            plains(out@) =~= shrink_all(es.take(i as int), opt_view(*cover), max_w).0,
            pairs_of(renames@) =~= shrink_all(es.take(i as int), opt_view(*cover), max_w).1,
        decreases ents@.len() - i,
    {
        assert(es.take(i as int + 1).drop_last() =~= es.take(i as int));
        assert(es.take(i as int + 1).last() == es[i as int]);
        let (e, rn) = shrink_one(&ents[i], cover, max_w);
        out.push(e);
        match rn {
            Some(p) => {
                renames.push(p);
            },
            None => {},
        }
        i += 1;
    }
    assert(es.take(ents@.len() as int) =~= es);
    (out, renames)
}

fn rewrite_one(e: &(String, bool, Vec<u8>), base: &Vec<(String, String)>) -> (r: (String, bool, Vec<u8>))
    ensures
        (r.0@, r.1, r.2@) == rewrite_entry((e.0@, e.1, e.2@), pairs_of(base@)),
{
    let name = copy_string(e.0.as_str());
    if e.1 {
        return (name, e.1, copy_bytes(e.2.as_slice()));
    }
    let l = lower_vec(&chars_of(e.0.as_str()));
    if finishes(&l, ".opf") {
        match from_utf8(e.2.as_slice()) {
            Some(t) => {
                let out = rewrite_opf(t.as_str(), base);
                (name, e.1, out.as_str().as_bytes_vec())
            },
            None => (name, e.1, copy_bytes(e.2.as_slice())),
        }
    } else if is_text_ref(string_of(&l).as_str()) {
        match from_utf8(e.2.as_slice()) {
            Some(t) => {
                let out = rewrite_refs(t.as_str(), base);
                (name, e.1, out.as_str().as_bytes_vec())
            },
            None => (name, e.1, copy_bytes(e.2.as_slice())),
        }
    } else {
        (name, e.1, copy_bytes(e.2.as_slice()))
    }
}

fn rewrite_entries(ents: &Vec<(String, bool, Vec<u8>)>, renames: &Vec<(String, String)>) -> (r: Vec<(String, bool, Vec<u8>)>)
    ensures
        plains(r@) == rewrite_all(plains(ents@), pairs_of(renames@)),
{
    if renames.len() == 0 {
        let mut same: Vec<(String, bool, Vec<u8>)> = Vec::new();
        let mut i: usize = 0;
        while i < ents.len()
            invariant
                0 <= i <= ents@.len(),
                plains(same@) =~= plains(ents@).take(i as int),
            decreases ents@.len() - i,
        {
            let ghost before = plains(same@);
            same.push((copy_string(ents[i].0.as_str()), ents[i].1, copy_bytes(ents[i].2.as_slice())));
            assert(plains(same@) =~= before.push((ents@[i as int].0@, ents@[i as int].1, ents@[i as int].2@)));
            i += 1;
        }
        assert(plains(ents@).take(ents@.len() as int) =~= plains(ents@));
        return same;
    }
    let base = renamed_bases(renames);
    let ghost es = plains(ents@);
    let ghost m = spec_renamed_bases(pairs_of(renames@));
    let mut out: Vec<(String, bool, Vec<u8>)> = Vec::new();
    let mut i: usize = 0;
    while i < ents.len()
        invariant
            0 <= i <= ents@.len(),
            es == plains(ents@),
            pairs_of(base@) == m,
            plains(out@) =~= es.take(i as int).map_values(|e: Plain| rewrite_entry(e, m)),
        decreases ents@.len() - i,
    {
        let ghost before = plains(out@);
        let r = rewrite_one(&ents[i], &base);
        out.push(r);
        assert(es[i as int] == (ents@[i as int].0@, ents@[i as int].1, ents@[i as int].2@));
        assert(plains(out@) =~= before.push((r.0@, r.1, r.2@)));
        assert(es.take(i as int + 1).map_values(|e: Plain| rewrite_entry(e, m)) =~= es.take(i as int).map_values(
            |e: Plain| rewrite_entry(e, m),
        ).push(rewrite_entry(es[i as int], m)));
        i += 1;
    }
    assert(es.take(ents@.len() as int) =~= es);
    out
}

/// Pack entries again (see `staged_for`): the archive's bytes, or the first
/// error writing it gives.
fn repack(ents: &Vec<(String, bool, Vec<u8>)>) -> (r: Result<Vec<u8>, String>)
    ensures
        match r {
            Ok(v) => zip_bytes(staged_for(plains(ents@))) == Ok::<Seq<u8>, Seq<char>>(v@),
            Err(m) => zip_bytes(staged_for(plains(ents@))) == Err::<Seq<u8>, Seq<char>>(m@),
        },
{
    let ghost es = plains(ents@);
    let mut flags: Vec<(String, bool)> = Vec::new();
    let mut i: usize = 0;
    while i < ents.len()
        invariant
            0 <= i <= ents@.len(),
            es == plains(ents@),
            flags_of(flags@) =~= es.take(i as int).map_values(|e: Plain| (e.0, e.1)),
        decreases ents@.len() - i,
    {
        let ghost before = flags_of(flags@);
        flags.push((copy_string(ents[i].0.as_str()), ents[i].1));
        assert(flags_of(flags@) =~= before.push((ents@[i as int].0@, ents@[i as int].1)));
        assert(es.take(i as int + 1).map_values(|e: Plain| (e.0, e.1)) =~= es.take(i as int).map_values(
            |e: Plain| (e.0, e.1),
        ).push((es[i as int].0, es[i as int].1)));
        i += 1;
    }
    assert(es.take(ents@.len() as int) =~= es);
    let (first, rest) = repack_order(&flags);
    let ghost fl = es.map_values(|e: Plain| (e.0, e.1));
    let ghost plan = spec_repack_order(fl);
    proof {
        lemma_first_mimetype_range(fl, 0);
        lemma_rest_entries_range(fl, fl.len() as int);
        assert(flags_of(flags@) =~= fl);
    }
    let mut b = zip_builder();
    let ghost head = match plan.0 {
        Some(k) => seq![(Put::Stored, "mimetype"@, es[k].2)],
        None => Seq::<(Put, Seq<char>, Seq<u8>)>::empty(),
    };
    match first {
        Some(k) => {
            let r = zip_put_stored(&mut b, "mimetype", ents[k].2.as_slice());
            match r {
                Ok(_) => {},
                Err(m) => {
                    proof {
                        let tail = plan.1.map_values(|r: (int, Seq<char>, bool)| put_entry(es, r));
                        let e = (Put::Stored, "mimetype"@, es[k as int].2);
                        assert(staged_for(es) =~= Seq::<(Put, Seq<char>, Seq<u8>)>::empty().push(e) + tail);
                        assert(zip_bytes(Seq::<(Put, Seq<char>, Seq<u8>)>::empty().push(e) + tail) == Err::<
                            Seq<u8>,
                            Seq<char>,
                        >(m@));
                    }
                    return Err(m);
                },
            }
        },
        None => {},
    }
    assert(zip_staged(b) =~= head);
    let ghost tail = plan.1.map_values(|r: (int, Seq<char>, bool)| put_entry(es, r));
    assert(staged_for(es) =~= head + tail);
    let mut j: usize = 0;
    while j < rest.len()
        invariant
            0 <= j <= rest@.len(),
            es == plains(ents@),
            rest_of(rest@) == plan.1,
            forall|x: int| 0 <= x < plan.1.len() ==> 0 <= (#[trigger] plan.1[x]).0 < es.len(),
            tail == plan.1.map_values(|r: (int, Seq<char>, bool)| put_entry(es, r)),
            zip_staged(b) =~= head + tail.take(j as int),
            staged_for(es) == head + tail,
        decreases rest@.len() - j,
    {
        let (idx, ref name, dir) = rest[j];
        assert(rest_of(rest@)[j as int] == (idx as int, name@, dir));
        assert(plan.1[j as int] == (idx as int, name@, dir));
        assert(idx < ents@.len());
        assert(es[idx as int] == (ents@[idx as int].0@, ents@[idx as int].1, ents@[idx as int].2@));
        assert(tail[j as int] == put_entry(es, plan.1[j as int]));
        let r = if dir {
            zip_put_dir(&mut b, name.as_str())
        } else {
            zip_put_deflated(&mut b, name.as_str(), ents[idx].2.as_slice())
        };
        match r {
            Ok(_) => {},
            Err(m) => {
                proof {
                    let rest_t = tail.skip(j as int + 1);
                    assert(staged_for(es) =~= (head + tail.take(j as int)).push(tail[j as int]) + rest_t);
                    assert(zip_bytes((head + tail.take(j as int)).push(tail[j as int]) + rest_t) == Err::<
                        Seq<u8>,
                        Seq<char>,
                    >(m@));
                }
                return Err(m);
            },
        }
        assert(head + tail.take(j as int + 1) =~= (head + tail.take(j as int)).push(tail[j as int]));
        j += 1;
    }
    assert(tail.take(rest@.len() as int) =~= tail);
    assert(zip_staged(b) =~= staged_for(es));
    zip_finish(b)
}

proof fn lemma_rest_entries_range(es: Seq<(Seq<char>, bool)>, n: int)
    ensures
        forall|x: int| 0 <= x < rest_entries(es, n).len() ==> 0 <= (#[trigger] rest_entries(es, n)[x]).0 < n,
    decreases n,
{
    if n > 0 && n <= es.len() {
        lemma_rest_entries_range(es, n - 1);
        let prev = rest_entries(es, n - 1);
        assert forall|x: int| 0 <= x < rest_entries(es, n).len() implies 0 <= (#[trigger] rest_entries(
            es,
            n,
        )[x]).0 < n by {
            if x < prev.len() {
                assert(rest_entries(es, n)[x] == prev[x]);
            }
        }
    }
}

proof fn lemma_first_mimetype_range(es: Seq<(Seq<char>, bool)>, from: int)
    ensures
        first_mimetype(es, from) matches Some(k) ==> 0 <= k < es.len(),
    decreases es.len() - from,
{
    if 0 <= from < es.len() && !is_mimetype(es[from].0) {
        lemma_first_mimetype_range(es, from + 1);
    }
}

/// Shrink the images of an EPUB (its bytes), each to at most `max_w` pixels
/// wide: the archive that results (see `spec_shrink_epub`). Reading errors
/// come back as they are; an error from writing the new archive is the `zip`
/// crate's.
pub fn shrink_epub(epub: &[u8], max_w: u32) -> (r: Result<Vec<u8>, String>)
    ensures
        match r {
            Ok(v) => spec_shrink_epub(epub@, max_w) == Ok::<Seq<u8>, Seq<char>>(v@),
            Err(m) => spec_shrink_epub(epub@, max_w) == Err::<Seq<u8>, Seq<char>>(m@),
        },
        zip_listing(epub@) matches Err(m) ==> r == Err::<Vec<u8>, String>(r->Err_0) && r->Err_0@ == m,
        zip_listing(epub@) matches Ok(es) ==> (first_read_error(es) matches Some(m) ==> r is Err && r->Err_0@ == m),
{
    let listing = match read_zip(epub) {
        Err(m) => return Err(m),
        Ok(v) => v,
    };
    let ents = match readable_entries(&listing) {
        Err(m) => return Err(m),
        Ok(v) => v,
    };
    let ghost es = plains(ents@);
    let mut named: Vec<(String, Vec<u8>)> = Vec::new();
    let mut i: usize = 0;
    while i < ents.len()
        invariant
            0 <= i <= ents@.len(),
            es == plains(ents@),
            plain_entries(named@) =~= named_bytes(es.take(i as int)),
        decreases ents@.len() - i,
    {
        let ghost before = plain_entries(named@);
        named.push((copy_string(ents[i].0.as_str()), copy_bytes(ents[i].2.as_slice())));
        assert(plain_entries(named@) =~= before.push((ents@[i as int].0@, ents@[i as int].2@)));
        assert(named_bytes(es.take(i as int + 1)) =~= named_bytes(es.take(i as int)).push(
            (es[i as int].0, es[i as int].2),
        ));
        i += 1;
    }
    assert(es.take(ents@.len() as int) =~= es);
    let cover = find_cover_image(&named);
    let ghost c = spec_find_cover(named_bytes(es));
    assert(opt_view(cover) == c);
    let (shrunk, renames) = shrink_entries(&ents, &cover, max_w);
    let rewritten = rewrite_entries(&shrunk, &renames);
    repack(&rewritten)
}
} // verus!
