//! EPUB content documents.
//!
//! Each chapter's markdown is cleaned (HTML comments removed, `{.spot}`
//! tailpiece images dropped, pandoc `{…}` attribute blocks stripped from
//! headings and images), rendered to XHTML with `comrak`, optionally given
//! visible plate captions, and wrapped in a complete XHTML5 document. The first
//! level-1 heading titles the chapter in the navigation.
use vstd::prelude::*;
use vstd::string::StrSliceExecFns;
use vstd::utf8::encode_utf8;
use crate::a11y::{attr_value_of, spec_attr_value};
use crate::zipfile::{zip_listing, EntryView};
use crate::paths::{extension_of, name_extension, opt_view, path_extension, path_file_name, file_name_of};
use crate::text::{
    copy_string, chars_of, concat_map, contains, contains_str, dec, dec_chars, ends_with, find, find_c, find_char,
    find_from, finishes, begins, lemma_concat_map_push, lemma_find_char, lemma_find_from,
    lemma_rfind_char, lines, lines_of, lower, lower_seq, match_at, push_slice, push_str, rfind_c,
    rfind_char, starts_with, strip_comments, strip_html_comments, string_of, sub_vec, trim,
    trim_end, trim_start, trimmed, trimmed_end, trimmed_start, views,
};
use crate::typst::{char_run, char_run_of};

verus! {

// ---------------------------------------------------------------------------
// Attribute blocks
// ---------------------------------------------------------------------------

/// The inner text of a trailing `{ … }` attribute block, if the line (trailing
/// whitespace aside) ends with one.
pub open spec fn spec_attr_block(line: Seq<char>) -> Option<Seq<char>> {
    let s = trim_end(line);
    if !ends_with(s, "}"@) {
        None
    } else {
        match rfind_char(s, '{', s.len() as int) {
            None => None,
            Some(o) => Some(s.subrange(o + 1, s.len() - 1)),
        }
    }
}

fn attr_block_of(line: &[char]) -> (r: Option<Vec<char>>)
    ensures
        match r {
            Some(v) => spec_attr_block(line@) == Some(v@),
            None => spec_attr_block(line@) is None,
        },
{
    let s = trimmed_end(line);
    if !finishes(&s, "}") {
        return None;
    }
    proof {
        reveal_strlit("}");
        lemma_rfind_char(s@, '{', s@.len() as int);
    }
    match rfind_c(&s, '{', s.len()) {
        None => None,
        Some(o) => {
            assert(s@[s@.len() - 1] == '}') by {
                assert(s@.skip(s@.len() - 1) =~= "}"@);
                assert(s@.skip(s@.len() - 1)[0] == s@[s@.len() - 1]);
            }
            Some(sub_vec(&s, o + 1, s.len() - 1))
        },
    }
}

/// The inner text of a trailing `{ … }` attribute block.
pub fn attr_block(line: &str) -> (r: Option<String>)
    ensures
        opt_view(r) == spec_attr_block(line@),
{
    match attr_block_of(&chars_of(line)) {
        Some(v) => Some(string_of(&v)),
        None => None,
    }
}

/// A line without its trailing `{ … }` attribute block (and the whitespace
/// before it); trailing whitespace is dropped in any case.
pub open spec fn spec_strip_attr_block(line: Seq<char>) -> Seq<char> {
    let s = trim_end(line);
    if ends_with(s, "}"@) {
        match rfind_char(s, '{', s.len() as int) {
            Some(o) => trim_end(s.take(o)),
            None => s,
        }
    } else {
        s
    }
}

fn strip_attr_block_of(line: &[char]) -> (v: Vec<char>)
    ensures
        v@ == spec_strip_attr_block(line@),
{
    let s = trimmed_end(line);
    if finishes(&s, "}") {
        proof {
            lemma_rfind_char(s@, '{', s@.len() as int);
        }
        match rfind_c(&s, '{', s.len()) {
            Some(o) => {
                let head = sub_vec(&s, 0, o);
                assert(head@ =~= s@.take(o as int));
                return trimmed_end(&head);
            },
            None => {},
        }
    }
    s
}

/// Drop a trailing `{ … }` attribute block from a line, keeping its indentation.
pub fn strip_attr_block(line: &str) -> (r: String)
    ensures
        r@ == spec_strip_attr_block(line@),
{
    string_of(&strip_attr_block_of(&chars_of(line)))
}

/// Does the line carry an attribute block naming `.spot`?
pub open spec fn spec_is_spot_image(line: Seq<char>) -> bool {
    match spec_attr_block(line) {
        Some(a) => contains(a, ".spot"@),
        None => false,
    }
}

fn is_spot_image_of(line: &[char]) -> (r: bool)
    ensures
        r == spec_is_spot_image(line@),
{
    match attr_block_of(line) {
        Some(a) => contains_str(&a, ".spot"),
        None => false,
    }
}

/// True if a standalone image line carries a `{… .spot …}` attribute block.
pub fn is_spot_image(line: &str) -> (r: bool)
    ensures
        r == spec_is_spot_image(line@),
{
    is_spot_image_of(&chars_of(line))
}

// ---------------------------------------------------------------------------
// Cleaning a chapter
// ---------------------------------------------------------------------------

/// What a cleaned chapter keeps of one line: nothing for a `.spot` image; a
/// heading or image line without its attribute block; any other line as is.
/// Each kept line ends with a newline.
pub open spec fn line_out(line: Seq<char>) -> Seq<char> {
    let t = trim_start(line);
    if starts_with(t, "!["@) && spec_is_spot_image(t) {
        seq![]
    } else if starts_with(t, "#"@) || starts_with(t, "!["@) {
        spec_strip_attr_block(line) + "\n"@
    } else {
        line + "\n"@
    }
}

/// The title a line offers the navigation: the text of a level-1 heading
/// (attribute block stripped), when it is not blank.
pub open spec fn line_title(line: Seq<char>) -> Option<Seq<char>> {
    let t = trim_start(line);
    if starts_with(t, "#"@) {
        let st = trim_start(spec_strip_attr_block(line));
        let level = char_run(st, '#', 0);
        let text = trim(st.skip(level as int));
        if level == 1 && text.len() > 0 {
            Some(text)
        } else {
            None
        }
    } else {
        None
    }
}

/// The cleaned text of a sequence of lines.
pub open spec fn clean_text(ls: Seq<Seq<char>>) -> Seq<char>
    decreases ls.len(),
{
    if ls.len() == 0 {
        seq![]
    } else {
        clean_text(ls.drop_last()) + line_out(ls.last())
    }
}

/// The first title any of the lines offers.
pub open spec fn nav_title(ls: Seq<Seq<char>>) -> Option<Seq<char>>
    decreases ls.len(),
{
    if ls.len() == 0 {
        None
    } else {
        match nav_title(ls.drop_last()) {
            Some(t) => Some(t),
            None => line_title(ls.last()),
        }
    }
}

/// The cleaned chapter and its navigation title.
pub open spec fn spec_clean_chapter(md: Seq<char>) -> (Seq<char>, Option<Seq<char>>) {
    let ls = lines(strip_comments(md));
    (clean_text(ls), nav_title(ls))
}

fn line_title_of(line: &[char]) -> (r: Option<Vec<char>>)
    ensures
        match r {
            Some(v) => line_title(line@) == Some(v@),
            None => line_title(line@) is None,
        },
{
    let t = trimmed_start(line);
    if !begins(&t, "#") {
        return None;
    }
    let stripped = strip_attr_block_of(line);
    let st = trimmed_start(&stripped);
    let level = char_run_of(&st, '#');
    let rest = sub_vec(&st, level, st.len());
    assert(rest@ =~= st@.skip(level as int));
    let text = trimmed(&rest);
    if level == 1 && text.len() > 0 {
        Some(text)
    } else {
        None
    }
}

fn line_out_into(out: &mut Vec<char>, line: &[char])
    ensures
        final(out)@ == old(out)@ + line_out(line@),
{
    let ghost o0 = out@;
    let t = trimmed_start(line);
    let img = begins(&t, "![");
    if img && is_spot_image_of(&t) {
        assert(out@ =~= o0 + line_out(line@));
        return;
    }
    if begins(&t, "#") || img {
        push_slice(out, &strip_attr_block_of(line));
    } else {
        push_slice(out, line);
    }
    push_str(out, "\n");
}

/// Strip pandoc attribute blocks and drop `{.spot}` images from a chapter's
/// markdown; returns the cleaned markdown and the first level-1 heading's text.
pub fn clean_chapter(md: &str) -> (r: (String, Option<String>))
    ensures
        (r.0@, opt_view(r.1)) == spec_clean_chapter(md@),
{
    let text = strip_html_comments(&chars_of(md));
    let ls = lines_of(&text);
    let ghost L = lines(strip_comments(md@));
    assert(views(ls@) =~= L);
    let mut out: Vec<char> = Vec::new();
    let mut title: Option<Vec<char>> = None;
    let mut i: usize = 0;
    while i < ls.len()
        invariant
            0 <= i <= ls@.len(),
            views(ls@) == L,
            out@ == clean_text(L.take(i as int)),
            match title {
                Some(v) => nav_title(L.take(i as int)) == Some(v@),
                None => nav_title(L.take(i as int)) is None,
            },
        decreases ls@.len() - i,
    {
        assert(L[i as int] == ls@[i as int]@);
        assert(L.take(i as int + 1).drop_last() =~= L.take(i as int));
        line_out_into(&mut out, &ls[i]);
        if title.is_none() {
            title = line_title_of(&ls[i]);
        }
        i += 1;
    }
    assert(L.take(ls@.len() as int) =~= L);
    let t = match title {
        Some(v) => Some(string_of(&v)),
        None => None,
    };
    (string_of(&out), t)
}

// ---------------------------------------------------------------------------
// Image sources
// ---------------------------------------------------------------------------

/// The image sources of `s[i..]`: for each `![…](src)`, the trimmed `src`
/// when it is not blank.
pub open spec fn srcs_from(s: Seq<char>, i: int) -> Seq<Seq<char>>
    decreases s.len() - i,
{
    if i < 0 || i + 1 >= s.len() {
        seq![]
    } else if s[i] == '!' && s[i + 1] == '[' && find_from(s, "]("@, i + 2) is Some && find_char(
        s,
        ')',
        find_from(s, "]("@, i + 2)->0 + 2,
    ) is Some {
        let ca = find_from(s, "]("@, i + 2)->0;
        let cl = find_char(s, ')', ca + 2)->0;
        proof {
            lemma_find_from(s, "]("@, i + 2);
            lemma_find_char(s, ')', ca + 2);
        }
        let src = trim(s.subrange(ca + 2, cl));
        (if src.len() > 0 {
            seq![src]
        } else {
            seq![]
        }) + srcs_from(s, cl + 1)
    } else {
        srcs_from(s, i + 1)
    }
}

/// Every image source (`![alt](src)`) of a markdown text, in order.
pub open spec fn spec_image_srcs(md: Seq<char>) -> Seq<Seq<char>> {
    srcs_from(md, 0)
}

/// Extract every image source (`![alt](src)`) from cleaned markdown.
pub fn image_srcs(md: &str) -> (r: Vec<String>)
    ensures
        r@.map_values(|x: String| x@) == spec_image_srcs(md@),
{
    let s = chars_of(md);
    let sep = chars_of("](");
    let n = s.len();
    let mut v: Vec<String> = Vec::new();
    let mut i: usize = 0;
    while n > 0 && i < n - 1
        invariant
            n == s@.len(),
            sep@ == "]("@,
            0 <= i <= n,
            spec_image_srcs(md@) == v@.map_values(|x: String| x@) + srcs_from(s@, i as int),
            s@ == md@,
        decreases n - i,
    {
        proof {
            lemma_find_from(s@, "]("@, i + 2);
            reveal_strlit("](");
        }
        if s[i] == '!' && s[i + 1] == '[' {
            if let Some(ca) = find(&s, &sep, i + 2) {
                proof {
                    lemma_find_char(s@, ')', ca + 2);
                }
                if let Some(cl) = find_c(&s, ')', ca + 2) {
                    let inner = sub_vec(&s, ca + 2, cl);
                    let src = trimmed(&inner);
                    let ghost v0 = v@.map_values(|x: String| x@);
                    if src.len() > 0 {
                        v.push(string_of(&src));
                        assert(v@.map_values(|x: String| x@) =~= v0 + seq![src@]);
                    } else {
                        assert(v@.map_values(|x: String| x@) =~= v0 + Seq::<Seq<char>>::empty());
                    }
                    i = cl + 1;
                    continue;
                }
            }
        }
        i += 1;
    }
    assert(srcs_from(s@, i as int) =~= Seq::<Seq<char>>::empty());
    assert(v@.map_values(|x: String| x@) =~= spec_image_srcs(md@));
    v
}

/// An image source on the web.
pub open spec fn spec_is_remote(src: Seq<char>) -> bool {
    starts_with(src, "http://"@) || starts_with(src, "https://"@)
}

/// Is the image source a URL?
pub fn is_remote(src: &str) -> (r: bool)
    ensures
        r == spec_is_remote(src@),
{
    let v = chars_of(src);
    begins(&v, "http://") || begins(&v, "https://")
}

/// `Path::join` on text: an absolute `src` replaces the root; otherwise it is
/// appended with one `/` between.
pub open spec fn spec_resolve_img(root: Seq<char>, src: Seq<char>) -> Seq<char> {
    if src.len() > 0 && src[0] == '/' {
        src
    } else if root.len() == 0 {
        src
    } else if root.last() == '/' {
        root + src
    } else {
        root + "/"@ + src
    }
}

/// Resolve a markdown image source (relative to the repository root) to a path
/// on disk.
pub fn resolve_img(root: &str, src: &str) -> (r: String)
    ensures
        r@ == spec_resolve_img(root@, src@),
{
    let rv = chars_of(root);
    let sv = chars_of(src);
    if sv.len() > 0 && sv[0] == '/' {
        return string_of(&sv);
    }
    if rv.len() == 0 {
        return string_of(&sv);
    }
    let mut out = rv.clone();
    assert(out@ == rv@);
    if rv[rv.len() - 1] != '/' {
        out.push('/');
        proof {
            reveal_strlit("/");
            assert("/"@ =~= seq!['/']);
        }
    }
    push_slice(&mut out, &sv);
    assert(out@ =~= spec_resolve_img(root@, src@));
    string_of(&out)
}

// ---------------------------------------------------------------------------
// Plate captions
// ---------------------------------------------------------------------------

/// `html[c..]` with each standalone image paragraph `<p><img …/></p>` whose alt
/// text is not blank turned into a `<figure class="plate">` with that alt text
/// as a visible `<figcaption>`; everything else verbatim.
pub open spec fn figs_from(h: Seq<char>, c: int) -> Seq<char>
    decreases h.len() - c,
{
    if c < 0 || c > h.len() {
        seq![]
    } else {
        match find_from(h, "<p><img "@, c) {
            None => h.subrange(c, h.len() as int),
            Some(pos) => match find_from(h, "</p>"@, pos) {
                None => h.subrange(c, h.len() as int),
                Some(e0) => {
                    proof {
                        lemma_plate_bounds(h, c);
                    }
                    let end = e0 + 4;
                    let inner = h.subrange(pos + 3, e0);
                    h.subrange(c, pos) + (match spec_attr_value(inner, "alt"@) {
                        Some(alt) => if trim(alt).len() > 0 {
                            "<figure class=\"plate\">"@ + inner + "<figcaption>"@ + alt
                                + "</figcaption></figure>"@
                        } else {
                            h.subrange(pos, end)
                        },
                        None => h.subrange(pos, end),
                    }) + figs_from(h, end)
                },
            },
        }
    }
}

/// Where an image paragraph starts and ends, it starts at or after `c` and its
/// closing `</p>` lies at least three characters on.
pub proof fn lemma_plate_bounds(h: Seq<char>, c: int)
    requires
        0 <= c,
    ensures
        match find_from(h, "<p><img "@, c) {
            Some(pos) => c <= pos && pos + 8 <= h.len() && match find_from(h, "</p>"@, pos) {
                Some(e0) => pos + 3 <= e0 && e0 + 4 <= h.len(),
                None => true,
            },
            None => true,
        },
{
    reveal_strlit("<p><img ");
    reveal_strlit("</p>");
    lemma_find_from(h, "<p><img "@, c);
    if let Some(pos) = find_from(h, "<p><img "@, c) {
        lemma_find_from(h, "</p>"@, pos);
        assert(match_at(h, "<p><img "@, pos));
        assert(h[pos + 1] == "<p><img "@[1]);
        assert(h[pos + 2] == "<p><img "@[2]);
        if let Some(e0) = find_from(h, "</p>"@, pos) {
            assert(match_at(h, "</p>"@, e0));
            if e0 == pos {
                assert(h[e0 + 1] == "</p>"@[1]);
            } else if e0 == pos + 1 {
                assert(h[e0] == "</p>"@[0]);
            } else if e0 == pos + 2 {
                assert(h[e0] == "</p>"@[0]);
            }
        }
    }
}

/// Give standalone plate images a visible caption (their alt text).
pub open spec fn spec_figcaption_plates(html: Seq<char>) -> Seq<char> {
    figs_from(html, 0)
}

/// Turn each standalone plate-image paragraph into a `<figure class="plate">`
/// with a `<figcaption>` carrying its alt text; images with a blank alt, and
/// everything else, pass through verbatim.
pub fn figcaption_plates(html: &str) -> (r: String)
    ensures
        r@ == spec_figcaption_plates(html@),
{
    let h = chars_of(html);
    let open = chars_of("<p><img ");
    let close = chars_of("</p>");
    let alt_name = chars_of("alt");
    let n = h.len();
    let mut out: Vec<char> = Vec::new();
    let mut c: usize = 0;
    loop
        invariant
            h@ == html@,
            n == h@.len(),
            open@ == "<p><img "@,
            close@ == "</p>"@,
            alt_name@ == "alt"@,
            0 <= c <= n,
            spec_figcaption_plates(html@) == out@ + figs_from(h@, c as int),
        ensures
            h@ == html@,
            n == h@.len(),
            0 <= c <= n,
            spec_figcaption_plates(html@) == out@ + figs_from(h@, c as int),
            figs_from(h@, c as int) == h@.subrange(c as int, n as int),
        decreases n - c,
    {
        proof {
            lemma_plate_bounds(h@, c as int);
            lemma_find_from(h@, "<p><img "@, c as int);
        }
        let pos = match find(&h, &open, c) {
            None => {
                assert(figs_from(h@, c as int) == h@.subrange(c as int, n as int));
                break;
            },
            Some(p) => p,
        };
        proof {
            lemma_find_from(h@, "</p>"@, pos as int);
        }
        let e0 = match find(&h, &close, pos) {
            None => {
                assert(figs_from(h@, c as int) == h@.subrange(c as int, n as int));
                break;
            },
            Some(e) => e,
        };
        let ghost o0 = out@;
        push_slice(&mut out, &sub_vec(&h, c, pos));
        let inner = sub_vec(&h, pos + 3, e0);
        let mut done = false;
        if let Some(alt) = attr_value_of(&inner, &alt_name) {
            if trimmed(&alt).len() > 0 {
                push_str(&mut out, "<figure class=\"plate\">");
                push_slice(&mut out, &inner);
                push_str(&mut out, "<figcaption>");
                push_slice(&mut out, &alt);
                push_str(&mut out, "</figcaption></figure>");
                done = true;
            }
        }
        if !done {
            push_slice(&mut out, &sub_vec(&h, pos, e0 + 4));
        }
        assert(out@ + figs_from(h@, e0 + 4) =~= o0 + figs_from(h@, c as int));
        c = e0 + 4;
    }
    push_slice(&mut out, &sub_vec(&h, c, n));
    assert(out@ =~= spec_figcaption_plates(html@));
    string_of(&out)
}

// ---------------------------------------------------------------------------
// XHTML documents
// ---------------------------------------------------------------------------

/// One character escaped for XML.
pub open spec fn xml_char(c: char) -> Seq<char> {
    if c == '&' {
        "&amp;"@
    } else if c == '<' {
        "&lt;"@
    } else if c == '>' {
        "&gt;"@
    } else if c == '"' {
        "&quot;"@
    } else if c == '\'' {
        "&#39;"@
    } else {
        seq![c]
    }
}

/// Text escaped for XML/XHTML (`& < > " '`).
pub open spec fn spec_xml_escape(s: Seq<char>) -> Seq<char> {
    concat_map(s, |c: char| xml_char(c))
}

fn xml_escape_into(out: &mut Vec<char>, s: &[char])
    ensures
        final(out)@ == old(out)@ + spec_xml_escape(s@),
{
    let ghost o0 = out@;
    let mut i: usize = 0;
    while i < s.len()
        invariant
            0 <= i <= s@.len(),
            out@ == o0 + spec_xml_escape(s@.take(i as int)),
        decreases s@.len() - i,
    {
        let c = s[i];
        if c == '&' {
            push_str(out, "&amp;");
        } else if c == '<' {
            push_str(out, "&lt;");
        } else if c == '>' {
            push_str(out, "&gt;");
        } else if c == '"' {
            push_str(out, "&quot;");
        } else if c == '\'' {
            push_str(out, "&#39;");
        } else {
            out.push(c);
        }
        proof {
            lemma_concat_map_push(s@.take(i as int), c, |c: char| xml_char(c));
            assert(s@.take(i as int + 1) =~= s@.take(i as int).push(c));
        }
        i += 1;
    }
    assert(s@.take(s@.len() as int) =~= s@);
}

/// Escape text for XML/XHTML (`& < > " '`).
pub fn xml_escape(s: &str) -> (r: String)
    ensures
        r@ == spec_xml_escape(s@),
{
    let mut out: Vec<char> = Vec::new();
    xml_escape_into(&mut out, &chars_of(s));
    assert(out@ =~= spec_xml_escape(s@));
    string_of(&out)
}

/// A complete XHTML5 content document around a body fragment, linking the
/// shared stylesheet.
pub open spec fn spec_xhtml_doc(lang: Seq<char>, title: Seq<char>, body: Seq<char>) -> Seq<char> {
    "<?xml version=\"1.0\" encoding=\"utf-8\"?>\n<!DOCTYPE html>\n<html xmlns=\"http://www.w3.org/1999/xhtml\" xmlns:epub=\"http://www.idpf.org/2007/ops\" lang=\""@
        + spec_xml_escape(lang) + "\" xml:lang=\""@ + spec_xml_escape(lang)
        + "\">\n<head>\n<meta charset=\"utf-8\"/>\n<title>"@ + spec_xml_escape(title)
        + "</title>\n<link rel=\"stylesheet\" type=\"text/css\" href=\"stylesheet.css\"/>\n</head>\n<body>\n"@
        + body + "</body>\n</html>\n"@
}

/// Wrap an XHTML body fragment in a complete XHTML5 content document.
pub fn xhtml_doc(lang: &str, title: &str, body: &str) -> (r: String)
    ensures
        r@ == spec_xhtml_doc(lang@, title@, body@),
{
    let lv = chars_of(lang);
    let mut out: Vec<char> = Vec::new();
    push_str(
        &mut out,
        "<?xml version=\"1.0\" encoding=\"utf-8\"?>\n<!DOCTYPE html>\n<html xmlns=\"http://www.w3.org/1999/xhtml\" xmlns:epub=\"http://www.idpf.org/2007/ops\" lang=\"",
    );
    xml_escape_into(&mut out, &lv);
    push_str(&mut out, "\" xml:lang=\"");
    xml_escape_into(&mut out, &lv);
    push_str(&mut out, "\">\n<head>\n<meta charset=\"utf-8\"/>\n<title>");
    xml_escape_into(&mut out, &chars_of(title));
    push_str(
        &mut out,
        "</title>\n<link rel=\"stylesheet\" type=\"text/css\" href=\"stylesheet.css\"/>\n</head>\n<body>\n",
    );
    push_str(&mut out, body);
    push_str(&mut out, "</body>\n</html>\n");
    assert(out@ =~= spec_xhtml_doc(lang@, title@, body@));
    string_of(&out)
}

/// A book's title, subtitle, author and rights line in one language.
pub struct BookMeta {
    pub title: String,
    pub subtitle: Option<String>,
    pub author: String,
    pub rights: String,
}

/// The body of the generated title page (centred title / subtitle / author).
pub open spec fn title_body(title: Seq<char>, subtitle: Option<Seq<char>>, author: Seq<char>) -> Seq<char> {
    "<section epub:type=\"titlepage\" class=\"titlepage\">\n"@ + "<h1 class=\"title\">"@
        + spec_xml_escape(title) + "</h1>\n"@ + (match subtitle {
        Some(s) => "<p class=\"subtitle\">"@ + spec_xml_escape(s) + "</p>\n"@,
        None => seq![],
    }) + "<p class=\"author\">"@ + spec_xml_escape(author) + "</p>\n"@ + "</section>\n"@
}

/// The generated title page document.
pub open spec fn spec_title_page(
    title: Seq<char>,
    subtitle: Option<Seq<char>>,
    author: Seq<char>,
    lang: Seq<char>,
) -> Seq<char> {
    spec_xhtml_doc(lang, title, title_body(title, subtitle, author))
}

/// The generated title page (centred title / subtitle / author).
pub fn title_page(meta: &BookMeta, lang: &str) -> (r: String)
    ensures
        r@ == spec_title_page(meta.title@, opt_view(meta.subtitle), meta.author@, lang@),
{
    let mut body: Vec<char> = Vec::new();
    push_str(&mut body, "<section epub:type=\"titlepage\" class=\"titlepage\">\n");
    push_str(&mut body, "<h1 class=\"title\">");
    xml_escape_into(&mut body, &chars_of(meta.title.as_str()));
    push_str(&mut body, "</h1>\n");
    match &meta.subtitle {
        Some(sub) => {
            push_str(&mut body, "<p class=\"subtitle\">");
            xml_escape_into(&mut body, &chars_of(sub.as_str()));
            push_str(&mut body, "</p>\n");
        },
        None => {},
    }
    push_str(&mut body, "<p class=\"author\">");
    xml_escape_into(&mut body, &chars_of(meta.author.as_str()));
    push_str(&mut body, "</p>\n");
    push_str(&mut body, "</section>\n");
    assert(body@ =~= title_body(meta.title@, opt_view(meta.subtitle), meta.author@));
    let b = string_of(&body);
    xhtml_doc(lang, meta.title.as_str(), b.as_str())
}

// ---------------------------------------------------------------------------
// File names and media types
// ---------------------------------------------------------------------------

/// A file name without its extension, as `Path::file_stem` takes it.
pub open spec fn name_stem(name: Seq<char>) -> Seq<char> {
    match rfind_char(name, '.', name.len() as int) {
        Some(k) => if k == 0 {
            name
        } else {
            name.take(k)
        },
        None => name,
    }
}

/// The navigation title of a chapter without a level-1 heading: its file stem,
/// else `Chapter N` (numbered from one).
pub open spec fn spec_fallback_title(ch: Seq<char>, idx: nat) -> Seq<char> {
    match path_file_name(ch) {
        Some(n) => name_stem(n),
        None => "Chapter "@ + dec(idx + 1),
    }
}

/// Fallback navigation title for a chapter with no level-1 heading.
pub fn chapter_fallback_title(ch: &str, idx: usize) -> (r: String)
    requires
        idx < usize::MAX,
    ensures
        r@ == spec_fallback_title(ch@, idx as nat),
{
    match file_name_of(ch) {
        Some(n) => {
            let v = chars_of(n.as_str());
            proof {
                lemma_rfind_char(v@, '.', v@.len() as int);
            }
            match rfind_c(&v, '.', v.len()) {
                Some(k) => if k == 0 {
                    string_of(&v)
                } else {
                    let s = sub_vec(&v, 0, k);
                    assert(s@ =~= v@.take(k as int));
                    string_of(&s)
                },
                None => string_of(&v),
            }
        },
        None => {
            let mut out: Vec<char> = Vec::new();
            push_str(&mut out, "Chapter ");
            push_slice(&mut out, &dec_chars(idx + 1));
            string_of(&out)
        },
    }
}

/// The lower-case extension of a path, `png` when it has none.
pub open spec fn spec_ext_of(p: Seq<char>) -> Seq<char> {
    match path_extension(p) {
        Some(e) => lower_seq(e),
        None => "png"@,
    }
}

/// Lower-case file extension of a path (no dot), defaulting to `png`.
pub fn ext_of(p: &str) -> (r: String)
    ensures
        r@ == spec_ext_of(p@),
{
    match extension_of(p) {
        Some(e) => {
            let v = chars_of(e.as_str());
            let mut l: Vec<char> = Vec::new();
            let mut i: usize = 0;
            while i < v.len()
                invariant
                    0 <= i <= v@.len(),
                    l@ == lower_seq(v@.take(i as int)),
                decreases v@.len() - i,
            {
                l.push(crate::text::to_lower(v[i]));
                assert(lower_seq(v@.take(i as int + 1)) =~= lower_seq(v@.take(i as int)).push(
                    crate::text::lower(v@[i as int]),
                ));
                i += 1;
            }
            assert(v@.take(v@.len() as int) =~= v@);
            string_of(&l)
        },
        None => {
            let mut out: Vec<char> = Vec::new();
            push_str(&mut out, "png");
            string_of(&out)
        },
    }
}

/// The MIME type of a lower-case, dotless image extension (PNG by default).
pub open spec fn spec_mime_for(ext: Seq<char>) -> Seq<char> {
    if ext == "jpg"@ || ext == "jpeg"@ {
        "image/jpeg"@
    } else if ext == "gif"@ {
        "image/gif"@
    } else if ext == "svg"@ {
        "image/svg+xml"@
    } else if ext == "webp"@ {
        "image/webp"@
    } else {
        "image/png"@
    }
}

/// MIME type for a (lower-case, dotless) image extension.
pub fn mime_for(ext: &str) -> (r: &'static str)
    ensures
        r@ == spec_mime_for(ext@),
{
    let v = chars_of(ext);
    if crate::text::eq_str(&v, "jpg") || crate::text::eq_str(&v, "jpeg") {
        "image/jpeg"
    } else if crate::text::eq_str(&v, "gif") {
        "image/gif"
    } else if crate::text::eq_str(&v, "svg") {
        "image/svg+xml"
    } else if crate::text::eq_str(&v, "webp") {
        "image/webp"
    } else {
        "image/png"
    }
}

// ---------------------------------------------------------------------------
// Chapters as content documents
// ---------------------------------------------------------------------------

/// What `comrak::markdown_to_html` renders for a markdown text, with the
/// options the books use (GFM tables, strikethrough, autolinks, task lists and
/// footnotes; raw HTML left out, as comrak does unless told it is safe).
pub uninterp spec fn markdown_html(md: Seq<char>) -> Seq<char>;

/// `comrak::markdown_to_html` with the book options: GFM tables,
/// strikethrough, autolinks, task lists and footnotes; comrak leaves raw HTML
/// out (its `unsafe_` option stays off), so the output stays well-formed
/// XHTML. The result is named, not described.
#[verifier::external_body]
fn render_markdown(md: &str) -> (r: String)
    ensures
        r@ == markdown_html(md@),
{
    let mut o = comrak::Options::default();
    o.extension.table = true;
    o.extension.strikethrough = true;
    o.extension.autolink = true;
    o.extension.tasklist = true;
    o.extension.footnotes = true;
    comrak::markdown_to_html(md, &o)
}

/// The XHTML body of a cleaned chapter, with plate captions when asked for.
pub open spec fn spec_chapter_body(clean: Seq<char>, captions: bool) -> Seq<char> {
    if captions {
        spec_figcaption_plates(markdown_html(clean))
    } else {
        markdown_html(clean)
    }
}

/// Render a cleaned chapter's markdown to its XHTML body.
pub fn chapter_body(clean: &str, captions: bool) -> (r: String)
    ensures
        r@ == spec_chapter_body(clean@, captions),
{
    let html = render_markdown(clean);
    if captions {
        figcaption_plates(html.as_str())
    } else {
        html
    }
}

/// A chapter's navigation title and content document: the chapter is cleaned,
/// rendered, and titled by its first level-1 heading or else its file stem.
pub open spec fn spec_chapter_doc(
    md: Seq<char>,
    ch: Seq<char>,
    idx: nat,
    captions: bool,
    lang: Seq<char>,
) -> (Seq<char>, Seq<char>) {
    let (clean, nav) = spec_clean_chapter(md);
    let title = match nav {
        Some(t) => t,
        None => spec_fallback_title(ch, idx),
    };
    (title, spec_xhtml_doc(lang, title, spec_chapter_body(clean, captions)))
}

/// The navigation title and XHTML document of chapter `idx` (read from `ch`).
pub fn chapter_doc(md: &str, ch: &str, idx: usize, captions: bool, lang: &str) -> (r: (String, String))
    requires
        idx < usize::MAX,
    ensures
        (r.0@, r.1@) == spec_chapter_doc(md@, ch@, idx as nat, captions, lang@),
{
    let (clean, nav) = clean_chapter(md);
    let body = chapter_body(clean.as_str(), captions);
    let title = match nav {
        Some(t) => t,
        None => chapter_fallback_title(ch, idx),
    };
    let doc = xhtml_doc(lang, title.as_str(), body.as_str());
    (title, doc)
}

/// The copyright page document, from its markdown.
pub open spec fn spec_copyright_doc(md: Seq<char>, lang: Seq<char>, title: Seq<char>) -> Seq<char> {
    spec_xhtml_doc(lang, title, markdown_html(spec_clean_chapter(md).0))
}

/// The copyright page document (no plate captions, no navigation entry).
pub fn copyright_doc(md: &str, lang: &str, title: &str) -> (r: String)
    ensures
        r@ == spec_copyright_doc(md@, lang@, title@),
{
    let (clean, _) = clean_chapter(md);
    let body = render_markdown(clean.as_str());
    xhtml_doc(lang, title, body.as_str())
}

/// The zip name of chapter `i` (counted from zero): `chapter-NNN.xhtml`, the
/// number from one and zero-padded to three digits.
pub open spec fn spec_chapter_href(i: nat) -> Seq<char> {
    let d = dec(i + 1);
    "chapter-"@ + (if d.len() < 3 {
        Seq::new((3 - d.len()) as nat, |_k: int| '0')
    } else {
        seq![]
    }) + d + ".xhtml"@
}

/// The content-document name of chapter `i`.
pub fn chapter_href(i: usize) -> (r: String)
    requires
        i < usize::MAX,
    ensures
        r@ == spec_chapter_href(i as nat),
{
    let d = dec_chars(i + 1);
    let mut out: Vec<char> = Vec::new();
    push_str(&mut out, "chapter-");
    let ghost o0 = out@;
    let mut k: usize = d.len();
    while k < 3
        invariant
            d.len() <= k <= 3 || (d.len() > 3 && k == d.len()),
            out@ == o0 + Seq::new((k - d@.len()) as nat, |_k: int| '0'),
        decreases 3 - k,
    {
        out.push('0');
        assert(Seq::new((k + 1 - d@.len()) as nat, |_k: int| '0') =~= Seq::new(
            (k - d@.len()) as nat,
            |_k: int| '0',
        ).push('0'));
        k += 1;
    }
    push_slice(&mut out, &d);
    push_str(&mut out, ".xhtml");
    assert(out@ =~= spec_chapter_href(i as nat));
    string_of(&out)
}

/// Should an image source be added to the book's resources: not yet added and
/// not on the web?
pub open spec fn spec_should_register(src: Seq<char>, added: Seq<Seq<char>>) -> bool {
    !added.contains(src) && !spec_is_remote(src)
}

/// Is the image source still to be registered as an EPUB resource?
pub fn should_register(src: &str, added: &Vec<String>) -> (r: bool)
    ensures
        r == spec_should_register(src@, added@.map_values(|x: String| x@)),
{
    let sv = chars_of(src);
    let mut i: usize = 0;
    while i < added.len()
        invariant
            0 <= i <= added@.len(),
            sv@ == src@,
            forall|k: int| 0 <= k < i ==> (#[trigger] added@[k])@ != src@,
        decreases added@.len() - i,
    {
        if crate::text::eq_chars(&chars_of(added[i].as_str()), &sv) {
            assert(added@.map_values(|x: String| x@)[i as int] == src@);
            return false;
        }
        i += 1;
    }
    let ghost mv = added@.map_values(|x: String| x@);
    assert(!mv.contains(src@)) by {
        if mv.contains(src@) {
            let k = choose|k: int| 0 <= k < mv.len() && #[trigger] mv[k] == src@;
            assert(added@[k]@ == src@);
        }
    }
    !is_remote(src)
}

// ---------------------------------------------------------------------------
// Assembling the book
// ---------------------------------------------------------------------------

/// How a content document is marked in the book's guide.
#[derive(PartialEq, Eq, Structural, Clone, Copy, Debug)]
pub enum RefType {
    Plain,
    Copyright,
    Text,
}

/// One call on the EPUB builder, as plain values.
pub enum EpubStep {
    /// EPUB 3.0.
    Version3,
    /// A metadata key and value.
    Meta(Seq<char>, Seq<char>),
    /// A language of the book.
    Language(Seq<char>),
    /// The stylesheet.
    Stylesheet(Seq<u8>),
    /// The cover image: path, bytes, media type.
    Cover(Seq<char>, Seq<u8>, Seq<char>),
    /// A content document: path, bytes, navigation title, guide mark.
    Content(Seq<char>, Seq<u8>, Option<Seq<char>>, RefType),
    /// An inline table of contents.
    InlineToc,
    /// A resource: path, bytes, media type.
    Resource(Seq<char>, Seq<u8>, Seq<char>),
}

/// A book being put together by `epub_builder` over an in-memory zip.
#[verifier::external_body]
pub struct EpubBook {
    b: epub_builder::EpubBuilder<epub_builder::ZipLibrary>,
}

/// The calls a book has received so far, in order.
pub uninterp spec fn epub_steps(b: EpubBook) -> Seq<EpubStep>;

/// The first error that a builder made by `EpubBuilder::new` over a fresh
/// `ZipLibrary` gives when it is handed these calls in order (`None` when
/// none fails). Every call writes into memory only; the entries carry the
/// current time, which changes their bytes but not whether a call fails, so
/// the answer is a function of the calls.
pub uninterp spec fn epub_refusal(steps: Seq<EpubStep>) -> Option<Seq<char>>;

/// A call `st` that succeeded on a book that had received `before`: it is
/// recorded, and a run that had not failed yet still has not.
pub open spec fn took_step(before: Seq<EpubStep>, st: EpubStep, after: Seq<EpubStep>) -> bool {
    &&& after == before.push(st)
    &&& epub_refusal(before) is None ==> epub_refusal(after) is None
}

/// A call `st` that failed with `m` on a book that had received `before`
/// without failing: every run of these calls, then `st`, then any more, fails
/// with `m`.
pub open spec fn refused_step(before: Seq<EpubStep>, st: EpubStep, m: Seq<char>) -> bool {
    epub_refusal(before) is None ==> forall|t: Seq<EpubStep>| #[trigger] epub_refusal(before.push(st) + t) == Some(m)
}

/// `ZipLibrary::new` and `EpubBuilder::new`: a book with nothing in it yet.
/// Their error, if they give one, is the first error of every run.
#[verifier::external_body]
pub(crate) fn epub_new() -> (r: Result<EpubBook, String>)
    ensures
        match r {
            Ok(b) => epub_steps(b) == Seq::<EpubStep>::empty() && epub_refusal(Seq::<EpubStep>::empty()) is None,
            Err(m) => forall|t: Seq<EpubStep>| #[trigger] epub_refusal(t) == Some(m@),
        },
{
    let z = epub_builder::ZipLibrary::new().map_err(|e| e.to_string())?;
    Ok(EpubBook { b: epub_builder::EpubBuilder::new(z).map_err(|e| e.to_string())? })
}

/// `epub_version(EpubVersion::V30)`.
#[verifier::external_body]
pub(crate) fn epub_version3(b: &mut EpubBook)
    ensures
        took_step(epub_steps(*old(b)), EpubStep::Version3, epub_steps(*final(b))),
{
    b.b.epub_version(epub_builder::EpubVersion::V30);
}

/// `metadata(key, value)`; on success the call is recorded, on failure the
/// error is the run's.
#[verifier::external_body]
pub(crate) fn epub_meta(b: &mut EpubBook, key: &str, value: &str) -> (r: Result<(), String>)
    ensures
        match r {
            Ok(_) => took_step(epub_steps(*old(b)), EpubStep::Meta(key@, value@), epub_steps(*final(b))),
            Err(m) => refused_step(epub_steps(*old(b)), EpubStep::Meta(key@, value@), m@),
        },
{
    b.b.metadata(key, value).map(|_| ()).map_err(|e| e.to_string())
}

/// `add_language`.
#[verifier::external_body]
pub(crate) fn epub_language(b: &mut EpubBook, lang: &str)
    ensures
        took_step(epub_steps(*old(b)), EpubStep::Language(lang@), epub_steps(*final(b))),
{
    b.b.add_language(lang);
}

/// `stylesheet`; on success the call is recorded, on failure the error is
/// the run's.
#[verifier::external_body]
pub(crate) fn epub_stylesheet(b: &mut EpubBook, css: &[u8]) -> (r: Result<(), String>)
    ensures
        match r {
            Ok(_) => took_step(epub_steps(*old(b)), EpubStep::Stylesheet(css@), epub_steps(*final(b))),
            Err(m) => refused_step(epub_steps(*old(b)), EpubStep::Stylesheet(css@), m@),
        },
{
    b.b.stylesheet(css).map(|_| ()).map_err(|e| e.to_string())
}

/// `add_cover_image`; on success the call is recorded, on failure the error
/// is the run's.
#[verifier::external_body]
pub(crate) fn epub_cover(b: &mut EpubBook, path: &str, data: &[u8], mime: &str) -> (r: Result<(), String>)
    ensures
        match r {
            Ok(_) => took_step(epub_steps(*old(b)), EpubStep::Cover(path@, data@, mime@), epub_steps(*final(b))),
            Err(m) => refused_step(epub_steps(*old(b)), EpubStep::Cover(path@, data@, mime@), m@),
        },
{
    b.b.add_cover_image(path, data, mime).map(|_| ()).map_err(|e| e.to_string())
}

/// `add_content` of an `EpubContent` with the title, when there is one, and
/// the guide mark, when it is not plain; on success the call is recorded, on
/// failure the error is the run's.
#[verifier::external_body]
pub(crate) fn epub_content(b: &mut EpubBook, href: &str, data: &[u8], title: Option<&str>, mark: RefType) -> (r:
    Result<(), String>)
    ensures
        match r {
            Ok(_) => took_step(
                epub_steps(*old(b)),
                EpubStep::Content(href@, data@, opt_str(title), mark),
                epub_steps(*final(b)),
            ),
            Err(m) => refused_step(epub_steps(*old(b)), EpubStep::Content(href@, data@, opt_str(title), mark), m@),
        },
{
    let mut c = epub_builder::EpubContent::new(href, data);
    if let Some(t) = title { c = c.title(t); }
    match mark {
        RefType::Copyright => c = c.reftype(epub_builder::ReferenceType::Copyright),
        RefType::Text => c = c.reftype(epub_builder::ReferenceType::Text),
        RefType::Plain => {},
    }
    b.b.add_content(c).map(|_| ()).map_err(|e| e.to_string())
}

/// An optional `&str` as plain values.
pub open spec fn opt_str(o: Option<&str>) -> Option<Seq<char>> {
    match o {
        Some(s) => Some(s@),
        None => None,
    }
}

/// `inline_toc`.
#[verifier::external_body]
pub(crate) fn epub_inline_toc(b: &mut EpubBook)
    ensures
        took_step(epub_steps(*old(b)), EpubStep::InlineToc, epub_steps(*final(b))),
{
    b.b.inline_toc();
}

/// `add_resource`; on success the call is recorded, on failure the error is
/// the run's.
#[verifier::external_body]
pub(crate) fn epub_resource(b: &mut EpubBook, path: &str, data: &[u8], mime: &str) -> (r: Result<(), String>)
    ensures
        match r {
            Ok(_) => took_step(epub_steps(*old(b)), EpubStep::Resource(path@, data@, mime@), epub_steps(*final(b))),
            Err(m) => refused_step(epub_steps(*old(b)), EpubStep::Resource(path@, data@, mime@), m@),
        },
{
    b.b.add_resource(path, data, mime).map(|_| ()).map_err(|e| e.to_string())
}

/// A path the builder files under `OEBPS/` as it is: not empty, not
/// absolute, not naming a directory, and without backslashes.
pub open spec fn plain_path(p: Seq<char>) -> bool {
    p.len() > 0 && p[0] != '/' && p[p.len() - 1] != '/' && !p.contains('\\')
}

/// The archive holds a file entry `name` with exactly these bytes.
pub open spec fn has_file(es: Seq<EntryView>, name: Seq<char>, data: Seq<u8>) -> bool {
    exists|i: int| 0 <= i < es.len() && #[trigger] es[i] == (name, false, Ok::<Seq<u8>, Seq<char>>(data))
}

/// The archive has an entry called `name`.
pub open spec fn has_name(es: Seq<EntryView>, name: Seq<char>) -> bool {
    exists|i: int| 0 <= i < es.len() && #[trigger] es[i].0 == name
}

/// What a call leaves in the archive: a content document, a resource or the
/// cover as `OEBPS/<path>` with its bytes, the stylesheet as
/// `OEBPS/stylesheet.css`.
pub open spec fn step_filed(es: Seq<EntryView>, st: EpubStep) -> bool {
    match st {
        EpubStep::Content(p, d, _, _) => plain_path(p) ==> has_file(es, "OEBPS/"@ + p, d),
        EpubStep::Resource(p, d, _) => plain_path(p) ==> has_file(es, "OEBPS/"@ + p, d),
        EpubStep::Cover(p, d, _) => plain_path(p) ==> has_file(es, "OEBPS/"@ + p, d),
        EpubStep::Stylesheet(c) => has_file(es, "OEBPS/stylesheet.css"@, c),
        _ => true,
    }
}

/// The bytes of the `mimetype` entry.
pub open spec fn epub_mimetype() -> Seq<u8> {
    encode_utf8("application/epub+zip"@)
}

/// What every archive the builder writes for these calls holds, whatever
/// identifier and time it stamps: it reads as a zip whose first entry is the
/// `mimetype` file; it has the container file, the package document, the NCX
/// and the navigation document (and the inline contents page when one was
/// asked for); every call's file is there with its bytes, and an empty
/// stylesheet when none was given.
pub open spec fn epub_archive(listing: Result<Seq<EntryView>, Seq<char>>, steps: Seq<EpubStep>) -> bool {
    match listing {
        Err(_) => false,
        Ok(es) => {
            &&& es.len() > 0
            &&& es[0] == ("mimetype"@, false, Ok::<Seq<u8>, Seq<char>>(epub_mimetype()))
            &&& has_name(es, "META-INF/container.xml"@)
            &&& has_name(es, "OEBPS/content.opf"@)
            &&& has_name(es, "OEBPS/toc.ncx"@)
            &&& has_name(es, "OEBPS/nav.xhtml"@)
            &&& steps.contains(EpubStep::InlineToc) ==> has_name(es, "OEBPS/toc.xhtml"@)
            &&& (forall|i: int| 0 <= i < steps.len() ==> step_filed(es, #[trigger] steps[i]))
            &&& (forall|i: int| 0 <= i < steps.len() ==> !(#[trigger] steps[i] is Stylesheet)) ==> has_file(
                es,
                "OEBPS/stylesheet.css"@,
                Seq::<u8>::empty(),
            )
        },
    }
}

/// `generate` into a buffer. The builder stamps each book with a fresh random
/// identifier and the current time, so the bytes are not named; what is
/// claimed is what every archive it writes holds when read back with the
/// `zip` crate (`epub_archive`): `ZipLibrary::new` writes `mimetype` first,
/// `EpubBuilder::new` the container file, every call its file under
/// `OEBPS/` (joined as a relative path), and `generate` the stylesheet when
/// none was given, the package document, the NCX, the navigation document
/// and the inline contents page.
#[verifier::external_body]
pub(crate) fn epub_generate(b: EpubBook) -> (r: Result<Vec<u8>, String>)
    ensures
        r matches Ok(v) ==> epub_archive(zip_listing(v@), epub_steps(b)),
{
    let mut out = Vec::new();
    b.b.generate(&mut out).map_err(|e| e.to_string())?;
    Ok(out)
}

/// The name of the table of contents: Spanish books say `Índice`.
pub open spec fn toc_name(lang: Seq<char>) -> Seq<char> {
    if lang == "es"@ {
        "Índice"@
    } else {
        "Contents"@
    }
}

/// The calls before the chapters: version, metadata, language, stylesheet,
/// cover image, title page, copyright page, inline contents.
pub open spec fn head_steps(
    meta: BookMeta,
    lang: Seq<char>,
    css: Option<Seq<u8>>,
    cover: Option<(Seq<char>, Seq<u8>)>,
    copyright: Option<Seq<char>>,
    toc: bool,
) -> Seq<EpubStep> {
    seq![
        EpubStep::Version3,
        EpubStep::Meta("title"@, meta.title@),
        EpubStep::Meta("author"@, meta.author@),
        EpubStep::Language(lang),
        EpubStep::Meta("license"@, meta.rights@),
        EpubStep::Meta("generator"@, "bookmill"@),
        EpubStep::Meta("toc_name"@, toc_name(lang)),
    ] + (match css {
        Some(c) => seq![EpubStep::Stylesheet(c)],
        None => Seq::<EpubStep>::empty(),
    }) + (match cover {
        Some(cv) => seq![
            EpubStep::Cover("cover."@ + spec_ext_of(cv.0), cv.1, spec_mime_for(spec_ext_of(cv.0))),
        ],
        None => Seq::<EpubStep>::empty(),
    }) + seq![
        EpubStep::Content(
            "title.xhtml"@,
            encode_utf8(spec_title_page(meta.title@, opt_view(meta.subtitle), meta.author@, lang)),
            None,
            RefType::Plain,
        ),
    ] + (match copyright {
        Some(md) => seq![
            EpubStep::Content(
                "copyright.xhtml"@,
                encode_utf8(spec_copyright_doc(md, lang, meta.title@)),
                None,
                RefType::Copyright,
            ),
        ],
        None => Seq::<EpubStep>::empty(),
    }) + (if toc {
        seq![EpubStep::InlineToc]
    } else {
        Seq::<EpubStep>::empty()
    })
}

/// What was read for an image source: its bytes, or nothing when it could not
/// be read (the first entry for the source counts).
pub open spec fn image_read(images: Seq<(Seq<char>, Option<Seq<u8>>)>, src: Seq<char>) -> Option<Seq<u8>>
    decreases images.len(),
{
    if images.len() == 0 {
        None
    } else if images[0].0 == src {
        images[0].1
    } else {
        image_read(images.drop_first(), src)
    }
}

/// The resources a chapter's image sources add, given the sources added
/// before: each source not yet added and not on the web is added once, when
/// it could be read. Also the sources added after them.
pub open spec fn resource_steps(
    srcs: Seq<Seq<char>>,
    images: Seq<(Seq<char>, Option<Seq<u8>>)>,
    added: Seq<Seq<char>>,
) -> (Seq<EpubStep>, Seq<Seq<char>>)
    decreases srcs.len(),
{
    if srcs.len() == 0 {
        (seq![], added)
    } else {
        let p = resource_steps(srcs.drop_last(), images, added);
        let src = srcs.last();
        if spec_should_register(src, p.1) {
            match image_read(images, src) {
                Some(b) => (p.0.push(EpubStep::Resource(src, b, spec_mime_for(spec_ext_of(src)))), p.1.push(src)),
                None => p,
            }
        } else {
            p
        }
    }
}

/// The calls for the first `n` chapters (path, markdown): each chapter's new
/// image resources, then its content document (the first one marked as the
/// start of the text). Also the image sources added.
pub open spec fn chapter_steps(
    chs: Seq<(Seq<char>, Seq<char>)>,
    images: Seq<(Seq<char>, Option<Seq<u8>>)>,
    lang: Seq<char>,
    captions: bool,
    n: int,
) -> (Seq<EpubStep>, Seq<Seq<char>>)
    decreases n,
{
    if n <= 0 || n > chs.len() {
        (seq![], seq![])
    } else {
        let p = chapter_steps(chs, images, lang, captions, n - 1);
        let ch = chs[n - 1];
        let r = resource_steps(spec_image_srcs(spec_clean_chapter(ch.1).0), images, p.1);
        let d = spec_chapter_doc(ch.1, ch.0, (n - 1) as nat, captions, lang);
        (
            p.0 + r.0 + seq![
                EpubStep::Content(
                    spec_chapter_href((n - 1) as nat),
                    encode_utf8(d.1),
                    Some(d.0),
                    if n == 1 {
                        RefType::Text
                    } else {
                        RefType::Plain
                    },
                ),
            ],
            r.1,
        )
    }
}

/// Every call that builds the book, in order.
pub open spec fn spec_epub_steps(
    meta: BookMeta,
    lang: Seq<char>,
    css: Option<Seq<u8>>,
    cover: Option<(Seq<char>, Seq<u8>)>,
    copyright: Option<Seq<char>>,
    chs: Seq<(Seq<char>, Seq<char>)>,
    images: Seq<(Seq<char>, Option<Seq<u8>>)>,
    toc: bool,
    captions: bool,
) -> Seq<EpubStep> {
    head_steps(meta, lang, css, cover, copyright, toc) + chapter_steps(chs, images, lang, captions, chs.len() as int).0
}

/// Chapters (path, markdown) as plain values.
pub open spec fn chapters_view(v: Seq<(String, String)>) -> Seq<(Seq<char>, Seq<char>)> {
    v.map_values(|c: (String, String)| (c.0@, c.1@))
}

/// Image reads as plain values.
pub open spec fn images_view(v: Seq<(String, Option<Vec<u8>>)>) -> Seq<(Seq<char>, Option<Seq<u8>>)> {
    v.map_values(|i: (String, Option<Vec<u8>>)| (i.0@, match i.1 {
        Some(b) => Some(b@),
        None => None,
    }))
}

/// Optional bytes as plain values.
pub open spec fn opt_bytes_view(o: Option<Vec<u8>>) -> Option<Seq<u8>> {
    match o {
        Some(b) => Some(b@),
        None => None,
    }
}

/// An optional named file as plain values.
pub open spec fn opt_file_view(o: Option<(String, Vec<u8>)>) -> Option<(Seq<char>, Seq<u8>)> {
    match o {
        Some(f) => Some((f.0@, f.1@)),
        None => None,
    }
}

/// Optional text as plain values.
pub open spec fn opt_text_view(o: Option<String>) -> Option<Seq<char>> {
    match o {
        Some(s) => Some(s@),
        None => None,
    }
}

fn image_read_exec<'a>(images: &'a Vec<(String, Option<Vec<u8>>)>, src: &str) -> (r: Option<&'a Vec<u8>>)
    ensures
        match r {
            Some(b) => image_read(images_view(images@), src@) == Some(b@),
            None => image_read(images_view(images@), src@) is None,
        },
{
    let ghost iv = images_view(images@);
    let sv = chars_of(src);
    let mut i: usize = 0;
    assert(iv.skip(0) =~= iv);
    while i < images.len()
        invariant
            0 <= i <= images@.len(),
            iv == images_view(images@),
            sv@ == src@,
            image_read(iv, src@) == image_read(iv.skip(i as int), src@),
        decreases images@.len() - i,
    {
        assert(iv.skip(i as int).drop_first() =~= iv.skip(i as int + 1));
        if crate::text::eq_chars(&chars_of(images[i].0.as_str()), &sv) {
            return match &images[i].1 {
                Some(b) => Some(b),
                None => None,
            };
        }
        i += 1;
    }
    None
}

/// The image sources of every chapter that the book will want to read, in
/// order and once each: those not on the web.
pub open spec fn wanted_images(chs: Seq<(Seq<char>, Seq<char>)>, n: int) -> Seq<Seq<char>>
    decreases n,
{
    if n <= 0 || n > chs.len() {
        seq![]
    } else {
        wanted_from(spec_image_srcs(spec_clean_chapter(chs[n - 1].1).0), wanted_images(chs, n - 1))
    }
}

/// `before` followed by the sources of `srcs` it lacks that are not on the web.
pub open spec fn wanted_from(srcs: Seq<Seq<char>>, before: Seq<Seq<char>>) -> Seq<Seq<char>>
    decreases srcs.len(),
{
    if srcs.len() == 0 {
        before
    } else {
        let p = wanted_from(srcs.drop_last(), before);
        if spec_should_register(srcs.last(), p) {
            p.push(srcs.last())
        } else {
            p
        }
    }
}

/// The image sources the chapters reference that the book needs read (each
/// resolved against the repository root by `resolve_img`), in order, once each.
pub fn epub_image_reads(chapters: &Vec<(String, String)>) -> (r: Vec<String>)
    ensures
        r@.map_values(|x: String| x@) == wanted_images(chapters_view(chapters@), chapters@.len() as int),
{
    let ghost cv = chapters_view(chapters@);
    let mut out: Vec<String> = Vec::new();
    let mut k: usize = 0;
    while k < chapters.len()
        invariant
            0 <= k <= chapters@.len(),
            cv == chapters_view(chapters@),
            out@.map_values(|x: String| x@) == wanted_images(cv, k as int),
        decreases chapters@.len() - k,
    {
        let (clean, _) = clean_chapter(chapters[k].1.as_str());
        let srcs = image_srcs(clean.as_str());
        let ghost sv = srcs@.map_values(|x: String| x@);
        let ghost before = out@.map_values(|x: String| x@);
        let mut j: usize = 0;
        while j < srcs.len()
            invariant
                0 <= j <= srcs@.len(),
                sv == srcs@.map_values(|x: String| x@),
                out@.map_values(|x: String| x@) == wanted_from(sv.take(j as int), before),
            decreases srcs@.len() - j,
        {
            assert(sv.take(j as int + 1).drop_last() =~= sv.take(j as int));
            assert(sv.take(j as int + 1).last() == srcs@[j as int]@);
            if should_register(srcs[j].as_str(), &out) {
                let ghost o0 = out@.map_values(|x: String| x@);
                out.push(copy_string(srcs[j].as_str()));
                assert(out@.map_values(|x: String| x@) =~= o0.push(srcs@[j as int]@));
            }
            j += 1;
        }
        assert(sv.take(srcs@.len() as int) =~= sv);
        k += 1;
    }
    out
}

/// `a` is the start of `b`.
pub open spec fn is_prefix(a: Seq<EpubStep>, b: Seq<EpubStep>) -> bool {
    a.len() <= b.len() && b.take(a.len() as int) == a
}

proof fn lemma_prefix_trans(a: Seq<EpubStep>, b: Seq<EpubStep>, c: Seq<EpubStep>)
    requires
        is_prefix(a, b),
        is_prefix(b, c),
    ensures
        is_prefix(a, c),
{
    assert(c.take(a.len() as int) =~= c.take(b.len() as int).take(a.len() as int));
}

proof fn lemma_prefix_both(x: Seq<EpubStep>, a: Seq<EpubStep>, b: Seq<EpubStep>, y: Seq<EpubStep>)
    requires
        is_prefix(a, b),
    ensures
        is_prefix(x + a, x + b + y),
{
    assert((x + b + y).take((x + a).len() as int) =~= x + a) by {
        assert forall|i: int| 0 <= i < (x + a).len() implies (x + b + y).take((x + a).len() as int)[i] == (x
            + a)[i] by {
            if i >= x.len() {
                assert(b.take(a.len() as int)[i - x.len()] == a[i - x.len()]);
            }
        }
    }
}

proof fn lemma_resource_prefix(
    srcs: Seq<Seq<char>>,
    images: Seq<(Seq<char>, Option<Seq<u8>>)>,
    added: Seq<Seq<char>>,
    j: int,
)
    requires
        0 <= j <= srcs.len(),
    ensures
        is_prefix(resource_steps(srcs.take(j), images, added).0, resource_steps(srcs, images, added).0),
    decreases srcs.len(),
{
    if j == srcs.len() {
        assert(srcs.take(j) =~= srcs);
        assert(resource_steps(srcs, images, added).0.take(resource_steps(srcs, images, added).0.len() as int)
            =~= resource_steps(srcs, images, added).0);
    } else {
        let d = srcs.drop_last();
        lemma_resource_prefix(d, images, added, j);
        assert(d.take(j) =~= srcs.take(j));
        let a = resource_steps(srcs.take(j), images, added).0;
        let p = resource_steps(d, images, added).0;
        let q = resource_steps(srcs, images, added).0;
        assert(q.take(p.len() as int) =~= p);
        lemma_prefix_trans(a, p, q);
    }
}

proof fn lemma_chapter_prefix(
    chs: Seq<(Seq<char>, Seq<char>)>,
    images: Seq<(Seq<char>, Option<Seq<u8>>)>,
    lang: Seq<char>,
    captions: bool,
    k: int,
    n: int,
)
    requires
        0 <= k <= n <= chs.len(),
    ensures
        is_prefix(chapter_steps(chs, images, lang, captions, k).0, chapter_steps(chs, images, lang, captions, n).0),
    decreases n,
{
    let a = chapter_steps(chs, images, lang, captions, k).0;
    if k == n {
        assert(a.take(a.len() as int) =~= a);
    } else {
        lemma_chapter_prefix(chs, images, lang, captions, k, n - 1);
        let p = chapter_steps(chs, images, lang, captions, n - 1).0;
        let q = chapter_steps(chs, images, lang, captions, n).0;
        assert(q.take(p.len() as int) =~= p);
        lemma_prefix_trans(a, p, q);
    }
}

/// A call that failed on a book whose calls so far begin `full`, the call
/// being the next one of `full`: the whole run fails with the same error.
proof fn lemma_refused_run(done: Seq<EpubStep>, st: EpubStep, full: Seq<EpubStep>, m: Seq<char>)
    requires
        refused_step(done, st, m),
        epub_refusal(done) is None,
        is_prefix(done.push(st), full),
    ensures
        epub_refusal(full) == Some(m),
{
    let t = full.skip(done.len() + 1int);
    assert(full =~= done.push(st) + t);
    assert(epub_refusal(done.push(st) + t) == Some(m));
}

proof fn lemma_prefix_concat(a: Seq<EpubStep>, t: Seq<EpubStep>)
    ensures
        is_prefix(a, a + t),
{
    assert((a + t).take(a.len() as int) =~= a);
}

/// A call that failed on a book whose calls so far begin `head`, the call
/// being the next one of `head`: every run that begins with `head` fails with
/// the same error.
proof fn lemma_refused_head(done: Seq<EpubStep>, st: EpubStep, head: Seq<EpubStep>, m: Seq<char>)
    requires
        refused_step(done, st, m),
        epub_refusal(done) is None,
        is_prefix(done.push(st), head),
    ensures
        forall|t: Seq<EpubStep>| #[trigger] epub_refusal(head + t) == Some(m),
{
    assert forall|t: Seq<EpubStep>| #[trigger] epub_refusal(head + t) == Some(m) by {
        let u = head.skip(done.len() + 1int) + t;
        assert(head + t =~= done.push(st) + u);
        assert(epub_refusal(done.push(st) + u) == Some(m));
    }
}

/// The calls before the chapters (`head_steps`), made on a new book: the book
/// when the builder takes them all, else its first error, which is then the
/// first error of every run that begins with them.
fn open_book(
    meta: &BookMeta,
    lang: &str,
    css: &Option<Vec<u8>>,
    cover: &Option<(String, Vec<u8>)>,
    copyright: &Option<String>,
    toc: bool,
) -> (r: Result<EpubBook, String>)
    ensures
        match r {
            Ok(b) => epub_steps(b) == head_steps(
                *meta,
                lang@,
                opt_bytes_view(*css),
                opt_file_view(*cover),
                opt_text_view(*copyright),
                toc,
            ) && epub_refusal(epub_steps(b)) is None,
            Err(m) => forall|t: Seq<EpubStep>| #[trigger] epub_refusal(
                head_steps(
                    *meta,
                    lang@,
                    opt_bytes_view(*css),
                    opt_file_view(*cover),
                    opt_text_view(*copyright),
                    toc,
                ) + t,
            ) == Some(m@),
        },
{
    let ghost head = head_steps(
        *meta,
        lang@,
        opt_bytes_view(*css),
        opt_file_view(*cover),
        opt_text_view(*copyright),
        toc,
    );
    proof {
        reveal_strlit("es");
        reveal_strlit("Índice");
        reveal_strlit("Contents");
    }
    let mut b = match epub_new() {
        Ok(b) => b,
        Err(m) => {
            assert forall|t: Seq<EpubStep>| #[trigger] epub_refusal(head + t) == Some(m@) by {}
            return Err(m);
        },
    };
    epub_version3(&mut b);
    let ghost s0 = epub_steps(b);
    let ghost st = EpubStep::Meta("title"@, meta.title@);
    assert(head.take(s0.len() + 1int) =~= s0.push(st));
        match epub_meta(&mut b, "title", meta.title.as_str()) {
        Ok(_) => {},
        Err(m) => {
            proof { lemma_refused_head(s0, st, head, m@); }
            return Err(m);
        },
    }
    let ghost s0 = epub_steps(b);
    let ghost st = EpubStep::Meta("author"@, meta.author@);
    assert(head.take(s0.len() + 1int) =~= s0.push(st));
        match epub_meta(&mut b, "author", meta.author.as_str()) {
        Ok(_) => {},
        Err(m) => {
            proof { lemma_refused_head(s0, st, head, m@); }
            return Err(m);
        },
    }
    epub_language(&mut b, lang);
    let ghost s0 = epub_steps(b);
    let ghost st = EpubStep::Meta("license"@, meta.rights@);
    assert(head.take(s0.len() + 1int) =~= s0.push(st));
        match epub_meta(&mut b, "license", meta.rights.as_str()) {
        Ok(_) => {},
        Err(m) => {
            proof { lemma_refused_head(s0, st, head, m@); }
            return Err(m);
        },
    }
    let ghost s0 = epub_steps(b);
    let ghost st = EpubStep::Meta("generator"@, "bookmill"@);
    assert(head.take(s0.len() + 1int) =~= s0.push(st));
        match epub_meta(&mut b, "generator", "bookmill") {
        Ok(_) => {},
        Err(m) => {
            proof { lemma_refused_head(s0, st, head, m@); }
            return Err(m);
        },
    }
    let es = crate::text::eq_str(&chars_of(lang), "es");
    let toc_title = if es {
        "Índice"
    } else {
        "Contents"
    };
    let ghost s0 = epub_steps(b);
    let ghost st = EpubStep::Meta("toc_name"@, toc_name(lang@));
    assert(head.take(s0.len() + 1int) =~= s0.push(st));
        match epub_meta(&mut b, "toc_name", toc_title) {
        Ok(_) => {},
        Err(m) => {
            proof { lemma_refused_head(s0, st, head, m@); }
            return Err(m);
        },
    }
    match css {
        Some(c) => {
            let ghost s0 = epub_steps(b);
            let ghost st = EpubStep::Stylesheet(c@);
            assert(head.take(s0.len() + 1int) =~= s0.push(st));
                        match epub_stylesheet(&mut b, c.as_slice()) {
                Ok(_) => {},
                Err(m) => {
                    proof { lemma_refused_head(s0, st, head, m@); }
                    return Err(m);
                },
            }
        },
        None => {},
    }
    match cover {
        Some((path, data)) => {
            let ext = ext_of(path.as_str());
            let mut name = chars_of("cover.");
            push_str(&mut name, ext.as_str());
            let name = string_of(&name);
            let mime = mime_for(ext.as_str());
            let ghost s0 = epub_steps(b);
            let ghost st = EpubStep::Cover(name@, data@, mime@);
            proof { reveal_strlit("cover."); }
            assert(head.take(s0.len() + 1int) =~= s0.push(st));
                        match epub_cover(&mut b, name.as_str(), data.as_slice(), mime) {
                Ok(_) => {},
                Err(m) => {
                    proof { lemma_refused_head(s0, st, head, m@); }
                    return Err(m);
                },
            }
        },
        None => {},
    }
    let tp = title_page(meta, lang);
    let tpb = tp.as_str().as_bytes_vec();
    let ghost s0 = epub_steps(b);
    let ghost st = EpubStep::Content("title.xhtml"@, tpb@, None, RefType::Plain);
    assert(head.take(s0.len() + 1int) =~= s0.push(st));
        match epub_content(&mut b, "title.xhtml", tpb.as_slice(), None, RefType::Plain) {
        Ok(_) => {},
        Err(m) => {
            proof { lemma_refused_head(s0, st, head, m@); }
            return Err(m);
        },
    }
    match copyright {
        Some(md) => {
            let cp = copyright_doc(md.as_str(), lang, meta.title.as_str());
            let cpb = cp.as_str().as_bytes_vec();
            let ghost s0 = epub_steps(b);
            let ghost st = EpubStep::Content("copyright.xhtml"@, cpb@, None, RefType::Copyright);
            assert(head.take(s0.len() + 1int) =~= s0.push(st));
                        match epub_content(&mut b, "copyright.xhtml", cpb.as_slice(), None, RefType::Copyright) {
                Ok(_) => {},
                Err(m) => {
                    proof { lemma_refused_head(s0, st, head, m@); }
                    return Err(m);
                },
            }
        },
        None => {},
    }
    if toc {
        epub_inline_toc(&mut b);
    }
    assert(epub_steps(b) =~= head);
    Ok(b)
}

/// Put the book together: the calls of `spec_epub_steps`, in order. The
/// stylesheet, cover, copyright markdown, chapter texts and image bytes come
/// already read; an image that could not be read is left out (and tried again
/// for a later chapter that uses it). The book comes back when the builder
/// takes every call; otherwise its first error does (`epub_refusal`).
pub fn assemble_epub(
    meta: &BookMeta,
    lang: &str,
    css: &Option<Vec<u8>>,
    cover: &Option<(String, Vec<u8>)>,
    copyright: &Option<String>,
    chapters: &Vec<(String, String)>,
    images: &Vec<(String, Option<Vec<u8>>)>,
    toc: bool,
    captions: bool,
) -> (r: Result<EpubBook, String>)
    ensures
        r matches Ok(b) ==> epub_steps(b) == spec_epub_steps(
            *meta,
            lang@,
            opt_bytes_view(*css),
            opt_file_view(*cover),
            opt_text_view(*copyright),
            chapters_view(chapters@),
            images_view(images@),
            toc,
            captions,
        ),
        match r {
            Ok(_) => epub_refusal(
                spec_epub_steps(
                    *meta,
                    lang@,
                    opt_bytes_view(*css),
                    opt_file_view(*cover),
                    opt_text_view(*copyright),
                    chapters_view(chapters@),
                    images_view(images@),
                    toc,
                    captions,
                ),
            ) is None,
            Err(m) => epub_refusal(
                spec_epub_steps(
                    *meta,
                    lang@,
                    opt_bytes_view(*css),
                    opt_file_view(*cover),
                    opt_text_view(*copyright),
                    chapters_view(chapters@),
                    images_view(images@),
                    toc,
                    captions,
                ),
            ) == Some(m@),
        },
{
    let ghost cv = chapters_view(chapters@);
    let ghost iv = images_view(images@);
    let ghost head = head_steps(
        *meta,
        lang@,
        opt_bytes_view(*css),
        opt_file_view(*cover),
        opt_text_view(*copyright),
        toc,
    );
    let ghost tail = chapter_steps(cv, iv, lang@, captions, cv.len() as int).0;
    let ghost full = head + tail;
    assert(full == spec_epub_steps(
        *meta,
        lang@,
        opt_bytes_view(*css),
        opt_file_view(*cover),
        opt_text_view(*copyright),
        cv,
        iv,
        toc,
        captions,
    ));
    let mut b = match open_book(meta, lang, css, cover, copyright, toc) {
        Ok(b) => b,
        Err(m) => {
            assert(epub_refusal(head + tail) == Some(m@));
            return Err(m);
        },
    };
    let mut added: Vec<String> = Vec::new();
    let mut k: usize = 0;
    while k < chapters.len()
        invariant
            0 <= k <= chapters@.len(),
            cv == chapters_view(chapters@),
            iv == images_view(images@),
            full == head + tail,
            tail == chapter_steps(cv, iv, lang@, captions, cv.len() as int).0,
            full == spec_epub_steps(
                *meta,
                lang@,
                opt_bytes_view(*css),
                opt_file_view(*cover),
                opt_text_view(*copyright),
                cv,
                iv,
                toc,
                captions,
            ),
            epub_steps(b) == head + chapter_steps(cv, iv, lang@, captions, k as int).0,
            epub_refusal(epub_steps(b)) is None,
            added@.map_values(|x: String| x@) == chapter_steps(cv, iv, lang@, captions, k as int).1,
        decreases chapters@.len() - k,
    {
        let path = chapters[k].0.as_str();
        let md = chapters[k].1.as_str();
        let ghost p = chapter_steps(cv, iv, lang@, captions, k as int);
        let ghost p1 = chapter_steps(cv, iv, lang@, captions, k as int + 1);
        let (clean, _) = clean_chapter(md);
        let srcs = image_srcs(clean.as_str());
        let ghost sv = srcs@.map_values(|x: String| x@);
        proof {
            assert(cv[k as int] == (path@, md@));
            lemma_chapter_prefix(cv, iv, lang@, captions, k as int + 1, cv.len() as int);
        }
        let mut j: usize = 0;
        while j < srcs.len()
            invariant
                0 <= j <= srcs@.len(),
                0 <= k < chapters@.len(),
                cv == chapters_view(chapters@),
                cv[k as int] == (path@, md@),
                sv == srcs@.map_values(|x: String| x@),
                sv == spec_image_srcs(spec_clean_chapter(md@).0),
                iv == images_view(images@),
                full == head + tail,
                full == spec_epub_steps(
                    *meta,
                    lang@,
                    opt_bytes_view(*css),
                    opt_file_view(*cover),
                    opt_text_view(*copyright),
                    cv,
                    iv,
                    toc,
                    captions,
                ),
                p == chapter_steps(cv, iv, lang@, captions, k as int),
                p1 == chapter_steps(cv, iv, lang@, captions, k as int + 1),
                is_prefix(p1.0, tail),
                epub_steps(b) == head + p.0 + resource_steps(sv.take(j as int), iv, p.1).0,
                epub_refusal(epub_steps(b)) is None,
                added@.map_values(|x: String| x@) == resource_steps(sv.take(j as int), iv, p.1).1,
            decreases srcs@.len() - j,
        {
            assert(sv.take(j as int + 1).drop_last() =~= sv.take(j as int));
            assert(sv.take(j as int + 1).last() == srcs@[j as int]@);
            let src = srcs[j].as_str();
            if should_register(src, &added) {
                match image_read_exec(images, src) {
                    Some(data) => {
                        let ghost s0 = epub_steps(b);
                        let ext = ext_of(src);
                        let mime = mime_for(ext.as_str());
                        let ghost st = EpubStep::Resource(src@, data@, mime@);
                        proof {
                            let rj1 = resource_steps(sv.take(j as int + 1), iv, p.1).0;
                            let rall = resource_steps(sv, iv, p.1).0;
                            assert(rj1 == resource_steps(sv.take(j as int), iv, p.1).0.push(st));
                            lemma_resource_prefix(sv, iv, p.1, j as int + 1);
                            let c = p1.0.skip(p.0.len() + rall.len() as int);
                            assert(p1.0 =~= p.0 + rall + c);
                            lemma_prefix_both(p.0, rj1, rall, c);
                            lemma_prefix_trans(p.0 + rj1, p1.0, tail);
                            let t2 = tail.skip((p.0 + rj1).len() as int);
                            assert(tail =~= (p.0 + rj1) + t2);
                            assert(s0.push(st) =~= head + (p.0 + rj1));
                            assert(full =~= s0.push(st) + t2);
                            lemma_prefix_concat(s0.push(st), t2);
                        }
                        match epub_resource(&mut b, src, data.as_slice(), mime) {
                            Ok(_) => {},
                            Err(m) => {
                                proof { lemma_refused_run(s0, st, full, m@); }
                                return Err(m);
                            },
                        }
                        let ghost a0 = added@.map_values(|x: String| x@);
                        added.push(copy_string(src));
                        assert(added@.map_values(|x: String| x@) =~= a0.push(src@));
                        assert(epub_steps(b) =~= s0.push(st));
                    },
                    None => {},
                }
            }
            j += 1;
        }
        assert(sv.take(srcs@.len() as int) =~= sv);
        let (title, doc) = chapter_doc(md, path, k, captions, lang);
        let href = chapter_href(k);
        let mark = if k == 0 {
            RefType::Text
        } else {
            RefType::Plain
        };
        let docb = doc.as_str().as_bytes_vec();
        let ghost s1 = epub_steps(b);
        let ghost st = EpubStep::Content(href@, docb@, Some(title@), mark);
        proof {
            let r = resource_steps(sv, iv, p.1);
            assert(p1.0 =~= p.0 + r.0 + seq![st]);
            assert(s1.push(st) =~= head + p1.0);
            let t2 = tail.skip(p1.0.len() as int);
            assert(tail =~= p1.0 + t2);
            assert(full =~= s1.push(st) + t2);
            lemma_prefix_concat(s1.push(st), t2);
        }
        match epub_content(&mut b, href.as_str(), docb.as_slice(), Some(title.as_str()), mark) {
            Ok(_) => {},
            Err(m) => {
                proof { lemma_refused_run(s1, st, full, m@); }
                return Err(m);
            },
        }
        proof {
            assert(epub_steps(b) =~= head + p1.0);
        }
        k += 1;
    }
    assert(epub_steps(b) =~= full);
    Ok(b)
}

/// Build one EPUB (one language, one retail-or-KDP flavour) from its parts,
/// as `assemble_epub` puts it together, and return its bytes. When the
/// builder refuses one of the calls, its first error comes back; when it
/// takes them all, the archive holds what `epub_archive` says. The bytes
/// themselves are not claimed: the builder stamps each book with a fresh
/// identifier and the current time.
pub fn run(
    meta: &BookMeta,
    lang: &str,
    css: &Option<Vec<u8>>,
    cover: &Option<(String, Vec<u8>)>,
    copyright: &Option<String>,
    chapters: &Vec<(String, String)>,
    images: &Vec<(String, Option<Vec<u8>>)>,
    toc: bool,
    captions: bool,
) -> (r: Result<Vec<u8>, String>)
    ensures
        r matches Ok(v) ==> epub_archive(
            zip_listing(v@),
            spec_epub_steps(
                *meta,
                lang@,
                opt_bytes_view(*css),
                opt_file_view(*cover),
                opt_text_view(*copyright),
                chapters_view(chapters@),
                images_view(images@),
                toc,
                captions,
            ),
        ),
        epub_refusal(
            spec_epub_steps(
                *meta,
                lang@,
                opt_bytes_view(*css),
                opt_file_view(*cover),
                opt_text_view(*copyright),
                chapters_view(chapters@),
                images_view(images@),
                toc,
                captions,
            ),
        ) matches Some(m) ==> (r matches Err(e) && e@ == m),
{
    match assemble_epub(meta, lang, css, cover, copyright, chapters, images, toc, captions) {
        Ok(b) => epub_generate(b),
        Err(m) => Err(m),
    }
}

// ---------------------------------------------------------------------------
// Laws
// ---------------------------------------------------------------------------

/// The characters of `stem.ext`, lowered, when the extension is lower case.
proof fn lemma_named_lower(stem: Seq<char>, ext: Seq<char>)
    requires
        lower_seq(ext) == ext,
    ensures
        lower_seq(stem + seq!['.'] + ext).len() == stem.len() + 1 + ext.len(),
        lower_seq(stem + seq!['.'] + ext)[stem.len() as int] == '.',
        forall|j: int| 0 <= j < ext.len() ==> #[trigger] lower_seq(stem + seq!['.'] + ext)[stem.len() + 1 + j] == ext[j],
{
    let n = stem + seq!['.'] + ext;
    assert(n[stem.len() as int] == '.');
    assert forall|j: int| 0 <= j < ext.len() implies #[trigger] lower_seq(n)[stem.len() + 1 + j] == ext[j] by {
        assert(n[stem.len() + 1 + j] == ext[j]);
        assert(lower_seq(ext)[j] == lower(ext[j]));
    }
}

/// Does the lowered `stem.ext` end with the dotted suffix `t` (a dot and
/// three or four letters)? Exactly when `ext` is those letters.
proof fn lemma_ends_with_ext(stem: Seq<char>, ext: Seq<char>, t: Seq<char>)
    requires
        lower_seq(ext) == ext,
        !ext.contains('.'),
        t.len() >= 2,
        t[0] == '.',
        forall|j: int| 1 <= j < t.len() ==> #[trigger] t[j] != '.',
    ensures
        ends_with(lower_seq(stem + seq!['.'] + ext), t) <==> ext == t.skip(1),
{
    lemma_named_lower(stem, ext);
    let l = lower_seq(stem + seq!['.'] + ext);
    let s = stem.len() as int;
    let e = ext.len() as int;
    let k = t.len() as int;
    if ext == t.skip(1) {
        assert(l.skip(l.len() - k) =~= t) by {
            assert forall|j: int| 0 <= j < k implies l.skip(l.len() - k)[j] == t[j] by {
                if j == 0 {
                    assert(l.len() - k == s);
                } else {
                    assert(l[s + 1 + (j - 1)] == ext[j - 1]);
                }
            }
        }
    }
    if ends_with(l, t) {
        let w = l.skip(l.len() - k);
        assert(w[0] == '.');
        if e >= k {
            let j = e - k + 1 - 1;
            assert(l[s + 1 + j] == ext[j]);
            assert(w[0] == l[s + 1 + j]);
            assert(ext.contains('.'));
        } else if e < k - 1 {
            let off = s - (l.len() - k);
            assert(1 <= off < k);
            assert(w[off] == l[s]);
        } else {
            assert forall|j: int| 0 <= j < e implies ext[j] == t.skip(1)[j] by {
                assert(l[s + 1 + j] == ext[j]);
                assert(w[1 + j] == l[s + 1 + j]);
            }
            assert(ext =~= t.skip(1));
        }
    }
}

/// The media type declared for an image names the format its extension
/// names, in agreement with how the EPUB shrinker tells images apart: for a
/// file `stem.ext` (a lower-case extension), the type is `image/jpeg`
/// exactly when the shrinker takes the file for a JPEG (`.jpg` and `.jpeg`
/// alike), and `image/png` when it takes it for a PNG.
pub proof fn law_mime_matches_image_kind(stem: Seq<char>, ext: Seq<char>)
    requires
        lower_seq(ext) == ext,
        !ext.contains('.'),
    ensures
        (spec_mime_for(ext) == "image/jpeg"@) == crate::epub_shrink::spec_image_kind(stem + seq!['.'] + ext).1,
        crate::epub_shrink::spec_image_kind(stem + seq!['.'] + ext).0 ==> spec_mime_for(ext) == "image/png"@,
{
    reveal_strlit(".jpg");
    reveal_strlit(".jpeg");
    reveal_strlit(".png");
    reveal_strlit("jpg");
    reveal_strlit("jpeg");
    reveal_strlit("png");
    reveal_strlit("gif");
    reveal_strlit("svg");
    reveal_strlit("webp");
    reveal_strlit("image/jpeg");
    reveal_strlit("image/gif");
    reveal_strlit("image/svg+xml");
    reveal_strlit("image/webp");
    reveal_strlit("image/png");
    lemma_ends_with_ext(stem, ext, ".jpg"@);
    lemma_ends_with_ext(stem, ext, ".jpeg"@);
    lemma_ends_with_ext(stem, ext, ".png"@);
    assert(".jpg"@.skip(1) =~= "jpg"@);
    assert(".jpeg"@.skip(1) =~= "jpeg"@);
    assert(".png"@.skip(1) =~= "png"@);
    assert("image/gif"@ != "image/jpeg"@) by { assert("image/gif"@[6] != "image/jpeg"@[6]); }
    assert("image/svg+xml"@ != "image/jpeg"@) by { assert("image/svg+xml"@[6] != "image/jpeg"@[6]); }
    assert("image/webp"@ != "image/jpeg"@) by { assert("image/webp"@[6] != "image/jpeg"@[6]); }
    assert("image/png"@ != "image/jpeg"@) by { assert("image/png"@[6] != "image/jpeg"@[6]); }
    assert("png"@ != "gif"@) by { assert("png"@[0] != "gif"@[0]); }
    assert("png"@ != "svg"@) by { assert("png"@[0] != "svg"@[0]); }
    assert("png"@ != "webp"@) by { assert("png"@.len() != "webp"@.len()); }
    assert("png"@ != "jpg"@) by { assert("png"@[0] != "jpg"@[0]); }
    assert("png"@ != "jpeg"@) by { assert("png"@.len() != "jpeg"@.len()); }
}

/// Escaped text holds no markup characters: no `<`, `>`, `"` or `'`.
pub proof fn law_xml_escape_safe(s: Seq<char>)
    ensures
        !spec_xml_escape(s).contains('<'),
        !spec_xml_escape(s).contains('>'),
        !spec_xml_escape(s).contains('"'),
        !spec_xml_escape(s).contains('\''),
    decreases s.len(),
{
    if s.len() > 0 {
        law_xml_escape_safe(s.drop_last());
        reveal_strlit("&amp;");
        reveal_strlit("&lt;");
        reveal_strlit("&gt;");
        reveal_strlit("&quot;");
        reveal_strlit("&#39;");
        let a = spec_xml_escape(s.drop_last());
        let b = xml_char(s.last());
        assert(spec_xml_escape(s) == a + b);
        assert forall|c: char| c == '<' || c == '>' || c == '"' || c == '\'' implies !(a + b).contains(c) by {
            if (a + b).contains(c) {
                let k = choose|k: int| 0 <= k < (a + b).len() && (a + b)[k] == c;
                if k < a.len() {
                    assert(a[k] == c);
                } else {
                    assert(b[k - a.len()] == c);
                }
            }
        }
    }
}

/// A content document opens with the XML declaration.
pub proof fn law_xhtml_doc_prologue(lang: Seq<char>, title: Seq<char>, body: Seq<char>)
    ensures
        starts_with(
            spec_xhtml_doc(lang, title, body),
            "<?xml version=\"1.0\" encoding=\"utf-8\"?>"@,
        ),
{
    reveal_strlit("<?xml version=\"1.0\" encoding=\"utf-8\"?>");
    reveal_strlit(
        "<?xml version=\"1.0\" encoding=\"utf-8\"?>\n<!DOCTYPE html>\n<html xmlns=\"http://www.w3.org/1999/xhtml\" xmlns:epub=\"http://www.idpf.org/2007/ops\" lang=\"",
    );
    let d = spec_xhtml_doc(lang, title, body);
    let p = "<?xml version=\"1.0\" encoding=\"utf-8\"?>"@;
    let head = "<?xml version=\"1.0\" encoding=\"utf-8\"?>\n<!DOCTYPE html>\n<html xmlns=\"http://www.w3.org/1999/xhtml\" xmlns:epub=\"http://www.idpf.org/2007/ops\" lang=\""@;
    assert(d.take(p.len() as int) =~= p) by {
        assert forall|k: int| 0 <= k < p.len() implies d[k] == p[k] by {
            assert(d[k] == head[k]);
        }
    }
}

} // verus!
