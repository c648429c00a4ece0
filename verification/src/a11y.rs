//! Accessibility audit of built EPUB/PDF artifacts.
//!
//! The XHTML/OPF documents are scanned as text: the checks are that every
//! content document declares a language, the package document carries the
//! schema.org accessibility metadata and a `dc:language`, the nav document holds
//! a table of contents (landmarks and a page list are recommended), every
//! `<img>` carries non-empty alt text, and no heading level is skipped.
use vstd::prelude::*;
use crate::epub_shrink::{from_utf8, utf8_text};
use crate::zipfile::{entries_view, read_zip, zip_listing, EntryView, ZipEntry};
use crate::text::{
    dec, dec_chars, ends_with, join, join_vecs, push_slice, count_from, count_matches, finishes,
    chars_of, contains, find, find_c, find_char, find_from, contains_str, copy_vec, is_blank, is_ws,
    lemma_find_char, lemma_find_from, match_at, push_str, string_of, sub_vec, trim, views, ws, copy_string,
};

verus! {

/// Severity of one audit finding.
#[derive(Debug, PartialEq, Eq, Clone, Copy, Structural)]
pub enum Level {
    Pass,
    Warn,
    Fail,
}

/// One line of the accessibility report.
#[derive(Debug)]
pub struct Finding {
    pub level: Level,
    pub msg: String,
}

impl View for Finding {
    type V = (Level, Seq<char>);

    open spec fn view(&self) -> (Level, Seq<char>) {
        (self.level, self.msg@)
    }
}

/// The views of a list of findings.
pub open spec fn fviews(f: Seq<Finding>) -> Seq<(Level, Seq<char>)> {
    f.map_values(|x: Finding| x@)
}

/// A passing check.
pub fn ok(msg: String) -> (f: Finding)
    ensures
        f@ == (Level::Pass, msg@),
{
    Finding { level: Level::Pass, msg }
}

/// A recommendation that is not met.
pub fn warn(msg: String) -> (f: Finding)
    ensures
        f@ == (Level::Warn, msg@),
{
    Finding { level: Level::Warn, msg }
}

/// A failed check.
pub fn err(msg: String) -> (f: Finding)
    ensures
        f@ == (Level::Fail, msg@),
{
    Finding { level: Level::Fail, msg }
}

fn finding(level: Level, msg: &[char]) -> (f: Finding)
    ensures
        f@ == (level, msg@),
{
    Finding { level, msg: string_of(msg) }
}

fn finding_lit(level: Level, msg: &str) -> (f: Finding)
    ensures
        f@ == (level, msg@),
{
    let v = chars_of(msg);
    finding(level, &v)
}

// ---------------------------------------------------------------------------
// Scanning primitives
// ---------------------------------------------------------------------------

/// A heading tag `<hN` (N in 1..=6) followed by `>`, a space or a tab starts at `i`.
pub open spec fn heading_at(s: Seq<char>, i: int) -> bool {
    &&& 0 <= i && i + 3 < s.len()
    &&& s[i] == '<'
    &&& (s[i + 1] == 'h' || s[i + 1] == 'H')
    &&& '1' <= s[i + 2] && s[i + 2] <= '6'
    &&& (s[i + 3] == '>' || s[i + 3] == ' ' || s[i + 3] == '\t')
}

/// The heading levels of `s[i..]`, in document order.
pub open spec fn heading_levels_from(s: Seq<char>, i: int) -> Seq<usize>
    decreases s.len() - i,
{
    if i < 0 || i >= s.len() {
        seq![]
    } else if heading_at(s, i) {
        seq![((s[i + 2] as u32) - 48) as usize] + heading_levels_from(s, i + 1)
    } else {
        heading_levels_from(s, i + 1)
    }
}

/// The heading levels (`<h1>`…`<h6>`) of a document, in document order.
pub open spec fn spec_heading_levels(s: Seq<char>) -> Seq<usize> {
    heading_levels_from(s, 0)
}

/// The heading levels (`<h1>`…`<h6>`) of a document, in document order; `<hr>`,
/// `<header>` and `<html>` are not headings.
pub fn heading_levels(html: &str) -> (v: Vec<usize>)
    ensures
        v@ == spec_heading_levels(html@),
{
    let s = chars_of(html);
    heading_levels_of(&s)
}

fn heading_levels_of(s: &[char]) -> (v: Vec<usize>)
    ensures
        v@ == spec_heading_levels(s@),
{
    let mut v: Vec<usize> = Vec::new();
    let mut i: usize = 0;
    while i < s.len()
        invariant
            0 <= i <= s@.len(),
            spec_heading_levels(s@) == v@ + heading_levels_from(s@, i as int),
        decreases s@.len() - i,
    {
        if s.len() > 3 && i < s.len() - 3 && s[i] == '<' && (s[i + 1] == 'h' || s[i + 1] == 'H') && '1' <= s[i
            + 2] && s[i + 2] <= '6' && (s[i + 3] == '>' || s[i + 3] == ' ' || s[i + 3] == '\t') {
            let d: usize = ((s[i + 2] as u32) - 48) as usize;
            let ghost before = v@;
            v.push(d);
            assert(v@ == before + seq![d]);
        }
        i += 1;
    }
    v
}

/// The first `<img …>` tag starting at or after `c`: its start and the index of
/// its closing `>`.
pub open spec fn next_img(s: Seq<char>, c: int) -> Option<(int, int)> {
    match find_from(s, "<img"@, c) {
        None => None,
        Some(pos) => match find_char(s, '>', pos) {
            None => None,
            Some(end) => Some((pos, end)),
        },
    }
}

/// `<img` at `pos` is a real tag: followed by whitespace, `/` or `>`.
pub open spec fn img_tag_start(s: Seq<char>, pos: int) -> bool {
    pos + 4 < s.len() && (is_ws(s[pos + 4]) || s[pos + 4] == '/' || s[pos + 4] == '>')
}

/// Every `<img …>` tag (without its `>`) found scanning from `c`.
pub open spec fn img_tags_from(s: Seq<char>, c: int) -> Seq<Seq<char>>
    decreases s.len() - c,
{
    if c < 0 || c > s.len() {
        seq![]
    } else {
        match next_img(s, c) {
            None => seq![],
            Some((pos, end)) => {
                proof {
                    lemma_next_img(s, c);
                }
                if end <= c {
                    seq![]
                } else if img_tag_start(s, pos) {
                    seq![s.subrange(pos, end)] + img_tags_from(s, end)
                } else {
                    img_tags_from(s, end)
                }
            },
        }
    }
}

/// Every `<img …>` tag of a document (without its `>`).
pub open spec fn spec_img_tags(s: Seq<char>) -> Seq<Seq<char>> {
    img_tags_from(s, 0)
}

pub proof fn lemma_next_img(s: Seq<char>, c: int)
    requires
        0 <= c,
    ensures
        match next_img(s, c) {
            Some((pos, end)) => c <= pos < end < s.len() && match_at(s, "<img"@, pos),
            None => true,
        },
{
    reveal_strlit("<img");
    lemma_find_from(s, "<img"@, c);
    if let Some(pos) = find_from(s, "<img"@, c) {
        lemma_find_char(s, '>', pos);
        assert(s.subrange(pos, pos + 4)[0] == s[pos]);
    }
}

/// Every `<img …>` tag in a document (`<image>` and text mentioning "img" are not tags).
pub fn img_tags(html: &str) -> (v: Vec<String>)
    ensures
        v@.len() == spec_img_tags(html@).len(),
        forall|k: int| 0 <= k < v@.len() ==> (#[trigger] v@[k])@ == spec_img_tags(html@)[k],
{
    let s = chars_of(html);
    let tags = img_tags_of(&s);
    let mut v: Vec<String> = Vec::new();
    let mut i: usize = 0;
    while i < tags.len()
        invariant
            0 <= i <= tags@.len(),
            s@ == html@,
            views(tags@) == spec_img_tags(s@),
            v@.len() == i,
            forall|k: int| 0 <= k < i ==> (#[trigger] v@[k])@ == spec_img_tags(html@)[k],
        decreases tags@.len() - i,
    {
        let t = string_of(&tags[i]);
        assert(views(tags@)[i as int] == tags@[i as int]@);
        v.push(t);
        i += 1;
    }
    v
}

fn img_tags_of(s: &[char]) -> (v: Vec<Vec<char>>)
    ensures
        views(v@) == spec_img_tags(s@),
{
    let open = chars_of("<img");
    let mut v: Vec<Vec<char>> = Vec::new();
    let mut c: usize = 0;
    loop
        invariant
            0 <= c <= s@.len(),
            open@ == "<img"@,
            spec_img_tags(s@) == views(v@) + img_tags_from(s@, c as int),
        decreases s@.len() - c,
    {
        proof {
            lemma_next_img(s@, c as int);
        }
        let pos = match find(s, &open, c) {
            None => {
                assert(views(v@) + seq![] == views(v@));
                return v;
            },
            Some(p) => p,
        };
        let end = match find_c(s, '>', pos) {
            None => {
                assert(views(v@) + seq![] == views(v@));
                return v;
            },
            Some(e) => e,
        };
        if s.len() > 4 && pos < s.len() - 4 && (ws(s[pos + 4]) || s[pos + 4] == '/' || s[pos + 4] == '>') {
            let tag = sub_vec(s, pos, end);
            let ghost before = v@;
            v.push(tag);
            assert(views(v@) == views(before) + seq![tag@]);
        }
        c = end;
    }
}

/// The value of the double-quoted attribute `name` in a tag: the text after the
/// first `name="` up to the next `"`.
pub open spec fn spec_attr_value(tag: Seq<char>, name: Seq<char>) -> Option<Seq<char>> {
    let pat = name + "=\""@;
    match find_from(tag, pat, 0) {
        None => None,
        Some(i) => match find_char(tag, '"', i + pat.len()) {
            None => None,
            Some(j) => Some(tag.subrange(i + pat.len(), j)),
        },
    }
}

/// Read a double-quoted attribute value out of a tag string.
pub fn attr_value(tag: &str, name: &str) -> (r: Option<String>)
    ensures
        match r {
            Some(v) => spec_attr_value(tag@, name@) == Some(v@),
            None => spec_attr_value(tag@, name@) is None,
        },
{
    let t = chars_of(tag);
    let n = chars_of(name);
    match attr_value_of(&t, &n) {
        Some(v) => Some(string_of(&v)),
        None => None,
    }
}

pub fn attr_value_of(t: &[char], name: &[char]) -> (r: Option<Vec<char>>)
    ensures
        match r {
            Some(v) => spec_attr_value(t@, name@) == Some(v@),
            None => spec_attr_value(t@, name@) is None,
        },
{
    let mut pat = copy_vec(name);
    push_str(&mut pat, "=\"");
    let i = match find(t, &pat, 0) {
        None => return None,
        Some(i) => i,
    };
    proof {
        lemma_find_from(t@, pat@, 0);
    }
    let tl = t.len();
    let start = i + pat.len();
    let j = match find_c(t, '"', start) {
        None => return None,
        Some(j) => j,
    };
    proof {
        lemma_find_char(t@, '"', start as int);
    }
    Some(sub_vec(t, start, j))
}

/// The `<html …>` tag of a document (without `>`), when there is one.
pub open spec fn html_tag(s: Seq<char>) -> Option<Seq<char>> {
    match find_from(s, "<html"@, 0) {
        None => None,
        Some(start) => match find_char(s, '>', start) {
            None => None,
            Some(end) => Some(s.subrange(start, end)),
        },
    }
}

/// The document's `<html>` tag declares a non-blank `lang`.
pub open spec fn spec_has_html_lang(s: Seq<char>) -> bool {
    match html_tag(s) {
        None => false,
        Some(tag) => contains(tag, "lang=\""@) && match spec_attr_value(tag, "lang"@) {
            Some(l) => trim(l).len() > 0,
            None => false,
        },
    }
}

/// True if the document's `<html>` tag declares a language.
pub fn has_html_lang(html: &str) -> (r: bool)
    ensures
        r == spec_has_html_lang(html@),
{
    let s = chars_of(html);
    has_html_lang_of(&s)
}

fn has_html_lang_of(s: &[char]) -> (r: bool)
    ensures
        r == spec_has_html_lang(s@),
{
    let open = chars_of("<html");
    let start = match find(s, &open, 0) {
        None => return false,
        Some(x) => x,
    };
    proof {
        lemma_find_from(s@, open@, 0);
    }
    let end = match find_c(s, '>', start) {
        None => return false,
        Some(x) => x,
    };
    proof {
        lemma_find_char(s@, '>', start as int);
    }
    let tag = sub_vec(s, start, end);
    if !contains_str(&tag, "lang=\"") {
        return false;
    }
    let lang = chars_of("lang");
    match attr_value_of(&tag, &lang) {
        Some(l) => !is_blank(&l),
        None => false,
    }
}

/// The nav document declares a `<nav epub:type="kind">` (with or without spaces
/// around `=`).
pub open spec fn spec_has_nav(nav: Seq<char>, kind: Seq<char>) -> bool {
    contains(nav, "epub:type=\""@ + kind + "\""@) || contains(
        nav,
        "epub:type = \""@ + kind + "\""@,
    )
}

/// True if the nav document contains `<nav epub:type="<kind>">`.
pub fn has_nav(nav: &str, kind: &str) -> (r: bool)
    ensures
        r == spec_has_nav(nav@, kind@),
{
    let s = chars_of(nav);
    has_nav_of(&s, kind)
}

fn has_nav_of(s: &[char], kind: &str) -> (r: bool)
    ensures
        r == spec_has_nav(s@, kind@),
{
    let mut a: Vec<char> = Vec::new();
    push_str(&mut a, "epub:type=\"");
    push_str(&mut a, kind);
    push_str(&mut a, "\"");
    let mut b: Vec<char> = Vec::new();
    push_str(&mut b, "epub:type = \"");
    push_str(&mut b, kind);
    push_str(&mut b, "\"");
    proof {
        assert(a@ == "epub:type=\""@ + kind@ + "\""@);
        assert(b@ == "epub:type = \""@ + kind@ + "\""@);
    }
    find(s, &a, 0).is_some() || find(s, &b, 0).is_some()
}

/// The OPF holds `<tag …>text</tag>` with non-blank text.
pub open spec fn spec_has_nonempty_element(xml: Seq<char>, tag: Seq<char>) -> bool {
    let open = "<"@ + tag;
    let close = "</"@ + tag + ">"@;
    match find_from(xml, open, 0) {
        None => false,
        Some(i) => match find_char(xml, '>', i) {
            None => false,
            Some(r) => match find_from(xml, close, r + 1) {
                None => false,
                Some(j) => trim(xml.subrange(r + 1, j)).len() > 0,
            },
        },
    }
}

/// True if the OPF has a `<tag>…</tag>` with non-empty text.
pub fn has_nonempty_element(xml: &str, tag: &str) -> (r: bool)
    ensures
        r == spec_has_nonempty_element(xml@, tag@),
{
    let s = chars_of(xml);
    has_nonempty_element_of(&s, tag)
}

fn has_nonempty_element_of(s: &[char], tag: &str) -> (r: bool)
    ensures
        r == spec_has_nonempty_element(s@, tag@),
{
    let mut open: Vec<char> = Vec::new();
    push_str(&mut open, "<");
    push_str(&mut open, tag);
    let mut close: Vec<char> = Vec::new();
    push_str(&mut close, "</");
    push_str(&mut close, tag);
    push_str(&mut close, ">");
    let i = match find(s, &open, 0) {
        None => return false,
        Some(i) => i,
    };
    proof {
        lemma_find_from(s@, open@, 0);
    }
    let r = match find_c(s, '>', i) {
        None => return false,
        Some(r) => r,
    };
    proof {
        lemma_find_char(s@, '>', i as int);
    }
    let sl = s.len();
    let gt = r + 1;
    let j = match find(s, &close, gt) {
        None => return false,
        Some(j) => j,
    };
    proof {
        lemma_find_from(s@, close@, gt as int);
    }
    let inner = sub_vec(s, gt, j);
    !is_blank(&inner)
}


/// Documents (name, XHTML) as plain values.
pub open spec fn dv(d: Seq<(String, String)>) -> Seq<(Seq<char>, Seq<char>)> {
    d.map_values(|p: (String, String)| (p.0@, p.1@))
}

// ---------------------------------------------------------------------------
// Heading hierarchy
// ---------------------------------------------------------------------------

/// Messages `name: hP → hL` for each level `L` of `lv` that jumps more than one
/// level below the previous heading `P` (the first heading is never a jump).
pub open spec fn skip_msgs(name: Seq<char>, lv: Seq<usize>, prev: int) -> Seq<Seq<char>>
    decreases lv.len(),
{
    if lv.len() == 0 {
        seq![]
    } else {
        let l = lv[0] as int;
        (if prev > 0 && l > prev + 1 {
            seq![name + ": h"@ + dec(prev as nat) + " → h"@ + dec(l as nat)]
        } else {
            seq![]
        }) + skip_msgs(name, lv.drop_first(), l)
    }
}

/// Every skipped heading level of every document, in order.
pub open spec fn heading_problems(docs: Seq<(Seq<char>, Seq<char>)>) -> Seq<Seq<char>>
    decreases docs.len(),
{
    if docs.len() == 0 {
        seq![]
    } else {
        heading_problems(docs.drop_last()) + skip_msgs(
            docs.last().0,
            spec_heading_levels(docs.last().1),
            0,
        )
    }
}

pub open spec fn spec_audit_headings(docs: Seq<(Seq<char>, Seq<char>)>) -> Seq<(Level, Seq<char>)> {
    let bad = heading_problems(docs);
    if bad.len() == 0 {
        seq![(Level::Pass, "a11y EPUB: heading hierarchy has no skipped levels"@)]
    } else {
        seq![
            (
                Level::Warn,
                "a11y EPUB: heading level skipped (breaks the outline; blocks PDF/UA-1) — "@
                    + join(bad, "; "@),
            ),
        ]
    }
}

/// Heading hierarchy: a document must not skip a level (`<h1>` then `<h3>`).
/// Reported as a warning, never an error.
pub fn audit_headings(docs: &[(String, String)]) -> (f: Vec<Finding>)
    ensures
        fviews(f@) == spec_audit_headings(dv(docs@)),
{
    let mut bad: Vec<Vec<char>> = Vec::new();
    let mut i: usize = 0;
    while i < docs.len()
        invariant
            0 <= i <= dv(docs@).len(),
            views(bad@) == heading_problems(dv(docs@).take(i as int)),
        decreases dv(docs@).len() - i,
    {
        let name = chars_of(docs[i].0.as_str());
        let lv = heading_levels(docs[i].1.as_str());
        let ghost target = heading_problems(dv(docs@).take(i as int + 1));
        proof {
            assert(dv(docs@).take(i as int + 1).drop_last() == dv(docs@).take(i as int));
            assert(dv(docs@).take(i as int + 1).last() == dv(docs@)[i as int]);
            assert(lv@.skip(0) == lv@);
        }
        let mut prev: usize = 0;
        let mut j: usize = 0;
        while j < lv.len()
            invariant
                0 <= j <= lv@.len(),
                target == views(bad@) + skip_msgs(name@, lv@.skip(j as int), prev as int),
            decreases lv@.len() - j,
        {
            let l = lv[j];
            proof {
                assert(lv@.skip(j as int)[0] == l);
                assert(lv@.skip(j as int).drop_first() == lv@.skip(j as int + 1));
            }
            if prev > 0 && l > prev && l - prev > 1 {
                let mut m = copy_vec(&name);
                push_str(&mut m, ": h");
                let a = dec_chars(prev);
                push_slice(&mut m, &a);
                push_str(&mut m, " → h");
                let b = dec_chars(l);
                push_slice(&mut m, &b);
                let ghost before = bad@;
                bad.push(m);
                assert(views(bad@) == views(before) + seq![m@]);
            }
            prev = l;
            j += 1;
        }
        proof {
            assert(lv@.skip(lv@.len() as int) == Seq::<usize>::empty());
        }
        i += 1;
    }
    proof {
        assert(dv(docs@).take(dv(docs@).len() as int) == dv(docs@));
    }
    let mut f: Vec<Finding> = Vec::new();
    if bad.len() == 0 {
        f.push(finding_lit(Level::Pass, "a11y EPUB: heading hierarchy has no skipped levels"));
    } else {
        let mut m: Vec<char> = Vec::new();
        push_str(
            &mut m,
            "a11y EPUB: heading level skipped (breaks the outline; blocks PDF/UA-1) — ",
        );
        let j = join_vecs(&bad, "; ");
        push_slice(&mut m, &j);
        f.push(finding(Level::Warn, &m));
    }
    assert(fviews(f@) =~= spec_audit_headings(dv(docs@)));
    f
}

// ---------------------------------------------------------------------------
// Package document
// ---------------------------------------------------------------------------

/// The schema.org accessibility properties every EPUB must carry.
pub open spec fn a11y_props() -> Seq<Seq<char>> {
    seq![
        "schema:accessMode"@,
        "schema:accessModeSufficient"@,
        "schema:accessibilityFeature"@,
        "schema:accessibilityHazard"@,
        "schema:accessibilitySummary"@,
    ]
}

/// The properties of `props` that the OPF does not declare as `property="…"`.
pub open spec fn missing_props(opf: Seq<char>, props: Seq<Seq<char>>) -> Seq<Seq<char>>
    decreases props.len(),
{
    if props.len() == 0 {
        seq![]
    } else {
        missing_props(opf, props.drop_last()) + if contains(
            opf,
            "property=\""@ + props.last() + "\""@,
        ) {
            seq![]
        } else {
            seq![props.last()]
        }
    }
}

pub open spec fn spec_audit_opf(opf: Seq<char>) -> Seq<(Level, Seq<char>)> {
    let missing = missing_props(opf, a11y_props());
    seq![
        if missing.len() == 0 {
            (
                Level::Pass,
                "a11y EPUB: accessibility metadata complete (accessMode, accessModeSufficient, accessibilityFeature, accessibilityHazard, accessibilitySummary)"@,
            )
        } else {
            (
                Level::Fail,
                "a11y EPUB: OPF is missing accessibility metadata: "@ + join(missing, ", "@),
            )
        },
        if spec_has_nonempty_element(opf, "dc:language"@) {
            (Level::Pass, "a11y EPUB: dc:language set"@)
        } else {
            (Level::Fail, "a11y EPUB: no dc:language in the OPF"@)
        },
        if contains(opf, "cover-image"@) {
            (Level::Pass, "a11y EPUB: cover image declared (manifest properties=\"cover-image\")"@)
        } else {
            (Level::Warn, "a11y EPUB: no cover image declared in the manifest"@)
        },
    ]
}

fn a11y_prop(k: usize) -> (p: &'static str)
    requires
        k < 5,
    ensures
        p@ == a11y_props()[k as int],
{
    if k == 0 {
        "schema:accessMode"
    } else if k == 1 {
        "schema:accessModeSufficient"
    } else if k == 2 {
        "schema:accessibilityFeature"
    } else if k == 3 {
        "schema:accessibilityHazard"
    } else {
        "schema:accessibilitySummary"
    }
}

/// OPF checks: the schema.org accessibility metadata, `dc:language`, and the
/// manifest's `cover-image` (absent cover only warns).
pub fn audit_opf(opf: &str) -> (f: Vec<Finding>)
    ensures
        fviews(f@) == spec_audit_opf(opf@),
{
    let s = chars_of(opf);
    let mut missing: Vec<Vec<char>> = Vec::new();
    let mut k: usize = 0;
    while k < 5
        invariant
            0 <= k <= 5,
            s@ == opf@,
            views(missing@) == missing_props(opf@, a11y_props().take(k as int)),
        decreases 5 - k,
    {
        let p = a11y_prop(k);
        let mut pat: Vec<char> = Vec::new();
        push_str(&mut pat, "property=\"");
        push_str(&mut pat, p);
        push_str(&mut pat, "\"");
        proof {
            assert(a11y_props().take(k as int + 1).drop_last() == a11y_props().take(k as int));
            assert(a11y_props().take(k as int + 1).last() == p@);
            assert(pat@ == "property=\""@ + p@ + "\""@);
        }
        if find(&s, &pat, 0).is_none() {
            let pv = chars_of(p);
            let ghost before = missing@;
            missing.push(pv);
            assert(views(missing@) == views(before) + seq![pv@]);
        } else {
            assert(views(missing@) == views(missing@) + Seq::<Seq<char>>::empty());
        }
        k += 1;
    }
    assert(a11y_props().take(5) == a11y_props());
    let mut f: Vec<Finding> = Vec::new();
    if missing.len() == 0 {
        f.push(
            finding_lit(
                Level::Pass,
                "a11y EPUB: accessibility metadata complete (accessMode, accessModeSufficient, accessibilityFeature, accessibilityHazard, accessibilitySummary)",
            ),
        );
    } else {
        let mut m: Vec<char> = Vec::new();
        push_str(&mut m, "a11y EPUB: OPF is missing accessibility metadata: ");
        let j = join_vecs(&missing, ", ");
        push_slice(&mut m, &j);
        f.push(finding(Level::Fail, &m));
    }
    if has_nonempty_element_of(&s, "dc:language") {
        f.push(finding_lit(Level::Pass, "a11y EPUB: dc:language set"));
    } else {
        f.push(finding_lit(Level::Fail, "a11y EPUB: no dc:language in the OPF"));
    }
    if contains_str(&s, "cover-image") {
        f.push(
            finding_lit(
                Level::Pass,
                "a11y EPUB: cover image declared (manifest properties=\"cover-image\")",
            ),
        );
    } else {
        f.push(finding_lit(Level::Warn, "a11y EPUB: no cover image declared in the manifest"));
    }
    assert(fviews(f@) =~= spec_audit_opf(opf@));
    f
}


// ---------------------------------------------------------------------------
// Image alt text
// ---------------------------------------------------------------------------

/// An `<img>` tag whose `alt` is absent or blank.
pub open spec fn alt_missing(tag: Seq<char>) -> bool {
    match spec_attr_value(tag, "alt"@) {
        Some(a) => trim(a).len() == 0,
        None => true,
    }
}

/// The `src` of a tag, or `(no src)`.
pub open spec fn src_or_none(tag: Seq<char>) -> Seq<char> {
    match spec_attr_value(tag, "src"@) {
        Some(s) => s,
        None => "(no src)"@,
    }
}

/// One error message per undescribed image of the tags `tags` of document `name`.
pub open spec fn tag_offenders(name: Seq<char>, tags: Seq<Seq<char>>) -> Seq<Seq<char>>
    decreases tags.len(),
{
    if tags.len() == 0 {
        seq![]
    } else {
        tag_offenders(name, tags.drop_last()) + if alt_missing(tags.last()) {
            seq![
                "a11y EPUB: <img> without alt text — "@ + name + ": "@ + src_or_none(
                    tags.last(),
                ),
            ]
        } else {
            seq![]
        }
    }
}

/// The undescribed-image messages of every document, in order.
pub open spec fn img_offenders(docs: Seq<(Seq<char>, Seq<char>)>) -> Seq<Seq<char>>
    decreases docs.len(),
{
    if docs.len() == 0 {
        seq![]
    } else {
        img_offenders(docs.drop_last()) + tag_offenders(
            docs.last().0,
            spec_img_tags(docs.last().1),
        )
    }
}

/// The number of `<img>` tags over all documents.
pub open spec fn total_imgs(docs: Seq<(Seq<char>, Seq<char>)>) -> nat
    decreases docs.len(),
{
    if docs.len() == 0 {
        0
    } else {
        total_imgs(docs.drop_last()) + spec_img_tags(docs.last().1).len()
    }
}

pub open spec fn spec_audit_img_alt(docs: Seq<(Seq<char>, Seq<char>)>) -> Seq<(Level, Seq<char>)> {
    let bad = img_offenders(docs);
    if bad.len() == 0 {
        seq![
            (
                Level::Pass,
                "a11y EPUB: every image has alt text ("@ + dec(total_imgs(docs)) + " image(s))"@,
            ),
        ]
    } else {
        bad.map_values(|m: Seq<char>| (Level::Fail, m))
    }
}

/// Every `<img>` must carry non-empty alt text: one error naming the document and
/// the image `src` per undescribed image, else one pass line with the image count.
pub fn audit_img_alt(docs: &[(String, String)]) -> (f: Vec<Finding>)
    requires
        total_imgs(dv(docs@)) <= usize::MAX,
    ensures
        fviews(f@) == spec_audit_img_alt(dv(docs@)),
{
    let alt = chars_of("alt");
    let srcn = chars_of("src");
    let mut bad: Vec<Vec<char>> = Vec::new();
    let mut total: usize = 0;
    let mut i: usize = 0;
    while i < docs.len()
        invariant
            0 <= i <= dv(docs@).len(),
            alt@ == "alt"@,
            srcn@ == "src"@,
            total_imgs(dv(docs@)) <= usize::MAX,
            views(bad@) == img_offenders(dv(docs@).take(i as int)),
            total == total_imgs(dv(docs@).take(i as int)),
        decreases dv(docs@).len() - i,
    {
        let name = chars_of(docs[i].0.as_str());
        let html = chars_of(docs[i].1.as_str());
        let tags = img_tags_of(&html);
        let ghost tv = views(tags@);
        proof {
            assert(dv(docs@).take(i as int + 1).drop_last() == dv(docs@).take(i as int));
            assert(dv(docs@).take(i as int + 1).last() == dv(docs@)[i as int]);
            lemma_total_prefix(dv(docs@), i as int + 1);
        }
        let ghost base = views(bad@);
        let mut j: usize = 0;
        while j < tags.len()
            invariant
                0 <= j <= tags@.len(),
                tv == views(tags@),
                alt@ == "alt"@,
                srcn@ == "src"@,
                views(bad@) == base + tag_offenders(name@, tv.take(j as int)),
            decreases tags@.len() - j,
        {
            let tag = &tags[j];
            proof {
                assert(tv.take(j as int + 1).drop_last() == tv.take(j as int));
                assert(tv.take(j as int + 1).last() == tag@);
            }
            let missing = match attr_value_of(tag, &alt) {
                Some(a) => is_blank(&a),
                None => true,
            };
            if missing {
                let mut m: Vec<char> = Vec::new();
                push_str(&mut m, "a11y EPUB: <img> without alt text — ");
                push_slice(&mut m, &name);
                push_str(&mut m, ": ");
                match attr_value_of(tag, &srcn) {
                    Some(sv) => push_slice(&mut m, &sv),
                    None => push_str(&mut m, "(no src)"),
                }
                let ghost before = bad@;
                bad.push(m);
                assert(views(bad@) == views(before) + seq![m@]);
            } else {
                assert(views(bad@) == views(bad@) + Seq::<Seq<char>>::empty());
            }
            j += 1;
        }
        assert(tv.take(tags@.len() as int) == tv);
        total = total + tags.len();
        i += 1;
    }
    assert(dv(docs@).take(dv(docs@).len() as int) == dv(docs@));
    let mut f: Vec<Finding> = Vec::new();
    if bad.len() == 0 {
        let mut m: Vec<char> = Vec::new();
        push_str(&mut m, "a11y EPUB: every image has alt text (");
        let d = dec_chars(total);
        push_slice(&mut m, &d);
        push_str(&mut m, " image(s))");
        f.push(finding(Level::Pass, &m));
    } else {
        let mut k: usize = 0;
        while k < bad.len()
            invariant
                0 <= k <= bad@.len(),
                fviews(f@) == views(bad@).take(k as int).map_values(
                    |m: Seq<char>| (Level::Fail, m),
                ),
            decreases bad@.len() - k,
        {
            let x = finding(Level::Fail, &bad[k]);
            let ghost f0 = f@;
            f.push(x);
            assert(fviews(f@) =~= fviews(f0).push(x@));
            assert(views(bad@).take(k as int + 1) == views(bad@).take(k as int).push(
                bad@[k as int]@,
            ));
            assert(fviews(f@) =~= views(bad@).take(k as int + 1).map_values(
                |m: Seq<char>| (Level::Fail, m),
            ));
            k += 1;
        }
        assert(views(bad@).take(bad@.len() as int) == views(bad@));
    }
    assert(fviews(f@) =~= spec_audit_img_alt(dv(docs@)));
    f
}

proof fn lemma_total_prefix(docs: Seq<(Seq<char>, Seq<char>)>, k: int)
    requires
        0 <= k <= docs.len(),
    ensures
        total_imgs(docs.take(k)) <= total_imgs(docs),
    decreases docs.len(),
{
    if k < docs.len() {
        assert(docs.drop_last().take(k) == docs.take(k));
        lemma_total_prefix(docs.drop_last(), k);
    } else {
        assert(docs.take(k) == docs);
    }
}

// ---------------------------------------------------------------------------
// Document languages
// ---------------------------------------------------------------------------

/// Names of the documents without a declared language.
pub open spec fn lang_missing(docs: Seq<(Seq<char>, Seq<char>)>) -> Seq<Seq<char>>
    decreases docs.len(),
{
    if docs.len() == 0 {
        seq![]
    } else {
        lang_missing(docs.drop_last()) + if spec_has_html_lang(docs.last().1) {
            seq![]
        } else {
            seq![docs.last().0]
        }
    }
}

pub open spec fn spec_audit_doc_langs(docs: Seq<(Seq<char>, Seq<char>)>) -> Seq<(Level, Seq<char>)> {
    let missing = lang_missing(docs);
    if missing.len() == 0 {
        seq![
            (
                Level::Pass,
                "a11y EPUB: lang/xml:lang on all "@ + dec(docs.len()) + " content document(s)"@,
            ),
        ]
    } else {
        seq![(Level::Fail, "a11y EPUB: no lang/xml:lang on: "@ + join(missing, ", "@))]
    }
}

/// Every content document needs a language (WCAG 3.1.1).
pub fn audit_doc_langs(docs: &[(String, String)]) -> (f: Vec<Finding>)
    ensures
        fviews(f@) == spec_audit_doc_langs(dv(docs@)),
{
    let mut missing: Vec<Vec<char>> = Vec::new();
    let mut i: usize = 0;
    while i < docs.len()
        invariant
            0 <= i <= dv(docs@).len(),
            views(missing@) == lang_missing(dv(docs@).take(i as int)),
        decreases dv(docs@).len() - i,
    {
        proof {
            assert(dv(docs@).take(i as int + 1).drop_last() == dv(docs@).take(i as int));
            assert(dv(docs@).take(i as int + 1).last() == dv(docs@)[i as int]);
        }
        if !has_html_lang(docs[i].1.as_str()) {
            let n = chars_of(docs[i].0.as_str());
            let ghost before = missing@;
            missing.push(n);
            assert(views(missing@) == views(before) + seq![n@]);
        } else {
            assert(views(missing@) == views(missing@) + Seq::<Seq<char>>::empty());
        }
        i += 1;
    }
    assert(dv(docs@).take(dv(docs@).len() as int) == dv(docs@));
    let mut f: Vec<Finding> = Vec::new();
    if missing.len() == 0 {
        let mut m: Vec<char> = Vec::new();
        push_str(&mut m, "a11y EPUB: lang/xml:lang on all ");
        let d = dec_chars(docs.len());
        push_slice(&mut m, &d);
        push_str(&mut m, " content document(s)");
        f.push(finding(Level::Pass, &m));
    } else {
        let mut m: Vec<char> = Vec::new();
        push_str(&mut m, "a11y EPUB: no lang/xml:lang on: ");
        let j = join_vecs(&missing, ", ");
        push_slice(&mut m, &j);
        f.push(finding(Level::Fail, &m));
    }
    assert(fviews(f@) =~= spec_audit_doc_langs(dv(docs@)));
    f
}

// ---------------------------------------------------------------------------
// Navigation document
// ---------------------------------------------------------------------------

/// A document that is the nav document: named `…nav.xhtml`, or declaring a toc nav.
pub open spec fn is_nav_doc(name: Seq<char>, html: Seq<char>) -> bool {
    ends_with(name, "nav.xhtml"@) || contains(html, "epub:type=\"toc\""@) || contains(
        html,
        "epub:type = \"toc\""@,
    )
}

/// Index of the first nav document at or after `i`.
pub open spec fn first_nav(docs: Seq<(Seq<char>, Seq<char>)>, i: int) -> Option<int>
    decreases docs.len() - i,
{
    if i < 0 || i >= docs.len() {
        None
    } else if is_nav_doc(docs[i].0, docs[i].1) {
        Some(i)
    } else {
        first_nav(docs, i + 1)
    }
}

pub open spec fn spec_audit_nav(docs: Seq<(Seq<char>, Seq<char>)>) -> Seq<(Level, Seq<char>)> {
    match first_nav(docs, 0) {
        None => seq![(Level::Fail, "a11y EPUB: no nav document with a toc"@)],
        Some(k) => {
            let nav = docs[k].1;
            let entries = count_from(nav, "<li>"@, 0);
            seq![
                if spec_has_nav(nav, "toc"@) && entries > 0 {
                    (Level::Pass, "a11y EPUB: nav TOC present ("@ + dec(entries) + " entries)"@)
                } else {
                    (Level::Fail, "a11y EPUB: nav TOC missing or empty"@)
                },
                if spec_has_nav(nav, "landmarks"@) {
                    (Level::Pass, "a11y EPUB: landmarks nav present"@)
                } else {
                    (Level::Warn, "a11y EPUB: no landmarks nav (recommended, not required)"@)
                },
                if spec_has_nav(nav, "page-list"@) {
                    (Level::Pass, "a11y EPUB: page-list nav present"@)
                } else {
                    (
                        Level::Warn,
                        "a11y EPUB: no page-list nav (recommended; needs real print-page anchors, which bookmill does not emit)"@,
                    )
                },
            ]
        },
    }
}

/// The nav document: a `toc` nav with entries (required), plus the recommended
/// `landmarks` and `page-list` navs (absence warns, never errors).
pub fn audit_nav(docs: &[(String, String)]) -> (f: Vec<Finding>)
    ensures
        fviews(f@) == spec_audit_nav(dv(docs@)),
{
    let mut i: usize = 0;
    let mut found: Option<usize> = None;
    while i < docs.len()
        invariant_except_break
            0 <= i <= dv(docs@).len(),
            found is None,
            first_nav(dv(docs@), 0) == first_nav(dv(docs@), i as int),
        ensures
            match found {
                Some(k) => k < dv(docs@).len() && first_nav(dv(docs@), 0) == Some(k as int),
                None => first_nav(dv(docs@), 0) is None,
            },
        decreases dv(docs@).len() - i,
    {
        let name = chars_of(docs[i].0.as_str());
        let html = chars_of(docs[i].1.as_str());
        if finishes(&name, "nav.xhtml") || contains_str(&html, "epub:type=\"toc\"")
            || contains_str(&html, "epub:type = \"toc\"") {
            found = Some(i);
            break;
        }
        i += 1;
    }
    let mut f: Vec<Finding> = Vec::new();
    let k = match found {
        None => {
            f.push(finding_lit(Level::Fail, "a11y EPUB: no nav document with a toc"));
            assert(fviews(f@) =~= spec_audit_nav(dv(docs@)));
            return f;
        },
        Some(k) => k,
    };
    let nav = chars_of(docs[k].1.as_str());
    let entries = count_matches(&nav, "<li>");
    if has_nav_of(&nav, "toc") && entries > 0 {
        let mut m: Vec<char> = Vec::new();
        push_str(&mut m, "a11y EPUB: nav TOC present (");
        let d = dec_chars(entries);
        push_slice(&mut m, &d);
        push_str(&mut m, " entries)");
        f.push(finding(Level::Pass, &m));
    } else {
        f.push(finding_lit(Level::Fail, "a11y EPUB: nav TOC missing or empty"));
    }
    if has_nav_of(&nav, "landmarks") {
        f.push(finding_lit(Level::Pass, "a11y EPUB: landmarks nav present"));
    } else {
        f.push(finding_lit(Level::Warn, "a11y EPUB: no landmarks nav (recommended, not required)"));
    }
    if has_nav_of(&nav, "page-list") {
        f.push(finding_lit(Level::Pass, "a11y EPUB: page-list nav present"));
    } else {
        f.push(
            finding_lit(
                Level::Warn,
                "a11y EPUB: no page-list nav (recommended; needs real print-page anchors, which bookmill does not emit)",
            ),
        );
    }
    assert(fviews(f@) =~= spec_audit_nav(dv(docs@)));
    f
}

// ---------------------------------------------------------------------------
// Whole-artifact reports
// ---------------------------------------------------------------------------

pub open spec fn spec_audit_epub_texts(opf: Seq<char>, docs: Seq<(Seq<char>, Seq<char>)>) -> Seq<
    (Level, Seq<char>),
> {
    if opf.len() == 0 {
        seq![(Level::Fail, "a11y: no OPF package document found in the EPUB"@)]
    } else {
        spec_audit_opf(opf) + spec_audit_img_alt(docs) + spec_audit_doc_langs(docs)
            + spec_audit_nav(docs) + spec_audit_headings(docs)
    }
}

/// The full EPUB report from its package document and its (name, XHTML) content
/// documents: one error when there is no OPF, else the OPF, alt-text, language,
/// nav and heading checks in that order.
pub fn audit_epub_texts(opf: &str, docs: &[(String, String)]) -> (f: Vec<Finding>)
    requires
        total_imgs(dv(docs@)) <= usize::MAX,
    ensures
        fviews(f@) == spec_audit_epub_texts(opf@, dv(docs@)),
{
    if opf.is_empty() {
        let mut f: Vec<Finding> = Vec::new();
        f.push(finding_lit(Level::Fail, "a11y: no OPF package document found in the EPUB"));
        assert(fviews(f@) =~= spec_audit_epub_texts(opf@, dv(docs@)));
        return f;
    }
    let mut f = audit_opf(opf);
    let mut a = audit_img_alt(docs);
    let mut b = audit_doc_langs(docs);
    let mut c = audit_nav(docs);
    let mut d = audit_headings(docs);
    let ghost (f0, a0, b0, c0, d0) = (f@, a@, b@, c@, d@);
    f.append(&mut a);
    f.append(&mut b);
    f.append(&mut c);
    f.append(&mut d);
    assert(f@ == f0 + a0 + b0 + c0 + d0);
    assert(fviews(f@) =~= fviews(f0) + fviews(a0) + fviews(b0) + fviews(c0) + fviews(d0));
    f
}

/// The texts an EPUB audit reads, in archive order: the package document
/// (the last `.opf` entry that is UTF-8 text) and every `.xhtml` or `.html`
/// content document that is UTF-8 text, with its name. Directories, other
/// entries and entries that cannot be read are passed over.
pub open spec fn epub_texts(es: Seq<EntryView>) -> (Seq<char>, Seq<(Seq<char>, Seq<char>)>)
    decreases es.len(),
{
    if es.len() == 0 {
        (seq![], seq![])
    } else {
        let p = epub_texts(es.drop_last());
        let e = es.last();
        let is_opf = ends_with(e.0, ".opf"@);
        let is_doc = ends_with(e.0, ".xhtml"@) || ends_with(e.0, ".html"@);
        if e.1 || (!is_opf && !is_doc) {
            p
        } else {
            match e.2 {
                Err(_) => p,
                Ok(d) => match utf8_text(d) {
                    None => p,
                    Some(t) => if is_opf {
                        (t, p.1)
                    } else {
                        (p.0, p.1.push((e.0, t)))
                    },
                },
            }
        }
    }
}

/// The accessibility report of an EPUB's bytes, or why the archive cannot be
/// read.
pub open spec fn spec_audit_epub(bytes: Seq<u8>) -> Result<Seq<(Level, Seq<char>)>, Seq<char>> {
    match zip_listing(bytes) {
        Err(m) => Err(m),
        Ok(es) => Ok(spec_audit_epub_texts(epub_texts(es).0, epub_texts(es).1)),
    }
}

fn epub_texts_exec(es: &Vec<ZipEntry>) -> (r: (String, Vec<(String, String)>))
    ensures
        r.0@ == epub_texts(entries_view(es@)).0,
        dv(r.1@) == epub_texts(entries_view(es@)).1,
{
    let ghost ev = entries_view(es@);
    let mut opf = string_of(&Vec::new());
    let mut docs: Vec<(String, String)> = Vec::new();
    let mut i: usize = 0;
    while i < es.len()
        invariant
            0 <= i <= es@.len(),
            ev == entries_view(es@),
            opf@ == epub_texts(ev.take(i as int)).0,
            dv(docs@) =~= epub_texts(ev.take(i as int)).1,
        decreases es@.len() - i,
    {
        assert(ev.take(i as int + 1).drop_last() =~= ev.take(i as int));
        assert(ev.take(i as int + 1).last() == ev[i as int]);
        let e = &es[i];
        let name = chars_of(e.name.as_str());
        let is_opf = finishes(&name, ".opf");
        let is_doc = finishes(&name, ".xhtml") || finishes(&name, ".html");
        if !e.is_dir && (is_opf || is_doc) {
            match &e.data {
                Err(_) => {},
                Ok(d) => match from_utf8(d.as_slice()) {
                    None => {},
                    Some(t) => {
                        if is_opf {
                            opf = t;
                        } else {
                            let ghost before = dv(docs@);
                            docs.push((copy_string(e.name.as_str()), t));
                            assert(dv(docs@) =~= before.push((e.name@, docs@.last().1@)));
                        }
                    },
                },
            }
        }
        i += 1;
    }
    assert(ev.take(es@.len() as int) =~= ev);
    (opf, docs)
}

fn images_total(docs: &Vec<(String, String)>) -> (r: Option<usize>)
    ensures
        match r {
            Some(n) => n == total_imgs(dv(docs@)),
            None => total_imgs(dv(docs@)) > usize::MAX,
        },
{
    let mut total: usize = 0;
    let mut i: usize = 0;
    while i < docs.len()
        invariant
            0 <= i <= docs@.len(),
            total == total_imgs(dv(docs@).take(i as int)),
        decreases docs@.len() - i,
    {
        assert(dv(docs@).take(i as int + 1).drop_last() =~= dv(docs@).take(i as int));
        let n = img_tags(docs[i].1.as_str()).len();
        match total.checked_add(n) {
            Some(t) => total = t,
            None => {
                proof {
                    lemma_total_prefix(dv(docs@), i as int + 1);
                }
                return None;
            },
        }
        i += 1;
    }
    assert(dv(docs@).take(docs@.len() as int) =~= dv(docs@));
    Some(total)
}

/// Audit a built EPUB from its bytes: the report of `audit_epub_texts` over
/// its package document and content documents, or the `zip` crate's error
/// when the archive cannot be read. (An archive with more `<img>` tags than a
/// `usize` counts is refused too.)
pub fn audit_epub(epub: &[u8]) -> (r: Result<Vec<Finding>, String>)
    ensures
        match r {
            Ok(f) => spec_audit_epub(epub@) == Ok::<Seq<(Level, Seq<char>)>, Seq<char>>(fviews(f@)),
            Err(m) => spec_audit_epub(epub@) == Err::<Seq<(Level, Seq<char>)>, Seq<char>>(m@) || (zip_listing(
                epub@,
            ) matches Ok(es) && total_imgs(epub_texts(es).1) > usize::MAX),
        },
{
    let es = match read_zip(epub) {
        Err(m) => return Err(m),
        Ok(v) => v,
    };
    let (opf, docs) = epub_texts_exec(&es);
    match images_total(&docs) {
        None => Err(string_of(&chars_of("too many images to audit"))),
        Some(_) => Ok(audit_epub_texts(opf.as_str(), docs.as_slice())),
    }
}

pub open spec fn spec_audit_pdf(title: Option<Seq<char>>, lang: Option<Seq<char>>, tagged: bool) -> Seq<
    (Level, Seq<char>),
> {
    seq![
        match title {
            Some(t) => (Level::Pass, "a11y PDF: title set (\""@ + t + "\")"@),
            None => (Level::Fail, "a11y PDF: no document title (fails every accessibility check)"@),
        },
        match lang {
            Some(l) => (Level::Pass, "a11y PDF: language set (/Lang "@ + l + ")"@),
            None => (Level::Fail, "a11y PDF: no document language (/Lang)"@),
        },
        if tagged {
            (Level::Pass, "a11y PDF: tagged (structure tree present)"@)
        } else {
            (
                Level::Warn,
                "a11y PDF: not tagged (no structure tree) — the Ghostscript digital-PDF compression drops it"@,
            )
        },
    ]
}

/// The PDF report from the document's title, catalog `/Lang` and whether it is
/// tagged (a structure tree is present).
pub fn audit_pdf(title: Option<&str>, lang: Option<&str>, tagged: bool) -> (f: Vec<Finding>)
    ensures
        fviews(f@) == spec_audit_pdf(
            match title {
                Some(t) => Some(t@),
                None => None,
            },
            match lang {
                Some(l) => Some(l@),
                None => None,
            },
            tagged,
        ),
{
    let mut f: Vec<Finding> = Vec::new();
    match title {
        Some(t) => {
            let mut m: Vec<char> = Vec::new();
            push_str(&mut m, "a11y PDF: title set (\"");
            push_str(&mut m, t);
            push_str(&mut m, "\")");
            f.push(finding(Level::Pass, &m));
        },
        None => f.push(
            finding_lit(Level::Fail, "a11y PDF: no document title (fails every accessibility check)"),
        ),
    }
    match lang {
        Some(l) => {
            let mut m: Vec<char> = Vec::new();
            push_str(&mut m, "a11y PDF: language set (/Lang ");
            push_str(&mut m, l);
            push_str(&mut m, ")");
            f.push(finding(Level::Pass, &m));
        },
        None => f.push(finding_lit(Level::Fail, "a11y PDF: no document language (/Lang)")),
    }
    if tagged {
        f.push(finding_lit(Level::Pass, "a11y PDF: tagged (structure tree present)"));
    } else {
        f.push(
            finding_lit(
                Level::Warn,
                "a11y PDF: not tagged (no structure tree) — the Ghostscript digital-PDF compression drops it",
            ),
        );
    }
    assert(fviews(f@) =~= spec_audit_pdf(
        match title {
            Some(t) => Some(t@),
            None => None,
        },
        match lang {
            Some(l) => Some(l@),
            None => None,
        },
        tagged,
    ));
    f
}

// ---------------------------------------------------------------------------
// Laws
// ---------------------------------------------------------------------------

/// A skipped heading level is only ever a warning, never an error.
pub proof fn law_headings_never_fail(docs: Seq<(Seq<char>, Seq<char>)>)
    ensures
        forall|i: int|
            0 <= i < spec_audit_headings(docs).len() ==> (#[trigger] spec_audit_headings(docs)[i]).0
                != Level::Fail,
        spec_audit_headings(docs).len() == 1,
{
}

/// The alt-text check reports an error exactly when some image lacks alt text,
/// one per such image; otherwise it passes with one line.
pub proof fn law_img_alt_fails_iff_undescribed(docs: Seq<(Seq<char>, Seq<char>)>)
    ensures
        (exists|i: int|
            0 <= i < spec_audit_img_alt(docs).len() && (#[trigger] spec_audit_img_alt(docs)[i]).0
                == Level::Fail) <==> img_offenders(docs).len() > 0,
        img_offenders(docs).len() > 0 ==> spec_audit_img_alt(docs).len() == img_offenders(docs).len(),
{
    let r = spec_audit_img_alt(docs);
    if img_offenders(docs).len() > 0 {
        assert(r[0].0 == Level::Fail);
    } else {
        assert forall|i: int| 0 <= i < r.len() implies (#[trigger] r[i]).0 != Level::Fail by {
        }
    }
}

} // verus!
