//! KDP listing worksheets: the scaffold written for a book and the checks an
//! edited worksheet must pass (title and subtitle within 200 characters,
//! exactly seven keywords of at most 50 characters, two or three BISAC
//! categories, no `TODO` left).
use vstd::prelude::*;
use crate::text::{
    begins, chars_of, contains, contains_str, dec, dec_chars, find, find_c, find_char, find_from,
    lemma_find_char, lemma_find_from, lines, lines_of, push_slice, push_str, starts_with, string_of,
    sub_vec, trim, trimmed, views,
};
use crate::typst::svs;

verus! {

/// The most characters a title and subtitle may have together.
pub const LIM_TITLE_SUB: usize = 200;

/// The most characters a keyword may have.
pub const LIM_KEYWORD: usize = 50;

/// The number of keyword slots.
pub const LIM_KEYWORDS_COUNT: usize = 7;

/// The listing block of one language in a new worksheet.
pub open spec fn lang_block(slug: Seq<char>, books_dir: Seq<char>, lang: Seq<char>, title: Seq<char>) -> Seq<char> {
    "- **title:** "@ + title + "\n- **subtitle:**\n- **cover:** "@ + books_dir + "/"@ + slug
        + "/cover/front-"@ + lang + ".png (eBook) · cover/wrap-"@ + lang
        + "-KDP.pdf (paperback)\n- **keywords:**\n  1.\n  2.\n  3.\n  4.\n  5.\n  6.\n  7.\n- **bisac_categories:**\n  1.\n  2.\n- **audience / reading_age:**\n- **blurb:** |\n  TODO\n"@
}

/// A new worksheet for a book: the limits, then a Spanish and an English block.
pub open spec fn spec_template(slug: Seq<char>, books_dir: Seq<char>, es_title: Seq<char>, en_title: Seq<char>) -> Seq<char> {
    "# KDP metadata — "@ + slug
        + "\n\n> Listing data for Amazon KDP. Fill every field. Keep ES and EN in sync.\n> Limits: title+subtitle ≤ 200 chars · 7 keywords (≤ 50 chars each) ·\n> 2-3 BISAC categories · description ≤ 4000 chars.\n> The **cover** field is the file you upload to KDP (eBook front PNG + paperback\n> wrap PDF); the build embeds the eBook cover from the same cover/ dir.\n> Validate with: bookmill kdp "@
        + slug + "\n\n## Spanish (es)\n\n"@ + lang_block(slug, books_dir, "es"@, es_title)
        + "\n## English (en)\n\n"@ + lang_block(slug, books_dir, "en"@, en_title)
}

fn lang_block_into(out: &mut Vec<char>, slug: &str, books_dir: &str, lang: &str, title: &str)
    ensures
        final(out)@ == old(out)@ + lang_block(slug@, books_dir@, lang@, title@),
{
    let ghost o0 = out@;
    push_str(out, "- **title:** ");
    push_str(out, title);
    push_str(out, "\n- **subtitle:**\n- **cover:** ");
    push_str(out, books_dir);
    push_str(out, "/");
    push_str(out, slug);
    push_str(out, "/cover/front-");
    push_str(out, lang);
    push_str(out, ".png (eBook) · cover/wrap-");
    push_str(out, lang);
    push_str(
        out,
        "-KDP.pdf (paperback)\n- **keywords:**\n  1.\n  2.\n  3.\n  4.\n  5.\n  6.\n  7.\n- **bisac_categories:**\n  1.\n  2.\n- **audience / reading_age:**\n- **blurb:** |\n  TODO\n",
    );
    assert(out@ =~= o0 + lang_block(slug@, books_dir@, lang@, title@));
}

/// A new KDP worksheet for a book.
pub fn template(slug: &str, books_dir: &str, es_title: &str, en_title: &str) -> (r: String)
    ensures
        r@ == spec_template(slug@, books_dir@, es_title@, en_title@),
{
    let mut out: Vec<char> = Vec::new();
    push_str(&mut out, "# KDP metadata — ");
    push_str(&mut out, slug);
    push_str(
        &mut out,
        "\n\n> Listing data for Amazon KDP. Fill every field. Keep ES and EN in sync.\n> Limits: title+subtitle ≤ 200 chars · 7 keywords (≤ 50 chars each) ·\n> 2-3 BISAC categories · description ≤ 4000 chars.\n> The **cover** field is the file you upload to KDP (eBook front PNG + paperback\n> wrap PDF); the build embeds the eBook cover from the same cover/ dir.\n> Validate with: bookmill kdp ",
    );
    push_str(&mut out, slug);
    push_str(&mut out, "\n\n## Spanish (es)\n\n");
    lang_block_into(&mut out, slug, books_dir, "es", es_title);
    push_str(&mut out, "\n## English (en)\n\n");
    lang_block_into(&mut out, slug, books_dir, "en", en_title);
    assert(out@ =~= spec_template(slug@, books_dir@, es_title@, en_title@));
    string_of(&out)
}

// ---------------------------------------------------------------------------
// Reading a worksheet
// ---------------------------------------------------------------------------

/// The text after a `## …` marker up to the next `\n## ` heading.
pub open spec fn spec_section(text: Seq<char>, marker: Seq<char>) -> Option<Seq<char>> {
    match find_from(text, marker, 0) {
        None => None,
        Some(idx) => {
            let rest = text.skip(idx + marker.len());
            match find_from(rest, "\n## "@, 0) {
                Some(n) => Some(rest.take(n)),
                None => Some(rest),
            }
        },
    }
}

fn section_of(text: &[char], marker: &str) -> (r: Option<Vec<char>>)
    ensures
        match r {
            Some(v) => spec_section(text@, marker@) == Some(v@),
            None => spec_section(text@, marker@) is None,
        },
{
    let m = chars_of(marker);
    let _n = text.len();
    proof {
        lemma_find_from(text@, marker@, 0);
    }
    let idx = match find(text, &m, 0) {
        None => return None,
        Some(i) => i,
    };
    assert(crate::text::match_at(text@, marker@, idx as int));
    let rest = sub_vec(text, idx + m.len(), text.len());
    assert(rest@ =~= text@.skip(idx + marker@.len()));
    let sep = chars_of("\n## ");
    proof {
        lemma_find_from(rest@, "\n## "@, 0);
    }
    match find(&rest, &sep, 0) {
        Some(n) => {
            let head = sub_vec(&rest, 0, n);
            assert(head@ =~= rest@.take(n as int));
            Some(head)
        },
        None => Some(rest),
    }
}

/// The text under a `## Spanish`/`## English` marker, up to the next `## `.
pub fn section(text: &str, marker: &str) -> (r: Option<String>)
    ensures
        crate::paths::opt_view(r) == spec_section(text@, marker@),
{
    match section_of(&chars_of(text), marker) {
        Some(v) => Some(string_of(&v)),
        None => None,
    }
}

/// The line a field starts with: `- **name:**`.
pub open spec fn needle(name: Seq<char>) -> Seq<char> {
    "- **"@ + name + ":**"@
}

/// The value of the first `- **name:**` line of lines `ls[i..]` (trimmed).
pub open spec fn field_from(ls: Seq<Seq<char>>, name: Seq<char>, i: int) -> Option<Seq<char>>
    decreases ls.len() - i,
{
    if i < 0 || i >= ls.len() {
        None
    } else if starts_with(trim(ls[i]), needle(name)) {
        Some(trim(trim(ls[i]).skip(needle(name).len() as int)))
    } else {
        field_from(ls, name, i + 1)
    }
}

/// The value of a `- **name:**` field within a block.
pub open spec fn spec_field(block: Seq<char>, name: Seq<char>) -> Option<Seq<char>> {
    field_from(lines(block), name, 0)
}

fn needle_of(name: &str) -> (v: Vec<char>)
    ensures
        v@ == needle(name@),
{
    let mut v: Vec<char> = Vec::new();
    push_str(&mut v, "- **");
    push_str(&mut v, name);
    push_str(&mut v, ":**");
    v
}

fn field_of(block: &[char], name: &str) -> (r: Option<Vec<char>>)
    ensures
        match r {
            Some(v) => spec_field(block@, name@) == Some(v@),
            None => spec_field(block@, name@) is None,
        },
{
    let nd = needle_of(name);
    let ls = lines_of(block);
    let ghost L = lines(block@);
    assert(views(ls@) =~= L);
    let mut i: usize = 0;
    while i < ls.len()
        invariant
            0 <= i <= ls@.len(),
            views(ls@) == L,
            L == lines(block@),
            nd@ == needle(name@),
            field_from(L, name@, 0) == field_from(L, name@, i as int),
        decreases ls@.len() - i,
    {
        assert(L[i as int] == ls@[i as int]@);
        let t = trimmed(&ls[i]);
        if crate::text::match_here(&t, &nd, 0) {
            assert(t@.subrange(0, nd@.len() as int) == t@.take(nd@.len() as int));
            let rest = sub_vec(&t, nd.len(), t.len());
            assert(rest@ =~= t@.skip(nd@.len() as int));
            assert(starts_with(trim(L[i as int]), needle(name@)));
            assert(field_from(L, name@, i as int) == Some(trim(t@.skip(nd@.len() as int))));
            return Some(trimmed(&rest));
        }
        proof {
            if starts_with(t@, nd@) {
                assert(t@.subrange(0, nd@.len() as int) == t@.take(nd@.len() as int));
            }
        }
        i += 1;
    }
    None
}

/// The value of a `- **name:**` field within a block.
pub fn field(block: &str, name: &str) -> (r: Option<String>)
    ensures
        crate::paths::opt_view(r) == spec_field(block@, name@),
{
    match field_of(&chars_of(block), name) {
        Some(v) => Some(string_of(&v)),
        None => None,
    }
}

/// An ASCII character.
pub open spec fn ascii(c: char) -> bool {
    (c as u32) < 128
}

/// A numbered item line: it starts with an ASCII digit and its first three
/// bytes (whole characters) hold a `.`.
pub open spec fn numbered_line(s: Seq<char>) -> bool {
    &&& s.len() >= 3
    &&& '0' <= s[0] && s[0] <= '9'
    &&& ascii(s[1]) && ascii(s[2])
    &&& (s[1] == '.' || s[2] == '.')
}

/// The text after the first `.` of an item line, trimmed.
pub open spec fn item_value(s: Seq<char>) -> Seq<char> {
    match find_char(s, '.', 0) {
        Some(d) => trim(s.skip(d + 1)),
        None => seq![],
    }
}

/// The numbered items of lines `ls[i..]`, `capture` telling whether the field
/// line was seen: items are collected after it until the next `- **` field.
pub open spec fn numbered_from(ls: Seq<Seq<char>>, name: Seq<char>, i: int, capture: bool) -> Seq<Seq<char>>
    decreases ls.len() - i,
{
    if i < 0 || i >= ls.len() {
        seq![]
    } else {
        let s = trim(ls[i]);
        if starts_with(s, needle(name)) {
            numbered_from(ls, name, i + 1, true)
        } else if capture && numbered_line(s) {
            seq![item_value(s)] + numbered_from(ls, name, i + 1, capture)
        } else if capture && starts_with(s, "- **"@) {
            seq![]
        } else {
            numbered_from(ls, name, i + 1, capture)
        }
    }
}

/// The numbered list items under a `- **name:**` field (lines like `  1. value`).
pub open spec fn spec_numbered(block: Seq<char>, name: Seq<char>) -> Seq<Seq<char>> {
    numbered_from(lines(block), name, 0, false)
}

fn numbered_of(block: &[char], name: &str) -> (r: Vec<Vec<char>>)
    ensures
        views(r@) == spec_numbered(block@, name@),
{
    let nd = needle_of(name);
    let ls = lines_of(block);
    let ghost L = lines(block@);
    assert(views(ls@) =~= L);
    let mut out: Vec<Vec<char>> = Vec::new();
    let mut capture = false;
    let mut i: usize = 0;
    while i < ls.len()
        invariant
            0 <= i <= ls@.len(),
            views(ls@) == L,
            L == lines(block@),
            nd@ == needle(name@),
            spec_numbered(block@, name@) == views(out@) + numbered_from(L, name@, i as int, capture),
        decreases ls@.len() - i,
    {
        assert(L[i as int] == ls@[i as int]@);
        let s = trimmed(&ls[i]);
        let starts = crate::text::match_here(&s, &nd, 0);
        proof {
            assert(s@.subrange(0, nd@.len() as int) =~= s@.take(nd@.len() as int) || nd@.len()
                > s@.len());
        }
        if starts {
            assert(s@.subrange(0, nd@.len() as int) == s@.take(nd@.len() as int));
            capture = true;
            i += 1;
            continue;
        }
        proof {
            if starts_with(s@, nd@) {
                assert(s@.subrange(0, nd@.len() as int) == s@.take(nd@.len() as int));
            }
        }
        if capture {
            let is_item = s.len() >= 3 && '0' <= s[0] && s[0] <= '9' && (s[1] as u32) < 128
                && (s[2] as u32) < 128 && (s[1] == '.' || s[2] == '.');
            if is_item {
                proof {
                    lemma_find_char(s@, '.', 0);
                }
                let d = find_c(&s, '.', 0).unwrap();
                let rest = sub_vec(&s, d + 1, s.len());
                assert(rest@ =~= s@.skip(d + 1));
                let v = trimmed(&rest);
                let ghost o0 = views(out@);
                out.push(v);
                assert(views(out@) =~= o0 + seq![item_value(s@)]);
            } else if begins(&s, "- **") {
                assert(numbered_from(L, name@, i as int, capture) =~= Seq::<Seq<char>>::empty());
                assert(views(out@) =~= views(out@) + Seq::<Seq<char>>::empty());
                return out;
            }
        }
        i += 1;
    }
    assert(views(out@) =~= views(out@) + Seq::<Seq<char>>::empty());
    out
}

/// The numbered list items under a `- **name:**` field.
pub fn numbered(block: &str, name: &str) -> (r: Vec<String>)
    ensures
        svs(r@) == spec_numbered(block@, name@),
{
    crate::typst::strings_of(&numbered_of(&chars_of(block), name))
}

/// The items that are not blank.
pub open spec fn nonblank(items: Seq<Seq<char>>) -> Seq<Seq<char>>
    decreases items.len(),
{
    if items.len() == 0 {
        seq![]
    } else {
        nonblank(items.drop_last()) + if trim(items.last()).len() > 0 {
            seq![items.last()]
        } else {
            seq![]
        }
    }
}

/// A finding for each keyword over the length limit, with its first thirty
/// characters.
pub open spec fn long_keywords(label: Seq<char>, ks: Seq<Seq<char>>) -> Seq<Seq<char>>
    decreases ks.len(),
{
    if ks.len() == 0 {
        seq![]
    } else {
        long_keywords(label, ks.drop_last()) + if ks.last().len() > 50 {
            seq![
                "["@ + label + "] keyword too long ("@ + dec(ks.last().len()) + " chars): "@
                    + ks.last().take(if ks.last().len() < 30 { ks.last().len() as int } else { 30 })
                    + "…"@,
            ]
        } else {
            seq![]
        }
    }
}

/// The finding for a title and subtitle over the combined limit.
pub open spec fn title_findings(block: Seq<char>, label: Seq<char>) -> Seq<Seq<char>> {
    match (spec_field(block, "title"@), spec_field(block, "subtitle"@)) {
        (Some(t), Some(s)) => if t.len() + s.len() > 200 {
            seq!["["@ + label + "] title+subtitle "@ + dec(t.len() + s.len()) + " > 200 chars"@]
        } else {
            seq![]
        },
        _ => seq![],
    }
}

/// The finding for a keyword count other than seven.
pub open spec fn keyword_count_findings(label: Seq<char>, n: nat) -> Seq<Seq<char>> {
    if n != 7 {
        seq!["["@ + label + "] "@ + dec(n) + " keywords (need exactly 7)"@]
    } else {
        seq![]
    }
}

/// The finding for fewer than two categories.
pub open spec fn category_findings(label: Seq<char>, n: nat) -> Seq<Seq<char>> {
    if n < 2 {
        seq!["["@ + label + "] "@ + dec(n) + " BISAC categories (need 2-3)"@]
    } else {
        seq![]
    }
}

/// The findings for one language's listing block.
pub open spec fn lang_problems(text: Seq<char>, label: Seq<char>, marker: Seq<char>) -> Seq<Seq<char>> {
    match spec_section(text, marker) {
        None => seq!["["@ + label + "] section missing"@],
        Some(block) => {
            let kws = nonblank(spec_numbered(block, "keywords"@));
            let cats = nonblank(spec_numbered(block, "bisac_categories"@));
            title_findings(block, label) + keyword_count_findings(label, kws.len())
                + long_keywords(label, kws) + category_findings(label, cats.len())
        },
    }
}

/// Everything wrong with a worksheet: an unfilled `TODO`, then the Spanish and
/// the English block's findings.
pub open spec fn spec_worksheet_problems(text: Seq<char>) -> Seq<Seq<char>> {
    (if contains(text, "TODO"@) {
        seq!["contains unfilled TODO placeholder(s)"@]
    } else {
        seq![]
    }) + lang_problems(text, "es"@, "## Spanish"@) + lang_problems(text, "en"@, "## English"@)
}

fn nonblank_of(items: Vec<Vec<char>>) -> (r: Vec<Vec<char>>)
    ensures
        views(r@) == nonblank(views(items@)),
{
    let ghost I = views(items@);
    let mut r: Vec<Vec<char>> = Vec::new();
    let mut i: usize = 0;
    while i < items.len()
        invariant
            0 <= i <= items@.len(),
            I == views(items@),
            views(r@) == nonblank(I.take(i as int)),
        decreases items@.len() - i,
    {
        assert(I.take(i as int + 1).drop_last() =~= I.take(i as int));
        assert(I[i as int] == items@[i as int]@);
        let ghost r0 = views(r@);
        if trimmed(&items[i]).len() > 0 {
            r.push(crate::text::copy_vec(&items[i]));
            assert(views(r@) =~= r0.push(I[i as int]));
        } else {
            assert(nonblank(I.take(i as int + 1)) =~= nonblank(I.take(i as int)));
        }
        i += 1;
    }
    assert(I.take(items@.len() as int) =~= I);
    r
}

fn count_msg(label: &str, n: usize, tail: &str) -> (v: Vec<char>)
    ensures
        v@ == "["@ + label@ + "] "@ + dec(n as nat) + tail@,
{
    let mut v: Vec<char> = Vec::new();
    push_str(&mut v, "[");
    push_str(&mut v, label);
    push_str(&mut v, "] ");
    push_slice(&mut v, &dec_chars(n));
    push_str(&mut v, tail);
    v
}

fn title_findings_into(out: &mut Vec<Vec<char>>, block: &[char], label: &str)
    ensures
        views(final(out)@) == views(old(out)@) + title_findings(block@, label@),
{
    let ghost o0 = views(out@);
    let title = field_of(block, "title");
    let subtitle = field_of(block, "subtitle");
    match (title, subtitle) {
        (Some(t), Some(s)) => {
            let total: u128 = t.len() as u128 + s.len() as u128;
            if total > 200 {
                let mut v: Vec<char> = Vec::new();
                push_str(&mut v, "[");
                push_str(&mut v, label);
                push_str(&mut v, "] title+subtitle ");
                push_slice(&mut v, &crate::text::dec_chars_wide(total));
                push_str(&mut v, " > 200 chars");
                out.push(v);
                assert(views(out@) =~= o0.push(v@));
            } else {
                assert(views(out@) =~= o0 + Seq::<Seq<char>>::empty());
            }
        },
        _ => {
            assert(views(out@) =~= o0 + Seq::<Seq<char>>::empty());
        },
    }
}

fn long_keywords_into(out: &mut Vec<Vec<char>>, label: &str, kws: &Vec<Vec<char>>)
    ensures
        views(final(out)@) == views(old(out)@) + long_keywords(label@, views(kws@)),
{
    let ghost o2 = views(out@);
    let mut i: usize = 0;
    while i < kws.len()
        invariant
            0 <= i <= kws@.len(),
            views(out@) == o2 + long_keywords(label@, views(kws@).take(i as int)),
        decreases kws@.len() - i,
    {
        assert(views(kws@).take(i as int + 1).drop_last() =~= views(kws@).take(i as int));
        assert(views(kws@)[i as int] == kws@[i as int]@);
        let k = &kws[i];
        let ghost b0 = views(out@);
        if k.len() > 50 {
            let mut v: Vec<char> = Vec::new();
            push_str(&mut v, "[");
            push_str(&mut v, label);
            push_str(&mut v, "] keyword too long (");
            push_slice(&mut v, &dec_chars(k.len()));
            push_str(&mut v, " chars): ");
            let p = sub_vec(k, 0, 30);
            assert(p@ =~= k@.take(30));
            push_slice(&mut v, &p);
            push_str(&mut v, "…");
            out.push(v);
            assert(views(out@) =~= b0.push(v@));
        } else {
            assert(views(out@) =~= b0 + Seq::<Seq<char>>::empty());
        }
        i += 1;
    }
    assert(views(kws@).take(kws@.len() as int) =~= views(kws@));
}

fn lang_problems_into(out: &mut Vec<Vec<char>>, text: &[char], label: &str, marker: &str)
    ensures
        views(final(out)@) == views(old(out)@) + lang_problems(text@, label@, marker@),
{
    let ghost o0 = views(out@);
    let block = match section_of(text, marker) {
        None => {
            let mut v: Vec<char> = Vec::new();
            push_str(&mut v, "[");
            push_str(&mut v, label);
            push_str(&mut v, "] section missing");
            out.push(v);
            assert(views(out@) =~= o0 + lang_problems(text@, label@, marker@));
            return;
        },
        Some(b) => b,
    };
    title_findings_into(out, &block, label);
    let ghost o1 = views(out@);
    let kws = nonblank_of(numbered_of(&block, "keywords"));
    if kws.len() != 7 {
        out.push(count_msg(label, kws.len(), " keywords (need exactly 7)"));
    }
    assert(views(out@) =~= o1 + keyword_count_findings(label@, kws@.len() as nat));
    let ghost o2 = views(out@);
    long_keywords_into(out, label, &kws);
    let ghost o3 = views(out@);
    let cats = nonblank_of(numbered_of(&block, "bisac_categories"));
    if cats.len() < 2 {
        out.push(count_msg(label, cats.len(), " BISAC categories (need 2-3)"));
    }
    assert(views(out@) =~= o3 + category_findings(label@, cats@.len() as nat));
    assert(views(out@) =~= o0 + lang_problems(text@, label@, marker@));
}

/// Everything wrong with an existing worksheet's text (empty when it passes).
pub fn worksheet_problems(text: &str) -> (r: Vec<String>)
    ensures
        svs(r@) == spec_worksheet_problems(text@),
{
    let t = chars_of(text);
    let mut out: Vec<Vec<char>> = Vec::new();
    if contains_str(&t, "TODO") {
        out.push(chars_of("contains unfilled TODO placeholder(s)"));
    }
    lang_problems_into(&mut out, &t, "es", "## Spanish");
    lang_problems_into(&mut out, &t, "en", "## English");
    assert(views(out@) =~= spec_worksheet_problems(text@));
    crate::typst::strings_of(&out)
}

// ---------------------------------------------------------------------------
// Laws
// ---------------------------------------------------------------------------

/// A freshly scaffolded worksheet does not pass: its `TODO` placeholders are
/// the first thing reported.
pub proof fn law_fresh_template_flagged(slug: Seq<char>, books_dir: Seq<char>, es: Seq<char>, en: Seq<char>)
    ensures
        spec_worksheet_problems(spec_template(slug, books_dir, es, en)).len() > 0,
        spec_worksheet_problems(spec_template(slug, books_dir, es, en))[0]
            == "contains unfilled TODO placeholder(s)"@,
{
    let x = "-KDP.pdf (paperback)\n- **keywords:**\n  1.\n  2.\n  3.\n  4.\n  5.\n  6.\n  7.\n- **bisac_categories:**\n  1.\n  2.\n- **audience / reading_age:**\n- **blurb:** |\n  TODO\n"@;
    reveal_strlit(
        "-KDP.pdf (paperback)\n- **keywords:**\n  1.\n  2.\n  3.\n  4.\n  5.\n  6.\n  7.\n- **bisac_categories:**\n  1.\n  2.\n- **audience / reading_age:**\n- **blurb:** |\n  TODO\n",
    );
    reveal_strlit("TODO");
    let z = "- **title:** "@ + es + "\n- **subtitle:**\n- **cover:** "@ + books_dir + "/"@ + slug
        + "/cover/front-"@ + "es"@ + ".png (eBook) · cover/wrap-"@ + "es"@;
    assert(lang_block(slug, books_dir, "es"@, es) =~= z + x);
    let pre = "# KDP metadata — "@ + slug
        + "\n\n> Listing data for Amazon KDP. Fill every field. Keep ES and EN in sync.\n> Limits: title+subtitle ≤ 200 chars · 7 keywords (≤ 50 chars each) ·\n> 2-3 BISAC categories · description ≤ 4000 chars.\n> The **cover** field is the file you upload to KDP (eBook front PNG + paperback\n> wrap PDF); the build embeds the eBook cover from the same cover/ dir.\n> Validate with: bookmill kdp "@
        + slug + "\n\n## Spanish (es)\n\n"@;
    let post = "\n## English (en)\n\n"@ + lang_block(slug, books_dir, "en"@, en);
    let t = spec_template(slug, books_dir, es, en);
    assert(t =~= (pre + z) + x + post);
    let k = x.len() - 5;
    assert(x.subrange(k, k + 4) =~= "TODO"@);
    crate::text::lemma_contains_within(pre + z, x, post, "TODO"@, k);
}

} // verus!
