//! The console lines of the book listing, the quick validation and the word
//! counts: column padding and what each line reports.
use vstd::prelude::*;
use crate::pages::PageCount;
use crate::text::{chars_of, dec, dec_chars, join, join_vecs, push_slice, push_str, string_of};
use crate::typst::{svs, vecs_of};

verus! {

/// `s` padded with spaces on the right to `w` characters (`{:<w}`).
pub open spec fn pad_right(s: Seq<char>, w: nat) -> Seq<char> {
    if s.len() >= w {
        s
    } else {
        s + Seq::new((w - s.len()) as nat, |i: int| ' ')
    }
}

/// `s` padded with spaces on the left to `w` characters (`{:>w}`).
pub open spec fn pad_left(s: Seq<char>, w: nat) -> Seq<char> {
    if s.len() >= w {
        s
    } else {
        Seq::new((w - s.len()) as nat, |i: int| ' ') + s
    }
}

fn spaces(n: usize) -> (r: Vec<char>)
    ensures
        r@ == Seq::new(n as nat, |i: int| ' '),
{
    let mut v: Vec<char> = Vec::new();
    let mut i: usize = 0;
    while i < n
        invariant
            0 <= i <= n,
            v@ == Seq::new(i as nat, |k: int| ' '),
        decreases n - i,
    {
        v.push(' ');
        assert(v@ =~= Seq::new(i as nat + 1, |k: int| ' '));
        i += 1;
    }
    v
}

fn push_right(out: &mut Vec<char>, s: &Vec<char>, w: usize)
    ensures
        final(out)@ == old(out)@ + pad_right(s@, w as nat),
{
    push_slice(out, s);
    if s.len() < w {
        push_slice(out, &spaces(w - s.len()));
    }
}

fn push_left(out: &mut Vec<char>, s: &Vec<char>, w: usize)
    ensures
        final(out)@ == old(out)@ + pad_left(s@, w as nat),
{
    let ghost o = out@;
    if s.len() < w {
        push_slice(out, &spaces(w - s.len()));
    }
    push_slice(out, s);
    assert(out@ =~= o + pad_left(s@, w as nat));
}

/// The page column of a word-count line.
pub open spec fn pages_text(p: PageCount) -> Seq<char> {
    match p {
        PageCount::Exact(n) => pad_left(dec(n as nat), 4) + " pages"@,
        PageCount::Estimate(n) => pad_left(dec(n as nat), 4) + " pages ~"@,
        PageCount::Unknown => "   — pages (build the PDF)"@,
    }
}

/// `  <slug> <lang>  ` with the slug padded to 45 and the language to 3.
pub open spec fn book_lang_cols(slug: Seq<char>, lang: Seq<char>) -> Seq<char> {
    "  "@ + pad_right(slug, 45) + " "@ + pad_right(lang, 3) + "  "@
}

fn push_cols(out: &mut Vec<char>, slug: &str, lang: &str)
    ensures
        final(out)@ == old(out)@ + book_lang_cols(slug@, lang@),
{
    let ghost o = out@;
    push_str(out, "  ");
    push_right(out, &chars_of(slug), 45);
    push_str(out, " ");
    push_right(out, &chars_of(lang), 3);
    push_str(out, "  ");
    assert(out@ =~= o + book_lang_cols(slug@, lang@));
}

/// The word-count line of a book and language: words, then pages.
pub fn words_line(slug: &str, lang: &str, words: usize, pages: PageCount) -> (r: String)
    ensures
        r@ == book_lang_cols(slug@, lang@) + pad_left(dec(words as nat), 6) + " words   "@ + pages_text(
            pages,
        ),
{
    let mut m: Vec<char> = Vec::new();
    push_cols(&mut m, slug, lang);
    push_left(&mut m, &dec_chars(words), 6);
    push_str(&mut m, " words   ");
    match pages {
        PageCount::Exact(n) => {
            push_left(&mut m, &dec_chars(n as usize), 4);
            push_str(&mut m, " pages");
        },
        PageCount::Estimate(n) => {
            push_left(&mut m, &dec_chars(n as usize), 4);
            push_str(&mut m, " pages ~");
        },
        PageCount::Unknown => push_str(&mut m, "   — pages (build the PDF)"),
    }
    string_of(&m)
}

/// The word-count line of a language the book has no content for.
pub fn no_content_line(slug: &str, lang: &str) -> (r: String)
    ensures
        r@ == book_lang_cols(slug@, lang@) + "(no [content."@ + lang@ + "])"@,
{
    let mut m: Vec<char> = Vec::new();
    push_cols(&mut m, slug, lang);
    push_str(&mut m, "(no [content.");
    push_str(&mut m, lang);
    push_str(&mut m, "])");
    string_of(&m)
}

/// The word-count line of a language whose content does not resolve.
pub fn content_error_line(slug: &str, lang: &str, err: &str) -> (r: String)
    ensures
        r@ == book_lang_cols(slug@, lang@) + "(content error: "@ + err@ + ")"@,
{
    let mut m: Vec<char> = Vec::new();
    push_cols(&mut m, slug, lang);
    push_str(&mut m, "(content error: ");
    push_str(&mut m, err);
    push_str(&mut m, ")");
    string_of(&m)
}

/// The page count shown for a book and language: the KDP print interior's,
/// else the retail PDF's.
pub fn interior_pages(kdp: PageCount, retail: PageCount) -> (r: PageCount)
    ensures
        r == if kdp is Unknown {
            retail
        } else {
            kdp
        },
{
    match kdp {
        PageCount::Unknown => retail,
        other => other,
    }
}

/// The heading of the book listing.
pub fn list_header(count: usize, books_dir: &str) -> (r: String)
    ensures
        r@ == dec(count as nat) + " book(s) in "@ + books_dir@,
{
    let mut m = dec_chars(count);
    push_str(&mut m, " book(s) in ");
    push_str(&mut m, books_dir);
    string_of(&m)
}

/// One line of the book listing: slug (30 wide), first title (36 wide), its
/// languages and its editions (`—` for none).
pub open spec fn spec_list_line(slug: Seq<char>, title: Seq<char>, langs: Seq<Seq<char>>, eds: Seq<Seq<char>>) -> Seq<char> {
    "  "@ + pad_right(slug, 30) + " "@ + pad_right(title, 36) + " ["@ + join(langs, ","@)
        + "] editions: "@ + if eds.len() == 0 {
        "—"@
    } else {
        join(eds, ","@)
    }
}

/// One line of the book listing.
pub fn list_line(slug: &str, title: &str, languages: &Vec<String>, editions: &Vec<String>) -> (r: String)
    ensures
        r@ == spec_list_line(slug@, title@, svs(languages@), svs(editions@)),
{
    let mut m: Vec<char> = Vec::new();
    push_str(&mut m, "  ");
    push_right(&mut m, &chars_of(slug), 30);
    push_str(&mut m, " ");
    push_right(&mut m, &chars_of(title), 36);
    push_str(&mut m, " [");
    push_slice(&mut m, &join_vecs(&vecs_of(languages), ","));
    push_str(&mut m, "] editions: ");
    let ghost before = m@;
    if editions.len() == 0 {
        push_str(&mut m, "—");
    } else {
        push_slice(&mut m, &join_vecs(&vecs_of(editions), ","));
    }
    string_of(&m)
}

/// The quick-validation line of a book without findings.
pub fn validate_ok_line(slug: &str) -> (r: String)
    ensures
        r@ == "✓ "@ + slug@ + " — ok"@,
{
    let mut m: Vec<char> = Vec::new();
    push_str(&mut m, "✓ ");
    push_str(&mut m, slug);
    push_str(&mut m, " — ok");
    string_of(&m)
}

/// The quick-validation line of one finding: `✗` for an error, `!` otherwise.
pub fn validate_issue_line(slug: &str, issue: &crate::config::Issue) -> (r: String)
    ensures
        r@ == (if issue.level@ == "error"@ {
            "✗"@
        } else {
            "!"@
        }) + " "@ + slug@ + ": "@ + issue.msg@,
{
    let mut m: Vec<char> = Vec::new();
    if crate::text::eq_str(&chars_of(issue.level), "error") {
        push_str(&mut m, "✗");
    } else {
        push_str(&mut m, "!");
    }
    push_str(&mut m, " ");
    push_str(&mut m, slug);
    push_str(&mut m, ": ");
    push_str(&mut m, issue.msg.as_str());
    string_of(&m)
}

/// The number of error-level findings.
pub open spec fn error_count(v: Seq<(Seq<char>, Seq<char>)>) -> nat
    decreases v.len(),
{
    if v.len() == 0 {
        0
    } else {
        error_count(v.drop_last()) + if v.last().0 == "error"@ {
            1nat
        } else {
            0nat
        }
    }
}

/// Count the error-level findings.
pub fn count_errors(issues: &Vec<crate::config::Issue>) -> (r: usize)
    ensures
        r == error_count(crate::config::issues_view(issues@)),
{
    let ghost iv = crate::config::issues_view(issues@);
    let mut n: usize = 0;
    let mut i: usize = 0;
    while i < issues.len()
        invariant
            0 <= i <= issues@.len(),
            iv == crate::config::issues_view(issues@),
            n == error_count(iv.take(i as int)),
            n <= i,
        decreases issues@.len() - i,
    {
        assert(iv.take(i as int + 1).drop_last() =~= iv.take(i as int));
        if crate::text::eq_str(&chars_of(issues[i].level), "error") {
            n += 1;
        }
        i += 1;
    }
    assert(iv.take(issues@.len() as int) =~= iv);
    n
}

} // verus!
