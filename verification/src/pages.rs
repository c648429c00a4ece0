//! Source-derived page counts.
//!
//! Every print build records the `(words, pages)` pair it was laid out from.
//! The page count shown for a book rescales that book's own layout density
//! (`pages / words`) to the current source word count: identical words give
//! the exact built page count; edited source gives a flagged estimate.
use vstd::prelude::*;
use crate::paths::{path_with_extension, plain_file_path, swap_extension, with_extension_of};
use crate::text::{chars_of, is_ws, ws};

verus! {

/// The `(words, pages)` a built PDF was laid out from.
#[derive(Debug, Clone)]
pub struct PagesRecord {
    pub words: usize,
    pub pages: u32,
}

/// A page count resolved for display.
#[derive(Debug, Clone, Copy, PartialEq, Eq, Structural)]
pub enum PageCount {
    /// Source word count matches the built PDF: the page count is authoritative.
    Exact(u32),
    /// Source changed since the build: pages rescaled from the book's density.
    Estimate(u32),
    /// Never built: nothing to report.
    Unknown,
}

/// The sidecar of a PDF: `foo-kdp.pdf` → `foo-kdp.pages.json`.
pub open spec fn spec_sidecar_path(pdf: Seq<char>) -> Seq<char> {
    path_with_extension(pdf, "pages.json"@)
}

/// Sidecar path for a PDF (its extension swapped for `pages.json`).
pub fn sidecar_path(pdf: &str) -> (r: String)
    ensures
        r@ == spec_sidecar_path(pdf@),
        plain_file_path(pdf@) ==> r@ == swap_extension(pdf@, "pages.json"@),
{
    proof {
        reveal_strlit("pages.json");
        assert(!"pages.json"@.contains('/')) by {
            assert forall|i: int| 0 <= i < "pages.json"@.len() implies "pages.json"@[i] != '/' by {}
        }
    }
    with_extension_of(pdf, "pages.json")
}

/// The number of whitespace-separated words in `s[..n]`: the characters that
/// are not whitespace and follow whitespace or the start.
pub open spec fn word_starts(s: Seq<char>, n: int) -> nat
    decreases n,
{
    if n <= 0 || n > s.len() {
        0
    } else {
        word_starts(s, n - 1) + (if !is_ws(s[n - 1]) && (n == 1 || is_ws(s[n - 2])) {
            1nat
        } else {
            0nat
        })
    }
}

/// The number of whitespace-separated words of a text (`split_whitespace().count()`).
pub open spec fn spec_word_count(s: Seq<char>) -> nat {
    word_starts(s, s.len() as int)
}

/// Count the whitespace-separated words of a text, the unit `wc -w` uses.
pub fn word_count(s: &str) -> (r: usize)
    ensures
        r == spec_word_count(s@),
{
    let v = chars_of(s);
    let mut n: usize = 0;
    let mut i: usize = 0;
    while i < v.len()
        invariant
            0 <= i <= v@.len(),
            v@ == s@,
            n == word_starts(v@, i as int),
            n <= i,
        decreases v@.len() - i,
    {
        if !ws(v[i]) && (i == 0 || ws(v[i - 1])) {
            n += 1;
        }
        i += 1;
    }
    n
}

/// `cur * pages / words`, rounded half up, at least one, capped at `u32::MAX`
/// (the page counts a rescaled density gives).
pub open spec fn rescaled(pages: nat, words: nat, cur: nat) -> nat {
    let q = (2 * cur * pages + words) / (2 * words);
    let e = if q < 1 {
        1
    } else {
        q
    };
    if e > u32::MAX {
        u32::MAX as nat
    } else {
        e
    }
}

/// The page count to show, from the build's record (if any), the built PDF's
/// own page count (if any, used only without a record) and the current words.
pub open spec fn spec_resolve(rec: Option<(nat, nat)>, pdf_pages: Option<u32>, cur: nat) -> PageCount {
    match rec {
        Some((words, pages)) => if words == 0 {
            PageCount::Unknown
        } else if words == cur {
            PageCount::Exact(pages as u32)
        } else {
            PageCount::Estimate(rescaled(pages, words, cur) as u32)
        },
        None => match pdf_pages {
            Some(p) => PageCount::Exact(p),
            None => PageCount::Unknown,
        },
    }
}

/// A record as plain values.
pub open spec fn rec_view(rec: Option<PagesRecord>) -> Option<(nat, nat)> {
    match rec {
        Some(r) => Some((r.words as nat, r.pages as nat)),
        None => None,
    }
}

/// Resolve a page count: with a build record, rescale its `pages / words`
/// density to `current_words` (exact when the counts match, an estimate
/// otherwise, unknown for an empty record); without one, the PDF's raw page
/// count; with neither, unknown.
pub fn resolve(rec: Option<PagesRecord>, pdf_pages: Option<u32>, current_words: usize) -> (r: PageCount)
    ensures
        r == spec_resolve(rec_view(rec), pdf_pages, current_words as nat),
{
    match rec {
        Some(rec) => {
            if rec.words == 0 {
                return PageCount::Unknown;
            }
            if rec.words == current_words {
                return PageCount::Exact(rec.pages);
            }
            let c = current_words as u128;
            let p = rec.pages as u128;
            let w = rec.words as u128;
            assert(2 * c * p + w < 0x1_0000_0000_0000_0000_0000_0000_0000_0000) by (nonlinear_arith)
                requires
                    c < 0x1_0000_0000_0000_0000,
                    p < 0x1_0000_0000,
                    w < 0x1_0000_0000_0000_0000,
            ;
            let q = (2 * c * p + w) / (2 * w);
            let e = if q < 1 {
                1
            } else {
                q
            };
            let est: u32 = if e > 0xFFFF_FFFF {
                0xFFFF_FFFF
            } else {
                e as u32
            };
            PageCount::Estimate(est)
        },
        None => match pdf_pages {
            Some(p) => PageCount::Exact(p),
            None => PageCount::Unknown,
        },
    }
}

// ---------------------------------------------------------------------------
// Laws
// ---------------------------------------------------------------------------

/// With the word count the book was laid out from, the page count shown is the
/// built one, exactly.
pub proof fn law_same_words_exact(words: nat, pages: nat, pdf_pages: Option<u32>)
    requires
        words > 0,
        pages <= u32::MAX,
    ensures
        spec_resolve(Some((words, pages)), pdf_pages, words) == PageCount::Exact(pages as u32),
{
}

/// An edited source gives an estimate of at least one page, and never more
/// pages than a `u32` holds.
pub proof fn law_estimate_at_least_one(words: nat, pages: nat, cur: nat)
    requires
        words > 0,
        cur != words,
    ensures
        spec_resolve(Some((words, pages)), None, cur) matches PageCount::Estimate(e) && e >= 1,
        1 <= rescaled(pages, words, cur) <= u32::MAX,
{
}

/// An estimate is the word count scaled by the book's pages per word: with a
/// density of exactly one page per `k` words, `k * n` words give `n` pages.
pub proof fn law_estimate_scales_by_density(k: nat, pages: nat, n: nat)
    requires
        k > 0,
        n >= 1,
        pages >= 1,
        n <= u32::MAX,
    ensures
        rescaled(pages, k * pages, k * n) == n,
{
    let w = k * pages;
    let c = k * n;
    assert(w >= 1) by (nonlinear_arith)
        requires
            w == k * pages,
            k > 0,
            pages >= 1,
    ;
    assert(2 * c * pages + w == (2 * n + 1) * w) by (nonlinear_arith)
        requires
            w == k * pages,
            c == k * n,
    ;
    assert((2 * n + 1) * w / (2 * w) == n) by (nonlinear_arith)
        requires
            w >= 1,
            n >= 0,
    ;
}

proof fn lemma_word_starts_push(s: Seq<char>, c: char, k: int)
    requires
        0 <= k <= s.len(),
    ensures
        word_starts(s.push(c), k) == word_starts(s, k),
    decreases k,
{
    if k > 0 {
        lemma_word_starts_push(s, c, k - 1);
        assert(s.push(c)[k - 1] == s[k - 1]);
        if k >= 2 {
            assert(s.push(c)[k - 2] == s[k - 2]);
        }
    }
}

/// How the word count grows as a text grows by one character: an empty text
/// has no words; a whitespace character adds none; any other character adds
/// one word exactly when it starts one (the text was empty or ended in
/// whitespace), however long that word turns out to be.
pub proof fn law_word_count_by_character(s: Seq<char>, c: char)
    ensures
        spec_word_count(Seq::<char>::empty()) == 0,
        is_ws(c) ==> spec_word_count(s.push(c)) == spec_word_count(s),
        !is_ws(c) && (s.len() == 0 || is_ws(s.last())) ==> spec_word_count(s.push(c)) == spec_word_count(s) + 1,
        !is_ws(c) && s.len() > 0 && !is_ws(s.last()) ==> spec_word_count(s.push(c)) == spec_word_count(s),
{
    lemma_word_starts_push(s, c, s.len() as int);
    let t = s.push(c);
    assert(t[t.len() - 1] == c);
    if s.len() > 0 {
        assert(t[t.len() - 2] == s.last());
    }
}

/// Every whitespace-free run is one word, whatever its length: a word of any
/// length (one letter too) added after whitespace counts once, and trailing
/// whitespace counts nothing.
pub proof fn law_each_run_is_one_word(s: Seq<char>, w: Seq<char>)
    requires
        w.len() > 0,
        forall|i: int| 0 <= i < w.len() ==> !is_ws(#[trigger] w[i]),
    ensures
        spec_word_count(s + seq![' '] + w) == spec_word_count(s) + 1,
        spec_word_count(s + seq![' ']) == spec_word_count(s),
    decreases w.len(),
{
    law_word_count_by_character(s, ' ');
    assert(s + seq![' '] =~= s.push(' '));
    if w.len() == 1 {
        law_word_count_by_character(s + seq![' '], w[0]);
        assert(s + seq![' '] + w =~= (s + seq![' ']).push(w[0]));
    } else {
        let v = w.drop_last();
        law_each_run_is_one_word(s, v);
        law_word_count_by_character(s + seq![' '] + v, w.last());
        assert(s + seq![' '] + w =~= (s + seq![' '] + v).push(w.last()));
        assert(v[v.len() - 1] == w[w.len() - 2]);
        assert((s + seq![' '] + v).last() == v.last());
    }
}

} // verus!
