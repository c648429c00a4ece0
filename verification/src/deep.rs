//! The effective-resolution audit of the images placed in a print PDF.
use vstd::prelude::*;
use crate::text::{dec, dec_chars, push_slice, push_str, string_of};

verus! {

/// Interior images below this effective resolution are flagged for print.
pub const MIN_PRINT_DPI: u32 = 300;

/// Placed images smaller than this many pixels on a side are not audited.
pub const MIN_IMG_PX: u32 = 50;

/// A raster image placed in a PDF, as the audit reads it: its page, pixel
/// size, whether its placement has a positive area, and its effective
/// resolution (the smaller of the two axes, rounded).
#[derive(Debug, Clone, Copy)]
pub struct DpiImage {
    pub page: u32,
    pub px_w: u32,
    pub px_h: u32,
    pub placed: bool,
    pub dpi: u32,
}

/// An image below the resolution floor.
#[derive(Debug, Clone, Copy, PartialEq, Eq)]
pub struct DpiRow {
    pub page: u32,
    pub w: u32,
    pub h: u32,
    pub ppi: u32,
}

/// Is an image audited: large enough on both sides and placed with a positive area?
pub open spec fn audited(im: DpiImage, min_px: u32) -> bool {
    im.px_w >= min_px && im.px_h >= min_px && im.placed
}

/// The number of images audited among the first `n`.
pub open spec fn count_audited(ims: Seq<DpiImage>, min_px: u32, n: int) -> nat
    decreases n,
{
    if n <= 0 || n > ims.len() {
        0
    } else {
        count_audited(ims, min_px, n - 1) + if audited(ims[n - 1], min_px) {
            1nat
        } else {
            0nat
        }
    }
}

/// The lowest resolution among the audited images of the first `n`.
pub open spec fn min_audited(ims: Seq<DpiImage>, min_px: u32, n: int) -> Option<u32>
    decreases n,
{
    if n <= 0 || n > ims.len() {
        None
    } else {
        let m = min_audited(ims, min_px, n - 1);
        if audited(ims[n - 1], min_px) {
            match m {
                Some(x) => if ims[n - 1].dpi < x {
                    Some(ims[n - 1].dpi)
                } else {
                    Some(x)
                },
                None => Some(ims[n - 1].dpi),
            }
        } else {
            m
        }
    }
}

/// The audited images of the first `n` below `min_dpi`, in order.
pub open spec fn low_rows(ims: Seq<DpiImage>, min_dpi: u32, min_px: u32, n: int) -> Seq<DpiRow>
    decreases n,
{
    if n <= 0 || n > ims.len() {
        seq![]
    } else {
        low_rows(ims, min_dpi, min_px, n - 1) + if audited(ims[n - 1], min_px) && ims[n - 1].dpi
            < min_dpi {
            seq![
                DpiRow {
                    page: ims[n - 1].page,
                    w: ims[n - 1].px_w,
                    h: ims[n - 1].px_h,
                    ppi: ims[n - 1].dpi,
                },
            ]
        } else {
            seq![]
        }
    }
}

/// Audit placed images for effective resolution: how many were audited, the
/// lowest resolution seen, and the images below `min_dpi`. Images smaller
/// than `min_px` on a side, or placed with no area, are skipped.
pub fn audit_dpi_rows(images: &Vec<DpiImage>, min_dpi: u32, min_px: u32) -> (r: (
    usize,
    Option<u32>,
    Vec<DpiRow>,
))
    ensures
        r.0 == count_audited(images@, min_px, images@.len() as int),
        r.1 == min_audited(images@, min_px, images@.len() as int),
        r.2@ == low_rows(images@, min_dpi, min_px, images@.len() as int),
{
    let mut checked: usize = 0;
    let mut min_seen: Option<u32> = None;
    let mut low: Vec<DpiRow> = Vec::new();
    let mut i: usize = 0;
    while i < images.len()
        invariant
            0 <= i <= images@.len(),
            checked == count_audited(images@, min_px, i as int),
            checked <= i,
            min_seen == min_audited(images@, min_px, i as int),
            low@ == low_rows(images@, min_dpi, min_px, i as int),
        decreases images@.len() - i,
    {
        let im = images[i];
        if im.px_w >= min_px && im.px_h >= min_px && im.placed {
            checked += 1;
            min_seen = match min_seen {
                Some(x) => if im.dpi < x {
                    Some(im.dpi)
                } else {
                    Some(x)
                },
                None => Some(im.dpi),
            };
            if im.dpi < min_dpi {
                low.push(DpiRow { page: im.page, w: im.px_w, h: im.px_h, ppi: im.dpi });
            }
        }
        i += 1;
    }
    (checked, min_seen, low)
}


// ---------------------------------------------------------------------------
// The deep-validation report
// ---------------------------------------------------------------------------

/// One logged outcome: its level (`ok`, `warn` or `error`), book, language,
/// page (for page-stamped warnings) and message.
pub struct ReportIssue {
    pub level: &'static str,
    pub book: String,
    pub lang: Option<String>,
    pub page: Option<u32>,
    pub message: String,
}

/// A logged outcome as plain values.
pub open spec fn issue_of(i: ReportIssue) -> (Seq<char>, Seq<char>, Option<Seq<char>>, Option<u32>, Seq<char>) {
    (i.level@, i.book@, opt_text(i.lang), i.page, i.message@)
}

/// The view of an optional string.
pub open spec fn opt_text(o: Option<String>) -> Option<Seq<char>> {
    match o {
        Some(s) => Some(s@),
        None => None,
    }
}

/// Logged outcomes as plain values.
pub open spec fn issues_of(v: Seq<ReportIssue>) -> Seq<(Seq<char>, Seq<char>, Option<Seq<char>>, Option<u32>, Seq<char>)> {
    v.map_values(|i: ReportIssue| issue_of(i))
}

/// The tally of a deep validation: every outcome logged with the current book
/// and language, and, unless the report is for JSON, the human-readable lines
/// not yet printed.
pub struct Report {
    pub json: bool,
    pub cur_book: String,
    pub cur_lang: Option<String>,
    pub issues: Vec<ReportIssue>,
    pub lines: Vec<String>,
}

/// The number of logged outcomes at a level.
pub open spec fn count_level(v: Seq<ReportIssue>, level: Seq<char>) -> nat
    decreases v.len(),
{
    if v.len() == 0 {
        0
    } else {
        count_level(v.drop_last(), level) + if v.last().level@ == level {
            1nat
        } else {
            0nat
        }
    }
}

proof fn lemma_count_level_bound(v: Seq<ReportIssue>, level: Seq<char>)
    ensures
        count_level(v, level) <= v.len(),
    decreases v.len(),
{
    if v.len() > 0 {
        lemma_count_level_bound(v.drop_last(), level);
    }
}

/// The logged outcome `(level, message, page)` under the report's current book
/// and language.
pub open spec fn logged(r: Report, level: Seq<char>, m: Seq<char>, page: Option<u32>) -> (Seq<char>, Seq<char>, Option<Seq<char>>, Option<u32>, Seq<char>) {
    (level, r.cur_book@, opt_text(r.cur_lang), page, m)
}

/// The report after logging an outcome and, when not for JSON, its line.
pub open spec fn after_log(old_r: Report, new_r: Report, level: Seq<char>, mark: Seq<char>, m: Seq<char>, page: Option<u32>) -> bool {
    &&& issues_of(new_r.issues@) == issues_of(old_r.issues@).push(logged(old_r, level, m, page))
    &&& crate::typst::svs(new_r.lines@) == if old_r.json {
        crate::typst::svs(old_r.lines@)
    } else {
        crate::typst::svs(old_r.lines@).push("  "@ + mark + " "@ + m)
    }
    &&& new_r.json == old_r.json
    &&& new_r.cur_book@ == old_r.cur_book@
    &&& opt_text(new_r.cur_lang) == opt_text(old_r.cur_lang)
}

fn copy_text(o: &Option<String>) -> (r: Option<String>)
    ensures
        opt_text(r) == opt_text(*o),
{
    match o {
        Some(s) => Some(crate::text::copy_string(s.as_str())),
        None => None,
    }
}

impl Report {
    /// An empty report.
    pub fn new(json: bool) -> (r: Report)
        ensures
            r.json == json,
            r.issues@.len() == 0,
            r.lines@.len() == 0,
            r.cur_book@.len() == 0,
            r.cur_lang is None,
    {
        Report {
            json,
            cur_book: crate::text::string_of(&Vec::new()),
            cur_lang: None,
            issues: Vec::new(),
            lines: Vec::new(),
        }
    }

    fn log(&mut self, level: &'static str, mark: &str, m: &str, page: Option<u32>)
        ensures
            after_log(*old(self), *final(self), level@, mark@, m@, page),
    {
        let issue = ReportIssue {
            level,
            book: crate::text::copy_string(self.cur_book.as_str()),
            lang: copy_text(&self.cur_lang),
            page,
            message: crate::text::copy_string(m),
        };
        let ghost before = issues_of(self.issues@);
        self.issues.push(issue);
        assert(issues_of(self.issues@) =~= before.push(logged(*old(self), level@, m@, page)));
        if !self.json {
            let mut l: Vec<char> = Vec::new();
            crate::text::push_str(&mut l, "  ");
            crate::text::push_str(&mut l, mark);
            crate::text::push_str(&mut l, " ");
            crate::text::push_str(&mut l, m);
            let line = crate::text::string_of(&l);
            let ghost lb = crate::typst::svs(self.lines@);
            self.lines.push(line);
            assert(crate::typst::svs(self.lines@) =~= lb.push(line@));
        }
    }

    /// A passed check (`✓`).
    pub fn ok(&mut self, m: &str)
        ensures
            after_log(*old(self), *final(self), "ok"@, mark_of("ok"@), m@, None),
    {
        self.log("ok", "✓", m, None);
    }

    /// A warning (`!`).
    pub fn warn(&mut self, m: &str)
        ensures
            after_log(*old(self), *final(self), "warn"@, mark_of("warn"@), m@, None),
    {
        assert(mark_of("warn"@) == "!"@) by {
            reveal_strlit("ok");
            reveal_strlit("warn");
            assert("warn"@[0] != "ok"@[0]);
        }
        self.log("warn", "!", m, None);
    }

    /// A warning about one page (`!`).
    pub fn warn_page(&mut self, m: &str, page: u32)
        ensures
            after_log(*old(self), *final(self), "warn"@, mark_of("warn"@), m@, Some(page)),
    {
        assert(mark_of("warn"@) == "!"@) by {
            reveal_strlit("ok");
            reveal_strlit("warn");
            assert("warn"@[0] != "ok"@[0]);
        }
        self.log("warn", "!", m, Some(page));
    }

    /// A failed check (`✗`).
    pub fn bad(&mut self, m: &str)
        ensures
            after_log(*old(self), *final(self), "error"@, mark_of("error"@), m@, None),
    {
        assert(mark_of("error"@) == "✗"@) by {
            reveal_strlit("ok");
            reveal_strlit("warn");
            reveal_strlit("error");
            assert("error"@[0] != "ok"@[0]);
            assert("error"@[0] != "warn"@[0]);
        }
        self.log("error", "✗", m, None);
    }

    /// A plain line of progress (not logged), when not for JSON.
    pub fn say(&mut self, m: &str)
        ensures
            final(self).issues@ == old(self).issues@,
            crate::typst::svs(final(self).lines@) == if old(self).json {
                crate::typst::svs(old(self).lines@)
            } else {
                crate::typst::svs(old(self).lines@).push(m@)
            },
            final(self).json == old(self).json,
            final(self).cur_book@ == old(self).cur_book@,
            opt_text(final(self).cur_lang) == opt_text(old(self).cur_lang),
    {
        if !self.json {
            let line = crate::text::copy_string(m);
            let ghost lb = crate::typst::svs(self.lines@);
            self.lines.push(line);
            assert(crate::typst::svs(self.lines@) =~= lb.push(m@));
        }
    }

    /// Hand out the lines not printed yet.
    pub fn take_lines(&mut self) -> (r: Vec<String>)
        ensures
            r@ == old(self).lines@,
            final(self).lines@.len() == 0,
            final(self).issues@ == old(self).issues@,
            final(self).json == old(self).json,
            final(self).cur_book == old(self).cur_book,
            final(self).cur_lang == old(self).cur_lang,
    {
        let mut out: Vec<String> = Vec::new();
        std::mem::swap(&mut out, &mut self.lines);
        out
    }

    /// How many outcomes were logged at a level.
    pub fn count(&self, level: &str) -> (r: usize)
        ensures
            r == count_level(self.issues@, level@),
    {
        let lv = crate::text::chars_of(level);
        let mut n: usize = 0;
        let mut i: usize = 0;
        while i < self.issues.len()
            invariant
                0 <= i <= self.issues@.len(),
                lv@ == level@,
                n == count_level(self.issues@.take(i as int), level@),
            decreases self.issues@.len() - i,
        {
            assert(self.issues@.take(i as int + 1).drop_last() =~= self.issues@.take(i as int));
            proof {
                lemma_count_level_bound(self.issues@.take(i as int), level@);
            }
            if crate::text::eq_chars(&crate::text::chars_of(self.issues[i].level), &lv) {
                n += 1;
            }
            i += 1;
        }
        assert(self.issues@.take(self.issues@.len() as int) =~= self.issues@);
        n
    }
}

/// The summary line of a deep validation, led by its overall state: any error
/// blocks publishing, warnings alone do not.
pub open spec fn spec_verdict(pass: nat, warn: nat, err: nat) -> Seq<char> {
    let v = if err > 0 {
        "✗ NOT READY"@
    } else if warn > 0 {
        "⚠ READY WITH WARNINGS"@
    } else {
        "✓ READY"@
    };
    "\n"@ + v + " — "@ + dec(pass) + " ok · "@ + dec(warn) + " warning(s) · "@ + dec(err) + " error(s)"@
}

/// The summary line for the tallies.
pub fn verdict(pass: usize, warn: usize, err: usize) -> (r: String)
    ensures
        r@ == spec_verdict(pass as nat, warn as nat, err as nat),
{
    let mut m: Vec<char> = Vec::new();
    push_str(&mut m, "\n");
    if err > 0 {
        push_str(&mut m, "✗ NOT READY");
    } else if warn > 0 {
        push_str(&mut m, "⚠ READY WITH WARNINGS");
    } else {
        push_str(&mut m, "✓ READY");
    }
    push_str(&mut m, " — ");
    push_slice(&mut m, &dec_chars(pass));
    push_str(&mut m, " ok · ");
    push_slice(&mut m, &dec_chars(warn));
    push_str(&mut m, " warning(s) · ");
    push_slice(&mut m, &dec_chars(err));
    push_str(&mut m, " error(s)");
    string_of(&m)
}

// ---------------------------------------------------------------------------
// Check outcomes
// ---------------------------------------------------------------------------

/// The mark a level's line carries.
pub open spec fn mark_of(level: Seq<char>) -> Seq<char> {
    if level == "ok"@ {
        "✓"@
    } else if level == "warn"@ {
        "!"@
    } else {
        "✗"@
    }
}

/// Outcomes `(level, message, page)` logged under the report's book and language.
pub open spec fn log_entries(r: Report, os: Seq<(Seq<char>, Seq<char>, Option<u32>)>) -> Seq<(Seq<char>, Seq<char>, Option<Seq<char>>, Option<u32>, Seq<char>)> {
    os.map_values(|o: (Seq<char>, Seq<char>, Option<u32>)| (o.0, r.cur_book@, opt_text(r.cur_lang), o.2, o.1))
}

/// The printed lines of outcomes.
pub open spec fn log_lines(os: Seq<(Seq<char>, Seq<char>, Option<u32>)>) -> Seq<Seq<char>> {
    os.map_values(|o: (Seq<char>, Seq<char>, Option<u32>)| "  "@ + mark_of(o.0) + " "@ + o.1)
}

/// The report after logging the outcomes `os`, in order.
pub open spec fn after_logs(old_r: Report, new_r: Report, os: Seq<(Seq<char>, Seq<char>, Option<u32>)>) -> bool {
    &&& issues_of(new_r.issues@) == issues_of(old_r.issues@) + log_entries(old_r, os)
    &&& crate::typst::svs(new_r.lines@) == crate::typst::svs(old_r.lines@) + if old_r.json {
        Seq::<Seq<char>>::empty()
    } else {
        log_lines(os)
    }
    &&& new_r.json == old_r.json
    &&& new_r.cur_book@ == old_r.cur_book@
    &&& opt_text(new_r.cur_lang) == opt_text(old_r.cur_lang)
}

proof fn lemma_after_logs_none(r: Report)
    ensures
        after_logs(r, r, seq![]),
{
    assert(issues_of(r.issues@) + log_entries(r, seq![]) =~= issues_of(r.issues@));
    assert(crate::typst::svs(r.lines@) + Seq::<Seq<char>>::empty() =~= crate::typst::svs(r.lines@));
    assert(crate::typst::svs(r.lines@) + log_lines(seq![]) =~= crate::typst::svs(r.lines@));
}

proof fn lemma_after_logs_push(
    a: Report,
    b: Report,
    c: Report,
    os: Seq<(Seq<char>, Seq<char>, Option<u32>)>,
    level: Seq<char>,
    m: Seq<char>,
    page: Option<u32>,
)
    requires
        after_logs(a, b, os),
        after_log(b, c, level, mark_of(level), m, page),
    ensures
        after_logs(a, c, os.push((level, m, page))),
{
    assert(log_entries(a, os.push((level, m, page))) =~= log_entries(a, os).push(logged(b, level, m, page)));
    assert(log_lines(os.push((level, m, page))) =~= log_lines(os).push("  "@ + mark_of(level) + " "@ + m));
    assert(issues_of(c.issues@) =~= issues_of(a.issues@) + log_entries(a, os.push((level, m, page))));
    if a.json {
        assert(crate::typst::svs(c.lines@) =~= crate::typst::svs(a.lines@) + Seq::<Seq<char>>::empty());
    } else {
        assert(crate::typst::svs(c.lines@) =~= crate::typst::svs(a.lines@) + log_lines(os.push((level, m, page))));
    }
}

/// The outcomes of the configuration checks: one pass when nothing was found,
/// else one error or warning per finding, prefixed `config: `.
pub open spec fn config_outcomes(issues: Seq<(Seq<char>, Seq<char>)>, n_langs: nat) -> Seq<(Seq<char>, Seq<char>, Option<u32>)> {
    if issues.len() == 0 {
        seq![("ok"@, "config/KDP rules ("@ + dec(n_langs) + " lang)"@, None)]
    } else {
        issues.map_values(|i: (Seq<char>, Seq<char>)| (
            if i.0 == "error"@ {
                "error"@
            } else {
                "warn"@
            },
            "config: "@ + i.1,
            None::<u32>,
        ))
    }
}

/// Log the configuration findings of a book (metadata rules and editions).
pub fn config_checks(rep: &mut Report, issues: &Vec<crate::config::Issue>, n_langs: usize)
    ensures
        after_logs(*old(rep), *final(rep), config_outcomes(crate::config::issues_view(issues@), n_langs as nat)),
{
    let ghost r0 = *rep;
    if issues.len() == 0 {
        let mut m: Vec<char> = Vec::new();
        push_str(&mut m, "config/KDP rules (");
        push_slice(&mut m, &dec_chars(n_langs));
        push_str(&mut m, " lang)");
        let ms = string_of(&m);
        proof {
            lemma_after_logs_none(r0);
        }
        rep.ok(ms.as_str());
        proof {
            lemma_after_logs_push(r0, r0, *rep, seq![], "ok"@, ms@, None);
            assert(seq![].push(("ok"@, ms@, None::<u32>)) =~= config_outcomes(crate::config::issues_view(issues@), n_langs as nat));
        }
        return;
    }
    let ghost outs = config_outcomes(crate::config::issues_view(issues@), n_langs as nat);
    let mut i: usize = 0;
    proof {
        lemma_after_logs_none(r0);
        assert(outs.take(0) =~= Seq::<(Seq<char>, Seq<char>, Option<u32>)>::empty());
    }
    while i < issues.len()
        invariant
            0 <= i <= issues@.len(),
            issues@.len() > 0,
            outs == config_outcomes(crate::config::issues_view(issues@), n_langs as nat),
            after_logs(r0, *rep, outs.take(i as int)),
        decreases issues@.len() - i,
    {
        let mut m: Vec<char> = Vec::new();
        push_str(&mut m, "config: ");
        push_str(&mut m, issues[i].msg.as_str());
        let ms = string_of(&m);
        let ghost rb = *rep;
        let err = crate::text::eq_str(&crate::text::chars_of(issues[i].level), "error");
        if err {
            rep.bad(ms.as_str());
        } else {
            rep.warn(ms.as_str());
        }
        proof {
            let lv = if err { "error"@ } else { "warn"@ };
            lemma_after_logs_push(r0, rb, *rep, outs.take(i as int), lv, ms@, None);
            assert(outs.take(i as int).push((lv, ms@, None::<u32>)) =~= outs.take(i as int + 1));
        }
        i += 1;
    }
    assert(outs.take(issues@.len() as int) =~= outs);
}

/// The first occurrence of `p` in `s` replaced by `r` (`str::replacen(p, r, 1)`).
pub open spec fn replace_first(s: Seq<char>, p: Seq<char>, r: Seq<char>) -> Seq<char> {
    match crate::text::find_from(s, p, 0) {
        Some(i) => s.take(i) + r + s.skip(i + p.len()),
        None => s,
    }
}

fn replace_first_exec(s: &str, p: &str, r: &str) -> (out: String)
    ensures
        out@ == replace_first(s@, p@, r@),
{
    let sv = crate::text::chars_of(s);
    let pv = crate::text::chars_of(p);
    match crate::text::find(&sv, &pv, 0) {
        Some(i) => {
            proof {
                crate::text::lemma_find_from(sv@, pv@, 0);
                assert(crate::text::match_at(sv@, pv@, i as int));
                assert(i + pv@.len() <= sv@.len());
            }
            assert(i + pv.len() <= sv.len());
            let mut m = crate::text::sub_vec(&sv, 0, i);
            push_str(&mut m, r);
            let rest = crate::text::sub_vec(&sv, i + pv.len(), sv.len());
            push_slice(&mut m, &rest);
            assert(m@ =~= replace_first(s@, p@, r@));
            string_of(&m)
        },
        None => crate::text::copy_string(s),
    }
}

/// The report level of an accessibility finding.
pub open spec fn finding_level(l: crate::a11y::Level) -> Seq<char> {
    match l {
        crate::a11y::Level::Pass => "ok"@,
        crate::a11y::Level::Warn => "warn"@,
        crate::a11y::Level::Fail => "error"@,
    }
}

/// The outcomes of accessibility findings, each message labelled after its
/// leading `a11y `.
pub open spec fn a11y_outcomes(fs: Seq<(crate::a11y::Level, Seq<char>)>, label: Seq<char>) -> Seq<(Seq<char>, Seq<char>, Option<u32>)> {
    fs.map_values(|f: (crate::a11y::Level, Seq<char>)| (
        finding_level(f.0),
        replace_first(f.1, "a11y "@, "a11y "@ + label + " "@),
        None::<u32>,
    ))
}

/// Log accessibility findings under a label.
pub fn emit(rep: &mut Report, findings: &Vec<crate::a11y::Finding>, label: &str)
    ensures
        after_logs(*old(rep), *final(rep), a11y_outcomes(crate::a11y::fviews(findings@), label@)),
{
    let ghost r0 = *rep;
    let ghost outs = a11y_outcomes(crate::a11y::fviews(findings@), label@);
    let mut with: Vec<char> = Vec::new();
    push_str(&mut with, "a11y ");
    push_str(&mut with, label);
    push_str(&mut with, " ");
    let with_s = string_of(&with);
    let mut i: usize = 0;
    proof {
        lemma_after_logs_none(r0);
        assert(outs.take(0) =~= Seq::<(Seq<char>, Seq<char>, Option<u32>)>::empty());
    }
    while i < findings.len()
        invariant
            0 <= i <= findings@.len(),
            outs == a11y_outcomes(crate::a11y::fviews(findings@), label@),
            with_s@ == "a11y "@ + label@ + " "@,
            after_logs(r0, *rep, outs.take(i as int)),
        decreases findings@.len() - i,
    {
        let m = replace_first_exec(findings[i].msg.as_str(), "a11y ", with_s.as_str());
        let ghost rb = *rep;
        let ghost lv = finding_level(findings@[i as int].level);
        match findings[i].level {
            crate::a11y::Level::Pass => rep.ok(m.as_str()),
            crate::a11y::Level::Warn => rep.warn(m.as_str()),
            crate::a11y::Level::Fail => rep.bad(m.as_str()),
        }
        proof {
            lemma_after_logs_push(r0, rb, *rep, outs.take(i as int), lv, m@, None);
            assert(outs.take(i as int).push((lv, m@, None::<u32>)) =~= outs.take(i as int + 1));
        }
        i += 1;
    }
    assert(outs.take(findings@.len() as int) =~= outs);
}

/// `slug lang · output`, the label of EPUB checks.
pub open spec fn spec_epub_label(j: crate::plan::JobV) -> Seq<char> {
    j.slug + " "@ + j.lang + " · "@ + crate::plan::spec_out_name(j.out)
}

/// The label of EPUB checks.
pub fn epub_label(job: &crate::plan::Job) -> (r: String)
    ensures
        r@ == spec_epub_label(job@),
{
    let mut m: Vec<char> = Vec::new();
    push_str(&mut m, job.slug.as_str());
    push_str(&mut m, " ");
    push_str(&mut m, job.lang.as_str());
    push_str(&mut m, " · ");
    push_str(&mut m, job.out.name());
    string_of(&m)
}

/// One outcome.
pub open spec fn one(level: Seq<char>, m: Seq<char>) -> Seq<(Seq<char>, Seq<char>, Option<u32>)> {
    seq![(level, m, None::<u32>)]
}

/// Log one outcome through the report method for its level.
fn log_one(rep: &mut Report, level: &'static str, m: &Vec<char>)
    requires
        level@ == "ok"@ || level@ == "warn"@ || level@ == "error"@,
    ensures
        after_logs(*old(rep), *final(rep), one(level@, m@)),
{
    let ghost r0 = *rep;
    let ms = string_of(m);
    proof {
        lemma_after_logs_none(r0);
    }
    let lc = crate::text::chars_of(level);
    if crate::text::eq_str(&lc, "ok") {
        rep.ok(ms.as_str());
    } else if crate::text::eq_str(&lc, "warn") {
        rep.warn(ms.as_str());
    } else {
        rep.bad(ms.as_str());
    }
    proof {
        lemma_after_logs_push(r0, r0, *rep, seq![], level@, ms@, None);
        assert(seq![].push((level@, ms@, None::<u32>)) =~= one(level@, m@));
    }
}

/// The lines of epubcheck's output worth echoing (errors, fatal errors and
/// warnings, trimmed) and the number of warnings among them.
pub open spec fn epubcheck_scan(ls: Seq<Seq<char>>) -> (nat, Seq<Seq<char>>)
    decreases ls.len(),
{
    if ls.len() == 0 {
        (0, seq![])
    } else {
        let p = epubcheck_scan(ls.drop_last());
        let l = crate::text::trim(ls.last());
        if crate::text::starts_with(l, "ERROR"@) || crate::text::starts_with(l, "FATAL"@) {
            (p.0, p.1.push(l))
        } else if crate::text::starts_with(l, "WARNING"@) {
            (p.0 + 1, p.1.push(l))
        } else {
            p
        }
    }
}

/// Read epubcheck's output: echo its error and warning lines (indented, as
/// progress) and return how many warnings it reported.
pub fn epubcheck_lines(rep: &mut Report, text: &str) -> (r: usize)
    ensures
        ({
            let sc = epubcheck_scan(crate::text::lines(text@));
            &&& r == sc.0
            &&& final(rep).issues@ == old(rep).issues@
            &&& final(rep).json == old(rep).json
            &&& final(rep).cur_book@ == old(rep).cur_book@
            &&& opt_text(final(rep).cur_lang) == opt_text(old(rep).cur_lang)
            &&& crate::typst::svs(final(rep).lines@) == crate::typst::svs(old(rep).lines@) + if old(rep).json {
                Seq::<Seq<char>>::empty()
            } else {
                sc.1.map_values(|l: Seq<char>| "      "@ + l)
            }
        }),
{
    let ghost l0 = crate::typst::svs(rep.lines@);
    let ghost r0 = *rep;
    let ls = crate::text::lines_of(&crate::text::chars_of(text));
    let ghost lv = crate::text::lines(text@);
    assert(crate::text::views(ls@) == lv);
    let mut warns: usize = 0;
    let mut i: usize = 0;
    assert(lv.take(0) =~= Seq::<Seq<char>>::empty());
    while i < ls.len()
        invariant
            0 <= i <= ls@.len(),
            lv == crate::text::views(ls@),
            warns == epubcheck_scan(lv.take(i as int)).0,
            warns <= i,
            rep.issues@ == r0.issues@,
            rep.json == r0.json,
            rep.cur_book@ == r0.cur_book@,
            opt_text(rep.cur_lang) == opt_text(r0.cur_lang),
            crate::typst::svs(rep.lines@) == l0 + if r0.json {
                Seq::<Seq<char>>::empty()
            } else {
                epubcheck_scan(lv.take(i as int)).1.map_values(|l: Seq<char>| "      "@ + l)
            },
        decreases ls@.len() - i,
    {
        assert(lv.take(i as int + 1).drop_last() =~= lv.take(i as int));
        assert(lv.take(i as int + 1).last() == ls@[i as int]@);
        let t = crate::text::trimmed(&ls[i]);
        let ghost before = epubcheck_scan(lv.take(i as int));
        let ghost lb = crate::typst::svs(rep.lines@);
        let err = crate::text::begins(&t, "ERROR") || crate::text::begins(&t, "FATAL");
        let warn = !err && crate::text::begins(&t, "WARNING");
        if err || warn {
            if warn {
                warns += 1;
            }
            let mut m: Vec<char> = Vec::new();
            push_str(&mut m, "      ");
            push_slice(&mut m, &t);
            let ms = string_of(&m);
            rep.say(ms.as_str());
            proof {
                let after = epubcheck_scan(lv.take(i as int + 1));
                assert(after.1 == before.1.push(t@));
                if !r0.json {
                    assert(after.1.map_values(|l: Seq<char>| "      "@ + l) =~= before.1.map_values(
                        |l: Seq<char>| "      "@ + l,
                    ).push("      "@ + t@));
                }
            }
        }
        i += 1;
    }
    assert(lv.take(ls@.len() as int) =~= lv);
    warns
}

/// The outcome of running epubcheck: clean, passing with warnings, failing, or
/// not run (its error text).
pub open spec fn epubcheck_outcome(label: Seq<char>, r: Result<(usize, bool), Seq<char>>) -> Seq<(Seq<char>, Seq<char>, Option<u32>)> {
    match r {
        Ok((w, true)) => if w == 0 {
            one("ok"@, "EPUB "@ + label + ": epubcheck clean"@)
        } else {
            one("warn"@, "EPUB "@ + label + ": epubcheck OK, "@ + dec(w as nat) + " warning(s)"@)
        },
        Ok((_, false)) => one("error"@, "EPUB "@ + label + ": epubcheck reported errors (see above)"@),
        Err(e) => one("warn"@, "EPUB "@ + label + ": epubcheck not run: "@ + e),
    }
}

/// The view of a result whose error is text.
pub open spec fn res_text<T>(r: Result<T, String>) -> Result<T, Seq<char>> {
    match r {
        Ok(x) => Ok(x),
        Err(e) => Err(e@),
    }
}

/// Log the outcome of epubcheck on an EPUB.
pub fn epubcheck_report(rep: &mut Report, label: &str, r: &Result<(usize, bool), String>)
    ensures
        after_logs(*old(rep), *final(rep), epubcheck_outcome(label@, res_text(*r))),
{
    let mut m: Vec<char> = Vec::new();
    push_str(&mut m, "EPUB ");
    push_str(&mut m, label);
    match r {
        Ok((w, true)) => {
            if *w == 0 {
                push_str(&mut m, ": epubcheck clean");
                log_one(rep, "ok", &m);
            } else {
                push_str(&mut m, ": epubcheck OK, ");
                push_slice(&mut m, &dec_chars(*w));
                push_str(&mut m, " warning(s)");
                log_one(rep, "warn", &m);
            }
        },
        Ok((_, false)) => {
            push_str(&mut m, ": epubcheck reported errors (see above)");
            log_one(rep, "error", &m);
        },
        Err(e) => {
            push_str(&mut m, ": epubcheck not run: ");
            push_str(&mut m, e.as_str());
            log_one(rep, "warn", &m);
        },
    }
}

/// Log a failed build of an artifact (`EPUB` or `PDF`) under a label.
pub fn build_failed(rep: &mut Report, kind: &str, label: &str, err: &str)
    ensures
        after_logs(*old(rep), *final(rep), one("error"@, kind@ + " "@ + label@ + ": build failed: "@ + err@)),
{
    let mut m: Vec<char> = Vec::new();
    push_str(&mut m, kind);
    push_str(&mut m, " ");
    push_str(&mut m, label);
    push_str(&mut m, ": build failed: ");
    push_str(&mut m, err);
    log_one(rep, "error", &m);
}

/// The outcome of DAISY Ace: clean, one warning per violation, or a warning
/// that it produced no report (with its trimmed error output, if any).
pub open spec fn ace_outcome(label: Seq<char>, violations: Option<Seq<Seq<char>>>, stderr: Seq<char>) -> Seq<(Seq<char>, Seq<char>, Option<u32>)> {
    match violations {
        Some(v) => if v.len() == 0 {
            one("ok"@, "a11y "@ + label + ": DAISY Ace clean"@)
        } else {
            v.map_values(|m: Seq<char>| ("warn"@, "a11y "@ + label + ": ace: "@ + m, None::<u32>))
        },
        None => one(
            "warn"@,
            "a11y "@ + label + ": ace produced no report"@ + if crate::text::trim(stderr).len() == 0 {
                Seq::<char>::empty()
            } else {
                ": "@ + crate::text::trim(stderr)
            },
        ),
    }
}

/// Log the outcome of DAISY Ace on an EPUB.
pub fn ace_report(rep: &mut Report, label: &str, violations: &Option<Vec<String>>, stderr: &str)
    ensures
        after_logs(
            *old(rep),
            *final(rep),
            ace_outcome(
                label@,
                match violations {
                    Some(v) => Some(crate::typst::svs(v@)),
                    None => None,
                },
                stderr@,
            ),
        ),
{
    let ghost r0 = *rep;
    match violations {
        Some(v) => {
            if v.len() == 0 {
                let mut m: Vec<char> = Vec::new();
                push_str(&mut m, "a11y ");
                push_str(&mut m, label);
                push_str(&mut m, ": DAISY Ace clean");
                log_one(rep, "ok", &m);
                return;
            }
            let ghost outs = crate::typst::svs(v@).map_values(
                |m: Seq<char>| ("warn"@, "a11y "@ + label@ + ": ace: "@ + m, None::<u32>),
            );
            proof {
                lemma_after_logs_none(r0);
                assert(outs.take(0) =~= Seq::<(Seq<char>, Seq<char>, Option<u32>)>::empty());
            }
            let mut i: usize = 0;
            while i < v.len()
                invariant
                    0 <= i <= v@.len(),
                    outs == crate::typst::svs(v@).map_values(
                        |m: Seq<char>| ("warn"@, "a11y "@ + label@ + ": ace: "@ + m, None::<u32>),
                    ),
                    after_logs(r0, *rep, outs.take(i as int)),
                decreases v@.len() - i,
            {
                let mut m: Vec<char> = Vec::new();
                push_str(&mut m, "a11y ");
                push_str(&mut m, label);
                push_str(&mut m, ": ace: ");
                push_str(&mut m, v[i].as_str());
                let ms = string_of(&m);
                let ghost rb = *rep;
                rep.warn(ms.as_str());
                proof {
                    lemma_after_logs_push(r0, rb, *rep, outs.take(i as int), "warn"@, ms@, None);
                    assert(outs.take(i as int).push(("warn"@, ms@, None::<u32>)) =~= outs.take(i as int + 1));
                }
                i += 1;
            }
            assert(outs.take(v@.len() as int) =~= outs);
            assert(crate::typst::svs(v@).len() > 0);
            assert(outs == ace_outcome(label@, Some(crate::typst::svs(v@)), stderr@));
        },
        None => {
            let t = crate::text::trimmed(&crate::text::chars_of(stderr));
            let mut m: Vec<char> = Vec::new();
            push_str(&mut m, "a11y ");
            push_str(&mut m, label);
            push_str(&mut m, ": ace produced no report");
            let ghost x = m@;
            if t.len() > 0 {
                push_str(&mut m, ": ");
                push_slice(&mut m, &t);
                assert(m@ =~= x + (": "@ + t@));
            } else {
                assert(m@ =~= x + Seq::<char>::empty());
            }
            log_one(rep, "warn", &m);
            assert(one("warn"@, m@) == ace_outcome(label@, None, stderr@));
        },
    }
}

/// Minimum eBook front-cover width and height (px).
pub const FRONT_MIN_W: u32 = 1600;
pub const FRONT_MIN_H: u32 = 2560;

/// The outcome of the front-cover check: no cover at all, the front PNG's
/// size against the eBook minimum, an unreadable PNG, or no front PNG.
/// `front` is `None` when the front PNG does not exist.
pub open spec fn front_cover_outcome(
    slug: Seq<char>,
    lang: Seq<char>,
    front: Option<Result<(u32, u32), Seq<char>>>,
    wrap_exists: bool,
) -> Seq<(Seq<char>, Seq<char>, Option<u32>)> {
    let at = "cover "@ + slug + " "@ + lang + ": "@;
    match front {
        None => if !wrap_exists {
            one("warn"@, at + "no cover assets (skipped)"@)
        } else {
            one("warn"@, at + "no front-"@ + lang + ".png"@)
        },
        Some(Ok((w, h))) => if w >= 1600 && h >= 2560 {
            one("ok"@, at + "front "@ + dec(w as nat) + "×"@ + dec(h as nat) + " (≥1600×2560)"@)
        } else {
            one("warn"@, at + "front "@ + dec(w as nat) + "×"@ + dec(h as nat) + " below 1600×2560 (low-res)"@)
        },
        Some(Err(e)) => one("warn"@, at + "can't read front PNG: "@ + e),
    }
}

/// Log the front-cover check of a book and language.
pub fn front_cover_report(
    rep: &mut Report,
    slug: &str,
    lang: &str,
    front: &Option<Result<(u32, u32), String>>,
    wrap_exists: bool,
)
    ensures
        after_logs(
            *old(rep),
            *final(rep),
            front_cover_outcome(
                slug@,
                lang@,
                match front {
                    Some(r) => Some(res_text(*r)),
                    None => None,
                },
                wrap_exists,
            ),
        ),
{
    let mut m: Vec<char> = Vec::new();
    push_str(&mut m, "cover ");
    push_str(&mut m, slug);
    push_str(&mut m, " ");
    push_str(&mut m, lang);
    push_str(&mut m, ": ");
    match front {
        None => {
            if !wrap_exists {
                push_str(&mut m, "no cover assets (skipped)");
            } else {
                push_str(&mut m, "no front-");
                push_str(&mut m, lang);
                push_str(&mut m, ".png");
            }
            log_one(rep, "warn", &m);
        },
        Some(Ok((w, h))) => {
            push_str(&mut m, "front ");
            push_slice(&mut m, &dec_chars(*w as usize));
            push_str(&mut m, "×");
            push_slice(&mut m, &dec_chars(*h as usize));
            if *w >= FRONT_MIN_W && *h >= FRONT_MIN_H {
                push_str(&mut m, " (≥1600×2560)");
                log_one(rep, "ok", &m);
            } else {
                push_str(&mut m, " below 1600×2560 (low-res)");
                log_one(rep, "warn", &m);
            }
        },
        Some(Err(e)) => {
            push_str(&mut m, "can't read front PNG: ");
            push_str(&mut m, e.as_str());
            log_one(rep, "warn", &m);
        },
    }
}

/// Printed spine text needs at least this many interior pages.
pub const SPINE_TEXT_MIN_PAGES: u32 = 100;

/// The spine-text eligibility note of a KDP paperback or hardcover interior
/// (nothing for other targets or an interior not built).
pub open spec fn spine_outcome(label: Seq<char>, target: Seq<char>, pages: Option<u32>) -> Seq<(Seq<char>, Seq<char>, Option<u32>)> {
    if !(target == "kdp-paperback"@ || target == "kdp-hardcover"@) {
        seq![]
    } else {
        match pages {
            None => seq![],
            Some(p) => if p >= 100 {
                one("ok"@, "spine "@ + label + ": interior "@ + dec(p as nat) + "pp — spine text allowed (≥100pp)"@)
            } else {
                one(
                    "ok"@,
                    "spine "@ + label + ": interior "@ + dec(p as nat)
                        + "pp — spine text NOT allowed (<100pp); ship a blank spine"@,
                )
            },
        }
    }
}

/// Log the spine-text eligibility of a print interior.
pub fn spine_report(rep: &mut Report, label: &str, target: &str, pages: Option<u32>)
    ensures
        after_logs(*old(rep), *final(rep), spine_outcome(label@, target@, pages)),
{
    let t = crate::text::chars_of(target);
    if !(crate::text::eq_str(&t, "kdp-paperback") || crate::text::eq_str(&t, "kdp-hardcover")) {
        proof {
            lemma_after_logs_none(*rep);
        }
        return;
    }
    match pages {
        None => {
            proof {
                lemma_after_logs_none(*rep);
            }
        },
        Some(p) => {
            let mut m: Vec<char> = Vec::new();
            push_str(&mut m, "spine ");
            push_str(&mut m, label);
            push_str(&mut m, ": interior ");
            push_slice(&mut m, &dec_chars(p as usize));
            if p >= SPINE_TEXT_MIN_PAGES {
                push_str(&mut m, "pp — spine text allowed (≥100pp)");
            } else {
                push_str(&mut m, "pp — spine text NOT allowed (<100pp); ship a blank spine");
            }
            log_one(rep, "ok", &m);
        },
    }
}

/// The outcome of the image-resolution audit of a print interior: not built,
/// unreadable, nothing to audit, all at or above the floor, or one
/// page-stamped warning per image below it.
pub open spec fn dpi_outcome(label: Seq<char>, built: bool, images: Option<Seq<DpiImage>>) -> Seq<(Seq<char>, Seq<char>, Option<u32>)> {
    let at = "image DPI "@ + label + ": "@;
    if !built {
        one("warn"@, at + "PDF not built (skipped)"@)
    } else {
        match images {
            None => one("warn"@, at + "could not read PDF images"@),
            Some(ims) => {
                let checked = count_audited(ims, 50, ims.len() as int);
                let low = low_rows(ims, 300, 50, ims.len() as int);
                match min_audited(ims, 50, ims.len() as int) {
                    None => one("ok"@, at + "no raster images to audit"@),
                    Some(min) => if checked == 0 {
                        one("ok"@, at + "no raster images to audit"@)
                    } else if low.len() == 0 {
                        one("ok"@, at + dec(checked) + " image(s) ≥300dpi (min "@ + dec(min as nat) + ")"@)
                    } else {
                        low.map_values(|r: DpiRow| (
                            "warn"@,
                            at + "p"@ + dec(r.page as nat) + " "@ + dec(r.w as nat) + "×"@ + dec(r.h as nat)
                                + "px @ "@ + dec(r.ppi as nat) + "dpi (below 300dpi; min "@ + dec(min as nat)
                                + ")"@,
                            Some(r.page),
                        ))
                    },
                }
            },
        }
    }
}

/// Log the image-resolution audit of a print interior.
pub fn dpi_report(rep: &mut Report, label: &str, built: bool, images: &Option<Vec<DpiImage>>)
    ensures
        after_logs(
            *old(rep),
            *final(rep),
            dpi_outcome(
                label@,
                built,
                match images {
                    Some(v) => Some(v@),
                    None => None,
                },
            ),
        ),
{
    let ghost r0 = *rep;
    let mut at: Vec<char> = Vec::new();
    push_str(&mut at, "image DPI ");
    push_str(&mut at, label);
    push_str(&mut at, ": ");
    if !built {
        let mut m = at;
        push_str(&mut m, "PDF not built (skipped)");
        log_one(rep, "warn", &m);
        return;
    }
    let ims = match images {
        None => {
            let mut m = at;
            push_str(&mut m, "could not read PDF images");
            log_one(rep, "warn", &m);
            return;
        },
        Some(v) => v,
    };
    let (checked, min_seen, low) = audit_dpi_rows(ims, MIN_PRINT_DPI, MIN_IMG_PX);
    let min = match min_seen {
        None => {
            let mut m = at;
            push_str(&mut m, "no raster images to audit");
            log_one(rep, "ok", &m);
            return;
        },
        Some(x) => x,
    };
    if checked == 0 {
        let mut m = at;
        push_str(&mut m, "no raster images to audit");
        log_one(rep, "ok", &m);
        return;
    }
    if low.len() == 0 {
        let mut m = at;
        push_slice(&mut m, &dec_chars(checked));
        push_str(&mut m, " image(s) ≥300dpi (min ");
        push_slice(&mut m, &dec_chars(min as usize));
        push_str(&mut m, ")");
        log_one(rep, "ok", &m);
        return;
    }
    let ghost outs = dpi_outcome(label@, built, Some(ims@));
    proof {
        lemma_after_logs_none(r0);
        assert(outs.take(0) =~= Seq::<(Seq<char>, Seq<char>, Option<u32>)>::empty());
    }
    let mut i: usize = 0;
    while i < low.len()
        invariant
            0 <= i <= low@.len(),
            at@ == "image DPI "@ + label@ + ": "@,
            low@ == low_rows(ims@, 300, 50, ims@.len() as int),
            low@.len() > 0,
            count_audited(ims@, 50, ims@.len() as int) > 0,
            min_audited(ims@, 50, ims@.len() as int) == Some(min),
            outs == dpi_outcome(label@, true, Some(ims@)),
            after_logs(r0, *rep, outs.take(i as int)),
        decreases low@.len() - i,
    {
        let r = low[i];
        let mut m = copy_chars(&at);
        push_str(&mut m, "p");
        push_slice(&mut m, &dec_chars(r.page as usize));
        push_str(&mut m, " ");
        push_slice(&mut m, &dec_chars(r.w as usize));
        push_str(&mut m, "×");
        push_slice(&mut m, &dec_chars(r.h as usize));
        push_str(&mut m, "px @ ");
        push_slice(&mut m, &dec_chars(r.ppi as usize));
        push_str(&mut m, "dpi (below 300dpi; min ");
        push_slice(&mut m, &dec_chars(min as usize));
        push_str(&mut m, ")");
        let ms = string_of(&m);
        let ghost rb = *rep;
        rep.warn_page(ms.as_str(), r.page);
        proof {
            lemma_after_logs_push(r0, rb, *rep, outs.take(i as int), "warn"@, ms@, Some(r.page));
            assert(outs.take(i as int).push(("warn"@, ms@, Some(r.page))) =~= outs.take(i as int + 1));
        }
        i += 1;
    }
    assert(outs.take(low@.len() as int) =~= outs);
}

fn copy_chars(v: &Vec<char>) -> (r: Vec<char>)
    ensures
        r@ == v@,
{
    crate::text::copy_vec(v)
}

} // verus!
