//! Build planning: which outputs a format or an edition target produces, how a
//! build request expands into a flat list of jobs (book × edition-or-format ×
//! language × output), where each job writes, and the front-matter values the
//! rendering engines share.
use vstd::prelude::*;
use crate::config::{
    debug_quoted, edition_named, find_edition, first_of, issues_view, ov, spec_color_issues,
    spec_page_range, spec_validate_editions, validate_color_compat, validate_editions, Edition,
};
use crate::epub::BookMeta;
use crate::paths::{file_name_of, opt_view, path_file_name};
use crate::text::{chars_of, copy_string, dec, dec_chars, eq_str, push_slice, push_str, string_of};
use crate::typst::svs;

verus! {

/// Image width (px) EPUB images are shrunk to when an edition sets none.
pub const DEFAULT_EPUB_PX: u32 = 1200;

/// One kind of build output.
#[derive(Clone, Copy, PartialEq, Eq, Debug, Structural)]
pub enum Out {
    RetailEpub,
    KdpEpub,
    RetailPdf,
    KdpPdf,
    /// Editor review document (`.docx`); not a publish format.
    Docx,
}

/// The output's name, as job labels show it.
pub open spec fn spec_out_name(o: Out) -> Seq<char> {
    match o {
        Out::RetailEpub => "RetailEpub"@,
        Out::KdpEpub => "KdpEpub"@,
        Out::RetailPdf => "RetailPdf"@,
        Out::KdpPdf => "KdpPdf"@,
        Out::Docx => "Docx"@,
    }
}

impl Out {
    /// The output's name.
    pub fn name(self) -> (r: &'static str)
        ensures
            r@ == spec_out_name(self),
    {
        match self {
            Out::RetailEpub => "RetailEpub",
            Out::KdpEpub => "KdpEpub",
            Out::RetailPdf => "RetailPdf",
            Out::KdpPdf => "KdpPdf",
            Out::Docx => "Docx",
        }
    }
}

/// The outputs a `--format` request builds; anything unknown (`all`) builds the
/// four publish outputs.
pub open spec fn spec_outputs_for_format(fmt: Seq<char>) -> Seq<Out> {
    if fmt == "epub"@ {
        seq![Out::RetailEpub]
    } else if fmt == "pdf"@ {
        seq![Out::RetailPdf]
    } else if fmt == "kdp"@ {
        seq![Out::KdpEpub, Out::KdpPdf]
    } else if fmt == "print"@ {
        seq![Out::KdpPdf]
    } else if fmt == "docx"@ {
        seq![Out::Docx]
    } else {
        seq![Out::RetailEpub, Out::KdpEpub, Out::RetailPdf, Out::KdpPdf]
    }
}

/// The outputs an edition's distribution target builds; anything unknown
/// (`retail`) builds the retail EPUB and PDF.
pub open spec fn spec_outputs_for_target(target: Seq<char>) -> Seq<Out> {
    if target == "kdp-paperback"@ || target == "kdp-hardcover"@ || target == "bubok"@ {
        seq![Out::KdpPdf]
    } else if target == "kdp-epub"@ {
        seq![Out::KdpEpub]
    } else if target == "kdp"@ {
        seq![Out::KdpEpub, Out::KdpPdf]
    } else if target == "gumroad"@ {
        seq![Out::RetailEpub, Out::RetailPdf]
    } else {
        seq![Out::RetailEpub, Out::RetailPdf]
    }
}

fn outs1(a: Out) -> (r: Vec<Out>)
    ensures
        r@ == seq![a],
{
    let mut v: Vec<Out> = Vec::new();
    v.push(a);
    v
}

fn outs2(a: Out, b: Out) -> (r: Vec<Out>)
    ensures
        r@ == seq![a, b],
{
    let mut v: Vec<Out> = Vec::new();
    v.push(a);
    v.push(b);
    v
}

/// The outputs of a `--format` request.
pub fn outputs_for_format(fmt: &str) -> (r: Vec<Out>)
    ensures
        r@ == spec_outputs_for_format(fmt@),
{
    let f = chars_of(fmt);
    if eq_str(&f, "epub") {
        outs1(Out::RetailEpub)
    } else if eq_str(&f, "pdf") {
        outs1(Out::RetailPdf)
    } else if eq_str(&f, "kdp") {
        outs2(Out::KdpEpub, Out::KdpPdf)
    } else if eq_str(&f, "print") {
        outs1(Out::KdpPdf)
    } else if eq_str(&f, "docx") {
        outs1(Out::Docx)
    } else {
        let mut v = outs2(Out::RetailEpub, Out::KdpEpub);
        v.push(Out::RetailPdf);
        v.push(Out::KdpPdf);
        v
    }
}

/// The outputs of an edition target.
pub fn outputs_for_target(target: &str) -> (r: Vec<Out>)
    ensures
        r@ == spec_outputs_for_target(target@),
{
    let t = chars_of(target);
    if eq_str(&t, "kdp-paperback") || eq_str(&t, "kdp-hardcover") || eq_str(&t, "bubok") {
        outs1(Out::KdpPdf)
    } else if eq_str(&t, "kdp-epub") {
        outs1(Out::KdpEpub)
    } else if eq_str(&t, "kdp") {
        outs2(Out::KdpEpub, Out::KdpPdf)
    } else {
        outs2(Out::RetailEpub, Out::RetailPdf)
    }
}

// ---------------------------------------------------------------------------
// Jobs
// ---------------------------------------------------------------------------

/// One unit of work in the build queue. The page geometry of PDF outputs is
/// computed beside the job by the caller.
#[derive(Debug, Clone)]
pub struct Job {
    pub slug: String,
    /// The book's directory.
    pub dir: String,
    pub lang: String,
    /// The edition, for edition-driven builds.
    pub edition: Option<String>,
    /// The edition's target, or the format of a `--format` build.
    pub target: String,
    pub out: Out,
    pub epub_px: u32,
}

/// A job as plain values.
pub struct JobV {
    pub slug: Seq<char>,
    pub dir: Seq<char>,
    pub lang: Seq<char>,
    pub edition: Option<Seq<char>>,
    pub target: Seq<char>,
    pub out: Out,
    pub epub_px: u32,
}

impl View for Job {
    type V = JobV;

    open spec fn view(&self) -> JobV {
        JobV {
            slug: self.slug@,
            dir: self.dir@,
            lang: self.lang@,
            edition: ov(self.edition),
            target: self.target@,
            out: self.out,
            epub_px: self.epub_px,
        }
    }
}

/// Jobs as plain values.
pub open spec fn jobs_view(v: Seq<Job>) -> Seq<JobV> {
    v.map_values(|j: Job| j@)
}

/// `slug lang · edition-or-target · output`.
pub open spec fn spec_label(j: JobV) -> Seq<char> {
    let mid = match j.edition {
        Some(e) => e,
        None => j.target,
    };
    j.slug + " "@ + j.lang + " · "@ + mid + " · "@ + spec_out_name(j.out)
}

impl Job {
    /// The job's label, e.g. `la-riqueza es · kdp-paperback · KdpPdf`.
    pub fn label(&self) -> (r: String)
        ensures
            r@ == spec_label(self@),
    {
        let mut m: Vec<char> = Vec::new();
        push_str(&mut m, self.slug.as_str());
        push_str(&mut m, " ");
        push_str(&mut m, self.lang.as_str());
        push_str(&mut m, " · ");
        match &self.edition {
            Some(e) => push_str(&mut m, e.as_str()),
            None => push_str(&mut m, self.target.as_str()),
        }
        push_str(&mut m, " · ");
        push_str(&mut m, self.out.name());
        string_of(&m)
    }
}

/// The file a job writes (inside `output/<slug>/<lang>/`).
pub open spec fn spec_job_file(j: JobV) -> Seq<char> {
    let base = j.slug + "-"@ + j.lang;
    match j.out {
        Out::RetailEpub => base + ".epub"@,
        Out::KdpEpub => base + "-kdp.epub"@,
        Out::RetailPdf => base + ".pdf"@,
        Out::KdpPdf => if j.target == "bubok"@ && j.edition is Some {
            base + "-"@ + j.edition->0 + ".pdf"@
        } else {
            base + "-kdp.pdf"@
        },
        Out::Docx => base + ".docx"@,
    }
}

/// The file name a job writes; regional print editions (`bubok`) get their
/// own name so they do not overwrite the KDP interior.
pub fn job_file_name(job: &Job) -> (r: String)
    ensures
        r@ == spec_job_file(job@),
{
    let mut m: Vec<char> = Vec::new();
    push_str(&mut m, job.slug.as_str());
    push_str(&mut m, "-");
    push_str(&mut m, job.lang.as_str());
    match job.out {
        Out::RetailEpub => push_str(&mut m, ".epub"),
        Out::KdpEpub => push_str(&mut m, "-kdp.epub"),
        Out::RetailPdf => push_str(&mut m, ".pdf"),
        Out::KdpPdf => {
            let bubok = eq_str(&chars_of(job.target.as_str()), "bubok");
            match &job.edition {
                Some(ed) if bubok => {
                    push_str(&mut m, "-");
                    push_str(&mut m, ed.as_str());
                    push_str(&mut m, ".pdf");
                },
                _ => push_str(&mut m, "-kdp.pdf"),
            }
        },
        Out::Docx => push_str(&mut m, ".docx"),
    }
    string_of(&m)
}

/// The path a job writes to, under the repository root.
pub fn job_output_path(root: &str, job: &Job) -> (r: String)
    ensures
        r@ == crate::web::spec_output_path(root@, job.slug@, job.lang@, spec_job_file(job@)),
{
    let f = job_file_name(job);
    crate::web::output_path(root, job.slug.as_str(), job.lang.as_str(), f.as_str())
}

/// `n` with at least two digits.
pub open spec fn pad2(n: nat) -> Seq<char> {
    if n < 10 {
        "0"@ + dec(n)
    } else {
        dec(n)
    }
}

/// A compact duration: `42s`, `3m10s`, `1h02m`.
pub open spec fn spec_fmt_dur(s: nat) -> Seq<char> {
    if s < 60 {
        dec(s) + "s"@
    } else if s < 3600 {
        dec(s / 60) + "m"@ + pad2(s % 60) + "s"@
    } else {
        dec(s / 3600) + "h"@ + pad2((s % 3600) / 60) + "m"@
    }
}

fn push_pad2(m: &mut Vec<char>, n: u64)
    requires
        n < 100,
    ensures
        final(m)@ == old(m)@ + pad2(n as nat),
{
    if n < 10 {
        push_str(m, "0");
    }
    push_slice(m, &dec_chars(n as usize));
}

/// The sum of some durations.
pub open spec fn dur_sum(d: Seq<u64>) -> int
    decreases d.len(),
{
    if d.len() == 0 {
        0
    } else {
        dur_sum(d.drop_last()) + d.last()
    }
}

/// The time still to go in a queue of `n` jobs about to start job `i` (from
/// 0): the mean of the finished jobs' durations times the jobs left, capped at
/// the largest `u64`; nothing before a job has finished.
pub open spec fn spec_queue_eta(done: Seq<u64>, n: nat, i: nat) -> Option<u64> {
    if done.len() == 0 {
        None
    } else {
        let left = if i <= n { n - i } else { 0 };
        let t = (dur_sum(done) / (done.len() as int)) * left;
        Some(if t > u64::MAX { u64::MAX } else { t as u64 })
    }
}

proof fn lemma_dur_sum_bound(d: Seq<u64>)
    ensures
        0 <= dur_sum(d) <= d.len() * (u64::MAX as int),
    decreases d.len(),
{
    if d.len() > 0 {
        lemma_dur_sum_bound(d.drop_last());
        assert((d.len() - 1) * (u64::MAX as int) + (u64::MAX as int) == d.len() * (u64::MAX as int)) by (nonlinear_arith);
    }
}

/// The estimated time left for a queue of `n` jobs when job `i` (from 0) is
/// about to start, from the durations (seconds) of the jobs already done.
pub fn queue_eta(done: &Vec<u64>, n: usize, i: usize) -> (r: Option<u64>)
    ensures
        r == spec_queue_eta(done@, n as nat, i as nat),
{
    if done.len() == 0 {
        return None;
    }
    let mut sum: u128 = 0;
    let mut k: usize = 0;
    while k < done.len()
        invariant
            0 <= k <= done@.len(),
            sum == dur_sum(done@.take(k as int)),
        decreases done@.len() - k,
    {
        proof {
            assert(done@.take(k as int + 1).drop_last() =~= done@.take(k as int));
            lemma_dur_sum_bound(done@.take(k as int));
            assert(k * (u64::MAX as int) <= (usize::MAX as int) * (u64::MAX as int)) by (nonlinear_arith)
                requires
                    k <= usize::MAX,
            ;
            assert((usize::MAX as int) * (u64::MAX as int) + (u64::MAX as int) <= u128::MAX) by (nonlinear_arith);
        }
        sum = sum + done[k] as u128;
        k += 1;
    }
    assert(done@.take(done@.len() as int) =~= done@);
    let len = done.len() as u128;
    let avg: u128 = sum / len;
    proof {
        lemma_dur_sum_bound(done@);
        assert(avg <= u64::MAX) by (nonlinear_arith)
            requires
                avg == sum / len,
                0 <= sum <= len * (u64::MAX as int),
                len > 0,
        ;
    }
    let left: u128 = if i <= n {
        (n - i) as u128
    } else {
        0
    };
    proof {
        assert(avg * left <= (u64::MAX as int) * (usize::MAX as int)) by (nonlinear_arith)
            requires
                avg <= u64::MAX,
                left <= usize::MAX,
        ;
        assert((u64::MAX as int) * (usize::MAX as int) <= u128::MAX) by (nonlinear_arith);
    }
    let t: u128 = avg * left;
    if t > u64::MAX as u128 {
        Some(u64::MAX)
    } else {
        Some(t as u64)
    }
}

/// Format a duration given in whole seconds.
pub fn fmt_dur(secs: u64) -> (r: String)
    ensures
        r@ == spec_fmt_dur(secs as nat),
{
    let mut m: Vec<char> = Vec::new();
    if secs < 60 {
        push_slice(&mut m, &crate::text::dec_chars_wide(secs as u128));
        push_str(&mut m, "s");
    } else if secs < 3600 {
        push_slice(&mut m, &dec_chars((secs / 60) as usize));
        push_str(&mut m, "m");
        push_pad2(&mut m, secs % 60);
        push_str(&mut m, "s");
    } else {
        push_slice(&mut m, &crate::text::dec_chars_wide((secs / 3600) as u128));
        push_str(&mut m, "h");
        push_pad2(&mut m, (secs % 3600) / 60);
        push_str(&mut m, "m");
    }
    string_of(&m)
}

// ---------------------------------------------------------------------------
// Front matter
// ---------------------------------------------------------------------------

/// The value of a language-keyed table for `key` (its first entry).
pub open spec fn lookup_text(m: Seq<(String, String)>, key: Seq<char>) -> Option<Seq<char>>
    decreases m.len(),
{
    if m.len() == 0 {
        None
    } else if m[0].0@ == key {
        Some(m[0].1@)
    } else {
        lookup_text(m.drop_first(), key)
    }
}

/// Look a language up in a language-keyed table.
pub fn lookup(m: &Vec<(String, String)>, key: &str) -> (r: Option<String>)
    ensures
        ov(r) == lookup_text(m@, key@),
{
    let k = chars_of(key);
    let mut i: usize = 0;
    assert(m@.skip(0) =~= m@);
    while i < m.len()
        invariant
            0 <= i <= m@.len(),
            k@ == key@,
            lookup_text(m@, key@) == lookup_text(m@.skip(i as int), key@),
        decreases m@.len() - i,
    {
        assert(m@.skip(i as int)[0] == m@[i as int]);
        assert(m@.skip(i as int).drop_first() =~= m@.skip(i as int + 1));
        if crate::text::eq_chars(&chars_of(m[i].0.as_str()), &k) {
            return Some(copy_string(m[i].1.as_str()));
        }
        i += 1;
    }
    None
}

/// The localized "all rights reserved" line.
pub open spec fn spec_rights(lang: Seq<char>, author: Seq<char>, year: Seq<char>) -> Seq<char> {
    if lang == "es"@ {
        "© "@ + year + " "@ + author + ". Todos los derechos reservados."@
    } else {
        "© "@ + year + " "@ + author + ". All rights reserved."@
    }
}

/// The localized rights line for a language, author and year.
pub fn localized_rights(lang: &str, author: &str, year: &str) -> (r: String)
    ensures
        r@ == spec_rights(lang@, author@, year@),
{
    let mut m: Vec<char> = Vec::new();
    push_str(&mut m, "© ");
    push_str(&mut m, year);
    push_str(&mut m, " ");
    push_str(&mut m, author);
    if eq_str(&chars_of(lang), "es") {
        push_str(&mut m, ". Todos los derechos reservados.");
    } else {
        push_str(&mut m, ". All rights reserved.");
    }
    string_of(&m)
}

fn copy_opt(o: &Option<String>) -> (r: Option<String>)
    ensures
        ov(r) == ov(*o),
{
    match o {
        Some(s) => Some(copy_string(s.as_str())),
        None => None,
    }
}

/// The author: the book's, else the repository's, else the house author.
pub open spec fn spec_author(book: Option<Seq<char>>, repo: Option<Seq<char>>) -> Seq<char> {
    first_of(book, repo, None, "Federico Ramallo"@)
}

/// Resolve the front matter of one (book, language): the title (an error when
/// the language has none), the subtitle, the author (book, repository, house
/// default), and the rights line (the book's own, else the localized line for
/// the year, `2026` when no date is set).
pub fn resolve_book_meta(
    slug: &str,
    lang: &str,
    titles: &Vec<(String, String)>,
    subtitles: &Vec<(String, String)>,
    author: &Option<String>,
    repo_author: &Option<String>,
    year: &Option<String>,
    rights: &Option<String>,
) -> (r: Result<BookMeta, String>)
    ensures
        match lookup_text(titles@, lang@) {
            None => r is Err && r->Err_0@ == "no [title."@ + lang@ + "] for "@ + slug@,
            Some(t) => r is Ok && r->Ok_0.title@ == t && ov(r->Ok_0.subtitle) == lookup_text(
                subtitles@,
                lang@,
            ) && r->Ok_0.author@ == spec_author(ov(*author), ov(*repo_author)) && r->Ok_0.rights@
                == match rights {
                Some(x) => x@,
                None => spec_rights(
                    lang@,
                    spec_author(ov(*author), ov(*repo_author)),
                    first_of(ov(*year), None, None, "2026"@),
                ),
            },
        },
{
    let title = match lookup(titles, lang) {
        Some(t) => t,
        None => {
            let mut m: Vec<char> = Vec::new();
            push_str(&mut m, "no [title.");
            push_str(&mut m, lang);
            push_str(&mut m, "] for ");
            push_str(&mut m, slug);
            return Err(string_of(&m));
        },
    };
    let subtitle = lookup(subtitles, lang);
    let a = match author {
        Some(x) => copy_string(x.as_str()),
        None => match repo_author {
            Some(x) => copy_string(x.as_str()),
            None => string_of(&chars_of("Federico Ramallo")),
        },
    };
    let y = match year {
        Some(x) => copy_string(x.as_str()),
        None => string_of(&chars_of("2026")),
    };
    let rl = match rights {
        Some(x) => copy_string(x.as_str()),
        None => localized_rights(lang, a.as_str(), y.as_str()),
    };
    Ok(BookMeta { title, subtitle, author: a, rights: rl })
}

// ---------------------------------------------------------------------------
// Planning
// ---------------------------------------------------------------------------

/// What planning reads of one book: its slug, directory, languages, editions,
/// and its own `[pdf]` paper and ink.
#[derive(Debug, Clone)]
pub struct BookInfo {
    pub slug: String,
    pub dir: String,
    pub languages: Vec<String>,
    pub editions: Vec<String>,
    pub paper: Option<String>,
    pub ink: Option<String>,
}

/// The languages a request covers: the one asked for, or all the book's
/// languages for none or `all`.
pub open spec fn spec_langs_for(languages: Seq<Seq<char>>, filter: Option<Seq<char>>) -> Seq<Seq<char>> {
    match filter {
        Some(l) => if l != "all"@ {
            seq![l]
        } else {
            languages
        },
        None => languages,
    }
}

/// The languages a request covers.
pub fn langs_for(languages: &Vec<String>, filter: &Option<String>) -> (r: Vec<String>)
    ensures
        svs(r@) == spec_langs_for(svs(languages@), ov(*filter)),
{
    let mut r: Vec<String> = Vec::new();
    if let Some(l) = filter {
        if !eq_str(&chars_of(l.as_str()), "all") {
            r.push(copy_string(l.as_str()));
            assert(svs(r@) =~= seq![l@]);
            return r;
        }
    }
    let mut i: usize = 0;
    while i < languages.len()
        invariant
            0 <= i <= languages@.len(),
            svs(r@) == svs(languages@).take(i as int),
        decreases languages@.len() - i,
    {
        let ghost before = svs(r@);
        r.push(copy_string(languages[i].as_str()));
        assert(svs(r@) =~= before.push(languages@[i as int]@));
        assert(svs(languages@).take(i as int + 1) =~= svs(languages@).take(i as int).push(languages@[i as int]@));
        i += 1;
    }
    assert(svs(languages@).take(languages@.len() as int) =~= svs(languages@));
    r
}

/// One job as plain values.
pub open spec fn job_of(
    b: BookInfo,
    lang: Seq<char>,
    edition: Option<Seq<char>>,
    target: Seq<char>,
    out: Out,
    px: u32,
) -> JobV {
    JobV { slug: b.slug@, dir: b.dir@, lang, edition, target, out, epub_px: px }
}

/// The jobs of one language: one per output, in output order.
pub open spec fn out_jobs(
    b: BookInfo,
    lang: Seq<char>,
    edition: Option<Seq<char>>,
    target: Seq<char>,
    outs: Seq<Out>,
    px: u32,
) -> Seq<JobV> {
    outs.map_values(|o: Out| job_of(b, lang, edition, target, o, px))
}

fn push_out_jobs(
    jobs: &mut Vec<Job>,
    b: &BookInfo,
    lang: &str,
    edition: &Option<String>,
    target: &str,
    outs: &Vec<Out>,
    px: u32,
)
    ensures
        jobs_view(final(jobs)@) == jobs_view(old(jobs)@) + out_jobs(*b, lang@, ov(*edition), target@, outs@, px),
{
    let ghost start = jobs_view(jobs@);
    let mut i: usize = 0;
    while i < outs.len()
        invariant
            0 <= i <= outs@.len(),
            jobs_view(jobs@) == start + out_jobs(*b, lang@, ov(*edition), target@, outs@.take(i as int), px),
        decreases outs@.len() - i,
    {
        let j = Job {
            slug: copy_string(b.slug.as_str()),
            dir: copy_string(b.dir.as_str()),
            lang: copy_string(lang),
            edition: copy_opt(edition),
            target: copy_string(target),
            out: outs[i],
            epub_px: px,
        };
        let ghost before = jobs_view(jobs@);
        jobs.push(j);
        assert(jobs_view(jobs@) =~= before.push(j@));
        assert(out_jobs(*b, lang@, ov(*edition), target@, outs@.take(i as int + 1), px) =~= out_jobs(
            *b,
            lang@,
            ov(*edition),
            target@,
            outs@.take(i as int),
            px,
        ).push(job_of(*b, lang@, ov(*edition), target@, outs@[i as int], px)));
        i += 1;
    }
    assert(outs@.take(outs@.len() as int) =~= outs@);
}

/// The jobs of a `--format` request for some languages of one book.
pub open spec fn format_lang_jobs(b: BookInfo, langs: Seq<Seq<char>>, fmt: Seq<char>, outs: Seq<Out>) -> Seq<JobV>
    decreases langs.len(),
{
    if langs.len() == 0 {
        seq![]
    } else {
        format_lang_jobs(b, langs.drop_last(), fmt, outs) + out_jobs(b, langs.last(), None, fmt, outs, 1200)
    }
}

/// The jobs of a `--format` request for some books, in book order.
pub open spec fn format_jobs(books: Seq<BookInfo>, fmt: Seq<char>, filter: Option<Seq<char>>) -> Seq<JobV>
    decreases books.len(),
{
    if books.len() == 0 {
        seq![]
    } else {
        let b = books.last();
        format_jobs(books.drop_last(), fmt, filter) + format_lang_jobs(
            b,
            spec_langs_for(svs(b.languages@), filter),
            fmt,
            spec_outputs_for_format(fmt),
        )
    }
}

/// Expand a `--format` request (default `all`) into jobs: each book, each
/// language, each output of the format.
pub fn plan_format(books: &Vec<BookInfo>, format: &Option<String>, lang_filter: &Option<String>) -> (r: Vec<Job>)
    ensures
        jobs_view(r@) == format_jobs(books@, first_of(ov(*format), None, None, "all"@), ov(*lang_filter)),
{
    let fmt = match format {
        Some(f) => copy_string(f.as_str()),
        None => string_of(&chars_of("all")),
    };
    let outs = outputs_for_format(fmt.as_str());
    let none: Option<String> = None;
    let mut jobs: Vec<Job> = Vec::new();
    let mut k: usize = 0;
    while k < books.len()
        invariant
            0 <= k <= books@.len(),
            outs@ == spec_outputs_for_format(fmt@),
            none is None,
            jobs_view(jobs@) == format_jobs(books@.take(k as int), fmt@, ov(*lang_filter)),
        decreases books@.len() - k,
    {
        let b = &books[k];
        let langs = langs_for(&b.languages, lang_filter);
        let ghost ls = svs(langs@);
        let ghost head = jobs_view(jobs@);
        let mut i: usize = 0;
        while i < langs.len()
            invariant
                0 <= i <= langs@.len(),
                ls == svs(langs@),
                none is None,
                jobs_view(jobs@) == head + format_lang_jobs(*b, ls.take(i as int), fmt@, outs@),
            decreases langs@.len() - i,
        {
            assert(ls.take(i as int + 1).drop_last() =~= ls.take(i as int));
            assert(ls.take(i as int + 1).last() == langs@[i as int]@);
            push_out_jobs(&mut jobs, b, langs[i].as_str(), &none, fmt.as_str(), &outs, DEFAULT_EPUB_PX);
            i += 1;
        }
        assert(ls.take(langs@.len() as int) =~= ls);
        assert(books@.take(k as int + 1).drop_last() =~= books@.take(k as int));
        assert(books@.take(k as int + 1).last() == books@[k as int]);
        k += 1;
    }
    assert(books@.take(books@.len() as int) =~= books@);
    jobs
}

/// The messages of the issues at one level: errors (`true`) or the rest.
pub open spec fn level_msgs(v: Seq<(Seq<char>, Seq<char>)>, errors: bool) -> Seq<Seq<char>>
    decreases v.len(),
{
    if v.len() == 0 {
        seq![]
    } else {
        let p = level_msgs(v.drop_last(), errors);
        if (v.last().0 == "error"@) == errors {
            p.push(v.last().1)
        } else {
            p
        }
    }
}

fn split_issues(issues: &Vec<crate::config::Issue>, errors: &mut Vec<String>, warnings: &mut Vec<String>)
    ensures
        svs(final(errors)@) == svs(old(errors)@) + level_msgs(issues_view(issues@), true),
        svs(final(warnings)@) == svs(old(warnings)@) + level_msgs(issues_view(issues@), false),
{
    let ghost e0 = svs(errors@);
    let ghost w0 = svs(warnings@);
    let ghost iv = issues_view(issues@);
    let mut i: usize = 0;
    while i < issues.len()
        invariant
            0 <= i <= issues@.len(),
            iv == issues_view(issues@),
            svs(errors@) == e0 + level_msgs(iv.take(i as int), true),
            svs(warnings@) == w0 + level_msgs(iv.take(i as int), false),
        decreases issues@.len() - i,
    {
        assert(iv.take(i as int + 1).drop_last() =~= iv.take(i as int));
        assert(iv.take(i as int + 1).last() == iv[i as int]);
        let m = copy_string(issues[i].msg.as_str());
        if eq_str(&chars_of(issues[i].level), "error") {
            let ghost b = svs(errors@);
            errors.push(m);
            assert(svs(errors@) =~= b.push(m@));
        } else {
            let ghost b = svs(warnings@);
            warnings.push(m);
            assert(svs(warnings@) =~= b.push(m@));
        }
        i += 1;
    }
    assert(iv.take(issues@.len() as int) =~= iv);
}

/// The page count of a built KDP interior of (slug, language), if it is built.
pub open spec fn pages_of(pages: Seq<(String, String, u32)>, slug: Seq<char>, lang: Seq<char>) -> Option<u32>
    decreases pages.len(),
{
    if pages.len() == 0 {
        None
    } else if pages[0].0@ == slug && pages[0].1@ == lang {
        Some(pages[0].2)
    } else {
        pages_of(pages.drop_first(), slug, lang)
    }
}

fn find_pages(pages: &Vec<(String, String, u32)>, slug: &str, lang: &str) -> (r: Option<u32>)
    ensures
        r == pages_of(pages@, slug@, lang@),
{
    let sc = chars_of(slug);
    let lc = chars_of(lang);
    let mut i: usize = 0;
    assert(pages@.skip(0) =~= pages@);
    while i < pages.len()
        invariant
            0 <= i <= pages@.len(),
            sc@ == slug@,
            lc@ == lang@,
            pages_of(pages@, slug@, lang@) == pages_of(pages@.skip(i as int), slug@, lang@),
        decreases pages@.len() - i,
    {
        assert(pages@.skip(i as int)[0] == pages@[i as int]);
        assert(pages@.skip(i as int).drop_first() =~= pages@.skip(i as int + 1));
        if crate::text::eq_chars(&chars_of(pages[i].0.as_str()), &sc) && crate::text::eq_chars(
            &chars_of(pages[i].1.as_str()),
            &lc,
        ) {
            return Some(pages[i].2);
        }
        i += 1;
    }
    None
}

/// The page-range gate of a KDP print interior: an error when the built
/// interior is outside the target's range; for a hardcover not built yet, a
/// warning. Returns (errors, warnings).
pub open spec fn page_gate(
    root: Seq<char>,
    slug: Seq<char>,
    ed: Seq<char>,
    lang: Seq<char>,
    target: Seq<char>,
    ink: Seq<char>,
    pages: Seq<(String, String, u32)>,
) -> (Seq<Seq<char>>, Seq<Seq<char>>) {
    if target == "kdp-paperback"@ || target == "kdp-hardcover"@ {
        let (min, max) = spec_page_range(target, ink);
        let at = slug + "/"@ + ed + " ["@ + lang + "]: "@;
        match pages_of(pages, slug, lang) {
            Some(pp) => if pp < min || pp > max {
                (
                    seq![at + "interior is "@ + dec(pp as nat) + "pp, outside "@ + target + " range "@
                        + dec(min as nat) + "–"@ + dec(max as nat) + "pp"@],
                    seq![],
                )
            } else {
                (seq![], seq![])
            },
            None => if target == "kdp-hardcover"@ {
                (
                    seq![],
                    seq![at + "hardcover needs ≥"@ + dec(min as nat)
                        + "pp — build the interior to verify (missing "@
                        + crate::web::spec_kdp_pdf_path(root, slug, lang) + ")"@],
                )
            } else {
                (seq![], seq![])
            },
        }
    } else {
        (seq![], seq![])
    }
}

/// Findings and jobs, side by side: (errors, warnings, jobs).
pub open spec fn cat3(
    a: (Seq<Seq<char>>, Seq<Seq<char>>, Seq<JobV>),
    b: (Seq<Seq<char>>, Seq<Seq<char>>, Seq<JobV>),
) -> (Seq<Seq<char>>, Seq<Seq<char>>, Seq<JobV>) {
    (a.0 + b.0, a.1 + b.1, a.2 + b.2)
}

/// The gates and jobs of one edition of a book, language by language.
pub open spec fn lang_steps(
    root: Seq<char>,
    b: BookInfo,
    ed: Seq<char>,
    target: Seq<char>,
    ink: Seq<char>,
    px: u32,
    langs: Seq<Seq<char>>,
    pages: Seq<(String, String, u32)>,
) -> (Seq<Seq<char>>, Seq<Seq<char>>, Seq<JobV>)
    decreases langs.len(),
{
    if langs.len() == 0 {
        (seq![], seq![], seq![])
    } else {
        let g = page_gate(root, b.slug@, ed, langs.last(), target, ink, pages);
        cat3(
            lang_steps(root, b, ed, target, ink, px, langs.drop_last(), pages),
            (g.0, g.1, out_jobs(b, langs.last(), Some(ed), target, spec_outputs_for_target(target), px)),
        )
    }
}

/// An edition's target; `retail` when it sets none.
pub open spec fn ed_target(e: Edition) -> Seq<char> {
    first_of(ov(e.target), None, None, "retail"@)
}

/// The EPUB image width of an edition.
pub open spec fn ed_px(e: Edition) -> u32 {
    match e.epub_image_px {
        Some(p) => p,
        None => 1200,
    }
}

/// The resolved paper of (edition, book).
pub open spec fn ed_paper(e: Edition, b: BookInfo, dpaper: Option<Seq<char>>) -> Seq<char> {
    first_of(ov(e.paper), ov(b.paper), dpaper, "white"@)
}

/// The resolved ink of (edition, book).
pub open spec fn ed_ink(e: Edition, b: BookInfo, dink: Option<Seq<char>>) -> Seq<char> {
    first_of(ov(e.ink), ov(b.ink), dink, "black"@)
}

/// One edition of one book: an unknown edition is an error (and nothing is
/// planned for it); else its colour checks, then per language its page gate
/// and one job per output of its target.
pub open spec fn edition_step(
    root: Seq<char>,
    b: BookInfo,
    ed: Seq<char>,
    eds: Seq<(String, Edition)>,
    dpaper: Option<Seq<char>>,
    dink: Option<Seq<char>>,
    filter: Option<Seq<char>>,
    pages: Seq<(String, String, u32)>,
) -> (Seq<Seq<char>>, Seq<Seq<char>>, Seq<JobV>) {
    match edition_named(eds, ed) {
        None => (
            seq![crate::config::unknown_edition_msg(b.slug@, ed, crate::config::edition_names(eds))],
            seq![],
            seq![],
        ),
        Some(e) => {
            let color = spec_color_issues(b.slug@, ed, ed_paper(e, b, dpaper), ed_ink(e, b, dink), ed_target(e));
            cat3(
                (level_msgs(color, true), level_msgs(color, false), seq![]),
                lang_steps(
                    root,
                    b,
                    ed,
                    ed_target(e),
                    ed_ink(e, b, dink),
                    ed_px(e),
                    spec_langs_for(svs(b.languages@), filter),
                    pages,
                ),
            )
        },
    }
}

/// Several editions of one book, in order.
pub open spec fn edition_steps(
    root: Seq<char>,
    b: BookInfo,
    names: Seq<Seq<char>>,
    eds: Seq<(String, Edition)>,
    dpaper: Option<Seq<char>>,
    dink: Option<Seq<char>>,
    filter: Option<Seq<char>>,
    pages: Seq<(String, String, u32)>,
) -> (Seq<Seq<char>>, Seq<Seq<char>>, Seq<JobV>)
    decreases names.len(),
{
    if names.len() == 0 {
        (seq![], seq![], seq![])
    } else {
        cat3(
            edition_steps(root, b, names.drop_last(), eds, dpaper, dink, filter, pages),
            edition_step(root, b, names.last(), eds, dpaper, dink, filter, pages),
        )
    }
}

/// The editions a request covers for a book: the one asked for, or all the
/// book's editions for none or `all`.
pub open spec fn book_editions(b: BookInfo, filter: Option<Seq<char>>) -> Seq<Seq<char>> {
    spec_langs_for(svs(b.editions@), filter)
}

/// Every book, in order.
pub open spec fn book_steps(
    root: Seq<char>,
    books: Seq<BookInfo>,
    eds: Seq<(String, Edition)>,
    dpaper: Option<Seq<char>>,
    dink: Option<Seq<char>>,
    lang_filter: Option<Seq<char>>,
    edition_filter: Option<Seq<char>>,
    pages: Seq<(String, String, u32)>,
) -> (Seq<Seq<char>>, Seq<Seq<char>>, Seq<JobV>)
    decreases books.len(),
{
    if books.len() == 0 {
        (seq![], seq![], seq![])
    } else {
        let b = books.last();
        cat3(
            book_steps(root, books.drop_last(), eds, dpaper, dink, lang_filter, edition_filter, pages),
            edition_steps(root, b, book_editions(b, edition_filter), eds, dpaper, dink, lang_filter, pages),
        )
    }
}

/// The edition-driven plan: the static edition checks, then every book; any
/// error refuses the whole plan with every error listed. Warnings are returned
/// either way.
pub open spec fn spec_plan_editions(
    root: Seq<char>,
    books: Seq<BookInfo>,
    eds: Seq<(String, Edition)>,
    dpaper: Option<Seq<char>>,
    dink: Option<Seq<char>>,
    dfinish: Option<Seq<char>>,
    lang_filter: Option<Seq<char>>,
    edition_filter: Option<Seq<char>>,
    pages: Seq<(String, String, u32)>,
) -> (Result<Seq<JobV>, Seq<char>>, Seq<Seq<char>>) {
    let v = spec_validate_editions(dpaper, dink, dfinish, eds);
    let s = book_steps(root, books, eds, dpaper, dink, lang_filter, edition_filter, pages);
    let errors = level_msgs(v, true) + s.0;
    let warnings = level_msgs(v, false) + s.1;
    (
        if errors.len() > 0 {
            Err("edition config invalid:\n  - "@ + crate::text::join(errors, "\n  - "@))
        } else {
            Ok(s.2)
        },
        warnings,
    )
}

fn push_msg(v: &mut Vec<String>, m: &Vec<char>)
    ensures
        svs(final(v)@) == svs(old(v)@).push(m@),
{
    let s = string_of(m);
    let ghost b = svs(v@);
    v.push(s);
    assert(svs(v@) =~= b.push(m@));
}

#[verifier::rlimit(40)]
fn gate(
    root: &str,
    slug: &str,
    ed: &str,
    lang: &str,
    target: &str,
    ink: &str,
    pages: &Vec<(String, String, u32)>,
    errors: &mut Vec<String>,
    warnings: &mut Vec<String>,
)
    ensures
        svs(final(errors)@) == svs(old(errors)@) + page_gate(root@, slug@, ed@, lang@, target@, ink@, pages@).0,
        svs(final(warnings)@) == svs(old(warnings)@) + page_gate(root@, slug@, ed@, lang@, target@, ink@, pages@).1,
{
    let t = chars_of(target);
    let hard = eq_str(&t, "kdp-hardcover");
    if !(eq_str(&t, "kdp-paperback") || hard) {
        assert(svs(errors@) =~= svs(errors@) + seq![]);
        assert(svs(warnings@) =~= svs(warnings@) + seq![]);
        return;
    }
    let (min, max) = crate::config::page_range(target, ink);
    let mut at: Vec<char> = Vec::new();
    push_str(&mut at, slug);
    push_str(&mut at, "/");
    push_str(&mut at, ed);
    push_str(&mut at, " [");
    push_str(&mut at, lang);
    push_str(&mut at, "]: ");
    match find_pages(pages, slug, lang) {
        Some(pp) => {
            if pp < min || pp > max {
                let mut m = at;
                push_str(&mut m, "interior is ");
                push_slice(&mut m, &dec_chars(pp as usize));
                push_str(&mut m, "pp, outside ");
                push_str(&mut m, target);
                push_str(&mut m, " range ");
                push_slice(&mut m, &dec_chars(min as usize));
                push_str(&mut m, "–");
                push_slice(&mut m, &dec_chars(max as usize));
                push_str(&mut m, "pp");
                push_msg(errors, &m);
                assert(svs(warnings@) =~= svs(warnings@) + seq![]);
            } else {
                assert(svs(errors@) =~= svs(errors@) + seq![]);
                assert(svs(warnings@) =~= svs(warnings@) + seq![]);
            }
        },
        None => {
            if hard {
                let mut m = at;
                push_str(&mut m, "hardcover needs ≥");
                push_slice(&mut m, &dec_chars(min as usize));
                push_str(&mut m, "pp — build the interior to verify (missing ");
                let p = crate::web::kdp_pdf_path(root, slug, lang);
                push_str(&mut m, p.as_str());
                push_str(&mut m, ")");
                push_msg(warnings, &m);
                assert(svs(errors@) =~= svs(errors@) + seq![]);
            } else {
                assert(svs(errors@) =~= svs(errors@) + seq![]);
                assert(svs(warnings@) =~= svs(warnings@) + seq![]);
            }
        },
    }
}

fn edition_exec(
    root: &str,
    b: &BookInfo,
    ed: &str,
    eds: &Vec<(String, Edition)>,
    dpaper: &Option<String>,
    dink: &Option<String>,
    lang_filter: &Option<String>,
    pages: &Vec<(String, String, u32)>,
    errors: &mut Vec<String>,
    warnings: &mut Vec<String>,
    jobs: &mut Vec<Job>,
)
    ensures
        ({
            let st = edition_step(root@, *b, ed@, eds@, ov(*dpaper), ov(*dink), ov(*lang_filter), pages@);
            &&& svs(final(errors)@) == svs(old(errors)@) + st.0
            &&& svs(final(warnings)@) == svs(old(warnings)@) + st.1
            &&& jobs_view(final(jobs)@) == jobs_view(old(jobs)@) + st.2
        }),
{
    let ghost e0 = svs(errors@);
    let ghost w0 = svs(warnings@);
    let ghost j0 = jobs_view(jobs@);
    let idx = match find_edition(eds, ed) {
        Some(i) => i,
        None => {
            let one = single(ed);
            let vs = crate::config::validate_book_editions(b.slug.as_str(), &one, eds);
            proof {
                let named = svs(one@);
                assert(named.drop_last() =~= Seq::<Seq<char>>::empty());
                assert(named.last() == ed@);
                assert(crate::config::spec_unknown_editions(b.slug@, named.drop_last(), eds@) =~= Seq::<(Seq<char>, Seq<char>)>::empty());
            }
            split_issues(&vs, errors, warnings);
            proof {
                let iv = issues_view(vs@);
                let msg = crate::config::unknown_edition_msg(b.slug@, ed@, crate::config::edition_names(eds@));
                assert(iv =~= seq![("error"@, msg)]);
                assert(iv.drop_last() =~= Seq::<(Seq<char>, Seq<char>)>::empty());
                assert(level_msgs(iv.drop_last(), true) =~= Seq::<Seq<char>>::empty());
                assert(level_msgs(iv.drop_last(), false) =~= Seq::<Seq<char>>::empty());
                assert(level_msgs(iv, true) =~= seq![msg]);
                assert(level_msgs(iv, false) =~= Seq::<Seq<char>>::empty());
            }
            assert(jobs_view(jobs@) =~= jobs_view(jobs@) + seq![]);
            return;
        },
    };
    let e = &eds[idx].1;
    let target = match &e.target {
        Some(t) => copy_string(t.as_str()),
        None => string_of(&chars_of("retail")),
    };
    let px = match e.epub_image_px {
        Some(p) => p,
        None => DEFAULT_EPUB_PX,
    };
    let outs = outputs_for_target(target.as_str());
    let paper = crate::config::resolve_paper(Some(e), &b.paper, dpaper);
    let ink = crate::config::resolve_ink(Some(e), &b.ink, dink);
    let color = validate_color_compat(b.slug.as_str(), ed, paper.as_str(), ink.as_str(), target.as_str());
    split_issues(&color, errors, warnings);
    let ghost e1 = svs(errors@);
    let ghost w1 = svs(warnings@);
    let ghost j1 = jobs_view(jobs@);
    assert(j1 =~= j0 + seq![]);
    let langs = langs_for(&b.languages, lang_filter);
    let ghost ls = svs(langs@);
    let some_ed = Some(copy_string(ed));
    let mut i: usize = 0;
    while i < langs.len()
        invariant
            0 <= i <= langs@.len(),
            ls == svs(langs@),
            ov(some_ed) == Some(ed@),
            outs@ == spec_outputs_for_target(target@),
            ({
                let st = lang_steps(root@, *b, ed@, target@, ink@, px, ls.take(i as int), pages@);
                &&& svs(errors@) == e1 + st.0
                &&& svs(warnings@) == w1 + st.1
                &&& jobs_view(jobs@) == j1 + st.2
            }),
        decreases langs@.len() - i,
    {
        assert(ls.take(i as int + 1).drop_last() =~= ls.take(i as int));
        assert(ls.take(i as int + 1).last() == langs@[i as int]@);
        let ghost eb = svs(errors@);
        let ghost wb = svs(warnings@);
        gate(root, b.slug.as_str(), ed, langs[i].as_str(), target.as_str(), ink.as_str(), pages, errors, warnings);
        push_out_jobs(jobs, b, langs[i].as_str(), &some_ed, target.as_str(), &outs, px);
        proof {
            let st0 = lang_steps(root@, *b, ed@, target@, ink@, px, ls.take(i as int), pages@);
            let g = page_gate(root@, b.slug@, ed@, langs@[i as int]@, target@, ink@, pages@);
            assert(svs(errors@) =~= e1 + (st0.0 + g.0));
            assert(svs(warnings@) =~= w1 + (st0.1 + g.1));
        }
        i += 1;
    }
    assert(ls.take(langs@.len() as int) =~= ls);
    proof {
        let ee = edition_named(eds@, ed@)->0;
        assert(ee == *e);
        let st = lang_steps(root@, *b, ed@, target@, ink@, px, ls, pages@);
        assert(svs(errors@) =~= e0 + (level_msgs(issues_view(color@), true) + st.0));
        assert(svs(warnings@) =~= w0 + (level_msgs(issues_view(color@), false) + st.1));
        assert(jobs_view(jobs@) =~= j0 + (seq![] + st.2));
    }
}

fn single(s: &str) -> (r: Vec<String>)
    ensures
        svs(r@) == seq![s@],
{
    let mut v: Vec<String> = Vec::new();
    v.push(copy_string(s));
    assert(svs(v@) =~= seq![s@]);
    v
}

/// Expand an edition-driven request into jobs. The static edition checks run
/// first; then, for each book and each edition it covers (the one asked for,
/// or all of them), the edition must be defined, its resolved colour choice is
/// checked, and per language the KDP page-range gate reads `interior_pages`
/// (the page counts of the built print interiors, by slug and language). Any
/// error refuses the plan, listing every error; the warnings come back either
/// way.
pub fn plan_editions(
    root: &str,
    books: &Vec<BookInfo>,
    repo_editions: &Vec<(String, Edition)>,
    defaults_paper: &Option<String>,
    defaults_ink: &Option<String>,
    defaults_finish: &Option<String>,
    lang_filter: &Option<String>,
    edition_filter: &Option<String>,
    interior_pages: &Vec<(String, String, u32)>,
) -> (r: (Result<Vec<Job>, String>, Vec<String>))
    ensures
        ({
            let sp = spec_plan_editions(
                root@,
                books@,
                repo_editions@,
                ov(*defaults_paper),
                ov(*defaults_ink),
                ov(*defaults_finish),
                ov(*lang_filter),
                ov(*edition_filter),
                interior_pages@,
            );
            &&& svs(r.1@) == sp.1
            &&& match r.0 {
                Ok(j) => sp.0 is Ok && jobs_view(j@) == sp.0->Ok_0,
                Err(m) => sp.0 is Err && m@ == sp.0->Err_0,
            }
        }),
{
    let mut errors: Vec<String> = Vec::new();
    let mut warnings: Vec<String> = Vec::new();
    let mut jobs: Vec<Job> = Vec::new();
    let checks = validate_editions(defaults_paper, defaults_ink, defaults_finish, repo_editions);
    split_issues(&checks, &mut errors, &mut warnings);
    let ghost e1 = svs(errors@);
    let ghost w1 = svs(warnings@);
    assert(e1 =~= level_msgs(issues_view(checks@), true));
    assert(w1 =~= level_msgs(issues_view(checks@), false));
    assert(jobs_view(jobs@) =~= Seq::<JobV>::empty());
    let mut k: usize = 0;
    while k < books.len()
        invariant
            0 <= k <= books@.len(),
            ({
                let st = book_steps(
                    root@,
                    books@.take(k as int),
                    repo_editions@,
                    ov(*defaults_paper),
                    ov(*defaults_ink),
                    ov(*lang_filter),
                    ov(*edition_filter),
                    interior_pages@,
                );
                &&& svs(errors@) == e1 + st.0
                &&& svs(warnings@) == w1 + st.1
                &&& jobs_view(jobs@) == st.2
            }),
        decreases books@.len() - k,
    {
        let b = &books[k];
        let names = langs_for(&b.editions, edition_filter);
        let ghost ns = svs(names@);
        let ghost eb = svs(errors@);
        let ghost wb = svs(warnings@);
        let ghost jb = jobs_view(jobs@);
        let mut i: usize = 0;
        assert(eb =~= eb + Seq::<Seq<char>>::empty());
        assert(wb =~= wb + Seq::<Seq<char>>::empty());
        assert(jb =~= jb + Seq::<JobV>::empty());
        while i < names.len()
            invariant
                0 <= i <= names@.len(),
                ns == svs(names@),
                ({
                    let st = edition_steps(
                        root@,
                        *b,
                        ns.take(i as int),
                        repo_editions@,
                        ov(*defaults_paper),
                        ov(*defaults_ink),
                        ov(*lang_filter),
                        interior_pages@,
                    );
                    &&& svs(errors@) == eb + st.0
                    &&& svs(warnings@) == wb + st.1
                    &&& jobs_view(jobs@) == jb + st.2
                }),
            decreases names@.len() - i,
        {
            assert(ns.take(i as int + 1).drop_last() =~= ns.take(i as int));
            assert(ns.take(i as int + 1).last() == names@[i as int]@);
            edition_exec(
                root,
                b,
                names[i].as_str(),
                repo_editions,
                defaults_paper,
                defaults_ink,
                lang_filter,
                interior_pages,
                &mut errors,
                &mut warnings,
                &mut jobs,
            );
            proof {
                let st0 = edition_steps(
                    root@,
                    *b,
                    ns.take(i as int),
                    repo_editions@,
                    ov(*defaults_paper),
                    ov(*defaults_ink),
                    ov(*lang_filter),
                    interior_pages@,
                );
                let one = edition_step(
                    root@,
                    *b,
                    names@[i as int]@,
                    repo_editions@,
                    ov(*defaults_paper),
                    ov(*defaults_ink),
                    ov(*lang_filter),
                    interior_pages@,
                );
                assert(svs(errors@) =~= eb + (st0.0 + one.0));
                assert(svs(warnings@) =~= wb + (st0.1 + one.1));
                assert(jobs_view(jobs@) =~= jb + (st0.2 + one.2));
            }
            i += 1;
        }
        assert(ns.take(names@.len() as int) =~= ns);
        proof {
            let st0 = book_steps(
                root@,
                books@.take(k as int),
                repo_editions@,
                ov(*defaults_paper),
                ov(*defaults_ink),
                ov(*lang_filter),
                ov(*edition_filter),
                interior_pages@,
            );
            assert(books@.take(k as int + 1).drop_last() =~= books@.take(k as int));
            assert(books@.take(k as int + 1).last() == books@[k as int]);
            assert(ns == book_editions(*b, ov(*edition_filter)));
            let one = edition_steps(
                root@,
                *b,
                ns,
                repo_editions@,
                ov(*defaults_paper),
                ov(*defaults_ink),
                ov(*lang_filter),
                interior_pages@,
            );
            assert(svs(errors@) =~= e1 + (st0.0 + one.0));
            assert(svs(warnings@) =~= w1 + (st0.1 + one.1));
            assert(jobs_view(jobs@) =~= st0.2 + one.2);
        }
        k += 1;
    }
    assert(books@.take(books@.len() as int) =~= books@);
    if errors.len() > 0 {
        let mut ev: Vec<Vec<char>> = Vec::new();
        let mut i: usize = 0;
        while i < errors.len()
            invariant
                0 <= i <= errors@.len(),
                crate::text::views(ev@) == svs(errors@).take(i as int),
            decreases errors@.len() - i,
        {
            let ghost before = crate::text::views(ev@);
            ev.push(chars_of(errors[i].as_str()));
            assert(crate::text::views(ev@) =~= before.push(errors@[i as int]@));
            assert(svs(errors@).take(i as int + 1) =~= svs(errors@).take(i as int).push(errors@[i as int]@));
            i += 1;
        }
        assert(svs(errors@).take(errors@.len() as int) =~= svs(errors@));
        let mut m: Vec<char> = Vec::new();
        push_str(&mut m, "edition config invalid:\n  - ");
        push_slice(&mut m, &crate::text::join_vecs(&ev, "\n  - "));
        (Err(string_of(&m)), warnings)
    } else {
        (Ok(jobs), warnings)
    }
}

// ---------------------------------------------------------------------------
// Laws
// ---------------------------------------------------------------------------

proof fn lemma_edition_steps_unknown(
    root: Seq<char>,
    b: BookInfo,
    names: Seq<Seq<char>>,
    eds: Seq<(String, Edition)>,
    dpaper: Option<Seq<char>>,
    dink: Option<Seq<char>>,
    filter: Option<Seq<char>>,
    pages: Seq<(String, String, u32)>,
    i: int,
)
    requires
        0 <= i < names.len(),
        edition_named(eds, names[i]) is None,
    ensures
        edition_steps(root, b, names, eds, dpaper, dink, filter, pages).0.len() > 0,
    decreases names.len(),
{
    if i < names.len() - 1 {
        assert(names.drop_last()[i] == names[i]);
        lemma_edition_steps_unknown(root, b, names.drop_last(), eds, dpaper, dink, filter, pages, i);
    }
}

proof fn lemma_book_steps_unknown(
    root: Seq<char>,
    books: Seq<BookInfo>,
    eds: Seq<(String, Edition)>,
    dpaper: Option<Seq<char>>,
    dink: Option<Seq<char>>,
    lang_filter: Option<Seq<char>>,
    edition_filter: Option<Seq<char>>,
    pages: Seq<(String, String, u32)>,
    k: int,
    i: int,
)
    requires
        0 <= k < books.len(),
        0 <= i < book_editions(books[k], edition_filter).len(),
        edition_named(eds, book_editions(books[k], edition_filter)[i]) is None,
    ensures
        book_steps(root, books, eds, dpaper, dink, lang_filter, edition_filter, pages).0.len() > 0,
    decreases books.len(),
{
    if k == books.len() - 1 {
        lemma_edition_steps_unknown(
            root,
            books[k],
            book_editions(books[k], edition_filter),
            eds,
            dpaper,
            dink,
            lang_filter,
            pages,
            i,
        );
    } else {
        assert(books.drop_last()[k] == books[k]);
        lemma_book_steps_unknown(root, books.drop_last(), eds, dpaper, dink, lang_filter, edition_filter, pages, k, i);
    }
}

/// A build may only name editions defined in the repository's `[editions]`
/// table: when any book covered by the request names an undefined edition, the
/// whole plan is refused (no job falls back to a retail build).
pub proof fn law_unknown_edition_refuses_plan(
    root: Seq<char>,
    books: Seq<BookInfo>,
    eds: Seq<(String, Edition)>,
    dpaper: Option<Seq<char>>,
    dink: Option<Seq<char>>,
    dfinish: Option<Seq<char>>,
    lang_filter: Option<Seq<char>>,
    edition_filter: Option<Seq<char>>,
    pages: Seq<(String, String, u32)>,
    k: int,
    i: int,
)
    requires
        0 <= k < books.len(),
        0 <= i < book_editions(books[k], edition_filter).len(),
        edition_named(eds, book_editions(books[k], edition_filter)[i]) is None,
    ensures
        spec_plan_editions(root, books, eds, dpaper, dink, dfinish, lang_filter, edition_filter, pages).0 is Err,
{
    lemma_book_steps_unknown(root, books, eds, dpaper, dink, lang_filter, edition_filter, pages, k, i);
}

/// A regional print edition's interior never takes the KDP interior's file
/// name (unless the edition is itself called `kdp`).
pub proof fn law_bubok_interior_keeps_own_name(j: JobV, k: JobV)
    requires
        j.out == Out::KdpPdf,
        k.out == Out::KdpPdf,
        j.slug == k.slug,
        j.lang == k.lang,
        j.target == "bubok"@,
        j.edition is Some,
        j.edition->0 != "kdp"@,
        k.target != "bubok"@,
    ensures
        spec_job_file(j) != spec_job_file(k),
{
    let base = j.slug + "-"@ + j.lang;
    let ed = j.edition->0;
    let a = base + "-"@ + ed + ".pdf"@;
    let b = base + "-kdp.pdf"@;
    if a == b {
        reveal_strlit("-kdp.pdf");
        reveal_strlit("-");
        reveal_strlit(".pdf");
        assert(a.len() == b.len());
        assert(ed.len() == 3);
        assert forall|x: int| 0 <= x < 3 implies ed[x] == "kdp"@[x] by {
            reveal_strlit("kdp");
            assert(a[base.len() + 1 + x] == ed[x]);
            assert(b[base.len() + 1 + x] == "-kdp.pdf"@[1 + x]);
        }
        reveal_strlit("kdp");
        assert(ed =~= "kdp"@);
    }
}

/// Does a book answer to `slug`: by the slug in its config, or by the name of
/// its directory?
pub open spec fn book_matches(b: BookInfo, slug: Seq<char>) -> bool {
    b.slug@ == slug || path_file_name(b.dir@) == Some(slug)
}

/// The position of the first book that answers to `slug`, if any.
pub open spec fn find_index(books: Seq<BookInfo>, slug: Seq<char>) -> Option<int>
    decreases books.len(),
{
    if books.len() == 0 {
        None
    } else {
        match find_index(books.drop_last(), slug) {
            Some(i) => Some(i),
            None => if book_matches(books.last(), slug) {
                Some(books.len() - 1)
            } else {
                None
            },
        }
    }
}

/// The message for a slug that no book answers to.
pub open spec fn book_not_found(slug: Seq<char>) -> Seq<char> {
    "book not found: "@ + slug
}

/// Find the book a slug names, in repository order: the first whose config slug
/// or directory name is `slug`.
pub fn find_book(books: &Vec<BookInfo>, slug: &str) -> (r: Result<usize, String>)
    ensures
        match r {
            Ok(i) => i < books@.len() && find_index(books@, slug@) == Some(i as int),
            Err(m) => find_index(books@, slug@) is None && m@ == book_not_found(slug@),
        },
{
    let mut i: usize = 0;
    while i < books.len()
        invariant
            0 <= i <= books@.len(),
            find_index(books@.take(i as int), slug@) is None,
        decreases books@.len() - i,
    {
        let b = &books[i];
        let by_slug = eq_str(&chars_of(b.slug.as_str()), slug);
        let name = file_name_of(b.dir.as_str());
        let by_dir = match &name {
            Some(n) => eq_str(&chars_of(n.as_str()), slug),
            None => false,
        };
        assert(books@.take(i as int + 1).drop_last() =~= books@.take(i as int));
        assert(books@.take(i as int + 1).last() == books@[i as int]);
        if by_slug || by_dir {
            proof {
                if by_dir {
                    assert(opt_view(name) == Some(slug@));
                }
                lemma_find_index_prefix(books@, slug@, i as int + 1);
            }
            return Ok(i);
        }
        proof {
            if path_file_name(b.dir@) == Some(slug@) {
                assert(opt_view(name) == Some(slug@));
            }
        }
        i += 1;
    }
    assert(books@.take(books@.len() as int) =~= books@);
    let mut m = string_of(&chars_of("book not found: "));
    let mut v = chars_of(m.as_str());
    push_str(&mut v, slug);
    m = string_of(&v);
    Err(m)
}

/// Once a prefix holds a match, the whole sequence finds the same one.
proof fn lemma_find_index_prefix(books: Seq<BookInfo>, slug: Seq<char>, n: int)
    requires
        0 <= n <= books.len(),
        find_index(books.take(n), slug) is Some,
    ensures
        find_index(books, slug) == find_index(books.take(n), slug),
    decreases books.len() - n,
{
    if n < books.len() {
        assert(books.take(n + 1).drop_last() =~= books.take(n));
        lemma_find_index_prefix(books, slug, n + 1);
    } else {
        assert(books.take(n) =~= books);
    }
}

/// A build request as the interactive selector hands it over: a book, a
/// language (or `all`), an edition (or `all`), and a format, where the format
/// `edition` means "build by edition".
#[derive(Debug, Clone)]
pub struct BuildReq {
    pub book: String,
    pub lang: String,
    pub edition: String,
    pub format: String,
}

/// `all` means no filter.
pub open spec fn unless_all(s: Seq<char>) -> Option<Seq<char>> {
    if s != "all"@ {
        Some(s)
    } else {
        None
    }
}

fn unless_all_exec(s: &str) -> (r: Option<String>)
    ensures
        ov(r) == unless_all(s@),
{
    if eq_str(&chars_of(s), "all") {
        proof {
            reveal_strlit("all");
        }
        None
    } else {
        Some(copy_string(s))
    }
}

/// The jobs of a selector request: the named book (an error when none answers
/// to it), planned by format or, for the format `edition`, by edition. The
/// warnings of an edition plan come back beside the result.
pub fn jobs_for_req(
    req: &BuildReq,
    books: Vec<BookInfo>,
    root: &str,
    repo_editions: &Vec<(String, Edition)>,
    defaults_paper: &Option<String>,
    defaults_ink: &Option<String>,
    defaults_finish: &Option<String>,
    interior_pages: &Vec<(String, String, u32)>,
) -> (r: (Result<Vec<Job>, String>, Vec<String>))
    ensures
        match find_index(books@, req.book@) {
            None => r.0 is Err && r.0->Err_0@ == book_not_found(req.book@) && r.1@.len() == 0,
            Some(i) => if req.format@ != "edition"@ {
                &&& r.0 is Ok
                &&& jobs_view(r.0->Ok_0@) == format_jobs(seq![books@[i]], req.format@, unless_all(req.lang@))
                &&& r.1@.len() == 0
            } else {
                let sp = spec_plan_editions(
                    root@,
                    seq![books@[i]],
                    repo_editions@,
                    ov(*defaults_paper),
                    ov(*defaults_ink),
                    ov(*defaults_finish),
                    unless_all(req.lang@),
                    unless_all(req.edition@),
                    interior_pages@,
                );
                &&& svs(r.1@) == sp.1
                &&& match r.0 {
                    Ok(j) => sp.0 is Ok && jobs_view(j@) == sp.0->Ok_0,
                    Err(m) => sp.0 is Err && m@ == sp.0->Err_0,
                }
            },
        },
{
    let found = find_book(&books, req.book.as_str());
    let i = match found {
        Ok(i) => i,
        Err(m) => {
            return (Err(m), Vec::new());
        },
    };
    let ghost all = books@;
    let mut books = books;
    let book = books.remove(i);
    assert(book == all[i as int]);
    let mut one: Vec<BookInfo> = Vec::new();
    one.push(book);
    assert(one@ =~= seq![all[i as int]]);
    let lang = unless_all_exec(req.lang.as_str());
    if !eq_str(&chars_of(req.format.as_str()), "edition") {
        let fmt = Some(copy_string(req.format.as_str()));
        let jobs = plan_format(&one, &fmt, &lang);
        proof {
            reveal_strlit("edition");
        }
        (Ok(jobs), Vec::new())
    } else {
        proof {
            reveal_strlit("edition");
        }
        let edition = unless_all_exec(req.edition.as_str());
        plan_editions(
            root,
            &one,
            repo_editions,
            defaults_paper,
            defaults_ink,
            defaults_finish,
            &lang,
            &edition,
            interior_pages,
        )
    }
}

} // verus!
