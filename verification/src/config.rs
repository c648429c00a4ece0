//! Configuration values and the rules that read them: ISBN-13 checksums, KDP
//! page ranges and colour compatibility, the publishing-status ribbon, layered
//! option resolution (edition → book → repository → built-in default) and the
//! free-sample size.
use vstd::prelude::*;
use crate::paths::path_join;
use crate::text::{copy_string, chars_of, contains_str, dec, eq_chars, eq_str, lower, lower_seq, lower_text, push_slice, push_str, str_lower, string_of, trim, trimmed};

verus! {

/// Public-copy phrases that must never appear (KDP listings, blurbs, titles).
pub open spec fn forbidden_public() -> Seq<Seq<char>> {
    seq!["Animal Farm"@, "Rebelión en la granja"@]
}

// ---------------------------------------------------------------------------
// Plain configuration tables
// ---------------------------------------------------------------------------

/// The books directory when a repository names none.
pub fn default_books_dir() -> (r: String)
    ensures
        r@ == "books"@,
{
    string_of(&chars_of("books"))
}

/// Prose-lint configuration (`[lint]`): allow-listed words and forbidden terms.
#[derive(Debug, Clone, Default)]
pub struct LintConfig {
    pub ignore: Vec<String>,
    pub forbid: Vec<String>,
}

/// Font family overrides (`[defaults.fonts]`).
#[derive(Debug, Clone, Default)]
pub struct Fonts {
    pub serif: Option<String>,
    pub sans: Option<String>,
    pub sub: Option<String>,
}

/// Repository-wide build options (`[build]`).
#[derive(Debug, Clone, Default)]
pub struct BuildOpts {
    pub output_dir: Option<String>,
    pub worksheet_dir: Option<String>,
    pub formats: Vec<String>,
}

/// One edition (`[editions.<name>]`): its market, geometry, stock, ink,
/// finish, ISBN, distribution target and per-edition overrides.
#[derive(Debug, Clone, Default)]
pub struct Edition {
    pub market: Option<String>,
    pub trim: Option<String>,
    pub bleed: Option<String>,
    pub paper: Option<String>,
    pub ink: Option<String>,
    pub finish: Option<String>,
    pub isbn: Option<String>,
    pub target: Option<String>,
    pub epub_image_px: Option<u32>,
    pub captions: Option<bool>,
    pub digital_pdf_dpi: Option<u32>,
}

/// Free-sample options (`[sample]`).
#[derive(Debug, Clone, Default)]
pub struct Sample {
    pub chapters: Option<usize>,
    pub enabled: Option<bool>,
}

/// Per-channel publishing status (`[status]`), free-form values.
#[derive(Debug, Clone, Default)]
pub struct Status {
    pub overall: Option<String>,
    pub kdp_paperback: Option<String>,
    pub kdp_kindle: Option<String>,
    pub kdp_hardcover: Option<String>,
    pub submitted: Option<String>,
    pub asin: std::collections::BTreeMap<String, String>,
}

/// A book's listing in one language (`[listing.<lang>]`).
#[derive(Debug, Clone, Default)]
pub struct Listing {
    pub keywords: Vec<String>,
    pub blurb: Option<String>,
    pub bisac: Vec<String>,
    pub reading_age: Option<String>,
}

/// Content selection: a glob or explicit files, with front and back matter.
#[derive(Debug, Clone, Default)]
pub struct Content {
    pub glob: Option<String>,
    pub files: Vec<String>,
    pub prepend: Vec<String>,
    pub append: Vec<String>,
}

/// A validation finding: `"error"` or `"warn"`, and its message.
#[derive(Debug)]
pub struct Issue {
    pub level: &'static str,
    pub msg: String,
}

// ---------------------------------------------------------------------------
// ISBN-13
// ---------------------------------------------------------------------------

/// The decimal digits of a text, in order (anything else ignored).
pub open spec fn digits_of(s: Seq<char>) -> Seq<nat>
    decreases s.len(),
{
    if s.len() == 0 {
        seq![]
    } else {
        digits_of(s.drop_last()) + (if '0' <= s.last() && s.last() <= '9' {
            seq![(s.last() as u32 - '0' as u32) as nat]
        } else {
            seq![]
        })
    }
}

/// The ISBN-13 weighted sum: digits at even positions count once, at odd
/// positions three times.
pub open spec fn isbn_sum(ds: Seq<nat>) -> nat
    decreases ds.len(),
{
    if ds.len() == 0 {
        0
    } else {
        isbn_sum(ds.drop_last()) + (if (ds.len() - 1) % 2 == 0 {
            ds.last()
        } else {
            3 * ds.last()
        })
    }
}

/// A valid ISBN-13: exactly thirteen digits (hyphens, spaces and the like
/// ignored) whose weighted sum is a multiple of ten.
pub open spec fn spec_isbn13_valid(s: Seq<char>) -> bool {
    digits_of(s).len() == 13 && isbn_sum(digits_of(s)) % 10 == 0
}

/// Validate an ISBN-13 (checksum and thirteen digits); other characters are
/// ignored.
pub fn isbn13_valid(s: &str) -> (r: bool)
    ensures
        r == spec_isbn13_valid(s@),
{
    let v = chars_of(s);
    let mut ds: Vec<u32> = Vec::new();
    let mut i: usize = 0;
    while i < v.len()
        invariant
            0 <= i <= v@.len(),
            v@ == s@,
            ds@.len() == digits_of(v@.take(i as int)).len(),
            forall|k: int|
                0 <= k < ds@.len() ==> #[trigger] ds@[k] as nat == digits_of(v@.take(i as int))[k],
            forall|k: int| 0 <= k < ds@.len() ==> #[trigger] ds@[k] <= 9,
            ds@.len() <= i,
        decreases v@.len() - i,
    {
        let c = v[i];
        assert(v@.take(i as int + 1).drop_last() =~= v@.take(i as int));
        if '0' <= c && c <= '9' {
            ds.push((c as u32) - ('0' as u32));
        }
        i += 1;
    }
    assert(v@.take(v@.len() as int) =~= v@);
    if ds.len() != 13 {
        return false;
    }
    let ghost dsv = digits_of(s@);
    let mut sum: u32 = 0;
    let mut k: usize = 0;
    while k < 13
        invariant
            0 <= k <= 13,
            ds@.len() == 13,
            dsv.len() == 13,
            forall|j: int| 0 <= j < 13 ==> #[trigger] ds@[j] as nat == dsv[j],
            forall|j: int| 0 <= j < 13 ==> #[trigger] ds@[j] <= 9,
            sum as nat == isbn_sum(dsv.take(k as int)),
            sum <= 27 * k,
        decreases 13 - k,
    {
        assert(dsv.take(k as int + 1).drop_last() =~= dsv.take(k as int));
        if k % 2 == 0 {
            sum = sum + ds[k];
        } else {
            sum = sum + ds[k] * 3;
        }
        k += 1;
    }
    assert(dsv.take(13) =~= dsv);
    sum % 10 == 0
}

// ---------------------------------------------------------------------------
// KDP rules
// ---------------------------------------------------------------------------

/// The KDP page range for a print target and ink: hardcover 75–550, standard
/// colour 72–600, anything else 24–828.
pub open spec fn spec_page_range(target: Seq<char>, ink: Seq<char>) -> (u32, u32) {
    if target == "kdp-hardcover"@ {
        (75, 550)
    } else if ink == "standard-color"@ {
        (72, 600)
    } else {
        (24, 828)
    }
}

/// KDP page range `(min, max)` for a print target and ink.
pub fn page_range(target: &str, ink: &str) -> (r: (u32, u32))
    ensures
        r == spec_page_range(target@, ink@),
{
    if eq_str(&chars_of(target), "kdp-hardcover") {
        (75, 550)
    } else if eq_str(&chars_of(ink), "standard-color") {
        (72, 600)
    } else {
        (24, 828)
    }
}

/// What `format!("{:?}", s)` writes for a string: `s` quoted, with the
/// characters `str::escape_debug` escapes escaped.
pub uninterp spec fn debug_str(s: Seq<char>) -> Seq<char>;

/// `format!("{:?}", s)` for a string; the result is named, not described.
#[verifier::external_body]
pub(crate) fn debug_quoted(s: &str) -> (r: String)
    ensures
        r@ == debug_str(s@),
{
    format!("{:?}", s)
}

/// The colour-compatibility findings for one (edition, book): standard-colour
/// ink needs white paper and is paperback-only.
pub open spec fn spec_color_issues(
    slug: Seq<char>,
    edition: Seq<char>,
    paper: Seq<char>,
    ink: Seq<char>,
    target: Seq<char>,
) -> Seq<(Seq<char>, Seq<char>)> {
    if ink == "standard-color"@ {
        (if paper != "white"@ {
            seq![
                ("error"@, slug + "/"@ + edition + ": standard-color ink requires white paper (got "@
                    + debug_str(paper) + ")"@),
            ]
        } else {
            seq![]
        }) + (if target == "kdp-hardcover"@ {
            seq![
                ("error"@, slug + "/"@ + edition
                    + ": standard-color ink is paperback-only (not hardcover)"@),
            ]
        } else {
            seq![]
        })
    } else {
        seq![]
    }
}

/// An issue as plain values.
pub open spec fn issue_view(i: Issue) -> (Seq<char>, Seq<char>) {
    (i.level@, i.msg@)
}

/// Issues as plain values.
pub open spec fn issues_view(v: Seq<Issue>) -> Seq<(Seq<char>, Seq<char>)> {
    v.map_values(|i: Issue| issue_view(i))
}

/// Validate the resolved colour choice for one (edition, book): standard colour
/// is white-paper and paperback only; premium colour is allowed everywhere.
pub fn validate_color_compat(slug: &str, edition: &str, paper: &str, ink: &str, target: &str) -> (r:
    Vec<Issue>)
    ensures
        issues_view(r@) == spec_color_issues(slug@, edition@, paper@, ink@, target@),
{
    let mut issues: Vec<Issue> = Vec::new();
    if eq_str(&chars_of(ink), "standard-color") {
        if !eq_str(&chars_of(paper), "white") {
            let mut m: Vec<char> = Vec::new();
            push_str(&mut m, slug);
            push_str(&mut m, "/");
            push_str(&mut m, edition);
            push_str(&mut m, ": standard-color ink requires white paper (got ");
            push_str(&mut m, debug_quoted(paper).as_str());
            push_str(&mut m, ")");
            let msg = string_of(&m);
            issues.push(Issue { level: "error", msg });
        }
        if eq_str(&chars_of(target), "kdp-hardcover") {
            let mut m: Vec<char> = Vec::new();
            push_str(&mut m, slug);
            push_str(&mut m, "/");
            push_str(&mut m, edition);
            push_str(&mut m, ": standard-color ink is paperback-only (not hardcover)");
            let msg = string_of(&m);
            let ghost i0 = issues_view(issues@);
            issues.push(Issue { level: "error", msg });
            assert(issues_view(issues@) =~= i0.push(("error"@, msg@)));
        }
    }
    assert(issues_view(issues@) =~= spec_color_issues(slug@, edition@, paper@, ink@, target@));
    issues
}

// ---------------------------------------------------------------------------
// Publishing status
// ---------------------------------------------------------------------------

/// Does a channel hold the status `k` (lower case), ignoring surrounding
/// whitespace and ASCII case?
pub open spec fn channel_is(c: Option<String>, k: Seq<char>) -> bool {
    match c {
        Some(v) => lower_seq(trim(v@)) == k,
        None => false,
    }
}

/// Does the status that decides hold `k`? An explicit overall value alone
/// decides when it is set; otherwise any KDP channel counts.
pub open spec fn status_has(st: Status, k: Seq<char>) -> bool {
    match st.overall {
        Some(_) => channel_is(st.overall, k),
        None => channel_is(st.kdp_paperback, k) || channel_is(st.kdp_kindle, k) || channel_is(st.kdp_hardcover, k),
    }
}

/// The ribbon: the overall override when it is set, read as a ribbon key;
/// otherwise the best channel, live beating in review beating blocked beating
/// draft.
pub open spec fn spec_ribbon(st: Status) -> Seq<char> {
    if status_has(st, "live"@) || status_has(st, "published"@) {
        "live"@
    } else if status_has(st, "in-review"@) || status_has(st, "in review"@) || status_has(
        st,
        "review"@,
    ) || status_has(st, "submitted"@) {
        "in-review"@
    } else if status_has(st, "blocked"@) {
        "blocked"@
    } else {
        "draft"@
    }
}

/// An explicit overall status decides the ribbon alone: two statuses with
/// the same overall value read the same whatever their channels hold.
pub proof fn law_overall_status_wins(a: Status, b: Status)
    requires
        a.overall is Some,
        a.overall == b.overall,
    ensures
        spec_ribbon(a) == spec_ribbon(b),
{
}

fn channel_is_exec(c: &Option<String>, k: &str) -> (r: bool)
    ensures
        r == channel_is(*c, k@),
{
    match c {
        Some(v) => {
            let t = trimmed(&chars_of(v.as_str()));
            let mut l: Vec<char> = Vec::new();
            let mut i: usize = 0;
            while i < t.len()
                invariant
                    0 <= i <= t@.len(),
                    l@ == lower_seq(t@.take(i as int)),
                decreases t@.len() - i,
            {
                l.push(crate::text::to_lower(t[i]));
                assert(lower_seq(t@.take(i as int + 1)) =~= lower_seq(t@.take(i as int)).push(
                    lower(t@[i as int]),
                ));
                i += 1;
            }
            assert(t@.take(t@.len() as int) =~= t@);
            eq_str(&l, k)
        },
        None => false,
    }
}

impl Status {
    fn holds(&self, k: &str) -> (r: bool)
        ensures
            r == status_has(*self, k@),
    {
        if self.overall.is_some() {
            channel_is_exec(&self.overall, k)
        } else {
            channel_is_exec(&self.kdp_paperback, k) || channel_is_exec(&self.kdp_kindle, k) || channel_is_exec(
                &self.kdp_hardcover,
                k,
            )
        }
    }

    /// The ribbon key for the books list: `live`, `in-review`, `blocked` or
    /// `draft`. An explicit overall value wins (`live`/`published` read
    /// live, `in-review`/`in review`/`review`/`submitted` read in-review,
    /// `blocked` reads blocked, anything else draft); otherwise the best
    /// channel decides, so a live paperback reads live even with a blocked
    /// hardcover.
    pub fn ribbon(&self) -> (r: &'static str)
        ensures
            r@ == spec_ribbon(*self),
    {
        if self.holds("live") || self.holds("published") {
            "live"
        } else if self.holds("in-review") || self.holds("in review") || self.holds("review") || self.holds(
            "submitted",
        ) {
            "in-review"
        } else if self.holds("blocked") {
            "blocked"
        } else {
            "draft"
        }
    }
}

// ---------------------------------------------------------------------------
// Audiobook defaults
// ---------------------------------------------------------------------------

/// The built-in Kokoro voice for a language.
pub open spec fn spec_default_voice(lang: Seq<char>) -> Seq<char> {
    if lang == "es"@ {
        "ef_dora"@
    } else {
        "af_heart"@
    }
}

/// Built-in default Kokoro voice per language (the series' female voices).
pub fn default_voice(lang: &str) -> (r: &'static str)
    ensures
        r@ == spec_default_voice(lang@),
{
    if eq_str(&chars_of(lang), "es") {
        "ef_dora"
    } else {
        "af_heart"
    }
}

/// The built-in audiobook language code for a language tag.
pub open spec fn spec_default_ane_code(lang: Seq<char>) -> Seq<char> {
    if lang == "es"@ {
        "e"@
    } else if lang == "fr"@ {
        "f"@
    } else if lang == "it"@ {
        "i"@
    } else if lang == "pt"@ {
        "p"@
    } else {
        "a"@
    }
}

/// Built-in default audiobook language code per language tag.
pub fn default_ane_code(lang: &str) -> (r: &'static str)
    ensures
        r@ == spec_default_ane_code(lang@),
{
    let l = chars_of(lang);
    if eq_str(&l, "es") {
        "e"
    } else if eq_str(&l, "fr") {
        "f"
    } else if eq_str(&l, "it") {
        "i"
    } else if eq_str(&l, "pt") {
        "p"
    } else {
        "a"
    }
}

// ---------------------------------------------------------------------------
// Layered resolution
// ---------------------------------------------------------------------------

/// The first value present, else the default.
pub open spec fn first_of(a: Option<Seq<char>>, b: Option<Seq<char>>, c: Option<Seq<char>>, d: Seq<char>) -> Seq<char> {
    match a {
        Some(x) => x,
        None => match b {
            Some(x) => x,
            None => match c {
                Some(x) => x,
                None => d,
            },
        },
    }
}

/// The view of an optional string.
pub open spec fn ov(o: Option<String>) -> Option<Seq<char>> {
    match o {
        Some(s) => Some(s@),
        None => None,
    }
}

/// An edition's setting, when there is an edition.
pub open spec fn ed_field(e: Option<Edition>, f: spec_fn(Edition) -> Option<String>) -> Option<Seq<char>> {
    match e {
        Some(ed) => ov(f(ed)),
        None => None,
    }
}

fn pick(a: Option<&String>, b: &Option<String>, c: &Option<String>, d: &str) -> (r: String)
    ensures
        r@ == first_of(
            match a {
                Some(x) => Some(x@),
                None => None,
            },
            ov(*b),
            ov(*c),
            d@,
        ),
{
    match a {
        Some(x) => x.clone(),
        None => match b {
            Some(x) => x.clone(),
            None => match c {
                Some(x) => x.clone(),
                None => string_of(&chars_of(d)),
            },
        },
    }
}

/// Resolve the paper stock for one (edition, book): edition, then the book's
/// `[pdf]`, then the repository `[defaults]`, then `white`.
pub fn resolve_paper(edition: Option<&Edition>, book_paper: &Option<String>, repo_paper: &Option<String>) -> (r: String)
    ensures
        r@ == first_of(
            match edition {
                Some(e) => ov(e.paper),
                None => None,
            },
            ov(*book_paper),
            ov(*repo_paper),
            "white"@,
        ),
{
    let a = match edition {
        Some(e) => match &e.paper {
            Some(p) => Some(p),
            None => None,
        },
        None => None,
    };
    pick(a, book_paper, repo_paper, "white")
}

/// Resolve the ink for one (edition, book): edition, then the book's `[pdf]`,
/// then the repository `[defaults]`, then `black`.
pub fn resolve_ink(edition: Option<&Edition>, book_ink: &Option<String>, repo_ink: &Option<String>) -> (r: String)
    ensures
        r@ == first_of(
            match edition {
                Some(e) => ov(e.ink),
                None => None,
            },
            ov(*book_ink),
            ov(*repo_ink),
            "black"@,
        ),
{
    let a = match edition {
        Some(e) => match &e.ink {
            Some(p) => Some(p),
            None => None,
        },
        None => None,
    };
    pick(a, book_ink, repo_ink, "black")
}

/// Are plate captions shown: the edition's choice, else the book's, else yes.
pub fn resolve_captions(edition: Option<&Edition>, plate_captions: Option<bool>) -> (r: bool)
    ensures
        r == match edition {
            Some(e) if e.captions is Some => e.captions->0,
            _ => match plate_captions {
                Some(b) => b,
                None => true,
            },
        },
{
    match edition {
        Some(e) => match e.captions {
            Some(b) => return b,
            None => {},
        },
        None => {},
    }
    match plate_captions {
        Some(b) => b,
        None => true,
    }
}

/// Are images without a `bw` variant grayscaled for the print interior: the
/// book's choice, else the repository's, else no.
pub fn resolve_auto_grayscale(book: Option<bool>, repo: Option<bool>) -> (r: bool)
    ensures
        r == match book {
            Some(b) => b,
            None => match repo {
                Some(b) => b,
                None => false,
            },
        },
{
    match book {
        Some(b) => b,
        None => match repo {
            Some(b) => b,
            None => false,
        },
    }
}

/// The digital-PDF downsample resolution: the edition's, else the book's; a
/// zero means off.
pub fn resolve_digital_pdf_dpi(edition: Option<&Edition>, book_dpi: Option<u32>) -> (r: Option<u32>)
    ensures
        r == ({
            let d = match edition {
                Some(e) if e.digital_pdf_dpi is Some => e.digital_pdf_dpi,
                _ => book_dpi,
            };
            match d {
                Some(x) => if x > 0 {
                    Some(x)
                } else {
                    None
                },
                None => None,
            }
        }),
{
    let d = match edition {
        Some(e) => match e.digital_pdf_dpi {
            Some(x) => Some(x),
            None => book_dpi,
        },
        None => book_dpi,
    };
    match d {
        Some(x) => if x > 0 {
            Some(x)
        } else {
            None
        },
        None => None,
    }
}

/// Is the free sample generated (default yes)?
pub fn sample_enabled(sample: &Sample) -> (r: bool)
    ensures
        r == match sample.enabled {
            Some(b) => b,
            None => true,
        },
{
    match sample.enabled {
        Some(b) => b,
        None => true,
    }
}

/// The number of leading content files in the free sample: an explicit count
/// clamped to `1..=total`; otherwise fifteen per cent rounded up, at least one
/// and at most half the book (at least one); none for an empty book.
pub open spec fn spec_sample_count(chapters: Option<usize>, total: nat) -> nat {
    if total == 0 {
        0
    } else {
        match chapters {
            Some(n) => if n < 1 {
                1
            } else if n > total {
                total
            } else {
                n as nat
            },
            None => {
                let half: nat = if total / 2 > 1 {
                    total / 2
                } else {
                    1
                };
                let fifteen: nat = (15 * total + 99) / 100;
                if fifteen < 1 {
                    1
                } else if fifteen > half {
                    half
                } else {
                    fifteen
                }
            },
        }
    }
}

/// How many leading content files the free sample includes.
pub fn sample_count(sample: &Sample, total: usize) -> (r: usize)
    ensures
        r == spec_sample_count(sample.chapters, total as nat),
{
    if total == 0 {
        return 0;
    }
    match sample.chapters {
        Some(n) => if n < 1 {
            1
        } else if n > total {
            total
        } else {
            n
        },
        None => {
            let half: usize = if total / 2 > 1 {
                total / 2
            } else {
                1
            };
            let t = total as u128;
            let f = (15 * t + 99) / 100;
            assert(f <= t);
            let fifteen = f as usize;
            if fifteen < 1 {
                1
            } else if fifteen > half {
                half
            } else {
                fifteen
            }
        },
    }
}

// ---------------------------------------------------------------------------
// The repository's `[editions]` table
// ---------------------------------------------------------------------------

/// The names of the editions, in table order.
pub open spec fn edition_names(eds: Seq<(String, Edition)>) -> Seq<Seq<char>> {
    eds.map_values(|p: (String, Edition)| p.0@)
}

/// The first edition of the table with this name, if any.
pub open spec fn edition_named(eds: Seq<(String, Edition)>, name: Seq<char>) -> Option<Edition>
    decreases eds.len(),
{
    if eds.len() == 0 {
        None
    } else if eds[0].0@ == name {
        Some(eds[0].1)
    } else {
        edition_named(eds.drop_first(), name)
    }
}

/// Where in the table the edition called `name` stands (its first entry).
pub fn find_edition(eds: &Vec<(String, Edition)>, name: &str) -> (r: Option<usize>)
    ensures
        match r {
            Some(i) => i < eds@.len() && edition_named(eds@, name@) == Some(eds@[i as int].1),
            None => edition_named(eds@, name@) is None,
        },
{
    let n = chars_of(name);
    let mut i: usize = 0;
    assert(eds@.skip(0) =~= eds@);
    while i < eds.len()
        invariant
            0 <= i <= eds@.len(),
            n@ == name@,
            edition_named(eds@, name@) == edition_named(eds@.skip(i as int), name@),
        decreases eds@.len() - i,
    {
        assert(eds@.skip(i as int)[0] == eds@[i as int]);
        assert(eds@.skip(i as int).drop_first() =~= eds@.skip(i as int + 1));
        if eq_chars(&chars_of(eds[i].0.as_str()), &n) {
            return Some(i);
        }
        i += 1;
    }
    None
}

/// The names of the editions as character vectors.
fn names_of(eds: &Vec<(String, Edition)>) -> (r: Vec<Vec<char>>)
    ensures
        crate::text::views(r@) == edition_names(eds@),
{
    let mut r: Vec<Vec<char>> = Vec::new();
    let mut i: usize = 0;
    while i < eds.len()
        invariant
            0 <= i <= eds@.len(),
            crate::text::views(r@) == edition_names(eds@).take(i as int),
        decreases eds@.len() - i,
    {
        let ghost before = crate::text::views(r@);
        r.push(chars_of(eds[i].0.as_str()));
        assert(crate::text::views(r@) =~= before.push(eds@[i as int].0@));
        assert(edition_names(eds@).take(i as int + 1) =~= edition_names(eds@).take(i as int).push(eds@[i as int].0@));
        i += 1;
    }
    assert(edition_names(eds@).take(eds@.len() as int) =~= edition_names(eds@));
    r
}

/// `known.join(", ")`, or `none` for an empty table.
pub open spec fn known_list(known: Seq<Seq<char>>) -> Seq<char> {
    if known.len() == 0 {
        "none"@
    } else {
        crate::text::join(known, ", "@)
    }
}

fn known_text(eds: &Vec<(String, Edition)>) -> (r: Vec<char>)
    ensures
        r@ == known_list(edition_names(eds@)),
{
    let names = names_of(eds);
    if names.len() == 0 {
        assert(edition_names(eds@).len() == 0);
        chars_of("none")
    } else {
        crate::text::join_vecs(&names, ", ")
    }
}

/// The message for a book naming an edition the table lacks.
pub open spec fn unknown_edition_msg(slug: Seq<char>, ed: Seq<char>, known: Seq<Seq<char>>) -> Seq<char> {
    slug + ": unknown edition "@ + debug_str(ed) + " (not in [editions]; known: "@ + known_list(known)
        + ")"@
}

/// One error per edition the book names that the table lacks, in the book's order.
pub open spec fn spec_unknown_editions(slug: Seq<char>, named: Seq<Seq<char>>, eds: Seq<(String, Edition)>) -> Seq<(Seq<char>, Seq<char>)>
    decreases named.len(),
{
    if named.len() == 0 {
        seq![]
    } else {
        let prev = spec_unknown_editions(slug, named.drop_last(), eds);
        if edition_named(eds, named.last()) is Some {
            prev
        } else {
            prev.push(("error"@, unknown_edition_msg(slug, named.last(), edition_names(eds))))
        }
    }
}

/// Check that every edition a book names is defined in the repository's
/// `[editions]` table; each one that is not is an error.
pub fn validate_book_editions(slug: &str, book_editions: &Vec<String>, repo_editions: &Vec<(String, Edition)>) -> (r: Vec<Issue>)
    ensures
        issues_view(r@) == spec_unknown_editions(slug@, crate::typst::svs(book_editions@), repo_editions@),
{
    let ghost named = crate::typst::svs(book_editions@);
    let mut issues: Vec<Issue> = Vec::new();
    let mut i: usize = 0;
    while i < book_editions.len()
        invariant
            0 <= i <= book_editions@.len(),
            named == crate::typst::svs(book_editions@),
            issues_view(issues@) == spec_unknown_editions(slug@, named.take(i as int), repo_editions@),
        decreases book_editions@.len() - i,
    {
        assert(named.take(i as int + 1).drop_last() =~= named.take(i as int));
        assert(named.take(i as int + 1).last() == book_editions@[i as int]@);
        let ed = book_editions[i].as_str();
        if find_edition(repo_editions, ed).is_none() {
            let mut m: Vec<char> = Vec::new();
            push_str(&mut m, slug);
            push_str(&mut m, ": unknown edition ");
            push_str(&mut m, debug_quoted(ed).as_str());
            push_str(&mut m, " (not in [editions]; known: ");
            push_slice(&mut m, &known_text(repo_editions));
            push_str(&mut m, ")");
            let msg = string_of(&m);
            let ghost before = issues_view(issues@);
            issues.push(Issue { level: "error", msg });
            assert(issues_view(issues@) =~= before.push(("error"@, msg@)));
        }
        i += 1;
    }
    assert(named.take(book_editions@.len() as int) =~= named);
    issues
}

/// A distribution target that prints a physical book.
pub open spec fn is_print_target(t: Seq<char>) -> bool {
    t == "kdp-paperback"@ || t == "kdp-hardcover"@ || t == "bubok"@
}

/// The table defines `name` with a print target.
pub open spec fn edition_is_print(eds: Seq<(String, Edition)>, name: Seq<char>) -> bool {
    match edition_named(eds, name) {
        Some(e) => match e.target {
            Some(t) => is_print_target(t@),
            None => false,
        },
        None => false,
    }
}

/// The explicit edit-mode setting, trimmed and lower-cased, when one is set.
pub open spec fn edit_setting(book_edit: Option<Seq<char>>, repo_edit: Option<Seq<char>>) -> Option<Seq<char>> {
    match book_edit {
        Some(m) => Some(str_lower(trim(m))),
        None => match repo_edit {
            Some(m) => Some(str_lower(trim(m))),
            None => None,
        },
    }
}

/// `front` or `wrap`: an explicit setting that names one of them wins; else
/// `wrap` when any of the book's editions is a print edition.
pub open spec fn spec_cover_edit_mode(
    book_edit: Option<Seq<char>>,
    repo_edit: Option<Seq<char>>,
    named: Seq<Seq<char>>,
    eds: Seq<(String, Edition)>,
) -> Seq<char> {
    let m = edit_setting(book_edit, repo_edit);
    if m is Some && (m->0 == "front"@ || m->0 == "wrap"@) {
        m->0
    } else if exists|i: int| 0 <= i < named.len() && #[trigger] edition_is_print(eds, named[i]) {
        "wrap"@
    } else {
        "front"@
    }
}

fn is_print(eds: &Vec<(String, Edition)>, name: &str) -> (r: bool)
    ensures
        r == edition_is_print(eds@, name@),
{
    match find_edition(eds, name) {
        Some(i) => match &eds[i].1.target {
            Some(t) => {
                let tc = chars_of(t.as_str());
                eq_str(&tc, "kdp-paperback") || eq_str(&tc, "kdp-hardcover") || eq_str(&tc, "bubok")
            },
            None => false,
        },
        None => false,
    }
}

/// Which cover surface the editor exposes for a book: `front` (digital only) or
/// `wrap` (a print edition exists). An explicit book `[cover].edit`, else the
/// repository's, wins when it names one of the two.
pub fn cover_edit_mode(
    book_edit: &Option<String>,
    repo_edit: &Option<String>,
    book_editions: &Vec<String>,
    repo_editions: &Vec<(String, Edition)>,
) -> (r: String)
    ensures
        r@ == spec_cover_edit_mode(ov(*book_edit), ov(*repo_edit), crate::typst::svs(book_editions@), repo_editions@),
{
    let chosen = match book_edit {
        Some(m) => Some(m),
        None => match repo_edit {
            Some(m) => Some(m),
            None => None,
        },
    };
    let ghost m0 = edit_setting(ov(*book_edit), ov(*repo_edit));
    if let Some(m) = chosen {
        let t = string_of(&trimmed(&chars_of(m.as_str())));
        let l = lower_text(t.as_str());
        let lc = chars_of(l.as_str());
        assert(m0 == Some(l@));
        if eq_str(&lc, "front") || eq_str(&lc, "wrap") {
            return l;
        }
    } else {
        assert(m0 is None);
    }
    let ghost named = crate::typst::svs(book_editions@);
    let mut i: usize = 0;
    while i < book_editions.len()
        invariant
            0 <= i <= book_editions@.len(),
            named == crate::typst::svs(book_editions@),
            m0 == edit_setting(ov(*book_edit), ov(*repo_edit)),
            !(m0 is Some && (m0->0 == "front"@ || m0->0 == "wrap"@)),
            forall|k: int| 0 <= k < i ==> !#[trigger] edition_is_print(repo_editions@, named[k]),
        decreases book_editions@.len() - i,
    {
        if is_print(repo_editions, book_editions[i].as_str()) {
            assert(edition_is_print(repo_editions@, named[i as int]));
            return string_of(&chars_of("wrap"));
        }
        i += 1;
    }
    string_of(&chars_of("front"))
}

/// The paper stocks KDP offers.
pub open spec fn is_paper_value(v: Seq<char>) -> bool {
    v == "white"@ || v == "cream"@ || v == "groundwood"@
}

/// The inks KDP offers.
pub open spec fn is_ink_value(v: Seq<char>) -> bool {
    v == "black"@ || v == "standard-color"@ || v == "premium-color"@
}

/// The cover finishes KDP offers.
pub open spec fn is_finish_value(v: Seq<char>) -> bool {
    v == "matte"@ || v == "glossy"@
}

/// Which option a field names: paper (0), ink (1) or finish (2).
pub open spec fn allowed_value(kind: int, v: Seq<char>) -> bool {
    if kind == 0 {
        is_paper_value(v)
    } else if kind == 1 {
        is_ink_value(v)
    } else {
        is_finish_value(v)
    }
}

/// The field's name for each kind.
pub open spec fn kind_field(kind: int) -> Seq<char> {
    if kind == 0 {
        "paper"@
    } else if kind == 1 {
        "ink"@
    } else {
        "finish"@
    }
}

/// The allowed values as `{:?}` writes the list.
pub open spec fn kind_listed(kind: int) -> Seq<char> {
    if kind == 0 {
        "[\"white\", \"cream\", \"groundwood\"]"@
    } else if kind == 1 {
        "[\"black\", \"standard-color\", \"premium-color\"]"@
    } else {
        "[\"matte\", \"glossy\"]"@
    }
}

/// The finding for one set option whose value is not allowed.
pub open spec fn option_issues(place: Seq<char>, kind: int, val: Option<Seq<char>>) -> Seq<(Seq<char>, Seq<char>)> {
    match val {
        Some(v) => if allowed_value(kind, v) {
            seq![]
        } else {
            seq![
                ("error"@, place + " "@ + kind_field(kind) + "="@ + debug_str(v) + " not one of "@
                    + kind_listed(kind)),
            ]
        },
        None => seq![],
    }
}

/// The findings on an edition's ISBN: invalid (error) or the free KDP one (warning).
pub open spec fn isbn_issues(place: Seq<char>, isbn: Option<Seq<char>>) -> Seq<(Seq<char>, Seq<char>)> {
    match isbn {
        Some(i) => if i != "free"@ && !spec_isbn13_valid(i) {
            seq![
                ("error"@, place + " isbn "@ + debug_str(i)
                    + " is not a valid ISBN-13 (use \"free\" for a KDP-assigned ISBN)"@),
            ]
        } else if i == "free"@ {
            seq![
                ("warn"@, place
                    + " uses a free KDP ISBN (non-portable; imprint = \"Independently published\")"@),
            ]
        } else {
            seq![]
        },
        None => seq![],
    }
}

/// `[editions.<name>]`.
pub open spec fn edition_place(name: Seq<char>) -> Seq<char> {
    "[editions."@ + name + "]"@
}

/// The findings for one edition: paper, ink, finish, then ISBN.
pub open spec fn edition_issues(name: Seq<char>, e: Edition) -> Seq<(Seq<char>, Seq<char>)> {
    let w = edition_place(name);
    option_issues(w, 0, ov(e.paper)) + option_issues(w, 1, ov(e.ink)) + option_issues(w, 2, ov(e.finish))
        + isbn_issues(w, ov(e.isbn))
}

/// The findings for every edition, in table order.
pub open spec fn editions_issues(eds: Seq<(String, Edition)>) -> Seq<(Seq<char>, Seq<char>)>
    decreases eds.len(),
{
    if eds.len() == 0 {
        seq![]
    } else {
        editions_issues(eds.drop_last()) + edition_issues(eds.last().0@, eds.last().1)
    }
}

/// All findings: the repository defaults, then each edition.
pub open spec fn spec_validate_editions(
    paper: Option<Seq<char>>,
    ink: Option<Seq<char>>,
    finish: Option<Seq<char>>,
    eds: Seq<(String, Edition)>,
) -> Seq<(Seq<char>, Seq<char>)> {
    option_issues("[defaults]"@, 0, paper) + option_issues("[defaults]"@, 1, ink) + option_issues(
        "[defaults]"@,
        2,
        finish,
    ) + editions_issues(eds)
}

fn push_issue(issues: &mut Vec<Issue>, level: &'static str, m: &Vec<char>)
    ensures
        issues_view(final(issues)@) == issues_view(old(issues)@).push((level@, m@)),
{
    let msg = string_of(m);
    let ghost before = issues_view(issues@);
    issues.push(Issue { level, msg });
    assert(issues_view(issues@) =~= before.push((level@, msg@)));
}

fn check_option(issues: &mut Vec<Issue>, place: &Vec<char>, kind: u8, val: &Option<String>)
    requires
        kind < 3,
    ensures
        issues_view(final(issues)@) == issues_view(old(issues)@) + option_issues(place@, kind as int, ov(*val)),
{
    if let Some(v) = val {
        let vc = chars_of(v.as_str());
        let ok = if kind == 0 {
            eq_str(&vc, "white") || eq_str(&vc, "cream") || eq_str(&vc, "groundwood")
        } else if kind == 1 {
            eq_str(&vc, "black") || eq_str(&vc, "standard-color") || eq_str(&vc, "premium-color")
        } else {
            eq_str(&vc, "matte") || eq_str(&vc, "glossy")
        };
        if !ok {
            let mut m: Vec<char> = Vec::new();
            push_slice(&mut m, place);
            push_str(&mut m, " ");
            if kind == 0 {
                push_str(&mut m, "paper");
            } else if kind == 1 {
                push_str(&mut m, "ink");
            } else {
                push_str(&mut m, "finish");
            }
            push_str(&mut m, "=");
            push_str(&mut m, debug_quoted(v.as_str()).as_str());
            push_str(&mut m, " not one of ");
            if kind == 0 {
                push_str(&mut m, "[\"white\", \"cream\", \"groundwood\"]");
            } else if kind == 1 {
                push_str(&mut m, "[\"black\", \"standard-color\", \"premium-color\"]");
            } else {
                push_str(&mut m, "[\"matte\", \"glossy\"]");
            }
            push_issue(issues, "error", &m);
        } else {
            assert(issues_view(issues@) =~= issues_view(issues@) + seq![]);
        }
    } else {
        assert(issues_view(issues@) =~= issues_view(issues@) + seq![]);
    }
}

fn check_isbn(issues: &mut Vec<Issue>, place: &Vec<char>, isbn: &Option<String>)
    ensures
        issues_view(final(issues)@) == issues_view(old(issues)@) + isbn_issues(place@, ov(*isbn)),
{
    if let Some(i) = isbn {
        let ic = chars_of(i.as_str());
        let free = eq_str(&ic, "free");
        if !free && !isbn13_valid(i.as_str()) {
            let mut m: Vec<char> = Vec::new();
            push_slice(&mut m, place);
            push_str(&mut m, " isbn ");
            push_str(&mut m, debug_quoted(i.as_str()).as_str());
            push_str(&mut m, " is not a valid ISBN-13 (use \"free\" for a KDP-assigned ISBN)");
            push_issue(issues, "error", &m);
        } else if free {
            let mut m: Vec<char> = Vec::new();
            push_slice(&mut m, place);
            push_str(&mut m, " uses a free KDP ISBN (non-portable; imprint = \"Independently published\")");
            push_issue(issues, "warn", &m);
        } else {
            assert(issues_view(issues@) =~= issues_view(issues@) + seq![]);
        }
    } else {
        assert(issues_view(issues@) =~= issues_view(issues@) + seq![]);
    }
}

/// Validate the edition-level paper, ink, finish and ISBN choices of the
/// repository defaults and of every edition.
pub fn validate_editions(
    defaults_paper: &Option<String>,
    defaults_ink: &Option<String>,
    defaults_finish: &Option<String>,
    editions: &Vec<(String, Edition)>,
) -> (r: Vec<Issue>)
    ensures
        issues_view(r@) == spec_validate_editions(
            ov(*defaults_paper),
            ov(*defaults_ink),
            ov(*defaults_finish),
            editions@,
        ),
{
    let mut issues: Vec<Issue> = Vec::new();
    let d = chars_of("[defaults]");
    check_option(&mut issues, &d, 0, defaults_paper);
    check_option(&mut issues, &d, 1, defaults_ink);
    check_option(&mut issues, &d, 2, defaults_finish);
    let ghost head = issues_view(issues@);
    assert(head =~= option_issues("[defaults]"@, 0, ov(*defaults_paper)) + option_issues("[defaults]"@, 1, ov(*defaults_ink))
        + option_issues("[defaults]"@, 2, ov(*defaults_finish)));
    let mut k: usize = 0;
    while k < editions.len()
        invariant
            0 <= k <= editions@.len(),
            issues_view(issues@) == head + editions_issues(editions@.take(k as int)),
        decreases editions@.len() - k,
    {
        let ghost before = issues_view(issues@);
        let (name, e) = (&editions[k].0, &editions[k].1);
        let mut w: Vec<char> = Vec::new();
        push_str(&mut w, "[editions.");
        push_str(&mut w, name.as_str());
        push_str(&mut w, "]");
        check_option(&mut issues, &w, 0, &e.paper);
        check_option(&mut issues, &w, 1, &e.ink);
        check_option(&mut issues, &w, 2, &e.finish);
        check_isbn(&mut issues, &w, &e.isbn);
        assert(editions@.take(k as int + 1).drop_last() =~= editions@.take(k as int));
        assert(issues_view(issues@) =~= before + edition_issues(name@, *e));
        k += 1;
    }
    assert(editions@.take(editions@.len() as int) =~= editions@);
    issues
}

// ---------------------------------------------------------------------------
// Book metadata rules (KDP limits and house rules)
// ---------------------------------------------------------------------------

/// The keys of a language-keyed table.
pub open spec fn keys_of<T>(m: Seq<(String, T)>) -> Seq<Seq<char>> {
    m.map_values(|p: (String, T)| p.0@)
}

/// The values of a language-keyed text table.
pub open spec fn texts_of(m: Seq<(String, String)>) -> Seq<Seq<char>> {
    m.map_values(|p: (String, String)| p.1@)
}

/// One error per book language without a title, in language order.
pub open spec fn missing_titles(langs: Seq<Seq<char>>, titles: Seq<(String, String)>) -> Seq<(Seq<char>, Seq<char>)>
    decreases langs.len(),
{
    if langs.len() == 0 {
        seq![]
    } else {
        let prev = missing_titles(langs.drop_last(), titles);
        if keys_of(titles).contains(langs.last()) {
            prev
        } else {
            prev.push(("error"@, "["@ + langs.last() + "] missing title"@))
        }
    }
}

/// One error per keyword longer than fifty characters.
pub open spec fn long_keywords(lang: Seq<char>, kws: Seq<Seq<char>>) -> Seq<(Seq<char>, Seq<char>)>
    decreases kws.len(),
{
    if kws.len() == 0 {
        seq![]
    } else {
        let prev = long_keywords(lang, kws.drop_last());
        if kws.last().len() > 50 {
            prev.push(("error"@, "["@ + lang + "] keyword over 50 chars: "@ + debug_str(kws.last())))
        } else {
            prev
        }
    }
}

/// The findings on one language's listing: keyword count, keyword length,
/// blurb length and BISAC count.
pub open spec fn listing_issues(lang: Seq<char>, l: Listing) -> Seq<(Seq<char>, Seq<char>)> {
    let tag = "["@ + lang + "] "@;
    (if l.keywords@.len() > 7 {
        seq![("error"@, tag + dec(l.keywords@.len()) + " keywords (KDP max 7)"@)]
    } else {
        seq![]
    }) + long_keywords(lang, crate::typst::svs(l.keywords@)) + (match l.blurb {
        Some(b) => if b@.len() > 4000 {
            seq![("error"@, tag + "blurb over 4000 chars"@)]
        } else {
            seq![]
        },
        None => seq![],
    }) + (if l.bisac@.len() > 3 {
        seq![("error"@, tag + dec(l.bisac@.len()) + " BISAC codes (max 3)"@)]
    } else {
        seq![]
    })
}

/// The findings on every listing, in language order.
pub open spec fn listings_issues(ls: Seq<(String, Listing)>) -> Seq<(Seq<char>, Seq<char>)>
    decreases ls.len(),
{
    if ls.len() == 0 {
        seq![]
    } else {
        listings_issues(ls.drop_last()) + listing_issues(ls.last().0@, ls.last().1)
    }
}

/// The public copy of the listings: each language's blurb, then its keywords.
pub open spec fn listing_copy(ls: Seq<(String, Listing)>) -> Seq<Seq<char>>
    decreases ls.len(),
{
    if ls.len() == 0 {
        seq![]
    } else {
        let l = ls.last().1;
        listing_copy(ls.drop_last()) + (match l.blurb {
            Some(b) => seq![b@],
            None => seq![],
        }) + crate::typst::svs(l.keywords@)
    }
}

/// Everything shown to readers: titles, subtitles, then the listings' copy.
pub open spec fn public_copy(
    titles: Seq<(String, String)>,
    subtitles: Seq<(String, String)>,
    ls: Seq<(String, Listing)>,
) -> Seq<Seq<char>> {
    texts_of(titles) + texts_of(subtitles) + listing_copy(ls)
}

/// The error for a forbidden phrase in one text.
pub open spec fn forbid_one(text: Seq<char>, bad: Seq<char>) -> Seq<(Seq<char>, Seq<char>)> {
    if crate::text::contains(text, bad) {
        seq![("error"@, "forbidden phrase in public copy: "@ + debug_str(bad))]
    } else {
        seq![]
    }
}

/// The errors for one text, one per forbidden phrase it contains.
pub open spec fn forbid_in(text: Seq<char>) -> Seq<(Seq<char>, Seq<char>)> {
    forbid_one(text, forbidden_public()[0]) + forbid_one(text, forbidden_public()[1])
}

/// The errors for every text, in order.
pub open spec fn forbidden_issues(texts: Seq<Seq<char>>) -> Seq<(Seq<char>, Seq<char>)>
    decreases texts.len(),
{
    if texts.len() == 0 {
        seq![]
    } else {
        forbidden_issues(texts.drop_last()) + forbid_in(texts.last())
    }
}

/// All findings on a book's metadata, in the order they are reported.
pub open spec fn spec_validate_book(
    langs: Seq<Seq<char>>,
    titles: Seq<(String, String)>,
    subtitles: Seq<(String, String)>,
    ls: Seq<(String, Listing)>,
) -> Seq<(Seq<char>, Seq<char>)> {
    missing_titles(langs, titles) + listings_issues(ls) + forbidden_issues(public_copy(titles, subtitles, ls))
}

fn has_key(m: &Vec<(String, String)>, k: &str) -> (r: bool)
    ensures
        r == keys_of(m@).contains(k@),
{
    let kc = chars_of(k);
    let mut i: usize = 0;
    while i < m.len()
        invariant
            0 <= i <= m@.len(),
            kc@ == k@,
            forall|j: int| 0 <= j < i ==> m@[j].0@ != k@,
        decreases m@.len() - i,
    {
        if eq_chars(&chars_of(m[i].0.as_str()), &kc) {
            assert(keys_of(m@)[i as int] == k@);
            return true;
        }
        i += 1;
    }
    assert forall|j: int| 0 <= j < keys_of(m@).len() implies keys_of(m@)[j] != k@ by {
        assert(m@[j].0@ != k@);
    }
    false
}

fn check_listing(issues: &mut Vec<Issue>, lang: &str, l: &Listing)
    ensures
        issues_view(final(issues)@) == issues_view(old(issues)@) + listing_issues(lang@, *l),
{
    let ghost start = issues_view(issues@);
    if l.keywords.len() > 7 {
        let mut m: Vec<char> = Vec::new();
        push_str(&mut m, "[");
        push_str(&mut m, lang);
        push_str(&mut m, "] ");
        push_slice(&mut m, &crate::text::dec_chars(l.keywords.len()));
        push_str(&mut m, " keywords (KDP max 7)");
        push_issue(issues, "error", &m);
    }
    let ghost s1 = issues_view(issues@);
    let ghost tag = "["@ + lang@ + "] "@;
    assert(s1 == start + (if l.keywords@.len() > 7 {
        seq![("error"@, tag + dec(l.keywords@.len()) + " keywords (KDP max 7)"@)]
    } else {
        seq![]
    }));
    let ghost kws = crate::typst::svs(l.keywords@);
    let mut i: usize = 0;
    while i < l.keywords.len()
        invariant
            0 <= i <= l.keywords@.len(),
            kws == crate::typst::svs(l.keywords@),
            issues_view(issues@) == s1 + long_keywords(lang@, kws.take(i as int)),
        decreases l.keywords@.len() - i,
    {
        assert(kws.take(i as int + 1).drop_last() =~= kws.take(i as int));
        assert(kws.take(i as int + 1).last() == l.keywords@[i as int]@);
        let k = l.keywords[i].as_str();
        let ghost before = issues_view(issues@);
        if chars_of(k).len() > 50 {
            let mut m: Vec<char> = Vec::new();
            push_str(&mut m, "[");
            push_str(&mut m, lang);
            push_str(&mut m, "] keyword over 50 chars: ");
            push_str(&mut m, debug_quoted(k).as_str());
            push_issue(issues, "error", &m);
        }
        i += 1;
    }
    assert(kws.take(l.keywords@.len() as int) =~= kws);
    let ghost s2 = issues_view(issues@);
    if let Some(b) = &l.blurb {
        if chars_of(b.as_str()).len() > 4000 {
            let mut m: Vec<char> = Vec::new();
            push_str(&mut m, "[");
            push_str(&mut m, lang);
            push_str(&mut m, "] ");
            push_str(&mut m, "blurb over 4000 chars");
            push_issue(issues, "error", &m);
        }
    }
    let ghost s3 = issues_view(issues@);
    assert(s3 == s2 + (match l.blurb {
        Some(b) => if b@.len() > 4000 {
            seq![("error"@, tag + "blurb over 4000 chars"@)]
        } else {
            seq![]
        },
        None => seq![],
    }));
    if l.bisac.len() > 3 {
        let mut m: Vec<char> = Vec::new();
        push_str(&mut m, "[");
        push_str(&mut m, lang);
        push_str(&mut m, "] ");
        push_slice(&mut m, &crate::text::dec_chars(l.bisac.len()));
        push_str(&mut m, " BISAC codes (max 3)");
        push_issue(issues, "error", &m);
    }
    assert(issues_view(issues@) == s3 + (if l.bisac@.len() > 3 {
        seq![("error"@, tag + dec(l.bisac@.len()) + " BISAC codes (max 3)"@)]
    } else {
        seq![]
    }));
    assert(issues_view(issues@) =~= start + listing_issues(lang@, *l));
}

fn check_forbidden(issues: &mut Vec<Issue>, text: &str)
    ensures
        issues_view(final(issues)@) == issues_view(old(issues)@) + forbid_in(text@),
{
    let ghost start = issues_view(issues@);
    let t = chars_of(text);
    assert(forbidden_public()[0] == "Animal Farm"@);
    assert(forbidden_public()[1] == "Rebelión en la granja"@);
    if contains_str(&t, "Animal Farm") {
        let mut m: Vec<char> = Vec::new();
        push_str(&mut m, "forbidden phrase in public copy: ");
        push_str(&mut m, debug_quoted("Animal Farm").as_str());
        push_issue(issues, "error", &m);
    }
    let ghost mid = issues_view(issues@);
    if contains_str(&t, "Rebelión en la granja") {
        let mut m: Vec<char> = Vec::new();
        push_str(&mut m, "forbidden phrase in public copy: ");
        push_str(&mut m, debug_quoted("Rebelión en la granja").as_str());
        push_issue(issues, "error", &m);
    }
    assert(issues_view(issues@) =~= start + forbid_in(text@));
}

fn check_texts(issues: &mut Vec<Issue>, texts: &Vec<String>)
    ensures
        issues_view(final(issues)@) == issues_view(old(issues)@) + forbidden_issues(crate::typst::svs(texts@)),
{
    let ghost start = issues_view(issues@);
    let ghost ts = crate::typst::svs(texts@);
    let mut i: usize = 0;
    while i < texts.len()
        invariant
            0 <= i <= texts@.len(),
            ts == crate::typst::svs(texts@),
            issues_view(issues@) == start + forbidden_issues(ts.take(i as int)),
        decreases texts@.len() - i,
    {
        assert(ts.take(i as int + 1).drop_last() =~= ts.take(i as int));
        assert(ts.take(i as int + 1).last() == texts@[i as int]@);
        check_forbidden(issues, texts[i].as_str());
        i += 1;
    }
    assert(ts.take(texts@.len() as int) =~= ts);
}

fn push_values(out: &mut Vec<String>, m: &Vec<(String, String)>)
    ensures
        crate::typst::svs(final(out)@) == crate::typst::svs(old(out)@) + texts_of(m@),
{
    let ghost start = crate::typst::svs(out@);
    let mut i: usize = 0;
    while i < m.len()
        invariant
            0 <= i <= m@.len(),
            crate::typst::svs(out@) == start + texts_of(m@).take(i as int),
        decreases m@.len() - i,
    {
        let ghost before = crate::typst::svs(out@);
        out.push(crate::text::copy_string(m[i].1.as_str()));
        assert(crate::typst::svs(out@) =~= before.push(m@[i as int].1@));
        assert(crate::typst::svs(out@) =~= start + texts_of(m@).take(i as int + 1));
        i += 1;
    }
    assert(texts_of(m@).take(m@.len() as int) =~= texts_of(m@));
}

fn collect_public(titles: &Vec<(String, String)>, subtitles: &Vec<(String, String)>, ls: &Vec<(String, Listing)>) -> (r: Vec<String>)
    ensures
        crate::typst::svs(r@) == public_copy(titles@, subtitles@, ls@),
{
    let mut out: Vec<String> = Vec::new();
    push_values(&mut out, titles);
    push_values(&mut out, subtitles);
    let ghost head = crate::typst::svs(out@);
    let mut i: usize = 0;
    while i < ls.len()
        invariant
            0 <= i <= ls@.len(),
            crate::typst::svs(out@) == head + listing_copy(ls@.take(i as int)),
        decreases ls@.len() - i,
    {
        assert(ls@.take(i as int + 1).drop_last() =~= ls@.take(i as int));
        let l = &ls[i].1;
        let ghost before = crate::typst::svs(out@);
        if let Some(b) = &l.blurb {
            out.push(crate::text::copy_string(b.as_str()));
            assert(crate::typst::svs(out@) =~= before.push(b@));
        }
        let ghost mid = crate::typst::svs(out@);
        let mut j: usize = 0;
        while j < l.keywords.len()
            invariant
                0 <= j <= l.keywords@.len(),
                crate::typst::svs(out@) == mid + crate::typst::svs(l.keywords@).take(j as int),
            decreases l.keywords@.len() - j,
        {
            let ghost b2 = crate::typst::svs(out@);
            out.push(crate::text::copy_string(l.keywords[j].as_str()));
            assert(crate::typst::svs(out@) =~= b2.push(l.keywords@[j as int]@));
            assert(crate::typst::svs(out@) =~= mid + crate::typst::svs(l.keywords@).take(j as int + 1));
            j += 1;
        }
        assert(crate::typst::svs(l.keywords@).take(l.keywords@.len() as int) =~= crate::typst::svs(l.keywords@));
        assert(mid =~= before + (match l.blurb {
            Some(b) => seq![b@],
            None => seq![],
        }));
        assert(ls@.take(i as int + 1).last() == ls@[i as int]);
        assert(crate::typst::svs(out@) =~= head + listing_copy(ls@.take(i as int + 1)));
        i += 1;
    }
    assert(ls@.take(ls@.len() as int) =~= ls@);
    out
}

/// Validate a book's metadata against KDP limits and house rules: a title per
/// language; at most seven keywords of at most fifty characters; a blurb of at
/// most 4000 characters; at most three BISAC codes; no forbidden phrase in any
/// public copy. Tables are in key order.
pub fn validate_book(
    languages: &Vec<String>,
    titles: &Vec<(String, String)>,
    subtitles: &Vec<(String, String)>,
    listings: &Vec<(String, Listing)>,
) -> (r: Vec<Issue>)
    ensures
        issues_view(r@) == spec_validate_book(crate::typst::svs(languages@), titles@, subtitles@, listings@),
{
    let mut issues: Vec<Issue> = Vec::new();
    let ghost langs = crate::typst::svs(languages@);
    let mut i: usize = 0;
    while i < languages.len()
        invariant
            0 <= i <= languages@.len(),
            langs == crate::typst::svs(languages@),
            issues_view(issues@) == missing_titles(langs.take(i as int), titles@),
        decreases languages@.len() - i,
    {
        assert(langs.take(i as int + 1).drop_last() =~= langs.take(i as int));
        assert(langs.take(i as int + 1).last() == languages@[i as int]@);
        let lang = languages[i].as_str();
        if !has_key(titles, lang) {
            let mut m: Vec<char> = Vec::new();
            push_str(&mut m, "[");
            push_str(&mut m, lang);
            push_str(&mut m, "] missing title");
            push_issue(&mut issues, "error", &m);
        }
        i += 1;
    }
    assert(langs.take(languages@.len() as int) =~= langs);
    let ghost s1 = issues_view(issues@);
    let mut k: usize = 0;
    while k < listings.len()
        invariant
            0 <= k <= listings@.len(),
            issues_view(issues@) == s1 + listings_issues(listings@.take(k as int)),
        decreases listings@.len() - k,
    {
        assert(listings@.take(k as int + 1).drop_last() =~= listings@.take(k as int));
        let ghost before = issues_view(issues@);
        check_listing(&mut issues, listings[k].0.as_str(), &listings[k].1);
        assert(issues_view(issues@) =~= s1 + listings_issues(listings@.take(k as int + 1)));
        k += 1;
    }
    assert(listings@.take(listings@.len() as int) =~= listings@);
    let public = collect_public(titles, subtitles, listings);
    check_texts(&mut issues, &public);
    issues
}

// ---------------------------------------------------------------------------
// Laws
// ---------------------------------------------------------------------------

/// The free sample of a non-empty book holds at least one and at most all of
/// its content files; without an explicit count it holds at most half of them
/// (but at least one).
pub proof fn law_sample_count_bounds(chapters: Option<usize>, total: nat)
    requires
        total > 0,
    ensures
        1 <= spec_sample_count(chapters, total) <= total,
        chapters is None ==> spec_sample_count(chapters, total) <= (if total / 2 > 1 {
            total / 2
        } else {
            1
        }),
{
}

/// Changing the check digit of a valid ISBN-13 to any other digit makes it
/// invalid: the checksum catches every single-digit error there.
pub proof fn law_isbn_check_digit(ds: Seq<nat>, d: nat)
    requires
        ds.len() == 13,
        forall|i: int| 0 <= i < 13 ==> #[trigger] ds[i] < 10,
        d < 10,
        d != ds[12],
        isbn_sum(ds) % 10 == 0,
    ensures
        isbn_sum(ds.update(12, d)) % 10 != 0,
{
    let e = ds.update(12, d);
    assert(e.drop_last() =~= ds.drop_last());
    assert(isbn_sum(e) == isbn_sum(ds.drop_last()) + d);
    assert(isbn_sum(ds) == isbn_sum(ds.drop_last()) + ds[12]);
}


// ---------------------------------------------------------------------------
// Content resolution
// ---------------------------------------------------------------------------

/// The weight of the digit at position `i` in the ISBN-13 checksum: 1 at even
/// positions (counting from 0), 3 at odd ones.
pub open spec fn isbn_weight(i: int) -> nat {
    if i % 2 == 0 {
        1
    } else {
        3
    }
}

/// The checksum is the weighted digit sum: it is 0 for no digits, a trailing
/// zero digit adds nothing, and raising the digit at any position `i` by one
/// raises it by exactly that position's weight (1 at even positions, 3 at odd
/// ones). Together these fix the sum of every digit sequence, at every
/// position, not only at the check digit.
pub proof fn law_isbn_sum_weights(ds: Seq<nat>, i: int)
    requires
        0 <= i < ds.len(),
    ensures
        isbn_sum(Seq::<nat>::empty()) == 0,
        isbn_sum(ds.push(0)) == isbn_sum(ds),
        isbn_sum(ds.update(i, ds[i] + 1)) == isbn_sum(ds) + isbn_weight(i),
    decreases ds.len(),
{
    assert(ds.push(0).drop_last() =~= ds);
    let e = ds.update(i, ds[i] + 1);
    if i == ds.len() - 1 {
        assert(e.drop_last() =~= ds.drop_last());
    } else {
        law_isbn_sum_weights(ds.drop_last(), i);
        assert(e.drop_last() =~= ds.drop_last().update(i, ds[i] + 1));
        assert(e.last() == ds.last());
    }
}

/// Path character `x` sorts before `y`: `/` before every other character, the
/// rest by code point (so a path sorts before the paths that extend one of its
/// components, as `Path` ordering by components does for normalised paths).
pub open spec fn char_before(x: char, y: char) -> bool {
    x != y && (x == '/' || (y != '/' && (x as int) < (y as int)))
}

/// Path `a` sorts strictly before path `b`.
pub open spec fn path_lt(a: Seq<char>, b: Seq<char>) -> bool
    decreases a.len(),
{
    if a.len() == 0 {
        b.len() > 0
    } else if b.len() == 0 {
        false
    } else if a[0] != b[0] {
        char_before(a[0], b[0])
    } else {
        path_lt(a.drop_first(), b.drop_first())
    }
}

/// `x` inserted into sorted paths before the first one it sorts before.
pub open spec fn insert_path(s: Seq<Seq<char>>, x: Seq<char>) -> Seq<Seq<char>>
    decreases s.len(),
{
    if s.len() == 0 {
        seq![x]
    } else if path_lt(x, s[0]) {
        seq![x] + s
    } else {
        seq![s[0]] + insert_path(s.drop_first(), x)
    }
}

/// Paths in sorted order.
pub open spec fn sort_paths(h: Seq<Seq<char>>) -> Seq<Seq<char>>
    decreases h.len(),
{
    if h.len() == 0 {
        seq![]
    } else {
        insert_path(sort_paths(h.drop_last()), h.last())
    }
}

fn path_less(a: &[char], b: &[char]) -> (r: bool)
    ensures
        r == path_lt(a@, b@),
{
    let mut i: usize = 0;
    assert(a@.skip(0) =~= a@);
    assert(b@.skip(0) =~= b@);
    while i < a.len() && i < b.len()
        invariant
            0 <= i <= a@.len(),
            i <= b@.len(),
            path_lt(a@, b@) == path_lt(a@.skip(i as int), b@.skip(i as int)),
        decreases a@.len() - i,
    {
        assert(a@.skip(i as int)[0] == a@[i as int]);
        assert(b@.skip(i as int)[0] == b@[i as int]);
        if a[i] != b[i] {
            return a[i] == '/' || (b[i] != '/' && a[i] < b[i]);
        }
        assert(a@.skip(i as int).drop_first() =~= a@.skip(i as int + 1));
        assert(b@.skip(i as int).drop_first() =~= b@.skip(i as int + 1));
        i += 1;
    }
    i == a.len() && i < b.len()
}

fn insert_sorted(s: Vec<String>, x: String) -> (r: Vec<String>)
    ensures
        svs_of(r@) == insert_path(svs_of(s@), x@),
{
    let xv = chars_of(x.as_str());
    let mut out: Vec<String> = Vec::new();
    let mut i: usize = 0;
    let ghost sv = svs_of(s@);
    assert(sv.skip(0) =~= sv);
    assert(sv.take(0) + insert_path(sv, x@) =~= insert_path(sv, x@));
    while i < s.len()
        invariant
            0 <= i <= s@.len(),
            sv == svs_of(s@),
            xv@ == x@,
            forall|k: int| 0 <= k < i ==> !path_lt(x@, #[trigger] sv[k]),
            svs_of(out@) =~= sv.take(i as int),
            insert_path(sv, x@) == sv.take(i as int) + insert_path(sv.skip(i as int), x@),
        decreases s@.len() - i,
    {
        assert(sv.skip(i as int)[0] == sv[i as int]);
        assert(sv.skip(i as int).drop_first() =~= sv.skip(i as int + 1));
        if path_less(&xv, &chars_of(s[i].as_str())) {
            let mut r = out;
            let ghost before = svs_of(r@);
            r.push(x);
            let mut j = i;
            while j < s.len()
                invariant
                    i <= j <= s@.len(),
                    sv == svs_of(s@),
                    svs_of(r@) =~= before.push(x@) + sv.subrange(i as int, j as int),
                decreases s@.len() - j,
            {
                let ghost b2 = svs_of(r@);
                r.push(copy_string(s[j].as_str()));
                assert(svs_of(r@) =~= b2.push(sv[j as int]));
                j += 1;
            }
            assert(insert_path(sv.skip(i as int), x@) =~= seq![x@] + sv.skip(i as int));
            assert(sv.subrange(i as int, s@.len() as int) =~= sv.skip(i as int));
            assert(svs_of(r@) =~= insert_path(sv, x@));
            return r;
        }
        let ghost b3 = svs_of(out@);
        out.push(copy_string(s[i].as_str()));
        assert(svs_of(out@) =~= b3.push(sv[i as int]));
        assert(sv.take(i as int + 1) =~= sv.take(i as int).push(sv[i as int]));
        assert(sv.take(i as int) + insert_path(sv.skip(i as int), x@) =~= sv.take(i as int + 1) + insert_path(
            sv.skip(i as int + 1),
            x@,
        ));
        i += 1;
    }
    assert(sv.skip(s@.len() as int) =~= Seq::<Seq<char>>::empty());
    let ghost b4 = svs_of(out@);
    out.push(x);
    assert(svs_of(out@) =~= b4.push(x@));
    assert(sv.take(s@.len() as int) =~= sv);
    out
}

/// Sort paths (see `sort_paths`).
pub fn sort_path_list(h: &Vec<String>) -> (r: Vec<String>)
    ensures
        svs_of(r@) == sort_paths(svs_of(h@)),
{
    let ghost hv = svs_of(h@);
    let mut out: Vec<String> = Vec::new();
    let mut i: usize = 0;
    while i < h.len()
        invariant
            0 <= i <= h@.len(),
            hv == svs_of(h@),
            svs_of(out@) == sort_paths(hv.take(i as int)),
        decreases h@.len() - i,
    {
        assert(hv.take(i as int + 1).drop_last() =~= hv.take(i as int));
        assert(hv.take(i as int + 1).last() == h@[i as int]@);
        out = insert_sorted(out, copy_string(h[i].as_str()));
        i += 1;
    }
    assert(hv.take(h@.len() as int) =~= hv);
    out
}

/// No later path sorts strictly before an earlier one.
pub open spec fn paths_sorted(s: Seq<Seq<char>>) -> bool {
    forall|i: int, j: int| 0 <= i < j < s.len() ==> !path_lt(#[trigger] s[j], #[trigger] s[i])
}

proof fn lemma_path_lt_trans(a: Seq<char>, b: Seq<char>, c: Seq<char>)
    requires
        path_lt(a, b),
        path_lt(b, c),
    ensures
        path_lt(a, c),
    decreases a.len(),
{
    if a.len() > 0 && a[0] == b[0] && b[0] == c[0] {
        lemma_path_lt_trans(a.drop_first(), b.drop_first(), c.drop_first());
    }
}

proof fn lemma_path_lt_irreflexive(a: Seq<char>)
    ensures
        !path_lt(a, a),
    decreases a.len(),
{
    if a.len() > 0 {
        lemma_path_lt_irreflexive(a.drop_first());
    }
}

/// Where `insert_path` puts the new path: after every path it does not sort
/// before, and before the first one it does.
proof fn lemma_insert_path_at(s: Seq<Seq<char>>, x: Seq<char>) -> (k: int)
    ensures
        0 <= k <= s.len(),
        insert_path(s, x) == s.insert(k, x),
        forall|i: int| 0 <= i < k ==> !path_lt(x, #[trigger] s[i]),
        k < s.len() ==> path_lt(x, s[k]),
    decreases s.len(),
{
    if s.len() == 0 {
        assert(insert_path(s, x) =~= s.insert(0, x));
        0
    } else if path_lt(x, s[0]) {
        assert(insert_path(s, x) =~= s.insert(0, x));
        0
    } else {
        let k0 = lemma_insert_path_at(s.drop_first(), x);
        assert(insert_path(s, x) =~= s.insert(k0 + 1, x));
        assert forall|i: int| 0 <= i < k0 + 1 implies !path_lt(x, #[trigger] s[i]) by {
            if i > 0 {
                assert(s[i] == s.drop_first()[i - 1]);
            }
        }
        k0 + 1
    }
}

/// Sorting a list of paths keeps exactly the paths it was given, each as
/// often as it occurred, and puts them in order: no path comes after one that
/// it sorts before.
pub proof fn law_sorted_paths_keep_all_in_order(h: Seq<Seq<char>>)
    ensures
        sort_paths(h).to_multiset() == h.to_multiset(),
        paths_sorted(sort_paths(h)),
    decreases h.len(),
{
    broadcast use vstd::seq_lib::group_to_multiset_ensures;

    if h.len() > 0 {
        let rest = h.drop_last();
        law_sorted_paths_keep_all_in_order(rest);
        let s = sort_paths(rest);
        let x = h.last();
        let k = lemma_insert_path_at(s, x);
        let r = s.insert(k, x);
        assert(h =~= rest.push(x));
        assert(r.to_multiset() == s.to_multiset().insert(x));
        assert forall|i: int, j: int| 0 <= i < j < r.len() implies !path_lt(
            #[trigger] r[j],
            #[trigger] r[i],
        ) by {
            if j < k {
                assert(r[i] == s[i] && r[j] == s[j]);
            } else if j == k {
                assert(r[i] == s[i]);
            } else if i < k {
                assert(r[i] == s[i] && r[j] == s[j - 1]);
            } else if i == k {
                assert(r[j] == s[j - 1]);
                if path_lt(s[j - 1], x) {
                    lemma_path_lt_trans(s[j - 1], x, s[k]);
                    if j - 1 == k {
                        lemma_path_lt_irreflexive(s[k]);
                    }
                }
            } else {
                assert(r[i] == s[i - 1] && r[j] == s[j - 1]);
            }
        }
    }
}

/// Relative paths joined onto a base.
pub open spec fn joined(base: Seq<char>, ps: Seq<Seq<char>>) -> Seq<Seq<char>> {
    ps.map_values(|p: Seq<char>| path_join(base, p))
}

/// The first of the listed files that does not exist.
pub open spec fn first_missing(files: Seq<Seq<char>>, present: Seq<bool>, i: int) -> Option<int>
    decreases files.len() - i,
{
    if i < 0 || i >= files.len() {
        None
    } else if i >= present.len() || !present[i] {
        Some(i)
    } else {
        first_missing(files, present, i + 1)
    }
}

/// The glob's part of the chapter files: its matches sorted, nothing without a
/// glob, or the error for a bad glob or one that matches nothing.
pub open spec fn glob_part(c: Content, glob_hits: Option<Result<Seq<Seq<char>>, Seq<char>>>) -> Result<
    Seq<Seq<char>>,
    Seq<char>,
> {
    match c.glob {
        None => Ok(Seq::<Seq<char>>::empty()),
        Some(g) => match glob_hits {
            None => Err("bad glob "@ + g@),
            Some(Err(_)) => Err("bad glob "@ + g@),
            Some(Ok(h)) => if h.len() == 0 {
                Err("content glob matched no files: "@ + g@)
            } else {
                Ok(sort_paths(h))
            },
        },
    }
}

/// A book's chapter files for one language, in order: the front matter, the
/// glob's matches sorted, the listed files, the back matter; each joined onto
/// the book directory. `glob_hits` is what expanding the glob (joined onto the
/// book directory) found, or the error it gave; `present` says, file by file,
/// whether each listed file exists. A glob that matches nothing and a listed
/// file that does not exist are errors.
pub open spec fn spec_resolve(
    c: Content,
    base: Seq<char>,
    glob_hits: Option<Result<Seq<Seq<char>>, Seq<char>>>,
    present: Seq<bool>,
) -> Result<Seq<Seq<char>>, Seq<char>> {
    let files = svs_of(c.files@);
    match glob_part(c, glob_hits) {
        Err(m) => Err(m),
        Ok(hits) => match first_missing(files, present, 0) {
            Some(k) => Err("content file not found: "@ + path_join(base, files[k])),
            None => Ok(joined(base, svs_of(c.prepend@)) + hits + joined(base, files) + joined(
                base,
                svs_of(c.append@),
            )),
        },
    }
}

/// Strings as plain values.
pub open spec fn svs_of(v: Seq<String>) -> Seq<Seq<char>> {
    v.map_values(|s: String| s@)
}

fn join_all(out: &mut Vec<String>, base: &str, ps: &Vec<String>)
    ensures
        svs_of(final(out)@) == svs_of(old(out)@) + joined(base@, svs_of(ps@)),
{
    let ghost o0 = svs_of(out@);
    let mut i: usize = 0;
    while i < ps.len()
        invariant
            0 <= i <= ps@.len(),
            svs_of(out@) =~= o0 + joined(base@, svs_of(ps@)).take(i as int),
        decreases ps@.len() - i,
    {
        let ghost b = svs_of(out@);
        out.push(crate::paths::join_path(base, ps[i].as_str()));
        assert(svs_of(out@) =~= b.push(path_join(base@, ps@[i as int]@)));
        i += 1;
    }
    assert(joined(base@, svs_of(ps@)).take(ps@.len() as int) =~= joined(base@, svs_of(ps@)));
}

/// A glob expansion as plain values.
pub open spec fn glob_result(g: Option<Result<Vec<String>, String>>) -> Option<Result<Seq<Seq<char>>, Seq<char>>> {
    match g {
        None => None,
        Some(Ok(h)) => Some(Ok(svs_of(h@))),
        Some(Err(m)) => Some(Err(m@)),
    }
}

impl Content {
    /// Resolve to the ordered chapter files (see `spec_resolve`). The glob
    /// expansion and the existence of the listed files are looked up by the
    /// caller and handed in.
    pub fn resolve(&self, base: &str, glob_hits: &Option<Result<Vec<String>, String>>, present: &Vec<bool>) -> (r:
        Result<Vec<String>, String>)
        ensures
            match r {
                Ok(v) => spec_resolve(*self, base@, glob_result(*glob_hits), present@) == Ok::<
                    Seq<Seq<char>>,
                    Seq<char>,
                >(svs_of(v@)),
                Err(m) => spec_resolve(*self, base@, glob_result(*glob_hits), present@) == Err::<
                    Seq<Seq<char>>,
                    Seq<char>,
                >(m@),
            },
    {
        let hits: Vec<String> = match &self.glob {
            None => Vec::new(),
            Some(g) => match glob_hits {
                Some(Ok(h)) => {
                    if h.len() == 0 {
                        let mut m = chars_of("content glob matched no files: ");
                        push_str(&mut m, g.as_str());
                        return Err(string_of(&m));
                    }
                    sort_path_list(h)
                },
                _ => {
                    let mut m = chars_of("bad glob ");
                    push_str(&mut m, g.as_str());
                    return Err(string_of(&m));
                },
            },
        };
        let ghost files = svs_of(self.files@);
        let ghost gp = glob_part(*self, glob_result(*glob_hits));
        proof {
            if self.glob is None {
                assert(svs_of(hits@) =~= Seq::<Seq<char>>::empty());
            }
        }
        assert(gp == Ok::<Seq<Seq<char>>, Seq<char>>(svs_of(hits@)));
        let mut k: usize = 0;
        while k < self.files.len()
            invariant
                gp == glob_part(*self, glob_result(*glob_hits)),
                gp == Ok::<Seq<Seq<char>>, Seq<char>>(svs_of(hits@)),
                0 <= k <= self.files@.len(),
                files == svs_of(self.files@),
                first_missing(files, present@, 0) == first_missing(files, present@, k as int),
            decreases self.files@.len() - k,
        {
            if k >= present.len() || !present[k] {
                assert(first_missing(files, present@, k as int) == Some(k as int));
                assert(files[k as int] == self.files@[k as int]@);
                let mut m = chars_of("content file not found: ");
                let p = crate::paths::join_path(base, self.files[k].as_str());
                push_str(&mut m, p.as_str());
                return Err(string_of(&m));
            }
            k += 1;
        }
        let mut out: Vec<String> = Vec::new();
        join_all(&mut out, base, &self.prepend);
        let ghost o1 = svs_of(out@);
        let mut i: usize = 0;
        while i < hits.len()
            invariant
                0 <= i <= hits@.len(),
                svs_of(out@) =~= o1 + svs_of(hits@).take(i as int),
            decreases hits@.len() - i,
        {
            let ghost b = svs_of(out@);
            out.push(copy_string(hits[i].as_str()));
            assert(svs_of(out@) =~= b.push(hits@[i as int]@));
            i += 1;
        }
        assert(svs_of(hits@).take(hits@.len() as int) =~= svs_of(hits@));
        join_all(&mut out, base, &self.files);
        join_all(&mut out, base, &self.append);
        proof {
            reveal_strlit("bad glob ");
        }
        Ok(out)
    }
}
} // verus!
