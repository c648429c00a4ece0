//! The documents a build leaves beside a book's outputs: the combined
//! manuscript, the free sample's title and closing note, and the per-book
//! README (title, author, series, per-language counts, listing, status and the
//! files built).
use vstd::prelude::*;
use crate::config::{spec_ribbon, Listing, Status};
use crate::epub::BookMeta;
use crate::pages::PageCount;
use crate::paths::opt_view;
use crate::text::{
    chars_of, copy_string, dec, eq_chars, dec_chars, eq_str, join, join_vecs, lines, lines_of, push_slice, push_str,
    string_of, trim, trim_end, trimmed, trimmed_end, views,
};
use crate::typst::{spec_ty_str, svs, ty_str_of, vecs_of};

verus! {

/// A YAML double-quoted scalar (backslashes and quotes escaped).
pub open spec fn spec_yaml_str(s: Seq<char>) -> Seq<char> {
    spec_ty_str(s)
}

/// Quote and escape a string as a YAML scalar.
pub fn yaml_str(s: &str) -> (r: String)
    ensures
        r@ == spec_yaml_str(s@),
{
    string_of(&ty_str_of(&chars_of(s)))
}

/// A language's heading in the README.
pub open spec fn spec_lang_name(lang: Seq<char>) -> Seq<char> {
    if lang == "es"@ {
        "Español (es)"@
    } else if lang == "en"@ {
        "English (en)"@
    } else {
        lang
    }
}

/// The README heading of a language.
pub fn lang_name(lang: &str) -> (r: String)
    ensures
        r@ == spec_lang_name(lang@),
{
    let l = chars_of(lang);
    if eq_str(&l, "es") {
        string_of(&chars_of("Español (es)"))
    } else if eq_str(&l, "en") {
        string_of(&chars_of("English (en)"))
    } else {
        string_of(&l)
    }
}

/// Decimal digits with a comma before each group of three from the right,
/// for the first `k` digits of `d`.
pub open spec fn grouped(d: Seq<char>, k: int) -> Seq<char>
    decreases k,
{
    if k <= 0 || k > d.len() {
        seq![]
    } else {
        grouped(d, k - 1) + if k - 1 > 0 && (d.len() - (k - 1)) % 3 == 0 {
            seq![',', d[k - 1]]
        } else {
            seq![d[k - 1]]
        }
    }
}

/// `n` with thousands separators: `49596` → `49,596`.
pub open spec fn spec_thousands(n: nat) -> Seq<char> {
    grouped(dec(n), dec(n).len() as int)
}

/// A number with thousands separators.
pub fn thousands(n: usize) -> (r: String)
    ensures
        r@ == spec_thousands(n as nat),
{
    let d = dec_chars(n);
    let mut out: Vec<char> = Vec::new();
    let mut i: usize = 0;
    while i < d.len()
        invariant
            0 <= i <= d@.len(),
            d@ == dec(n as nat),
            out@ == grouped(d@, i as int),
        decreases d@.len() - i,
    {
        if i > 0 && (d.len() - i) % 3 == 0 {
            out.push(',');
        }
        out.push(d[i]);
        i += 1;
    }
    string_of(&out)
}

/// How a page count reads in the README.
pub open spec fn spec_page_str(p: PageCount) -> Seq<char> {
    match p {
        PageCount::Exact(n) => dec(n as nat),
        PageCount::Estimate(n) => "~"@ + dec(n as nat) + " (estimate)"@,
        PageCount::Unknown => "— (print interior not built)"@,
    }
}

/// A page count as README text.
pub fn page_str(p: PageCount) -> (r: String)
    ensures
        r@ == spec_page_str(p),
{
    match p {
        PageCount::Exact(n) => string_of(&dec_chars(n as usize)),
        PageCount::Estimate(n) => {
            let mut v: Vec<char> = Vec::new();
            push_str(&mut v, "~");
            push_slice(&mut v, &dec_chars(n as usize));
            push_str(&mut v, " (estimate)");
            string_of(&v)
        },
        PageCount::Unknown => string_of(&chars_of("— (print interior not built)")),
    }
}

/// `key=value` for a channel that holds a status.
pub open spec fn status_part(k: Seq<char>, v: Option<String>) -> Seq<Seq<char>> {
    match v {
        Some(x) => seq![k + "="@ + x@],
        None => seq![],
    }
}

/// The status line: the ribbon, with the recorded channels in brackets.
pub open spec fn spec_status_line(st: Status) -> Seq<char> {
    let parts = status_part("overall"@, st.overall) + status_part("kdp_paperback"@, st.kdp_paperback)
        + status_part("kdp_kindle"@, st.kdp_kindle) + status_part("kdp_hardcover"@, st.kdp_hardcover);
    if parts.len() == 0 {
        spec_ribbon(st)
    } else {
        spec_ribbon(st) + " ("@ + join(parts, ", "@) + ")"@
    }
}

fn status_part_into(parts: &mut Vec<Vec<char>>, k: &str, v: &Option<String>)
    ensures
        views(final(parts)@) == views(old(parts)@) + status_part(k@, *v),
{
    let ghost p0 = views(parts@);
    match v {
        Some(x) => {
            let mut s: Vec<char> = Vec::new();
            push_str(&mut s, k);
            push_str(&mut s, "=");
            push_str(&mut s, x.as_str());
            parts.push(s);
        },
        None => {},
    }
    assert(views(parts@) =~= p0 + status_part(k@, *v));
}

/// The README status line of a book.
pub fn status_line(st: &Status) -> (r: String)
    ensures
        r@ == spec_status_line(*st),
{
    let mut parts: Vec<Vec<char>> = Vec::new();
    status_part_into(&mut parts, "overall", &st.overall);
    status_part_into(&mut parts, "kdp_paperback", &st.kdp_paperback);
    status_part_into(&mut parts, "kdp_kindle", &st.kdp_kindle);
    status_part_into(&mut parts, "kdp_hardcover", &st.kdp_hardcover);
    let ribbon = st.ribbon();
    if parts.len() == 0 {
        string_of(&chars_of(ribbon))
    } else {
        let mut s: Vec<char> = Vec::new();
        push_str(&mut s, ribbon);
        push_str(&mut s, " (");
        push_slice(&mut s, &join_vecs(&parts, ", "));
        push_str(&mut s, ")");
        string_of(&s)
    }
}

// ---------------------------------------------------------------------------
// Manuscript and sample
// ---------------------------------------------------------------------------

/// The chapters of the manuscript: each trimmed at the end and ended by a
/// newline, separated by a blank line.
pub open spec fn chapters_text(bodies: Seq<Seq<char>>) -> Seq<char>
    decreases bodies.len(),
{
    if bodies.len() == 0 {
        seq![]
    } else {
        chapters_text(bodies.drop_last()) + (if bodies.len() > 1 {
            "\n\n"@
        } else {
            seq![]
        }) + trim_end(bodies.last()) + "\n"@
    }
}

/// The combined manuscript of a language: YAML front matter, the title (and
/// subtitle), then every chapter.
pub open spec fn spec_manuscript(
    title: Seq<char>,
    subtitle: Option<Seq<char>>,
    author: Seq<char>,
    rights: Seq<char>,
    lang: Seq<char>,
    bodies: Seq<Seq<char>>,
) -> Seq<char> {
    "---\n"@ + "title: "@ + spec_yaml_str(title) + "\n"@ + (match subtitle {
        Some(s) => "subtitle: "@ + spec_yaml_str(s) + "\n"@,
        None => seq![],
    }) + "author: "@ + spec_yaml_str(author) + "\n"@ + "language: "@ + lang + "\n"@ + "rights: "@
        + spec_yaml_str(rights) + "\n"@ + "---\n\n"@ + "# "@ + title + "\n\n"@ + (match subtitle {
        Some(s) => "*"@ + s + "*\n\n"@,
        None => seq![],
    }) + chapters_text(bodies)
}

/// The combined markdown manuscript of a book in one language, from the
/// chapters' texts in order.
pub fn manuscript(meta: &BookMeta, lang: &str, bodies: &Vec<String>) -> (r: String)
    ensures
        r@ == spec_manuscript(
            meta.title@,
            opt_view(meta.subtitle),
            meta.author@,
            meta.rights@,
            lang@,
            svs(bodies@),
        ),
{
    let mut s: Vec<char> = Vec::new();
    push_str(&mut s, "---\n");
    push_str(&mut s, "title: ");
    push_slice(&mut s, &ty_str_of(&chars_of(meta.title.as_str())));
    push_str(&mut s, "\n");
    match &meta.subtitle {
        Some(sub) => {
            push_str(&mut s, "subtitle: ");
            push_slice(&mut s, &ty_str_of(&chars_of(sub.as_str())));
            push_str(&mut s, "\n");
        },
        None => {},
    }
    push_str(&mut s, "author: ");
    push_slice(&mut s, &ty_str_of(&chars_of(meta.author.as_str())));
    push_str(&mut s, "\n");
    push_str(&mut s, "language: ");
    push_str(&mut s, lang);
    push_str(&mut s, "\n");
    push_str(&mut s, "rights: ");
    push_slice(&mut s, &ty_str_of(&chars_of(meta.rights.as_str())));
    push_str(&mut s, "\n");
    push_str(&mut s, "---\n\n");
    push_str(&mut s, "# ");
    push_str(&mut s, meta.title.as_str());
    push_str(&mut s, "\n\n");
    match &meta.subtitle {
        Some(sub) => {
            push_str(&mut s, "*");
            push_str(&mut s, sub.as_str());
            push_str(&mut s, "*\n\n");
        },
        None => {},
    }
    let ghost s0 = s@;
    let ghost B = svs(bodies@);
    let mut i: usize = 0;
    while i < bodies.len()
        invariant
            0 <= i <= bodies@.len(),
            B == svs(bodies@),
            s@ == s0 + chapters_text(B.take(i as int)),
        decreases bodies@.len() - i,
    {
        assert(B.take(i as int + 1).drop_last() =~= B.take(i as int));
        assert(B[i as int] == bodies@[i as int]@);
        let ghost before = s@;
        if i > 0 {
            push_str(&mut s, "\n\n");
        }
        push_slice(&mut s, &trimmed_end(&chars_of(bodies[i].as_str())));
        push_str(&mut s, "\n");
        assert(s@ =~= before + ((if i + 1 > 1 {
            "\n\n"@
        } else {
            seq![]
        }) + trim_end(B[i as int]) + "\n"@));
        i += 1;
    }
    assert(B.take(bodies@.len() as int) =~= B);
    assert(s@ =~= spec_manuscript(
        meta.title@,
        opt_view(meta.subtitle),
        meta.author@,
        meta.rights@,
        lang@,
        B,
    ));
    string_of(&s)
}

/// The sample's closing note, thanking the reader for the sample of `title`.
pub open spec fn spec_sample_note(lang: Seq<char>, title: Seq<char>) -> Seq<char> {
    if lang == "es"@ {
        "# Fin de la muestra\n\nGracias por leer esta muestra de *"@ + title
            + "*. El libro completo está disponible en tu tienda.\n"@
    } else {
        "# End of the sample\n\nThank you for reading this sample of *"@ + title
            + "*. The complete book is available at your store.\n"@
    }
}

/// The localized "end of the sample" note appended to a free sample.
pub fn sample_note(lang: &str, title: &str) -> (r: String)
    ensures
        r@ == spec_sample_note(lang@, title@),
{
    let mut v: Vec<char> = Vec::new();
    if eq_str(&chars_of(lang), "es") {
        push_str(&mut v, "# Fin de la muestra\n\nGracias por leer esta muestra de *");
        push_str(&mut v, title);
        push_str(&mut v, "*. El libro completo está disponible en tu tienda.\n");
    } else {
        push_str(&mut v, "# End of the sample\n\nThank you for reading this sample of *");
        push_str(&mut v, title);
        push_str(&mut v, "*. The complete book is available at your store.\n");
    }
    string_of(&v)
}

/// The title a free sample carries: the book's, marked as a sample.
pub open spec fn spec_sample_title(lang: Seq<char>, title: Seq<char>) -> Seq<char> {
    title + " ("@ + (if lang == "es"@ {
        "Muestra"@
    } else {
        "Sample"@
    }) + ")"@
}

/// The title of the free sample, so a reader's library shows it is a preview.
pub fn sample_title(lang: &str, title: &str) -> (r: String)
    ensures
        r@ == spec_sample_title(lang@, title@),
{
    let mut v: Vec<char> = Vec::new();
    push_str(&mut v, title);
    push_str(&mut v, " (");
    if eq_str(&chars_of(lang), "es") {
        push_str(&mut v, "Muestra");
    } else {
        push_str(&mut v, "Sample");
    }
    push_str(&mut v, ")");
    string_of(&v)
}

// ---------------------------------------------------------------------------
// README
// ---------------------------------------------------------------------------

/// A language's counts, when its content resolved: words, chapter files, the
/// print page count, and the free sample's chapter count when samples are on.
#[derive(Debug, Clone)]
pub struct LangCounts {
    pub words: usize,
    pub chapters: usize,
    pub pages: PageCount,
    pub sample: Option<usize>,
}

/// What the README says of one of the book's languages.
#[derive(Debug, Clone)]
pub struct LangDoc {
    pub lang: String,
    pub title: Option<String>,
    pub subtitle: Option<String>,
    pub counts: Option<LangCounts>,
    pub listing: Option<Listing>,
    pub files: Vec<String>,
}

/// Everything the README of a book shows.
#[derive(Debug, Clone)]
pub struct ReadmeDoc {
    pub primary: String,
    pub slug: String,
    pub author: String,
    pub series: Option<String>,
    pub year: Option<String>,
    pub languages: Vec<String>,
    pub editions: Vec<String>,
    pub status: Status,
    pub langs: Vec<LangDoc>,
    pub asins: Vec<(String, String)>,
}

/// `pre + v + post` for a present value, nothing otherwise.
pub open spec fn opt_line(v: Option<String>, pre: Seq<char>, post: Seq<char>) -> Seq<char> {
    match v {
        Some(x) => pre + x@ + post,
        None => seq![],
    }
}

/// `pre + items joined + post` for a non-empty list, nothing otherwise.
pub open spec fn list_line(items: Seq<String>, pre: Seq<char>, post: Seq<char>) -> Seq<char> {
    if items.len() == 0 {
        seq![]
    } else {
        pre + join(svs(items), ", "@) + post
    }
}

/// The README's header: title, slug, author, series, date, languages,
/// editions and status.
pub open spec fn readme_head(d: ReadmeDoc) -> Seq<char> {
    "# "@ + d.primary@ + "\n\n"@
        + "> Auto-generated by `bookmill` on build. Describes this book and everything under `output/"@
        + d.slug@ + "/`.\n\n"@ + "- **Slug:** `"@ + d.slug@ + "`\n"@ + "- **Author:** "@ + d.author@
        + "\n"@ + opt_line(d.series, "- **Series:** "@, "\n"@) + opt_line(
        d.year,
        "- **Date:** "@,
        "\n"@,
    ) + list_line(d.languages@, "- **Languages:** "@, "\n"@) + list_line(
        d.editions@,
        "- **Editions:** "@,
        "\n"@,
    ) + "- **Status:** "@ + spec_status_line(d.status) + "\n"@ + "\n"@
}

/// A language's word, page and sample lines.
pub open spec fn counts_part(c: Option<LangCounts>) -> Seq<char> {
    match c {
        None => seq![],
        Some(c) => "- **Words:** "@ + spec_thousands(c.words as nat) + " ("@ + dec(c.chapters as nat)
            + " chapter files)\n"@ + "- **Print pages:** "@ + spec_page_str(c.pages) + "\n"@ + match c.sample {
            Some(n) => "- **Free sample:** first "@ + dec(n as nat) + " chapter file(s)\n"@,
            None => seq![],
        },
    }
}

/// The blurb's lines, each trimmed and quoted.
pub open spec fn blurb_lines(ls: Seq<Seq<char>>) -> Seq<char>
    decreases ls.len(),
{
    if ls.len() == 0 {
        seq![]
    } else {
        blurb_lines(ls.drop_last()) + "  > "@ + trim(ls.last()) + "\n"@
    }
}

/// A language's listing lines: reading age, keywords, BISAC codes, blurb.
pub open spec fn listing_part(l: Option<Listing>) -> Seq<char> {
    match l {
        None => seq![],
        Some(l) => opt_line(l.reading_age, "- **Reading age:** "@, "\n"@) + list_line(
            l.keywords@,
            "- **Keywords:** "@,
            "\n"@,
        ) + list_line(l.bisac@, "- **BISAC:** "@, "\n"@) + match l.blurb {
            Some(b) => "- **Blurb:**\n\n"@ + blurb_lines(lines(trim(b@))),
            None => seq![],
        },
    }
}

/// The built files of a language.
pub open spec fn files_lines(fs: Seq<Seq<char>>) -> Seq<char>
    decreases fs.len(),
{
    if fs.len() == 0 {
        seq![]
    } else {
        files_lines(fs.drop_last()) + "  - `"@ + fs.last() + "`\n"@
    }
}

/// The heading, title and subtitle lines of a language section.
pub open spec fn section_top(l: LangDoc, t: Seq<char>) -> Seq<char> {
    "## "@ + spec_lang_name(l.lang@) + "\n\n"@ + "- **Title:** "@ + t + "\n"@ + opt_line(
        l.subtitle,
        "- **Subtitle:** "@,
        "\n"@,
    )
}

/// The list of built files, when there are any.
pub open spec fn files_part(fs: Seq<String>) -> Seq<char> {
    if fs.len() > 0 {
        "- **Files:**\n"@ + files_lines(svs(fs))
    } else {
        seq![]
    }
}

/// The README section of a language (none when the book has no title in it).
pub open spec fn lang_section(l: LangDoc) -> Seq<char> {
    match l.title {
        None => seq![],
        Some(t) => section_top(l, t@) + counts_part(l.counts) + listing_part(l.listing) + files_part(
            l.files@,
        ) + "\n"@,
    }
}

/// All language sections, in order.
pub open spec fn lang_sections(ls: Seq<LangDoc>) -> Seq<char>
    decreases ls.len(),
{
    if ls.len() == 0 {
        seq![]
    } else {
        lang_sections(ls.drop_last()) + lang_section(ls.last())
    }
}

/// The ASIN lines.
pub open spec fn asin_lines(a: Seq<(String, String)>) -> Seq<char>
    decreases a.len(),
{
    if a.len() == 0 {
        seq![]
    } else {
        asin_lines(a.drop_last()) + "- **"@ + a.last().0@ + ":** "@ + a.last().1@ + "\n"@
    }
}

/// A book's README.
pub open spec fn spec_readme(d: ReadmeDoc) -> Seq<char> {
    readme_head(d) + lang_sections(d.langs@) + if d.asins@.len() > 0 {
        "## ASINs\n\n"@ + asin_lines(d.asins@) + "\n"@
    } else {
        seq![]
    }
}

fn opt_line_into(out: &mut Vec<char>, v: &Option<String>, pre: &str, post: &str)
    ensures
        final(out)@ == old(out)@ + opt_line(*v, pre@, post@),
{
    let ghost o0 = out@;
    match v {
        Some(x) => {
            push_str(out, pre);
            push_str(out, x.as_str());
            push_str(out, post);
        },
        None => {},
    }
    assert(out@ =~= o0 + opt_line(*v, pre@, post@));
}

fn list_line_into(out: &mut Vec<char>, items: &Vec<String>, pre: &str, post: &str)
    ensures
        final(out)@ == old(out)@ + list_line(items@, pre@, post@),
{
    let ghost o0 = out@;
    if items.len() > 0 {
        push_str(out, pre);
        push_slice(out, &join_vecs(&vecs_of(items), ", "));
        push_str(out, post);
    }
    assert(out@ =~= o0 + list_line(items@, pre@, post@));
}

fn counts_into(out: &mut Vec<char>, c: &Option<LangCounts>)
    ensures
        final(out)@ == old(out)@ + counts_part(*c),
{
    let ghost o0 = out@;
    match c {
        None => {},
        Some(c) => {
            push_str(out, "- **Words:** ");
            push_str(out, thousands(c.words).as_str());
            push_str(out, " (");
            push_slice(out, &dec_chars(c.chapters));
            push_str(out, " chapter files)\n");
            push_str(out, "- **Print pages:** ");
            push_str(out, page_str(c.pages).as_str());
            push_str(out, "\n");
            match c.sample {
                Some(n) => {
                    push_str(out, "- **Free sample:** first ");
                    push_slice(out, &dec_chars(n));
                    push_str(out, " chapter file(s)\n");
                },
                None => {},
            }
        },
    }
    assert(out@ =~= o0 + counts_part(*c));
}

fn blurb_into(out: &mut Vec<char>, b: &String)
    ensures
        final(out)@ == old(out)@ + blurb_lines(lines(trim(b@))),
{
    let ls = lines_of(&trimmed(&chars_of(b.as_str())));
    let ghost L = lines(trim(b@));
    assert(views(ls@) =~= L);
    let ghost o0 = out@;
    let mut i: usize = 0;
    while i < ls.len()
        invariant
            0 <= i <= ls@.len(),
            views(ls@) == L,
            out@ == o0 + blurb_lines(L.take(i as int)),
        decreases ls@.len() - i,
    {
        assert(L.take(i as int + 1).drop_last() =~= L.take(i as int));
        assert(L[i as int] == ls@[i as int]@);
        let ghost before = out@;
        push_str(out, "  > ");
        push_slice(out, &trimmed(&ls[i]));
        push_str(out, "\n");
        assert(out@ =~= before + ("  > "@ + trim(L[i as int]) + "\n"@));
        i += 1;
    }
    assert(L.take(ls@.len() as int) =~= L);
}

fn listing_into(out: &mut Vec<char>, l: &Option<Listing>)
    ensures
        final(out)@ == old(out)@ + listing_part(*l),
{
    let ghost o0 = out@;
    match l {
        None => {},
        Some(l) => {
            opt_line_into(out, &l.reading_age, "- **Reading age:** ", "\n");
            list_line_into(out, &l.keywords, "- **Keywords:** ", "\n");
            list_line_into(out, &l.bisac, "- **BISAC:** ", "\n");
            let ghost o1 = out@;
            match &l.blurb {
                Some(b) => {
                    push_str(out, "- **Blurb:**\n\n");
                    blurb_into(out, b);
                },
                None => {},
            }
        },
    }
    assert(out@ =~= o0 + listing_part(*l));
}

fn files_into(out: &mut Vec<char>, fs: &Vec<String>)
    ensures
        final(out)@ == old(out)@ + files_lines(svs(fs@)),
{
    let ghost o0 = out@;
    let ghost F = svs(fs@);
    let mut i: usize = 0;
    while i < fs.len()
        invariant
            0 <= i <= fs@.len(),
            F == svs(fs@),
            out@ == o0 + files_lines(F.take(i as int)),
        decreases fs@.len() - i,
    {
        assert(F.take(i as int + 1).drop_last() =~= F.take(i as int));
        assert(F[i as int] == fs@[i as int]@);
        let ghost before = out@;
        push_str(out, "  - `");
        push_str(out, fs[i].as_str());
        push_str(out, "`\n");
        assert(out@ =~= before + ("  - `"@ + F[i as int] + "`\n"@));
        i += 1;
    }
    assert(F.take(fs@.len() as int) =~= F);
}

fn section_top_into(out: &mut Vec<char>, l: &LangDoc, t: &String)
    ensures
        final(out)@ == old(out)@ + section_top(*l, t@),
{
    let ghost o0 = out@;
    push_str(out, "## ");
    push_str(out, lang_name(l.lang.as_str()).as_str());
    push_str(out, "\n\n");
    push_str(out, "- **Title:** ");
    push_str(out, t.as_str());
    push_str(out, "\n");
    opt_line_into(out, &l.subtitle, "- **Subtitle:** ", "\n");
    assert(out@ =~= o0 + section_top(*l, t@));
}

fn files_part_into(out: &mut Vec<char>, fs: &Vec<String>)
    ensures
        final(out)@ == old(out)@ + files_part(fs@),
{
    let ghost o0 = out@;
    if fs.len() > 0 {
        push_str(out, "- **Files:**\n");
        files_into(out, fs);
    }
    assert(out@ =~= o0 + files_part(fs@));
}

fn lang_section_into(out: &mut Vec<char>, l: &LangDoc)
    ensures
        final(out)@ == old(out)@ + lang_section(*l),
{
    let ghost o0 = out@;
    match &l.title {
        None => {},
        Some(t) => {
            section_top_into(out, l, t);
            counts_into(out, &l.counts);
            listing_into(out, &l.listing);
            files_part_into(out, &l.files);
            push_str(out, "\n");
        },
    }
    assert(out@ =~= o0 + lang_section(*l));
}

fn readme_head_into(out: &mut Vec<char>, d: &ReadmeDoc)
    ensures
        final(out)@ == old(out)@ + readme_head(*d),
{
    let ghost o0 = out@;
    push_str(out, "# ");
    push_str(out, d.primary.as_str());
    push_str(out, "\n\n");
    push_str(
        out,
        "> Auto-generated by `bookmill` on build. Describes this book and everything under `output/",
    );
    push_str(out, d.slug.as_str());
    push_str(out, "/`.\n\n");
    push_str(out, "- **Slug:** `");
    push_str(out, d.slug.as_str());
    push_str(out, "`\n");
    push_str(out, "- **Author:** ");
    push_str(out, d.author.as_str());
    push_str(out, "\n");
    opt_line_into(out, &d.series, "- **Series:** ", "\n");
    opt_line_into(out, &d.year, "- **Date:** ", "\n");
    list_line_into(out, &d.languages, "- **Languages:** ", "\n");
    list_line_into(out, &d.editions, "- **Editions:** ", "\n");
    push_str(out, "- **Status:** ");
    push_str(out, status_line(&d.status).as_str());
    push_str(out, "\n");
    push_str(out, "\n");
    assert(out@ =~= o0 + readme_head(*d));
}

/// Who the README names as the author: the book's author, else the
/// repository's, else the house default.
pub open spec fn spec_readme_author(book: Option<Seq<char>>, repo: Option<Seq<char>>) -> Seq<char> {
    match book {
        Some(a) => a,
        None => match repo {
            Some(a) => a,
            None => "Federico Ramallo"@,
        },
    }
}

/// The README's author line value (see [`spec_readme_author`]).
pub fn readme_author(book: &Option<String>, repo: &Option<String>) -> (r: String)
    ensures
        r@ == spec_readme_author(opt_view(*book), opt_view(*repo)),
{
    match book {
        Some(a) => copy_string(a.as_str()),
        None => match repo {
            Some(a) => copy_string(a.as_str()),
            None => copy_string("Federico Ramallo"),
        },
    }
}

/// The title in a list of (language, title) pairs for `lang`, the first one.
pub open spec fn title_for(titles: Seq<(Seq<char>, Seq<char>)>, lang: Seq<char>) -> Option<Seq<char>>
    decreases titles.len(),
{
    if titles.len() == 0 {
        None
    } else if titles[0].0 == lang {
        Some(titles[0].1)
    } else {
        title_for(titles.drop_first(), lang)
    }
}

/// The README's heading: the title in the book's first language, else its
/// first title (titles come ordered by language code), else its slug.
pub open spec fn spec_readme_primary(
    languages: Seq<Seq<char>>,
    titles: Seq<(Seq<char>, Seq<char>)>,
    slug: Seq<char>,
) -> Seq<char> {
    let first = if languages.len() > 0 {
        title_for(titles, languages[0])
    } else {
        None
    };
    match first {
        Some(t) => t,
        None => if titles.len() > 0 {
            titles[0].1
        } else {
            slug
        },
    }
}

/// Pairs of strings as plain values.
pub open spec fn pair_views(v: Seq<(String, String)>) -> Seq<(Seq<char>, Seq<char>)> {
    v.map_values(|p: (String, String)| (p.0@, p.1@))
}

/// The README's heading (see [`spec_readme_primary`]).
pub fn readme_primary(languages: &Vec<String>, titles: &Vec<(String, String)>, slug: &str) -> (r: String)
    ensures
        r@ == spec_readme_primary(svs(languages@), pair_views(titles@), slug@),
{
    let ghost tv = pair_views(titles@);
    if languages.len() > 0 {
        let first = chars_of(languages[0].as_str());
        let mut i: usize = 0;
        assert(tv.skip(0) =~= tv);
        while i < titles.len()
            invariant
                0 <= i <= titles@.len(),
                tv == pair_views(titles@),
                languages@.len() > 0,
                first@ == svs(languages@)[0],
                title_for(tv, first@) == title_for(tv.skip(i as int), first@),
            decreases titles@.len() - i,
        {
            assert(tv.skip(i as int)[0] == tv[i as int]);
            assert(tv.skip(i as int).drop_first() =~= tv.skip(i as int + 1));
            if eq_chars(&chars_of(titles[i].0.as_str()), &first) {
                return copy_string(titles[i].1.as_str());
            }
            i += 1;
        }
    }
    if titles.len() > 0 {
        copy_string(titles[0].1.as_str())
    } else {
        copy_string(slug)
    }
}

/// The README of a book.
pub fn readme_text(d: &ReadmeDoc) -> (r: String)
    ensures
        r@ == spec_readme(*d),
{
    let mut out: Vec<char> = Vec::new();
    readme_head_into(&mut out, d);
    let ghost o0 = out@;
    let ghost LS = d.langs@;
    let mut i: usize = 0;
    while i < d.langs.len()
        invariant
            0 <= i <= d.langs@.len(),
            LS == d.langs@,
            out@ == o0 + lang_sections(LS.take(i as int)),
        decreases d.langs@.len() - i,
    {
        assert(LS.take(i as int + 1).drop_last() =~= LS.take(i as int));
        lang_section_into(&mut out, &d.langs[i]);
        i += 1;
    }
    assert(LS.take(d.langs@.len() as int) =~= LS);
    let ghost o1 = out@;
    if d.asins.len() > 0 {
        push_str(&mut out, "## ASINs\n\n");
        let ghost o2 = out@;
        let ghost A = d.asins@;
        let mut j: usize = 0;
        while j < d.asins.len()
            invariant
                0 <= j <= d.asins@.len(),
                A == d.asins@,
                out@ == o2 + asin_lines(A.take(j as int)),
            decreases d.asins@.len() - j,
        {
            assert(A.take(j as int + 1).drop_last() =~= A.take(j as int));
            let ghost before = out@;
            push_str(&mut out, "- **");
            push_str(&mut out, d.asins[j].0.as_str());
            push_str(&mut out, ":** ");
            push_str(&mut out, d.asins[j].1.as_str());
            push_str(&mut out, "\n");
            assert(out@ =~= before + ("- **"@ + A[j as int].0@ + ":** "@ + A[j as int].1@ + "\n"@));
            j += 1;
        }
        assert(A.take(d.asins@.len() as int) =~= A);
        push_str(&mut out, "\n");
    }
    assert(out@ =~= spec_readme(*d));
    string_of(&out)
}

} // verus!
