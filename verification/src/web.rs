//! Request-side rules of the local web editor: path segments it accepts, the
//! recent-projects list, and where each output artifact of a book lives.
use vstd::prelude::*;
use crate::config::{debug_quoted, debug_str};
use crate::paths::{join_path, path_join};
use crate::text::{chars_of, contains, contains_str, eq_chars, eq_str, join, join_vecs, push_str, string_of, views};
use crate::typst::{svs, vecs_of};

verus! {

/// The most recent projects remembered.
pub const RECENT_CAP: usize = 15;

/// A character allowed in a path segment: ASCII letters and digits, `-`, `_`, `.`.
pub open spec fn segment_char(c: char) -> bool {
    ('a' <= c && c <= 'z') || ('A' <= c && c <= 'Z') || ('0' <= c && c <= '9') || c == '-' || c
        == '_' || c == '.'
}

/// A safe path segment: not empty, not `..`, no `..` inside, no slashes or
/// backslashes, only allowed characters.
pub open spec fn spec_safe(s: Seq<char>) -> bool {
    &&& s.len() > 0
    &&& s != ".."@
    &&& !contains(s, ".."@)
    &&& !s.contains('/')
    &&& !s.contains('\\')
    &&& forall|i: int| 0 <= i < s.len() ==> #[trigger] segment_char(s[i])
}

/// The refusal of an unsafe segment.
pub open spec fn unsafe_message(kind: Seq<char>, s: Seq<char>) -> Seq<char> {
    "invalid "@ + kind + " segment: "@ + debug_str(s)
}

/// Accept a URL path segment (`kind` names it in the refusal) or refuse it
/// (a bad request).
pub fn safe_segment(kind: &str, s: &str) -> (r: Result<(), String>)
    ensures
        r is Ok <==> spec_safe(s@),
        r matches Err(m) ==> m@ == unsafe_message(kind@, s@),
{
    let v = chars_of(s);
    let mut ok = v.len() > 0 && !eq_str(&v, "..") && !contains_str(&v, "..");
    let mut i: usize = 0;
    let mut slash = false;
    while i < v.len()
        invariant
            0 <= i <= v@.len(),
            v@ == s@,
            ok ==> forall|k: int| 0 <= k < i ==> #[trigger] segment_char(v@[k]),
            ok ==> forall|k: int| 0 <= k < i ==> v@[k] != '/' && v@[k] != '\\',
            !ok ==> !spec_safe(s@),
            ok ==> (s@.len() > 0 && s@ != ".."@ && !contains(s@, ".."@)),
        decreases v@.len() - i,
    {
        let c = v[i];
        if !(('a' <= c && c <= 'z') || ('A' <= c && c <= 'Z') || ('0' <= c && c <= '9') || c == '-'
            || c == '_' || c == '.') {
            assert(!segment_char(s@[i as int]));
            ok = false;
        }
        i += 1;
    }
    if ok {
        assert(!s@.contains('/')) by {
            if s@.contains('/') {
                let k = choose|k: int| 0 <= k < s@.len() && s@[k] == '/';
            }
        }
        assert(!s@.contains('\\')) by {
            if s@.contains('\\') {
                let k = choose|k: int| 0 <= k < s@.len() && s@[k] == '\\';
            }
        }
        Ok(())
    } else {
        let mut m: Vec<char> = Vec::new();
        push_str(&mut m, "invalid ");
        push_str(&mut m, kind);
        push_str(&mut m, " segment: ");
        push_str(&mut m, debug_quoted(s).as_str());
        Err(string_of(&m))
    }
}

/// The entries of a list other than `p`, in order.
pub open spec fn without(list: Seq<Seq<char>>, p: Seq<char>) -> Seq<Seq<char>>
    decreases list.len(),
{
    if list.len() == 0 {
        seq![]
    } else {
        without(list.drop_last(), p) + if list.last() != p {
            seq![list.last()]
        } else {
            seq![]
        }
    }
}

/// The recent-projects list after opening `p`: `p` first, its older entries
/// removed, at most [`RECENT_CAP`] kept.
pub open spec fn spec_push_recent(list: Seq<Seq<char>>, p: Seq<char>) -> Seq<Seq<char>> {
    let rest = without(list, p);
    let all = seq![p] + rest;
    if all.len() > 15 {
        all.take(15)
    } else {
        all
    }
}

/// The recent-projects list after opening the project at `p`.
pub fn push_recent(list: &Vec<String>, p: &str) -> (r: Vec<String>)
    ensures
        svs(r@) == spec_push_recent(svs(list@), p@),
{
    let pv = chars_of(p);
    let ghost L = svs(list@);
    let mut out: Vec<String> = Vec::new();
    out.push(string_of(&pv));
    let ghost first = seq![p@];
    assert(svs(out@) =~= first);
    let mut i: usize = 0;
    while i < list.len()
        invariant
            0 <= i <= list@.len(),
            pv@ == p@,
            L == svs(list@),
            svs(out@) == first + without(L.take(i as int), p@),
        decreases list@.len() - i,
    {
        assert(L.take(i as int + 1).drop_last() =~= L.take(i as int));
        assert(L[i as int] == list@[i as int]@);
        let ghost o0 = svs(out@);
        if !eq_chars(&chars_of(list[i].as_str()), &pv) {
            out.push(list[i].clone());
            assert(svs(out@) =~= o0.push(L[i as int]));
        } else {
            assert(without(L.take(i as int + 1), p@) =~= without(L.take(i as int), p@));
        }
        i += 1;
    }
    assert(L.take(list@.len() as int) =~= L);
    if out.len() > RECENT_CAP {
        let mut t: Vec<String> = Vec::new();
        let mut k: usize = 0;
        while k < RECENT_CAP
            invariant
                0 <= k <= RECENT_CAP,
                out@.len() > RECENT_CAP,
                svs(t@) == svs(out@).take(k as int),
            decreases RECENT_CAP - k,
        {
            t.push(out[k].clone());
            assert(svs(out@).take(k as int + 1) =~= svs(out@).take(k as int).push(out@[k as int]@));
            k += 1;
        }
        return t;
    }
    out
}

/// One output artifact of a book and language: its kind, label, file name and
/// the build that makes it.
#[derive(Debug, Clone)]
pub struct OutputSpec {
    pub kind: &'static str,
    pub label: &'static str,
    pub file: String,
    pub build: &'static str,
}

/// The artifacts of `<slug>-<lang>`: kind, label, file suffix and build.
pub open spec fn spec_output_specs(base: Seq<char>) -> Seq<(Seq<char>, Seq<char>, Seq<char>, Seq<char>)> {
    seq![
        ("retail-epub"@, "Retail EPUB"@, base + ".epub"@, "epub"@),
        ("kdp-epub"@, "KDP EPUB"@, base + "-kdp.epub"@, "kdp"@),
        ("retail-pdf"@, "Retail PDF"@, base + ".pdf"@, "pdf"@),
        ("kdp-pdf"@, "KDP print PDF"@, base + "-kdp.pdf"@, "print"@),
        ("wrap-cover"@, "Paperback wrap cover"@, base + "-cover-wrap-kdp.pdf"@, "cover"@),
        ("audiobook"@, "Audiobook (m4b)"@, base + ".m4b"@, "audiobook"@),
    ]
}

/// An output spec as plain values.
pub open spec fn spec_view(o: OutputSpec) -> (Seq<char>, Seq<char>, Seq<char>, Seq<char>) {
    (o.kind@, o.label@, o.file@, o.build@)
}

fn named(base: &Vec<char>, suffix: &str) -> (r: String)
    ensures
        r@ == base@ + suffix@,
{
    let mut v = base.clone();
    assert(v@ == base@);
    push_str(&mut v, suffix);
    string_of(&v)
}

/// The canonical output set of a book and language, in display order.
pub fn output_specs(slug: &str, lang: &str) -> (r: Vec<OutputSpec>)
    ensures
        r@.map_values(|o: OutputSpec| spec_view(o)) == spec_output_specs(slug@ + "-"@ + lang@),
{
    let mut base: Vec<char> = Vec::new();
    push_str(&mut base, slug);
    push_str(&mut base, "-");
    push_str(&mut base, lang);
    let mut r: Vec<OutputSpec> = Vec::new();
    r.push(OutputSpec { kind: "retail-epub", label: "Retail EPUB", file: named(&base, ".epub"), build: "epub" });
    r.push(OutputSpec { kind: "kdp-epub", label: "KDP EPUB", file: named(&base, "-kdp.epub"), build: "kdp" });
    r.push(OutputSpec { kind: "retail-pdf", label: "Retail PDF", file: named(&base, ".pdf"), build: "pdf" });
    r.push(OutputSpec { kind: "kdp-pdf", label: "KDP print PDF", file: named(&base, "-kdp.pdf"), build: "print" });
    r.push(OutputSpec {
        kind: "wrap-cover",
        label: "Paperback wrap cover",
        file: named(&base, "-cover-wrap-kdp.pdf"),
        build: "cover",
    });
    r.push(OutputSpec { kind: "audiobook", label: "Audiobook (m4b)", file: named(&base, ".m4b"), build: "audiobook" });
    assert(r@.map_values(|o: OutputSpec| spec_view(o)) =~= spec_output_specs(base@));
    r
}

/// `<root>/output/<slug>/<lang>/<file>`.
pub open spec fn spec_output_path(root: Seq<char>, slug: Seq<char>, lang: Seq<char>, file: Seq<char>) -> Seq<char> {
    path_join(path_join(path_join(path_join(root, "output"@), slug), lang), file)
}

/// The path of an output artifact inside `output/<slug>/<lang>/`.
pub fn output_path(root: &str, slug: &str, lang: &str, file: &str) -> (r: String)
    ensures
        r@ == spec_output_path(root@, slug@, lang@, file@),
{
    let a = join_path(root, "output");
    let b = join_path(a.as_str(), slug);
    let c = join_path(b.as_str(), lang);
    join_path(c.as_str(), file)
}

/// The KDP print interior of a book and language.
pub open spec fn spec_kdp_pdf_path(root: Seq<char>, slug: Seq<char>, lang: Seq<char>) -> Seq<char> {
    spec_output_path(root, slug, lang, slug + "-"@ + lang + "-kdp.pdf"@)
}

/// Where the KDP print PDF of a book and language is built.
pub fn kdp_pdf_path(root: &str, slug: &str, lang: &str) -> (r: String)
    ensures
        r@ == spec_kdp_pdf_path(root@, slug@, lang@),
{
    let mut f: Vec<char> = Vec::new();
    push_str(&mut f, slug);
    push_str(&mut f, "-");
    push_str(&mut f, lang);
    push_str(&mut f, "-kdp.pdf");
    let fs = string_of(&f);
    output_path(root, slug, lang, fs.as_str())
}

// ---------------------------------------------------------------------------
// Host guard, languages, project folders
// ---------------------------------------------------------------------------

/// The host name of a `Host` header value (trimmed): inside the brackets of an
/// IPv6 literal (`[::1]:port`), else before the last `:`, else the whole value.
pub open spec fn spec_hostname(host: Seq<char>) -> Seq<char> {
    let h = crate::text::trim(host);
    if h.len() > 0 && h[0] == '[' {
        let rest = h.skip(1);
        match crate::text::find_char(rest, ']', 0) {
            Some(i) => rest.take(i),
            None => rest,
        }
    } else {
        match crate::text::rfind_char(h, ':', h.len() as int) {
            Some(i) => h.take(i),
            None => h,
        }
    }
}

/// Is a request with this `Host` header (`None` when it has none) served? Only
/// loopback host names are, on any port; a request without the header is too.
pub open spec fn spec_host_allowed(host: Option<Seq<char>>) -> bool {
    match host {
        None => true,
        Some(h) => {
            let n = spec_hostname(h);
            n == "localhost"@ || n == "127.0.0.1"@ || n == "::1"@
        },
    }
}

/// The loopback-only guard against DNS rebinding: may a request with this
/// `Host` header value (text that is not visible ASCII reads as empty) reach the
/// editor's API?
pub fn host_allowed(host: Option<&str>) -> (r: bool)
    ensures
        r == spec_host_allowed(
            match host {
                Some(h) => Some(h@),
                None => None,
            },
        ),
{
    let h = match host {
        None => return true,
        Some(h) => crate::text::trimmed(&chars_of(h)),
    };
    let name = if h.len() > 0 && h[0] == '[' {
        let rest = crate::text::sub_vec(&h, 1, h.len());
        assert(rest@ =~= h@.skip(1));
        match crate::text::find_c(&rest, ']', 0) {
            Some(i) => {
                proof {
                    crate::text::lemma_find_char(rest@, ']', 0);
                }
                let n = crate::text::sub_vec(&rest, 0, i);
                assert(n@ =~= rest@.take(i as int));
                n
            },
            None => rest,
        }
    } else {
        match crate::text::rfind_c(&h, ':', h.len()) {
            Some(i) => {
                proof {
                    crate::text::lemma_rfind_char(h@, ':', h@.len() as int);
                }
                let n = crate::text::sub_vec(&h, 0, i);
                assert(n@ =~= h@.take(i as int));
                n
            },
            None => h,
        }
    };
    eq_str(&name, "localhost") || eq_str(&name, "127.0.0.1") || eq_str(&name, "::1")
}

/// The refusal of a language the book does not declare.
pub open spec fn unknown_lang_message(declared: Seq<Seq<char>>, lang: Seq<char>) -> Seq<char> {
    "unknown lang "@ + debug_str(lang) + " (declared: "@ + join(declared, ", "@) + ")"@
}

/// Accept a language only when it is a safe segment the book declares.
pub fn check_lang(declared: &Vec<String>, lang: &str) -> (r: Result<(), String>)
    ensures
        r is Ok <==> (spec_safe(lang@) && svs(declared@).contains(lang@)),
        r matches Err(m) ==> m@ == if !spec_safe(lang@) {
            unsafe_message("lang"@, lang@)
        } else {
            unknown_lang_message(svs(declared@), lang@)
        },
{
    match safe_segment("lang", lang) {
        Err(e) => return Err(e),
        Ok(()) => {},
    }
    let lc = chars_of(lang);
    let mut i: usize = 0;
    while i < declared.len()
        invariant
            0 <= i <= declared@.len(),
            lc@ == lang@,
            spec_safe(lang@),
            forall|k: int| 0 <= k < i ==> svs(declared@)[k] != lang@,
        decreases declared@.len() - i,
    {
        if eq_chars(&chars_of(declared[i].as_str()), &lc) {
            assert(svs(declared@)[i as int] == lang@);
            assert(svs(declared@).contains(lang@));
            return Ok(());
        }
        i += 1;
    }
    let mut m: Vec<char> = Vec::new();
    push_str(&mut m, "unknown lang ");
    push_str(&mut m, debug_quoted(lang).as_str());
    push_str(&mut m, " (declared: ");
    crate::text::push_slice(&mut m, &join_vecs(&vecs_of(declared), ", "));
    push_str(&mut m, ")");
    Err(string_of(&m))
}

/// What `str::parse::<toml::Table>` gives for a document, as plain values: the
/// table's top-level keys in its order, or the text of the parse error.
pub uninterp spec fn toml_top_level(text: Seq<char>) -> Result<Seq<Seq<char>>, Seq<char>>;

/// Parse a TOML document into a table and list its top-level keys, or give the
/// parse error's text; both are named, not described.
#[verifier::external_body]
fn toml_keys(text: &str) -> (r: Result<Vec<String>, String>)
    ensures
        match r {
            Ok(k) => toml_top_level(text@) == Ok::<Seq<Seq<char>>, Seq<char>>(svs(k@)),
            Err(e) => toml_top_level(text@) == Err::<Seq<Seq<char>>, Seq<char>>(e@),
        },
{
    match text.parse::<toml::Table>() {
        Ok(t) => Ok(t.keys().cloned().collect()),
        Err(e) => Err(e.to_string()),
    }
}

/// The verdict on a folder's `bookmill.toml` text: it must parse, and be a
/// repository configuration, not a book's (which has a top-level `slug`).
pub open spec fn spec_repo_folder(path: Seq<char>, parsed: Result<Seq<Seq<char>>, Seq<char>>) -> Result<(), Seq<char>> {
    match parsed {
        Err(e) => Err("bookmill.toml is not valid TOML: "@ + e),
        Ok(keys) => if keys.contains("slug"@) {
            Err(path + " looks like a BOOK config (has `slug`); open the repo root instead"@)
        } else {
            Ok(())
        },
    }
}

/// Check that a folder's configuration (its text read from
/// `<path>/bookmill.toml`) is a repository's.
pub fn check_repo_config(path: &str, text: &str) -> (r: Result<(), String>)
    ensures
        match r {
            Ok(()) => spec_repo_folder(path@, toml_top_level(text@)) == Ok::<(), Seq<char>>(()),
            Err(m) => spec_repo_folder(path@, toml_top_level(text@)) == Err::<(), Seq<char>>(m@),
        },
{
    let keys = match toml_keys(text) {
        Err(e) => {
            let mut m: Vec<char> = Vec::new();
            push_str(&mut m, "bookmill.toml is not valid TOML: ");
            push_str(&mut m, e.as_str());
            return Err(string_of(&m));
        },
        Ok(k) => k,
    };
    let mut i: usize = 0;
    while i < keys.len()
        invariant
            0 <= i <= keys@.len(),
            toml_top_level(text@) == Ok::<Seq<Seq<char>>, Seq<char>>(svs(keys@)),
            forall|k: int| 0 <= k < i ==> svs(keys@)[k] != "slug"@,
        decreases keys@.len() - i,
    {
        if eq_str(&chars_of(keys[i].as_str()), "slug") {
            assert(svs(keys@)[i as int] == "slug"@);
            assert(svs(keys@).contains("slug"@));
            let mut m: Vec<char> = Vec::new();
            push_str(&mut m, path);
            push_str(&mut m, " looks like a BOOK config (has `slug`); open the repo root instead");
            return Err(string_of(&m));
        }
        i += 1;
    }
    Ok(())
}

// ---------------------------------------------------------------------------
// Laws
// ---------------------------------------------------------------------------

/// `without` drops exactly the entries equal to `p`.
pub proof fn lemma_without(list: Seq<Seq<char>>, p: Seq<char>)
    ensures
        !without(list, p).contains(p),
        without(list, p).len() <= list.len(),
    decreases list.len(),
{
    if list.len() > 0 {
        lemma_without(list.drop_last(), p);
        let w = without(list.drop_last(), p);
        let t: Seq<Seq<char>> = if list.last() != p { seq![list.last()] } else { seq![] };
        assert(without(list, p) == w + t);
        if (w + t).contains(p) {
            let k = choose|k: int| 0 <= k < (w + t).len() && (w + t)[k] == p;
            if k < w.len() {
                assert(w[k] == p);
            }
        }
    }
}

/// After opening a project it is first in the recent list, listed once, and
/// the list holds at most [`RECENT_CAP`] entries.
pub proof fn law_push_recent(list: Seq<Seq<char>>, p: Seq<char>)
    ensures
        spec_push_recent(list, p).len() >= 1,
        spec_push_recent(list, p)[0] == p,
        spec_push_recent(list, p).len() <= 15,
        forall|k: int| 1 <= k < spec_push_recent(list, p).len() ==> #[trigger] spec_push_recent(list, p)[k] != p,
{
    lemma_without(list, p);
    let rest = without(list, p);
    let all = seq![p] + rest;
    assert forall|k: int| 1 <= k < all.len() implies #[trigger] all[k] != p by {
        assert(all[k] == rest[k - 1]);
        if rest[k - 1] == p {
            assert(rest.contains(p));
        }
    }
}

} // verus!
