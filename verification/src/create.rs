//! Scaffolding text for new projects and books: slug checks, humanized titles,
//! comma-separated option lists, TOML quoting, the book and repository
//! configuration files, edition presets and starter chapters.
use vstd::prelude::*;
use crate::config::debug_str;
use crate::config::debug_quoted;
use crate::text::{
    begins, chars_of, dec, eq_str, join, join_vecs, lines, push_slice, push_str, split, split_on,
    starts_with, string_of, sub_vec, trim, trimmed, views,
};
use crate::typst::{spec_ty_str, svs, ty_str_of, vecs_of};

verus! {

/// A TOML double-quoted string (backslashes and quotes escaped).
pub open spec fn spec_q(s: Seq<char>) -> Seq<char> {
    spec_ty_str(s)
}

/// TOML double-quoted string.
pub fn q(s: &str) -> (r: String)
    ensures
        r@ == spec_q(s@),
{
    string_of(&ty_str_of(&chars_of(s)))
}

/// Quoted items, comma-separated (a TOML array's inside).
pub open spec fn spec_list(items: Seq<Seq<char>>) -> Seq<char> {
    join(items.map_values(|s: Seq<char>| spec_q(s)), ", "@)
}

/// Render a list of strings as quoted TOML array items.
pub fn list(items: &Vec<String>) -> (r: String)
    ensures
        r@ == spec_list(svs(items@)),
{
    let mut qs: Vec<Vec<char>> = Vec::new();
    let mut i: usize = 0;
    while i < items.len()
        invariant
            0 <= i <= items@.len(),
            qs@.len() == i,
            forall|k: int| 0 <= k < i ==> (#[trigger] qs@[k])@ == spec_q(items@[k]@),
        decreases items@.len() - i,
    {
        qs.push(ty_str_of(&chars_of(items[i].as_str())));
        i += 1;
    }
    assert(views(qs@) =~= svs(items@).map_values(|s: Seq<char>| spec_q(s)));
    string_of(&join_vecs(&qs, ", "))
}

/// Is a slug kebab-case: lower-case ASCII letters, digits and hyphens?
pub open spec fn kebab(slug: Seq<char>) -> bool {
    forall|i: int|
        0 <= i < slug.len() ==> ('a' <= #[trigger] slug[i] && slug[i] <= 'z') || ('0' <= slug[i]
            && slug[i] <= '9') || slug[i] == '-'
}

/// A slug is accepted when it is not empty and kebab-case; otherwise the
/// error says which rule it breaks.
pub open spec fn spec_validate_slug(slug: Seq<char>) -> Result<(), Seq<char>> {
    if slug.len() == 0 {
        Err("slug cannot be empty"@)
    } else if !kebab(slug) {
        Err("slug "@ + debug_str(slug) + " must be kebab-case (lowercase letters, digits, hyphens)"@)
    } else {
        Ok(())
    }
}

/// Check a book slug.
pub fn validate_slug(slug: &str) -> (r: Result<(), String>)
    ensures
        match r {
            Ok(()) => spec_validate_slug(slug@) == Ok::<(), Seq<char>>(()),
            Err(m) => spec_validate_slug(slug@) == Err::<(), Seq<char>>(m@),
        },
{
    let v = chars_of(slug);
    if v.len() == 0 {
        return Err(string_of(&chars_of("slug cannot be empty")));
    }
    let mut i: usize = 0;
    while i < v.len()
        invariant
            0 <= i <= v@.len(),
            v@ == slug@,
            forall|k: int|
                0 <= k < i ==> ('a' <= #[trigger] v@[k] && v@[k] <= 'z') || ('0' <= v@[k] && v@[k]
                    <= '9') || v@[k] == '-',
        decreases v@.len() - i,
    {
        let c = v[i];
        if !(('a' <= c && c <= 'z') || ('0' <= c && c <= '9') || c == '-') {
            let mut m: Vec<char> = Vec::new();
            push_str(&mut m, "slug ");
            push_str(&mut m, debug_quoted(slug).as_str());
            push_str(&mut m, " must be kebab-case (lowercase letters, digits, hyphens)");
            return Err(string_of(&m));
        }
        i += 1;
    }
    Ok(())
}

/// What `char::to_uppercase` gives for a character (one or more characters).
pub uninterp spec fn char_upper(c: char) -> Seq<char>;

/// `char::to_uppercase`, collected; the result is named, not described.
#[verifier::external_body]
fn upper_of(c: char) -> (r: String)
    ensures
        r@ == char_upper(c),
{
    c.to_uppercase().collect::<String>()
}

/// A word with its first character upper-cased.
pub open spec fn capitalized(w: Seq<char>) -> Seq<char> {
    if w.len() == 0 {
        seq![]
    } else {
        char_upper(w[0]) + w.skip(1)
    }
}

/// The non-empty pieces of a split.
pub open spec fn nonempty(parts: Seq<Seq<char>>) -> Seq<Seq<char>>
    decreases parts.len(),
{
    if parts.len() == 0 {
        seq![]
    } else {
        nonempty(parts.drop_last()) + if parts.last().len() > 0 {
            seq![parts.last()]
        } else {
            seq![]
        }
    }
}

/// `no-hay-plata` → `No Hay Plata`: the hyphen-separated words, capitalized,
/// joined by spaces.
pub open spec fn spec_humanize(slug: Seq<char>) -> Seq<char> {
    join(nonempty(split(slug, '-')).map_values(|w: Seq<char>| capitalized(w)), " "@)
}

/// Title-case a slug: `no-hay-plata` → `No Hay Plata`.
pub fn humanize(slug: &str) -> (r: String)
    ensures
        r@ == spec_humanize(slug@),
{
    let parts = split_on(&chars_of(slug), '-');
    let ghost P = views(parts@);
    let mut words: Vec<Vec<char>> = Vec::new();
    let mut i: usize = 0;
    while i < parts.len()
        invariant
            0 <= i <= parts@.len(),
            P == views(parts@),
            views(words@) == nonempty(P.take(i as int)).map_values(|w: Seq<char>| capitalized(w)),
        decreases parts@.len() - i,
    {
        assert(P.take(i as int + 1).drop_last() =~= P.take(i as int));
        assert(P[i as int] == parts@[i as int]@);
        let w = &parts[i];
        let ghost w0 = views(words@);
        if w.len() > 0 {
            let mut c: Vec<char> = Vec::new();
            push_str(&mut c, upper_of(w[0]).as_str());
            push_slice(&mut c, &sub_vec(w, 1, w.len()));
            assert(c@ =~= capitalized(w@));
            words.push(c);
            assert(views(words@) =~= w0.push(capitalized(w@)));
            assert(nonempty(P.take(i as int + 1)).map_values(|w: Seq<char>| capitalized(w))
                =~= nonempty(P.take(i as int)).map_values(|w: Seq<char>| capitalized(w)).push(
                capitalized(w@),
            ));
        } else {
            assert(nonempty(P.take(i as int + 1)) =~= nonempty(P.take(i as int)));
        }
        i += 1;
    }
    assert(P.take(parts@.len() as int) =~= P);
    assert(P =~= split(slug@, '-'));
    string_of(&join_vecs(&words, " "))
}

/// The trimmed, non-empty comma-separated pieces of one entry.
pub open spec fn entry_items(s: Seq<char>) -> Seq<Seq<char>> {
    nonempty(split(s, ',').map_values(|p: Seq<char>| trim(p)))
}

/// The pieces of all entries, in order.
pub open spec fn spec_split_commas(items: Seq<Seq<char>>) -> Seq<Seq<char>>
    decreases items.len(),
{
    if items.len() == 0 {
        seq![]
    } else {
        spec_split_commas(items.drop_last()) + entry_items(items.last())
    }
}

/// Split possibly comma-joined entries into one flat, trimmed list.
pub fn split_commas(items: &Vec<String>) -> (r: Vec<String>)
    ensures
        svs(r@) == spec_split_commas(svs(items@)),
{
    let mut out: Vec<String> = Vec::new();
    let mut i: usize = 0;
    while i < items.len()
        invariant
            0 <= i <= items@.len(),
            svs(out@) == spec_split_commas(svs(items@).take(i as int)),
        decreases items@.len() - i,
    {
        assert(svs(items@).take(i as int + 1).drop_last() =~= svs(items@).take(i as int));
        let parts = split_on(&chars_of(items[i].as_str()), ',');
        let ghost P = views(parts@);
        let ghost T = P.map_values(|p: Seq<char>| trim(p));
        let ghost o0 = svs(out@);
        let mut j: usize = 0;
        while j < parts.len()
            invariant
                0 <= j <= parts@.len(),
                P == views(parts@),
                T == P.map_values(|p: Seq<char>| trim(p)),
                svs(out@) == o0 + nonempty(T.take(j as int)),
            decreases parts@.len() - j,
        {
            assert(T.take(j as int + 1).drop_last() =~= T.take(j as int));
            assert(T[j as int] == trim(parts@[j as int]@));
            let t = trimmed(&parts[j]);
            let ghost b = svs(out@);
            if t.len() > 0 {
                out.push(string_of(&t));
                assert(svs(out@) =~= b.push(t@));
                assert(svs(out@) =~= o0 + nonempty(T.take(j as int + 1)));
            } else {
                assert(nonempty(T.take(j as int + 1)) =~= nonempty(T.take(j as int)));
            }
            j += 1;
        }
        assert(T.take(parts@.len() as int) =~= T);
        assert(P =~= split(items@[i as int]@, ','));
        assert(svs(out@) =~= o0 + entry_items(items@[i as int]@));
        i += 1;
    }
    assert(svs(items@).take(items@.len() as int) =~= svs(items@));
    out
}

/// The starter chapter of a new book in a language.
pub open spec fn spec_starter_chapter(lang: Seq<char>) -> Seq<char> {
    if lang == "es"@ {
        "# Primer capítulo\n\nEscribe aquí tu primer capítulo.\n"@
    } else {
        "# First chapter\n\nWrite your first chapter here.\n"@
    }
}

/// The starter chapter of a new book.
pub fn starter_chapter(lang: &str) -> (r: String)
    ensures
        r@ == spec_starter_chapter(lang@),
{
    if eq_str(&chars_of(lang), "es") {
        string_of(&chars_of("# Primer capítulo\n\nEscribe aquí tu primer capítulo.\n"))
    } else {
        string_of(&chars_of("# First chapter\n\nWrite your first chapter here.\n"))
    }
}

/// One `[editions.<name>]` block: a preset for the known channels, else a
/// minimal block whose target is `bubok` for Bubok names and the name itself
/// otherwise.
pub open spec fn spec_edition_block(name: Seq<char>) -> Seq<char> {
    if name == "kdp-paperback"@ {
        "[editions.kdp-paperback]\ntarget = \"kdp-paperback\"\nmarket = \"US\"\npaper  = \"white\"\nink    = \"black\"\nfinish = \"matte\"\nisbn   = \"free\"   # KDP-assigned (non-portable)\n\n"@
    } else if name == "kdp-epub"@ {
        "[editions.kdp-epub]\ntarget        = \"kdp-epub\"\nmarket        = \"US\"\nepub_image_px = 1000   # lower-res images = smaller Kindle delivery\n\n"@
    } else if name == "kdp-hardcover"@ {
        "[editions.kdp-hardcover]\ntarget = \"kdp-hardcover\"\nmarket = \"US\"\npaper  = \"white\"\nink    = \"black\"\nfinish = \"matte\"   # needs >=75 pages\n\n"@
    } else if name == "gumroad"@ {
        "[editions.gumroad]\ntarget = \"gumroad\"\nmarket = \"WW\"   # worldwide digital\n\n"@
    } else {
        let target = if starts_with(name, "bubok"@) {
            "bubok"@
        } else {
            name
        };
        "[editions."@ + name + "]\ntarget = "@ + spec_q(target) + "\nmarket = \"US\"\n\n"@
    }
}

/// One `[editions.<name>]` block of a new repository configuration.
pub fn edition_block(name: &str) -> (r: String)
    ensures
        r@ == spec_edition_block(name@),
{
    let n = chars_of(name);
    if eq_str(&n, "kdp-paperback") {
        string_of(&chars_of("[editions.kdp-paperback]\ntarget = \"kdp-paperback\"\nmarket = \"US\"\npaper  = \"white\"\nink    = \"black\"\nfinish = \"matte\"\nisbn   = \"free\"   # KDP-assigned (non-portable)\n\n"))
    } else if eq_str(&n, "kdp-epub") {
        string_of(&chars_of("[editions.kdp-epub]\ntarget        = \"kdp-epub\"\nmarket        = \"US\"\nepub_image_px = 1000   # lower-res images = smaller Kindle delivery\n\n"))
    } else if eq_str(&n, "kdp-hardcover") {
        string_of(&chars_of("[editions.kdp-hardcover]\ntarget = \"kdp-hardcover\"\nmarket = \"US\"\npaper  = \"white\"\nink    = \"black\"\nfinish = \"matte\"   # needs >=75 pages\n\n"))
    } else if eq_str(&n, "gumroad") {
        string_of(&chars_of("[editions.gumroad]\ntarget = \"gumroad\"\nmarket = \"WW\"   # worldwide digital\n\n"))
    } else {
        let mut out: Vec<char> = Vec::new();
        push_str(&mut out, "[editions.");
        push_slice(&mut out, &n);
        push_str(&mut out, "]\ntarget = ");
        if begins(&n, "bubok") {
            push_slice(&mut out, &ty_str_of(&chars_of("bubok")));
        } else {
            push_slice(&mut out, &ty_str_of(&n));
        }
        push_str(&mut out, "\nmarket = \"US\"\n\n");
        string_of(&out)
    }
}

/// What `create` was asked for on the command line.
#[derive(Debug, Clone, Default)]
pub struct Args {
    pub slug: Option<String>,
    /// `lang=Title` entries, e.g. `es=Mi libro`.
    pub titles: Vec<String>,
    pub author: Option<String>,
    /// Languages (repeatable or comma-joined).
    pub langs: Vec<String>,
    pub archetype: Option<String>,
    pub scope: Option<String>,
    pub series: Option<String>,
    pub books_dir: Option<String>,
    pub trim: Option<String>,
    /// The target directory.
    pub dir: Option<String>,
    pub interactive: bool,
    /// With `interactive`, prompt for every field, not only the essential ones.
    pub all: bool,
    /// Accept defaults and confirmations without prompting.
    pub yes: bool,
}

/// A language's file-naming and voice conventions.
#[derive(Debug, Clone, Default)]
pub struct LangConv {
    pub chapter_stem: String,
    pub voice: String,
    pub code: String,
}

/// The value a key-value list holds for a key (the last entry wins, as when
/// the pairs are inserted into a map in order).
pub open spec fn lookup<V>(m: Seq<(Seq<char>, V)>, k: Seq<char>) -> Option<V>
    decreases m.len(),
{
    if m.len() == 0 {
        None
    } else if m.last().0 == k {
        Some(m.last().1)
    } else {
        lookup(m.drop_last(), k)
    }
}

/// Key-value pairs of strings as plain values.
pub open spec fn pairs_view(m: Seq<(String, String)>) -> Seq<(Seq<char>, Seq<char>)> {
    m.map_values(|p: (String, String)| (p.0@, p.1@))
}

/// Conventions keyed by language, as plain values.
pub open spec fn convs_view(m: Seq<(String, LangConv)>) -> Seq<(Seq<char>, (Seq<char>, Seq<char>, Seq<char>))> {
    m.map_values(|p: (String, LangConv)| (p.0@, (p.1.chapter_stem@, p.1.voice@, p.1.code@)))
}

fn lookup_pair<'a>(m: &'a Vec<(String, String)>, k: &str) -> (r: Option<&'a String>)
    ensures
        match r {
            Some(v) => lookup(pairs_view(m@), k@) == Some(v@),
            None => lookup(pairs_view(m@), k@) is None,
        },
{
    let ghost mv = pairs_view(m@);
    let kv = chars_of(k);
    let mut j: usize = m.len();
    assert(mv.take(j as int) =~= mv);
    while j > 0
        invariant
            j <= m@.len(),
            mv == pairs_view(m@),
            kv@ == k@,
            lookup(mv, k@) == lookup(mv.take(j as int), k@),
        decreases j,
    {
        assert(mv.take(j as int).drop_last() =~= mv.take(j as int - 1));
        assert(mv.take(j as int).last() == (m@[j - 1].0@, m@[j - 1].1@));
        if crate::text::eq_chars(&chars_of(m[j - 1].0.as_str()), &kv) {
            return Some(&m[j - 1].1);
        }
        j -= 1;
    }
    None
}

fn lookup_conv<'a>(m: &'a Vec<(String, LangConv)>, k: &str) -> (r: Option<&'a LangConv>)
    ensures
        match r {
            Some(v) => lookup(convs_view(m@), k@) == Some((v.chapter_stem@, v.voice@, v.code@)),
            None => lookup(convs_view(m@), k@) is None,
        },
{
    let ghost mv = convs_view(m@);
    let kv = chars_of(k);
    let mut j: usize = m.len();
    assert(mv.take(j as int) =~= mv);
    while j > 0
        invariant
            j <= m@.len(),
            mv == convs_view(m@),
            kv@ == k@,
            lookup(mv, k@) == lookup(mv.take(j as int), k@),
        decreases j,
    {
        assert(mv.take(j as int).drop_last() =~= mv.take(j as int - 1));
        assert(mv.take(j as int).last() == (
            m@[j - 1].0@,
            (m@[j - 1].1.chapter_stem@, m@[j - 1].1.voice@, m@[j - 1].1.code@),
        ));
        if crate::text::eq_chars(&chars_of(m[j - 1].0.as_str()), &kv) {
            return Some(&m[j - 1].1);
        }
        j -= 1;
    }
    None
}

/// The chapter-file stem for a language: its convention, else the `default`
/// one, else `chapter` (also when the convention's stem is empty).
pub open spec fn spec_chapter_stem(convs: Seq<(Seq<char>, (Seq<char>, Seq<char>, Seq<char>))>, lang: Seq<char>) -> Seq<char> {
    let c = match lookup(convs, lang) {
        Some(c) => Some(c),
        None => lookup(convs, "default"@),
    };
    match c {
        Some(c) => if c.0.len() > 0 {
            c.0
        } else {
            "chapter"@
        },
        None => "chapter"@,
    }
}

/// Chapter-file stem for a language (`es` → `capitulo`, default `chapter`).
pub fn chapter_stem(convs: &Vec<(String, LangConv)>, lang: &str) -> (r: String)
    ensures
        r@ == spec_chapter_stem(convs_view(convs@), lang@),
{
    let c = match lookup_conv(convs, lang) {
        Some(c) => Some(c),
        None => lookup_conv(convs, "default"),
    };
    match c {
        Some(c) => if chars_of(c.chapter_stem.as_str()).len() > 0 {
            c.chapter_stem.clone()
        } else {
            string_of(&chars_of("chapter"))
        },
        None => string_of(&chars_of("chapter")),
    }
}

/// `f` applied to each item, concatenated.
pub open spec fn concat_each(items: Seq<Seq<char>>, f: spec_fn(Seq<char>) -> Seq<char>) -> Seq<char>
    decreases items.len(),
{
    if items.len() == 0 {
        seq![]
    } else {
        concat_each(items.drop_last(), f) + f(items.last())
    }
}

/// The `[title]` line of a language, when the book has a title in it.
pub open spec fn title_line(titles: Seq<(Seq<char>, Seq<char>)>, lang: Seq<char>) -> Seq<char> {
    match lookup(titles, lang) {
        Some(t) => lang + " = "@ + spec_q(t) + "\n"@,
        None => seq![],
    }
}

/// The `[content.<lang>]` table of a language: its chapter glob.
pub open spec fn content_block(convs: Seq<(Seq<char>, (Seq<char>, Seq<char>, Seq<char>))>, lang: Seq<char>) -> Seq<char> {
    "[content."@ + lang + "]\n"@ + "glob = "@ + spec_q(
        lang + "/"@ + spec_chapter_stem(convs, lang) + "-*.md"@,
    ) + "\n\n"@
}

/// A new book's configuration file.
pub open spec fn spec_book_config_toml(
    slug: Seq<char>,
    languages: Seq<Seq<char>>,
    titles: Seq<(Seq<char>, Seq<char>)>,
    author: Option<Seq<char>>,
    editions: Seq<Seq<char>>,
    convs: Seq<(Seq<char>, (Seq<char>, Seq<char>, Seq<char>))>,
) -> Seq<char> {
    "slug      = "@ + spec_q(slug) + "\n"@ + "languages = ["@ + spec_list(languages) + "]\n"@
        + "editions  = ["@ + spec_list(editions) + "]\n\n"@ + "[title]\n"@ + concat_each(
        languages,
        |l: Seq<char>| title_line(titles, l),
    ) + "\n"@ + (match author {
        Some(a) => "[meta]\n"@ + "author = "@ + spec_q(a) + "\n\n"@,
        None => seq![],
    }) + concat_each(languages, |l: Seq<char>| content_block(convs, l)) + "[pdf]\n"@
        + "chapter_opens = \"recto\"   # chapters open on a right-hand page\n"@
}

/// A new book's `bookmill.toml`.
pub fn book_config_toml(
    slug: &str,
    languages: &Vec<String>,
    titles: &Vec<(String, String)>,
    author: Option<&str>,
    editions: &Vec<String>,
    convs: &Vec<(String, LangConv)>,
) -> (r: String)
    ensures
        r@ == spec_book_config_toml(
            slug@,
            svs(languages@),
            pairs_view(titles@),
            match author {
                Some(a) => Some(a@),
                None => None,
            },
            svs(editions@),
            convs_view(convs@),
        ),
{
    let ghost L = svs(languages@);
    let ghost T = pairs_view(titles@);
    let ghost C = convs_view(convs@);
    let mut s: Vec<char> = Vec::new();
    push_str(&mut s, "slug      = ");
    push_slice(&mut s, &ty_str_of(&chars_of(slug)));
    push_str(&mut s, "\n");
    push_str(&mut s, "languages = [");
    push_str(&mut s, list(languages).as_str());
    push_str(&mut s, "]\n");
    push_str(&mut s, "editions  = [");
    push_str(&mut s, list(editions).as_str());
    push_str(&mut s, "]\n\n");
    push_str(&mut s, "[title]\n");
    let ghost s0 = s@;
    let mut i: usize = 0;
    while i < languages.len()
        invariant
            0 <= i <= languages@.len(),
            L == svs(languages@),
            T == pairs_view(titles@),
            s@ == s0 + concat_each(L.take(i as int), |l: Seq<char>| title_line(T, l)),
        decreases languages@.len() - i,
    {
        assert(L.take(i as int + 1).drop_last() =~= L.take(i as int));
        let lang = languages[i].as_str();
        let ghost before = s@;
        match lookup_pair(titles, lang) {
            Some(t) => {
                push_str(&mut s, lang);
                push_str(&mut s, " = ");
                push_slice(&mut s, &ty_str_of(&chars_of(t.as_str())));
                push_str(&mut s, "\n");
            },
            None => {},
        }
        assert(s@ =~= before + title_line(T, L[i as int]));
        i += 1;
    }
    assert(L.take(languages@.len() as int) =~= L);
    push_str(&mut s, "\n");
    match author {
        Some(a) => {
            push_str(&mut s, "[meta]\n");
            push_str(&mut s, "author = ");
            push_slice(&mut s, &ty_str_of(&chars_of(a)));
            push_str(&mut s, "\n\n");
        },
        None => {},
    }
    let ghost s1 = s@;
    let mut j: usize = 0;
    while j < languages.len()
        invariant
            0 <= j <= languages@.len(),
            L == svs(languages@),
            C == convs_view(convs@),
            s@ == s1 + concat_each(L.take(j as int), |l: Seq<char>| content_block(C, l)),
        decreases languages@.len() - j,
    {
        assert(L.take(j as int + 1).drop_last() =~= L.take(j as int));
        let lang = languages[j].as_str();
        let stem = chapter_stem(convs, lang);
        let mut g: Vec<char> = Vec::new();
        push_str(&mut g, lang);
        push_str(&mut g, "/");
        push_str(&mut g, stem.as_str());
        push_str(&mut g, "-*.md");
        let ghost before = s@;
        push_str(&mut s, "[content.");
        push_str(&mut s, lang);
        push_str(&mut s, "]\n");
        push_str(&mut s, "glob = ");
        push_slice(&mut s, &ty_str_of(&g));
        push_str(&mut s, "\n\n");
        assert(s@ =~= before + content_block(C, L[j as int]));
        j += 1;
    }
    assert(L.take(languages@.len() as int) =~= L);
    push_str(&mut s, "[pdf]\n");
    push_str(&mut s, "chapter_opens = \"recto\"   # chapters open on a right-hand page\n");
    assert(s@ =~= spec_book_config_toml(
        slug@,
        L,
        T,
        match author {
            Some(a) => Some(a@),
            None => None,
        },
        svs(editions@),
        C,
    ));
    string_of(&s)
}

/// The `[audiobook.<lang>]` table of a language, when its convention names a voice.
pub open spec fn audiobook_block(convs: Seq<(Seq<char>, (Seq<char>, Seq<char>, Seq<char>))>, lang: Seq<char>) -> Seq<char> {
    match lookup(convs, lang) {
        Some(c) => if c.1.len() > 0 {
            "[audiobook."@ + lang + "]\n"@ + "voice = "@ + spec_q(c.1) + "\n"@ + "code  = "@ + spec_q(c.2)
                + "\n\n"@
        } else {
            seq![]
        },
        None => seq![],
    }
}

/// The head of a new repository configuration: author, series, date,
/// languages, books directory and the print defaults.
pub open spec fn repo_config_head(
    author: Seq<char>,
    series: Option<Seq<char>>,
    languages: Seq<Seq<char>>,
    books_dir: Seq<char>,
    trim: Seq<char>,
) -> Seq<char> {
    "# bookmill repo config (generated by `bookmill create`)\n"@ + "author    = "@ + spec_q(author)
        + "\n"@ + (match series {
        Some(s) => "series    = "@ + spec_q(s) + "\n"@,
        None => seq![],
    }) + "date      = 2026\n"@ + "languages = ["@ + spec_list(languages) + "]\n"@ + "books_dir = "@
        + spec_q(books_dir) + "\n\n"@ + "[defaults]\n"@ + "trim   = "@ + spec_q(trim) + "\n"@
        + "bleed  = \"0\"          # text interiors: no full-bleed; picture books override\n"@
        + "paper  = \"white\"      # white | cream | groundwood\n"@
        + "ink    = \"black\"      # black | standard-color | premium-color\n"@
        + "finish = \"matte\"      # matte | glossy (cover/listing only)\n\n"@
        + "[defaults.margins]\n"@
        + "top           = 0.75\nbottom        = 0.75\ninner         = 0.75\nouter         = 0.6\nbindingoffset = 0.375\n\n"@
}

/// The build options and audiobook defaults of a new repository configuration.
pub open spec fn repo_config_tail() -> Seq<char> {
    "[build]\n"@ + "output_dir = \"output\"\n"@ + "formats    = [\"epub\", \"pdf\", \"kdp\"]\n\n"@
        + "# Audiobook synthesis defaults (kab = Kokoro on the Apple Neural Engine).\n"@
        + "[audiobook]\n"@ + "engine       = \"kab\"\n"@ + "speak_titles = true\n\n"@
}

/// A new repository's configuration file.
pub open spec fn spec_repo_config_toml(
    author: Seq<char>,
    series: Option<Seq<char>>,
    languages: Seq<Seq<char>>,
    books_dir: Seq<char>,
    editions: Seq<Seq<char>>,
    trim: Seq<char>,
    convs: Seq<(Seq<char>, (Seq<char>, Seq<char>, Seq<char>))>,
) -> Seq<char> {
    repo_config_head(author, series, languages, books_dir, trim) + concat_each(
        editions,
        |e: Seq<char>| spec_edition_block(e),
    ) + repo_config_tail() + concat_each(languages, |l: Seq<char>| audiobook_block(convs, l))
}

/// A new repository's `bookmill.toml`.
pub fn repo_config_toml(
    author: &str,
    series: Option<&str>,
    languages: &Vec<String>,
    books_dir: &str,
    editions: &Vec<String>,
    trim: &str,
    convs: &Vec<(String, LangConv)>,
) -> (r: String)
    ensures
        r@ == spec_repo_config_toml(
            author@,
            match series {
                Some(s) => Some(s@),
                None => None,
            },
            svs(languages@),
            books_dir@,
            svs(editions@),
            trim@,
            convs_view(convs@),
        ),
{
    let ghost L = svs(languages@);
    let ghost E = svs(editions@);
    let ghost C = convs_view(convs@);
    let mut s: Vec<char> = Vec::new();
    push_str(&mut s, "# bookmill repo config (generated by `bookmill create`)\n");
    push_str(&mut s, "author    = ");
    push_slice(&mut s, &ty_str_of(&chars_of(author)));
    push_str(&mut s, "\n");
    match series {
        Some(ser) => {
            push_str(&mut s, "series    = ");
            push_slice(&mut s, &ty_str_of(&chars_of(ser)));
            push_str(&mut s, "\n");
        },
        None => {},
    }
    push_str(&mut s, "date      = 2026\n");
    push_str(&mut s, "languages = [");
    push_str(&mut s, list(languages).as_str());
    push_str(&mut s, "]\n");
    push_str(&mut s, "books_dir = ");
    push_slice(&mut s, &ty_str_of(&chars_of(books_dir)));
    push_str(&mut s, "\n\n");
    push_str(&mut s, "[defaults]\n");
    push_str(&mut s, "trim   = ");
    push_slice(&mut s, &ty_str_of(&chars_of(trim)));
    push_str(&mut s, "\n");
    push_str(&mut s, "bleed  = \"0\"          # text interiors: no full-bleed; picture books override\n");
    push_str(&mut s, "paper  = \"white\"      # white | cream | groundwood\n");
    push_str(&mut s, "ink    = \"black\"      # black | standard-color | premium-color\n");
    push_str(&mut s, "finish = \"matte\"      # matte | glossy (cover/listing only)\n\n");
    push_str(&mut s, "[defaults.margins]\n");
    push_str(
        &mut s,
        "top           = 0.75\nbottom        = 0.75\ninner         = 0.75\nouter         = 0.6\nbindingoffset = 0.375\n\n",
    );
    assert(s@ =~= repo_config_head(
        author@,
        match series {
            Some(s) => Some(s@),
            None => None,
        },
        L,
        books_dir@,
        trim@,
    ));
    let ghost s0 = s@;
    let mut i: usize = 0;
    while i < editions.len()
        invariant
            0 <= i <= editions@.len(),
            E == svs(editions@),
            s@ == s0 + concat_each(E.take(i as int), |e: Seq<char>| spec_edition_block(e)),
        decreases editions@.len() - i,
    {
        assert(E.take(i as int + 1).drop_last() =~= E.take(i as int));
        let b = edition_block(editions[i].as_str());
        push_str(&mut s, b.as_str());
        i += 1;
    }
    assert(E.take(editions@.len() as int) =~= E);
    let ghost s1 = s@;
    push_str(&mut s, "[build]\n");
    push_str(&mut s, "output_dir = \"output\"\n");
    push_str(&mut s, "formats    = [\"epub\", \"pdf\", \"kdp\"]\n\n");
    push_str(&mut s, "# Audiobook synthesis defaults (kab = Kokoro on the Apple Neural Engine).\n");
    push_str(&mut s, "[audiobook]\n");
    push_str(&mut s, "engine       = \"kab\"\n");
    push_str(&mut s, "speak_titles = true\n\n");
    assert(s@ =~= s1 + repo_config_tail());
    let ghost s2 = s@;
    let mut j: usize = 0;
    while j < languages.len()
        invariant
            0 <= j <= languages@.len(),
            L == svs(languages@),
            C == convs_view(convs@),
            s@ == s2 + concat_each(L.take(j as int), |l: Seq<char>| audiobook_block(C, l)),
        decreases languages@.len() - j,
    {
        assert(L.take(j as int + 1).drop_last() =~= L.take(j as int));
        let lang = languages[j].as_str();
        let ghost before = s@;
        match lookup_conv(convs, lang) {
            Some(c) => {
                if chars_of(c.voice.as_str()).len() > 0 {
                    push_str(&mut s, "[audiobook.");
                    push_str(&mut s, lang);
                    push_str(&mut s, "]\n");
                    push_str(&mut s, "voice = ");
                    push_slice(&mut s, &ty_str_of(&chars_of(c.voice.as_str())));
                    push_str(&mut s, "\n");
                    push_str(&mut s, "code  = ");
                    push_slice(&mut s, &ty_str_of(&chars_of(c.code.as_str())));
                    push_str(&mut s, "\n\n");
                }
            },
            None => {},
        }
        assert(s@ =~= before + audiobook_block(C, L[j as int]));
        j += 1;
    }
    assert(L.take(languages@.len() as int) =~= L);
    string_of(&s)
}


// ---------------------------------------------------------------------------
// Archetypes
// ---------------------------------------------------------------------------

/// A project archetype: its scope, languages, editions and trim.
#[derive(Debug, Clone, Default)]
pub struct Archetype {
    pub description: String,
    pub scope: String,
    pub languages: Vec<String>,
    pub editions: Vec<String>,
    pub trim: String,
}

/// The archetype catalogue: the default archetype's name, the archetypes and
/// the language conventions, each table in key order.
#[derive(Debug, Clone, Default)]
pub struct Archetypes {
    pub default: String,
    pub archetype: Vec<(String, Archetype)>,
    pub lang: Vec<(String, LangConv)>,
}

/// An archetype as plain values: scope, languages, editions, trim.
pub open spec fn arch_view(a: Archetype) -> (Seq<char>, Seq<Seq<char>>, Seq<Seq<char>>, Seq<char>) {
    (a.scope@, svs(a.languages@), svs(a.editions@), a.trim@)
}

/// The keys of the archetype table.
pub open spec fn arch_keys(t: Seq<(String, Archetype)>) -> Seq<Seq<char>> {
    t.map_values(|p: (String, Archetype)| p.0@)
}

/// The first archetype with this name.
pub open spec fn arch_named(t: Seq<(String, Archetype)>, k: Seq<char>) -> Option<Archetype>
    decreases t.len(),
{
    if t.len() == 0 {
        None
    } else if t[0].0@ == k {
        Some(t[0].1)
    } else {
        arch_named(t.drop_first(), k)
    }
}

/// `{:?}` of a list of names: `["a", "b"]`.
pub open spec fn debug_list(ks: Seq<Seq<char>>) -> Seq<char> {
    "["@ + join(ks.map_values(|k: Seq<char>| debug_str(k)), ", "@) + "]"@
}

fn copy_strings(v: &Vec<String>) -> (r: Vec<String>)
    ensures
        svs(r@) == svs(v@),
{
    let mut r: Vec<String> = Vec::new();
    let mut i: usize = 0;
    while i < v.len()
        invariant
            0 <= i <= v@.len(),
            svs(r@) == svs(v@).take(i as int),
        decreases v@.len() - i,
    {
        let ghost b = svs(r@);
        r.push(crate::text::copy_string(v[i].as_str()));
        assert(svs(r@) =~= b.push(v@[i as int]@));
        assert(svs(v@).take(i as int + 1) =~= svs(v@).take(i as int).push(v@[i as int]@));
        i += 1;
    }
    assert(svs(v@).take(v@.len() as int) =~= svs(v@));
    r
}

impl Archetypes {
    /// Pick an archetype by name (the default one when none is named): its
    /// name and settings, or an error naming the known archetypes.
    pub fn pick(&self, name: Option<&str>) -> (r: Result<(String, Archetype), String>)
        ensures
            ({
                let key = match name {
                    Some(n) => n@,
                    None => self.default@,
                };
                match arch_named(self.archetype@, key) {
                    Some(a) => r is Ok && r->Ok_0.0@ == key && arch_view(r->Ok_0.1) == arch_view(a)
                        && r->Ok_0.1.description@ == a.description@,
                    None => r is Err && r->Err_0@ == "unknown archetype "@ + debug_str(key)
                        + "; known: "@ + debug_list(arch_keys(self.archetype@)),
                }
            }),
    {
        let key = match name {
            Some(n) => crate::text::copy_string(n),
            None => crate::text::copy_string(self.default.as_str()),
        };
        let kc = chars_of(key.as_str());
        let t = &self.archetype;
        let mut i: usize = 0;
        assert(t@.skip(0) =~= t@);
        while i < t.len()
            invariant
                0 <= i <= t@.len(),
                kc@ == key@,
                t@ == self.archetype@,
                key@ == match name {
                    Some(n) => n@,
                    None => self.default@,
                },
                arch_named(t@, key@) == arch_named(t@.skip(i as int), key@),
            decreases t@.len() - i,
        {
            assert(t@.skip(i as int)[0] == t@[i as int]);
            assert(t@.skip(i as int).drop_first() =~= t@.skip(i as int + 1));
            if crate::text::eq_chars(&chars_of(t[i].0.as_str()), &kc) {
                let a = &t[i].1;
                let copy = Archetype {
                    description: crate::text::copy_string(a.description.as_str()),
                    scope: crate::text::copy_string(a.scope.as_str()),
                    languages: copy_strings(&a.languages),
                    editions: copy_strings(&a.editions),
                    trim: crate::text::copy_string(a.trim.as_str()),
                };
                return Ok((key, copy));
            }
            i += 1;
        }
        let mut names: Vec<Vec<char>> = Vec::new();
        let mut j: usize = 0;
        while j < t.len()
            invariant
                0 <= j <= t@.len(),
                t@ == self.archetype@,
                arch_named(t@, key@) is None,
                key@ == match name {
                    Some(n) => n@,
                    None => self.default@,
                },
                views(names@) == arch_keys(t@).take(j as int).map_values(|k: Seq<char>| debug_str(k)),
            decreases t@.len() - j,
        {
            let d = debug_quoted(t[j].0.as_str());
            let ghost b = views(names@);
            names.push(chars_of(d.as_str()));
            assert(views(names@) =~= b.push(debug_str(t@[j as int].0@)));
            assert(arch_keys(t@).take(j as int + 1).map_values(|k: Seq<char>| debug_str(k)) =~= arch_keys(
                t@,
            ).take(j as int).map_values(|k: Seq<char>| debug_str(k)).push(debug_str(t@[j as int].0@)));
            j += 1;
        }
        assert(arch_keys(t@).take(t@.len() as int) =~= arch_keys(t@));
        let mut m: Vec<char> = Vec::new();
        push_str(&mut m, "unknown archetype ");
        push_str(&mut m, debug_quoted(key.as_str()).as_str());
        push_str(&mut m, "; known: ");
        push_str(&mut m, "[");
        push_slice(&mut m, &join_vecs(&names, ", "));
        push_str(&mut m, "]");
        Err(string_of(&m))
    }

    /// The chapter-file stem for a language.
    pub fn chapter_stem(&self, lang: &str) -> (r: String)
        ensures
            r@ == spec_chapter_stem(convs_view(self.lang@), lang@),
    {
        chapter_stem(&self.lang, lang)
    }
}

// ---------------------------------------------------------------------------
// Answers and defaults
// ---------------------------------------------------------------------------

/// The `(language, title)` pairs of `lang=Title` entries, trimmed; entries
/// without `=` are skipped.
pub open spec fn spec_title_entries(entries: Seq<Seq<char>>) -> Seq<(Seq<char>, Seq<char>)>
    decreases entries.len(),
{
    if entries.len() == 0 {
        seq![]
    } else {
        let prev = spec_title_entries(entries.drop_last());
        let e = entries.last();
        match crate::text::find_char(e, '=', 0) {
            Some(i) => prev.push((trim(e.take(i)), trim(e.skip(i + 1)))),
            None => prev,
        }
    }
}

/// Parse `lang=Title` entries.
pub fn title_entries(entries: &Vec<String>) -> (r: Vec<(String, String)>)
    ensures
        pairs_view(r@) == spec_title_entries(svs(entries@)),
{
    let ghost ev = svs(entries@);
    let mut r: Vec<(String, String)> = Vec::new();
    let mut i: usize = 0;
    while i < entries.len()
        invariant
            0 <= i <= entries@.len(),
            ev == svs(entries@),
            pairs_view(r@) == spec_title_entries(ev.take(i as int)),
        decreases entries@.len() - i,
    {
        assert(ev.take(i as int + 1).drop_last() =~= ev.take(i as int));
        assert(ev.take(i as int + 1).last() == entries@[i as int]@);
        let e = chars_of(entries[i].as_str());
        match crate::text::find_c(&e, '=', 0) {
            Some(k) => {
                proof {
                    crate::text::lemma_find_char(e@, '=', 0);
                    assert(k < e@.len());
                }
                assert(k < e.len());
                let lang = string_of(&trimmed(&sub_vec(&e, 0, k)));
                let title = string_of(&trimmed(&sub_vec(&e, k + 1, e.len())));
                assert(e@.take(k as int) =~= e@.subrange(0, k as int));
                assert(e@.skip(k as int + 1) =~= e@.subrange(k as int + 1, e@.len() as int));
                let ghost b = pairs_view(r@);
                r.push((lang, title));
                assert(pairs_view(r@) =~= b.push((lang@, title@)));
            },
            None => {},
        }
        i += 1;
    }
    assert(ev.take(entries@.len() as int) =~= ev);
    r
}

/// The languages that still need a title (in language order).
pub open spec fn spec_untitled(titles: Seq<(Seq<char>, Seq<char>)>, languages: Seq<Seq<char>>) -> Seq<Seq<char>>
    decreases languages.len(),
{
    if languages.len() == 0 {
        seq![]
    } else {
        let prev = spec_untitled(titles, languages.drop_last());
        if lookup(titles, languages.last()) is Some {
            prev
        } else {
            prev.push(languages.last())
        }
    }
}

/// The languages without a title among the given ones.
pub fn untitled_langs(titles: &Vec<(String, String)>, languages: &Vec<String>) -> (r: Vec<String>)
    ensures
        svs(r@) == spec_untitled(pairs_view(titles@), svs(languages@)),
{
    let ghost lv = svs(languages@);
    let mut r: Vec<String> = Vec::new();
    let mut i: usize = 0;
    while i < languages.len()
        invariant
            0 <= i <= languages@.len(),
            lv == svs(languages@),
            svs(r@) == spec_untitled(pairs_view(titles@), lv.take(i as int)),
        decreases languages@.len() - i,
    {
        assert(lv.take(i as int + 1).drop_last() =~= lv.take(i as int));
        assert(lv.take(i as int + 1).last() == languages@[i as int]@);
        if lookup_pair(titles, languages[i].as_str()).is_none() {
            let ghost b = svs(r@);
            r.push(crate::text::copy_string(languages[i].as_str()));
            assert(svs(r@) =~= b.push(languages@[i as int]@));
        }
        i += 1;
    }
    assert(lv.take(languages@.len() as int) =~= lv);
    r
}

/// The slug to use: the one given, else the one answered at the prompt; it
/// must be a valid slug. Without either, the slug is required.
pub fn resolve_slug(slug: &Option<String>, answer: Option<&str>) -> (r: Result<String, String>)
    ensures
        ({
            let given = match slug {
                Some(s) => Some(s@),
                None => match answer {
                    Some(a) => Some(a@),
                    None => None,
                },
            };
            match given {
                Some(g) => match spec_validate_slug(g) {
                    Ok(_) => r is Ok && r->Ok_0@ == g,
                    Err(e) => r is Err && r->Err_0@ == e,
                },
                None => r is Err && r->Err_0@ == "--slug is required (or use --interactive)"@,
            }
        }),
{
    let s = match slug {
        Some(s) => crate::text::copy_string(s.as_str()),
        None => match answer {
            Some(a) => crate::text::copy_string(a),
            None => return Err(string_of(&chars_of("--slug is required (or use --interactive)"))),
        },
    };
    match validate_slug(s.as_str()) {
        Ok(()) => Ok(s),
        Err(e) => Err(e),
    }
}

/// The default series name of an author.
pub fn default_series(author: &str) -> (r: String)
    ensures
        r@ == author@ + "'s Series"@,
{
    let mut m = chars_of(author);
    push_str(&mut m, "'s Series");
    string_of(&m)
}

/// A prompt line: `? question: `, or `? question [default]: `.
pub fn prompt_text(question: &str, default: &str) -> (r: String)
    ensures
        r@ == if default@.len() == 0 {
            "? "@ + question@ + ": "@
        } else {
            "? "@ + question@ + " ["@ + default@ + "]: "@
        },
{
    let mut m: Vec<char> = Vec::new();
    push_str(&mut m, "? ");
    push_str(&mut m, question);
    if chars_of(default).len() == 0 {
        push_str(&mut m, ": ");
    } else {
        push_str(&mut m, " [");
        push_str(&mut m, default);
        push_str(&mut m, "]: ");
    }
    string_of(&m)
}

/// The answer to a prompt: the trimmed line, or the default when it is blank.
pub fn prompt_answer(line: &str, default: &str) -> (r: String)
    ensures
        r@ == if trim(line@).len() == 0 {
            default@
        } else {
            trim(line@)
        },
{
    let t = trimmed(&chars_of(line));
    if t.len() == 0 {
        crate::text::copy_string(default)
    } else {
        string_of(&t)
    }
}

/// A yes/no question: `? question [Y/n]: ` or `? question [y/N]: `.
pub fn confirm_text(question: &str, default: bool) -> (r: String)
    ensures
        r@ == "? "@ + question@ + " ["@ + (if default {
            "Y/n"@
        } else {
            "y/N"@
        }) + "]: "@,
{
    let mut m: Vec<char> = Vec::new();
    push_str(&mut m, "? ");
    push_str(&mut m, question);
    push_str(&mut m, " [");
    if default {
        push_str(&mut m, "Y/n");
    } else {
        push_str(&mut m, "y/N");
    }
    push_str(&mut m, "]: ");
    string_of(&m)
}

/// The answer to a yes/no question: blank keeps the default, `y` or `yes`
/// (any case) is yes, anything else is no.
pub fn confirm_answer(line: &str, default: bool) -> (r: bool)
    ensures
        ({
            let a = crate::text::str_lower(trim(line@));
            r == if a.len() == 0 {
                default
            } else {
                a == "y"@ || a == "yes"@
            }
        }),
{
    let t = string_of(&trimmed(&chars_of(line)));
    let a = crate::text::lower_text(t.as_str());
    let ac = chars_of(a.as_str());
    if ac.len() == 0 {
        default
    } else {
        eq_str(&ac, "y") || eq_str(&ac, "yes")
    }
}

/// The question asked before creating a project in a directory.
pub fn init_question(target: &str, in_git: bool) -> (r: String)
    ensures
        r@ == "No bookmill repo found. Initialize a new bookmill project in "@ + target@ + (if in_git {
            " (existing git repo detected)"@
        } else {
            Seq::<char>::empty()
        }) + "?"@,
{
    let mut m: Vec<char> = Vec::new();
    push_str(&mut m, "No bookmill repo found. Initialize a new bookmill project in ");
    push_str(&mut m, target);
    let ghost x = m@;
    if in_git {
        push_str(&mut m, " (existing git repo detected)");
    } else {
        assert(m@ =~= x + Seq::<char>::empty());
    }
    push_str(&mut m, "?");
    string_of(&m)
}

// ---------------------------------------------------------------------------
// .gitignore
// ---------------------------------------------------------------------------

/// Does some line of the file, trimmed, equal `want`?
pub open spec fn has_line(existing: Seq<char>, want: Seq<char>) -> bool {
    exists|i: int| 0 <= i < lines(existing).len() && trim(#[trigger] lines(existing)[i]) == want
}

/// The entries the file lacks, of `/output` and `/target`.
pub open spec fn missing_ignores(existing: Seq<char>) -> Seq<Seq<char>> {
    (if has_line(existing, "/output"@) {
        seq![]
    } else {
        seq!["/output"@]
    }) + (if has_line(existing, "/target"@) {
        seq![]
    } else {
        seq!["/target"@]
    })
}

/// The new `.gitignore` when entries are missing: the old text, a line break
/// if it lacks a final one, then each missing entry on its own line.
pub open spec fn spec_gitignore_update(existing: Seq<char>) -> Option<Seq<char>> {
    let add = missing_ignores(existing);
    if add.len() == 0 {
        None
    } else {
        Some(existing + (if existing.len() > 0 && existing.last() != '\n' {
            "\n"@
        } else {
            Seq::<char>::empty()
        }) + (if has_line(existing, "/output"@) {
            Seq::<char>::empty()
        } else {
            "/output\n"@
        }) + (if has_line(existing, "/target"@) {
            Seq::<char>::empty()
        } else {
            "/target\n"@
        }))
    }
}

fn has_line_exec(ls: &Vec<Vec<char>>, want: &str) -> (r: bool)
    ensures
        r == exists|i: int| 0 <= i < ls@.len() && trim(#[trigger] ls@[i]@) == want@,
{
    let mut i: usize = 0;
    while i < ls.len()
        invariant
            0 <= i <= ls@.len(),
            forall|k: int| 0 <= k < i ==> trim(#[trigger] ls@[k]@) != want@,
        decreases ls@.len() - i,
    {
        if eq_str(&trimmed(&ls[i]), want) {
            return true;
        }
        i += 1;
    }
    false
}

/// Make sure `.gitignore` ignores `/output` and `/target`: the new file text
/// when an entry must be added, `None` when both are there.
pub fn gitignore_update(existing: &str) -> (r: Option<String>)
    ensures
        match r {
            Some(t) => spec_gitignore_update(existing@) == Some(t@),
            None => spec_gitignore_update(existing@) is None,
        },
{
    let ev = chars_of(existing);
    let ls = crate::text::lines_of(&ev);
    let ghost lv = lines(existing@);
    assert(views(ls@) == lv);
    let out_ok = has_line_exec(&ls, "/output");
    let tgt_ok = has_line_exec(&ls, "/target");
    proof {
        if out_ok {
            let i = choose|i: int| 0 <= i < ls@.len() && trim(#[trigger] ls@[i]@) == "/output"@;
            assert(lv[i] == ls@[i]@);
        } else {
            assert forall|i: int| 0 <= i < lv.len() implies trim(#[trigger] lv[i]) != "/output"@ by {
                assert(lv[i] == ls@[i]@);
            }
        }
        if tgt_ok {
            let i = choose|i: int| 0 <= i < ls@.len() && trim(#[trigger] ls@[i]@) == "/target"@;
            assert(lv[i] == ls@[i]@);
        } else {
            assert forall|i: int| 0 <= i < lv.len() implies trim(#[trigger] lv[i]) != "/target"@ by {
                assert(lv[i] == ls@[i]@);
            }
        }
    }
    if out_ok && tgt_ok {
        assert(missing_ignores(existing@) =~= Seq::<Seq<char>>::empty());
        return None;
    }
    let mut out = copy_chars(&ev);
    if ev.len() > 0 && ev[ev.len() - 1] != '\n' {
        push_str(&mut out, "\n");
    } else {
        assert(out@ =~= existing@ + Seq::<char>::empty());
    }
    let ghost head = out@;
    if !out_ok {
        push_str(&mut out, "/output\n");
    } else {
        assert(out@ =~= head + Seq::<char>::empty());
    }
    let ghost mid = out@;
    if !tgt_ok {
        push_str(&mut out, "/target\n");
    } else {
        assert(out@ =~= mid + Seq::<char>::empty());
    }
    proof {
        if out_ok && !tgt_ok {
            assert(missing_ignores(existing@).len() == 1);
        }
    }
    Some(string_of(&out))
}

fn copy_chars(v: &Vec<char>) -> (r: Vec<char>)
    ensures
        r@ == v@,
{
    crate::text::copy_vec(v)
}

} // verus!
