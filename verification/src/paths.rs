//! File paths as plain strings.
//!
//! Component parsing is `std::path`'s; the few questions the library asks of a
//! path (its file name, its parent, a prefix stripped from it) go through
//! `std::path::Path` and come back as strings.
use vstd::prelude::*;
use crate::text::{chars_of, lower_seq, replace, replace_all, rfind_c, rfind_char, lemma_rfind_char, starts_with, sub_vec, string_of, to_lower, eq_str};

verus! {

/// What `Path::file_name` gives for a path, as text.
pub uninterp spec fn path_file_name(p: Seq<char>) -> Option<Seq<char>>;

/// What `Path::parent` gives for a path, as text.
pub uninterp spec fn path_parent(p: Seq<char>) -> Option<Seq<char>>;

/// What `Path::strip_prefix` leaves of `path` once `base` is removed, as text.
pub uninterp spec fn path_strip_prefix(path: Seq<char>, base: Seq<char>) -> Option<Seq<char>>;

/// The view of an optional string.
pub open spec fn opt_view(o: Option<String>) -> Option<Seq<char>> {
    match o {
        Some(s) => Some(s@),
        None => None,
    }
}

/// `Path::new(p).file_name()`, as text; the result is the name of that function's
/// answer for `p`.
#[verifier::external_body]
pub(crate) fn file_name_of(p: &str) -> (r: Option<String>)
    ensures
        opt_view(r) == path_file_name(p@),
{
    match std::path::Path::new(p).file_name() {
        Some(n) => Some(n.to_string_lossy().into_owned()),
        None => None,
    }
}

/// `Path::new(p).parent()`, as text; the result is the name of that function's
/// answer for `p`. A parent is the path less its last component, so it is
/// shorter than the path.
#[verifier::external_body]
pub(crate) fn parent_of(p: &str) -> (r: Option<String>)
    ensures
        opt_view(r) == path_parent(p@),
        r matches Some(q) ==> q@.len() < p@.len(),
{
    match std::path::Path::new(p).parent() {
        Some(q) => Some(q.to_string_lossy().into_owned()),
        None => None,
    }
}

/// `Path::new(path).strip_prefix(base)`, displayed; `None` where `base` is not a
/// prefix of `path`. The result is the name of that function's answer.
#[verifier::external_body]
pub(crate) fn strip_prefix_of(path: &str, base: &str) -> (r: Option<String>)
    ensures
        opt_view(r) == path_strip_prefix(path@, base@),
{
    match std::path::Path::new(path).strip_prefix(base) {
        Ok(rel) => Some(rel.display().to_string()),
        Err(_) => None,
    }
}

/// The extension of a file name, as `Path::extension` defines it: the text after
/// the last `.`, unless there is none or the only `.` starts the name.
pub open spec fn name_extension(name: Seq<char>) -> Option<Seq<char>> {
    match rfind_char(name, '.', name.len() as int) {
        Some(k) => if k == 0 {
            None
        } else {
            Some(name.skip(k + 1))
        },
        None => None,
    }
}

/// The extension of a path: that of its file name.
pub open spec fn path_extension(p: Seq<char>) -> Option<Seq<char>> {
    match path_file_name(p) {
        Some(n) => name_extension(n),
        None => None,
    }
}

/// The extension of a file name (see [`name_extension`]).
pub fn extension_of_name(name: &str) -> (r: Option<String>)
    ensures
        opt_view(r) == name_extension(name@),
{
    let v = chars_of(name);
    match rfind_c(&v, '.', v.len()) {
        Some(k) => {
            if k == 0 {
                None
            } else {
                proof {
                    lemma_rfind_char(v@, '.', v@.len() as int);
                }
                let e = sub_vec(&v, k + 1, v.len());
                assert(e@ =~= v@.skip(k + 1));
                Some(string_of(&e))
            }
        },
        None => None,
    }
}

/// The extension of a path, as `Path::extension` gives it.
pub fn extension_of(p: &str) -> (r: Option<String>)
    ensures
        opt_view(r) == path_extension(p@),
{
    match file_name_of(p) {
        Some(n) => extension_of_name(&n),
        None => None,
    }
}

/// Does `p` name a file directly inside a directory called `bw`?
pub open spec fn spec_in_bw_dir(p: Seq<char>) -> bool {
    match path_parent(p) {
        Some(q) => path_file_name(q) == Some("bw"@),
        None => false,
    }
}

/// Is `p` a file directly inside a directory called `bw`, the home of the
/// pre-made grayscale print variants?
pub fn is_bw_variant_path(p: &str) -> (r: bool)
    ensures
        r == spec_in_bw_dir(p@),
{
    match parent_of(p) {
        Some(q) => match file_name_of(&q) {
            Some(n) => {
                let v = chars_of(&n);
                eq_str(&v, "bw")
            },
            None => false,
        },
        None => false,
    }
}

/// A raster image whose pixels can be recoloured: a `png`, `jpg` or `jpeg`
/// extension, in any letter case.
pub open spec fn spec_is_raster(p: Seq<char>) -> bool {
    match path_extension(p) {
        Some(e) => {
            let l = lower_seq(e);
            l == "png"@ || l == "jpg"@ || l == "jpeg"@
        },
        None => false,
    }
}

fn lowered(s: &[char]) -> (v: Vec<char>)
    ensures
        v@ == lower_seq(s@),
{
    let mut v: Vec<char> = Vec::new();
    let mut i: usize = 0;
    while i < s.len()
        invariant
            0 <= i <= s@.len(),
            v@ == lower_seq(s@.take(i as int)),
        decreases s@.len() - i,
    {
        v.push(to_lower(s[i]));
        assert(lower_seq(s@.take(i as int + 1)) =~= lower_seq(s@.take(i as int)).push(
            crate::text::lower(s@[i as int]),
        ));
        i += 1;
    }
    assert(s@.take(s@.len() as int) == s@);
    v
}

/// Is `p` a raster image (`png`, `jpg` or `jpeg`, any case)?
pub fn is_raster_image(p: &str) -> (r: bool)
    ensures
        r == spec_is_raster(p@),
{
    match extension_of(p) {
        Some(e) => {
            let l = lowered(&chars_of(&e));
            eq_str(&l, "png") || eq_str(&l, "jpg") || eq_str(&l, "jpeg")
        },
        None => false,
    }
}

/// A markdown image source made root-relative for Typst: URLs unchanged; an
/// absolute path under `root` becomes `/` + the rest (`rel`, what stripping
/// `root` left, or `None` when `root` is not a prefix); any other absolute path
/// unchanged; a relative path gets a leading `/`.
pub open spec fn spec_rooted(src: Seq<char>, rel: Option<Seq<char>>) -> Seq<char> {
    if starts_with(src, "http://"@) || starts_with(src, "https://"@) {
        src
    } else if src.len() > 0 && src[0] == '/' {
        match rel {
            Some(r) => "/"@ + r,
            None => src,
        }
    } else {
        "/"@ + src
    }
}

/// Where a markdown image source points for Typst, given the repository root.
pub open spec fn spec_img_path(root: Seq<char>, src: Seq<char>) -> Seq<char> {
    spec_rooted(src, path_strip_prefix(src, root))
}

/// [`spec_rooted`], given what stripping the root left of `src`.
pub fn rooted_path(src: &str, rel: Option<&str>) -> (r: String)
    ensures
        r@ == spec_rooted(
            src@,
            match rel {
                Some(x) => Some(x@),
                None => None,
            },
        ),
{
    let v = chars_of(src);
    let url = crate::text::begins(&v, "http://") || crate::text::begins(&v, "https://");
    if url {
        return string_of(&v);
    }
    if v.len() > 0 && v[0] == '/' {
        match rel {
            Some(x) => {
                let mut out: Vec<char> = Vec::new();
                crate::text::push_str(&mut out, "/");
                crate::text::push_str(&mut out, x);
                string_of(&out)
            },
            None => string_of(&v),
        }
    } else {
        let mut out: Vec<char> = Vec::new();
        crate::text::push_str(&mut out, "/");
        crate::text::push_slice(&mut out, &v);
        string_of(&out)
    }
}

/// Map a markdown image source to a Typst (root-relative) path.
pub fn typst_img_path(root: &str, src: &str) -> (r: String)
    ensures
        r@ == spec_img_path(root@, src@),
{
    let rel = strip_prefix_of(src, root);
    match rel {
        Some(x) => rooted_path(src, Some(x.as_str())),
        None => rooted_path(src, None),
    }
}

/// What `Path::with_extension` gives for a path and a new extension, as text.
pub uninterp spec fn path_with_extension(p: Seq<char>, ext: Seq<char>) -> Seq<char>;

/// The index of the last `c` in `s`, or -1.
pub open spec fn last_index_of(s: Seq<char>, c: char) -> int
    decreases s.len(),
{
    if s.len() == 0 {
        -1
    } else if s.last() == c {
        s.len() - 1
    } else {
        last_index_of(s.drop_last(), c)
    }
}

/// The text after the last `/` of a path.
pub open spec fn last_component(p: Seq<char>) -> Seq<char> {
    p.skip(last_index_of(p, '/') + 1)
}

/// A path whose file name is its last component: it does not end with `/`,
/// and its last component is neither `.` nor `..`.
pub open spec fn plain_file_path(p: Seq<char>) -> bool {
    let n = last_component(p);
    n.len() > 0 && n != "."@ && n != ".."@
}

/// The length of a file name's stem: up to its last `.`, unless that dot is
/// its first character (then the name has no extension).
pub open spec fn stem_len(name: Seq<char>) -> int {
    let d = last_index_of(name, '.');
    if d > 0 {
        d
    } else {
        name.len() as int
    }
}

/// A plain file path with its extension set to `ext`: the path up to the end
/// of the file stem, a dot, then `ext`.
pub open spec fn swap_extension(p: Seq<char>, ext: Seq<char>) -> Seq<char> {
    let n = last_component(p);
    p.take(p.len() - n.len() + stem_len(n)) + "."@ + ext
}

/// `Path::new(p).with_extension(ext)`, as text. The result is named; for a
/// plain file path and a non-empty extension it is, as `PathBuf::set_extension`
/// and `Path::extension` document, the path cut after the file stem (the file
/// name up to its last dot, unless that dot starts the name), then `.` and
/// the extension. The extension holds no `/` (newer `std` panics on one).
#[verifier::external_body]
pub(crate) fn with_extension_of(p: &str, ext: &str) -> (r: String)
    requires
        !ext@.contains('/'),
    ensures
        r@ == path_with_extension(p@, ext@),
        plain_file_path(p@) && ext@.len() > 0 ==> r@ == swap_extension(p@, ext@),
{
    std::path::Path::new(p).with_extension(ext).to_string_lossy().into_owned()
}

/// `Path::join` on text (`PathBuf::push`): an absolute `p` replaces `base`;
/// otherwise `p` is appended, with a `/` between unless `base` is empty or
/// already ends with one.
pub open spec fn path_join(base: Seq<char>, p: Seq<char>) -> Seq<char> {
    if p.len() > 0 && p[0] == '/' {
        p
    } else if base.len() == 0 {
        p
    } else if base.last() == '/' {
        base + p
    } else {
        base + "/"@ + p
    }
}

/// Join a path onto a base path, as `Path::join` does.
pub fn join_path(base: &str, p: &str) -> (r: String)
    ensures
        r@ == path_join(base@, p@),
{
    let bv = chars_of(base);
    let pv = chars_of(p);
    if pv.len() > 0 && pv[0] == '/' {
        return string_of(&pv);
    }
    if bv.len() == 0 {
        return string_of(&pv);
    }
    let mut out = bv.clone();
    assert(out@ == bv@);
    if bv[bv.len() - 1] != '/' {
        out.push('/');
        proof {
            reveal_strlit("/");
            assert("/"@ =~= seq!['/']);
        }
    }
    crate::text::push_slice(&mut out, &pv);
    assert(out@ =~= path_join(base@, p@));
    string_of(&out)
}

/// A path and its ancestors, nearest first, as `Path::parent` gives them.
pub open spec fn ancestors(p: Seq<char>) -> Seq<Seq<char>>
    decreases p.len(),
{
    match path_parent(p) {
        Some(q) => if q.len() < p.len() {
            seq![p] + ancestors(q)
        } else {
            seq![p]
        },
        None => seq![p],
    }
}

/// The directories searched for a repository configuration, from `start` up
/// to the root: `start`, then each parent in turn.
pub fn candidate_roots(start: &str) -> (r: Vec<String>)
    ensures
        r@.map_values(|x: String| x@) == ancestors(start@),
{
    let mut out: Vec<String> = Vec::new();
    let mut cur = string_of(&chars_of(start));
    let ghost s0 = start@;
    assert(out@.map_values(|x: String| x@) =~= Seq::<Seq<char>>::empty());
    loop
        invariant
            s0 == start@,
            out@.map_values(|x: String| x@) + ancestors(cur@) == ancestors(s0),
        decreases cur@.len(),
    {
        let next = parent_of(cur.as_str());
        let ghost o0 = out@.map_values(|x: String| x@);
        let ghost c0 = cur@;
        match next {
            Some(q) => {
                out.push(cur);
                assert(out@.map_values(|x: String| x@) =~= o0.push(c0));
                assert(ancestors(c0) == seq![c0] + ancestors(q@));
                assert(out@.map_values(|x: String| x@) + ancestors(q@) =~= o0 + ancestors(c0));
                cur = q;
            },
            None => {
                out.push(cur);
                assert(out@.map_values(|x: String| x@) =~= o0 + ancestors(c0));
                return out;
            },
        }
    }
}

/// A cover file name pattern with `{lang}` filled in: every occurrence of the
/// placeholder becomes the language code.
pub open spec fn cover_name(pattern: Seq<char>, lang: Seq<char>) -> Seq<char> {
    replace_all(pattern, "{lang}"@, lang)
}

/// The eBook front-cover file name for `lang`, from the `front_cover` pattern of
/// the repository's `[paths]` table.
pub fn front_cover_name(front_cover: &str, lang: &str) -> (r: String)
    ensures
        r@ == cover_name(front_cover@, lang@),
{
    string_of(&replace(&chars_of(front_cover), "{lang}", lang))
}

/// The paperback wrap-cover file name for `lang`, from the `wrap_cover` pattern of
/// the repository's `[paths]` table.
pub fn wrap_cover_name(wrap_cover: &str, lang: &str) -> (r: String)
    ensures
        r@ == cover_name(wrap_cover@, lang@),
{
    string_of(&replace(&chars_of(wrap_cover), "{lang}", lang))
}

} // verus!
