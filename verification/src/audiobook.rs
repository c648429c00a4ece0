//! Audiobook render bookkeeping.
//!
//! Each rendered `.m4b` keeps a manifest of what it was made from: engine,
//! voice, language code, speed, whether titles are spoken, and a SHA-256 per
//! chapter. An unchanged manifest lets the next run skip the render; a changed
//! one is reported chapter by chapter (edited, added, removed) so the
//! proofreader knows what to listen to again. Scratch files live outside the
//! output folder, under `<root>/.bookmill-tmp/audio/<slug>/<lang>`.
use vstd::prelude::*;
use crate::paths::{file_name_of, join_path, opt_view, path_file_name, path_join};
use crate::text::{char_from_ascii, chars_of, dec, dec_chars, ends_with, eq_chars, finishes, join, join_vecs, push_slice, push_str, string_of, sub_vec, views};

verus! {

/// The default engine: `kab convert` (Kokoro).
pub struct KabEngine {
    pub bin: String,
}

/// The scratch and cache base of a book and language:
/// `<root>/.bookmill-tmp/audio/<slug>/<lang>`.
pub open spec fn spec_audio_tmp_dir(root: Seq<char>, slug: Seq<char>, lang: Seq<char>) -> Seq<char> {
    path_join(path_join(path_join(path_join(root, ".bookmill-tmp"@), "audio"@), slug), lang)
}

/// The audiobook scratch/cache base for a book and language, inside the
/// repository but outside `output/`.
pub fn audio_tmp_dir(root: &str, slug: &str, lang: &str) -> (r: String)
    ensures
        r@ == spec_audio_tmp_dir(root@, slug@, lang@),
{
    let a = join_path(root, ".bookmill-tmp");
    let b = join_path(a.as_str(), "audio");
    let c = join_path(b.as_str(), slug);
    join_path(c.as_str(), lang)
}

// ---------------------------------------------------------------------------
// Chapter hashes
// ---------------------------------------------------------------------------

/// What SHA-256 gives for a byte string: its 32-byte digest.
pub uninterp spec fn sha256(bytes: Seq<u8>) -> Seq<u8>;

/// `sha2::Sha256::digest`: the 32-byte SHA-256 digest of the bytes. The digest
/// is named, not described; its length is the algorithm's output size.
#[verifier::external_body]
fn sha256_digest(bytes: &[u8]) -> (r: Vec<u8>)
    ensures
        r@ == sha256(bytes@),
        r@.len() == 32,
{
    <sha2::Sha256 as sha2::Digest>::digest(bytes).to_vec()
}

/// A lower-case hexadecimal digit.
pub open spec fn hex_digit(n: nat) -> char {
    if n < 10 {
        (48 + n) as char
    } else {
        (87 + n) as char
    }
}

/// Bytes as lower-case hexadecimal, two digits each.
pub open spec fn lower_hex(b: Seq<u8>) -> Seq<char>
    decreases b.len(),
{
    if b.len() == 0 {
        seq![]
    } else {
        lower_hex(b.drop_last()) + seq![
            hex_digit((b.last() / 16) as nat),
            hex_digit((b.last() % 16) as nat),
        ]
    }
}

fn hex_char(n: u8) -> (c: char)
    requires
        n < 16,
    ensures
        c == hex_digit(n as nat),
{
    if n < 10 {
        char_from_ascii(48 + n as u32)
    } else {
        char_from_ascii(87 + n as u32)
    }
}

/// Bytes as lower-case hexadecimal.
pub fn to_lower_hex(b: &[u8]) -> (r: String)
    ensures
        r@ == lower_hex(b@),
{
    let mut v: Vec<char> = Vec::new();
    let mut i: usize = 0;
    while i < b.len()
        invariant
            0 <= i <= b@.len(),
            v@ == lower_hex(b@.take(i as int)),
        decreases b@.len() - i,
    {
        let x = b[i];
        v.push(hex_char(x / 16));
        v.push(hex_char(x % 16));
        assert(b@.take(i as int + 1).drop_last() =~= b@.take(i as int));
        i += 1;
    }
    assert(b@.take(b@.len() as int) =~= b@);
    string_of(&v)
}

/// One chapter of a manifest: its file name and the SHA-256 of its bytes.
#[derive(Debug, PartialEq, Eq, Clone)]
pub struct ChapterEntry {
    pub file: String,
    pub sha: String,
}

/// A chapter entry as plain values.
pub open spec fn chapter_view(c: ChapterEntry) -> (Seq<char>, Seq<char>) {
    (c.file@, c.sha@)
}

/// Chapter entries as plain values.
pub open spec fn chapters_view(v: Seq<ChapterEntry>) -> Seq<(Seq<char>, Seq<char>)> {
    v.map_values(|c: ChapterEntry| chapter_view(c))
}

/// The entry of a chapter file read from `path`: its file name (`chapter.md`
/// when the path has none) and the lower-case hex SHA-256 of its bytes.
pub open spec fn spec_chapter_entry(path: Seq<char>, bytes: Seq<u8>) -> (Seq<char>, Seq<char>) {
    (
        match path_file_name(path) {
            Some(n) => n,
            None => "chapter.md"@,
        },
        lower_hex(sha256(bytes)),
    )
}

/// The manifest entry of a chapter file, from its path and bytes.
pub fn chapter_entry(path: &str, bytes: &[u8]) -> (r: ChapterEntry)
    ensures
        chapter_view(r) == spec_chapter_entry(path@, bytes@),
{
    let file = match file_name_of(path) {
        Some(n) => n,
        None => string_of(&chars_of("chapter.md")),
    };
    let d = sha256_digest(bytes);
    let sha = to_lower_hex(&d);
    ChapterEntry { file, sha }
}

// ---------------------------------------------------------------------------
// Manifests
// ---------------------------------------------------------------------------

/// What a rendered audiobook was made from. `speed` is kept as fixed-precision
/// text so it compares cleanly.
#[derive(Debug, PartialEq, Eq, Clone)]
pub struct Manifest {
    pub engine: String,
    pub voice: String,
    pub code: String,
    pub speed: String,
    pub speak_titles: bool,
    pub chapters: Vec<ChapterEntry>,
}

/// A manifest as plain values.
pub struct ManifestV {
    pub engine: Seq<char>,
    pub voice: Seq<char>,
    pub code: Seq<char>,
    pub speed: Seq<char>,
    pub speak_titles: bool,
    pub chapters: Seq<(Seq<char>, Seq<char>)>,
}

impl View for Manifest {
    type V = ManifestV;

    open spec fn view(&self) -> ManifestV {
        ManifestV {
            engine: self.engine@,
            voice: self.voice@,
            code: self.code@,
            speed: self.speed@,
            speak_titles: self.speak_titles,
            chapters: chapters_view(self.chapters@),
        }
    }
}

/// Do the render settings differ (engine, voice, code, speed or spoken titles)?
pub open spec fn spec_settings_differ(a: ManifestV, b: ManifestV) -> bool {
    a.engine != b.engine || a.voice != b.voice || a.code != b.code || a.speed != b.speed
        || a.speak_titles != b.speak_titles
}

fn eq_string(a: &String, b: &String) -> (r: bool)
    ensures
        r == (a@ == b@),
{
    eq_chars(&chars_of(a.as_str()), &chars_of(b.as_str()))
}

impl Manifest {
    /// The manifest of a render: the job's settings (speed already formatted)
    /// and its chapter entries.
    pub fn build(
        engine: &str,
        voice: &str,
        code: &str,
        speed: &str,
        speak_titles: bool,
        chapters: Vec<ChapterEntry>,
    ) -> (m: Manifest)
        ensures
            m@ == (ManifestV {
                engine: engine@,
                voice: voice@,
                code: code@,
                speed: speed@,
                speak_titles,
                chapters: chapters_view(chapters@),
            }),
    {
        Manifest {
            engine: string_of(&chars_of(engine)),
            voice: string_of(&chars_of(voice)),
            code: string_of(&chars_of(code)),
            speed: string_of(&chars_of(speed)),
            speak_titles,
            chapters,
        }
    }

    /// True if the engine, voice, code, speed or spoken-titles setting differ:
    /// that forces a full re-render whatever the chapters hold.
    pub fn settings_differ(&self, other: &Manifest) -> (r: bool)
        ensures
            r == spec_settings_differ(self@, other@),
    {
        !eq_string(&self.engine, &other.engine) || !eq_string(&self.voice, &other.voice)
            || !eq_string(&self.code, &other.code) || !eq_string(&self.speed, &other.speed)
            || self.speak_titles != other.speak_titles
    }

    /// Do two manifests describe the same render (same settings, same chapters
    /// with the same hashes, in the same order)?
    pub fn same_render(&self, other: &Manifest) -> (r: bool)
        ensures
            r == (self@ == other@),
    {
        if self.settings_differ(other) {
            return false;
        }
        if self.chapters.len() != other.chapters.len() {
            assert(self@.chapters.len() != other@.chapters.len());
            return false;
        }
        let mut i: usize = 0;
        while i < self.chapters.len()
            invariant
                0 <= i <= self.chapters@.len(),
                self.chapters@.len() == other.chapters@.len(),
                forall|k: int|
                    0 <= k < i ==> chapter_view(#[trigger] self.chapters@[k]) == chapter_view(
                        other.chapters@[k],
                    ),
            decreases self.chapters@.len() - i,
        {
            if !eq_string(&self.chapters[i].file, &other.chapters[i].file) || !eq_string(
                &self.chapters[i].sha,
                &other.chapters[i].sha,
            ) {
                assert(chapters_view(self.chapters@)[i as int] != chapters_view(
                    other.chapters@,
                )[i as int]);
                return false;
            }
            i += 1;
        }
        assert(chapters_view(self.chapters@) =~= chapters_view(other.chapters@));
        true
    }
}

/// The stem of a chapter file name for change reports: without a `.md` suffix.
pub open spec fn spec_stem(file: Seq<char>) -> Seq<char> {
    if ends_with(file, ".md"@) {
        file.take(file.len() - 3)
    } else {
        file
    }
}

fn stem_of(file: &[char]) -> (r: Vec<char>)
    ensures
        r@ == spec_stem(file@),
{
    if finishes(file, ".md") {
        proof {
            reveal_strlit(".md");
        }
        let r = sub_vec(file, 0, file.len() - 3);
        assert(r@ =~= file@.take(file@.len() - 3));
        r
    } else {
        crate::text::copy_vec(file)
    }
}

/// Why a render cannot start: a job with no chapters has nothing to render.
pub open spec fn spec_render_refusal(slug: Seq<char>, lang: Seq<char>, n_chapters: nat) -> Option<Seq<char>> {
    if n_chapters == 0 {
        Some("no chapters to render for "@ + slug + " ["@ + lang + "]"@)
    } else {
        None
    }
}

/// The error a render of `n_chapters` chapters stops with before it starts,
/// if any (see [`spec_render_refusal`]).
pub fn render_refusal(slug: &str, lang: &str, n_chapters: usize) -> (r: Option<String>)
    ensures
        opt_view(r) == spec_render_refusal(slug@, lang@, n_chapters as nat),
{
    if n_chapters == 0 {
        let mut v = chars_of("no chapters to render for ");
        push_str(&mut v, slug);
        push_str(&mut v, " [");
        push_str(&mut v, lang);
        push_str(&mut v, "]");
        Some(string_of(&v))
    } else {
        None
    }
}

/// An optional manifest as plain values.
pub open spec fn opt_manifest_view(m: Option<Manifest>) -> Option<ManifestV> {
    match m {
        Some(x) => Some(x@),
        None => None,
    }
}

/// Must the audiobook be rendered again? Yes when forced, when its file is
/// missing, or when the manifest of the last render (if any) differs from the
/// one this render would write; else every chapter is unchanged and the render
/// is skipped.
pub fn needs_render(force: bool, out_exists: bool, old: &Option<Manifest>, new: &Manifest) -> (r: bool)
    ensures
        r == (force || !out_exists || opt_manifest_view(*old) != Some(new@)),
{
    if force || !out_exists {
        return true;
    }
    match old {
        Some(o) => !o.same_render(new),
        None => true,
    }
}

/// Stem of a chapter file name (`capitulo-03.md` → `capitulo-03`).
pub fn stem(file: &str) -> (r: String)
    ensures
        r@ == spec_stem(file@),
{
    string_of(&stem_of(&chars_of(file)))
}

// ---------------------------------------------------------------------------
// Change reports
// ---------------------------------------------------------------------------

/// The hash an earlier manifest recorded for a file (its last entry wins).
pub open spec fn last_sha(chs: Seq<(Seq<char>, Seq<char>)>, file: Seq<char>) -> Option<Seq<char>>
    decreases chs.len(),
{
    if chs.len() == 0 {
        None
    } else if chs.last().0 == file {
        Some(chs.last().1)
    } else {
        last_sha(chs.drop_last(), file)
    }
}

/// Does a manifest list a file?
pub open spec fn lists_file(chs: Seq<(Seq<char>, Seq<char>)>, file: Seq<char>) -> bool {
    exists|k: int| 0 <= k < chs.len() && (#[trigger] chs[k]).0 == file
}

/// The stems of the new chapters whose hash changed.
pub open spec fn edited_stems(old: Seq<(Seq<char>, Seq<char>)>, new: Seq<(Seq<char>, Seq<char>)>) -> Seq<Seq<char>>
    decreases new.len(),
{
    if new.len() == 0 {
        seq![]
    } else {
        edited_stems(old, new.drop_last()) + match last_sha(old, new.last().0) {
            Some(s) => if s != new.last().1 {
                seq![spec_stem(new.last().0)]
            } else {
                seq![]
            },
            None => seq![],
        }
    }
}

/// The stems of the new chapters the old manifest did not have.
pub open spec fn added_stems(old: Seq<(Seq<char>, Seq<char>)>, new: Seq<(Seq<char>, Seq<char>)>) -> Seq<Seq<char>>
    decreases new.len(),
{
    if new.len() == 0 {
        seq![]
    } else {
        added_stems(old, new.drop_last()) + if last_sha(old, new.last().0) is None {
            seq![spec_stem(new.last().0)]
        } else {
            seq![]
        }
    }
}

/// The stems of the old chapters the new manifest no longer has.
pub open spec fn removed_stems(old: Seq<(Seq<char>, Seq<char>)>, new: Seq<(Seq<char>, Seq<char>)>) -> Seq<Seq<char>>
    decreases old.len(),
{
    if old.len() == 0 {
        seq![]
    } else {
        removed_stems(old.drop_last(), new) + if lists_file(new, old.last().0) {
            seq![]
        } else {
            seq![spec_stem(old.last().0)]
        }
    }
}

/// One part of a change report: `label [a, b]`, or nothing for no chapters.
pub open spec fn report_part(label: Seq<char>, stems: Seq<Seq<char>>) -> Seq<Seq<char>> {
    if stems.len() == 0 {
        seq![]
    } else {
        seq![label + " ["@ + join(stems, ", "@) + "]"@]
    }
}

/// The report line for a render, against the previous manifest if any.
pub open spec fn spec_change_report(old: Option<ManifestV>, new: ManifestV) -> Seq<char> {
    match old {
        None => "  first render — "@ + dec(new.chapters.len()) + " chapters"@,
        Some(o) => if spec_settings_differ(o, new) {
            "  voice/speed/engine changed → full re-render"@
        } else {
            let e = edited_stems(o.chapters, new.chapters);
            let a = added_stems(o.chapters, new.chapters);
            let r = removed_stems(o.chapters, new.chapters);
            if e.len() == 0 && a.len() == 0 && r.len() == 0 {
                "  re-rendering (audio missing) — "@ + dec(new.chapters.len()) + " chapters"@
            } else {
                "  changed: "@ + join(
                    report_part("edited"@, e) + report_part("added"@, a) + report_part(
                        "removed"@,
                        r,
                    ),
                    "; "@,
                ) + " → re-listen to the edited chapters"@
            }
        },
    }
}

fn last_sha_of<'a>(chs: &'a Vec<ChapterEntry>, file: &String) -> (r: Option<&'a String>)
    ensures
        match r {
            Some(s) => last_sha(chapters_view(chs@), file@) == Some(s@),
            None => last_sha(chapters_view(chs@), file@) is None,
        },
{
    let ghost cv = chapters_view(chs@);
    let mut k: usize = chs.len();
    assert(cv.take(k as int) =~= cv);
    while k > 0
        invariant
            k <= chs@.len(),
            cv == chapters_view(chs@),
            last_sha(cv, file@) == last_sha(cv.take(k as int), file@),
        decreases k,
    {
        assert(cv.take(k as int).drop_last() =~= cv.take(k as int - 1));
        assert(cv.take(k as int).last() == chapter_view(chs@[k - 1]));
        if eq_string(&chs[k - 1].file, file) {
            return Some(&chs[k - 1].sha);
        }
        k -= 1;
    }
    assert(cv.take(0) =~= Seq::<(Seq<char>, Seq<char>)>::empty());
    None
}

fn lists_file_of(chs: &Vec<ChapterEntry>, file: &String) -> (r: bool)
    ensures
        r == lists_file(chapters_view(chs@), file@),
{
    let ghost cv = chapters_view(chs@);
    let mut k: usize = 0;
    while k < chs.len()
        invariant
            0 <= k <= chs@.len(),
            cv == chapters_view(chs@),
            forall|j: int| 0 <= j < k ==> (#[trigger] cv[j]).0 != file@,
        decreases chs@.len() - k,
    {
        assert(cv[k as int] == chapter_view(chs@[k as int]));
        if eq_string(&chs[k].file, file) {
            return true;
        }
        k += 1;
    }
    false
}

fn part_into(parts: &mut Vec<Vec<char>>, label: &str, stems: &Vec<Vec<char>>)
    ensures
        views(final(parts)@) == views(old(parts)@) + report_part(label@, views(stems@)),
{
    let ghost p0 = views(parts@);
    if stems.len() > 0 {
        let mut v: Vec<char> = Vec::new();
        push_str(&mut v, label);
        push_str(&mut v, " [");
        push_slice(&mut v, &join_vecs(stems, ", "));
        push_str(&mut v, "]");
        parts.push(v);
        assert(views(parts@) =~= p0 + report_part(label@, views(stems@)));
    } else {
        assert(views(parts@) =~= p0 + report_part(label@, views(stems@)));
    }
}

/// The report line of a render: a first render, a settings change (full
/// re-render), identical content (the audio was missing), or the chapters
/// edited, added and removed since the previous manifest.
pub fn change_report(old: Option<&Manifest>, new: &Manifest) -> (r: String)
    requires
        new.chapters@.len() < usize::MAX,
    ensures
        r@ == spec_change_report(
            match old {
                Some(o) => Some(o@),
                None => None,
            },
            new@,
        ),
{
    let n = new.chapters.len();
    let o = match old {
        None => {
            let mut v: Vec<char> = Vec::new();
            push_str(&mut v, "  first render — ");
            push_slice(&mut v, &dec_chars(n));
            push_str(&mut v, " chapters");
            return string_of(&v);
        },
        Some(o) => o,
    };
    if o.settings_differ(new) {
        return string_of(&chars_of("  voice/speed/engine changed → full re-render"));
    }
    let ghost oc = chapters_view(o.chapters@);
    let ghost nc = chapters_view(new.chapters@);
    let mut edited: Vec<Vec<char>> = Vec::new();
    let mut added: Vec<Vec<char>> = Vec::new();
    let mut i: usize = 0;
    while i < n
        invariant
            0 <= i <= n,
            n == new.chapters@.len(),
            oc == chapters_view(o.chapters@),
            nc == chapters_view(new.chapters@),
            views(edited@) == edited_stems(oc, nc.take(i as int)),
            views(added@) == added_stems(oc, nc.take(i as int)),
        decreases n - i,
    {
        assert(nc.take(i as int + 1).drop_last() =~= nc.take(i as int));
        assert(nc.take(i as int + 1).last() == chapter_view(new.chapters@[i as int]));
        let c = &new.chapters[i];
        let ghost e0 = views(edited@);
        let ghost a0 = views(added@);
        match last_sha_of(&o.chapters, &c.file) {
            Some(s) => {
                if !eq_string(s, &c.sha) {
                    let st = stem_of(&chars_of(c.file.as_str()));
                    edited.push(st);
                    assert(views(edited@) =~= e0.push(spec_stem(c.file@)));
                } else {
                    assert(views(edited@) =~= e0 + Seq::<Seq<char>>::empty());
                }
                assert(views(added@) =~= a0 + Seq::<Seq<char>>::empty());
            },
            None => {
                let st = stem_of(&chars_of(c.file.as_str()));
                added.push(st);
                assert(views(added@) =~= a0.push(spec_stem(c.file@)));
                assert(views(edited@) =~= e0 + Seq::<Seq<char>>::empty());
            },
        }
        i += 1;
    }
    assert(nc.take(n as int) =~= nc);
    let mut removed: Vec<Vec<char>> = Vec::new();
    let mut j: usize = 0;
    while j < o.chapters.len()
        invariant
            0 <= j <= o.chapters@.len(),
            oc == chapters_view(o.chapters@),
            nc == chapters_view(new.chapters@),
            views(removed@) == removed_stems(oc.take(j as int), nc),
        decreases o.chapters@.len() - j,
    {
        assert(oc.take(j as int + 1).drop_last() =~= oc.take(j as int));
        assert(oc.take(j as int + 1).last() == chapter_view(o.chapters@[j as int]));
        let ghost r0 = views(removed@);
        if !lists_file_of(&new.chapters, &o.chapters[j].file) {
            removed.push(stem_of(&chars_of(o.chapters[j].file.as_str())));
            assert(views(removed@) =~= r0.push(spec_stem(o.chapters@[j as int].file@)));
        } else {
            assert(views(removed@) =~= r0 + Seq::<Seq<char>>::empty());
        }
        j += 1;
    }
    assert(oc.take(o.chapters@.len() as int) =~= oc);
    if edited.len() == 0 && added.len() == 0 && removed.len() == 0 {
        let mut v: Vec<char> = Vec::new();
        push_str(&mut v, "  re-rendering (audio missing) — ");
        push_slice(&mut v, &dec_chars(n));
        push_str(&mut v, " chapters");
        return string_of(&v);
    }
    let mut parts: Vec<Vec<char>> = Vec::new();
    part_into(&mut parts, "edited", &edited);
    part_into(&mut parts, "added", &added);
    part_into(&mut parts, "removed", &removed);
    let mut v: Vec<char> = Vec::new();
    push_str(&mut v, "  changed: ");
    push_slice(&mut v, &join_vecs(&parts, "; "));
    push_str(&mut v, " → re-listen to the edited chapters");
    assert(views(parts@) =~= report_part("edited"@, views(edited@)) + report_part(
        "added"@,
        views(added@),
    ) + report_part("removed"@, views(removed@)));
    string_of(&v)
}

// ---------------------------------------------------------------------------
// Settings resolution
// ---------------------------------------------------------------------------

/// Per-language audiobook overrides (`[audiobook.<lang>]`). The speech speed,
/// a float, is resolved beside these by the caller.
#[derive(Debug, Clone, Default)]
pub struct AudiobookLang {
    pub voice: Option<String>,
    pub code: Option<String>,
    pub speak_titles: Option<bool>,
}

/// The `[audiobook]` table of a book or of the repository, with its
/// per-language overrides in language order. The speech speed is resolved
/// beside these by the caller.
#[derive(Debug, Clone, Default)]
pub struct Audiobook {
    pub engine: Option<String>,
    pub kab_bin: Option<String>,
    pub artist: Option<String>,
    pub speak_titles: Option<bool>,
    pub lang: Vec<(String, AudiobookLang)>,
}

/// The resolved settings of one audiobook (book and language).
pub struct AudioSettings {
    pub voice: String,
    pub code: String,
    pub speak_titles: bool,
    pub artist: String,
    pub engine: String,
}

/// The overrides for `lang` in a table (its first entry), if any.
pub open spec fn lang_entry(t: Seq<(String, AudiobookLang)>, lang: Seq<char>) -> Option<AudiobookLang>
    decreases t.len(),
{
    if t.len() == 0 {
        None
    } else if t[0].0@ == lang {
        Some(t[0].1)
    } else {
        lang_entry(t.drop_first(), lang)
    }
}

/// An optional table by value.
pub open spec fn oa(a: Option<&Audiobook>) -> Option<Audiobook> {
    match a {
        Some(x) => Some(*x),
        None => None,
    }
}

/// The overrides for `lang` of an optional table.
pub open spec fn lang_of(a: Option<Audiobook>, lang: Seq<char>) -> Option<AudiobookLang> {
    match a {
        Some(x) => lang_entry(x.lang@, lang),
        None => None,
    }
}

/// A field of optional overrides.
pub open spec fn lfield(l: Option<AudiobookLang>, f: spec_fn(AudiobookLang) -> Option<String>) -> Option<Seq<char>> {
    match l {
        Some(x) => opt_view(f(x)),
        None => None,
    }
}

/// A field of an optional table.
pub open spec fn afield(a: Option<Audiobook>, f: spec_fn(Audiobook) -> Option<String>) -> Option<Seq<char>> {
    match a {
        Some(x) => opt_view(f(x)),
        None => None,
    }
}

/// The first value present, else the default.
pub open spec fn first4(a: Option<Seq<char>>, b: Option<Seq<char>>, c: Option<Seq<char>>, d: Option<Seq<char>>, e: Seq<char>) -> Seq<char> {
    crate::config::first_of(a, b, c, match d {
        Some(x) => x,
        None => e,
    })
}

/// The first flag present, else `true`.
pub open spec fn first_flag(a: Option<bool>, b: Option<bool>, c: Option<bool>, d: Option<bool>) -> bool {
    match a {
        Some(x) => x,
        None => match b {
            Some(x) => x,
            None => match c {
                Some(x) => x,
                None => match d {
                    Some(x) => x,
                    None => true,
                },
            },
        },
    }
}

/// A flag of optional overrides.
pub open spec fn lflag(l: Option<AudiobookLang>) -> Option<bool> {
    match l {
        Some(x) => x.speak_titles,
        None => None,
    }
}

/// A flag of an optional table.
pub open spec fn aflag(a: Option<Audiobook>) -> Option<bool> {
    match a {
        Some(x) => x.speak_titles,
        None => None,
    }
}

fn find_lang<'a>(a: Option<&'a Audiobook>, lang: &str) -> (r: Option<&'a AudiobookLang>)
    ensures
        match r {
            Some(l) => lang_of(oa(a), lang@) == Some(*l),
            None => lang_of(oa(a), lang@) is None,
        },
{
    match a {
        None => None,
        Some(x) => {
            let lc = chars_of(lang);
            let t = &x.lang;
            let mut i: usize = 0;
            assert(t@.skip(0) =~= t@);
            while i < t.len()
                invariant
                    0 <= i <= t@.len(),
                    lc@ == lang@,
                    lang_of(oa(a), lang@) == lang_entry(t@, lang@),
                    lang_entry(t@, lang@) == lang_entry(t@.skip(i as int), lang@),
                decreases t@.len() - i,
            {
                assert(t@.skip(i as int)[0] == t@[i as int]);
                assert(t@.skip(i as int).drop_first() =~= t@.skip(i as int + 1));
                if eq_chars(&chars_of(t[i].0.as_str()), &lc) {
                    assert(lang_entry(t@.skip(i as int), lang@) == Some(t@[i as int].1));
                    return Some(&t[i].1);
                }
                i += 1;
            }
            None
        },
    }
}

fn first_text(
    a: &Option<String>,
    b: &Option<String>,
    c: &Option<String>,
    d: &Option<String>,
    e: &str,
) -> (r: String)
    ensures
        r@ == first4(opt_view(*a), opt_view(*b), opt_view(*c), opt_view(*d), e@),
{
    match a {
        Some(x) => string_of(&chars_of(x.as_str())),
        None => match b {
            Some(x) => string_of(&chars_of(x.as_str())),
            None => match c {
                Some(x) => string_of(&chars_of(x.as_str())),
                None => match d {
                    Some(x) => string_of(&chars_of(x.as_str())),
                    None => string_of(&chars_of(e)),
                },
            },
        },
    }
}

/// The resolved settings: voice and language code from the book's, then the
/// repository's per-language overrides, else the language defaults; spoken
/// titles from the book's language, the book, the repository's language, the
/// repository, else on; the artist from the book's, the repository's
/// `[audiobook]`, the book's author, the repository's author, else the house
/// author; the engine from the book, the repository, else `kab`.
pub open spec fn spec_resolve_audio(
    repo: Option<Audiobook>,
    book: Option<Audiobook>,
    book_author: Option<Seq<char>>,
    repo_author: Option<Seq<char>>,
    lang: Seq<char>,
) -> (Seq<char>, Seq<char>, bool, Seq<char>, Seq<char>) {
    let rl = lang_of(repo, lang);
    let bl = lang_of(book, lang);
    (
        first4(lfield(bl, |l: AudiobookLang| l.voice), lfield(rl, |l: AudiobookLang| l.voice), None, None, crate::config::spec_default_voice(lang)),
        first4(lfield(bl, |l: AudiobookLang| l.code), lfield(rl, |l: AudiobookLang| l.code), None, None, crate::config::spec_default_ane_code(lang)),
        first_flag(lflag(bl), aflag(book), lflag(rl), aflag(repo)),
        first4(afield(book, |a: Audiobook| a.artist), afield(repo, |a: Audiobook| a.artist), book_author, repo_author, "Federico Ramallo"@),
        first4(afield(book, |a: Audiobook| a.engine), afield(repo, |a: Audiobook| a.engine), None, None, "kab"@),
    )
}

/// The settings as plain values.
pub open spec fn settings_view(s: AudioSettings) -> (Seq<char>, Seq<char>, bool, Seq<char>, Seq<char>) {
    (s.voice@, s.code@, s.speak_titles, s.artist@, s.engine@)
}

/// Merge the repository's and the book's `[audiobook]` tables for a language.
pub fn resolve_audio(
    repo: Option<&Audiobook>,
    book: Option<&Audiobook>,
    book_author: &Option<String>,
    repo_author: &Option<String>,
    lang: &str,
) -> (r: AudioSettings)
    ensures
        settings_view(r) == spec_resolve_audio(
            oa(repo),
            oa(book),
            opt_view(*book_author),
            opt_view(*repo_author),
            lang@,
        ),
{
    let rl = find_lang(repo, lang);
    let bl = find_lang(book, lang);
    let none: Option<String> = None;
    let bv = match bl { Some(l) => &l.voice, None => &none };
    let rv = match rl { Some(l) => &l.voice, None => &none };
    let voice = first_text(bv, rv, &none, &none, crate::config::default_voice(lang));
    let bc = match bl { Some(l) => &l.code, None => &none };
    let rc = match rl { Some(l) => &l.code, None => &none };
    let code = first_text(bc, rc, &none, &none, crate::config::default_ane_code(lang));
    let f1 = match bl { Some(l) => l.speak_titles, None => None };
    let f2 = match book { Some(a) => a.speak_titles, None => None };
    let f3 = match rl { Some(l) => l.speak_titles, None => None };
    let f4 = match repo { Some(a) => a.speak_titles, None => None };
    let speak_titles = match f1 {
        Some(x) => x,
        None => match f2 {
            Some(x) => x,
            None => match f3 {
                Some(x) => x,
                None => match f4 {
                    Some(x) => x,
                    None => true,
                },
            },
        },
    };
    let ba = match book { Some(a) => &a.artist, None => &none };
    let ra = match repo { Some(a) => &a.artist, None => &none };
    let artist = first_text(ba, ra, book_author, repo_author, "Federico Ramallo");
    let be = match book { Some(a) => &a.engine, None => &none };
    let re = match repo { Some(a) => &a.engine, None => &none };
    let engine = first_text(be, re, &none, &none, "kab");
    AudioSettings { voice, code, speak_titles, artist, engine }
}

/// Only the `kab` engine is built in; any other is refused for the job.
pub fn check_engine(slug: &str, lang: &str, engine: &str) -> (r: Result<(), String>)
    ensures
        engine@ == "kab"@ <==> r is Ok,
        r is Err ==> r->Err_0@ == slug@ + " ["@ + lang@ + "]: audiobook engine "@
            + crate::config::debug_str(engine@) + " not supported (only \"kab\")"@,
{
    if crate::text::eq_str(&chars_of(engine), "kab") {
        Ok(())
    } else {
        let mut m: Vec<char> = Vec::new();
        push_str(&mut m, slug);
        push_str(&mut m, " [");
        push_str(&mut m, lang);
        push_str(&mut m, "]: audiobook engine ");
        push_str(&mut m, crate::config::debug_quoted(engine).as_str());
        push_str(&mut m, " not supported (only \"kab\")");
        Err(string_of(&m))
    }
}

/// Where an audiobook is written: `output/<slug>/<lang>/<slug>-<lang>.m4b`.
pub fn audio_out_path(root: &str, slug: &str, lang: &str) -> (r: String)
    ensures
        r@ == crate::web::spec_output_path(root@, slug@, lang@, slug@ + "-"@ + lang@ + ".m4b"@),
{
    let mut f: Vec<char> = Vec::new();
    push_str(&mut f, slug);
    push_str(&mut f, "-");
    push_str(&mut f, lang);
    push_str(&mut f, ".m4b");
    let fs = string_of(&f);
    crate::web::output_path(root, slug, lang, fs.as_str())
}

/// `n` in decimal, zero-padded to four digits.
pub open spec fn pad4(n: nat) -> Seq<char> {
    let d = dec(n);
    if d.len() >= 4 {
        d
    } else {
        Seq::new((4 - d.len()) as nat, |i: int| '0') + d
    }
}

/// The staged name of the `i`-th chapter: `NNNN-<name>`, so that a lexical sort
/// gives the reading order.
pub fn staged_name(i: usize, name: &str) -> (r: String)
    ensures
        r@ == pad4(i as nat) + "-"@ + name@,
{
    let d = dec_chars(i);
    let mut m: Vec<char> = Vec::new();
    let mut k: usize = d.len();
    while k < 4
        invariant
            d.len() <= k,
            d.len() < 4 ==> k <= 4,
            d.len() >= 4 ==> k == d.len(),
            m@ == Seq::new((k - d.len()) as nat, |x: int| '0'),
        decreases 4 - k,
    {
        m.push('0');
        assert(m@ =~= Seq::new((k + 1 - d.len()) as nat, |x: int| '0'));
        assert(d.len() < 4);
        k += 1;
    }
    if d.len() >= 4 {
        assert(m@ =~= Seq::<char>::empty());
    }
    push_slice(&mut m, &d);
    push_str(&mut m, "-");
    push_str(&mut m, name);
    string_of(&m)
}

/// The arguments of `kab convert` for one audiobook.
pub open spec fn spec_kab_args(
    stage: Seq<char>,
    voice: Seq<char>,
    code: Seq<char>,
    title: Seq<char>,
    artist: Seq<char>,
    out: Seq<char>,
    cache_dir: Seq<char>,
    speed: Seq<char>,
    speak_titles: bool,
) -> Seq<Seq<char>> {
    seq![
        "convert"@, "--chapters-dir"@, stage, "--glob"@, "*.md"@, "--voice"@, voice, "--lang"@, code,
        "--title"@, title, "--artist"@, artist, "--out"@, out, "--cache-dir"@, cache_dir,
        "--speed"@, speed,
    ] + (if speak_titles {
        seq![]
    } else {
        seq!["--drop-title"@]
    })
}

fn push_arg(v: &mut Vec<String>, a: &str)
    ensures
        crate::typst::svs(final(v)@) == crate::typst::svs(old(v)@).push(a@),
{
    let ghost b = crate::typst::svs(v@);
    v.push(string_of(&chars_of(a)));
    assert(crate::typst::svs(v@) =~= b.push(a@));
}

/// The `kab convert` argument list: the staged chapters, voice, language code,
/// title, artist, output, chapter cache and speed (as text); `--drop-title`
/// when chapter headings are not spoken.
pub fn kab_args(
    stage: &str,
    voice: &str,
    code: &str,
    title: &str,
    artist: &str,
    out: &str,
    cache_dir: &str,
    speed: &str,
    speak_titles: bool,
) -> (r: Vec<String>)
    ensures
        crate::typst::svs(r@) == spec_kab_args(stage@, voice@, code@, title@, artist@, out@, cache_dir@, speed@, speak_titles),
{
    let mut v: Vec<String> = Vec::new();
    push_arg(&mut v, "convert");
    push_arg(&mut v, "--chapters-dir");
    push_arg(&mut v, stage);
    push_arg(&mut v, "--glob");
    push_arg(&mut v, "*.md");
    push_arg(&mut v, "--voice");
    push_arg(&mut v, voice);
    push_arg(&mut v, "--lang");
    push_arg(&mut v, code);
    push_arg(&mut v, "--title");
    push_arg(&mut v, title);
    push_arg(&mut v, "--artist");
    push_arg(&mut v, artist);
    push_arg(&mut v, "--out");
    push_arg(&mut v, out);
    push_arg(&mut v, "--cache-dir");
    push_arg(&mut v, cache_dir);
    push_arg(&mut v, "--speed");
    push_arg(&mut v, speed);
    if !speak_titles {
        push_arg(&mut v, "--drop-title");
    }
    assert(crate::typst::svs(v@) =~= spec_kab_args(stage@, voice@, code@, title@, artist@, out@, cache_dir@, speed@, speak_titles));
    v
}

// ---------------------------------------------------------------------------
// Laws
// ---------------------------------------------------------------------------

/// A settings change (engine, voice, code, speed or spoken titles) makes two
/// manifests differ, so the render is never skipped.
pub proof fn law_settings_change_forces_rerender(a: ManifestV, b: ManifestV)
    requires
        spec_settings_differ(a, b),
    ensures
        a != b,
        spec_settings_differ(b, a),
{
}

/// A changed chapter hash makes two manifests differ.
pub proof fn law_edited_chapter_breaks_equality(a: ManifestV, b: ManifestV, i: int)
    requires
        0 <= i < a.chapters.len(),
        i < b.chapters.len(),
        a.chapters[i].1 != b.chapters[i].1,
    ensures
        a != b,
{
}

/// In a manifest whose file names are distinct, the hash recorded for each
/// file is that file's own.
pub proof fn lemma_last_sha_own(c: Seq<(Seq<char>, Seq<char>)>, k: int)
    requires
        0 <= k < c.len(),
        forall|i: int, j: int| 0 <= i < j < c.len() ==> c[i].0 != c[j].0,
    ensures
        last_sha(c, c[k].0) == Some(c[k].1),
    decreases c.len(),
{
    if k < c.len() - 1 {
        assert(c.last().0 != c[k].0);
        lemma_last_sha_own(c.drop_last(), k);
    }
}

/// Against itself, a manifest with distinct file names has no edited, added
/// or removed chapter among its first `n`.
pub proof fn lemma_no_changes(c: Seq<(Seq<char>, Seq<char>)>, n: int)
    requires
        0 <= n <= c.len(),
        forall|i: int, j: int| 0 <= i < j < c.len() ==> c[i].0 != c[j].0,
    ensures
        edited_stems(c, c.take(n)).len() == 0,
        added_stems(c, c.take(n)).len() == 0,
        removed_stems(c.take(n), c).len() == 0,
    decreases n,
{
    if n > 0 {
        assert(c.take(n).drop_last() =~= c.take(n - 1));
        assert(c.take(n).last() == c[n - 1]);
        lemma_last_sha_own(c, n - 1);
        assert(lists_file(c, c[n - 1].0));
        lemma_no_changes(c, n - 1);
    }
}

/// Rendering again from an unchanged manifest (distinct chapter files) reports
/// no chapter change: the audio was missing.
pub proof fn law_unchanged_manifest_reports_missing_audio(m: ManifestV)
    requires
        forall|i: int, j: int| 0 <= i < j < m.chapters.len() ==> m.chapters[i].0 != m.chapters[j].0,
    ensures
        spec_change_report(Some(m), m) == "  re-rendering (audio missing) — "@ + dec(
            m.chapters.len(),
        ) + " chapters"@,
{
    lemma_no_changes(m.chapters, m.chapters.len() as int);
    assert(m.chapters.take(m.chapters.len() as int) =~= m.chapters);
}

/// The stem of `name.md` is `name`.
pub proof fn law_stem_strips_md(name: Seq<char>)
    ensures
        spec_stem(name + ".md"@) == name,
{
    reveal_strlit(".md");
    let f = name + ".md"@;
    assert(f.skip(f.len() - 3) =~= ".md"@);
    assert(f.take(f.len() - 3) =~= name);
}

} // verus!
