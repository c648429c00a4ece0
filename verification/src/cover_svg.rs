//! Text helpers of the cover renderer: XML escaping, case folding for phrase
//! matching, top-level comma splitting of CSS lists, filter references and
//! base64 for embedded images.
use vstd::prelude::*;
use crate::text::{chars_of, concat_map, lemma_concat_map_push, push_slice, push_str, string_of, trim, trimmed};

verus! {

/// One character escaped for XML text (`& < >`).
pub open spec fn esc_char(c: char) -> Seq<char> {
    if c == '&' {
        "&amp;"@
    } else if c == '<' {
        "&lt;"@
    } else if c == '>' {
        "&gt;"@
    } else {
        seq![c]
    }
}

/// XML-escaped text content (`& < >`).
pub open spec fn spec_esc(s: Seq<char>) -> Seq<char> {
    concat_map(s, |c: char| esc_char(c))
}

fn esc_into(out: &mut Vec<char>, s: &[char])
    ensures
        final(out)@ == old(out)@ + spec_esc(s@),
{
    let ghost o0 = out@;
    let mut i: usize = 0;
    while i < s.len()
        invariant
            0 <= i <= s@.len(),
            out@ == o0 + spec_esc(s@.take(i as int)),
        decreases s@.len() - i,
    {
        let c = s[i];
        if c == '&' {
            push_str(out, "&amp;");
        } else if c == '<' {
            push_str(out, "&lt;");
        } else if c == '>' {
            push_str(out, "&gt;");
        } else {
            out.push(c);
        }
        proof {
            lemma_concat_map_push(s@.take(i as int), c, |c: char| esc_char(c));
            assert(s@.take(i as int + 1) =~= s@.take(i as int).push(c));
        }
        i += 1;
    }
    assert(s@.take(s@.len() as int) =~= s@);
}

/// XML-escape text content (`& < >`).
pub fn esc(s: &str) -> (r: String)
    ensures
        r@ == spec_esc(s@),
{
    let mut out: Vec<char> = Vec::new();
    esc_into(&mut out, &chars_of(s));
    assert(out@ =~= spec_esc(s@));
    string_of(&out)
}

/// One character escaped for an XML attribute value (`& < "`).
pub open spec fn attr_char(c: char) -> Seq<char> {
    if c == '&' {
        "&amp;"@
    } else if c == '<' {
        "&lt;"@
    } else if c == '"' {
        "&quot;"@
    } else {
        seq![c]
    }
}

/// An XML-escaped attribute value (`& < "`).
pub open spec fn spec_xml_attr(s: Seq<char>) -> Seq<char> {
    concat_map(s, |c: char| attr_char(c))
}

/// XML-escape an attribute value.
pub fn xml_attr(s: &str) -> (r: String)
    ensures
        r@ == spec_xml_attr(s@),
{
    let v = chars_of(s);
    let mut out: Vec<char> = Vec::new();
    let mut i: usize = 0;
    while i < v.len()
        invariant
            0 <= i <= v@.len(),
            out@ == spec_xml_attr(v@.take(i as int)),
        decreases v@.len() - i,
    {
        let c = v[i];
        if c == '&' {
            push_str(&mut out, "&amp;");
        } else if c == '<' {
            push_str(&mut out, "&lt;");
        } else if c == '"' {
            push_str(&mut out, "&quot;");
        } else {
            out.push(c);
        }
        proof {
            lemma_concat_map_push(v@.take(i as int), c, |c: char| attr_char(c));
            assert(v@.take(i as int + 1) =~= v@.take(i as int).push(c));
        }
        i += 1;
    }
    assert(v@.take(v@.len() as int) =~= v@);
    string_of(&out)
}

/// What `str::to_uppercase` gives for a text (Unicode case mapping).
pub uninterp spec fn str_upper(s: Seq<char>) -> Seq<char>;

/// `str::to_uppercase`; the result is named, not described.
#[verifier::external_body]
fn upper_text(s: &str) -> (r: String)
    ensures
        r@ == str_upper(s@),
{
    s.to_uppercase()
}

/// Unicode upper case, then XML-escaped (badge and author text).
pub fn up(s: &str) -> (r: String)
    ensures
        r@ == spec_esc(str_upper(s@)),
{
    let u = upper_text(s);
    esc(u.as_str())
}

/// What `char::is_alphanumeric` says of a character.
pub uninterp spec fn alnum(c: char) -> bool;

/// What `char::to_lowercase` gives for a character (one or more characters).
pub uninterp spec fn char_lower(c: char) -> Seq<char>;

/// `char::is_alphanumeric`; the answer is named, not described.
#[verifier::external_body]
pub(crate) fn is_alnum(c: char) -> (r: bool)
    ensures
        r == alnum(c),
{
    c.is_alphanumeric()
}

/// `char::to_lowercase`, collected; the result is named, not described.
#[verifier::external_body]
fn lower_of(c: char) -> (r: String)
    ensures
        r@ == char_lower(c),
{
    c.to_lowercase().collect::<String>()
}

/// A lower-case Spanish accented vowel or ñ without its accent.
pub open spec fn deaccent(c: char) -> char {
    if c == 'á' {
        'a'
    } else if c == 'é' {
        'e'
    } else if c == 'í' {
        'i'
    } else if c == 'ó' {
        'o'
    } else if c == 'ú' || c == 'ü' {
        'u'
    } else if c == 'ñ' {
        'n'
    } else {
        c
    }
}

/// What a character of a word contributes to its folded form.
pub open spec fn fold_char(c: char) -> Seq<char> {
    if alnum(c) {
        char_lower(c).map_values(|x: char| deaccent(x))
    } else {
        seq![]
    }
}

/// A word folded for phrase matching: alphanumerics only, lower case, common
/// Spanish accents removed (`«Donde` → `donde`).
pub open spec fn spec_fold(w: Seq<char>) -> Seq<char> {
    concat_map(w, |c: char| fold_char(c))
}

fn deaccent_exec(c: char) -> (r: char)
    ensures
        r == deaccent(c),
{
    if c == 'á' {
        'a'
    } else if c == 'é' {
        'e'
    } else if c == 'í' {
        'i'
    } else if c == 'ó' {
        'o'
    } else if c == 'ú' || c == 'ü' {
        'u'
    } else if c == 'ñ' {
        'n'
    } else {
        c
    }
}

/// Fold a word for phrase matching.
pub fn fold(w: &str) -> (r: String)
    ensures
        r@ == spec_fold(w@),
{
    let v = chars_of(w);
    let mut out: Vec<char> = Vec::new();
    let mut i: usize = 0;
    while i < v.len()
        invariant
            0 <= i <= v@.len(),
            out@ == spec_fold(v@.take(i as int)),
        decreases v@.len() - i,
    {
        let c = v[i];
        let ghost o0 = out@;
        if is_alnum(c) {
            let l = chars_of(lower_of(c).as_str());
            let mut j: usize = 0;
            while j < l.len()
                invariant
                    0 <= j <= l@.len(),
                    l@ == char_lower(c),
                    out@ == o0 + l@.take(j as int).map_values(|x: char| deaccent(x)),
                decreases l@.len() - j,
            {
                out.push(deaccent_exec(l[j]));
                assert(l@.take(j as int + 1).map_values(|x: char| deaccent(x)) =~= l@.take(
                    j as int,
                ).map_values(|x: char| deaccent(x)).push(deaccent(l@[j as int])));
                j += 1;
            }
            assert(l@.take(l@.len() as int) =~= l@);
        }
        proof {
            lemma_concat_map_push(v@.take(i as int), c, |c: char| fold_char(c));
            assert(v@.take(i as int + 1) =~= v@.take(i as int).push(c));
        }
        assert(out@ =~= o0 + fold_char(c));
        i += 1;
    }
    assert(v@.take(v@.len() as int) =~= v@);
    string_of(&out)
}

/// The `filter` attribute that applies a filter definition (nothing for none).
pub open spec fn spec_attr_filter(id: Seq<char>) -> Seq<char> {
    if id.len() == 0 {
        seq![]
    } else {
        " filter=\"url(#"@ + id + ")\""@
    }
}

/// The `filter` attribute for a filter id (empty when there is no filter).
pub fn attr_filter(id: &str) -> (r: String)
    ensures
        r@ == spec_attr_filter(id@),
{
    let v = chars_of(id);
    let mut out: Vec<char> = Vec::new();
    if v.len() > 0 {
        push_str(&mut out, " filter=\"url(#");
        push_slice(&mut out, &v);
        push_str(&mut out, ")\"");
    }
    string_of(&out)
}

// ---------------------------------------------------------------------------
// Top-level commas
// ---------------------------------------------------------------------------

/// The scan of `s[..k]`: bracket depth, the piece being read, pieces done.
pub open spec fn comma_scan(s: Seq<char>, k: int) -> (int, Seq<char>, Seq<Seq<char>>)
    decreases k,
{
    if k <= 0 || k > s.len() {
        (0, seq![], seq![])
    } else {
        let (d, cur, out) = comma_scan(s, k - 1);
        let c = s[k - 1];
        if c == '(' {
            (d + 1, cur.push(c), out)
        } else if c == ')' {
            (d - 1, cur.push(c), out)
        } else if c == ',' && d == 0 {
            (d, seq![], out.push(cur))
        } else {
            (d, cur.push(c), out)
        }
    }
}

/// A list split at the commas outside brackets; a last piece that is blank
/// is dropped.
pub open spec fn spec_split_top_commas(s: Seq<char>) -> Seq<Seq<char>> {
    let (d, cur, out) = comma_scan(s, s.len() as int);
    if trim(cur).len() > 0 {
        out.push(cur)
    } else {
        out
    }
}

/// Split a CSS list at its top-level commas (not those inside `rgba(...)`).
pub fn split_top_commas(s: &str) -> (r: Vec<String>)
    ensures
        crate::typst::svs(r@) == spec_split_top_commas(s@),
{
    let v = chars_of(s);
    let mut out: Vec<Vec<char>> = Vec::new();
    let mut cur: Vec<char> = Vec::new();
    let mut depth: i128 = 0;
    let mut i: usize = 0;
    while i < v.len()
        invariant
            0 <= i <= v@.len(),
            v@ == s@,
            -(i as int) <= depth <= i as int,
            comma_scan(v@, i as int) == (depth as int, cur@, crate::text::views(out@)),
        decreases v@.len() - i,
    {
        let c = v[i];
        if c == '(' {
            depth = depth + 1;
            cur.push(c);
        } else if c == ')' {
            depth = depth - 1;
            cur.push(c);
        } else if c == ',' && depth == 0 {
            let piece = cur;
            let ghost o0 = crate::text::views(out@);
            let ghost pv = piece@;
            out.push(piece);
            assert(crate::text::views(out@) =~= o0.push(pv));
            cur = Vec::new();
        } else {
            cur.push(c);
        }
        i += 1;
    }
    if trimmed(&cur).len() > 0 {
        let ghost o0 = crate::text::views(out@);
        let ghost cv = cur@;
        out.push(cur);
        assert(crate::text::views(out@) =~= o0.push(cv));
    }
    crate::typst::strings_of(&out)
}

// ---------------------------------------------------------------------------
// Base64
// ---------------------------------------------------------------------------

/// The standard base64 alphabet.
pub open spec fn b64_char(i: nat) -> char {
    if i < 26 {
        (65 + i) as char
    } else if i < 52 {
        (71 + i) as char
    } else if i < 62 {
        (i - 4) as char
    } else if i == 62 {
        '+'
    } else {
        '/'
    }
}

/// The four characters of one group of up to three bytes (`=` padding).
pub open spec fn b64_group(chunk: Seq<u8>) -> Seq<char> {
    let a = chunk[0] as nat;
    let b = if chunk.len() > 1 {
        chunk[1] as nat
    } else {
        0
    };
    let c = if chunk.len() > 2 {
        chunk[2] as nat
    } else {
        0
    };
    let n = a * 65536 + b * 256 + c;
    seq![
        b64_char((n / 262144) % 64),
        b64_char((n / 4096) % 64),
        if chunk.len() > 1 {
            b64_char((n / 64) % 64)
        } else {
            '='
        },
        if chunk.len() > 2 {
            b64_char(n % 64)
        } else {
            '='
        },
    ]
}

/// Standard padded base64 of `data[i..]`.
pub open spec fn b64_from(data: Seq<u8>, i: int) -> Seq<char>
    decreases data.len() - i,
{
    if i < 0 || i >= data.len() {
        seq![]
    } else {
        let end = if i + 3 < data.len() {
            i + 3
        } else {
            data.len() as int
        };
        b64_group(data.subrange(i, end)) + if i + 3 < data.len() {
            b64_from(data, i + 3)
        } else {
            seq![]
        }
    }
}

/// Standard padded base64 of some bytes.
pub open spec fn spec_b64(data: Seq<u8>) -> Seq<char> {
    b64_from(data, 0)
}

fn b64_digit(i: u32) -> (c: char)
    requires
        i < 64,
    ensures
        c == b64_char(i as nat),
{
    if i < 26 {
        crate::text::char_from_ascii(65 + i)
    } else if i < 52 {
        crate::text::char_from_ascii(71 + i)
    } else if i < 62 {
        crate::text::char_from_ascii(i - 4)
    } else if i == 62 {
        '+'
    } else {
        '/'
    }
}

/// Standard base64 (with padding).
pub fn b64(data: &[u8]) -> (r: String)
    ensures
        r@ == spec_b64(data@),
{
    let len = data.len();
    let mut out: Vec<char> = Vec::new();
    let mut i: usize = 0;
    while i < len
        invariant
            len == data@.len(),
            0 <= i,
            spec_b64(data@) == out@ + b64_from(data@, i as int),
        decreases len - i,
    {
        let end = if len - i > 3 {
            i + 3
        } else {
            len
        };
        let a = data[i] as u32;
        let b = if end - i > 1 {
            data[i + 1] as u32
        } else {
            0
        };
        let c = if end - i > 2 {
            data[i + 2] as u32
        } else {
            0
        };
        let n = a * 65536 + b * 256 + c;
        let ghost chunk = data@.subrange(i as int, end as int);
        let ghost o0 = out@;
        out.push(b64_digit((n / 262144) % 64));
        out.push(b64_digit((n / 4096) % 64));
        if end - i > 1 {
            out.push(b64_digit((n / 64) % 64));
        } else {
            out.push('=');
        }
        if end - i > 2 {
            out.push(b64_digit(n % 64));
        } else {
            out.push('=');
        }
        assert(out@ =~= o0 + b64_group(chunk));
        if len - i <= 3 {
            i = len;
        } else {
            i = i + 3;
        }
    }
    string_of(&out)
}

// ---------------------------------------------------------------------------
// Font faces and embedded images
// ---------------------------------------------------------------------------

/// A bundled font face, as the face picker reads it.
#[derive(Debug, Clone)]
pub struct FontFace {
    pub family: String,
    pub weight: u16,
    pub italic: bool,
}

/// How far a face is from the asked weight and style: the weight difference,
/// plus 1000 when the style differs.
pub open spec fn face_cost(f: FontFace, weight: u16, italic: bool) -> int {
    (if f.weight >= weight {
        f.weight - weight
    } else {
        weight - f.weight
    }) + if f.italic != italic {
        1000int
    } else {
        0int
    }
}

/// Is the face of the asked family (ignoring ASCII case)?
pub open spec fn face_of(f: FontFace, family: Seq<char>) -> bool {
    crate::lint::eq_ci(f.family@, family)
}

/// The cheapest face of the family among the first `n` (the first of equals),
/// with its cost.
pub open spec fn best_face(fs: Seq<FontFace>, family: Seq<char>, weight: u16, italic: bool, n: int) -> Option<(int, int)>
    decreases n,
{
    if n <= 0 || n > fs.len() {
        None
    } else {
        let b = best_face(fs, family, weight, italic, n - 1);
        let c = face_cost(fs[n - 1], weight, italic);
        let better = match b {
            Some(x) => c < x.1,
            None => true,
        };
        if face_of(fs[n - 1], family) && better {
            Some((n - 1, c))
        } else {
            b
        }
    }
}

/// The face used for a family, weight and style: the cheapest face of the
/// family, else the first face.
pub open spec fn spec_pick_face(fs: Seq<FontFace>, family: Seq<char>, weight: u16, italic: bool) -> int {
    match best_face(fs, family, weight, italic, fs.len() as int) {
        Some(b) => b.0,
        None => 0,
    }
}

/// Pick the bundled face that best matches a family, weight and style.
pub fn pick_face(fonts: &Vec<FontFace>, family: &str, weight: u16, italic: bool) -> (r: usize)
    ensures
        r as int == spec_pick_face(fonts@, family@, weight, italic),
{
    let fam = chars_of(family);
    let mut best: Option<(usize, i32)> = None;
    let mut i: usize = 0;
    while i < fonts.len()
        invariant
            0 <= i <= fonts@.len(),
            fam@ == family@,
            match best {
                Some((k, c)) => best_face(fonts@, family@, weight, italic, i as int) == Some((k as int, c as int)),
                None => best_face(fonts@, family@, weight, italic, i as int) is None,
            },
        decreases fonts@.len() - i,
    {
        let f = &fonts[i];
        if crate::lint::eq_ignore_case(&chars_of(f.family.as_str()), &fam) {
            let fw = f.weight as i32;
            let w = weight as i32;
            let mut cost: i32 = if fw >= w {
                fw - w
            } else {
                w - fw
            };
            if f.italic != italic {
                cost = cost + 1000;
            }
            let better = match best {
                None => true,
                Some((_, c)) => cost < c,
            };
            if better {
                best = Some((i, cost));
            }
        }
        i += 1;
    }
    match best {
        Some((k, _)) => k,
        None => 0,
    }
}

/// The media type of an image file by its extension (any ASCII case).
pub open spec fn spec_image_mime(ext: Option<Seq<char>>) -> Seq<char> {
    match ext {
        Some(e) => {
            let l = crate::text::lower_seq(e);
            if l == "png"@ {
                "image/png"@
            } else if l == "jpg"@ || l == "jpeg"@ {
                "image/jpeg"@
            } else if l == "webp"@ {
                "image/webp"@
            } else {
                "application/octet-stream"@
            }
        },
        None => "application/octet-stream"@,
    }
}

fn lower_chars(v: &Vec<char>) -> (r: Vec<char>)
    ensures
        r@ == crate::text::lower_seq(v@),
{
    let mut out: Vec<char> = Vec::new();
    let mut i: usize = 0;
    while i < v.len()
        invariant
            0 <= i <= v@.len(),
            out@ == crate::text::lower_seq(v@.take(i as int)),
        decreases v@.len() - i,
    {
        out.push(crate::text::to_lower(v[i]));
        assert(crate::text::lower_seq(v@.take(i as int + 1)) =~= crate::text::lower_seq(v@.take(i as int)).push(crate::text::lower(v@[i as int])));
        i += 1;
    }
    assert(v@.take(v@.len() as int) =~= v@);
    out
}

/// An image file's bytes as a `data:` URI (`ext` is the file's extension).
pub fn data_uri(ext: Option<&str>, bytes: &[u8]) -> (r: String)
    ensures
        r@ == "data:"@ + spec_image_mime(
            match ext {
                Some(e) => Some(e@),
                None => None,
            },
        ) + ";base64,"@ + spec_b64(bytes@),
{
    let mime = match ext {
        None => "application/octet-stream",
        Some(e) => {
            let l = lower_chars(&chars_of(e));
            if crate::text::eq_str(&l, "png") {
                "image/png"
            } else if crate::text::eq_str(&l, "jpg") || crate::text::eq_str(&l, "jpeg") {
                "image/jpeg"
            } else if crate::text::eq_str(&l, "webp") {
                "image/webp"
            } else {
                "application/octet-stream"
            }
        },
    };
    let mut m: Vec<char> = Vec::new();
    push_str(&mut m, "data:");
    push_str(&mut m, mime);
    push_str(&mut m, ";base64,");
    push_str(&mut m, b64(bytes).as_str());
    string_of(&m)
}

// ---------------------------------------------------------------------------
// Laws
// ---------------------------------------------------------------------------

/// The picked face is of the asked family whenever the family has a face, and
/// no face of the family costs less than it.
pub proof fn law_pick_face_is_cheapest(fs: Seq<FontFace>, family: Seq<char>, weight: u16, italic: bool, n: int)
    requires
        0 <= n <= fs.len(),
    ensures
        match best_face(fs, family, weight, italic, n) {
            Some(b) => 0 <= b.0 < n && face_of(fs[b.0], family) && b.1 == face_cost(fs[b.0], weight, italic)
                && forall|k: int| 0 <= k < n && face_of(#[trigger] fs[k], family) ==> face_cost(fs[k], weight, italic) >= b.1,
            None => forall|k: int| 0 <= k < n ==> !face_of(#[trigger] fs[k], family),
        },
    decreases n,
{
    if n > 0 {
        law_pick_face_is_cheapest(fs, family, weight, italic, n - 1);
    }
}

/// Base64 turns each started group of three bytes into four characters.
pub proof fn law_b64_length(data: Seq<u8>, i: int)
    requires
        0 <= i <= data.len(),
    ensures
        b64_from(data, i).len() == 4 * ((data.len() - i + 2) / 3),
    decreases data.len() - i,
{
    if i < data.len() && i + 3 < data.len() {
        law_b64_length(data, i + 3);
    }
}

/// Escaped text holds no `<` or `>`.
pub proof fn law_esc_safe(s: Seq<char>)
    ensures
        !spec_esc(s).contains('<'),
        !spec_esc(s).contains('>'),
    decreases s.len(),
{
    if s.len() > 0 {
        law_esc_safe(s.drop_last());
        reveal_strlit("&amp;");
        reveal_strlit("&lt;");
        reveal_strlit("&gt;");
        let a = spec_esc(s.drop_last());
        let b = esc_char(s.last());
        assert forall|c: char| c == '<' || c == '>' implies !(a + b).contains(c) by {
            if (a + b).contains(c) {
                let k = choose|k: int| 0 <= k < (a + b).len() && (a + b)[k] == c;
                if k < a.len() {
                    assert(a[k] == c);
                } else {
                    assert(b[k - a.len()] == c);
                }
            }
        }
    }
}

} // verus!
