//! Character-sequence primitives shared by every text scanner of the library.
//!
//! The library reads and writes text as sequences of Unicode scalar values
//! (`Seq<char>`, the view of `str` and `String`). Each scanner works on a
//! `Vec<char>` copy of its input and builds its output the same way.
use vstd::prelude::*;
use vstd::string::*;

verus! {

// ---------------------------------------------------------------------------
// Character classes
// ---------------------------------------------------------------------------

/// Unicode `White_Space`, the class `char::is_whitespace` tests.
pub open spec fn is_ws(c: char) -> bool {
    ||| c == ' ' || c == '\t' || c == '\n' || c == '\r'
    ||| c == '\u{0B}' || c == '\u{0C}' || c == '\u{85}' || c == '\u{A0}'
    ||| c == '\u{1680}' || ('\u{2000}' <= c && c <= '\u{200A}')
    ||| c == '\u{2028}' || c == '\u{2029}' || c == '\u{202F}' || c == '\u{205F}'
    ||| c == '\u{3000}'
}

pub fn ws(c: char) -> (r: bool)
    ensures
        r == is_ws(c),
{
    c == ' ' || c == '\t' || c == '\n' || c == '\r' || c == '\u{0B}' || c == '\u{0C}' || c
        == '\u{85}' || c == '\u{A0}' || c == '\u{1680}' || ('\u{2000}' <= c && c <= '\u{200A}')
        || c == '\u{2028}' || c == '\u{2029}' || c == '\u{202F}' || c == '\u{205F}' || c
        == '\u{3000}'
}

pub open spec fn is_digit(c: char) -> bool {
    '0' <= c && c <= '9'
}

pub fn digit(c: char) -> (r: bool)
    ensures
        r == is_digit(c),
{
    '0' <= c && c <= '9'
}

pub open spec fn is_lower(c: char) -> bool {
    'a' <= c && c <= 'z'
}

pub open spec fn is_upper(c: char) -> bool {
    'A' <= c && c <= 'Z'
}

/// ASCII lowercase of one character (other characters are unchanged).
pub open spec fn lower(c: char) -> char {
    if is_upper(c) {
        ((c as u32) + 32) as char
    } else {
        c
    }
}

pub fn to_lower(c: char) -> (r: char)
    ensures
        r == lower(c),
{
    if 'A' <= c && c <= 'Z' {
        let u: u32 = (c as u32) + 32;
        assert('a' as u32 <= u <= 'z' as u32);
        char_from_ascii(u)
    } else {
        c
    }
}

pub(crate) fn char_from_ascii(u: u32) -> (c: char)
    requires
        u < 128,
    ensures
        c == u as char,
        c as u32 == u,
{
    let b: u8 = u as u8;
    b as char
}

/// ASCII lowercase of a whole sequence.
pub open spec fn lower_seq(s: Seq<char>) -> Seq<char> {
    s.map_values(|c: char| lower(c))
}

// ---------------------------------------------------------------------------
// Conversions between `str`/`String` and `Vec<char>`
// ---------------------------------------------------------------------------

/// The characters of `s`, in order.
pub fn chars_of(s: &str) -> (v: Vec<char>)
    ensures
        v@ == s@,
{
    let mut v: Vec<char> = Vec::new();
    broadcast use vstd::string::group_string_axioms;

    for c in it: s.chars()
        invariant
            v@ == it.seq().take(it.index() as int),
            it.seq() == s@,
    {
        v.push(c);
        assert(v@ == it.seq().take(it.index() as int + 1));
    }
    v
}

/// `String::push`: appends one character.
#[verifier::external_body]
pub fn push_char(s: &mut String, c: char)
    ensures
        final(s)@ == old(s)@.push(c),
{
    s.push(c);
}

/// What `str::to_lowercase` gives for a string (full Unicode case mapping).
pub uninterp spec fn str_lower(s: Seq<char>) -> Seq<char>;

/// `str::to_lowercase`; the result is named, not described.
#[verifier::external_body]
pub(crate) fn lower_text(s: &str) -> (r: String)
    ensures
        r@ == str_lower(s@),
{
    s.to_lowercase()
}

/// A `String` holding exactly the characters `v`.
pub fn string_of(v: &[char]) -> (s: String)
    ensures
        s@ == v@,
{
    let mut s = String::new();
    let mut i: usize = 0;
    while i < v.len()
        invariant
            0 <= i <= v@.len(),
            s@ == v@.take(i as int),
        decreases v@.len() - i,
    {
        push_char(&mut s, v[i]);
        assert(v@.take(i as int + 1) == v@.take(i as int).push(v@[i as int]));
        i += 1;
    }
    assert(v@.take(v@.len() as int) == v@);
    s
}

/// A fresh `String` with the characters of `s`.
pub fn copy_string(s: &str) -> (r: String)
    ensures
        r@ == s@,
{
    string_of(&chars_of(s))
}

/// Append the characters `v` to the string `s`.
pub fn append_chars(s: &mut String, v: &[char])
    ensures
        final(s)@ == old(s)@ + v@,
{
    let ghost s0 = s@;
    let mut i: usize = 0;
    while i < v.len()
        invariant
            0 <= i <= v@.len(),
            s@ == s0 + v@.take(i as int),
        decreases v@.len() - i,
    {
        push_char(s, v[i]);
        assert(v@.take(i as int + 1) == v@.take(i as int).push(v@[i as int]));
        i += 1;
    }
    assert(v@.take(v@.len() as int) == v@);
}

/// Append the characters of `t` to `v`.
pub fn push_str(v: &mut Vec<char>, t: &str)
    ensures
        final(v)@ == old(v)@ + t@,
{
    let c = chars_of(t);
    push_slice(v, &c);
}

/// Append the characters of `t` to `v`.
pub fn push_slice(v: &mut Vec<char>, t: &[char])
    ensures
        final(v)@ == old(v)@ + t@,
{
    let ghost v0 = v@;
    let mut i: usize = 0;
    while i < t.len()
        invariant
            0 <= i <= t@.len(),
            v@ == v0 + t@.take(i as int),
        decreases t@.len() - i,
    {
        v.push(t[i]);
        assert(t@.take(i as int + 1) == t@.take(i as int).push(t@[i as int]));
        i += 1;
    }
    assert(t@.take(t@.len() as int) == t@);
}

/// A fresh vector holding `t[from..to]`.
pub fn sub_vec(t: &[char], from: usize, to: usize) -> (v: Vec<char>)
    requires
        from <= to <= t@.len(),
    ensures
        v@ == t@.subrange(from as int, to as int),
{
    let mut v: Vec<char> = Vec::new();
    let mut i: usize = from;
    while i < to
        invariant
            from <= i <= to <= t@.len(),
            v@ == t@.subrange(from as int, i as int),
        decreases to - i,
    {
        v.push(t[i]);
        assert(t@.subrange(from as int, i as int + 1) == t@.subrange(from as int, i as int).push(
            t@[i as int],
        ));
        i += 1;
    }
    v
}

/// Copy of a char vector.
pub fn copy_vec(t: &[char]) -> (v: Vec<char>)
    ensures
        v@ == t@,
{
    let v = sub_vec(t, 0, t.len());
    assert(t@.subrange(0, t@.len() as int) == t@);
    v
}

/// `String` copy of `t[from..to]`.
pub fn sub_string(t: &[char], from: usize, to: usize) -> (s: String)
    requires
        from <= to <= t@.len(),
    ensures
        s@ == t@.subrange(from as int, to as int),
{
    let v = sub_vec(t, from, to);
    string_of(&v)
}

/// Character-wise equality of two sequences.
pub fn eq_chars(a: &[char], b: &[char]) -> (r: bool)
    ensures
        r == (a@ == b@),
{
    if a.len() != b.len() {
        return false;
    }
    let mut i: usize = 0;
    while i < a.len()
        invariant
            a@.len() == b@.len(),
            0 <= i <= a@.len(),
            forall|k: int| 0 <= k < i ==> a@[k] == b@[k],
        decreases a@.len() - i,
    {
        if a[i] != b[i] {
            return false;
        }
        i += 1;
    }
    assert(a@ =~= b@);
    true
}

/// Equality of a character sequence and a string.
pub fn eq_str(a: &[char], b: &str) -> (r: bool)
    ensures
        r == (a@ == b@),
{
    let bv = chars_of(b);
    eq_chars(a, &bv)
}

// ---------------------------------------------------------------------------
// Trimming
// ---------------------------------------------------------------------------

/// Number of leading whitespace characters of `s[from..]`.
pub open spec fn ws_run(s: Seq<char>, from: int) -> int
    decreases s.len() - from,
{
    if from < 0 || from >= s.len() || !is_ws(s[from]) {
        0
    } else {
        1 + ws_run(s, from + 1)
    }
}

/// Number of trailing whitespace characters of `s[..to]`.
pub open spec fn ws_run_back(s: Seq<char>, to: int) -> int
    decreases to,
{
    if to <= 0 || to > s.len() || !is_ws(s[to - 1]) {
        0
    } else {
        1 + ws_run_back(s, to - 1)
    }
}

/// `str::trim_start`.
pub open spec fn trim_start(s: Seq<char>) -> Seq<char> {
    s.skip(ws_run(s, 0))
}

/// `str::trim_end`.
pub open spec fn trim_end(s: Seq<char>) -> Seq<char> {
    s.take(s.len() - ws_run_back(s, s.len() as int))
}

/// `str::trim`.
pub open spec fn trim(s: Seq<char>) -> Seq<char> {
    trim_end(trim_start(s))
}

pub proof fn lemma_ws_run_bounds(s: Seq<char>, from: int)
    requires
        0 <= from <= s.len(),
    ensures
        0 <= ws_run(s, from) <= s.len() - from,
        forall|k: int| from <= k < from + ws_run(s, from) ==> is_ws(#[trigger] s[k]),
        from + ws_run(s, from) < s.len() ==> !is_ws(s[from + ws_run(s, from)]),
    decreases s.len() - from,
{
    if from < s.len() && is_ws(s[from]) {
        lemma_ws_run_bounds(s, from + 1);
    }
}

pub proof fn lemma_ws_run_back_bounds(s: Seq<char>, to: int)
    requires
        0 <= to <= s.len(),
    ensures
        0 <= ws_run_back(s, to) <= to,
        forall|k: int| to - ws_run_back(s, to) <= k < to ==> is_ws(#[trigger] s[k]),
        to - ws_run_back(s, to) > 0 ==> !is_ws(s[to - ws_run_back(s, to) - 1]),
    decreases to,
{
    if to > 0 && is_ws(s[to - 1]) {
        lemma_ws_run_back_bounds(s, to - 1);
    }
}

/// Index of the first non-whitespace character of `s[from..]` (or `s.len()`).
pub fn skip_ws(s: &[char], from: usize) -> (r: usize)
    requires
        from <= s@.len(),
    ensures
        r == from + ws_run(s@, from as int),
        from <= r <= s@.len(),
{
    proof {
        lemma_ws_run_bounds(s@, from as int);
    }
    let mut i = from;
    while i < s.len() && ws(s[i])
        invariant
            from <= i <= s@.len(),
            ws_run(s@, from as int) == (i - from) + ws_run(s@, i as int),
        decreases s@.len() - i,
    {
        i += 1;
    }
    i
}

/// Index one past the last non-whitespace character of `s[..to]` (or 0).
pub fn skip_ws_back(s: &[char], to: usize) -> (r: usize)
    requires
        to <= s@.len(),
    ensures
        r == to - ws_run_back(s@, to as int),
        r <= to,
{
    proof {
        lemma_ws_run_back_bounds(s@, to as int);
    }
    let mut j = to;
    while j > 0 && ws(s[j - 1])
        invariant
            0 <= j <= to <= s@.len(),
            ws_run_back(s@, to as int) == (to - j) + ws_run_back(s@, j as int),
        decreases j,
    {
        j -= 1;
    }
    j
}

/// The bounds `(a, b)` of `trim(s)` inside `s`.
pub fn trim_bounds(s: &[char]) -> (r: (usize, usize))
    ensures
        r.0 <= r.1 <= s@.len(),
        s@.subrange(r.0 as int, r.1 as int) == trim(s@),
        r.0 as int == ws_run(s@, 0),
{
    let a = skip_ws(s, 0);
    let b = skip_ws_back(s, s.len());
    proof {
        let t = s@.skip(a as int);
        lemma_ws_run_back_bounds(s@, s@.len() as int);
        lemma_ws_run_back_bounds(t, t.len() as int);
        lemma_ws_run_bounds(s@, 0);
        lemma_trim_end_suffix(s@, a as int);
    }
    if b < a {
        proof {
            lemma_ws_run_bounds(s@, 0);
        }
        (a, a)
    } else {
        (a, b)
    }
}

/// Trailing whitespace of `s[a..]` is that of `s` (when it does not reach back past `a`),
/// and is all of `s[a..]` otherwise.
pub proof fn lemma_trim_end_suffix(s: Seq<char>, a: int)
    requires
        0 <= a <= s.len(),
    ensures
        ({
            let t = s.skip(a);
            let b = s.len() - ws_run_back(s, s.len() as int);
            &&& b >= a ==> t.len() - ws_run_back(t, t.len() as int) == b - a
            &&& b < a ==> ws_run_back(t, t.len() as int) == t.len()
        }),
{
    let t = s.skip(a);
    lemma_back_suffix(s, a, s.len() as int);
}

proof fn lemma_back_suffix(s: Seq<char>, a: int, to: int)
    requires
        0 <= a <= to <= s.len(),
    ensures
        ({
            let t = s.skip(a);
            let b = to - ws_run_back(s, to);
            &&& b >= a ==> ws_run_back(t, to - a) == ws_run_back(s, to)
            &&& b < a ==> ws_run_back(t, to - a) == to - a
        }),
    decreases to,
{
    let t = s.skip(a);
    if to > a {
        if is_ws(s[to - 1]) {
            assert(t[to - a - 1] == s[to - 1]);
            lemma_back_suffix(s, a, to - 1);
        } else {
            assert(t[to - a - 1] == s[to - 1]);
        }
    } else {
        lemma_ws_run_back_bounds(s, to);
    }
}

/// Leading whitespace of a suffix is counted from the same position of the whole.
pub proof fn lemma_ws_run_skip(s: Seq<char>, d: int, k: int)
    requires
        0 <= d <= s.len(),
        0 <= k,
    ensures
        ws_run(s.skip(d), k) == ws_run(s, d + k),
    decreases s.len() - d - k,
{
    let t = s.skip(d);
    if k < t.len() && is_ws(t[k]) {
        lemma_ws_run_skip(s, d, k + 1);
    }
}

/// A fresh vector holding `trim_start(s[from..])`.
pub fn trimmed_start_from(s: &[char], from: usize) -> (v: Vec<char>)
    requires
        from <= s@.len(),
    ensures
        v@ == trim_start(s@.skip(from as int)),
{
    proof {
        lemma_ws_run_skip(s@, from as int, 0);
    }
    let a = skip_ws(s, from);
    let v = sub_vec(s, a, s.len());
    assert(v@ =~= trim_start(s@.skip(from as int)));
    v
}

/// A fresh vector holding `trim(s)`.
pub fn trimmed(s: &[char]) -> (v: Vec<char>)
    ensures
        v@ == trim(s@),
{
    let (a, b) = trim_bounds(s);
    sub_vec(s, a, b)
}

/// A fresh vector holding `trim_start(s)`.
pub fn trimmed_start(s: &[char]) -> (v: Vec<char>)
    ensures
        v@ == trim_start(s@),
{
    let a = skip_ws(s, 0);
    sub_vec(s, a, s.len())
}

/// A fresh vector holding `trim_end(s)`.
pub fn trimmed_end(s: &[char]) -> (v: Vec<char>)
    ensures
        v@ == trim_end(s@),
{
    let b = skip_ws_back(s, s.len());
    sub_vec(s, 0, b)
}

/// True when `trim(s)` is empty, i.e. `s` is all whitespace.
pub fn is_blank(s: &[char]) -> (r: bool)
    ensures
        r == (trim(s@).len() == 0),
{
    let (a, b) = trim_bounds(s);
    a == b
}


// ---------------------------------------------------------------------------
// Searching
// ---------------------------------------------------------------------------

/// `p` occurs in `s` at index `i`.
pub open spec fn match_at(s: Seq<char>, p: Seq<char>, i: int) -> bool {
    0 <= i && i + p.len() <= s.len() && s.subrange(i, i + p.len()) == p
}

/// The first index `>= from` at which `p` occurs in `s` (`str::find` on `s[from..]`).
pub open spec fn find_from(s: Seq<char>, p: Seq<char>, from: int) -> Option<int>
    decreases s.len() + 1 - from,
{
    if from < 0 || from + p.len() > s.len() {
        None
    } else if match_at(s, p, from) {
        Some(from)
    } else {
        find_from(s, p, from + 1)
    }
}

/// `str::contains` for a string pattern.
pub open spec fn contains(s: Seq<char>, p: Seq<char>) -> bool {
    find_from(s, p, 0) is Some
}

/// `str::starts_with`.
pub open spec fn starts_with(s: Seq<char>, p: Seq<char>) -> bool {
    p.len() <= s.len() && s.take(p.len() as int) == p
}

/// `str::ends_with`.
pub open spec fn ends_with(s: Seq<char>, p: Seq<char>) -> bool {
    p.len() <= s.len() && s.skip(s.len() - p.len()) == p
}

/// The first index `>= from` holding `c`.
pub open spec fn find_char(s: Seq<char>, c: char, from: int) -> Option<int>
    decreases s.len() - from,
{
    if from < 0 || from >= s.len() {
        None
    } else if s[from] == c {
        Some(from)
    } else {
        find_char(s, c, from + 1)
    }
}

/// The last index `< to` holding `c`.
pub open spec fn rfind_char(s: Seq<char>, c: char, to: int) -> Option<int>
    decreases to,
{
    if to <= 0 || to > s.len() {
        None
    } else if s[to - 1] == c {
        Some(to - 1)
    } else {
        rfind_char(s, c, to - 1)
    }
}

/// What `find_from` returns is the first occurrence at or after `from`.
pub proof fn lemma_find_from(s: Seq<char>, p: Seq<char>, from: int)
    requires
        0 <= from,
    ensures
        match find_from(s, p, from) {
            Some(i) => from <= i && match_at(s, p, i) && forall|k: int|
                from <= k < i ==> !match_at(s, p, k),
            None => forall|k: int| from <= k ==> !match_at(s, p, k),
        },
    decreases s.len() + 1 - from,
{
    if from + p.len() > s.len() {
    } else if !match_at(s, p, from) {
        lemma_find_from(s, p, from + 1);
    }
}

/// What `find_char` returns is the first index at or after `from` holding `c`.
pub proof fn lemma_find_char(s: Seq<char>, c: char, from: int)
    requires
        0 <= from,
    ensures
        match find_char(s, c, from) {
            Some(i) => from <= i < s.len() && s[i] == c && forall|k: int|
                from <= k < i ==> s[k] != c,
            None => forall|k: int| from <= k < s.len() ==> s[k] != c,
        },
    decreases s.len() - from,
{
    if from < s.len() && s[from] != c {
        lemma_find_char(s, c, from + 1);
    }
}

/// What `rfind_char` returns is the last index before `to` holding `c`.
pub proof fn lemma_rfind_char(s: Seq<char>, c: char, to: int)
    requires
        to <= s.len(),
    ensures
        match rfind_char(s, c, to) {
            Some(i) => 0 <= i < to && s[i] == c && forall|k: int| i < k < to ==> s[k] != c,
            None => forall|k: int| 0 <= k < to ==> s[k] != c,
        },
    decreases to,
{
    if to > 0 && s[to - 1] != c {
        lemma_rfind_char(s, c, to - 1);
    }
}

/// Does `p` occur in `s` at `i`?
pub fn match_here(s: &[char], p: &[char], i: usize) -> (r: bool)
    ensures
        r == match_at(s@, p@, i as int),
{
    if i > s.len() || p.len() > s.len() - i {
        return false;
    }
    let mut k: usize = 0;
    while k < p.len()
        invariant
            i + p@.len() <= s@.len(),
            s@.len() <= usize::MAX,
            0 <= k <= p@.len(),
            forall|j: int| 0 <= j < k ==> s@[i + j] == p@[j],
        decreases p@.len() - k,
    {
        if s[i + k] != p[k] {
            assert(s@.subrange(i as int, i + p@.len())[k as int] != p@[k as int]);
            return false;
        }
        k += 1;
    }
    assert(s@.subrange(i as int, i + p@.len()) =~= p@);
    true
}

/// `find_from` as an executable search.
pub fn find(s: &[char], p: &[char], from: usize) -> (r: Option<usize>)
    ensures
        match r {
            Some(i) => find_from(s@, p@, from as int) == Some(i as int),
            None => find_from(s@, p@, from as int) is None,
        },
{
    let mut i = from;
    loop
        invariant
            from <= i,
            find_from(s@, p@, from as int) == find_from(s@, p@, i as int),
        decreases s@.len() + 1 - i,
    {
        if i > s.len() || p.len() > s.len() - i {
            return None;
        }
        if match_here(s, p, i) {
            return Some(i);
        }
        if i == s.len() {
            assert(s@.subrange(i as int, i as int) =~= p@);
            return None;
        }
        i += 1;
    }
}

/// `find_char` as an executable search.
pub fn find_c(s: &[char], c: char, from: usize) -> (r: Option<usize>)
    ensures
        match r {
            Some(i) => find_char(s@, c, from as int) == Some(i as int),
            None => find_char(s@, c, from as int) is None,
        },
{
    let mut i = from;
    while i < s.len()
        invariant
            from <= i,
            find_char(s@, c, from as int) == find_char(s@, c, i as int),
        decreases s@.len() - i,
    {
        if s[i] == c {
            return Some(i);
        }
        i += 1;
    }
    None
}

/// `rfind_char` as an executable search.
pub fn rfind_c(s: &[char], c: char, to: usize) -> (r: Option<usize>)
    requires
        to <= s@.len(),
    ensures
        match r {
            Some(i) => rfind_char(s@, c, to as int) == Some(i as int),
            None => rfind_char(s@, c, to as int) is None,
        },
{
    let mut j = to;
    while j > 0
        invariant
            j <= to <= s@.len(),
            rfind_char(s@, c, to as int) == rfind_char(s@, c, j as int),
        decreases j,
    {
        if s[j - 1] == c {
            return Some(j - 1);
        }
        j -= 1;
    }
    None
}

/// Does `s` contain `p`?
pub fn contains_str(s: &[char], p: &str) -> (r: bool)
    ensures
        r == contains(s@, p@),
{
    let pv = chars_of(p);
    find(s, &pv, 0).is_some()
}

/// Does `s` contain the character `c`?
pub fn contains_char(s: &[char], c: char) -> (r: bool)
    ensures
        r == (find_char(s@, c, 0) is Some),
{
    find_c(s, c, 0).is_some()
}

/// Does `s` start with `p`?
pub fn begins(s: &[char], p: &str) -> (r: bool)
    ensures
        r == starts_with(s@, p@),
{
    let pv = chars_of(p);
    let m = match_here(s, &pv, 0);
    proof {
        if m {
            assert(s@.subrange(0, pv@.len() as int) == s@.take(pv@.len() as int));
        } else if pv@.len() <= s@.len() {
            assert(s@.subrange(0, pv@.len() as int) == s@.take(pv@.len() as int));
        }
    }
    m
}

/// Does `s` end with `p`?
pub fn finishes(s: &[char], p: &str) -> (r: bool)
    ensures
        r == ends_with(s@, p@),
{
    let pv = chars_of(p);
    if pv.len() > s.len() {
        return false;
    }
    let m = match_here(s, &pv, s.len() - pv.len());
    proof {
        assert(s@.subrange(s@.len() - pv@.len(), s@.len() as int) == s@.skip(
            s@.len() - pv@.len(),
        ));
    }
    m
}

// ---------------------------------------------------------------------------
// Replacing, escaping, splitting
// ---------------------------------------------------------------------------

/// `s[i..]` with every non-overlapping occurrence of `p` (scanning left to right)
/// replaced by `r`; an empty pattern replaces nothing.
pub open spec fn replace_from(s: Seq<char>, p: Seq<char>, r: Seq<char>, i: int) -> Seq<char>
    decreases s.len() - i,
{
    if i < 0 || i >= s.len() {
        seq![]
    } else if p.len() > 0 && match_at(s, p, i) {
        r + replace_from(s, p, r, i + p.len())
    } else {
        seq![s[i]] + replace_from(s, p, r, i + 1)
    }
}

/// `str::replace(p, r)` for a non-empty pattern.
pub open spec fn replace_all(s: Seq<char>, p: Seq<char>, r: Seq<char>) -> Seq<char> {
    replace_from(s, p, r, 0)
}

/// `replace_all` as executable code.
pub fn replace(s: &[char], p: &str, r: &str) -> (out: Vec<char>)
    ensures
        out@ == replace_all(s@, p@, r@),
{
    let pv = chars_of(p);
    let rv = chars_of(r);
    let mut out: Vec<char> = Vec::new();
    let mut i: usize = 0;
    while i < s.len()
        invariant
            0 <= i <= s@.len(),
            pv@ == p@,
            rv@ == r@,
            replace_all(s@, p@, r@) == out@ + replace_from(s@, p@, r@, i as int),
        decreases s@.len() - i,
    {
        if pv.len() > 0 && match_here(s, &pv, i) {
            push_slice(&mut out, &rv);
            i += pv.len();
        } else {
            out.push(s[i]);
            i += 1;
        }
    }
    out
}

/// Each character of `s` mapped to a sequence, concatenated.
pub open spec fn concat_map(s: Seq<char>, f: spec_fn(char) -> Seq<char>) -> Seq<char>
    decreases s.len(),
{
    if s.len() == 0 {
        seq![]
    } else {
        concat_map(s.drop_last(), f) + f(s.last())
    }
}

pub proof fn lemma_concat_map_push(s: Seq<char>, c: char, f: spec_fn(char) -> Seq<char>)
    ensures
        concat_map(s.push(c), f) == concat_map(s, f) + f(c),
{
    assert(s.push(c).drop_last() == s);
}

/// The index of the first `c` at or after `from`, or `s.len()` when there is none.
pub open spec fn char_end(s: Seq<char>, c: char, from: int) -> int
    decreases s.len() - from,
{
    if from < 0 || from >= s.len() || s[from] == c {
        if from < 0 { 0 } else if from > s.len() { s.len() as int } else { from }
    } else {
        char_end(s, c, from + 1)
    }
}

pub proof fn lemma_char_end(s: Seq<char>, c: char, from: int)
    requires
        0 <= from <= s.len(),
    ensures
        from <= char_end(s, c, from) <= s.len(),
        char_end(s, c, from) < s.len() ==> s[char_end(s, c, from)] == c,
        forall|k: int| from <= k < char_end(s, c, from) ==> s[k] != c,
    decreases s.len() - from,
{
    if from < s.len() && s[from] != c {
        lemma_char_end(s, c, from + 1);
    }
}

/// The pieces of `s[from..]` between occurrences of `c` (`str::split(c)`):
/// always at least one piece.
pub open spec fn split_from(s: Seq<char>, c: char, from: int) -> Seq<Seq<char>>
    decreases s.len() - from,
{
    if from < 0 || from > s.len() {
        seq![]
    } else {
        let j = char_end(s, c, from);
        if j >= s.len() || j < from {
            seq![s.subrange(from, s.len() as int)]
        } else {
            seq![s.subrange(from, j)] + split_from(s, c, j + 1)
        }
    }
}

/// `str::split(c)`.
pub open spec fn split(s: Seq<char>, c: char) -> Seq<Seq<char>> {
    split_from(s, c, 0)
}

/// Index of the first `c` at or after `from`, or the length when absent.
pub fn char_end_exec(s: &[char], c: char, from: usize) -> (r: usize)
    requires
        from <= s@.len(),
    ensures
        r as int == char_end(s@, c, from as int),
{
    proof {
        lemma_char_end(s@, c, from as int);
    }
    let mut i = from;
    while i < s.len() && s[i] != c
        invariant
            from <= i <= s@.len(),
            char_end(s@, c, from as int) == char_end(s@, c, i as int),
        decreases s@.len() - i,
    {
        i += 1;
    }
    i
}

/// `split` as executable code.
pub fn split_on(s: &[char], c: char) -> (v: Vec<Vec<char>>)
    ensures
        v@.len() == split(s@, c).len(),
        forall|k: int| 0 <= k < v@.len() ==> (#[trigger] v@[k])@ == split(s@, c)[k],
{
    let mut v: Vec<Vec<char>> = Vec::new();
    let mut from: usize = 0;
    loop
        invariant
            0 <= from <= s@.len(),
            split(s@, c) =~= v@.map_values(|x: Vec<char>| x@) + split_from(s@, c, from as int),
        decreases s@.len() - from,
    {
        let j = char_end_exec(s, c, from);
        proof {
            lemma_char_end(s@, c, from as int);
        }
        let piece = sub_vec(s, from, j);
        let ghost before = v@;
        v.push(piece);
        assert(v@.map_values(|x: Vec<char>| x@) =~= before.map_values(|x: Vec<char>| x@).push(
            piece@,
        ));
        if j >= s.len() {
            assert(v@.map_values(|x: Vec<char>| x@).len() == v@.len());
            return v;
        }
        from = j + 1;
    }
}

/// `str::lines`: split at `'\n'`, a `'\r'` before a `'\n'` is dropped, and a final
/// line ending yields no extra empty line.
pub open spec fn lines(s: Seq<char>) -> Seq<Seq<char>> {
    let p = split(s, '\n');
    let n = if p.len() > 0 && p.last().len() == 0 { p.len() - 1 } else { p.len() as int };
    Seq::new(
        n as nat,
        |i: int|
            if i < p.len() - 1 && p[i].len() > 0 && p[i].last() == '\r' {
                p[i].drop_last()
            } else {
                p[i]
            },
    )
}

/// One line of `lines(s)`, in terms of the pieces of `split(s, '\n')`.
pub proof fn lemma_lines_index(s: Seq<char>, i: int)
    requires
        0 <= i < lines(s).len(),
    ensures
        ({
            let p = split(s, '\n');
            &&& i < p.len()
            &&& lines(s)[i] == if i < p.len() - 1 && p[i].len() > 0 && p[i].last() == '\r' {
                p[i].drop_last()
            } else {
                p[i]
            }
        }),
{
}

/// `lines` as executable code.
pub fn lines_of(s: &[char]) -> (v: Vec<Vec<char>>)
    ensures
        v@.len() == lines(s@).len(),
        forall|k: int| 0 <= k < v@.len() ==> (#[trigger] v@[k])@ == lines(s@)[k],
{
    let parts = split_on(s, '\n');
    let ghost p = split(s@, '\n');
    let n = if parts.len() > 0 && parts[parts.len() - 1].len() == 0 {
        parts.len() - 1
    } else {
        parts.len()
    };
    let mut v: Vec<Vec<char>> = Vec::new();
    let mut i: usize = 0;
    while i < n
        invariant
            n <= parts@.len(),
            p == split(s@, '\n'),
            parts@.len() == p.len(),
            forall|k: int| 0 <= k < parts@.len() ==> (#[trigger] parts@[k])@ == p[k],
            n == lines(s@).len(),
            0 <= i <= n,
            v@.len() == i,
            forall|k: int| 0 <= k < i ==> (#[trigger] v@[k])@ == lines(s@)[k],
        decreases n - i,
    {
        let part = &parts[i];
        let strip = i + 1 < parts.len() && part.len() > 0 && part[part.len() - 1] == '\r';
        let piece = if strip {
            sub_vec(part, 0, part.len() - 1)
        } else {
            copy_vec(part)
        };
        proof {
            let q = p[i as int];
            assert(q == part@);
            lemma_lines_index(s@, i as int);
            if strip {
                assert(q.len() > 0 && q.last() == '\r');
                assert(part@.subrange(0, part@.len() - 1) == q.drop_last());
                assert(piece@ == q.drop_last());
                assert(lines(s@)[i as int] == q.drop_last());
            } else {
                assert(piece@ == q);
                assert(!(i < p.len() - 1 && q.len() > 0 && q.last() == '\r'));
            }
            assert(piece@ == lines(s@)[i as int]);
        }
        let ghost before = v@;
        v.push(piece);
        assert(forall|k: int| 0 <= k < i ==> v@[k] == before[k]);
        i += 1;
    }
    v
}

// ---------------------------------------------------------------------------
// Numbers
// ---------------------------------------------------------------------------

/// The decimal digit character for `d < 10`.
pub open spec fn digit_char(d: nat) -> char {
    ((48 + d) as u32) as char
}

/// Decimal representation of `n` (no sign, no leading zeros).
pub open spec fn dec(n: nat) -> Seq<char>
    decreases n,
{
    if n < 10 {
        seq![digit_char(n)]
    } else {
        dec(n / 10).push(digit_char(n % 10))
    }
}

/// Decimal text of `n`.
pub fn dec_chars(n: usize) -> (v: Vec<char>)
    ensures
        v@ == dec(n as nat),
    decreases n,
{
    if n < 10 {
        let c = char_from_ascii((48 + n) as u32);
        let mut v: Vec<char> = Vec::new();
        v.push(c);
        v
    } else {
        let mut v = dec_chars(n / 10);
        let c = char_from_ascii((48 + n % 10) as u32);
        v.push(c);
        v
    }
}

/// Decimal text of a wide `n`.
pub fn dec_chars_wide(n: u128) -> (v: Vec<char>)
    ensures
        v@ == dec(n as nat),
    decreases n,
{
    if n < 10 {
        let c = char_from_ascii((48 + n) as u32);
        let mut v: Vec<char> = Vec::new();
        v.push(c);
        v
    } else {
        let mut v = dec_chars_wide(n / 10);
        let c = char_from_ascii((48 + n % 10) as u32);
        v.push(c);
        v
    }
}

/// Decimal `String` of `n`.
pub fn dec_string(n: usize) -> (s: String)
    ensures
        s@ == dec(n as nat),
{
    let v = dec_chars(n);
    string_of(&v)
}


// ---------------------------------------------------------------------------
// Joining and counting
// ---------------------------------------------------------------------------

/// `parts.join(sep)`.
pub open spec fn join(parts: Seq<Seq<char>>, sep: Seq<char>) -> Seq<char>
    decreases parts.len(),
{
    if parts.len() == 0 {
        seq![]
    } else if parts.len() == 1 {
        parts[0]
    } else {
        join(parts.drop_last(), sep) + sep + parts.last()
    }
}

/// The views of a vector of character vectors.
pub open spec fn views(v: Seq<Vec<char>>) -> Seq<Seq<char>> {
    v.map_values(|x: Vec<char>| x@)
}

/// `join` as executable code.
pub fn join_vecs(parts: &Vec<Vec<char>>, sep: &str) -> (out: Vec<char>)
    ensures
        out@ == join(views(parts@), sep@),
{
    let mut out: Vec<char> = Vec::new();
    let mut i: usize = 0;
    while i < parts.len()
        invariant
            0 <= i <= parts@.len(),
            out@ == join(views(parts@).take(i as int), sep@),
        decreases parts@.len() - i,
    {
        let ghost pv = views(parts@);
        assert(pv.take(i as int + 1).drop_last() == pv.take(i as int));
        assert(pv.take(i as int + 1).last() == parts@[i as int]@);
        if i > 0 {
            push_str(&mut out, sep);
        } else {
            assert(pv.take(1) == seq![parts@[0]@]);
        }
        push_slice(&mut out, &parts[i]);
        i += 1;
    }
    assert(views(parts@).take(parts@.len() as int) == views(parts@));
    out
}

/// Number of non-overlapping occurrences of a non-empty `p` in `s[i..]`, scanning
/// left to right (`str::matches(p).count()`).
pub open spec fn count_from(s: Seq<char>, p: Seq<char>, i: int) -> nat
    decreases s.len() - i,
{
    if i < 0 || i >= s.len() || p.len() == 0 {
        0
    } else if match_at(s, p, i) {
        1 + count_from(s, p, i + p.len())
    } else {
        count_from(s, p, i + 1)
    }
}

/// `count_from(s, p, 0)` as executable code.
pub fn count_matches(s: &[char], p: &str) -> (n: usize)
    ensures
        n == count_from(s@, p@, 0),
{
    let pv = chars_of(p);
    if pv.len() == 0 {
        return 0;
    }
    let mut n: usize = 0;
    let mut i: usize = 0;
    while i < s.len()
        invariant
            0 <= i <= s@.len(),
            pv@ == p@,
            pv@.len() > 0,
            n <= i,
            n + count_from(s@, p@, i as int) == count_from(s@, p@, 0),
        decreases s@.len() - i,
    {
        if match_here(s, &pv, i) {
            n += 1;
            i += pv.len();
        } else {
            i += 1;
        }
    }
    n
}


// ---------------------------------------------------------------------------
// HTML comments
// ---------------------------------------------------------------------------

/// `s[c..]` with every `<!-- … -->` comment removed; an unterminated comment
/// drops the rest of the text.
pub open spec fn strip_comments_from(s: Seq<char>, c: int) -> Seq<char>
    decreases s.len() - c,
{
    if c < 0 || c > s.len() {
        seq![]
    } else {
        match find_from(s, "<!--"@, c) {
            None => s.subrange(c, s.len() as int),
            Some(st) => {
                proof {
                    lemma_find_from(s, "<!--"@, c);
                    reveal_strlit("<!--");
                }
                match find_from(s, "-->"@, st + 4) {
                    None => s.subrange(c, st),
                    Some(e) => {
                        proof {
                            lemma_find_from(s, "-->"@, st + 4);
                            reveal_strlit("-->");
                        }
                        if e + 3 <= c {
                            seq![]
                        } else {
                            s.subrange(c, st) + strip_comments_from(s, e + 3)
                        }
                    },
                }
            },
        }
    }
}

/// The text with HTML comments `<!-- … -->` removed (multi-line ones too).
pub open spec fn strip_comments(s: Seq<char>) -> Seq<char> {
    strip_comments_from(s, 0)
}

/// `strip_comments` as executable code.
pub fn strip_html_comments(md: &[char]) -> (out: Vec<char>)
    ensures
        out@ == strip_comments(md@),
{
    let open = chars_of("<!--");
    let close = chars_of("-->");
    proof {
        reveal_strlit("<!--");
        reveal_strlit("-->");
    }
    let mut out: Vec<char> = Vec::new();
    let mut c: usize = 0;
    let n = md.len();
    loop
        invariant
            0 <= c <= md@.len(),
            n == md@.len(),
            open@ == "<!--"@,
            close@ == "-->"@,
            open@.len() == 4,
            close@.len() == 3,
            strip_comments(md@) == out@ + strip_comments_from(md@, c as int),
        decreases md@.len() - c,
    {
        match find(md, &open, c) {
            None => {
                let rest = sub_vec(md, c, md.len());
                push_slice(&mut out, &rest);
                return out;
            },
            Some(st) => {
                proof {
                    lemma_find_from(md@, open@, c as int);
                }
                let head = sub_vec(md, c, st);
                push_slice(&mut out, &head);
                match find(md, &close, st + 4) {
                    None => {
                        return out;
                    },
                    Some(e) => {
                        proof {
                            lemma_find_from(md@, close@, st + 4);
                        }
                        c = e + 3;
                    },
                }
            },
        }
    }
}

// ---------------------------------------------------------------------------
// Laws
// ---------------------------------------------------------------------------

/// Replacing a pattern that does not occur from `i` on leaves `s[i..]` as it is.
pub proof fn law_replace_absent(s: Seq<char>, p: Seq<char>, r: Seq<char>, i: int)
    requires
        0 <= i <= s.len(),
        forall|k: int| i <= k ==> !match_at(s, p, k),
    ensures
        replace_from(s, p, r, i) == s.skip(i),
    decreases s.len() - i,
{
    if i < s.len() {
        law_replace_absent(s, p, r, i + 1);
        assert(seq![s[i]] + s.skip(i + 1) =~= s.skip(i));
    } else {
        assert(s.skip(i) =~= Seq::<char>::empty());
    }
}

/// A pattern that occurs in `s` occurs in any text around `s`.
pub proof fn lemma_contains_within(a: Seq<char>, s: Seq<char>, b: Seq<char>, p: Seq<char>, k: int)
    requires
        match_at(s, p, k),
    ensures
        contains(a + s + b, p),
{
    let t = a + s + b;
    assert(t.subrange(a.len() + k, a.len() + k + p.len()) =~= s.subrange(k, k + p.len()));
    assert(match_at(t, p, a.len() + k));
    lemma_find_from(t, p, 0);
}

} // verus!
