//! Markdown → Typst markup for the print interior.
//!
//! A small converter: ATX headings (with `{.unnumbered}`), paragraphs, fenced
//! code blocks (a `{=…}` raw fence is dropped), standalone images with a pandoc
//! `{…}` attribute block, `---`/`***`/`___` scene breaks, GFM pipe tables, flat
//! bullet/numbered lists, and inline `**bold**`, `*italic*`/`_italic_`, links and
//! `^[…]` footnotes. Anything else is emitted as escaped literal text.
use vstd::prelude::*;
use crate::text::{
    join, join_vecs, lines, lines_of, strip_comments, strip_html_comments, trim_end, trimmed_end, is_blank,
    replace, replace_all,
    chars_of, contains, copy_vec, digit, ends_with, eq_str, find, find_c, find_char, find_from,
    finishes, begins, is_digit, is_ws, lemma_find_char, lemma_find_from, lemma_rfind_char,
    lower_seq, match_at, push_slice, push_str, rfind_c, rfind_char, skip_ws, split,
    split_on, starts_with, string_of, sub_vec, to_lower, trim, trim_bounds, trim_start, trimmed,
    trimmed_start, trimmed_start_from, views, ws, lower,
};

verus! {

// ---------------------------------------------------------------------------
// Blocks
// ---------------------------------------------------------------------------

/// One block of a chapter.
#[derive(Debug)]
pub enum Block {
    Heading { level: usize, text: String, unnumbered: bool },
    Para(String),
    /// A fenced code block; `lang` is the info-string language.
    Code { lang: Option<String>, code: String },
    /// A standalone image with its pandoc `{…}` attributes.
    Image {
        src: String,
        alt: String,
        spot: bool,
        width: Option<String>,
        height: Option<String>,
        fit: Option<String>,
        align: Option<String>,
        border: Option<bool>,
        bw: Option<String>,
    },
    Rule,
    /// A GFM pipe table: header cells and body rows of raw inline markdown.
    Table { header: Vec<String>, rows: Vec<Vec<String>> },
    /// A flat list; `ordered` selects numbered items.
    List { ordered: bool, items: Vec<String> },
}

/// The mathematical value of a [`Block`].
pub enum BlockV {
    Heading { level: usize, text: Seq<char>, unnumbered: bool },
    Para(Seq<char>),
    Code { lang: Option<Seq<char>>, code: Seq<char> },
    Image {
        src: Seq<char>,
        alt: Seq<char>,
        spot: bool,
        width: Option<Seq<char>>,
        height: Option<Seq<char>>,
        fit: Option<Seq<char>>,
        align: Option<Seq<char>>,
        border: Option<bool>,
        bw: Option<Seq<char>>,
    },
    Rule,
    Table { header: Seq<Seq<char>>, rows: Seq<Seq<Seq<char>>> },
    List { ordered: bool, items: Seq<Seq<char>> },
}

/// The view of an optional string.
pub open spec fn ostr(o: Option<String>) -> Option<Seq<char>> {
    match o {
        Some(s) => Some(s@),
        None => None,
    }
}

/// The views of a sequence of strings.
pub open spec fn svs(v: Seq<String>) -> Seq<Seq<char>> {
    v.map_values(|s: String| s@)
}

impl View for Block {
    type V = BlockV;

    open spec fn view(&self) -> BlockV {
        match self {
            Block::Heading { level, text, unnumbered } => BlockV::Heading {
                level: *level,
                text: text@,
                unnumbered: *unnumbered,
            },
            Block::Para(t) => BlockV::Para(t@),
            Block::Code { lang, code } => BlockV::Code { lang: ostr(*lang), code: code@ },
            Block::Image { src, alt, spot, width, height, fit, align, border, bw } => BlockV::Image {
                src: src@,
                alt: alt@,
                spot: *spot,
                width: ostr(*width),
                height: ostr(*height),
                fit: ostr(*fit),
                align: ostr(*align),
                border: *border,
                bw: ostr(*bw),
            },
            Block::Rule => BlockV::Rule,
            Block::Table { header, rows } => BlockV::Table {
                header: svs(header@),
                rows: rows@.map_values(|r: Vec<String>| svs(r@)),
            },
            Block::List { ordered, items } => BlockV::List { ordered: *ordered, items: svs(items@) },
        }
    }
}

/// The views of a sequence of blocks.
pub open spec fn bviews(b: Seq<Block>) -> Seq<BlockV> {
    b.map_values(|x: Block| x@)
}

/// The view of an optional block.
pub open spec fn obv(o: Option<Block>) -> Option<BlockV> {
    match o {
        Some(b) => Some(b@),
        None => None,
    }
}

fn opt_string(o: Option<Vec<char>>) -> (r: Option<String>)
    ensures
        ostr(r) == match o {
            Some(v) => Some(v@),
            None => None::<Seq<char>>,
        },
{
    match o {
        Some(v) => Some(string_of(&v)),
        None => None,
    }
}

/// The characters of each string.
pub(crate) fn vecs_of(v: &Vec<String>) -> (r: Vec<Vec<char>>)
    ensures
        views(r@) == svs(v@),
{
    let mut r: Vec<Vec<char>> = Vec::new();
    let mut i: usize = 0;
    while i < v.len()
        invariant
            0 <= i <= v@.len(),
            r@.len() == i,
            forall|k: int| 0 <= k < i ==> (#[trigger] r@[k])@ == v@[k]@,
        decreases v@.len() - i,
    {
        r.push(chars_of(v[i].as_str()));
        i += 1;
    }
    assert(views(r@) =~= svs(v@));
    r
}

pub(crate) fn strings_of(v: &Vec<Vec<char>>) -> (r: Vec<String>)
    ensures
        svs(r@) == views(v@),
{
    let mut r: Vec<String> = Vec::new();
    let mut i: usize = 0;
    while i < v.len()
        invariant
            0 <= i <= v@.len(),
            svs(r@) == views(v@).take(i as int),
        decreases v@.len() - i,
    {
        let s = string_of(&v[i]);
        let ghost r0 = r@;
        r.push(s);
        assert(svs(r@) =~= svs(r0).push(s@));
        assert(views(v@).take(i as int + 1) =~= views(v@).take(i as int).push(v@[i as int]@));
        i += 1;
    }
    assert(views(v@).take(v@.len() as int) == views(v@));
    r
}

// ---------------------------------------------------------------------------
// Line classifiers
// ---------------------------------------------------------------------------

/// `s` with every `' '` removed.
pub open spec fn remove_spaces(s: Seq<char>) -> Seq<char>
    decreases s.len(),
{
    if s.len() == 0 {
        seq![]
    } else if s.last() == ' ' {
        remove_spaces(s.drop_last())
    } else {
        remove_spaces(s.drop_last()).push(s.last())
    }
}

/// Every character of `s` is `c`.
pub open spec fn all_eq(s: Seq<char>, c: char) -> bool {
    forall|k: int| 0 <= k < s.len() ==> s[k] == c
}

/// A scene-break rule: ignoring spaces, three or more of the same `-`, `*` or `_`.
pub open spec fn spec_is_rule(s: Seq<char>) -> bool {
    let t = remove_spaces(s);
    t.len() >= 3 && (all_eq(t, '-') || all_eq(t, '*') || all_eq(t, '_'))
}

fn is_rule_of(s: &[char]) -> (r: bool)
    ensures
        r == spec_is_rule(s@),
{
    let mut t: Vec<char> = Vec::new();
    let mut i: usize = 0;
    while i < s.len()
        invariant
            0 <= i <= s@.len(),
            t@ == remove_spaces(s@.take(i as int)),
        decreases s@.len() - i,
    {
        assert(s@.take(i as int + 1).drop_last() == s@.take(i as int));
        if s[i] != ' ' {
            t.push(s[i]);
        }
        i += 1;
    }
    assert(s@.take(s@.len() as int) == s@);
    if t.len() < 3 {
        return false;
    }
    let c = t[0];
    assert(t@[0] == c);
    assert(remove_spaces(s@) == t@);
    if c != '-' && c != '*' && c != '_' {
        return false;
    }
    let mut k: usize = 0;
    while k < t.len()
        invariant
            0 <= k <= t@.len(),
            remove_spaces(s@) == t@,
            t@.len() >= 3,
            t@[0] == c,
            c == '-' || c == '*' || c == '_',
            forall|j: int| 0 <= j < k ==> t@[j] == c,
        decreases t@.len() - k,
    {
        if t[k] != c {
            return false;
        }
        k += 1;
    }
    true
}

/// A scene-break rule: a line of only `-`, `*` or `_` (at least three, spaces ignored).
pub fn is_rule(s: &str) -> (r: bool)
    ensures
        r == spec_is_rule(s@),
{
    let v = chars_of(s);
    is_rule_of(&v)
}

/// Some character of `s` differs from `c`.
pub open spec fn has_other(s: Seq<char>, c: char) -> bool {
    exists|k: int| 0 <= k < s.len() && s[k] != c
}

fn has_other_of(s: &[char], c: char) -> (r: bool)
    ensures
        r == has_other(s@, c),
{
    let mut k: usize = 0;
    while k < s.len()
        invariant
            0 <= k <= s@.len(),
            forall|j: int| 0 <= j < k ==> s@[j] == c,
        decreases s@.len() - k,
    {
        if s[k] != c {
            return true;
        }
        k += 1;
    }
    false
}

/// A GFM table row: the trimmed line holds a `|` and something other than `|`.
pub open spec fn spec_is_table_row(s: Seq<char>) -> bool {
    let t = trim(s);
    find_char(t, '|', 0) is Some && has_other(t, '|')
}

fn is_table_row_of(s: &[char]) -> (r: bool)
    ensures
        r == spec_is_table_row(s@),
{
    let t = trimmed(s);
    find_c(&t, '|', 0).is_some() && has_other_of(&t, '|')
}

/// The cells of a `| a | b |` row: trimmed, without the optional outer pipes.
pub open spec fn spec_split_table_row(s: Seq<char>) -> Seq<Seq<char>> {
    let t = trim(s);
    let a = if starts_with(t, "|"@) { t.skip(1) } else { t };
    let b = if ends_with(a, "|"@) { a.drop_last() } else { a };
    split(b, '|').map_values(|c: Seq<char>| trim(c))
}

fn split_table_row_of(s: &[char]) -> (r: Vec<Vec<char>>)
    ensures
        views(r@) == spec_split_table_row(s@),
{
    proof {
        reveal_strlit("|");
    }
    let t = trimmed(s);
    let a = if begins(&t, "|") {
        sub_vec(&t, 1, t.len())
    } else {
        copy_vec(&t)
    };
    let b = if finishes(&a, "|") {
        sub_vec(&a, 0, a.len() - 1)
    } else {
        copy_vec(&a)
    };
    assert(a@ == (if starts_with(t@, "|"@) { t@.skip(1) } else { t@ })) by {
        if starts_with(t@, "|"@) {
            assert(t@.subrange(1, t@.len() as int) =~= t@.skip(1));
        }
    }
    assert(b@ == (if ends_with(a@, "|"@) { a@.drop_last() } else { a@ })) by {
        if ends_with(a@, "|"@) {
            assert(a@.subrange(0, a@.len() - 1) =~= a@.drop_last());
        }
    }
    let parts = split_on(&b, '|');
    let mut r: Vec<Vec<char>> = Vec::new();
    let mut i: usize = 0;
    while i < parts.len()
        invariant
            0 <= i <= parts@.len(),
            parts@.len() == split(b@, '|').len(),
            forall|k: int| 0 <= k < parts@.len() ==> (#[trigger] parts@[k])@ == split(b@, '|')[k],
            views(r@) == split(b@, '|').map_values(|c: Seq<char>| trim(c)).take(i as int),
        decreases parts@.len() - i,
    {
        let c = trimmed(&parts[i]);
        let ghost r0 = r@;
        r.push(c);
        assert(views(r@) =~= views(r0).push(c@));
        assert(split(b@, '|').map_values(|c: Seq<char>| trim(c)).take(i as int + 1) =~= split(
            b@,
            '|',
        ).map_values(|c: Seq<char>| trim(c)).take(i as int).push(trim(parts@[i as int]@)));
        i += 1;
    }
    assert(split(b@, '|').map_values(|c: Seq<char>| trim(c)).take(parts@.len() as int) =~= split(
        b@,
        '|',
    ).map_values(|c: Seq<char>| trim(c)));
    r
}

/// Split a `| a | b | c |` row into trimmed cell strings.
pub fn split_table_row(s: &str) -> (r: Vec<String>)
    ensures
        svs(r@) == spec_split_table_row(s@),
{
    let v = chars_of(s);
    let cells = split_table_row_of(&v);
    strings_of(&cells)
}

/// A separator cell holds only `-`, `:` and spaces, and is not empty.
pub open spec fn sep_cell(c: Seq<char>) -> bool {
    c.len() > 0 && forall|k: int| 0 <= k < c.len() ==> (c[k] == '-' || c[k] == ':' || c[k] == ' ')
}

/// A GFM header/body separator row such as `|---|:--:|---:|`.
pub open spec fn spec_is_table_separator(s: Seq<char>) -> bool {
    &&& find_char(s, '|', 0) is Some
    &&& find_char(s, '-', 0) is Some
    &&& forall|k: int|
        0 <= k < spec_split_table_row(s).len() ==> sep_cell(#[trigger] spec_split_table_row(s)[k])
}

fn sep_cell_of(c: &[char]) -> (r: bool)
    ensures
        r == sep_cell(c@),
{
    if c.len() == 0 {
        return false;
    }
    let mut k: usize = 0;
    while k < c.len()
        invariant
            0 <= k <= c@.len(),
            forall|j: int| 0 <= j < k ==> (c@[j] == '-' || c@[j] == ':' || c@[j] == ' '),
        decreases c@.len() - k,
    {
        if c[k] != '-' && c[k] != ':' && c[k] != ' ' {
            return false;
        }
        k += 1;
    }
    true
}

fn is_table_separator_of(s: &[char]) -> (r: bool)
    ensures
        r == spec_is_table_separator(s@),
{
    if find_c(s, '|', 0).is_none() || find_c(s, '-', 0).is_none() {
        return false;
    }
    let cells = split_table_row_of(s);
    let mut k: usize = 0;
    while k < cells.len()
        invariant
            0 <= k <= cells@.len(),
            views(cells@) == spec_split_table_row(s@),
            forall|j: int| 0 <= j < k ==> sep_cell(#[trigger] spec_split_table_row(s@)[j]),
        decreases cells@.len() - k,
    {
        assert(views(cells@)[k as int] == cells@[k as int]@);
        if !sep_cell_of(&cells[k]) {
            return false;
        }
        k += 1;
    }
    true
}

/// A GFM header/body separator row, e.g. `|---|:--:|---:|`.
pub fn is_table_separator(s: &str) -> (r: bool)
    ensures
        r == spec_is_table_separator(s@),
{
    let v = chars_of(s);
    is_table_separator_of(&v)
}

/// Number of leading ASCII digits of `s[from..]`.
pub open spec fn digit_run(s: Seq<char>, from: int) -> nat
    decreases s.len() - from,
{
    if from < 0 || from >= s.len() || !is_digit(s[from]) {
        0
    } else {
        1 + digit_run(s, from + 1)
    }
}

/// `(ordered, content)` when a trimmed line starts a list item: `- `, `* ` or
/// `+ ` (bullets) or digits followed by `. ` or `) ` (numbered).
pub open spec fn spec_list_marker(line: Seq<char>) -> Option<(bool, Seq<char>)> {
    if starts_with(line, "- "@) || starts_with(line, "* "@) || starts_with(line, "+ "@) {
        Some((false, trim_start(line.skip(2))))
    } else {
        let d = digit_run(line, 0);
        let after = line.skip(d as int);
        if d > 0 && (starts_with(after, ". "@) || starts_with(after, ") "@)) {
            Some((true, trim_start(after.skip(2))))
        } else {
            None
        }
    }
}

proof fn lemma_digit_run(s: Seq<char>, from: int)
    requires
        0 <= from <= s.len(),
    ensures
        from + digit_run(s, from) <= s.len(),
        forall|k: int| from <= k < from + digit_run(s, from) ==> is_digit(#[trigger] s[k]),
        from + digit_run(s, from) < s.len() ==> !is_digit(s[from + digit_run(s, from)]),
    decreases s.len() - from,
{
    if from < s.len() && is_digit(s[from]) {
        lemma_digit_run(s, from + 1);
    }
}

fn two(s: &[char], at: usize, a: char, b: char) -> (r: bool)
    requires
        at <= s@.len(),
    ensures
        r == starts_with(s@.skip(at as int), seq![a, b]),
{
    let ok = s.len() - at >= 2 && s[at] == a && s[at + 1] == b;
    proof {
        let t = s@.skip(at as int);
        if t.len() >= 2 {
            assert(t.take(2) =~= seq![t[0], t[1]]);
        }
    }
    ok
}

fn list_marker_of(line: &[char]) -> (r: Option<(bool, Vec<char>)>)
    ensures
        match r {
            Some((o, c)) => spec_list_marker(line@) == Some((o, c@)),
            None => spec_list_marker(line@) is None,
        },
{
    proof {
        reveal_strlit("- ");
        reveal_strlit("* ");
        reveal_strlit("+ ");
        reveal_strlit(". ");
        reveal_strlit(") ");
        assert(line@.skip(0) == line@);
        assert("- "@ =~= seq!['-', ' ']);
        assert("* "@ =~= seq!['*', ' ']);
        assert("+ "@ =~= seq!['+', ' ']);
        assert(". "@ =~= seq!['.', ' ']);
        assert(") "@ =~= seq![')', ' ']);
    }
    if two(line, 0, '-', ' ') || two(line, 0, '*', ' ') || two(line, 0, '+', ' ') {
        let rest = trimmed_start_from(line, 2);
        return Some((false, rest));
    }
    let mut d: usize = 0;
    proof {
        lemma_digit_run(line@, 0);
    }
    while d < line.len() && digit(line[d])
        invariant
            0 <= d <= line@.len(),
            digit_run(line@, 0) == d + digit_run(line@, d as int),
        decreases line@.len() - d,
    {
        d += 1;
    }
    if d > 0 && (two(line, d, '.', ' ') || two(line, d, ')', ' ')) {
        let rest = trimmed_start_from(line, d + 2);
        assert(line@.skip(d as int).skip(2) =~= line@.skip(d + 2));
        return Some((true, rest));
    }
    None
}

/// If a trimmed line begins a Markdown list item, `(ordered, content)` with the
/// marker stripped.
pub fn list_marker(line: &str) -> (r: Option<(bool, String)>)
    ensures
        match r {
            Some((o, c)) => spec_list_marker(line@) == Some((o, c@)),
            None => spec_list_marker(line@) is None,
        },
{
    let v = chars_of(line);
    match list_marker_of(&v) {
        Some((o, c)) => Some((o, string_of(&c))),
        None => None,
    }
}


// ---------------------------------------------------------------------------
// Pandoc attribute blocks
// ---------------------------------------------------------------------------

/// Split a trailing `{ … }` attribute block off a trimmed line:
/// `(content without the block, block inner text)`.
pub open spec fn spec_split_attrs(s: Seq<char>) -> (Seq<char>, Seq<char>) {
    let t = trim(s);
    if ends_with(t, "}"@) {
        match rfind_char(t, '{', t.len() as int) {
            Some(o) => (trim(t.take(o)), t.subrange(o + 1, t.len() - 1)),
            None => (t, seq![]),
        }
    } else {
        (t, seq![])
    }
}

fn split_attrs_of(s: &[char]) -> (r: (Vec<char>, Vec<char>))
    ensures
        (r.0@, r.1@) == spec_split_attrs(s@),
{
    let t = trimmed(s);
    if finishes(&t, "}") {
        match rfind_c(&t, '{', t.len()) {
            Some(o) => {
                proof {
                    lemma_rfind_char(t@, '{', t@.len() as int);
                    reveal_strlit("}");
                    assert(t@.skip(t@.len() - 1)[0] == t@[t@.len() - 1]);
                }
                let head = sub_vec(&t, 0, o);
                let a = trimmed(&head);
                let b = sub_vec(&t, o + 1, t.len() - 1);
                assert(head@ == t@.take(o as int));
                (a, b)
            },
            None => (t, Vec::new()),
        }
    } else {
        (t, Vec::new())
    }
}

/// Split a trailing `{ ... }` pandoc attribute block off the end of a line.
pub fn split_attrs(s: &str) -> (r: (String, String))
    ensures
        (r.0@, r.1@) == spec_split_attrs(s@),
{
    let v = chars_of(s);
    let (a, b) = split_attrs_of(&v);
    (string_of(&a), string_of(&b))
}

pub open spec fn is_quote(c: char) -> bool {
    c == '"' || c == '\''
}

/// `s` without its leading quote characters.
pub open spec fn strip_quotes_front(s: Seq<char>) -> Seq<char>
    decreases s.len(),
{
    if s.len() > 0 && is_quote(s[0]) {
        strip_quotes_front(s.drop_first())
    } else {
        s
    }
}

/// `s` without its trailing quote characters.
pub open spec fn strip_quotes_back(s: Seq<char>) -> Seq<char>
    decreases s.len(),
{
    if s.len() > 0 && is_quote(s.last()) {
        strip_quotes_back(s.drop_last())
    } else {
        s
    }
}

/// `trim_matches(|c| c == '"' || c == '\'')`.
pub open spec fn strip_quotes(s: Seq<char>) -> Seq<char> {
    strip_quotes_back(strip_quotes_front(s))
}

fn strip_quotes_of(s: &[char]) -> (v: Vec<char>)
    ensures
        v@ == strip_quotes(s@),
{
    let mut a: usize = 0;
    assert(s@.skip(0) == s@);
    while a < s.len() && (s[a] == '"' || s[a] == '\'')
        invariant
            0 <= a <= s@.len(),
            strip_quotes_front(s@) == strip_quotes_front(s@.skip(a as int)),
        decreases s@.len() - a,
    {
        assert(s@.skip(a as int).drop_first() == s@.skip(a as int + 1));
        a += 1;
    }
    let mut b: usize = s.len();
    assert(s@.skip(a as int) == s@.subrange(a as int, b as int));
    while b > a && (s[b - 1] == '"' || s[b - 1] == '\'')
        invariant
            a <= b <= s@.len(),
            strip_quotes_front(s@) == s@.skip(a as int),
            strip_quotes(s@) == strip_quotes_back(s@.subrange(a as int, b as int)),
        decreases b,
    {
        assert(s@.subrange(a as int, b as int).drop_last() == s@.subrange(a as int, b - 1));
        b -= 1;
    }
    sub_vec(s, a, b)
}

/// Number of leading non-whitespace characters of `s[from..]`.
pub open spec fn word_run(s: Seq<char>, from: int) -> nat
    decreases s.len() - from,
{
    if from < 0 || from >= s.len() || is_ws(s[from]) {
        0
    } else {
        1 + word_run(s, from + 1)
    }
}

proof fn lemma_word_run(s: Seq<char>, from: int)
    requires
        0 <= from <= s.len(),
    ensures
        from + word_run(s, from) <= s.len(),
    decreases s.len() - from,
{
    if from < s.len() && !is_ws(s[from]) {
        lemma_word_run(s, from + 1);
    }
}

/// Index one past the whitespace-free run starting at `from`.
fn word_end(s: &[char], from: usize) -> (r: usize)
    requires
        from <= s@.len(),
    ensures
        r == from + word_run(s@, from as int),
        r <= s@.len(),
{
    proof {
        lemma_word_run(s@, from as int);
    }
    let mut i = from;
    while i < s.len() && !ws(s[i])
        invariant
            from <= i <= s@.len(),
            word_run(s@, from as int) == (i - from) + word_run(s@, i as int),
        decreases s@.len() - i,
    {
        i += 1;
    }
    i
}

/// The value token of `key=…` in an attribute string: up to the next whitespace,
/// surrounding quotes trimmed; `None` when absent or empty.
pub open spec fn spec_attr_str(attrs: Seq<char>, key: Seq<char>) -> Option<Seq<char>> {
    let pat = key + "="@;
    match find_from(attrs, pat, 0) {
        None => None,
        Some(idx) => {
            let start = idx + pat.len();
            let v = strip_quotes(attrs.subrange(start, start + word_run(attrs, start)));
            if v.len() > 0 {
                Some(v)
            } else {
                None
            }
        },
    }
}

fn attr_str_of(attrs: &[char], key: &str) -> (r: Option<Vec<char>>)
    ensures
        match r {
            Some(v) => spec_attr_str(attrs@, key@) == Some(v@),
            None => spec_attr_str(attrs@, key@) is None,
        },
{
    let mut pat = chars_of(key);
    push_str(&mut pat, "=");
    let idx = match find(attrs, &pat, 0) {
        None => return None,
        Some(i) => i,
    };
    proof {
        lemma_find_from(attrs@, pat@, 0);
    }
    let n = attrs.len();
    let start = idx + pat.len();
    let e = word_end(attrs, start);
    let tok = sub_vec(attrs, start, e);
    let v = strip_quotes_of(&tok);
    if v.len() > 0 {
        Some(v)
    } else {
        None
    }
}

/// Raw value token for `key=…` in a pandoc attribute string.
pub fn attr_str(attrs: &str, key: &str) -> (r: Option<String>)
    ensures
        ostr(r) == spec_attr_str(attrs@, key@),
{
    let a = chars_of(attrs);
    opt_string(attr_str_of(&a, key))
}

/// Every character is an ASCII digit or `.`.
pub open spec fn numeric(s: Seq<char>) -> bool {
    forall|k: int| 0 <= k < s.len() ==> (is_digit(s[k]) || s[k] == '.')
}

/// A dimension attribute as a Typst length: a bare number gets `%`, a value
/// carrying a unit or `%` passes through.
pub open spec fn spec_attr_dim(attrs: Seq<char>, key: Seq<char>) -> Option<Seq<char>> {
    match spec_attr_str(attrs, key) {
        None => None,
        Some(v) => if v.len() > 0 && numeric(v) {
            Some(v + "%"@)
        } else {
            Some(v)
        },
    }
}

fn numeric_of(s: &[char]) -> (r: bool)
    ensures
        r == numeric(s@),
{
    let mut k: usize = 0;
    while k < s.len()
        invariant
            0 <= k <= s@.len(),
            forall|j: int| 0 <= j < k ==> (is_digit(s@[j]) || s@[j] == '.'),
        decreases s@.len() - k,
    {
        if !digit(s[k]) && s[k] != '.' {
            return false;
        }
        k += 1;
    }
    true
}

fn attr_dim_of(attrs: &[char], key: &str) -> (r: Option<Vec<char>>)
    ensures
        match r {
            Some(v) => spec_attr_dim(attrs@, key@) == Some(v@),
            None => spec_attr_dim(attrs@, key@) is None,
        },
{
    match attr_str_of(attrs, key) {
        None => None,
        Some(mut v) => {
            if v.len() > 0 && numeric_of(&v) {
                push_str(&mut v, "%");
            }
            Some(v)
        },
    }
}

/// A dimension attribute → a Typst length/ratio string.
pub fn attr_dim(attrs: &str, key: &str) -> (r: Option<String>)
    ensures
        ostr(r) == spec_attr_dim(attrs@, key@),
{
    let a = chars_of(attrs);
    opt_string(attr_dim_of(&a, key))
}

/// An enum-valued attribute, lowercased and kept only when it is one of `allowed`.
pub open spec fn spec_attr_enum(attrs: Seq<char>, key: Seq<char>, allowed: Seq<Seq<char>>) -> Option<
    Seq<char>,
> {
    match spec_attr_str(attrs, key) {
        None => None,
        Some(v) => if allowed.contains(lower_seq(v)) {
            Some(lower_seq(v))
        } else {
            None
        },
    }
}

fn lower_vec(s: &[char]) -> (v: Vec<char>)
    ensures
        v@ == lower_seq(s@),
{
    let mut v: Vec<char> = Vec::new();
    let mut i: usize = 0;
    while i < s.len()
        invariant
            0 <= i <= s@.len(),
            v@ == lower_seq(s@.take(i as int)),
        decreases s@.len() - i,
    {
        let c = to_lower(s[i]);
        v.push(c);
        assert(lower_seq(s@.take(i as int + 1)) =~= lower_seq(s@.take(i as int)).push(lower(s@[i as int])));
        i += 1;
    }
    assert(s@.take(s@.len() as int) == s@);
    v
}

fn attr_enum_of(attrs: &[char], key: &str, allowed: &[&str]) -> (r: Option<Vec<char>>)
    ensures
        match r {
            Some(v) => spec_attr_enum(attrs@, key@, allowed@.map_values(|a: &str| a@)) == Some(v@),
            None => spec_attr_enum(attrs@, key@, allowed@.map_values(|a: &str| a@)) is None,
        },
{
    let ghost al = allowed@.map_values(|a: &str| a@);
    let v = match attr_str_of(attrs, key) {
        None => return None,
        Some(v) => v,
    };
    let l = lower_vec(&v);
    let mut k: usize = 0;
    while k < allowed.len()
        invariant
            0 <= k <= allowed@.len(),
            al == allowed@.map_values(|a: &str| a@),
            spec_attr_str(attrs@, key@) == Some(v@),
            l@ == lower_seq(v@),
            forall|j: int| 0 <= j < k ==> al[j] != l@,
        decreases allowed@.len() - k,
    {
        if eq_str(&l, allowed[k]) {
            assert(al[k as int] == l@);
            assert(al.contains(l@));
            return Some(l);
        }
        k += 1;
    }
    assert(!al.contains(l@));
    None
}

/// An enum-valued attribute, validated (case-insensitively) against an allow-list.
pub fn attr_enum(attrs: &str, key: &str, allowed: &[&str]) -> (r: Option<String>)
    ensures
        ostr(r) == spec_attr_enum(attrs@, key@, allowed@.map_values(|a: &str| a@)),
{
    let a = chars_of(attrs);
    opt_string(attr_enum_of(&a, key, allowed))
}


// ---------------------------------------------------------------------------
// Headings and standalone images
// ---------------------------------------------------------------------------

/// Number of leading `c` characters of `s[from..]`.
pub open spec fn char_run(s: Seq<char>, c: char, from: int) -> nat
    decreases s.len() - from,
{
    if from < 0 || from >= s.len() || s[from] != c {
        0
    } else {
        1 + char_run(s, c, from + 1)
    }
}

proof fn lemma_char_run(s: Seq<char>, c: char, from: int)
    requires
        0 <= from <= s.len(),
    ensures
        from + char_run(s, c, from) <= s.len(),
    decreases s.len() - from,
{
    if from < s.len() && s[from] == c {
        lemma_char_run(s, c, from + 1);
    }
}

pub(crate) fn char_run_of(s: &[char], c: char) -> (r: usize)
    ensures
        r == char_run(s@, c, 0),
        r <= s@.len(),
{
    proof {
        lemma_char_run(s@, c, 0);
    }
    let mut i: usize = 0;
    while i < s.len() && s[i] == c
        invariant
            0 <= i <= s@.len(),
            char_run(s@, c, 0) == i + char_run(s@, c, i as int),
        decreases s@.len() - i,
    {
        i += 1;
    }
    i
}

/// An ATX heading line: level (capped at 6), title without a trailing attribute
/// block, and whether that block holds `.unnumbered`.
pub open spec fn spec_parse_heading(s: Seq<char>) -> Option<BlockV> {
    if !starts_with(s, "#"@) {
        None
    } else {
        let level = char_run(s, '#', 0);
        let rest = trim_start(s.skip(level as int));
        if rest.len() == 0 {
            None
        } else {
            let (title, attrs) = spec_split_attrs(rest);
            Some(
                BlockV::Heading {
                    level: if level < 6 { level as usize } else { 6 },
                    text: trim(title),
                    unnumbered: contains(attrs, ".unnumbered"@),
                },
            )
        }
    }
}

fn parse_heading_of(s: &[char]) -> (r: Option<Block>)
    ensures
        obv(r) == spec_parse_heading(s@),
{
    if !begins(s, "#") {
        return None;
    }
    let level = char_run_of(s, '#');
    let rest = trimmed_start_from(s, level);
    if rest.len() == 0 {
        return None;
    }
    let (title, attrs) = split_attrs_of(&rest);
    let text = trimmed(&title);
    let unnumbered = contains_str_of(&attrs, ".unnumbered");
    let lv: usize = if level < 6 { level } else { 6 };
    Some(Block::Heading { level: lv, text: string_of(&text), unnumbered })
}

fn contains_str_of(s: &[char], p: &str) -> (r: bool)
    ensures
        r == contains(s@, p@),
{
    let pv = chars_of(p);
    find(s, &pv, 0).is_some()
}

/// Parse an ATX heading line (`# Title {.unnumbered}`).
pub fn parse_heading(s: &str) -> (r: Option<Block>)
    ensures
        obv(r) == spec_parse_heading(s@),
{
    let v = chars_of(s);
    parse_heading_of(&v)
}

/// The framed-plate border flag: `.plain` or `border=false|no|off|none` drops it,
/// `border=true|yes|on` keeps it, anything else leaves the book default.
pub open spec fn spec_border(attrs: Seq<char>) -> Option<bool> {
    if contains(attrs, ".plain"@) {
        Some(false)
    } else {
        match spec_attr_str(attrs, "border"@) {
            Some(v) => if v == "false"@ || v == "no"@ || v == "off"@ || v == "none"@ {
                Some(false)
            } else if v == "true"@ || v == "yes"@ || v == "on"@ {
                Some(true)
            } else {
                None
            },
            None => None,
        }
    }
}

fn border_of(attrs: &[char]) -> (r: Option<bool>)
    ensures
        r == spec_border(attrs@),
{
    if contains_str_of(attrs, ".plain") {
        return Some(false);
    }
    match attr_str_of(attrs, "border") {
        Some(v) => {
            if eq_str(&v, "false") || eq_str(&v, "no") || eq_str(&v, "off") || eq_str(&v, "none") {
                Some(false)
            } else if eq_str(&v, "true") || eq_str(&v, "yes") || eq_str(&v, "on") {
                Some(true)
            } else {
                None
            }
        },
        None => None,
    }
}

pub open spec fn fit_values() -> Seq<Seq<char>> {
    seq!["cover"@, "contain"@, "stretch"@]
}

pub open spec fn align_values() -> Seq<Seq<char>> {
    seq!["left"@, "center"@, "right"@]
}

/// A line that is solely `![alt](src)`, optionally followed by a `{…}` block.
pub open spec fn spec_parse_image(s: Seq<char>) -> Option<BlockV> {
    if !starts_with(s, "!["@) {
        None
    } else {
        match find_from(s, "]("@, 0) {
            None => None,
            Some(ca) => {
                let after = s.skip(ca + 2);
                match find_char(after, ')', 0) {
                    None => None,
                    Some(cp) => {
                        let tail = trim(after.skip(cp + 1));
                        if tail.len() > 0 && !starts_with(tail, "{"@) {
                            None
                        } else {
                            let attrs = spec_split_attrs(s).1;
                            Some(
                                BlockV::Image {
                                    src: trim(after.take(cp)),
                                    alt: trim(s.subrange(2, ca)),
                                    spot: contains(attrs, ".spot"@),
                                    width: spec_attr_dim(attrs, "width"@),
                                    height: spec_attr_dim(attrs, "height"@),
                                    fit: spec_attr_enum(attrs, "fit"@, fit_values()),
                                    align: spec_attr_enum(attrs, "align"@, align_values()),
                                    border: spec_border(attrs),
                                    bw: spec_attr_str(attrs, "bw"@),
                                },
                            )
                        }
                    },
                }
            },
        }
    }
}

fn parse_image_of(s: &[char]) -> (r: Option<Block>)
    ensures
        obv(r) == spec_parse_image(s@),
{
    if !begins(s, "![") {
        return None;
    }
    let pat = chars_of("](");
    let ca = match find(s, &pat, 0) {
        None => return None,
        Some(x) => x,
    };
    proof {
        reveal_strlit("![");
        reveal_strlit("](");
        lemma_find_from(s@, pat@, 0);
        assert(s@.take(2)[0] == s@[0]);
        assert(s@.take(2)[1] == s@[1]);
        if ca < 2 {
            assert(s@.subrange(ca as int, ca + 2)[0] == s@[ca as int]);
        }
    }
    let n = s.len();
    let after = sub_vec(s, ca + 2, n);
    assert(after@ == s@.skip(ca + 2));
    let cp = match find_c(&after, ')', 0) {
        None => return None,
        Some(x) => x,
    };
    proof {
        lemma_find_char(after@, ')', 0);
    }
    let tail_raw = sub_vec(&after, cp + 1, after.len());
    assert(tail_raw@ == after@.skip(cp + 1));
    let tail = trimmed(&tail_raw);
    if tail.len() > 0 && !begins(&tail, "{") {
        return None;
    }
    let src_raw = sub_vec(&after, 0, cp);
    assert(src_raw@ == after@.take(cp as int));
    let src = trimmed(&src_raw);
    let alt_raw = sub_vec(s, 2, ca);
    let alt = trimmed(&alt_raw);
    let (_, attrs) = split_attrs_of(s);
    let spot = contains_str_of(&attrs, ".spot");
    let fits: [&str; 3] = ["cover", "contain", "stretch"];
    let aligns: [&str; 3] = ["left", "center", "right"];
    assert(fits@.map_values(|a: &str| a@) =~= fit_values());
    assert(aligns@.map_values(|a: &str| a@) =~= align_values());
    let width = opt_string(attr_dim_of(&attrs, "width"));
    let height = opt_string(attr_dim_of(&attrs, "height"));
    let fit = opt_string(attr_enum_of(&attrs, "fit", &fits));
    let align = opt_string(attr_enum_of(&attrs, "align", &aligns));
    let border = border_of(&attrs);
    let bw = opt_string(attr_str_of(&attrs, "bw"));
    Some(
        Block::Image {
            src: string_of(&src),
            alt: string_of(&alt),
            spot,
            width,
            height,
            fit,
            align,
            border,
            bw,
        },
    )
}

/// Parse a standalone `![alt](src){attrs}` line.
pub fn parse_image(s: &str) -> (r: Option<Block>)
    ensures
        obv(r) == spec_parse_image(s@),
{
    let v = chars_of(s);
    parse_image_of(&v)
}


// ---------------------------------------------------------------------------
// Inline conversion
// ---------------------------------------------------------------------------

/// A character that is special in Typst markup is escaped with a backslash.
pub open spec fn esc_char(c: char) -> Seq<char> {
    if c == '\\' || c == '#' || c == '$' || c == '*' || c == '_' || c == '`' || c == '<' || c
        == '>' || c == '@' || c == '[' || c == ']' || c == '~' || c == '^' || c == '/' {
        seq!['\\', c]
    } else {
        seq![c]
    }
}

/// Append one character, escaped for Typst markup.
pub fn push_escaped(out: &mut Vec<char>, c: char)
    ensures
        final(out)@ == old(out)@ + esc_char(c),
{
    if c == '\\' || c == '#' || c == '$' || c == '*' || c == '_' || c == '`' || c == '<' || c
        == '>' || c == '@' || c == '[' || c == ']' || c == '~' || c == '^' || c == '/' {
        out.push('\\');
        out.push(c);
    } else {
        out.push(c);
    }
}

/// A Typst string literal holding `s` (backslashes and quotes escaped).
pub open spec fn spec_ty_str(s: Seq<char>) -> Seq<char> {
    "\""@ + replace_all(replace_all(s, "\\"@, "\\\\"@), "\""@, "\\\""@) + "\""@
}

pub(crate) fn ty_str_of(s: &[char]) -> (v: Vec<char>)
    ensures
        v@ == spec_ty_str(s@),
{
    let a = replace(s, "\\", "\\\\");
    let b = replace(&a, "\"", "\\\"");
    let mut v: Vec<char> = Vec::new();
    push_str(&mut v, "\"");
    push_slice(&mut v, &b);
    push_str(&mut v, "\"");
    v
}

/// Quote a string as a Typst string literal.
pub fn ty_str(s: &str) -> (r: String)
    ensures
        r@ == spec_ty_str(s@),
{
    let v = chars_of(s);
    let t = ty_str_of(&v);
    string_of(&t)
}

/// `[text](url)` starting at `start` (a `[`): text, url and the index after `)`.
pub open spec fn link_at(s: Seq<char>, start: int) -> Option<(Seq<char>, Seq<char>, int)> {
    match find_char(s, ']', start + 1) {
        None => None,
        Some(close) => if close + 1 < s.len() && s[close + 1] == '(' {
            match find_char(s, ')', close + 2) {
                None => None,
                Some(cp) => Some((s.subrange(start + 1, close), s.subrange(close + 2, cp), cp + 1)),
            }
        } else {
            None
        },
    }
}

/// Markdown inline text → Typst markup.
pub open spec fn spec_inline(s: Seq<char>) -> Seq<char>
    decreases s.len(), s.len() + 1,
{
    inline_from(s, 0)
}

/// The conversion of `s[i..]` (inner spans converted recursively).
pub open spec fn inline_from(s: Seq<char>, i: int) -> Seq<char>
    decreases s.len(), s.len() - i,
{
    if i < 0 || i >= s.len() {
        seq![]
    } else {
        let c = s[i];
        let foot = if c == '^' && i + 1 < s.len() && s[i + 1] == '[' {
            find_char(s, ']', i + 2)
        } else {
            None
        };
        let bold = if c == '*' && i + 1 < s.len() && s[i + 1] == '*' {
            find_from(s, "**"@, i + 2)
        } else {
            None
        };
        let emph = if c == '*' || c == '_' {
            find_char(s, c, i + 1)
        } else {
            None
        };
        let link = if c == '[' {
            link_at(s, i)
        } else {
            None
        };
        proof {
            lemma_find_char(s, ']', i + 2);
            lemma_find_from(s, "**"@, i + 2);
            lemma_find_char(s, c, i + 1);
            lemma_find_char(s, ']', i + 1);
            reveal_strlit("**");
            if let Some(close) = find_char(s, ']', i + 1) {
                lemma_find_char(s, ')', close + 2);
            }
        }
        if foot is Some {
            let end = foot->0;
            "#footnote["@ + spec_inline(s.subrange(i + 2, end)) + "]"@ + inline_from(s, end + 1)
        } else if bold is Some {
            let end = bold->0;
            "#strong["@ + spec_inline(s.subrange(i + 2, end)) + "]"@ + inline_from(s, end + 2)
        } else if emph is Some && emph->0 > i + 1 {
            let end = emph->0;
            "#emph["@ + spec_inline(s.subrange(i + 1, end)) + "]"@ + inline_from(s, end + 1)
        } else if link is Some {
            let (text, url, next) = link->0;
            "#link("@ + spec_ty_str(url) + ")["@ + spec_inline(text) + "]"@ + inline_from(s, next)
        } else {
            esc_char(c) + inline_from(s, i + 1)
        }
    }
}

fn link_at_of(s: &[char], start: usize) -> (r: Option<(Vec<char>, Vec<char>, usize)>)
    requires
        start < s@.len(),
    ensures
        match r {
            Some((t, u, n)) => link_at(s@, start as int) == Some((t@, u@, n as int)),
            None => link_at(s@, start as int) is None,
        },
{
    let n = s.len();
    let close = match find_c(s, ']', start + 1) {
        None => return None,
        Some(x) => x,
    };
    proof {
        lemma_find_char(s@, ']', start + 1);
    }
    if !(close + 1 < s.len() && s[close + 1] == '(') {
        return None;
    }
    let cp = match find_c(s, ')', close + 2) {
        None => return None,
        Some(x) => x,
    };
    proof {
        lemma_find_char(s@, ')', close + 2);
    }
    let text = sub_vec(s, start + 1, close);
    let url = sub_vec(s, close + 2, cp);
    Some((text, url, cp + 1))
}

#[verifier::rlimit(80)]
pub(crate) fn inline_of(s: &[char]) -> (v: Vec<char>)
    ensures
        v@ == spec_inline(s@),
    decreases s@.len(),
{
    let star2 = chars_of("**");
    proof {
        reveal_strlit("**");
    }
    let mut out: Vec<char> = Vec::new();
    let mut i: usize = 0;
    let n = s.len();
    while i < s.len()
        invariant
            0 <= i <= s@.len(),
            star2@ == "**"@,
            star2@.len() == 2,
            n == s@.len(),
            spec_inline(s@) == out@ + inline_from(s@, i as int),
        decreases s@.len() - i,
    {
        let c = s[i];
        proof {
            lemma_find_char(s@, ']', i + 2);
            lemma_find_from(s@, "**"@, i + 2);
            lemma_find_char(s@, c, i + 1);
            lemma_find_char(s@, ']', i + 1);
            if let Some(close) = find_char(s@, ']', i + 1) {
                lemma_find_char(s@, ')', close + 2);
            }
        }
        let foot = if c == '^' && i + 1 < s.len() && s[i + 1] == '[' {
            find_c(s, ']', i + 2)
        } else {
            None
        };
        if let Some(end) = foot {
            let inner = sub_vec(s, i + 2, end);
            let conv = inline_of(&inner);
            push_str(&mut out, "#footnote[");
            push_slice(&mut out, &conv);
            push_str(&mut out, "]");
            i = end + 1;
            continue;
        }
        let bold = if c == '*' && i + 1 < s.len() && s[i + 1] == '*' {
            find(s, &star2, i + 2)
        } else {
            None
        };
        if let Some(end) = bold {
            let inner = sub_vec(s, i + 2, end);
            let conv = inline_of(&inner);
            push_str(&mut out, "#strong[");
            push_slice(&mut out, &conv);
            push_str(&mut out, "]");
            i = end + 2;
            continue;
        }
        let emph = if c == '*' || c == '_' {
            find_c(s, c, i + 1)
        } else {
            None
        };
        if let Some(end) = emph {
            if end > i + 1 {
                let inner = sub_vec(s, i + 1, end);
                let conv = inline_of(&inner);
                push_str(&mut out, "#emph[");
                push_slice(&mut out, &conv);
                push_str(&mut out, "]");
                i = end + 1;
                continue;
            }
        }
        let link = if c == '[' {
            link_at_of(s, i)
        } else {
            None
        };
        if let Some((text, url, next)) = link {
            let q = ty_str_of(&url);
            let conv = inline_of(&text);
            push_str(&mut out, "#link(");
            push_slice(&mut out, &q);
            push_str(&mut out, ")[");
            push_slice(&mut out, &conv);
            push_str(&mut out, "]");
            i = next;
            continue;
        }
        push_escaped(&mut out, c);
        i += 1;
    }
    out
}

/// Convert markdown inline text to Typst markup: `**bold**` → `#strong[…]`,
/// `*italic*`/`_italic_` → `#emph[…]`, `[t](u)` → `#link("u")[t]`, `^[n]` →
/// `#footnote[n]`, everything else escaped as literal text.
pub fn inline(s: &str) -> (r: String)
    ensures
        r@ == spec_inline(s@),
{
    let v = chars_of(s);
    let out = inline_of(&v);
    string_of(&out)
}


// ---------------------------------------------------------------------------
// Block parsing
// ---------------------------------------------------------------------------

/// The accumulated paragraph lines as a block (none when there are none).
pub open spec fn flush(para: Seq<Seq<char>>) -> Seq<BlockV> {
    if para.len() == 0 {
        seq![]
    } else {
        seq![BlockV::Para(join(para, " "@))]
    }
}

/// A fence line (after trimming): starts with three backticks or three tildes.
pub open spec fn is_fence(t: Seq<char>) -> bool {
    starts_with(t, "```"@) || starts_with(t, "~~~"@)
}

/// The first line at or after `j` that closes a fence, or the line count.
pub open spec fn fence_close(ls: Seq<Seq<char>>, j: int) -> int
    decreases ls.len() - j,
{
    if j < 0 || j >= ls.len() {
        ls.len() as int
    } else if is_fence(trim(ls[j])) {
        j
    } else {
        fence_close(ls, j + 1)
    }
}

pub proof fn lemma_fence_close(ls: Seq<Seq<char>>, j: int)
    requires
        0 <= j,
    ensures
        j <= fence_close(ls, j) || fence_close(ls, j) == ls.len(),
        fence_close(ls, j) <= ls.len(),
        j <= ls.len() ==> j <= fence_close(ls, j),
    decreases ls.len() - j,
{
    if j < ls.len() && !is_fence(trim(ls[j])) {
        lemma_fence_close(ls, j + 1);
    }
}

/// The raw lines `ls[a..b]`, each followed by a newline.
pub open spec fn code_text(ls: Seq<Seq<char>>, a: int, b: int) -> Seq<char>
    decreases b - a,
{
    if b <= a {
        seq![]
    } else {
        code_text(ls, a, b - 1) + ls[b - 1] + "\n"@
    }
}

/// The first whitespace-separated word of `s`.
pub open spec fn first_word(s: Seq<char>) -> Seq<char> {
    s.take(word_run(s, 0) as int)
}

/// The first line at or after `j` that is blank or not a table row.
pub open spec fn table_end(ls: Seq<Seq<char>>, j: int) -> int
    decreases ls.len() - j,
{
    if j < 0 || j >= ls.len() {
        ls.len() as int
    } else if trim(ls[j]).len() == 0 || !spec_is_table_row(trim(ls[j])) {
        j
    } else {
        table_end(ls, j + 1)
    }
}

pub proof fn lemma_table_end(ls: Seq<Seq<char>>, j: int)
    requires
        0 <= j <= ls.len(),
    ensures
        j <= table_end(ls, j) <= ls.len(),
    decreases ls.len() - j,
{
    if j < ls.len() && !(trim(ls[j]).len() == 0 || !spec_is_table_row(trim(ls[j]))) {
        lemma_table_end(ls, j + 1);
    }
}

/// The cells of the body rows `ls[a..b]`.
pub open spec fn table_rows(ls: Seq<Seq<char>>, a: int, b: int) -> Seq<Seq<Seq<char>>>
    decreases b - a,
{
    if b <= a {
        seq![]
    } else {
        table_rows(ls, a, b - 1).push(spec_split_table_row(trim(ls[b - 1])))
    }
}

/// A line that ends a list: a rule, a heading, an image, a fence or a table row.
pub open spec fn list_stop(t: Seq<char>) -> bool {
    spec_is_rule(t) || spec_parse_heading(t) is Some || spec_parse_image(t) is Some || is_fence(t)
        || spec_is_table_row(t)
}

/// Continue a list from line `k` with the items so far: marker lines add items,
/// unmarked lines continue the last item, a blank line or another block ends it.
/// Returns the items and the first line after the list.
pub open spec fn list_scan(ls: Seq<Seq<char>>, k: int, items: Seq<Seq<char>>) -> (
    Seq<Seq<char>>,
    int,
)
    decreases ls.len() - k,
{
    if k < 0 || k >= ls.len() {
        (items, ls.len() as int)
    } else {
        let t = trim(ls[k]);
        if t.len() == 0 {
            (items, k)
        } else {
            match spec_list_marker(t) {
                Some((_, content)) => list_scan(ls, k + 1, items.push(content)),
                None => if list_stop(t) {
                    (items, k)
                } else {
                    list_scan(
                        ls,
                        k + 1,
                        items.update(items.len() - 1, items.last() + " "@ + t),
                    )
                },
            }
        }
    }
}

pub proof fn lemma_list_scan(ls: Seq<Seq<char>>, k: int, items: Seq<Seq<char>>)
    requires
        0 <= k <= ls.len(),
    ensures
        k <= list_scan(ls, k, items).1 <= ls.len(),
    decreases ls.len() - k,
{
    if k < ls.len() {
        let t = trim(ls[k]);
        if t.len() != 0 {
            match spec_list_marker(t) {
                Some((_, content)) => lemma_list_scan(ls, k + 1, items.push(content)),
                None => if !list_stop(t) {
                    lemma_list_scan(
                        ls,
                        k + 1,
                        items.update(items.len() - 1, items.last() + " "@ + t),
                    );
                },
            }
        }
    }
}

/// The blocks of the lines `ls[i..]`, with `para` the paragraph lines pending.
pub open spec fn parse_from(ls: Seq<Seq<char>>, i: int, para: Seq<Seq<char>>) -> Seq<BlockV>
    decreases ls.len() - i,
{
    if i < 0 || i >= ls.len() {
        flush(para)
    } else {
        let line = trim_end(ls[i]);
        let t = trim(ls[i]);
        proof {
            lemma_fence_close(ls, i + 1);
            if i + 2 <= ls.len() {
                lemma_table_end(ls, i + 2);
            }
        }
        if is_fence(t) {
            let info = trim(t.skip(3));
            let raw = starts_with(info, "{"@);
            let lang = if !raw && info.len() > 0 {
                Some(first_word(info))
            } else {
                None
            };
            let j = fence_close(ls, i + 1);
            let next = if j < ls.len() {
                j + 1
            } else {
                j
            };
            flush(para) + (if raw {
                seq![]
            } else {
                seq![BlockV::Code { lang, code: code_text(ls, i + 1, j) }]
            }) + parse_from(ls, next, seq![])
        } else if t.len() == 0 {
            flush(para) + parse_from(ls, i + 1, seq![])
        } else if spec_is_table_row(t) && i + 1 < ls.len() && spec_is_table_separator(
            trim(ls[i + 1]),
        ) {
            let j = table_end(ls, i + 2);
            flush(para) + seq![
                BlockV::Table { header: spec_split_table_row(t), rows: table_rows(ls, i + 2, j) },
            ] + parse_from(ls, j, seq![])
        } else if spec_is_rule(t) {
            flush(para) + seq![BlockV::Rule] + parse_from(ls, i + 1, seq![])
        } else if spec_parse_heading(t) is Some {
            flush(para) + seq![spec_parse_heading(t)->0] + parse_from(ls, i + 1, seq![])
        } else if spec_parse_image(t) is Some {
            flush(para) + seq![spec_parse_image(t)->0] + parse_from(ls, i + 1, seq![])
        } else if spec_list_marker(t) is Some {
            let (ordered, first) = spec_list_marker(t)->0;
            let scan = list_scan(ls, i + 1, seq![first]);
            proof {
                lemma_list_scan(ls, i + 1, seq![first]);
            }
            flush(para) + seq![BlockV::List { ordered, items: scan.0 }] + parse_from(
                ls,
                scan.1,
                seq![],
            )
        } else {
            parse_from(ls, i + 1, para.push(line))
        }
    }
}

/// The blocks of a chapter: HTML comments removed, then the lines parsed.
pub open spec fn spec_parse_blocks(md: Seq<char>) -> Seq<BlockV> {
    parse_from(lines(strip_comments(md)), 0, seq![])
}


fn is_fence_of(t: &[char]) -> (r: bool)
    ensures
        r == is_fence(t@),
{
    begins(t, "```") || begins(t, "~~~")
}

fn fence_close_of(ls: &Vec<Vec<char>>, j: usize) -> (r: usize)
    requires
        j <= ls@.len(),
    ensures
        r as int == fence_close(views(ls@), j as int),
        j <= r <= ls@.len(),
{
    proof {
        lemma_fence_close(views(ls@), j as int);
    }
    let mut k = j;
    while k < ls.len()
        invariant
            j <= k <= ls@.len(),
            fence_close(views(ls@), j as int) == fence_close(views(ls@), k as int),
        decreases ls@.len() - k,
    {
        let t = trimmed(&ls[k]);
        assert(views(ls@)[k as int] == ls@[k as int]@);
        if is_fence_of(&t) {
            return k;
        }
        k += 1;
    }
    k
}

fn code_text_of(ls: &Vec<Vec<char>>, a: usize, b: usize) -> (v: Vec<char>)
    requires
        a <= b <= ls@.len(),
    ensures
        v@ == code_text(views(ls@), a as int, b as int),
{
    let mut v: Vec<char> = Vec::new();
    let mut k = a;
    while k < b
        invariant
            a <= k <= b <= ls@.len(),
            v@ == code_text(views(ls@), a as int, k as int),
        decreases b - k,
    {
        assert(views(ls@)[k as int] == ls@[k as int]@);
        push_slice(&mut v, &ls[k]);
        push_str(&mut v, "\n");
        k += 1;
    }
    v
}

fn table_end_of(ls: &Vec<Vec<char>>, j: usize) -> (r: usize)
    requires
        j <= ls@.len(),
    ensures
        r as int == table_end(views(ls@), j as int),
        j <= r <= ls@.len(),
{
    proof {
        lemma_table_end(views(ls@), j as int);
    }
    let mut k = j;
    while k < ls.len()
        invariant
            j <= k <= ls@.len(),
            table_end(views(ls@), j as int) == table_end(views(ls@), k as int),
        decreases ls@.len() - k,
    {
        let t = trimmed(&ls[k]);
        assert(views(ls@)[k as int] == ls@[k as int]@);
        if t.len() == 0 || !is_table_row_of(&t) {
            return k;
        }
        k += 1;
    }
    k
}

fn table_rows_of(ls: &Vec<Vec<char>>, a: usize, b: usize) -> (rows: Vec<Vec<String>>)
    requires
        a <= b <= ls@.len(),
    ensures
        rows@.map_values(|r: Vec<String>| svs(r@)) == table_rows(views(ls@), a as int, b as int),
{
    let mut rows: Vec<Vec<String>> = Vec::new();
    let mut k = a;
    while k < b
        invariant
            a <= k <= b <= ls@.len(),
            rows@.map_values(|r: Vec<String>| svs(r@)) == table_rows(
                views(ls@),
                a as int,
                k as int,
            ),
        decreases b - k,
    {
        assert(views(ls@)[k as int] == ls@[k as int]@);
        let t = trimmed(&ls[k]);
        let cells = split_table_row_of(&t);
        let row = strings_of(&cells);
        let ghost r0 = rows@;
        rows.push(row);
        assert(rows@.map_values(|r: Vec<String>| svs(r@)) =~= r0.map_values(
            |r: Vec<String>| svs(r@),
        ).push(svs(row@)));
        k += 1;
    }
    rows
}

fn list_stop_of(t: &[char]) -> (r: bool)
    ensures
        r == list_stop(t@),
{
    is_rule_of(t) || parse_heading_of(t).is_some() || parse_image_of(t).is_some() || is_fence_of(
        t,
    ) || is_table_row_of(t)
}

fn list_scan_of(ls: &Vec<Vec<char>>, k0: usize, first: Vec<char>) -> (r: (Vec<Vec<char>>, usize))
    requires
        k0 <= ls@.len(),
    ensures
        (views(r.0@), r.1 as int) == list_scan(views(ls@), k0 as int, seq![first@]),
        k0 <= r.1 <= ls@.len(),
{
    let ghost L = views(ls@);
    let mut items: Vec<Vec<char>> = Vec::new();
    items.push(first);
    assert(views(items@) =~= seq![first@]);
    proof {
        lemma_list_scan(L, k0 as int, seq![first@]);
    }
    let mut k = k0;
    while k < ls.len()
        invariant
            k0 <= k <= ls@.len(),
            L == views(ls@),
            items@.len() > 0,
            list_scan(L, k0 as int, seq![first@]) == list_scan(L, k as int, views(items@)),
            k0 <= list_scan(L, k0 as int, seq![first@]).1 <= ls@.len(),
        decreases ls@.len() - k,
    {
        assert(L[k as int] == ls@[k as int]@);
        let t = trimmed(&ls[k]);
        if t.len() == 0 {
            return (items, k);
        }
        match list_marker_of(&t) {
            Some((_, content)) => {
                let ghost i0 = items@;
                items.push(content);
                assert(views(items@) =~= views(i0).push(content@));
            },
            None => {
                if list_stop_of(&t) {
                    return (items, k);
                }
                let ghost i0 = views(items@);
                let mut last = items.pop().unwrap();
                proof {
                    assert(last@ == i0.last());
                    assert(views(items@) =~= i0.drop_last());
                }
                last.push(' ');
                push_slice(&mut last, &t);
                let ghost lv = last@;
                proof {
                    reveal_strlit(" ");
                    assert(" "@ =~= seq![' ']);
                    assert(lv =~= i0.last() + " "@ + t@);
                }
                let ghost i1 = views(items@);
                items.push(last);
                assert(views(items@) =~= i1.push(lv));
                assert(views(items@) =~= i0.update(i0.len() - 1, i0.last() + " "@ + t@));
            },
        }
        k += 1;
    }
    (items, k)
}

fn flush_into(out: &mut Vec<Block>, para: &mut Vec<Vec<char>>)
    ensures
        bviews(final(out)@) == bviews(old(out)@) + flush(views(old(para)@)),
        final(para)@.len() == 0,
{
    if para.len() > 0 {
        let j = join_vecs(para, " ");
        let b = Block::Para(string_of(&j));
        let ghost o0 = out@;
        out.push(b);
        assert(bviews(out@) =~= bviews(o0) + seq![b@]);
        para.clear();
    } else {
        assert(bviews(out@) =~= bviews(out@) + Seq::<BlockV>::empty());
    }
}

fn push_block(out: &mut Vec<Block>, b: Block)
    ensures
        bviews(final(out)@) == bviews(old(out)@) + seq![b@],
{
    let ghost o0 = out@;
    out.push(b);
    assert(bviews(out@) =~= bviews(o0) + seq![b@]);
}

/// The block loop's state after handling line `i` equals its state before.
pub open spec fn step_ok(
    ls: Seq<Seq<char>>,
    i: int,
    next: int,
    out0: Seq<BlockV>,
    para0: Seq<Seq<char>>,
    out1: Seq<BlockV>,
    para1: Seq<Seq<char>>,
) -> bool {
    &&& i < next <= ls.len()
    &&& out1 + parse_from(ls, next, para1) == out0 + parse_from(ls, i, para0)
}

/// A fenced code block opening at line `i`.
fn fence_step(
    ls: &Vec<Vec<char>>,
    i: usize,
    t: &Vec<char>,
    out: &mut Vec<Block>,
    para: &mut Vec<Vec<char>>,
) -> (next: usize)
    requires
        i < ls@.len(),
        t@ == trim(ls@[i as int]@),
        is_fence(t@),
    ensures
        step_ok(
            views(ls@),
            i as int,
            next as int,
            bviews(old(out)@),
            views(old(para)@),
            bviews(final(out)@),
            views(final(para)@),
        ),
{
    let ghost L = views(ls@);
    let _n = ls.len();
    let ghost o0 = bviews(out@);
    let ghost p0 = views(para@);
    proof {
        assert(L[i as int] == ls@[i as int]@);
        reveal_strlit("```");
        reveal_strlit("~~~");
        assert("```"@.len() == 3);
        assert("~~~"@.len() == 3);
        lemma_fence_close(L, i + 1);
    }
    flush_into(out, para);
    let rest = sub_vec(t, 3, t.len());
    assert(rest@ =~= t@.skip(3));
    let info = trimmed(&rest);
    let raw_fence = begins(&info, "{");
    let lang = if !raw_fence && info.len() > 0 {
        let e = word_end(&info, 0);
        Some(string_of(&sub_vec(&info, 0, e)))
    } else {
        None
    };
    let j = fence_close_of(ls, i + 1);
    let code = code_text_of(ls, i + 1, j);
    let ghost o1 = bviews(out@);
    let ghost lang_v = ostr(lang);
    proof {
        if !raw_fence && info@.len() > 0 {
            assert(lang_v == Some(first_word(info@)));
        } else {
            assert(lang_v is None);
        }
    }
    if !raw_fence {
        push_block(out, Block::Code { lang, code: string_of(&code) });
    }
    let next = if j < ls.len() {
        j + 1
    } else {
        j
    };
    proof {
        let o2 = bviews(out@);
        let blk: Seq<BlockV> = if raw_fence {
            seq![]
        } else {
            seq![BlockV::Code { lang: lang_v, code: code@ }]
        };
        assert(o2 =~= o1 + blk);
        assert(parse_from(L, i as int, p0) == flush(p0) + blk + parse_from(L, next as int, seq![]));
        assert(views(para@) =~= Seq::<Seq<char>>::empty());
        assert(o2 + parse_from(L, next as int, views(para@)) =~= o0 + parse_from(L, i as int, p0));
    }
    next
}

/// A table whose header is line `i` and whose separator is line `i + 1`.
fn table_step(
    ls: &Vec<Vec<char>>,
    i: usize,
    t: &Vec<char>,
    out: &mut Vec<Block>,
    para: &mut Vec<Vec<char>>,
) -> (next: usize)
    requires
        i + 1 < ls@.len(),
        t@ == trim(ls@[i as int]@),
        !is_fence(t@),
        t@.len() != 0,
        spec_is_table_row(t@),
        spec_is_table_separator(trim(ls@[i + 1]@)),
    ensures
        step_ok(
            views(ls@),
            i as int,
            next as int,
            bviews(old(out)@),
            views(old(para)@),
            bviews(final(out)@),
            views(final(para)@),
        ),
{
    let ghost L = views(ls@);
    let _n = ls.len();
    let ghost o0 = bviews(out@);
    let ghost p0 = views(para@);
    proof {
        assert(L[i as int] == ls@[i as int]@);
        assert(L[i + 1] == ls@[i + 1]@);
        lemma_table_end(L, i + 2);
    }
    flush_into(out, para);
    let header = strings_of(&split_table_row_of(t));
    let j = table_end_of(ls, i + 2);
    let rows = table_rows_of(ls, i + 2, j);
    let ghost o1 = bviews(out@);
    let b = Block::Table { header, rows };
    push_block(out, b);
    proof {
        let blk = seq![BlockV::Table { header: spec_split_table_row(t@), rows: table_rows(L, i + 2, j as int) }];
        assert(b@ == blk[0]);
        assert(parse_from(L, i as int, p0) == flush(p0) + blk + parse_from(L, j as int, seq![]));
        assert(views(para@) =~= Seq::<Seq<char>>::empty());
        assert(bviews(out@) + parse_from(L, j as int, views(para@)) =~= o0 + parse_from(L, i as int, p0));
    }
    j
}

/// A list whose first item is on line `i`.
fn list_step(
    ls: &Vec<Vec<char>>,
    i: usize,
    t: &Vec<char>,
    out: &mut Vec<Block>,
    para: &mut Vec<Vec<char>>,
) -> (next: usize)
    requires
        i < ls@.len(),
        t@ == trim(ls@[i as int]@),
        !is_fence(t@),
        t@.len() != 0,
        !(spec_is_table_row(t@) && i + 1 < ls@.len() && spec_is_table_separator(trim(ls@[i + 1]@))),
        !spec_is_rule(t@),
        spec_parse_heading(t@) is None,
        spec_parse_image(t@) is None,
        spec_list_marker(t@) is Some,
    ensures
        step_ok(
            views(ls@),
            i as int,
            next as int,
            bviews(old(out)@),
            views(old(para)@),
            bviews(final(out)@),
            views(final(para)@),
        ),
{
    let ghost L = views(ls@);
    let _n = ls.len();
    let ghost o0 = bviews(out@);
    let ghost p0 = views(para@);
    proof {
        assert(L[i as int] == ls@[i as int]@);
        if i + 1 < ls@.len() {
            assert(L[i + 1] == ls@[i + 1]@);
        }
    }
    flush_into(out, para);
    let m = list_marker_of(t);
    let (ordered, first) = m.unwrap();
    let ghost fv = first@;
    proof {
        lemma_list_scan(L, i + 1, seq![fv]);
    }
    let (items, j) = list_scan_of(ls, i + 1, first);
    let b = Block::List { ordered, items: strings_of(&items) };
    push_block(out, b);
    proof {
        let scan = list_scan(L, i + 1, seq![fv]);
        let blk = seq![BlockV::List { ordered, items: scan.0 }];
        assert(b@ == blk[0]);
        assert(parse_from(L, i as int, p0) == flush(p0) + blk + parse_from(L, scan.1, seq![]));
        assert(views(para@) =~= Seq::<Seq<char>>::empty());
        assert(bviews(out@) + parse_from(L, j as int, views(para@)) =~= o0 + parse_from(L, i as int, p0));
    }
    j
}

/// A line that is a block of its own (blank, rule, heading or image), or a paragraph line.
fn line_step(
    ls: &Vec<Vec<char>>,
    i: usize,
    out: &mut Vec<Block>,
    para: &mut Vec<Vec<char>>,
) -> (next: usize)
    requires
        i < ls@.len(),
    ensures
        step_ok(
            views(ls@),
            i as int,
            next as int,
            bviews(old(out)@),
            views(old(para)@),
            bviews(final(out)@),
            views(final(para)@),
        ),
{
    let ghost L = views(ls@);
    let _n = ls.len();
    let ghost o0 = bviews(out@);
    let ghost p0 = views(para@);
    proof {
        assert(L[i as int] == ls@[i as int]@);
        if i + 1 < ls@.len() {
            assert(L[i + 1] == ls@[i + 1]@);
        }
    }
    let t = trimmed(&ls[i]);
    if is_fence_of(&t) {
        return fence_step(ls, i, &t, out, para);
    }
    if t.len() == 0 {
        flush_into(out, para);
        proof {
            assert(parse_from(L, i as int, p0) == flush(p0) + parse_from(L, i + 1, seq![]));
            assert(views(para@) =~= Seq::<Seq<char>>::empty());
            assert(bviews(out@) + parse_from(L, i + 1, views(para@)) =~= o0 + parse_from(L, i as int, p0));
        }
        return i + 1;
    }
    if i + 1 < ls.len() && is_table_row_of(&t) && is_table_separator_of(&trimmed(&ls[i + 1])) {
        return table_step(ls, i, &t, out, para);
    }
    let single: Option<Block> = if is_rule_of(&t) {
        Some(Block::Rule)
    } else if let Some(h) = parse_heading_of(&t) {
        Some(h)
    } else if let Some(img) = parse_image_of(&t) {
        Some(img)
    } else {
        None
    };
    if let Some(b) = single {
        flush_into(out, para);
        let ghost bv = b@;
        push_block(out, b);
        proof {
            assert(parse_from(L, i as int, p0) == flush(p0) + seq![bv] + parse_from(L, i + 1, seq![]));
            assert(views(para@) =~= Seq::<Seq<char>>::empty());
            assert(bviews(out@) + parse_from(L, i + 1, views(para@)) =~= o0 + parse_from(L, i as int, p0));
        }
        return i + 1;
    }
    if list_marker_of(&t).is_some() {
        return list_step(ls, i, &t, out, para);
    }
    let line = trimmed_end(&ls[i]);
    para.push(line);
    proof {
        assert(views(para@) =~= p0.push(line@));
        assert(parse_from(L, i as int, p0) == parse_from(L, i + 1, p0.push(line@)));
    }
    i + 1
}

/// Split markdown into blocks (see the module notes for what is recognized).
pub fn parse_blocks(md: &str) -> (out: Vec<Block>)
    ensures
        bviews(out@) == spec_parse_blocks(md@),
{
    let raw = chars_of(md);
    let text = strip_html_comments(&raw);
    let ls = lines_of(&text);
    let ghost L = lines(strip_comments(md@));
    assert(views(ls@) =~= L);
    let mut out: Vec<Block> = Vec::new();
    let mut para: Vec<Vec<char>> = Vec::new();
    assert(bviews(out@) =~= Seq::<BlockV>::empty());
    assert(views(para@) =~= Seq::<Seq<char>>::empty());
    assert(bviews(out@) + parse_from(L, 0, views(para@)) =~= spec_parse_blocks(md@));
    let mut i: usize = 0;
    while i < ls.len()
        invariant
            0 <= i <= ls@.len(),
            views(ls@) == L,
            spec_parse_blocks(md@) == bviews(out@) + parse_from(L, i as int, views(para@)),
        decreases ls@.len() - i,
    {
        i = line_step(&ls, i, &mut out, &mut para);
    }
    flush_into(&mut out, &mut para);
    assert(bviews(out@) =~= spec_parse_blocks(md@));
    out
}

// ---------------------------------------------------------------------------
// Laws
// ---------------------------------------------------------------------------

/// A parsed heading has a level from one to six.
pub proof fn law_heading_level_range(s: Seq<char>)
    requires
        spec_parse_heading(s) is Some,
    ensures
        spec_parse_heading(s) matches Some(BlockV::Heading { level, .. }) && 1 <= level <= 6,
{
    reveal_strlit("#");
    assert(s.take(1) =~= "#"@);
    assert(s[0] == s.take(1)[0]);
}

/// The characters Typst reads as markup in running text.
pub open spec fn typst_markup_chars() -> Seq<char> {
    seq!['\\', '#', '$', '*', '_', '`', '<', '>', '@', '[', ']', '~', '^', '/']
}

/// Text made safe for Typst: each markup character behind a backslash, every
/// other character as it is.
pub open spec fn typst_literal(s: Seq<char>) -> Seq<char>
    decreases s.len(),
{
    if s.len() == 0 {
        seq![]
    } else {
        (if typst_markup_chars().contains(s[0]) {
            seq!['\\', s[0]]
        } else {
            seq![s[0]]
        }) + typst_literal(s.drop_first())
    }
}

/// Escaping puts a backslash before exactly the characters Typst reads as
/// markup (so `$` never opens math mode, `#` never starts code, `*` and `_`
/// never start emphasis) and leaves every other character alone.
pub proof fn law_escape_exactly_markup(c: char)
    ensures
        typst_markup_chars().contains(c) ==> esc_char(c) == seq!['\\', c],
        !typst_markup_chars().contains(c) ==> esc_char(c) == seq![c],
{
    let m = typst_markup_chars();
    if m.contains(c) {
        let k = choose|k: int| 0 <= k < m.len() && m[k] == c;
        assert(m[k] == c);
    } else {
        if c == '\\' { assert(m[0] == c); }
        if c == '#' { assert(m[1] == c); }
        if c == '$' { assert(m[2] == c); }
        if c == '*' { assert(m[3] == c); }
        if c == '_' { assert(m[4] == c); }
        if c == '`' { assert(m[5] == c); }
        if c == '<' { assert(m[6] == c); }
        if c == '>' { assert(m[7] == c); }
        if c == '@' { assert(m[8] == c); }
        if c == '[' { assert(m[9] == c); }
        if c == ']' { assert(m[10] == c); }
        if c == '~' { assert(m[11] == c); }
        if c == '^' { assert(m[12] == c); }
        if c == '/' { assert(m[13] == c); }
    }
}

/// Text with no inline markdown (no `*`, `_`, `[` or `^`) converts to itself
/// made safe for Typst: every markup character in it, `$` among them, comes
/// out behind a backslash, and nothing else changes.
pub proof fn law_plain_text_is_escaped(s: Seq<char>)
    requires
        !s.contains('*'),
        !s.contains('_'),
        !s.contains('['),
        !s.contains('^'),
    ensures
        spec_inline(s) == typst_literal(s),
{
    lemma_plain_from(s, 0);
    assert(s.skip(0) =~= s);
}

proof fn lemma_plain_from(s: Seq<char>, i: int)
    requires
        0 <= i <= s.len(),
        !s.contains('*'),
        !s.contains('_'),
        !s.contains('['),
        !s.contains('^'),
    ensures
        inline_from(s, i) == typst_literal(s.skip(i)),
    decreases s.len() - i,
{
    if i < s.len() {
        let c = s[i];
        assert(c != '*' && c != '_' && c != '[' && c != '^') by {
            if c == '*' || c == '_' || c == '[' || c == '^' {
                assert(s.contains(c));
            }
        }
        lemma_plain_from(s, i + 1);
        law_escape_exactly_markup(c);
        assert(s.skip(i).drop_first() =~= s.skip(i + 1));
        assert(s.skip(i)[0] == c);
    } else {
        assert(s.skip(i) =~= Seq::<char>::empty());
    }
}

} // verus!
