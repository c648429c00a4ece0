//! Reference-style footnote checks for a chapter.
//!
//! A `[^id]` reference with no `[^id]:` definition, a definition-looking line
//! `[^id] …` missing its colon, and a definition nothing references all render
//! as literal brackets or dead text in the published book. Lines inside code
//! fences are ignored.
use vstd::prelude::*;
use crate::text::{
    begins, chars_of, contains, find, find_c, find_char, find_from, lemma_find_char, match_at,
    lemma_find_from, lines, lines_of, push_slice, push_str, starts_with, string_of, sub_vec,
    trim_start, trimmed_start, views,
};

verus! {

// ---------------------------------------------------------------------------
// Findings and their order
// ---------------------------------------------------------------------------

/// A finding as plain values: its line (0 for the whole file) and message.
pub open spec fn fview(p: (usize, String)) -> (nat, Seq<char>) {
    (p.0 as nat, p.1@)
}

/// The views of a list of findings.
pub open spec fn fviews(s: Seq<(usize, String)>) -> Seq<(nat, Seq<char>)> {
    s.map_values(|p: (usize, String)| fview(p))
}

/// Lexicographic order of texts by code point (the order of `String`, whose
/// UTF-8 bytes sort as their code points do).
pub open spec fn text_less(a: Seq<char>, b: Seq<char>) -> bool
    decreases a.len(),
{
    if a.len() == 0 {
        b.len() > 0
    } else if b.len() == 0 {
        false
    } else if a[0] != b[0] {
        (a[0] as u32) < (b[0] as u32)
    } else {
        text_less(a.skip(1), b.skip(1))
    }
}

/// The order of `(line, message)` pairs: by line, then by message.
pub open spec fn finding_less(a: (nat, Seq<char>), b: (nat, Seq<char>)) -> bool {
    a.0 < b.0 || (a.0 == b.0 && text_less(a.1, b.1))
}

/// Where `x` goes in `s`: before the first element it is less than.
pub open spec fn insert_pos(s: Seq<(nat, Seq<char>)>, x: (nat, Seq<char>), i: int) -> int
    decreases s.len() - i,
{
    if i < 0 || i >= s.len() {
        s.len() as int
    } else if finding_less(x, s[i]) {
        i
    } else {
        insert_pos(s, x, i + 1)
    }
}

pub proof fn lemma_insert_pos(s: Seq<(nat, Seq<char>)>, x: (nat, Seq<char>), i: int)
    requires
        0 <= i <= s.len(),
    ensures
        i <= insert_pos(s, x, i) <= s.len(),
    decreases s.len() - i,
{
    if i < s.len() && !finding_less(x, s[i]) {
        lemma_insert_pos(s, x, i + 1);
    }
}

/// `s` with `x` inserted at its place.
pub open spec fn insert_sorted(s: Seq<(nat, Seq<char>)>, x: (nat, Seq<char>)) -> Seq<(nat, Seq<char>)> {
    let k = insert_pos(s, x, 0);
    s.take(k).push(x) + s.skip(k)
}

/// `s` sorted by insertion, element by element.
pub open spec fn sort_findings(s: Seq<(nat, Seq<char>)>) -> Seq<(nat, Seq<char>)>
    decreases s.len(),
{
    if s.len() == 0 {
        s
    } else {
        insert_sorted(sort_findings(s.drop_last()), s.last())
    }
}

fn text_less_exec(a: &[char], b: &[char]) -> (r: bool)
    ensures
        r == text_less(a@, b@),
{
    let mut i: usize = 0;
    assert(a@.skip(0) =~= a@);
    assert(b@.skip(0) =~= b@);
    while i < a.len() && i < b.len()
        invariant
            0 <= i <= a@.len(),
            i <= b@.len(),
            text_less(a@, b@) == text_less(a@.skip(i as int), b@.skip(i as int)),
        decreases a@.len() - i,
    {
        assert(a@.skip(i as int)[0] == a@[i as int]);
        assert(b@.skip(i as int)[0] == b@[i as int]);
        if a[i] != b[i] {
            return (a[i] as u32) < (b[i] as u32);
        }
        assert(a@.skip(i as int).skip(1) =~= a@.skip(i as int + 1));
        assert(b@.skip(i as int).skip(1) =~= b@.skip(i as int + 1));
        i += 1;
    }
    a.len() == i && b.len() > i
}

fn finding_less_exec(a: &(usize, String), b: &(usize, String)) -> (r: bool)
    ensures
        r == finding_less(fview(*a), fview(*b)),
{
    if a.0 < b.0 {
        true
    } else if a.0 == b.0 {
        text_less_exec(&chars_of(a.1.as_str()), &chars_of(b.1.as_str()))
    } else {
        false
    }
}

fn insert_finding(v: &mut Vec<(usize, String)>, x: (usize, String))
    ensures
        fviews(final(v)@) == insert_sorted(fviews(old(v)@), fview(x)),
{
    let ghost s = fviews(v@);
    proof {
        lemma_insert_pos(s, fview(x), 0);
    }
    let mut k: usize = 0;
    while k < v.len()
        invariant
            0 <= k <= v@.len(),
            s == fviews(v@),
            insert_pos(s, fview(x), 0) == insert_pos(s, fview(x), k as int),
        ensures
            0 <= k <= v@.len(),
            s == fviews(v@),
            insert_pos(s, fview(x), 0) == k as int,
        decreases v@.len() - k,
    {
        assert(s[k as int] == fview(v@[k as int]));
        if finding_less_exec(&x, &v[k]) {
            break;
        }
        k += 1;
    }
    let ghost xv = fview(x);
    v.insert(k, x);
    assert(fviews(v@) =~= s.take(k as int).push(xv) + s.skip(k as int));
}

/// Sort findings by line, then message.
fn sort_findings_exec(u: &Vec<(usize, String)>) -> (r: Vec<(usize, String)>)
    ensures
        fviews(r@) == sort_findings(fviews(u@)),
{
    let mut r: Vec<(usize, String)> = Vec::new();
    let mut i: usize = 0;
    while i < u.len()
        invariant
            0 <= i <= u@.len(),
            fviews(r@) == sort_findings(fviews(u@).take(i as int)),
        decreases u@.len() - i,
    {
        let x = (u[i].0, u[i].1.clone());
        assert(fview(x) == fviews(u@)[i as int]);
        assert(fviews(u@).take(i as int + 1).drop_last() =~= fviews(u@).take(i as int));
        insert_finding(&mut r, x);
        i += 1;
    }
    assert(fviews(u@).take(u@.len() as int) =~= fviews(u@));
    r
}

// ---------------------------------------------------------------------------
// The scan
// ---------------------------------------------------------------------------

/// A footnote id: not empty and free of spaces.
pub open spec fn valid_id(id: Seq<char>) -> bool {
    id.len() > 0 && !id.contains(' ')
}

/// The ids referenced in `s[i..]`: each `[^` up to the next `]`, when valid.
pub open spec fn refs_from(s: Seq<char>, i: int) -> Seq<Seq<char>>
    decreases s.len() - i,
{
    if i < 0 || i > s.len() {
        seq![]
    } else {
        match find_from(s, "[^"@, i) {
            None => seq![],
            Some(p) => match find_char(s, ']', p + 2) {
                None => seq![],
                Some(c) => {
                    proof {
                        lemma_find_from(s, "[^"@, i);
                        lemma_find_char(s, ']', p + 2);
                    }
                    let id = s.subrange(p + 2, c);
                    (if valid_id(id) {
                        seq![id]
                    } else {
                        seq![]
                    }) + refs_from(s, c + 1)
                },
            },
        }
    }
}

/// How a line opens a definition: `[^id]:` defines `id`; `[^id] ` (a space
/// where the colon belongs) is a broken definition.
pub enum DefLine {
    Def(Seq<char>),
    MissingColon(Seq<char>),
    Other,
}

/// What a line is as a definition.
pub open spec fn def_line(line: Seq<char>) -> DefLine {
    if starts_with(line, "[^"@) {
        let rest = line.skip(2);
        match find_char(rest, ']', 0) {
            Some(close) => {
                let id = rest.take(close);
                let after = rest.skip(close + 1);
                if valid_id(id) && starts_with(after, ":"@) {
                    DefLine::Def(id)
                } else if valid_id(id) && starts_with(after, " "@) {
                    DefLine::MissingColon(id)
                } else {
                    DefLine::Other
                }
            },
            None => DefLine::Other,
        }
    } else {
        DefLine::Other
    }
}

/// The message for a definition missing its colon.
pub open spec fn msg_missing_colon(id: Seq<char>) -> Seq<char> {
    "footnote definition \"[^"@ + id + "]\" is missing its colon (write \"[^"@ + id
        + "]:\") — renders as literal brackets"@
}

/// The message for a reference with no definition.
pub open spec fn msg_no_definition(id: Seq<char>) -> Seq<char> {
    "footnote reference \"[^"@ + id + "]\" has no definition — renders as literal brackets"@
}

/// The message for a definition nothing references.
pub open spec fn msg_unreferenced(id: Seq<char>) -> Seq<char> {
    "footnote definition \"[^"@ + id + "]:\" is never referenced"@
}

/// The scan state after some lines: inside a code fence or not, references
/// (line, id), definitions (each once, in order) and findings so far.
pub struct Scan {
    pub fence: bool,
    pub refs: Seq<(nat, Seq<char>)>,
    pub defs: Seq<Seq<char>>,
    pub out: Seq<(nat, Seq<char>)>,
}

/// A fence line toggles the code fence.
pub open spec fn fence_line(line: Seq<char>) -> bool {
    let t = trim_start(line);
    starts_with(t, "```"@) || starts_with(t, "~~~"@)
}

/// Line `ln` (counted from one) applied to the scan.
pub open spec fn scan_line(st: Scan, line: Seq<char>, ln: nat) -> Scan {
    if fence_line(line) {
        Scan { fence: !st.fence, ..st }
    } else if st.fence {
        st
    } else {
        match def_line(line) {
            DefLine::Def(id) => Scan {
                defs: if st.defs.contains(id) {
                    st.defs
                } else {
                    st.defs.push(id)
                },
                ..st
            },
            DefLine::MissingColon(id) => Scan { out: st.out.push((ln, msg_missing_colon(id))), ..st },
            DefLine::Other => Scan {
                refs: st.refs + refs_from(line, 0).map_values(|id: Seq<char>| (ln, id)),
                ..st
            },
        }
    }
}

/// The scan of the first `n` lines.
pub open spec fn scan_lines(ls: Seq<Seq<char>>, n: int) -> Scan
    decreases n,
{
    if n <= 0 || n > ls.len() {
        Scan { fence: false, refs: seq![], defs: seq![], out: seq![] }
    } else {
        scan_line(scan_lines(ls, n - 1), ls[n - 1], n as nat)
    }
}

/// Findings for references to undefined ids, in reference order.
pub open spec fn undefined_refs(refs: Seq<(nat, Seq<char>)>, defs: Seq<Seq<char>>) -> Seq<(nat, Seq<char>)>
    decreases refs.len(),
{
    if refs.len() == 0 {
        seq![]
    } else {
        undefined_refs(refs.drop_last(), defs) + (if defs.contains(refs.last().1) {
            seq![]
        } else {
            seq![(refs.last().0, msg_no_definition(refs.last().1))]
        })
    }
}

/// Is `id` referenced anywhere?
pub open spec fn referenced(refs: Seq<(nat, Seq<char>)>, id: Seq<char>) -> bool {
    exists|k: int| 0 <= k < refs.len() && (#[trigger] refs[k]).1 == id
}

/// Findings (line 0) for definitions nothing references, in definition order.
pub open spec fn unreferenced_defs(defs: Seq<Seq<char>>, refs: Seq<(nat, Seq<char>)>) -> Seq<(nat, Seq<char>)>
    decreases defs.len(),
{
    if defs.len() == 0 {
        seq![]
    } else {
        unreferenced_defs(defs.drop_last(), refs) + (if referenced(refs, defs.last()) {
            seq![]
        } else {
            seq![(0nat, msg_unreferenced(defs.last()))]
        })
    }
}

/// The footnote findings of a chapter, sorted by line and then message.
pub open spec fn spec_footnote_findings(md: Seq<char>) -> Seq<(nat, Seq<char>)> {
    let ls = lines(md);
    let st = scan_lines(ls, ls.len() as int);
    sort_findings(st.out + undefined_refs(st.refs, st.defs) + unreferenced_defs(st.defs, st.refs))
}

/// The views of recorded references.
pub open spec fn rviews(r: Seq<(usize, Vec<char>)>) -> Seq<(nat, Seq<char>)> {
    r.map_values(|p: (usize, Vec<char>)| (p.0 as nat, p.1@))
}

/// Ids tagged with the line they are on.
pub open spec fn tag(ids: Seq<Seq<char>>, ln: nat) -> Seq<(nat, Seq<char>)> {
    ids.map_values(|id: Seq<char>| (ln, id))
}

fn refs_of_line(line: &[char], ln: usize, refs: &mut Vec<(usize, Vec<char>)>)
    ensures
        rviews(final(refs)@) == rviews(old(refs)@) + tag(refs_from(line@, 0), ln as nat),
{
    let open = chars_of("[^");
    proof {
        reveal_strlit("[^");
    }
    let ghost r0 = rviews(refs@);
    let n = line.len();
    let mut i: usize = 0;
    loop
        invariant
            open@ == "[^"@,
            n == line@.len(),
            0 <= i <= n,
            rviews(refs@) + tag(refs_from(line@, i as int), ln as nat) == r0 + tag(
                refs_from(line@, 0),
                ln as nat,
            ),
        ensures
            rviews(refs@) == r0 + tag(refs_from(line@, 0), ln as nat),
        decreases n - i,
    {
        proof {
            reveal_strlit("[^");
            lemma_find_from(line@, "[^"@, i as int);
        }
        let p = match find(line, &open, i) {
            None => {
                assert(tag(refs_from(line@, i as int), ln as nat) =~= Seq::<(nat, Seq<char>)>::empty());
                assert(rviews(refs@) =~= rviews(refs@) + tag(refs_from(line@, i as int), ln as nat));
                break;
            },
            Some(p) => p,
        };
        assert(match_at(line@, "[^"@, p as int));
        assert(p + 2 <= n);
        proof {
            lemma_find_char(line@, ']', p + 2);
        }
        let c = match find_c(line, ']', p + 2) {
            None => {
                assert(tag(refs_from(line@, i as int), ln as nat) =~= Seq::<(nat, Seq<char>)>::empty());
                assert(rviews(refs@) =~= rviews(refs@) + tag(refs_from(line@, i as int), ln as nat));
                break;
            },
            Some(c) => c,
        };
        let id = sub_vec(line, p + 2, c);
        let ghost before = rviews(refs@);
        let ghost first: Seq<Seq<char>> = if valid_id(id@) { seq![id@] } else { seq![] };
        if id.len() > 0 && !crate::text::contains_char(&id, ' ') {
            proof {
                crate::text::lemma_find_char(id@, ' ', 0);
                assert(!id@.contains(' '));
            }
            let ghost idv = id@;
            refs.push((ln, id));
            assert(rviews(refs@) =~= before.push((ln as nat, idv)));
        } else {
            proof {
                crate::text::lemma_find_char(id@, ' ', 0);
                if id@.len() > 0 {
                    let k = choose|k: int| 0 <= k < id@.len() && id@[k] == ' ';
                    assert(id@.contains(' ')) by {
                        if find_char(id@, ' ', 0) is Some {
                            let w = find_char(id@, ' ', 0)->0;
                            assert(id@[w] == ' ');
                        }
                    }
                }
            }
        }
        assert(refs_from(line@, i as int) == first + refs_from(line@, c + 1));
        assert(tag(refs_from(line@, i as int), ln as nat) =~= tag(first, ln as nat) + tag(
            refs_from(line@, c + 1),
            ln as nat,
        ));
        assert(rviews(refs@) =~= before + tag(first, ln as nat));
        i = c + 1;
    }
}

/// The kind of a line as a definition: 1 for `[^id]:`, 2 for `[^id] ` (colon
/// missing), 0 otherwise; with the id.
fn def_line_of(line: &[char]) -> (r: (u8, Vec<char>))
    ensures
        match def_line(line@) {
            DefLine::Def(id) => r.0 == 1 && r.1@ == id,
            DefLine::MissingColon(id) => r.0 == 2 && r.1@ == id,
            DefLine::Other => r.0 == 0,
        },
{
    if !begins(line, "[^") {
        return (0, Vec::new());
    }
    proof {
        reveal_strlit("[^");
    }
    let rest = sub_vec(line, 2, line.len());
    assert(rest@ =~= line@.skip(2));
    proof {
        lemma_find_char(rest@, ']', 0);
    }
    let close = match find_c(&rest, ']', 0) {
        None => return (0, Vec::new()),
        Some(c) => c,
    };
    let id = sub_vec(&rest, 0, close);
    assert(id@ =~= rest@.take(close as int));
    let after = sub_vec(&rest, close + 1, rest.len());
    assert(after@ =~= rest@.skip(close + 1));
    let spaced = crate::text::contains_char(&id, ' ');
    proof {
        crate::text::lemma_find_char(id@, ' ', 0);
        if spaced {
            let w = find_char(id@, ' ', 0)->0;
            assert(id@[w] == ' ');
            assert(id@.contains(' '));
        } else {
            assert(!id@.contains(' '));
        }
    }
    let valid = id.len() > 0 && !spaced;
    if valid && begins(&after, ":") {
        (1, id)
    } else if valid && begins(&after, " ") {
        (2, id)
    } else {
        (0, Vec::new())
    }
}

fn has_def(defs: &Vec<Vec<char>>, id: &[char]) -> (r: bool)
    ensures
        r == views(defs@).contains(id@),
{
    let mut i: usize = 0;
    while i < defs.len()
        invariant
            0 <= i <= defs@.len(),
            forall|k: int| 0 <= k < i ==> (#[trigger] defs@[k])@ != id@,
        decreases defs@.len() - i,
    {
        if crate::text::eq_chars(&defs[i], id) {
            assert(views(defs@)[i as int] == id@);
            return true;
        }
        i += 1;
    }
    let ghost vs = views(defs@);
    assert(!vs.contains(id@)) by {
        if vs.contains(id@) {
            let k = choose|k: int| 0 <= k < vs.len() && #[trigger] vs[k] == id@;
            assert(defs@[k]@ == id@);
        }
    }
    false
}

fn is_referenced(refs: &Vec<(usize, Vec<char>)>, id: &[char]) -> (r: bool)
    ensures
        r == referenced(rviews(refs@), id@),
{
    let ghost rv = rviews(refs@);
    let mut i: usize = 0;
    while i < refs.len()
        invariant
            0 <= i <= refs@.len(),
            rv == rviews(refs@),
            forall|k: int| 0 <= k < i ==> (#[trigger] refs@[k]).1@ != id@,
        decreases refs@.len() - i,
    {
        if crate::text::eq_chars(&refs[i].1, id) {
            assert(rv[i as int].1 == id@);
            return true;
        }
        i += 1;
    }
    assert(!referenced(rv, id@)) by {
        if referenced(rv, id@) {
            let k = choose|k: int| 0 <= k < rv.len() && (#[trigger] rv[k]).1 == id@;
            assert(refs@[k].1@ == id@);
        }
    }
    false
}

fn message(pre: &str, id: &[char], mid: &str, id2: Option<&[char]>, post: &str) -> (r: String)
    ensures
        r@ == pre@ + id@ + mid@ + match id2 {
            Some(x) => x@ + post@,
            None => post@,
        },
{
    let mut v: Vec<char> = Vec::new();
    push_str(&mut v, pre);
    push_slice(&mut v, id);
    push_str(&mut v, mid);
    match id2 {
        Some(x) => push_slice(&mut v, x),
        None => {},
    }
    push_str(&mut v, post);
    string_of(&v)
}

/// Reference-style footnote defects in one chapter, as (line, message), sorted:
/// a `[^id]` reference with no `[^id]:` definition; a definition-looking line
/// `[^id] …` missing its colon; a `[^id]:` definition nothing references
/// (line 0). Lines inside code fences are skipped.
pub fn footnote_findings(md: &str) -> (r: Vec<(usize, String)>)
    ensures
        fviews(r@) == spec_footnote_findings(md@),
{
    let text = chars_of(md);
    let ls = lines_of(&text);
    let ghost L = lines(md@);
    assert(views(ls@) =~= L);
    let mut fence = false;
    let mut refs: Vec<(usize, Vec<char>)> = Vec::new();
    let mut defs: Vec<Vec<char>> = Vec::new();
    let mut out: Vec<(usize, String)> = Vec::new();
    let mut n: usize = 0;
    assert(rviews(refs@) =~= Seq::<(nat, Seq<char>)>::empty());
    assert(views(defs@) =~= Seq::<Seq<char>>::empty());
    assert(fviews(out@) =~= Seq::<(nat, Seq<char>)>::empty());
    while n < ls.len()
        invariant
            0 <= n <= ls@.len(),
            views(ls@) == L,
            scan_lines(L, n as int) == (Scan {
                fence: fence,
                refs: rviews(refs@),
                defs: views(defs@),
                out: fviews(out@),
            }),
        decreases ls@.len() - n,
    {
        let line = &ls[n];
        assert(L[n as int] == line@);
        let ln = n + 1;
        let t = trimmed_start(line);
        if begins(&t, "```") || begins(&t, "~~~") {
            fence = !fence;
            n += 1;
            continue;
        }
        if fence {
            n += 1;
            continue;
        }
        let (kind, id) = def_line_of(line);
        if kind == 1 {
            if !has_def(&defs, &id) {
                let ghost d0 = views(defs@);
                let ghost idv = id@;
                defs.push(id);
                assert(views(defs@) =~= d0.push(idv));
            }
        } else if kind == 2 {
            let msg = message(
                "footnote definition \"[^",
                &id,
                "]\" is missing its colon (write \"[^",
                Some(&id),
                "]:\") — renders as literal brackets",
            );
            assert(msg@ =~= msg_missing_colon(id@));
            let ghost o0 = fviews(out@);
            out.push((ln, msg));
            assert(fviews(out@) =~= o0.push((ln as nat, msg_missing_colon(id@))));
        } else {
            refs_of_line(line, ln, &mut refs);
        }
        n += 1;
    }
    let ghost st = scan_lines(L, L.len() as int);
    // Undefined references, in order.
    let mut all: Vec<(usize, String)> = out;
    let ghost base = fviews(all@);
    let mut i: usize = 0;
    while i < refs.len()
        invariant
            0 <= i <= refs@.len(),
            fviews(all@) == base + undefined_refs(rviews(refs@).take(i as int), views(defs@)),
        decreases refs@.len() - i,
    {
        let ghost rv = rviews(refs@);
        assert(rv.take(i as int + 1).drop_last() =~= rv.take(i as int));
        assert(rv[i as int] == (refs@[i as int].0 as nat, refs@[i as int].1@));
        if !has_def(&defs, &refs[i].1) {
            let msg = message(
                "footnote reference \"[^",
                &refs[i].1,
                "]\" has no definition — renders as literal brackets",
                None,
                "",
            );
            proof {
                reveal_strlit("");
                assert(""@ =~= Seq::<char>::empty());
            }
            assert(msg@ =~= msg_no_definition(rv[i as int].1));
            let ghost a0 = fviews(all@);
            all.push((refs[i].0, msg));
            assert(fviews(all@) =~= a0 + seq![(rv[i as int].0, msg_no_definition(rv[i as int].1))]);
        } else {
            assert(fviews(all@) =~= fviews(all@) + Seq::<(nat, Seq<char>)>::empty());
        }
        i += 1;
    }
    assert(rviews(refs@).take(refs@.len() as int) =~= rviews(refs@));
    let ghost base2 = fviews(all@);
    let mut j: usize = 0;
    while j < defs.len()
        invariant
            0 <= j <= defs@.len(),
            fviews(all@) == base2 + unreferenced_defs(views(defs@).take(j as int), rviews(refs@)),
        decreases defs@.len() - j,
    {
        let ghost dv = views(defs@);
        assert(dv.take(j as int + 1).drop_last() =~= dv.take(j as int));
        assert(dv[j as int] == defs@[j as int]@);
        if !is_referenced(&refs, &defs[j]) {
            let msg = message("footnote definition \"[^", &defs[j], "]:\" is never referenced", None, "");
            proof {
                reveal_strlit("");
                assert(""@ =~= Seq::<char>::empty());
            }
            assert(msg@ =~= msg_unreferenced(dv[j as int]));
            let ghost a0 = fviews(all@);
            all.push((0, msg));
            assert(fviews(all@) =~= a0 + seq![(0nat, msg_unreferenced(dv[j as int]))]);
        } else {
            assert(fviews(all@) =~= fviews(all@) + Seq::<(nat, Seq<char>)>::empty());
        }
        j += 1;
    }
    assert(views(defs@).take(defs@.len() as int) =~= views(defs@));
    assert(fviews(all@) =~= st.out + undefined_refs(st.refs, st.defs) + unreferenced_defs(
        st.defs,
        st.refs,
    ));
    sort_findings_exec(&all)
}

// ---------------------------------------------------------------------------
// Lint settings: repository `[lint]` merged with the book's
// ---------------------------------------------------------------------------

/// Terms the project always forbids (matched ignoring case).
pub open spec fn default_forbid() -> Seq<Seq<char>> {
    seq!["Pingüina"@, "Animal Farm"@, "Orwell"@, "Rebelión en la granja"@]
}

/// Equal ignoring ASCII case (`str::eq_ignore_ascii_case`).
pub open spec fn eq_ci(a: Seq<char>, b: Seq<char>) -> bool {
    crate::text::lower_seq(a) == crate::text::lower_seq(b)
}

/// Does the list hold `x` ignoring ASCII case?
pub open spec fn has_ci(acc: Seq<Seq<char>>, x: Seq<char>) -> bool {
    exists|i: int| 0 <= i < acc.len() && eq_ci(#[trigger] acc[i], x)
}

/// Add a forbidden term: trimmed, unless empty or already listed in any case.
pub open spec fn add_forbid(acc: Seq<Seq<char>>, t: Seq<char>) -> Seq<Seq<char>> {
    let x = crate::text::trim(t);
    if x.len() > 0 && !has_ci(acc, x) {
        acc.push(x)
    } else {
        acc
    }
}

/// Add the terms in order.
pub open spec fn fold_forbid(acc: Seq<Seq<char>>, ts: Seq<Seq<char>>) -> Seq<Seq<char>>
    decreases ts.len(),
{
    if ts.len() == 0 {
        acc
    } else {
        add_forbid(fold_forbid(acc, ts.drop_last()), ts.last())
    }
}

/// The forbidden terms: the project's defaults, the public-copy phrases, the
/// repository's, then the book's; trimmed, without empties or case-insensitive
/// repeats, first spelling kept.
pub open spec fn spec_merged_forbid(repo: Seq<Seq<char>>, book: Seq<Seq<char>>) -> Seq<Seq<char>> {
    fold_forbid(seq![], default_forbid() + crate::config::forbidden_public() + repo + book)
}

pub(crate) fn eq_ignore_case(a: &[char], b: &[char]) -> (r: bool)
    ensures
        r == eq_ci(a@, b@),
{
    if a.len() != b.len() {
        proof {
            if eq_ci(a@, b@) {
                assert(crate::text::lower_seq(a@).len() == crate::text::lower_seq(b@).len());
            }
        }
        return false;
    }
    let mut i: usize = 0;
    while i < a.len()
        invariant
            a@.len() == b@.len(),
            0 <= i <= a@.len(),
            forall|k: int| 0 <= k < i ==> crate::text::lower(a@[k]) == crate::text::lower(b@[k]),
        decreases a@.len() - i,
    {
        if crate::text::to_lower(a[i]) != crate::text::to_lower(b[i]) {
            proof {
                if eq_ci(a@, b@) {
                    assert(crate::text::lower_seq(a@)[i as int] == crate::text::lower_seq(b@)[i as int]);
                }
            }
            return false;
        }
        i += 1;
    }
    assert(crate::text::lower_seq(a@) =~= crate::text::lower_seq(b@));
    true
}

fn add_forbid_exec(acc: &mut Vec<Vec<char>>, t: &str)
    ensures
        views(final(acc)@) == add_forbid(views(old(acc)@), t@),
{
    let x = crate::text::trimmed(&chars_of(t));
    if x.len() == 0 {
        return;
    }
    let mut i: usize = 0;
    while i < acc.len()
        invariant
            0 <= i <= acc@.len(),
            x@ == crate::text::trim(t@),
            forall|k: int| 0 <= k < i ==> !eq_ci(#[trigger] views(acc@)[k], x@),
        decreases acc@.len() - i,
    {
        if eq_ignore_case(&acc[i], &x) {
            assert(eq_ci(views(acc@)[i as int], x@));
            return;
        }
        i += 1;
    }
    let ghost before = views(acc@);
    acc.push(x);
    assert(views(acc@) =~= before.push(x@));
}

fn fold_forbid_exec(acc: &mut Vec<Vec<char>>, ts: &Vec<String>)
    ensures
        views(final(acc)@) == fold_forbid(views(old(acc)@), crate::typst::svs(ts@)),
{
    let ghost a0 = views(acc@);
    let ghost tv = crate::typst::svs(ts@);
    let mut i: usize = 0;
    while i < ts.len()
        invariant
            0 <= i <= ts@.len(),
            tv == crate::typst::svs(ts@),
            views(acc@) == fold_forbid(a0, tv.take(i as int)),
        decreases ts@.len() - i,
    {
        assert(tv.take(i as int + 1).drop_last() =~= tv.take(i as int));
        assert(tv.take(i as int + 1).last() == ts@[i as int]@);
        add_forbid_exec(acc, ts[i].as_str());
        i += 1;
    }
    assert(tv.take(ts@.len() as int) =~= tv);
}

proof fn lemma_fold_forbid_append(acc: Seq<Seq<char>>, a: Seq<Seq<char>>, b: Seq<Seq<char>>)
    ensures
        fold_forbid(acc, a + b) == fold_forbid(fold_forbid(acc, a), b),
    decreases b.len(),
{
    if b.len() == 0 {
        assert(a + b =~= a);
    } else {
        assert((a + b).drop_last() =~= a + b.drop_last());
        lemma_fold_forbid_append(acc, a, b.drop_last());
    }
}

/// Merge the repository's and the book's forbidden terms with the project's.
pub fn merged_forbid(repo_forbid: &Vec<String>, book_forbid: &Vec<String>) -> (r: Vec<String>)
    ensures
        crate::typst::svs(r@) == spec_merged_forbid(crate::typst::svs(repo_forbid@), crate::typst::svs(book_forbid@)),
{
    let mut acc: Vec<Vec<char>> = Vec::new();
    let ghost d = default_forbid() + crate::config::forbidden_public();
    assert(d =~= seq!["Pingüina"@, "Animal Farm"@, "Orwell"@, "Rebelión en la granja"@, "Animal Farm"@, "Rebelión en la granja"@]);
    let ghost s0 = seq!["Pingüina"@];
    let ghost s1 = s0.push("Animal Farm"@);
    let ghost s2 = s1.push("Orwell"@);
    let ghost s3 = s2.push("Rebelión en la granja"@);
    let ghost s4 = s3.push("Animal Farm"@);
    let ghost s5 = s4.push("Rebelión en la granja"@);
    assert(d =~= s5);
    assert(s5.drop_last() =~= s4);
    assert(s4.drop_last() =~= s3);
    assert(s3.drop_last() =~= s2);
    assert(s2.drop_last() =~= s1);
    assert(s1.drop_last() =~= s0);
    assert(s0.drop_last() =~= Seq::<Seq<char>>::empty());
    assert(views(acc@) =~= Seq::<Seq<char>>::empty());
    assert(fold_forbid(seq![], s0.drop_last()) =~= Seq::<Seq<char>>::empty());
    add_forbid_exec(&mut acc, "Pingüina");
    assert(views(acc@) == fold_forbid(seq![], s0));
    add_forbid_exec(&mut acc, "Animal Farm");
    assert(views(acc@) == fold_forbid(seq![], s1));
    add_forbid_exec(&mut acc, "Orwell");
    assert(views(acc@) == fold_forbid(seq![], s2));
    add_forbid_exec(&mut acc, "Rebelión en la granja");
    assert(views(acc@) == fold_forbid(seq![], s3));
    add_forbid_exec(&mut acc, "Animal Farm");
    assert(views(acc@) == fold_forbid(seq![], s4));
    add_forbid_exec(&mut acc, "Rebelión en la granja");
    assert(views(acc@) == fold_forbid(seq![], s5));
    fold_forbid_exec(&mut acc, repo_forbid);
    fold_forbid_exec(&mut acc, book_forbid);
    proof {
        let rv = crate::typst::svs(repo_forbid@);
        let bv = crate::typst::svs(book_forbid@);
        lemma_fold_forbid_append(seq![], d, rv);
        lemma_fold_forbid_append(seq![], d + rv, bv);
    }
    crate::typst::strings_of(&acc)
}

/// Add an allow-listed word: trimmed and lower-cased, unless empty or listed.
pub open spec fn add_ignore(acc: Seq<Seq<char>>, w: Seq<char>) -> Seq<Seq<char>> {
    let x = crate::text::str_lower(crate::text::trim(w));
    if x.len() > 0 && !acc.contains(x) {
        acc.push(x)
    } else {
        acc
    }
}

/// Add the words in order.
pub open spec fn fold_ignore(acc: Seq<Seq<char>>, ws: Seq<Seq<char>>) -> Seq<Seq<char>>
    decreases ws.len(),
{
    if ws.len() == 0 {
        acc
    } else {
        add_ignore(fold_ignore(acc, ws.drop_last()), ws.last())
    }
}

/// The allow-listed words of the repository and the book, trimmed and
/// lower-cased, each once.
pub open spec fn spec_merged_ignore(repo: Seq<Seq<char>>, book: Seq<Seq<char>>) -> Seq<Seq<char>> {
    fold_ignore(seq![], repo + book)
}

fn add_ignore_exec(acc: &mut Vec<String>, w: &str)
    ensures
        crate::typst::svs(final(acc)@) == add_ignore(crate::typst::svs(old(acc)@), w@),
{
    let t = string_of(&crate::text::trimmed(&chars_of(w)));
    let x = crate::text::lower_text(t.as_str());
    let xc = chars_of(x.as_str());
    if xc.len() == 0 {
        return;
    }
    let mut k: usize = 0;
    while k < acc.len()
        invariant
            0 <= k <= acc@.len(),
            xc@ == x@,
            x@ == crate::text::str_lower(crate::text::trim(w@)),
            forall|j: int| 0 <= j < k ==> crate::typst::svs(acc@)[j] != x@,
        decreases acc@.len() - k,
    {
        if crate::text::eq_chars(&chars_of(acc[k].as_str()), &xc) {
            assert(crate::typst::svs(acc@)[k as int] == x@);
            assert(crate::typst::svs(acc@).contains(x@));
            return;
        }
        k += 1;
    }
    let ghost before = crate::typst::svs(acc@);
    acc.push(x);
    assert(crate::typst::svs(acc@) =~= before.push(x@));
}

fn fold_ignore_exec(acc: &mut Vec<String>, ws: &Vec<String>)
    ensures
        crate::typst::svs(final(acc)@) == fold_ignore(crate::typst::svs(old(acc)@), crate::typst::svs(ws@)),
{
    let ghost a0 = crate::typst::svs(acc@);
    let ghost wv = crate::typst::svs(ws@);
    let mut i: usize = 0;
    while i < ws.len()
        invariant
            0 <= i <= ws@.len(),
            wv == crate::typst::svs(ws@),
            crate::typst::svs(acc@) == fold_ignore(a0, wv.take(i as int)),
        decreases ws@.len() - i,
    {
        assert(wv.take(i as int + 1).drop_last() =~= wv.take(i as int));
        assert(wv.take(i as int + 1).last() == ws@[i as int]@);
        add_ignore_exec(acc, ws[i].as_str());
        i += 1;
    }
    assert(wv.take(ws@.len() as int) =~= wv);
}

proof fn lemma_fold_ignore_append(acc: Seq<Seq<char>>, a: Seq<Seq<char>>, b: Seq<Seq<char>>)
    ensures
        fold_ignore(acc, a + b) == fold_ignore(fold_ignore(acc, a), b),
    decreases b.len(),
{
    if b.len() == 0 {
        assert(a + b =~= a);
    } else {
        assert((a + b).drop_last() =~= a + b.drop_last());
        lemma_fold_ignore_append(acc, a, b.drop_last());
    }
}

/// Merge the repository's and the book's allow-listed words.
pub fn merged_ignore(repo_ignore: &Vec<String>, book_ignore: &Vec<String>) -> (r: Vec<String>)
    ensures
        crate::typst::svs(r@) == spec_merged_ignore(crate::typst::svs(repo_ignore@), crate::typst::svs(book_ignore@)),
{
    let mut acc: Vec<String> = Vec::new();
    assert(crate::typst::svs(acc@) =~= Seq::<Seq<char>>::empty());
    fold_ignore_exec(&mut acc, repo_ignore);
    fold_ignore_exec(&mut acc, book_ignore);
    proof {
        lemma_fold_ignore_append(seq![], crate::typst::svs(repo_ignore@), crate::typst::svs(book_ignore@));
    }
    acc
}

// ---------------------------------------------------------------------------
// Laws
// ---------------------------------------------------------------------------

/// The text order is asymmetric.
pub proof fn lemma_text_less_asym(a: Seq<char>, b: Seq<char>)
    requires
        text_less(a, b),
    ensures
        !text_less(b, a),
    decreases a.len(),
{
    if a.len() > 0 && b.len() > 0 && a[0] == b[0] {
        lemma_text_less_asym(a.skip(1), b.skip(1));
    }
}

/// The text order is transitive.
pub proof fn lemma_text_less_trans(a: Seq<char>, b: Seq<char>, c: Seq<char>)
    requires
        text_less(a, b),
        text_less(b, c),
    ensures
        text_less(a, c),
    decreases a.len(),
{
    if a.len() > 0 && b.len() > 0 && c.len() > 0 && a[0] == b[0] && b[0] == c[0] {
        lemma_text_less_trans(a.skip(1), b.skip(1), c.skip(1));
    }
}

/// Findings in order: no finding is less than one before it.
pub open spec fn findings_sorted(s: Seq<(nat, Seq<char>)>) -> bool {
    forall|i: int, j: int| 0 <= i < j < s.len() ==> !finding_less(#[trigger] s[j], #[trigger] s[i])
}

/// What `insert_pos` finds: every element before the place is not greater
/// than `x`, and the element at the place (if any) is greater.
pub proof fn lemma_insert_pos_place(s: Seq<(nat, Seq<char>)>, x: (nat, Seq<char>), i: int)
    requires
        0 <= i <= s.len(),
    ensures
        forall|k: int| i <= k < insert_pos(s, x, i) ==> !finding_less(x, #[trigger] s[k]),
        insert_pos(s, x, i) < s.len() ==> finding_less(x, s[insert_pos(s, x, i)]),
        i <= insert_pos(s, x, i) <= s.len(),
    decreases s.len() - i,
{
    if i < s.len() && !finding_less(x, s[i]) {
        lemma_insert_pos_place(s, x, i + 1);
    }
}

/// Inserting into sorted findings keeps them sorted.
pub proof fn lemma_insert_sorted(s: Seq<(nat, Seq<char>)>, x: (nat, Seq<char>))
    requires
        findings_sorted(s),
    ensures
        findings_sorted(insert_sorted(s, x)),
        insert_sorted(s, x).len() == s.len() + 1,
{
    lemma_insert_pos_place(s, x, 0);
    let k = insert_pos(s, x, 0);
    let r = insert_sorted(s, x);
    assert(r.len() == s.len() + 1);
    assert forall|i: int, j: int| 0 <= i < j < r.len() implies !finding_less(#[trigger] r[j], #[trigger] r[i]) by {
        if j < k {
            assert(r[i] == s[i] && r[j] == s[j]);
        } else if j == k {
            assert(r[i] == s[i] && r[j] == x);
        } else if i < k {
            assert(r[i] == s[i] && r[j] == s[j - 1]);
        } else if i == k {
            assert(r[i] == x && r[j] == s[j - 1]);
            let y = s[j - 1];
            if finding_less(y, x) {
                if j - 1 == k {
                    if x.0 < y.0 {
                    } else if y.0 < x.0 {
                    } else {
                        lemma_text_less_asym(x.1, y.1);
                    }
                } else {
                    assert(!finding_less(s[j - 1], s[k]));
                    if y.0 == x.0 && x.0 == s[k].0 {
                        lemma_text_less_trans(y.1, x.1, s[k].1);
                    }
                }
            }
        } else {
            assert(r[i] == s[i - 1] && r[j] == s[j - 1]);
        }
    }
}

/// Footnote findings come out sorted by line, then by message.
pub proof fn law_findings_sorted(s: Seq<(nat, Seq<char>)>)
    ensures
        findings_sorted(sort_findings(s)),
        sort_findings(s).len() == s.len(),
    decreases s.len(),
{
    if s.len() > 0 {
        law_findings_sorted(s.drop_last());
        lemma_insert_sorted(sort_findings(s.drop_last()), s.last());
    }
}


/// No two entries are equal ignoring ASCII case, and none is empty.
pub open spec fn distinct_ci(s: Seq<Seq<char>>) -> bool {
    &&& forall|i: int, j: int| 0 <= i < j < s.len() ==> !eq_ci(#[trigger] s[i], #[trigger] s[j])
    &&& forall|i: int| 0 <= i < s.len() ==> #[trigger] s[i].len() > 0
}

proof fn lemma_fold_forbid_distinct(acc: Seq<Seq<char>>, ts: Seq<Seq<char>>)
    requires
        distinct_ci(acc),
    ensures
        distinct_ci(fold_forbid(acc, ts)),
    decreases ts.len(),
{
    if ts.len() > 0 {
        lemma_fold_forbid_distinct(acc, ts.drop_last());
        let p = fold_forbid(acc, ts.drop_last());
        let x = crate::text::trim(ts.last());
        if x.len() > 0 && !has_ci(p, x) {
            let q = p.push(x);
            assert forall|i: int, j: int| 0 <= i < j < q.len() implies !eq_ci(#[trigger] q[i], #[trigger] q[j]) by {
                if j == q.len() - 1 {
                    assert(q[i] == p[i]);
                    assert(!eq_ci(p[i], x));
                } else {
                    assert(q[i] == p[i] && q[j] == p[j]);
                }
            }
            assert forall|i: int| 0 <= i < q.len() implies #[trigger] q[i].len() > 0 by {
                if i < p.len() {
                    assert(q[i] == p[i]);
                }
            }
        }
    }
}

/// The merged forbidden terms never repeat a term in another case, and none
/// is empty.
pub proof fn law_merged_forbid_distinct(repo: Seq<Seq<char>>, book: Seq<Seq<char>>)
    ensures
        distinct_ci(spec_merged_forbid(repo, book)),
{
    lemma_fold_forbid_distinct(seq![], default_forbid() + crate::config::forbidden_public() + repo + book);
}

proof fn lemma_fold_ignore_distinct(acc: Seq<Seq<char>>, ws: Seq<Seq<char>>)
    requires
        acc.no_duplicates(),
        forall|i: int| 0 <= i < acc.len() ==> #[trigger] acc[i].len() > 0,
    ensures
        fold_ignore(acc, ws).no_duplicates(),
        forall|i: int| 0 <= i < fold_ignore(acc, ws).len() ==> #[trigger] fold_ignore(acc, ws)[i].len() > 0,
    decreases ws.len(),
{
    if ws.len() > 0 {
        lemma_fold_ignore_distinct(acc, ws.drop_last());
        let p = fold_ignore(acc, ws.drop_last());
        let x = crate::text::str_lower(crate::text::trim(ws.last()));
        if x.len() > 0 && !p.contains(x) {
            let q = p.push(x);
            assert forall|i: int, j: int| 0 <= i < q.len() && 0 <= j < q.len() && i != j implies q[i] != q[j] by {
                if i == q.len() - 1 {
                    assert(q[j] == p[j]);
                } else if j == q.len() - 1 {
                    assert(q[i] == p[i]);
                } else {
                    assert(q[i] == p[i] && q[j] == p[j]);
                }
            }
            assert forall|i: int| 0 <= i < q.len() implies #[trigger] q[i].len() > 0 by {
                if i < p.len() {
                    assert(q[i] == p[i]);
                }
            }
        }
    }
}

/// The merged allow-list holds each word once, and no empty word.
pub proof fn law_merged_ignore_distinct(repo: Seq<Seq<char>>, book: Seq<Seq<char>>)
    ensures
        spec_merged_ignore(repo, book).no_duplicates(),
        forall|i: int| 0 <= i < spec_merged_ignore(repo, book).len() ==> #[trigger] spec_merged_ignore(repo, book)[i].len() > 0,
{
    lemma_fold_ignore_distinct(seq![], repo + book);
}

} // verus!
