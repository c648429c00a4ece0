//! Typst markup for parsed chapter blocks.
//!
//! A chapter that opens with a standalone (non-spot) image renders that image as
//! a full-page plate before its heading, so heading and body open together on
//! the recto. A proof build shows no images, only their alt text as a light
//! placeholder. A grayscale (print) build uses an image's `bw` variant and
//! prints code without colour.
use vstd::prelude::*;
use crate::paths::{spec_img_path, typst_img_path};
use crate::text::{append_chars, chars_of, dec, dec_chars, join, join_vecs, push_slice, push_str, trim, trimmed, views};
use crate::typst::{Block, BlockV, bviews, inline_of, ostr, spec_inline, spec_ty_str, svs, ty_str_of, vecs_of};

verus! {

/// `n` copies of `c`.
pub open spec fn repeat_char(c: char, n: nat) -> Seq<char> {
    Seq::new(n, |_i: int| c)
}

/// A heading: level 1 is `= text` (or an unnumbered `#heading`), deeper levels
/// repeat `=`.
pub open spec fn heading_markup(level: nat, text: Seq<char>, unnumbered: bool) -> Seq<char> {
    let body = spec_inline(text);
    if level == 1 {
        if unnumbered {
            "#heading(level: 1, numbering: none)["@ + body + "]\n"@
        } else {
            "= "@ + body + "\n"@
        }
    } else {
        repeat_char('=', level) + " "@ + body + "\n"@
    }
}

fn heading_into(out: &mut Vec<char>, level: usize, text: &[char], unnumbered: bool)
    ensures
        final(out)@ == old(out)@ + heading_markup(level as nat, text@, unnumbered),
{
    let ghost o0 = out@;
    let body = inline_of(text);
    if level == 1 {
        if unnumbered {
            push_str(out, "#heading(level: 1, numbering: none)[");
            push_slice(out, &body);
            push_str(out, "]\n");
        } else {
            push_str(out, "= ");
            push_slice(out, &body);
            push_str(out, "\n");
        }
    } else {
        let mut k: usize = 0;
        while k < level
            invariant
                0 <= k <= level,
                out@ == o0 + repeat_char('=', k as nat),
            decreases level - k,
        {
            out.push('=');
            assert(repeat_char('=', (k + 1) as nat) =~= repeat_char('=', k as nat).push('='));
            k += 1;
        }
        push_str(out, " ");
        push_slice(out, &body);
        push_str(out, "\n");
    }
    assert(out@ =~= o0 + heading_markup(level as nat, text@, unnumbered));
}

/// Append the Typst markup of a heading to `s`.
pub fn emit_heading(s: &mut String, level: usize, text: &str, unnumbered: bool)
    ensures
        final(s)@ == old(s)@ + heading_markup(level as nat, text@, unnumbered),
{
    let mut v: Vec<char> = Vec::new();
    heading_into(&mut v, level, &chars_of(text), unnumbered);
    assert(v@ =~= heading_markup(level as nat, text@, unnumbered));
    append_chars(s, &v);
}

// ---------------------------------------------------------------------------
// Tables
// ---------------------------------------------------------------------------

/// A bold header cell.
pub open spec fn header_cell(c: Seq<char>) -> Seq<char> {
    "[#strong["@ + spec_inline(c) + "]]"@
}

/// A body cell.
pub open spec fn body_cell(c: Seq<char>) -> Seq<char> {
    "["@ + spec_inline(c) + "]"@
}

/// The column count: the header's, at least one.
pub open spec fn table_cols(n: nat) -> nat {
    if n > 1 {
        n
    } else {
        1
    }
}

/// A body row fitted to `cols` cells: short rows padded with empty cells, long
/// rows cut.
pub open spec fn fitted_row(row: Seq<Seq<char>>, cols: nat) -> Seq<Seq<char>> {
    Seq::new(cols, |k: int| if k < row.len() { body_cell(row[k]) } else { "[]"@ })
}

/// One body row of the table.
pub open spec fn row_markup(row: Seq<Seq<char>>, cols: nat) -> Seq<char> {
    "  "@ + join(fitted_row(row, cols), ", "@) + ",\n"@
}

/// All body rows.
pub open spec fn rows_markup(rows: Seq<Seq<Seq<char>>>, cols: nat) -> Seq<char>
    decreases rows.len(),
{
    if rows.len() == 0 {
        seq![]
    } else {
        rows_markup(rows.drop_last(), cols) + row_markup(rows.last(), cols)
    }
}

/// A GFM table as a Typst `#table(…)` with bold header cells.
pub open spec fn table_markup(header: Seq<Seq<char>>, rows: Seq<Seq<Seq<char>>>) -> Seq<char> {
    let cols = table_cols(header.len());
    "#table(\n  columns: "@ + dec(cols) + ",\n  table.header("@ + join(
        header.map_values(|c: Seq<char>| header_cell(c)),
        ", "@,
    ) + "),\n"@ + rows_markup(rows, cols) + ")\n\n"@
}

/// The views of the rows of a table.
pub open spec fn rows_view(rows: Seq<Vec<String>>) -> Seq<Seq<Seq<char>>> {
    rows.map_values(|r: Vec<String>| svs(r@))
}

fn header_cells(header: &Vec<String>) -> (cells: Vec<Vec<char>>)
    ensures
        views(cells@) == svs(header@).map_values(|c: Seq<char>| header_cell(c)),
{
    let mut cells: Vec<Vec<char>> = Vec::new();
    let mut i: usize = 0;
    while i < header.len()
        invariant
            0 <= i <= header@.len(),
            cells@.len() == i,
            forall|k: int| 0 <= k < i ==> (#[trigger] cells@[k])@ == header_cell(header@[k]@),
        decreases header@.len() - i,
    {
        let mut c: Vec<char> = Vec::new();
        push_str(&mut c, "[#strong[");
        let conv = inline_of(&chars_of(header[i].as_str()));
        push_slice(&mut c, &conv);
        push_str(&mut c, "]]");
        cells.push(c);
        i += 1;
    }
    assert(views(cells@) =~= svs(header@).map_values(|c: Seq<char>| header_cell(c)));
    cells
}

fn row_cells(row: &Vec<String>, cols: usize) -> (cells: Vec<Vec<char>>)
    ensures
        views(cells@) == fitted_row(svs(row@), cols as nat),
{
    let mut cells: Vec<Vec<char>> = Vec::new();
    let mut k: usize = 0;
    while k < cols
        invariant
            0 <= k <= cols,
            cells@.len() == k,
            forall|j: int|
                0 <= j < k ==> (#[trigger] cells@[j])@ == fitted_row(svs(row@), cols as nat)[j],
        decreases cols - k,
    {
        let mut c: Vec<char> = Vec::new();
        if k < row.len() {
            push_str(&mut c, "[");
            let conv = inline_of(&chars_of(row[k].as_str()));
            push_slice(&mut c, &conv);
            push_str(&mut c, "]");
        } else {
            push_str(&mut c, "[]");
        }
        cells.push(c);
        k += 1;
    }
    assert(views(cells@) =~= fitted_row(svs(row@), cols as nat));
    cells
}

fn table_into(out: &mut Vec<char>, header: &Vec<String>, rows: &Vec<Vec<String>>)
    ensures
        final(out)@ == old(out)@ + table_markup(svs(header@), rows_view(rows@)),
{
    let ghost o0 = out@;
    let cols: usize = if header.len() > 1 {
        header.len()
    } else {
        1
    };
    push_str(out, "#table(\n  columns: ");
    push_slice(out, &dec_chars(cols));
    push_str(out, ",\n  table.header(");
    let hc = header_cells(header);
    push_slice(out, &join_vecs(&hc, ", "));
    push_str(out, "),\n");
    let ghost o1 = out@;
    let mut i: usize = 0;
    while i < rows.len()
        invariant
            0 <= i <= rows@.len(),
            cols as nat == table_cols(svs(header@).len()),
            out@ == o1 + rows_markup(rows_view(rows@).take(i as int), cols as nat),
        decreases rows@.len() - i,
    {
        let rc = row_cells(&rows[i], cols);
        push_str(out, "  ");
        push_slice(out, &join_vecs(&rc, ", "));
        push_str(out, ",\n");
        assert(rows_view(rows@).take(i as int + 1).drop_last() =~= rows_view(rows@).take(i as int));
        i += 1;
    }
    push_str(out, ")\n\n");
    assert(rows_view(rows@).take(rows@.len() as int) =~= rows_view(rows@));
    assert(out@ =~= o0 + table_markup(svs(header@), rows_view(rows@)));
}

/// Append a GFM table as Typst markup to `s`.
pub fn emit_table(s: &mut String, header: &Vec<String>, rows: &Vec<Vec<String>>)
    ensures
        final(s)@ == old(s)@ + table_markup(svs(header@), rows_view(rows@)),
{
    let mut v: Vec<char> = Vec::new();
    table_into(&mut v, header, rows);
    assert(v@ =~= table_markup(svs(header@), rows_view(rows@)));
    append_chars(s, &v);
}

// ---------------------------------------------------------------------------
// Other blocks
// ---------------------------------------------------------------------------

/// A flat list: one `+ ` (numbered) or `- ` (bullet) line per item.
pub open spec fn list_markup(ordered: bool, items: Seq<Seq<char>>) -> Seq<char>
    decreases items.len(),
{
    if items.len() == 0 {
        seq![]
    } else {
        list_markup(ordered, items.drop_last()) + (if ordered {
            "+ "@
        } else {
            "- "@
        }) + spec_inline(items.last()) + "\n"@
    }
}

fn list_into(out: &mut Vec<char>, ordered: bool, items: &Vec<String>)
    ensures
        final(out)@ == old(out)@ + list_markup(ordered, svs(items@)),
{
    let ghost o0 = out@;
    let mut i: usize = 0;
    while i < items.len()
        invariant
            0 <= i <= items@.len(),
            out@ == o0 + list_markup(ordered, svs(items@).take(i as int)),
        decreases items@.len() - i,
    {
        if ordered {
            push_str(out, "+ ");
        } else {
            push_str(out, "- ");
        }
        let conv = inline_of(&chars_of(items[i].as_str()));
        push_slice(out, &conv);
        push_str(out, "\n");
        assert(svs(items@).take(i as int + 1).drop_last() =~= svs(items@).take(i as int));
        i += 1;
    }
    assert(svs(items@).take(items@.len() as int) =~= svs(items@));
}

/// A code panel; `lang` drives highlighting (`txt` when absent). A grayscale
/// build drops the colour theme.
pub open spec fn code_markup(lang: Option<Seq<char>>, code: Seq<char>, grayscale: bool) -> Seq<char> {
    "#block(width: 100%, fill: luma(245), inset: 8pt, radius: 3pt, breakable: true)[\n"@ + (
    if grayscale {
        "#set raw(theme: none); #set text(fill: black)\n"@
    } else {
        seq![]
    }) + "````"@ + (match lang {
        Some(l) => l,
        None => "txt"@,
    }) + "\n"@ + code + "````\n"@ + "]\n\n"@
}

/// The italic placeholder that stands for an image in a proof build (nothing
/// when the alt text is blank).
pub open spec fn placeholder(alt: Seq<char>) -> Seq<char> {
    if trim(alt).len() == 0 {
        seq![]
    } else {
        "#align(center, text(fill: luma(45%), style: \"italic\")[["@ + spec_inline(trim(alt))
            + "]])\n\n"@
    }
}

/// `pre + v + post` for a present value, nothing otherwise.
pub open spec fn opt_arg(o: Option<Seq<char>>, pre: Seq<char>, post: Seq<char>) -> Seq<char> {
    match o {
        Some(v) => pre + v + post,
        None => seq![],
    }
}

/// The image a build uses: the `bw` variant on a grayscale build when there is
/// one, else `src`.
pub open spec fn eff_src(src: Seq<char>, bw: Option<Seq<char>>, grayscale: bool) -> Seq<char> {
    match bw {
        Some(b) => if grayscale {
            b
        } else {
            src
        },
        None => src,
    }
}

/// The visible caption of a plate: the alt text when captions are on and it
/// is not blank, else `none`.
pub open spec fn plate_cap(alt: Seq<char>, captions: bool) -> Seq<char> {
    if !captions || trim(alt).len() == 0 {
        "none"@
    } else {
        spec_ty_str(alt)
    }
}

/// A plate's per-image overrides and its alt text.
pub open spec fn plate_args(
    alt: Seq<char>,
    width: Option<Seq<char>>,
    height: Option<Seq<char>>,
    fit: Option<Seq<char>>,
    border: Option<bool>,
) -> Seq<char> {
    opt_arg(width, ", w: "@, seq![]) + opt_arg(height, ", h: "@, seq![]) + opt_arg(
        fit,
        ", ft: \""@,
        "\""@,
    ) + (if border == Some(false) {
        ", b: false"@
    } else {
        seq![]
    }) + (if trim(alt).len() == 0 {
        seq![]
    } else {
        ", a: "@ + spec_ty_str(trim(alt))
    })
}

/// A full-page chapter plate; per-image overrides beat the book defaults. The
/// visible caption is the alt text when captions are on; the alt text always
/// describes the plate.
pub open spec fn plate_markup(
    path: Seq<char>,
    alt: Seq<char>,
    width: Option<Seq<char>>,
    height: Option<Seq<char>>,
    fit: Option<Seq<char>>,
    border: Option<bool>,
    captions: bool,
) -> Seq<char> {
    "#plate("@ + spec_ty_str(path) + ", c: "@ + plate_cap(alt, captions) + plate_args(
        alt,
        width,
        height,
        fit,
        border,
    ) + ")\n"@
}

/// An inline figure's arguments: its width (full by default), height, fit and
/// alt text.
pub open spec fn image_args(
    alt: Seq<char>,
    width: Option<Seq<char>>,
    height: Option<Seq<char>>,
    fit: Option<Seq<char>>,
) -> Seq<char> {
    let w = match width {
        Some(w) => w,
        None => "100%"@,
    };
    "width: "@ + w + opt_arg(height, ", height: "@, seq![]) + opt_arg(fit, ", fit: \""@, "\""@)
        + (if trim(alt).len() == 0 {
        seq![]
    } else {
        ", alt: "@ + spec_ty_str(trim(alt))
    })
}

/// An inline figure (full width unless a width is given, centred unless aligned).
pub open spec fn image_markup(
    path: Seq<char>,
    alt: Seq<char>,
    width: Option<Seq<char>>,
    height: Option<Seq<char>>,
    fit: Option<Seq<char>>,
    align: Option<Seq<char>>,
) -> Seq<char> {
    let al = match align {
        Some(a) => a,
        None => "center"@,
    };
    "#align("@ + al + ", image("@ + spec_ty_str(path) + ", "@ + image_args(alt, width, height, fit)
        + "))\n"@
}

/// A decorative spot tailpiece.
pub open spec fn spot_markup(path: Seq<char>) -> Seq<char> {
    "#spot("@ + spec_ty_str(path) + ")\n"@
}

fn push_opt(out: &mut Vec<char>, o: &Option<String>, pre: &str, post: &str)
    ensures
        final(out)@ == old(out)@ + opt_arg(ostr(*o), pre@, post@),
{
    let ghost o0 = out@;
    match o {
        Some(v) => {
            push_str(out, pre);
            push_str(out, v.as_str());
            push_str(out, post);
        },
        None => {},
    }
    assert(out@ =~= o0 + opt_arg(ostr(*o), pre@, post@));
}

fn placeholder_into(out: &mut Vec<char>, alt: &[char])
    ensures
        final(out)@ == old(out)@ + placeholder(alt@),
{
    let ghost o0 = out@;
    let t = trimmed(alt);
    if t.len() > 0 {
        push_str(out, "#align(center, text(fill: luma(45%), style: \"italic\")[[");
        push_slice(out, &inline_of(&t));
        push_str(out, "]])\n\n");
    }
    assert(out@ =~= o0 + placeholder(alt@));
}

fn code_into(out: &mut Vec<char>, lang: &Option<String>, code: &str, grayscale: bool)
    ensures
        final(out)@ == old(out)@ + code_markup(ostr(*lang), code@, grayscale),
{
    let ghost o0 = out@;
    push_str(
        out,
        "#block(width: 100%, fill: luma(245), inset: 8pt, radius: 3pt, breakable: true)[\n",
    );
    if grayscale {
        push_str(out, "#set raw(theme: none); #set text(fill: black)\n");
    }
    push_str(out, "````");
    match lang {
        Some(l) => push_str(out, l.as_str()),
        None => push_str(out, "txt"),
    }
    push_str(out, "\n");
    push_str(out, code);
    push_str(out, "````\n");
    push_str(out, "]\n\n");
    assert(out@ =~= o0 + code_markup(ostr(*lang), code@, grayscale));
}

fn image_path_for(root: &str, src: &String, bw: &Option<String>, grayscale: bool) -> (p: Vec<char>)
    ensures
        p@ == spec_img_path(root@, eff_src(src@, ostr(*bw), grayscale)),
{
    let r = match bw {
        Some(b) => if grayscale {
            typst_img_path(root, b.as_str())
        } else {
            typst_img_path(root, src.as_str())
        },
        None => typst_img_path(root, src.as_str()),
    };
    chars_of(r.as_str())
}

fn plate_args_into(
    out: &mut Vec<char>,
    alt: &[char],
    width: &Option<String>,
    height: &Option<String>,
    fit: &Option<String>,
    border: Option<bool>,
)
    ensures
        final(out)@ == old(out)@ + plate_args(alt@, ostr(*width), ostr(*height), ostr(*fit), border),
{
    let ghost o0 = out@;
    let t = trimmed(alt);
    proof {
        reveal_strlit("");
        assert(""@ =~= Seq::<char>::empty());
    }
    push_opt(out, width, ", w: ", "");
    push_opt(out, height, ", h: ", "");
    push_opt(out, fit, ", ft: \"", "\"");
    if border == Some(false) {
        push_str(out, ", b: false");
    }
    if t.len() > 0 {
        push_str(out, ", a: ");
        push_slice(out, &ty_str_of(&t));
    }
    assert(out@ =~= o0 + plate_args(alt@, ostr(*width), ostr(*height), ostr(*fit), border));
}

fn plate_into(
    out: &mut Vec<char>,
    path: &[char],
    alt: &[char],
    width: &Option<String>,
    height: &Option<String>,
    fit: &Option<String>,
    border: Option<bool>,
    captions: bool,
)
    ensures
        final(out)@ == old(out)@ + plate_markup(
            path@,
            alt@,
            ostr(*width),
            ostr(*height),
            ostr(*fit),
            border,
            captions,
        ),
{
    let ghost o0 = out@;
    let t = trimmed(alt);
    push_str(out, "#plate(");
    push_slice(out, &ty_str_of(path));
    push_str(out, ", c: ");
    if !captions || t.len() == 0 {
        push_str(out, "none");
    } else {
        push_slice(out, &ty_str_of(alt));
    }
    let ghost o1 = out@;
    assert(o1 =~= o0 + ("#plate("@ + spec_ty_str(path@) + ", c: "@ + plate_cap(alt@, captions)));
    plate_args_into(out, alt, width, height, fit, border);
    push_str(out, ")\n");
    assert(out@ =~= o0 + plate_markup(
        path@,
        alt@,
        ostr(*width),
        ostr(*height),
        ostr(*fit),
        border,
        captions,
    ));
}

fn image_args_into(
    out: &mut Vec<char>,
    alt: &[char],
    width: &Option<String>,
    height: &Option<String>,
    fit: &Option<String>,
)
    ensures
        final(out)@ == old(out)@ + image_args(alt@, ostr(*width), ostr(*height), ostr(*fit)),
{
    let ghost o0 = out@;
    let t = trimmed(alt);
    push_str(out, "width: ");
    match width {
        Some(w) => push_str(out, w.as_str()),
        None => push_str(out, "100%"),
    }
    proof {
        reveal_strlit("");
        assert(""@ =~= Seq::<char>::empty());
    }
    push_opt(out, height, ", height: ", "");
    push_opt(out, fit, ", fit: \"", "\"");
    if t.len() > 0 {
        push_str(out, ", alt: ");
        push_slice(out, &ty_str_of(&t));
    }
    assert(out@ =~= o0 + image_args(alt@, ostr(*width), ostr(*height), ostr(*fit)));
}

fn image_into(
    out: &mut Vec<char>,
    path: &[char],
    alt: &[char],
    width: &Option<String>,
    height: &Option<String>,
    fit: &Option<String>,
    align: &Option<String>,
)
    ensures
        final(out)@ == old(out)@ + image_markup(
            path@,
            alt@,
            ostr(*width),
            ostr(*height),
            ostr(*fit),
            ostr(*align),
        ),
{
    let ghost o0 = out@;
    push_str(out, "#align(");
    match align {
        Some(a) => push_str(out, a.as_str()),
        None => push_str(out, "center"),
    }
    push_str(out, ", image(");
    push_slice(out, &ty_str_of(path));
    push_str(out, ", ");
    image_args_into(out, alt, width, height, fit);
    push_str(out, "))\n");
    assert(out@ =~= o0 + image_markup(
        path@,
        alt@,
        ostr(*width),
        ostr(*height),
        ostr(*fit),
        ostr(*align),
    ));
}

// ---------------------------------------------------------------------------
// Chapters
// ---------------------------------------------------------------------------

/// Does block `i` open a chapter with a plate: a level-1 heading followed by a
/// non-spot image?
pub open spec fn opens_with_plate(bs: Seq<BlockV>, i: int) -> bool {
    &&& 0 <= i
    &&& i + 1 < bs.len()
    &&& bs[i] matches BlockV::Heading { level, .. } && level == 1
    &&& bs[i + 1] matches BlockV::Image { spot, .. } && !spot
}

/// How many blocks the markup of block `i` covers.
pub open spec fn block_span(bs: Seq<BlockV>, i: int) -> int {
    if opens_with_plate(bs, i) {
        2
    } else {
        1
    }
}

/// The markup of block `i` (with the image after it, for a plate opening).
pub open spec fn block_markup(
    bs: Seq<BlockV>,
    i: int,
    root: Seq<char>,
    captions: bool,
    grayscale: bool,
    proof_build: bool,
) -> Seq<char> {
    if opens_with_plate(bs, i) {
        match (bs[i], bs[i + 1]) {
            (
                BlockV::Heading { level, text, unnumbered },
                BlockV::Image { src, alt, width, height, fit, border, bw, .. },
            ) => {
                let h = heading_markup(level as nat, text, unnumbered);
                if proof_build {
                    h + placeholder(alt)
                } else {
                    plate_markup(
                        spec_img_path(root, eff_src(src, bw, grayscale)),
                        alt,
                        width,
                        height,
                        fit,
                        border,
                        captions,
                    ) + h
                }
            },
            _ => seq![],
        }
    } else {
        match bs[i] {
            BlockV::Heading { level, text, unnumbered } => heading_markup(
                level as nat,
                text,
                unnumbered,
            ),
            BlockV::Image { src, alt, spot, width, height, fit, align, bw, .. } => if proof_build {
                placeholder(alt)
            } else if spot {
                spot_markup(spec_img_path(root, eff_src(src, bw, grayscale)))
            } else {
                image_markup(
                    spec_img_path(root, eff_src(src, bw, grayscale)),
                    alt,
                    width,
                    height,
                    fit,
                    align,
                )
            },
            BlockV::Table { header, rows } => table_markup(header, rows),
            BlockV::List { ordered, items } => list_markup(ordered, items) + "\n"@,
            BlockV::Rule => "#scenebreak\n"@,
            BlockV::Para(t) => spec_inline(t) + "\n\n"@,
            BlockV::Code { lang, code } => code_markup(lang, code, grayscale),
        }
    }
}

/// The markup of the blocks from `i` on.
pub open spec fn emit_from(
    bs: Seq<BlockV>,
    i: int,
    root: Seq<char>,
    captions: bool,
    grayscale: bool,
    proof_build: bool,
) -> Seq<char>
    decreases bs.len() - i,
{
    if i < 0 || i >= bs.len() {
        seq![]
    } else {
        block_markup(bs, i, root, captions, grayscale, proof_build) + emit_from(
            bs,
            i + block_span(bs, i),
            root,
            captions,
            grayscale,
            proof_build,
        )
    }
}

fn emit_one(
    out: &mut Vec<char>,
    blocks: &[Block],
    i: usize,
    root: &str,
    captions: bool,
    grayscale: bool,
    proof_build: bool,
) -> (next: usize)
    requires
        i < blocks@.len(),
    ensures
        next == i + block_span(bviews(blocks@), i as int),
        final(out)@ == old(out)@ + block_markup(
            bviews(blocks@),
            i as int,
            root@,
            captions,
            grayscale,
            proof_build,
        ),
{
    let ghost bs = bviews(blocks@);
    let _n = blocks.len();
    assert(bs[i as int] == blocks@[i as int]@);
    if i + 1 < blocks.len() {
        assert(bs[i + 1] == blocks@[i + 1]@);
    }
    match &blocks[i] {
        Block::Heading { level, text, unnumbered } => {
            if *level == 1 && i + 1 < blocks.len() {
                match &blocks[i + 1] {
                    Block::Image { src, alt, spot, width, height, fit, border, bw, .. } => {
                        if !*spot {
                            let av = chars_of(alt.as_str());
                            if proof_build {
                                heading_into(out, *level, &chars_of(text.as_str()), *unnumbered);
                                placeholder_into(out, &av);
                            } else {
                                let p = image_path_for(root, src, bw, grayscale);
                                plate_into(out, &p, &av, width, height, fit, *border, captions);
                                heading_into(out, *level, &chars_of(text.as_str()), *unnumbered);
                            }
                            return i + 2;
                        }
                    },
                    _ => {},
                }
            }
            heading_into(out, *level, &chars_of(text.as_str()), *unnumbered);
        },
        Block::Image { src, alt, spot, width, height, fit, align, bw, .. } => {
            let av = chars_of(alt.as_str());
            if proof_build {
                placeholder_into(out, &av);
            } else {
                let p = image_path_for(root, src, bw, grayscale);
                if *spot {
                    let ghost o0 = out@;
                    push_str(out, "#spot(");
                    push_slice(out, &ty_str_of(&p));
                    push_str(out, ")\n");
                    assert(out@ =~= o0 + spot_markup(p@));
                } else {
                    image_into(out, &p, &av, width, height, fit, align);
                }
            }
        },
        Block::Table { header, rows } => {
            table_into(out, header, rows);
        },
        Block::List { ordered, items } => {
            let ghost o0 = out@;
            list_into(out, *ordered, items);
            push_str(out, "\n");
            assert(out@ =~= o0 + (list_markup(*ordered, svs(items@)) + "\n"@));
        },
        Block::Rule => {
            push_str(out, "#scenebreak\n");
        },
        Block::Para(t) => {
            let ghost o0 = out@;
            push_slice(out, &inline_of(&chars_of(t.as_str())));
            push_str(out, "\n\n");
            assert(out@ =~= o0 + (spec_inline(t@) + "\n\n"@));
        },
        Block::Code { lang, code } => {
            code_into(out, lang, code.as_str(), grayscale);
        },
    }
    i + 1
}

/// The markup of a chapter's blocks.
pub open spec fn spec_emit_blocks(
    bs: Seq<BlockV>,
    root: Seq<char>,
    captions: bool,
    grayscale: bool,
    proof_build: bool,
) -> Seq<char> {
    emit_from(bs, 0, root, captions, grayscale, proof_build)
}

/// Append the Typst markup of a chapter's blocks to `s` (see the module notes
/// for the plate reorder, proof and grayscale builds).
pub fn emit_blocks(
    s: &mut String,
    blocks: &[Block],
    root: &str,
    captions: bool,
    grayscale: bool,
    proof_build: bool,
)
    ensures
        final(s)@ == old(s)@ + spec_emit_blocks(bviews(blocks@), root@, captions, grayscale, proof_build),
{
    let ghost bs = bviews(blocks@);
    let mut v: Vec<char> = Vec::new();
    let mut i: usize = 0;
    assert(v@ + emit_from(bs, 0, root@, captions, grayscale, proof_build) =~= spec_emit_blocks(
        bs,
        root@,
        captions,
        grayscale,
        proof_build,
    ));
    while i < blocks.len()
        invariant
            0 <= i <= blocks@.len(),
            bs == bviews(blocks@),
            spec_emit_blocks(bs, root@, captions, grayscale, proof_build) == v@ + emit_from(
                bs,
                i as int,
                root@,
                captions,
                grayscale,
                proof_build,
            ),
        decreases blocks@.len() - i,
    {
        let ghost v0 = v@;
        let ghost i0 = i as int;
        i = emit_one(&mut v, blocks, i, root, captions, grayscale, proof_build);
        assert(v@ + emit_from(bs, i as int, root@, captions, grayscale, proof_build) =~= v0 + emit_from(
            bs,
            i0,
            root@,
            captions,
            grayscale,
            proof_build,
        ));
    }
    assert(v@ =~= spec_emit_blocks(bs, root@, captions, grayscale, proof_build));
    append_chars(s, &v);
}

// ---------------------------------------------------------------------------
// The accessibility claim and diagnostics
// ---------------------------------------------------------------------------

/// An image is described when it carries alt text; a decorative spot
/// tailpiece ships as an artifact and needs none. Other blocks hold no image.
pub open spec fn image_described(b: BlockV) -> bool {
    match b {
        BlockV::Image { spot, alt, .. } => spot || trim(alt).len() > 0,
        _ => true,
    }
}

/// Does every image of the chapter carry alt text?
pub open spec fn spec_all_images_described(bs: Seq<BlockV>) -> bool {
    forall|i: int| 0 <= i < bs.len() ==> #[trigger] image_described(bs[i])
}

/// True when every image this build renders carries alt text (spot tailpieces
/// exempt); it gates the PDF/UA-1 claim.
pub fn all_images_described(blocks: &[Block]) -> (r: bool)
    ensures
        r == spec_all_images_described(bviews(blocks@)),
{
    let ghost bs = bviews(blocks@);
    let mut i: usize = 0;
    while i < blocks.len()
        invariant
            0 <= i <= blocks@.len(),
            bs == bviews(blocks@),
            forall|k: int| 0 <= k < i ==> #[trigger] image_described(bs[k]),
        decreases blocks@.len() - i,
    {
        assert(bs[i as int] == blocks@[i as int]@);
        match &blocks[i] {
            Block::Image { spot, alt, .. } => {
                if !*spot && trimmed(&chars_of(alt.as_str())).len() == 0 {
                    assert(!image_described(bs[i as int]));
                    return false;
                }
            },
            _ => {},
        }
        i += 1;
    }
    true
}

/// Compiler diagnostics, one per line, or a note that there were none.
pub open spec fn spec_join_diags(msgs: Seq<Seq<char>>) -> Seq<char> {
    if msgs.len() == 0 {
        "(no diagnostics)"@
    } else {
        join(msgs, "\n"@)
    }
}

/// Join diagnostics for an error message.
pub fn join_diags(msgs: &Vec<String>) -> (r: String)
    ensures
        r@ == spec_join_diags(svs(msgs@)),
{
    if msgs.len() == 0 {
        let mut v: Vec<char> = Vec::new();
        push_str(&mut v, "(no diagnostics)");
        crate::text::string_of(&v)
    } else {
        let parts = vecs_of(msgs);
        crate::text::string_of(&join_vecs(&parts, "\n"))
    }
}

} // verus!
