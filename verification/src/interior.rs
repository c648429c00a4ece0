//! The Typst document of a print interior: page setup, the plate, spot and
//! scene-break definitions, chapter heading styles, the retail cover page, the
//! title page, the copyright page with the table of contents, then every
//! chapter's blocks. Whether every image is described decides if the PDF may
//! claim PDF/UA-1.
use vstd::prelude::*;
use crate::markup::{all_images_described, emit_blocks, spec_all_images_described, spec_emit_blocks};
use crate::paths::{spec_img_path, typst_img_path};
use crate::text::{append_chars, chars_of, dec, dec_string, eq_str, push_slice, push_str};
use crate::typst::{bviews, parse_blocks, spec_inline, spec_parse_blocks, spec_ty_str, ty_str, Block, BlockV};

verus! {

pub const DOC_A: &'static str = "#set document(title: ";
pub const DOC_B: &'static str = ", author: ";
pub const CLOSE_NL: &'static str = ")\n";
pub const PAGE_A: &'static str = "#set page(";
pub const BG_A: &'static str = "#set page(background: image(\"/";
pub const BG_B: &'static str = "\", width: 100%, height: 100%))\n";
pub const TEXT_A: &'static str = "#set text(size: 11pt, lang: ";
pub const FIXED: &'static str = "#set par(justify: true, leading: 0.72em, first-line-indent: 1.2em)\n#set heading(numbering: \"1\")\n#let islatitle = rgb(\"#C2571C\")\n";
pub const CHL_A: &'static str = "#let chlabel = ";
pub const FRAMED_A: &'static str = "#let plate(p, c: none, w: ";
pub const FRAMED_B: &'static str = "%, h: auto, ft: \"contain\", b: true, a: none) = [\n  #pagebreak(to: \"even\", weak: true)\n  #v(1fr)\n  #align(center, box(stroke: if b { 0.75pt + islatitle } else { none }, inset: 0pt, image(p, width: w, height: h, fit: ft, alt: a)))\n  #if c != none [\n    #v(0.85em)\n    #align(center, block(width: w, text(size: 9.5pt, style: \"italic\", fill: luma(70))[#c]))\n  ]\n  #v(1fr)\n  #pagebreak()\n]\n";
pub const BLEED: &'static str = "#let plate(p, c: none, w: none, h: none, ft: none, b: none, a: none) = [\n  #pagebreak(to: \"even\", weak: true)\n  #set page(margin: 0pt, header: none, footer: none)\n  #image(p, width: 100%, height: 100%, fit: \"cover\", alt: a)\n  #pagebreak()\n]\n";
pub const SPOT_SCENE: &'static str = "#let spot(p) = { v(1.5em); pdf.artifact(kind: \"other\", align(center, image(p, width: 2.4in, height: 2.4in, fit: \"contain\"))); v(1em) }\n#let scenebreak = { v(0.6em); align(center)[#sym.dot.c#h(0.6em)#sym.dot.c#h(0.6em)#sym.dot.c]; v(0.6em) }\n";
pub const H1_A: &'static str = "#show heading.where(level: 1): it => {\n  ";
pub const H1_B: &'static str = "\n  block(width: 100%, above: 20pt, below: 40pt, {\n    set align(center)\n    if it.numbering != none {\n      text(fill: islatitle, size: 14pt, smallcaps[#chlabel #context counter(heading).display(\"1\")])\n      linebreak()\n      v(12pt)\n    }\n    text(fill: islatitle, weight: \"bold\", size: 22pt, it.body)\n  })\n}\n";
pub const H2_ROMAN: &'static str = "#show heading.where(level: 2): it => block(above: 1.2em, below: 0.6em, text(weight: \"bold\", size: 13pt, it.body))\n\n#set page(numbering: \"i\")\n";
pub const COVER_A: &'static str = "#page(margin: 0pt, footer: none, header: none)[#image(";
pub const COVER_B: &'static str = ", width: 100%, height: 100%, fit: \"cover\", alt: ";
pub const COVER_C: &'static str = ")]\n";
pub const TITLE_A: &'static str = "#page(footer: none)[\n  #v(1fr)\n  #align(center)[\n    #text(size: 28pt, weight: \"bold\")[";
pub const TITLE_B: &'static str = "]\n";
pub const SUB_A: &'static str = "    #v(10pt)\n    #text(size: 15pt, style: \"italic\")[";
pub const AUTHOR_A: &'static str = "    #v(28pt)\n    #text(size: 13pt)[";
pub const TITLE_END: &'static str = "]\n  ]\n  #v(1fr)\n]\n";
pub const CP_A: &'static str = "#page(footer: none)[\n  #v(1fr)\n  #set align(center)\n  #set text(size: 10pt)\n";
pub const PARA_A: &'static str = "  ";
pub const PARA_B: &'static str = "\n\n";
pub const CP_END: &'static str = "  #v(1fr)\n]\n#outline(title: [";
pub const CP_END2: &'static str = "], depth: 1, indent: auto)\n";
pub const BODY: &'static str = "#set page(numbering: \"1\")\n#counter(page).update(1)\n\n";

/// Append `t` to `s`.
fn put(s: &mut String, t: &str)
    ensures
        final(s)@ == old(s)@ + t@,
{
    append_chars(s, &chars_of(t));
}

/// The page setup of a proof build: US Legal with tight, even margins and no
/// binding offset, whatever the book's trim.
pub open spec fn proof_geometry() -> Seq<char> {
    PROOF_GEOMETRY@
}

/// `#set page` arguments of a proof build.
pub const PROOF_GEOMETRY: &'static str = "width: 8.5000in, height: 14.0000in, margin: (top: 0.5000in, bottom: 0.5000in, inside: 0.5000in, outside: 0.5000in)";

/// The chapter label: Spanish books say `Capítulo`.
pub open spec fn chapter_label(lang: Seq<char>) -> Seq<char> {
    if lang == "es"@ {
        "Capítulo"@
    } else {
        "Chapter"@
    }
}

/// The table of contents title: Spanish books say `Índice`.
pub open spec fn contents_title(lang: Seq<char>) -> Seq<char> {
    if lang == "es"@ {
        "Índice"@
    } else {
        "Contents"@
    }
}

/// The break before a chapter heading: onto a recto page when the book opens
/// chapters on the right (never in a proof build).
pub open spec fn recto_break(openright: bool, proof_build: bool) -> Seq<char> {
    if openright && !proof_build {
        "pagebreak(to: \"odd\", weak: true)"@
    } else {
        "pagebreak(weak: true)"@
    }
}

/// The plate width in percent of the text column, kept between 10 and 100.
pub open spec fn plate_percent(pct: u32) -> nat {
    if pct < 10 {
        10
    } else if pct > 100 {
        100
    } else {
        pct as nat
    }
}

/// The plate definition: framed (contained, keyline, caption below) or full
/// bleed (fills the page, no caption).
pub open spec fn plate_definition(plate_framed: bool, pct: u32) -> Seq<char> {
    if plate_framed {
        FRAMED_A@ + dec(plate_percent(pct)) + FRAMED_B@
    } else {
        BLEED@
    }
}

/// Document metadata, page setup, the retail paper texture, text and
/// paragraph settings, and the chapter label.
pub open spec fn page_settings(
    title: Seq<char>,
    author: Seq<char>,
    geometry: Seq<char>,
    paper_texture: Option<Seq<char>>,
    lang: Seq<char>,
    retail: bool,
    proof_build: bool,
) -> Seq<char> {
    DOC_A@ + spec_ty_str(title) + DOC_B@ + spec_ty_str(author) + CLOSE_NL@ + PAGE_A@ + (if proof_build {
        proof_geometry()
    } else {
        geometry
    }) + CLOSE_NL@ + paper_background(paper_texture, retail) + TEXT_A@ + spec_ty_str(lang) + CLOSE_NL@ + FIXED@
        + CHL_A@ + spec_ty_str(chapter_label(lang)) + "\n"@
}

/// The retail page background, when the book has a paper texture.
pub open spec fn paper_background(paper_texture: Option<Seq<char>>, retail: bool) -> Seq<char> {
    match paper_texture {
        Some(p) => if retail {
            BG_A@ + p + BG_B@
        } else {
            Seq::<char>::empty()
        },
        None => Seq::<char>::empty(),
    }
}

/// The definitions the chapters use: plate, spot, scene break, heading styles;
/// then roman page numbers for the front matter.
pub open spec fn definitions(pct: u32, plate_framed: bool, openright: bool, proof_build: bool) -> Seq<char> {
    plate_definition(plate_framed, pct) + SPOT_SCENE@ + H1_A@ + recto_break(openright, proof_build) + H1_B@
        + H2_ROMAN@
}

/// Everything before the front matter.
pub open spec fn spec_preamble(
    title: Seq<char>,
    author: Seq<char>,
    geometry: Seq<char>,
    paper_texture: Option<Seq<char>>,
    pct: u32,
    lang: Seq<char>,
    openright: bool,
    plate_framed: bool,
    retail: bool,
    proof_build: bool,
) -> Seq<char> {
    page_settings(title, author, geometry, paper_texture, lang, retail, proof_build) + definitions(
        pct,
        plate_framed,
        openright,
        proof_build,
    )
}

/// The retail cover page: the cover image over the whole page, described.
pub open spec fn cover_page(cover: Option<Seq<char>>, root: Seq<char>, title: Seq<char>, lang: Seq<char>, retail: bool) -> Seq<char> {
    match cover {
        Some(cv) => if retail {
            COVER_A@ + spec_ty_str(spec_img_path(root, cv)) + COVER_B@ + spec_ty_str(
                (if lang == "es"@ { "Cubierta del libro: "@ } else { "Book cover: "@ }) + title,
            ) + COVER_C@
        } else {
            Seq::<char>::empty()
        },
        None => Seq::<char>::empty(),
    }
}

/// The title page: title, subtitle when there is one, author.
pub open spec fn title_page(title: Seq<char>, subtitle: Option<Seq<char>>, author: Seq<char>) -> Seq<char> {
    TITLE_A@ + spec_inline(title) + TITLE_B@ + (match subtitle {
        Some(sub) => SUB_A@ + spec_inline(sub) + TITLE_B@,
        None => Seq::<char>::empty(),
    }) + AUTHOR_A@ + spec_inline(author) + TITLE_END@
}

/// The paragraphs of the copyright text, each centred on the page.
pub open spec fn copyright_paras(bs: Seq<BlockV>) -> Seq<char>
    decreases bs.len(),
{
    if bs.len() == 0 {
        seq![]
    } else {
        copyright_paras(bs.drop_last()) + match bs.last() {
            BlockV::Para(t) => PARA_A@ + spec_inline(t) + PARA_B@,
            _ => Seq::<char>::empty(),
        }
    }
}

/// The copyright page and the table of contents, when the book ships a
/// copyright text.
pub open spec fn copyright_part(md: Option<Seq<char>>, lang: Seq<char>) -> Seq<char> {
    match md {
        Some(m) => CP_A@ + copyright_paras(spec_parse_blocks(m)) + CP_END@ + spec_inline(contents_title(lang))
            + CP_END2@,
        None => Seq::<char>::empty(),
    }
}

/// The first `n` chapters (markdown), each's blocks followed by a blank line.
pub open spec fn chapters_markup(
    chs: Seq<Seq<char>>,
    root: Seq<char>,
    captions: bool,
    grayscale: bool,
    proof_build: bool,
    n: int,
) -> Seq<char>
    decreases n,
{
    if n <= 0 || n > chs.len() {
        seq![]
    } else {
        chapters_markup(chs, root, captions, grayscale, proof_build, n - 1) + spec_emit_blocks(
            spec_parse_blocks(chs[n - 1]),
            root,
            captions,
            grayscale,
            proof_build,
        ) + "\n"@
    }
}

/// Does every chapter describe all of its images?
pub open spec fn chapters_described(chs: Seq<Seq<char>>) -> bool {
    forall|i: int| 0 <= i < chs.len() ==> #[trigger] spec_all_images_described(spec_parse_blocks(chs[i]))
}

/// Chapters as plain values.
pub open spec fn texts(v: Seq<String>) -> Seq<Seq<char>> {
    v.map_values(|s: String| s@)
}

/// An optional text as a plain value.
pub open spec fn opt_text(o: Option<String>) -> Option<Seq<char>> {
    match o {
        Some(s) => Some(s@),
        None => None,
    }
}

/// The whole interior document.
pub open spec fn spec_build_doc(
    title: Seq<char>,
    author: Seq<char>,
    subtitle: Option<Seq<char>>,
    geometry: Seq<char>,
    paper_texture: Option<Seq<char>>,
    pct: u32,
    copyright_md: Option<Seq<char>>,
    chapters: Seq<Seq<char>>,
    root: Seq<char>,
    cover: Option<Seq<char>>,
    openright: bool,
    plate_framed: bool,
    captions: bool,
    retail: bool,
    grayscale: bool,
    proof_build: bool,
    lang: Seq<char>,
) -> Seq<char> {
    spec_preamble(title, author, geometry, paper_texture, pct, lang, openright, plate_framed, retail, proof_build)
        + cover_page(cover, root, title, lang, retail) + title_page(title, subtitle, author)
        + copyright_part(copyright_md, lang) + BODY@
        + chapters_markup(chapters, root, captions, grayscale, proof_build, chapters.len() as int)
}

fn lang_is_es(lang: &str) -> (r: bool)
    ensures
        r == (lang@ == "es"@),
{
    eq_str(&chars_of(lang), "es")
}

fn page_settings_chars(
    title: &str,
    author: &str,
    geometry: &str,
    paper_texture: &Option<String>,
    lang: &str,
    retail: bool,
    proof_build: bool,
) -> (v: Vec<char>)
    ensures
        v@ == page_settings(title@, author@, geometry@, opt_text(*paper_texture), lang@, retail, proof_build),
{
    let mut v = chars_of(DOC_A);
    push_str(&mut v, ty_str(title).as_str());
    push_str(&mut v, DOC_B);
    push_str(&mut v, ty_str(author).as_str());
    push_str(&mut v, CLOSE_NL);
    push_str(&mut v, PAGE_A);
    if proof_build {
        push_str(&mut v, PROOF_GEOMETRY);
    } else {
        push_str(&mut v, geometry);
    }
    push_str(&mut v, CLOSE_NL);
    let mut bg: Vec<char> = Vec::new();
    match paper_texture {
        Some(p) => {
            if retail {
                bg = chars_of(BG_A);
                push_str(&mut bg, p.as_str());
                push_str(&mut bg, BG_B);
            }
        },
        None => {},
    }
    assert(bg@ == paper_background(opt_text(*paper_texture), retail));
    push_slice(&mut v, &bg);
    push_str(&mut v, TEXT_A);
    push_str(&mut v, ty_str(lang).as_str());
    push_str(&mut v, CLOSE_NL);
    push_str(&mut v, FIXED);
    push_str(&mut v, CHL_A);
    let label = if lang_is_es(lang) {
        "Capítulo"
    } else {
        "Chapter"
    };
    push_str(&mut v, ty_str(label).as_str());
    push_str(&mut v, "\n");
    v
}

fn definitions_chars(pct: u32, plate_framed: bool, openright: bool, proof_build: bool) -> (v: Vec<char>)
    ensures
        v@ == definitions(pct, plate_framed, openright, proof_build),
{
    let mut v: Vec<char>;
    if plate_framed {
        let p: u32 = if pct < 10 {
            10
        } else if pct > 100 {
            100
        } else {
            pct
        };
        v = chars_of(FRAMED_A);
        push_str(&mut v, dec_string(p as usize).as_str());
        push_str(&mut v, FRAMED_B);
    } else {
        v = chars_of(BLEED);
    }
    assert(v@ == plate_definition(plate_framed, pct));
    push_str(&mut v, SPOT_SCENE);
    push_str(&mut v, H1_A);
    if openright && !proof_build {
        push_str(&mut v, "pagebreak(to: \"odd\", weak: true)");
    } else {
        push_str(&mut v, "pagebreak(weak: true)");
    }
    push_str(&mut v, H1_B);
    push_str(&mut v, H2_ROMAN);
    v
}

fn preamble_into(
    s: &mut String,
    title: &str,
    author: &str,
    geometry: &str,
    paper_texture: &Option<String>,
    pct: u32,
    lang: &str,
    openright: bool,
    plate_framed: bool,
    retail: bool,
    proof_build: bool,
)
    ensures
        final(s)@ == old(s)@ + spec_preamble(
            title@,
            author@,
            geometry@,
            opt_text(*paper_texture),
            pct,
            lang@,
            openright,
            plate_framed,
            retail,
            proof_build,
        ),
{
    let mut v = page_settings_chars(title, author, geometry, paper_texture, lang, retail, proof_build);
    let d = definitions_chars(pct, plate_framed, openright, proof_build);
    push_slice(&mut v, &d);
    append_chars(s, &v);
}

fn copyright_into(s: &mut String, md: &Option<String>, lang: &str)
    ensures
        final(s)@ == old(s)@ + copyright_part(opt_text(*md), lang@),
{
    match md {
        None => {
            assert(s@ =~= s@ + Seq::<char>::empty());
        },
        Some(m) => {
            let ghost s0 = s@;
            let blocks = parse_blocks(m.as_str());
            let ghost bs = bviews(blocks@);
            put(s, CP_A);
            let ghost s1 = s@;
            let mut i: usize = 0;
            while i < blocks.len()
                invariant
                    0 <= i <= blocks@.len(),
                    bs == bviews(blocks@),
                    s@ == s1 + copyright_paras(bs.take(i as int)),
                decreases blocks@.len() - i,
            {
                assert(bs.take(i as int + 1).drop_last() =~= bs.take(i as int));
                assert(bs.take(i as int + 1).last() == blocks@[i as int]@);
                match &blocks[i] {
                    Block::Para(t) => {
                        let ghost before = s@;
                        put(s, PARA_A);
                        put(s, crate::typst::inline(t.as_str()).as_str());
                        put(s, PARA_B);
                        assert(s@ =~= before + (PARA_A@ + spec_inline(t@) + PARA_B@));
                    },
                    _ => {
                        assert(s@ =~= s@ + Seq::<char>::empty());
                    },
                }
                i += 1;
            }
            assert(bs.take(blocks@.len() as int) =~= bs);
            put(s, CP_END);
            let es = lang_is_es(lang);
            let toc = if es {
                "Índice"
            } else {
                "Contents"
            };
            put(s, crate::typst::inline(toc).as_str());
            put(s, CP_END2);
            proof {
                assert(s@ =~= s0 + copyright_part(opt_text(*md), lang@));
            }
        },
    }
}

fn front_into(
    s: &mut String,
    title: &str,
    author: &str,
    subtitle: &Option<String>,
    root: &str,
    cover: &Option<String>,
    retail: bool,
    lang: &str,
)
    ensures
        final(s)@ == old(s)@ + cover_page(opt_text(*cover), root@, title@, lang@, retail) + title_page(
            title@,
            opt_text(*subtitle),
            author@,
        ),
{
    let ghost s0 = s@;
    match cover {
        Some(cv) => {
            if retail {
                let p = typst_img_path(root, cv.as_str());
                let es = lang_is_es(lang);
                let mut alt = if es {
                    chars_of("Cubierta del libro: ")
                } else {
                    chars_of("Book cover: ")
                };
                push_str(&mut alt, title);
                let alt = crate::text::string_of(&alt);
                put(s, COVER_A);
                put(s, ty_str(p.as_str()).as_str());
                put(s, COVER_B);
                put(s, ty_str(alt.as_str()).as_str());
                put(s, COVER_C);
            }
        },
        None => {},
    }
    let ghost s1 = s@;
    assert(s1 =~= s0 + cover_page(opt_text(*cover), root@, title@, lang@, retail));
    put(s, TITLE_A);
    put(s, crate::typst::inline(title).as_str());
    put(s, TITLE_B);
    match subtitle {
        Some(sub) => {
            put(s, SUB_A);
            put(s, crate::typst::inline(sub.as_str()).as_str());
            put(s, TITLE_B);
        },
        None => {},
    }
    put(s, AUTHOR_A);
    put(s, crate::typst::inline(author).as_str());
    put(s, TITLE_END);
    proof {
        assert(s@ =~= s1 + title_page(title@, opt_text(*subtitle), author@));
    }
}

#[verifier::spinoff_prover]
#[verifier::rlimit(40)]
fn chapters_into(
    s: &mut String,
    chapters: &Vec<String>,
    root: &str,
    captions: bool,
    grayscale: bool,
    proof_build: bool,
) -> (described: bool)
    ensures
        final(s)@ == old(s)@ + chapters_markup(
            texts(chapters@),
            root@,
            captions,
            grayscale,
            proof_build,
            chapters@.len() as int,
        ),
        described == (proof_build || chapters_described(texts(chapters@))),
{
    let ghost head = s@;
    let ghost chs = texts(chapters@);
    let mut described = true;
    let mut i: usize = 0;
    while i < chapters.len()
        invariant
            0 <= i <= chapters@.len(),
            chs == texts(chapters@),
            s@ == head + chapters_markup(chs, root@, captions, grayscale, proof_build, i as int),
            described == (proof_build || forall|j: int|
                0 <= j < i ==> #[trigger] spec_all_images_described(spec_parse_blocks(chs[j]))),
        decreases chapters@.len() - i,
    {
        assert(chs[i as int] == chapters@[i as int]@);
        let blocks = parse_blocks(chapters[i].as_str());
        let ghost prev = described;
        if !proof_build {
            let d = all_images_described(blocks.as_slice());
            described = described && d;
        }
        proof {
            if !proof_build && described {
                assert forall|j: int| 0 <= j < i + 1 implies #[trigger] spec_all_images_described(
                    spec_parse_blocks(chs[j]),
                ) by {
                    if j == i {
                        assert(chs[j] == chapters@[i as int]@);
                    }
                }
            }
        }
        let ghost before = s@;
        let ghost cm = chapters_markup(chs, root@, captions, grayscale, proof_build, i as int);
        let ghost em = spec_emit_blocks(spec_parse_blocks(chs[i as int]), root@, captions, grayscale, proof_build);
        emit_blocks(s, blocks.as_slice(), root, captions, grayscale, proof_build);
        put(s, "\n");
        proof {
            assert(chapters_markup(chs, root@, captions, grayscale, proof_build, i as int + 1) == cm + em + "\n"@);
            assert(s@ =~= head + (cm + em + "\n"@));
        }
        i += 1;
    }
    described
}

/// The Typst document of a print interior (see the module notes) and whether
/// it may claim PDF/UA-1: a proof build renders no images, else every image of
/// every chapter must be described. `geometry` holds the `#set page`
/// arguments of the book's trim (a proof build uses its own), `plate_pct` the
/// framed plate width in percent, `paper_texture` the root-relative path of
/// the retail page background when the book has one, `copyright_md` and
/// `chapters` the markdown texts, `cover` the cover image's path.
pub fn build_doc(
    title: &str,
    author: &str,
    subtitle: &Option<String>,
    geometry: &str,
    paper_texture: &Option<String>,
    plate_pct: u32,
    copyright_md: &Option<String>,
    chapters: &Vec<String>,
    root: &str,
    cover: &Option<String>,
    openright: bool,
    plate_framed: bool,
    captions: bool,
    retail: bool,
    grayscale: bool,
    proof_build: bool,
    lang: &str,
) -> (r: (String, bool))
    ensures
        r.0@ == spec_build_doc(
            title@,
            author@,
            opt_text(*subtitle),
            geometry@,
            opt_text(*paper_texture),
            plate_pct,
            opt_text(*copyright_md),
            texts(chapters@),
            root@,
            opt_text(*cover),
            openright,
            plate_framed,
            captions,
            retail,
            grayscale,
            proof_build,
            lang@,
        ),
        r.1 == (proof_build || chapters_described(texts(chapters@))),
{
    let mut s = String::new();
    let ghost e = s@;
    preamble_into(
        &mut s,
        title,
        author,
        geometry,
        paper_texture,
        plate_pct,
        lang,
        openright,
        plate_framed,
        retail,
        proof_build,
    );
    front_into(&mut s, title, author, subtitle, root, cover, retail, lang);
    copyright_into(&mut s, copyright_md, lang);
    put(&mut s, BODY);
    let ghost head = s@;
    let ghost chs = texts(chapters@);
    let described = chapters_into(&mut s, chapters, root, captions, grayscale, proof_build);
    proof {
        assert(s@ =~= spec_build_doc(
            title@,
            author@,
            opt_text(*subtitle),
            geometry@,
            opt_text(*paper_texture),
            plate_pct,
            opt_text(*copyright_md),
            chs,
            root@,
            opt_text(*cover),
            openright,
            plate_framed,
            captions,
            retail,
            grayscale,
            proof_build,
            lang@,
        ));
    }
    (s, described)
}

} // verus!
