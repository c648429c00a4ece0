//! Raster images: how an EPUB image is shrunk (resampled to a maximum width,
//! then re-encoded as a JPEG or as a 256-colour palette PNG), and how an image
//! is turned grayscale for a print edition. Decoding, resampling, colour
//! quantisation and the encoders are the `image`, `color_quant`, `png`,
//! `oxipng` and `mozjpeg` crates'; the choices between them are made here.
use vstd::prelude::*;
use vstd::set_lib::{lemma_int_range, lemma_map_size, lemma_subset_equality, set_int_range};
use crate::epub_shrink::{fit_width, has_alpha, spec_fit_width, spec_has_alpha, spec_trns_len, trns_len};
use crate::text::{chars_of, string_of};

verus! {

// ---------------------------------------------------------------------------
// What the outside crates compute
// ---------------------------------------------------------------------------

/// Optional bytes as plain values.
pub open spec fn opt_bytes(o: Option<Vec<u8>>) -> Option<Seq<u8>> {
    match o {
        Some(v) => Some(v@),
        None => None,
    }
}

/// A byte result as plain values.
pub open spec fn res_bytes(r: Result<Vec<u8>, String>) -> Result<Seq<u8>, Seq<char>> {
    match r {
        Ok(v) => Ok(v@),
        Err(m) => Err(m@),
    }
}

/// The pixel size of the image `image::load_from_memory` decodes from bytes.
pub uninterp spec fn decoded_size(data: Seq<u8>) -> Option<(u32, u32)>;

/// `image::load_from_memory`, then the decoded image's width and height;
/// `None` when the bytes do not decode. The result is the crate's answer for
/// these bytes.
#[verifier::external_body]
pub(crate) fn image_size(data: &[u8]) -> (r: Option<(u32, u32)>)
    ensures
        r == decoded_size(data@),
{
    image::load_from_memory(data).ok().map(|i| (i.width(), i.height()))
}

/// The RGBA pixels (four bytes each, row by row) of the image decoded from
/// bytes and resampled to `w`×`h` with the Lanczos3 filter.
pub uninterp spec fn rgba_pixels(data: Seq<u8>, w: u32, h: u32) -> Option<Seq<u8>>;

/// `image::load_from_memory`, `resize_exact` to `w`×`h` with the Lanczos3
/// filter (which copies the image unchanged at its own size), `to_rgba8`.
/// Claimed: the result is the crate's answer for these arguments, and holds
/// four bytes per pixel.
#[verifier::external_body]
pub(crate) fn image_rgba(data: &[u8], w: u32, h: u32) -> (r: Option<Vec<u8>>)
    requires
        w as int * h as int * 4 <= usize::MAX,
    ensures
        opt_bytes(r) == rgba_pixels(data@, w, h),
        r matches Some(p) ==> p@.len() == w as int * h as int * 4,
{
    let i = image::load_from_memory(data).ok()?;
    Some(i.resize_exact(w, h, image::imageops::FilterType::Lanczos3).to_rgba8().into_raw())
}

/// The RGB pixels (three bytes each) of the image decoded from bytes and
/// resampled to `w`×`h` with the Lanczos3 filter.
pub uninterp spec fn rgb_pixels(data: Seq<u8>, w: u32, h: u32) -> Option<Seq<u8>>;

/// `image::load_from_memory`, `resize_exact` to `w`×`h` with the Lanczos3
/// filter, `to_rgb8`. Claimed: the result is the crate's answer for these
/// arguments, and holds three bytes per pixel.
#[verifier::external_body]
pub(crate) fn image_rgb(data: &[u8], w: u32, h: u32) -> (r: Option<Vec<u8>>)
    requires
        w as int * h as int * 4 <= usize::MAX,
    ensures
        opt_bytes(r) == rgb_pixels(data@, w, h),
        r matches Some(p) ==> p@.len() == w as int * h as int * 3,
{
    let i = image::load_from_memory(data).ok()?;
    Some(i.resize_exact(w, h, image::imageops::FilterType::Lanczos3).to_rgb8().into_raw())
}

/// The progressive JPEG mozjpeg writes for RGB pixels at a quality.
pub uninterp spec fn jpeg_bytes(rgb: Seq<u8>, w: u32, h: u32, quality: u8) -> Result<Seq<u8>, Seq<char>>;

/// The largest side libjpeg encodes.
pub const JPEG_MAX_SIDE: u32 = 65500;

/// A mozjpeg compression of `w`×`h` RGB pixels: `Compress::new(JCS_RGB)`,
/// `set_size`, `set_quality`, `set_progressive_mode`, `start_compress` into a
/// `Vec`, `write_scanlines`, `finish`. The library panics on a bad size or a
/// short buffer, which `requires` leaves out. Claimed: the result is the
/// encoder's answer for these arguments.
#[verifier::external_body]
pub(crate) fn encode_jpeg_rgb(rgb: &[u8], w: u32, h: u32, quality: u8) -> (r: Result<Vec<u8>, String>)
    requires
        0 < w <= JPEG_MAX_SIDE,
        0 < h <= JPEG_MAX_SIDE,
        rgb@.len() == w as int * h as int * 3,
        1 <= quality <= 100,
    ensures
        res_bytes(r) == jpeg_bytes(rgb@, w, h, quality),
{
    let mut c = mozjpeg::Compress::new(mozjpeg::ColorSpace::JCS_RGB);
    c.set_size(w as usize, h as usize);
    c.set_quality(quality.into());
    c.set_progressive_mode();
    let mut s = c.start_compress(Vec::new()).map_err(|e| e.to_string())?;
    s.write_scanlines(rgb).map_err(|e| e.to_string())?;
    s.finish().map_err(|e| e.to_string())
}

/// A colour quantisation network of `color_quant`.
#[verifier::external_type_specification]
#[verifier::external_body]
pub struct ExNeuQuant(color_quant::NeuQuant);

/// What a network was trained with: sample factor, number of colours, pixels.
pub uninterp spec fn nq_trained(q: color_quant::NeuQuant) -> (i32, usize, Seq<u8>);

/// The RGBA colour map of a network trained with these.
pub uninterp spec fn nq_colors(samplefac: i32, colors: usize, pixels: Seq<u8>) -> Seq<u8>;

/// The colour-map index such a network picks for one RGBA pixel.
pub uninterp spec fn nq_index(samplefac: i32, colors: usize, pixels: Seq<u8>, px: Seq<u8>) -> usize;

/// `NeuQuant::new`: train a network on RGBA pixels (the crate's documented
/// ranges for the sample factor and the number of colours are required).
#[verifier::external_body]
pub(crate) fn nq_train(samplefac: i32, colors: usize, pixels: &[u8]) -> (q: color_quant::NeuQuant)
    requires
        1 <= samplefac <= 30,
        64 <= colors <= 256,
    ensures
        nq_trained(q) == (samplefac, colors, pixels@),
{
    color_quant::NeuQuant::new(samplefac, colors, pixels)
}

/// `color_map_rgba`: the trained colour map, four bytes per colour (the
/// crate's source builds one entry per colour).
#[verifier::external_body]
pub(crate) fn nq_color_map(q: &color_quant::NeuQuant) -> (r: Vec<u8>)
    ensures
        r@ == nq_colors(nq_trained(*q).0, nq_trained(*q).1, nq_trained(*q).2),
        r@.len() == nq_trained(*q).1 * 4,
{
    q.color_map_rgba()
}

/// `index_of` for one RGBA pixel (the crate asserts four bytes): the index of
/// the colour-map entry it picks, which is below the number of colours.
#[verifier::external_body]
pub(crate) fn nq_index_of(q: &color_quant::NeuQuant, px: &[u8]) -> (r: usize)
    requires
        px@.len() == 4,
        nq_trained(*q).1 > 0,
    ensures
        r == nq_index(nq_trained(*q).0, nq_trained(*q).1, nq_trained(*q).2, px@),
        r < nq_trained(*q).1,
{
    q.index_of(px)
}

/// The bytes the `png` crate writes for an 8-bit palette image: `w`×`h`
/// palette indices, the RGB palette and, when given, the palette alpha table;
/// best compression, no row filter.
pub uninterp spec fn palette_png(w: u32, h: u32, plte: Seq<u8>, trns: Option<Seq<u8>>, indices: Seq<u8>) -> Result<
    Seq<u8>,
    Seq<char>,
>;

/// An optional byte table as plain values.
pub open spec fn opt_table(o: Option<Vec<u8>>) -> Option<Seq<u8>> {
    opt_bytes(o)
}

/// `png::Encoder` for an indexed 8-bit image with `Compression::Best`,
/// `FilterType::NoFilter` and no adaptive filtering, the palette, the alpha
/// table when there is one, `write_header`, `write_image_data`, `finish`. Claimed: the
/// result is the crate's answer for these arguments.
#[verifier::external_body]
pub(crate) fn write_palette_png(w: u32, h: u32, plte: &[u8], trns: &Option<Vec<u8>>, indices: &[u8]) -> (r: Result<
    Vec<u8>,
    String,
>)
    ensures
        res_bytes(r) == palette_png(w, h, plte@, opt_table(*trns), indices@),
{
    let mut out = Vec::new();
    let mut enc = png::Encoder::new(&mut out, w, h);
    enc.set_color(png::ColorType::Indexed);
    enc.set_depth(png::BitDepth::Eight);
    enc.set_compression(png::Compression::Best);
    enc.set_filter(png::FilterType::NoFilter);
    enc.set_adaptive_filter(png::AdaptiveFilterType::NonAdaptive);
    enc.set_palette(plte.to_vec());
    if let Some(t) = trns { enc.set_trns(t.clone()); }
    let mut wr = enc.write_header().map_err(|e| e.to_string())?;
    wr.write_image_data(indices).map_err(|e| e.to_string())?;
    wr.finish().map_err(|e| e.to_string())?;
    Ok(out)
}

/// What oxipng's maximum-compression preset makes of a PNG, if it can.
pub uninterp spec fn oxipng_max(png: Seq<u8>) -> Option<Seq<u8>>;

/// `oxipng::optimize_from_memory` with `Options::max_compression()`; `None`
/// when it fails. Claimed: the result is the crate's answer for these bytes.
#[verifier::external_body]
pub(crate) fn optimize_png(png: &[u8]) -> (r: Option<Vec<u8>>)
    ensures
        opt_bytes(r) == oxipng_max(png@),
{
    oxipng::optimize_from_memory(png, &oxipng::Options::max_compression()).ok()
}

/// The container `image::guess_format` sees in bytes: 1 for PNG, 2 for JPEG,
/// 0 for anything else or nothing it knows.
pub uninterp spec fn guessed_format(data: Seq<u8>) -> u8;

/// `image::guess_format`, its PNG and JPEG answers told apart.
#[verifier::external_body]
pub(crate) fn image_format(data: &[u8]) -> (r: u8)
    ensures
        r == guessed_format(data@),
{
    match image::guess_format(data) {
        Ok(image::ImageFormat::Png) => 1,
        Ok(image::ImageFormat::Jpeg) => 2,
        _ => 0,
    }
}

/// The grayscale-with-alpha PNG the `image` crate writes for decoded bytes.
pub uninterp spec fn gray_png_bytes(data: Seq<u8>) -> Option<Seq<u8>>;

/// `image::load_from_memory`, `to_luma_alpha8`, written as PNG; `None` on a
/// decode or encode failure. Claimed: the result is the crate's answer.
#[verifier::external_body]
pub(crate) fn gray_png(data: &[u8]) -> (r: Option<Vec<u8>>)
    ensures
        opt_bytes(r) == gray_png_bytes(data@),
{
    let g = image::DynamicImage::ImageLumaA8(image::load_from_memory(data).ok()?.to_luma_alpha8());
    let mut out = Vec::new();
    g.write_to(std::io::Cursor::new(&mut out), image::ImageFormat::Png).ok()?;
    Some(out)
}

/// The grayscale JPEG the `image` crate's encoder writes for decoded bytes.
pub uninterp spec fn gray_jpeg_bytes(data: Seq<u8>, quality: u8) -> Option<Seq<u8>>;

/// `image::load_from_memory`, `to_luma8`, encoded by `JpegEncoder` at a
/// quality; `None` on a decode or encode failure. Claimed: the result is the
/// crate's answer.
#[verifier::external_body]
pub(crate) fn gray_jpeg(data: &[u8], quality: u8) -> (r: Option<Vec<u8>>)
    ensures
        opt_bytes(r) == gray_jpeg_bytes(data@, quality),
{
    let g = image::load_from_memory(data).ok()?.to_luma8();
    let mut out = Vec::new();
    image::codecs::jpeg::JpegEncoder::new_with_quality(&mut out, quality).encode_image(&g).ok()?;
    Some(out)
}

// ---------------------------------------------------------------------------
// The palette PNG
// ---------------------------------------------------------------------------

/// Quantisation settings: NeuQuant's sample factor and palette size.
pub const NQ_SAMPLE: i32 = 10;

/// The number of palette colours.
pub const NQ_COLORS: usize = 256;

/// The sort key of palette colour `i`: its alpha above its luminance
/// (`(299 r + 587 g + 114 b) / 1000`), so transparent colours cluster.
pub open spec fn pal_key(pal: Seq<u8>, i: int) -> int {
    pal[4 * i + 3] as int * 65536 + (299 * pal[4 * i] as int + 587 * pal[4 * i + 1] as int + 114 * pal[4
        * i + 2] as int) / 1000
}

/// Colour `j` sorts before colour `i`: a smaller key, or an equal key and an
/// earlier place (the sort is stable).
pub open spec fn sorts_before(pal: Seq<u8>, j: int, i: int) -> bool {
    pal_key(pal, j) < pal_key(pal, i) || (pal_key(pal, j) == pal_key(pal, i) && j < i)
}

/// How many of the first `n` colours sort before colour `i`.
pub open spec fn count_before(pal: Seq<u8>, i: int, n: int) -> nat
    decreases n,
{
    if n <= 0 {
        0
    } else {
        count_before(pal, i, n - 1) + if sorts_before(pal, n - 1, i) {
            1nat
        } else {
            0nat
        }
    }
}

/// Where colour `i` lands once the palette is sorted by key.
pub open spec fn pal_rank(pal: Seq<u8>, i: int) -> int {
    count_before(pal, i, 256) as int
}

/// The colour that lands at place `k`.
pub open spec fn rank_owner(pal: Seq<u8>, k: int) -> int {
    choose|i: int| 0 <= i < 256 && pal_rank(pal, i) == k
}

/// The sorted RGB palette.
pub open spec fn sorted_plte(pal: Seq<u8>) -> Seq<u8> {
    Seq::new(768, |x: int| pal[4 * rank_owner(pal, x / 3) + x % 3])
}

/// The sorted palette's alpha values.
pub open spec fn sorted_alpha(pal: Seq<u8>) -> Seq<u8> {
    Seq::new(256, |k: int| pal[4 * rank_owner(pal, k) + 3])
}

/// Pixel `p` of RGBA data.
pub open spec fn pixel_at(px: Seq<u8>, p: int) -> Seq<u8> {
    px.subrange(4 * p, 4 * p + 4)
}

/// The palette index of each pixel: the network's pick, moved to its sorted
/// place.
pub open spec fn pixel_indices(px: Seq<u8>) -> Seq<u8> {
    let pal = nq_colors(NQ_SAMPLE, NQ_COLORS, px);
    Seq::new(px.len() / 4, |p: int| pal_rank(pal, nq_index(NQ_SAMPLE, NQ_COLORS, px, pixel_at(px, p)) as int) as u8)
}

/// The alpha table written: only when the image has transparency, up to the
/// last entry that is not opaque, and none when that leaves nothing.
pub open spec fn png_alpha(px: Seq<u8>, pal: Seq<u8>) -> Option<Seq<u8>> {
    if spec_has_alpha(px) {
        let t = sorted_alpha(pal);
        let l = spec_trns_len(t);
        if l > 0 {
            Some(t.take(l as int))
        } else {
            None
        }
    } else {
        None
    }
}

/// A 256-colour palette PNG of RGBA pixels: NeuQuant's palette, sorted so
/// similar colours get neighbouring indices, each pixel mapped to its colour.
pub open spec fn quantized_png(px: Seq<u8>, w: u32, h: u32) -> Result<Seq<u8>, Seq<char>> {
    let pal = nq_colors(NQ_SAMPLE, NQ_COLORS, px);
    palette_png(w, h, sorted_plte(pal), png_alpha(px, pal), pixel_indices(px))
}

proof fn lemma_count_bound(pal: Seq<u8>, i: int, n: int)
    requires
        0 <= n,
    ensures
        count_before(pal, i, n) <= n,
        0 <= i < n ==> count_before(pal, i, n) <= n - 1,
    decreases n,
{
    if n > 0 {
        lemma_count_bound(pal, i, n - 1);
    }
}

proof fn lemma_count_more(pal: Seq<u8>, a: int, b: int, w: int, n: int)
    requires
        0 <= n,
        forall|m: int| 0 <= m < n && #[trigger] sorts_before(pal, m, a) ==> sorts_before(pal, m, b),
    ensures
        count_before(pal, a, n) <= count_before(pal, b, n),
        0 <= w < n && sorts_before(pal, w, b) && !sorts_before(pal, w, a) ==> count_before(pal, a, n) + 1
            <= count_before(pal, b, n),
    decreases n,
{
    if n > 0 {
        lemma_count_more(pal, a, b, w, n - 1);
    }
}

/// Different colours land at different places.
proof fn lemma_rank_injective(pal: Seq<u8>, i: int, j: int)
    requires
        0 <= i < 256,
        0 <= j < 256,
        i != j,
    ensures
        pal_rank(pal, i) != pal_rank(pal, j),
{
    if sorts_before(pal, i, j) {
        assert forall|m: int| 0 <= m < 256 && #[trigger] sorts_before(pal, m, i) implies sorts_before(pal, m, j) by {}
        lemma_count_more(pal, i, j, i, 256);
    } else {
        assert(sorts_before(pal, j, i));
        assert forall|m: int| 0 <= m < 256 && #[trigger] sorts_before(pal, m, j) implies sorts_before(pal, m, i) by {}
        lemma_count_more(pal, j, i, j, 256);
    }
}

/// Every place from 0 to 255 gets exactly one colour.
proof fn lemma_rank_onto(pal: Seq<u8>, k: int)
    requires
        0 <= k < 256,
    ensures
        0 <= rank_owner(pal, k) < 256,
        pal_rank(pal, rank_owner(pal, k)) == k,
{
    let dom = set_int_range(0, 256);
    let f = |i: int| pal_rank(pal, i);
    let img = dom.map(f);
    lemma_int_range(0, 256);
    assert forall|a: int, b: int| dom.contains(a) && dom.contains(b) && #[trigger] f(a) == #[trigger] f(b) implies a
        == b by {
        if a != b {
            lemma_rank_injective(pal, a, b);
        }
    }
    assert(vstd::relations::injective_on(f, dom));
    lemma_map_size(dom, img, f);
    assert forall|x: int| img.contains(x) implies dom.contains(x) by {
        let i = choose|i: int| dom.contains(i) && f(i) == x;
        lemma_count_bound(pal, i, 256);
    }
    assert(img.subset_of(dom));
    lemma_subset_equality(img, dom);
    assert(dom.contains(k));
    assert(img.contains(k));
    let i = choose|i: int| dom.contains(i) && f(i) == k;
    assert(0 <= i < 256 && pal_rank(pal, i) == k);
}

fn zeros(n: usize) -> (v: Vec<u8>)
    ensures
        v@.len() == n,
        forall|i: int| 0 <= i < n ==> v@[i] == 0,
{
    let mut v: Vec<u8> = Vec::new();
    while v.len() < n
        invariant
            v@.len() <= n,
            forall|i: int| 0 <= i < v@.len() ==> v@[i] == 0,
        decreases n - v@.len(),
    {
        v.push(0);
    }
    v
}

fn pal_keys(pal: &Vec<u8>) -> (k: Vec<u32>)
    requires
        pal@.len() == 1024,
    ensures
        k@.len() == 256,
        forall|i: int| 0 <= i < 256 ==> k@[i] as int == pal_key(pal@, i),
{
    let mut k: Vec<u32> = Vec::new();
    let mut i: usize = 0;
    while i < 256
        invariant
            0 <= i <= 256,
            pal@.len() == 1024,
            k@.len() == i,
            forall|j: int| 0 <= j < i ==> k@[j] as int == pal_key(pal@, j),
        decreases 256 - i,
    {
        let r = pal[4 * i] as u32;
        let g = pal[4 * i + 1] as u32;
        let b = pal[4 * i + 2] as u32;
        let a = pal[4 * i + 3] as u32;
        let lum = (299 * r + 587 * g + 114 * b) / 1000;
        assert(lum <= 255);
        k.push(a * 65536 + lum);
        i += 1;
    }
    k
}

fn pal_ranks(pal: &Vec<u8>) -> (r: Vec<usize>)
    requires
        pal@.len() == 1024,
    ensures
        r@.len() == 256,
        forall|i: int| 0 <= i < 256 ==> (#[trigger] r@[i]) as int == pal_rank(pal@, i) && r@[i] < 256,
{
    let keys = pal_keys(pal);
    let mut r: Vec<usize> = Vec::new();
    let mut i: usize = 0;
    while i < 256
        invariant
            0 <= i <= 256,
            keys@.len() == 256,
            forall|x: int| 0 <= x < 256 ==> keys@[x] as int == pal_key(pal@, x),
            r@.len() == i,
            forall|x: int| 0 <= x < i ==> (#[trigger] r@[x]) as int == pal_rank(pal@, x) && r@[x] < 256,
        decreases 256 - i,
    {
        let mut c: usize = 0;
        let mut j: usize = 0;
        while j < 256
            invariant
                0 <= j <= 256,
                i < 256,
                keys@.len() == 256,
                forall|x: int| 0 <= x < 256 ==> keys@[x] as int == pal_key(pal@, x),
                c as int == count_before(pal@, i as int, j as int),
                c <= j,
            decreases 256 - j,
        {
            if keys[j] < keys[i] || (keys[j] == keys[i] && j < i) {
                c += 1;
            }
            j += 1;
        }
        proof {
            lemma_count_bound(pal@, i as int, 256);
        }
        r.push(c);
        i += 1;
    }
    r
}

/// The sorted palette and its alpha table for a NeuQuant colour map.
fn sorted_palette(pal: &Vec<u8>) -> (r: (Vec<u8>, Vec<u8>))
    requires
        pal@.len() == 1024,
    ensures
        r.0@ == sorted_plte(pal@),
        r.1@ == sorted_alpha(pal@),
{
    let ghost p = pal@;
    let ranks = pal_ranks(pal);
    let mut plte = zeros(768);
    let mut trns = zeros(256);
    let mut i: usize = 0;
    while i < 256
        invariant
            0 <= i <= 256,
            pal@ == p,
            p.len() == 1024,
            ranks@.len() == 256,
            forall|x: int| 0 <= x < 256 ==> (#[trigger] ranks@[x]) as int == pal_rank(p, x) && ranks@[x] < 256,
            plte@.len() == 768,
            trns@.len() == 256,
            forall|x: int, c: int|
                0 <= x < i && 0 <= c < 3 ==> plte@[3 * pal_rank(p, x) + c] == #[trigger] p[4 * x + c],
            forall|x: int| 0 <= x < i ==> trns@[pal_rank(p, x)] == #[trigger] p[4 * x + 3],
        decreases 256 - i,
    {
        let k = ranks[i];
        assert(ranks@[i as int] < 256 && k as int == pal_rank(p, i as int));
        proof {
            assert forall|x: int| 0 <= x < i implies pal_rank(p, x) != k as int by {
                lemma_rank_injective(p, x, i as int);
            }
        }
        let ghost old_plte = plte@;
        let ghost old_trns = trns@;
        plte.set(3 * k, pal[4 * i]);
        plte.set(3 * k + 1, pal[4 * i + 1]);
        plte.set(3 * k + 2, pal[4 * i + 2]);
        trns.set(k, pal[4 * i + 3]);
        proof {
            assert forall|x: int, c: int| 0 <= x < i + 1 && 0 <= c < 3 implies plte@[3 * pal_rank(p, x) + c]
                == #[trigger] p[4 * x + c] by {
                let j = 3 * pal_rank(p, x) + c;
                assert(ranks@[x] as int == pal_rank(p, x) && ranks@[x] < 256);
                if x < i {
                    assert(pal_rank(p, x) != k as int);
                    assert(j != 3 * k && j != 3 * k + 1 && j != 3 * k + 2);
                    assert(old_plte[j] == p[4 * x + c]);
                    assert(plte@[j] == old_plte[j]);
                } else {
                    assert(x == i);
                    assert(pal_rank(p, x) == k as int);
                }
            }
            assert forall|x: int| 0 <= x < i + 1 implies trns@[pal_rank(p, x)] == #[trigger] p[4 * x + 3] by {
                assert(ranks@[x] as int == pal_rank(p, x) && ranks@[x] < 256);
                if x < i {
                    assert(pal_rank(p, x) != k as int);
                    assert(old_trns[pal_rank(p, x)] == p[4 * x + 3]);
                } else {
                    assert(x == i);
                }
            }
        }
        i += 1;
    }
    proof {
        assert forall|x: int| 0 <= x < 768 implies plte@[x] == #[trigger] sorted_plte(p)[x] by {
            lemma_rank_onto(p, x / 3);
            let o = rank_owner(p, x / 3);
            assert(plte@[3 * pal_rank(p, o) + x % 3] == p[4 * o + x % 3]);
        }
        assert(plte@ =~= sorted_plte(p));
        assert forall|x: int| 0 <= x < 256 implies trns@[x] == #[trigger] sorted_alpha(p)[x] by {
            lemma_rank_onto(p, x);
        }
        assert(trns@ =~= sorted_alpha(p));
    }
    (plte, trns)
}

/// The sorted palette index of every pixel.
fn palette_indices(nq: &color_quant::NeuQuant, rgba: &[u8], pal: &Vec<u8>) -> (r: Vec<u8>)
    requires
        nq_trained(*nq) == (NQ_SAMPLE, NQ_COLORS, rgba@),
        pal@ == nq_colors(NQ_SAMPLE, NQ_COLORS, rgba@),
        pal@.len() == 1024,
    ensures
        r@ == pixel_indices(rgba@),
{
    let ghost p = pal@;
    let ranks = pal_ranks(pal);
    let len = rgba.len();
    let n = len / 4;
    let mut indices: Vec<u8> = Vec::new();
    let mut q: usize = 0;
    while q < n
        invariant
            0 <= q <= n,
            len == rgba@.len(),
            n == len / 4,
            nq_trained(*nq) == (NQ_SAMPLE, NQ_COLORS, rgba@),
            p == nq_colors(NQ_SAMPLE, NQ_COLORS, rgba@),
            ranks@.len() == 256,
            forall|x: int| 0 <= x < 256 ==> (#[trigger] ranks@[x]) as int == pal_rank(p, x) && ranks@[x] < 256,
            indices@ =~= pixel_indices(rgba@).take(q as int),
        decreases n - q,
    {
        assert(4 * q + 4 <= len) by (nonlinear_arith)
            requires
                q < n,
                n == len / 4,
        ;
        let b: usize = 4 * q;
        let px: [u8; 4] = [rgba[b], rgba[b + 1], rgba[b + 2], rgba[b + 3]];
        assert(px@ =~= pixel_at(rgba@, q as int));
        let c = nq_index_of(nq, &px);
        assert(ranks@[c as int] < 256);
        indices.push(ranks[c] as u8);
        q += 1;
    }
    assert(pixel_indices(rgba@).take(n as int) =~= pixel_indices(rgba@));
    indices
}

/// Encode RGBA pixels (`w`×`h`, four bytes each) as a 256-colour palette PNG:
/// NeuQuant palette sorted by alpha then luminance, each pixel mapped to its
/// nearest colour; a palette alpha table is written only when the image has
/// transparency.
pub fn encode_png_quantized(rgba: &[u8], w: u32, h: u32) -> (r: Result<Vec<u8>, String>)
    requires
        rgba@.len() == w as int * h as int * 4,
    ensures
        res_bytes(r) == quantized_png(rgba@, w, h),
{
    let alpha = has_alpha(rgba);
    let nq = nq_train(NQ_SAMPLE, NQ_COLORS, rgba);
    let pal = nq_color_map(&nq);
    let (plte, trns) = sorted_palette(&pal);
    let indices = palette_indices(&nq, rgba, &pal);
    let table: Option<Vec<u8>> = if alpha {
        let l = trns_len(&trns);
        if l > 0 {
            let mut t: Vec<u8> = Vec::new();
            let mut x: usize = 0;
            while x < l
                invariant
                    0 <= x <= l,
                    l <= trns@.len(),
                    t@ =~= trns@.take(x as int),
                decreases l - x,
            {
                t.push(trns[x]);
                x += 1;
            }
            Some(t)
        } else {
            None
        }
    } else {
        None
    };
    assert(opt_table(table) == png_alpha(rgba@, pal@));
    write_palette_png(w, h, &plte, &table, &indices)
}

// ---------------------------------------------------------------------------
// Shrinking one image
// ---------------------------------------------------------------------------

/// JPEG quality of re-encoded EPUB images.
pub const JPEG_QUALITY: u8 = 88;

/// Can a `w`×`h` image be held as four bytes per pixel?
pub open spec fn pixels_fit(w: u32, h: u32) -> bool {
    w as int * h as int * 4 <= usize::MAX
}

/// The message for an image too large to hold or to encode.
pub open spec fn too_large() -> Seq<char> {
    "image too large"@
}

/// The image re-encoded as a JPEG at `w`×`h`; `None` when it does not decode.
pub open spec fn spec_jpeg(data: Seq<u8>, w: u32, h: u32) -> Result<Option<Seq<u8>>, Seq<char>> {
    match rgb_pixels(data, w, h) {
        None => Ok(None),
        Some(rgb) => if 0 < w <= JPEG_MAX_SIDE && 0 < h <= JPEG_MAX_SIDE && rgb.len() == w as int * h as int
            * 3 {
            match jpeg_bytes(rgb, w, h, JPEG_QUALITY) {
                Ok(j) => Ok(Some(j)),
                Err(m) => Err(m),
            }
        } else {
            Err(too_large())
        },
    }
}

/// What shrinking one image gives: `Ok(None)` keeps it as it is (it does not
/// decode), `Ok(Some((bytes, ext)))` replaces it, with a new extension when an
/// opaque PNG became a JPEG; an error keeps it too. The image is first fitted
/// to `max_w`. A PNG with transparency, or one forced to stay PNG (the
/// cover), becomes a palette PNG recompressed by oxipng (kept as encoded when
/// oxipng fails); an opaque PNG becomes a JPEG; a JPEG is re-encoded.
pub open spec fn spec_shrink_image(data: Seq<u8>, max_w: u32, is_png: bool, force_png: bool) -> Result<
    Option<(Seq<u8>, Option<Seq<char>>)>,
    Seq<char>,
> {
    match decoded_size(data) {
        None => Ok(None),
        Some(wh) => {
            let nw = spec_fit_width(wh.0, wh.1, max_w).0;
            let nh = spec_fit_width(wh.0, wh.1, max_w).1;
            if !pixels_fit(nw, nh) {
                Err(too_large())
            } else if is_png {
                match rgba_pixels(data, nw, nh) {
                    None => Ok(None),
                    Some(px) => if spec_has_alpha(px) || force_png {
                        match quantized_png(px, nw, nh) {
                            Err(m) => Err(m),
                            Ok(png) => Ok(
                                Some(
                                    (
                                        match oxipng_max(png) {
                                            Some(o) => o,
                                            None => png,
                                        },
                                        None,
                                    ),
                                ),
                            ),
                        }
                    } else {
                        match spec_jpeg(data, nw, nh) {
                            Err(m) => Err(m),
                            Ok(None) => Ok(None),
                            Ok(Some(j)) => Ok(Some((j, Some("jpg"@)))),
                        }
                    },
                }
            } else {
                match spec_jpeg(data, nw, nh) {
                    Err(m) => Err(m),
                    Ok(None) => Ok(None),
                    Ok(Some(j)) => Ok(Some((j, None))),
                }
            }
        },
    }
}

/// A shrink result as plain values.
pub open spec fn shrink_view(r: Result<Option<(Vec<u8>, Option<String>)>, String>) -> Result<
    Option<(Seq<u8>, Option<Seq<char>>)>,
    Seq<char>,
> {
    match r {
        Ok(Some((b, e))) => Ok(
            Some(
                (
                    b@,
                    match e {
                        Some(s) => Some(s@),
                        None => None,
                    },
                ),
            ),
        ),
        Ok(None) => Ok(None),
        Err(m) => Err(m@),
    }
}

fn too_large_msg() -> (m: String)
    ensures
        m@ == too_large(),
{
    string_of(&chars_of("image too large"))
}

fn reencode_jpeg(data: &[u8], w: u32, h: u32) -> (r: Result<Option<Vec<u8>>, String>)
    requires
        pixels_fit(w, h),
    ensures
        match r {
            Ok(Some(j)) => spec_jpeg(data@, w, h) == Ok::<Option<Seq<u8>>, Seq<char>>(Some(j@)),
            Ok(None) => spec_jpeg(data@, w, h) == Ok::<Option<Seq<u8>>, Seq<char>>(None),
            Err(m) => spec_jpeg(data@, w, h) == Err::<Option<Seq<u8>>, Seq<char>>(m@),
        },
{
    let rgb = match image_rgb(data, w, h) {
        None => return Ok(None),
        Some(v) => v,
    };
    if 0 < w && w <= JPEG_MAX_SIDE && 0 < h && h <= JPEG_MAX_SIDE {
        match encode_jpeg_rgb(&rgb, w, h, JPEG_QUALITY) {
            Ok(j) => Ok(Some(j)),
            Err(m) => Err(m),
        }
    } else {
        Err(too_large_msg())
    }
}

/// Resize and recompress one EPUB image (see `spec_shrink_image`).
pub fn shrink_image(data: &[u8], max_w: u32, is_png: bool, force_png: bool) -> (r: Result<
    Option<(Vec<u8>, Option<String>)>,
    String,
>)
    ensures
        shrink_view(r) == spec_shrink_image(data@, max_w, is_png, force_png),
{
    let (w, h) = match image_size(data) {
        None => return Ok(None),
        Some(wh) => wh,
    };
    let (nw, nh) = fit_width(w, h, max_w);
    assert(nw as int * nh as int <= 0xFFFF_FFFE_0000_0001) by (nonlinear_arith)
        requires
            nw <= 0xFFFF_FFFFu32,
            nh <= 0xFFFF_FFFFu32,
    ;
    let cells: u64 = nw as u64 * nh as u64;
    if cells > (usize::MAX as u64) / 4 {
        return Err(too_large_msg());
    }
    assert(pixels_fit(nw, nh));
    if is_png {
        let px = match image_rgba(data, nw, nh) {
            None => return Ok(None),
            Some(v) => v,
        };
        if has_alpha(&px) || force_png {
            match encode_png_quantized(&px, nw, nh) {
                Err(m) => Err(m),
                Ok(png) => {
                    let out = match optimize_png(&png) {
                        Some(o) => o,
                        None => png,
                    };
                    Ok(Some((out, None)))
                },
            }
        } else {
            match reencode_jpeg(data, nw, nh) {
                Err(m) => Err(m),
                Ok(None) => Ok(None),
                Ok(Some(j)) => Ok(Some((j, Some(string_of(&chars_of("jpg")))))),
            }
        }
    } else {
        match reencode_jpeg(data, nw, nh) {
            Err(m) => Err(m),
            Ok(None) => Ok(None),
            Ok(Some(j)) => Ok(Some((j, None))),
        }
    }
}

// ---------------------------------------------------------------------------
// Grayscale
// ---------------------------------------------------------------------------

/// JPEG quality of grayscale print images.
pub const GRAY_JPEG_QUALITY: u8 = 92;

/// An image in grayscale, in the container it came in: a PNG keeps its alpha
/// channel, a JPEG is re-encoded; anything else (or a failure) gives `None`,
/// so the caller keeps the original bytes.
pub open spec fn spec_to_grayscale(data: Seq<u8>) -> Option<Seq<u8>> {
    let f = guessed_format(data);
    if f == 1 {
        gray_png_bytes(data)
    } else if f == 2 {
        gray_jpeg_bytes(data, GRAY_JPEG_QUALITY)
    } else {
        None
    }
}

/// Convert image bytes to grayscale, in the same container format.
pub fn to_grayscale(data: &[u8]) -> (r: Option<Vec<u8>>)
    ensures
        opt_bytes(r) == spec_to_grayscale(data@),
{
    let f = image_format(data);
    if f == 1 {
        gray_png(data)
    } else if f == 2 {
        gray_jpeg(data, GRAY_JPEG_QUALITY)
    } else {
        None
    }
}


// ---------------------------------------------------------------------------
// The eBook cover as a JPEG
// ---------------------------------------------------------------------------

/// The RGB JPEG the `image` crate's encoder writes for decoded bytes at a
/// quality (alpha dropped), or why it could not.
pub uninterp spec fn rgb_jpeg_bytes(data: Seq<u8>, quality: u8) -> Result<Seq<u8>, Seq<char>>;

/// `image::load_from_memory`, `to_rgb8`, encoded by `JpegEncoder` at a
/// quality. Claimed: the result is the crate's answer for these arguments.
#[verifier::external_body]
pub(crate) fn rgb_jpeg(data: &[u8], quality: u8) -> (r: Result<Vec<u8>, String>)
    ensures
        res_bytes(r) == rgb_jpeg_bytes(data@, quality),
{
    let rgb = image::load_from_memory(data).map_err(|e| e.to_string())?.to_rgb8();
    let mut out = Vec::new();
    image::codecs::jpeg::JpegEncoder::new_with_quality(&mut out, quality).encode_image(&rgb).map_err(|e| e.to_string())?;
    Ok(out)
}

/// JPEG quality of the eBook cover shipped beside an EPUB.
pub const COVER_JPEG_QUALITY: u8 = 90;

/// The eBook front cover (PNG bytes) as a JPEG for stores that want one: the
/// front cover is full-bleed and opaque, so its alpha is dropped.
pub fn cover_jpg(png: &[u8]) -> (r: Result<Vec<u8>, String>)
    ensures
        res_bytes(r) == rgb_jpeg_bytes(png@, COVER_JPEG_QUALITY),
{
    rgb_jpeg(png, COVER_JPEG_QUALITY)
}
} // verus!
