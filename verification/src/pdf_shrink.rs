//! Image downsampling of a digital PDF through Ghostscript: the command line it
//! runs, the scratch file it writes, and when its output replaces the PDF.
use vstd::prelude::*;
use crate::text::{chars_of, dec, dec_chars, push_slice, push_str, string_of};
use crate::typst::svs;

verus! {

/// Mono (1-bit) art is never downsampled below this resolution.
pub const MONO_MIN_DPI: u32 = 300;

/// `-dName=<dpi>`.
pub open spec fn dpi_flag(name: Seq<char>, dpi: nat) -> Seq<char> {
    name + dec(dpi)
}

/// Ghostscript's arguments (before the input PDF): PDF 1.5 output, quiet and
/// safe, duplicate images merged, colour and grey images bicubic-downsampled
/// to `dpi`, mono images subsampled to at least 300 dpi, fonts compressed and
/// subset, written to `out_file`.
pub open spec fn spec_gs_args(dpi: u32, out_file: Seq<char>) -> Seq<Seq<char>> {
    let mono = if dpi > 300 {
        dpi
    } else {
        300
    };
    seq![
        "-sDEVICE=pdfwrite"@,
        "-dCompatibilityLevel=1.5"@,
        "-dNOPAUSE"@,
        "-dBATCH"@,
        "-dQUIET"@,
        "-dSAFER"@,
        "-dDetectDuplicateImages=true"@,
        "-dDownsampleColorImages=true"@,
        "-dColorImageDownsampleType=/Bicubic"@,
        dpi_flag("-dColorImageResolution="@, dpi as nat),
        "-dDownsampleGrayImages=true"@,
        "-dGrayImageDownsampleType=/Bicubic"@,
        dpi_flag("-dGrayImageResolution="@, dpi as nat),
        "-dDownsampleMonoImages=true"@,
        "-dMonoImageDownsampleType=/Subsample"@,
        dpi_flag("-dMonoImageResolution="@, mono as nat),
        "-dCompressFonts=true"@,
        "-dSubsetFonts=true"@,
        "-sOutputFile="@ + out_file,
    ]
}

fn push_arg(v: &mut Vec<String>, a: &str)
    ensures
        svs(final(v)@) == svs(old(v)@).push(a@),
{
    let ghost b = svs(v@);
    v.push(string_of(&chars_of(a)));
    assert(svs(v@) =~= b.push(a@));
}

fn push_dpi(v: &mut Vec<String>, name: &str, dpi: u32)
    ensures
        svs(final(v)@) == svs(old(v)@).push(dpi_flag(name@, dpi as nat)),
{
    let mut m = chars_of(name);
    push_slice(&mut m, &dec_chars(dpi as usize));
    let s = string_of(&m);
    let ghost b = svs(v@);
    v.push(s);
    assert(svs(v@) =~= b.push(dpi_flag(name@, dpi as nat)));
}

/// Ghostscript's arguments for downsampling to `dpi` into `out_file`.
pub fn gs_args(dpi: u32, out_file: &str) -> (r: Vec<String>)
    ensures
        svs(r@) == spec_gs_args(dpi, out_file@),
{
    let mono = if dpi > MONO_MIN_DPI {
        dpi
    } else {
        MONO_MIN_DPI
    };
    let mut v: Vec<String> = Vec::new();
    push_arg(&mut v, "-sDEVICE=pdfwrite");
    push_arg(&mut v, "-dCompatibilityLevel=1.5");
    push_arg(&mut v, "-dNOPAUSE");
    push_arg(&mut v, "-dBATCH");
    push_arg(&mut v, "-dQUIET");
    push_arg(&mut v, "-dSAFER");
    push_arg(&mut v, "-dDetectDuplicateImages=true");
    push_arg(&mut v, "-dDownsampleColorImages=true");
    push_arg(&mut v, "-dColorImageDownsampleType=/Bicubic");
    push_dpi(&mut v, "-dColorImageResolution=", dpi);
    push_arg(&mut v, "-dDownsampleGrayImages=true");
    push_arg(&mut v, "-dGrayImageDownsampleType=/Bicubic");
    push_dpi(&mut v, "-dGrayImageResolution=", dpi);
    push_arg(&mut v, "-dDownsampleMonoImages=true");
    push_arg(&mut v, "-dMonoImageDownsampleType=/Subsample");
    push_dpi(&mut v, "-dMonoImageResolution=", mono);
    push_arg(&mut v, "-dCompressFonts=true");
    push_arg(&mut v, "-dSubsetFonts=true");
    let mut o = chars_of("-sOutputFile=");
    crate::text::push_str(&mut o, out_file);
    let os = string_of(&o);
    let ghost b = svs(v@);
    v.push(os);
    assert(svs(v@) =~= b.push("-sOutputFile="@ + out_file@));
    assert(svs(v@) =~= spec_gs_args(dpi, out_file@));
    v
}

/// The scratch file Ghostscript writes beside the PDF: `.<name>.gsshrink.pdf`
/// (`out` when the PDF's file name is unknown).
pub fn scratch_name(file_name: Option<&str>) -> (r: String)
    ensures
        r@ == "."@ + (match file_name {
            Some(n) => n@,
            None => "out"@,
        }) + ".gsshrink.pdf"@,
{
    let mut m: Vec<char> = Vec::new();
    push_str(&mut m, ".");
    match file_name {
        Some(n) => push_str(&mut m, n),
        None => push_str(&mut m, "out"),
    }
    push_str(&mut m, ".gsshrink.pdf");
    string_of(&m)
}

/// What to do with Ghostscript's output of `after` bytes for a PDF of `before`
/// bytes: an empty output is an error; a smaller one replaces the PDF
/// (`true`, with both sizes); otherwise the original is kept (`false`, and its
/// size twice).
pub fn shrink_outcome(pdf: &str, before: u64, after: u64) -> (r: Result<(bool, u64, u64), String>)
    ensures
        after == 0 ==> r is Err && r->Err_0@ == "ghostscript produced an empty file for "@ + pdf@,
        0 < after < before ==> r == Ok::<(bool, u64, u64), String>((true, before, after)),
        after > 0 && after >= before ==> r == Ok::<(bool, u64, u64), String>((false, before, before)),
        r matches Ok(t) ==> t.2 <= t.1,
{
    if after == 0 {
        let mut m: Vec<char> = Vec::new();
        push_str(&mut m, "ghostscript produced an empty file for ");
        push_str(&mut m, pdf);
        return Err(string_of(&m));
    }
    if after < before {
        Ok((true, before, after))
    } else {
        Ok((false, before, before))
    }
}

} // verus!
