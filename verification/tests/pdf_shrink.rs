use bookmill::pdf_shrink::{gs_args, scratch_name, shrink_outcome};

#[test]
fn ghostscript_command_line() {
    let a = gs_args(150, "/o/.x.pdf.gsshrink.pdf");
    assert_eq!(a.len(), 19);
    assert_eq!(a[0], "-sDEVICE=pdfwrite");
    assert_eq!(a[9], "-dColorImageResolution=150");
    assert_eq!(a[12], "-dGrayImageResolution=150");
    assert_eq!(a[15], "-dMonoImageResolution=300");
    assert_eq!(a[18], "-sOutputFile=/o/.x.pdf.gsshrink.pdf");
    assert_eq!(gs_args(600, "f")[15], "-dMonoImageResolution=600");
    assert_eq!(scratch_name(Some("book.pdf")), ".book.pdf.gsshrink.pdf");
    assert_eq!(scratch_name(None), ".out.gsshrink.pdf");
}

#[test]
fn output_replaces_only_when_smaller() {
    assert_eq!(shrink_outcome("b.pdf", 1000, 0).unwrap_err(), "ghostscript produced an empty file for b.pdf");
    assert_eq!(shrink_outcome("b.pdf", 1000, 400).unwrap(), (true, 1000, 400));
    assert_eq!(shrink_outcome("b.pdf", 1000, 1000).unwrap(), (false, 1000, 1000));
    assert_eq!(shrink_outcome("b.pdf", 1000, 1200).unwrap(), (false, 1000, 1000));
}
