use vstd::prelude::*;

pub mod a11y;
pub mod audiobook;
pub mod barcode;
pub mod book_docs;
pub mod plan;
pub mod summary;
pub mod config;
pub mod cover_svg;
pub mod create;
pub mod deep;
pub mod epub;
pub mod epub_shrink;
pub mod hooks;
pub mod interior;
pub mod images;
pub mod kdp;
pub mod lint;
pub mod markup;
pub mod pages;
pub mod paths;
pub mod pdf_shrink;
pub mod pdfmeta;
pub mod text;
pub mod tui;
pub mod typst;
pub mod web;
pub mod zipfile;

verus! {

} // verus!
