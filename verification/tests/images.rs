use bookmill::images::{encode_png_quantized, shrink_image, to_grayscale};
use std::io::Cursor;

fn png_of(img: image::DynamicImage) -> Vec<u8> {
    let mut out = Vec::new();
    img.write_to(&mut Cursor::new(&mut out), image::ImageFormat::Png).unwrap();
    out
}

fn jpeg_of(img: image::DynamicImage) -> Vec<u8> {
    let mut out = Vec::new();
    img.write_to(&mut Cursor::new(&mut out), image::ImageFormat::Jpeg).unwrap();
    out
}

fn gradient(w: u32, h: u32, alpha: bool) -> image::DynamicImage {
    let mut img = image::RgbaImage::new(w, h);
    for (x, y, p) in img.enumerate_pixels_mut() {
        let a = if alpha && x < w / 2 { 100 } else { 255 };
        *p = image::Rgba([(x % 256) as u8, (y % 256) as u8, ((x + y) % 256) as u8, a]);
    }
    image::DynamicImage::ImageRgba8(img)
}

#[test]
fn grayscale_keeps_png_format_removes_color_preserves_alpha() {
    let mut img = image::RgbaImage::new(2, 1);
    img.put_pixel(0, 0, image::Rgba([200, 10, 10, 255]));
    img.put_pixel(1, 0, image::Rgba([10, 200, 10, 128]));
    let png = png_of(image::DynamicImage::ImageRgba8(img));

    let gray = to_grayscale(&png).expect("grayscale png");
    assert_eq!(image::guess_format(&gray).unwrap(), image::ImageFormat::Png);
    let out = image::load_from_memory(&gray).unwrap().to_rgba8();
    for p in out.pixels() {
        assert_eq!(p.0[0], p.0[1]);
        assert_eq!(p.0[1], p.0[2]);
    }
    assert_eq!(out.get_pixel(1, 0).0[3], 128);
}

#[test]
fn grayscale_keeps_jpeg_format() {
    let img = image::RgbImage::from_pixel(2, 2, image::Rgb([200, 10, 10]));
    let jpg = jpeg_of(image::DynamicImage::ImageRgb8(img));
    let gray = to_grayscale(&jpg).expect("grayscale jpeg");
    assert_eq!(image::guess_format(&gray).unwrap(), image::ImageFormat::Jpeg);
}

#[test]
fn grayscale_leaves_other_bytes_alone() {
    assert_eq!(to_grayscale(b"not an image at all"), None);
}

#[test]
fn opaque_png_becomes_a_narrower_jpeg() {
    let png = png_of(gradient(300, 100, false));
    let (bytes, ext) = shrink_image(&png, 150, true, false).unwrap().expect("re-encoded");
    assert_eq!(ext.as_deref(), Some("jpg"));
    assert_eq!(image::guess_format(&bytes).unwrap(), image::ImageFormat::Jpeg);
    let out = image::load_from_memory(&bytes).unwrap();
    assert_eq!((out.width(), out.height()), (150, 50));
}

#[test]
fn transparent_png_stays_a_png_with_its_size() {
    let png = png_of(gradient(80, 40, true));
    let (bytes, ext) = shrink_image(&png, 1200, true, false).unwrap().expect("re-encoded");
    assert_eq!(ext, None);
    assert_eq!(image::guess_format(&bytes).unwrap(), image::ImageFormat::Png);
    let out = image::load_from_memory(&bytes).unwrap().to_rgba8();
    assert_eq!(out.dimensions(), (80, 40));
    assert!(out.pixels().any(|p| p.0[3] != 255));
}

#[test]
fn the_cover_stays_a_png_even_when_opaque() {
    let png = png_of(gradient(120, 60, false));
    let (bytes, ext) = shrink_image(&png, 60, true, true).unwrap().expect("re-encoded");
    assert_eq!(ext, None);
    assert_eq!(image::guess_format(&bytes).unwrap(), image::ImageFormat::Png);
    let out = image::load_from_memory(&bytes).unwrap();
    assert_eq!((out.width(), out.height()), (60, 30));
}

#[test]
fn jpeg_is_reencoded_and_keeps_its_name() {
    let jpg = jpeg_of(image::DynamicImage::ImageRgb8(gradient(64, 64, false).to_rgb8()));
    let (bytes, ext) = shrink_image(&jpg, 32, false, false).unwrap().expect("re-encoded");
    assert_eq!(ext, None);
    assert_eq!(image::guess_format(&bytes).unwrap(), image::ImageFormat::Jpeg);
    let out = image::load_from_memory(&bytes).unwrap();
    assert_eq!((out.width(), out.height()), (32, 32));
}

#[test]
fn undecodable_image_is_kept() {
    assert!(matches!(shrink_image(b"\x89PNG broken", 100, true, false), Ok(None)));
}

#[test]
fn palette_png_has_the_pixels_size_and_a_palette() {
    let rgba = gradient(16, 8, false).to_rgba8().into_raw();
    let png = encode_png_quantized(&rgba, 16, 8).unwrap();
    let dec = png::Decoder::new(Cursor::new(&png));
    let reader = dec.read_info().unwrap();
    let info = reader.info();
    assert_eq!((info.width, info.height), (16, 8));
    assert_eq!(info.color_type, png::ColorType::Indexed);
    assert_eq!(info.palette.as_ref().map(|p| p.len()), Some(768));
    assert!(info.trns.is_none());
}

#[test]
fn palette_png_keeps_an_alpha_table_for_transparency() {
    let rgba = gradient(16, 8, true).to_rgba8().into_raw();
    let png = encode_png_quantized(&rgba, 16, 8).unwrap();
    let dec = png::Decoder::new(Cursor::new(&png));
    let reader = dec.read_info().unwrap();
    let trns = reader.info().trns.clone().expect("alpha table");
    assert!(!trns.is_empty());
    assert!(trns.iter().any(|a| *a != 255));
    let back = image::load_from_memory(&png).unwrap().to_rgba8();
    assert!(back.pixels().any(|p| p.0[3] < 255));
}

#[test]
fn cover_becomes_an_opaque_jpeg_of_the_same_size() {
    let png = png_of(gradient(30, 48, true));
    let jpg = bookmill::images::cover_jpg(&png).unwrap();
    assert_eq!(image::guess_format(&jpg).unwrap(), image::ImageFormat::Jpeg);
    let back = image::load_from_memory(&jpg).unwrap();
    assert_eq!((back.width(), back.height()), (30, 48));
    assert!(bookmill::images::cover_jpg(b"no image").is_err());
}
