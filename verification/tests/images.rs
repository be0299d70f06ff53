use karton::album_image::{encode_jpeg, resize_image_img, resize_image_path, scale_image, PixelKind, RawImage, Size};

fn png_of(img: &image::DynamicImage) -> Vec<u8> {
    let mut out = std::io::Cursor::new(Vec::new());
    img.write_to(&mut out, image::ImageFormat::Png).unwrap();
    out.into_inner()
}

fn sample_rgb() -> image::DynamicImage {
    image::DynamicImage::ImageRgb8(image::RgbImage::from_fn(4, 3, |x, y| {
        image::Rgb([(x * 60) as u8, (y * 80) as u8, 7])
    }))
}

fn expected_exact(src: &image::DynamicImage, w: u32, h: u32) -> image::DynamicImage {
    let mut dst = image::DynamicImage::new(w, h, src.color());
    fast_image_resize::Resizer::new()
        .resize(src, &mut dst, &fast_image_resize::ResizeOptions::new())
        .unwrap();
    dst
}

#[test]
fn scaled_to_exactly_the_box() {
    let src = sample_rgb();
    let png = png_of(&src);
    let out = resize_image_path("/srv/a/x.png", &png, Size(2, 2)).unwrap();
    assert_eq!((out.width, out.height, out.color), (2, 2, PixelKind::Rgb8));
    assert_eq!(out.pixels, expected_exact(&src, 2, 2).as_bytes().to_vec());
    let again = scale_image(&out, Size(5, 1)).unwrap();
    assert_eq!((again.width, again.height, again.color, again.pixels.len()), (5, 1, PixelKind::Rgb8, 15));
}

#[test]
fn sixteen_bit_images_keep_their_layout() {
    let src = image::DynamicImage::ImageRgb16(image::ImageBuffer::from_fn(4, 4, |x, y| {
        image::Rgb([(x * 9000) as u16, (y * 11000) as u16, 300])
    }));
    let png = png_of(&src);
    let out = resize_image_path("b.png", &png, Size(2, 3)).unwrap();
    assert_eq!((out.width, out.height, out.color), (2, 3, PixelKind::Rgb16));
    assert_eq!(out.pixels, expected_exact(&src, 2, 3).as_bytes().to_vec());
}

#[test]
fn format_is_told_by_the_extension() {
    let png = png_of(&sample_rgb());
    assert!(resize_image_path("x.jpg", &png, Size(2, 2)).is_none());
    assert!(resize_image_path("x", &png, Size(2, 2)).is_none());
    assert!(resize_image_path("x.png", b"not an image at all", Size(2, 2)).is_none());
}

#[test]
fn fitted_keeps_the_aspect_ratio() {
    let src = sample_rgb();
    let png = png_of(&src);
    let out = resize_image_img(&png, Size(2, 2)).unwrap();
    let expected = src.resize(2, 2, image::imageops::FilterType::Lanczos3);
    assert_eq!((out.width, out.height), (expected.width(), expected.height()));
    assert_eq!(out.pixels, expected.as_bytes().to_vec());
    assert_eq!(out.color, PixelKind::Rgb8);
    assert!(resize_image_img(b"garbage", Size(2, 2)).is_none());
}

#[test]
fn jpeg_encoding() {
    let img = RawImage { width: 2, height: 1, color: PixelKind::Rgb8, pixels: vec![255, 0, 0, 0, 0, 255] };
    let jpeg = encode_jpeg(&img).unwrap();
    assert_eq!(&jpeg[..2], &[0xFF, 0xD8]);
    let mut direct = std::io::Cursor::new(Vec::new());
    image::DynamicImage::ImageRgb8(image::RgbImage::from_raw(2, 1, vec![255, 0, 0, 0, 0, 255]).unwrap())
        .write_to(&mut direct, image::ImageFormat::Jpeg)
        .unwrap();
    assert_eq!(jpeg, direct.into_inner());
    let short = RawImage { width: 4, height: 4, color: PixelKind::Rgb8, pixels: vec![1, 2, 3] };
    assert!(encode_jpeg(&short).is_none());
}

#[test]
fn fitted_image_touches_the_box_on_one_side() {
    let png = png_of(&sample_rgb());
    let wide = resize_image_img(&png, Size(40, 6)).unwrap();
    assert_eq!((wide.width, wide.height), (8, 6));
    let tall = resize_image_img(&png, Size(2, 50)).unwrap();
    assert_eq!((tall.width, tall.height), (2, 2));
    assert_eq!(tall.pixels.len(), 2 * 2 * 3);
    let upscaled = resize_image_img(&png, Size(400, 300)).unwrap();
    assert_eq!((upscaled.width, upscaled.height), (400, 300));
}

#[test]
fn decoded_images_always_scale() {
    let png = png_of(&sample_rgb());
    let flat = resize_image_path("x.png", &png, Size(0, 3)).unwrap();
    assert_eq!((flat.width, flat.height, flat.pixels.len()), (0, 3, 0));
    let same = resize_image_path("x.png", &png, Size(4, 3)).unwrap();
    assert_eq!(same.pixels, sample_rgb().as_bytes().to_vec());
}

#[test]
fn jpeg_needs_a_size_the_format_can_hold() {
    let empty = RawImage { width: 0, height: 0, color: PixelKind::Rgb8, pixels: vec![] };
    assert!(encode_jpeg(&empty).is_none());
    let grey = RawImage { width: 1, height: 1, color: PixelKind::La8, pixels: vec![200, 255] };
    let jpeg = encode_jpeg(&grey).unwrap();
    assert_eq!(&jpeg[..2], &[0xFF, 0xD8]);
    let long = RawImage { width: 2, height: 1, color: PixelKind::L8, pixels: vec![1, 2, 3] };
    assert!(encode_jpeg(&long).is_none());
}
