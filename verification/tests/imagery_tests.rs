//! Imagery: pass-through, re-encode, crop-and-upscale.

use image::{ImageEncoder, ImageFormat, RgbImage};
use open_tiles::imagery::{derive_from_ancestor, to_jpeg, window_rect, Rect};
use open_tiles::Error;
use std::io::Cursor;

fn png(img: &RgbImage) -> Vec<u8> {
    let mut out = Vec::new();
    image::codecs::png::PngEncoder::new(Cursor::new(&mut out))
        .write_image(
            img.as_raw(),
            img.width(),
            img.height(),
            image::ExtendedColorType::Rgb8,
        )
        .unwrap();
    out
}

fn jpeg(img: &RgbImage, quality: u8) -> Vec<u8> {
    let mut out = Vec::new();
    image::codecs::jpeg::JpegEncoder::new_with_quality(Cursor::new(&mut out), quality)
        .encode_image(img)
        .unwrap();
    out
}

#[test]
fn jpeg_passes_through_png_is_reencoded() {
    let img = RgbImage::from_fn(256, 256, |x, _| image::Rgb([x as u8, 0, 0]));
    let jpeg = jpeg(&img, 80);
    assert_eq!(to_jpeg(&jpeg, 90, "t").unwrap(), jpeg);
    let from_png = to_jpeg(&png(&img), 90, "t").unwrap();
    assert_eq!(image::guess_format(&from_png).unwrap(), ImageFormat::Jpeg);
}

#[test]
fn reencoding_goes_by_the_quality() {
    let img = RgbImage::from_fn(256, 256, |x, y| image::Rgb([x as u8, y as u8, 9]));
    assert_eq!(to_jpeg(&png(&img), 90, "t").unwrap(), jpeg(&img, 90));
    assert_eq!(to_jpeg(&png(&img), 30, "t").unwrap(), jpeg(&img, 30));
}

#[test]
fn crop_of_a_checker_is_solid() {
    // 2×2 quadrants: NW red, NE green, SW blue, SE white
    let img = RgbImage::from_fn(256, 256, |x, y| match (x < 128, y < 128) {
        (true, true) => image::Rgb([255, 0, 0]),
        (false, true) => image::Rgb([0, 255, 0]),
        (true, false) => image::Rgb([0, 0, 255]),
        (false, false) => image::Rgb([255, 255, 255]),
    });
    let bytes = png(&img);
    let expect = |qx, qy, rgb: [u8; 3]| {
        let out = derive_from_ancestor(&bytes, 1, qx, qy, 95, "t").unwrap();
        let dec = image::load_from_memory(&out).unwrap().to_rgb8();
        assert_eq!(dec.dimensions(), (256, 256));
        let p = dec.get_pixel(128, 128).0;
        for c in 0..3 {
            assert!(
                (i32::from(p[c]) - i32::from(rgb[c])).abs() < 8,
                "q({qx},{qy}) {p:?} vs {rgb:?}"
            );
        }
    };
    expect(0, 0, [255, 0, 0]);
    expect(1, 0, [0, 255, 0]);
    expect(0, 1, [0, 0, 255]);
    expect(1, 1, [255, 255, 255]);
    // dz=0 is a plain pass-through/re-encode
    let same = derive_from_ancestor(&bytes, 0, 0, 0, 90, "t").unwrap();
    assert_eq!(image::guess_format(&same).unwrap(), ImageFormat::Jpeg);
}

#[test]
fn deep_windows_still_produce_a_texture() {
    let img = RgbImage::from_fn(256, 256, |x, y| image::Rgb([x as u8, y as u8, 7]));
    let out = derive_from_ancestor(&png(&img), 8, 255, 3, 90, "t").unwrap(); // 1-texel window
    let dec = image::load_from_memory(&out).unwrap().to_rgb8();
    assert_eq!(dec.dimensions(), (256, 256));
    assert!(derive_from_ancestor(&png(&img), 9, 0, 0, 90, "t").is_err()); // 512 > 256
}

#[test]
fn too_small_ancestors_say_so() {
    let img = RgbImage::new(3, 8);
    let e = derive_from_ancestor(&png(&img), 2, 0, 0, 90, "imagery 5/1/1").unwrap_err();
    assert!(matches!(e, Error::Decode { .. }));
    assert_eq!(
        e.to_string(),
        "decode imagery 5/1/1: ancestor 3×8 too small to split into 4×4 children"
    );
}

#[test]
fn unknown_bytes_are_decode_errors() {
    for dz in [0, 1] {
        match derive_from_ancestor(b"who knows", dz, 0, 0, 90, "w") {
            Err(Error::Decode { what, reason }) => {
                assert_eq!(what, "w");
                assert_eq!(
                    reason,
                    image::guess_format(b"who knows").unwrap_err().to_string()
                );
            }
            _ => panic!("expected a decode error"),
        }
    }
    // a known signature over a broken stream
    let broken = b"\x89PNG\r\n\x1a\nnothing".to_vec();
    assert!(matches!(
        to_jpeg(&broken, 90, "w"),
        Err(Error::Decode { .. })
    ));
    // a JPEG signature is enough to pass through untouched
    let stub = vec![0xff, 0xd8, 0xff, 0x00];
    assert_eq!(to_jpeg(&stub, 90, "w").unwrap(), stub);
}

#[test]
fn images_too_wide_for_jpeg_fail_to_encode() {
    let img = RgbImage::new(65536, 1);
    match to_jpeg(&png(&img), 90, "w") {
        Err(Error::Decode { what, .. }) => assert_eq!(what, "w (jpeg encode)"),
        _ => panic!("expected an encode error"),
    }
}

#[test]
fn windows_of_an_image_are_equal_parts() {
    assert_eq!(
        window_rect(256, 256, 2, 3, 1),
        Some(Rect {
            x: 192,
            y: 64,
            width: 64,
            height: 64
        })
    );
    // what is left over at the far edge belongs to no part
    assert_eq!(
        window_rect(10, 7, 1, 1, 1),
        Some(Rect {
            x: 5,
            y: 3,
            width: 5,
            height: 3
        })
    );
    assert_eq!(window_rect(1, 4, 1, 0, 0), None);
}
