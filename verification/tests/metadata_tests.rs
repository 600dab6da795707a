//! Height ranges and geometric errors.

use open_tiles::fetch::{Closest, Origin};
use open_tiles::metadata::{
    child_error, compute, max_abs_diff, surface_from, window_min_max, Children,
};
use open_tiles::terrain::{Height, HeightField, TILE_TEXELS};
use open_tiles::{Error, TileId};
use std::io::Cursor;

const UNIT: f64 = 256.0;

/// `height = x + 0.5·y` in texel units, offset by `(ox, oy)` texels.
fn ramp(ox: f64, oy: f64) -> Vec<i32> {
    let n = TILE_TEXELS;
    (0..n * n)
        .map(|i| (((i % n) as f64 + ox + 0.5 * ((i / n) as f64 + oy)) * UNIT) as i32)
        .collect()
}

fn metres(h: i32) -> f32 {
    h as f32 / 256.0
}

fn error_m(h: Height) -> f64 {
    h.num as f64 / (h.den as f64 * UNIT)
}

/// Encode heights (metres) as a 256×256 Terrarium PNG.
fn terrarium_png(heights: impl Fn(u32, u32) -> f64) -> Vec<u8> {
    let img = image::RgbImage::from_fn(256, 256, |x, y| {
        let fixed = ((heights(x, y) + 32768.0) * 256.0).round() as u32;
        image::Rgb([
            (fixed >> 16) as u8,
            ((fixed >> 8) & 0xFF) as u8,
            (fixed & 0xFF) as u8,
        ])
    });
    let mut out = Vec::new();
    img.write_to(&mut Cursor::new(&mut out), image::ImageFormat::Png)
        .unwrap();
    out
}

fn found(source: TileId, bytes: Vec<u8>) -> Closest {
    Closest {
        bytes,
        source,
        origin: Origin::Cache,
    }
}

#[test]
fn window_min_max_covers_whole_and_quadrants() {
    let h = ramp(0.0, 0.0);
    let n = (TILE_TEXELS - 1) as f32;
    let range = |dz, qx, qy| {
        let (lo, hi) = window_min_max(&h, dz, qx, qy);
        (metres(lo), metres(hi))
    };
    assert_eq!(range(0, 0, 0), (0.0, n * 1.5));
    // NW quadrant: rows/cols 0..128
    let (lo, hi) = range(1, 0, 0);
    assert_eq!(lo, 0.0);
    assert_eq!(hi, 127.0 * 1.5);
    // SE quadrant: rows/cols 128..256
    let (lo, hi) = range(1, 1, 1);
    assert_eq!(lo, 128.0 * 1.5);
    assert_eq!(hi, n * 1.5);
    // deep window: never empty, stays within the image
    let (lo, hi) = range(10, 1023, 0);
    assert!(lo <= hi && hi <= n * 1.5);
    assert_eq!((lo, hi), (255.0, 255.0));
}

/// A child that is the parent's surface plus a constant must measure
/// exactly that constant (bilinear interpolation of a linear ramp is
/// exact away from the clamped edge band).
#[test]
fn constant_offset_child_measures_the_offset() {
    let parent = HeightField::unpadded(&ramp(0.0, 0.0));
    // NW child at zoom+1: its texel (i, j) sits at parent texel
    // coordinates ((i + 0.5) / 2 − 0.5, …) — the same ramp evaluated
    // there, plus 10.
    let child_heights: Vec<i32> = {
        let n = TILE_TEXELS;
        (0..n * n)
            .map(|k| {
                let (i, j) = ((k % n) as f64, (k / n) as f64);
                let (px, py) = ((i + 0.5) / 2.0 - 0.5, (j + 0.5) / 2.0 - 0.5);
                ((px + 0.5 * py + 10.0) * UNIT) as i32
            })
            .collect()
    };
    let child = HeightField::unpadded(&child_heights);
    let err = error_m(max_abs_diff(&parent.windowed(1, 0, 0), &child));
    assert!((err - 10.0).abs() < 1e-3, "err {err}");
}

#[test]
fn identical_surfaces_measure_zero() {
    let parent = HeightField::unpadded(&ramp(0.0, 0.0));
    let same = parent.windowed(1, 1, 0);
    assert_eq!(max_abs_diff(&parent.windowed(1, 1, 0), &same).num, 0);
}

#[test]
fn distances_are_exact_and_symmetric() {
    let a = HeightField::unpadded(&vec![0; 65536]);
    let mut bump = vec![0; 65536];
    bump[256 * 7 + 9] = 77;
    let b = HeightField::unpadded(&bump);
    let d = max_abs_diff(&a, &b);
    assert_eq!(d.num, 77 * d.den);
    assert_eq!(max_abs_diff(&b, &a), d);
    // through a window one zoom deeper the bump is seen at 3/4 · 3/4
    let w = max_abs_diff(&a, &b.windowed(1, 0, 0));
    assert_eq!(w.num * 16, 77 * 9 * w.den);
}

#[test]
fn metadata_of_a_tile_and_its_children() {
    let tile = TileId::new(10, 500, 400).unwrap();
    let own = terrarium_png(|x, y| 384.0 + f64::from(x) + 0.5 * f64::from(y));
    let surface = surface_from(tile, &found(tile, own)).unwrap();
    assert_eq!((metres(surface.min_height), metres(surface.max_height)), (384.0, 766.5));
    let child = |dx: u32, dy: u32| {
        let png = terrarium_png(move |i, j| {
            let px = (f64::from(dx * 256 + i) + 0.5) / 2.0 - 0.5;
            let py = (f64::from(dy * 256 + j) + 0.5) / 2.0 - 0.5;
            384.0 + px + 0.5 * py + 10.0
        });
        let source = TileId::new(11, 1000 + dx, 800 + dy).unwrap();
        child_error(&surface, dx, dy, Ok(found(source, png)))
    };
    let children = Children {
        nw: child(0, 0),
        ne: child(1, 0),
        sw: child(0, 1),
        se: child(1, 1),
    };
    let m = compute(&surface, Some(children)).unwrap();
    assert_eq!(m.tile, tile);
    assert_eq!((metres(m.min_height), metres(m.max_height)), (384.0, 766.5));
    let err = error_m(m.geometric_error);
    assert!((err - 10.0).abs() < 0.5, "{err}");
}

#[test]
fn children_without_finer_data_add_nothing() {
    let tile = TileId::new(15, 7, 9).unwrap();
    let own = terrarium_png(|x, _| f64::from(x));
    let surface = surface_from(tile, &found(tile, own.clone())).unwrap();
    let missing = || Err(Error::NotFound { url: "u".into() });
    let children = Children {
        nw: child_error(&surface, 0, 0, missing()),
        ne: child_error(&surface, 1, 0, missing()),
        // resolved to the very tile: no extra detail
        sw: child_error(&surface, 0, 1, Ok(found(tile, own))),
        se: child_error(&surface, 1, 1, missing()),
    };
    let m = compute(&surface, Some(children)).unwrap();
    assert_eq!(m.geometric_error.num, 0);
}

#[test]
fn failures_of_a_child_fail_the_computation() {
    let tile = TileId::new(9, 7, 9).unwrap();
    let own = terrarium_png(|_, _| 1.0);
    let surface = surface_from(tile, &found(tile, own)).unwrap();
    let zero = || child_error(&surface, 0, 0, Err(Error::NotFound { url: "u".into() }));
    let down = child_error(
        &surface,
        1,
        0,
        Err(Error::Fetch {
            url: "u".into(),
            reason: "timeout".into(),
        }),
    );
    let garbled = child_error(
        &surface,
        0,
        1,
        Ok(found(TileId::new(10, 14, 19).unwrap(), b"junk".to_vec())),
    );
    assert!(matches!(garbled, Err(Error::Decode { .. })));
    let children = Children {
        nw: zero(),
        ne: down,
        sw: garbled,
        se: zero(),
    };
    assert!(matches!(
        compute(&surface, Some(children)),
        Err(Error::Fetch { .. })
    ));
    assert!(matches!(
        surface_from(tile, &found(tile, b"junk".to_vec())),
        Err(Error::Decode { .. })
    ));
}

#[test]
fn the_deepest_zoom_has_no_children() {
    let tile = TileId::new(22, 5, 6).unwrap();
    let source = tile.ancestor(15).0;
    let own = terrarium_png(|x, y| f64::from(x) * 3.0 + f64::from(y));
    let surface = surface_from(tile, &found(source, own)).unwrap();
    let m = compute(&surface, None).unwrap();
    assert_eq!(m.geometric_error, Height { num: 0, den: 1 });
    // a window of two texels, the first two of the source
    assert_eq!((metres(m.min_height), metres(m.max_height)), (30.0 + 12.0, 33.0 + 13.0));
}
