//! Terrarium decoding, padding and sampling.

use open_tiles::codec::RgbPixels;
use open_tiles::terrain::{
    decode_heightmap_png, decode_terrarium, heights_from_image, Coord, Height, HeightField, Side,
    Window, TILE_AREA, TILE_TEXELS,
};
use open_tiles::Error;
use std::io::Cursor;

const UNIT: i32 = 256;

fn px(h: f64) -> [u8; 3] {
    let fixed = ((h + 32768.0) * 256.0).round() as u32;
    [
        (fixed >> 16) as u8,
        ((fixed >> 8) & 0xFF) as u8,
        (fixed & 0xFF) as u8,
    ]
}

fn metres(h: Height) -> f64 {
    h.num as f64 / (h.den as f64 * 256.0)
}

/// `k` 512ths of the tile, in texels.
fn at(k: i64) -> Coord {
    Coord { num: k, den: 2 }
}

fn png(img: &image::RgbImage) -> Vec<u8> {
    let mut out = Vec::new();
    img.write_to(&mut Cursor::new(&mut out), image::ImageFormat::Png)
        .unwrap();
    out
}

#[test]
fn decodes_known_heights() {
    let heights = [0.0, 8848.0, -415.0, 100.5, 255.99609375, 256.0];
    let img = RgbPixels {
        width: heights.len() as u32,
        height: 1,
        pixels: heights.iter().map(|h| px(*h)).collect(),
    };
    for (a, b) in heights.iter().zip(decode_terrarium(&img)) {
        assert!((*a as f32 - b as f32 / 256.0).abs() < 1e-3, "{a} vs {b}");
    }
    assert_eq!(
        decode_terrarium(&img),
        vec![0, 8848 * 256, -415 * 256, 25728, 65535, 65536]
    );
}

#[test]
fn heightmaps_are_decoded_from_png() {
    let img = image::RgbImage::from_fn(256, 256, |x, y| image::Rgb(px(x as f64 + y as f64 * 0.5)));
    let heights = decode_heightmap_png(&png(&img), "t").unwrap();
    assert_eq!(heights.len(), TILE_AREA);
    assert_eq!(heights[0], 0);
    assert_eq!(heights[5], 5 * UNIT);
    assert_eq!(heights[256 * 3 + 1], UNIT + 3 * UNIT / 2);
}

#[test]
fn heightmaps_of_another_size_are_rejected() {
    let img = image::RgbImage::new(128, 256);
    let e = decode_heightmap_png(&png(&img), "heightmap 1/0/0").unwrap_err();
    assert!(matches!(e, Error::Decode { .. }));
    assert_eq!(
        e.to_string(),
        "decode heightmap 1/0/0: expected 256×256, got 128×256"
    );
    let small = RgbPixels {
        width: 1,
        height: 1,
        pixels: vec![[0, 0, 0]],
    };
    assert_eq!(
        heights_from_image(&small, "w").unwrap_err().to_string(),
        "decode w: expected 256×256, got 1×1"
    );
}

#[test]
fn bytes_that_are_no_image_are_rejected() {
    match decode_heightmap_png(b"definitely not an image", "w") {
        Err(Error::Decode { what, reason }) => {
            assert_eq!(what, "w");
            assert!(!reason.is_empty());
        }
        _ => panic!("expected a decode error"),
    }
}

/// Two tiles side by side with a single ramp across both: the boundary
/// vertex must evaluate identically from either tile's padded field.
#[test]
fn shared_edge_is_identical_from_both_sides() {
    let n = TILE_TEXELS;
    let ramp = |x: usize| -> i32 { x as i32 * 2 * UNIT };
    let west: Vec<i32> = (0..n * n).map(|i| ramp(i % n)).collect();
    let east: Vec<i32> = (0..n * n).map(|i| ramp(n + i % n)).collect();
    let mut nb_w: [Option<Vec<i32>>; 8] = Default::default();
    nb_w[Side::E as usize] = Some(east.clone());
    let mut nb_e: [Option<Vec<i32>>; 8] = Default::default();
    nb_e[Side::W as usize] = Some(west.clone());
    let fw = HeightField::padded(&west, &nb_w);
    let fe = HeightField::padded(&east, &nb_e);
    for v in [0, 128, 256, 512] {
        let a = fw.sample(at(512), at(v)).height();
        let b = fe.sample(at(0), at(v)).height();
        assert_eq!(a, b, "v={v}");
        // and it's the true ramp value at the boundary (texel 255.5 → 511)
        assert_eq!(metres(a), 511.0);
    }
    // interior samples land on texel centres exactly
    assert_eq!(metres(fw.sample(at(1), at(256)).height()), 0.0);
    assert_eq!(metres(fw.sample(at(3), at(256)).height()), 2.0);
}

#[test]
fn missing_neighbour_clamps_to_own_edge() {
    let n = TILE_TEXELS;
    let tile: Vec<i32> = (0..n * n).map(|i| (i % n) as i32 * UNIT).collect();
    let f = HeightField::unpadded(&tile);
    assert_eq!(metres(f.sample(at(0), at(256)).height()), 0.0);
    assert_eq!(
        metres(f.sample(at(512), at(256)).height()),
        (n - 1) as f64
    );
    assert_eq!(f.min_max(), (0, (n as i32 - 1) * UNIT));
}

/// Every pad cell and where it is taken from.
#[test]
fn the_ring_comes_from_the_neighbours() {
    let n = TILE_TEXELS;
    // tile k holds k·100000 + y·256 + x
    let map = |k: i32| -> Vec<i32> {
        (0..n * n)
            .map(|i| k * 100_000 + i as i32)
            .collect::<Vec<i32>>()
    };
    let texel = |k: i32, x: i32, y: i32| k * 100_000 + y * 256 + x;
    let tile = map(9);
    let ring: [Option<Vec<i32>>; 8] = [0, 1, 2, 3, 4, 5, 6, 7].map(|k| Some(map(k)));
    let f = HeightField::padded(&tile, &ring);
    let p = |x: usize, y: usize| f.data[y * 258 + x];
    assert_eq!(p(1, 1), texel(9, 0, 0));
    assert_eq!(p(256, 256), texel(9, 255, 255));
    assert_eq!(p(0, 0), texel(0, 255, 255));
    assert_eq!(p(10, 0), texel(1, 9, 255));
    assert_eq!(p(257, 0), texel(2, 0, 255));
    assert_eq!(p(0, 10), texel(3, 255, 9));
    assert_eq!(p(257, 10), texel(4, 0, 9));
    assert_eq!(p(0, 257), texel(5, 255, 0));
    assert_eq!(p(10, 257), texel(6, 9, 0));
    assert_eq!(p(257, 257), texel(7, 0, 0));

    // corners without a diagonal: east/west first, then north/south
    let mut some: [Option<Vec<i32>>; 8] = Default::default();
    some[Side::W as usize] = Some(map(3));
    some[Side::N as usize] = Some(map(1));
    let f = HeightField::padded(&tile, &some);
    let p = |x: usize, y: usize| f.data[y * 258 + x];
    assert_eq!(p(0, 0), texel(3, 255, 0)); // W's corner
    assert_eq!(p(257, 0), texel(1, 255, 255)); // N's corner
    assert_eq!(p(0, 257), texel(3, 255, 255)); // W's corner
    assert_eq!(p(257, 257), texel(9, 255, 255)); // its own
    assert_eq!(p(257, 10), texel(9, 255, 9)); // no E: its own edge
}

/// North to south the edge is shared too, when the tiles beyond its ends are
/// there from both sides.
#[test]
fn stacked_tiles_share_their_edge() {
    let n = TILE_TEXELS;
    let map = |k: i32| -> Vec<i32> {
        (0..n * n)
            .map(|i| k * 7919 + ((i * 37) % 1000) as i32)
            .collect::<Vec<i32>>()
    };
    let (top, bottom) = (map(1), map(2));
    let mut ring_t: [Option<Vec<i32>>; 8] = Default::default();
    let mut ring_b: [Option<Vec<i32>>; 8] = Default::default();
    ring_t[Side::S as usize] = Some(bottom.clone());
    ring_t[Side::W as usize] = Some(map(3));
    ring_t[Side::SW as usize] = Some(map(4));
    ring_b[Side::N as usize] = Some(top.clone());
    ring_b[Side::NW as usize] = Some(map(3));
    ring_b[Side::W as usize] = Some(map(4));
    let ft = HeightField::padded(&top, &ring_t);
    let fb = HeightField::padded(&bottom, &ring_b);
    for u in 0..=512 {
        assert_eq!(
            ft.sample(at(u), at(512)).height(),
            fb.sample(at(u), at(0)).height(),
            "u={u}"
        );
    }
}

#[test]
fn windows_meet_and_compose() {
    let n = TILE_TEXELS;
    let tile: Vec<i32> = (0..n * n).map(|i| ((i * 31) % 5000) as i32).collect();
    let f = HeightField::unpadded(&tile);
    let (a, b) = (f.windowed(2, 1, 3), f.windowed(2, 2, 3));
    for v in [0, 17, 256, 511] {
        assert_eq!(a.sample(at(512), at(v)), b.sample(at(0), at(v)));
    }
    let once = f.windowed(3, 5, 6);
    let twice = f.windowed(1, 1, 1).windowed(2, 1, 2);
    assert_eq!(once.window, twice.window);
    assert_eq!(once.window, Window { dz: 3, qx: 5, qy: 6 });
    assert_eq!(once.sample(at(9), at(40)), twice.sample(at(9), at(40)));
    // a quarter of the tile in: the window's corner is the tile's own point
    let w = f.windowed(2, 1, 1);
    assert_eq!(
        metres(w.sample(at(0), at(0)).height()),
        metres(f.sample(at(128), at(128)).height())
    );
}

#[test]
fn samples_weigh_their_four_texels() {
    let mut tile = vec![0i32; TILE_AREA];
    tile[0] = 400;
    tile[1] = 800;
    tile[256] = 1200;
    tile[257] = 1600;
    let f = HeightField::unpadded(&tile);
    // the corner that the four share
    let s = f.sample(at(2), at(2));
    assert_eq!((s.nw, s.ne, s.sw, s.se), (400, 800, 1200, 1600));
    assert_eq!((s.x.index, s.y.index), (1, 1));
    let h = s.height();
    assert_eq!(h.num, 1000 * h.den);
    // three quarters of the way east
    let q = f.sample(Coord { num: 5, den: 4 }, at(1)).height();
    assert_eq!(q.num, 700 * q.den);
}
