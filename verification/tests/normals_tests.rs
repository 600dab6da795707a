//! Normal maps and height differences.

use open_tiles::codec::RgbPixels;
use open_tiles::normals::{from_heights, Direction, NormalMap, NormalSample};
use open_tiles::terrain::{Coord, HeightField, Sample, Side, Window, TILE_TEXELS};
use open_tiles::Error;

fn normalize(v: [f32; 3]) -> [f32; 3] {
    let len = (v[0] * v[0] + v[1] * v[1] + v[2] * v[2]).sqrt();
    [v[0] / len, v[1] / len, v[2] / len]
}

/// Encode one world-frame normal back into map RGB, the test-side
/// inverse of [`NormalMap::decode`].
fn rgb_of(n: [f32; 3]) -> [u8; 3] {
    let b = |v: f32| ((v + 1.0) / 2.0 * 255.0).round() as u8;
    [b(n[0]), b(-n[2]), b(n[1])]
}

fn png(img: &image::RgbImage) -> Vec<u8> {
    let mut bytes = Vec::new();
    img.write_to(
        &mut std::io::Cursor::new(&mut bytes),
        image::ImageFormat::Png,
    )
    .unwrap();
    bytes
}

fn map_of(px: [u8; 3], size: u32) -> NormalMap {
    let img = image::RgbImage::from_pixel(size, size, image::Rgb(px));
    NormalMap::decode(&png(&img), "test").unwrap()
}

/// `k` 512ths of the tile.
fn at(k: i64) -> Coord {
    Coord { num: k, den: 2 }
}

/// The interpolated unit normal of a sample.
fn unit(s: NormalSample) -> [f32; 3] {
    let (tx, ty) = (
        s.x.rem as f32 / s.x.den as f32,
        s.y.rem as f32 / s.y.den as f32,
    );
    let v = |d: Direction| normalize([d.x as f32, d.y as f32, d.z as f32]);
    let mut out = [0f32; 3];
    for (a, o) in out.iter_mut().enumerate() {
        let top = v(s.nw)[a] * (1.0 - tx) + v(s.ne)[a] * tx;
        let bot = v(s.sw)[a] * (1.0 - tx) + v(s.se)[a] * tx;
        *o = top * (1.0 - ty) + bot * ty;
    }
    normalize(out)
}

fn metres(s: Sample) -> f32 {
    let h = s.height();
    (h.num as f64 / (h.den as f64 * 256.0)) as f32
}

#[test]
fn decodes_flat_and_tilted() {
    // the flat default: RGB(128, 128, 255) ≈ straight up
    let up = unit(map_of([128, 128, 255], 4).sample(at(256), at(256)));
    assert!(up[1] > 0.999, "{up:?}");
    // g > 128 means the surface faces north = −Z here
    let north = unit(map_of(rgb_of(normalize([0.0, 1.0, -0.5])), 4).sample(at(256), at(256)));
    assert!(north[2] < -0.3 && north[1] > 0.8, "{north:?}");
    // r > 128 faces east = +X
    let east = unit(map_of(rgb_of(normalize([0.5, 1.0, 0.0])), 4).sample(at(256), at(256)));
    assert!(east[0] > 0.3, "{east:?}");
}

#[test]
fn rejects_non_square() {
    let img = image::RgbImage::new(4, 8);
    assert!(matches!(
        NormalMap::decode(&png(&img), "t"),
        Err(Error::Decode { .. })
    ));
    let e = NormalMap::decode(&png(&img), "t").err().unwrap();
    assert_eq!(
        e.to_string(),
        "decode t: expected a square normal map (≥2 px), got 4×8"
    );
    let dot = RgbPixels {
        width: 1,
        height: 1,
        pixels: vec![[128, 128, 255]],
    };
    assert!(NormalMap::from_image(&dot, "t").is_err());
    assert!(matches!(
        NormalMap::decode(b"noise", "t"),
        Err(Error::Decode { .. })
    ));
}

#[test]
fn windowing_composes_like_heights() {
    let m = map_of([128, 128, 255], 4);
    let w = m.windowed(2, 3, 1);
    // a quarter of the map wide, starting three quarters in
    assert_eq!(w.window, Window { dz: 2, qx: 3, qy: 1 });
    // sampling is still a unit up-normal wherever the window lands
    assert!(unit(w.sample(at(0), at(512)))[1] > 0.999);
    let nested = m.windowed(1, 1, 0).windowed(1, 1, 1);
    assert_eq!(nested.window, w.window);
}

#[test]
fn texels_become_directions() {
    let img = RgbPixels {
        width: 2,
        height: 2,
        pixels: vec![[255, 0, 128], [0, 255, 0], [128, 128, 255], [1, 2, 3]],
    };
    let m = NormalMap::from_image(&img, "t").unwrap();
    let d = |x, y, z| Direction { x, y, z };
    assert_eq!(
        m.vecs,
        vec![d(255, 1, 255), d(-255, -255, -255), d(1, 255, -1), d(-253, -249, 251)]
    );
    // a quarter in is the first texel's centre
    let s = m.sample(at(128), at(128));
    assert_eq!((s.x.index, s.x.rem, s.y.index, s.y.rem), (0, 0, 0, 0));
    assert_eq!(s.nw, d(255, 1, 255));
    // the corner clamps: half a texel off the map
    let c = m.sample(at(0), at(0));
    assert_eq!((c.x.index, c.y.index), (-1, -1));
    assert_eq!(2 * c.x.rem, c.x.den);
    assert_eq!((c.nw, c.se), (d(255, 1, 255), d(255, 1, 255)));
}

#[test]
fn heights_normal_matches_a_known_ramp() {
    // h = x_texel metres: rises 1 m per texel eastward
    let n = TILE_TEXELS;
    let tile: Vec<i32> = (0..n * n).map(|i| (i % n) as i32 * 256).collect();
    let field = HeightField::unpadded(&tile);
    let size_m = 256.0f32; // 1 m per texel → slope 1 eastward
    let s = from_heights(&field, at(256), at(256));
    let span = size_m / 256.0;
    let gx = (metres(s.east) - metres(s.west)) / span;
    let gz = (metres(s.south) - metres(s.north)) / span;
    let got = normalize([-gx, 1.0, -gz]);
    let want = normalize([-1.0, 1.0, 0.0]);
    for a in 0..3 {
        assert!((got[a] - want[a]).abs() < 1e-3, "{got:?} vs {want:?}");
    }
}

#[test]
fn slopes_agree_across_an_edge() {
    let n = TILE_TEXELS;
    let map = |k: i32| -> Vec<i32> { (0..n * n).map(|i| ((i as i32 * k) % 777) * 11).collect() };
    let (west, east) = (map(13), map(17));
    let mut ring_w: [Option<Vec<i32>>; 8] = Default::default();
    ring_w[Side::E as usize] = Some(east.clone());
    let mut ring_e: [Option<Vec<i32>>; 8] = Default::default();
    ring_e[Side::W as usize] = Some(west.clone());
    let fw = HeightField::padded(&west, &ring_w);
    let fe = HeightField::padded(&east, &ring_e);
    for v in [0, 1, 100, 333, 512] {
        let a = from_heights(&fw, at(512), at(v));
        let b = from_heights(&fe, at(0), at(v));
        assert_eq!(a.east.height(), b.east.height(), "v={v}");
        assert_eq!(a.west.height(), b.west.height());
        assert_eq!(a.south.height(), b.south.height());
        assert_eq!(a.north.height(), b.north.height());
    }
}
