//! Grids over height fields.

use open_tiles::mesh::{
    build_grid, check_resolution, default_resolution, useful_ceiling, DEFAULT_RESOLUTIONS,
};
use open_tiles::terrain::{Height, HeightField, Side, TILE_AREA, TILE_TEXELS};
use open_tiles::Error;

const UNIT: i32 = 256; // one metre

fn flat(metres: i32) -> HeightField {
    HeightField::unpadded(&vec![metres * UNIT; TILE_AREA])
}

/// A height in metres.
fn metres(h: Height) -> f64 {
    h.num as f64 / (h.den as f64 * 256.0)
}

#[test]
fn counts_corners_and_bounds() {
    let g = build_grid(&flat(100), 5).unwrap();
    assert_eq!(g.vertices.len(), 25);
    assert_eq!(g.triangles(), 32);
    for k in [0usize, 24] {
        assert_eq!(metres(g.vertices[k].sample.height()), 100.0);
    }
    let (first, last) = (g.vertices[0], g.vertices[24]);
    assert_eq!((first.u.num, first.v.num), (0, 0));
    assert_eq!((last.u.num, last.v.num), (256 * 4, 256 * 4));
    assert_eq!((last.u.den, last.v.den), (4, 4));
    // vertex 4 is the north-east corner
    assert_eq!((g.vertices[4].u.num, g.vertices[4].v.num), (256 * 4, 0));
    assert!(g.fits_u16());
    assert!(!build_grid(&flat(0), 257).unwrap().fits_u16());
}

#[test]
fn resolution_table_and_ceiling() {
    assert_eq!(default_resolution(1), 257);
    assert_eq!(default_resolution(12), 129);
    assert_eq!(default_resolution(18), 33);
    assert_eq!(default_resolution(22), 3);
    assert_eq!(useful_ceiling(0), 257);
    assert_eq!(useful_ceiling(3), 33);
    assert_eq!(useful_ceiling(7), 3);
    assert_eq!(useful_ceiling(9), 2);
    for (i, r) in DEFAULT_RESOLUTIONS.iter().enumerate() {
        assert!(check_resolution(*r).is_ok(), "slot {i}");
    }
}

#[test]
fn tables_clamp_the_zoom() {
    assert_eq!(default_resolution(0), 257);
    assert_eq!(default_resolution(255), 3);
    assert_eq!(useful_ceiling(255), 2);
}

#[test]
fn rejects_bad_resolution() {
    assert!(build_grid(&flat(0), 1).is_err());
    assert!(build_grid(&flat(0), 258).is_err());
    match build_grid(&flat(0), 258) {
        Err(e) => {
            assert!(matches!(e, Error::InvalidResolution(258)));
            assert_eq!(
                e.to_string(),
                "resolution must be in 2..=257 vertices per edge, got 258"
            );
        }
        Ok(_) => panic!("258 is no resolution"),
    }
}

#[test]
fn all_triangles_face_up() {
    let n = TILE_TEXELS;
    // bumpy field so the test isn't trivially flat
    let tile: Vec<i32> = (0..n * n)
        .map(|i| {
            let h = ((i % n) as f32 * 0.3).sin() * 50.0 + ((i / n) as f32 * 0.2).cos() * 30.0;
            (h * 256.0) as i32
        })
        .collect();
    let g = build_grid(&HeightField::unpadded(&tile), 33).unwrap();
    let p = |k: u32| {
        let v = g.vertices[k as usize];
        [
            v.u.num as f64 / (v.u.den as f64 * 256.0) * 500.0,
            metres(v.sample.height()),
            v.v.num as f64 / (v.v.den as f64 * 256.0) * 500.0,
        ]
    };
    for t in g.indices.chunks(3) {
        let (a, b, c) = (p(t[0]), p(t[1]), p(t[2]));
        let e1 = [b[0] - a[0], b[1] - a[1], b[2] - a[2]];
        let e2 = [c[0] - a[0], c[1] - a[1], c[2] - a[2]];
        let ny = e1[2] * e2[0] - e1[0] * e2[2];
        assert!(ny > 0.0, "triangle {t:?} faces down (ny={ny})");
    }
}

#[test]
fn neighbours_share_boundary_vertices_exactly() {
    let n = TILE_TEXELS;
    let west: Vec<i32> = (0..n * n)
        .map(|i| (i % n) as i32 * UNIT + (i / n) as i32 * UNIT / 2)
        .collect();
    let east: Vec<i32> = (0..n * n)
        .map(|i| (n + i % n) as i32 * UNIT + (i / n) as i32 * UNIT / 2)
        .collect();
    let mut nw: [Option<Vec<i32>>; 8] = Default::default();
    nw[Side::E as usize] = Some(east.clone());
    let mut ne: [Option<Vec<i32>>; 8] = Default::default();
    ne[Side::W as usize] = Some(west.clone());
    let r = 65u32;
    let gw = build_grid(&HeightField::padded(&west, &nw), r).unwrap();
    let ge = build_grid(&HeightField::padded(&east, &ne), r).unwrap();
    for j in 0..r as usize {
        let a = gw.vertices[j * r as usize + (r as usize - 1)];
        let b = ge.vertices[j * r as usize];
        assert_eq!(a.sample.height(), b.sample.height(), "row {j}");
        assert_eq!(a.v, b.v);
    }
}

#[test]
fn one_quad_is_two_triangles() {
    let g = build_grid(&flat(0), 2).unwrap();
    assert_eq!(g.indices, vec![0, 2, 1, 1, 2, 3]);
    let big = build_grid(&flat(0), 257).unwrap();
    assert_eq!(*big.indices.last().unwrap(), 257 * 257 - 1);
    assert!(big.indices.iter().all(|&i| (i as usize) < big.vertices.len()));
}
