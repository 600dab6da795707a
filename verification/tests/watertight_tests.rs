use open_tiles::mesh::build_grid;
use open_tiles::normals::from_heights;
use open_tiles::terrain::{Coord, HeightField, Sample};
use open_tiles::TileId;

/// A bumpy heightmap that differs from tile to tile; none for every seventh.
fn heightmap(t: TileId) -> Option<Vec<i32>> {
    if (t.x * 5 + t.y * 3) % 7 == 0 {
        return None;
    }
    let seed = i64::from(t.x * 31 + t.y * 17);
    Some(
        (0..256 * 256i64)
            .map(|k| ((k * k + seed * 7919 * (k % 257)) % 200_003) as i32 - 100_000)
            .collect(),
    )
}

/// The field of `tile` with its heights from `zoom`.
fn field(tile: TileId, zoom: u8) -> HeightField {
    let (source, qx, qy) = tile.ancestor(zoom);
    let ring = source.neighbours().map(|n| n.and_then(heightmap));
    let centre = heightmap(source).expect("the source is there");
    HeightField::padded(&centre, &ring).windowed(tile.zoom - zoom, qx, qy)
}

fn tile(zoom: u8, x: u32, y: u32) -> TileId {
    TileId::new(zoom, x, y).unwrap()
}

fn alike(a: &Sample, b: &Sample) -> bool {
    (a.nw, a.ne, a.sw, a.se) == (b.nw, b.ne, b.sw, b.se)
        && (a.x.rem, a.x.den, a.y.rem, a.y.den) == (b.x.rem, b.x.den, b.y.rem, b.y.den)
}

#[test]
fn eastern_neighbours_share_their_edge() {
    // two sources, then one source; at the source's own zoom and below it
    for (t, zoom) in [
        (tile(5, 12, 12), 5),
        (tile(7, 51, 50), 5),
        (tile(7, 49, 50), 5),
    ] {
        let e = t.offset(1, 0).unwrap();
        let (fa, fb) = (field(t, zoom), field(e, zoom));
        let ga = build_grid(&fa, 33).unwrap();
        let gb = build_grid(&fb, 33).unwrap();
        for j in 0..33 {
            let (east, west) = (&ga.vertices[j * 33 + 32], &gb.vertices[j * 33]);
            assert!(alike(&east.sample, &west.sample), "{t:?} row {j}");
            assert_eq!(east.sample.height(), west.sample.height());
            assert_eq!(east.v, west.v);
            let sa = from_heights(&fa, east.u, east.v);
            let sb = from_heights(&fb, west.u, west.v);
            assert_eq!(sa.east.height(), sb.east.height());
            assert_eq!(sa.west.height(), sb.west.height());
            assert_eq!(sa.south.height(), sb.south.height());
            assert_eq!(sa.north.height(), sb.north.height());
        }
    }
}

#[test]
fn southern_neighbours_share_their_edge() {
    for (t, zoom) in [
        (tile(5, 12, 12), 5),
        (tile(7, 50, 51), 5),
        (tile(7, 50, 49), 5),
    ] {
        let b = t.offset(0, 1).unwrap();
        let (fa, fb) = (field(t, zoom), field(b, zoom));
        let ga = build_grid(&fa, 33).unwrap();
        let gb = build_grid(&fb, 33).unwrap();
        // away from the ends of the source's edge
        for i in 1..32 {
            let (south, north) = (&ga.vertices[32 * 33 + i], &gb.vertices[i]);
            assert!(alike(&south.sample, &north.sample), "{t:?} column {i}");
            assert_eq!(south.sample.height(), north.sample.height());
            assert_eq!(south.u, north.u);
            let sa = from_heights(&fa, south.u, south.v);
            let sb = from_heights(&fb, north.u, north.v);
            assert_eq!(sa.east.height(), sb.east.height());
            assert_eq!(sa.west.height(), sb.west.height());
            assert_eq!(sa.south.height(), sb.south.height());
            assert_eq!(sa.north.height(), sb.north.height());
        }
    }
}

/// With one of the two tiles beyond the western end missing, the two sides of
/// a southern edge part at that end, and only there.
#[test]
fn a_missing_diagonal_parts_a_southern_edge_at_its_end() {
    let flat = |h: i32| vec![h; 256 * 256];
    let (north, south, west) = (flat(100), flat(200), flat(900));
    let fa = HeightField::padded(
        &north,
        &[None, None, None, Some(west.clone()), None, None, Some(south.clone()), None],
    );
    let fb = HeightField::padded(
        &south,
        &[Some(west), Some(north), None, None, None, None, None, None],
    );
    let (top, bottom) = (Coord::vertex(0, 1), Coord::vertex(1, 1));
    let end = Coord::vertex(0, 256);
    assert!(!alike(&fa.sample(end, bottom), &fb.sample(end, top)));
    let next = Coord::vertex(1, 256);
    assert!(alike(&fa.sample(next, bottom), &fb.sample(next, top)));
}
