//! Tile identity and the grid around it.

use open_tiles::tile::TileId;
use open_tiles::Error;

fn id(zoom: u8, x: u32, y: u32) -> TileId {
    TileId { zoom, x, y }
}

#[test]
fn validates_range() {
    assert!(TileId::new(0, 0, 0).is_err());
    assert!(TileId::new(23, 0, 0).is_err());
    assert!(TileId::new(1, 2, 0).is_err());
    assert!(TileId::new(1, 0, 2).is_err());
    assert!(TileId::new(1, 1, 1).is_ok());
    assert!(TileId::new(22, (1 << 22) - 1, 0).is_ok());
}

#[test]
fn invalid_tiles_say_why() {
    let e = TileId::new(23, 0, 0).unwrap_err();
    assert!(matches!(e, Error::InvalidTile(_)));
    assert_eq!(e.to_string(), "invalid tile: zoom 23 outside 1..=22");
    assert_eq!(
        TileId::new(3, 9, 1).unwrap_err().to_string(),
        "invalid tile: x/y (9, 1) outside 0..8 at zoom 3"
    );
}

#[test]
fn neighbours_and_edges() {
    let t = TileId::new(2, 0, 0).unwrap();
    let n = t.neighbours();
    assert!(n[0].is_none() && n[1].is_none() && n[3].is_none());
    assert_eq!(n[4], Some(TileId::new(2, 1, 0).unwrap()));
    assert_eq!(n[7], Some(TileId::new(2, 1, 1).unwrap()));
    let m = TileId::new(2, 1, 1).unwrap();
    assert!(m.neighbours().iter().all(Option::is_some));
}

#[test]
fn stepping_away_and_back() {
    let t = TileId::new(5, 3, 4).unwrap();
    let u = t.offset(2, -3).unwrap();
    assert_eq!(u, id(5, 5, 1));
    assert_eq!(u.offset(-2, 3), Some(t));
    assert_eq!(t.offset(0, -5), None);
    assert_eq!(t.tiles_per_axis(), 32);
}

#[test]
fn ancestors_windows_and_children() {
    let t = TileId::new(20, 790547, 411413).unwrap();
    let (a, qx, qy) = t.ancestor(15);
    assert_eq!(a, id(15, 24704, 12856));
    assert_eq!((qx, qy), (19, 21));
    assert_eq!((a.x << 5) + qx, t.x);
    assert_eq!((a.y << 5) + qy, t.y);
    assert_eq!(t.ancestor(17).0.ancestor(15).0, a);
    assert_eq!(t.ancestor(20), (t, 0, 0));
    let c = a.child(1, 0);
    assert_eq!(c, id(16, 49409, 25712));
    assert_eq!(c.ancestor(15), (a, 1, 0));
}

#[test]
fn projected_cells_are_brought_into_the_grid() {
    assert_eq!(TileId::from_cell(3, 7, 8).unwrap(), id(3, 7, 7));
    assert_eq!(TileId::from_cell(3, u32::MAX, 2).unwrap(), id(3, 7, 2));
    assert!(TileId::from_cell(0, 0, 0).is_err());
    assert!(TileId::from_cell(23, 0, 0).is_err());
}

#[test]
fn addresses_are_written_out() {
    assert_eq!(id(12, 772, 1607).to_string(), "12/772/1607");
}
