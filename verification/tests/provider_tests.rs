//! URL templates.

use open_tiles::provider::{expand_url, Kind, Provider};
use open_tiles::TileId;

#[test]
fn esri_swaps_y_and_x() {
    let p = Provider::default();
    let t = TileId::new(12, 772, 1607).unwrap();
    assert!(p.url(Kind::Texture, t).ends_with("/tile/12/1607/772"));
    assert!(p
        .url(Kind::Heightmap, t)
        .ends_with("/terrarium/12/772/1607.png"));
}

#[test]
fn expand_replaces_once() {
    let t = TileId::new(3, 1, 2).unwrap();
    assert_eq!(expand_url("a/:zoom:/:x:/:y:/:x:", t), "a/3/1/2/:x:");
}

#[test]
fn kinds_have_names_and_hints() {
    let p = Provider::default();
    let t = TileId::new(3, 1, 2).unwrap();
    assert_eq!(
        p.url(Kind::Normals, t),
        "https://s3.amazonaws.com/elevation-tiles-prod/normal/3/1/2.png"
    );
    assert_eq!(Kind::Texture.dir(), "texture");
    assert_eq!(Kind::Heightmap.dir(), "heightmap");
    assert_eq!(Kind::Normals.dir(), "normals");
    assert_eq!(Kind::Texture.name(), "imagery");
    assert_eq!(p.max_zoom(Kind::Texture), 19);
    assert_eq!(p.max_zoom(Kind::Heightmap), 15);
    assert_eq!(p.max_zoom(Kind::Normals), 15);
}

#[test]
fn a_template_without_tokens_stays() {
    let t = TileId::new(3, 1, 2).unwrap();
    assert_eq!(expand_url("no tokens", t), "no tokens");
    assert_eq!(expand_url(":y::x::zoom:", t), "213");
}
