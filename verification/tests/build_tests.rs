//! From fetched bytes to a finished GLB.

use image::{ImageEncoder, RgbImage};
use open_tiles::builder::{
    build_mesh, check_table, imagery_from, mesh_resolution, normals_from, normals_input, resolve,
    ring_from, ring_slot, start_tile, Measures, NormalsInput, Ring, Sources, TileStage,
};
use open_tiles::fetch::{Closest, Origin};
use open_tiles::glb::{NormalsOrigin, VertexBuffers};
use open_tiles::mesh::Grid;
use open_tiles::provider::Kind;
use open_tiles::terrain::{Coord, Height, Sample};
use open_tiles::{build_tile, load_inputs, Config, Error, TileId, TileInputs};
use std::collections::BTreeMap;
use std::io::Cursor;

type Cache = BTreeMap<String, Vec<u8>>;

fn terrarium_png(heights: impl Fn(u32, u32) -> f64) -> Vec<u8> {
    let mut img = RgbImage::new(256, 256);
    for (x, y, p) in img.enumerate_pixels_mut() {
        let fixed = ((heights(x, y) + 32768.0) * 256.0)
            .round()
            .clamp(0.0, 0xFF_FFFF as f64) as u32;
        *p = image::Rgb([
            (fixed >> 16) as u8,
            ((fixed >> 8) & 0xFF) as u8,
            (fixed & 0xFF) as u8,
        ]);
    }
    png(&img)
}

fn png(img: &RgbImage) -> Vec<u8> {
    let mut out = Vec::new();
    image::codecs::png::PngEncoder::new(Cursor::new(&mut out))
        .write_image(
            img.as_raw(),
            img.width(),
            img.height(),
            image::ExtendedColorType::Rgb8,
        )
        .unwrap();
    out
}

fn imagery_jpeg() -> Vec<u8> {
    let img = RgbImage::from_fn(256, 256, |x, y| image::Rgb([x as u8, y as u8, 128]));
    let mut out = Vec::new();
    image::codecs::jpeg::JpegEncoder::new_with_quality(Cursor::new(&mut out), 85)
        .encode_image(&img)
        .unwrap();
    out
}

fn imagery_png() -> Vec<u8> {
    png(&RgbImage::from_fn(256, 256, |x, y| {
        image::Rgb([x as u8, y as u8, 200])
    }))
}

fn key(kind: &str, t: TileId) -> String {
    format!("{kind}/{}/{}/{}.png", t.zoom, t.x, t.y)
}

/// A tile and its 8 neighbours with a single continuous ramp across all of
/// them (`height = global_x + 0.5 * global_y` in texels), plus imagery.
fn seed_block(centre: TileId) -> Cache {
    let mut cache = Cache::new();
    for dy in -1..=1 {
        for dx in -1..=1 {
            let t = centre.offset(dx, dy).unwrap();
            let png = terrarium_png(move |x, y| {
                f64::from(dx + 1) * 256.0
                    + f64::from(x)
                    + 0.5 * (f64::from(dy + 1) * 256.0 + f64::from(y))
            });
            cache.insert(key("heightmap", t), png);
            cache.insert(key("texture", t), imagery_jpeg());
        }
    }
    cache
}

/// What a provider answers for what the cache does not have.
#[derive(Clone, Copy)]
enum Provider {
    Missing,
    Down,
}

fn get(
    cache: &Cache,
    up: Provider,
    kind: &str,
    t: TileId,
) -> Result<(Vec<u8>, Origin), Error> {
    match (cache.get(&key(kind, t)), up) {
        (Some(b), _) => Ok((b.clone(), Origin::Cache)),
        (None, Provider::Missing) => Err(Error::NotFound { url: key(kind, t) }),
        (None, Provider::Down) => Err(Error::Fetch {
            url: key(kind, t),
            reason: "connection refused".into(),
        }),
    }
}

fn closest(cache: &Cache, up: Provider, kind: &str, t: TileId) -> Result<Closest, Error> {
    let mut zoom = t.zoom;
    loop {
        let source = t.ancestor(zoom).0;
        match get(cache, up, kind, source) {
            Ok((bytes, origin)) => {
                return Ok(Closest {
                    bytes,
                    source,
                    origin,
                })
            }
            Err(Error::NotFound { .. }) if zoom > 1 => zoom -= 1,
            Err(e) => return Err(e),
        }
    }
}

fn sources(cfg: &Config, cache: &Cache, up: Provider, t: TileId) -> Result<Sources, Error> {
    let heights = closest(cache, up, "heightmap", t);
    let imagery = closest(cache, up, "texture", t)
        .and_then(|c| Ok((imagery_from(t, &c, cfg.jpeg_quality)?, c.source)));
    let wanted = cfg.wants(Kind::Normals);
    let found = wanted.then(|| closest(cache, Provider::Missing, "normals", t));
    let normals = normals_input(wanted, t, found);
    resolve(t, heights, imagery, normals)
}

fn inputs(cfg: &Config, cache: &Cache, up: Provider, t: TileId) -> Result<TileInputs, Error> {
    let s = sources(cfg, cache, up, t)?;
    let sides = s
        .terrain_source
        .neighbours()
        .iter()
        .map(|n| ring_slot(*n, n.map(|u| get(cache, up, "heightmap", u))))
        .collect();
    load_inputs(s, ring_from(sides))
}

fn metres(s: Sample) -> f32 {
    let h: Height = s.height();
    (h.num as f64 / (h.den as f64 * 256.0)) as f32
}

fn number(v: f64) -> Option<serde_json::Number> {
    serde_json::Number::from_f64(v)
}

/// The vertices of a grid as floats, normals straight up.
fn render(grid: &Grid, size: f64, normals: bool) -> VertexBuffers {
    let frac = |c: Coord| c.num as f64 / (256.0 * c.den as f64);
    let (mut positions, mut uvs, mut up) = (Vec::new(), Vec::new(), Vec::new());
    let (mut min, mut max) = ([f32::INFINITY; 3], [f32::NEG_INFINITY; 3]);
    for v in &grid.vertices {
        let (u, w) = (frac(v.u), frac(v.v));
        let p = [(u * size) as f32, metres(v.sample), (w * size) as f32];
        for a in 0..3 {
            min[a] = min[a].min(p[a]);
            max[a] = max[a].max(p[a]);
        }
        positions.extend(p.map(f32::to_bits));
        uvs.extend([u as f32, w as f32].map(f32::to_bits));
        up.extend([0f32, 1.0, 0.0].map(f32::to_bits));
    }
    VertexBuffers {
        positions,
        uvs,
        normals: if normals { up } else { Vec::new() },
        min: min.map(|v| number(v as f64)),
        max: max.map(|v| number(v as f64)),
    }
}

const SIZE: f64 = 31_234.5;

fn finish(cfg: &Config, i: &TileInputs) -> Vec<u8> {
    let grid = build_mesh(cfg, i).unwrap();
    let buffers = render(&grid, SIZE, !matches!(i.normals, NormalsInput::Omitted));
    let measures = Measures {
        tile_size_m: number(SIZE),
        north: number(36.5),
        south: number(36.0),
        west: number(-112.5),
        east: number(-112.0),
    };
    build_tile(cfg, i, &grid, &buffers, measures)
}

/// Parse the JSON chunk straight out of a GLB container.
fn glb_json(bytes: &[u8]) -> serde_json::Value {
    let u32_at = |o: usize| u32::from_le_bytes(bytes[o..o + 4].try_into().unwrap());
    assert_eq!(&bytes[..4], b"glTF");
    assert_eq!(u32_at(4), 2, "glb version");
    assert_eq!(u32_at(8) as usize, bytes.len(), "declared total length");
    let json_len = u32_at(12) as usize;
    assert_eq!(u32_at(16), 0x4E4F_534A, "first chunk must be JSON");
    assert_eq!(json_len % 4, 0, "json chunk padded to 4");
    let json = &bytes[20..20 + json_len];
    let bin_len = u32_at(20 + json_len) as usize;
    assert_eq!(
        u32_at(24 + json_len),
        0x004E_4942,
        "second chunk must be BIN"
    );
    assert_eq!(bin_len % 4, 0, "bin chunk padded to 4");
    assert_eq!(28 + json_len + bin_len, bytes.len());
    serde_json::from_slice(json).unwrap()
}

fn centre() -> TileId {
    TileId::new(10, 500, 400).unwrap()
}

#[test]
fn load_inputs_pads_from_neighbours() {
    let cache = seed_block(centre());
    let inputs = inputs(&Config::default(), &cache, Provider::Down, centre()).unwrap();
    assert_eq!(inputs.neighbours_present, 8);
    assert_eq!(inputs.height.size, 258);
    // the ramp is height = gx + 0.5·gy with the centre tile at gx,gy ∈ [256,512):
    // west edge (u = 0) sits between global x 255 and 256 → 255.5 (+ 0.5·gy)
    let expected_x = 255.5;
    let expected_y = 0.5 * (256.0 + 128.0 - 0.5); // texel centres straddle 127.5
    let got = metres(
        inputs
            .height
            .sample(Coord { num: 0, den: 2 }, Coord { num: 256, den: 2 }),
    );
    assert!(
        (got - (expected_x + expected_y) as f32).abs() < 1e-3,
        "{got}"
    );
    assert!(image::guess_format(&inputs.jpeg).unwrap() == image::ImageFormat::Jpeg);
}

#[test]
fn normals_are_left_out_where_none_are_wanted() {
    let t = centre();
    let heights = |wanted, found| normals_input(wanted, t, found).unwrap().origin();
    let missing = || Err(Error::NotFound { url: "u".into() });
    let down = || {
        Err(Error::Fetch {
            url: "u".into(),
            reason: "r".into(),
        })
    };
    assert_eq!(heights(false, None), NormalsOrigin::Omitted);
    assert_eq!(heights(false, Some(missing())), NormalsOrigin::Omitted);
    assert_eq!(heights(false, Some(down())), NormalsOrigin::Omitted);
    assert_eq!(heights(true, Some(missing())), NormalsOrigin::Heights);
    assert!(matches!(
        normals_input(true, t, Some(down())),
        Err(Error::Fetch { .. })
    ));
    let mut cfg = Config::default();
    assert!(cfg.wants(Kind::Texture) && cfg.wants(Kind::Heightmap) && cfg.wants(Kind::Normals));
    cfg.include_normals = false;
    assert!(cfg.wants(Kind::Texture) && cfg.wants(Kind::Heightmap) && !cfg.wants(Kind::Normals));
}

#[test]
fn a_ring_keeps_the_order_of_the_neighbours() {
    let side = |h: i32| Ok(Some(vec![h; 256 * 256]));
    let first = |r: &Result<Option<Vec<i32>>, Error>| match r {
        Ok(Some(v)) => v[0],
        _ => panic!("expected heights"),
    };
    let r = ring_from((1..=8).map(side).collect());
    let got = [&r.nw, &r.n, &r.ne, &r.w, &r.e, &r.sw, &r.s, &r.se].map(first);
    assert_eq!(got, [1, 2, 3, 4, 5, 6, 7, 8]);
    // the grid's north-west corner has neighbours to the east and south only
    let corner = TileId::new(10, 0, 0).unwrap();
    let there: Vec<bool> = corner
        .neighbours()
        .iter()
        .map(|n| {
            let reply = n.map(|_| Ok((terrarium_png(|_, _| 1.0), Origin::Cache)));
            ring_slot(*n, reply).unwrap().is_some()
        })
        .collect();
    assert_eq!(
        there,
        [false, false, false, false, true, false, true, true]
    );
    // a neighbour that 404s is a side without heights; a failure stays one
    let east = corner.offset(1, 0);
    assert!(matches!(
        ring_slot(east, Some(Err(Error::NotFound { url: "u".into() }))),
        Ok(None)
    ));
    assert!(matches!(
        ring_slot(east, Some(Ok((b"junk".to_vec(), Origin::Cache)))),
        Err(Error::Decode { .. })
    ));
}

#[test]
fn missing_neighbour_404_clamps_but_other_errors_fail() {
    let mut cache = seed_block(centre());
    // remove the east neighbour from the cache; the provider 404s it
    let east = centre().offset(1, 0).unwrap();
    cache.remove(&key("heightmap", east));
    let cfg = Config::default();
    let i = inputs(&cfg, &cache, Provider::Missing, centre()).unwrap();
    assert_eq!(i.neighbours_present, 7);

    // a dead provider (connection refused) must fail the build instead
    match inputs(&cfg, &cache, Provider::Down, centre()) {
        Err(Error::Fetch { .. }) => {}
        _ => panic!("expected Fetch error"),
    }
    // and so must a neighbour that is no heightmap
    cache.insert(key("heightmap", east), b"junk".to_vec());
    match inputs(&cfg, &cache, Provider::Missing, centre()) {
        Err(Error::Decode { what, .. }) => {
            assert_eq!(what, "neighbour heightmap 10/501/400")
        }
        _ => panic!("expected Decode error"),
    }
}

#[test]
fn centre_404_is_not_found() {
    let t = TileId::new(10, 1, 1).unwrap();
    match sources(&Config::default(), &Cache::new(), Provider::Missing, t) {
        Err(Error::NotFound { .. }) => {}
        _ => panic!("expected NotFound"),
    }
}

#[test]
fn png_imagery_is_reencoded_to_jpeg() {
    let mut cache = seed_block(centre());
    cache.insert(key("texture", centre()), imagery_png());
    let i = inputs(&Config::default(), &cache, Provider::Down, centre()).unwrap();
    assert_eq!(
        image::guess_format(&i.jpeg).unwrap(),
        image::ImageFormat::Jpeg
    );
}

#[test]
fn glb_is_valid_and_deterministic() {
    let cache = seed_block(centre());
    let cfg = Config::default().with_uniform_resolution(33);
    let i = inputs(&cfg, &cache, Provider::Down, centre()).unwrap();
    let a = finish(&cfg, &i);
    let again = inputs(&cfg, &cache, Provider::Down, centre()).unwrap();
    let b = finish(&cfg, &again);
    assert_eq!(a, b, "same inputs + config must give byte-identical output");

    let (doc, buffers, images) = gltf::import_slice(&a).expect("gltf crate must parse our output");
    assert_eq!(doc.meshes().count(), 1);
    let prim = doc.meshes().next().unwrap().primitives().next().unwrap();
    let reader = prim.reader(|b| Some(&buffers[b.index()]));
    let positions: Vec<[f32; 3]> = reader.read_positions().unwrap().collect();
    assert_eq!(positions.len(), 33 * 33);
    let indices: Vec<u32> = reader.read_indices().unwrap().into_u32().collect();
    assert_eq!(indices.len(), 32 * 32 * 6);
    assert!(indices.iter().all(|&i| (i as usize) < positions.len()));
    let uvs: Vec<[f32; 2]> = reader.read_tex_coords(0).unwrap().into_f32().collect();
    assert_eq!(uvs[0], [0.0, 0.0]);
    assert_eq!(uvs[33 * 33 - 1], [1.0, 1.0]);
    let normals: Vec<[f32; 3]> = reader.read_normals().unwrap().collect();
    assert_eq!(normals, vec![[0.0, 1.0, 0.0]; 33 * 33]);

    // POSITION accessor min/max match the data
    let acc = prim.get(&gltf::Semantic::Positions).unwrap();
    let floats = |v: gltf::json::Value| -> Vec<f32> {
        v.as_array()
            .unwrap()
            .iter()
            .map(|v| v.as_f64().unwrap() as f32)
            .collect()
    };
    let (min, max) = (floats(acc.min().unwrap()), floats(acc.max().unwrap()));
    for a in 0..3 {
        let lo = positions.iter().map(|p| p[a]).fold(f32::INFINITY, f32::min);
        let hi = positions
            .iter()
            .map(|p| p[a])
            .fold(f32::NEG_INFINITY, f32::max);
        assert_eq!(min[a], lo);
        assert_eq!(max[a], hi);
    }
    // geometry spans exactly one tile edge in X and Z, origin at the corner
    let size = SIZE as f32;
    assert_eq!(min[0], 0.0);
    assert_eq!(min[2], 0.0);
    assert!((max[0] - size).abs() < 1e-2 && (max[2] - size).abs() < 1e-2);

    // one JPEG image, decodable, 256²
    assert_eq!(images.len(), 1);
    assert_eq!((images[0].width, images[0].height), (256, 256));
    assert!(doc
        .materials()
        .next()
        .unwrap()
        .pbr_metallic_roughness()
        .base_color_texture()
        .is_some());
    assert!(doc.materials().next().unwrap().normal_texture().is_none());

    // extras carry the tile identity and placement info
    let json = glb_json(&a);
    let extras = &json["extras"];
    assert_eq!(extras["zoom"], 10);
    assert_eq!(extras["x"], 500);
    assert_eq!(extras["y"], 400);
    assert_eq!(extras["resolution"], 33);
    assert!((extras["tile_size_m"].as_f64().unwrap() - SIZE).abs() < 1e-9);
    assert!(
        extras["bounds"]["north"].as_f64().unwrap() > extras["bounds"]["south"].as_f64().unwrap()
    );
    assert!(extras["resolution_requested"].is_null());
    assert_eq!(extras["terrain_source_zoom"], 10);
    assert_eq!(extras["imagery_source_zoom"], 10);
    assert!(extras["normals_source_zoom"].is_null());
    assert!(extras.as_object().unwrap().contains_key("normals_source_zoom"));
    assert_eq!(extras["sources"]["imagery"], "Esri World Imagery");
    let pbr = &json["materials"][0]["pbrMetallicRoughness"];
    assert_eq!(pbr["metallicFactor"], 0.0);
    assert_eq!(pbr["roughnessFactor"], 1.0);
    assert_eq!(json["asset"]["generator"], "open-tiles 0.1.0");
    assert_eq!(json["meshes"][0]["name"], "10/500/400");
    // the JPEG is embedded byte for byte, where its view says
    let view = &json["bufferViews"][4];
    let at = a.len() - json["buffers"][0]["byteLength"].as_u64().unwrap() as usize
        + view["byteOffset"].as_u64().unwrap() as usize;
    assert_eq!(&a[at..at + imagery_jpeg().len()], imagery_jpeg().as_slice());
    assert_eq!(view["byteLength"], imagery_jpeg().len());
    assert_eq!(view["byteOffset"].as_u64().unwrap() % 4, 0);
}

#[test]
fn large_resolution_uses_u32_indices() {
    let cache = seed_block(centre());
    let cfg = Config::default().with_uniform_resolution(257);
    let i = inputs(&cfg, &cache, Provider::Down, centre()).unwrap();
    let glb = finish(&cfg, &i);
    let (doc, buffers, _) = gltf::import_slice(&glb).unwrap();
    let prim = doc.meshes().next().unwrap().primitives().next().unwrap();
    assert_eq!(
        prim.indices().unwrap().data_type(),
        gltf::accessor::DataType::U32
    );
    let n = prim
        .reader(|b| Some(&buffers[b.index()]))
        .read_positions()
        .unwrap()
        .count();
    assert_eq!(n, 257 * 257);
}

#[test]
fn normals_can_be_left_out() {
    let cache = seed_block(centre());
    let mut cfg = Config::default().with_uniform_resolution(5);
    cfg.include_normals = false;
    let i = inputs(&cfg, &cache, Provider::Down, centre()).unwrap();
    assert_eq!(i.normals.origin(), NormalsOrigin::Omitted);
    let glb = finish(&cfg, &i);
    let json = glb_json(&glb);
    assert_eq!(json["accessors"].as_array().unwrap().len(), 3);
    assert_eq!(json["bufferViews"].as_array().unwrap().len(), 4);
    assert_eq!(json["images"][0]["bufferView"], 3);
    let prim = &json["meshes"][0]["primitives"][0];
    assert_eq!(prim["indices"], 2);
    assert!(prim["attributes"]["NORMAL"].is_null());
    assert!(!json["extras"]
        .as_object()
        .unwrap()
        .contains_key("normals_source_zoom"));
    // 25 vertices: positions, UVs and 16 quads of 16-bit indices
    let len = |i: usize| json["bufferViews"][i]["byteLength"].as_u64().unwrap();
    assert_eq!((len(0), len(1), len(2)), (300, 200, 192));
    assert_eq!(json["accessors"][2]["componentType"], 5123);
    gltf::import_slice(&glb).unwrap();
}

#[test]
fn normals_come_from_the_closest_map_or_the_heights() {
    let t = TileId::new(12, 5, 6).unwrap();
    let map = png(&RgbImage::from_pixel(4, 4, image::Rgb([128, 128, 255])));
    let source = t.ancestor(10).0;
    let found = |bytes| {
        Ok(Closest {
            bytes,
            source,
            origin: Origin::Cache,
        })
    };
    match normals_from(t, found(map)).unwrap() {
        NormalsInput::Provided(m, zoom) => {
            assert_eq!((zoom, m.size), (10, 4));
            assert_eq!((m.window.dz, m.window.qx, m.window.qy), (2, 1, 2));
        }
        _ => panic!("expected the provider's map"),
    }
    let missing = Err(Error::NotFound { url: "u".into() });
    assert_eq!(
        normals_from(t, missing).unwrap().origin(),
        NormalsOrigin::Heights
    );
    match normals_from(t, found(b"junk".to_vec())) {
        Err(Error::Decode { what, .. }) => assert_eq!(what, "normals 10/1/1"),
        _ => panic!("expected Decode error"),
    }
    let down = Err(Error::Fetch {
        url: "u".into(),
        reason: "r".into(),
    });
    assert!(matches!(normals_from(t, down), Err(Error::Fetch { .. })));
}

#[test]
fn deep_zoom_builds_from_an_ancestor() {
    let z15 = TileId::new(15, 16_000, 12_800).unwrap();
    let cache = seed_block(z15);
    let t = TileId::new(20, 16_000 << 5, 12_800 << 5).unwrap();
    let cfg = Config::default();
    let i = inputs(&cfg, &cache, Provider::Missing, t).unwrap();
    assert_eq!((i.terrain_source, i.imagery_source), (z15, z15));
    assert_eq!(i.height.window.dz, 5);
    let extras = &glb_json(&finish(&cfg, &i))["extras"];
    assert_eq!(extras["terrain_source_zoom"], 15);
    assert_eq!(extras["resolution"], 9);
    assert!(extras["resolution_requested"].is_null());
    // asking for more than the heights are good for is capped and recorded
    let cfg = Config::default().with_uniform_resolution(129);
    let extras = &glb_json(&finish(&cfg, &i))["extras"];
    assert_eq!(extras["resolution"], 9);
    assert_eq!(extras["resolution_requested"], 129);
    assert_eq!(mesh_resolution(&cfg, t, 15), (9, Some(129)));
    assert_eq!(mesh_resolution(&cfg, t, 20), (129, None));
}

#[test]
fn the_first_impossible_resolution_is_named() {
    let mut cfg = Config::default();
    assert!(check_table(&cfg).is_ok());
    cfg.set_resolution(9, 300);
    cfg.set_resolution(3, 1);
    assert!(matches!(
        check_table(&cfg),
        Err(Error::InvalidResolution(1))
    ));
}

#[test]
fn a_build_checks_the_table_before_it_loads() {
    let cache = seed_block(centre());
    let mut cfg = Config::default().with_uniform_resolution(17);
    let loaded = inputs(&cfg, &cache, Provider::Down, centre()).unwrap();
    let expected = finish(&cfg, &loaded);
    let started = start_tile(&cfg);
    assert!(matches!(started, TileStage::Load));
    let stage = started.on_inputs(&cfg, Ok(loaded));
    let buffers = match &stage {
        TileStage::Render(i, grid) => {
            render(grid, SIZE, !matches!(i.normals, NormalsInput::Omitted))
        }
        _ => panic!("expected a grid to render"),
    };
    let measures = Measures {
        tile_size_m: number(SIZE),
        north: number(36.5),
        south: number(36.0),
        west: number(-112.5),
        east: number(-112.0),
    };
    match stage.on_rendered(&cfg, &buffers, measures) {
        TileStage::Done(Ok(glb)) => assert_eq!(glb, expected),
        _ => panic!("expected a tile"),
    }
    // what fails to load fails the build
    let gone = Error::NotFound { url: "u".into() };
    assert!(matches!(
        start_tile(&cfg).on_inputs(&cfg, Err(gone)),
        TileStage::Done(Err(Error::NotFound { .. }))
    ));
    // an impossible entry, here for another zoom, fails it before that
    cfg.set_resolution(3, 1);
    assert!(matches!(
        start_tile(&cfg),
        TileStage::Done(Err(Error::InvalidResolution(1)))
    ));
}

#[test]
fn height_errors_come_before_imagery_errors() {
    let io = |p: &str| Error::Io {
        path: p.into(),
        reason: "r".into(),
    };
    let path = |r: Result<Sources, Error>| match r {
        Err(Error::Io { path, .. }) => path,
        _ => panic!("expected Io"),
    };
    let t = centre();
    let ok = || {
        Ok(Closest {
            bytes: b"junk".to_vec(),
            source: t,
            origin: Origin::Cache,
        })
    };
    let img = || Ok((imagery_jpeg(), t));
    assert_eq!(path(resolve(t, Err(io("h")), Err(io("i")), Err(io("n")))), "h");
    assert_eq!(path(resolve(t, ok(), Err(io("i")), Err(io("n")))), "i");
    assert_eq!(path(resolve(t, ok(), img(), Err(io("n")))), "n");
    match resolve(t, ok(), img(), Ok(NormalsInput::Heights)) {
        Err(Error::Decode { what, .. }) => assert_eq!(what, "heightmap 10/500/400"),
        _ => panic!("expected Decode"),
    }
}

#[test]
fn the_first_failing_side_fails_the_ring() {
    let cache = seed_block(centre());
    let s = sources(&Config::default(), &cache, Provider::Down, centre()).unwrap();
    let io = |p: &str| -> Result<Option<Vec<i32>>, Error> {
        Err(Error::Io {
            path: p.into(),
            reason: "r".into(),
        })
    };
    let ring = Ring {
        nw: Ok(None),
        n: Ok(None),
        ne: Ok(None),
        w: io("w"),
        e: Ok(None),
        sw: Ok(None),
        s: io("s"),
        se: Ok(None),
    };
    match load_inputs(s, ring) {
        Err(Error::Io { path, .. }) => assert_eq!(path, "w"),
        _ => panic!("expected Io"),
    }
}

#[test]
fn whole_measures_are_written_as_they_are() {
    let cache = seed_block(centre());
    let cfg = Config::default().with_uniform_resolution(2);
    let i = inputs(&cfg, &cache, Provider::Down, centre()).unwrap();
    let grid = build_mesh(&cfg, &i).unwrap();
    let buffers = render(&grid, SIZE, true);
    let measures = Measures {
        tile_size_m: Some(serde_json::Number::from(5u64)),
        north: number(0.5),
        south: None,
        west: Some(serde_json::Number::from(-7i64)),
        east: number(2.0),
    };
    let json = glb_json(&build_tile(&cfg, &i, &grid, &buffers, measures));
    assert_eq!(json["extras"]["tile_size_m"], 5);
    assert_eq!(json["extras"]["resolution"], 2);
    assert_eq!(json["extras"]["bounds"]["north"], 0.5);
    assert!(json["extras"]["bounds"]["south"].is_null());
    assert_eq!(json["extras"]["bounds"]["west"], -7);
    assert_eq!(json["extras"]["bounds"]["east"], 2.0);
}
