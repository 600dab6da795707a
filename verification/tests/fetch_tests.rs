//! Fetching over a cache and a provider held in memory.

use open_tiles::fetch::{
    cache_key, download_outcome, marker_key, marker_prefixes, markers_among, Closest, Fetch,
    FetchStage, HttpReply, Origin, Walk, WalkStep,
};
use open_tiles::provider::{Kind, Provider};
use open_tiles::{Error, TileId};
use std::collections::BTreeMap;

/// A cache and a provider, with the URLs that were asked for.
#[derive(Default)]
struct World {
    cache: BTreeMap<String, Vec<u8>>,
    routes: BTreeMap<String, Vec<u8>>,
    down: bool,
    hits: Vec<String>,
}

impl World {
    fn download(&mut self, url: &str) -> Result<Vec<u8>, Error> {
        self.hits.push(url.to_string());
        let reply = if self.down {
            HttpReply::Transport("connection refused".into())
        } else {
            match self.routes.get(url) {
                Some(b) => HttpReply::Body(b.clone()),
                None => HttpReply::Status {
                    code: 404,
                    text: "Not Found".into(),
                },
            }
        };
        download_outcome(url, reply)
    }

    fn fetch(&mut self, kind: Kind, tile: TileId, url: &str) -> Result<(Vec<u8>, Origin), Error> {
        let mut f = Fetch::new(kind, tile, url);
        loop {
            f = match &f.stage {
                FetchStage::ReadEntry => {
                    let entry = self.cache.get(&f.key).cloned();
                    f.on_entry(Ok(entry))
                }
                FetchStage::ProbeMarker => {
                    let there = self.cache.contains_key(&f.marker);
                    f.on_probe(Ok(there))
                }
                FetchStage::Download => {
                    let url = f.url.clone();
                    let got = self.download(&url);
                    f.on_download(got)
                }
                FetchStage::StoreEntry(bytes) => {
                    self.cache.insert(f.key.clone(), bytes.clone());
                    f.on_store(Ok(()))
                }
                FetchStage::StoreMarker(_) => {
                    self.cache.insert(f.marker.clone(), Vec::new());
                    f.on_store(Ok(()))
                }
                FetchStage::Done(_) => match f.stage {
                    FetchStage::Done(r) => return r,
                    _ => unreachable!(),
                },
            };
        }
    }

    fn closest(&mut self, p: &Provider, kind: Kind, tile: TileId) -> Result<Closest, Error> {
        let mut walk = Walk::start(p, kind, tile);
        loop {
            let candidate = walk.candidate();
            let url = p.url(kind, candidate);
            match walk.on_fetched(self.fetch(kind, candidate, &url)) {
                WalkStep::Found(c) => return Ok(c),
                WalkStep::Again(w) => walk = w,
                WalkStep::Failed(e) => return Err(e),
            }
        }
    }

    fn clear(&mut self, kind: Option<Kind>, zoom: Option<u8>) -> usize {
        let mut removed = 0;
        for prefix in marker_prefixes(kind, zoom) {
            let listed: Vec<String> = self
                .cache
                .keys()
                .filter(|k| k.starts_with(&prefix))
                .cloned()
                .collect();
            for key in markers_among(&listed) {
                self.cache.remove(&key);
                removed += 1;
            }
        }
        removed
    }
}

fn provider() -> Provider {
    Provider {
        texture_url: "http://p/t/:zoom:/:x:/:y:".into(),
        heightmap_url: "http://p/h/:zoom:/:x:/:y:.png".into(),
        ..Provider::default()
    }
}

#[test]
fn miss_downloads_and_writes_through_then_hits() {
    let mut w = World::default();
    let body = b"heights".to_vec();
    let url = "http://p/h/5/3/4.png";
    w.routes.insert(url.into(), body.clone());
    let t = TileId::new(5, 3, 4).unwrap();

    let (b1, o1) = w.fetch(Kind::Heightmap, t, url).unwrap();
    assert_eq!(o1, Origin::Network);
    assert_eq!(b1, body);
    assert_eq!(w.cache["heightmap/5/3/4.png"], body);

    let (b2, o2) = w.fetch(Kind::Heightmap, t, url).unwrap();
    assert_eq!(o2, Origin::Cache);
    assert_eq!(b2, body);
    assert_eq!(w.hits.len(), 1, "second call must not touch the network");
    assert_eq!(w.cache.len(), 1);
}

#[test]
fn not_found_is_typed() {
    let mut w = World::default();
    let t = TileId::new(5, 3, 4).unwrap();
    let url = "http://p/missing.png";
    match w.fetch(Kind::Texture, t, url) {
        Err(Error::NotFound { url: u }) => assert_eq!(u, url),
        _ => panic!("expected NotFound"),
    }
    assert!(
        !w.cache.contains_key("texture/5/3/4.png"),
        "404 must not be cached"
    );
}

#[test]
fn connection_refused_is_fetch_error() {
    let mut w = World {
        down: true,
        ..World::default()
    };
    let t = TileId::new(5, 3, 4).unwrap();
    match w.fetch(Kind::Texture, t, "http://127.0.0.1:9/x.png") {
        Err(Error::Fetch { .. }) => {}
        _ => panic!("expected Fetch"),
    }
    assert!(w.cache.is_empty(), "a transient failure leaves nothing behind");
}

#[test]
fn empty_cache_entry_is_refetched() {
    let mut w = World::default();
    let body = b"imagery".to_vec();
    w.routes.insert("http://p/t.png".into(), body.clone());
    let t = TileId::new(5, 3, 4).unwrap();
    w.cache.insert("texture/5/3/4.png".into(), vec![]);
    let (b, o) = w.fetch(Kind::Texture, t, "http://p/t.png").unwrap();
    assert_eq!(o, Origin::Network);
    assert_eq!(b, body);
}

#[test]
fn fetcher_writes_through_and_remembers_404s() {
    let mut w = World::default();
    let body = b"heights".to_vec();
    w.routes.insert("http://p/h/5/3/4.png".into(), body.clone());
    let t = TileId::new(5, 3, 4).unwrap();
    let url = "http://p/h/5/3/4.png";
    let (b1, o1) = w.fetch(Kind::Heightmap, t, url).unwrap();
    assert_eq!((o1, &b1), (Origin::Network, &body));
    let (b2, o2) = w.fetch(Kind::Heightmap, t, url).unwrap();
    assert_eq!((o2, &b2), (Origin::Cache, &body));
    assert_eq!(w.hits.len(), 1, "second call is a cache hit");

    // 404 → marker; the marker short-circuits the next attempt
    let missing = TileId::new(5, 3, 5).unwrap();
    let murl = "http://p/h/5/3/5.png";
    assert!(matches!(
        w.fetch(Kind::Heightmap, missing, murl),
        Err(Error::NotFound { .. })
    ));
    assert!(w.cache.contains_key("heightmap/5/3/5.png.404"));
    assert!(!w.cache.contains_key("heightmap/5/3/5.png"));
    assert!(matches!(
        w.fetch(Kind::Heightmap, missing, murl),
        Err(Error::NotFound { .. })
    ));
    assert_eq!(w.hits.len(), 2);
    assert_eq!(w.clear(Some(Kind::Heightmap), Some(5)), 1);
    assert!(!w.cache.contains_key("heightmap/5/3/5.png.404"));
    assert_eq!(w.clear(None, None), 0);
}

#[test]
fn what_was_fetched_stays_where_the_url_changes() {
    let mut w = World::default();
    w.routes.insert("http://p/old".into(), b"old".to_vec());
    w.routes.insert("http://p/new".into(), b"new".to_vec());
    let t = TileId::new(5, 3, 4).unwrap();
    w.fetch(Kind::Texture, t, "http://p/old").unwrap();
    let (bytes, origin) = w.fetch(Kind::Texture, t, "http://p/new").unwrap();
    assert_eq!((bytes.as_slice(), origin), (&b"old"[..], Origin::Cache));
    // a remembered 404 names the URL that would be asked now
    let missing = TileId::new(5, 3, 5).unwrap();
    assert!(w.fetch(Kind::Texture, missing, "http://p/gone").is_err());
    match w.fetch(Kind::Texture, missing, "http://p/new") {
        Err(Error::NotFound { url }) => assert_eq!(url, "http://p/new"),
        _ => panic!("expected NotFound"),
    }
    assert_eq!(w.hits.len(), 2);
}

#[test]
fn a_real_entry_wins_over_a_stale_marker() {
    let mut w = World::default();
    let t = TileId::new(5, 3, 4).unwrap();
    w.cache.insert("texture/5/3/4.png".into(), vec![1]);
    w.cache.insert("texture/5/3/4.png.404".into(), vec![]);
    assert_eq!(
        w.fetch(Kind::Texture, t, "u").unwrap(),
        (vec![1], Origin::Cache)
    );
}

#[test]
fn cache_failures_end_a_fetch() {
    let t = TileId::new(5, 3, 4).unwrap();
    let io = || Error::Io {
        path: "p".into(),
        reason: "r".into(),
    };
    let new = || Fetch::new(Kind::Texture, t, "u");
    let failed = |f: Fetch| matches!(f.stage, FetchStage::Done(Err(Error::Io { .. })));
    assert!(failed(new().on_entry(Err(io()))));
    assert!(failed(new().on_entry(Ok(None)).on_probe(Err(io()))));
    let got = new().on_entry(Ok(None)).on_probe(Ok(false));
    assert!(failed(got.on_download(Ok(vec![1])).on_store(Err(io()))));
    let missing = || Error::NotFound { url: "u".into() };
    let got = new().on_entry(Ok(None)).on_probe(Ok(false));
    assert!(failed(got.on_download(Err(missing())).on_store(Err(io()))));
}

#[test]
fn the_walk_finds_the_closest_zoom() {
    let mut w = World::default();
    let p = provider();
    // asked at z20; the provider has z15 and z13
    let t = TileId::new(20, 16_000 << 5, 12_800 << 5).unwrap();
    w.routes
        .insert("http://p/h/15/16000/12800.png".into(), vec![15]);
    w.routes
        .insert("http://p/h/13/4000/3200.png".into(), vec![13]);
    let c = w.closest(&p, Kind::Heightmap, t).unwrap();
    assert_eq!((c.bytes, c.source.zoom), (vec![15], 15));
    assert_eq!(w.hits, vec!["http://p/h/15/16000/12800.png"]);

    // imagery starts at its own hint and steps down over 404s
    w.hits.clear();
    w.routes
        .insert("http://p/t/15/16000/12800".into(), vec![1]);
    let c = w.closest(&p, Kind::Texture, t).unwrap();
    assert_eq!(c.source, TileId::new(15, 16_000, 12_800).unwrap());
    assert_eq!(c.origin, Origin::Network);
    assert_eq!(w.hits.len(), 5, "19, 18, 17, 16, 15");
    // four markers are left behind
    assert_eq!(w.clear(Some(Kind::Texture), None), 4);
}

#[test]
fn nothing_at_any_zoom_is_not_found() {
    let mut w = World::default();
    let t = TileId::new(3, 1, 1).unwrap();
    match w.closest(&provider(), Kind::Heightmap, t) {
        Err(Error::NotFound { url }) => assert_eq!(url, "http://p/h/1/0/0.png"),
        _ => panic!("expected NotFound"),
    }
    assert_eq!(w.hits.len(), 3);
}

#[test]
fn a_transient_failure_ends_the_walk() {
    let mut w = World {
        down: true,
        ..World::default()
    };
    let t = TileId::new(9, 1, 1).unwrap();
    assert!(matches!(
        w.closest(&provider(), Kind::Texture, t),
        Err(Error::Fetch { .. })
    ));
    assert_eq!(w.hits.len(), 1);
}

#[test]
fn a_hint_below_the_first_zoom_starts_there() {
    let mut p = provider();
    p.heightmap_max_zoom = 0;
    let t = TileId::new(9, 300, 1).unwrap();
    let walk = Walk::start(&p, Kind::Heightmap, t);
    assert_eq!(walk.candidate(), TileId::new(1, 1, 0).unwrap());
}

#[test]
fn keys_markers_and_prefixes() {
    let t = TileId::new(5, 3, 4).unwrap();
    let key = cache_key(Kind::Texture, t);
    assert_eq!(key, "texture/5/3/4.png");
    assert_eq!(marker_key(&key), "texture/5/3/4.png.404");
    assert_eq!(
        marker_prefixes(None, None),
        vec!["texture/", "heightmap/", "normals/"]
    );
    assert_eq!(
        marker_prefixes(Some(Kind::Heightmap), Some(12)),
        vec!["heightmap/12/"]
    );
    let keys: Vec<String> = [".404", "a.png", "a.png.404", "b.404.png", "404"]
        .map(String::from)
        .to_vec();
    assert_eq!(markers_among(&keys), vec![".404", "a.png.404"]);
}

#[test]
fn replies_are_classified() {
    let e = |r| download_outcome("u", r).unwrap_err().to_string();
    assert_eq!(
        download_outcome("u", HttpReply::Body(vec![1])).unwrap(),
        vec![1]
    );
    assert_eq!(e(HttpReply::Body(vec![])), "fetch u: empty body");
    let status = |code| HttpReply::Status {
        code,
        text: "Oops".into(),
    };
    assert_eq!(e(status(404)), "not found upstream: u");
    assert_eq!(e(status(503)), "fetch u: HTTP 503 Oops");
    assert_eq!(e(HttpReply::Transport("t".into())), "fetch u: t");
    assert_eq!(e(HttpReply::Broken("b".into())), "fetch u: read body: b");
}

#[test]
fn prefixes_select_the_markers_of_one_kind_and_zoom() {
    let t = TileId::new(1, 0, 1).unwrap();
    let deep = TileId::new(12, 772, 1607).unwrap();
    let prefix = &marker_prefixes(Some(Kind::Heightmap), Some(1))[0];
    assert_eq!(prefix, "heightmap/1/");
    assert!(marker_key(&cache_key(Kind::Heightmap, t)).starts_with(prefix));
    assert!(!marker_key(&cache_key(Kind::Heightmap, deep)).starts_with(prefix));
    assert!(!marker_key(&cache_key(Kind::Texture, t)).starts_with(prefix));
    let every = &marker_prefixes(Some(Kind::Heightmap), None)[0];
    assert!(marker_key(&cache_key(Kind::Heightmap, deep)).starts_with(every));
}

#[test]
fn clearing_removes_exactly_the_markers_asked_for() {
    let clear = |cache: &mut BTreeMap<String, Vec<u8>>, kind, zoom| {
        let mut removed = 0;
        for prefix in marker_prefixes(kind, zoom) {
            let listed: Vec<String> = cache
                .keys()
                .filter(|k| k.starts_with(&prefix))
                .cloned()
                .collect();
            for key in markers_among(&listed) {
                cache.remove(&key);
                removed += 1;
            }
        }
        removed
    };
    let full: BTreeMap<String, Vec<u8>> = [
        "texture/1/0/0.png",
        "texture/1/0/1.png.404",
        "texture/10/500/400.png.404",
        "heightmap/1/0/0.png.404",
        "normals/1/0/0.png.404",
        "glb/f/1/0/0.glb",
    ]
    .iter()
    .map(|k| (k.to_string(), vec![]))
    .collect();
    for (kind, zoom, gone) in [
        (None, None, 4),
        (None, Some(1), 3),
        (Some(Kind::Texture), None, 2),
        (Some(Kind::Texture), Some(1), 1),
        (Some(Kind::Heightmap), Some(10), 0),
    ] {
        let mut cache = full.clone();
        assert_eq!(clear(&mut cache, kind, zoom), gone);
        assert_eq!(cache.len(), full.len() - gone);
        assert!(cache.contains_key("texture/1/0/0.png"));
        assert!(cache.contains_key("glb/f/1/0/0.glb"));
        if zoom == Some(1) {
            assert!(cache.contains_key("texture/10/500/400.png.404"));
        }
        assert_eq!(clear(&mut cache, kind, zoom), 0);
    }
}
