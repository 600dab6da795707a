//! Paths, replies, fingerprints and builds in flight.

use open_tiles::builder::Timeout;
use open_tiles::fingerprint::{fingerprint, fingerprint_input};
use open_tiles::scan::{Outcome, Summary};
use open_tiles::server::{
    bad_path_reply, build_panicked, busy_reply, done_event, etag, failure_reply, index_reply,
    none_match, output_key, owed_document, parse_tile_path, request, tile_event, tile_reply, InFlight, Reply, ReplyBody,
    RequestStage, Role, ScanGate,
};
use open_tiles::{Config, Error, TileId};
use std::collections::BTreeMap;

fn header<'a>(r: &'a Reply, name: &str) -> Option<&'a str> {
    r.headers
        .iter()
        .find(|(n, _)| n.eq_ignore_ascii_case(name))
        .map(|(_, v)| v.as_str())
}

fn json(r: &Reply) -> serde_json::Value {
    match &r.body {
        ReplyBody::Bytes(b) => serde_json::from_slice(b).unwrap(),
        _ => panic!("no JSON body"),
    }
}

#[test]
fn parses_tile_paths() {
    assert_eq!(
        parse_tile_path("12", "772", "1607.glb").unwrap(),
        TileId::new(12, 772, 1607).unwrap()
    );
    assert!(parse_tile_path("12", "772", "1607").is_err());
    assert!(parse_tile_path("12", "772", "1607.gltf").is_err());
    assert!(parse_tile_path("-1", "0", "0.glb").is_err());
    assert!(parse_tile_path("300", "0", "0.glb").is_err());
    assert!(parse_tile_path("3", "9", "0.glb").is_err());
}

#[test]
fn bad_paths_say_why() {
    let m = |z, x, y| parse_tile_path(z, x, y).unwrap_err();
    assert_eq!(m("12", "772", "1607"), "expected /{z}/{x}/{y}.glb");
    assert_eq!(
        m("-1", "0", "0.glb"),
        "zoom must be a non-negative integer, got \"-1\""
    );
    assert_eq!(
        m("3", "a\"b", "0.glb"),
        "x must be a non-negative integer, got \"a\\\"b\""
    );
    assert_eq!(m("3", "0", ".glb"), "y must be a non-negative integer, got \"\"");
    assert_eq!(m("300", "0", "0.glb"), "zoom 300 out of range");
    assert_eq!(m("23", "0", "0.glb"), "invalid tile: zoom 23 outside 1..=22");
    assert_eq!(
        m("3", "9", "0.glb"),
        "invalid tile: x/y (9, 0) outside 0..8 at zoom 3"
    );
}

#[test]
fn serves_tiles_with_cache_headers() {
    let r = tile_reply("f00d", true, false, &None, 548760);
    assert_eq!(r.status, 200);
    assert!(matches!(r.body, ReplyBody::Tile));
    assert_eq!(header(&r, "content-type"), Some("model/gltf-binary"));
    assert_eq!(
        header(&r, "cache-control"),
        Some("public, max-age=31536000, immutable")
    );
    assert_eq!(header(&r, "access-control-allow-origin"), Some("*"));
    assert_eq!(header(&r, "content-length"), Some("548760"));
    let tag = header(&r, "etag").unwrap().to_string();
    assert_eq!(tag, "\"f00d-548760\"");
    assert_eq!(tag, etag("f00d", 548760));

    // 304 on a matching ETag: no body, no length
    let r = tile_reply("f00d", true, false, &Some(tag.clone()), 548760);
    assert_eq!(r.status, 304);
    assert!(matches!(r.body, ReplyBody::Empty));
    assert_eq!(header(&r, "content-length"), None);
    assert_eq!(header(&r, "etag"), Some(tag.as_str()));

    // HEAD: the same headers, no body
    let r = tile_reply("f00d", false, true, &None, 10);
    assert_eq!(r.status, 200);
    assert!(matches!(r.body, ReplyBody::Empty));
    assert_eq!(header(&r, "content-length"), Some("10"));
    assert_eq!(header(&r, "access-control-allow-origin"), None);
}

#[test]
fn etags_are_found_in_a_list() {
    let tag = etag("f00d", 1);
    assert!(none_match(&format!("\"other\", {tag} ,\"x\""), &tag));
    assert!(!none_match("\"other\"", &tag));
    assert!(!none_match("", &tag));
    assert!(!none_match("*", &tag));
    assert!(!none_match(&format!("W/{tag}"), &tag));
    let r = tile_reply("f00d", true, false, &Some("\"f00d-2\"".into()), 1);
    assert_eq!(r.status, 200);
}

#[test]
fn error_mapping() {
    let bad = parse_tile_path("3", "9", "0.glb").unwrap_err();
    let r = bad_path_reply(true, &bad);
    assert_eq!(r.status, 400);
    assert_eq!(header(&r, "content-type"), Some("application/json"));
    assert_eq!(header(&r, "cache-control"), Some("no-store"));
    assert!(json(&r)["error"].as_str().unwrap().contains("invalid tile"));
    assert_eq!(json(&r)["status"], 400);

    let not_found = Error::NotFound { url: "u".into() };
    let r = failure_reply(true, &not_found);
    assert_eq!(r.status, 404, "nothing upstream at any zoom");
    assert_eq!(header(&r, "cache-control"), Some("public, max-age=3600"));
    assert_eq!(json(&r)["error"], "not found upstream: u");

    let s = |x: &str| x.to_string();
    for (e, status) in [
        (Error::InvalidTile(s("t")), 400),
        (Error::InvalidResolution(1), 400),
        (
            Error::Fetch {
                url: s("u"),
                reason: s("r"),
            },
            502,
        ),
        (
            Error::Decode {
                what: s("w"),
                reason: s("r"),
            },
            500,
        ),
        (
            Error::Io {
                path: s("p"),
                reason: s("r"),
            },
            500,
        ),
    ] {
        let r = failure_reply(false, &e);
        assert_eq!(r.status, status);
        assert_eq!(header(&r, "cache-control"), Some("no-store"));
        assert_eq!(json(&r)["error"], e.to_string());
        assert_eq!(json(&r)["status"], status);
        assert_eq!(header(&r, "access-control-allow-origin"), None);
    }
}

#[test]
fn the_index_describes_the_service() {
    let cfg = Config::default().with_uniform_resolution(17);
    let r = index_reply(&cfg, "f00d", false);
    assert_eq!(r.status, 200);
    assert!(header(&r, "access-control-allow-origin").is_none());
    assert_eq!(header(&r, "cache-control"), Some("no-cache"));
    let v = json(&r);
    assert_eq!(v["name"], "open-tiles");
    assert_eq!(v["version"], "0.1.0");
    assert_eq!(v["tiles"], "/{z}/{x}/{y}.glb");
    assert_eq!(v["fingerprint"], "f00d");
    assert_eq!(v["resolution"][0], 17);
    assert_eq!(v["resolution"].as_array().unwrap().len(), 22);
    assert_eq!(v["example"], "/example/");
    assert_eq!((v["zoom"]["min"].as_u64(), v["zoom"]["max"].as_u64()), (Some(1), Some(22)));
    assert_eq!(v["sources"]["imagery"], "Esri World Imagery");
    assert_eq!(v["conventions"]["up"], "+Y");
}

#[test]
fn fingerprint_tracks_the_config() {
    let a = Config::default();
    let b = Config::default().with_uniform_resolution(33);
    let mut c = Config::default();
    c.provider.texture_max_zoom = 18;
    let (fa, fb, fc) = (fingerprint(&a), fingerprint(&b), fingerprint(&c));
    assert_eq!(fa.len(), 16);
    assert_eq!(fa, fingerprint(&Config::default()));
    assert_ne!(fa, fb);
    assert_ne!(fa, fc);
    // cache location and timeouts don't change the bytes, so not the fingerprint
    let d = Config {
        read_timeout: Timeout::from_secs(99),
        ..Config::with_cache_dir("/elsewhere")
    };
    assert_eq!(fa, fingerprint(&d));
}

#[test]
fn the_fingerprint_is_a_known_hash() {
    let mut cfg = Config::default();
    cfg.include_normals = false;
    assert_eq!(fingerprint(&cfg), "e990d5eb222b8eb1");
    let input = fingerprint_input(&cfg);
    assert_eq!(&input[..5], b"0.1.0");
    assert_eq!(&input[5..9], &257u32.to_le_bytes());
    assert_eq!(&input[input.len() - 3..], &[19, 15, 90]);
    assert_eq!(
        fingerprint(&cfg),
        blake3::hash(&input).to_hex().as_str()[..16]
    );
}

#[test]
fn every_covered_setting_changes_what_is_hashed() {
    let base = fingerprint_input(&Config::default());
    let changes: Vec<fn(&mut Config)> = vec![
        |c| c.provider.texture_url.push('x'),
        |c| c.provider.heightmap_url.push('x'),
        |c| c.provider.normals_url.push('x'),
        |c| c.provider.texture_max_zoom += 1,
        |c| c.provider.heightmap_max_zoom += 1,
        |c| c.provider.normals_max_zoom += 1,
        |c| c.jpeg_quality += 1,
        |c| c.include_normals = false,
        |c| c.set_resolution(22, 5),
        |c| c.provider.imagery_attribution.push('x'),
        |c| c.provider.elevation_attribution.push('x'),
    ];
    for (i, change) in changes.iter().enumerate() {
        let mut cfg = Config::default();
        change(&mut cfg);
        assert_ne!(fingerprint_input(&cfg), base, "change {i}");
    }
    // without normals their source does not matter
    let mut a = Config::default();
    a.include_normals = false;
    let mut b = Config::default();
    b.include_normals = false;
    b.provider.normals_url.push('x');
    assert_eq!(fingerprint(&a), fingerprint(&b));
}

#[test]
fn attributions_enter_the_fingerprint() {
    let mut imagery = Config::default();
    imagery.provider.imagery_attribution = "Someone Else".into();
    let mut elevation = Config::default();
    elevation.provider.elevation_attribution = "Someone Else".into();
    let all = [
        fingerprint(&Config::default()),
        fingerprint(&imagery),
        fingerprint(&elevation),
    ];
    assert!(all[0] != all[1] && all[0] != all[2] && all[1] != all[2]);
    // the kinds of further settings, the attributions, the normal maps' source
    imagery.provider.elevation_attribution = "E".into();
    imagery.provider.normals_url = "n".into();
    let input = fingerprint_input(&imagery);
    assert!(input.ends_with(b"\x5a\x0312\0Someone Else1\0En\0\x0f"));
    imagery.include_normals = false;
    assert!(fingerprint_input(&imagery).ends_with(b"\x5a\x0212\0Someone Else1\0E"));
    assert!(fingerprint_input(&Config::default()).ends_with(b":y:.png\0\x0f"));
}

#[test]
fn attributions_that_run_together_are_told_apart() {
    let with = |imagery: &str, elevation: &str| {
        let mut cfg = Config::default();
        cfg.provider.imagery_attribution = imagery.into();
        cfg.provider.elevation_attribution = elevation.into();
        fingerprint(&cfg)
    };
    let all = [
        with("a\0b", "c"),
        with("a", "b\0c"),
        with("a\0", "b\0c"),
        with("", "a\0b\0c"),
        with("a", "b\0\0c"),
    ];
    for (i, a) in all.iter().enumerate() {
        for b in &all[i + 1..] {
            assert_ne!(a, b);
        }
    }
}

#[test]
fn a_freshly_built_tile_owes_its_document() {
    let t = TileId::new(10, 500, 400).unwrap();
    let owed = |role, outcome| owed_document("0123456789abcdef", t, role, &outcome);
    let failed = || {
        Err(Error::NotFound {
            url: "u".into(),
        })
    };
    assert_eq!(
        owed(Some(Role::Lead), Ok(vec![1])).unwrap(),
        "glb/0123456789abcdef/10/500/400.json"
    );
    assert!(owed(Some(Role::Lead), failed()).is_none());
    assert!(owed(Some(Role::Join), Ok(vec![1])).is_none());
    assert!(owed(None, Ok(vec![1])).is_none());
}

#[test]
fn concurrent_requests_build_once() {
    let t = TileId::new(10, 500, 400).unwrap();
    let other = TileId::new(10, 500, 401).unwrap();
    let mut flying = InFlight::new();
    assert_eq!(flying.claim(t), Role::Lead);
    for _ in 0..11 {
        assert_eq!(flying.claim(t), Role::Join);
    }
    assert_eq!(flying.claim(other), Role::Lead);
    flying.finish(t);
    assert_eq!(flying.claim(other), Role::Join);
    assert_eq!(flying.claim(t), Role::Lead);
    flying.finish(other);
    flying.finish(other);
    assert_eq!(flying.claim(other), Role::Lead);
}

#[test]
fn a_request_reads_claims_builds_and_publishes() {
    let done = |s: RequestStage| match s {
        RequestStage::Done(r) => r,
        _ => panic!("not done"),
    };
    let io = || Error::Io {
        path: "p".into(),
        reason: "r".into(),
    };
    let t = TileId::new(10, 500, 400).unwrap();
    // a cached tile is served as it is
    assert_eq!(done(request().on_output(Ok(Some(b"glTF".to_vec())))).unwrap(), b"glTF");
    // missing, empty and unreadable ones are built
    for reply in [Ok(None), Ok(Some(vec![])), Err(io())] {
        assert!(matches!(request().on_output(reply), RequestStage::Claim));
    }
    let lead = || RequestStage::Claim.on_claim(Role::Lead);
    assert!(matches!(lead(), RequestStage::Build));
    let built = lead().on_built(Ok(b"new".to_vec()));
    match &built {
        RequestStage::Publish(b) => assert_eq!(b, b"new"),
        _ => panic!("expected a publication"),
    }
    assert_eq!(done(built.on_published(Ok(()))).unwrap(), b"new");
    assert!(done(lead().on_built(Err(io()))).is_err());
    assert!(done(RequestStage::Publish(vec![1]).on_published(Err(io()))).is_err());
    // the rest wait and share the outcome, failure included
    let wait = || RequestStage::Claim.on_claim(Role::Join);
    assert!(matches!(wait(), RequestStage::Await));
    assert_eq!(done(wait().on_outcome(t, Some(Ok(vec![7])))).unwrap(), vec![7]);
    assert!(done(wait().on_outcome(t, Some(Err(io())))).is_err());
    assert_eq!(
        done(wait().on_outcome(t, None)).unwrap_err().to_string(),
        "fetch 10/500/400: build task ended without a result"
    );
    assert_eq!(
        build_panicked(t, "boom").to_string(),
        "fetch 10/500/400: build task panicked: boom"
    );
}

#[test]
fn the_metadata_stream() {
    let t = TileId::new(12, 772, 1607).unwrap();
    assert_eq!(
        String::from_utf8(tile_event("glb/f/12/772/1607.json", t, Outcome::Written)).unwrap(),
        "data: {\"tile\":\"12/772/1607\",\"key\":\"glb/f/12/772/1607.json\",\"status\":\"written\"}\n\n"
    );
    // keys are escaped
    let odd = String::from_utf8(tile_event("a\"b\n", t, Outcome::Failed)).unwrap();
    let event: serde_json::Value = serde_json::from_str(odd.trim_start_matches("data: ")).unwrap();
    assert_eq!(event["key"], "a\"b\n");
    assert_eq!(event["status"], "failed");
    assert_eq!(
        done_event(Summary {
            written: 1,
            skipped: 1,
            failed: 0
        }),
        "data: {\"done\":true,\"written\":1,\"skipped\":1,\"failed\":0}\n\n"
    );
    let mut gate = ScanGate { running: false };
    assert!(gate.enter());
    assert!(!gate.enter());
    gate.leave();
    assert!(gate.enter());
    assert_eq!(busy_reply(true).status, 409);
}

#[test]
fn what_was_built_is_served_without_building_again() {
    let t = TileId::new(10, 500, 400).unwrap();
    let key = output_key("0123456789abcdef", t);
    let mut cache: BTreeMap<String, Vec<u8>> = BTreeMap::new();
    let mut builds = 0;
    for _ in 0..3 {
        let mut stage = request();
        let served = loop {
            stage = match stage {
                RequestStage::ReadOutput => stage.on_output(Ok(cache.get(&key).cloned())),
                RequestStage::Claim => stage.on_claim(Role::Lead),
                RequestStage::Build => {
                    builds += 1;
                    stage.on_built(Ok(vec![builds]))
                }
                RequestStage::Publish(ref bytes) => {
                    cache.insert(key.clone(), bytes.clone());
                    stage.on_published(Ok(()))
                }
                RequestStage::Await => panic!("nobody else builds"),
                RequestStage::Done(r) => break r,
            };
        };
        assert_eq!(served.unwrap(), vec![1]);
    }
    assert_eq!(builds, 1);
}
