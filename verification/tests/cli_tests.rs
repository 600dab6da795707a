//! What the command line decides.

use open_tiles::builder::Timeout;
use open_tiles::cli::{
    build, exit_code, max_builds, metadata_code, metadata_line, output_name, removed_line,
    BuildStage, ProviderFlags,
};
use open_tiles::scan::Summary;
use open_tiles::{Config, Error, TileId};

fn no_flags() -> ProviderFlags {
    ProviderFlags {
        texture_url: None,
        heightmap_url: None,
        normals_url: None,
        texture_max_zoom: None,
        heightmap_max_zoom: None,
        normals_max_zoom: None,
        no_normals: false,
        timeout_s: 10,
    }
}

#[test]
fn invalid_tile_exits_2() {
    let e = TileId::new(3, 9, 0).unwrap_err();
    assert_eq!(exit_code(&e), 2);
    assert!(e.to_string().contains("invalid tile"));
    assert_eq!(exit_code(&TileId::new(0, 0, 0).unwrap_err()), 2);
}

#[test]
fn bad_resolution_exits_2() {
    let mut cfg = Config::default();
    cfg.set_resolution(10, 1);
    let e = open_tiles::builder::check_table(&cfg).unwrap_err();
    assert!(matches!(e, Error::InvalidResolution(1)));
    assert_eq!(exit_code(&e), 2);
    assert!(open_tiles::builder::check_table(&Config::default()).is_ok());
}

#[test]
fn upstream_404_exits_3() {
    assert_eq!(exit_code(&Error::NotFound { url: "u".into() }), 3);
}

#[test]
fn other_failures_exit_4() {
    let (a, b) = (String::from("a"), String::from("b"));
    for (e, text) in [
        (
            Error::Fetch {
                url: a.clone(),
                reason: b.clone(),
            },
            "fetch a: b",
        ),
        (
            Error::Decode {
                what: a.clone(),
                reason: b.clone(),
            },
            "decode a: b",
        ),
        (Error::Io { path: a, reason: b }, "io a: b"),
    ] {
        assert_eq!(exit_code(&e), 4);
        assert_eq!(e.to_string(), text);
    }
    assert_eq!(
        Error::NotFound { url: "u".into() }.to_string(),
        "not found upstream: u"
    );
}

#[test]
fn absent_flags_keep_the_defaults() {
    let mut cfg = Config::default();
    no_flags().apply(&mut cfg);
    assert!(cfg.provider.texture_url.contains("World_Imagery"));
    assert_eq!(cfg.provider.texture_max_zoom, 19);
    assert_eq!(cfg.connect_timeout, Timeout { secs: 5, nanos: 0 });
    assert_eq!(cfg.read_timeout, Timeout { secs: 10, nanos: 0 });
    assert!(cfg.include_normals);
    assert_eq!(cfg.jpeg_quality, 90);
}

#[test]
fn given_flags_are_copied() {
    let mut cfg = Config::default();
    ProviderFlags {
        texture_url: Some("t".into()),
        heightmap_url: Some("h".into()),
        normals_url: Some("n".into()),
        texture_max_zoom: Some(1),
        heightmap_max_zoom: Some(2),
        normals_max_zoom: Some(3),
        no_normals: true,
        timeout_s: 3,
    }
    .apply(&mut cfg);
    let p = &cfg.provider;
    assert_eq!(
        (p.texture_url.as_str(), p.heightmap_url.as_str(), p.normals_url.as_str()),
        ("t", "h", "n")
    );
    assert_eq!(
        (p.texture_max_zoom, p.heightmap_max_zoom, p.normals_max_zoom),
        (1, 2, 3)
    );
    assert!(!cfg.include_normals);
    assert_eq!(cfg.read_timeout, Timeout { secs: 3, nanos: 0 });
    let mut long = no_flags();
    long.timeout_s = u64::MAX;
    long.apply(&mut cfg);
    assert_eq!(cfg.read_timeout, Timeout { secs: u64::MAX, nanos: 0 });
}

#[test]
fn lines_and_codes() {
    let s = Summary {
        written: 118,
        skipped: 3024,
        failed: 0,
    };
    assert_eq!(
        metadata_line(s),
        "metadata: 118 written, 3024 skipped, 0 failed"
    );
    assert_eq!(metadata_code(s), 0);
    assert_eq!(metadata_code(Summary { failed: 1, ..s }), 4);
    assert_eq!(removed_line(4), "removed 4 markers");
    assert_eq!(
        output_name(TileId::new(12, 772, 1607).unwrap()),
        "12-772-1607.glb"
    );
    assert_eq!((max_builds(0), max_builds(7)), (1, 7));
}

#[test]
fn resolutions_can_be_overridden() {
    let mut cfg = Config::with_cache_dir("/c");
    assert_eq!(cfg.cache.location(), "/c");
    assert_eq!(cfg.resolution_for(12), 129);
    cfg.set_resolution(12, 40);
    assert_eq!((cfg.resolution_for(12), cfg.resolution_for(13)), (40, 129));
    let all = cfg.with_uniform_resolution(33);
    assert!((0..=255u8).all(|z| all.resolution_for(z) == 33));
    assert_eq!(Config::default().cache.location(), ".cache");
}

#[test]
fn a_metadata_failure_never_fails_a_build() {
    let io = || Error::Io {
        path: "p".into(),
        reason: "r".into(),
    };
    let run = |tile: Result<Vec<u8>, Error>, written: bool, document: Result<Vec<u8>, Error>| {
        let (mut tile, mut document) = (Some(tile), Some(document));
        let mut stage = build();
        loop {
            stage = match stage {
                BuildStage::Build => stage.on_built(tile.take().unwrap()),
                BuildStage::WriteTile(_) => stage.on_tile_written(written),
                BuildStage::Document => stage.on_document(document.take().unwrap()),
                BuildStage::WriteDocument(ref b) => {
                    assert_eq!(b, b"{}");
                    stage.on_document_written()
                }
                BuildStage::Exit(code) => return code,
            };
        }
    };
    let tile = || Ok(b"glTF".to_vec());
    let document = || Ok(b"{}".to_vec());
    assert_eq!(run(tile(), true, document()), 0);
    assert_eq!(run(tile(), true, Err(io())), 0);
    assert_eq!(run(tile(), false, document()), 4);
    assert_eq!(run(Err(io()), true, document()), 4);
    assert_eq!(run(Err(Error::InvalidResolution(1)), true, document()), 2);
    assert_eq!(run(Err(Error::NotFound { url: "u".into() }), true, document()), 3);
}
