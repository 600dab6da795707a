//! Built-tile keys and the metadata scan.

use open_tiles::scan::{
    generate_missing, json_key, parse_glb_key, write_missing, Outcome, PublishStage, ScanAction,
    Summary,
};
use open_tiles::server::output_key;
use open_tiles::{Error, TileId};

/// Run a scan over `keys`, `docs` computing and `progress` watching; gives
/// the summary, what was stored and which tiles were computed.
fn run(
    keys: &[&str],
    docs: impl Fn(TileId) -> Option<Vec<u8>>,
    mut progress: impl FnMut(&str, TileId, Outcome) -> bool,
) -> (Summary, Vec<(String, Vec<u8>)>, Vec<TileId>) {
    let mut scan = generate_missing(keys.iter().map(|k| k.to_string()).collect());
    let (mut stored, mut computed) = (Vec::new(), Vec::new());
    loop {
        match scan.step() {
            ScanAction::Finished => break,
            ScanAction::Compute { tile } => {
                computed.push(tile);
                scan.on_computed(tile, docs(tile));
            }
            ScanAction::Store {
                json_key,
                tile,
                bytes,
            } => {
                stored.push((json_key.clone(), bytes));
                scan.on_stored();
                scan.on_reported(progress(&json_key, tile, Outcome::Written));
            }
            ScanAction::Report {
                json_key,
                tile,
                outcome,
            } => scan.on_reported(progress(&json_key, tile, outcome)),
        }
    }
    (scan.summary(), stored, computed)
}

#[test]
fn parses_only_built_tile_keys() {
    let t = parse_glb_key("glb/abcd1234/12/772/1607.glb").unwrap();
    assert_eq!((t.zoom, t.x, t.y), (12, 772, 1607));
    for bad in [
        "glb/abcd1234/12/772/1607.json",
        "glb/12/772/1607.glb",
        "glb/f/deep/12/772/1607.glb",
        "glb/f/99/0/0.glb",
        "glb/f/12/x/0.glb",
        "texture/12/772/1607.png",
    ] {
        assert!(parse_glb_key(bad).is_none(), "{bad}");
    }
}

#[test]
fn output_keys_read_back() {
    let t = TileId::new(12, 772, 1607).unwrap();
    let key = output_key("abcd1234", t);
    assert_eq!(key, "glb/abcd1234/12/772/1607.glb");
    assert_eq!(parse_glb_key(&key), Some(t));
    assert_eq!(json_key(&key), "glb/abcd1234/12/772/1607.json");
}

/// A progress callback returning `false` stops the scan after the
/// current tile: nothing later is touched or reported.
#[test]
fn scan_stops_when_progress_says_so() {
    // two built tiles, both already documented (no fetches involved)
    let keys = [
        "glb/f/10/0/0.glb",
        "glb/f/10/0/0.json",
        "glb/f/10/0/1.glb",
        "glb/f/10/0/1.json",
    ];
    let mut seen = Vec::new();
    let (summary, _, _) = run(
        &keys,
        |_| unreachable!("nothing is missing"),
        |key, tile, outcome| {
            seen.push((key.to_string(), tile, outcome));
            false
        },
    );
    assert_eq!(seen.len(), 1, "{seen:?}");
    assert_eq!(seen[0].0, "glb/f/10/0/0.json");
    assert_eq!(seen[0].2, Outcome::Skipped);
    assert_eq!(
        summary,
        Summary {
            written: 0,
            skipped: 1,
            failed: 0
        }
    );
}

#[test]
fn a_stopped_scan_has_done_a_part_of_a_whole_one() {
    let keys = [
        "glb/f/10/0/0.glb",
        "glb/f/10/0/0.json",
        "glb/f/10/0/1.glb",
        "glb/f/10/0/2.glb",
        "glb/f/10/0/3.glb",
    ];
    let bad = TileId::new(10, 0, 2).unwrap();
    let doc = |t: TileId| (t != bad).then(|| t.to_string().into_bytes());
    for (n, (written, skipped, failed), computed_so_far) in [
        (1, (0, 1, 0), 0),
        (2, (1, 1, 0), 1),
        (3, (1, 1, 1), 2),
        (4, (2, 1, 1), 3),
    ] {
        let mut seen = 0;
        let (summary, stored, computed) = run(&keys, doc, |_, _, _| {
            seen += 1;
            seen < n
        });
        assert_eq!(seen, n);
        assert_eq!(
            summary,
            Summary {
                written,
                skipped,
                failed
            }
        );
        assert_eq!(stored.len(), written);
        assert_eq!(computed.len(), computed_so_far);
    }
    // once stopped it stays so
    let mut scan = generate_missing(vec!["glb/f/10/0/0.glb".to_string()]);
    scan.on_reported(false);
    scan.on_reported(true);
    assert!(matches!(scan.step(), ScanAction::Finished));
}

#[test]
fn one_tile_under_two_fingerprints_is_computed_once() {
    let keys = [
        "glb/fpa/10/500/400.glb",
        "glb/fpb/10/500/400.glb",
        "glb/fpc/10/500/400.glb",
        "glb/fpc/10/500/400.json",
        "glb/readme.txt",
        "glb/fpa/10/1/1.glb",
        "glb/fpb/10/1/1.glb",
    ];
    let bad = TileId::new(10, 1, 1).unwrap();
    let mut seen = Vec::new();
    let (summary, stored, computed) = run(
        &keys,
        |t| (t != bad).then(|| t.to_string().into_bytes()),
        |key, _, outcome| {
            seen.push((key.to_string(), outcome.name()));
            true
        },
    );
    assert_eq!(
        summary,
        Summary {
            written: 2,
            skipped: 1,
            failed: 2
        }
    );
    assert_eq!(computed, vec![TileId::new(10, 500, 400).unwrap(), bad]);
    assert_eq!(
        stored,
        vec![
            ("glb/fpa/10/500/400.json".to_string(), b"10/500/400".to_vec()),
            ("glb/fpb/10/500/400.json".to_string(), b"10/500/400".to_vec()),
        ]
    );
    assert_eq!(
        seen.iter().map(|s| s.1).collect::<Vec<_>>(),
        vec!["written", "written", "skipped", "failed", "failed"]
    );
}

#[test]
fn a_document_that_is_there_is_left_alone() {
    let done = |s: PublishStage| match s {
        PublishStage::Done(r) => r,
        _ => panic!("not done"),
    };
    assert!(!done(write_missing().on_probe(Ok(true))).unwrap());
    let s = write_missing().on_probe(Ok(false));
    assert!(matches!(s, PublishStage::Compute));
    let s = s.on_computed(Ok(b"{}".to_vec()));
    match &s {
        PublishStage::Store(bytes) => assert_eq!(bytes, b"{}"),
        _ => panic!("expected a store"),
    }
    assert!(done(s.on_stored(Ok(()))).unwrap());
    let io = || Error::Io {
        path: "p".into(),
        reason: "r".into(),
    };
    assert!(done(write_missing().on_probe(Err(io()))).is_err());
    assert!(done(write_missing().on_probe(Ok(false)).on_computed(Err(io()))).is_err());
    assert!(done(PublishStage::Store(vec![]).on_stored(Err(io()))).is_err());
}

#[test]
fn a_second_scan_finds_nothing() {
    let keys = [
        "glb/a/10/500/400.glb",
        "glb/a/10/500/401.glb",
        "glb/a/10/500/401.json",
        "glb/b/10/500/400.glb",
        "glb/notes.txt",
    ];
    let doc = |_: TileId| Some(b"{}".to_vec());
    let (first, stored, _) = run(&keys, doc, |_, _, _| true);
    assert_eq!((first.written, first.skipped, first.failed), (2, 1, 0));
    let mut again: Vec<&str> = keys.to_vec();
    again.extend(stored.iter().map(|(k, _)| k.as_str()));
    again.sort();
    let (second, stored, computed) = run(&again, doc, |_, _, o| {
        assert_eq!(o, Outcome::Skipped);
        true
    });
    assert_eq!((second.written, second.skipped, second.failed), (0, 3, 0));
    assert!(stored.is_empty() && computed.is_empty());
}
