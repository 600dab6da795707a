//! Where keys live.

use open_tiles::store::{
    bad, content_type, is_404, is_missing, open, pem_block, pem_certificate, sdk_err, LocalStore, Location,
    S3Store, SdkFailure,
};
use open_tiles::Error;

#[test]
fn open_picks_a_backend() {
    assert_eq!(open("/tmp/x").unwrap().location(), "/tmp/x");
}

#[test]
fn open_knows_buckets() {
    match open("s3://my-tiles/some/prefix").unwrap() {
        Location::S3(s) => {
            assert_eq!(s.bucket(), "my-tiles");
            assert_eq!(s.location(), "s3://my-tiles/some/prefix/");
        }
        Location::Local(_) => panic!("expected a bucket"),
    }
    assert!(matches!(open("s3:///p"), Err(Error::Io { .. })));
}

#[test]
fn s3_url_parsing() {
    // parsing is checked without a connection: bad URLs fail before that
    assert!(matches!(S3Store::from_url("s3://"), Err(Error::Io { .. })));
    assert!(matches!(
        S3Store::from_url("file:///x"),
        Err(Error::Io { .. })
    ));
    assert_eq!(
        S3Store::from_url("s3://").unwrap_err().to_string(),
        "io s3://: missing bucket name"
    );
    assert_eq!(
        S3Store::from_url("file:///x").unwrap_err().to_string(),
        "io file:///x: expected s3://bucket[/prefix]"
    );
    let bare = S3Store::from_url("s3://b").unwrap();
    assert_eq!((bare.bucket(), bare.object_key("a/b").as_str()), ("b", "a/b"));
    let s = S3Store::from_url("s3://b//p/q//").unwrap();
    assert_eq!(s.object_key("a"), "p/q/a");
}

#[test]
fn keys_are_files_under_the_root() {
    let s = LocalStore::new("/data");
    assert_eq!(s.root(), "/data");
    assert_eq!(s.path("x//y/"), "/data/x/y");
    assert_eq!(s.path("texture/5/3/4.png"), "/data/texture/5/3/4.png");
    assert_eq!(s.path(""), "/data");
    assert_eq!(LocalStore::new("/data/").path("x"), "/data/x");
    assert_eq!(LocalStore::new("").path("x/y"), "x/y");
    // the same as joining the parts one by one
    let joined = std::path::Path::new("/data").join("x").join("y");
    assert_eq!(std::path::PathBuf::from(s.path("x//y/")), joined);
}

#[test]
fn objects_sit_under_the_prefix() {
    let s = S3Store::connect("bucket", "/a/b/");
    assert_eq!(s.object_key("x"), "a/b/x");
    assert_eq!(s.object_key("//x"), "a/b/x");
    assert!(!s.object_key("/x").contains("//"));
    assert_eq!(s.url("glb/1"), "s3://bucket/a/b/glb/1");
    assert_eq!(s.store_key("a/b/glb/1").as_deref(), Some("glb/1"));
    assert_eq!(s.store_key("other/glb/1"), None);
    assert_eq!(S3Store::connect("bucket", "///").object_key("x"), "x");
}

#[test]
fn misses_are_404_or_a_bare_403() {
    let code = |s: &str| Some(s.to_string());
    assert!(is_404(Some(404)) && !is_404(Some(403)) && !is_404(None));
    assert!(is_missing(Some(404), &code("NoSuchKey")));
    assert!(is_missing(Some(403), &None));
    assert!(is_missing(Some(403), &code("AccessDenied")));
    assert!(!is_missing(Some(403), &code("SignatureDoesNotMatch")));
    assert!(!is_missing(Some(500), &None));
    assert!(!is_missing(None, &code("AccessDenied")));
}

#[test]
fn failed_requests_give_a_readable_reason() {
    let failure = |status, service, code: Option<&str>, message: Option<&str>| SdkFailure {
        status,
        service,
        code: code.map(String::from),
        message: message.map(String::from),
        chain: vec!["dispatch failure".into(), "io error".into(), "refused".into()],
    };
    let text = |f: SdkFailure| sdk_err("s3://b/k", &f).to_string();
    assert_eq!(
        text(failure(Some(403), true, Some("AccessDenied"), Some("no"))),
        "io s3://b/k: AccessDenied: no"
    );
    assert_eq!(
        text(failure(Some(500), true, Some("Internal"), None)),
        "io s3://b/k: Internal: "
    );
    assert_eq!(text(failure(Some(503), true, None, None)), "io s3://b/k: HTTP 503");
    assert_eq!(
        text(failure(None, false, None, None)),
        "io s3://b/k: dispatch failure: io error: refused"
    );
    assert_eq!(bad("b", "why").to_string(), "io b: why");
}

#[test]
fn uploads_carry_a_content_type() {
    assert_eq!(content_type("glb/f/1/0/0.glb"), "model/gltf-binary");
    assert_eq!(content_type("a.b.png"), "image/png");
    assert_eq!(content_type("x.jpg"), "image/jpeg");
    assert_eq!(content_type("x.jpeg"), "image/jpeg");
    assert_eq!(content_type("x.png.404"), "application/octet-stream");
    assert_eq!(content_type("glb"), "model/gltf-binary");
    assert_eq!(content_type("plain"), "application/octet-stream");
}

#[test]
fn certificates_are_framed_in_lines_of_64() {
    assert_eq!(
        pem_block(""),
        "-----BEGIN CERTIFICATE-----\n-----END CERTIFICATE-----\n"
    );
    let b64 = "x".repeat(130);
    let pem = pem_block(&b64);
    let lines: Vec<&str> = pem.lines().collect();
    assert_eq!(lines[0], "-----BEGIN CERTIFICATE-----");
    assert_eq!(
        lines[1..4].iter().map(|l| l.len()).collect::<Vec<_>>(),
        vec![64, 64, 2]
    );
    assert_eq!(lines[4], "-----END CERTIFICATE-----");
    assert_eq!(lines[1..4].concat(), b64);
    assert_eq!(pem_block(&"y".repeat(64)).lines().count(), 3);
    assert_eq!(
        pem_certificate(b"hello"),
        "-----BEGIN CERTIFICATE-----\naGVsbG8=\n-----END CERTIFICATE-----\n"
    );
    assert_eq!(
        pem_certificate(&[0xfb, 0xef, 0xff, 0x00]),
        "-----BEGIN CERTIFICATE-----\n++//AA==\n-----END CERTIFICATE-----\n"
    );
    // 100 bytes are 134 digits and two signs to fill the last four
    let der: Vec<u8> = (0..100).collect();
    let pem = pem_certificate(&der);
    let text: String = pem.lines().filter(|l| !l.starts_with('-')).collect();
    assert_eq!(text.len(), 136);
    assert!(text.starts_with("AAECAwQFBgcICQoL") && text.ends_with("Yw=="));
}
