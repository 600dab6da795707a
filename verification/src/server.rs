//! The HTTP server's decisions: `GET /{z}/{x}/{y}.glb`, built on first
//! request, served from the output cache afterwards, one build per tile at a
//! time.
//!
//! Two-tier cache, both tiers in the one store of the
//! [`Config`](crate::builder::Config): the builder's input cache and the
//! output cache `glb/{fingerprint}/{z}/{x}/{y}.glb`.
//!
//! Dedup: the first request for a tile is the *leader* — it builds,
//! publishes the tile to the cache and hands the outcome to every request
//! that came meanwhile. Failures are handed out too, so waiters fail fast
//! instead of each retrying upstream. Requests arriving after publication hit
//! the cache.

use crate::builder::Config;
use crate::error::{Error, ErrorView};
use crate::json;
use crate::json::Tree;
use crate::mesh::ZOOM_LEVELS;
use crate::scan;
use crate::scan::{Outcome, Summary};
use crate::text;
use crate::tile::TileId;
use vstd::prelude::*;

verus! {

// -- addresses ---------------------------------------------------------------------

/// Output-cache key of a tile under a fingerprint.
pub open spec fn output_key_spec(fingerprint: Seq<char>, tile: TileId) -> Seq<char> {
    "glb/"@ + fingerprint + "/"@ + tile.text() + ".glb"@
}

/// Output-cache key of a tile under `fingerprint`.
pub fn output_key(fingerprint: &str, tile: TileId) -> (out: String)
    ensures
        out@ == output_key_spec(fingerprint@, tile),
{
    let name: String = tile.to_string();
    let mut out: String = text::join3("glb/", fingerprint, "/");
    out.append(name.as_str());
    out.append(".glb");
    out
}

/// A string in quotes, its special characters escaped.
pub uninterp spec fn quoted(s: Seq<char>) -> Seq<char>;

/// The `Debug` form of a `str`: depends on the string alone.
#[verifier::external_body]
fn quote(s: &str) -> (out: String)
    ensures
        out@ == quoted(s@),
{
    format!("{:?}", s)
}

/// The message for a path segment that is no number.
pub open spec fn number_message(what: Seq<char>, s: Seq<char>) -> Seq<char> {
    what + " must be a non-negative integer, got "@ + quoted(s)
}

/// The tile that `/{z}/{x}/{y}` addresses, or the message of a 400.
pub open spec fn tile_path_spec(z: Seq<char>, x: Seq<char>, y: Seq<char>) -> Result<
    TileId,
    Seq<char>,
> {
    if !text::has_suffix(y, ".glb"@) {
        Err("expected /{z}/{x}/{y}.glb"@)
    } else {
        let stem = y.take(y.len() - ".glb"@.len());
        let zv = text::unsigned_value(z, 0xffff_ffff);
        let xv = text::unsigned_value(x, 0xffff_ffff);
        let yv = text::unsigned_value(stem, 0xffff_ffff);
        if zv is None {
            Err(number_message("zoom"@, z))
        } else if xv is None {
            Err(number_message("x"@, x))
        } else if yv is None {
            Err(number_message("y"@, stem))
        } else if zv->0 > 255 {
            Err("zoom "@ + text::decimal_text(zv->0) + " out of range"@)
        } else {
            let t = TileId { zoom: zv->0 as u8, x: xv->0 as u32, y: yv->0 as u32 };
            if t.valid() {
                Ok(t)
            } else if !crate::tile::zoom_ok(t.zoom) {
                Err(ErrorView::InvalidTile(crate::tile::zoom_message(t.zoom)).message())
            } else {
                Err(ErrorView::InvalidTile(crate::tile::cell_message(t.zoom, t.x, t.y)).message())
            }
        }
    }
}

fn number_error(what: &str, s: &str) -> (out: String)
    ensures
        out@ == number_message(what@, s@),
{
    let q: String = quote(s);
    text::join3(what, " must be a non-negative integer, got ", q.as_str())
}

/// `("12", "772", "1607.glb")` → the tile; anything else is a 400 message.
pub fn parse_tile_path(z: &str, x: &str, y: &str) -> (r: Result<TileId, String>)
    ensures
        match r {
            Ok(t) => tile_path_spec(z@, x@, y@) == Ok::<TileId, Seq<char>>(t),
            Err(m) => tile_path_spec(z@, x@, y@) == Err::<TileId, Seq<char>>(m@),
        },
{
    let stem: String = match text::strip_suffix(y, ".glb") {
        Some(s) => s,
        None => return Err("expected /{z}/{x}/{y}.glb".to_owned()),
    };
    let zv: u32 = match text::parse_unsigned(z, 0xffff_ffff) {
        Some(v) => v,
        None => return Err(number_error("zoom", z)),
    };
    let xv: u32 = match text::parse_unsigned(x, 0xffff_ffff) {
        Some(v) => v,
        None => return Err(number_error("x", x)),
    };
    let yv: u32 = match text::parse_unsigned(stem.as_str(), 0xffff_ffff) {
        Some(v) => v,
        None => return Err(number_error("y", stem.as_str())),
    };
    if zv > 255 {
        let n: String = text::decimal(zv as u64);
        return Err(text::join3("zoom ", n.as_str(), " out of range"));
    }
    match TileId::new(zv as u8, xv, yv) {
        Ok(t) => Ok(t),
        Err(e) => Err(e.to_string()),
    }
}

// -- replies -----------------------------------------------------------------------

/// What a reply carries.
pub enum ReplyBody {
    /// Nothing.
    Empty,
    /// The tile's bytes.
    Tile,
    /// These bytes.
    Bytes(Vec<u8>),
}

/// A reply: status, headers, body.
pub struct Reply {
    /// HTTP status.
    pub status: u16,
    /// Header names and values.
    pub headers: Vec<(String, String)>,
    /// The body.
    pub body: ReplyBody,
}

/// A [`ReplyBody`] with its bytes as a sequence.
pub enum BodyView {
    /// See [`ReplyBody::Empty`].
    Empty,
    /// See [`ReplyBody::Tile`].
    Tile,
    /// See [`ReplyBody::Bytes`].
    Bytes(Seq<u8>),
}

/// A [`Reply`] with its strings and bytes as sequences.
pub struct ReplyView {
    /// See [`Reply::status`].
    pub status: u16,
    /// See [`Reply::headers`].
    pub headers: Seq<(Seq<char>, Seq<char>)>,
    /// See [`Reply::body`].
    pub body: BodyView,
}

/// Headers as character sequences.
pub open spec fn headers_view(h: Seq<(String, String)>) -> Seq<(Seq<char>, Seq<char>)> {
    h.map_values(|p: (String, String)| (p.0@, p.1@))
}

impl View for Reply {
    type V = ReplyView;

    open spec fn view(&self) -> ReplyView {
        ReplyView {
            status: self.status,
            headers: headers_view(self.headers@),
            body: match self.body {
                ReplyBody::Empty => BodyView::Empty,
                ReplyBody::Tile => BodyView::Tile,
                ReplyBody::Bytes(b) => BodyView::Bytes(b@),
            },
        }
    }
}

/// Headers with `Access-Control-Allow-Origin: *` unless CORS is disabled.
pub open spec fn with_cors(cors: bool, headers: Seq<(Seq<char>, Seq<char>)>) -> Seq<
    (Seq<char>, Seq<char>),
> {
    if cors {
        headers.push(("access-control-allow-origin"@, "*"@))
    } else {
        headers
    }
}

fn header(headers: &mut Vec<(String, String)>, name: &str, value: &str)
    ensures
        headers_view(final(headers)@) == headers_view(old(headers)@).push((name@, value@)),
{
    let ghost before = headers@;
    headers.push((name.to_owned(), value.to_owned()));
    assert(headers_view(headers@) =~= headers_view(before).push((name@, value@)));
}

/// Last step of every reply: attach `Access-Control-Allow-Origin: *` unless
/// CORS was disabled.
fn finish(cors: bool, status: u16, headers: Vec<(String, String)>, body: ReplyBody) -> (r: Reply)
    ensures
        r@ == (ReplyView {
            status,
            headers: with_cors(cors, headers_view(headers@)),
            body: match body {
                ReplyBody::Empty => BodyView::Empty,
                ReplyBody::Tile => BodyView::Tile,
                ReplyBody::Bytes(b) => BodyView::Bytes(b@),
            },
        }),
{
    let mut headers: Vec<(String, String)> = headers;
    if cors {
        header(&mut headers, "access-control-allow-origin", "*");
    }
    Reply { status, headers, body }
}

/// The ETag of a tile: fingerprint and length identify the bytes.
pub open spec fn etag_spec(fingerprint: Seq<char>, len: nat) -> Seq<char> {
    "\""@ + fingerprint + "-"@ + text::decimal_text(len) + "\""@
}

/// The ETag of a tile: fingerprint and length identify the bytes.
pub fn etag(fingerprint: &str, len: usize) -> (out: String)
    ensures
        out@ == etag_spec(fingerprint@, len as nat),
{
    let n: String = text::decimal(len as u64);
    let mut out: String = text::join3("\"", fingerprint, "-");
    out.append(n.as_str());
    out.append("\"");
    out
}

/// One of the comma-separated tags of an `If-None-Match` is `etag`.
pub open spec fn names_tag(value: Seq<char>, etag: Seq<char>) -> bool {
    exists|i: int|
        0 <= i < text::pieces(value, ',').len() && text::trimmed_back(
            text::trimmed_front(#[trigger] text::pieces(value, ',')[i]),
        ) == etag
}

/// Whether one of the comma-separated tags of an `If-None-Match` is `etag`.
pub fn none_match(value: &str, etag: &str) -> (r: bool)
    ensures
        r == names_tag(value@, etag@),
{
    let parts: Vec<String> = text::split(value, ',');
    let ghost all = text::pieces(value@, ',');
    let mut k: usize = 0;
    while k < parts.len()
        invariant
            k <= parts@.len(),
            all == text::pieces(value@, ','),
            text::views(parts@) == all,
            forall|i: int|
                0 <= i < k ==> text::trimmed_back(text::trimmed_front(#[trigger] all[i])) != etag@,
        decreases parts@.len() - k,
    {
        assert(all[k as int] == parts@[k as int]@);
        let tag: String = text::trim(parts[k].as_str());
        if text::same(tag.as_str(), etag) {
            assert(text::trimmed_back(text::trimmed_front(all[k as int])) == etag@);
            return true;
        }
        k = k + 1;
    }
    false
}

/// The headers every answer with a tile carries.
pub open spec fn tile_headers(etag: Seq<char>) -> Seq<(Seq<char>, Seq<char>)> {
    seq![
        ("content-type"@, "model/gltf-binary"@),
        ("cache-control"@, "public, max-age=31536000, immutable"@),
        ("etag"@, etag),
    ]
}

/// The answer with a tile of `len` bytes: 304 without a body when the client
/// has it; else 200 with its length, and the bytes unless only the head was
/// asked for.
pub open spec fn tile_reply_spec(
    fingerprint: Seq<char>,
    cors: bool,
    head: bool,
    if_none_match: Option<Seq<char>>,
    len: nat,
) -> ReplyView {
    let tag = etag_spec(fingerprint, len);
    if if_none_match is Some && names_tag(if_none_match->0, tag) {
        ReplyView {
            status: 304,
            headers: with_cors(cors, tile_headers(tag)),
            body: BodyView::Empty,
        }
    } else {
        ReplyView {
            status: 200,
            headers: with_cors(
                cors,
                tile_headers(tag).push(("content-length"@, text::decimal_text(len))),
            ),
            body: if head {
                BodyView::Empty
            } else {
                BodyView::Tile
            },
        }
    }
}

/// The answer with a tile of `len` bytes.
pub fn tile_reply(
    fingerprint: &str,
    cors: bool,
    head: bool,
    if_none_match: &Option<String>,
    len: usize,
) -> (r: Reply)
    ensures
        r@ == tile_reply_spec(
            fingerprint@,
            cors,
            head,
            crate::store::text_view(*if_none_match),
            len as nat,
        ),
{
    let tag: String = etag(fingerprint, len);
    let mut headers: Vec<(String, String)> = Vec::new();
    assert(headers_view(headers@) =~= Seq::empty());
    header(&mut headers, "content-type", "model/gltf-binary");
    header(&mut headers, "cache-control", "public, max-age=31536000, immutable");
    header(&mut headers, "etag", tag.as_str());
    assert(headers_view(headers@) =~= tile_headers(tag@));
    let matches: bool = match if_none_match {
        Some(v) => none_match(v.as_str(), tag.as_str()),
        None => false,
    };
    if matches {
        return finish(cors, 304, headers, ReplyBody::Empty);
    }
    let n: String = text::decimal(len as u64);
    header(&mut headers, "content-length", n.as_str());
    let body: ReplyBody = if head {
        ReplyBody::Empty
    } else {
        ReplyBody::Tile
    };
    finish(cors, 200, headers, body)
}

/// Status and cache policy of the answer to a failure.
pub open spec fn status_spec(e: ErrorView) -> (u16, Seq<char>) {
    match e {
        ErrorView::InvalidTile(_) => (400, "no-store"@),
        ErrorView::InvalidResolution(_) => (400, "no-store"@),
        ErrorView::NotFound { .. } => (404, "public, max-age=3600"@),
        ErrorView::Fetch { .. } => (502, "no-store"@),
        ErrorView::Decode { .. } => (500, "no-store"@),
        ErrorView::Io { .. } => (500, "no-store"@),
    }
}

fn status_of(e: &Error) -> (r: (u16, &'static str))
    ensures
        (r.0, r.1@) == status_spec(e@),
{
    match e {
        Error::InvalidTile(_) => (400, "no-store"),
        Error::InvalidResolution(_) => (400, "no-store"),
        Error::NotFound { .. } => (404, "public, max-age=3600"),
        Error::Fetch { .. } => (502, "no-store"),
        Error::Decode { .. } => (500, "no-store"),
        Error::Io { .. } => (500, "no-store"),
    }
}

/// The body of an error reply: `{"error", "status"}`.
pub open spec fn error_tree(status: u16, message: Seq<char>) -> Tree {
    Tree::Object(map!["error"@ => Tree::Text(message), "status"@ => json::whole(status as nat)])
}

/// A JSON reply.
pub open spec fn json_reply(cors: bool, status: u16, cache: Seq<char>, body: Seq<u8>) -> ReplyView {
    ReplyView {
        status,
        headers: with_cors(
            cors,
            seq![("content-type"@, "application/json"@), ("cache-control"@, cache)],
        ),
        body: BodyView::Bytes(body),
    }
}

/// A JSON error reply with the given cache policy.
pub open spec fn error_reply_spec(
    cors: bool,
    status: u16,
    message: Seq<char>,
    cache: Seq<char>,
) -> ReplyView {
    json_reply(cors, status, cache, json::json_text(error_tree(status, message)))
}

fn error_body(status: u16, message: &str) -> (out: Vec<u8>)
    ensures
        out@ == json::json_text(error_tree(status, message@)),
{
    let mut f: Vec<(String, serde_json::Value)> = Vec::new();
    json::field(&mut f, "error", json::text(message));
    json::field(&mut f, "status", json::uint(status as u64));
    json::to_bytes(&json::object(f))
}

fn json_response(cors: bool, status: u16, cache: &str, body: Vec<u8>) -> (r: Reply)
    ensures
        r@ == json_reply(cors, status, cache@, body@),
{
    let mut headers: Vec<(String, String)> = Vec::new();
    assert(headers_view(headers@) =~= Seq::empty());
    header(&mut headers, "content-type", "application/json");
    header(&mut headers, "cache-control", cache);
    assert(headers_view(headers@) =~= seq![
        ("content-type"@, "application/json"@),
        ("cache-control"@, cache@),
    ]);
    finish(cors, status, headers, ReplyBody::Bytes(body))
}

/// A JSON error body `{"error", "status"}` with the given cache policy.
pub fn error_response(cors: bool, status: u16, message: &str, cache: &str) -> (r: Reply)
    ensures
        r@ == error_reply_spec(cors, status, message@, cache@),
{
    let body: Vec<u8> = error_body(status, message);
    json_response(cors, status, cache, body)
}

/// The answer to a path that names no tile.
pub fn bad_path_reply(cors: bool, message: &str) -> (r: Reply)
    ensures
        r@ == error_reply_spec(cors, 400, message@, "no-store"@),
{
    error_response(cors, 400, message, "no-store")
}

/// The answer to a request for a tile that failed.
pub fn failure_reply(cors: bool, e: &Error) -> (r: Reply)
    ensures
        r@ == error_reply_spec(cors, status_spec(e@).0, e@.message(), status_spec(e@).1),
{
    let (status, cache): (u16, &'static str) = status_of(e);
    let message: String = e.to_string();
    error_response(cors, status, message.as_str(), cache)
}

/// A resolution table.
pub open spec fn table_tree(table: Seq<u32>) -> Tree {
    Tree::List(table.map_values(|r: u32| json::whole(r as nat)))
}

/// The service description.
pub open spec fn index_tree(cfg: Config, fingerprint: Seq<char>) -> Tree {
    Tree::Object(
        map![
            "name"@ => Tree::Text("open-tiles"@),
            "version"@ => Tree::Text("0.1.0"@),
            "fingerprint"@ => Tree::Text(fingerprint),
            "tiles"@ => Tree::Text("/{z}/{x}/{y}.glb"@),
            "example"@ => Tree::Text("/example/"@),
            "zoom"@ => Tree::Object(map!["min"@ => json::whole(1), "max"@ => json::whole(22)]),
            "resolution"@ => table_tree(cfg.resolution@),
            "conventions"@ => Tree::Object(
                map![
                    "units"@ => Tree::Text("metres"@),
                    "up"@ => Tree::Text("+Y"@),
                    "origin"@ => Tree::Text("north-west corner; +X east, +Z south"@),
                    "y"@ => Tree::Text(
                        "metres above sea level; place tiles with an X/Z translation only"@,
                    ),
                ],
            ),
            "sources"@ => Tree::Object(
                map![
                    "imagery"@ => Tree::Text(cfg.provider.imagery_attribution@),
                    "elevation"@ => Tree::Text(cfg.provider.elevation_attribution@),
                ],
            ),
        ],
    )
}

fn table_value(cfg: &Config) -> (v: serde_json::Value)
    ensures
        json::tree_of(v) == table_tree(cfg.resolution@),
{
    let ghost all = cfg.resolution@.map_values(|r: u32| json::whole(r as nat));
    let mut values: Vec<serde_json::Value> = Vec::new();
    let mut k: usize = 0;
    while k < ZOOM_LEVELS
        invariant
            k <= ZOOM_LEVELS,
            all == cfg.resolution@.map_values(|r: u32| json::whole(r as nat)),
            json::trees_of(values@) == all.take(k as int),
        decreases ZOOM_LEVELS - k,
    {
        let ghost before = json::trees_of(values@);
        let v: serde_json::Value = json::uint(cfg.resolution[k] as u64);
        values.push(v);
        assert(json::trees_of(values@) =~= before.push(json::tree_of(v)));
        assert(json::trees_of(values@) =~= all.take(k + 1));
        k = k + 1;
    }
    assert(json::trees_of(values@) =~= all);
    json::list(values)
}

/// `GET /` — the service description: name, version, fingerprint, tile URL
/// template, zoom range, resolution table, frame conventions, attribution.
pub fn index_reply(cfg: &Config, fingerprint: &str, cors: bool) -> (r: Reply)
    ensures
        r@ == json_reply(
            cors,
            200,
            "no-cache"@,
            json::json_text(index_tree(*cfg, fingerprint@)),
        ),
{
    let mut zoom: Vec<(String, serde_json::Value)> = Vec::new();
    json::field(&mut zoom, "min", json::uint(1));
    json::field(&mut zoom, "max", json::uint(22));
    let mut conventions: Vec<(String, serde_json::Value)> = Vec::new();
    json::field(&mut conventions, "units", json::text("metres"));
    json::field(&mut conventions, "up", json::text("+Y"));
    json::field(&mut conventions, "origin", json::text("north-west corner; +X east, +Z south"));
    json::field(
        &mut conventions,
        "y",
        json::text("metres above sea level; place tiles with an X/Z translation only"),
    );
    let mut sources: Vec<(String, serde_json::Value)> = Vec::new();
    json::field(
        &mut sources,
        "imagery",
        json::text(cfg.provider.imagery_attribution.as_str()),
    );
    json::field(
        &mut sources,
        "elevation",
        json::text(cfg.provider.elevation_attribution.as_str()),
    );
    let mut f: Vec<(String, serde_json::Value)> = Vec::new();
    json::field(&mut f, "name", json::text("open-tiles"));
    json::field(&mut f, "version", json::text("0.1.0"));
    json::field(&mut f, "fingerprint", json::text(fingerprint));
    json::field(&mut f, "tiles", json::text("/{z}/{x}/{y}.glb"));
    json::field(&mut f, "example", json::text("/example/"));
    json::field(&mut f, "zoom", json::object(zoom));
    json::field(&mut f, "resolution", table_value(cfg));
    json::field(&mut f, "conventions", json::object(conventions));
    json::field(&mut f, "sources", json::object(sources));
    let body: Vec<u8> = json::to_bytes(&json::object(f));
    json_response(cors, 200, "no-cache", body)
}

// -- one request -------------------------------------------------------------------

/// What one request for a tile does next.
pub enum RequestStage {
    /// Read the output cache.
    ReadOutput,
    /// Claim the tile: lead its build or join one in flight.
    Claim,
    /// Build the tile.
    Build,
    /// Write these bytes to the output cache.
    Publish(Vec<u8>),
    /// Wait for the leader's outcome.
    Await,
    /// Nothing more: this is the outcome.
    Done(Result<Vec<u8>, Error>),
}

/// A [`RequestStage`] with its bytes and its error as models.
pub enum RequestView {
    /// See [`RequestStage::ReadOutput`].
    ReadOutput,
    /// See [`RequestStage::Claim`].
    Claim,
    /// See [`RequestStage::Build`].
    Build,
    /// See [`RequestStage::Publish`].
    Publish(Seq<u8>),
    /// See [`RequestStage::Await`].
    Await,
    /// See [`RequestStage::Done`].
    Done(Result<Seq<u8>, ErrorView>),
}

impl View for RequestStage {
    type V = RequestView;

    open spec fn view(&self) -> RequestView {
        match *self {
            RequestStage::ReadOutput => RequestView::ReadOutput,
            RequestStage::Claim => RequestView::Claim,
            RequestStage::Build => RequestView::Build,
            RequestStage::Publish(b) => RequestView::Publish(b@),
            RequestStage::Await => RequestView::Await,
            RequestStage::Done(r) => RequestView::Done(crate::error::bytes_view(r)),
        }
    }
}

/// A request's part in the build of its tile.
#[derive(Clone, Copy, Debug, PartialEq, Eq, Structural)]
pub enum Role {
    /// Build the tile.
    Lead,
    /// Wait for the one that builds it.
    Join,
}

/// After reading the output cache: a tile with bytes is the outcome; a
/// missing, empty or unreadable one is a reason to build.
pub open spec fn after_output(reply: Result<Option<Seq<u8>>, ErrorView>) -> RequestView {
    match reply {
        Ok(Some(bytes)) => if bytes.len() > 0 {
            RequestView::Done(Ok(bytes))
        } else {
            RequestView::Claim
        },
        _ => RequestView::Claim,
    }
}

/// After claiming the tile.
pub open spec fn after_claim(role: Role) -> RequestView {
    match role {
        Role::Lead => RequestView::Build,
        Role::Join => RequestView::Await,
    }
}

/// After building: the tile is published before it is the outcome.
pub open spec fn after_build(reply: Result<Seq<u8>, ErrorView>) -> RequestView {
    match reply {
        Ok(bytes) => RequestView::Publish(bytes),
        Err(e) => RequestView::Done(Err(e)),
    }
}

/// After publishing.
pub open spec fn after_publish(bytes: Seq<u8>, reply: Result<(), ErrorView>) -> RequestView {
    match reply {
        Ok(_) => RequestView::Done(Ok(bytes)),
        Err(e) => RequestView::Done(Err(e)),
    }
}

/// The failure of a request whose leader vanished.
pub open spec fn vanished(tile: TileId) -> ErrorView {
    ErrorView::Fetch { url: tile.text(), reason: "build task ended without a result"@ }
}

/// After waiting: the leader's outcome, failure included.
pub open spec fn after_wait(tile: TileId, reply: Option<Result<Seq<u8>, ErrorView>>) -> RequestView {
    match reply {
        Some(outcome) => RequestView::Done(outcome),
        None => RequestView::Done(Err(vanished(tile))),
    }
}

/// Start a request for a tile.
pub fn request() -> (s: RequestStage)
    ensures
        s@ == RequestView::ReadOutput,
{
    RequestStage::ReadOutput
}

impl RequestStage {
    /// The output cache was read.
    pub fn on_output(self, reply: Result<Option<Vec<u8>>, Error>) -> (s: RequestStage)
        requires
            self is ReadOutput,
        ensures
            s@ == after_output(crate::fetch::entry_view(reply)),
    {
        match reply {
            Ok(Some(bytes)) => if bytes.len() > 0 {
                RequestStage::Done(Ok(bytes))
            } else {
                RequestStage::Claim
            },
            Ok(None) => RequestStage::Claim,
            Err(_) => RequestStage::Claim,
        }
    }

    /// The tile was claimed.
    pub fn on_claim(self, role: Role) -> (s: RequestStage)
        requires
            self is Claim,
        ensures
            s@ == after_claim(role),
    {
        match role {
            Role::Lead => RequestStage::Build,
            Role::Join => RequestStage::Await,
        }
    }

    /// The build ended.
    pub fn on_built(self, reply: Result<Vec<u8>, Error>) -> (s: RequestStage)
        requires
            self is Build,
        ensures
            s@ == after_build(crate::error::bytes_view(reply)),
    {
        match reply {
            Ok(bytes) => RequestStage::Publish(bytes),
            Err(e) => RequestStage::Done(Err(e)),
        }
    }

    /// The tile was published.
    pub fn on_published(self, reply: Result<(), Error>) -> (s: RequestStage)
        requires
            self is Publish,
        ensures
            s@ == after_publish(self->Publish_0@, crate::fetch::write_view(reply)),
    {
        match reply {
            Err(e) => RequestStage::Done(Err(e)),
            Ok(()) => match self {
                RequestStage::Publish(bytes) => RequestStage::Done(Ok(bytes)),
                other => other,
            },
        }
    }

    /// The leader's outcome came, or the leader vanished without one.
    pub fn on_outcome(self, tile: TileId, reply: Option<Result<Vec<u8>, Error>>) -> (s:
        RequestStage)
        requires
            self is Await,
        ensures
            s@ == after_wait(
                tile,
                match reply {
                    Some(r) => Some(crate::error::bytes_view(r)),
                    None => None,
                },
            ),
    {
        match reply {
            Some(r) => RequestStage::Done(r),
            None => RequestStage::Done(
                Err(
                    Error::Fetch {
                        url: tile.to_string(),
                        reason: "build task ended without a result".to_owned(),
                    },
                ),
            ),
        }
    }
}

/// A request owes the metadata document of its tile: it led the build, and
/// the tile was built and cached.
pub open spec fn document_owed(role: Option<Role>, built: bool) -> bool {
    role == Some(Role::Lead) && built
}

/// The metadata document that a request owes once it is done, by its key: the
/// one next to a freshly built tile. A request that found its tile in the
/// cache, that joined another's build or that failed owes none.
pub fn owed_document(
    fingerprint: &str,
    tile: TileId,
    role: Option<Role>,
    outcome: &Result<Vec<u8>, Error>,
) -> (r: Option<String>)
    ensures
        r is Some <==> document_owed(role, outcome is Ok),
        r is Some ==> r->0@ == scan::json_key_spec(output_key_spec(fingerprint@, tile)),
{
    match (role, outcome) {
        (Some(Role::Lead), Ok(_)) => {
            let name: String = tile.to_string();
            let mut out: String = text::join3("glb/", fingerprint, "/");
            out.append(name.as_str());
            out.append(".json");
            proof {
                reveal_strlit(".glb");
                let stem = "glb/"@ + fingerprint@ + "/"@ + tile.text();
                let key = output_key_spec(fingerprint@, tile);
                assert(key.take(key.len() - 4) =~= stem);
            }
            Some(out)
        },
        _ => None,
    }
}

/// The failure of a build that panicked.
pub fn build_panicked(tile: TileId, what: &str) -> (e: Error)
    ensures
        e@ == (ErrorView::Fetch { url: tile.text(), reason: "build task panicked: "@ + what@ }),
{
    Error::Fetch { url: tile.to_string(), reason: text::join2("build task panicked: ", what) }
}

// -- builds in flight --------------------------------------------------------------

/// The tiles being built, each by one leader.
pub struct InFlight {
    tiles: Vec<TileId>,
}

impl InFlight {
    /// The tiles being built.
    pub closed spec fn tiles(self) -> Set<TileId> {
        self.tiles@.to_set()
    }

    /// No tile is listed twice.
    pub closed spec fn wf(self) -> bool {
        self.tiles@.no_duplicates()
    }

    /// Nothing is being built.
    pub fn new() -> (s: InFlight)
        ensures
            s.wf(),
            s.tiles() == Set::<TileId>::empty(),
    {
        let s: InFlight = InFlight { tiles: Vec::new() };
        assert(s.tiles() =~= Set::empty());
        s
    }

    /// Where `tile` is listed.
    fn position(&self, tile: TileId) -> (r: Option<usize>)
        ensures
            r is Some <==> self.tiles().contains(tile),
            r is Some ==> r->0 < self.tiles@.len() && self.tiles@[r->0 as int] == tile,
    {
        let mut k: usize = 0;
        while k < self.tiles.len()
            invariant
                k <= self.tiles@.len(),
                forall|i: int| 0 <= i < k ==> self.tiles@[i] != tile,
            decreases self.tiles@.len() - k,
        {
            if self.tiles[k] == tile {
                assert(self.tiles@.contains(tile));
                return Some(k);
            }
            k = k + 1;
        }
        None
    }

    /// Claim `tile`: the first to do so leads its build, the rest join.
    pub fn claim(&mut self, tile: TileId) -> (role: Role)
        requires
            old(self).wf(),
        ensures
            final(self).wf(),
            role == (if old(self).tiles().contains(tile) {
                Role::Join
            } else {
                Role::Lead
            }),
            final(self).tiles() == old(self).tiles().insert(tile),
    {
        let ghost before = self.tiles@;
        match self.position(tile) {
            Some(_) => {
                assert(self.tiles() =~= before.to_set().insert(tile));
                Role::Join
            },
            None => {
                assert(!before.contains(tile)) by {
                    if before.contains(tile) {
                        assert(before.to_set().contains(tile));
                    }
                }
                self.tiles.push(tile);
                proof {
                    let now = self.tiles@;
                    assert(now.no_duplicates()) by {
                        assert forall|i: int, j: int|
                            0 <= i < now.len() && 0 <= j < now.len() && i != j implies now[i]
                            != now[j] by {
                            if i < before.len() {
                                assert(before.contains(before[i]));
                            }
                            if j < before.len() {
                                assert(before.contains(before[j]));
                            }
                        }
                    }
                    assert forall|t: TileId|
                        now.to_set().contains(t) <==> before.to_set().insert(tile).contains(t) by {
                        if now.contains(t) {
                            let i = choose|i: int| 0 <= i < now.len() && now[i] == t;
                            if i < before.len() {
                                assert(before[i] == t);
                                assert(before.contains(t));
                            }
                        }
                        if before.contains(t) {
                            let i = choose|i: int| 0 <= i < before.len() && before[i] == t;
                            assert(now[i] == t);
                            assert(now.contains(t));
                        }
                        if t == tile {
                            assert(now[before.len() as int] == t);
                            assert(now.contains(t));
                        }
                    }
                    assert(self.tiles() =~= before.to_set().insert(tile));
                }
                Role::Lead
            },
        }
    }

    /// The build of `tile` is over.
    pub fn finish(&mut self, tile: TileId)
        requires
            old(self).wf(),
        ensures
            final(self).wf(),
            final(self).tiles() == old(self).tiles().remove(tile),
    {
        let ghost before = self.tiles@;
        match self.position(tile) {
            None => {
                assert(self.tiles() =~= before.to_set().remove(tile));
            },
            Some(k) => {
                let ghost ki = k as int;
                self.tiles.remove(k);
                proof {
                    let now = self.tiles@;
                    assert(now == before.remove(ki));
                    assert forall|i: int| 0 <= i < now.len() implies now[i] == (if i < ki {
                        before[i]
                    } else {
                        before[i + 1]
                    }) by {}
                    assert forall|t: TileId|
                        now.to_set().contains(t) <==> before.to_set().remove(tile).contains(t) by {
                        if now.contains(t) {
                            let i = choose|i: int| 0 <= i < now.len() && now[i] == t;
                            if i < ki {
                                assert(before[i] == t);
                            } else {
                                assert(before[i + 1] == t);
                            }
                            assert(before.contains(t));
                        }
                        if before.contains(t) && t != tile {
                            let i = choose|i: int| 0 <= i < before.len() && before[i] == t;
                            if i < ki {
                                assert(now[i] == t);
                            } else {
                                assert(now[i - 1] == t);
                            }
                            assert(now.contains(t));
                        }
                    }
                    assert(self.tiles() =~= before.to_set().remove(tile));
                }
            },
        }
    }
}

// -- the metadata stream -----------------------------------------------------------

/// Lets one scan run at a time.
pub struct ScanGate {
    /// A scan is running.
    pub running: bool,
}

impl ScanGate {
    /// Enter unless a scan is running; whether it was entered.
    pub fn enter(&mut self) -> (entered: bool)
        ensures
            entered == !old(self).running,
            final(self).running,
    {
        let entered: bool = !self.running;
        self.running = true;
        entered
    }

    /// The scan is over.
    pub fn leave(&mut self)
        ensures
            !final(self).running,
    {
        self.running = false;
    }
}

/// The answer to a request for a scan while one is running.
pub fn busy_reply(cors: bool) -> (r: Reply)
    ensures
        r@ == error_reply_spec(cors, 409, "a metadata scan is already running"@, "no-store"@),
{
    error_response(cors, 409, "a metadata scan is already running", "no-store")
}

/// A JSON string.
pub open spec fn json_string(s: Seq<char>) -> Seq<u8> {
    json::json_text(Tree::Text(s))
}

/// The event for one tile of a scan.
pub open spec fn tile_event_spec(json_key: Seq<char>, tile: TileId, outcome: Outcome) -> Seq<u8> {
    vstd::utf8::encode_utf8("data: {\"tile\":"@) + json_string(tile.text())
        + vstd::utf8::encode_utf8(",\"key\":"@) + json_string(json_key) + vstd::utf8::encode_utf8(
        ",\"status\":"@,
    ) + json_string(outcome.name_spec()) + vstd::utf8::encode_utf8("}\n\n"@)
}

fn push_text(out: &mut Vec<u8>, s: &str)
    ensures
        final(out)@ == old(out)@ + vstd::utf8::encode_utf8(s@),
{
    crate::bytes::extend(out, s.as_bytes());
}

fn push_json_string(out: &mut Vec<u8>, s: &str)
    ensures
        final(out)@ == old(out)@ + json_string(s@),
{
    let v: Vec<u8> = json::to_bytes(&json::text(s));
    crate::bytes::extend(out, v.as_slice());
}

/// The event for one tile of a scan, as it is streamed.
pub fn tile_event(json_key: &str, tile: TileId, outcome: Outcome) -> (out: Vec<u8>)
    ensures
        out@ == tile_event_spec(json_key@, tile, outcome),
{
    let name: String = tile.to_string();
    let mut out: Vec<u8> = Vec::new();
    push_text(&mut out, "data: {\"tile\":");
    assert(out@ =~= vstd::utf8::encode_utf8("data: {\"tile\":"@));
    push_json_string(&mut out, name.as_str());
    push_text(&mut out, ",\"key\":");
    push_json_string(&mut out, json_key);
    push_text(&mut out, ",\"status\":");
    push_json_string(&mut out, outcome.name());
    push_text(&mut out, "}\n\n");
    out
}

/// The last event of a scan.
pub open spec fn done_event_spec(s: Summary) -> Seq<char> {
    "data: {\"done\":true,\"written\":"@ + text::decimal_text(s.written as nat)
        + ",\"skipped\":"@ + text::decimal_text(s.skipped as nat) + ",\"failed\":"@
        + text::decimal_text(s.failed as nat) + "}\n\n"@
}

/// The last event of a scan: its summary.
pub fn done_event(s: Summary) -> (out: String)
    ensures
        out@ == done_event_spec(s),
{
    let w: String = text::decimal(s.written as u64);
    let k: String = text::decimal(s.skipped as u64);
    let f: String = text::decimal(s.failed as u64);
    let mut out: String = text::join3(
        "data: {\"done\":true,\"written\":",
        w.as_str(),
        ",\"skipped\":",
    );
    out.append(k.as_str());
    out.append(",\"failed\":");
    out.append(f.as_str());
    out.append("}\n\n");
    out
}

// -- laws ------------------------------------------------------------------------

proof fn lemma_no_slash_in_decimal(n: nat)
    ensures
        !text::decimal_text(n).contains('/'),
{
    text::lemma_decimal_text(n);
    let s = text::decimal_text(n);
    if s.contains('/') {
        let i = choose|i: int| 0 <= i < s.len() && s[i] == '/';
        assert(text::is_digit(s[i]));
    }
}

/// A built tile's key reads back as its tile, whatever the fingerprint, as
/// long as that holds no `/`.
pub proof fn law_output_keys_read_back(fingerprint: Seq<char>, t: TileId)
    requires
        t.valid(),
        !fingerprint.contains('/'),
    ensures
        scan::glb_key_tile(output_key_spec(fingerprint, t)) == Some(t),
{
    reveal_strlit("glb/");
    reveal_strlit("glb");
    reveal_strlit("/");
    reveal_strlit(".glb");
    let z = text::decimal_text(t.zoom as nat);
    let x = text::decimal_text(t.x as nat);
    let y = text::decimal_text(t.y as nat);
    let last = y + ".glb"@;
    lemma_no_slash_in_decimal(t.zoom as nat);
    lemma_no_slash_in_decimal(t.x as nat);
    lemma_no_slash_in_decimal(t.y as nat);
    let glb = "glb"@;
    assert(!glb.contains('/')) by {
        if glb.contains('/') {
            let i = choose|i: int| 0 <= i < glb.len() && glb[i] == '/';
        }
    }
    assert(!last.contains('/')) by {
        if last.contains('/') {
            let i = choose|i: int| 0 <= i < last.len() && last[i] == '/';
            if i < y.len() {
                assert(y[i] == '/');
                assert(y.contains('/'));
            } else {
                assert(".glb"@[i - y.len()] == '/');
            }
        }
    }
    let slash = seq!['/'];
    let key = output_key_spec(fingerprint, t);
    let k4 = x + slash + last;
    let k3 = z + slash + k4;
    let k2 = fingerprint + slash + k3;
    assert(key =~= glb + slash + k2);
    text::lemma_pieces_of_two(glb, k2, '/');
    text::lemma_pieces_of_two(fingerprint, k3, '/');
    text::lemma_pieces_of_two(z, k4, '/');
    text::lemma_pieces_of_two(x, last, '/');
    text::lemma_single_piece(glb, '/');
    text::lemma_single_piece(fingerprint, '/');
    text::lemma_single_piece(z, '/');
    text::lemma_single_piece(x, '/');
    text::lemma_single_piece(last, '/');
    let p = text::pieces(key, '/');
    assert(p =~= seq![glb, fingerprint, z, x, last]);
    assert(last.skip(last.len() - 4) =~= ".glb"@);
    assert(last.take(last.len() - 4) =~= y);
    crate::tile::lemma_axis_bound(t.zoom as nat);
    text::law_decimal_reads_back(t.zoom as nat, 255);
    text::law_decimal_reads_back(t.x as nat, 0xffff_ffff);
    text::law_decimal_reads_back(t.y as nat, 0xffff_ffff);
}

/// Every tile is served at the path that writes out its address.
pub proof fn law_tile_paths_read_back(t: TileId)
    requires
        t.valid(),
    ensures
        tile_path_spec(
            text::decimal_text(t.zoom as nat),
            text::decimal_text(t.x as nat),
            text::decimal_text(t.y as nat) + ".glb"@,
        ) == Ok::<TileId, Seq<char>>(t),
{
    let y = text::decimal_text(t.y as nat);
    let last = y + ".glb"@;
    assert(last.skip(last.len() - ".glb"@.len()) =~= ".glb"@);
    assert(last.take(last.len() - ".glb"@.len()) =~= y);
    text::law_decimal_reads_back(t.zoom as nat, 0xffff_ffff);
    text::law_decimal_reads_back(t.x as nat, 0xffff_ffff);
    text::law_decimal_reads_back(t.y as nat, 0xffff_ffff);
}

/// A client that sends back a tile's ETag is told that it has the tile: 304
/// and no body, whatever stands before or after the tag in the list.
pub proof fn law_own_etag_is_not_modified(
    fingerprint: Seq<char>,
    cors: bool,
    head: bool,
    before: Seq<char>,
    after: Seq<char>,
    len: nat,
)
    requires
        !fingerprint.contains(','),
    ensures
        ({
            let tag = etag_spec(fingerprint, len);
            let alone = tile_reply_spec(fingerprint, cors, head, Some(tag), len);
            let listed = tile_reply_spec(
                fingerprint,
                cors,
                head,
                Some(before + seq![','] + tag + seq![','] + after),
                len,
            );
            &&& alone.status == 304 && alone.body is Empty
            &&& listed.status == 304 && listed.body is Empty
        }),
{
    reveal_strlit("\"");
    reveal_strlit("-");
    let tag = etag_spec(fingerprint, len);
    let n = text::decimal_text(len);
    text::lemma_decimal_text(len);
    assert(!tag.contains(',')) by {
        if tag.contains(',') {
            let i = choose|i: int| 0 <= i < tag.len() && tag[i] == ',';
            let f = fingerprint.len();
            if 1 <= i < 1 + f {
                assert(fingerprint[i - 1] == ',');
                assert(fingerprint.contains(','));
            } else if 2 + f <= i < 2 + f + n.len() {
                assert(n[i - 2 - f] == ',');
                assert(text::is_digit(n[i - 2 - f]));
            }
        }
    }
    assert(tag[0] == '"' && tag.last() == '"');
    assert(text::trimmed_front(tag) == tag);
    assert(text::trimmed_back(tag) == tag);
    text::lemma_single_piece(tag, ',');
    assert(text::pieces(tag, ',')[0] == tag);
    assert(names_tag(tag, tag));
    let comma = seq![','];
    let value = before + comma + tag + comma + after;
    let rest = tag + comma + after;
    assert(value =~= before + comma + rest);
    text::lemma_pieces_of_two(before, rest, ',');
    text::lemma_pieces_of_two(tag, after, ',');
    let i = text::pieces(before, ',').len() as int;
    assert(text::pieces(value, ',')[i] == tag);
    assert(names_tag(value, tag));
}

/// What one request leaves behind: the output cache, the outcome, and whether
/// the tile was built.
pub struct Served {
    /// The output cache afterwards.
    pub cache: Map<Seq<char>, Seq<u8>>,
    /// The outcome.
    pub outcome: Result<Seq<u8>, ErrorView>,
    /// The tile was built.
    pub built: bool,
}

/// A request carried out from `stage` on by itself, over a cache that does
/// not fail and a build that comes to `build`.
pub open spec fn carried_out(
    key: Seq<char>,
    stage: RequestView,
    cache: Map<Seq<char>, Seq<u8>>,
    build: Result<Seq<u8>, ErrorView>,
    built: bool,
) -> Served
    decreases request_rank(stage),
{
    match stage {
        RequestView::ReadOutput => {
            let entry = if cache.dom().contains(key) {
                Some(cache[key])
            } else {
                None
            };
            carried_out(key, after_output(Ok(entry)), cache, build, built)
        },
        RequestView::Claim => carried_out(key, after_claim(Role::Lead), cache, build, built),
        RequestView::Build => carried_out(key, after_build(build), cache, build, true),
        RequestView::Publish(bytes) => carried_out(
            key,
            after_publish(bytes, Ok(())),
            cache.insert(key, bytes),
            build,
            built,
        ),
        RequestView::Await => Served { cache, outcome: build, built },
        RequestView::Done(outcome) => Served { cache, outcome, built },
    }
}

/// How many steps a stage is from the end.
pub open spec fn request_rank(stage: RequestView) -> nat {
    match stage {
        RequestView::ReadOutput => 4,
        RequestView::Claim => 3,
        RequestView::Build => 2,
        RequestView::Publish(_) => 1,
        RequestView::Await => 1,
        RequestView::Done(_) => 0,
    }
}

/// A request from its start.
pub open spec fn request_result(
    key: Seq<char>,
    cache: Map<Seq<char>, Seq<u8>>,
    build: Result<Seq<u8>, ErrorView>,
) -> Served {
    carried_out(key, RequestView::ReadOutput, cache, build, false)
}

/// Everything a request by itself can come to: a cached tile is served as it
/// is; else the tile is built, and what was built is cached and served. A
/// failed build is answered as it failed and leaves the cache alone.
pub proof fn law_request_outcome(
    key: Seq<char>,
    cache: Map<Seq<char>, Seq<u8>>,
    build: Result<Seq<u8>, ErrorView>,
)
    ensures
        ({
            let r = request_result(key, cache, build);
            if cache.dom().contains(key) && cache[key].len() > 0 {
                &&& r.outcome == Ok::<Seq<u8>, ErrorView>(cache[key])
                &&& r.cache == cache
                &&& !r.built
            } else {
                &&& r.outcome == build
                &&& r.cache == if build is Ok {
                    cache.insert(key, build->Ok_0)
                } else {
                    cache
                }
                &&& r.built
            }
        }),
{
    reveal_with_fuel(carried_out, 6);
}

/// A tile is built once: what one request built the next is served from the
/// cache, byte for byte, whatever a build would come to by then.
pub proof fn law_tiles_are_built_once(
    key: Seq<char>,
    cache: Map<Seq<char>, Seq<u8>>,
    build: Result<Seq<u8>, ErrorView>,
    later: Result<Seq<u8>, ErrorView>,
)
    requires
        build is Ok ==> build->Ok_0.len() > 0,
        request_result(key, cache, build).outcome is Ok,
    ensures
        ({
            let first = request_result(key, cache, build);
            let second = request_result(key, first.cache, later);
            &&& second.outcome == first.outcome
            &&& second.cache == first.cache
            &&& !second.built
        }),
{
    law_request_outcome(key, cache, build);
    law_request_outcome(key, request_result(key, cache, build).cache, later);
}

/// A request carried out by itself and, where it then owes the metadata
/// document of its tile, the publishing of that document, whose computation
/// comes to `doc`.
pub open spec fn request_with_document(
    fingerprint: Seq<char>,
    tile: TileId,
    cache: Map<Seq<char>, Seq<u8>>,
    build: Result<Seq<u8>, ErrorView>,
    doc: Result<Seq<u8>, ErrorView>,
) -> Served {
    let key = output_key_spec(fingerprint, tile);
    let r = request_result(key, cache, build);
    let role = if r.built {
        Some(Role::Lead)
    } else {
        None
    };
    if document_owed(role, r.outcome is Ok) {
        let json = scan::json_key_spec(key);
        Served { cache: scan::publish_result(json, r.cache, doc).cache, ..r }
    } else {
        r
    }
}

/// Every built tile gets its metadata document next to it, and a document
/// that was there stays. When the document cannot be computed, the tile is
/// cached and served all the same.
pub proof fn law_built_tiles_get_their_document(
    fingerprint: Seq<char>,
    tile: TileId,
    cache: Map<Seq<char>, Seq<u8>>,
    glb: Seq<u8>,
    doc: Result<Seq<u8>, ErrorView>,
)
    requires
        ({
            let key = output_key_spec(fingerprint, tile);
            !(cache.dom().contains(key) && cache[key].len() > 0)
        }),
    ensures
        ({
            let key = output_key_spec(fingerprint, tile);
            let json = scan::json_key_spec(key);
            let r = request_with_document(fingerprint, tile, cache, Ok(glb), doc);
            &&& r.outcome == Ok::<Seq<u8>, ErrorView>(glb)
            &&& r.cache.dom().contains(key) && r.cache[key] == glb
            &&& r.cache == if cache.dom().contains(json) || doc is Err {
                cache.insert(key, glb)
            } else {
                cache.insert(key, glb).insert(json, doc->Ok_0)
            }
            &&& doc is Ok ==> r.cache.dom().contains(json) && r.cache[json] == (
            if cache.dom().contains(json) {
                cache[json]
            } else {
                doc->Ok_0
            })
        }),
{
    reveal_strlit(".glb");
    reveal_strlit(".json");
    let key = output_key_spec(fingerprint, tile);
    let json = scan::json_key_spec(key);
    assert(key.last() == 'b' && json.last() == 'n');
    law_request_outcome(key, cache, Ok(glb));
    scan::law_publish_outcome(json, cache.insert(key, glb), doc);
}

/// What happens to the builds in flight.
pub enum BuildEvent {
    /// A request claims a tile.
    Claim(TileId),
    /// The build of a tile ends.
    Finish(TileId),
}

/// The tiles being built after some events.
pub open spec fn building(events: Seq<BuildEvent>) -> Set<TileId>
    decreases events.len(),
{
    if events.len() == 0 {
        Set::empty()
    } else {
        match events.last() {
            BuildEvent::Claim(t) => building(events.drop_last()).insert(t),
            BuildEvent::Finish(t) => building(events.drop_last()).remove(t),
        }
    }
}

/// Event `i` makes its request the leader of the build of `t`.
pub open spec fn leads(events: Seq<BuildEvent>, i: int, t: TileId) -> bool {
    &&& 0 <= i < events.len()
    &&& events[i] == BuildEvent::Claim(t)
    &&& !building(events.take(i)).contains(t)
}

/// A tile is built by one leader at a time: between two that lead its build,
/// the first build ends.
pub proof fn law_one_leader_at_a_time(events: Seq<BuildEvent>, i: int, j: int, t: TileId)
    requires
        i < j,
        leads(events, i, t),
        leads(events, j, t),
    ensures
        exists|k: int| i < k < j && #[trigger] events[k] == BuildEvent::Finish(t),
{
    if !(exists|k: int| i < k < j && #[trigger] events[k] == BuildEvent::Finish(t)) {
        lemma_stays_claimed(events, i, j, t);
    }
}

proof fn lemma_stays_claimed(events: Seq<BuildEvent>, i: int, m: int, t: TileId)
    requires
        0 <= i < m <= events.len(),
        events[i] == BuildEvent::Claim(t),
        forall|k: int| i < k < m ==> #[trigger] events[k] != BuildEvent::Finish(t),
    ensures
        building(events.take(m)).contains(t),
    decreases m,
{
    let s = events.take(m);
    assert(s.drop_last() =~= events.take(m - 1));
    assert(s.last() == events[m - 1]);
    if i < m - 1 {
        lemma_stays_claimed(events, i, m - 1, t);
        assert(events[m - 1] != BuildEvent::Finish(t));
    }
}

/// The headers name `name` with `value`.
pub open spec fn sends(r: ReplyView, name: Seq<char>, value: Seq<char>) -> bool {
    exists|i: int| 0 <= i < r.headers.len() && #[trigger] r.headers[i] == (name, value)
}

/// The answer with a tile tells what it is, how long it keeps and which
/// version it is. It is 304 without a body exactly where the client already
/// has that version; else 200 with the length, and with the bytes unless only
/// the head was asked for. Other origins may read it where that is allowed.
pub proof fn law_tile_answers(
    fingerprint: Seq<char>,
    cors: bool,
    head: bool,
    if_none_match: Option<Seq<char>>,
    len: nat,
)
    ensures
        ({
            let r = tile_reply_spec(fingerprint, cors, head, if_none_match, len);
            let tag = "\""@ + fingerprint + "-"@ + text::decimal_text(len) + "\""@;
            let known = if_none_match is Some && names_tag(if_none_match->0, tag);
            &&& r.status == (if known {
                304u16
            } else {
                200u16
            })
            &&& sends(r, "content-type"@, "model/gltf-binary"@)
            &&& sends(r, "cache-control"@, "public, max-age=31536000, immutable"@)
            &&& sends(r, "etag"@, tag)
            &&& cors ==> sends(r, "access-control-allow-origin"@, "*"@)
            &&& !known ==> sends(r, "content-length"@, text::decimal_text(len))
            &&& r.body is Tile <==> !known && !head
            &&& r.body is Empty <==> known || head
        }),
{
    let r = tile_reply_spec(fingerprint, cors, head, if_none_match, len);
    let tag = etag_spec(fingerprint, len);
    let known = if_none_match is Some && names_tag(if_none_match->0, tag);
    let base = tile_headers(tag);
    assert(r.headers[0] == base[0] && r.headers[1] == base[1] && r.headers[2] == base[2]);
    if !known {
        assert(r.headers[3] == ("content-length"@, text::decimal_text(len)));
    }
    if cors {
        assert(r.headers.last() == ("access-control-allow-origin"@, "*"@));
        assert(r.headers[r.headers.len() - 1] == r.headers.last());
    }
}

/// A client knows a version exactly where one of the tags it lists, between
/// commas and but for white space around it, is that version's.
pub proof fn law_listed_tags_are_known(value: Seq<char>, tag: Seq<char>)
    ensures
        names_tag(value, tag) <==> exists|i: int|
            0 <= i < text::pieces(value, ',').len() && text::trimmed_back(
                text::trimmed_front(#[trigger] text::pieces(value, ',')[i]),
            ) == tag,
{
}

/// A failure is answered by its kind: 400 for a wrong request, 404 where no
/// provider has anything, 502 where one failed, 500 where this side did. Only
/// the 404 may be kept, and for an hour.
pub proof fn law_failures_have_their_status(e: ErrorView)
    ensures
        status_spec(e).0 == 400 <==> e is InvalidTile || e is InvalidResolution,
        status_spec(e).0 == 404 <==> e is NotFound,
        status_spec(e).0 == 502 <==> e is Fetch,
        status_spec(e).0 == 500 <==> e is Decode || e is Io,
        status_spec(e).1 == (if e is NotFound {
            "public, max-age=3600"@
        } else {
            "no-store"@
        }),
{
}

/// An error is answered in JSON: the message, and the status that the answer
/// has.
pub proof fn law_errors_are_told_in_json(
    cors: bool,
    status: u16,
    message: Seq<char>,
    cache: Seq<char>,
)
    ensures
        ({
            let r = error_reply_spec(cors, status, message, cache);
            let doc = error_tree(status, message);
            &&& r.status == status
            &&& r.body == BodyView::Bytes(json::json_text(doc))
            &&& crate::glb::holds(doc, "error"@, Tree::Text(message))
            &&& crate::glb::holds(doc, "status"@, json::whole(status as nat))
            &&& sends(r, "content-type"@, "application/json"@)
            &&& sends(r, "cache-control"@, cache)
            &&& cors ==> sends(r, "access-control-allow-origin"@, "*"@)
        }),
{
    reveal_strlit("error");
    reveal_strlit("status");
    assert("error"@.len() == 5 && "status"@.len() == 6);
    let r = error_reply_spec(cors, status, message, cache);
    assert(r.headers[0] == ("content-type"@, "application/json"@));
    assert(r.headers[1] == ("cache-control"@, cache));
    if cors {
        assert(r.headers[2] == ("access-control-allow-origin"@, "*"@));
    }
}

/// A path is a tile's only where it writes out the tile's address: its three
/// parts are the zoom, the column and the row, the last with the ending
/// `.glb`, and the address is on the grid.
pub proof fn law_only_addresses_are_tile_paths(z: Seq<char>, x: Seq<char>, y: Seq<char>)
    requires
        tile_path_spec(z, x, y) is Ok,
    ensures
        ({
            let t = tile_path_spec(z, x, y)->Ok_0;
            &&& t.valid()
            &&& text::unsigned_value(z, 0xffff_ffff) == Some(t.zoom as nat)
            &&& text::unsigned_value(x, 0xffff_ffff) == Some(t.x as nat)
            &&& exists|stem: Seq<char>|
                y == #[trigger] (stem + ".glb"@) && text::unsigned_value(stem, 0xffff_ffff) == Some(
                    t.y as nat,
                )
        }),
{
    let stem = y.take(y.len() - ".glb"@.len());
    assert(y =~= stem + y.skip(y.len() - ".glb"@.len()));
    assert(y == stem + ".glb"@);
}

/// The service describes itself: its fingerprint, where its tiles are, from
/// which zoom to which, the resolution of each, and whom to credit.
pub proof fn law_service_describes_itself(cfg: Config, fingerprint: Seq<char>, k: int)
    requires
        0 <= k < cfg.resolution@.len(),
    ensures
        ({
            let doc = index_tree(cfg, fingerprint);
            let zoom = crate::glb::member(doc, "zoom"@);
            let table = crate::glb::member(doc, "resolution"@);
            let sources = crate::glb::member(doc, "sources"@);
            &&& crate::glb::holds(doc, "name"@, Tree::Text("open-tiles"@))
            &&& crate::glb::holds(doc, "version"@, Tree::Text("0.1.0"@))
            &&& crate::glb::holds(doc, "fingerprint"@, Tree::Text(fingerprint))
            &&& crate::glb::holds(doc, "tiles"@, Tree::Text("/{z}/{x}/{y}.glb"@))
            &&& crate::glb::holds(zoom, "min"@, json::whole(1))
            &&& crate::glb::holds(zoom, "max"@, json::whole(22))
            &&& crate::glb::lists(doc, "resolution"@, cfg.resolution@.len())
            &&& table->List_0[k] == json::whole(cfg.resolution@[k] as nat)
            &&& crate::glb::holds(
                sources,
                "imagery"@,
                Tree::Text(cfg.provider.imagery_attribution@),
            )
            &&& crate::glb::holds(
                sources,
                "elevation"@,
                Tree::Text(cfg.provider.elevation_attribution@),
            )
        }),
{
    reveal_strlit("name");
    reveal_strlit("version");
    reveal_strlit("fingerprint");
    reveal_strlit("tiles");
    reveal_strlit("example");
    reveal_strlit("zoom");
    reveal_strlit("resolution");
    reveal_strlit("conventions");
    reveal_strlit("sources");
    reveal_strlit("min");
    reveal_strlit("max");
    reveal_strlit("imagery");
    reveal_strlit("elevation");
    assert("name"@.len() == 4 && "zoom"@.len() == 4 && "name"@[0] == 'n' && "zoom"@[0] == 'z');
    assert("version"@.len() == 7 && "example"@.len() == 7 && "sources"@.len() == 7);
    assert("version"@[0] == 'v' && "example"@[0] == 'e' && "sources"@[0] == 's');
    assert("fingerprint"@.len() == 11 && "conventions"@.len() == 11);
    assert("fingerprint"@[0] == 'f' && "conventions"@[0] == 'c');
    assert("tiles"@.len() == 5 && "resolution"@.len() == 10);
    assert("min"@[1] == 'i' && "max"@[1] == 'a');
    assert("imagery"@.len() == 7 && "elevation"@.len() == 9);
}

/// A built tile is kept under its fingerprint and its address.
pub proof fn law_output_keys_name_fingerprint_and_address(fingerprint: Seq<char>, t: TileId)
    ensures
        output_key_spec(fingerprint, t) == "glb/"@ + fingerprint + "/"@ + text::decimal_text(
            t.zoom as nat,
        ) + "/"@ + text::decimal_text(t.x as nat) + "/"@ + text::decimal_text(t.y as nat)
            + ".glb"@,
{
    let z = text::decimal_text(t.zoom as nat);
    let x = text::decimal_text(t.x as nat);
    let y = text::decimal_text(t.y as nat);
    assert(output_key_spec(fingerprint, t) =~= "glb/"@ + fingerprint + "/"@ + z + "/"@ + x + "/"@
        + y + ".glb"@);
}

/// A request owes its tile's document exactly where it led the build and the
/// build succeeded.
pub proof fn law_leaders_owe_the_document(role: Option<Role>, built: bool)
    ensures
        document_owed(role, built) <==> built && role is Some && role->0 is Lead,
{
}

/// Where other origins are not allowed to read an answer, it does not say
/// that they are.
pub proof fn law_cors_can_be_left_out(
    fingerprint: Seq<char>,
    head: bool,
    if_none_match: Option<Seq<char>>,
    len: nat,
    status: u16,
    message: Seq<char>,
    cache: Seq<char>,
    i: int,
)
    ensures
        ({
            let t = tile_reply_spec(fingerprint, false, head, if_none_match, len);
            let e = error_reply_spec(false, status, message, cache);
            &&& 0 <= i < t.headers.len() ==> t.headers[i].0 != "access-control-allow-origin"@
            &&& 0 <= i < e.headers.len() ==> e.headers[i].0 != "access-control-allow-origin"@
        }),
{
    reveal_strlit("access-control-allow-origin");
    reveal_strlit("content-type");
    reveal_strlit("cache-control");
    reveal_strlit("etag");
    reveal_strlit("content-length");
    assert("access-control-allow-origin"@.len() == 27);
    assert("content-type"@.len() == 12 && "cache-control"@.len() == 13);
    assert("etag"@.len() == 4 && "content-length"@.len() == 14);
}

/// A request builds its tile where it leads and waits where another does. A
/// cache that cannot be read is a reason to build; a tile that could not be
/// cached fails its request. One that waited has the leader's outcome,
/// failure included, and fails where the leader vanished.
pub proof fn law_requests_lead_or_wait(
    tile: TileId,
    e: ErrorView,
    bytes: Seq<u8>,
    outcome: Result<Seq<u8>, ErrorView>,
)
    ensures
        after_output(Err(e)) is Claim,
        after_output(Ok(None)) is Claim,
        after_output(Ok(Some(bytes))) == (if bytes.len() > 0 {
            RequestView::Done(Ok(bytes))
        } else {
            RequestView::Claim
        }),
        after_claim(Role::Lead) is Build,
        after_claim(Role::Join) is Await,
        after_build(Ok(bytes)) == RequestView::Publish(bytes),
        after_build(Err(e)) == RequestView::Done(Err(e)),
        after_publish(bytes, Ok(())) == RequestView::Done(Ok(bytes)),
        after_publish(bytes, Err(e)) == RequestView::Done(Err(e)),
        after_wait(tile, Some(outcome)) == RequestView::Done(outcome),
        after_wait(tile, None) is Done,
        after_wait(tile, None)->Done_0 is Err,
        after_wait(tile, None)->Done_0->Err_0 is Fetch,
{
}

/// A scan's last event is one line of data with its counts, each under its
/// own name.
pub proof fn law_last_event_tells_the_counts(s: Summary)
    ensures
        ({
            let written = "data: {\"done\":true,\"written\":"@ + text::decimal_text(
                s.written as nat,
            );
            let skipped = ",\"skipped\":"@ + text::decimal_text(s.skipped as nat);
            let failed = ",\"failed\":"@ + text::decimal_text(s.failed as nat);
            done_event_spec(s) == written + (skipped + failed) + "}\n\n"@
        }),
{
    let written = "data: {\"done\":true,\"written\":"@ + text::decimal_text(s.written as nat);
    let skipped = ",\"skipped\":"@ + text::decimal_text(s.skipped as nat);
    let failed = ",\"failed\":"@ + text::decimal_text(s.failed as nat);
    assert(done_event_spec(s) =~= written + (skipped + failed) + "}\n\n"@);
}

/// A tile's event is one line of data with its address, its document's key
/// and what happened to it, each a JSON string.
pub proof fn law_tile_events_tell_what_happened(
    json_key: Seq<char>,
    tile: TileId,
    outcome: Outcome,
)
    ensures
        ({
            let word = match outcome {
                Outcome::Written => "written"@,
                Outcome::Skipped => "skipped"@,
                Outcome::Failed => "failed"@,
            };
            let address = vstd::utf8::encode_utf8("data: {\"tile\":"@) + json::json_text(
                Tree::Text(tile.text()),
            );
            let key = vstd::utf8::encode_utf8(",\"key\":"@) + json::json_text(
                Tree::Text(json_key),
            );
            let status = vstd::utf8::encode_utf8(",\"status\":"@) + json::json_text(
                Tree::Text(word),
            );
            tile_event_spec(json_key, tile, outcome) == address + (key + status)
                + vstd::utf8::encode_utf8("}\n\n"@)
        }),
{
    let word = outcome.name_spec();
    let address = vstd::utf8::encode_utf8("data: {\"tile\":"@) + json_string(tile.text());
    let key = vstd::utf8::encode_utf8(",\"key\":"@) + json_string(json_key);
    let status = vstd::utf8::encode_utf8(",\"status\":"@) + json_string(word);
    assert(tile_event_spec(json_key, tile, outcome) =~= address + (key + status)
        + vstd::utf8::encode_utf8("}\n\n"@));
}

} // verus!
