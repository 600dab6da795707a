//! Cache-or-HTTP raw bytes with write-through, a negative cache for 404s,
//! and the "closest provided zoom" walk-down.
//!
//! Cache entries are keyed `{texture|heightmap|normals}/{zoom}/{x}/{y}.png`
//! (imagery is stored under `.png` even when the provider sent JPEG; readers
//! sniff the format). A provider 404 leaves a zero-byte `{y}.png.404` marker
//! next to the would-be entry so the walk-down never repeats a known-missing
//! request.
//!
//! Nothing here touches the cache or the network: a [`Fetch`] and a [`Walk`]
//! say what to do next and are told what came of it.

use crate::error::{Error, ErrorView};
use crate::provider::{Kind, Provider};
use crate::text;
use crate::tile::{TileId, MIN_ZOOM};
use vstd::prelude::*;

verus! {

/// Refuse to buffer more than this from one response (a tile is ~100 KB).
pub const MAX_RESPONSE_BYTES: u64 = 33_554_432;

/// Suffix of the negative-cache marker, appended to the entry's key.
pub const MISSING_MARKER_SUFFIX: &'static str = ".404";

/// Where the bytes came from.
#[derive(Clone, Copy, Debug, PartialEq, Eq, Structural)]
pub enum Origin {
    /// Read from the cache.
    Cache,
    /// Downloaded (and written through to the cache).
    Network,
}

/// Result of a walk-down: the bytes and the tile they belong to (which may
/// be an ancestor of the one asked for).
pub struct Closest {
    /// Raw bytes of the asset.
    pub bytes: Vec<u8>,
    /// The tile the bytes are for (`source.zoom <= requested.zoom`).
    pub source: TileId,
    /// Cache or network.
    pub origin: Origin,
}

// -- keys --------------------------------------------------------------------------

/// Cache key for one asset of one tile.
pub open spec fn key_spec(kind: Kind, tile: TileId) -> Seq<char> {
    kind.dir_spec() + "/"@ + tile.text() + ".png"@
}

/// The marker next to a cache entry.
pub open spec fn marker_spec(entry: Seq<char>) -> Seq<char> {
    entry + MISSING_MARKER_SUFFIX@
}

/// A key that names a marker.
pub open spec fn is_marker(key: Seq<char>) -> bool {
    text::has_suffix(key, MISSING_MARKER_SUFFIX@)
}

/// Cache key for one asset of one tile.
pub fn cache_key(kind: Kind, tile: TileId) -> (out: String)
    ensures
        out@ == key_spec(kind, tile),
{
    let name: String = tile.to_string();
    let mut out: String = text::join3(kind.dir(), "/", name.as_str());
    out.append(".png");
    out
}

/// `{entry}.404` next to a cache entry.
pub fn marker_key(entry: &str) -> (out: String)
    ensures
        out@ == marker_spec(entry@),
{
    text::join2(entry, MISSING_MARKER_SUFFIX)
}

/// An entry's key names no marker, and its marker's key does.
pub proof fn law_markers_are_no_entries(kind: Kind, tile: TileId)
    ensures
        !is_marker(key_spec(kind, tile)),
        is_marker(marker_spec(key_spec(kind, tile))),
        marker_spec(key_spec(kind, tile)) != key_spec(kind, tile),
{
    reveal_strlit(".404");
    reveal_strlit(".png");
    let key = key_spec(kind, tile);
    assert(key.last() == 'g');
    assert(key.skip(key.len() - 4).last() == 'g');
    let marker = marker_spec(key);
    assert(marker.skip(marker.len() - 4) =~= ".404"@);
}

// -- one asset ----------------------------------------------------------------------

/// What one fetch does next.
pub enum FetchStage {
    /// Read the entry from the cache.
    ReadEntry,
    /// Ask the cache whether the marker is there.
    ProbeMarker,
    /// Download the URL.
    Download,
    /// Write these bytes to the entry.
    StoreEntry(Vec<u8>),
    /// Write an empty marker, then fail with this error.
    StoreMarker(Error),
    /// Nothing more: this is the outcome.
    Done(Result<(Vec<u8>, Origin), Error>),
}

/// A [`FetchStage`] with its bytes and errors as models.
pub enum StageView {
    /// See [`FetchStage::ReadEntry`].
    ReadEntry,
    /// See [`FetchStage::ProbeMarker`].
    ProbeMarker,
    /// See [`FetchStage::Download`].
    Download,
    /// See [`FetchStage::StoreEntry`].
    StoreEntry(Seq<u8>),
    /// See [`FetchStage::StoreMarker`].
    StoreMarker(ErrorView),
    /// See [`FetchStage::Done`].
    Done(Result<(Seq<u8>, Origin), ErrorView>),
}

/// A fetch outcome with its bytes and its error as models.
pub open spec fn fetched_view(r: Result<(Vec<u8>, Origin), Error>) -> Result<
    (Seq<u8>, Origin),
    ErrorView,
> {
    match r {
        Ok((bytes, origin)) => Ok((bytes@, origin)),
        Err(e) => Err(e@),
    }
}

impl View for FetchStage {
    type V = StageView;

    open spec fn view(&self) -> StageView {
        match *self {
            FetchStage::ReadEntry => StageView::ReadEntry,
            FetchStage::ProbeMarker => StageView::ProbeMarker,
            FetchStage::Download => StageView::Download,
            FetchStage::StoreEntry(bytes) => StageView::StoreEntry(bytes@),
            FetchStage::StoreMarker(e) => StageView::StoreMarker(e@),
            FetchStage::Done(r) => StageView::Done(fetched_view(r)),
        }
    }
}

/// What the cache said about an entry.
pub open spec fn entry_view(r: Result<Option<Vec<u8>>, Error>) -> Result<
    Option<Seq<u8>>,
    ErrorView,
> {
    match r {
        Ok(Some(bytes)) => Ok(Some(bytes@)),
        Ok(None) => Ok(None),
        Err(e) => Err(e@),
    }
}

/// What the cache said about a marker.
pub open spec fn probe_view(r: Result<bool, Error>) -> Result<bool, ErrorView> {
    match r {
        Ok(b) => Ok(b),
        Err(e) => Err(e@),
    }
}

/// What came of a write.
pub open spec fn write_view(r: Result<(), Error>) -> Result<(), ErrorView> {
    match r {
        Ok(u) => Ok(u),
        Err(e) => Err(e@),
    }
}

/// After reading the entry: an entry with bytes is the outcome; a missing or
/// empty one leads on to the marker.
pub open spec fn after_entry(reply: Result<Option<Seq<u8>>, ErrorView>) -> StageView {
    match reply {
        Ok(Some(bytes)) => if bytes.len() > 0 {
            StageView::Done(Ok((bytes, Origin::Cache)))
        } else {
            StageView::ProbeMarker
        },
        Ok(None) => StageView::ProbeMarker,
        Err(e) => StageView::Done(Err(e)),
    }
}

/// After probing the marker: one that is there is the outcome.
pub open spec fn after_probe(reply: Result<bool, ErrorView>, url: Seq<char>) -> StageView {
    match reply {
        Ok(true) => StageView::Done(Err(ErrorView::NotFound { url })),
        Ok(false) => StageView::Download,
        Err(e) => StageView::Done(Err(e)),
    }
}

/// After downloading: bytes go to the entry, a 404 to the marker, anything
/// else nowhere.
pub open spec fn after_download(reply: Result<Seq<u8>, ErrorView>) -> StageView {
    match reply {
        Ok(bytes) => StageView::StoreEntry(bytes),
        Err(e) => if e is NotFound {
            StageView::StoreMarker(e)
        } else {
            StageView::Done(Err(e))
        },
    }
}

/// After writing the entry or the marker.
pub open spec fn after_store(stage: StageView, reply: Result<(), ErrorView>) -> StageView {
    match reply {
        Err(e) => StageView::Done(Err(e)),
        Ok(_) => match stage {
            StageView::StoreEntry(bytes) => StageView::Done(Ok((bytes, Origin::Network))),
            StageView::StoreMarker(e) => StageView::Done(Err(e)),
            _ => stage,
        },
    }
}

/// One asset being fetched: raw bytes for `url`, cached under `key`. A real
/// cache entry wins over a stale `.404` marker; a marker short-circuits to
/// [`Error::NotFound`].
pub struct Fetch {
    /// The entry's key.
    pub key: String,
    /// The marker's key.
    pub marker: String,
    /// What to download.
    pub url: String,
    /// What to do next.
    pub stage: FetchStage,
}

impl Fetch {
    /// The same keys and URL as `other`.
    pub open spec fn same_target(self, other: Fetch) -> bool {
        self.key@ == other.key@ && self.marker@ == other.marker@ && self.url@ == other.url@
    }

    /// Start fetching one asset of one tile.
    pub fn new(kind: Kind, tile: TileId, url: &str) -> (f: Fetch)
        ensures
            f.key@ == key_spec(kind, tile),
            f.marker@ == marker_spec(key_spec(kind, tile)),
            f.url@ == url@,
            f.stage@ == StageView::ReadEntry,
    {
        let key: String = cache_key(kind, tile);
        let marker: String = marker_key(key.as_str());
        Fetch { key, marker, url: url.to_owned(), stage: FetchStage::ReadEntry }
    }

    /// The entry was read.
    pub fn on_entry(self, reply: Result<Option<Vec<u8>>, Error>) -> (f: Fetch)
        requires
            self.stage is ReadEntry,
        ensures
            f.same_target(self),
            f.stage@ == after_entry(entry_view(reply)),
    {
        let stage: FetchStage = match reply {
            Ok(Some(bytes)) => if bytes.len() > 0 {
                FetchStage::Done(Ok((bytes, Origin::Cache)))
            } else {
                FetchStage::ProbeMarker
            },
            Ok(None) => FetchStage::ProbeMarker,
            Err(e) => FetchStage::Done(Err(e)),
        };
        Fetch { key: self.key, marker: self.marker, url: self.url, stage }
    }

    /// The marker was probed.
    pub fn on_probe(self, reply: Result<bool, Error>) -> (f: Fetch)
        requires
            self.stage is ProbeMarker,
        ensures
            f.same_target(self),
            f.stage@ == after_probe(probe_view(reply), self.url@),
    {
        let stage: FetchStage = match reply {
            Ok(true) => {
                let url: String = self.url.as_str().to_owned();
                FetchStage::Done(Err(Error::NotFound { url }))
            },
            Ok(false) => FetchStage::Download,
            Err(e) => FetchStage::Done(Err(e)),
        };
        Fetch { key: self.key, marker: self.marker, url: self.url, stage }
    }

    /// The download ended.
    pub fn on_download(self, reply: Result<Vec<u8>, Error>) -> (f: Fetch)
        requires
            self.stage is Download,
        ensures
            f.same_target(self),
            f.stage@ == after_download(crate::error::bytes_view(reply)),
    {
        let stage: FetchStage = match reply {
            Ok(bytes) => FetchStage::StoreEntry(bytes),
            Err(Error::NotFound { url }) => FetchStage::StoreMarker(Error::NotFound { url }),
            Err(e) => FetchStage::Done(Err(e)),
        };
        Fetch { key: self.key, marker: self.marker, url: self.url, stage }
    }

    /// The entry or the marker was written.
    pub fn on_store(self, reply: Result<(), Error>) -> (f: Fetch)
        requires
            self.stage is StoreEntry || self.stage is StoreMarker,
        ensures
            f.same_target(self),
            f.stage@ == after_store(self.stage@, write_view(reply)),
    {
        let stage: FetchStage = match reply {
            Err(e) => FetchStage::Done(Err(e)),
            Ok(()) => match self.stage {
                FetchStage::StoreEntry(bytes) => FetchStage::Done(Ok((bytes, Origin::Network))),
                FetchStage::StoreMarker(e) => FetchStage::Done(Err(e)),
                other => other,
            },
        };
        Fetch { key: self.key, marker: self.marker, url: self.url, stage }
    }
}

// -- the download -------------------------------------------------------------------

/// What a GET came back with.
pub enum HttpReply {
    /// A success, and the body as far as it was buffered.
    Body(Vec<u8>),
    /// A status that is no success.
    Status {
        /// The status code.
        code: u16,
        /// The status text.
        text: String,
    },
    /// No answer at all.
    Transport(String),
    /// A success whose body could not be read.
    Broken(String),
}

/// What a reply to a GET of `url` means.
pub open spec fn download_spec(url: Seq<char>, reply: HttpReply) -> Result<Seq<u8>, ErrorView> {
    match reply {
        HttpReply::Body(bytes) => if bytes@.len() > 0 {
            Ok(bytes@)
        } else {
            Err(ErrorView::Fetch { url, reason: "empty body"@ })
        },
        HttpReply::Status { code, text } => if code == 404 {
            Err(ErrorView::NotFound { url })
        } else {
            Err(
                ErrorView::Fetch {
                    url,
                    reason: "HTTP "@ + text::decimal_text(code as nat) + " "@ + text@,
                },
            )
        },
        HttpReply::Transport(reason) => Err(ErrorView::Fetch { url, reason: reason@ }),
        HttpReply::Broken(reason) => Err(
            ErrorView::Fetch { url, reason: "read body: "@ + reason@ },
        ),
    }
}

/// What a reply to a GET of `url` means. HTTP 404 becomes the typed
/// [`Error::NotFound`] the walk-down relies on; any other status, transport
/// failure or empty body is [`Error::Fetch`].
pub fn download_outcome(url: &str, reply: HttpReply) -> (r: Result<Vec<u8>, Error>)
    ensures
        crate::error::bytes_view(r) == download_spec(url@, reply),
{
    let url: String = url.to_owned();
    match reply {
        HttpReply::Body(bytes) => {
            if bytes.len() > 0 {
                Ok(bytes)
            } else {
                Err(Error::Fetch { url, reason: "empty body".to_owned() })
            }
        },
        HttpReply::Status { code, text } => {
            if code == 404 {
                Err(Error::NotFound { url })
            } else {
                let n: String = text::decimal(code as u64);
                let mut reason: String = text::join3("HTTP ", n.as_str(), " ");
                reason.append(text.as_str());
                Err(Error::Fetch { url, reason })
            }
        },
        HttpReply::Transport(reason) => Err(Error::Fetch { url, reason }),
        HttpReply::Broken(reason) => Err(
            Error::Fetch { url, reason: text::join2("read body: ", reason.as_str()) },
        ),
    }
}

// -- the walk-down ------------------------------------------------------------------

/// The zoom a walk starts at: the tile's own or the provider's deepest,
/// whichever is less, and never below the first.
pub open spec fn start_zoom(zoom: u8, hint: u8) -> u8 {
    let z = if zoom <= hint {
        zoom
    } else {
        hint
    };
    if z < MIN_ZOOM {
        MIN_ZOOM
    } else {
        z
    }
}

/// The search for the closest zoom that has an asset: at `zoom`, going down.
#[derive(Clone, Copy, Debug, PartialEq, Eq, Structural)]
pub struct Walk {
    /// The tile the asset is for.
    pub tile: TileId,
    /// The zoom to ask for now.
    pub zoom: u8,
}

/// What a walk does next.
pub enum WalkStep {
    /// The asset was found.
    Found(Closest),
    /// Ask again, one zoom further down.
    Again(Walk),
    /// There is nothing to be had.
    Failed(Error),
}

/// A [`WalkStep`] with its bytes and its error as models.
pub enum StepView {
    /// See [`WalkStep::Found`].
    Found(Seq<u8>, TileId, Origin),
    /// See [`WalkStep::Again`].
    Again(Walk),
    /// See [`WalkStep::Failed`].
    Failed(ErrorView),
}

impl View for WalkStep {
    type V = StepView;

    open spec fn view(&self) -> StepView {
        match *self {
            WalkStep::Found(c) => StepView::Found(c.bytes@, c.source, c.origin),
            WalkStep::Again(w) => StepView::Again(w),
            WalkStep::Failed(e) => StepView::Failed(e@),
        }
    }
}

/// After fetching the candidate: bytes end the walk, a 404 leads one zoom
/// down where there is one, and anything else is the outcome.
pub open spec fn after_fetched(w: Walk, reply: Result<(Seq<u8>, Origin), ErrorView>) -> StepView {
    match reply {
        Ok((bytes, origin)) => StepView::Found(bytes, w.tile.ancestor_spec(w.zoom), origin),
        Err(e) => if e is NotFound && w.zoom > MIN_ZOOM {
            StepView::Again(Walk { tile: w.tile, zoom: (w.zoom - 1) as u8 })
        } else {
            StepView::Failed(e)
        },
    }
}

/// A walk's outcome with its bytes and its error as models.
pub open spec fn closest_view(r: Result<Closest, Error>) -> Result<
    (Seq<u8>, TileId, Origin),
    ErrorView,
> {
    match r {
        Ok(c) => Ok((c.bytes@, c.source, c.origin)),
        Err(e) => Err(e@),
    }
}

impl Walk {
    /// The tile is valid and the zoom one of its ancestors'.
    pub open spec fn wf(self) -> bool {
        self.tile.valid() && MIN_ZOOM <= self.zoom <= self.tile.zoom
    }

    /// Start at `min(tile.zoom, provider hint)`.
    pub fn start(provider: &Provider, kind: Kind, tile: TileId) -> (w: Walk)
        requires
            tile.valid(),
        ensures
            w == (Walk { tile, zoom: start_zoom(tile.zoom, provider.hint(kind)) }),
            w.wf(),
    {
        let hint: u8 = provider.max_zoom(kind);
        let z: u8 = if tile.zoom <= hint {
            tile.zoom
        } else {
            hint
        };
        let zoom: u8 = if z < MIN_ZOOM {
            MIN_ZOOM
        } else {
            z
        };
        Walk { tile, zoom }
    }

    /// The tile to ask for now.
    pub fn candidate(&self) -> (t: TileId)
        requires
            self.wf(),
        ensures
            t == self.tile.ancestor_spec(self.zoom),
            t.valid(),
    {
        self.tile.ancestor(self.zoom).0
    }

    /// The candidate was fetched. Any error but a 404 ends the walk — a
    /// transient failure must never change which zoom a tile is derived from.
    pub fn on_fetched(self, reply: Result<(Vec<u8>, Origin), Error>) -> (s: WalkStep)
        requires
            self.wf(),
        ensures
            s@ == after_fetched(self, fetched_view(reply)),
            s is Again ==> s->Again_0.wf(),
    {
        match reply {
            Ok((bytes, origin)) => WalkStep::Found(
                Closest { bytes, source: self.candidate(), origin },
            ),
            Err(Error::NotFound { url }) => {
                if self.zoom > MIN_ZOOM {
                    WalkStep::Again(Walk { tile: self.tile, zoom: self.zoom - 1 })
                } else {
                    WalkStep::Failed(Error::NotFound { url })
                }
            },
            Err(e) => WalkStep::Failed(e),
        }
    }
}

// -- forgetting 404s ----------------------------------------------------------------

/// Where the markers of `kind` at `zoom` live.
pub open spec fn prefix_spec(kind: Kind, zoom: Option<u8>) -> Seq<char> {
    match zoom {
        Some(z) => kind.dir_spec() + "/"@ + text::decimal_text(z as nat) + "/"@,
        None => kind.dir_spec() + "/"@,
    }
}

/// The kinds to go through.
pub open spec fn kinds_spec(kind: Option<Kind>) -> Seq<Kind> {
    match kind {
        Some(k) => seq![k],
        None => seq![Kind::Texture, Kind::Heightmap, Kind::Normals],
    }
}

fn marker_prefix(kind: Kind, zoom: Option<u8>) -> (out: String)
    ensures
        out@ == prefix_spec(kind, zoom),
{
    match zoom {
        Some(z) => {
            let n: String = text::decimal(z as u64);
            let mut out: String = text::join3(kind.dir(), "/", n.as_str());
            out.append("/");
            out
        },
        None => text::join2(kind.dir(), "/"),
    }
}

/// The prefixes to list when forgetting the 404s of `kind` (or every kind)
/// at `zoom` (or every zoom).
pub fn marker_prefixes(kind: Option<Kind>, zoom: Option<u8>) -> (out: Vec<String>)
    ensures
        text::views(out@) == kinds_spec(kind).map_values(|k: Kind| prefix_spec(k, zoom)),
{
    let mut out: Vec<String> = Vec::new();
    match kind {
        Some(k) => {
            out.push(marker_prefix(k, zoom));
        },
        None => {
            out.push(marker_prefix(Kind::Texture, zoom));
            out.push(marker_prefix(Kind::Heightmap, zoom));
            out.push(marker_prefix(Kind::Normals, zoom));
        },
    }
    assert(text::views(out@) =~= kinds_spec(kind).map_values(|k: Kind| prefix_spec(k, zoom)));
    out
}

/// The markers among listed keys, in order.
pub open spec fn markers_in(keys: Seq<Seq<char>>) -> Seq<Seq<char>>
    decreases keys.len(),
{
    if keys.len() == 0 {
        Seq::empty()
    } else {
        let before = markers_in(keys.drop_last());
        if is_marker(keys.last()) {
            before.push(keys.last())
        } else {
            before
        }
    }
}

/// The markers among listed keys, in order: what to delete.
pub fn markers_among(keys: &Vec<String>) -> (out: Vec<String>)
    ensures
        text::views(out@) == markers_in(text::views(keys@)),
{
    let mut out: Vec<String> = Vec::new();
    let mut k: usize = 0;
    let ghost all = text::views(keys@);
    assert(all.take(0) =~= Seq::empty());
    assert(text::views(out@) =~= Seq::empty());
    while k < keys.len()
        invariant
            k <= keys@.len(),
            all == text::views(keys@),
            text::views(out@) == markers_in(all.take(k as int)),
        decreases keys@.len() - k,
    {
        let key: &str = keys[k].as_str();
        let ghost before = text::views(out@);
        assert(all.take(k + 1).drop_last() =~= all.take(k as int));
        assert(all.take(k + 1).last() == key@);
        if text::strip_suffix(key, MISSING_MARKER_SUFFIX).is_some() {
            out.push(key.to_owned());
            assert(text::views(out@) =~= before.push(key@));
        }
        k = k + 1;
    }
    assert(all.take(k as int) =~= all);
    out
}

// -- laws ------------------------------------------------------------------------

/// What a provider would answer for a URL.
pub enum Upstream {
    /// These bytes.
    Body(Seq<u8>),
    /// 404.
    Missing,
    /// Any other failure.
    Failed(ErrorView),
}

impl Upstream {
    /// The answer as a download's outcome.
    pub open spec fn outcome(self, url: Seq<char>) -> Result<Seq<u8>, ErrorView> {
        match self {
            Upstream::Body(bytes) => Ok(bytes),
            Upstream::Missing => Err(ErrorView::NotFound { url }),
            Upstream::Failed(e) => Err(e),
        }
    }

    /// A body has bytes, and a failure is no 404.
    pub open spec fn possible(self) -> bool {
        match self {
            Upstream::Body(bytes) => bytes.len() > 0,
            Upstream::Missing => true,
            Upstream::Failed(e) => !(e is NotFound),
        }
    }
}

/// What a fetch leaves behind: the cache, the outcome, and whether it asked
/// the provider.
pub struct Fetched {
    /// The cache afterwards.
    pub cache: Map<Seq<char>, Seq<u8>>,
    /// The outcome.
    pub outcome: Result<(Seq<u8>, Origin), ErrorView>,
    /// The provider was asked.
    pub asked: bool,
}

/// How many steps a stage is from the end.
pub open spec fn rank(stage: StageView) -> nat {
    match stage {
        StageView::ReadEntry => 4,
        StageView::ProbeMarker => 3,
        StageView::Download => 2,
        StageView::StoreEntry(_) => 1,
        StageView::StoreMarker(_) => 1,
        StageView::Done(_) => 0,
    }
}

/// A fetch carried out from `stage` on, over a cache that does not fail and
/// a provider that answers `up`.
pub open spec fn carried_out(
    key: Seq<char>,
    url: Seq<char>,
    stage: StageView,
    cache: Map<Seq<char>, Seq<u8>>,
    up: Upstream,
    asked: bool,
) -> Fetched
    decreases rank(stage),
{
    match stage {
        StageView::ReadEntry => {
            let reply = if cache.dom().contains(key) {
                Some(cache[key])
            } else {
                None
            };
            carried_out(key, url, after_entry(Ok(reply)), cache, up, asked)
        },
        StageView::ProbeMarker => {
            let reply = cache.dom().contains(marker_spec(key));
            carried_out(key, url, after_probe(Ok(reply), url), cache, up, asked)
        },
        StageView::Download => carried_out(
            key,
            url,
            after_download(up.outcome(url)),
            cache,
            up,
            true,
        ),
        StageView::StoreEntry(bytes) => carried_out(
            key,
            url,
            after_store(stage, Ok(())),
            cache.insert(key, bytes),
            up,
            asked,
        ),
        StageView::StoreMarker(_) => carried_out(
            key,
            url,
            after_store(stage, Ok(())),
            cache.insert(marker_spec(key), Seq::empty()),
            up,
            asked,
        ),
        StageView::Done(outcome) => Fetched { cache, outcome, asked },
    }
}

/// A fetch from its start.
pub open spec fn fetch_result(
    key: Seq<char>,
    url: Seq<char>,
    cache: Map<Seq<char>, Seq<u8>>,
    up: Upstream,
) -> Fetched {
    carried_out(key, url, StageView::ReadEntry, cache, up, false)
}

/// The cache has bytes for `key`.
pub open spec fn has_entry(cache: Map<Seq<char>, Seq<u8>>, key: Seq<char>) -> bool {
    cache.dom().contains(key) && cache[key].len() > 0
}

/// Everything a fetch can come to. An entry with bytes is used, whatever
/// marker stands beside it; else a marker answers; else the provider does,
/// and its bytes or its 404 are remembered and nothing else is.
pub proof fn law_fetch_outcome(
    key: Seq<char>,
    url: Seq<char>,
    cache: Map<Seq<char>, Seq<u8>>,
    up: Upstream,
)
    requires
        up.possible(),
    ensures
        ({
            let r = fetch_result(key, url, cache, up);
            if has_entry(cache, key) {
                &&& r.outcome == Ok::<(Seq<u8>, Origin), ErrorView>((cache[key], Origin::Cache))
                &&& r.cache == cache
                &&& !r.asked
            } else if cache.dom().contains(marker_spec(key)) {
                &&& r.outcome == Err::<(Seq<u8>, Origin), ErrorView>(ErrorView::NotFound { url })
                &&& r.cache == cache
                &&& !r.asked
            } else {
                &&& r.asked
                &&& match up {
                    Upstream::Body(bytes) => r.outcome == Ok::<(Seq<u8>, Origin), ErrorView>(
                        (bytes, Origin::Network),
                    ) && r.cache == cache.insert(key, bytes),
                    Upstream::Missing => r.outcome == Err::<(Seq<u8>, Origin), ErrorView>(
                        ErrorView::NotFound { url },
                    ) && r.cache == cache.insert(marker_spec(key), Seq::empty()),
                    Upstream::Failed(e) => r.outcome == Err::<(Seq<u8>, Origin), ErrorView>(e)
                        && r.cache == cache,
                }
            }
        }),
{
    reveal_with_fuel(carried_out, 6);
}

/// What was fetched once is read from the cache from then on: the same bytes
/// and no request, whatever the provider has become and whatever URL the
/// asset has by then.
pub proof fn law_second_fetch_is_cached(
    key: Seq<char>,
    url: Seq<char>,
    cache: Map<Seq<char>, Seq<u8>>,
    up: Upstream,
    later_url: Seq<char>,
    later: Upstream,
)
    requires
        up.possible(),
        later.possible(),
        fetch_result(key, url, cache, up).outcome is Ok,
    ensures
        ({
            let first = fetch_result(key, url, cache, up);
            let second = fetch_result(key, later_url, first.cache, later);
            &&& second.outcome == Ok::<(Seq<u8>, Origin), ErrorView>(
                (first.outcome->Ok_0.0, Origin::Cache),
            )
            &&& second.cache == first.cache
            &&& !second.asked
        }),
{
    law_fetch_outcome(key, url, cache, up);
    law_fetch_outcome(key, later_url, fetch_result(key, url, cache, up).cache, later);
}

/// A 404 is remembered: the next fetch fails alike and asks nobody, whatever
/// URL the asset has by then — the one that its failure names.
pub proof fn law_missing_is_remembered(
    key: Seq<char>,
    url: Seq<char>,
    cache: Map<Seq<char>, Seq<u8>>,
    up: Upstream,
    later_url: Seq<char>,
    later: Upstream,
)
    requires
        up.possible(),
        later.possible(),
        fetch_result(key, url, cache, up).outcome == Err::<(Seq<u8>, Origin), ErrorView>(
            ErrorView::NotFound { url },
        ),
    ensures
        ({
            let first = fetch_result(key, url, cache, up);
            let second = fetch_result(key, later_url, first.cache, later);
            &&& second.outcome == Err::<(Seq<u8>, Origin), ErrorView>(
                ErrorView::NotFound { url: later_url },
            )
            &&& second.cache == first.cache
            &&& !second.asked
        }),
{
    law_fetch_outcome(key, url, cache, up);
    let first = fetch_result(key, url, cache, up);
    assert(marker_spec(key) != key) by {
        reveal_strlit(".404");
        assert(marker_spec(key).len() == key.len() + 4);
    }
    law_fetch_outcome(key, later_url, first.cache, later);
}

/// What lies under the prefix of a kind and a zoom: of the markers, those of
/// that kind's tiles at that zoom — at every zoom, where none is given.
pub proof fn law_prefixes_select(kind: Kind, zoom: Option<u8>, other: Kind, tile: TileId)
    ensures
        text::has_prefix(marker_spec(key_spec(other, tile)), prefix_spec(kind, zoom)) <==> other
            == kind && (zoom is Some ==> zoom->0 == tile.zoom),
{
    reveal_strlit("texture");
    reveal_strlit("heightmap");
    reveal_strlit("normals");
    reveal_strlit("/");
    let key = marker_spec(key_spec(other, tile));
    let prefix = prefix_spec(kind, zoom);
    let dir = kind.dir_spec();
    assert(key[0] == other.dir_spec()[0]);
    assert(prefix[0] == dir[0]);
    if other != kind {
        if text::has_prefix(key, prefix) {
            assert(key.take(prefix.len() as int)[0] == prefix[0]);
        }
    } else {
        let front = dir + "/"@;
        let d = front.len() as int;
        let own = text::decimal_text(tile.zoom as nat);
        assert(key.take(d) =~= front);
        if zoom is Some {
            let z = text::decimal_text(zoom->0 as nat);
            text::lemma_decimal_text(zoom->0 as nat);
            text::lemma_decimal_text(tile.zoom as nat);
            assert(key.len() > d + own.len());
            assert(forall|i: int| 0 <= i < own.len() ==> key[d + i] == own[i]);
            assert(key[d + own.len()] == '/');
            assert(forall|i: int| 0 <= i < z.len() ==> prefix[d + i] == z[i]);
            assert(prefix[d + z.len()] == '/');
            if text::has_prefix(key, prefix) {
                let taken = key.take(prefix.len() as int);
                assert(forall|i: int| 0 <= i < prefix.len() ==> key[i] == #[trigger] taken[i]);
                if z.len() < own.len() {
                    assert(taken[d + z.len()] == '/');
                    assert(text::is_digit(own[z.len() as int]));
                } else if z.len() > own.len() {
                    assert(taken[d + own.len()] == prefix[d + own.len()]);
                    assert(text::is_digit(z[own.len() as int]));
                } else {
                    assert forall|i: int| 0 <= i < z.len() implies z[i] == own[i] by {
                        assert(taken[d + i] == prefix[d + i]);
                    }
                    assert(z =~= own);
                }
            }
            if zoom->0 == tile.zoom {
                assert(key.take(prefix.len() as int) =~= prefix);
            }
        } else {
            assert(prefix =~= front);
        }
    }
}

/// Forgetting the 404s of a kind, at one zoom or at all: for a tile of that
/// kind and zoom the provider is asked again, and nothing is deleted but
/// markers under that prefix.
pub proof fn law_cleared_markers_are_asked_again(
    keys: Seq<Seq<char>>,
    kind: Kind,
    zoom: Option<u8>,
    tile: TileId,
    url: Seq<char>,
    cache: Map<Seq<char>, Seq<u8>>,
    up: Upstream,
)
    requires
        up.possible(),
        forall|k: Seq<char>| #[trigger]
            keys.contains(k) <==> cache.dom().contains(k) && text::has_prefix(
                k,
                prefix_spec(kind, zoom),
            ),
        zoom is Some ==> zoom->0 == tile.zoom,
        !has_entry(cache, key_spec(kind, tile)),
    ensures
        ({
            let gone = markers_in(keys).to_set();
            let cleared = cache.remove_keys(gone);
            &&& fetch_result(key_spec(kind, tile), url, cleared, up).asked
            &&& forall|k: Seq<char>|
                cache.dom().contains(k) && !(is_marker(k) && text::has_prefix(
                    k,
                    prefix_spec(kind, zoom),
                )) ==> #[trigger] cleared.dom().contains(k) && cleared[k] == cache[k]
        }),
{
    law_prefixes_select(kind, zoom, kind, tile);
    let key = key_spec(kind, tile);
    let gone = markers_in(keys).to_set();
    let cleared = cache.remove_keys(gone);
    law_markers_are_no_entries(kind, tile);
    assert(!cleared.dom().contains(marker_spec(key))) by {
        if cache.dom().contains(marker_spec(key)) {
            assert(keys.contains(marker_spec(key)));
            lemma_markers_in(keys, marker_spec(key));
        }
    }
    assert forall|k: Seq<char>|
        cache.dom().contains(k) && !(is_marker(k) && text::has_prefix(k, prefix_spec(kind, zoom)))
        implies #[trigger] cleared.dom().contains(k) && cleared[k] == cache[k] by {
        assert(keys.contains(k) <==> cache.dom().contains(k) && text::has_prefix(
            k,
            prefix_spec(kind, zoom),
        ));
        lemma_markers_in(keys, k);
    }
    law_fetch_outcome(key, url, cleared, up);
}

proof fn lemma_markers_in(keys: Seq<Seq<char>>, k: Seq<char>)
    ensures
        markers_in(keys).contains(k) <==> keys.contains(k) && is_marker(k),
    decreases keys.len(),
{
    if keys.len() > 0 {
        let front = keys.drop_last();
        lemma_markers_in(front, k);
        let before = markers_in(front);
        assert(keys.contains(k) <==> front.contains(k) || k == keys.last()) by {
            if keys.contains(k) {
                let i = choose|i: int| 0 <= i < keys.len() && keys[i] == k;
                if i < front.len() {
                    assert(front[i] == k);
                }
            }
            if front.contains(k) {
                let i = choose|i: int| 0 <= i < front.len() && front[i] == k;
                assert(keys[i] == k);
            }
            if k == keys.last() {
                assert(keys[keys.len() - 1] == k);
            }
        }
        if is_marker(keys.last()) {
            let now = before.push(keys.last());
            assert(now.contains(k) <==> before.contains(k) || k == keys.last()) by {
                if before.contains(k) {
                    let i = choose|i: int| 0 <= i < before.len() && before[i] == k;
                    assert(now[i] == k);
                }
                if k == keys.last() {
                    assert(now[before.len() as int] == k);
                }
            }
        }
    }
}

/// `keys` lists what `cache` holds under `prefix`.
pub open spec fn is_listing(
    keys: Seq<Seq<char>>,
    cache: Map<Seq<char>, Seq<u8>>,
    prefix: Seq<char>,
) -> bool {
    &&& keys.no_duplicates()
    &&& forall|k: Seq<char>| #[trigger]
        keys.contains(k) <==> cache.dom().contains(k) && text::has_prefix(k, prefix)
}

/// `list` lists what a cache holds under a prefix.
pub open spec fn lists(
    list: spec_fn(Map<Seq<char>, Seq<u8>>, Seq<char>) -> Seq<Seq<char>>,
) -> bool {
    forall|c: Map<Seq<char>, Seq<u8>>, p: Seq<char>|
        c.dom().finite() ==> is_listing(#[trigger] list(c, p), c, p)
}

/// What forgetting 404s leaves behind.
pub struct Cleared {
    /// The cache afterwards.
    pub cache: Map<Seq<char>, Seq<u8>>,
    /// How many markers were deleted.
    pub removed: nat,
}

/// Forgetting the 404s of `kinds` at `zoom` carried out: kind by kind, what
/// lies under its prefix is listed and the markers in it are deleted.
pub open spec fn cleared(
    kinds: Seq<Kind>,
    zoom: Option<u8>,
    list: spec_fn(Map<Seq<char>, Seq<u8>>, Seq<char>) -> Seq<Seq<char>>,
    cache: Map<Seq<char>, Seq<u8>>,
) -> Cleared
    decreases kinds.len(),
{
    if kinds.len() == 0 {
        Cleared { cache, removed: 0 }
    } else {
        let before = cleared(kinds.drop_last(), zoom, list, cache);
        let gone = markers_in(list(before.cache, prefix_spec(kinds.last(), zoom)));
        Cleared {
            cache: before.cache.remove_keys(gone.to_set()),
            removed: before.removed + gone.len(),
        }
    }
}

/// The markers in `cache` under the prefixes of `kinds` at `zoom`.
pub open spec fn doomed(
    cache: Map<Seq<char>, Seq<u8>>,
    kinds: Seq<Kind>,
    zoom: Option<u8>,
) -> Set<Seq<char>> {
    Set::new(
        |k: Seq<char>|
            cache.dom().contains(k) && is_marker(k) && exists|i: int|
                0 <= i < kinds.len() && text::has_prefix(k, prefix_spec(#[trigger] kinds[i], zoom)),
    )
}

/// Forgetting 404s deletes exactly the markers of the kinds and the zoom that
/// were asked for and counts them; every other entry stays as it is. Doing so
/// again deletes none.
pub proof fn law_clearing_removes_exactly_the_markers(
    kind: Option<Kind>,
    zoom: Option<u8>,
    list: spec_fn(Map<Seq<char>, Seq<u8>>, Seq<char>) -> Seq<Seq<char>>,
    cache: Map<Seq<char>, Seq<u8>>,
)
    requires
        cache.dom().finite(),
        lists(list),
    ensures
        ({
            let kinds = kinds_spec(kind);
            let once = cleared(kinds, zoom, list, cache);
            let twice = cleared(kinds, zoom, list, once.cache);
            &&& once.cache == cache.remove_keys(doomed(cache, kinds, zoom))
            &&& once.removed == doomed(cache, kinds, zoom).len()
            &&& twice.cache == once.cache
            &&& twice.removed == 0
        }),
{
    let kinds = kinds_spec(kind);
    lemma_cleared(kinds, zoom, list, cache);
    let once = cleared(kinds, zoom, list, cache).cache;
    lemma_cleared(kinds, zoom, list, once);
    assert(doomed(once, kinds, zoom) =~= Set::empty());
    assert(once.remove_keys(Set::empty()) =~= once);
}

proof fn lemma_cleared(
    kinds: Seq<Kind>,
    zoom: Option<u8>,
    list: spec_fn(Map<Seq<char>, Seq<u8>>, Seq<char>) -> Seq<Seq<char>>,
    cache: Map<Seq<char>, Seq<u8>>,
)
    requires
        cache.dom().finite(),
        lists(list),
    ensures
        cleared(kinds, zoom, list, cache).cache == cache.remove_keys(doomed(cache, kinds, zoom)),
        cleared(kinds, zoom, list, cache).cache.dom().finite(),
        cleared(kinds, zoom, list, cache).removed == doomed(cache, kinds, zoom).len(),
        doomed(cache, kinds, zoom).finite(),
    decreases kinds.len(),
{
    let all = doomed(cache, kinds, zoom);
    if kinds.len() == 0 {
        assert(all =~= Set::empty());
        assert(cache.remove_keys(all) =~= cache);
    } else {
        let front = kinds.drop_last();
        lemma_cleared(front, zoom, list, cache);
        let before = cleared(front, zoom, list, cache);
        let first = doomed(cache, front, zoom);
        let prefix = prefix_spec(kinds.last(), zoom);
        let keys = list(before.cache, prefix);
        assert(is_listing(keys, before.cache, prefix));
        let gone = markers_in(keys);
        lemma_markers_once(keys);
        gone.unique_seq_to_set();
        assert forall|k: Seq<char>| #[trigger]
            all.contains(k) <==> first.contains(k) || gone.to_set().contains(k) by {
            lemma_markers_in(keys, k);
            assert(keys.contains(k) <==> before.cache.dom().contains(k) && text::has_prefix(
                k,
                prefix,
            ));
            if all.contains(k) {
                let i = choose|i: int|
                    0 <= i < kinds.len() && text::has_prefix(
                        k,
                        prefix_spec(#[trigger] kinds[i], zoom),
                    );
                if i < front.len() {
                    assert(front[i] == kinds[i]);
                }
            }
            if first.contains(k) {
                let i = choose|i: int|
                    0 <= i < front.len() && text::has_prefix(
                        k,
                        prefix_spec(#[trigger] front[i], zoom),
                    );
                assert(kinds[i] == front[i]);
            }
            if gone.contains(k) {
                assert(kinds[kinds.len() - 1] == kinds.last());
            }
        }
        assert(all =~= first.union(gone.to_set()));
        assert(first.disjoint(gone.to_set())) by {
            assert forall|k: Seq<char>| first.contains(k) implies !gone.to_set().contains(k) by {
                lemma_markers_in(keys, k);
                assert(!before.cache.dom().contains(k));
            }
        }
        vstd::set_lib::lemma_set_disjoint_lens(first, gone.to_set());
        assert(before.cache.remove_keys(gone.to_set()) =~= cache.remove_keys(all));
        assert(cache.remove_keys(all).dom() =~= cache.dom().difference(all));
    }
}

proof fn lemma_markers_once(keys: Seq<Seq<char>>)
    requires
        keys.no_duplicates(),
    ensures
        markers_in(keys).no_duplicates(),
    decreases keys.len(),
{
    if keys.len() > 0 {
        let front = keys.drop_last();
        lemma_markers_once(front);
        lemma_markers_in(front, keys.last());
        let before = markers_in(front);
        assert(!front.contains(keys.last()));
        if is_marker(keys.last()) {
            let now = before.push(keys.last());
            assert forall|i: int, j: int| 0 <= i < now.len() && 0 <= j < now.len() && i
                != j implies now[i] != now[j] by {
                if i < before.len() {
                    assert(before.contains(before[i]));
                }
                if j < before.len() {
                    assert(before.contains(before[j]));
                }
            }
        }
    }
}

/// A walk carried out to its end, the fetch at each zoom coming to what
/// `answers` says.
pub open spec fn walked(
    w: Walk,
    answers: spec_fn(u8) -> Result<(Seq<u8>, Origin), ErrorView>,
) -> Result<(Seq<u8>, TileId, Origin), ErrorView>
    decreases w.zoom,
{
    match after_fetched(w, answers(w.zoom)) {
        StepView::Found(bytes, source, origin) => Ok((bytes, source, origin)),
        StepView::Again(next) => if next.zoom < w.zoom {
            walked(next, answers)
        } else {
            Err(ErrorView::NotFound { url: Seq::empty() })
        },
        StepView::Failed(e) => Err(e),
    }
}

/// A walk ends at the closest zoom that does not answer 404: the asset comes
/// from there, or the walk fails as the fetch there did.
pub proof fn law_walk_ends_at_the_closest(
    tile: TileId,
    start: u8,
    answers: spec_fn(u8) -> Result<(Seq<u8>, Origin), ErrorView>,
    zoom: u8,
)
    requires
        MIN_ZOOM <= zoom <= start,
        !(answers(zoom) is Err && answers(zoom)->Err_0 is NotFound),
        forall|z: u8|
            zoom < z <= start ==> (#[trigger] answers(z)) is Err && answers(z)->Err_0 is NotFound,
    ensures
        walked(Walk { tile, zoom: start }, answers) == match answers(zoom) {
            Ok((bytes, origin)) => Ok::<(Seq<u8>, TileId, Origin), ErrorView>(
                (bytes, tile.ancestor_spec(zoom), origin),
            ),
            Err(e) => Err(e),
        },
    decreases start,
{
    if zoom < start {
        assert(answers(start) is Err && answers(start)->Err_0 is NotFound);
        law_walk_ends_at_the_closest(tile, (start - 1) as u8, answers, zoom);
    }
}

/// When every zoom answers 404, so does the walk, with the last URL asked.
pub proof fn law_walk_finds_nothing(
    tile: TileId,
    start: u8,
    answers: spec_fn(u8) -> Result<(Seq<u8>, Origin), ErrorView>,
)
    requires
        MIN_ZOOM <= start,
        forall|z: u8|
            MIN_ZOOM <= z <= start ==> (#[trigger] answers(z)) is Err && answers(z)->Err_0
                is NotFound,
    ensures
        walked(Walk { tile, zoom: start }, answers) == Err::<(Seq<u8>, TileId, Origin), ErrorView>(
            answers(MIN_ZOOM)->Err_0,
        ),
    decreases start,
{
    assert(answers(start) is Err && answers(start)->Err_0 is NotFound);
    if start > MIN_ZOOM {
        law_walk_finds_nothing(tile, (start - 1) as u8, answers);
    }
}

/// A cache entry's key is its kind's directory, its zoom, its column and its
/// row with the ending `.png`.
pub proof fn law_keys_are_directories_and_addresses(kind: Kind, tile: TileId)
    ensures
        ({
            let dir = match kind {
                Kind::Texture => "texture"@,
                Kind::Heightmap => "heightmap"@,
                Kind::Normals => "normals"@,
            };
            &&& key_spec(kind, tile) == dir + "/"@ + text::decimal_text(tile.zoom as nat) + "/"@
                + text::decimal_text(tile.x as nat) + "/"@ + text::decimal_text(tile.y as nat)
                + ".png"@
            &&& marker_spec(key_spec(kind, tile)) == key_spec(kind, tile) + ".404"@
        }),
{
    let dir = kind.dir_spec();
    let z = text::decimal_text(tile.zoom as nat);
    let x = text::decimal_text(tile.x as nat);
    let y = text::decimal_text(tile.y as nat);
    assert(key_spec(kind, tile) =~= dir + "/"@ + z + "/"@ + x + "/"@ + y + ".png"@);
}

/// What a reply to a GET means: bytes only where there are some; "not found"
/// exactly where the provider answered 404; anything else is a failure to
/// fetch, and all of them name the URL.
pub proof fn law_only_404_is_not_found(url: Seq<char>, reply: HttpReply)
    ensures
        ({
            let r = download_spec(url, reply);
            &&& r is Ok <==> reply is Body && reply->Body_0@.len() > 0
            &&& r is Ok ==> r->Ok_0 == reply->Body_0@
            &&& r is Err && r->Err_0 is NotFound <==> reply is Status && reply->code == 404
            &&& r is Err ==> r->Err_0 == ErrorView::NotFound { url } || (r->Err_0 is Fetch
                && r->Err_0->Fetch_url == url)
        }),
{
}

/// A walk begins at the tile's own zoom where the provider's hint allows it,
/// else at the hint, and never below the first zoom.
pub proof fn law_walks_begin_at_the_deepest_zoom_offered(zoom: u8, hint: u8)
    requires
        1 <= zoom,
    ensures
        hint >= zoom ==> start_zoom(zoom, hint) == zoom,
        1 <= hint < zoom ==> start_zoom(zoom, hint) == hint,
        hint == 0 ==> start_zoom(zoom, hint) == 1,
{
}

/// A walk goes down one zoom at a time, on a 404 and on nothing else, and
/// what it finds belongs to the ancestor that was asked for.
pub proof fn law_walks_go_down_on_404_only(
    w: Walk,
    reply: Result<(Seq<u8>, Origin), ErrorView>,
)
    requires
        w.wf(),
    ensures
        ({
            let s = after_fetched(w, reply);
            &&& s is Again <==> reply is Err && reply->Err_0 is NotFound && w.zoom > 1
            &&& s is Again ==> s->Again_0.tile == w.tile && s->Again_0.zoom == w.zoom - 1
            &&& s is Found <==> reply is Ok
            &&& reply is Ok ==> s == StepView::Found(
                reply->Ok_0.0,
                w.tile.ancestor_spec(w.zoom),
                reply->Ok_0.1,
            )
            &&& s is Failed ==> reply is Err && s->Failed_0 == reply->Err_0
        }),
{
}

/// A failing cache ends a fetch with its failure, at whichever step; nothing
/// is asked of the provider on the strength of a cache that could not be
/// read, and nothing counts as fetched that could not be written.
pub proof fn law_cache_failures_end_a_fetch(e: ErrorView, url: Seq<char>, stage: StageView)
    ensures
        after_entry(Err(e)) == StageView::Done(Err(e)),
        after_probe(Err(e), url) == StageView::Done(Err(e)),
        after_store(stage, Err(e)) == StageView::Done(Err(e)),
{
}

/// Forgetting 404s goes through the kind that is named, or through all three.
pub proof fn law_all_kinds_are_gone_through(kind: Kind, named: Option<Kind>)
    ensures
        kinds_spec(named).contains(kind) <==> named is None || named == Some(kind),
{
    let all = kinds_spec(named);
    if named is None {
        assert(all[0] is Texture && all[1] is Heightmap && all[2] is Normals);
    } else {
        assert(all[0] == named->0);
    }
}

/// A key names a marker exactly where it ends with `.404`.
pub proof fn law_markers_end_with_404(stem: Seq<char>, key: Seq<char>)
    ensures
        is_marker(stem + ".404"@),
        is_marker(key) <==> key.len() >= 4 && key.skip(key.len() - 4) == seq!['.', '4', '0', '4'],
{
    reveal_strlit(".404");
    let marker = stem + ".404"@;
    assert(marker.skip(marker.len() - 4) =~= ".404"@);
    assert(".404"@ =~= seq!['.', '4', '0', '4']);
}

} // verus!
