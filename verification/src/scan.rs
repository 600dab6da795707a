//! The scan that writes missing metadata documents next to built tiles.
//!
//! A [`Scan`] walks the listed keys of the output cache and says what to do
//! for each built tile; whoever runs it computes and stores the documents.
//! Existing documents are left untouched; one tile present under several
//! fingerprints is computed once and written to each. A tile that fails is
//! counted and does not stop the run.

use crate::error::{Error, ErrorView};
use crate::text;
use crate::tile::TileId;
use std::collections::HashMap;
use vstd::hash_set::StringHashSet;
use vstd::prelude::*;

verus! {

broadcast use vstd::std_specs::hash::group_hash_axioms;

/// What one scan did.
#[derive(Clone, Copy, Debug, PartialEq, Eq, Structural)]
pub struct Summary {
    /// Metadata documents written.
    pub written: usize,
    /// Tiles that already had one.
    pub skipped: usize,
    /// Tiles whose metadata could not be computed.
    pub failed: usize,
}

/// What happened to one tile of a scan.
#[derive(Clone, Copy, Debug, PartialEq, Eq, Structural)]
pub enum Outcome {
    /// A document was computed and stored.
    Written,
    /// The tile already had one.
    Skipped,
    /// Computing failed; the scan moves on.
    Failed,
}

impl Outcome {
    /// The outcome in one word.
    pub open spec fn name_spec(self) -> Seq<char> {
        match self {
            Outcome::Written => "written"@,
            Outcome::Skipped => "skipped"@,
            Outcome::Failed => "failed"@,
        }
    }

    /// The outcome in one word.
    pub fn name(self) -> (s: &'static str)
        ensures
            s@ == self.name_spec(),
    {
        match self {
            Outcome::Written => "written",
            Outcome::Skipped => "skipped",
            Outcome::Failed => "failed",
        }
    }
}

// -- keys --------------------------------------------------------------------------

/// The tile that three numbers written in text address.
pub open spec fn tile_of_text(z: Seq<char>, x: Seq<char>, y: Seq<char>) -> Option<TileId> {
    match (
        text::unsigned_value(z, 255),
        text::unsigned_value(x, 0xffff_ffff),
        text::unsigned_value(y, 0xffff_ffff),
    ) {
        (Some(zv), Some(xv), Some(yv)) => {
            let t = TileId { zoom: zv as u8, x: xv as u32, y: yv as u32 };
            if t.valid() {
                Some(t)
            } else {
                None
            }
        },
        _ => None,
    }
}

/// The tile that `glb/{fingerprint}/{z}/{x}/{y}.glb` names, or `None` for a
/// key of any other shape.
pub open spec fn glb_key_tile(key: Seq<char>) -> Option<TileId> {
    let p = text::pieces(key, '/');
    if p.len() == 5 && p[0] == "glb"@ && text::has_suffix(p[4], ".glb"@) {
        tile_of_text(p[2], p[3], p[4].take(p[4].len() - 4))
    } else {
        None
    }
}

/// The document's key for a built tile's.
pub open spec fn json_key_spec(key: Seq<char>) -> Seq<char> {
    key.take(key.len() - 4) + ".json"@
}

/// `glb/{fingerprint}/{z}/{x}/{y}.glb` → the tile, or `None` for any key
/// that is not shaped like a built tile (foreign files are just skipped).
pub fn parse_glb_key(key: &str) -> (r: Option<TileId>)
    ensures
        r == glb_key_tile(key@),
{
    proof {
        reveal_strlit(".glb");
    }
    let parts: Vec<String> = text::split(key, '/');
    let ghost p = text::pieces(key@, '/');
    if parts.len() != 5 {
        return None;
    }
    assert(p[0] == parts@[0]@ && p[2] == parts@[2]@ && p[3] == parts@[3]@ && p[4] == parts@[4]@);
    if !text::same(parts[0].as_str(), "glb") {
        return None;
    }
    match text::strip_suffix(parts[4].as_str(), ".glb") {
        None => None,
        Some(y) => {
            match (
                text::parse_unsigned(parts[2].as_str(), 255),
                text::parse_unsigned(parts[3].as_str(), 0xffff_ffff),
                text::parse_unsigned(y.as_str(), 0xffff_ffff),
            ) {
                (Some(z), Some(x), Some(yv)) => match TileId::new(z as u8, x, yv) {
                    Ok(t) => Some(t),
                    Err(_) => None,
                },
                _ => None,
            }
        },
    }
}

/// The document's key for a built tile's.
pub fn json_key(key: &str) -> (out: String)
    requires
        glb_key_tile(key@) is Some,
    ensures
        out@ == json_key_spec(key@),
{
    proof {
        lemma_built_keys_end(key@);
        reveal_strlit(".glb");
    }
    match text::strip_suffix(key, ".glb") {
        Some(stem) => text::join2(stem.as_str(), ".json"),
        None => key.to_owned(),
    }
}

/// A built tile's key ends with its extension.
pub proof fn lemma_built_keys_end(key: Seq<char>)
    requires
        glb_key_tile(key) is Some,
    ensures
        text::has_suffix(key, ".glb"@),
{
    reveal_strlit(".glb");
    let p = text::pieces(key, '/');
    text::law_pieces_rejoin(key, '/');
    let front = text::joined(p.drop_last(), '/').push('/');
    assert(key =~= front + p[4]);
    assert(key.skip(key.len() - 4) =~= p[4].skip(p[4].len() - 4));
}

// -- the scan ----------------------------------------------------------------------

/// What a scan knows: the listed keys, how far it is, what was computed
/// (`None` for a tile that failed), its summary so far, and whether it was
/// stopped.
pub struct ScanView {
    /// The listed keys.
    pub keys: Seq<Seq<char>>,
    /// The key to look at next.
    pub at: int,
    /// Computed documents.
    pub memo: Map<TileId, Option<Seq<u8>>>,
    /// Documents written.
    pub written: nat,
    /// Tiles skipped.
    pub skipped: nat,
    /// Tiles failed.
    pub failed: nat,
    /// Whoever watches the scan had it stop.
    pub stopped: bool,
}

/// What a scan knows at its start.
pub open spec fn scan_start(keys: Seq<Seq<char>>) -> ScanView {
    ScanView {
        keys,
        at: 0,
        memo: Map::empty(),
        written: 0,
        skipped: 0,
        failed: 0,
        stopped: false,
    }
}

/// What a scan asks for.
pub enum ScanAction {
    /// Nothing is left, or the scan was stopped.
    Finished,
    /// One tile is dealt with: report it, and call [`Scan::on_reported`].
    Report {
        /// The document's key.
        json_key: String,
        /// The tile.
        tile: TileId,
        /// What happened to it.
        outcome: Outcome,
    },
    /// Compute the document of a tile; hand it to [`Scan::on_computed`].
    Compute {
        /// The tile.
        tile: TileId,
    },
    /// Store a document; then call [`Scan::on_stored`], report it, and call
    /// [`Scan::on_reported`].
    Store {
        /// The document's key.
        json_key: String,
        /// The tile.
        tile: TileId,
        /// The document.
        bytes: Vec<u8>,
    },
}

/// A [`ScanAction`] with its strings and bytes as sequences.
pub enum ActionView {
    /// See [`ScanAction::Finished`].
    Finished,
    /// See [`ScanAction::Report`].
    Report(Seq<char>, TileId, Outcome),
    /// See [`ScanAction::Compute`].
    Compute(TileId),
    /// See [`ScanAction::Store`].
    Store(Seq<char>, TileId, Seq<u8>),
}

impl View for ScanAction {
    type V = ActionView;

    open spec fn view(&self) -> ActionView {
        match *self {
            ScanAction::Finished => ActionView::Finished,
            ScanAction::Report { json_key, tile, outcome } => ActionView::Report(
                json_key@,
                tile,
                outcome,
            ),
            ScanAction::Compute { tile } => ActionView::Compute(tile),
            ScanAction::Store { json_key, tile, bytes } => ActionView::Store(
                json_key@,
                tile,
                bytes@,
            ),
        }
    }
}

/// The next key, from `at` on, that names a built tile.
pub open spec fn next_built(keys: Seq<Seq<char>>, at: int) -> int
    decreases keys.len() - at,
{
    if at >= keys.len() {
        keys.len() as int
    } else if glb_key_tile(keys[at]) is Some {
        at
    } else {
        next_built(keys, at + 1)
    }
}

/// What a scan does next, and what it knows then. A tile with a document is
/// skipped; one whose document is at hand has it stored; one that failed is
/// counted; any other is computed. A stopped scan does nothing more.
pub open spec fn scan_step(v: ScanView) -> (ActionView, ScanView) {
    let i = next_built(v.keys, v.at);
    if v.stopped {
        (ActionView::Finished, v)
    } else if i >= v.keys.len() {
        (ActionView::Finished, ScanView { at: i, ..v })
    } else {
        let tile = glb_key_tile(v.keys[i])->0;
        let json = json_key_spec(v.keys[i]);
        if v.keys.contains(json) {
            (
                ActionView::Report(json, tile, Outcome::Skipped),
                ScanView { at: i + 1, skipped: v.skipped + 1, ..v },
            )
        } else if !v.memo.dom().contains(tile) {
            (ActionView::Compute(tile), ScanView { at: i, ..v })
        } else {
            match v.memo[tile] {
                Some(bytes) => (
                    ActionView::Store(json, tile, bytes),
                    ScanView { at: i, ..v },
                ),
                None => (
                    ActionView::Report(json, tile, Outcome::Failed),
                    ScanView { at: i + 1, failed: v.failed + 1, ..v },
                ),
            }
        }
    }
}

/// What a scan knows once a document was computed, or failed to be.
pub open spec fn after_computed(v: ScanView, tile: TileId, doc: Option<Seq<u8>>) -> ScanView {
    ScanView { memo: v.memo.insert(tile, doc), ..v }
}

/// What a scan knows once a document was stored.
pub open spec fn after_stored(v: ScanView) -> ScanView {
    ScanView { at: v.at + 1, written: v.written + 1, ..v }
}

/// What a scan knows once a tile was reported and the answer was to go on,
/// or not to.
pub open spec fn after_reported(v: ScanView, go_on: bool) -> ScanView {
    ScanView { stopped: v.stopped || !go_on, ..v }
}

/// A number for each tile.
pub open spec fn packed(t: TileId) -> int {
    (t.zoom * 0x40_0000 + t.x) * 0x40_0000 + t.y
}

fn pack(t: TileId) -> (n: u64)
    requires
        t.valid(),
    ensures
        n == packed(t),
{
    proof {
        crate::tile::lemma_axis_bound(t.zoom as nat);
    }
    (t.zoom as u64 * 0x40_0000 + t.x as u64) * 0x40_0000 + t.y as u64
}

proof fn lemma_packed_injective(a: TileId, b: TileId)
    requires
        a.valid(),
        b.valid(),
        packed(a) == packed(b),
    ensures
        a == b,
{
    crate::tile::lemma_axis_bound(a.zoom as nat);
    crate::tile::lemma_axis_bound(b.zoom as nat);
}

/// A scan over the listed keys of the output cache.
pub struct Scan {
    keys: Vec<String>,
    listed: StringHashSet,
    at: usize,
    memo: HashMap<u64, Option<Vec<u8>>>,
    summary: Summary,
    stopped: bool,
}

/// A document, or none, as bytes.
pub open spec fn doc_view(doc: Option<Vec<u8>>) -> Option<Seq<u8>> {
    match doc {
        Some(bytes) => Some(bytes@),
        None => None,
    }
}

impl Scan {
    /// What the scan knows.
    pub closed spec fn model(self) -> ScanView {
        ScanView {
            keys: text::views(self.keys@),
            at: self.at as int,
            memo: Map::new(
                |t: TileId| t.valid() && self.memo@.dom().contains(packed(t) as u64),
                |t: TileId| doc_view(self.memo@[packed(t) as u64]),
            ),
            written: self.summary.written as nat,
            skipped: self.summary.skipped as nat,
            failed: self.summary.failed as nat,
            stopped: self.stopped,
        }
    }

    /// The set of keys is that of the listing, and every tile dealt with was
    /// counted once.
    pub closed spec fn wf(self) -> bool {
        &&& self.at <= self.keys@.len()
        &&& forall|k: Seq<char>|
            self.listed@.contains(k) <==> #[trigger] text::views(self.keys@).contains(k)
        &&& self.summary.written + self.summary.skipped + self.summary.failed <= self.at
    }

    /// What the scan did so far.
    pub fn summary(&self) -> (s: Summary)
        ensures
            s.written == self.model().written,
            s.skipped == self.model().skipped,
            s.failed == self.model().failed,
    {
        self.summary
    }

    /// What to do next.
    pub fn step(&mut self) -> (a: ScanAction)
        requires
            old(self).wf(),
        ensures
            final(self).wf(),
            a@ == scan_step(old(self).model()).0,
            final(self).model() == scan_step(old(self).model()).1,
    {
        if self.stopped {
            return ScanAction::Finished;
        }
        let ghost before = self.model();
        let ghost keys = before.keys;
        let total: usize = self.keys.len();
        let mut i: usize = self.at;
        while i < total && parse_glb_key(self.keys[i].as_str()).is_none()
            invariant
                i <= total,
                total == self.keys@.len(),
                keys == text::views(self.keys@),
                next_built(keys, before.at) == next_built(keys, i as int),
                before.at <= i,
            decreases total - i,
        {
            i = i + 1;
        }
        assert(next_built(keys, before.at) == i);
        self.at = i;
        assert(self.model().memo =~= before.memo);
        if i >= total {
            return ScanAction::Finished;
        }
        let key: &str = self.keys[i].as_str();
        assert(keys[i as int] == key@);
        let tile: TileId = match parse_glb_key(key) {
            Some(t) => t,
            None => return ScanAction::Finished,
        };
        proof {
            lemma_key_tile_valid(key@);
        }
        let json: String = json_key(key);
        if self.listed.contains(json.as_str()) {
            self.at = i + 1;
            self.summary.skipped = self.summary.skipped + 1;
            assert(self.model().memo =~= before.memo);
            return ScanAction::Report { json_key: json, tile, outcome: Outcome::Skipped };
        }
        let packed_tile: u64 = pack(tile);
        match self.memo.get(&packed_tile) {
            None => ScanAction::Compute { tile },
            Some(Some(doc)) => {
                let bytes: Vec<u8> = doc.clone();
                assert(bytes@ =~= doc@);
                ScanAction::Store { json_key: json, tile, bytes }
            },
            Some(None) => {
                self.at = i + 1;
                self.summary.failed = self.summary.failed + 1;
                assert(self.model().memo =~= before.memo);
                ScanAction::Report { json_key: json, tile, outcome: Outcome::Failed }
            },
        }
    }

    /// The document of `tile` was computed, or failed to be.
    pub fn on_computed(&mut self, tile: TileId, doc: Option<Vec<u8>>)
        requires
            old(self).wf(),
            tile.valid(),
        ensures
            final(self).wf(),
            final(self).model() == after_computed(old(self).model(), tile, doc_view(doc)),
    {
        let ghost before = self.model();
        let k: u64 = pack(tile);
        self.memo.insert(k, doc);
        proof {
            let now = self.model().memo;
            let want = before.memo.insert(tile, doc_view(doc));
            assert forall|t: TileId| #[trigger] now.dom().contains(t) == want.dom().contains(t) by {
                if t.valid() && packed(t) as u64 == k {
                    lemma_packed_fits(t);
                    lemma_packed_injective(t, tile);
                }
            }
            assert forall|t: TileId| now.dom().contains(t) implies #[trigger] now[t] == want[t] by {
                if t.valid() && packed(t) as u64 == k {
                    lemma_packed_fits(t);
                    lemma_packed_injective(t, tile);
                }
            }
            assert(now =~= want);
        }
    }

    /// The document that was asked to be stored is stored.
    pub fn on_stored(&mut self)
        requires
            old(self).wf(),
            old(self).model().at < old(self).model().keys.len(),
        ensures
            final(self).wf(),
            final(self).model() == after_stored(old(self).model()),
    {
        let ghost before = self.model();
        let total: usize = self.keys.len();
        assert(self.at < total);
        self.at = self.at + 1;
        self.summary.written = self.summary.written + 1;
        assert(self.model().memo =~= before.memo);
    }

    /// A tile was reported. Where the answer is not to go on the scan stops:
    /// its summary then covers only the part that ran.
    pub fn on_reported(&mut self, go_on: bool)
        requires
            old(self).wf(),
        ensures
            final(self).wf(),
            final(self).model() == after_reported(old(self).model(), go_on),
    {
        let ghost before = self.model();
        if !go_on {
            self.stopped = true;
        }
        assert(self.model().memo =~= before.memo);
    }
}

proof fn lemma_packed_fits(t: TileId)
    requires
        t.valid(),
    ensures
        0 <= packed(t) <= u64::MAX,
{
    crate::tile::lemma_axis_bound(t.zoom as nat);
}

/// A built tile's key names a valid tile.
pub proof fn lemma_key_tile_valid(key: Seq<char>)
    requires
        glb_key_tile(key) is Some,
    ensures
        glb_key_tile(key)->0.valid(),
{
}

/// Start a scan over the listed keys of the output cache.
pub fn generate_missing(keys: Vec<String>) -> (s: Scan)
    ensures
        s.wf(),
        s.model() == scan_start(text::views(keys@)),
{
    let ghost all = text::views(keys@);
    let mut listed: StringHashSet = StringHashSet::new();
    let mut k: usize = 0;
    while k < keys.len()
        invariant
            k <= keys@.len(),
            all == text::views(keys@),
            forall|s: Seq<char>|
                listed@.contains(s) <==> #[trigger] all.take(k as int).contains(s),
        decreases keys@.len() - k,
    {
        let key: &str = keys[k].as_str();
        let ghost before = listed@;
        listed.insert(key.to_owned());
        assert forall|s: Seq<char>|
            listed@.contains(s) <==> #[trigger] all.take(k + 1).contains(s) by {
            let front = all.take(k as int);
            let now = all.take(k + 1);
            assert(before.contains(s) <==> front.contains(s));
            assert(now =~= front.push(key@));
            if now.contains(s) {
                let i = choose|i: int| 0 <= i < now.len() && now[i] == s;
                if i < k {
                    assert(front[i] == s);
                }
            }
            if front.contains(s) {
                let i = choose|i: int| 0 <= i < front.len() && front[i] == s;
                assert(now[i] == s);
            }
            if s == key@ {
                assert(now[k as int] == s);
            }
        }
        k = k + 1;
    }
    assert(all.take(k as int) =~= all);
    let s: Scan = Scan {
        keys,
        listed,
        at: 0,
        memo: HashMap::new(),
        summary: Summary { written: 0, skipped: 0, failed: 0 },
        stopped: false,
    };
    assert(s.model().memo =~= Map::empty());
    s
}

// -- one document ------------------------------------------------------------------

/// What publishing one document does next.
pub enum PublishStage {
    /// Ask the cache whether the document is there.
    Probe,
    /// Compute the document.
    Compute,
    /// Store the document.
    Store(Vec<u8>),
    /// Nothing more: whether a document was written.
    Done(Result<bool, Error>),
}

/// A [`PublishStage`] with its bytes and its error as models.
pub enum PublishView {
    /// See [`PublishStage::Probe`].
    Probe,
    /// See [`PublishStage::Compute`].
    Compute,
    /// See [`PublishStage::Store`].
    Store(Seq<u8>),
    /// See [`PublishStage::Done`].
    Done(Result<bool, ErrorView>),
}

impl View for PublishStage {
    type V = PublishView;

    open spec fn view(&self) -> PublishView {
        match *self {
            PublishStage::Probe => PublishView::Probe,
            PublishStage::Compute => PublishView::Compute,
            PublishStage::Store(bytes) => PublishView::Store(bytes@),
            PublishStage::Done(r) => PublishView::Done(crate::fetch::probe_view(r)),
        }
    }
}

/// After probing: a document that is there is left alone.
pub open spec fn publish_after_probe(reply: Result<bool, ErrorView>) -> PublishView {
    match reply {
        Ok(true) => PublishView::Done(Ok(false)),
        Ok(false) => PublishView::Compute,
        Err(e) => PublishView::Done(Err(e)),
    }
}

/// After computing.
pub open spec fn publish_after_compute(reply: Result<Seq<u8>, ErrorView>) -> PublishView {
    match reply {
        Ok(bytes) => PublishView::Store(bytes),
        Err(e) => PublishView::Done(Err(e)),
    }
}

/// After storing.
pub open spec fn publish_after_store(reply: Result<(), ErrorView>) -> PublishView {
    match reply {
        Ok(_) => PublishView::Done(Ok(true)),
        Err(e) => PublishView::Done(Err(e)),
    }
}

/// Start publishing one document unless it is already there. This is what
/// the server does right after caching a freshly built tile; a scan fills
/// whatever such runs failed to write.
pub fn write_missing() -> (s: PublishStage)
    ensures
        s@ == PublishView::Probe,
{
    PublishStage::Probe
}

impl PublishStage {
    /// The document was probed.
    pub fn on_probe(self, reply: Result<bool, Error>) -> (s: PublishStage)
        requires
            self is Probe,
        ensures
            s@ == publish_after_probe(crate::fetch::probe_view(reply)),
    {
        match reply {
            Ok(true) => PublishStage::Done(Ok(false)),
            Ok(false) => PublishStage::Compute,
            Err(e) => PublishStage::Done(Err(e)),
        }
    }

    /// The document was computed.
    pub fn on_computed(self, reply: Result<Vec<u8>, Error>) -> (s: PublishStage)
        requires
            self is Compute,
        ensures
            s@ == publish_after_compute(crate::error::bytes_view(reply)),
    {
        match reply {
            Ok(bytes) => PublishStage::Store(bytes),
            Err(e) => PublishStage::Done(Err(e)),
        }
    }

    /// The document was stored.
    pub fn on_stored(self, reply: Result<(), Error>) -> (s: PublishStage)
        requires
            self is Store,
        ensures
            s@ == publish_after_store(crate::fetch::write_view(reply)),
    {
        match reply {
            Ok(()) => PublishStage::Done(Ok(true)),
            Err(e) => PublishStage::Done(Err(e)),
        }
    }
}

// -- laws ------------------------------------------------------------------------

/// Everything a scan does, run to its end.
pub struct ScanEnd {
    /// The tiles reported, in order: document's key, tile, outcome.
    pub reports: Seq<(Seq<char>, TileId, Outcome)>,
    /// The documents stored, in order.
    pub stored: Seq<(Seq<char>, Seq<u8>)>,
    /// The tiles computed, in order.
    pub computed: Seq<TileId>,
    /// What the scan knows at the end.
    pub last: ScanView,
}

/// The scan is about to ask for a computation.
pub open spec fn will_compute(v: ScanView) -> bool {
    scan_step(v).0 is Compute
}

/// A scan run to its end, computing `docs(tile)` for a tile, storing what it
/// is told to, and answering `go_on(n)` to the report that `n` others went
/// before.
pub open spec fn scan_run(
    v: ScanView,
    docs: spec_fn(TileId) -> Option<Seq<u8>>,
    go_on: spec_fn(int) -> bool,
    end: ScanEnd,
) -> ScanEnd
    decreases v.keys.len() - v.at, if will_compute(v) { 1int } else { 0int },
    when 0 <= v.at <= v.keys.len()
    via scan_run_decreases
{
    let (action, next) = scan_step(v);
    match action {
        ActionView::Finished => ScanEnd { last: next, ..end },
        ActionView::Report(json, tile, outcome) => scan_run(
            after_reported(next, go_on(end.reports.len() as int)),
            docs,
            go_on,
            ScanEnd { reports: end.reports.push((json, tile, outcome)), ..end },
        ),
        ActionView::Compute(tile) => scan_run(
            after_computed(next, tile, docs(tile)),
            docs,
            go_on,
            ScanEnd { computed: end.computed.push(tile), ..end },
        ),
        ActionView::Store(json, tile, bytes) => scan_run(
            after_reported(after_stored(next), go_on(end.reports.len() as int)),
            docs,
            go_on,
            ScanEnd {
                reports: end.reports.push((json, tile, Outcome::Written)),
                stored: end.stored.push((json, bytes)),
                ..end
            },
        ),
    }
}

#[via_fn]
proof fn scan_run_decreases(
    v: ScanView,
    docs: spec_fn(TileId) -> Option<Seq<u8>>,
    go_on: spec_fn(int) -> bool,
    end: ScanEnd,
) {
    if 0 <= v.at <= v.keys.len() {
        lemma_step_gets_on(v, docs);
    }
}

proof fn lemma_step_gets_on(v: ScanView, docs: spec_fn(TileId) -> Option<Seq<u8>>)
    requires
        0 <= v.at <= v.keys.len(),
    ensures
        v.at <= scan_step(v).1.at <= v.keys.len(),
        scan_step(v).0 is Report ==> v.at < scan_step(v).1.at,
        scan_step(v).0 is Store ==> scan_step(v).1.at < v.keys.len(),
        scan_step(v).0 matches ActionView::Compute(tile) ==> !will_compute(
            after_computed(scan_step(v).1, tile, docs(tile)),
        ),
{
    lemma_next_built(v.keys, v.at);
    let (action, next) = scan_step(v);
    if action is Compute {
        let tile = action->Compute_0;
        let then = after_computed(next, tile, docs(tile));
        lemma_next_built(v.keys, next.at);
        assert(next_built(then.keys, then.at) == then.at);
        assert(!will_compute(then));
    }
}

proof fn lemma_next_built(keys: Seq<Seq<char>>, at: int)
    requires
        0 <= at <= keys.len(),
    ensures
        at <= next_built(keys, at) <= keys.len(),
        next_built(keys, at) < keys.len() ==> glb_key_tile(keys[next_built(keys, at)]) is Some,
        next_built(keys, next_built(keys, at)) == next_built(keys, at),
    decreases keys.len() - at,
{
    if at < keys.len() && !(glb_key_tile(keys[at]) is Some) {
        lemma_next_built(keys, at + 1);
    }
}

/// How many of the keys from `at` on name built tiles.
pub open spec fn built_from(keys: Seq<Seq<char>>, at: int) -> nat
    decreases keys.len() - at,
{
    if at >= keys.len() {
        0
    } else {
        (if glb_key_tile(keys[at]) is Some {
            1nat
        } else {
            0nat
        }) + built_from(keys, at + 1)
    }
}

/// What a scan makes of one built tile's key.
pub open spec fn outcome_of(
    keys: Seq<Seq<char>>,
    docs: spec_fn(TileId) -> Option<Seq<u8>>,
    key: Seq<char>,
) -> Outcome {
    if keys.contains(json_key_spec(key)) {
        Outcome::Skipped
    } else if docs(glb_key_tile(key)->0) is Some {
        Outcome::Written
    } else {
        Outcome::Failed
    }
}

/// One report for every built tile among the keys from `at` on, in order.
pub open spec fn reports_from(
    keys: Seq<Seq<char>>,
    docs: spec_fn(TileId) -> Option<Seq<u8>>,
    at: int,
) -> Seq<(Seq<char>, TileId, Outcome)>
    decreases keys.len() - at,
{
    if at >= keys.len() {
        Seq::empty()
    } else {
        let rest = reports_from(keys, docs, at + 1);
        match glb_key_tile(keys[at]) {
            Some(tile) => seq![
                (json_key_spec(keys[at]), tile, outcome_of(keys, docs, keys[at])),
            ] + rest,
            None => rest,
        }
    }
}

/// The document of every tile that lacks one and has one to be written, in
/// order.
pub open spec fn documents_from(
    keys: Seq<Seq<char>>,
    docs: spec_fn(TileId) -> Option<Seq<u8>>,
    at: int,
) -> Seq<(Seq<char>, Seq<u8>)>
    decreases keys.len() - at,
{
    if at >= keys.len() {
        Seq::empty()
    } else {
        let rest = documents_from(keys, docs, at + 1);
        match glb_key_tile(keys[at]) {
            Some(tile) => if outcome_of(keys, docs, keys[at]) is Written {
                seq![(json_key_spec(keys[at]), docs(tile)->0)] + rest
            } else {
                rest
            },
            None => rest,
        }
    }
}

proof fn lemma_from_next(
    keys: Seq<Seq<char>>,
    docs: spec_fn(TileId) -> Option<Seq<u8>>,
    at: int,
)
    requires
        0 <= at <= keys.len(),
    ensures
        built_from(keys, at) == built_from(keys, next_built(keys, at)),
        reports_from(keys, docs, at) == reports_from(keys, docs, next_built(keys, at)),
        documents_from(keys, docs, at) == documents_from(keys, docs, next_built(keys, at)),
    decreases keys.len() - at,
{
    if at < keys.len() && !(glb_key_tile(keys[at]) is Some) {
        lemma_from_next(keys, docs, at + 1);
    }
}

/// How many of the reports tell of `outcome`.
pub open spec fn count_of(reports: Seq<(Seq<char>, TileId, Outcome)>, outcome: Outcome) -> nat
    decreases reports.len(),
{
    if reports.len() == 0 {
        0
    } else {
        count_of(reports.drop_last(), outcome) + if reports.last().2 == outcome {
            1nat
        } else {
            0nat
        }
    }
}

/// The documents that the reports tell of as written, in order.
pub open spec fn documents_of(
    reports: Seq<(Seq<char>, TileId, Outcome)>,
    docs: spec_fn(TileId) -> Option<Seq<u8>>,
) -> Seq<(Seq<char>, Seq<u8>)>
    decreases reports.len(),
{
    if reports.len() == 0 {
        Seq::empty()
    } else {
        let front = documents_of(reports.drop_last(), docs);
        let (json, tile, outcome) = reports.last();
        if outcome is Written {
            front.push((json, docs(tile)->0))
        } else {
            front
        }
    }
}

/// One of the reports tells of `tile` as written or failed.
pub open spec fn is_dealt_with(
    reports: Seq<(Seq<char>, TileId, Outcome)>,
    tile: TileId,
) -> bool {
    exists|k: int|
        0 <= k < reports.len() && (#[trigger] reports[k]).1 == tile && !(reports[k].2 is Skipped)
}

proof fn lemma_still_dealt_with(
    reports: Seq<(Seq<char>, TileId, Outcome)>,
    more: (Seq<char>, TileId, Outcome),
    tile: TileId,
)
    ensures
        is_dealt_with(reports, tile) ==> is_dealt_with(reports.push(more), tile),
        more.1 == tile && !(more.2 is Skipped) ==> is_dealt_with(reports.push(more), tile),
{
    let all = reports.push(more);
    if is_dealt_with(reports, tile) {
        let k = choose|k: int|
            0 <= k < reports.len() && (#[trigger] reports[k]).1 == tile && !(
            reports[k].2 is Skipped);
        assert(all[k] == reports[k]);
    }
    assert(all[reports.len() as int] == more);
}

/// The scan has yet to report the tile that it computed last.
spec fn is_due(v: ScanView, tile: TileId) -> bool {
    &&& !v.stopped
    &&& v.at < v.keys.len()
    &&& glb_key_tile(v.keys[v.at]) == Some(tile)
    &&& !v.keys.contains(json_key_spec(v.keys[v.at]))
}

/// What holds all through a run.
spec fn run_ok(
    v: ScanView,
    docs: spec_fn(TileId) -> Option<Seq<u8>>,
    go_on: spec_fn(int) -> bool,
    end: ScanEnd,
) -> bool {
    &&& 0 <= v.at <= v.keys.len()
    &&& end.reports.len() == v.written + v.skipped + v.failed
    &&& v.written == count_of(end.reports, Outcome::Written)
    &&& v.skipped == count_of(end.reports, Outcome::Skipped)
    &&& v.failed == count_of(end.reports, Outcome::Failed)
    &&& end.reports.len() + built_from(v.keys, v.at) == built_from(v.keys, 0)
    &&& end.reports + reports_from(v.keys, docs, v.at) == reports_from(v.keys, docs, 0)
    &&& end.stored.len() == v.written
    &&& end.stored + documents_from(v.keys, docs, v.at) == documents_from(v.keys, docs, 0)
    &&& end.computed.no_duplicates()
    &&& forall|t: TileId| #[trigger]
        v.memo.dom().contains(t) <==> end.computed.contains(t)
    &&& forall|t: TileId| #[trigger] v.memo.dom().contains(t) ==> v.memo[t] == docs(t)
    &&& end.stored == documents_of(end.reports, docs)
    &&& forall|t: TileId| #[trigger]
        end.computed.contains(t) ==> is_dealt_with(end.reports, t) || is_due(v, t)
    &&& forall|n: int| 0 <= n < end.reports.len() - 1 ==> #[trigger] go_on(n)
    &&& v.stopped <==> end.reports.len() > 0 && !go_on(end.reports.len() - 1)
}

proof fn lemma_run(
    v: ScanView,
    docs: spec_fn(TileId) -> Option<Seq<u8>>,
    go_on: spec_fn(int) -> bool,
    end: ScanEnd,
)
    requires
        run_ok(v, docs, go_on, end),
    ensures
        ({
            let done = scan_run(v, docs, go_on, end);
            &&& run_ok(done.last, docs, go_on, done)
            &&& done.last.stopped || done.last.at == v.keys.len()
            &&& done.last.keys == v.keys
        }),
    decreases v.keys.len() - v.at, if will_compute(v) { 1int } else { 0int },
{
    lemma_step_gets_on(v, docs);
    lemma_next_built(v.keys, v.at);
    lemma_from_next(v.keys, docs, v.at);
    let (action, next) = scan_step(v);
    let i = next_built(v.keys, v.at);
    match action {
        ActionView::Finished => {
            if !v.stopped {
                assert(built_from(v.keys, next.at) == 0);
                assert(forall|t: TileId| !is_due(v, t));
            }
        },
        ActionView::Report(json, tile, outcome) => {
            let said = go_on(end.reports.len() as int);
            let e = ScanEnd { reports: end.reports.push((json, tile, outcome)), ..end };
            assert(e.reports.drop_last() =~= end.reports);
            assert(outcome == outcome_of(v.keys, docs, v.keys[i]));
            assert(e.reports + reports_from(v.keys, docs, i + 1) =~= end.reports + reports_from(
                v.keys,
                docs,
                i,
            ));
            assert(documents_from(v.keys, docs, i) == documents_from(v.keys, docs, i + 1));
            lemma_dealt_with(v, end, tile, outcome);
            lemma_run(after_reported(next, said), docs, go_on, e);
        },
        ActionView::Compute(tile) => {
            let e = ScanEnd { computed: end.computed.push(tile), ..end };
            let then = after_computed(next, tile, docs(tile));
            assert(!end.computed.contains(tile));
            assert forall|t: TileId| e.computed.contains(t) <==> end.computed.contains(t) || t
                == tile by {
                if end.computed.contains(t) {
                    let k = choose|k: int| 0 <= k < end.computed.len() && end.computed[k] == t;
                    assert(e.computed[k] == t);
                }
                if t == tile {
                    assert(e.computed[end.computed.len() as int] == t);
                }
            }
            assert(e.computed.no_duplicates()) by {
                assert forall|a: int, b: int|
                    0 <= a < e.computed.len() && 0 <= b < e.computed.len() && a
                        != b implies e.computed[a] != e.computed[b] by {
                    if a < end.computed.len() {
                        assert(end.computed.contains(end.computed[a]));
                    }
                    if b < end.computed.len() {
                        assert(end.computed.contains(end.computed[b]));
                    }
                }
            }
            assert forall|t: TileId| #[trigger]
                then.memo.dom().contains(t) implies then.memo[t] == docs(t) by {
                assert(t != tile ==> v.memo.dom().contains(t));
            }
            assert forall|t: TileId| #[trigger]
                then.memo.dom().contains(t) <==> e.computed.contains(t) by {
                assert(v.memo.dom().contains(t) <==> end.computed.contains(t));
            }
            lemma_dealt_with_or_due(v, end, tile);
            lemma_run(then, docs, go_on, e);
        },
        ActionView::Store(json, tile, bytes) => {
            let e = ScanEnd {
                reports: end.reports.push((json, tile, Outcome::Written)),
                stored: end.stored.push((json, bytes)),
                ..end
            };
            assert(e.reports.drop_last() =~= end.reports);
            assert(v.memo.dom().contains(tile));
            assert(docs(tile) == Some(bytes));
            assert(outcome_of(v.keys, docs, v.keys[i]) is Written);
            assert(e.reports + reports_from(v.keys, docs, i + 1) =~= end.reports + reports_from(
                v.keys,
                docs,
                i,
            ));
            assert(e.stored + documents_from(v.keys, docs, i + 1) =~= end.stored + documents_from(
                v.keys,
                docs,
                i,
            ));
            lemma_dealt_with(v, end, tile, Outcome::Written);
            let said = go_on(end.reports.len() as int);
            lemma_run(after_reported(after_stored(next), said), docs, go_on, e);
        },
    }
}

/// Reporting a tile leaves none that is computed and yet to be reported.
proof fn lemma_dealt_with(v: ScanView, end: ScanEnd, tile: TileId, outcome: Outcome)
    requires
        0 <= v.at <= v.keys.len(),
        !v.stopped,
        next_built(v.keys, v.at) < v.keys.len(),
        glb_key_tile(v.keys[next_built(v.keys, v.at)]) == Some(tile),
        outcome is Skipped ==> v.keys.contains(json_key_spec(v.keys[next_built(v.keys, v.at)])),
        forall|t: TileId| #[trigger]
            end.computed.contains(t) ==> is_dealt_with(end.reports, t) || is_due(v, t),
    ensures
        forall|json: Seq<char>, t: TileId|
            end.computed.contains(t) ==> #[trigger] is_dealt_with(
                end.reports.push((json, tile, outcome)),
                t,
            ),
{
    assert forall|json: Seq<char>, t: TileId|
        end.computed.contains(t) implies #[trigger] is_dealt_with(
        end.reports.push((json, tile, outcome)),
        t,
    ) by {
        lemma_still_dealt_with(end.reports, (json, tile, outcome), t);
        if is_due(v, t) {
            assert(next_built(v.keys, v.at) == v.at);
        }
    }
}

/// The tile computed last is the one to be reported next.
proof fn lemma_dealt_with_or_due(v: ScanView, end: ScanEnd, tile: TileId)
    requires
        0 <= v.at <= v.keys.len(),
        scan_step(v).0 == ActionView::Compute(tile),
        forall|t: TileId| #[trigger] v.memo.dom().contains(t) <==> end.computed.contains(t),
        forall|t: TileId| #[trigger]
            end.computed.contains(t) ==> is_dealt_with(end.reports, t) || is_due(v, t),
    ensures
        forall|t: TileId| #[trigger]
            end.computed.contains(t) ==> is_dealt_with(end.reports, t),
        is_due(scan_step(v).1, tile),
{
    lemma_next_built(v.keys, v.at);
    assert forall|t: TileId| #[trigger] end.computed.contains(t) implies is_dealt_with(
        end.reports,
        t,
    ) by {
        if is_due(v, t) {
            assert(next_built(v.keys, v.at) == v.at);
            assert(!v.memo.dom().contains(tile));
        }
    }
}

/// A scan over `keys` that ends where `go_on` says so.
pub open spec fn watched_scan(
    keys: Seq<Seq<char>>,
    docs: spec_fn(TileId) -> Option<Seq<u8>>,
    go_on: spec_fn(int) -> bool,
) -> ScanEnd {
    scan_run(scan_start(keys), docs, go_on, nothing_yet(keys))
}

/// Nothing reported, stored or computed.
pub open spec fn nothing_yet(keys: Seq<Seq<char>>) -> ScanEnd {
    ScanEnd {
        reports: Seq::empty(),
        stored: Seq::empty(),
        computed: Seq::empty(),
        last: scan_start(keys),
    }
}

/// A whole scan over `keys`.
pub open spec fn whole_scan(
    keys: Seq<Seq<char>>,
    docs: spec_fn(TileId) -> Option<Seq<u8>>,
) -> ScanEnd {
    watched_scan(keys, docs, |n: int| true)
}

proof fn lemma_watched(
    keys: Seq<Seq<char>>,
    docs: spec_fn(TileId) -> Option<Seq<u8>>,
    go_on: spec_fn(int) -> bool,
)
    ensures
        ({
            let done = watched_scan(keys, docs, go_on);
            &&& run_ok(done.last, docs, go_on, done)
            &&& done.last.stopped || done.last.at == keys.len()
            &&& done.last.keys == keys
        }),
{
    let end = nothing_yet(keys);
    assert(end.reports + reports_from(keys, docs, 0) =~= reports_from(keys, docs, 0));
    assert(end.stored + documents_from(keys, docs, 0) =~= documents_from(keys, docs, 0));
    lemma_run(scan_start(keys), docs, go_on, end);
}

/// A scan stops where it is told to: it reports a whole scan's tiles up to
/// the first report that is not answered with going on, and nothing after
/// it. It stores exactly the documents so reported and computes no other
/// tile's, none twice. Its summary counts exactly these reports.
pub proof fn law_scan_stops_when_told(
    keys: Seq<Seq<char>>,
    docs: spec_fn(TileId) -> Option<Seq<u8>>,
    go_on: spec_fn(int) -> bool,
)
    ensures
        ({
            let end = watched_scan(keys, docs, go_on);
            let all = reports_from(keys, docs, 0);
            let n = end.reports.len();
            &&& n <= all.len()
            &&& end.reports == all.take(n as int)
            &&& forall|i: int| 0 <= i < n - 1 ==> #[trigger] go_on(i)
            &&& n < all.len() ==> n > 0 && !go_on(n - 1)
            &&& end.stored == documents_of(end.reports, docs)
            &&& end.computed.no_duplicates()
            &&& forall|t: TileId| #[trigger]
                end.computed.contains(t) ==> is_dealt_with(end.reports, t)
            &&& end.last.written + end.last.skipped + end.last.failed == n
            &&& end.last.written == count_of(end.reports, Outcome::Written)
            &&& end.last.skipped == count_of(end.reports, Outcome::Skipped)
            &&& end.last.failed == count_of(end.reports, Outcome::Failed)
        }),
{
    lemma_watched(keys, docs, go_on);
    let end = watched_scan(keys, docs, go_on);
    let all = reports_from(keys, docs, 0);
    let rest = reports_from(keys, docs, end.last.at);
    assert(end.reports + rest == all);
    assert(end.reports =~= all.take(end.reports.len() as int));
    assert forall|t: TileId| #[trigger] end.computed.contains(t) implies is_dealt_with(
        end.reports,
        t,
    ) by {
        assert(!is_due(end.last, t));
    }
}

/// A scan is thorough and careful. It reports every built tile once, in the
/// order of the listing: a document that was there is skipped, a tile whose
/// document cannot be computed has failed, and any other document is written.
/// It stores exactly the documents so reported — each next to its tile, also
/// where one tile stands under several fingerprints — and computes no tile
/// twice. Its summary counts the reports.
pub proof fn law_scan_is_thorough_and_careful(
    keys: Seq<Seq<char>>,
    docs: spec_fn(TileId) -> Option<Seq<u8>>,
)
    ensures
        ({
            let end = whole_scan(keys, docs);
            &&& end.reports == reports_from(keys, docs, 0)
            &&& end.stored == documents_from(keys, docs, 0)
            &&& end.computed.no_duplicates()
            &&& end.last.written + end.last.skipped + end.last.failed == end.reports.len()
            &&& end.last.written == count_of(end.reports, Outcome::Written)
            &&& end.last.skipped == count_of(end.reports, Outcome::Skipped)
            &&& end.last.failed == count_of(end.reports, Outcome::Failed)
            &&& end.last.written == end.stored.len()
            &&& end.reports.len() == built_from(keys, 0)
        }),
{
    lemma_watched(keys, docs, |n: int| true);
    let done = whole_scan(keys, docs);
    assert(done.reports + reports_from(keys, docs, keys.len() as int) =~= done.reports);
    assert(done.stored + documents_from(keys, docs, keys.len() as int) =~= done.stored);
}

/// A document that was there is never written again.
pub proof fn law_scan_rewrites_nothing(
    keys: Seq<Seq<char>>,
    docs: spec_fn(TileId) -> Option<Seq<u8>>,
    i: int,
)
    requires
        0 <= i < whole_scan(keys, docs).stored.len(),
    ensures
        !keys.contains(whole_scan(keys, docs).stored[i].0),
{
    law_scan_is_thorough_and_careful(keys, docs);
    lemma_documents_are_new(keys, docs, 0, i);
}

proof fn lemma_documents_are_new(
    keys: Seq<Seq<char>>,
    docs: spec_fn(TileId) -> Option<Seq<u8>>,
    at: int,
    i: int,
)
    requires
        0 <= i < documents_from(keys, docs, at).len(),
    ensures
        !keys.contains(documents_from(keys, docs, at)[i].0),
        documents_from(keys, docs, at)[i].0.last() == 'n',
    decreases keys.len() - at,
{
    reveal_strlit(".json");
    if at < keys.len() {
        let here = glb_key_tile(keys[at]) is Some && outcome_of(keys, docs, keys[at]) is Written;
        if !here {
            lemma_documents_are_new(keys, docs, at + 1, i);
        } else if i > 0 {
            lemma_documents_are_new(keys, docs, at + 1, i - 1);
        }
    }
}

/// A scan stored a document at `key`.
pub open spec fn is_stored(end: ScanEnd, key: Seq<char>) -> bool {
    exists|i: int| 0 <= i < end.stored.len() && (#[trigger] end.stored[i]).0 == key
}

/// `again` lists the keys of the output cache after the scan over `keys`: in
/// whatever order, those and the stored documents'.
pub open spec fn lists_after(
    again: Seq<Seq<char>>,
    keys: Seq<Seq<char>>,
    docs: spec_fn(TileId) -> Option<Seq<u8>>,
) -> bool {
    &&& again.no_duplicates()
    &&& forall|k: Seq<char>| #[trigger]
        again.contains(k) <==> keys.contains(k) || is_stored(whole_scan(keys, docs), k)
}

/// A second scan finds nothing to do: after one without failures, whatever
/// documents would be computed by then, it computes and stores none, and
/// skips every tile that the first wrote or skipped.
pub proof fn law_second_scan_finds_nothing(
    keys: Seq<Seq<char>>,
    docs: spec_fn(TileId) -> Option<Seq<u8>>,
    again: Seq<Seq<char>>,
    later: spec_fn(TileId) -> Option<Seq<u8>>,
)
    requires
        keys.no_duplicates(),
        whole_scan(keys, docs).last.failed == 0,
        lists_after(again, keys, docs),
    ensures
        ({
            let first = whole_scan(keys, docs);
            let second = whole_scan(again, later);
            &&& second.last.written == 0
            &&& second.last.skipped == first.last.written + first.last.skipped
            &&& second.last.failed == 0
            &&& second.stored.len() == 0
            &&& second.computed.len() == 0
        }),
{
    let first = whole_scan(keys, docs);
    law_scan_is_thorough_and_careful(keys, docs);
    law_scan_is_thorough_and_careful(again, later);
    assert forall|i: int| 0 <= i < again.len() && glb_key_tile(#[trigger] again[i]) is Some implies
        again.contains(json_key_spec(again[i])) by {
        let k = again[i];
        assert(again.contains(k));
        lemma_built_is_listed(keys, docs, k);
        lemma_has_document(keys, docs, k);
        assert(again.contains(json_key_spec(k)));
    }
    lemma_all_skipped(scan_start(again), later, nothing_yet(again));
    lemma_built_set(keys, 0);
    lemma_built_set(again, 0);
    assert forall|k: Seq<char>| #[trigger]
        built_set(keys, 0).contains(k) <==> built_set(again, 0).contains(k) by {
        if built_set(keys, 0).contains(k) {
            assert(keys.contains(k));
            assert(again.contains(k));
            let i = choose|i: int| 0 <= i < again.len() && again[i] == k;
            assert(0 <= i < again.len() && again[i] == k);
        }
        if built_set(again, 0).contains(k) {
            assert(again.contains(k));
            lemma_built_is_listed(keys, docs, k);
            let i = choose|i: int| 0 <= i < keys.len() && keys[i] == k;
            assert(0 <= i < keys.len() && keys[i] == k);
        }
    }
    assert(built_set(keys, 0) =~= built_set(again, 0));
}

/// A built tile's key among those listed after a scan was there before it.
proof fn lemma_built_is_listed(
    keys: Seq<Seq<char>>,
    docs: spec_fn(TileId) -> Option<Seq<u8>>,
    k: Seq<char>,
)
    requires
        keys.contains(k) || is_stored(whole_scan(keys, docs), k),
        glb_key_tile(k) is Some,
    ensures
        keys.contains(k),
{
    reveal_strlit(".glb");
    lemma_built_keys_end(k);
    assert(k.skip(k.len() - 4).last() == 'b');
    if !keys.contains(k) {
        let end = whole_scan(keys, docs);
        law_scan_is_thorough_and_careful(keys, docs);
        let i = choose|i: int| 0 <= i < end.stored.len() && (#[trigger] end.stored[i]).0 == k;
        lemma_documents_are_new(keys, docs, 0, i);
    }
}

/// After a scan without failures every built tile has its document.
proof fn lemma_has_document(
    keys: Seq<Seq<char>>,
    docs: spec_fn(TileId) -> Option<Seq<u8>>,
    k: Seq<char>,
)
    requires
        keys.contains(k),
        glb_key_tile(k) is Some,
        whole_scan(keys, docs).last.failed == 0,
    ensures
        keys.contains(json_key_spec(k)) || is_stored(whole_scan(keys, docs), json_key_spec(k)),
{
    let end = whole_scan(keys, docs);
    law_scan_is_thorough_and_careful(keys, docs);
    let at = choose|i: int| 0 <= i < keys.len() && keys[i] == k;
    lemma_is_reported(keys, docs, 0, at);
    let j = choose|j: int|
        0 <= j < end.reports.len() && #[trigger] end.reports[j] == (
            json_key_spec(k),
            glb_key_tile(k)->0,
            outcome_of(keys, docs, k),
        );
    lemma_none_counted(end.reports, Outcome::Failed, j);
}

/// Every built tile is reported, and every document so reported is stored.
proof fn lemma_is_reported(
    keys: Seq<Seq<char>>,
    docs: spec_fn(TileId) -> Option<Seq<u8>>,
    from: int,
    at: int,
)
    requires
        0 <= from <= at < keys.len(),
        glb_key_tile(keys[at]) is Some,
    ensures
        exists|j: int|
            0 <= j < reports_from(keys, docs, from).len() && #[trigger] reports_from(
                keys,
                docs,
                from,
            )[j] == (
                json_key_spec(keys[at]),
                glb_key_tile(keys[at])->0,
                outcome_of(keys, docs, keys[at]),
            ),
        outcome_of(keys, docs, keys[at]) is Written ==> exists|j: int|
            0 <= j < documents_from(keys, docs, from).len() && (#[trigger] documents_from(
                keys,
                docs,
                from,
            )[j]).0 == json_key_spec(keys[at]),
    decreases at - from,
{
    let reports = reports_from(keys, docs, from);
    let stored = documents_from(keys, docs, from);
    let entry = (
        json_key_spec(keys[at]),
        glb_key_tile(keys[at])->0,
        outcome_of(keys, docs, keys[at]),
    );
    if from == at {
        assert(reports[0] == entry);
        if entry.2 is Written {
            assert(stored[0].0 == entry.0);
        }
    } else {
        lemma_is_reported(keys, docs, from + 1, at);
        let rest = reports_from(keys, docs, from + 1);
        let j = choose|j: int| 0 <= j < rest.len() && #[trigger] rest[j] == entry;
        assert(reports[j + reports.len() - rest.len()] == entry);
        if entry.2 is Written {
            let more = documents_from(keys, docs, from + 1);
            let m = choose|m: int| 0 <= m < more.len() && (#[trigger] more[m]).0 == entry.0;
            assert(stored[m + stored.len() - more.len()].0 == entry.0);
        }
    }
}

proof fn lemma_none_counted(
    reports: Seq<(Seq<char>, TileId, Outcome)>,
    outcome: Outcome,
    j: int,
)
    requires
        count_of(reports, outcome) == 0,
        0 <= j < reports.len(),
    ensures
        reports[j].2 != outcome,
    decreases reports.len(),
{
    if j < reports.len() - 1 {
        lemma_none_counted(reports.drop_last(), outcome, j);
    }
}

/// A run over tiles that all have their document changes nothing.
proof fn lemma_all_skipped(v: ScanView, docs: spec_fn(TileId) -> Option<Seq<u8>>, end: ScanEnd)
    requires
        0 <= v.at <= v.keys.len(),
        !v.stopped,
        forall|i: int|
            0 <= i < v.keys.len() && glb_key_tile(#[trigger] v.keys[i]) is Some
                ==> v.keys.contains(json_key_spec(v.keys[i])),
    ensures
        ({
            let done = scan_run(v, docs, |n: int| true, end);
            &&& done.stored == end.stored
            &&& done.computed == end.computed
            &&& done.last.written == v.written
            &&& done.last.failed == v.failed
        }),
    decreases v.keys.len() - v.at,
{
    lemma_step_gets_on(v, docs);
    lemma_next_built(v.keys, v.at);
    let (action, next) = scan_step(v);
    if let ActionView::Report(json, tile, outcome) = action {
        lemma_all_skipped(
            next,
            docs,
            ScanEnd { reports: end.reports.push((json, tile, outcome)), ..end },
        );
    }
}

/// The built tiles' keys from `at` on.
spec fn built_set(keys: Seq<Seq<char>>, at: int) -> Set<Seq<char>> {
    Set::new(
        |k: Seq<char>|
            glb_key_tile(k) is Some && exists|i: int|
                at <= i < keys.len() && #[trigger] keys[i] == k,
    )
}

proof fn lemma_built_set(keys: Seq<Seq<char>>, at: int)
    requires
        keys.no_duplicates(),
        0 <= at <= keys.len(),
    ensures
        built_set(keys, at).finite(),
        built_set(keys, at).len() == built_from(keys, at),
    decreases keys.len() - at,
{
    if at == keys.len() {
        assert(built_set(keys, at) =~= Set::empty());
    } else {
        lemma_built_set(keys, at + 1);
        let rest = built_set(keys, at + 1);
        let key = keys[at];
        if glb_key_tile(key) is Some {
            assert(!rest.contains(key));
            assert(built_set(keys, at) =~= rest.insert(key)) by {
                assert forall|k: Seq<char>| #[trigger]
                    built_set(keys, at).contains(k) <==> rest.insert(key).contains(k) by {
                    if k == key {
                        assert(at <= at < keys.len() && keys[at] == k);
                    }
                }
            }
        } else {
            assert(built_set(keys, at) =~= rest);
        }
    }
}

/// What publishing one document leaves behind.
pub struct Published {
    /// The output cache afterwards.
    pub cache: Map<Seq<char>, Seq<u8>>,
    /// Whether a document was written.
    pub outcome: Result<bool, ErrorView>,
}

/// Publishing carried out from `stage` on, over a cache that does not fail
/// and a computation that comes to `doc`.
pub open spec fn carried_out(
    key: Seq<char>,
    stage: PublishView,
    cache: Map<Seq<char>, Seq<u8>>,
    doc: Result<Seq<u8>, ErrorView>,
) -> Published
    decreases publish_rank(stage),
{
    match stage {
        PublishView::Probe => carried_out(
            key,
            publish_after_probe(Ok(cache.dom().contains(key))),
            cache,
            doc,
        ),
        PublishView::Compute => carried_out(key, publish_after_compute(doc), cache, doc),
        PublishView::Store(bytes) => carried_out(
            key,
            publish_after_store(Ok(())),
            cache.insert(key, bytes),
            doc,
        ),
        PublishView::Done(outcome) => Published { cache, outcome },
    }
}

/// How many steps a stage is from the end.
pub open spec fn publish_rank(stage: PublishView) -> nat {
    match stage {
        PublishView::Probe => 3,
        PublishView::Compute => 2,
        PublishView::Store(_) => 1,
        PublishView::Done(_) => 0,
    }
}

/// Publishing from its start.
pub open spec fn publish_result(
    key: Seq<char>,
    cache: Map<Seq<char>, Seq<u8>>,
    doc: Result<Seq<u8>, ErrorView>,
) -> Published {
    carried_out(key, PublishView::Probe, cache, doc)
}

/// Everything publishing can come to: a document that is there is left alone;
/// else the computed one is stored, and a failure leaves the cache as it was.
pub proof fn law_publish_outcome(
    key: Seq<char>,
    cache: Map<Seq<char>, Seq<u8>>,
    doc: Result<Seq<u8>, ErrorView>,
)
    ensures
        ({
            let r = publish_result(key, cache, doc);
            if cache.dom().contains(key) {
                r.outcome == Ok::<bool, ErrorView>(false) && r.cache == cache
            } else {
                match doc {
                    Ok(bytes) => r.outcome == Ok::<bool, ErrorView>(true) && r.cache
                        == cache.insert(key, bytes),
                    Err(e) => r.outcome == Err::<bool, ErrorView>(e) && r.cache == cache,
                }
            }
        }),
{
    reveal_with_fuel(carried_out, 5);
}

/// A document's key is its tile's with another ending.
pub proof fn law_documents_lie_next_to_their_tiles(stem: Seq<char>)
    ensures
        json_key_spec(stem + ".glb"@) == stem + ".json"@,
{
    reveal_strlit(".glb");
    let key = stem + ".glb"@;
    assert(key.take(key.len() - 4) =~= stem);
}

/// Only `glb/…/{z}/{x}/{y}.glb` with a valid address names a built tile, and
/// it names the tile of that address.
pub proof fn law_only_tile_keys_name_tiles(key: Seq<char>)
    requires
        glb_key_tile(key) is Some,
    ensures
        ({
            let t = glb_key_tile(key)->0;
            let p = text::pieces(key, '/');
            &&& t.valid()
            &&& p.len() == 5
            &&& p[0] == "glb"@
            &&& text::unsigned_value(p[2], 255) == Some(t.zoom as nat)
            &&& text::unsigned_value(p[3], 0xffff_ffff) == Some(t.x as nat)
            &&& exists|stem: Seq<char>|
                p[4] == #[trigger] (stem + ".glb"@) && text::unsigned_value(stem, 0xffff_ffff)
                    == Some(t.y as nat)
        }),
{
    reveal_strlit(".glb");
    let p = text::pieces(key, '/');
    let stem = p[4].take(p[4].len() - 4);
    assert(p[4] =~= stem + p[4].skip(p[4].len() - 4));
    assert(p[4] == stem + ".glb"@);
}

/// Publishing a document fails as the step of it that failed did, and only a
/// document that was found missing is computed.
pub proof fn law_publishing_fails_as_its_step_did(e: ErrorView, bytes: Seq<u8>)
    ensures
        publish_after_probe(Ok(true)) == PublishView::Done(Ok(false)),
        publish_after_probe(Ok(false)) is Compute,
        publish_after_probe(Err(e)) == PublishView::Done(Err(e)),
        publish_after_compute(Ok(bytes)) == PublishView::Store(bytes),
        publish_after_compute(Err(e)) == PublishView::Done(Err(e)),
        publish_after_store(Ok(())) == PublishView::Done(Ok(true)),
        publish_after_store(Err(e)) == PublishView::Done(Err(e)),
{
}

} // verus!
