//! From fetched inputs (each from the closest provided zoom) to the finished
//! GLB: decode → padded field → grid → container.
//!
//! A tile is built in steps, so that whoever fetches and renders can sit
//! between them: [`check_table`] before anything is fetched;
//! [`imagery_from`], [`normals_input`] and [`resolve`] once the sources are
//! there; [`ring_slot`] for each neighbour of the height source and
//! [`ring_from`] for all of them; [`load_inputs`]; [`build_mesh`]; and [`build_tile`] once the vertices are
//! rendered. [`TileStage`] puts them in that order.

use crate::error::{Error, ErrorView};
use crate::fetch::{Closest, Origin};
use crate::fetch;
use crate::glb;
use crate::glb::{MetaView, NormalsOrigin, TileMeta, VertexBuffers};
use crate::imagery;
use crate::mesh;
use crate::mesh::{Grid, ZOOM_LEVELS};
use crate::normals;
use crate::normals::NormalMap;
use crate::provider::{Kind, Provider};
use crate::store::{LocalStore, Location};
use crate::terrain;
use crate::terrain::{Coord, HeightField, Window};
use crate::text;
use crate::tile::TileId;
use vstd::arithmetic::power2::pow2;
use vstd::prelude::*;

verus! {

/// A span of time: whole seconds and what is over, in nanoseconds.
#[derive(Clone, Copy, Debug, PartialEq, Eq, Structural)]
pub struct Timeout {
    /// Whole seconds.
    pub secs: u64,
    /// The rest, below one second.
    pub nanos: u32,
}

impl Timeout {
    /// A span of whole seconds.
    pub open spec fn of_secs(secs: u64) -> Timeout {
        Timeout { secs, nanos: 0 }
    }

    /// A span of whole seconds.
    pub fn from_secs(secs: u64) -> (t: Timeout)
        ensures
            t == Timeout::of_secs(secs),
    {
        Timeout { secs, nanos: 0 }
    }
}

/// Builder configuration. Every field defaulted.
#[derive(Clone, Debug)]
pub struct Config {
    /// The cache: inputs under `{texture,heightmap,normals}/z/x/y.png`, and —
    /// when serving — built tiles under `glb/{fingerprint}/z/x/y.glb`. A
    /// local directory by default; see [`store::open`](crate::store::open)
    /// for S3.
    pub cache: Location,
    /// Where inputs come from.
    pub provider: Provider,
    /// Vertices per edge of the output grid per zoom, indexed
    /// `zoom - MIN_ZOOM`; each entry in `2..=257`. See
    /// [`DEFAULT_RESOLUTIONS`](crate::mesh::DEFAULT_RESOLUTIONS). The value
    /// actually used is further capped by the useful ceiling when the
    /// heightmap came from a lower zoom.
    pub resolution: [u32; 22],
    /// HTTP connect timeout.
    pub connect_timeout: Timeout,
    /// HTTP read timeout.
    pub read_timeout: Timeout,
    /// JPEG quality used when imagery has to be encoded (PNG input, or
    /// derived from an ancestor).
    pub jpeg_quality: u8,
    /// Give the mesh normals.
    pub include_normals: bool,
}

impl Config {
    /// The defaults, but for the cache.
    pub open spec fn is_default_elsewhere(self) -> bool {
        &&& self.provider.is_default()
        &&& self.resolution@ == mesh::DEFAULT_RESOLUTIONS@
        &&& self.connect_timeout == Timeout::of_secs(5)
        &&& self.read_timeout == Timeout::of_secs(10)
        &&& self.jpeg_quality == 90
        &&& self.include_normals
    }

    /// All but the resolutions as in `other`.
    pub open spec fn same_but_resolution(self, other: Config) -> bool {
        &&& self.cache == other.cache
        &&& self.provider == other.provider
        &&& self.connect_timeout == other.connect_timeout
        &&& self.read_timeout == other.read_timeout
        &&& self.jpeg_quality == other.jpeg_quality
        &&& self.include_normals == other.include_normals
    }

    /// Defaults with the cache in a local directory.
    pub fn with_cache_dir(dir: &str) -> (c: Config)
        ensures
            c.is_default_elsewhere(),
            c.cache is Local,
            c.cache->Local_0.root_spec() == dir@,
    {
        Config {
            cache: Location::Local(LocalStore::new(dir)),
            provider: Provider::default(),
            resolution: mesh::DEFAULT_RESOLUTIONS,
            connect_timeout: Timeout::from_secs(5),
            read_timeout: Timeout::from_secs(10),
            jpeg_quality: 90,
            include_normals: true,
        }
    }

    /// A tile takes an asset of this kind: normal maps only where the mesh
    /// has normals.
    pub open spec fn wants_spec(self, kind: Kind) -> bool {
        kind is Normals ==> self.include_normals
    }

    /// Whether an asset of this kind is asked for at all.
    pub fn wants(&self, kind: Kind) -> (r: bool)
        ensures
            r == self.wants_spec(kind),
    {
        match kind {
            Kind::Normals => self.include_normals,
            _ => true,
        }
    }

    /// The configured resolution for `zoom`.
    pub fn resolution_for(&self, zoom: u8) -> (r: u32)
        ensures
            r == self.resolution@[mesh::table_slot(zoom)],
    {
        self.resolution[mesh::slot(zoom)]
    }

    /// Override the resolution for one zoom.
    pub fn set_resolution(&mut self, zoom: u8, vertices_per_edge: u32)
        ensures
            final(self).same_but_resolution(*old(self)),
            final(self).resolution@ == old(self).resolution@.update(
                mesh::table_slot(zoom),
                vertices_per_edge,
            ),
    {
        let i: usize = mesh::slot(zoom);
        self.resolution[i] = vertices_per_edge;
    }

    /// Same table as the defaults but with every entry replaced — handy for
    /// "everything at N".
    pub fn with_uniform_resolution(self, vertices_per_edge: u32) -> (c: Config)
        ensures
            c.same_but_resolution(self),
            forall|i: int| 0 <= i < 22 ==> #[trigger] c.resolution@[i] == vertices_per_edge,
    {
        let r: u32 = vertices_per_edge;
        Config {
            cache: self.cache,
            provider: self.provider,
            resolution: [
                r, r, r, r, r, r, r, r, r, r, r, r, r, r, r, r, r, r, r, r, r, r,
            ],
            connect_timeout: self.connect_timeout,
            read_timeout: self.read_timeout,
            jpeg_quality: self.jpeg_quality,
            include_normals: self.include_normals,
        }
    }
}

impl Default for Config {
    fn default() -> (c: Config)
        ensures
            c.is_default_elsewhere(),
            c.cache is Local,
            c.cache->Local_0.root_spec() == ".cache"@,
    {
        Config::with_cache_dir(".cache")
    }
}

// -- before fetching ---------------------------------------------------------------

/// Entry `i` is the first of the table that no grid can have.
pub open spec fn first_bad(table: Seq<u32>, i: int) -> bool {
    &&& 0 <= i < table.len()
    &&& !mesh::resolution_ok(table[i])
    &&& forall|j: int| 0 <= j < i ==> mesh::resolution_ok(#[trigger] table[j])
}

/// Every entry of the table is a resolution that a grid can have.
pub open spec fn table_ok(table: Seq<u32>) -> bool {
    forall|i: int| 0 <= i < table.len() ==> mesh::resolution_ok(#[trigger] table[i])
}

/// Reject a configuration with an impossible resolution, by its first.
pub fn check_table(cfg: &Config) -> (r: Result<(), Error>)
    ensures
        r is Ok <==> table_ok(cfg.resolution@),
        r is Err ==> exists|i: int|
            #[trigger] first_bad(cfg.resolution@, i) && r->Err_0@ == ErrorView::InvalidResolution(
                cfg.resolution@[i],
            ),
{
    let mut k: usize = 0;
    while k < ZOOM_LEVELS
        invariant
            k <= ZOOM_LEVELS,
            forall|j: int| 0 <= j < k ==> mesh::resolution_ok(#[trigger] cfg.resolution@[j]),
        decreases ZOOM_LEVELS - k,
    {
        match mesh::check_resolution(cfg.resolution[k]) {
            Ok(()) => {},
            Err(e) => {
                assert(first_bad(cfg.resolution@, k as int));
                return Err(e);
            },
        }
        k = k + 1;
    }
    Ok(())
}

// -- the sources -------------------------------------------------------------------

/// `source` is `tile` or an ancestor of it.
pub open spec fn is_source_of(source: TileId, tile: TileId) -> bool {
    &&& tile.valid()
    &&& source.valid()
    &&& source.zoom <= tile.zoom
    &&& source == tile.ancestor_spec(source.zoom)
}

/// The window of `tile` in its ancestor at `zoom`.
pub open spec fn window_of(tile: TileId, zoom: u8) -> Window {
    Window {
        dz: (tile.zoom - zoom) as u8,
        qx: tile.window_x(zoom) as u32,
        qy: tile.window_y(zoom) as u32,
    }
}

/// The imagery of `tile` from the bytes of its ancestor at `zoom`.
pub open spec fn imagery_spec(tile: TileId, zoom: u8, bytes: Seq<u8>, quality: u8) -> Result<
    Seq<u8>,
    ErrorView,
> {
    let w = window_of(tile, zoom);
    imagery::derive_spec(bytes, w.dz, w.qx, w.qy, quality, "imagery "@ + tile.text())
}

/// Imagery bytes as JPEG for `tile`, from the closest provided zoom.
pub fn imagery_from(tile: TileId, found: &Closest, quality: u8) -> (r: Result<Vec<u8>, Error>)
    requires
        is_source_of(found.source, tile),
    ensures
        crate::error::bytes_view(r) == imagery_spec(
            tile,
            found.source.zoom,
            found.bytes@,
            quality,
        ),
        r is Ok ==> crate::codec::is_jpeg_stream(r->Ok_0@),
{
    let (_, qx, qy): (TileId, u32, u32) = tile.ancestor(found.source.zoom);
    let name: String = tile.to_string();
    let what: String = text::join2("imagery ", name.as_str());
    imagery::derive_from_ancestor(
        found.bytes.as_slice(),
        tile.zoom - found.source.zoom,
        qx,
        qy,
        quality,
        what.as_str(),
    )
}

/// Where the normals of a mesh come from.
pub enum NormalsInput {
    /// The mesh has none.
    Omitted,
    /// The height field.
    Heights,
    /// The provider's normal map at a zoom, windowed onto the tile.
    Provided(NormalMap, u8),
}

impl NormalsInput {
    /// What the `extras` record.
    pub open spec fn origin_spec(self) -> NormalsOrigin {
        match self {
            NormalsInput::Omitted => NormalsOrigin::Omitted,
            NormalsInput::Heights => NormalsOrigin::Heights,
            NormalsInput::Provided(_, zoom) => NormalsOrigin::Provider(zoom),
        }
    }

    /// What the `extras` record.
    pub fn origin(&self) -> (o: NormalsOrigin)
        ensures
            o == self.origin_spec(),
    {
        match self {
            NormalsInput::Omitted => NormalsOrigin::Omitted,
            NormalsInput::Heights => NormalsOrigin::Heights,
            NormalsInput::Provided(_, zoom) => NormalsOrigin::Provider(*zoom),
        }
    }
}

/// The result `r` is what the walk for a normal map of `tile` leads to: a
/// map seen through the tile's window; the heights where no zoom has one;
/// any other failure as it is.
pub open spec fn normals_follow(
    tile: TileId,
    found: Result<(Seq<u8>, TileId, Origin), ErrorView>,
    r: Result<NormalsInput, Error>,
) -> bool {
    match found {
        Err(e) => if e is NotFound {
            r is Ok && r->Ok_0 is Heights
        } else {
            r is Err && r->Err_0@ == e
        },
        Ok((bytes, source, _)) => match normals::map_spec(bytes, "normals "@ + source.text()) {
            Ok((size, vecs)) => {
                &&& r is Ok
                &&& r->Ok_0 is Provided
                &&& r->Ok_0->Provided_0.wf()
                &&& r->Ok_0->Provided_0.size == size
                &&& r->Ok_0->Provided_0.vecs@ == vecs
                &&& r->Ok_0->Provided_0.window == window_of(tile, source.zoom)
                &&& r->Ok_0->Provided_1 == source.zoom
            },
            Err(e) => r is Err && r->Err_0@ == e,
        },
    }
}

/// The normals of `tile` from what the walk for its normal map came to: when
/// *no* zoom has one, they are taken from the heights instead of failing the
/// tile.
pub fn normals_from(tile: TileId, found: Result<Closest, Error>) -> (r: Result<
    NormalsInput,
    Error,
>)
    requires
        tile.valid(),
        found is Ok ==> is_source_of(found->Ok_0.source, tile),
    ensures
        normals_follow(tile, fetch::closest_view(found), r),
{
    match found {
        Err(Error::NotFound { url }) => Ok(NormalsInput::Heights),
        Err(e) => Err(e),
        Ok(c) => {
            let name: String = c.source.to_string();
            let what: String = text::join2("normals ", name.as_str());
            match NormalMap::decode(c.bytes.as_slice(), what.as_str()) {
                Err(e) => Err(e),
                Ok(map) => {
                    let (_, qx, qy): (TileId, u32, u32) = tile.ancestor(c.source.zoom);
                    proof {
                        lemma_full_then(tile, c.source.zoom);
                    }
                    let seen: NormalMap = map.windowed(tile.zoom - c.source.zoom, qx, qy);
                    Ok(NormalsInput::Provided(seen, c.source.zoom))
                },
            }
        },
    }
}

/// The normals of `tile`: none where the mesh is to have none, whatever was
/// found; else from what the walk for its normal map came to.
pub fn normals_input(wanted: bool, tile: TileId, found: Option<Result<Closest, Error>>) -> (r:
    Result<NormalsInput, Error>)
    requires
        tile.valid(),
        wanted ==> found is Some,
        found is Some && found->0 is Ok ==> is_source_of(found->0->Ok_0.source, tile),
    ensures
        !wanted ==> r is Ok,
        wanted ==> normals_follow(tile, fetch::closest_view(found->0), r),
        r is Ok ==> (r->Ok_0 is Omitted <==> !wanted),
{
    match (wanted, found) {
        (true, Some(found)) => normals_from(tile, found),
        _ => Ok(NormalsInput::Omitted),
    }
}

pub proof fn lemma_full_then(tile: TileId, zoom: u8)
    requires
        tile.valid(),
        zoom <= tile.zoom,
    ensures
        ({
            let w = window_of(tile, zoom);
            &&& w.wf()
            &&& w.qx == tile.window_x(zoom)
            &&& w.qy == tile.window_y(zoom)
            &&& (Window { dz: 0, qx: 0, qy: 0 }).then_spec(w.dz, w.qx, w.qy) == w
        }),
{
    let n = pow2((tile.zoom - zoom) as nat) as int;
    crate::tile::lemma_axis_bound((tile.zoom - zoom) as nat);
    assert(0 * n == 0) by (nonlinear_arith);
    vstd::arithmetic::div_mod::lemma_mod_bound(tile.x as int, n);
    vstd::arithmetic::div_mod::lemma_mod_bound(tile.y as int, n);
}

/// Everything a tile is made of but the ring around its height source.
pub struct Sources {
    /// The tile.
    pub tile: TileId,
    /// The tile the heightmap came from (`== tile` or an ancestor).
    pub terrain_source: TileId,
    /// The heightmap.
    pub centre: Vec<i32>,
    /// Imagery as a JPEG stream for `tile`.
    pub jpeg: Vec<u8>,
    /// The tile the imagery came from (`== tile` or an ancestor).
    pub imagery_source: TileId,
    /// Where the normals come from.
    pub normals: NormalsInput,
}

impl Sources {
    /// The sources are the tile's, and the heightmap is whole.
    pub open spec fn wf(self) -> bool {
        &&& is_source_of(self.terrain_source, self.tile)
        &&& is_source_of(self.imagery_source, self.tile)
        &&& self.centre@.len() == terrain::TILE_AREA
    }
}

/// What the decoding of a height source comes to.
pub open spec fn centre_spec(source: TileId, bytes: Seq<u8>) -> Result<Seq<i32>, ErrorView> {
    terrain::heightmap_spec(bytes, "heightmap "@ + source.text())
}

/// The error that resolving the sources ends in, if any: the heights' own,
/// else the imagery's, else the normals', else that of decoding the heights.
pub open spec fn resolve_error(
    heights: Result<(Seq<u8>, TileId, Origin), ErrorView>,
    imagery: Option<ErrorView>,
    normals: Option<ErrorView>,
) -> Option<ErrorView> {
    match heights {
        Err(e) => Some(e),
        Ok((bytes, source, _)) => if imagery is Some {
            imagery
        } else if normals is Some {
            normals
        } else {
            match centre_spec(source, bytes) {
                Err(e) => Some(e),
                Ok(_) => None,
            }
        },
    }
}

/// The error of a result, if any.
pub open spec fn error_of<T>(r: Result<T, Error>) -> Option<ErrorView> {
    match r {
        Ok(_) => None,
        Err(e) => Some(e@),
    }
}

/// Put the sources of a tile together, the heights being decoded.
pub fn resolve(
    tile: TileId,
    heights: Result<Closest, Error>,
    imagery: Result<(Vec<u8>, TileId), Error>,
    normals: Result<NormalsInput, Error>,
) -> (r: Result<Sources, Error>)
    requires
        tile.valid(),
        heights is Ok ==> is_source_of(heights->Ok_0.source, tile),
        imagery is Ok ==> is_source_of(imagery->Ok_0.1, tile),
    ensures
        error_of(r) == resolve_error(
            fetch::closest_view(heights),
            error_of(imagery),
            error_of(normals),
        ),
        r is Ok ==> {
            let s = r->Ok_0;
            &&& s.wf()
            &&& s.tile == tile
            &&& s.terrain_source == heights->Ok_0.source
            &&& centre_spec(s.terrain_source, heights->Ok_0.bytes@) == Ok::<
                Seq<i32>,
                ErrorView,
            >(s.centre@)
            &&& s.jpeg == imagery->Ok_0.0
            &&& s.imagery_source == imagery->Ok_0.1
            &&& s.normals == normals->Ok_0
        },
{
    let found: Closest = match heights {
        Ok(c) => c,
        Err(e) => return Err(e),
    };
    let (jpeg, imagery_source): (Vec<u8>, TileId) = match imagery {
        Ok(i) => i,
        Err(e) => return Err(e),
    };
    let normals: NormalsInput = match normals {
        Ok(n) => n,
        Err(e) => return Err(e),
    };
    let name: String = found.source.to_string();
    let what: String = text::join2("heightmap ", name.as_str());
    match terrain::decode_heightmap_png(found.bytes.as_slice(), what.as_str()) {
        Err(e) => Err(e),
        Ok(centre) => Ok(
            Sources {
                tile,
                terrain_source: found.source,
                centre,
                jpeg,
                imagery_source,
                normals,
            },
        ),
    }
}

// -- the ring ----------------------------------------------------------------------

/// What fetching the neighbour `t` of a height source comes to: its heights;
/// nothing where the provider has none; any other failure as it is.
pub open spec fn side_spec(t: TileId, reply: Result<(Seq<u8>, Origin), ErrorView>) -> Result<
    Option<Seq<i32>>,
    ErrorView,
> {
    match reply {
        Ok((bytes, _)) => match terrain::heightmap_spec(
            bytes,
            "neighbour heightmap "@ + t.text(),
        ) {
            Ok(heights) => Ok(Some(heights)),
            Err(e) => Err(e),
        },
        Err(e) => if e is NotFound {
            Ok(None)
        } else {
            Err(e)
        },
    }
}

/// A ring side with its heights and its error as models.
pub open spec fn side_view(r: Result<Option<Vec<i32>>, Error>) -> Result<
    Option<Seq<i32>>,
    ErrorView,
> {
    match r {
        Ok(Some(v)) => Ok(Some(v@)),
        Ok(None) => Ok(None),
        Err(e) => Err(e@),
    }
}

/// A side of the ring is a whole heightmap or nothing, or it failed.
pub open spec fn side_ok(r: Result<Option<Vec<i32>>, Error>) -> bool {
    r is Ok && r->Ok_0 is Some ==> r->Ok_0->0@.len() == terrain::TILE_AREA
}

/// What fetching the neighbour `t` of a height source comes to. A neighbour
/// that 404s is the dataset edge (its side clamps); any other failure fails
/// the build — a transient error must not silently produce a different mesh
/// that then gets cached as the tile.
pub fn ring_side(t: TileId, reply: Result<(Vec<u8>, Origin), Error>) -> (r: Result<
    Option<Vec<i32>>,
    Error,
>)
    ensures
        side_view(r) == side_spec(t, fetch::fetched_view(reply)),
        side_ok(r),
{
    match reply {
        Ok((bytes, _)) => {
            let name: String = t.to_string();
            let what: String = text::join2("neighbour heightmap ", name.as_str());
            match terrain::decode_heightmap_png(bytes.as_slice(), what.as_str()) {
                Ok(heights) => Ok(Some(heights)),
                Err(e) => Err(e),
            }
        },
        Err(Error::NotFound { url }) => Ok(None),
        Err(e) => Err(e),
    }
}

/// What comes of one place of the ring: nothing where the grid ends, else
/// what fetching the neighbour there comes to.
pub open spec fn slot_spec(
    neighbour: Option<TileId>,
    reply: Option<Result<(Seq<u8>, Origin), ErrorView>>,
) -> Result<Option<Seq<i32>>, ErrorView> {
    match neighbour {
        Some(t) => side_spec(t, reply->0),
        None => Ok(None),
    }
}

/// A reply, or none, with its bytes and its error as models.
pub open spec fn reply_view(reply: Option<Result<(Vec<u8>, Origin), Error>>) -> Option<
    Result<(Seq<u8>, Origin), ErrorView>,
> {
    match reply {
        Some(r) => Some(fetch::fetched_view(r)),
        None => None,
    }
}

/// One place of the ring around a height source. Where the grid ends there
/// is no neighbour to ask for, and its side clamps.
pub fn ring_slot(
    neighbour: Option<TileId>,
    reply: Option<Result<(Vec<u8>, Origin), Error>>,
) -> (r: Result<Option<Vec<i32>>, Error>)
    requires
        neighbour is Some ==> reply is Some,
    ensures
        side_view(r) == slot_spec(neighbour, reply_view(reply)),
        side_ok(r),
{
    match (neighbour, reply) {
        (Some(t), Some(reply)) => ring_side(t, reply),
        _ => Ok(None),
    }
}

/// What came of the 8 neighbours of a height source.
pub struct Ring {
    /// North-west.
    pub nw: Result<Option<Vec<i32>>, Error>,
    /// North.
    pub n: Result<Option<Vec<i32>>, Error>,
    /// North-east.
    pub ne: Result<Option<Vec<i32>>, Error>,
    /// West.
    pub w: Result<Option<Vec<i32>>, Error>,
    /// East.
    pub e: Result<Option<Vec<i32>>, Error>,
    /// South-west.
    pub sw: Result<Option<Vec<i32>>, Error>,
    /// South.
    pub s: Result<Option<Vec<i32>>, Error>,
    /// South-east.
    pub se: Result<Option<Vec<i32>>, Error>,
}

impl Ring {
    /// The sides in order.
    pub open spec fn sides(self) -> Seq<Result<Option<Seq<i32>>, ErrorView>> {
        seq![
            side_view(self.nw),
            side_view(self.n),
            side_view(self.ne),
            side_view(self.w),
            side_view(self.e),
            side_view(self.sw),
            side_view(self.s),
            side_view(self.se),
        ]
    }

    /// Every side that came is whole.
    pub open spec fn wf(self) -> bool {
        &&& side_ok(self.nw) && side_ok(self.n) && side_ok(self.ne) && side_ok(self.w)
        &&& side_ok(self.e) && side_ok(self.sw) && side_ok(self.s) && side_ok(self.se)
    }
}

fn last_side(sides: &mut Vec<Result<Option<Vec<i32>>, Error>>) -> (r: Result<
    Option<Vec<i32>>,
    Error,
>)
    requires
        old(sides)@.len() > 0,
    ensures
        r == old(sides)@.last(),
        final(sides)@ == old(sides)@.drop_last(),
{
    match sides.pop() {
        Some(side) => side,
        None => Ok(None),
    }
}

/// The ring from what came of the neighbours, in the order of
/// [`TileId::neighbours`].
pub fn ring_from(sides: Vec<Result<Option<Vec<i32>>, Error>>) -> (ring: Ring)
    requires
        sides@.len() == 8,
        forall|i: int| 0 <= i < 8 ==> side_ok(#[trigger] sides@[i]),
    ensures
        ring.wf(),
        forall|i: int| 0 <= i < 8 ==> #[trigger] ring.sides()[i] == side_view(sides@[i]),
{
    let mut rest: Vec<Result<Option<Vec<i32>>, Error>> = sides;
    let se: Result<Option<Vec<i32>>, Error> = last_side(&mut rest);
    let s: Result<Option<Vec<i32>>, Error> = last_side(&mut rest);
    let sw: Result<Option<Vec<i32>>, Error> = last_side(&mut rest);
    let e: Result<Option<Vec<i32>>, Error> = last_side(&mut rest);
    let w: Result<Option<Vec<i32>>, Error> = last_side(&mut rest);
    let ne: Result<Option<Vec<i32>>, Error> = last_side(&mut rest);
    let n: Result<Option<Vec<i32>>, Error> = last_side(&mut rest);
    let nw: Result<Option<Vec<i32>>, Error> = last_side(&mut rest);
    Ring { nw, n, ne, w, e, sw, s, se }
}

/// The first failure among the sides, if any.
pub open spec fn first_error(sides: Seq<Result<Option<Seq<i32>>, ErrorView>>) -> Option<ErrorView>
    decreases sides.len(),
{
    if sides.len() == 0 {
        None
    } else if sides[0] is Err {
        Some(sides[0]->Err_0)
    } else {
        first_error(sides.skip(1))
    }
}

/// The heightmaps of sides that did not fail.
pub open spec fn maps_of(sides: Seq<Result<Option<Seq<i32>>, ErrorView>>) -> Seq<
    Option<Seq<i32>>,
> {
    sides.map_values(|s: Result<Option<Seq<i32>>, ErrorView>| s->Ok_0)
}

/// How many sides have a heightmap.
pub open spec fn present(maps: Seq<Option<Seq<i32>>>) -> nat
    decreases maps.len(),
{
    if maps.len() == 0 {
        0
    } else {
        present(maps.drop_last()) + if maps.last() is Some {
            1nat
        } else {
            0nat
        }
    }
}

// -- the inputs --------------------------------------------------------------------

/// Decoded inputs for one tile.
pub struct TileInputs {
    /// The tile.
    pub tile: TileId,
    /// Height field (source tile + neighbour ring) windowed onto `tile`.
    pub height: HeightField,
    /// The tile the heightmap actually came from (`== tile` or an ancestor).
    pub terrain_source: TileId,
    /// Imagery as a JPEG stream for `tile` (pass-through, re-encoded, or
    /// derived from `imagery_source`).
    pub jpeg: Vec<u8>,
    /// The tile the imagery came from (`== tile` or an ancestor).
    pub imagery_source: TileId,
    /// How many of the source tile's 8 neighbours contributed a pad ring.
    pub neighbours_present: usize,
    /// Where the normals come from.
    pub normals: NormalsInput,
}

impl TileInputs {
    /// The sources are the tile's, and the field is seen through its window.
    pub open spec fn wf(self) -> bool {
        &&& is_source_of(self.terrain_source, self.tile)
        &&& is_source_of(self.imagery_source, self.tile)
        &&& self.height.wf()
        &&& self.height.window == window_of(self.tile, self.terrain_source.zoom)
    }
}

proof fn lemma_no_error(s: Seq<Result<Option<Seq<i32>>, ErrorView>>)
    requires
        s.len() == 8,
    ensures
        s[0] is Err ==> first_error(s) == Some(s[0]->Err_0),
        s[0] is Ok && s[1] is Err ==> first_error(s) == Some(s[1]->Err_0),
        s[0] is Ok && s[1] is Ok && s[2] is Err ==> first_error(s) == Some(s[2]->Err_0),
        s[0] is Ok && s[1] is Ok && s[2] is Ok && s[3] is Err ==> first_error(s) == Some(
            s[3]->Err_0,
        ),
        s[0] is Ok && s[1] is Ok && s[2] is Ok && s[3] is Ok && s[4] is Err ==> first_error(s)
            == Some(s[4]->Err_0),
        s[0] is Ok && s[1] is Ok && s[2] is Ok && s[3] is Ok && s[4] is Ok && s[5] is Err
            ==> first_error(s) == Some(s[5]->Err_0),
        s[0] is Ok && s[1] is Ok && s[2] is Ok && s[3] is Ok && s[4] is Ok && s[5] is Ok && s[6]
            is Err ==> first_error(s) == Some(s[6]->Err_0),
        s[0] is Ok && s[1] is Ok && s[2] is Ok && s[3] is Ok && s[4] is Ok && s[5] is Ok && s[6]
            is Ok && s[7] is Err ==> first_error(s) == Some(s[7]->Err_0),
        s[0] is Ok && s[1] is Ok && s[2] is Ok && s[3] is Ok && s[4] is Ok && s[5] is Ok && s[6]
            is Ok && s[7] is Ok ==> first_error(s) is None,
{
    reveal_with_fuel(first_error, 9);
    assert(s.skip(1)[0] == s[1]);
    assert(s.skip(1).skip(1)[0] == s[2]);
    assert(s.skip(1).skip(1).skip(1)[0] == s[3]);
    assert(s.skip(1).skip(1).skip(1).skip(1)[0] == s[4]);
    assert(s.skip(1).skip(1).skip(1).skip(1).skip(1)[0] == s[5]);
    assert(s.skip(1).skip(1).skip(1).skip(1).skip(1).skip(1)[0] == s[6]);
    assert(s.skip(1).skip(1).skip(1).skip(1).skip(1).skip(1).skip(1)[0] == s[7]);
}

/// How many sides have a heightmap.
fn count_present(sides: &[Option<Vec<i32>>; 8]) -> (n: usize)
    ensures
        n == present(terrain::ring_view(sides@)),
{
    let ghost all = terrain::ring_view(sides@);
    let mut n: usize = 0;
    let mut k: usize = 0;
    assert(all.take(0) =~= Seq::empty());
    while k < 8
        invariant
            k <= 8,
            n <= k,
            all == terrain::ring_view(sides@),
            all.len() == 8,
            n == present(all.take(k as int)),
        decreases 8 - k,
    {
        assert(all.take(k + 1).drop_last() =~= all.take(k as int));
        assert(all.take(k + 1).last() == all[k as int]);
        if sides[k].is_some() {
            n = n + 1;
        }
        k = k + 1;
    }
    assert(all.take(8) =~= all);
    n
}

/// Everything the mesh needs: the height source padded with its ring and
/// windowed onto the tile. Fails as the first side that failed did.
pub fn load_inputs(sources: Sources, ring: Ring) -> (r: Result<TileInputs, Error>)
    requires
        sources.wf(),
        ring.wf(),
    ensures
        error_of(r) == first_error(ring.sides()),
        r is Ok ==> {
            let i = r->Ok_0;
            let maps = maps_of(ring.sides());
            &&& i.wf()
            &&& i.tile == sources.tile
            &&& i.terrain_source == sources.terrain_source
            &&& i.jpeg == sources.jpeg
            &&& i.imagery_source == sources.imagery_source
            &&& i.normals == sources.normals
            &&& i.neighbours_present == present(maps)
            &&& terrain::is_padded(i.height, sources.centre@, maps)
        },
{
    let ghost views = ring.sides();
    proof {
        lemma_no_error(views);
    }
    let nw: Option<Vec<i32>> = match ring.nw {
        Ok(s) => s,
        Err(e) => return Err(e),
    };
    let n: Option<Vec<i32>> = match ring.n {
        Ok(s) => s,
        Err(e) => return Err(e),
    };
    let ne: Option<Vec<i32>> = match ring.ne {
        Ok(s) => s,
        Err(e) => return Err(e),
    };
    let w: Option<Vec<i32>> = match ring.w {
        Ok(s) => s,
        Err(e) => return Err(e),
    };
    let e: Option<Vec<i32>> = match ring.e {
        Ok(s) => s,
        Err(e) => return Err(e),
    };
    let sw: Option<Vec<i32>> = match ring.sw {
        Ok(s) => s,
        Err(e) => return Err(e),
    };
    let s: Option<Vec<i32>> = match ring.s {
        Ok(s) => s,
        Err(e) => return Err(e),
    };
    let se: Option<Vec<i32>> = match ring.se {
        Ok(s) => s,
        Err(e) => return Err(e),
    };
    let sides: [Option<Vec<i32>>; 8] = [nw, n, ne, w, e, sw, s, se];
    assert(terrain::ring_view(sides@) =~= maps_of(views));
    let neighbours_present: usize = count_present(&sides);
    let field: HeightField = HeightField::padded(&sources.centre, &sides);
    let zoom: u8 = sources.terrain_source.zoom;
    let (_, qx, qy): (TileId, u32, u32) = sources.tile.ancestor(zoom);
    proof {
        lemma_full_then(sources.tile, zoom);
    }
    let height: HeightField = field.windowed(sources.tile.zoom - zoom, qx, qy);
    assert(terrain::is_padded(height, sources.centre@, maps_of(views))) by {
        assert forall|x: int, y: int| 0 <= x < 258 && 0 <= y < 258 implies #[trigger] height.texel(
            x,
            y,
        ) == terrain::padded_texel(sources.centre@, maps_of(views), x, y) by {
            assert(field.texel(x, y) == height.texel(x, y));
        }
    }
    Ok(
        TileInputs {
            tile: sources.tile,
            height,
            terrain_source: sources.terrain_source,
            jpeg: sources.jpeg,
            imagery_source: sources.imagery_source,
            neighbours_present,
            normals: sources.normals,
        },
    )
}

// -- the mesh ----------------------------------------------------------------------

/// The resolution used, and the configured one where that was capped.
pub open spec fn capped(requested: u32, ceiling: int) -> (u32, Option<u32>) {
    if requested <= ceiling {
        (requested, None)
    } else {
        (ceiling as u32, Some(requested))
    }
}

/// The resolution a tile is built with, and the configured one where that
/// was capped.
pub open spec fn resolution_spec(cfg: Config, tile: TileId, source_zoom: u8) -> (u32, Option<u32>) {
    capped(
        cfg.resolution@[mesh::table_slot(tile.zoom)],
        mesh::ceiling_spec((tile.zoom - source_zoom) as u8),
    )
}

/// The resolution a tile is built with: the configured one, capped where the
/// heights came from a lower zoom; and the configured one where that was
/// capped.
pub fn mesh_resolution(cfg: &Config, tile: TileId, source_zoom: u8) -> (r: (u32, Option<u32>))
    requires
        source_zoom <= tile.zoom,
    ensures
        r == resolution_spec(*cfg, tile, source_zoom),
{
    let requested: u32 = cfg.resolution_for(tile.zoom);
    let ceiling: u32 = mesh::useful_ceiling(tile.zoom - source_zoom);
    if requested <= ceiling {
        (requested, None)
    } else {
        (ceiling, Some(requested))
    }
}

/// The grid of a tile.
pub fn build_mesh(cfg: &Config, inputs: &TileInputs) -> (r: Result<Grid, Error>)
    requires
        inputs.wf(),
    ensures
        ({
            let used = resolution_spec(*cfg, inputs.tile, inputs.terrain_source.zoom).0;
            &&& r is Ok <==> mesh::resolution_ok(used)
            &&& r is Ok ==> r->Ok_0.is_grid_of(inputs.height, used)
            &&& r is Err ==> r->Err_0@ == ErrorView::InvalidResolution(used)
        }),
{
    let (used, _): (u32, Option<u32>) = mesh_resolution(
        cfg,
        inputs.tile,
        inputs.terrain_source.zoom,
    );
    mesh::build_grid(&inputs.height, used)
}

/// Size and bounds of a tile as they are recorded.
pub struct Measures {
    /// Edge length in metres.
    pub tile_size_m: Option<serde_json::Number>,
    /// Northern edge latitude, degrees.
    pub north: Option<serde_json::Number>,
    /// Southern edge latitude, degrees.
    pub south: Option<serde_json::Number>,
    /// Western edge longitude, degrees.
    pub west: Option<serde_json::Number>,
    /// Eastern edge longitude, degrees.
    pub east: Option<serde_json::Number>,
}

/// What the `extras` of a tile record.
pub open spec fn meta_spec(cfg: Config, inputs: TileInputs, measures: Measures) -> MetaView {
    let (used, requested) = resolution_spec(cfg, inputs.tile, inputs.terrain_source.zoom);
    MetaView {
        tile: inputs.tile,
        tile_size_m: measures.tile_size_m,
        north: measures.north,
        south: measures.south,
        west: measures.west,
        east: measures.east,
        resolution: used,
        resolution_requested: requested,
        terrain_source_zoom: inputs.terrain_source.zoom,
        imagery_source_zoom: inputs.imagery_source.zoom,
        normals: inputs.normals.origin_spec(),
        imagery_attribution: cfg.provider.imagery_attribution@,
        elevation_attribution: cfg.provider.elevation_attribution@,
    }
}

/// Build the finished GLB for a tile from its inputs, its grid and the
/// grid's rendered vertices. The table was checked with [`check_table`]
/// before any of them was asked for: one with an impossible entry, for
/// whatever zoom, builds no tile.
pub fn build_tile(
    cfg: &Config,
    inputs: &TileInputs,
    grid: &Grid,
    buffers: &VertexBuffers,
    measures: Measures,
) -> (out: Vec<u8>)
    requires
        table_ok(cfg.resolution@),
        inputs.wf(),
        grid.is_grid_of(
            inputs.height,
            resolution_spec(*cfg, inputs.tile, inputs.terrain_source.zoom).0,
        ),
        buffers.holds(grid.vertices@.len()),
        inputs.normals is Omitted <==> buffers.normals@.len() == 0,
    ensures
        out@ == glb::glb_spec(*grid, *buffers, inputs.jpeg@, meta_spec(*cfg, *inputs, measures)),
{
    let (resolution, resolution_requested): (u32, Option<u32>) = mesh_resolution(
        cfg,
        inputs.tile,
        inputs.terrain_source.zoom,
    );
    let meta: TileMeta = TileMeta {
        tile: inputs.tile,
        tile_size_m: measures.tile_size_m,
        north: measures.north,
        south: measures.south,
        west: measures.west,
        east: measures.east,
        resolution,
        resolution_requested,
        terrain_source_zoom: inputs.terrain_source.zoom,
        imagery_source_zoom: inputs.imagery_source.zoom,
        normals: inputs.normals.origin(),
        imagery_attribution: cfg.provider.imagery_attribution.as_str().to_owned(),
        elevation_attribution: cfg.provider.elevation_attribution.as_str().to_owned(),
    };
    glb::write_glb(grid, buffers, inputs.jpeg.as_slice(), &meta)
}

// -- one build ---------------------------------------------------------------------

/// What one build does next.
pub enum TileStage {
    /// Load the inputs: nothing was asked of the cache or a provider before.
    Load,
    /// Render the vertices of the grid over these inputs.
    Render(TileInputs, Grid),
    /// Nothing more: this is the outcome.
    Done(Result<Vec<u8>, Error>),
}

/// Start a build. A table with an impossible entry, for whatever zoom, fails
/// it before anything is loaded, by its first such entry.
pub fn start_tile(cfg: &Config) -> (s: TileStage)
    ensures
        s is Load <==> table_ok(cfg.resolution@),
        !table_ok(cfg.resolution@) ==> s is Done && s->Done_0 is Err && exists|i: int|
            first_bad(cfg.resolution@, i) && s->Done_0->Err_0@ == ErrorView::InvalidResolution(
                #[trigger] cfg.resolution@[i],
            ),
{
    match check_table(cfg) {
        Ok(()) => TileStage::Load,
        Err(e) => TileStage::Done(Err(e)),
    }
}

impl TileStage {
    /// The inputs were loaded: their grid is to be rendered. With a checked
    /// table there always is one.
    pub fn on_inputs(self, cfg: &Config, reply: Result<TileInputs, Error>) -> (s: TileStage)
        requires
            self is Load,
            table_ok(cfg.resolution@),
            reply is Ok ==> reply->Ok_0.wf(),
        ensures
            match reply {
                Ok(inputs) => s is Render && s->Render_0 == inputs && s->Render_1.is_grid_of(
                    inputs.height,
                    resolution_spec(*cfg, inputs.tile, inputs.terrain_source.zoom).0,
                ),
                Err(e) => s is Done && s->Done_0 is Err && s->Done_0->Err_0@ == e@,
            },
    {
        match reply {
            Err(e) => TileStage::Done(Err(e)),
            Ok(inputs) => {
                proof {
                    law_checked_tables_build(*cfg, inputs.tile, inputs.terrain_source.zoom);
                }
                match build_mesh(cfg, &inputs) {
                    Ok(grid) => TileStage::Render(inputs, grid),
                    Err(e) => TileStage::Done(Err(e)),
                }
            },
        }
    }

    /// The vertices were rendered: the GLB is the outcome.
    pub fn on_rendered(self, cfg: &Config, buffers: &VertexBuffers, measures: Measures) -> (s:
        TileStage)
        requires
            self is Render,
            table_ok(cfg.resolution@),
            self->Render_0.wf(),
            self->Render_1.is_grid_of(
                self->Render_0.height,
                resolution_spec(
                    *cfg,
                    self->Render_0.tile,
                    self->Render_0.terrain_source.zoom,
                ).0,
            ),
            buffers.holds(self->Render_1.vertices@.len()),
            self->Render_0.normals is Omitted <==> buffers.normals@.len() == 0,
        ensures
            s is Done,
            crate::error::bytes_view(s->Done_0) == Ok::<Seq<u8>, ErrorView>(
                glb::glb_spec(
                    self->Render_1,
                    *buffers,
                    self->Render_0.jpeg@,
                    meta_spec(*cfg, self->Render_0, measures),
                ),
            ),
    {
        match self {
            TileStage::Render(inputs, grid) => TileStage::Done(
                Ok(build_tile(cfg, &inputs, &grid, buffers, measures)),
            ),
            other => other,
        }
    }
}

// -- laws ------------------------------------------------------------------------

/// With a table that passes the check, no tile fails for its resolution: the
/// one it is built with is one that a grid can have, at most the configured
/// one, and at most what the heights are good for.
pub proof fn law_checked_tables_build(cfg: Config, tile: TileId, source_zoom: u8)
    requires
        table_ok(cfg.resolution@),
        source_zoom <= tile.zoom,
    ensures
        ({
            let used = resolution_spec(cfg, tile, source_zoom).0;
            &&& mesh::resolution_ok(used)
            &&& used <= cfg.resolution@[mesh::table_slot(tile.zoom)]
            &&& used <= mesh::ceiling_spec((tile.zoom - source_zoom) as u8)
        }),
{
    let dz = (tile.zoom - source_zoom) as nat;
    vstd::arithmetic::power2::lemma_pow2_pos(dz);
    vstd::arithmetic::div_mod::lemma_div_is_ordered_by_denominator(256, 1, pow2(dz) as int);
    assert(mesh::resolution_ok(cfg.resolution@[mesh::table_slot(tile.zoom)]));
}

/// The child of a tile sees its source through the tile's window and then
/// its own quadrant.
pub proof fn law_child_windows_nest(tile: TileId, zoom: u8, dx: u32, dy: u32)
    requires
        tile.valid(),
        tile.zoom < crate::tile::MAX_ZOOM,
        crate::tile::MIN_ZOOM <= zoom <= tile.zoom,
        dx < 2,
        dy < 2,
    ensures
        window_of(tile.child_spec(dx as int, dy as int), zoom) == window_of(tile, zoom).then_spec(
            1,
            dx,
            dy,
        ),
{
    let c = tile.child_spec(dx as int, dy as int);
    crate::tile::law_children_descend(tile, dx as int, dy as int);
    let n = pow2((tile.zoom - zoom) as nat) as int;
    crate::tile::lemma_axis_bound((tile.zoom - zoom) as nat);
    vstd::arithmetic::power2::lemma_pow2_unfold((tile.zoom - zoom + 1) as nat);
    vstd::arithmetic::power2::lemma2_to64();
    lemma_child_mod(tile.x as int, n, dx as int);
    lemma_child_mod(tile.y as int, n, dy as int);
    lemma_full_then(tile, zoom);
    lemma_full_then(c, zoom);
}

proof fn lemma_child_mod(x: int, n: int, d: int)
    requires
        0 <= x,
        0 < n,
        0 <= d < 2,
    ensures
        (2 * x + d) % (2 * n) == 2 * (x % n) + d,
{
    vstd::arithmetic::div_mod::lemma_fundamental_div_mod(x, n);
    vstd::arithmetic::div_mod::lemma_mod_bound(x, n);
    let q = x / n;
    let r = x % n;
    assert(2 * x + d == q * (2 * n) + (2 * r + d)) by (nonlinear_arith)
        requires
            x == n * q + r,
    ;
    vstd::arithmetic::div_mod::lemma_fundamental_div_mod_converse(
        2 * x + d,
        2 * n,
        q,
        2 * r + d,
    );
}

/// The heightmaps around `source`, where `world` holds those of its zoom:
/// what a ring is loaded from.
pub open spec fn ring_of(world: spec_fn(TileId) -> Option<Seq<i32>>, source: TileId) -> Seq<
    Option<Seq<i32>>,
> {
    crate::tile::neighbours_spec(source).map_values(
        |n: Option<TileId>|
            match n {
                Some(t) => world(t),
                None => None,
            },
    )
}

/// `f` is the height field of `tile` where its heights come from `zoom` and
/// `world` holds the heightmaps of that zoom, `None` where one is missing.
pub open spec fn is_field_of(
    f: HeightField,
    world: spec_fn(TileId) -> Option<Seq<i32>>,
    tile: TileId,
    zoom: u8,
) -> bool {
    let source = tile.ancestor_spec(zoom);
    &&& world(source) is Some
    &&& terrain::is_padded(f, world(source)->0, ring_of(world, source))
    &&& f.window == window_of(tile, zoom)
}

/// A ring put together from the neighbours of its source, in their order,
/// pads the source with the world around it: loaded inputs hold the height
/// field of their tile.
pub proof fn law_loaded_fields_show_the_world(
    world: spec_fn(TileId) -> Option<Seq<i32>>,
    sources: Sources,
    ring: Ring,
    inputs: TileInputs,
)
    requires
        sources.wf(),
        inputs.wf(),
        inputs.tile == sources.tile,
        inputs.terrain_source == sources.terrain_source,
        world(sources.terrain_source) == Some(sources.centre@),
        forall|i: int|
            0 <= i < 8 ==> #[trigger] ring.sides()[i] == Ok::<Option<Seq<i32>>, ErrorView>(
                ring_of(world, sources.terrain_source)[i],
            ),
        terrain::is_padded(inputs.height, sources.centre@, maps_of(ring.sides())),
    ensures
        is_field_of(inputs.height, world, inputs.tile, inputs.terrain_source.zoom),
{
    let around = ring_of(world, sources.terrain_source);
    assert(maps_of(ring.sides()) =~= around) by {
        assert forall|i: int| 0 <= i < 8 implies maps_of(ring.sides())[i] == around[i] by {
            assert(ring.sides()[i] == Ok::<Option<Seq<i32>>, ErrorView>(around[i]));
        }
    }
}

/// The setting decides alone whether a mesh has normals: only with it does
/// the primitive have a `NORMAL` attribute, and only with it do the `extras`
/// tell where the normals came from.
pub proof fn law_normals_follow_the_setting(
    cfg: Config,
    inputs: TileInputs,
    buffers: VertexBuffers,
    measures: Measures,
)
    requires
        inputs.normals is Omitted <==> !cfg.wants_spec(Kind::Normals),
        inputs.normals is Omitted <==> buffers.normals@.len() == 0,
    ensures
        glb::attributes_tree(buffers.normals@.len() > 0)->Object_0.dom().contains("NORMAL"@)
            <==> cfg.include_normals,
        glb::extras_tree(meta_spec(cfg, inputs, measures))->Object_0.dom().contains(
            "normals_source_zoom"@,
        ) <==> cfg.include_normals,
{
    glb::lemma_normal_names();
}

/// The windows of two fields lie side by side in one source.
spec fn in_one_source(fa: HeightField, fb: HeightField, dx: int, dy: int) -> bool {
    &&& fa.wf() && fb.wf()
    &&& fa.data@ == fb.data@
    &&& fa.window.dz == fb.window.dz
    &&& fa.window.qx + dx == fb.window.qx
    &&& fa.window.qy + dy == fb.window.qy
}

/// How a tile and its eastern neighbour lie in their sources.
proof fn lemma_east_sources(
    world: spec_fn(TileId) -> Option<Seq<i32>>,
    zoom: u8,
    t: TileId,
    fa: HeightField,
    e: TileId,
    fb: HeightField,
)
    requires
        t.valid(),
        t.offset_spec(1, 0) == Some(e),
        crate::tile::MIN_ZOOM <= zoom <= t.zoom,
        is_field_of(fa, world, t, zoom),
        is_field_of(fb, world, e, zoom),
    ensures
        ({
            let s = t.ancestor_spec(zoom);
            let se = e.ancestor_spec(zoom);
            in_one_source(fa, fb, 1, 0) || {
                &&& terrain::side_by_side(
                    world(s)->0,
                    ring_of(world, s),
                    world(se)->0,
                    ring_of(world, se),
                )
                &&& fa.window.dz == fb.window.dz
                &&& fa.window.qx == pow2(fa.window.dz as nat) - 1
                &&& fb.window.qx == 0
                &&& fa.window.qy == fb.window.qy
            }
        }),
{
    let s = t.ancestor_spec(zoom);
    let se = e.ancestor_spec(zoom);
    let n = pow2((t.zoom - zoom) as nat) as int;
    crate::tile::lemma_axis_bound(t.zoom as nat);
    crate::tile::lemma_axis_bound((t.zoom - zoom) as nat);
    crate::tile::lemma_axis_bound(zoom as nat);
    crate::tile::law_ancestor_covers(t, zoom);
    crate::tile::law_ancestor_covers(e, zoom);
    lemma_next_cell(t.x as int, n);
    if t.x as int % n + 1 < n {
        assert(se == s);
        lemma_one_padding(fa, fb, world(s)->0, ring_of(world, s));
    } else {
        assert(s.offset_spec(1, 0) == Some(se));
        assert(se.offset_spec(-1, 0) == Some(s));
        assert(s.offset_spec(0, -1) == se.offset_spec(-1, -1));
        assert(s.offset_spec(1, -1) == se.offset_spec(0, -1));
        assert(s.offset_spec(0, 1) == se.offset_spec(-1, 1));
        assert(s.offset_spec(1, 1) == se.offset_spec(0, 1));
    }
}

/// How a tile and its southern neighbour lie in their sources.
proof fn lemma_south_sources(
    world: spec_fn(TileId) -> Option<Seq<i32>>,
    zoom: u8,
    t: TileId,
    fa: HeightField,
    b: TileId,
    fb: HeightField,
)
    requires
        t.valid(),
        t.offset_spec(0, 1) == Some(b),
        crate::tile::MIN_ZOOM <= zoom <= t.zoom,
        is_field_of(fa, world, t, zoom),
        is_field_of(fb, world, b, zoom),
    ensures
        ({
            let s = t.ancestor_spec(zoom);
            let sb = b.ancestor_spec(zoom);
            in_one_source(fa, fb, 0, 1) || {
                &&& s != sb
                &&& terrain::stacked(
                    world(s)->0,
                    ring_of(world, s),
                    world(sb)->0,
                    ring_of(world, sb),
                )
                &&& fa.window.dz == fb.window.dz
                &&& fa.window.qy == pow2(fa.window.dz as nat) - 1
                &&& fb.window.qy == 0
                &&& fa.window.qx == fb.window.qx
            }
        }),
{
    let s = t.ancestor_spec(zoom);
    let sb = b.ancestor_spec(zoom);
    let n = pow2((t.zoom - zoom) as nat) as int;
    crate::tile::lemma_axis_bound(t.zoom as nat);
    crate::tile::lemma_axis_bound((t.zoom - zoom) as nat);
    crate::tile::lemma_axis_bound(zoom as nat);
    crate::tile::law_ancestor_covers(t, zoom);
    crate::tile::law_ancestor_covers(b, zoom);
    lemma_next_cell(t.y as int, n);
    if t.y as int % n + 1 < n {
        assert(sb == s);
        lemma_one_padding(fa, fb, world(s)->0, ring_of(world, s));
    } else {
        assert(s.offset_spec(0, 1) == Some(sb));
        assert(sb.offset_spec(0, -1) == Some(s));
        assert(s.offset_spec(-1, 0) == sb.offset_spec(-1, -1));
        assert(s.offset_spec(-1, 1) == sb.offset_spec(-1, 0));
        assert(s.offset_spec(1, 0) == sb.offset_spec(1, -1));
        assert(s.offset_spec(1, 1) == sb.offset_spec(1, 0));
    }
}

/// Same-zoom neighbours are watertight: where the heights of a tile and of
/// its eastern neighbour come from one zoom, both weigh the same texels alike
/// at every point of their shared edge, and normals taken from the heights
/// agree there — whether the two lie in one source or in two, and whichever
/// heightmaps around are missing.
pub proof fn law_east_neighbours_meet(
    world: spec_fn(TileId) -> Option<Seq<i32>>,
    zoom: u8,
    t: TileId,
    fa: HeightField,
    e: TileId,
    fb: HeightField,
    den: i64,
    v: Coord,
)
    requires
        t.valid(),
        t.offset_spec(1, 0) == Some(e),
        crate::tile::MIN_ZOOM <= zoom <= t.zoom,
        is_field_of(fa, world, t, zoom),
        is_field_of(fb, world, e, zoom),
        0 < den <= terrain::MAX_COORD_DEN,
        v.on_tile(),
    ensures
        ({
            let ua = Coord { num: (256 * den) as i64, den };
            let ub = Coord { num: 0, den };
            let east = fa.sample_spec(ua, v);
            let west = fb.sample_spec(ub, v);
            &&& terrain::alike(east, west)
            &&& east.height_num() == west.height_num()
            &&& normals::same_slopes(
                normals::slopes_spec(fa, ua, v),
                normals::slopes_spec(fb, ub, v),
            )
        }),
{
    lemma_east_sources(world, zoom, t, fa, e, fb);
    if in_one_source(fa, fb, 1, 0) {
        terrain::law_windows_of_one_source_meet(fa, fb, den, v);
        lemma_edge_positions(fa.window.dz, fa.window.qx, fb.window.qx, den);
    } else {
        let a = world(t.ancestor_spec(zoom))->0;
        let ring_a = ring_of(world, t.ancestor_spec(zoom));
        let b = world(e.ancestor_spec(zoom))->0;
        let ring_b = ring_of(world, e.ancestor_spec(zoom));
        terrain::law_east_west_edge_is_watertight(fa, a, ring_a, fb, b, ring_b, den, v);
        normals::law_slopes_are_watertight(fa, a, ring_a, fb, b, ring_b, den, v);
    }
}

/// Two squares of one source meet at one position.
proof fn lemma_edge_positions(dz: u8, qa: u32, qb: u32, den: i64)
    requires
        qa + 1 == qb,
        0 < den <= terrain::MAX_COORD_DEN,
    ensures
        terrain::axis_num(dz, qa, Coord { num: (256 * den) as i64, den }) == terrain::axis_num(
            dz,
            qb,
            Coord { num: 0, den },
        ),
{
    let q = qa as int;
    let d = den as int;
    assert(256 * q * d + 256 * d == 256 * (q + 1) * d) by (nonlinear_arith);
}

/// A point of a southern edge that the tiles beyond its ends do not tell
/// apart: it reads no end column, or the two tiles beyond that end are both
/// there or both missing.
pub open spec fn ends_agree(ring: Seq<Option<Seq<i32>>>, w: Window, u: Coord) -> bool {
    let column = terrain::axis_num(w.dz, w.qx, u) / terrain::axis_den(w.dz, u);
    &&& column == 0 ==> (ring[3] is Some) == (ring[5] is Some)
    &&& column == 256 ==> (ring[4] is Some) == (ring[7] is Some)
}

/// Same-zoom neighbours are watertight, north to south. Where the two lie in
/// different sources, this leaves out the points at which exactly one of the
/// two tiles beyond an end of the edge is missing.
pub proof fn law_south_neighbours_meet(
    world: spec_fn(TileId) -> Option<Seq<i32>>,
    zoom: u8,
    t: TileId,
    fa: HeightField,
    b: TileId,
    fb: HeightField,
    den: i64,
    u: Coord,
)
    requires
        t.valid(),
        t.offset_spec(0, 1) == Some(b),
        crate::tile::MIN_ZOOM <= zoom <= t.zoom,
        is_field_of(fa, world, t, zoom),
        is_field_of(fb, world, b, zoom),
        0 < den <= terrain::MAX_COORD_DEN,
        u.on_tile(),
        t.ancestor_spec(zoom) != b.ancestor_spec(zoom) ==> ends_agree(
            ring_of(world, t.ancestor_spec(zoom)),
            fa.window,
            u,
        ),
    ensures
        ({
            let south = fa.sample_spec(u, Coord { num: (256 * den) as i64, den });
            let north = fb.sample_spec(u, Coord { num: 0, den });
            &&& terrain::alike(south, north)
            &&& south.height_num() == north.height_num()
        }),
{
    lemma_south_sources(world, zoom, t, fa, b, fb);
    if in_one_source(fa, fb, 0, 1) {
        terrain::law_windows_of_one_source_meet_below(fa, fb, den, u);
    } else {
        terrain::law_north_south_edge_is_watertight(
            fa,
            world(t.ancestor_spec(zoom))->0,
            ring_of(world, t.ancestor_spec(zoom)),
            fb,
            world(b.ancestor_spec(zoom))->0,
            ring_of(world, b.ancestor_spec(zoom)),
            den,
            u,
        );
    }
}

/// Normals taken from the heights agree along a southern edge, under the
/// same reserve.
pub proof fn law_south_slopes_meet(
    world: spec_fn(TileId) -> Option<Seq<i32>>,
    zoom: u8,
    t: TileId,
    fa: HeightField,
    b: TileId,
    fb: HeightField,
    den: i64,
    u: Coord,
)
    requires
        t.valid(),
        t.offset_spec(0, 1) == Some(b),
        crate::tile::MIN_ZOOM <= zoom <= t.zoom,
        is_field_of(fa, world, t, zoom),
        is_field_of(fb, world, b, zoom),
        0 < den <= terrain::MAX_COORD_DEN,
        u.on_tile(),
        t.ancestor_spec(zoom) != b.ancestor_spec(zoom) ==> normals::slope_ends_agree(
            ring_of(world, t.ancestor_spec(zoom)),
            fa.window,
            u,
        ),
    ensures
        normals::same_slopes(
            normals::slopes_spec(fa, u, Coord { num: (256 * den) as i64, den }),
            normals::slopes_spec(fb, u, Coord { num: 0, den }),
        ),
{
    lemma_south_sources(world, zoom, t, fa, b, fb);
    if in_one_source(fa, fb, 0, 1) {
        lemma_edge_positions(fa.window.dz, fa.window.qy, fb.window.qy, den);
    } else {
        normals::law_slopes_are_watertight_below(
            fa,
            world(t.ancestor_spec(zoom))->0,
            ring_of(world, t.ancestor_spec(zoom)),
            fb,
            world(b.ancestor_spec(zoom))->0,
            ring_of(world, b.ancestor_spec(zoom)),
            den,
            u,
        );
    }
}

/// The meshes of a tile and of its eastern neighbour share their edge vertex
/// by vertex where the heights of both come from one zoom: they have the same
/// resolution, and row by row the last vertex of the one and the first of the
/// other weigh the same texels alike.
pub proof fn law_east_meshes_share_their_edge(
    cfg: Config,
    world: spec_fn(TileId) -> Option<Seq<i32>>,
    zoom: u8,
    t: TileId,
    fa: HeightField,
    ga: Grid,
    e: TileId,
    fb: HeightField,
    gb: Grid,
    j: int,
)
    requires
        table_ok(cfg.resolution@),
        t.valid(),
        t.offset_spec(1, 0) == Some(e),
        crate::tile::MIN_ZOOM <= zoom <= t.zoom,
        is_field_of(fa, world, t, zoom),
        is_field_of(fb, world, e, zoom),
        ga.is_grid_of(fa, resolution_spec(cfg, t, zoom).0),
        gb.is_grid_of(fb, resolution_spec(cfg, e, zoom).0),
        0 <= j < ga.resolution,
    ensures
        ({
            let r = ga.resolution;
            let east = ga.vertices@[j * r + (r - 1)];
            let west = gb.vertices@[j * r];
            &&& gb.resolution == r
            &&& east.v == west.v
            &&& terrain::alike(east.sample, west.sample)
            &&& east.sample.height_num() == west.sample.height_num()
        }),
{
    law_checked_tables_build(cfg, t, zoom);
    let r = ga.resolution as int;
    mesh::lemma_flat(r, r - 1, j);
    mesh::lemma_flat(r, 0, j);
    assert(0 <= j * r && j * r + (r - 1) < r * r) by (nonlinear_arith)
        requires
            0 <= j < r,
            2 <= r,
    ;
    assert(ga.vertices@[j * r + (r - 1)] == mesh::vertex_spec(fa, r, j * r + (r - 1)));
    assert(gb.vertices@[j * r + 0] == mesh::vertex_spec(fb, r, j * r + 0));
    law_east_neighbours_meet(
        world,
        zoom,
        t,
        fa,
        e,
        fb,
        (r - 1) as i64,
        mesh::lattice(r, j),
    );
}

/// The meshes of a tile and of its southern neighbour share their edge vertex
/// by vertex, under the reserve of [`law_south_neighbours_meet`].
pub proof fn law_south_meshes_share_their_edge(
    cfg: Config,
    world: spec_fn(TileId) -> Option<Seq<i32>>,
    zoom: u8,
    t: TileId,
    fa: HeightField,
    ga: Grid,
    b: TileId,
    fb: HeightField,
    gb: Grid,
    i: int,
)
    requires
        table_ok(cfg.resolution@),
        t.valid(),
        t.offset_spec(0, 1) == Some(b),
        crate::tile::MIN_ZOOM <= zoom <= t.zoom,
        is_field_of(fa, world, t, zoom),
        is_field_of(fb, world, b, zoom),
        ga.is_grid_of(fa, resolution_spec(cfg, t, zoom).0),
        gb.is_grid_of(fb, resolution_spec(cfg, b, zoom).0),
        0 <= i < ga.resolution,
        t.ancestor_spec(zoom) != b.ancestor_spec(zoom) ==> ends_agree(
            ring_of(world, t.ancestor_spec(zoom)),
            fa.window,
            mesh::lattice(ga.resolution as int, i),
        ),
    ensures
        ({
            let r = ga.resolution;
            let south = ga.vertices@[(r - 1) * r + i];
            let north = gb.vertices@[i];
            &&& gb.resolution == r
            &&& south.u == north.u
            &&& terrain::alike(south.sample, north.sample)
            &&& south.sample.height_num() == north.sample.height_num()
        }),
{
    law_checked_tables_build(cfg, t, zoom);
    let r = ga.resolution as int;
    mesh::lemma_flat(r, i, r - 1);
    mesh::lemma_flat(r, i, 0);
    assert(0 <= (r - 1) * r && (r - 1) * r + i < r * r && r <= r * r && 0 * r == 0)
        by (nonlinear_arith)
        requires
            0 <= i < r,
            2 <= r,
    ;
    assert(ga.vertices@[(r - 1) * r + i] == mesh::vertex_spec(fa, r, (r - 1) * r + i));
    assert(gb.vertices@[i] == mesh::vertex_spec(fb, r, i));
    law_south_neighbours_meet(
        world,
        zoom,
        t,
        fa,
        b,
        fb,
        (r - 1) as i64,
        mesh::lattice(r, i),
    );
}

proof fn lemma_next_cell(x: int, n: int)
    requires
        0 <= x,
        0 < n,
    ensures
        x % n + 1 < n ==> (x + 1) / n == x / n && (x + 1) % n == x % n + 1,
        x % n + 1 >= n ==> (x + 1) / n == x / n + 1 && (x + 1) % n == 0 && x % n == n - 1,
{
    vstd::arithmetic::div_mod::lemma_fundamental_div_mod(x, n);
    vstd::arithmetic::div_mod::lemma_mod_bound(x, n);
    let q = x / n;
    let r = x % n;
    assert(n * q == q * n) by (nonlinear_arith);
    if r + 1 < n {
        vstd::arithmetic::div_mod::lemma_fundamental_div_mod_converse(x + 1, n, q, r + 1);
    } else {
        assert((q + 1) * n == q * n + n) by (nonlinear_arith);
        vstd::arithmetic::div_mod::lemma_fundamental_div_mod_converse(x + 1, n, q + 1, 0);
    }
}

/// A padded field has one content.
proof fn lemma_one_padding(
    fa: HeightField,
    fb: HeightField,
    tile: Seq<i32>,
    ring: Seq<Option<Seq<i32>>>,
)
    requires
        terrain::is_padded(fa, tile, ring),
        terrain::is_padded(fb, tile, ring),
    ensures
        fa.data@ == fb.data@,
{
    assert forall|k: int| 0 <= k < fa.data@.len() implies fa.data@[k] == fb.data@[k] by {
        let (x, y) = (k % 258, k / 258);
        assert(fa.texel(x, y) == fb.texel(x, y));
    }
    assert(fa.data@ =~= fb.data@);
}

/// A tile lies in its height, imagery or normal source where its window says:
/// the source's corner, counted in tiles of this zoom, plus the window's
/// column and row is the tile.
pub proof fn law_windows_are_the_tiles_place(tile: TileId, source: TileId)
    requires
        is_source_of(source, tile),
    ensures
        ({
            let w = window_of(tile, source.zoom);
            let n = pow2((tile.zoom - source.zoom) as nat);
            &&& w.dz == tile.zoom - source.zoom
            &&& w.qx < n
            &&& w.qy < n
            &&& tile.x == source.x * n + w.qx
            &&& tile.y == source.y * n + w.qy
        }),
{
    crate::tile::law_ancestor_covers(tile, source.zoom);
    crate::tile::lemma_axis_bound((tile.zoom - source.zoom) as nat);
}

/// The imagery of a tile from an ancestor's is the square of it that the tile
/// lies in: its size is the image's over the tiles an edge, and it begins as
/// many squares from the west and the north as the tile lies tiles from the
/// ancestor's.
pub proof fn law_imagery_is_cut_where_the_tile_lies(
    tile: TileId,
    source: TileId,
    bytes: Seq<u8>,
    quality: u8,
    format: image::ImageFormat,
    img: image::DynamicImage,
)
    requires
        is_source_of(source, tile),
        source.zoom < tile.zoom,
        crate::codec::guessed_format(bytes) == Ok::<image::ImageFormat, image::ImageError>(format),
        crate::codec::decoded_image(bytes, format) == Ok::<
            image::DynamicImage,
            image::ImageError,
        >(img),
        crate::codec::image_size(img).0 >= pow2((tile.zoom - source.zoom) as nat),
        crate::codec::image_size(img).1 >= pow2((tile.zoom - source.zoom) as nat),
    ensures
        ({
            let n = pow2((tile.zoom - source.zoom) as nat);
            let cw = crate::codec::image_size(img).0 as nat / n;
            let ch = crate::codec::image_size(img).1 as nat / n;
            let square = crate::codec::cropped_image(
                img,
                ((tile.x - source.x * n) * cw) as u32,
                ((tile.y - source.y * n) * ch) as u32,
                cw as u32,
                ch as u32,
            );
            match crate::codec::jpeg_stream(
                crate::codec::resized_image(square, 256, 256),
                quality,
            ) {
                Ok(jpeg) => imagery_spec(tile, source.zoom, bytes, quality) == Ok::<
                    Seq<u8>,
                    ErrorView,
                >(jpeg),
                Err(_) => imagery_spec(tile, source.zoom, bytes, quality) is Err,
            }
        }),
{
    law_windows_are_the_tiles_place(tile, source);
    let w = window_of(tile, source.zoom);
    imagery::law_descendants_show_their_whole_square(
        img,
        w.dz,
        w.qx,
        w.qy,
        quality,
        "imagery "@ + tile.text(),
    );
}

/// A tile's own JPEG imagery is used as it came.
pub proof fn law_own_jpeg_is_kept(tile: TileId, bytes: Seq<u8>, quality: u8)
    requires
        bytes.len() >= 3 && bytes[0] == 0xff && bytes[1] == 0xd8 && bytes[2] == 0xff,
    ensures
        imagery_spec(tile, tile.zoom, bytes, quality) == Ok::<Seq<u8>, ErrorView>(bytes),
{
}

/// The normals of a tile come from the provider's map where there is one,
/// looked at where the tile lies in it; from the heights where every zoom
/// answered 404, and only then; any other failure fails the tile.
pub proof fn law_normals_are_the_providers_or_the_heights(
    tile: TileId,
    found: Result<(Seq<u8>, TileId, Origin), ErrorView>,
    r: Result<NormalsInput, Error>,
)
    requires
        normals_follow(tile, found, r),
        found is Ok ==> is_source_of(found->Ok_0.1, tile),
    ensures
        r is Ok && r->Ok_0 is Heights <==> found is Err && found->Err_0 is NotFound,
        found is Err && !(found->Err_0 is NotFound) ==> r is Err && r->Err_0@ == found->Err_0,
        r is Ok ==> !(r->Ok_0 is Omitted),
        found is Ok && r is Ok ==> {
            let source = found->Ok_0.1;
            let m = r->Ok_0->Provided_0;
            let n = pow2((tile.zoom - source.zoom) as nat);
            &&& r->Ok_0 is Provided
            &&& r->Ok_0->Provided_1 == source.zoom
            &&& m.window.dz == tile.zoom - source.zoom
            &&& tile.x == source.x * n + m.window.qx
            &&& tile.y == source.y * n + m.window.qy
            &&& crate::codec::loaded_rgb8(found->Ok_0.0) is Ok
            &&& m.size == crate::codec::loaded_rgb8(found->Ok_0.0)->Ok_0.0
            &&& m.vecs@.len() == crate::codec::loaded_rgb8(found->Ok_0.0)->Ok_0.2.len()
        },
{
    if found is Ok {
        law_windows_are_the_tiles_place(tile, found->Ok_0.1);
    }
}

/// A tile is built with the configured resolution of its zoom or with what
/// its heights are good for, whichever is less; the configured one is
/// recorded exactly where it was not used.
pub proof fn law_resolution_is_the_lesser(cfg: Config, tile: TileId, source_zoom: u8)
    requires
        tile.valid(),
        source_zoom <= tile.zoom,
    ensures
        ({
            let configured = cfg.resolution@[tile.zoom - 1];
            let dz = tile.zoom - source_zoom;
            let (used, requested) = resolution_spec(cfg, tile, source_zoom);
            let useful = if dz <= 8 {
                256int / pow2(dz as nat) as int + 1
            } else {
                2
            };
            &&& used == (if configured <= useful {
                configured as int
            } else {
                useful
            })
            &&& requested == (if configured <= useful {
                None
            } else {
                Some(configured)
            })
        }),
{
    let dz = (tile.zoom - source_zoom) as u8;
    mesh::law_ceiling_is_one_vertex_a_texel(dz);
    vstd::arithmetic::power2::lemma_pow2_pos(dz as nat);
    if dz <= 8 {
        let n = pow2(dz as nat) as int;
        let k = mesh::ceiling_spec(dz) - 1;
        assert(n * k == 256) by (nonlinear_arith)
            requires
                k * n == 256,
        ;
        vstd::arithmetic::div_mod::lemma_fundamental_div_mod_converse(256, n, k, 0);
        assert(0 < k <= 256) by (nonlinear_arith)
            requires
                k * n == 256,
                0 < n,
        ;
    }
}

/// The `extras` of a built tile tell how it was built.
pub proof fn law_extras_tell_how_it_was_built(cfg: Config, inputs: TileInputs, measures: Measures)
    ensures
        ({
            let m = meta_spec(cfg, inputs, measures);
            &&& m.tile == inputs.tile
            &&& m.tile_size_m == measures.tile_size_m
            &&& m.north == measures.north && m.south == measures.south
            &&& m.west == measures.west && m.east == measures.east
            &&& (m.resolution, m.resolution_requested) == resolution_spec(
                cfg,
                inputs.tile,
                inputs.terrain_source.zoom,
            )
            &&& m.terrain_source_zoom == inputs.terrain_source.zoom
            &&& m.imagery_source_zoom == inputs.imagery_source.zoom
            &&& m.imagery_attribution == cfg.provider.imagery_attribution@
            &&& m.elevation_attribution == cfg.provider.elevation_attribution@
            &&& match inputs.normals {
                NormalsInput::Omitted => m.normals is Omitted,
                NormalsInput::Heights => m.normals is Heights,
                NormalsInput::Provided(_, zoom) => m.normals == NormalsOrigin::Provider(zoom),
            }
        }),
{
}

/// What a built tile draws is its grid, as triangles: as many vertices as the
/// square of the resolution that was used, and two triangles for each square
/// between them.
pub proof fn law_built_tiles_draw_their_grid(
    cfg: Config,
    inputs: TileInputs,
    grid: Grid,
    buffers: VertexBuffers,
    measures: Measures,
)
    requires
        table_ok(cfg.resolution@),
        inputs.wf(),
        grid.is_grid_of(
            inputs.height,
            resolution_spec(cfg, inputs.tile, inputs.terrain_source.zoom).0,
        ),
        buffers.holds(grid.vertices@.len()),
    ensures
        ({
            let doc = glb::tile_document(
                grid,
                buffers,
                inputs.jpeg@,
                meta_spec(cfg, inputs, measures),
            );
            let p = glb::primitive_of(doc);
            let used = resolution_spec(cfg, inputs.tile, inputs.terrain_source.zoom).0;
            &&& glb::holds(p, "mode"@, crate::json::whole(4))
            &&& glb::accesses(doc, 0, 5126, (used * used) as nat, "VEC3"@)
            &&& glb::accesses(doc, 1, 5126, (used * used) as nat, "VEC2"@)
            &&& glb::accesses(
                doc,
                if buffers.normals@.len() > 0 { 3 } else { 2 },
                if used * used <= 65536 { 5123 } else { 5125 },
                (6 * ((used - 1) * (used - 1))) as nat,
                "SCALAR"@,
            )
        }),
{
    let used = resolution_spec(cfg, inputs.tile, inputs.terrain_source.zoom).0;
    law_checked_tables_build(cfg, inputs.tile, inputs.terrain_source.zoom);
    assert forall|k: int| 0 <= k < grid.indices@.len() implies #[trigger] grid.indices@[k]
        < grid.vertices@.len() by {
        mesh::law_indices_are_in_range(inputs.height, grid, used, k);
    }
    glb::law_document_draws_the_grid(
        grid,
        buffers,
        inputs.jpeg@,
        meta_spec(cfg, inputs, measures),
    );
}

/// One for a heightmap that is there, none for one that is not.
pub open spec fn there(map: Option<Seq<i32>>) -> nat {
    if map is Some {
        1
    } else {
        0
    }
}

/// The neighbours counted as present are those with a heightmap.
pub proof fn law_neighbours_are_counted(maps: Seq<Option<Seq<i32>>>)
    requires
        maps.len() == 8,
    ensures
        present(maps) == there(maps[0]) + there(maps[1]) + there(maps[2]) + there(maps[3]) + there(
            maps[4],
        ) + there(maps[5]) + there(maps[6]) + there(maps[7]),
{
    reveal_with_fuel(present, 9);
    let m7 = maps.drop_last();
    let m6 = m7.drop_last();
    let m5 = m6.drop_last();
    let m4 = m5.drop_last();
    let m3 = m4.drop_last();
    let m2 = m3.drop_last();
    let m1 = m2.drop_last();
    assert(m7.last() == maps[6] && m6.last() == maps[5] && m5.last() == maps[4]);
    assert(m4.last() == maps[3] && m3.last() == maps[2] && m2.last() == maps[1]);
    assert(m1.last() == maps[0]);
}

/// A neighbour that the provider answers 404 for clamps its side, and so does
/// the end of the grid; any other failure is the side's; heights are those of
/// the neighbour's own heightmap.
pub proof fn law_sides_clamp_on_404_only(
    neighbour: Option<TileId>,
    reply: Option<Result<(Seq<u8>, Origin), ErrorView>>,
)
    requires
        neighbour is Some ==> reply is Some,
    ensures
        neighbour is None ==> slot_spec(neighbour, reply) == Ok::<Option<Seq<i32>>, ErrorView>(
            None,
        ),
        neighbour is Some ==> match reply->0 {
            Err(e) => if e is NotFound {
                slot_spec(neighbour, reply) == Ok::<Option<Seq<i32>>, ErrorView>(None)
            } else {
                slot_spec(neighbour, reply) == Err::<Option<Seq<i32>>, ErrorView>(e)
            },
            Ok((bytes, _)) => match slot_spec(neighbour, reply) {
                Ok(heights) => heights is Some && match crate::codec::loaded_rgb8(bytes) {
                    Ok((w, h, pixels)) => w == 256 && h == 256 && heights->0.len() == pixels.len()
                        && (forall|k: int|
                        0 <= k < pixels.len() ==> #[trigger] heights->0[k] == 65536
                            * pixels[k]@[0] + 256 * pixels[k]@[1] + pixels[k]@[2] - 8388608),
                    Err(_) => false,
                },
                Err(e) => e is Decode,
            },
        },
{
    if neighbour is Some {
        if let Ok((bytes, _)) = reply->0 {
            terrain::law_heightmap_files_hold_their_heights(
                bytes,
                "neighbour heightmap "@ + neighbour->0.text(),
            );
        }
    }
}

/// The sides of a ring fail together as the first of them that failed, in
/// the order of the neighbours, and only where one did.
pub proof fn law_first_failed_side_decides(
    sides: Seq<Result<Option<Seq<i32>>, ErrorView>>,
    k: int,
)
    requires
        0 <= k <= sides.len(),
        forall|i: int| 0 <= i < k ==> #[trigger] sides[i] is Ok,
        k < sides.len() ==> sides[k] is Err,
    ensures
        first_error(sides) == (if k < sides.len() {
            Some(sides[k]->Err_0)
        } else {
            None
        }),
    decreases sides.len(),
{
    if k > 0 {
        let rest = sides.skip(1);
        assert(sides[0] is Ok);
        assert forall|i: int| 0 <= i < k - 1 implies #[trigger] rest[i] is Ok by {
            assert(sides[i + 1] is Ok);
        }
        law_first_failed_side_decides(rest, k - 1);
        if k < sides.len() {
            assert(rest[k - 1] == sides[k]);
        }
    }
}

/// The sources of a tile fail as the first of them that failed: the heights,
/// the imagery, the normals; last, heights that do not decode.
pub proof fn law_first_failed_source_decides(
    heights: Result<(Seq<u8>, TileId, Origin), ErrorView>,
    imagery: Option<ErrorView>,
    normals: Option<ErrorView>,
)
    ensures
        heights is Err ==> resolve_error(heights, imagery, normals) == Some(heights->Err_0),
        heights is Ok && imagery is Some ==> resolve_error(heights, imagery, normals) == imagery,
        heights is Ok && imagery is None && normals is Some ==> resolve_error(
            heights,
            imagery,
            normals,
        ) == normals,
        heights is Ok && imagery is None && normals is None ==> {
            let e = resolve_error(heights, imagery, normals);
            let loaded = crate::codec::loaded_rgb8(heights->Ok_0.0);
            &&& e is None <==> loaded is Ok && loaded->Ok_0.0 == 256 && loaded->Ok_0.1 == 256
            &&& e is Some ==> e->0 is Decode
        },
{
}

/// A resolution table passes exactly when every entry is from 2 to 257.
pub proof fn law_tables_pass_from_2_to_257(table: Seq<u32>)
    ensures
        table_ok(table) <==> forall|i: int| 0 <= i < table.len() ==> 2 <= #[trigger] table[i] <= 257,
{
    if table_ok(table) {
        assert forall|i: int| 0 <= i < table.len() implies 2 <= #[trigger] table[i] <= 257 by {
            assert(mesh::resolution_ok(table[i]));
        }
    }
}

/// Without being told otherwise, tiles are built from the default providers,
/// with the default table, quality 90 and normals, waiting 5 s for a
/// connection and 10 s for an answer.
pub proof fn law_defaults(cfg: Config)
    requires
        cfg.is_default_elsewhere(),
    ensures
        cfg.provider.is_default(),
        cfg.resolution@ == mesh::DEFAULT_RESOLUTIONS@,
        cfg.jpeg_quality == 90,
        cfg.include_normals,
        cfg.connect_timeout.secs == 5 && cfg.connect_timeout.nanos == 0,
        cfg.read_timeout.secs == 10 && cfg.read_timeout.nanos == 0,
{
}

/// Imagery and heights are always asked for, normal maps only with normals.
pub proof fn law_only_normals_can_be_left_out(cfg: Config, kind: Kind)
    ensures
        cfg.wants_spec(kind) <==> kind is Texture || kind is Heightmap || cfg.include_normals,
{
}

/// A timeout of whole seconds is exactly that many.
pub proof fn law_timeouts_count_seconds(secs: u64)
    ensures
        Timeout::of_secs(secs).secs == secs,
        Timeout::of_secs(secs).nanos == 0,
{
}

/// Overriding resolutions leaves every other setting alone.
pub proof fn law_other_settings_stay(a: Config, b: Config)
    requires
        a.same_but_resolution(b),
    ensures
        a.cache == b.cache,
        a.provider == b.provider,
        a.connect_timeout == b.connect_timeout,
        a.read_timeout == b.read_timeout,
        a.jpeg_quality == b.jpeg_quality,
        a.include_normals == b.include_normals,
{
}

/// A table is refused for its first impossible entry.
pub proof fn law_first_impossible_entry_is_named(table: Seq<u32>, i: int)
    requires
        first_bad(table, i),
    ensures
        0 <= i < table.len(),
        table[i] < 2 || table[i] > 257,
        forall|j: int| 0 <= j < i ==> 2 <= #[trigger] table[j] <= 257,
{
    assert forall|j: int| 0 <= j < i implies 2 <= #[trigger] table[j] <= 257 by {
        assert(mesh::resolution_ok(table[j]));
    }
}

} // verus!
