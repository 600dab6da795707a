//! Per-tile metadata: height range and LOD geometric error.
//!
//! For every built tile `glb/{fingerprint}/z/x/y.glb` a JSON document with
//! the same name but a `.json` extension records, next to the tile's size:
//!
//! - the height range of the tile's own heightmap texels (of the window onto
//!   the source tile when the heightmap was derived from an ancestor zoom);
//! - the geometric error: the maximum absolute difference between the tile's
//!   surface and the surface of its 4 children at `zoom + 1`, sampled at the
//!   children's texel centres with the tile's surface evaluated bilinearly.
//!   An LOD consumer splits a tile while this error projects to more screen
//!   pixels than its budget.
//!
//! A child whose heightmap resolves to the same (or a lower) source zoom as
//! the tile's own carries no extra detail and contributes 0 — so a tile at
//! the provider's deepest zoom has no error, telling the consumer there is
//! nothing to refine into.

use crate::builder;
use crate::error::{Error, ErrorView};
use crate::fetch;
use crate::fetch::{Closest, Origin};
use crate::terrain;
use crate::terrain::{Coord, Height, HeightField, Sample, Window, TILE_AREA};
use crate::text;
use crate::tile::{two_to, TileId, MAX_ZOOM};
use vstd::arithmetic::power2::pow2;
use vstd::prelude::*;

verus! {

// -- the height range --------------------------------------------------------------

/// The first texel of square `q` of `2^dz`.
pub open spec fn block_from(dz: u8, q: u32) -> int {
    256 * q / (pow2(dz as nat) as int)
}

/// Behind the last texel of square `q` of `2^dz`, rounded outward.
pub open spec fn block_to(dz: u8, q: u32) -> int {
    (256 * (q + 1) + pow2(dz as nat) - 1) / (pow2(dz as nat) as int)
}

/// Texel `(x, y)` lies in the block of whole texels that covers the window
/// `(qx, qy)` at `dz` levels below the source.
pub open spec fn in_block(dz: u8, qx: u32, qy: u32, x: int, y: int) -> bool {
    block_from(dz, qx) <= x < block_to(dz, qx) && block_from(dz, qy) <= y < block_to(dz, qy)
}

/// `lo` and `hi` are the least and the greatest height of the block.
pub open spec fn is_range(
    heights: Seq<i32>,
    dz: u8,
    qx: u32,
    qy: u32,
    lo: i32,
    hi: i32,
) -> bool {
    &&& forall|x: int, y: int|
        in_block(dz, qx, qy, x, y) ==> lo <= #[trigger] terrain::texel(heights, x, y) <= hi
    &&& exists|x: int, y: int|
        in_block(dz, qx, qy, x, y) && #[trigger] terrain::texel(heights, x, y) == lo
    &&& exists|x: int, y: int|
        in_block(dz, qx, qy, x, y) && #[trigger] terrain::texel(heights, x, y) == hi
}

proof fn lemma_block(dz: u8, q: u32)
    requires
        dz <= terrain::MAX_WINDOW_DEPTH,
        q < pow2(dz as nat),
    ensures
        0 <= block_from(dz, q) < block_to(dz, q) <= 256,
{
    let n = pow2(dz as nat) as int;
    terrain::lemma_depth_bound(dz as nat);
    let a = 256 * q as int;
    let b = 256 * (q + 1) + n - 1;
    vstd::arithmetic::div_mod::lemma_div_pos_is_pos(a, n);
    assert(b < 257 * n) by (nonlinear_arith)
        requires
            b == 256 * (q + 1) + n - 1,
            q + 1 <= n,
    ;
    assert(b < n * 257) by (nonlinear_arith)
        requires
            b < 257 * n,
    ;
    vstd::arithmetic::div_mod::lemma_multiply_divide_lt(b, n, 257);
    vstd::arithmetic::div_mod::lemma_div_plus_one(a, n);
    vstd::arithmetic::div_mod::lemma_div_is_ordered(a + n, b, n);
}

/// The texels of one axis that square `q` of `2^dz` covers.
fn block(dz: u8, q: u32) -> (r: (usize, usize))
    requires
        dz <= terrain::MAX_WINDOW_DEPTH,
        q < pow2(dz as nat),
    ensures
        r.0 == block_from(dz, q),
        r.1 == block_to(dz, q),
        r.0 < r.1 <= 256,
{
    proof {
        lemma_block(dz, q);
        terrain::lemma_depth_bound(dz as nat);
    }
    let n: u64 = two_to(dz);
    let from: u64 = 256 * q as u64 / n;
    let to: u64 = (256 * (q as u64 + 1) + n - 1) / n;
    (from as usize, to as usize)
}

/// Least and greatest height over the source texels covering the window
/// `(qx, qy)` at `dz` levels below the source — the whole image when
/// `dz == 0`. The block is rounded outward to whole texels.
pub fn window_min_max(heights: &Vec<i32>, dz: u8, qx: u32, qy: u32) -> (r: (i32, i32))
    requires
        heights@.len() == TILE_AREA,
        dz <= terrain::MAX_WINDOW_DEPTH,
        qx < pow2(dz as nat),
        qy < pow2(dz as nat),
    ensures
        is_range(heights@, dz, qx, qy, r.0, r.1),
{
    let (x0, x1): (usize, usize) = block(dz, qx);
    let (y0, y1): (usize, usize) = block(dz, qy);
    let mut lo: i32 = heights[y0 * 256 + x0];
    let mut hi: i32 = lo;
    assert(terrain::texel(heights@, x0 as int, y0 as int) == lo);
    let mut y: usize = y0;
    while y < y1
        invariant
            x0 == block_from(dz, qx),
            x1 == block_to(dz, qx),
            y0 == block_from(dz, qy),
            y1 == block_to(dz, qy),
            x0 < x1 <= 256,
            y0 <= y <= y1 <= 256,
            heights@.len() == TILE_AREA,
            forall|i: int, j: int|
                x0 <= i < x1 && y0 <= j < y ==> lo <= #[trigger] terrain::texel(heights@, i, j)
                    <= hi,
            exists|i: int, j: int|
                in_block(dz, qx, qy, i, j) && #[trigger] terrain::texel(heights@, i, j) == lo,
            exists|i: int, j: int|
                in_block(dz, qx, qy, i, j) && #[trigger] terrain::texel(heights@, i, j) == hi,
        decreases y1 - y,
    {
        let mut x: usize = x0;
        while x < x1
            invariant
                x0 == block_from(dz, qx),
                x1 == block_to(dz, qx),
                y0 == block_from(dz, qy),
                y1 == block_to(dz, qy),
                x0 <= x <= x1 <= 256,
                y0 <= y < y1 <= 256,
                heights@.len() == TILE_AREA,
                forall|i: int, j: int|
                    x0 <= i < x1 && y0 <= j < y ==> lo <= #[trigger] terrain::texel(
                        heights@,
                        i,
                        j,
                    ) <= hi,
                forall|i: int|
                    x0 <= i < x ==> lo <= #[trigger] terrain::texel(heights@, i, y as int) <= hi,
                exists|i: int, j: int|
                    in_block(dz, qx, qy, i, j) && #[trigger] terrain::texel(heights@, i, j) == lo,
                exists|i: int, j: int|
                    in_block(dz, qx, qy, i, j) && #[trigger] terrain::texel(heights@, i, j) == hi,
            decreases x1 - x,
        {
            let h: i32 = heights[y * 256 + x];
            assert(terrain::texel(heights@, x as int, y as int) == h);
            if h < lo {
                lo = h;
            }
            if h > hi {
                hi = h;
            }
            x = x + 1;
        }
        y = y + 1;
    }
    (lo, hi)
}

// -- the distance of two surfaces --------------------------------------------------

/// The absolute value.
pub open spec fn distance(a: int, b: int) -> int {
    if a >= b {
        a - b
    } else {
        b - a
    }
}

/// The deeper of two windows.
pub open spec fn deeper(a: HeightField, b: HeightField) -> u8 {
    if a.window.dz >= b.window.dz {
        a.window.dz
    } else {
        b.window.dz
    }
}

/// The denominator of heights sampled at texel centres `dz` below a source.
pub open spec fn centre_den(dz: u8) -> int {
    pow2((2 * dz + 4) as nat) as int
}

/// The centre of texel `i` of a tile.
pub open spec fn centre(i: int) -> Coord {
    Coord { num: (2 * i + 1) as i64, den: 2 }
}

/// The height at texel centre `(i, j)`, over the denominator for `dz`.
pub open spec fn centre_height(f: HeightField, dz: u8, i: int, j: int) -> int {
    f.sample_spec(centre(i), centre(j)).height_num() * pow2((2 * (dz - f.window.dz)) as nat)
}

/// The distance of two surfaces at texel centre `(i, j)`, over
/// `centre_den(deeper(a, b))`.
pub open spec fn distance_at(a: HeightField, b: HeightField, i: int, j: int) -> int {
    let dz = deeper(a, b);
    distance(centre_height(a, dz, i, j), centre_height(b, dz, i, j))
}

/// `h` is the greatest distance of two surfaces at the 256² texel centres of
/// their shared domain.
pub open spec fn is_max_distance(a: HeightField, b: HeightField, h: Height) -> bool {
    &&& h.den == centre_den(deeper(a, b))
    &&& forall|i: int, j: int|
        0 <= i < 256 && 0 <= j < 256 ==> #[trigger] distance_at(a, b, i, j) <= h.num
    &&& exists|i: int, j: int|
        0 <= i < 256 && 0 <= j < 256 && #[trigger] distance_at(a, b, i, j) == h.num
}

proof fn lemma_centre_den(f: HeightField, i: int, j: int)
    requires
        f.wf(),
        0 <= i < 256,
        0 <= j < 256,
    ensures
        ({
            let s = f.sample_spec(centre(i), centre(j));
            let d = centre_den(f.window.dz);
            &&& s.x.den * s.y.den == d
            &&& -0x8000_0000 * d <= s.height_num() <= 0x8000_0000 * d
        }),
{
    let dz = f.window.dz;
    let n = pow2(dz as nat) as int;
    terrain::lemma_depth_bound(dz as nat);
    let u = centre(i);
    let v = centre(j);
    terrain::lemma_axis_bounds(dz, f.window.qx, u);
    terrain::lemma_axis_bounds(dz, f.window.qy, v);
    assert(terrain::axis_den(dz, u) == 4 * n);
    assert(terrain::axis_den(dz, v) == 4 * n);
    vstd::arithmetic::power2::lemma2_to64();
    vstd::arithmetic::power2::lemma_pow2_adds(dz as nat, dz as nat);
    vstd::arithmetic::power2::lemma_pow2_adds((2 * dz) as nat, 4);
    assert((4 * n) * (4 * n) == (n * n) * 16) by (nonlinear_arith);
    let s = f.sample_spec(u, v);
    vstd::arithmetic::div_mod::lemma_mod_bound(
        terrain::axis_num(dz, f.window.qx, u),
        terrain::axis_den(dz, u),
    );
    vstd::arithmetic::div_mod::lemma_mod_bound(
        terrain::axis_num(dz, f.window.qy, v),
        terrain::axis_den(dz, v),
    );
    terrain::law_samples_stay_in_range(s, -0x8000_0000, 0x7fff_ffff);
    let d = s.x.den * s.y.den;
    assert(d > 0) by (nonlinear_arith)
        requires
            d == (n * n) * 16,
            n > 0,
    ;
}

proof fn lemma_scaled(f: HeightField, dz: u8, i: int, j: int)
    requires
        f.wf(),
        f.window.dz <= dz <= terrain::MAX_WINDOW_DEPTH,
        0 <= i < 256,
        0 <= j < 256,
    ensures
        -0x8000_0000_0000_0000_0000_0000 <= centre_height(f, dz, i, j)
            <= 0x8000_0000_0000_0000_0000_0000,
        pow2((2 * (dz - f.window.dz)) as nat) <= 0x1_0000_0000_0000,
        centre_den(dz) <= 0x10_0000_0000_0000,
{
    lemma_centre_den(f, i, j);
    let k = (2 * (dz - f.window.dz)) as nat;
    let m = (2 * f.window.dz + 4) as nat;
    vstd::arithmetic::power2::lemma_pow2_adds(m, k);
    vstd::arithmetic::power2::lemma2_to64();
    vstd::arithmetic::power2::lemma_pow2_pos(k);
    vstd::arithmetic::power2::lemma_pow2_pos(m);
    if k < 48 {
        vstd::arithmetic::power2::lemma_pow2_strictly_increases(k, 48);
    }
    if m + k < 52 {
        vstd::arithmetic::power2::lemma_pow2_strictly_increases(m + k, 52);
    }
    assert(pow2(52) == 0x10_0000_0000_0000) by {
        vstd::arithmetic::power2::lemma2_to64_rest();
    }
    assert(pow2(48) == 0x1_0000_0000_0000) by {
        vstd::arithmetic::power2::lemma2_to64_rest();
    }
    let h = f.sample_spec(centre(i), centre(j)).height_num();
    let p = pow2(k) as int;
    let d = pow2(m) as int;
    assert(-0x8000_0000 * (d * p) <= h * p <= 0x8000_0000 * (d * p)) by (nonlinear_arith)
        requires
            -0x8000_0000 * d <= h <= 0x8000_0000 * d,
            p > 0,
    ;
    assert(d * p == pow2(m + k));
}

/// The height at texel centre `(i, j)`, scaled by `p`.
fn scaled_height(f: &HeightField, Ghost(dz): Ghost<u8>, p: i128, i: u32, j: u32) -> (h: i128)
    requires
        f.wf(),
        f.window.dz <= dz <= terrain::MAX_WINDOW_DEPTH,
        p == pow2((2 * (dz - f.window.dz)) as nat),
        i < 256,
        j < 256,
    ensures
        h == centre_height(*f, dz, i as int, j as int),
        -0x8000_0000_0000_0000_0000_0000 <= h <= 0x8000_0000_0000_0000_0000_0000,
{
    proof {
        lemma_scaled(*f, dz, i as int, j as int);
    }
    let s: Sample = f.sample(Coord::texel_centre(i), Coord::texel_centre(j));
    s.height().num * p
}

/// The greatest distance of two surfaces, both sampled at the 256² texel
/// centres of their shared domain.
pub fn max_abs_diff(a: &HeightField, b: &HeightField) -> (h: Height)
    requires
        a.wf(),
        b.wf(),
    ensures
        is_max_distance(*a, *b, h),
        0 <= h.num <= 0x1_0000_0000_0000_0000_0000_0000,
        0 < h.den <= 0x10_0000_0000_0000,
{
    let dz: u8 = if a.window.dz >= b.window.dz {
        a.window.dz
    } else {
        b.window.dz
    };
    proof {
        lemma_scaled(*a, dz, 0, 0);
        lemma_scaled(*b, dz, 0, 0);
        vstd::arithmetic::power2::lemma_pow2_pos((2 * dz + 4) as nat);
    }
    let pa: i128 = two_to(2 * (dz - a.window.dz)) as i128;
    let pb: i128 = two_to(2 * (dz - b.window.dz)) as i128;
    let mut max: i128 = 0;
    let ghost mut wi: int = 0;
    let ghost mut wj: int = 0;
    let ghost mut seen: bool = false;
    let mut j: u32 = 0;
    while j < 256
        invariant
            j <= 256,
            a.wf(),
            b.wf(),
            dz == deeper(*a, *b),
            pa == pow2((2 * (dz - a.window.dz)) as nat),
            pb == pow2((2 * (dz - b.window.dz)) as nat),
            0 <= max <= 0x1_0000_0000_0000_0000_0000_0000,
            seen == (j > 0),
            !seen ==> max == 0,
            seen ==> 0 <= wi < 256 && 0 <= wj < 256 && distance_at(*a, *b, wi, wj) == max,
            forall|x: int, y: int|
                0 <= x < 256 && 0 <= y < j ==> #[trigger] distance_at(*a, *b, x, y) <= max,
        decreases 256 - j,
    {
        let mut i: u32 = 0;
        while i < 256
            invariant
                i <= 256,
                j < 256,
                a.wf(),
                b.wf(),
                dz == deeper(*a, *b),
                pa == pow2((2 * (dz - a.window.dz)) as nat),
                pb == pow2((2 * (dz - b.window.dz)) as nat),
                0 <= max <= 0x1_0000_0000_0000_0000_0000_0000,
                seen == (j > 0 || i > 0),
                !seen ==> max == 0,
                seen ==> 0 <= wi < 256 && 0 <= wj < 256 && distance_at(*a, *b, wi, wj) == max,
                forall|x: int, y: int|
                    0 <= x < 256 && 0 <= y < j ==> #[trigger] distance_at(*a, *b, x, y) <= max,
                forall|x: int|
                    0 <= x < i ==> #[trigger] distance_at(*a, *b, x, j as int) <= max,
            decreases 256 - i,
        {
            let x: i128 = scaled_height(a, Ghost(dz), pa, i, j);
            let y: i128 = scaled_height(b, Ghost(dz), pb, i, j);
            let d: i128 = if x >= y {
                x - y
            } else {
                y - x
            };
            assert(d == distance_at(*a, *b, i as int, j as int));
            proof {
                if !seen || d > max {
                    wi = i as int;
                    wj = j as int;
                }
                seen = true;
            }
            if d > max {
                max = d;
            }
            i = i + 1;
        }
        j = j + 1;
    }
    Height { num: max, den: two_to(2 * dz + 4) as i128 }
}

// -- one tile ----------------------------------------------------------------------

/// The metadata of a tile, heights in 1/256 m.
#[derive(Clone, Copy, Debug, PartialEq, Eq, Structural)]
pub struct TileMetadata {
    /// The tile.
    pub tile: TileId,
    /// Lowest point of the tile's heightmap.
    pub min_height: i32,
    /// Highest point of the tile's heightmap.
    pub max_height: i32,
    /// Maximum distance between this tile's surface and its 4 children's; 0
    /// when no finer data exists.
    pub geometric_error: Height,
}

/// A tile's own surface, from its heightmap alone. Unpadded: the outermost
/// half-texel band clamps instead of reading the neighbours — a sub-texel
/// effect on an extreme bound, not worth 8 fetches per tile.
pub struct Surface {
    /// The tile.
    pub tile: TileId,
    /// The zoom the heightmap came from.
    pub source_zoom: u8,
    /// Lowest point.
    pub min_height: i32,
    /// Highest point.
    pub max_height: i32,
    /// The surface the tile's mesh samples, over the tile's own domain.
    pub field: HeightField,
}

/// `f` is the heightmap with its edges replicated, seen through `w`.
pub open spec fn is_surface(f: HeightField, heights: Seq<i32>, w: Window) -> bool {
    &&& f.wf()
    &&& f.window == w
    &&& forall|x: int, y: int|
        0 <= x < 258 && 0 <= y < 258 ==> #[trigger] f.texel(x, y) == terrain::texel(
            heights,
            terrain::clamp_int(x - 1, 255),
            terrain::clamp_int(y - 1, 255),
        )
}

impl Surface {
    /// The tile is valid and the field seen through its window.
    pub open spec fn wf(self) -> bool {
        &&& self.tile.valid()
        &&& crate::tile::MIN_ZOOM <= self.source_zoom <= self.tile.zoom
        &&& self.field.wf()
        &&& self.field.window == builder::window_of(self.tile, self.source_zoom)
    }

    /// The surface of `tile` from its height source.
    pub open spec fn is_of(self, tile: TileId, source: TileId, heights: Seq<i32>) -> bool {
        let w = builder::window_of(tile, source.zoom);
        &&& self.wf()
        &&& self.tile == tile
        &&& self.source_zoom == source.zoom
        &&& is_range(heights, w.dz, w.qx, w.qy, self.min_height, self.max_height)
        &&& is_surface(self.field, heights, w)
    }
}

/// The surface of a heightmap seen through a window.
fn surface_field(heights: &Vec<i32>, tile: TileId, zoom: u8) -> (f: HeightField)
    requires
        heights@.len() == TILE_AREA,
        tile.valid(),
        crate::tile::MIN_ZOOM <= zoom <= tile.zoom,
    ensures
        is_surface(f, heights@, builder::window_of(tile, zoom)),
{
    let (_, qx, qy): (TileId, u32, u32) = tile.ancestor(zoom);
    let whole: HeightField = HeightField::unpadded(heights);
    proof {
        builder::lemma_full_then(tile, zoom);
    }
    let f: HeightField = whole.windowed(tile.zoom - zoom, qx, qy);
    assert forall|x: int, y: int| 0 <= x < 258 && 0 <= y < 258 implies #[trigger] f.texel(x, y)
        == terrain::texel(
        heights@,
        terrain::clamp_int(x - 1, 255),
        terrain::clamp_int(y - 1, 255),
    ) by {
        assert(whole.texel(x, y) == f.texel(x, y));
    }
    f
}

/// The surface of `tile` from its closest heightmap.
pub fn surface_from(tile: TileId, found: &Closest) -> (r: Result<Surface, Error>)
    requires
        builder::is_source_of(found.source, tile),
    ensures
        match builder::centre_spec(found.source, found.bytes@) {
            Ok(heights) => r is Ok && r->Ok_0.is_of(tile, found.source, heights),
            Err(e) => r is Err && r->Err_0@ == e,
        },
{
    let name: String = found.source.to_string();
    let what: String = text::join2("heightmap ", name.as_str());
    match terrain::decode_heightmap_png(found.bytes.as_slice(), what.as_str()) {
        Err(e) => Err(e),
        Ok(heights) => {
            let zoom: u8 = found.source.zoom;
            let (_, qx, qy): (TileId, u32, u32) = tile.ancestor(zoom);
            proof {
                builder::lemma_full_then(tile, zoom);
            }
            let (lo, hi): (i32, i32) = window_min_max(&heights, tile.zoom - zoom, qx, qy);
            let field: HeightField = surface_field(&heights, tile, zoom);
            Ok(Surface { tile, source_zoom: zoom, min_height: lo, max_height: hi, field })
        },
    }
}

/// No distance, over the denominator the tile's children are measured in.
pub open spec fn no_error(tile: TileId, source_zoom: u8) -> Height {
    Height { num: 0, den: centre_den((tile.zoom + 1 - source_zoom) as u8) as i128 }
}

/// The result `r` is what a child contributes, `found` being what the walk
/// for its heightmap came to: nothing where the provider has none or only
/// what the tile itself was built from; else the distance of the two
/// surfaces; any other failure as it is.
pub open spec fn child_error_follows(
    surface: Surface,
    dx: u32,
    dy: u32,
    found: Result<(Seq<u8>, TileId, Origin), ErrorView>,
    r: Result<Height, Error>,
) -> bool {
    let none = no_error(surface.tile, surface.source_zoom);
    match found {
        Err(e) => if e is NotFound {
            r is Ok && r->Ok_0 == none
        } else {
            r is Err && r->Err_0@ == e
        },
        Ok((bytes, source, _)) => if source.zoom <= surface.source_zoom {
            r is Ok && r->Ok_0 == none
        } else {
            match builder::centre_spec(source, bytes) {
                Err(e) => r is Err && r->Err_0@ == e,
                Ok(heights) => r is Ok && measures(surface, dx, dy, source, heights, r->Ok_0),
            }
        },
    }
}

/// `h` is the distance of a tile's surface, on its quadrant `(dx, dy)`, from
/// the child's own heights.
pub open spec fn measures(
    surface: Surface,
    dx: u32,
    dy: u32,
    source: TileId,
    heights: Seq<i32>,
    h: Height,
) -> bool {
    let child = surface.tile.child_spec(dx as int, dy as int);
    exists|parent: HeightField, fine: HeightField|
        {
            &&& parent.wf()
            &&& parent.data@ == surface.field.data@
            &&& parent.window == surface.field.window.then_spec(1, dx, dy)
            &&& is_surface(fine, heights, builder::window_of(child, source.zoom))
            &&& #[trigger] is_max_distance(parent, fine, h)
        }
}

/// One child's contribution. Like the builder, only a 404 is "no data" — a
/// transient error fails the computation rather than silently recording a
/// smaller error.
pub fn child_error(surface: &Surface, dx: u32, dy: u32, found: Result<Closest, Error>) -> (r:
    Result<Height, Error>)
    requires
        surface.wf(),
        surface.tile.zoom < MAX_ZOOM,
        dx < 2,
        dy < 2,
        found is Ok ==> builder::is_source_of(
            found->Ok_0.source,
            surface.tile.child_spec(dx as int, dy as int),
        ),
    ensures
        child_error_follows(*surface, dx, dy, fetch::closest_view(found), r),
        r is Ok ==> r->Ok_0.den == no_error(surface.tile, surface.source_zoom).den,
        r is Ok ==> 0 <= r->Ok_0.num,
{
    let depth: u8 = surface.tile.zoom + 1 - surface.source_zoom;
    proof {
        lemma_den_fits(depth);
        vstd::arithmetic::power2::lemma2_to64();
    }
    match found {
        Err(Error::NotFound { url }) => Ok(
            Height { num: 0, den: two_to(2 * depth + 4) as i128 },
        ),
        Err(e) => Err(e),
        Ok(c) => {
            if c.source.zoom <= surface.source_zoom {
                return Ok(Height { num: 0, den: two_to(2 * depth + 4) as i128 });
            }
            let child: TileId = surface.tile.child(dx, dy);
            let name: String = c.source.to_string();
            let what: String = text::join2("heightmap ", name.as_str());
            match terrain::decode_heightmap_png(c.bytes.as_slice(), what.as_str()) {
                Err(e) => Err(e),
                Ok(heights) => {
                    let fine: HeightField = surface_field(&heights, child, c.source.zoom);
                    let parent: HeightField = surface.field.windowed(1, dx, dy);
                    let h: Height = max_abs_diff(&parent, &fine);
                    assert(deeper(parent, fine) == depth);
                    assert(measures(*surface, dx, dy, c.source, heights@, h));
                    Ok(h)
                },
            }
        },
    }
}

proof fn lemma_den_fits(depth: u8)
    requires
        depth <= MAX_ZOOM,
    ensures
        0 < centre_den(depth) <= 0x10_0000_0000_0000,
{
    let k = (2 * depth + 4) as nat;
    vstd::arithmetic::power2::lemma_pow2_pos(k);
    vstd::arithmetic::power2::lemma2_to64_rest();
    if k < 52 {
        vstd::arithmetic::power2::lemma_pow2_strictly_increases(k, 52);
    }
}

/// What came of the four children of a tile.
pub struct Children {
    /// North-west.
    pub nw: Result<Height, Error>,
    /// North-east.
    pub ne: Result<Height, Error>,
    /// South-west.
    pub sw: Result<Height, Error>,
    /// South-east.
    pub se: Result<Height, Error>,
}

impl Children {
    /// Every child that was measured was measured over `den`.
    pub open spec fn wf(self, den: int) -> bool {
        &&& self.nw is Ok ==> self.nw->Ok_0.den == den && self.nw->Ok_0.num >= 0
        &&& self.ne is Ok ==> self.ne->Ok_0.den == den && self.ne->Ok_0.num >= 0
        &&& self.sw is Ok ==> self.sw->Ok_0.den == den && self.sw->Ok_0.num >= 0
        &&& self.se is Ok ==> self.se->Ok_0.den == den && self.se->Ok_0.num >= 0
    }

    /// The first failure, if any.
    pub open spec fn first_error(self) -> Option<ErrorView> {
        if self.nw is Err {
            Some(self.nw->Err_0@)
        } else if self.ne is Err {
            Some(self.ne->Err_0@)
        } else if self.sw is Err {
            Some(self.sw->Err_0@)
        } else if self.se is Err {
            Some(self.se->Err_0@)
        } else {
            None
        }
    }

    /// The greatest of four measured distances.
    pub open spec fn greatest(self) -> int {
        let a = self.nw->Ok_0.num as int;
        let b = self.ne->Ok_0.num as int;
        let c = self.sw->Ok_0.num as int;
        let d = self.se->Ok_0.num as int;
        let n = if a >= b {
            a
        } else {
            b
        };
        let s = if c >= d {
            c
        } else {
            d
        };
        if n >= s {
            n
        } else {
            s
        }
    }
}

/// The maximum distance between a tile's surface and its 4 children's.
fn geometric_error(children: Children, Ghost(den): Ghost<int>) -> (r: Result<Height, Error>)
    requires
        children.wf(den),
    ensures
        builder::error_of(r) == children.first_error(),
        r is Ok ==> r->Ok_0.num == children.greatest() && r->Ok_0.den == den,
        r is Ok ==> {
            let (nw, ne) = (children.nw->Ok_0.num, children.ne->Ok_0.num);
            let (sw, se) = (children.sw->Ok_0.num, children.se->Ok_0.num);
            let n = r->Ok_0.num;
            &&& nw <= n && ne <= n && sw <= n && se <= n
            &&& n == nw || n == ne || n == sw || n == se
        },
{
    let mut max: Height = match children.nw {
        Ok(h) => h,
        Err(e) => return Err(e),
    };
    match children.ne {
        Ok(h) => if h.num > max.num {
            max = h;
        },
        Err(e) => return Err(e),
    }
    match children.sw {
        Ok(h) => if h.num > max.num {
            max = h;
        },
        Err(e) => return Err(e),
    }
    match children.se {
        Ok(h) => if h.num > max.num {
            max = h;
        },
        Err(e) => return Err(e),
    }
    Ok(max)
}

/// The metadata of a tile: its own range, and its distance from its
/// children. At [`MAX_ZOOM`] no children exist and there is no distance.
pub fn compute(surface: &Surface, children: Option<Children>) -> (r: Result<TileMetadata, Error>)
    requires
        surface.wf(),
        children is Some <==> surface.tile.zoom < MAX_ZOOM,
        children is Some ==> children->0.wf(
            no_error(surface.tile, surface.source_zoom).den as int,
        ),
    ensures
        builder::error_of(r) == match children {
            Some(c) => c.first_error(),
            None => None,
        },
        r is Ok ==> {
            let m = r->Ok_0;
            &&& m.tile == surface.tile
            &&& m.min_height == surface.min_height
            &&& m.max_height == surface.max_height
            &&& match children {
                Some(c) => {
                    let (nw, ne) = (c.nw->Ok_0.num, c.ne->Ok_0.num);
                    let (sw, se) = (c.sw->Ok_0.num, c.se->Ok_0.num);
                    let n = m.geometric_error.num;
                    &&& n == c.greatest()
                    &&& nw <= n && ne <= n && sw <= n && se <= n
                    &&& n == nw || n == ne || n == sw || n == se
                    &&& m.geometric_error.den == no_error(surface.tile, surface.source_zoom).den
                },
                None => m.geometric_error == (Height { num: 0, den: 1 }),
            }
        },
{
    let error: Height = match children {
        None => Height { num: 0, den: 1 },
        Some(c) => match geometric_error(
            c,
            Ghost(no_error(surface.tile, surface.source_zoom).den as int),
        ) {
            Ok(h) => h,
            Err(e) => return Err(e),
        },
    };
    Ok(
        TileMetadata {
            tile: surface.tile,
            min_height: surface.min_height,
            max_height: surface.max_height,
            geometric_error: error,
        },
    )
}

// -- laws ------------------------------------------------------------------------

/// A surface is at no distance from itself.
pub proof fn law_identical_surfaces_measure_zero(f: HeightField, h: Height)
    requires
        f.wf(),
        is_max_distance(f, f, h),
    ensures
        h.num == 0,
{
}

/// The distance is the same from either side.
pub proof fn law_distance_is_symmetric(a: HeightField, b: HeightField, h: Height)
    requires
        a.wf(),
        b.wf(),
        is_max_distance(a, b, h),
    ensures
        is_max_distance(b, a, h),
{
    assert forall|i: int, j: int| 0 <= i < 256 && 0 <= j < 256 implies #[trigger] distance_at(
        b,
        a,
        i,
        j,
    ) <= h.num by {
        assert(distance_at(a, b, i, j) == distance_at(b, a, i, j));
    }
    let (wi, wj) = choose|i: int, j: int|
        0 <= i < 256 && 0 <= j < 256 && #[trigger] distance_at(a, b, i, j) == h.num;
    assert(distance_at(b, a, wi, wj) == h.num);
}

/// A surface that is another's plus a constant measures exactly that
/// constant.
pub proof fn law_constant_offset_measures_the_offset(
    a: HeightField,
    b: HeightField,
    c: int,
    h: Height,
)
    requires
        a.wf(),
        b.wf(),
        a.window == b.window,
        c >= 0,
        forall|k: int| 0 <= k < a.data@.len() ==> #[trigger] b.data@[k] == a.data@[k] + c,
        is_max_distance(a, b, h),
    ensures
        h.num == c * h.den,
{
    assert forall|i: int, j: int| 0 <= i < 256 && 0 <= j < 256 implies #[trigger] distance_at(
        a,
        b,
        i,
        j,
    ) == c * h.den by {
        lemma_offset_at(a, b, c, i, j);
    }
    let (wi, wj) = choose|i: int, j: int|
        0 <= i < 256 && 0 <= j < 256 && #[trigger] distance_at(a, b, i, j) == h.num;
    assert(distance_at(a, b, wi, wj) == c * h.den);
}

proof fn lemma_offset_at(a: HeightField, b: HeightField, c: int, i: int, j: int)
    requires
        a.wf(),
        b.wf(),
        a.window == b.window,
        c >= 0,
        forall|k: int| 0 <= k < a.data@.len() ==> #[trigger] b.data@[k] == a.data@[k] + c,
        0 <= i < 256,
        0 <= j < 256,
    ensures
        distance_at(a, b, i, j) == c * centre_den(a.window.dz),
{
    let u = centre(i);
    let v = centre(j);
    let sa = a.sample_spec(u, v);
    let sb = b.sample_spec(u, v);
    let dz = a.window.dz;
    lemma_centre_den(a, i, j);
    terrain::lemma_axis_bounds(dz, a.window.qx, u);
    terrain::lemma_axis_bounds(dz, a.window.qy, v);
    let x = terrain::axis_num(dz, a.window.qx, u) / terrain::axis_den(dz, u);
    let y = terrain::axis_num(dz, a.window.qy, v) / terrain::axis_den(dz, v);
    assert forall|p: int, q: int| 0 <= p < 258 && 0 <= q < 258 implies #[trigger] b.texel(p, q)
        == a.texel(p, q) + c by {
        assert(b.data@[q * 258 + p] == a.data@[q * 258 + p] + c);
    }
    assert(sb.nw == sa.nw + c);
    assert(sb.ne == sa.ne + c);
    assert(sb.sw == sa.sw + c);
    assert(sb.se == sa.se + c);
    let (rx, dx, ry, dy) = (sa.x.rem as int, sa.x.den as int, sa.y.rem as int, sa.y.den as int);
    assert(terrain::bilinear(
        sa.nw + c,
        sa.ne + c,
        sa.sw + c,
        sa.se + c,
        rx,
        dx,
        ry,
        dy,
    ) == terrain::bilinear(
        sa.nw as int,
        sa.ne as int,
        sa.sw as int,
        sa.se as int,
        rx,
        dx,
        ry,
        dy,
    ) + c * (dx * dy)) by {
        lemma_bilinear_offset(
            sa.nw as int,
            sa.ne as int,
            sa.sw as int,
            sa.se as int,
            rx,
            dx,
            ry,
            dy,
            c,
        );
    }
    vstd::arithmetic::power2::lemma2_to64();
    assert(pow2((2 * (dz - dz)) as nat) == 1);
    vstd::arithmetic::power2::lemma_pow2_pos((2 * dz + 4) as nat);
    let d = centre_den(dz);
    assert(dx * dy == d);
    assert(c * d >= 0) by (nonlinear_arith)
        requires
            c >= 0,
            d > 0,
    ;
    let ha = sa.height_num();
    let hb = sb.height_num();
    assert(hb == ha + c * d);
    assert(centre_height(a, dz, i, j) == ha * 1);
    assert(centre_height(b, dz, i, j) == hb * 1);
}

proof fn lemma_bilinear_offset(
    nw: int,
    ne: int,
    sw: int,
    se: int,
    rx: int,
    dx: int,
    ry: int,
    dy: int,
    c: int,
)
    ensures
        terrain::bilinear(nw + c, ne + c, sw + c, se + c, rx, dx, ry, dy) == terrain::bilinear(
            nw,
            ne,
            sw,
            se,
            rx,
            dx,
            ry,
            dy,
        ) + c * (dx * dy),
{
    let t = nw * (dx - rx) + ne * rx;
    let b = sw * (dx - rx) + se * rx;
    assert((nw + c) * (dx - rx) + (ne + c) * rx == t + c * dx) by (nonlinear_arith)
        requires
            t == nw * (dx - rx) + ne * rx,
    ;
    assert((sw + c) * (dx - rx) + (se + c) * rx == b + c * dx) by (nonlinear_arith)
        requires
            b == sw * (dx - rx) + se * rx,
    ;
    assert((t + c * dx) * (dy - ry) + (b + c * dx) * ry == t * (dy - ry) + b * ry + c * (dx * dy))
        by (nonlinear_arith);
}

/// Where the children have no finer data than the tile, the tile has no
/// geometric error: there is nothing to refine into.
pub proof fn law_no_finer_data_means_no_error(
    surface: Surface,
    found: spec_fn(u32, u32) -> Result<(Seq<u8>, TileId, Origin), ErrorView>,
    c: Children,
)
    requires
        child_error_follows(surface, 0, 0, found(0, 0), c.nw),
        child_error_follows(surface, 1, 0, found(1, 0), c.ne),
        child_error_follows(surface, 0, 1, found(0, 1), c.sw),
        child_error_follows(surface, 1, 1, found(1, 1), c.se),
        forall|dx: u32, dy: u32|
            #![trigger found(dx, dy)]
            match found(dx, dy) {
                Ok((_, source, _)) => source.zoom <= surface.source_zoom,
                Err(e) => e is NotFound,
            },
    ensures
        c.first_error() is None,
        c.greatest() == 0,
{
    assert(match found(0, 0) {
        Ok((_, source, _)) => source.zoom <= surface.source_zoom,
        Err(e) => e is NotFound,
    });
    assert(match found(1, 0) {
        Ok((_, source, _)) => source.zoom <= surface.source_zoom,
        Err(e) => e is NotFound,
    });
    assert(match found(0, 1) {
        Ok((_, source, _)) => source.zoom <= surface.source_zoom,
        Err(e) => e is NotFound,
    });
    assert(match found(1, 1) {
        Ok((_, source, _)) => source.zoom <= surface.source_zoom,
        Err(e) => e is NotFound,
    });
}

/// Of four measured children the geometric error is the greatest distance:
/// none lies above it, and it is one of them.
pub proof fn law_error_bounds_every_child(c: Children)
    requires
        c.first_error() is None,
    ensures
        c.nw->Ok_0.num <= c.greatest(),
        c.ne->Ok_0.num <= c.greatest(),
        c.sw->Ok_0.num <= c.greatest(),
        c.se->Ok_0.num <= c.greatest(),
        c.greatest() == c.nw->Ok_0.num || c.greatest() == c.ne->Ok_0.num || c.greatest()
            == c.sw->Ok_0.num || c.greatest() == c.se->Ok_0.num,
{
}

/// No measured child hides a failure: a tile is without a geometric error
/// exactly when one of its children failed.
pub proof fn law_any_failed_child_fails_the_tile(c: Children)
    ensures
        c.first_error() is Some <==> c.nw is Err || c.ne is Err || c.sw is Err || c.se is Err,
        c.nw is Err ==> c.first_error() == Some(c.nw->Err_0@),
        c.nw is Ok && c.ne is Err ==> c.first_error() == Some(c.ne->Err_0@),
        c.nw is Ok && c.ne is Ok && c.sw is Err ==> c.first_error() == Some(c.sw->Err_0@),
        c.nw is Ok && c.ne is Ok && c.sw is Ok && c.se is Err ==> c.first_error() == Some(
            c.se->Err_0@,
        ),
{
}

/// Texel `x` of a source and square `q` of the `n` equal ones it splits into
/// have ground in common.
pub open spec fn overlaps(n: nat, q: u32, x: int) -> bool {
    x * n < 256 * (q + 1) && 256 * q < (x + 1) * n
}

/// The height range of a window is that of exactly the texels which have
/// ground in common with it: none of them lies outside the range, and both
/// its ends are heights of such texels.
pub proof fn law_range_is_of_the_windows_texels(
    heights: Seq<i32>,
    dz: u8,
    qx: u32,
    qy: u32,
    lo: i32,
    hi: i32,
)
    requires
        dz <= terrain::MAX_WINDOW_DEPTH,
        is_range(heights, dz, qx, qy, lo, hi),
    ensures
        forall|x: int, y: int|
            overlaps(pow2(dz as nat), qx, x) && overlaps(pow2(dz as nat), qy, y) ==> lo
                <= #[trigger] heights[y * 256 + x] <= hi,
        exists|x: int, y: int|
            overlaps(pow2(dz as nat), qx, x) && overlaps(pow2(dz as nat), qy, y)
                && #[trigger] heights[y * 256 + x] == lo,
        exists|x: int, y: int|
            overlaps(pow2(dz as nat), qx, x) && overlaps(pow2(dz as nat), qy, y)
                && #[trigger] heights[y * 256 + x] == hi,
{
    terrain::lemma_depth_bound(dz as nat);
    let n = pow2(dz as nat);
    assert forall|x: int, y: int| overlaps(n, qx, x) && overlaps(n, qy, y) implies lo
        <= #[trigger] heights[y * 256 + x] <= hi by {
        lemma_overlap(dz, qx, x);
        lemma_overlap(dz, qy, y);
        assert(lo <= terrain::texel(heights, x, y) <= hi);
    }
    let (ax, ay) = choose|x: int, y: int|
        in_block(dz, qx, qy, x, y) && #[trigger] terrain::texel(heights, x, y) == lo;
    lemma_overlap(dz, qx, ax);
    lemma_overlap(dz, qy, ay);
    assert(heights[ay * 256 + ax] == lo);
    let (bx, by) = choose|x: int, y: int|
        in_block(dz, qx, qy, x, y) && #[trigger] terrain::texel(heights, x, y) == hi;
    lemma_overlap(dz, qx, bx);
    lemma_overlap(dz, qy, by);
    assert(heights[by * 256 + bx] == hi);
}

proof fn lemma_overlap(dz: u8, q: u32, x: int)
    requires
        dz <= terrain::MAX_WINDOW_DEPTH,
    ensures
        block_from(dz, q) <= x < block_to(dz, q) <==> overlaps(pow2(dz as nat), q, x),
{
    terrain::lemma_depth_bound(dz as nat);
    let n = pow2(dz as nat) as int;
    let a = 256 * q as int;
    let b = 256 * (q + 1) + n - 1;
    vstd::arithmetic::div_mod::lemma_fundamental_div_mod(a, n);
    vstd::arithmetic::div_mod::lemma_mod_bound(a, n);
    vstd::arithmetic::div_mod::lemma_fundamental_div_mod(b, n);
    vstd::arithmetic::div_mod::lemma_mod_bound(b, n);
    lemma_floor(n, a / n, a % n, x);
    lemma_floor(n, b / n, b % n, x);
    assert((x + 1) * n == x * n + n) by (nonlinear_arith);
}

proof fn lemma_floor(n: int, k: int, r: int, x: int)
    requires
        0 < n,
        0 <= r < n,
    ensures
        k <= x <==> n * k + r < (x + 1) * n,
        x < k <==> (x + 1) * n <= n * k + r,
{
    if k <= x {
        assert(n * k + r < (x + 1) * n) by (nonlinear_arith)
            requires
                k <= x,
                0 < n,
                r < n,
        ;
    } else {
        assert((x + 1) * n <= n * k + r) by (nonlinear_arith)
            requires
                x + 1 <= k,
                0 < n,
                0 <= r,
        ;
    }
}

/// The centre of texel `i`: half a texel behind its edge.
pub open spec fn middle(i: int) -> Coord {
    Coord { num: (2 * i + 1) as i64, den: 2 }
}

/// By how much `a` lies above `b` at the centre of texel `(i, j)`, over the
/// product of the two samples' denominators.
pub open spec fn above_at(a: HeightField, b: HeightField, i: int, j: int) -> int {
    let sa = a.sample_spec(middle(i), middle(j));
    let sb = b.sample_spec(middle(i), middle(j));
    sa.height_num() * (sb.x.den * sb.y.den) - sb.height_num() * (sa.x.den * sa.y.den)
}

/// The product of the denominators that the two surfaces are sampled over.
pub open spec fn common_den(a: HeightField, b: HeightField, i: int, j: int) -> int {
    let sa = a.sample_spec(middle(i), middle(j));
    let sb = b.sample_spec(middle(i), middle(j));
    (sa.x.den * sa.y.den) * (sb.x.den * sb.y.den)
}

/// The measured distance of two surfaces is the greatest difference of their
/// samples at the 256² texel centres: at none do they lie further apart,
/// either one above the other, and at some they lie that far apart. All as
/// fractions, multiplied out.
pub proof fn law_distance_is_the_greatest_difference(a: HeightField, b: HeightField, h: Height)
    requires
        a.wf(),
        b.wf(),
        is_max_distance(a, b, h),
    ensures
        h.den > 0,
        h.num >= 0,
        forall|i: int, j: int|
            0 <= i < 256 && 0 <= j < 256 ==> {
                let up = #[trigger] above_at(a, b, i, j) * h.den;
                let most = h.num * common_den(a, b, i, j);
                up <= most && -up <= most
            },
        exists|i: int, j: int|
            0 <= i < 256 && 0 <= j < 256 && {
                let up = #[trigger] above_at(a, b, i, j) * h.den;
                let most = h.num * common_den(a, b, i, j);
                up == most || -up == most
            },
{
    vstd::arithmetic::power2::lemma_pow2_pos((2 * deeper(a, b) + 4) as nat);
    assert forall|i: int, j: int| 0 <= i < 256 && 0 <= j < 256 implies {
        let up = #[trigger] above_at(a, b, i, j) * h.den;
        let most = h.num * common_den(a, b, i, j);
        up <= most && -up <= most
    } by {
        lemma_multiplied_out(a, b, h, i, j);
        let d = distance_at(a, b, i, j);
        let k = common_den(a, b, i, j);
        assert(d * k <= h.num * k) by (nonlinear_arith)
            requires
                d <= h.num,
                0 < k,
        ;
    }
    let (wi, wj) = choose|i: int, j: int|
        0 <= i < 256 && 0 <= j < 256 && #[trigger] distance_at(a, b, i, j) == h.num;
    lemma_multiplied_out(a, b, h, wi, wj);
    let up = above_at(a, b, wi, wj) * h.den;
    let most = h.num * common_den(a, b, wi, wj);
    assert(up == most || -up == most);
}

proof fn lemma_multiplied_out(a: HeightField, b: HeightField, h: Height, i: int, j: int)
    requires
        a.wf(),
        b.wf(),
        h.den == centre_den(deeper(a, b)),
        0 <= i < 256,
        0 <= j < 256,
    ensures
        ({
            let up = above_at(a, b, i, j) * h.den;
            let d = distance_at(a, b, i, j) * common_den(a, b, i, j);
            &&& up == d || -up == d
            &&& up <= d && -up <= d
            &&& 0 < common_den(a, b, i, j)
            &&& 0 <= distance_at(a, b, i, j)
        }),
{
    let dz = deeper(a, b);
    lemma_centre_den(a, i, j);
    lemma_centre_den(b, i, j);
    let (da, db) = (centre_den(a.window.dz), centre_den(b.window.dz));
    let (ka, kb) = (
        pow2((2 * (dz - a.window.dz)) as nat) as int,
        pow2((2 * (dz - b.window.dz)) as nat) as int,
    );
    vstd::arithmetic::power2::lemma_pow2_adds(
        (2 * a.window.dz + 4) as nat,
        (2 * (dz - a.window.dz)) as nat,
    );
    vstd::arithmetic::power2::lemma_pow2_adds(
        (2 * b.window.dz + 4) as nat,
        (2 * (dz - b.window.dz)) as nat,
    );
    vstd::arithmetic::power2::lemma_pow2_pos((2 * a.window.dz + 4) as nat);
    vstd::arithmetic::power2::lemma_pow2_pos((2 * b.window.dz + 4) as nat);
    let na = a.sample_spec(middle(i), middle(j)).height_num();
    let nb = b.sample_spec(middle(i), middle(j)).height_num();
    let d = h.den as int;
    assert(da * ka == d && db * kb == d);
    assert(0 < da * db) by (nonlinear_arith)
        requires
            0 < da,
            0 < db,
    ;
    let up = na * db - nb * da;
    let ca = na * ka;
    let cb = nb * kb;
    assert((na * db) * (da * ka) == (na * ka) * (da * db)) by (nonlinear_arith);
    assert((nb * da) * (db * kb) == (nb * kb) * (da * db)) by (nonlinear_arith);
    assert(up * d == (na * db) * d - (nb * da) * d) by (nonlinear_arith)
        requires
            up == na * db - nb * da,
    ;
    let k = da * db;
    assert(ca * k - cb * k == (ca - cb) * k) by (nonlinear_arith);
    assert(cb * k - ca * k == (cb - ca) * k) by (nonlinear_arith);
    assert(ca >= cb ==> 0 <= (ca - cb) * k) by (nonlinear_arith)
        requires
            0 < k,
    ;
    assert(cb >= ca ==> 0 <= (cb - ca) * k) by (nonlinear_arith)
        requires
            0 < k,
    ;
}

/// Every texel of a field has the same height.
pub open spec fn is_flat(f: HeightField, height: int) -> bool {
    forall|x: int, y: int|
        0 <= x < 258 && 0 <= y < 258 ==> #[trigger] f.data@[y * 258 + x] == height
}

/// Two flat surfaces, each seen through whatever window, measure exactly the
/// difference of their heights.
pub proof fn law_flat_surfaces_measure_their_difference(
    a: HeightField,
    b: HeightField,
    ha: int,
    hb: int,
    h: Height,
)
    requires
        a.wf(),
        b.wf(),
        is_flat(a, ha),
        is_flat(b, hb),
        is_max_distance(a, b, h),
    ensures
        ha >= hb ==> h.num == (ha - hb) * h.den,
        ha <= hb ==> h.num == (hb - ha) * h.den,
{
    law_distance_is_the_greatest_difference(a, b, h);
    let (i, j) = choose|i: int, j: int|
        0 <= i < 256 && 0 <= j < 256 && {
            let up = #[trigger] above_at(a, b, i, j) * h.den;
            let most = h.num * common_den(a, b, i, j);
            up == most || -up == most
        };
    lemma_flat_sample(a, ha, i, j);
    lemma_flat_sample(b, hb, i, j);
    lemma_centre_den(a, i, j);
    lemma_centre_den(b, i, j);
    vstd::arithmetic::power2::lemma_pow2_pos((2 * a.window.dz + 4) as nat);
    vstd::arithmetic::power2::lemma_pow2_pos((2 * b.window.dz + 4) as nat);
    let (da, db) = (centre_den(a.window.dz), centre_den(b.window.dz));
    let k = da * db;
    assert(0 < k) by (nonlinear_arith)
        requires
            0 < da,
            0 < db,
            k == da * db,
    ;
    let up = above_at(a, b, i, j);
    assert(up == (ha * da) * db - (hb * db) * da);
    assert((ha * da) * db - (hb * db) * da == (ha - hb) * k) by (nonlinear_arith)
        requires
            k == da * db,
    ;
    let d = h.den as int;
    let m = h.num as int;
    let e = ha - hb;
    assert(up * d == (e * d) * k) by (nonlinear_arith)
        requires
            up == e * k,
    ;
    assert(-((e * d) * k) == (-(e * d)) * k) by (nonlinear_arith);
    assert(k * (e * d) == (e * d) * k && k * (-(e * d)) == (-(e * d)) * k && k * m == m * k)
        by (nonlinear_arith);
    if k * (e * d) == k * m {
        vstd::arithmetic::mul::lemma_mul_equality_converse(k, e * d, m);
    } else {
        vstd::arithmetic::mul::lemma_mul_equality_converse(k, -(e * d), m);
    }
    assert(e >= 0 ==> e * d >= 0) by (nonlinear_arith)
        requires
            d > 0,
    ;
    assert(e <= 0 ==> e * d <= 0) by (nonlinear_arith)
        requires
            d > 0,
    ;
    assert((hb - ha) * d == -(e * d)) by (nonlinear_arith)
        requires
            e == ha - hb,
    ;
}

proof fn lemma_flat_sample(f: HeightField, height: int, i: int, j: int)
    requires
        f.wf(),
        is_flat(f, height),
        0 <= i < 256,
        0 <= j < 256,
    ensures
        ({
            let s = f.sample_spec(middle(i), middle(j));
            s.height_num() == height * (s.x.den * s.y.den)
        }),
{
    let (u, v) = (middle(i), middle(j));
    assert forall|x: int, y: int| 0 <= x < 258 && 0 <= y < 258 implies #[trigger] f.data@[y * 258
        + x] == 0 * (x * y) + 0 * x + 0 * y + height by {}
    terrain::law_samples_read_the_windows_place(f, u, v, 0, 0, 0, height);
    let n = pow2(f.window.dz as nat);
    let x = 2 * (256 * f.window.qx * u.den + u.num) + u.den * n;
    let y = 2 * (256 * f.window.qy * v.den + v.num) + v.den * n;
    let (xd, yd) = (2 * (u.den * n), 2 * (v.den * n));
    assert(0 * (x * y) + 0 * (x * yd) + 0 * (xd * y) + height * (xd * yd) == height * (xd * yd));
}

/// The surface of a heightmap is the map itself, texel for texel, its edge
/// texels repeated once around it.
pub proof fn law_surfaces_are_their_maps(f: HeightField, heights: Seq<i32>, w: Window, x: int, y: int)
    requires
        is_surface(f, heights, w),
        0 <= x < 258,
        0 <= y < 258,
    ensures
        f.window == w,
        f.data@[y * 258 + x] == heights[crate::normals::nearest_of(y - 1, 256) * 256
            + crate::normals::nearest_of(x - 1, 256)],
{
    assert(f.texel(x, y) == f.data@[y * 258 + x]);
}

/// A child is measured on its own ground: the tile's surface is looked at
/// where the child lies in the tile's height source, the child's heights
/// where it lies in theirs.
pub proof fn law_children_are_measured_where_they_lie(
    surface: Surface,
    dx: u32,
    dy: u32,
    source: TileId,
    heights: Seq<i32>,
    h: Height,
)
    requires
        surface.wf(),
        surface.tile.zoom < MAX_ZOOM,
        dx < 2,
        dy < 2,
        source.zoom <= surface.tile.zoom + 1,
        measures(surface, dx, dy, source, heights, h),
    ensures
        ({
            let zoom = surface.tile.zoom + 1;
            let (x, y) = (2 * surface.tile.x + dx, 2 * surface.tile.y + dy);
            let coarse = pow2((zoom - surface.source_zoom) as nat) as int;
            let finer = pow2((zoom - source.zoom) as nat) as int;
            exists|parent: HeightField, fine: HeightField|
                {
                    &&& parent.wf()
                    &&& parent.data@ == surface.field.data@
                    &&& parent.window.dz == zoom - surface.source_zoom
                    &&& parent.window.qx == x % coarse
                    &&& parent.window.qy == y % coarse
                    &&& fine.wf()
                    &&& fine.window.dz == zoom - source.zoom
                    &&& fine.window.qx == x % finer
                    &&& fine.window.qy == y % finer
                    &&& forall|i: int, j: int|
                        0 <= i < 256 && 0 <= j < 256 ==> fine.data@[(j + 1) * 258 + (i + 1)]
                            == #[trigger] heights[j * 256 + i]
                    &&& #[trigger] is_max_distance(parent, fine, h)
                }
        }),
{
    let tile = surface.tile;
    let child = tile.child_spec(dx as int, dy as int);
    let (parent, fine) = choose|parent: HeightField, fine: HeightField|
        {
            &&& parent.wf()
            &&& parent.data@ == surface.field.data@
            &&& parent.window == surface.field.window.then_spec(1, dx, dy)
            &&& is_surface(fine, heights, builder::window_of(child, source.zoom))
            &&& #[trigger] is_max_distance(parent, fine, h)
        };
    crate::tile::law_children_descend(tile, dx as int, dy as int);
    crate::tile::lemma_axis_bound(tile.zoom as nat);
    builder::law_child_windows_nest(tile, surface.source_zoom, dx, dy);
    crate::tile::lemma_axis_bound((child.zoom - surface.source_zoom) as nat);
    crate::tile::lemma_axis_bound((child.zoom - source.zoom) as nat);
    assert forall|i: int, j: int| 0 <= i < 256 && 0 <= j < 256 implies fine.data@[(j + 1) * 258 + (
    i + 1)] == #[trigger] heights[j * 256 + i] by {
        law_surfaces_are_their_maps(
            fine,
            heights,
            builder::window_of(child, source.zoom),
            i + 1,
            j + 1,
        );
    }
    assert(is_max_distance(parent, fine, h));
}

/// What a child of a flat tile contributes: nothing where the provider has no
/// heights for it or only those the tile was built from; with finer heights
/// that are flat, too, exactly the difference of the two; any other failure
/// is the outcome.
pub proof fn law_flat_children_contribute_their_difference(
    surface: Surface,
    dx: u32,
    dy: u32,
    found: Result<(Seq<u8>, TileId, Origin), ErrorView>,
    r: Result<Height, Error>,
    own: int,
    theirs: int,
)
    requires
        surface.wf(),
        surface.tile.zoom < MAX_ZOOM,
        dx < 2,
        dy < 2,
        child_error_follows(surface, dx, dy, found, r),
        is_flat(surface.field, own),
    ensures
        match found {
            Err(e) => if e is NotFound {
                r is Ok && r->Ok_0.num == 0
            } else {
                r is Err && r->Err_0@ == e
            },
            Ok((bytes, source, _)) => {
                &&& source.zoom <= surface.source_zoom ==> r is Ok && r->Ok_0.num == 0
                &&& source.zoom > surface.source_zoom ==> match builder::centre_spec(
                    source,
                    bytes,
                ) {
                    Err(e) => r is Err && r->Err_0@ == e,
                    Ok(heights) => r is Ok && ((forall|k: int|
                        0 <= k < 65536 ==> #[trigger] heights[k] == theirs) ==> {
                        &&& own >= theirs ==> r->Ok_0.num == (own - theirs) * r->Ok_0.den
                        &&& own <= theirs ==> r->Ok_0.num == (theirs - own) * r->Ok_0.den
                    }),
                }
            },
        },
{
    if let Ok((bytes, source, _)) = found {
        if source.zoom > surface.source_zoom {
            if let Ok(heights) = builder::centre_spec(source, bytes) {
                if forall|k: int| 0 <= k < 65536 ==> #[trigger] heights[k] == theirs {
                    let h = r->Ok_0;
                    let child = surface.tile.child_spec(dx as int, dy as int);
                    let (parent, fine) = choose|parent: HeightField, fine: HeightField|
                        {
                            &&& parent.wf()
                            &&& parent.data@ == surface.field.data@
                            &&& parent.window == surface.field.window.then_spec(1, dx, dy)
                            &&& is_surface(fine, heights, builder::window_of(child, source.zoom))
                            &&& #[trigger] is_max_distance(parent, fine, h)
                        };
                    assert forall|x: int, y: int| 0 <= x < 258 && 0 <= y < 258 implies #[trigger]
                        fine.data@[y * 258 + x] == theirs by {
                        law_surfaces_are_their_maps(
                            fine,
                            heights,
                            builder::window_of(child, source.zoom),
                            x,
                            y,
                        );
                    }
                    law_flat_surfaces_measure_their_difference(parent, fine, own, theirs, h);
                }
            }
        }
    }
}

/// A tile's metadata is of its own ground: its surface is looked at where the
/// tile lies in its height source, and its height range is that of the
/// source's texels there.
pub proof fn law_metadata_is_of_the_tiles_ground(
    surface: Surface,
    tile: TileId,
    source: TileId,
    heights: Seq<i32>,
)
    requires
        builder::is_source_of(source, tile),
        surface.is_of(tile, source, heights),
    ensures
        ({
            let n = pow2((tile.zoom - source.zoom) as nat);
            let w = surface.field.window;
            &&& surface.tile == tile
            &&& surface.source_zoom == source.zoom
            &&& w.dz == tile.zoom - source.zoom
            &&& tile.x == source.x * n + w.qx
            &&& tile.y == source.y * n + w.qy
            &&& forall|x: int, y: int|
                overlaps(n, w.qx, x) && overlaps(n, w.qy, y) ==> surface.min_height
                    <= #[trigger] heights[y * 256 + x] <= surface.max_height
            &&& exists|x: int, y: int|
                overlaps(n, w.qx, x) && overlaps(n, w.qy, y) && #[trigger] heights[y * 256 + x]
                    == surface.min_height
            &&& exists|x: int, y: int|
                overlaps(n, w.qx, x) && overlaps(n, w.qy, y) && #[trigger] heights[y * 256 + x]
                    == surface.max_height
            &&& forall|i: int, j: int|
                0 <= i < 256 && 0 <= j < 256 ==> surface.field.data@[(j + 1) * 258 + (i + 1)]
                    == #[trigger] heights[j * 256 + i]
        }),
{
    builder::law_windows_are_the_tiles_place(tile, source);
    let w = builder::window_of(tile, source.zoom);
    law_range_is_of_the_windows_texels(
        heights,
        w.dz,
        w.qx,
        w.qy,
        surface.min_height,
        surface.max_height,
    );
    assert forall|i: int, j: int| 0 <= i < 256 && 0 <= j < 256 implies surface.field.data@[(j + 1)
        * 258 + (i + 1)] == #[trigger] heights[j * 256 + i] by {
        law_surfaces_are_their_maps(surface.field, heights, w, i + 1, j + 1);
    }
}

} // verus!
