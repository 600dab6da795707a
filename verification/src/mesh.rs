//! Grid mesh generation: a regular `resolution × resolution` vertex grid over
//! the tile, each vertex with its sample of the padded [`HeightField`].
//!
//! Frame: origin at the tile's north-west corner, `+X` east, `+Z` south,
//! `Y` metres above sea level. Triangles wind counter-clockwise seen from
//! `+Y`. UV `(u, v) = (X/size, Z/size)` — glTF's UV origin is top-left, which
//! matches image row 0 = north for both the imagery and the heightmap, so no
//! flip is needed.

use crate::error::{Error, ErrorView};
use crate::terrain::{Coord, HeightField, Sample};
use crate::terrain;
use crate::tile::two_to;
use vstd::arithmetic::power2::pow2;
use vstd::prelude::*;

verus! {

/// Smallest useful grid: one quad.
pub const MIN_RESOLUTION: u32 = 2;

/// Beyond 257 the grid only interpolates the 256-texel source.
pub const MAX_RESOLUTION: u32 = 257;

/// Number of zoom levels covered by a resolution table (`MIN_ZOOM..=MAX_ZOOM`).
pub const ZOOM_LEVELS: usize = 22;

/// Default vertices per edge, indexed by `zoom - MIN_ZOOM`. Vertex spacing
/// tracks the data: every tile carries 256 source texels while its metre
/// size halves per zoom, so resolution is high for continental tiles (1–7,
/// full source fidelity), the streaming range 8–15 uses two source texels
/// per vertex, and above the heightmap provider's deepest zoom (15) each
/// level covers half as many source texels as the one before.
pub const DEFAULT_RESOLUTIONS: [u32; 22] = [
    257, 257, 257, 257, 257, 257, 257,
    129, 129, 129, 129, 129, 129, 129, 129,
    129, 65, 33, 17, 9, 5, 3,
];

/// The entry of a resolution table for `zoom` (clamped into the supported
/// range).
pub open spec fn table_slot(zoom: u8) -> int {
    terrain::clamp_int(zoom - 1, 21)
}

/// The slot of a resolution table for `zoom`.
pub fn slot(zoom: u8) -> (i: usize)
    ensures
        i == table_slot(zoom),
        i < ZOOM_LEVELS,
{
    if zoom < 1 {
        0
    } else if zoom > 22 {
        21
    } else {
        (zoom - 1) as usize
    }
}

/// The table's entry for `zoom` (clamped into the supported range).
pub fn default_resolution(zoom: u8) -> (r: u32)
    ensures
        r == DEFAULT_RESOLUTIONS@[table_slot(zoom)],
{
    DEFAULT_RESOLUTIONS[slot(zoom)]
}

/// Vertices per edge beyond which a tile `dz` levels below its height source
/// only interpolates.
pub open spec fn ceiling_spec(dz: u8) -> int {
    let texels = 256int / pow2(dz as nat) as int;
    if texels + 1 >= MIN_RESOLUTION {
        texels + 1
    } else {
        MIN_RESOLUTION as int
    }
}

/// Vertices per edge beyond which a tile `dz` levels below its height source
/// only interpolates: it covers `256 >> dz` source texels.
pub fn useful_ceiling(dz: u8) -> (r: u32)
    ensures
        r == ceiling_spec(dz),
        MIN_RESOLUTION <= r <= MAX_RESOLUTION,
{
    proof {
        vstd::arithmetic::power2::lemma2_to64();
        vstd::arithmetic::power2::lemma_pow2_pos(dz as nat);
    }
    if dz > 8 {
        proof {
            vstd::arithmetic::power2::lemma_pow2_strictly_increases(8, dz as nat);
            vstd::arithmetic::div_mod::lemma_basic_div(256, pow2(dz as nat) as int);
        }
        return MIN_RESOLUTION;
    }
    let n: u32 = {
        proof {
            if dz < 8 {
                vstd::arithmetic::power2::lemma_pow2_strictly_increases(dz as nat, 8);
            }
        }
        two_to(dz) as u32
    };
    let texels: u32 = 256 / n;
    proof {
        vstd::arithmetic::div_mod::lemma_div_is_ordered_by_denominator(256, 1, n as int);
        vstd::arithmetic::div_mod::lemma_div_non_zero(256, n as int);
    }
    texels + 1
}

/// A resolution that a grid can have.
pub open spec fn resolution_ok(r: u32) -> bool {
    MIN_RESOLUTION <= r <= MAX_RESOLUTION
}

/// Validate a resolution (vertices per edge).
pub fn check_resolution(resolution: u32) -> (r: Result<(), Error>)
    ensures
        r is Ok <==> resolution_ok(resolution),
        r is Err ==> r->Err_0@ == ErrorView::InvalidResolution(resolution),
{
    if MIN_RESOLUTION <= resolution && resolution <= MAX_RESOLUTION {
        Ok(())
    } else {
        Err(Error::InvalidResolution(resolution))
    }
}

/// One vertex: where on the tile it stands and what the height field holds
/// there.
#[derive(Clone, Copy, Debug, PartialEq, Eq, Structural)]
pub struct Vertex {
    /// West → east.
    pub u: Coord,
    /// North → south.
    pub v: Coord,
    /// The height sample.
    pub sample: Sample,
}

/// Vertex and index arrays of a tile.
#[derive(Clone, Debug)]
pub struct Grid {
    /// Vertices per edge.
    pub resolution: u32,
    /// Row-major (north row first, west first).
    pub vertices: Vec<Vertex>,
    /// Triangle list, counter-clockwise from above.
    pub indices: Vec<u32>,
}

/// Vertex `i` of an edge divided into `r - 1` equal steps.
pub open spec fn lattice(r: int, i: int) -> Coord {
    Coord { num: (256 * i) as i64, den: (r - 1) as i64 }
}

/// Vertex `k` of the row-major grid over `field`.
pub open spec fn vertex_spec(field: HeightField, r: int, k: int) -> Vertex {
    let u = lattice(r, k % r);
    let v = lattice(r, k / r);
    Vertex { u, v, sample: field.sample_spec(u, v) }
}

/// Entry `k` of the triangle list: two triangles a quad, `(a, c, b)` and
/// `(b, c, d)` of its corners `a` NW, `b` NE, `c` SW, `d` SE.
pub open spec fn index_spec(r: int, k: int) -> int {
    let quad = k / 6;
    let a = (quad / (r - 1)) * r + quad % (r - 1);
    let corner = k % 6;
    if corner == 0 {
        a
    } else if corner == 1 || corner == 4 {
        a + r
    } else if corner == 2 || corner == 3 {
        a + 1
    } else {
        a + r + 1
    }
}

impl Grid {
    /// The regular grid of `field` with `r` vertices per edge.
    pub open spec fn is_grid_of(self, field: HeightField, r: u32) -> bool {
        &&& self.resolution == r
        &&& self.vertices@.len() == r * r
        &&& forall|k: int|
            0 <= k < r * r ==> #[trigger] self.vertices@[k] == vertex_spec(field, r as int, k)
        &&& self.has_grid_indices()
    }

    /// The triangles are those of a regular grid with `resolution` vertices
    /// per edge.
    pub open spec fn has_grid_indices(self) -> bool {
        let r = self.resolution;
        &&& self.indices@.len() == 6 * ((r - 1) * (r - 1))
        &&& forall|k: int|
            0 <= k < self.indices@.len() ==> #[trigger] self.indices@[k] == index_spec(r as int, k)
    }

    /// Triangle count.
    pub fn triangles(&self) -> (n: usize)
        ensures
            n == self.indices@.len() / 3,
    {
        self.indices.len() / 3
    }

    /// True when every index fits a `u16` — decides the GLB index type.
    pub fn fits_u16(&self) -> (b: bool)
        ensures
            b == (self.vertices@.len() <= 65536),
    {
        self.vertices.len() <= 65536
    }
}

/// Row and column of a row-major place.
pub proof fn lemma_flat(r: int, i: int, j: int)
    requires
        0 <= i < r,
        0 <= j,
    ensures
        (j * r + i) % r == i,
        (j * r + i) / r == j,
{
    vstd::arithmetic::div_mod::lemma_fundamental_div_mod_converse(j * r + i, r, j, i);
    assert(j * r == r * j) by (nonlinear_arith);
}

fn grid_vertices(field: &HeightField, r: u32) -> (out: Vec<Vertex>)
    requires
        field.wf(),
        resolution_ok(r),
    ensures
        out@.len() == r * r,
        forall|k: int| 0 <= k < r * r ==> #[trigger] out@[k] == vertex_spec(*field, r as int, k),
{
    let n: u32 = r - 1;
    assert(r * r <= 66049) by (nonlinear_arith)
        requires
            2 <= r <= 257,
    ;
    let mut out: Vec<Vertex> = Vec::with_capacity((r * r) as usize);
    let mut j: u32 = 0;
    assert(0 * r == 0) by (nonlinear_arith);
    while j < r
        invariant
            field.wf(),
            resolution_ok(r),
            n == r - 1,
            j <= r,
            out@.len() == j * r,
            forall|k: int|
                0 <= k < j * r ==> #[trigger] out@[k] == vertex_spec(*field, r as int, k),
        decreases r - j,
    {
        let v: Coord = Coord::vertex(j, n);
        let mut i: u32 = 0;
        while i < r
            invariant
                field.wf(),
                resolution_ok(r),
                n == r - 1,
                j < r,
                i <= r,
                v == lattice(r as int, j as int),
                v.on_tile(),
                out@.len() == j * r + i,
                forall|k: int|
                    0 <= k < j * r + i ==> #[trigger] out@[k] == vertex_spec(*field, r as int, k),
            decreases r - i,
        {
            let u: Coord = Coord::vertex(i, n);
            proof {
                lemma_flat(r as int, i as int, j as int);
            }
            out.push(Vertex { u, v, sample: field.sample(u, v) });
            i = i + 1;
        }
        assert((j + 1) * r == j * r + r) by (nonlinear_arith);
        j = j + 1;
    }
    out
}

proof fn lemma_quad_corner(r: int, quad: int, i: int, j: int)
    requires
        2 <= r <= 257,
        0 <= i < r - 1,
        0 <= j < r - 1,
        quad == j * (r - 1) + i,
    ensures
        index_spec(r, 6 * quad) == j * r + i,
        index_spec(r, 6 * quad + 1) == j * r + i + r,
        index_spec(r, 6 * quad + 2) == j * r + i + 1,
        index_spec(r, 6 * quad + 3) == j * r + i + 1,
        index_spec(r, 6 * quad + 4) == j * r + i + r,
        index_spec(r, 6 * quad + 5) == j * r + i + r + 1,
        0 <= j * r + i,
        j * r + i + r + 1 < r * r,
        r * r <= 66049,
{
    lemma_flat(r - 1, i, j);
    assert(0 <= j * r && j * r + i + r + 1 < r * r && r * r <= 66049) by (nonlinear_arith)
        requires
            2 <= r <= 257,
            0 <= i < r - 1,
            0 <= j < r - 1,
    ;
}

fn grid_indices(r: u32) -> (out: Vec<u32>)
    requires
        resolution_ok(r),
    ensures
        out@.len() == 6 * ((r - 1) * (r - 1)),
        forall|k: int| 0 <= k < out@.len() ==> #[trigger] out@[k] == index_spec(r as int, k),
{
    let n: u32 = r - 1;
    assert(n * n <= 65536) by (nonlinear_arith)
        requires
            1 <= n <= 256,
    ;
    let mut out: Vec<u32> = Vec::with_capacity((n * n * 6) as usize);
    let mut j: u32 = 0;
    assert(0 * n == 0) by (nonlinear_arith);
    while j < n
        invariant
            resolution_ok(r),
            n == r - 1,
            j <= n,
            out@.len() == 6 * (j * n),
            forall|k: int| 0 <= k < out@.len() ==> #[trigger] out@[k] == index_spec(r as int, k),
        decreases n - j,
    {
        let mut i: u32 = 0;
        while i < n
            invariant
                resolution_ok(r),
                n == r - 1,
                j < n,
                i <= n,
                out@.len() == 6 * (j * n + i),
                forall|k: int|
                    0 <= k < out@.len() ==> #[trigger] out@[k] == index_spec(r as int, k),
            decreases n - i,
        {
            proof {
                lemma_quad_corner(r as int, j * n + i, i as int, j as int);
            }
            let a: u32 = j * r + i;
            let b: u32 = a + 1;
            let c: u32 = a + r;
            let d: u32 = c + 1;
            out.push(a);
            out.push(c);
            out.push(b);
            out.push(b);
            out.push(c);
            out.push(d);
            i = i + 1;
        }
        assert((j + 1) * n == j * n + n) by (nonlinear_arith);
        j = j + 1;
    }
    out
}

/// Build the grid over `field` with `resolution` vertices per edge.
pub fn build_grid(field: &HeightField, resolution: u32) -> (r: Result<Grid, Error>)
    requires
        field.wf(),
    ensures
        r is Ok <==> resolution_ok(resolution),
        r is Ok ==> r->Ok_0.is_grid_of(*field, resolution),
        r is Err ==> r->Err_0@ == ErrorView::InvalidResolution(resolution),
{
    match check_resolution(resolution) {
        Err(e) => Err(e),
        Ok(()) => {
            let vertices: Vec<Vertex> = grid_vertices(field, resolution);
            let indices: Vec<u32> = grid_indices(resolution);
            Ok(Grid { resolution, vertices, indices })
        },
    }
}

// -- laws ------------------------------------------------------------------------

/// Every entry of the default table is a resolution that a grid can have.
pub proof fn law_default_table_is_valid(zoom: u8)
    ensures
        resolution_ok(DEFAULT_RESOLUTIONS@[table_slot(zoom)]),
{
}

/// Every index of a grid names one of its vertices, and exactly when the
/// vertices number at most 65536 does every index fit 16 bits.
pub proof fn law_indices_are_in_range(field: HeightField, g: Grid, r: u32, k: int)
    requires
        resolution_ok(r),
        g.is_grid_of(field, r),
        0 <= k < g.indices@.len(),
    ensures
        g.indices@[k] < g.vertices@.len(),
        g.vertices@.len() <= 65536 ==> g.indices@[k] <= u16::MAX,
        g.vertices@.len() > 65536 ==> g.indices@.last() > u16::MAX,
{
    let n = r - 1;
    let quad = k / 6;
    lemma_quad_place(n, quad);
    lemma_quad_corner(r as int, quad, quad % n, quad / n);
    assert(k == 6 * quad + k % 6);
    assert(g.indices@[k] == index_spec(r as int, k));
    if g.vertices@.len() > 65536 {
        let last = n * n - 1;
        lemma_quad_place(n, last);
        lemma_quad_corner(r as int, last, last % n, last / n);
        lemma_flat(n, n - 1, n - 1);
        assert((n - 1) * n + (n - 1) == n * n - 1) by (nonlinear_arith);
        assert((n - 1) * r + (n - 1) + r + 1 == r * r - 1) by (nonlinear_arith)
            requires
                n == r - 1,
        ;
        assert(g.indices@.last() == index_spec(r as int, 6 * last + 5));
    }
}

proof fn lemma_quad_place(n: int, quad: int)
    requires
        0 < n,
        0 <= quad < n * n,
    ensures
        0 <= quad % n < n,
        0 <= quad / n < n,
        quad == (quad / n) * n + quad % n,
{
    vstd::arithmetic::div_mod::lemma_fundamental_div_mod(quad, n);
    vstd::arithmetic::div_mod::lemma_mod_bound(quad, n);
    vstd::arithmetic::div_mod::lemma_multiply_divide_lt(quad, n, n);
    vstd::arithmetic::div_mod::lemma_div_pos_is_pos(quad, n);
    assert(n * (quad / n) == (quad / n) * n) by (nonlinear_arith);
}

/// The upward component of a triangle's normal, in grid steps: the `y` of
/// `(b - a) × (c - a)` for the corners `a`, `b`, `c` of a grid with `r`
/// vertices per edge.
pub open spec fn upward(r: int, a: int, b: int, c: int) -> int {
    let (e1x, e1z) = (b % r - a % r, b / r - a / r);
    let (e2x, e2z) = (c % r - a % r, c / r - a / r);
    e1z * e2x - e1x * e2z
}

/// Every triangle of a grid faces up.
pub proof fn law_triangles_face_up(field: HeightField, g: Grid, r: u32, t: int)
    requires
        resolution_ok(r),
        g.is_grid_of(field, r),
        0 <= t < g.indices@.len() / 3,
    ensures
        upward(
            r as int,
            g.indices@[3 * t] as int,
            g.indices@[3 * t + 1] as int,
            g.indices@[3 * t + 2] as int,
        ) > 0,
{
    let n = r - 1;
    let ri = r as int;
    let quad = t / 2;
    lemma_quad_place(n, quad);
    let i = quad % n;
    let j = quad / n;
    lemma_quad_corner(ri, quad, i, j);
    lemma_flat(ri, i, j);
    lemma_flat(ri, i + 1, j);
    lemma_flat(ri, i, j + 1);
    lemma_flat(ri, i + 1, j + 1);
    assert((j + 1) * ri == j * ri + ri) by (nonlinear_arith);
    assert(t == 2 * quad || t == 2 * quad + 1);
    assert(g.indices@[3 * t] == index_spec(ri, 3 * t));
    assert(g.indices@[3 * t + 1] == index_spec(ri, 3 * t + 1));
    assert(g.indices@[3 * t + 2] == index_spec(ri, 3 * t + 2));
    let a = g.indices@[3 * t] as int;
    let b = g.indices@[3 * t + 1] as int;
    let c = g.indices@[3 * t + 2] as int;
    let (e1x, e1z) = (b % ri - a % ri, b / ri - a / ri);
    let (e2x, e2z) = (c % ri - a % ri, c / ri - a / ri);
    if t == 2 * quad {
        assert(3 * t == 6 * quad);
        assert(e1x == 0 && e1z == 1 && e2x == 1 && e2z == 0);
    } else {
        assert(3 * t == 6 * quad + 3);
        assert(e1x == -1 && e1z == 1 && e2x == 0 && e2z == 1);
    }
    assert(e1z * e2x - e1x * e2z == 1) by (nonlinear_arith)
        requires
            (e1x == 0 && e1z == 1 && e2x == 1 && e2z == 0) || (e1x == -1 && e1z == 1 && e2x == 0
                && e2z == 1),
    ;
}

/// Tiles side by side share their boundary vertices exactly: row by row, the
/// last vertex of the western grid and the first of the eastern one have the
/// same height, and stand at the same distance from the north edge.
pub proof fn law_neighbours_share_boundary_vertices(
    fa: HeightField,
    a: Seq<i32>,
    ring_a: Seq<Option<Seq<i32>>>,
    ga: Grid,
    fb: HeightField,
    b: Seq<i32>,
    ring_b: Seq<Option<Seq<i32>>>,
    gb: Grid,
    r: u32,
    j: int,
)
    requires
        resolution_ok(r),
        terrain::is_padded(fa, a, ring_a),
        terrain::is_padded(fb, b, ring_b),
        terrain::side_by_side(a, ring_a, b, ring_b),
        fa.window.dz == fb.window.dz,
        fa.window.qx == pow2(fa.window.dz as nat) - 1,
        fb.window.qx == 0,
        fa.window.qy == fb.window.qy,
        ga.is_grid_of(fa, r),
        gb.is_grid_of(fb, r),
        0 <= j < r,
    ensures
        ({
            let east = ga.vertices@[j * r + (r - 1)];
            let west = gb.vertices@[j * r];
            &&& terrain::alike(east.sample, west.sample)
            &&& east.sample.height_num() == west.sample.height_num()
            &&& east.v == west.v
        }),
{
    let ri = r as int;
    lemma_flat(ri, ri - 1, j);
    lemma_flat(ri, 0, j);
    assert(0 <= j * ri && j * ri + (ri - 1) < ri * ri) by (nonlinear_arith)
        requires
            0 <= j < ri,
            2 <= ri,
    ;
    let v = lattice(ri, j);
    assert(ga.vertices@[j * r + (r - 1)] == vertex_spec(fa, ri, j * ri + (ri - 1)));
    assert(gb.vertices@[j * r + 0] == vertex_spec(fb, ri, j * ri + 0));
    terrain::law_east_west_edge_is_watertight(
        fa,
        a,
        ring_a,
        fb,
        b,
        ring_b,
        (r - 1) as i64,
        v,
    );
}

/// The vertices of a grid stand evenly over the tile: the one in column `i`
/// of row `j`, counted from the north-west, stands at `i / (r - 1)` of the
/// way east and `j / (r - 1)` of the way south, and has the height field's
/// sample there.
pub proof fn law_vertices_stand_evenly(field: HeightField, g: Grid, r: u32, i: int, j: int)
    requires
        resolution_ok(r),
        g.is_grid_of(field, r),
        0 <= i < r,
        0 <= j < r,
    ensures
        g.vertices@.len() == r * r,
        ({
            let v = g.vertices@[j * r + i];
            &&& v.u.on_tile()
            &&& v.v.on_tile()
            &&& v.u.num * (r - 1) == 256 * i * v.u.den
            &&& v.v.num * (r - 1) == 256 * j * v.v.den
            &&& v.sample == field.sample_spec(v.u, v.v)
        }),
{
    let ri = r as int;
    lemma_flat(ri, i, j);
    assert(0 <= j * ri + i < ri * ri) by (nonlinear_arith)
        requires
            0 <= i < ri,
            0 <= j < ri,
    ;
    assert(g.vertices@[j * r + i] == vertex_spec(field, ri, j * ri + i));
    assert(256 * i * (ri - 1) == (256 * i) * (ri - 1)) by (nonlinear_arith);
}

/// The triangles of a grid cover it without gap or overlap: every square of
/// four neighbouring vertices is two of them, split from its north-east to
/// its south-west corner, and there are no others.
pub proof fn law_triangles_cover_the_grid(field: HeightField, g: Grid, r: u32, i: int, j: int)
    requires
        resolution_ok(r),
        g.is_grid_of(field, r),
        0 <= i < r - 1,
        0 <= j < r - 1,
    ensures
        g.indices@.len() == 6 * ((r - 1) * (r - 1)),
        ({
            let at = 6 * (j * (r - 1) + i);
            let nw = j * r + i;
            &&& 0 <= at
            &&& at + 6 <= g.indices@.len()
            &&& g.indices@[at] == nw
            &&& g.indices@[at + 1] == nw + r
            &&& g.indices@[at + 2] == nw + 1
            &&& g.indices@[at + 3] == nw + 1
            &&& g.indices@[at + 4] == nw + r
            &&& g.indices@[at + 5] == nw + r + 1
        }),
{
    let n = r - 1;
    let quad = j * n + i;
    lemma_quad_corner(r as int, quad, i, j);
    assert(0 <= quad && quad + 1 <= n * n) by (nonlinear_arith)
        requires
            0 <= i < n,
            0 <= j < n,
            quad == j * n + i,
    ;
}

/// A tile `dz` zooms below its height source covers `256 / 2^dz` of its
/// texels, and a vertex between any two of them is useful: more are not, and
/// fewer than one square cannot be had.
pub proof fn law_ceiling_is_one_vertex_a_texel(dz: u8)
    ensures
        dz <= 8 ==> (ceiling_spec(dz) - 1) * pow2(dz as nat) == 256,
        dz > 8 ==> ceiling_spec(dz) == 2,
{
    vstd::arithmetic::power2::lemma2_to64();
    vstd::arithmetic::power2::lemma_pow2_pos(dz as nat);
    if dz > 8 {
        vstd::arithmetic::power2::lemma_pow2_strictly_increases(8, dz as nat);
        vstd::arithmetic::div_mod::lemma_basic_div(256, pow2(dz as nat) as int);
    } else {
        lemma_parts_of_256(dz);
    }
}

proof fn lemma_parts_of_256(dz: u8)
    requires
        dz <= 8,
    ensures
        1 <= 256int / pow2(dz as nat) as int,
        (256int / pow2(dz as nat) as int) * pow2(dz as nat) == 256,
{
    vstd::arithmetic::power2::lemma2_to64();
    let n = pow2(dz as nat) as int;
    assert(n == 1 || n == 2 || n == 4 || n == 8 || n == 16 || n == 32 || n == 64 || n == 128 || n
        == 256) by {
        assert(dz == 0 || dz == 1 || dz == 2 || dz == 3 || dz == 4 || dz == 5 || dz == 6 || dz == 7
            || dz == 8);
    }
}

/// A resolution table has one entry for every zoom, the first for zoom 1 and
/// the last for zoom 22; zooms beyond them have those.
pub proof fn law_tables_go_by_zoom(zoom: u8)
    ensures
        1 <= zoom <= 22 ==> table_slot(zoom) == zoom - 1,
        zoom < 1 ==> table_slot(zoom) == 0,
        zoom > 22 ==> table_slot(zoom) == 21,
{
}

/// The default table: every source texel up to zoom 7, every second one up to
/// zoom 15, and above it, where the heights come from zoom 15, one vertex a
/// texel of what the tile covers.
pub proof fn law_default_table_tracks_the_data(zoom: u8)
    requires
        1 <= zoom <= 22,
    ensures
        zoom <= 7 ==> DEFAULT_RESOLUTIONS@[zoom - 1] == 257,
        8 <= zoom <= 15 ==> DEFAULT_RESOLUTIONS@[zoom - 1] == 129,
        zoom > 15 ==> (DEFAULT_RESOLUTIONS@[zoom - 1] - 1) * pow2((zoom - 15) as nat) == 256,
{
    vstd::arithmetic::power2::lemma2_to64();
    if zoom > 15 {
        let r = DEFAULT_RESOLUTIONS@[zoom - 1] - 1;
        let n = pow2((zoom - 15) as nat) as int;
        assert((r == 128 && n == 2) || (r == 64 && n == 4) || (r == 32 && n == 8) || (r == 16 && n
            == 16) || (r == 8 && n == 32) || (r == 4 && n == 64) || (r == 2 && n == 128)) by {
            assert(zoom == 16 || zoom == 17 || zoom == 18 || zoom == 19 || zoom == 20 || zoom == 21
                || zoom == 22);
        }
        assert(r * n == 256) by (nonlinear_arith)
            requires
                (r == 128 && n == 2) || (r == 64 && n == 4) || (r == 32 && n == 8) || (r == 16 && n
                    == 16) || (r == 8 && n == 32) || (r == 4 && n == 64) || (r == 2 && n == 128),
        ;
    }
}

/// A grid has from one to 256 squares an edge.
pub proof fn law_grids_have_one_to_256_squares(r: u32)
    ensures
        resolution_ok(r) <==> 1 <= r - 1 <= 256,
{
}

} // verus!
