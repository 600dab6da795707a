//! Per-vertex normals: decoded from the provider's normal-map tiles, or
//! taken from the padded height field when the provider has none.
//!
//! Map encoding: `n = rgb / 255 · 2 − 1` is a unit vector with **r = east,
//! g = north, b = up** (any alpha channel is ignored). In the tile frame
//! (+X east, +Y up, +Z south) that is `(r, b, −g)`. Vectors are kept in
//! whole 255ths, which is exactly what the map carries; scaling them to unit
//! length is left to whoever renders them.

use crate::codec;
use crate::codec::RgbPixels;
use crate::error::{Error, ErrorView};
use crate::imagery;
use crate::terrain;
use crate::terrain::{Coord, HeightField, Sample, Tap, Window};
use crate::text;
use crate::tile::two_to;
use vstd::arithmetic::power2::pow2;
use vstd::prelude::*;

verus! {

/// A normal in whole 255ths, in the tile frame (+X east, +Y up, +Z south).
#[derive(Clone, Copy, Debug, PartialEq, Eq, Structural)]
pub struct Direction {
    /// East.
    pub x: i32,
    /// Up.
    pub y: i32,
    /// South.
    pub z: i32,
}

/// One map texel as a direction.
pub open spec fn direction_of(p: [u8; 3]) -> Direction {
    Direction {
        x: (2 * p@[0] - 255) as i32,
        y: (2 * p@[2] - 255) as i32,
        z: (255 - 2 * p@[1]) as i32,
    }
}

/// A decoded normal-map tile, texels already in the tile frame, viewed
/// through a [`Window`] exactly like a [`HeightField`].
#[derive(Clone, Debug)]
pub struct NormalMap {
    /// Edge length in texels (providers use 256; any square works).
    pub size: u32,
    /// Row-major directions.
    pub vecs: Vec<Direction>,
    /// The part of the map this tile covers (the whole of it at the source's
    /// zoom).
    pub window: Window,
}

/// Four map texels and where between them a sample lies.
#[derive(Clone, Copy, Debug, PartialEq, Eq, Structural)]
pub struct NormalSample {
    /// West to east.
    pub x: Tap,
    /// North to south.
    pub y: Tap,
    /// The north-west texel.
    pub nw: Direction,
    /// The north-east texel.
    pub ne: Direction,
    /// The south-west texel.
    pub sw: Direction,
    /// The south-east texel.
    pub se: Direction,
}

/// The height samples a normal is differenced from, half a source texel to
/// each side.
#[derive(Clone, Copy, Debug, PartialEq, Eq, Structural)]
pub struct Slopes {
    /// Half a texel east.
    pub east: Sample,
    /// Half a texel west.
    pub west: Sample,
    /// Half a texel south.
    pub south: Sample,
    /// Half a texel north.
    pub north: Sample,
}

/// A map is square and at least two texels wide.
pub open spec fn map_size_ok(w: u32, h: u32) -> bool {
    w == h && w >= 2
}

/// The message for an image that is no normal map.
pub open spec fn map_size_message(w: u32, h: u32) -> Seq<char> {
    "expected a square normal map (≥2 px), got "@ + text::decimal_text(w as nat) + "×"@
        + text::decimal_text(h as nat)
}

/// The directions of a normal-map file, and its edge length.
pub open spec fn map_spec(bytes: Seq<u8>, what: Seq<char>) -> Result<
    (u32, Seq<Direction>),
    ErrorView,
> {
    match codec::loaded_rgb8(bytes) {
        Ok((w, h, pixels)) => map_from_image_spec(w, h, pixels, what),
        Err(e) => Err(imagery::codec_fault(what, e)),
    }
}

/// The directions of a decoded normal map, and its edge length.
pub open spec fn map_from_image_spec(
    w: u32,
    h: u32,
    pixels: Seq<[u8; 3]>,
    what: Seq<char>,
) -> Result<(u32, Seq<Direction>), ErrorView> {
    if map_size_ok(w, h) {
        Ok((w, pixels.map_values(|p: [u8; 3]| direction_of(p))))
    } else {
        Err(ErrorView::Decode { what, reason: map_size_message(w, h) })
    }
}

/// A map result with its texels and its error as models.
pub open spec fn map_view(r: Result<NormalMap, Error>) -> Result<
    (u32, Seq<Direction>),
    ErrorView,
> {
    match r {
        Ok(m) => Ok((m.size, m.vecs@)),
        Err(e) => Err(e@),
    }
}

/// Numerator of a map-space position, texel centres at whole numbers: the
/// window's square `q` of `2^dz`, then `c` 256ths of it, on a map of `size`.
pub open spec fn map_num(size: u32, dz: u8, q: u32, c: Coord) -> int {
    2 * ((256 * q * c.den + c.num) * size) - 256 * (c.den * pow2(dz as nat))
}

/// Denominator of that position.
pub open spec fn map_den(dz: u8, c: Coord) -> int {
    512 * (c.den * pow2(dz as nat))
}

impl NormalMap {
    /// A square map of at least two texels, with the window inside it.
    pub open spec fn wf(self) -> bool {
        self.size >= 2 && self.vecs@.len() == self.size * self.size && self.window.wf()
    }

    /// Texel `(x, y)`, each brought onto the map.
    pub open spec fn texel(self, x: int, y: int) -> Direction {
        let max = self.size - 1;
        self.vecs@[terrain::clamp_int(y, max) * self.size + terrain::clamp_int(x, max)]
    }

    /// The sample at `(u, v)` of the windowed tile.
    pub open spec fn sample_spec(self, u: Coord, v: Coord) -> NormalSample {
        let xn = map_num(self.size, self.window.dz, self.window.qx, u);
        let xd = map_den(self.window.dz, u);
        let yn = map_num(self.size, self.window.dz, self.window.qy, v);
        let yd = map_den(self.window.dz, v);
        let x = xn / xd;
        let y = yn / yd;
        NormalSample {
            x: terrain::tap_of(xn, xd),
            y: terrain::tap_of(yn, yd),
            nw: self.texel(x, y),
            ne: self.texel(x + 1, y),
            sw: self.texel(x, y + 1),
            se: self.texel(x + 1, y + 1),
        }
    }

    /// The map of a decoded image: any square one; each texel mapped from
    /// (east, north, up) into the tile frame.
    pub fn from_image(img: &RgbPixels, what: &str) -> (r: Result<NormalMap, Error>)
        requires
            img.wf(),
        ensures
            map_view(r) == map_from_image_spec(img.width, img.height, img.pixels@, what@),
            r is Ok ==> r->Ok_0.wf() && r->Ok_0.window == (Window { dz: 0, qx: 0, qy: 0 }),
    {
        if img.width != img.height || img.width < 2 {
            let w: String = text::decimal(img.width as u64);
            let h: String = text::decimal(img.height as u64);
            let mut reason: String = text::join3(
                "expected a square normal map (≥2 px), got ",
                w.as_str(),
                "×",
            );
            reason.append(h.as_str());
            return Err(Error::Decode { what: what.to_owned(), reason });
        }
        let count: usize = img.pixels.len();
        let mut vecs: Vec<Direction> = Vec::with_capacity(count);
        let mut k: usize = 0;
        while k < count
            invariant
                k <= count,
                count == img.pixels@.len(),
                vecs@.len() == k,
                forall|i: int| 0 <= i < k ==> #[trigger] vecs@[i] == direction_of(img.pixels@[i]),
            decreases count - k,
        {
            let p: [u8; 3] = img.pixels[k];
            vecs.push(
                Direction {
                    x: 2 * p[0] as i32 - 255,
                    y: 2 * p[2] as i32 - 255,
                    z: 255 - 2 * p[1] as i32,
                },
            );
            k = k + 1;
        }
        assert(vecs@ =~= img.pixels@.map_values(|p: [u8; 3]| direction_of(p)));
        Ok(NormalMap { size: img.width, vecs, window: Window::full() })
    }

    /// Decode a provider normal tile: any square RGB(A) image.
    pub fn decode(bytes: &[u8], what: &str) -> (r: Result<NormalMap, Error>)
        ensures
            map_view(r) == map_spec(bytes@, what@),
            r is Ok ==> r->Ok_0.wf() && r->Ok_0.window == (Window { dz: 0, qx: 0, qy: 0 }),
    {
        match codec::load_rgb8(bytes) {
            Ok(img) => NormalMap::from_image(&img, what),
            Err(e) => Err(imagery::codec_error(what, &e)),
        }
    }

    /// The view of this map covering the descendant tile at window offset
    /// `(qx, qy)`, `dz` zoom levels deeper. Composes with an existing window,
    /// as [`HeightField::windowed`] does.
    pub fn windowed(&self, dz: u8, qx: u32, qy: u32) -> (m: NormalMap)
        requires
            self.wf(),
            self.window.dz + dz <= terrain::MAX_WINDOW_DEPTH,
            qx < pow2(dz as nat),
            qy < pow2(dz as nat),
        ensures
            m.wf(),
            m.size == self.size,
            m.vecs@ == self.vecs@,
            m.window == self.window.then_spec(dz, qx, qy),
    {
        let vecs: Vec<Direction> = self.vecs.clone();
        assert(vecs@ =~= self.vecs@);
        NormalMap { size: self.size, vecs, window: self.window.within(dz, qx, qy) }
    }

    /// Texel `(x, y)`, each brought onto the map.
    fn clamped(&self, x: i64, y: i64) -> (d: Direction)
        requires
            self.wf(),
        ensures
            d == self.texel(x as int, y as int),
    {
        let max: i64 = self.size as i64 - 1;
        let cx: i64 = if x < 0 {
            0
        } else if x > max {
            max
        } else {
            x
        };
        let cy: i64 = if y < 0 {
            0
        } else if y > max {
            max
        } else {
            y
        };
        let n: i64 = self.size as i64;
        assert(0 <= cy * n && cy * n + cx < n * n && n * n <= 0xffff_ffff * 0xffff_ffff)
            by (nonlinear_arith)
            requires
                0 <= cx < n,
                0 <= cy < n,
                n <= 0xffff_ffff,
        ;
        let len: usize = self.vecs.len();
        assert(cy * n + cx < len);
        self.vecs[cy as usize * self.size as usize + cx as usize]
    }

    /// The four texels around tile coordinates `(u, v)`, through the window.
    /// Texel centres sit at `(i + 0.5) / size`; there is no pad ring (unlike
    /// heights), so the edges clamp — a boundary vertex may shade up to half
    /// a texel differently from its neighbour tile.
    pub fn sample(&self, u: Coord, v: Coord) -> (s: NormalSample)
        requires
            self.wf(),
            u.on_tile(),
            v.on_tile(),
        ensures
            s == self.sample_spec(u, v),
    {
        let x: Tap = map_tap(self.size, self.window.dz, self.window.qx, u);
        let y: Tap = map_tap(self.size, self.window.dz, self.window.qy, v);
        NormalSample {
            x,
            y,
            nw: self.clamped(x.index, y.index),
            ne: self.clamped(x.index + 1, y.index),
            sw: self.clamped(x.index, y.index + 1),
            se: self.clamped(x.index + 1, y.index + 1),
        }
    }
}

/// The tap of `c` along one axis of a map.
fn map_tap(size: u32, dz: u8, q: u32, c: Coord) -> (t: Tap)
    requires
        2 <= size,
        dz <= terrain::MAX_WINDOW_DEPTH,
        q < pow2(dz as nat),
        c.on_tile(),
    ensures
        t == terrain::tap_of(map_num(size, dz, q, c), map_den(dz, c)),
        t.index == map_num(size, dz, q, c) / map_den(dz, c),
        t.rem == map_num(size, dz, q, c) % map_den(dz, c),
        -1 <= t.index <= size,
{
    proof {
        terrain::lemma_axis_bounds(dz, q, c);
        terrain::lemma_depth_bound(dz as nat);
    }
    let n: i128 = two_to(dz) as i128;
    let span: i128 = c.den as i128 * n;
    let at: i128 = 256 * q as i128 * c.den as i128 + c.num as i128;
    let ghost p = c.den * pow2(dz as nat);
    proof {
        assert(0 <= at * size <= 256 * (p * size)) by (nonlinear_arith)
            requires
                0 <= at <= 256 * p,
                0 <= size,
        ;
        assert(p * size <= 0x100_0000_0000 * 0xffff_ffff) by (nonlinear_arith)
            requires
                0 <= p <= 0x100_0000_0000,
                0 <= size <= 0xffff_ffff,
        ;
    }
    let num: i128 = 2 * (at * size as i128) - 256 * span;
    let den: i128 = 512 * span;
    assert(num == map_num(size, dz, q, c));
    assert(den == map_den(dz, c));
    let ghost k = (num + den) / (den as int);
    proof {
        assert(0 <= num + den);
        assert(num < size * den) by (nonlinear_arith)
            requires
                num <= 512 * (p * size) - 256 * p,
                den == 512 * p,
                0 < p,
        ;
        vstd::arithmetic::div_mod::lemma_div_pos_is_pos(num + den, den as int);
        assert((size + 1) * den == size * den + den) by (nonlinear_arith);
        assert(num + den < den * (size + 1)) by (nonlinear_arith)
            requires
                num + den < (size + 1) * den,
        ;
        vstd::arithmetic::div_mod::lemma_multiply_divide_lt(num + den, den as int, size + 1);
        vstd::arithmetic::div_mod::lemma_hoist_over_denominator(num as int, 1, den as nat);
        vstd::arithmetic::div_mod::lemma_mod_add_multiples_vanish(num as int, den as int);
        vstd::arithmetic::div_mod::lemma_mod_bound(num as int, den as int);
    }
    let index: i128 = (num + den) / den - 1;
    let rem: i128 = (num + den) % den;
    Tap { index: index as i64, rem: rem as i64, den: den as i64 }
}

/// The samples a normal is differenced from at tile coordinates `(u, v)`:
/// half a source texel to each side over the *padded* field, so a boundary
/// vertex reads the same texels from both sides of an edge.
pub open spec fn slopes_spec(field: HeightField, u: Coord, v: Coord) -> Slopes {
    let w = field.window;
    let xn = terrain::axis_num(w.dz, w.qx, u);
    let xd = terrain::axis_den(w.dz, u);
    let yn = terrain::axis_num(w.dz, w.qy, v);
    let yd = terrain::axis_den(w.dz, v);
    Slopes {
        east: field.sample_at(xn + xd / 2, xd, yn, yd),
        west: field.sample_at(xn - xd / 2, xd, yn, yd),
        south: field.sample_at(xn, xd, yn + yd / 2, yd),
        north: field.sample_at(xn, xd, yn - yd / 2, yd),
    }
}

/// The samples that a normal at tile coordinates `(u, v)` is differenced
/// from: half a source texel to each side over the padded field.
pub fn from_heights(field: &HeightField, u: Coord, v: Coord) -> (s: Slopes)
    requires
        field.wf(),
        u.on_tile(),
        v.on_tile(),
    ensures
        s == slopes_spec(*field, u, v),
        s.east.wf() && s.west.wf() && s.south.wf() && s.north.wf(),
{
    let (xn, xd): (i64, i64) = terrain::axis(field.window.dz, field.window.qx, u);
    let (yn, yd): (i64, i64) = terrain::axis(field.window.dz, field.window.qy, v);
    Slopes {
        east: field.sample_raw(xn + xd / 2, xd, yn, yd),
        west: field.sample_raw(xn - xd / 2, xd, yn, yd),
        south: field.sample_raw(xn, xd, yn + yd / 2, yd),
        north: field.sample_raw(xn, xd, yn - yd / 2, yd),
    }
}

// -- laws ------------------------------------------------------------------------

/// Two samples show the same height.
pub open spec fn same_height(a: Sample, b: Sample) -> bool {
    a.height_num() == b.height_num() && a.x.den == b.x.den && a.y.den == b.y.den
}

/// All four samples that a normal is differenced from show the same heights.
pub open spec fn same_slopes(a: Slopes, b: Slopes) -> bool {
    &&& same_height(a.east, b.east)
    &&& same_height(a.west, b.west)
    &&& same_height(a.south, b.south)
    &&& same_height(a.north, b.north)
}

/// Normals taken from the heights are watertight where the heights are: at
/// any point of an edge between a west and an east tile, all four samples a
/// normal is differenced from agree.
pub proof fn law_slopes_are_watertight(
    fa: HeightField,
    a: Seq<i32>,
    ring_a: Seq<Option<Seq<i32>>>,
    fb: HeightField,
    b: Seq<i32>,
    ring_b: Seq<Option<Seq<i32>>>,
    den: i64,
    v: Coord,
)
    requires
        terrain::is_padded(fa, a, ring_a),
        terrain::is_padded(fb, b, ring_b),
        terrain::side_by_side(a, ring_a, b, ring_b),
        fa.window.dz == fb.window.dz,
        fa.window.qx == pow2(fa.window.dz as nat) - 1,
        fb.window.qx == 0,
        fa.window.qy == fb.window.qy,
        0 < den <= terrain::MAX_COORD_DEN,
        v.on_tile(),
    ensures
        ({
            let sa = slopes_spec(fa, Coord { num: (256 * den) as i64, den }, v);
            let sb = slopes_spec(fb, Coord { num: 0, den }, v);
            same_slopes(sa, sb)
        }),
{
    let dz = fa.window.dz;
    let n = pow2(dz as nat) as int;
    let d = den as int;
    let ua = Coord { num: (256 * den) as i64, den };
    let ub = Coord { num: 0, den };
    terrain::lemma_depth_bound(dz as nat);
    terrain::lemma_axis_bounds(dz, fa.window.qx, ua);
    terrain::lemma_axis_bounds(dz, fb.window.qx, ub);
    terrain::lemma_axis_bounds(dz, fa.window.qy, v);
    assert(256 * (n - 1) * d + 256 * d == 256 * (d * n)) by (nonlinear_arith);
    assert(256 * 0 * d == 0) by (nonlinear_arith);
    let xd = terrain::axis_den(dz, ua);
    let p = d * n;
    let xa = terrain::axis_num(dz, fa.window.qx, ua);
    let xb = terrain::axis_num(dz, fb.window.qx, ub);
    assert(xd == 2 * p && xa == 256 * xd + p && xb == p);
    lemma_split(xd, 257, 0, xa + xd / 2);
    lemma_split(xd, 1, 0, xb + xd / 2);
    lemma_split(xd, 256, 0, xa - xd / 2);
    lemma_split(xd, 0, 0, xb - xd / 2);
    lemma_split(xd, 256, p, xa);
    lemma_split(xd, 0, p, xb);
    let yn = terrain::axis_num(dz, fa.window.qy, v);
    let yd = terrain::axis_den(dz, v);
    lemma_same_column_height(fa, a, ring_a, fb, b, ring_b, xa + xd / 2, xb + xd / 2, xd, yn, yd);
    lemma_same_column_height(fa, a, ring_a, fb, b, ring_b, xa - xd / 2, xb - xd / 2, xd, yn, yd);
    lemma_same_column_height(fa, a, ring_a, fb, b, ring_b, xa, xb, xd, yn + yd / 2, yd);
    lemma_same_column_height(fa, a, ring_a, fb, b, ring_b, xa, xb, xd, yn - yd / 2, yd);
}

/// The columns that a normal at `u` reads tell nothing of the two tiles
/// beyond either end of a southern edge: an end column is read only where
/// both tiles there are present or both are missing.
pub open spec fn slope_ends_agree(ring: Seq<Option<Seq<i32>>>, w: Window, u: Coord) -> bool {
    let xn = terrain::axis_num(w.dz, w.qx, u);
    let xd = terrain::axis_den(w.dz, u);
    &&& (xn - xd / 2) / xd == 0 ==> (ring[3] is Some) == (ring[5] is Some)
    &&& (xn + xd / 2) / xd >= 256 ==> (ring[4] is Some) == (ring[7] is Some)
}

/// Normals taken from the heights are watertight north to south, too.
pub proof fn law_slopes_are_watertight_below(
    fa: HeightField,
    a: Seq<i32>,
    ring_a: Seq<Option<Seq<i32>>>,
    fb: HeightField,
    b: Seq<i32>,
    ring_b: Seq<Option<Seq<i32>>>,
    den: i64,
    u: Coord,
)
    requires
        terrain::is_padded(fa, a, ring_a),
        terrain::is_padded(fb, b, ring_b),
        terrain::stacked(a, ring_a, b, ring_b),
        fa.window.dz == fb.window.dz,
        fa.window.qy == pow2(fa.window.dz as nat) - 1,
        fb.window.qy == 0,
        fa.window.qx == fb.window.qx,
        0 < den <= terrain::MAX_COORD_DEN,
        u.on_tile(),
        slope_ends_agree(ring_a, fa.window, u),
    ensures
        ({
            let sa = slopes_spec(fa, u, Coord { num: (256 * den) as i64, den });
            let sb = slopes_spec(fb, u, Coord { num: 0, den });
            same_slopes(sa, sb)
        }),
{
    let dz = fa.window.dz;
    let n = pow2(dz as nat) as int;
    let d = den as int;
    let va = Coord { num: (256 * den) as i64, den };
    let vb = Coord { num: 0, den };
    terrain::lemma_depth_bound(dz as nat);
    terrain::lemma_axis_bounds(dz, fa.window.qy, va);
    terrain::lemma_axis_bounds(dz, fb.window.qy, vb);
    terrain::lemma_axis_bounds(dz, fa.window.qx, u);
    assert(256 * (n - 1) * d + 256 * d == 256 * (d * n)) by (nonlinear_arith);
    assert(256 * 0 * d == 0) by (nonlinear_arith);
    let yd = terrain::axis_den(dz, va);
    let p = d * n;
    let ya = terrain::axis_num(dz, fa.window.qy, va);
    let yb = terrain::axis_num(dz, fb.window.qy, vb);
    assert(yd == 2 * p && ya == 256 * yd + p && yb == p);
    lemma_split(yd, 257, 0, ya + yd / 2);
    lemma_split(yd, 1, 0, yb + yd / 2);
    lemma_split(yd, 256, 0, ya - yd / 2);
    lemma_split(yd, 0, 0, yb - yd / 2);
    lemma_split(yd, 256, p, ya);
    lemma_split(yd, 0, p, yb);
    let xn = terrain::axis_num(dz, fa.window.qx, u);
    let xd = terrain::axis_den(dz, u);
    let h = xd / 2;
    assert(0 < xd && 0 <= h && 0 <= xn - h);
    vstd::arithmetic::div_mod::lemma_div_is_ordered(xn - h, xn, xd);
    vstd::arithmetic::div_mod::lemma_div_is_ordered(xn, xn + h, xd);
    vstd::arithmetic::div_mod::lemma_div_pos_is_pos(xn - h, xd);
    lemma_half_steps(xn, xd);
    lemma_same_row_height(fa, a, ring_a, fb, b, ring_b, xn + h, xd, ya, yb, yd);
    lemma_same_row_height(fa, a, ring_a, fb, b, ring_b, xn - h, xd, ya, yb, yd);
    lemma_same_row_height(fa, a, ring_a, fb, b, ring_b, xn, xd, ya + yd / 2, yb + yd / 2, yd);
    lemma_same_row_height(fa, a, ring_a, fb, b, ring_b, xn, xd, ya - yd / 2, yb - yd / 2, yd);
}

/// Half a texel further west lies an end column of the west where there is
/// one; likewise of the east.
proof fn lemma_half_steps(xn: int, xd: int)
    requires
        0 < xd,
        xd / 2 <= xn,
    ensures
        xn / xd == 0 ==> (xn - xd / 2) / xd == 0,
        (xn + xd / 2) / xd == 0 ==> (xn - xd / 2) / xd == 0,
        (xn - xd / 2) / xd >= 256 ==> (xn + xd / 2) / xd >= 256,
        xn / xd >= 256 ==> (xn + xd / 2) / xd >= 256,
{
    let h = xd / 2;
    vstd::arithmetic::div_mod::lemma_div_is_ordered(xn - h, xn, xd);
    vstd::arithmetic::div_mod::lemma_div_is_ordered(xn, xn + h, xd);
    vstd::arithmetic::div_mod::lemma_div_pos_is_pos(xn - h, xd);
}

/// Samples of two fields one above the other at the same place of their edge.
proof fn lemma_same_row_height(
    fa: HeightField,
    a: Seq<i32>,
    ring_a: Seq<Option<Seq<i32>>>,
    fb: HeightField,
    b: Seq<i32>,
    ring_b: Seq<Option<Seq<i32>>>,
    xn: int,
    xd: int,
    ya: int,
    yb: int,
    yd: int,
)
    requires
        terrain::is_padded(fa, a, ring_a),
        terrain::is_padded(fb, b, ring_b),
        terrain::stacked(a, ring_a, b, ring_b),
        0 < xd <= 0x200_0000_0000,
        0 < yd <= 0x200_0000_0000,
        0 <= xn,
        xn / xd == 0 ==> (ring_a[3] is Some) == (ring_a[5] is Some),
        xn / xd >= 256 ==> (ring_a[4] is Some) == (ring_a[7] is Some),
        ya / yd == yb / yd + 256,
        ya % yd == yb % yd,
        yb / yd == 0 || (yb / yd == 1 && yb % yd == 0),
    ensures
        same_height(fa.sample_at(xn, xd, ya, yd), fb.sample_at(xn, xd, yb, yd)),
{
    let x = xn / xd;
    vstd::arithmetic::div_mod::lemma_div_pos_is_pos(xn, xd);
    let x0 = terrain::clamp_int(x, 257);
    let x1 = terrain::clamp_int(x + 1, 257);
    terrain::law_north_south_pads_agree(a, ring_a, b, ring_b, x0);
    terrain::law_north_south_pads_agree(a, ring_a, b, ring_b, x1);
    assert(fa.texel(x0, 256) == fb.texel(x0, 0));
    assert(fa.texel(x0, 257) == fb.texel(x0, 1));
    assert(fa.texel(x1, 256) == fb.texel(x1, 0));
    assert(fa.texel(x1, 257) == fb.texel(x1, 1));
    vstd::arithmetic::div_mod::lemma_mod_bound(yb, yd);
    let sa = fa.sample_at(xn, xd, ya, yd);
    let sb = fb.sample_at(xn, xd, yb, yd);
    if yb / yd == 1 {
        let (ta, tb) = (
            sa.sw * (sa.x.den - sa.x.rem) + sa.se * sa.x.rem,
            sb.sw * (sb.x.den - sb.x.rem) + sb.se * sb.x.rem,
        );
        assert(ta * 0 == 0 && tb * 0 == 0);
    }
}

proof fn lemma_split(d: int, q: int, r: int, num: int)
    requires
        0 <= r < d,
        num == q * d + r,
    ensures
        num / d == q,
        num % d == r,
{
    assert(q * d == d * q) by (nonlinear_arith);
    vstd::arithmetic::div_mod::lemma_fundamental_div_mod_converse(num, d, q, r);
}

/// Samples of two fields side by side at the same place of their edge.
proof fn lemma_same_column_height(
    fa: HeightField,
    a: Seq<i32>,
    ring_a: Seq<Option<Seq<i32>>>,
    fb: HeightField,
    b: Seq<i32>,
    ring_b: Seq<Option<Seq<i32>>>,
    xa: int,
    xb: int,
    xd: int,
    yn: int,
    yd: int,
)
    requires
        terrain::is_padded(fa, a, ring_a),
        terrain::is_padded(fb, b, ring_b),
        terrain::side_by_side(a, ring_a, b, ring_b),
        0 < xd <= 0x200_0000_0000,
        0 < yd <= 0x200_0000_0000,
        0 <= yn,
        xa / xd == xb / xd + 256,
        xa % xd == xb % xd,
        xb / xd == 0 || (xb / xd == 1 && xb % xd == 0),
    ensures
        same_height(fa.sample_at(xa, xd, yn, yd), fb.sample_at(xb, xd, yn, yd)),
{
    let y = yn / yd;
    vstd::arithmetic::div_mod::lemma_div_pos_is_pos(yn, yd);
    let y0 = terrain::clamp_int(y, 257);
    let y1 = terrain::clamp_int(y + 1, 257);
    terrain::law_east_west_pads_agree(a, ring_a, b, ring_b, y0);
    terrain::law_east_west_pads_agree(a, ring_a, b, ring_b, y1);
    assert(fa.texel(256, y0) == fb.texel(0, y0));
    assert(fa.texel(257, y0) == fb.texel(1, y0));
    assert(fa.texel(256, y1) == fb.texel(0, y1));
    assert(fa.texel(257, y1) == fb.texel(1, y1));
    vstd::arithmetic::div_mod::lemma_mod_bound(xb, xd);
    let sa = fa.sample_at(xa, xd, yn, yd);
    let sb = fb.sample_at(xb, xd, yn, yd);
    if xb / xd == 1 {
        assert(sa.ne * 0 == 0 && sa.se * 0 == 0 && sb.ne * 0 == 0 && sb.se * 0 == 0);
    }
}

/// A window only chooses where a map is looked at: a sample at `(u, v)` of
/// the square `(qx, qy)`, `dz` levels down, is the map's own sample at
/// `(qx·256 + u) / 2^dz` from the west and `(qy·256 + v) / 2^dz` from the
/// north.
pub proof fn law_windows_choose_the_place(
    m: NormalMap,
    w: NormalMap,
    dz: u8,
    qx: u32,
    qy: u32,
    u: Coord,
    v: Coord,
)
    requires
        m.wf(),
        m.window.dz + dz <= terrain::MAX_WINDOW_DEPTH,
        qx < pow2(dz as nat),
        qy < pow2(dz as nat),
        w.size == m.size,
        w.vecs@ == m.vecs@,
        w.window == m.window.then_spec(dz, qx, qy),
        u.on_tile(),
        v.on_tile(),
    ensures
        w.window.dz == m.window.dz + dz,
        w.sample_spec(u, v) == m.sample_spec(
            Coord {
                num: (256 * qx * u.den + u.num) as i64,
                den: (u.den * pow2(dz as nat)) as i64,
            },
            Coord {
                num: (256 * qy * v.den + v.num) as i64,
                den: (v.den * pow2(dz as nat)) as i64,
            },
        ),
{
    terrain::lemma_window_then(m.window, dz, qx, qy);
    terrain::lemma_axis_bounds(dz, qx, u);
    terrain::lemma_axis_bounds(dz, qy, v);
    lemma_shifted(m.size, m.window, dz, m.window.qx, qx, u);
    lemma_shifted(m.size, m.window, dz, m.window.qy, qy, v);
}

proof fn lemma_shifted(size: u32, w: Window, dz: u8, q0: u32, q: u32, c: Coord)
    requires
        w.wf(),
        w.dz + dz <= terrain::MAX_WINDOW_DEPTH,
        q0 * pow2(dz as nat) + q <= u32::MAX,
        0 <= 256 * q * c.den + c.num <= i64::MAX,
        0 < c.den * pow2(dz as nat) <= i64::MAX,
    ensures
        ({
            let there = Coord {
                num: (256 * q * c.den + c.num) as i64,
                den: (c.den * pow2(dz as nat)) as i64,
            };
            let both = (w.dz + dz) as u8;
            let at = (q0 * pow2(dz as nat) + q) as u32;
            &&& map_num(size, both, at, c) == map_num(size, w.dz, q0, there)
            &&& map_den(both, c) == map_den(w.dz, there)
        }),
{
    let n = pow2(dz as nat) as int;
    let k = pow2(w.dz as nat) as int;
    let d = c.den as int;
    let q0i = q0 as int;
    let qi = q as int;
    vstd::arithmetic::power2::lemma_pow2_adds(w.dz as nat, dz as nat);
    assert(256 * (q0i * n + qi) * d == 256 * q0i * (d * n) + 256 * qi * d) by (nonlinear_arith);
    assert(d * (k * n) == (d * n) * k) by (nonlinear_arith);
}

/// The place nearest to `k` among `n` in a row.
pub open spec fn nearest_of(k: int, n: int) -> int {
    if k < 0 {
        0
    } else if k >= n {
        n - 1
    } else {
        k
    }
}

/// A sample of a map lies between the texels around its place. Along either
/// axis the place is `size · (256·q + c) / (256 · 2^dz)` texels from the
/// edge, the texels' centres half a texel in; the four texels are those to
/// the north-west, north-east, south-west and south-east of it, the map's
/// last ones standing for what lies beyond its edges.
pub proof fn law_samples_lie_between_their_texels(m: NormalMap, u: Coord, v: Coord)
    requires
        m.wf(),
        u.on_tile(),
        v.on_tile(),
    ensures
        ({
            let s = m.sample_spec(u, v);
            let n = pow2(m.window.dz as nat);
            let size = m.size as int;
            let (w, e) = (nearest_of(s.x.index as int, size), nearest_of(s.x.index + 1, size));
            let (t, b) = (nearest_of(s.y.index as int, size), nearest_of(s.y.index + 1, size));
            &&& s.x.den == 512 * (u.den * n)
            &&& s.y.den == 512 * (v.den * n)
            &&& 0 <= s.x.rem < s.x.den
            &&& 0 <= s.y.rem < s.y.den
            &&& 2 * (s.x.index * s.x.den + s.x.rem) + s.x.den == 4 * ((256 * m.window.qx * u.den
                + u.num) * size)
            &&& 2 * (s.y.index * s.y.den + s.y.rem) + s.y.den == 4 * ((256 * m.window.qy * v.den
                + v.num) * size)
            &&& s.nw == m.vecs@[t * size + w]
            &&& s.ne == m.vecs@[t * size + e]
            &&& s.sw == m.vecs@[b * size + w]
            &&& s.se == m.vecs@[b * size + e]
        }),
{
    lemma_place(m.size, m.window.dz, m.window.qx, u);
    lemma_place(m.size, m.window.dz, m.window.qy, v);
}

proof fn lemma_place(size: u32, dz: u8, q: u32, c: Coord)
    requires
        2 <= size,
        dz <= terrain::MAX_WINDOW_DEPTH,
        q < pow2(dz as nat),
        c.on_tile(),
    ensures
        ({
            let t = terrain::tap_of(map_num(size, dz, q, c), map_den(dz, c));
            &&& t.den == 512 * (c.den * pow2(dz as nat))
            &&& t.index == map_num(size, dz, q, c) / map_den(dz, c)
            &&& 0 <= t.rem < t.den
            &&& 2 * (t.index * t.den + t.rem) + t.den == 4 * ((256 * q * c.den + c.num) * size)
        }),
{
    terrain::lemma_axis_bounds(dz, q, c);
    terrain::lemma_depth_bound(dz as nat);
    let p = c.den * pow2(dz as nat);
    let at = 256 * q * c.den + c.num;
    let num = map_num(size, dz, q, c);
    let den = map_den(dz, c);
    assert(0 <= at * size <= 256 * (p * size)) by (nonlinear_arith)
        requires
            0 <= at <= 256 * p,
            0 <= size,
    ;
    assert(num < size * den) by (nonlinear_arith)
        requires
            num <= 512 * (p * size) - 256 * p,
            den == 512 * p,
            0 < p,
    ;
    assert(num < den * size) by (nonlinear_arith)
        requires
            num < size * den,
    ;
    vstd::arithmetic::div_mod::lemma_fundamental_div_mod(num, den);
    vstd::arithmetic::div_mod::lemma_mod_bound(num, den);
    let k = num / den;
    assert(k < size) by (nonlinear_arith)
        requires
            num == den * k + num % den,
            0 <= num % den,
            num < den * size,
            0 < den,
    ;
    assert(-2 < k) by (nonlinear_arith)
        requires
            num == den * k + num % den,
            num % den < den,
            -den <= num,
            0 < den,
    ;
    assert(den * k == k * den) by (nonlinear_arith);
}

/// A map texel tells a direction: red is east, green is north and blue is
/// up, each from −1 at 0 to 1 at 255, counted in 255ths; the tile's third
/// axis points south. Only square images of at least two texels are maps,
/// and there is one direction for every texel.
pub proof fn law_texels_tell_east_north_and_up(
    w: u32,
    h: u32,
    pixels: Seq<[u8; 3]>,
    what: Seq<char>,
)
    ensures
        map_from_image_spec(w, h, pixels, what) is Ok <==> w == h && w >= 2,
        map_from_image_spec(w, h, pixels, what) is Ok ==> {
            let (size, vecs) = map_from_image_spec(w, h, pixels, what)->Ok_0;
            &&& size == w
            &&& vecs.len() == pixels.len()
            &&& forall|k: int|
                0 <= k < pixels.len() ==> (#[trigger] vecs[k]).x + 255 == 2 * pixels[k]@[0]
                    && vecs[k].y + 255 == 2 * pixels[k]@[2] && 255 - vecs[k].z == 2
                    * pixels[k]@[1]
        },
        map_from_image_spec(w, h, pixels, what) is Err ==> map_from_image_spec(
            w,
            h,
            pixels,
            what,
        )->Err_0 is Decode,
{
}

/// The samples that a normal is differenced from show the ground's slope:
/// over texels `a·x·y + b·x + c·y + d` the eastern one lies above the western
/// one by what one texel to the east adds there, the southern one above the
/// northern one by what one texel to the south adds, and the height at the
/// place itself is midway between either two.
pub proof fn law_slopes_are_the_grounds(
    f: HeightField,
    u: Coord,
    v: Coord,
    a: int,
    b: int,
    c: int,
    d: int,
)
    requires
        f.wf(),
        u.on_tile(),
        v.on_tile(),
        forall|x: int, y: int|
            0 <= x < 258 && 0 <= y < 258 ==> #[trigger] f.data@[y * 258 + x] == a * (x * y) + b * x
                + c * y + d,
    ensures
        ({
            let s = slopes_spec(f, u, v);
            let here = f.sample_spec(u, v).height_num();
            let n = pow2(f.window.dz as nat);
            let xd = 2 * (u.den * n);
            let yd = 2 * (v.den * n);
            let x = 2 * (256 * f.window.qx * u.den + u.num) + u.den * n;
            let y = 2 * (256 * f.window.qy * v.den + v.num) + v.den * n;
            let (e, w) = (s.east.height_num(), s.west.height_num());
            let (south, north) = (s.south.height_num(), s.north.height_num());
            &&& e - w == a * (xd * y) + b * (xd * yd)
            &&& south - north == a * (x * yd) + c * (xd * yd)
            &&& e + w == 2 * here
            &&& south + north == 2 * here
            &&& s.east.x.den == xd && s.east.y.den == yd
            &&& s.west.x.den == xd && s.west.y.den == yd
            &&& s.south.x.den == xd && s.south.y.den == yd
            &&& s.north.x.den == xd && s.north.y.den == yd
        }),
{
    let w = f.window;
    terrain::lemma_depth_bound(w.dz as nat);
    terrain::lemma_axis_bounds(w.dz, w.qx, u);
    terrain::lemma_axis_bounds(w.dz, w.qy, v);
    let (x, xd) = (terrain::axis_num(w.dz, w.qx, u), terrain::axis_den(w.dz, u));
    let (y, yd) = (terrain::axis_num(w.dz, w.qy, v), terrain::axis_den(w.dz, v));
    let (hx, hy) = (xd / 2, yd / 2);
    assert(xd == 2 * hx && yd == 2 * hy);
    terrain::lemma_even_samples(f, x + hx, xd, y, yd, a, b, c, d);
    terrain::lemma_even_samples(f, x - hx, xd, y, yd, a, b, c, d);
    terrain::lemma_even_samples(f, x, xd, y + hy, yd, a, b, c, d);
    terrain::lemma_even_samples(f, x, xd, y - hy, yd, a, b, c, d);
    terrain::lemma_even_samples(f, x, xd, y, yd, a, b, c, d);
    lemma_step(a, b, x, hx, xd, y, yd);
    lemma_step(a, c, y, hy, yd, x, xd);
    assert(x * y == y * x && x * (y + hy) == (y + hy) * x && x * (y - hy) == (y - hy) * x)
        by (nonlinear_arith);
    assert(xd * y == y * xd && xd * (y + hy) == (y + hy) * xd && xd * (y - hy) == (y - hy) * xd)
        by (nonlinear_arith);
    assert(yd * x == x * yd && yd * xd == xd * yd) by (nonlinear_arith);
}

proof fn lemma_step(a: int, b: int, x: int, h: int, xd: int, y: int, yd: int)
    requires
        xd == 2 * h,
    ensures
        ({
            let after = a * ((x + h) * y) + b * ((x + h) * yd);
            let before = a * ((x - h) * y) + b * ((x - h) * yd);
            let here = a * (x * y) + b * (x * yd);
            &&& after - before == a * (xd * y) + b * (xd * yd)
            &&& after + before == 2 * here
        }),
{
    lemma_one_step(a, x, h, xd, y);
    lemma_one_step(b, x, h, xd, yd);
}

proof fn lemma_one_step(a: int, x: int, h: int, xd: int, y: int)
    requires
        xd == 2 * h,
    ensures
        a * ((x + h) * y) - a * ((x - h) * y) == a * (xd * y),
        a * ((x + h) * y) + a * ((x - h) * y) == 2 * (a * (x * y)),
{
    let p = (x + h) * y;
    let q = (x - h) * y;
    assert(p - q == xd * y) by (nonlinear_arith)
        requires
            p == (x + h) * y,
            q == (x - h) * y,
            xd == 2 * h,
    ;
    assert(p + q == 2 * (x * y)) by (nonlinear_arith)
        requires
            p == (x + h) * y,
            q == (x - h) * y,
    ;
    assert(a * p - a * q == a * (p - q)) by (nonlinear_arith);
    assert(a * p + a * q == a * (p + q)) by (nonlinear_arith);
    assert(a * (2 * (x * y)) == 2 * (a * (x * y))) by (nonlinear_arith);
}

} // verus!
