//! Terrarium decoding and the padded height field that the mesh samples.
//!
//! Terrarium: `h = r·256 + g + b/256 − 32768` metres. Heights are kept as
//! whole 1/256ths of a metre, which is exactly what the source carries, so
//! sampling, ranges and surface differences are exact.
//!
//! Bilinear sampling uses the texel-centre convention `(i + 0.5) / n`,
//! extended over a 1-texel pad ring taken from the neighbouring tiles, so a
//! vertex on a shared edge sees the same two texels from either side.

use crate::codec;
use crate::codec::RgbPixels;
use crate::error::{Error, ErrorView};
use crate::imagery;
use crate::text;
use crate::tile::two_to;
use vstd::arithmetic::power2::pow2;
use vstd::prelude::*;

verus! {

/// Native heightmap edge length in texels.
pub const TILE_TEXELS: usize = 256;

/// Texels in one heightmap.
pub const TILE_AREA: usize = 65536;

/// Edge length of a padded field.
pub const FIELD_TEXELS: usize = 258;

/// Texels in a padded field.
pub const FIELD_AREA: usize = 66564;

/// Terrarium value of sea level.
pub const SEA_LEVEL: i32 = 8_388_608;

/// How many zooms below its source a window may look.
pub const MAX_WINDOW_DEPTH: u8 = 24;

/// Finest subdivision of a texel that a coordinate may name.
pub const MAX_COORD_DEN: i64 = 65536;

/// The 8 neighbours of a tile, row-major: `NW, N, NE, W, E, SW, S, SE`.
/// Indexes into [`HeightField::padded`]'s `neighbours` argument.
#[derive(Clone, Copy, Debug, PartialEq, Eq, Structural)]
pub enum Side {
    /// North-west.
    NW,
    /// North.
    N,
    /// North-east.
    NE,
    /// West.
    W,
    /// East.
    E,
    /// South-west.
    SW,
    /// South.
    S,
    /// South-east.
    SE,
}

impl Side {
    /// The side's place in row-major order.
    pub open spec fn index_spec(self) -> int {
        match self {
            Side::NW => 0,
            Side::N => 1,
            Side::NE => 2,
            Side::W => 3,
            Side::E => 4,
            Side::SW => 5,
            Side::S => 6,
            Side::SE => 7,
        }
    }

    /// The side's place in row-major order.
    pub fn index(self) -> (i: usize)
        ensures
            i == self.index_spec(),
            i < 8,
    {
        match self {
            Side::NW => 0,
            Side::N => 1,
            Side::NE => 2,
            Side::W => 3,
            Side::E => 4,
            Side::SW => 5,
            Side::S => 6,
            Side::SE => 7,
        }
    }
}

// -- decoding --------------------------------------------------------------------

/// The height of one Terrarium texel, in 1/256 m above sea level.
pub open spec fn terrarium_height(p: [u8; 3]) -> i32 {
    (p@[0] * 65536 + p@[1] * 256 + p@[2] - SEA_LEVEL) as i32
}

/// The heights of a Terrarium image, row-major.
pub open spec fn terrarium_heights(pixels: Seq<[u8; 3]>) -> Seq<i32> {
    pixels.map_values(|p: [u8; 3]| terrarium_height(p))
}

/// The message for an image that is no heightmap.
pub open spec fn heightmap_size_message(w: u32, h: u32) -> Seq<char> {
    "expected 256×256, got "@ + text::decimal_text(w as nat) + "×"@ + text::decimal_text(
        h as nat,
    )
}

/// The heights of a decoded heightmap image.
pub open spec fn heights_spec(w: u32, h: u32, pixels: Seq<[u8; 3]>, what: Seq<char>) -> Result<
    Seq<i32>,
    ErrorView,
> {
    if w == 256 && h == 256 {
        Ok(terrarium_heights(pixels))
    } else {
        Err(ErrorView::Decode { what, reason: heightmap_size_message(w, h) })
    }
}

/// The heights of a heightmap file.
pub open spec fn heightmap_spec(bytes: Seq<u8>, what: Seq<char>) -> Result<Seq<i32>, ErrorView> {
    match codec::loaded_rgb8(bytes) {
        Ok((w, h, pixels)) => heights_spec(w, h, pixels, what),
        Err(e) => Err(imagery::codec_fault(what, e)),
    }
}

/// A height result with its heights and its error as models.
pub open spec fn heights_view(r: Result<Vec<i32>, Error>) -> Result<Seq<i32>, ErrorView> {
    match r {
        Ok(v) => Ok(v@),
        Err(e) => Err(e@),
    }
}

/// Decode Terrarium RGB into heights, row-major.
pub fn decode_terrarium(img: &RgbPixels) -> (out: Vec<i32>)
    ensures
        out@ == terrarium_heights(img.pixels@),
{
    let count: usize = img.pixels.len();
    let mut out: Vec<i32> = Vec::with_capacity(count);
    let mut k: usize = 0;
    while k < count
        invariant
            k <= count,
            count == img.pixels@.len(),
            out@.len() == k,
            forall|i: int| 0 <= i < k ==> #[trigger] out@[i] == terrarium_height(img.pixels@[i]),
        decreases count - k,
    {
        let p: [u8; 3] = img.pixels[k];
        out.push(p[0] as i32 * 65536 + p[1] as i32 * 256 + p[2] as i32 - SEA_LEVEL);
        k = k + 1;
    }
    assert(out@ =~= terrarium_heights(img.pixels@));
    out
}

/// The heights of a decoded heightmap; rejects anything not 256×256.
pub fn heights_from_image(img: &RgbPixels, what: &str) -> (r: Result<Vec<i32>, Error>)
    requires
        img.wf(),
    ensures
        heights_view(r) == heights_spec(img.width, img.height, img.pixels@, what@),
        r is Ok ==> r->Ok_0@.len() == TILE_AREA,
{
    if img.width as usize != TILE_TEXELS || img.height as usize != TILE_TEXELS {
        let w: String = text::decimal(img.width as u64);
        let h: String = text::decimal(img.height as u64);
        let mut reason: String = text::join3("expected 256×256, got ", w.as_str(), "×");
        reason.append(h.as_str());
        return Err(Error::Decode { what: what.to_owned(), reason });
    }
    assert(img.width * img.height == 65536) by (nonlinear_arith)
        requires
            img.width == 256,
            img.height == 256,
    ;
    Ok(decode_terrarium(img))
}

/// Decode a heightmap PNG's bytes; rejects anything not 256×256.
pub fn decode_heightmap_png(bytes: &[u8], what: &str) -> (r: Result<Vec<i32>, Error>)
    ensures
        heights_view(r) == heightmap_spec(bytes@, what@),
        r is Ok ==> r->Ok_0@.len() == TILE_AREA,
{
    match codec::load_rgb8(bytes) {
        Ok(img) => heights_from_image(&img, what),
        Err(e) => Err(imagery::codec_error(what, &e)),
    }
}

// -- the padded field --------------------------------------------------------------

/// Texel `(x, y)` of a heightmap.
pub open spec fn texel(map: Seq<i32>, x: int, y: int) -> i32 {
    map[y * 256 + x]
}

/// A ring of neighbour heightmaps, each as a sequence.
pub open spec fn ring_view(ring: Seq<Option<Vec<i32>>>) -> Seq<Option<Seq<i32>>> {
    ring.map_values(
        |o: Option<Vec<i32>>|
            match o {
                Some(v) => Some(v@),
                None => None,
            },
    )
}

/// Eight sides, each a whole heightmap or missing.
pub open spec fn ring_ok(ring: Seq<Option<Seq<i32>>>) -> bool {
    ring.len() == 8 && forall|i: int|
        0 <= i < 8 ==> (#[trigger] ring[i] is Some ==> ring[i]->0.len() == TILE_AREA)
}

/// A pad texel on an edge: the neighbour's facing texel, else the tile's own.
pub open spec fn edge_texel(
    tile: Seq<i32>,
    side: Option<Seq<i32>>,
    sx: int,
    sy: int,
    ox: int,
    oy: int,
) -> i32 {
    match side {
        Some(s) => texel(s, sx, sy),
        None => texel(tile, ox, oy),
    }
}

/// A pad texel in a corner, where the tiles around it meet: the diagonal
/// neighbour's facing corner; else the east/west neighbour's, else the
/// north/south neighbour's, else the tile's own corner.
/// `(dx, dy)` is the texel of the diagonal neighbour; the other three face it.
pub open spec fn corner_texel(
    tile: Seq<i32>,
    diag: Option<Seq<i32>>,
    ew: Option<Seq<i32>>,
    ns: Option<Seq<i32>>,
    dx: int,
    dy: int,
) -> i32 {
    match diag {
        Some(s) => texel(s, dx, dy),
        None => match ew {
            Some(s) => texel(s, dx, 255 - dy),
            None => match ns {
                Some(s) => texel(s, 255 - dx, dy),
                None => texel(tile, 255 - dx, 255 - dy),
            },
        },
    }
}

/// Texel `(x, y)` of the padded field: the tile in the centre, one ring of
/// texels borrowed from the neighbours, or replicated from the tile's own
/// edge where a neighbour is missing.
pub open spec fn padded_texel(
    tile: Seq<i32>,
    ring: Seq<Option<Seq<i32>>>,
    x: int,
    y: int,
) -> i32 {
    if x == 0 && y == 0 {
        corner_texel(tile, ring[0], ring[3], ring[1], 255, 255)
    } else if x == 257 && y == 0 {
        corner_texel(tile, ring[2], ring[4], ring[1], 0, 255)
    } else if x == 0 && y == 257 {
        corner_texel(tile, ring[5], ring[3], ring[6], 255, 0)
    } else if x == 257 && y == 257 {
        corner_texel(tile, ring[7], ring[4], ring[6], 0, 0)
    } else if y == 0 {
        edge_texel(tile, ring[1], x - 1, 255, x - 1, 0)
    } else if y == 257 {
        edge_texel(tile, ring[6], x - 1, 0, x - 1, 255)
    } else if x == 0 {
        edge_texel(tile, ring[3], 255, y - 1, 0, y - 1)
    } else if x == 257 {
        edge_texel(tile, ring[4], 0, y - 1, 255, y - 1)
    } else {
        texel(tile, x - 1, y - 1)
    }
}

/// Texel `(x, y)` of a 256-texel map.
fn at(map: &Vec<i32>, x: usize, y: usize) -> (h: i32)
    requires
        map@.len() == TILE_AREA,
        x < 256,
        y < 256,
    ensures
        h == texel(map@, x as int, y as int),
{
    map[y * 256 + x]
}

/// The neighbour on one side, if there is one.
fn side<'a>(ring: &'a [Option<Vec<i32>>; 8], s: Side) -> (r: &'a Option<Vec<i32>>)
    ensures
        *r == ring@[s.index_spec()],
{
    &ring[s.index()]
}

/// A pad texel on an edge.
fn edge(
    tile: &Vec<i32>,
    neighbour: &Option<Vec<i32>>,
    sx: usize,
    sy: usize,
    ox: usize,
    oy: usize,
) -> (h: i32)
    requires
        tile@.len() == TILE_AREA,
        neighbour is Some ==> neighbour->0@.len() == TILE_AREA,
        sx < 256,
        sy < 256,
        ox < 256,
        oy < 256,
    ensures
        h == edge_texel(
            tile@,
            match *neighbour {
                Some(v) => Some(v@),
                None => None,
            },
            sx as int,
            sy as int,
            ox as int,
            oy as int,
        ),
{
    match neighbour {
        Some(s) => at(s, sx, sy),
        None => at(tile, ox, oy),
    }
}

/// A pad texel in a corner. When the diagonal neighbour is missing, the
/// fallback is a texel that both tiles sharing an east/west edge can see.
fn corner(
    tile: &Vec<i32>,
    ring: &[Option<Vec<i32>>; 8],
    diag: Side,
    ew: Side,
    ns: Side,
    dx: usize,
    dy: usize,
) -> (h: i32)
    requires
        tile@.len() == TILE_AREA,
        ring_ok(ring_view(ring@)),
        dx < 256,
        dy < 256,
    ensures
        h == corner_texel(
            tile@,
            ring_view(ring@)[diag.index_spec()],
            ring_view(ring@)[ew.index_spec()],
            ring_view(ring@)[ns.index_spec()],
            dx as int,
            dy as int,
        ),
{
    let ghost rv = ring_view(ring@);
    assert(rv[diag.index_spec()] is Some ==> rv[diag.index_spec()]->0.len() == TILE_AREA);
    assert(rv[ew.index_spec()] is Some ==> rv[ew.index_spec()]->0.len() == TILE_AREA);
    assert(rv[ns.index_spec()] is Some ==> rv[ns.index_spec()]->0.len() == TILE_AREA);
    match side(ring, diag) {
        Some(s) => at(s, dx, dy),
        None => match side(ring, ew) {
            Some(s) => at(s, dx, 255 - dy),
            None => match side(ring, ns) {
                Some(s) => at(s, 255 - dx, dy),
                None => at(tile, 255 - dx, 255 - dy),
            },
        },
    }
}

/// One texel of the padded field.
fn pad(tile: &Vec<i32>, ring: &[Option<Vec<i32>>; 8], x: usize, y: usize) -> (h: i32)
    requires
        tile@.len() == TILE_AREA,
        ring_ok(ring_view(ring@)),
        x < FIELD_TEXELS,
        y < FIELD_TEXELS,
    ensures
        h == padded_texel(tile@, ring_view(ring@), x as int, y as int),
{
    let ghost rv = ring_view(ring@);
    assert(rv[1] is Some ==> rv[1]->0.len() == TILE_AREA);
    assert(rv[3] is Some ==> rv[3]->0.len() == TILE_AREA);
    assert(rv[4] is Some ==> rv[4]->0.len() == TILE_AREA);
    assert(rv[6] is Some ==> rv[6]->0.len() == TILE_AREA);
    let last: usize = TILE_TEXELS - 1;
    if x == 0 && y == 0 {
        corner(tile, ring, Side::NW, Side::W, Side::N, last, last)
    } else if x == 257 && y == 0 {
        corner(tile, ring, Side::NE, Side::E, Side::N, 0, last)
    } else if x == 0 && y == 257 {
        corner(tile, ring, Side::SW, Side::W, Side::S, last, 0)
    } else if x == 257 && y == 257 {
        corner(tile, ring, Side::SE, Side::E, Side::S, 0, 0)
    } else if y == 0 {
        edge(tile, side(ring, Side::N), x - 1, last, x - 1, 0)
    } else if y == 257 {
        edge(tile, side(ring, Side::S), x - 1, 0, x - 1, last)
    } else if x == 0 {
        edge(tile, side(ring, Side::W), last, y - 1, 0, y - 1)
    } else if x == 257 {
        edge(tile, side(ring, Side::E), 0, y - 1, last, y - 1)
    } else {
        at(tile, x - 1, y - 1)
    }
}

/// The part of a source tile that a descendant covers: the square `(qx, qy)`
/// of the `2^dz × 2^dz` squares the source splits into.
#[derive(Clone, Copy, Debug, PartialEq, Eq, Structural)]
pub struct Window {
    /// Zoom levels below the source.
    pub dz: u8,
    /// Column of the square.
    pub qx: u32,
    /// Row of the square.
    pub qy: u32,
}

impl Window {
    /// The square lies inside the source.
    pub open spec fn wf(self) -> bool {
        self.dz <= MAX_WINDOW_DEPTH && self.qx < pow2(self.dz as nat) && self.qy < pow2(
            self.dz as nat,
        )
    }

    /// The window `(qx, qy)` at `dz` levels below this one.
    pub open spec fn then_spec(self, dz: u8, qx: u32, qy: u32) -> Window {
        let n = pow2(dz as nat);
        Window {
            dz: (self.dz + dz) as u8,
            qx: (self.qx * n + qx) as u32,
            qy: (self.qy * n + qy) as u32,
        }
    }

    /// The whole source.
    pub fn full() -> (w: Window)
        ensures
            w == (Window { dz: 0, qx: 0, qy: 0 }),
            w.wf(),
    {
        proof {
            vstd::arithmetic::power2::lemma2_to64();
        }
        Window { dz: 0, qx: 0, qy: 0 }
    }

    /// The window `(qx, qy)` at `dz` levels below this one.
    pub fn within(&self, dz: u8, qx: u32, qy: u32) -> (w: Window)
        requires
            self.wf(),
            self.dz + dz <= MAX_WINDOW_DEPTH,
            qx < pow2(dz as nat),
            qy < pow2(dz as nat),
        ensures
            w == self.then_spec(dz, qx, qy),
            w.wf(),
    {
        proof {
            lemma_window_then(*self, dz, qx, qy);
        }
        let n: u64 = two_to(dz);
        Window {
            dz: self.dz + dz,
            qx: (self.qx as u64 * n + qx as u64) as u32,
            qy: (self.qy as u64 * n + qy as u64) as u32,
        }
    }
}

pub proof fn lemma_depth_bound(dz: nat)
    requires
        dz <= MAX_WINDOW_DEPTH,
    ensures
        0 < pow2(dz) <= 0x100_0000,
{
    vstd::arithmetic::power2::lemma_pow2_pos(dz);
    vstd::arithmetic::power2::lemma2_to64();
    if dz < 24 {
        vstd::arithmetic::power2::lemma_pow2_strictly_increases(dz, 24);
    }
}

pub proof fn lemma_window_then(w: Window, dz: u8, qx: u32, qy: u32)
    requires
        w.wf(),
        w.dz + dz <= MAX_WINDOW_DEPTH,
        qx < pow2(dz as nat),
        qy < pow2(dz as nat),
    ensures
        w.qx * pow2(dz as nat) + qx < pow2((w.dz + dz) as nat) <= 0x100_0000,
        w.qy * pow2(dz as nat) + qy < pow2((w.dz + dz) as nat) <= 0x100_0000,
        w.then_spec(dz, qx, qy).wf(),
{
    let n = pow2(dz as nat) as int;
    let m = pow2(w.dz as nat) as int;
    lemma_depth_bound((w.dz + dz) as nat);
    lemma_depth_bound(dz as nat);
    lemma_depth_bound(w.dz as nat);
    vstd::arithmetic::power2::lemma_pow2_adds(w.dz as nat, dz as nat);
    assert(w.qx * n + qx < m * n) by (nonlinear_arith)
        requires
            0 <= w.qx < m,
            0 <= qx < n,
    ;
    assert(w.qy * n + qy < m * n) by (nonlinear_arith)
        requires
            0 <= w.qy < m,
            0 <= qy < n,
    ;
    assert(m * n == pow2((w.dz + dz) as nat));
}

/// A padded height field, `(256 + 2)²`, seen through a window.
#[derive(Clone, Debug)]
pub struct HeightField {
    /// Edge length including the pad (258).
    pub size: usize,
    /// Row-major heights in 1/256 m.
    pub data: Vec<i32>,
    /// The part of the tile that is sampled.
    pub window: Window,
}

impl HeightField {
    /// The data has the field's size and the window lies inside the tile.
    pub open spec fn wf(self) -> bool {
        self.size == FIELD_TEXELS && self.data@.len() == FIELD_AREA && self.window.wf()
    }

    /// Texel `(x, y)`, pad included.
    pub open spec fn texel(self, x: int, y: int) -> i32 {
        self.data@[y * 258 + x]
    }

    /// Assemble the padded field. `tile` is the centre (256²); each
    /// `neighbours[i]` is the full 256² heightmap of that side (see
    /// [`Side`]) or `None`.
    pub fn padded(tile: &Vec<i32>, neighbours: &[Option<Vec<i32>>; 8]) -> (f: HeightField)
        requires
            tile@.len() == TILE_AREA,
            ring_ok(ring_view(neighbours@)),
        ensures
            f.wf(),
            f.window == (Window { dz: 0, qx: 0, qy: 0 }),
            forall|x: int, y: int|
                0 <= x < 258 && 0 <= y < 258 ==> #[trigger] f.texel(x, y) == padded_texel(
                    tile@,
                    ring_view(neighbours@),
                    x,
                    y,
                ),
            forall|i: int, j: int|
                0 <= i < 256 && 0 <= j < 256 ==> f.data@[(j + 1) * 258 + (i + 1)]
                    == #[trigger] tile@[j * 256 + i],
    {
        let ghost rv = ring_view(neighbours@);
        let mut data: Vec<i32> = Vec::with_capacity(FIELD_AREA);
        let mut y: usize = 0;
        while y < FIELD_TEXELS
            invariant
                y <= FIELD_TEXELS,
                tile@.len() == TILE_AREA,
                rv == ring_view(neighbours@),
                ring_ok(rv),
                data@.len() == y * 258,
                forall|i: int, j: int|
                    0 <= i < 258 && 0 <= j < y ==> #[trigger] data@[j * 258 + i] == padded_texel(
                        tile@,
                        rv,
                        i,
                        j,
                    ),
            decreases FIELD_TEXELS - y,
        {
            let mut x: usize = 0;
            while x < FIELD_TEXELS
                invariant
                    x <= FIELD_TEXELS,
                    y < FIELD_TEXELS,
                    tile@.len() == TILE_AREA,
                    rv == ring_view(neighbours@),
                    ring_ok(rv),
                    data@.len() == y * 258 + x,
                    forall|i: int, j: int|
                        0 <= i < 258 && 0 <= j < y ==> #[trigger] data@[j * 258 + i]
                            == padded_texel(tile@, rv, i, j),
                    forall|i: int|
                        0 <= i < x ==> #[trigger] data@[y * 258 + i] == padded_texel(
                            tile@,
                            rv,
                            i,
                            y as int,
                        ),
                decreases FIELD_TEXELS - x,
            {
                data.push(pad(tile, neighbours, x, y));
                x = x + 1;
            }
            y = y + 1;
        }
        let f: HeightField = HeightField { size: FIELD_TEXELS, data, window: Window::full() };
        assert forall|i: int, j: int| 0 <= i < 256 && 0 <= j < 256 implies f.data@[(j + 1) * 258 + (
        i + 1)] == #[trigger] tile@[j * 256 + i] by {
            law_centre_is_the_tile(f, tile@, rv, i, j);
        }
        f
    }

    /// A field with no neighbours (edges replicated).
    pub fn unpadded(tile: &Vec<i32>) -> (f: HeightField)
        requires
            tile@.len() == TILE_AREA,
        ensures
            f.wf(),
            f.window == (Window { dz: 0, qx: 0, qy: 0 }),
            forall|x: int, y: int|
                0 <= x < 258 && 0 <= y < 258 ==> #[trigger] f.texel(x, y) == texel(
                    tile@,
                    clamp_int(x - 1, 255),
                    clamp_int(y - 1, 255),
                ),
    {
        let none: [Option<Vec<i32>>; 8] = [None, None, None, None, None, None, None, None];
        let f: HeightField = HeightField::padded(tile, &none);
        let ghost rv = ring_view(none@);
        assert forall|x: int, y: int| 0 <= x < 258 && 0 <= y < 258 implies #[trigger] f.texel(x, y)
            == texel(tile@, clamp_int(x - 1, 255), clamp_int(y - 1, 255)) by {
            assert(f.texel(x, y) == padded_texel(tile@, rv, x, y));
            assert(rv[0] is None && rv[1] is None && rv[2] is None && rv[3] is None);
            assert(rv[4] is None && rv[5] is None && rv[6] is None && rv[7] is None);
        }
        f
    }

    /// The view of this field covering the descendant tile at window offset
    /// `(qx, qy)`, `dz` zoom levels deeper. Composes with an existing window.
    pub fn windowed(&self, dz: u8, qx: u32, qy: u32) -> (f: HeightField)
        requires
            self.wf(),
            self.window.dz + dz <= MAX_WINDOW_DEPTH,
            qx < pow2(dz as nat),
            qy < pow2(dz as nat),
        ensures
            f.wf(),
            f.data@ == self.data@,
            f.window == self.window.then_spec(dz, qx, qy),
    {
        let data: Vec<i32> = self.data.clone();
        assert(data@ =~= self.data@);
        HeightField { size: self.size, data, window: self.window.within(dz, qx, qy) }
    }

    /// Minimum and maximum height in the field (pad included), in 1/256 m.
    pub fn min_max(&self) -> (r: (i32, i32))
        requires
            self.wf(),
        ensures
            self.data@.contains(r.0),
            self.data@.contains(r.1),
            forall|k: int| 0 <= k < self.data@.len() ==> r.0 <= #[trigger] self.data@[k] <= r.1,
    {
        let mut lo: i32 = self.data[0];
        let mut hi: i32 = lo;
        let mut k: usize = 1;
        while k < self.data.len()
            invariant
                1 <= k <= self.data@.len(),
                self.data@.contains(lo),
                self.data@.contains(hi),
                forall|i: int| 0 <= i < k ==> lo <= #[trigger] self.data@[i] <= hi,
            decreases self.data@.len() - k,
        {
            let h: i32 = self.data[k];
            assert(self.data@[k as int] == h);
            if h < lo {
                lo = h;
            }
            if h > hi {
                hi = h;
            }
            k = k + 1;
        }
        (lo, hi)
    }
}

/// `v` brought into `0..=max`.
pub open spec fn clamp_int(v: int, max: int) -> int {
    if v < 0 {
        0
    } else if v > max {
        max
    } else {
        v
    }
}

// -- sampling ----------------------------------------------------------------------

/// A position along one axis of a tile, in texels from its west or north
/// edge: `num / den`. Whatever its zoom, a tile is 256 texels wide.
#[derive(Clone, Copy, Debug, PartialEq, Eq, Structural)]
pub struct Coord {
    /// Numerator.
    pub num: i64,
    /// Denominator.
    pub den: i64,
}

impl Coord {
    /// The position lies on the tile.
    pub open spec fn on_tile(self) -> bool {
        0 < self.den <= MAX_COORD_DEN && 0 <= self.num <= 256 * self.den
    }

    /// Vertex `i` of the `n + 1` vertices that divide the edge evenly.
    pub fn vertex(i: u32, n: u32) -> (c: Coord)
        requires
            0 < n <= 256,
            i <= n,
        ensures
            c == (Coord { num: (256 * i) as i64, den: n as i64 }),
            c.on_tile(),
    {
        Coord { num: 256 * i as i64, den: n as i64 }
    }

    /// The centre of texel `i`.
    pub fn texel_centre(i: u32) -> (c: Coord)
        requires
            i < 256,
        ensures
            c == (Coord { num: (2 * i + 1) as i64, den: 2 }),
            c.on_tile(),
    {
        Coord { num: 2 * i as i64 + 1, den: 2 }
    }
}

/// One axis of a bilinear sample: between texels `index` and `index + 1`, at
/// `rem / den` of the way.
#[derive(Clone, Copy, Debug, PartialEq, Eq, Structural)]
pub struct Tap {
    /// The lower texel, which may lie one off the field.
    pub index: i64,
    /// Numerator of the distance from the lower texel.
    pub rem: i64,
    /// Denominator of the distance.
    pub den: i64,
}

/// Numerator of a padded-space position, texel centres at `k + 0.5`: the
/// window's square `q` of `2^dz`, then `c` texels into it, then the pad.
pub open spec fn axis_num(dz: u8, q: u32, c: Coord) -> int {
    2 * (256 * q * c.den + c.num) + c.den * pow2(dz as nat)
}

/// Denominator of that position.
pub open spec fn axis_den(dz: u8, c: Coord) -> int {
    2 * (c.den * pow2(dz as nat))
}

/// The tap of the position `num / den`.
pub open spec fn tap_of(num: int, den: int) -> Tap {
    Tap { index: (num / den) as i64, rem: (num % den) as i64, den: den as i64 }
}

/// Four texels and where between them a sample lies.
#[derive(Clone, Copy, Debug, PartialEq, Eq, Structural)]
pub struct Sample {
    /// West to east.
    pub x: Tap,
    /// North to south.
    pub y: Tap,
    /// The north-west texel, in 1/256 m.
    pub nw: i32,
    /// The north-east texel.
    pub ne: i32,
    /// The south-west texel.
    pub sw: i32,
    /// The south-east texel.
    pub se: i32,
}

/// A fraction of 1/256 m.
#[derive(Clone, Copy, Debug, PartialEq, Eq, Structural)]
pub struct Height {
    /// Numerator.
    pub num: i128,
    /// Denominator, positive.
    pub den: i128,
}

/// Bilinear weighting of four texels, over the common denominator `dx · dy`.
pub open spec fn bilinear(
    nw: int,
    ne: int,
    sw: int,
    se: int,
    rx: int,
    dx: int,
    ry: int,
    dy: int,
) -> int {
    (nw * (dx - rx) + ne * rx) * (dy - ry) + (sw * (dx - rx) + se * rx) * ry
}

impl Tap {
    /// A distance in `[0, 1)` with a bounded denominator.
    pub open spec fn wf(self) -> bool {
        0 <= self.rem < self.den <= 0x400_0000_0000
    }
}

impl Sample {
    /// Both taps are well formed.
    pub open spec fn wf(self) -> bool {
        self.x.wf() && self.y.wf()
    }

    /// Numerator of the height, over `x.den · y.den`.
    pub open spec fn height_num(self) -> int {
        bilinear(
            self.nw as int,
            self.ne as int,
            self.sw as int,
            self.se as int,
            self.x.rem as int,
            self.x.den as int,
            self.y.rem as int,
            self.y.den as int,
        )
    }

    /// The bilinear height.
    pub fn height(&self) -> (h: Height)
        requires
            self.wf(),
        ensures
            h.num == self.height_num(),
            h.den == self.x.den * self.y.den,
            h.den > 0,
    {
        let rx: i128 = self.x.rem as i128;
        let dx: i128 = self.x.den as i128;
        let ry: i128 = self.y.rem as i128;
        let dy: i128 = self.y.den as i128;
        proof {
            lemma_lerp_bound(self.nw as int, self.ne as int, rx as int, dx as int);
            lemma_lerp_bound(self.sw as int, self.se as int, rx as int, dx as int);
        }
        let top: i128 = self.nw as i128 * (dx - rx) + self.ne as i128 * rx;
        let bottom: i128 = self.sw as i128 * (dx - rx) + self.se as i128 * rx;
        proof {
            lemma_blend_bound(top as int, bottom as int, ry as int, dy as int);
            assert(0 < dx * dy <= 0x400_0000_0000 * 0x400_0000_0000) by (nonlinear_arith)
                requires
                    0 < dx <= 0x400_0000_0000,
                    0 < dy <= 0x400_0000_0000,
            ;
        }
        Height { num: top * (dy - ry) + bottom * ry, den: dx * dy }
    }
}

proof fn lemma_lerp_bound(a: int, b: int, r: int, d: int)
    requires
        -0x8000_0000 <= a <= 0x7fff_ffff,
        -0x8000_0000 <= b <= 0x7fff_ffff,
        0 <= r < d <= 0x400_0000_0000,
    ensures
        -0x8000_0000 * d <= a * (d - r) <= 0x8000_0000 * d,
        -0x8000_0000 * d <= b * r <= 0x8000_0000 * d,
        -0x8000_0000 * d <= a * (d - r) + b * r <= 0x8000_0000 * d,
        d <= 0x400_0000_0000,
{
    assert(-0x8000_0000 * (d - r) <= a * (d - r) <= 0x8000_0000 * (d - r)) by (nonlinear_arith)
        requires
            -0x8000_0000 <= a <= 0x7fff_ffff,
            0 <= r < d,
    ;
    assert(-0x8000_0000 * r <= b * r <= 0x8000_0000 * r) by (nonlinear_arith)
        requires
            -0x8000_0000 <= b <= 0x7fff_ffff,
            0 <= r,
    ;
}

proof fn lemma_blend_bound(t: int, b: int, r: int, d: int)
    requires
        -0x8000_0000 * 0x400_0000_0000 <= t <= 0x8000_0000 * 0x400_0000_0000,
        -0x8000_0000 * 0x400_0000_0000 <= b <= 0x8000_0000 * 0x400_0000_0000,
        0 <= r < d <= 0x400_0000_0000,
    ensures
        -0x200_0000_0000_0000_0000 * 0x400_0000_0000 <= t * (d - r)
            <= 0x200_0000_0000_0000_0000 * 0x400_0000_0000,
        -0x200_0000_0000_0000_0000 * 0x400_0000_0000 <= b * r <= 0x200_0000_0000_0000_0000
            * 0x400_0000_0000,
        -0x200_0000_0000_0000_0000 * 0x400_0000_0000 <= t * (d - r) + b * r
            <= 0x200_0000_0000_0000_0000 * 0x400_0000_0000,
{
    let m: int = 0x200_0000_0000_0000_0000;
    assert(-m * (d - r) <= t * (d - r) <= m * (d - r)) by (nonlinear_arith)
        requires
            -m <= t <= m,
            0 <= r < d,
    ;
    assert(-m * r <= b * r <= m * r) by (nonlinear_arith)
        requires
            -m <= b <= m,
            0 <= r,
    ;
}

/// The texel and distance of a position at or right of zero.
fn tap(num: i64, den: i64) -> (t: Tap)
    requires
        num >= 0,
        0 < den <= 0x400_0000_0000,
    ensures
        t == tap_of(num as int, den as int),
        t.wf(),
        t.index == num as int / den as int,
        t.rem == num as int % den as int,
{
    Tap { index: num / den, rem: num % den, den }
}

/// The position of `c` along an axis of the padded field.
pub(crate) fn axis(dz: u8, q: u32, c: Coord) -> (r: (i64, i64))
    requires
        c.on_tile(),
        dz <= MAX_WINDOW_DEPTH,
        q < pow2(dz as nat),
    ensures
        r.0 == axis_num(dz, q, c),
        r.1 == axis_den(dz, c),
        0 < r.1 <= 0x200_0000_0000,
        r.1 <= 2 * r.0,
        2 * r.0 <= 513 * r.1,
        r.1 % 2 == 0,
{
    proof {
        lemma_depth_bound(dz as nat);
        lemma_axis_bounds(dz, q, c);
    }
    let n: i64 = two_to(dz) as i64;
    (2 * (256 * q as i64 * c.den + c.num) + c.den * n, 2 * (c.den * n))
}

pub proof fn lemma_axis_bounds(dz: u8, q: u32, c: Coord)
    requires
        c.on_tile(),
        dz <= MAX_WINDOW_DEPTH,
        q < pow2(dz as nat),
    ensures
        0 <= 256 * q * c.den <= 0x100_0000_0000_0000,
        0 < c.den * pow2(dz as nat) <= 0x100_0000_0000,
        256 * q * c.den + c.num <= 256 * (c.den * pow2(dz as nat)),
        axis_den(dz, c) <= 2 * axis_num(dz, q, c),
        2 * axis_num(dz, q, c) <= 513 * axis_den(dz, c),
{
    lemma_depth_bound(dz as nat);
    let n = pow2(dz as nat) as int;
    let d = c.den as int;
    let qi = q as int;
    assert(0 <= 256 * qi * d <= 0x100_0000_0000_0000) by (nonlinear_arith)
        requires
            0 <= qi < 0x100_0000,
            0 < d <= 65536,
    ;
    assert(0 < d * n <= 0x100_0000_0000) by (nonlinear_arith)
        requires
            0 < n <= 0x100_0000,
            0 < d <= 65536,
    ;
    assert(256 * qi * d + 256 * d <= 256 * (d * n)) by (nonlinear_arith)
        requires
            qi + 1 <= n,
            0 < d,
    ;
}

impl HeightField {
    /// The sample at the position `(xn/xd, yn/yd)` of the padded field.
    pub open spec fn sample_at(self, xn: int, xd: int, yn: int, yd: int) -> Sample {
        let x = xn / xd;
        let y = yn / yd;
        Sample {
            x: tap_of(xn, xd),
            y: tap_of(yn, yd),
            nw: self.texel(clamp_int(x, 257), clamp_int(y, 257)),
            ne: self.texel(clamp_int(x + 1, 257), clamp_int(y, 257)),
            sw: self.texel(clamp_int(x, 257), clamp_int(y + 1, 257)),
            se: self.texel(clamp_int(x + 1, 257), clamp_int(y + 1, 257)),
        }
    }

    /// The sample at `(u, v)` of the windowed tile.
    pub open spec fn sample_spec(self, u: Coord, v: Coord) -> Sample {
        self.sample_at(
            axis_num(self.window.dz, self.window.qx, u),
            axis_den(self.window.dz, u),
            axis_num(self.window.dz, self.window.qy, v),
            axis_den(self.window.dz, v),
        )
    }

    /// Texel `(x, y)`, each brought onto the field.
    fn clamped(&self, x: i64, y: i64) -> (h: i32)
        requires
            self.wf(),
            x >= 0,
            y >= 0,
        ensures
            h == self.texel(clamp_int(x as int, 257), clamp_int(y as int, 257)),
    {
        let cx: usize = if x > 257 {
            257
        } else {
            x as usize
        };
        let cy: usize = if y > 257 {
            257
        } else {
            y as usize
        };
        self.data[cy * 258 + cx]
    }

    /// The four texels around a position of the padded field.
    pub(crate) fn sample_raw(&self, xn: i64, xd: i64, yn: i64, yd: i64) -> (s: Sample)
        requires
            self.wf(),
            0 < xd <= 0x200_0000_0000,
            0 < yd <= 0x200_0000_0000,
            0 <= xn <= 257 * xd,
            0 <= yn <= 257 * yd,
        ensures
            s == self.sample_at(xn as int, xd as int, yn as int, yd as int),
            s.wf(),
    {
        let x: Tap = tap(xn, xd);
        let y: Tap = tap(yn, yd);
        proof {
            lemma_quotient_bound(xn as int, xd as int);
            lemma_quotient_bound(yn as int, yd as int);
        }
        Sample {
            x,
            y,
            nw: self.clamped(x.index, y.index),
            ne: self.clamped(x.index + 1, y.index),
            sw: self.clamped(x.index, y.index + 1),
            se: self.clamped(x.index + 1, y.index + 1),
        }
    }

    /// Bilinear sample at tile coordinates `(u, v)`, `u` west → east,
    /// `v` north → south. Texel centres sit at `i + 1/2`; `u = 0` lands
    /// exactly between the west pad texel and texel 0.
    pub fn sample(&self, u: Coord, v: Coord) -> (s: Sample)
        requires
            self.wf(),
            u.on_tile(),
            v.on_tile(),
        ensures
            s == self.sample_spec(u, v),
            s.wf(),
    {
        let (xn, xd): (i64, i64) = axis(self.window.dz, self.window.qx, u);
        let (yn, yd): (i64, i64) = axis(self.window.dz, self.window.qy, v);
        self.sample_raw(xn, xd, yn, yd)
    }
}

proof fn lemma_quotient_bound(n: int, d: int)
    requires
        0 < d,
        0 <= n <= 257 * d,
    ensures
        0 <= n / d <= 257,
{
    vstd::arithmetic::div_mod::lemma_div_is_ordered(n, 257 * d, d);
    vstd::arithmetic::div_mod::lemma_div_by_multiple(257, d);
    vstd::arithmetic::div_mod::lemma_div_pos_is_pos(n, d);
}

// -- laws ------------------------------------------------------------------------

/// `a` lies directly west of `b`, and the two rings name the same tiles:
/// the four tiles north and south of the pair are seen alike from both.
pub open spec fn side_by_side(
    a: Seq<i32>,
    ring_a: Seq<Option<Seq<i32>>>,
    b: Seq<i32>,
    ring_b: Seq<Option<Seq<i32>>>,
) -> bool {
    &&& ring_a[4] == Some(b)
    &&& ring_b[3] == Some(a)
    &&& ring_a[1] == ring_b[0]
    &&& ring_a[2] == ring_b[1]
    &&& ring_a[6] == ring_b[5]
    &&& ring_a[7] == ring_b[6]
}

/// `a` lies directly north of `b`, and the two rings name the same tiles.
pub open spec fn stacked(
    a: Seq<i32>,
    ring_a: Seq<Option<Seq<i32>>>,
    b: Seq<i32>,
    ring_b: Seq<Option<Seq<i32>>>,
) -> bool {
    &&& ring_a[6] == Some(b)
    &&& ring_b[1] == Some(a)
    &&& ring_a[3] == ring_b[0]
    &&& ring_a[5] == ring_b[3]
    &&& ring_a[4] == ring_b[2]
    &&& ring_a[7] == ring_b[4]
}

/// On both sides of an edge between a west and an east tile, the two padded
/// fields hold the same texels, corners included and whichever of the other
/// neighbours are missing.
pub proof fn law_east_west_pads_agree(
    a: Seq<i32>,
    ring_a: Seq<Option<Seq<i32>>>,
    b: Seq<i32>,
    ring_b: Seq<Option<Seq<i32>>>,
    y: int,
)
    requires
        side_by_side(a, ring_a, b, ring_b),
        0 <= y < 258,
    ensures
        padded_texel(a, ring_a, 256, y) == padded_texel(b, ring_b, 0, y),
        padded_texel(a, ring_a, 257, y) == padded_texel(b, ring_b, 1, y),
{
}

/// On both sides of an edge between a north and a south tile, the two padded
/// fields hold the same texels. At the two ends of the edge this needs the
/// pair of tiles beyond that end to be both there or both missing.
pub proof fn law_north_south_pads_agree(
    a: Seq<i32>,
    ring_a: Seq<Option<Seq<i32>>>,
    b: Seq<i32>,
    ring_b: Seq<Option<Seq<i32>>>,
    x: int,
)
    requires
        stacked(a, ring_a, b, ring_b),
        0 <= x < 258,
        x == 0 ==> (ring_a[3] is Some) == (ring_a[5] is Some),
        x == 257 ==> (ring_a[4] is Some) == (ring_a[7] is Some),
    ensures
        padded_texel(a, ring_a, x, 256) == padded_texel(b, ring_b, x, 0),
        padded_texel(a, ring_a, x, 257) == padded_texel(b, ring_b, x, 1),
{
}

/// Two samples weigh the same four texels in the same way: whatever
/// arithmetic evaluates them, both come to the same height.
pub open spec fn alike(a: Sample, b: Sample) -> bool {
    &&& a.nw == b.nw && a.ne == b.ne && a.sw == b.sw && a.se == b.se
    &&& a.x.rem == b.x.rem && a.x.den == b.x.den
    &&& a.y.rem == b.y.rem && a.y.den == b.y.den
}

/// The field is the padded field of `tile` with neighbours `ring`.
pub open spec fn is_padded(f: HeightField, tile: Seq<i32>, ring: Seq<Option<Seq<i32>>>) -> bool {
    f.wf() && forall|x: int, y: int|
        0 <= x < 258 && 0 <= y < 258 ==> #[trigger] f.texel(x, y) == padded_texel(tile, ring, x, y)
}

/// Watertight edges, west to east: at any point of a shared edge both tiles
/// weigh the same texels alike and so have the same height — also for descendants of the two tiles, `dz`
/// zooms below their sources, that share a stretch of it.
pub proof fn law_east_west_edge_is_watertight(
    fa: HeightField,
    a: Seq<i32>,
    ring_a: Seq<Option<Seq<i32>>>,
    fb: HeightField,
    b: Seq<i32>,
    ring_b: Seq<Option<Seq<i32>>>,
    den: i64,
    v: Coord,
)
    requires
        is_padded(fa, a, ring_a),
        is_padded(fb, b, ring_b),
        side_by_side(a, ring_a, b, ring_b),
        fa.window.dz == fb.window.dz,
        fa.window.qx == pow2(fa.window.dz as nat) - 1,
        fb.window.qx == 0,
        fa.window.qy == fb.window.qy,
        0 < den <= MAX_COORD_DEN,
        v.on_tile(),
    ensures
        ({
            let east = fa.sample_spec(Coord { num: (256 * den) as i64, den }, v);
            let west = fb.sample_spec(Coord { num: 0, den }, v);
            &&& alike(east, west)
            &&& east.height_num() == west.height_num()
        }),
{
    let dz = fa.window.dz;
    let n = pow2(dz as nat) as int;
    let d = den as int;
    lemma_depth_bound(dz as nat);
    let ua = Coord { num: (256 * den) as i64, den };
    let ub = Coord { num: 0, den };
    lemma_axis_bounds(dz, fa.window.qx, ua);
    lemma_axis_bounds(dz, fb.window.qx, ub);
    lemma_axis_bounds(dz, fa.window.qy, v);
    assert(256 * (n - 1) * d + 256 * d == 256 * (d * n)) by (nonlinear_arith);
    let xd = axis_den(dz, ua);
    assert(axis_num(dz, fa.window.qx, ua) == 256 * xd + d * n);
    assert(axis_num(dz, fb.window.qx, ub) == d * n) by {
        assert(256 * 0 * d == 0) by (nonlinear_arith);
    }
    assert(xd == 2 * (d * n));
    vstd::arithmetic::div_mod::lemma_fundamental_div_mod_converse(
        256 * xd + d * n,
        xd,
        256,
        d * n,
    );
    vstd::arithmetic::div_mod::lemma_fundamental_div_mod_converse(d * n, xd, 0, d * n);
    assert(256 * xd == xd * 256) by (nonlinear_arith);
    let y = axis_num(dz, fa.window.qy, v) / axis_den(dz, v);
    lemma_axis_quotient(dz, fa.window.qy, v);
    law_east_west_pads_agree(a, ring_a, b, ring_b, y);
    law_east_west_pads_agree(a, ring_a, b, ring_b, clamp_int(y + 1, 257));
    assert(fa.texel(256, y) == fb.texel(0, y));
    assert(fa.texel(257, y) == fb.texel(1, y));
    assert(fa.texel(256, clamp_int(y + 1, 257)) == fb.texel(0, clamp_int(y + 1, 257)));
    assert(fa.texel(257, clamp_int(y + 1, 257)) == fb.texel(1, clamp_int(y + 1, 257)));
}

/// Watertight edges, north to south. At a point that reads one of the two
/// end columns, the pair of tiles beyond that end is both there or both
/// missing.
pub proof fn law_north_south_edge_is_watertight(
    fa: HeightField,
    a: Seq<i32>,
    ring_a: Seq<Option<Seq<i32>>>,
    fb: HeightField,
    b: Seq<i32>,
    ring_b: Seq<Option<Seq<i32>>>,
    den: i64,
    u: Coord,
)
    requires
        is_padded(fa, a, ring_a),
        is_padded(fb, b, ring_b),
        stacked(a, ring_a, b, ring_b),
        fa.window.dz == fb.window.dz,
        fa.window.qy == pow2(fa.window.dz as nat) - 1,
        fb.window.qy == 0,
        fa.window.qx == fb.window.qx,
        0 < den <= MAX_COORD_DEN,
        u.on_tile(),
        axis_num(fa.window.dz, fa.window.qx, u) / axis_den(fa.window.dz, u) == 0 ==> (
        ring_a[3] is Some) == (ring_a[5] is Some),
        axis_num(fa.window.dz, fa.window.qx, u) / axis_den(fa.window.dz, u) == 256 ==> (
        ring_a[4] is Some) == (ring_a[7] is Some),
    ensures
        ({
            let south = fa.sample_spec(u, Coord { num: (256 * den) as i64, den });
            let north = fb.sample_spec(u, Coord { num: 0, den });
            &&& alike(south, north)
            &&& south.height_num() == north.height_num()
        }),
{
    let dz = fa.window.dz;
    let n = pow2(dz as nat) as int;
    let d = den as int;
    lemma_depth_bound(dz as nat);
    let va = Coord { num: (256 * den) as i64, den };
    let vb = Coord { num: 0, den };
    lemma_axis_bounds(dz, fa.window.qy, va);
    lemma_axis_bounds(dz, fb.window.qy, vb);
    lemma_axis_bounds(dz, fa.window.qx, u);
    assert(256 * (n - 1) * d + 256 * d == 256 * (d * n)) by (nonlinear_arith);
    let yd = axis_den(dz, va);
    assert(axis_num(dz, fa.window.qy, va) == 256 * yd + d * n);
    assert(axis_num(dz, fb.window.qy, vb) == d * n) by {
        assert(256 * 0 * d == 0) by (nonlinear_arith);
    }
    assert(yd == 2 * (d * n));
    vstd::arithmetic::div_mod::lemma_fundamental_div_mod_converse(
        256 * yd + d * n,
        yd,
        256,
        d * n,
    );
    vstd::arithmetic::div_mod::lemma_fundamental_div_mod_converse(d * n, yd, 0, d * n);
    assert(256 * yd == yd * 256) by (nonlinear_arith);
    let x = axis_num(dz, fa.window.qx, u) / axis_den(dz, u);
    lemma_axis_quotient(dz, fa.window.qx, u);
    law_north_south_pads_agree(a, ring_a, b, ring_b, x);
    law_north_south_pads_agree(a, ring_a, b, ring_b, x + 1);
    assert(fa.texel(x, 256) == fb.texel(x, 0));
    assert(fa.texel(x, 257) == fb.texel(x, 1));
    assert(fa.texel(x + 1, 256) == fb.texel(x + 1, 0));
    assert(fa.texel(x + 1, 257) == fb.texel(x + 1, 1));
}

proof fn lemma_axis_quotient(dz: u8, q: u32, c: Coord)
    requires
        c.on_tile(),
        dz <= MAX_WINDOW_DEPTH,
        q < pow2(dz as nat),
    ensures
        0 <= axis_num(dz, q, c) / axis_den(dz, c) <= 256,
{
    lemma_axis_bounds(dz, q, c);
    let n = axis_num(dz, q, c);
    let d = axis_den(dz, c);
    vstd::arithmetic::div_mod::lemma_div_pos_is_pos(n, d);
    vstd::arithmetic::div_mod::lemma_multiply_divide_lt(n, d, 257);
}

/// Neighbouring windows of one source meet without a gap: the east edge of
/// one is sampled at the very points of the west edge of the next.
pub proof fn law_windows_of_one_source_meet(
    fa: HeightField,
    fb: HeightField,
    den: i64,
    v: Coord,
)
    requires
        fa.wf(),
        fb.wf(),
        fa.data@ == fb.data@,
        fa.window.dz == fb.window.dz,
        fa.window.qx + 1 == fb.window.qx,
        fa.window.qy == fb.window.qy,
        0 < den <= MAX_COORD_DEN,
        v.on_tile(),
    ensures
        fa.sample_spec(Coord { num: (256 * den) as i64, den }, v) == fb.sample_spec(
            Coord { num: 0, den },
            v,
        ),
{
    let q = fa.window.qx as int;
    let d = den as int;
    assert(256 * q * d + 256 * d == 256 * (q + 1) * d) by (nonlinear_arith);
}

/// Neighbouring windows of one source meet without a gap, north to south.
pub proof fn law_windows_of_one_source_meet_below(
    fa: HeightField,
    fb: HeightField,
    den: i64,
    u: Coord,
)
    requires
        fa.wf(),
        fb.wf(),
        fa.data@ == fb.data@,
        fa.window.dz == fb.window.dz,
        fa.window.qx == fb.window.qx,
        fa.window.qy + 1 == fb.window.qy,
        0 < den <= MAX_COORD_DEN,
        u.on_tile(),
    ensures
        fa.sample_spec(u, Coord { num: (256 * den) as i64, den }) == fb.sample_spec(
            u,
            Coord { num: 0, den },
        ),
{
    let q = fa.window.qy as int;
    let d = den as int;
    assert(256 * q * d + 256 * d == 256 * (q + 1) * d) by (nonlinear_arith);
}

/// On the source's own tile, a sample at a texel centre is that texel.
pub proof fn law_texel_centres_are_exact(f: HeightField, i: int, j: int)
    requires
        f.wf(),
        f.window == (Window { dz: 0, qx: 0, qy: 0 }),
        0 <= i < 256,
        0 <= j < 256,
    ensures
        ({
            let s = f.sample_spec(
                Coord { num: (2 * i + 1) as i64, den: 2 },
                Coord { num: (2 * j + 1) as i64, den: 2 },
            );
            s.height_num() == f.texel(i + 1, j + 1) * (s.x.den * s.y.den)
        }),
{
    vstd::arithmetic::power2::lemma2_to64();
    let u = Coord { num: (2 * i + 1) as i64, den: 2 };
    let v = Coord { num: (2 * j + 1) as i64, den: 2 };
    assert(axis_num(0, 0, u) == 4 * i + 4);
    assert(axis_num(0, 0, v) == 4 * j + 4);
    assert(axis_den(0, u) == 4);
    let s = f.sample_spec(u, v);
    assert(s.x.rem == 0 && s.x.den == 4 && s.y.rem == 0 && s.y.den == 4);
    assert(s.nw == f.texel(i + 1, j + 1));
    let h = s.nw as int;
    assert((h * (4 - 0) + s.ne * 0) * (4 - 0) + (s.sw * (4 - 0) + s.se * 0) * 0 == h * (4 * 4))
        by (nonlinear_arith);
}

/// A sampled height never leaves the range of its four texels.
pub proof fn law_samples_stay_in_range(s: Sample, lo: int, hi: int)
    requires
        s.wf(),
        lo <= s.nw <= hi,
        lo <= s.ne <= hi,
        lo <= s.sw <= hi,
        lo <= s.se <= hi,
    ensures
        lo * (s.x.den * s.y.den) <= s.height_num() <= hi * (s.x.den * s.y.den),
{
    let dx = s.x.den as int;
    let rx = s.x.rem as int;
    let dy = s.y.den as int;
    let ry = s.y.rem as int;
    let top = s.nw * (dx - rx) + s.ne * rx;
    let bottom = s.sw * (dx - rx) + s.se * rx;
    lemma_weighted_mean(s.nw as int, s.ne as int, rx, dx, lo, hi);
    lemma_weighted_mean(s.sw as int, s.se as int, rx, dx, lo, hi);
    lemma_weighted_mean(top, bottom, ry, dy, lo * dx, hi * dx);
    assert(lo * dx * dy == lo * (dx * dy)) by (nonlinear_arith);
    assert(hi * dx * dy == hi * (dx * dy)) by (nonlinear_arith);
}

proof fn lemma_weighted_mean(a: int, b: int, r: int, d: int, lo: int, hi: int)
    requires
        0 <= r < d,
        lo <= a <= hi,
        lo <= b <= hi,
    ensures
        lo * d <= a * (d - r) + b * r <= hi * d,
{
    assert(lo * (d - r) <= a * (d - r) <= hi * (d - r)) by (nonlinear_arith)
        requires
            lo <= a <= hi,
            r < d,
    ;
    assert(lo * r <= b * r <= hi * r) by (nonlinear_arith)
        requires
            lo <= b <= hi,
            0 <= r,
    ;
    assert(lo * (d - r) + lo * r == lo * d) by (nonlinear_arith);
    assert(hi * (d - r) + hi * r == hi * d) by (nonlinear_arith);
}

/// A window of a window is one window.
pub proof fn law_windows_compose(
    w: Window,
    dz1: u8,
    qx1: u32,
    qy1: u32,
    dz2: u8,
    qx2: u32,
    qy2: u32,
)
    requires
        w.wf(),
        w.dz + dz1 + dz2 <= MAX_WINDOW_DEPTH,
        qx1 < pow2(dz1 as nat),
        qy1 < pow2(dz1 as nat),
        qx2 < pow2(dz2 as nat),
        qy2 < pow2(dz2 as nat),
    ensures
        w.then_spec(dz1, qx1, qy1).then_spec(dz2, qx2, qy2) == w.then_spec(
            (dz1 + dz2) as u8,
            (qx1 * pow2(dz2 as nat) + qx2) as u32,
            (qy1 * pow2(dz2 as nat) + qy2) as u32,
        ),
{
    let a = pow2(dz1 as nat) as int;
    let b = pow2(dz2 as nat) as int;
    lemma_window_then(w, dz1, qx1, qy1);
    lemma_window_then(w.then_spec(dz1, qx1, qy1), dz2, qx2, qy2);
    let inner = Window { dz: dz1, qx: qx1, qy: qy1 };
    lemma_window_then(inner, dz2, qx2, qy2);
    vstd::arithmetic::power2::lemma_pow2_adds(dz1 as nat, dz2 as nat);
    assert((w.qx * a + qx1) * b + qx2 == w.qx * (a * b) + (qx1 * b + qx2)) by (nonlinear_arith);
    assert((w.qy * a + qy1) * b + qy2 == w.qy * (a * b) + (qy1 * b + qy2)) by (nonlinear_arith);
}

/// A Terrarium texel is metres: red counts 256 of them, green single ones and
/// blue 256ths, all from 32768 m below sea level; there is one height for
/// every texel.
pub proof fn law_terrarium_counts_metres(pixels: Seq<[u8; 3]>, k: int)
    requires
        0 <= k < pixels.len(),
    ensures
        terrarium_heights(pixels).len() == pixels.len(),
        terrarium_heights(pixels)[k] + 256 * 32768 == 256 * (256 * pixels[k]@[0]
            + pixels[k]@[1]) + pixels[k]@[2],
{
}

/// Heights are decoded from 256×256 images and from no other.
pub proof fn law_heightmaps_are_256_square(
    w: u32,
    h: u32,
    pixels: Seq<[u8; 3]>,
    what: Seq<char>,
)
    ensures
        heights_spec(w, h, pixels, what) is Ok <==> w == 256 && h == 256,
        heights_spec(w, h, pixels, what) is Ok ==> {
            let heights = heights_spec(w, h, pixels, what)->Ok_0;
            &&& heights.len() == pixels.len()
            &&& forall|k: int|
                0 <= k < pixels.len() ==> #[trigger] heights[k] == 65536 * pixels[k]@[0] + 256
                    * pixels[k]@[1] + pixels[k]@[2] - 8388608
        },
        heights_spec(w, h, pixels, what) is Err ==> heights_spec(w, h, pixels, what)->Err_0
            is Decode,
{
}

/// The centre of a padded field is the tile's own heightmap, row by row and
/// column by column, whichever neighbours are there: they decide the outer
/// ring only.
pub proof fn law_centre_is_the_tile(
    f: HeightField,
    tile: Seq<i32>,
    ring: Seq<Option<Seq<i32>>>,
    i: int,
    j: int,
)
    requires
        is_padded(f, tile, ring),
        0 <= i < 256,
        0 <= j < 256,
    ensures
        f.data@[(j + 1) * 258 + (i + 1)] == tile[j * 256 + i],
{
    assert(f.texel(i + 1, j + 1) == padded_texel(tile, ring, i + 1, j + 1));
}

/// `map` shows the 256×256 texels of `ground` from column `x0` and row `y0` on.
pub open spec fn shows_ground(
    map: Option<Seq<i32>>,
    ground: spec_fn(int, int) -> i32,
    x0: int,
    y0: int,
) -> bool {
    map is Some && forall|i: int, j: int|
        0 <= i < 256 && 0 <= j < 256 ==> #[trigger] map->0[j * 256 + i] == ground(x0 + i, y0 + j)
}

/// Where a tile and its 8 neighbours show one ground, the padded field shows
/// it, too: one texel further than the tile on every side, with no seam and
/// no shift, corners included.
pub proof fn law_padded_fields_continue_the_ground(
    f: HeightField,
    tile: Seq<i32>,
    ring: Seq<Option<Seq<i32>>>,
    ground: spec_fn(int, int) -> i32,
    x: int,
    y: int,
)
    requires
        is_padded(f, tile, ring),
        shows_ground(Some(tile), ground, 0, 0),
        shows_ground(ring[0], ground, -256, -256),
        shows_ground(ring[1], ground, 0, -256),
        shows_ground(ring[2], ground, 256, -256),
        shows_ground(ring[3], ground, -256, 0),
        shows_ground(ring[4], ground, 256, 0),
        shows_ground(ring[5], ground, -256, 256),
        shows_ground(ring[6], ground, 0, 256),
        shows_ground(ring[7], ground, 256, 256),
        0 <= x < 258,
        0 <= y < 258,
    ensures
        f.data@[y * 258 + x] == ground(x - 1, y - 1),
{
    assert(f.texel(x, y) == padded_texel(tile, ring, x, y));
    if y == 0 && x == 0 {
        assert(ring[0]->0[65535] == ground(-1, -1));
    } else if y == 0 && x == 257 {
        assert(ring[2]->0[65280] == ground(256, -1));
    } else if y == 257 && x == 0 {
        assert(ring[5]->0[255] == ground(-1, 256));
    } else if y == 257 && x == 257 {
        assert(ring[7]->0[0] == ground(256, 256));
    } else if y == 0 {
        assert(ring[1]->0[255 * 256 + (x - 1)] == ground((x - 1), -1));
    } else if y == 257 {
        assert(ring[6]->0[x - 1] == ground((x - 1), 256));
    } else if x == 0 {
        assert(ring[3]->0[(y - 1) * 256 + 255] == ground(-1, (y - 1)));
    } else if x == 257 {
        assert(ring[4]->0[(y - 1) * 256] == ground(256, (y - 1)));
    } else {
        assert(Some(tile)->0[(y - 1) * 256 + (x - 1)] == ground((x - 1), (y - 1)));
    }
}

/// Whichever neighbours are there, a pad texel on an edge is the facing texel
/// of the neighbour on that side, else the tile's own texel beside it.
pub proof fn law_edges_are_borrowed_or_repeated(
    f: HeightField,
    tile: Seq<i32>,
    ring: Seq<Option<Seq<i32>>>,
    k: int,
)
    requires
        is_padded(f, tile, ring),
        0 <= k < 256,
    ensures
        f.data@[k + 1] == (if ring[1] is Some {
            ring[1]->0[255 * 256 + k]
        } else {
            tile[k]
        }),
        f.data@[257 * 258 + k + 1] == (if ring[6] is Some {
            ring[6]->0[k]
        } else {
            tile[255 * 256 + k]
        }),
        f.data@[(k + 1) * 258] == (if ring[3] is Some {
            ring[3]->0[k * 256 + 255]
        } else {
            tile[k * 256]
        }),
        f.data@[(k + 1) * 258 + 257] == (if ring[4] is Some {
            ring[4]->0[k * 256]
        } else {
            tile[k * 256 + 255]
        }),
{
    assert(f.texel(k + 1, 0) == padded_texel(tile, ring, k + 1, 0));
    assert(f.texel(k + 1, 257) == padded_texel(tile, ring, k + 1, 257));
    assert(f.texel(0, k + 1) == padded_texel(tile, ring, 0, k + 1));
    assert(f.texel(257, k + 1) == padded_texel(tile, ring, 257, k + 1));
}

/// The first of the maps that is there gives its texel; else the tile does.
pub open spec fn first_there(
    a: Option<Seq<i32>>,
    ai: int,
    b: Option<Seq<i32>>,
    bi: int,
    c: Option<Seq<i32>>,
    ci: int,
    tile: Seq<i32>,
    ti: int,
) -> i32 {
    if a is Some {
        a->0[ai]
    } else if b is Some {
        b->0[bi]
    } else if c is Some {
        c->0[ci]
    } else {
        tile[ti]
    }
}

/// Whichever neighbours are there, a corner of the pad is the texel nearest
/// to it of the diagonal neighbour; else of the one to the west or east; else
/// of the one to the north or south; else of the tile itself.
pub proof fn law_corners_are_the_nearest_texels(
    f: HeightField,
    tile: Seq<i32>,
    ring: Seq<Option<Seq<i32>>>,
)
    requires
        is_padded(f, tile, ring),
    ensures
        f.data@[0] == first_there(
            ring[0],
            65535,
            ring[3],
            255,
            ring[1],
            65280,
            tile,
            0,
        ),
        f.data@[257] == first_there(
            ring[2],
            65280,
            ring[4],
            0,
            ring[1],
            65535,
            tile,
            255,
        ),
        f.data@[66306] == first_there(
            ring[5],
            255,
            ring[3],
            65535,
            ring[6],
            0,
            tile,
            65280,
        ),
        f.data@[66563] == first_there(
            ring[7],
            0,
            ring[4],
            65280,
            ring[6],
            255,
            tile,
            65535,
        ),
{
    assert(f.texel(0, 0) == padded_texel(tile, ring, 0, 0));
    assert(f.texel(257, 0) == padded_texel(tile, ring, 257, 0));
    assert(f.texel(0, 257) == padded_texel(tile, ring, 0, 257));
    assert(f.texel(257, 257) == padded_texel(tile, ring, 257, 257));
}

/// Sampling is exact on every ground that varies evenly along both axes.
/// Over texels `a·x·y + b·x + c·y + d` the sample at `(u, v)` of the window
/// is the value at the window's place: `(256·qx + u) / 2^dz` texels from the
/// west edge of the source and `(256·qy + v) / 2^dz` from its north edge,
/// each half a texel further in the field for the pad.
pub proof fn law_samples_read_the_windows_place(
    f: HeightField,
    u: Coord,
    v: Coord,
    a: int,
    b: int,
    c: int,
    d: int,
)
    requires
        f.wf(),
        u.on_tile(),
        v.on_tile(),
        forall|x: int, y: int|
            0 <= x < 258 && 0 <= y < 258 ==> #[trigger] f.data@[y * 258 + x] == a * (x * y) + b * x
                + c * y + d,
    ensures
        ({
            let s = f.sample_spec(u, v);
            let n = pow2(f.window.dz as nat);
            let xd = 2 * (u.den * n);
            let yd = 2 * (v.den * n);
            let x = 2 * (256 * f.window.qx * u.den + u.num) + u.den * n;
            let y = 2 * (256 * f.window.qy * v.den + v.num) + v.den * n;
            &&& s.x.den == xd
            &&& s.y.den == yd
            &&& s.height_num() == a * (x * y) + b * (x * yd) + c * (xd * y) + d * (xd * yd)
        }),
{
    let w = f.window;
    lemma_depth_bound(w.dz as nat);
    lemma_axis_bounds(w.dz, w.qx, u);
    lemma_axis_bounds(w.dz, w.qy, v);
    lemma_even_samples(
        f,
        axis_num(w.dz, w.qx, u),
        axis_den(w.dz, u),
        axis_num(w.dz, w.qy, v),
        axis_den(w.dz, v),
        a,
        b,
        c,
        d,
    );
}

/// A sample of even ground at any position of the padded field.
pub proof fn lemma_even_samples(
    f: HeightField,
    xn: int,
    xd: int,
    yn: int,
    yd: int,
    a: int,
    b: int,
    c: int,
    d: int,
)
    requires
        f.wf(),
        0 < xd <= 0x200_0000_0000,
        0 < yd <= 0x200_0000_0000,
        0 <= xn <= 257 * xd,
        0 <= yn <= 257 * yd,
        forall|x: int, y: int|
            0 <= x < 258 && 0 <= y < 258 ==> #[trigger] f.data@[y * 258 + x] == a * (x * y) + b * x
                + c * y + d,
    ensures
        ({
            let s = f.sample_at(xn, xd, yn, yd);
            &&& s.x.den == xd
            &&& s.y.den == yd
            &&& s.height_num() == a * (xn * yn) + b * (xn * yd) + c * (xd * yn) + d * (xd * yd)
        }),
{
    let (x, y) = (xn / xd, yn / yd);
    let (rx, ry) = (xn % xd, yn % yd);
    lemma_quotient_bound(xn, xd);
    lemma_quotient_bound(yn, yd);
    vstd::arithmetic::div_mod::lemma_fundamental_div_mod(xn, xd);
    vstd::arithmetic::div_mod::lemma_fundamental_div_mod(yn, yd);
    vstd::arithmetic::div_mod::lemma_mod_bound(xn, xd);
    vstd::arithmetic::div_mod::lemma_mod_bound(yn, yd);
    assert(xd * x == x * xd && yd * y == y * yd) by (nonlinear_arith);
    assert(x == 257 ==> rx == 0);
    assert(y == 257 ==> ry == 0);
    let s = f.sample_at(xn, xd, yn, yd);
    let nw = a * (x * y) + b * x + c * y + d;
    let ne = a * ((x + 1) * y) + b * (x + 1) + c * y + d;
    let sw = a * (x * (y + 1)) + b * x + c * (y + 1) + d;
    let se = a * ((x + 1) * (y + 1)) + b * (x + 1) + c * (y + 1) + d;
    assert(s.nw == f.data@[y * 258 + x]);
    assert(x < 257 ==> s.ne == f.data@[y * 258 + (x + 1)]);
    assert(y < 257 ==> s.sw == f.data@[(y + 1) * 258 + x]);
    assert(x < 257 && y < 257 ==> s.se == f.data@[(y + 1) * 258 + (x + 1)]);
    assert(s.nw == nw && (x < 257 ==> s.ne == ne) && (y < 257 ==> s.sw == sw));
    assert(x < 257 && y < 257 ==> s.se == se);
    assert(s.ne * rx == ne * rx) by {
        if x == 257 {
            assert(s.ne * 0 == 0 && ne * 0 == 0);
        }
    }
    assert((s.sw * (xd - rx) + s.se * rx) * ry == (sw * (xd - rx) + se * rx) * ry) by {
        if y == 257 {
            let (p, q) = (s.sw * (xd - rx) + s.se * rx, sw * (xd - rx) + se * rx);
            assert(p * 0 == 0 && q * 0 == 0);
        } else if x == 257 {
            assert(s.se * 0 == 0 && se * 0 == 0);
        }
    }
    lemma_even_ground(a, b, c, d, x, y, rx, xd, ry, yd);
}

proof fn lemma_spread(k: int, y: int, m: int, p: int, dy: int)
    ensures
        ((k * y + m) * p) * dy == (k * p) * (y * dy) + m * (p * dy),
{
    assert((k * y + m) * p == (k * y) * p + m * p) by (nonlinear_arith);
    let g = (k * y) * p;
    assert(g == (k * p) * y) by (nonlinear_arith)
        requires
            g == (k * y) * p,
    ;
    let e = k * p;
    assert((e * y + m * p) * dy == e * (y * dy) + m * (p * dy)) by (nonlinear_arith);
}

proof fn lemma_even_row(e: int, g: int, x: int, r: int, dx: int)
    ensures
        (e * x + g) * (dx - r) + (e * x + g + e) * r == e * (x * dx + r) + g * dx,
{
    let h = e * x + g;
    assert(h * (dx - r) + (h + e) * r == h * dx + e * r) by (nonlinear_arith);
    assert((e * x + g) * dx == e * (x * dx) + g * dx) by (nonlinear_arith);
    assert(e * (x * dx + r) == e * (x * dx) + e * r) by (nonlinear_arith);
}

proof fn lemma_even_ground(
    a: int,
    b: int,
    c: int,
    d: int,
    x: int,
    y: int,
    r: int,
    dx: int,
    t: int,
    dy: int,
)
    ensures
        bilinear(
            a * (x * y) + b * x + c * y + d,
            a * ((x + 1) * y) + b * (x + 1) + c * y + d,
            a * (x * (y + 1)) + b * x + c * (y + 1) + d,
            a * ((x + 1) * (y + 1)) + b * (x + 1) + c * (y + 1) + d,
            r,
            dx,
            t,
            dy,
        ) == a * ((x * dx + r) * (y * dy + t)) + b * ((x * dx + r) * dy) + c * (dx * (y * dy + t))
            + d * (dx * dy),
{
    let p = x * dx + r;
    let q = y * dy + t;
    let nw = a * (x * y) + b * x + c * y + d;
    let ne = a * ((x + 1) * y) + b * (x + 1) + c * y + d;
    let sw = a * (x * (y + 1)) + b * x + c * (y + 1) + d;
    let se = a * ((x + 1) * (y + 1)) + b * (x + 1) + c * (y + 1) + d;
    let e = a * y + b;
    let g = c * y + d;
    let xy = x * y;
    assert((x + 1) * y == xy + y && x * (y + 1) == xy + x && (x + 1) * (y + 1) == xy + x + y + 1)
        by (nonlinear_arith)
        requires
            xy == x * y,
    ;
    assert(a * (xy + y) == a * xy + a * y) by (nonlinear_arith);
    assert(a * (xy + x) == a * xy + a * x) by (nonlinear_arith);
    assert(a * (xy + x + y + 1) == a * xy + a * x + a * y + a) by (nonlinear_arith);
    assert(b * (x + 1) == b * x + b && c * (y + 1) == c * y + c) by (nonlinear_arith);
    assert((a * y + b) * x == (a * y) * x + b * x) by (nonlinear_arith);
    assert((a * y) * x == a * xy) by (nonlinear_arith)
        requires
            xy == x * y,
    ;
    assert(ne == nw + e && nw == e * x + g && sw == nw + a * x + c && se == sw + e + a);
    let top = nw * (dx - r) + ne * r;
    let bottom = sw * (dx - r) + se * r;
    let f = e + a;
    let k = g + c;
    assert(f * x == e * x + a * x) by (nonlinear_arith)
        requires
            f == e + a,
    ;
    lemma_even_row(e, g, x, r, dx);
    lemma_even_row(f, k, x, r, dx);
    assert(f * p == e * p + a * p && k * dx == g * dx + c * dx) by (nonlinear_arith)
        requires
            f == e + a,
            k == g + c,
    ;
    assert(top * (dy - t) + bottom * t == top * dy + (a * p + c * dx) * t) by (nonlinear_arith)
        requires
            bottom == top + a * p + c * dx,
    ;
    assert(top * dy == (e * p) * dy + (g * dx) * dy) by (nonlinear_arith)
        requires
            top == e * p + g * dx,
    ;
    lemma_spread(a, y, b, p, dy);
    lemma_spread(c, y, d, dx, dy);
    assert((a * p) * (y * dy) + (a * p) * t == a * (p * q)) by (nonlinear_arith)
        requires
            q == y * dy + t,
    ;
    assert((c * dx) * (y * dy) + (c * dx) * t == c * (dx * q)) by (nonlinear_arith)
        requires
            q == y * dy + t,
    ;
    assert((a * p + c * dx) * t == (a * p) * t + (c * dx) * t) by (nonlinear_arith);
}

/// A window only chooses where a field is looked at: a sample at `(u, v)` of
/// the square `(qx, qy)`, `dz` levels down, is the field's own sample at
/// `(qx·256 + u) / 2^dz`, `(qy·256 + v) / 2^dz`.
pub proof fn law_windows_choose_the_place(
    f: HeightField,
    g: HeightField,
    dz: u8,
    qx: u32,
    qy: u32,
    u: Coord,
    v: Coord,
)
    requires
        f.wf(),
        f.window.dz + dz <= MAX_WINDOW_DEPTH,
        qx < pow2(dz as nat),
        qy < pow2(dz as nat),
        g.data@ == f.data@,
        g.window == f.window.then_spec(dz, qx, qy),
        u.on_tile(),
        v.on_tile(),
    ensures
        g.window.dz == f.window.dz + dz,
        g.sample_spec(u, v) == f.sample_spec(
            Coord {
                num: (256 * qx * u.den + u.num) as i64,
                den: (u.den * pow2(dz as nat)) as i64,
            },
            Coord {
                num: (256 * qy * v.den + v.num) as i64,
                den: (v.den * pow2(dz as nat)) as i64,
            },
        ),
{
    lemma_window_then(f.window, dz, qx, qy);
    lemma_axis_bounds(dz, qx, u);
    lemma_axis_bounds(dz, qy, v);
    lemma_shifted(f.window, dz, f.window.qx, qx, u);
    lemma_shifted(f.window, dz, f.window.qy, qy, v);
}

proof fn lemma_shifted(w: Window, dz: u8, q0: u32, q: u32, c: Coord)
    requires
        w.wf(),
        w.dz + dz <= MAX_WINDOW_DEPTH,
        q0 * pow2(dz as nat) + q <= u32::MAX,
        0 <= 256 * q * c.den + c.num <= i64::MAX,
        0 < c.den * pow2(dz as nat) <= i64::MAX,
    ensures
        ({
            let there = Coord {
                num: (256 * q * c.den + c.num) as i64,
                den: (c.den * pow2(dz as nat)) as i64,
            };
            let both = (w.dz + dz) as u8;
            let at = (q0 * pow2(dz as nat) + q) as u32;
            &&& axis_num(both, at, c) == axis_num(w.dz, q0, there)
            &&& axis_den(both, c) == axis_den(w.dz, there)
        }),
{
    let n = pow2(dz as nat) as int;
    let m = pow2(w.dz as nat) as int;
    let d = c.den as int;
    let q0i = q0 as int;
    let qi = q as int;
    vstd::arithmetic::power2::lemma_pow2_adds(w.dz as nat, dz as nat);
    assert(256 * (q0i * n + qi) * d == 256 * q0i * (d * n) + 256 * qi * d) by (nonlinear_arith);
    assert(d * (m * n) == (d * n) * m) by (nonlinear_arith);
}

/// A heightmap file is one that decodes to 256×256 texels, each of them its
/// height; any other fails, naming the asset.
pub proof fn law_heightmap_files_hold_their_heights(bytes: Seq<u8>, what: Seq<char>)
    ensures
        match heightmap_spec(bytes, what) {
            Ok(heights) => match codec::loaded_rgb8(bytes) {
                Ok((w, h, pixels)) => w == 256 && h == 256 && heights.len() == pixels.len() && (
                forall|k: int|
                    0 <= k < pixels.len() ==> #[trigger] heights[k] == 65536 * pixels[k]@[0] + 256
                        * pixels[k]@[1] + pixels[k]@[2] - 8388608),
                Err(_) => false,
            },
            Err(e) => {
                &&& e is Decode
                &&& e->Decode_what == what
                &&& match codec::loaded_rgb8(bytes) {
                    Ok((w, h, _)) => w != 256 || h != 256,
                    Err(cause) => e->Decode_reason == codec::error_text(cause),
                }
            },
        },
{
}

} // verus!
