//! Tile identity: validation, neighbours, ancestors and quadrants of the
//! slippy-map grid.

use crate::error::{Error, ErrorView};
use crate::text;
use vstd::arithmetic::power2::pow2;
use vstd::prelude::*;

verus! {

/// Lowest zoom the builder accepts. Low zooms are just big tiles.
pub const MIN_ZOOM: u8 = 1;

/// Highest zoom the builder accepts (imagery providers stop around here).
pub const MAX_ZOOM: u8 = 22;

/// A slippy-map tile address: `zoom/x/y`, `y` increasing southward.
#[derive(Clone, Copy, Debug, PartialEq, Eq, Hash, Structural)]
pub struct TileId {
    /// Zoom level in `[MIN_ZOOM, MAX_ZOOM]`.
    pub zoom: u8,
    /// Column in `[0, 2^zoom)`, west → east.
    pub x: u32,
    /// Row in `[0, 2^zoom)`, north → south.
    pub y: u32,
}

/// `2^e`.
pub fn two_to(e: u8) -> (n: u64)
    requires
        e < 64,
    ensures
        n == pow2(e as nat),
        n > 0,
{
    proof {
        vstd::bits::lemma_u64_pow2_no_overflow(e as nat);
        vstd::bits::lemma_u64_shl_is_mul(1, e as u64);
        vstd::arithmetic::power2::lemma_pow2_pos(e as nat);
    }
    1u64 << (e as u64)
}

/// `2^zoom` at the zooms of the grid is at most `2^31`.
pub proof fn lemma_axis_bound(zoom: nat)
    ensures
        pow2(zoom) > 0,
        zoom < 32 ==> pow2(zoom) <= 0x8000_0000,
        zoom <= MAX_ZOOM ==> pow2(zoom) <= 0x40_0000,
{
    vstd::arithmetic::power2::lemma_pow2_pos(zoom);
    vstd::arithmetic::power2::lemma2_to64();
    if zoom < 31 {
        vstd::arithmetic::power2::lemma_pow2_strictly_increases(zoom, 31);
    }
    if zoom < MAX_ZOOM {
        vstd::arithmetic::power2::lemma_pow2_strictly_increases(zoom, MAX_ZOOM as nat);
    }
}

/// The message for a zoom out of range.
pub open spec fn zoom_message(zoom: u8) -> Seq<char> {
    "zoom "@ + text::decimal_text(zoom as nat) + " outside 1..=22"@
}

/// The message for a column or row out of range.
pub open spec fn cell_message(zoom: u8, x: u32, y: u32) -> Seq<char> {
    "x/y ("@ + text::decimal_text(x as nat) + ", "@ + text::decimal_text(y as nat)
        + ") outside 0.."@ + text::decimal_text(pow2(zoom as nat)) + " at zoom "@
        + text::decimal_text(zoom as nat)
}

fn zoom_error(zoom: u8) -> (e: Error)
    ensures
        e@ == ErrorView::InvalidTile(zoom_message(zoom)),
{
    let z: String = text::decimal(zoom as u64);
    Error::InvalidTile(text::join3("zoom ", z.as_str(), " outside 1..=22"))
}

fn cell_error(zoom: u8, x: u32, y: u32) -> (e: Error)
    requires
        zoom < 64,
    ensures
        e@ == ErrorView::InvalidTile(cell_message(zoom, x, y)),
{
    let xs: String = text::decimal(x as u64);
    let ys: String = text::decimal(y as u64);
    let ns: String = text::decimal(two_to(zoom));
    let zs: String = text::decimal(zoom as u64);
    let mut m: String = text::join3("x/y (", xs.as_str(), ", ");
    m.append(ys.as_str());
    m.append(") outside 0..");
    m.append(ns.as_str());
    m.append(" at zoom ");
    m.append(zs.as_str());
    Error::InvalidTile(m)
}

/// The zooms the builder accepts.
pub open spec fn zoom_ok(zoom: u8) -> bool {
    MIN_ZOOM <= zoom <= MAX_ZOOM
}

impl TileId {
    /// The address lies in the grid.
    pub open spec fn valid(self) -> bool {
        zoom_ok(self.zoom) && self.x < pow2(self.zoom as nat) && self.y < pow2(self.zoom as nat)
    }

    /// The tile `(dx, dy)` cells away, where the grid has one.
    pub open spec fn offset_spec(self, dx: int, dy: int) -> Option<TileId> {
        let n = pow2(self.zoom as nat);
        if 0 <= self.x + dx < n && 0 <= self.y + dy < n {
            Some(TileId { zoom: self.zoom, x: (self.x + dx) as u32, y: (self.y + dy) as u32 })
        } else {
            None
        }
    }

    /// The tile at `zoom` that covers this one, for `zoom <= self.zoom`.
    pub open spec fn ancestor_spec(self, zoom: u8) -> TileId {
        let n = pow2((self.zoom - zoom) as nat);
        TileId { zoom, x: (self.x as nat / n) as u32, y: (self.y as nat / n) as u32 }
    }

    /// Column of this tile inside the square of its `zoom` ancestor, counted
    /// in tiles of this zoom.
    pub open spec fn window_x(self, zoom: u8) -> nat {
        self.x as nat % pow2((self.zoom - zoom) as nat)
    }

    /// Row of this tile inside the square of its `zoom` ancestor.
    pub open spec fn window_y(self, zoom: u8) -> nat {
        self.y as nat % pow2((self.zoom - zoom) as nat)
    }

    /// The quadrant `(dx, dy)` of this tile one zoom deeper.
    pub open spec fn child_spec(self, dx: int, dy: int) -> TileId {
        TileId {
            zoom: (self.zoom + 1) as u8,
            x: (self.x * 2 + dx) as u32,
            y: (self.y * 2 + dy) as u32,
        }
    }

    /// The address as text, `zoom/x/y`.
    pub open spec fn text(self) -> Seq<char> {
        text::decimal_text(self.zoom as nat) + "/"@ + text::decimal_text(self.x as nat) + "/"@
            + text::decimal_text(self.y as nat)
    }

    /// Validated constructor.
    pub fn new(zoom: u8, x: u32, y: u32) -> (r: Result<TileId, Error>)
        ensures
            r is Ok <==> (TileId { zoom, x, y }).valid(),
            r is Ok ==> r->Ok_0 == (TileId { zoom, x, y }),
            !zoom_ok(zoom) ==> r is Err && r->Err_0@ == ErrorView::InvalidTile(zoom_message(zoom)),
            zoom_ok(zoom) && r is Err ==> r->Err_0@ == ErrorView::InvalidTile(
                cell_message(zoom, x, y),
            ),
    {
        if zoom < MIN_ZOOM || zoom > MAX_ZOOM {
            return Err(zoom_error(zoom));
        }
        let n: u64 = two_to(zoom);
        if x as u64 >= n || y as u64 >= n {
            return Err(cell_error(zoom, x, y));
        }
        Ok(TileId { zoom, x, y })
    }

    /// Number of tiles per axis at this zoom.
    pub fn tiles_per_axis(&self) -> (n: u64)
        requires
            self.zoom < 64,
        ensures
            n == pow2(self.zoom as nat),
    {
        two_to(self.zoom)
    }

    /// The tile at `zoom` whose column and row are `col` and `row`, each
    /// brought into the grid: a projected coordinate on the far edge belongs
    /// to the last cell.
    pub fn from_cell(zoom: u8, col: u32, row: u32) -> (r: Result<TileId, Error>)
        ensures
            r is Ok <==> zoom_ok(zoom),
            r is Ok ==> {
                let last = pow2(zoom as nat) - 1;
                &&& r->Ok_0.valid()
                &&& r->Ok_0.zoom == zoom
                &&& r->Ok_0.x == if col <= last { col as int } else { last }
                &&& r->Ok_0.y == if row <= last { row as int } else { last }
            },
            r is Err ==> r->Err_0@ == ErrorView::InvalidTile(zoom_message(zoom)),
    {
        if zoom < MIN_ZOOM || zoom > MAX_ZOOM {
            return Err(zoom_error(zoom));
        }
        proof {
            lemma_axis_bound(zoom as nat);
        }
        let last: u32 = (two_to(zoom) - 1) as u32;
        let x: u32 = if col <= last {
            col
        } else {
            last
        };
        let y: u32 = if row <= last {
            row
        } else {
            last
        };
        Ok(TileId { zoom, x, y })
    }

    /// The tile offset by `(dx, dy)` at the same zoom, or `None` if that
    /// leaves the grid. No antimeridian wrap.
    pub fn offset(&self, dx: i32, dy: i32) -> (r: Option<TileId>)
        requires
            self.zoom < 63,
        ensures
            r == self.offset_spec(dx as int, dy as int),
            r is Some && zoom_ok(self.zoom) ==> r->0.valid(),
    {
        proof {
            lemma_axis_bound(self.zoom as nat);
            vstd::arithmetic::power2::lemma2_to64();
            vstd::arithmetic::power2::lemma2_to64_rest();
            if self.zoom < 62 {
                vstd::arithmetic::power2::lemma_pow2_strictly_increases(self.zoom as nat, 62);
            }
        }
        let n: i64 = self.tiles_per_axis() as i64;
        let x: i64 = self.x as i64 + dx as i64;
        let y: i64 = self.y as i64 + dy as i64;
        if x < 0 || y < 0 || x >= n || y >= n {
            return None;
        }
        Some(TileId { zoom: self.zoom, x: x as u32, y: y as u32 })
    }

    /// The 8 neighbours in row-major order around the tile:
    /// `NW, N, NE, W, E, SW, S, SE`. `None` where the grid ends.
    pub fn neighbours(&self) -> (r: [Option<TileId>; 8])
        requires
            self.zoom < 63,
        ensures
            r@ == neighbours_spec(*self),
    {
        let r: [Option<TileId>; 8] = [
            self.offset(-1, -1),
            self.offset(0, -1),
            self.offset(1, -1),
            self.offset(-1, 0),
            self.offset(1, 0),
            self.offset(-1, 1),
            self.offset(0, 1),
            self.offset(1, 1),
        ];
        assert(r@ =~= neighbours_spec(*self));
        r
    }

    /// The tile at `zoom` that covers this one, and this tile's column and
    /// row inside it, counted in tiles of this tile's own zoom.
    pub fn ancestor(&self, zoom: u8) -> (r: (TileId, u32, u32))
        requires
            zoom <= self.zoom < 32,
        ensures
            r.0 == self.ancestor_spec(zoom),
            r.1 == self.window_x(zoom),
            r.2 == self.window_y(zoom),
            r.1 < pow2((self.zoom - zoom) as nat),
            r.2 < pow2((self.zoom - zoom) as nat),
            self.valid() && zoom >= MIN_ZOOM ==> r.0.valid(),
    {
        let dz: u8 = self.zoom - zoom;
        proof {
            lemma_axis_bound(dz as nat);
            lemma_ancestor_valid(*self, zoom);
        }
        let n: u32 = two_to(dz) as u32;
        (TileId { zoom, x: self.x / n, y: self.y / n }, self.x % n, self.y % n)
    }

    /// The quadrant `(dx, dy)` of this tile one zoom deeper.
    pub fn child(&self, dx: u32, dy: u32) -> (r: TileId)
        requires
            self.valid(),
            self.zoom < MAX_ZOOM,
            dx < 2,
            dy < 2,
        ensures
            r == self.child_spec(dx as int, dy as int),
            r.valid(),
    {
        proof {
            lemma_axis_bound(self.zoom as nat);
            vstd::arithmetic::power2::lemma_pow2_unfold((self.zoom + 1) as nat);
        }
        TileId { zoom: self.zoom + 1, x: self.x * 2 + dx, y: self.y * 2 + dy }
    }

    /// The address as text, `zoom/x/y`.
    pub fn to_string(&self) -> (out: String)
        ensures
            out@ == self.text(),
    {
        let z: String = text::decimal(self.zoom as u64);
        let x: String = text::decimal(self.x as u64);
        let y: String = text::decimal(self.y as u64);
        let mut out: String = text::join3(z.as_str(), "/", x.as_str());
        out.append("/");
        out.append(y.as_str());
        out
    }
}

/// The 8 cells around `t`, row-major, each where the grid has it.
pub open spec fn neighbours_spec(t: TileId) -> Seq<Option<TileId>> {
    seq![
        t.offset_spec(-1, -1),
        t.offset_spec(0, -1),
        t.offset_spec(1, -1),
        t.offset_spec(-1, 0),
        t.offset_spec(1, 0),
        t.offset_spec(-1, 1),
        t.offset_spec(0, 1),
        t.offset_spec(1, 1),
    ]
}

proof fn lemma_ancestor_valid(t: TileId, zoom: u8)
    requires
        zoom <= t.zoom,
    ensures
        t.valid() && zoom >= MIN_ZOOM ==> t.ancestor_spec(zoom).valid(),
        t.x as nat / pow2((t.zoom - zoom) as nat) <= t.x,
        t.y as nat / pow2((t.zoom - zoom) as nat) <= t.y,
{
    let n = pow2((t.zoom - zoom) as nat);
    lemma_axis_bound((t.zoom - zoom) as nat);
    vstd::arithmetic::power2::lemma_pow2_adds((t.zoom - zoom) as nat, zoom as nat);
    let m = pow2(zoom as nat);
    lemma_axis_bound(zoom as nat);
    vstd::arithmetic::div_mod::lemma_div_is_ordered_by_denominator(t.x as int, 1, n as int);
    vstd::arithmetic::div_mod::lemma_div_is_ordered_by_denominator(t.y as int, 1, n as int);
    if t.valid() && zoom >= MIN_ZOOM {
        assert(n * m == pow2(t.zoom as nat));
        vstd::arithmetic::div_mod::lemma_multiply_divide_lt(t.x as int, n as int, m as int);
        vstd::arithmetic::div_mod::lemma_multiply_divide_lt(t.y as int, n as int, m as int);
        assert(m * n == n * m) by (nonlinear_arith);
    }
}

// -- laws ------------------------------------------------------------------------

/// Stepping back undoes stepping away, wherever the grid has the tile.
pub proof fn law_offset_is_undone(t: TileId, dx: int, dy: int)
    requires
        t.valid(),
        t.offset_spec(dx, dy) is Some,
    ensures
        t.offset_spec(dx, dy)->0.valid(),
        t.offset_spec(dx, dy)->0.offset_spec(-dx, -dy) == Some(t),
{
    lemma_axis_bound(t.zoom as nat);
}

/// A tile lies in the square of its ancestor, at the window offset: the
/// ancestor's corner plus the offset is the tile.
pub proof fn law_ancestor_covers(t: TileId, zoom: u8)
    requires
        t.valid(),
        MIN_ZOOM <= zoom <= t.zoom,
    ensures
        t.ancestor_spec(zoom).valid(),
        t.x == t.ancestor_spec(zoom).x * pow2((t.zoom - zoom) as nat) + t.window_x(zoom),
        t.y == t.ancestor_spec(zoom).y * pow2((t.zoom - zoom) as nat) + t.window_y(zoom),
        t.window_x(zoom) < pow2((t.zoom - zoom) as nat),
        t.window_y(zoom) < pow2((t.zoom - zoom) as nat),
{
    let n = pow2((t.zoom - zoom) as nat);
    lemma_axis_bound((t.zoom - zoom) as nat);
    lemma_ancestor_valid(t, zoom);
    vstd::arithmetic::div_mod::lemma_fundamental_div_mod(t.x as int, n as int);
    vstd::arithmetic::div_mod::lemma_fundamental_div_mod(t.y as int, n as int);
    assert(n * (t.x as int / n as int) == (t.x as int / n as int) * n) by (nonlinear_arith);
    assert(n * (t.y as int / n as int) == (t.y as int / n as int) * n) by (nonlinear_arith);
}

/// The ancestor of an ancestor is the ancestor.
pub proof fn law_ancestor_composes(t: TileId, mid: u8, top: u8)
    requires
        t.valid(),
        MIN_ZOOM <= top <= mid <= t.zoom,
    ensures
        t.ancestor_spec(mid).ancestor_spec(top) == t.ancestor_spec(top),
{
    let a = pow2((t.zoom - mid) as nat);
    let b = pow2((mid - top) as nat);
    lemma_axis_bound((t.zoom - mid) as nat);
    lemma_axis_bound((mid - top) as nat);
    lemma_ancestor_valid(t, mid);
    lemma_ancestor_valid(t, top);
    vstd::arithmetic::power2::lemma_pow2_adds((t.zoom - mid) as nat, (mid - top) as nat);
    vstd::arithmetic::div_mod::lemma_div_denominator(t.x as int, a as int, b as int);
    vstd::arithmetic::div_mod::lemma_div_denominator(t.y as int, a as int, b as int);
}

/// The four quadrants of a tile have the tile as their ancestor one zoom up,
/// each at its own window offset.
pub proof fn law_children_descend(t: TileId, dx: int, dy: int)
    requires
        t.valid(),
        t.zoom < MAX_ZOOM,
        0 <= dx < 2,
        0 <= dy < 2,
    ensures
        t.child_spec(dx, dy).valid(),
        t.child_spec(dx, dy).ancestor_spec(t.zoom) == t,
        t.child_spec(dx, dy).window_x(t.zoom) == dx,
        t.child_spec(dx, dy).window_y(t.zoom) == dy,
{
    lemma_axis_bound(t.zoom as nat);
    vstd::arithmetic::power2::lemma_pow2_unfold((t.zoom + 1) as nat);
    vstd::arithmetic::power2::lemma2_to64();
    let c = t.child_spec(dx, dy);
    assert(c.x as nat / 2 == t.x);
    assert(c.y as nat / 2 == t.y);
}

/// Stepping away from a tile keeps its zoom and moves its column and row by
/// exactly the steps, wherever that stays on the grid; off the grid there is
/// no tile, and the grid does not wrap around.
pub proof fn law_offset_moves_by_the_steps(t: TileId, dx: int, dy: int)
    requires
        t.valid(),
    ensures
        t.offset_spec(dx, dy) is Some <==> 0 <= t.x + dx < pow2(t.zoom as nat) && 0 <= t.y + dy
            < pow2(t.zoom as nat),
        t.offset_spec(dx, dy) is Some ==> {
            let n = t.offset_spec(dx, dy)->0;
            n.zoom == t.zoom && n.x == t.x + dx && n.y == t.y + dy && n.valid()
        },
{
    lemma_axis_bound(t.zoom as nat);
}

/// `n` lies `dx` columns and `dy` rows from `t`.
pub open spec fn lies(n: Option<TileId>, t: TileId, dx: int, dy: int) -> bool {
    n is Some ==> n->0.zoom == t.zoom && n->0.x == t.x + dx && n->0.y == t.y + dy
}

/// The neighbours go around a tile row by row from the north-west, the tile
/// itself left out. Each is there unless it would lie off the grid.
pub proof fn law_neighbours_go_around(t: TileId)
    requires
        t.valid(),
    ensures
        ({
            let n = neighbours_spec(t);
            let last = pow2(t.zoom as nat) - 1;
            &&& n.len() == 8
            &&& lies(n[0], t, -1, -1) && (n[0] is Some <==> t.x > 0 && t.y > 0)
            &&& lies(n[1], t, 0, -1) && (n[1] is Some <==> t.y > 0)
            &&& lies(n[2], t, 1, -1) && (n[2] is Some <==> t.x < last && t.y > 0)
            &&& lies(n[3], t, -1, 0) && (n[3] is Some <==> t.x > 0)
            &&& lies(n[4], t, 1, 0) && (n[4] is Some <==> t.x < last)
            &&& lies(n[5], t, -1, 1) && (n[5] is Some <==> t.x > 0 && t.y < last)
            &&& lies(n[6], t, 0, 1) && (n[6] is Some <==> t.y < last)
            &&& lies(n[7], t, 1, 1) && (n[7] is Some <==> t.x < last && t.y < last)
        }),
{
    lemma_axis_bound(t.zoom as nat);
}

/// The grid has `2^zoom` columns and rows at the zooms 1 to 22.
pub proof fn law_grid_is_square(t: TileId)
    ensures
        t.valid() <==> 1 <= t.zoom <= 22 && t.x < pow2(t.zoom as nat) && t.y < pow2(
            t.zoom as nat,
        ),
{
}

/// A tile's quadrants split it: their columns and rows are twice the tile's,
/// and one more to the east and to the south.
pub proof fn law_quadrants_split_the_tile(t: TileId, dx: int, dy: int)
    requires
        t.valid(),
        t.zoom < MAX_ZOOM,
        0 <= dx < 2,
        0 <= dy < 2,
    ensures
        ({
            let c = t.child_spec(dx, dy);
            c.zoom == t.zoom + 1 && c.x == t.x + t.x + dx && c.y == t.y + t.y + dy
        }),
{
    lemma_axis_bound(t.zoom as nat);
}

} // verus!
