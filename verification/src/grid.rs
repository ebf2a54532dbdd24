//! The tile grid: pure data plus the per-tile fade gate.
//!
//! A grid is a rectangular array of tiles stored row-major in a flat
//! buffer; `idx_of` is the one addressing function and every access is
//! guarded by an explicit bounds precondition.

use vstd::arithmetic::div_mod::lemma_fundamental_div_mod_converse;
use vstd::prelude::*;

verus! {

/// Number of frames a pinged tile stays eligible for display.
pub const REVEAL_DURATION: u64 = 20;

/// Smallest grid side the map generator accepts.
pub const MIN_DIM: usize = 4;

/// Largest grid side accepted; keeps all index and distance
/// arithmetic comfortably inside the machine integer types.
pub const MAX_DIM: usize = 10000;

/// The semantic kind of one cell; exactly one kind per cell.
#[derive(Clone, Copy, Debug, PartialEq, Eq, Structural)]
pub enum TileKind {
    Wall,
    Floor,
    Exit,
    Pickup,
}

/// When a tile was last included in a ping's visible set.
///
/// `Never` marks tiles not yet seen (all tiles at level start),
/// `Frame(f)` marks an ordinary reveal at frame `f`, and `Permanent`
/// marks a tile revealed for the rest of the level (the Exit once
/// pinged, or any tile after a debug reveal).
#[derive(Clone, Copy, Debug, PartialEq, Eq, Structural)]
pub enum LastSeen {
    Never,
    Frame(u64),
    Permanent,
}

/// One cell of the grid.
#[derive(Clone, Copy, Debug, PartialEq, Eq, Structural)]
pub struct Tile {
    pub kind: TileKind,
    pub last_seen: LastSeen,
}

/// Rectangular array of tiles, fixed size for the lifetime of a level.
#[derive(Clone, Debug, PartialEq)]
pub struct Grid {
    pub width: usize,
    pub height: usize,
    pub tiles: Vec<Tile>,
}

impl Grid {
    /// Basic shape invariant: sides within the accepted range and a
    /// buffer of exactly `width * height` tiles.
    pub open spec fn wf(self) -> bool {
        &&& MIN_DIM <= self.width <= MAX_DIM
        &&& MIN_DIM <= self.height <= MAX_DIM
        &&& self.tiles@.len() == self.width * self.height
    }

    /// Row-major index of cell `(x, y)`.
    pub open spec fn idx_of(self, x: int, y: int) -> int {
        y * self.width + x
    }

    pub open spec fn in_bounds(self, x: int, y: int) -> bool {
        0 <= x < self.width && 0 <= y < self.height
    }

    /// Cells strictly inside the perimeter ring.
    pub open spec fn interior(self, x: int, y: int) -> bool {
        1 <= x <= self.width - 2 && 1 <= y <= self.height - 2
    }

    pub open spec fn kind_at(self, x: int, y: int) -> TileKind {
        self.tiles@[self.idx_of(x, y)].kind
    }

    pub open spec fn seen_at(self, x: int, y: int) -> LastSeen {
        self.tiles@[self.idx_of(x, y)].last_seen
    }

    /// The outer ring is entirely wall.
    pub open spec fn perimeter_walled(self) -> bool {
        forall|x: int, y: int|
            self.in_bounds(x, y) && !self.interior(x, y) ==> self.kind_at(x, y) == TileKind::Wall
    }

    /// Flat index of a cell, with the bounds facts callers need.
    pub fn cell_index(&self, x: usize, y: usize) -> (i: usize)
        requires
            self.wf(),
            self.in_bounds(x as int, y as int),
        ensures
            i == self.idx_of(x as int, y as int),
            i < self.tiles@.len(),
            i % self.width == x,
            i / self.width == y,
    {
        proof {
            lemma_idx_bounds(self.width as int, self.height as int, x as int, y as int);
            assert(self.width * self.height <= MAX_DIM * MAX_DIM) by (nonlinear_arith)
                requires
                    self.width <= MAX_DIM,
                    self.height <= MAX_DIM,
            ;
        }
        y * self.width + x
    }

    /// Read one cell.
    pub fn cell(&self, x: usize, y: usize) -> (t: Tile)
        requires
            self.wf(),
            self.in_bounds(x as int, y as int),
        ensures
            t == self.tiles@[self.idx_of(x as int, y as int)],
    {
        let i = self.cell_index(x, y);
        self.tiles[i]
    }

    /// Replace one cell's kind, keeping its timestamp.
    pub fn set_kind(&mut self, x: usize, y: usize, k: TileKind)
        requires
            old(self).wf(),
            old(self).in_bounds(x as int, y as int),
        ensures
            final(self).width == old(self).width,
            final(self).height == old(self).height,
            final(self).tiles@ == old(self).tiles@.update(
                old(self).idx_of(x as int, y as int),
                Tile { kind: k, last_seen: old(self).seen_at(x as int, y as int) },
            ),
    {
        let i = self.cell_index(x, y);
        let seen = self.tiles[i].last_seen;
        self.tiles[i] = Tile { kind: k, last_seen: seen };
    }

    /// A fresh grid of the given size, every cell an unseen wall.
    pub fn new_filled(width: usize, height: usize) -> (g: Grid)
        requires
            MIN_DIM <= width <= MAX_DIM,
            MIN_DIM <= height <= MAX_DIM,
        ensures
            g.wf(),
            g.width == width,
            g.height == height,
            forall|i: int|
                0 <= i < g.tiles@.len() ==> g.tiles@[i] == (Tile {
                    kind: TileKind::Wall,
                    last_seen: LastSeen::Never,
                }),
    {
        proof {
            assert(width * height <= MAX_DIM * MAX_DIM) by (nonlinear_arith)
                requires
                    width <= MAX_DIM,
                    height <= MAX_DIM,
            ;
        }
        let n = width * height;
        let mut tiles: Vec<Tile> = Vec::new();
        let mut i: usize = 0;
        while i < n
            invariant
                i <= n,
                tiles@.len() == i,
                forall|j: int|
                    0 <= j < i ==> tiles@[j] == (Tile {
                        kind: TileKind::Wall,
                        last_seen: LastSeen::Never,
                    }),
            decreases n - i,
        {
            tiles.push(Tile { kind: TileKind::Wall, last_seen: LastSeen::Never });
            i = i + 1;
        }
        Grid { width, height, tiles }
    }
}

/// A row-major index formed from in-range coordinates is itself in
/// range, and the coordinates are recovered by division and remainder.
pub proof fn lemma_idx_bounds(w: int, h: int, x: int, y: int)
    requires
        1 <= w,
        0 <= x < w,
        0 <= y < h,
    ensures
        0 <= y * w + x < w * h,
        (y * w + x) % w == x,
        (y * w + x) / w == y,
{
    assert(0 <= y * w + x < w * h) by (nonlinear_arith)
        requires
            1 <= w,
            0 <= x < w,
            0 <= y < h,
    ;
    lemma_fundamental_div_mod_converse(y * w + x, w, y, x);
}

/// Number of tiles of kind `k` among the first `n` tiles of `s`.
pub open spec fn cnt_kind(s: Seq<Tile>, k: TileKind, n: int) -> int
    decreases n,
{
    if n <= 0 {
        0
    } else {
        cnt_kind(s, k, n - 1) + if s[n - 1].kind == k {
            1int
        } else {
            0int
        }
    }
}

/// All timestamps in `s` are `Never`.
pub open spec fn all_never(s: Seq<Tile>) -> bool {
    forall|i: int| 0 <= i < s.len() ==> s[i].last_seen == LastSeen::Never
}

pub proof fn lemma_cnt_bounds(s: Seq<Tile>, k: TileKind, n: int)
    requires
        0 <= n,
    ensures
        0 <= cnt_kind(s, k, n) <= n,
    decreases n,
{
    if n > 0 {
        lemma_cnt_bounds(s, k, n - 1);
    }
}

/// Updating one tile moves the count by the difference the update
/// makes at that position; an update at or past `n` leaves it alone.
pub proof fn lemma_cnt_update(s: Seq<Tile>, k: TileKind, n: int, j: int, t: Tile)
    requires
        0 <= j < s.len(),
        0 <= n <= s.len(),
    ensures
        j < n ==> cnt_kind(s.update(j, t), k, n) == cnt_kind(s, k, n) - (if s[j].kind == k {
            1int
        } else {
            0int
        }) + (if t.kind == k {
            1int
        } else {
            0int
        }),
        j >= n ==> cnt_kind(s.update(j, t), k, n) == cnt_kind(s, k, n),
    decreases n,
{
    if n > 0 {
        lemma_cnt_update(s, k, n - 1, j, t);
    }
}

/// Counts agree on sequences whose kinds agree position by position.
pub proof fn lemma_cnt_congruent(s1: Seq<Tile>, s2: Seq<Tile>, k: TileKind, n: int)
    requires
        0 <= n <= s1.len(),
        n <= s2.len(),
        forall|i: int| 0 <= i < n ==> s1[i].kind == s2[i].kind,
    ensures
        cnt_kind(s1, k, n) == cnt_kind(s2, k, n),
    decreases n,
{
    if n > 0 {
        lemma_cnt_congruent(s1, s2, k, n - 1);
    }
}

pub proof fn lemma_cnt_mono(s: Seq<Tile>, k: TileKind, a: int, b: int)
    requires
        0 <= a <= b,
    ensures
        cnt_kind(s, k, a) <= cnt_kind(s, k, b),
    decreases b,
{
    if b > a {
        lemma_cnt_mono(s, k, a, b - 1);
    }
}

/// A run of cells that all have kind `k` contributes its full length.
pub proof fn lemma_cnt_run(s: Seq<Tile>, k: TileKind, a: int, b: int)
    requires
        0 <= a <= b <= s.len(),
        forall|j: int| a <= j < b ==> s[j].kind == k,
    ensures
        cnt_kind(s, k, b) >= cnt_kind(s, k, a) + (b - a),
    decreases b,
{
    if b > a {
        lemma_cnt_run(s, k, a, b - 1);
    }
}

/// A kind that occurs nowhere in the prefix counts zero.
pub proof fn lemma_cnt_none(s: Seq<Tile>, k: TileKind, n: int)
    requires
        0 <= n <= s.len(),
        forall|i: int| 0 <= i < n ==> s[i].kind != k,
    ensures
        cnt_kind(s, k, n) == 0,
    decreases n,
{
    if n > 0 {
        lemma_cnt_none(s, k, n - 1);
    }
}

/// Coordinates recovered from a flat index into a `w * h` buffer.
pub proof fn lemma_flat_coords(i: int, w: int, h: int)
    requires
        1 <= w,
        0 <= i < w * h,
    ensures
        0 <= i % w < w,
        0 <= i / w < h,
        (i / w) * w + (i % w) == i,
{
    vstd::arithmetic::div_mod::lemma_fundamental_div_mod(i, w);
    vstd::arithmetic::div_mod::lemma_mod_division_less_than_divisor(i, w);
    assert(i / w < h) by (nonlinear_arith)
        requires
            1 <= w,
            0 <= i < w * h,
            i == w * (i / w) + i % w,
            0 <= i % w < w,
    ;
    assert((i / w) * w == w * (i / w)) by (nonlinear_arith);
}

/// Row-major indexing is injective on in-range coordinates.
pub proof fn lemma_idx_injective(w: int, h: int, x1: int, y1: int, x2: int, y2: int)
    requires
        1 <= w,
        0 <= x1 < w,
        0 <= y1 < h,
        0 <= x2 < w,
        0 <= y2 < h,
        y1 * w + x1 == y2 * w + x2,
    ensures
        x1 == x2,
        y1 == y2,
{
    lemma_fundamental_div_mod_converse(y1 * w + x1, w, y1, x1);
    lemma_fundamental_div_mod_converse(y2 * w + x2, w, y2, x2);
}

/// A positive count yields a witness.
pub proof fn lemma_cnt_exists(s: Seq<Tile>, k: TileKind, n: int)
    requires
        0 <= n <= s.len(),
        cnt_kind(s, k, n) >= 1,
    ensures
        exists|i: int| 0 <= i < n && s[i].kind == k,
    decreases n,
{
    if s[n - 1].kind != k {
        lemma_cnt_exists(s, k, n - 1);
    }
}

/// A count of at least two yields a witness other than any given
/// position.
pub proof fn lemma_cnt_exists_second(s: Seq<Tile>, k: TileKind, n: int, j: int)
    requires
        0 <= n <= s.len(),
        0 <= j,
        cnt_kind(s, k, n) >= 2,
    ensures
        exists|i: int| 0 <= i < n && i != j && s[i].kind == k,
    decreases n,
{
    if n - 1 == j {
        lemma_cnt_exists(s, k, n - 1);
        let w = choose|i: int| 0 <= i < n - 1 && s[i].kind == k;
        assert(0 <= w < n && w != j && s[w].kind == k);
    } else {
        if s[n - 1].kind == k {
            assert(0 <= n - 1 < n && n - 1 != j && s[n - 1].kind == k);
        } else {
            lemma_cnt_exists_second(s, k, n - 1, j);
        }
    }
}

/// Squared Euclidean distance between two cells.
pub open spec fn dist2(ax: int, ay: int, bx: int, by: int) -> int {
    (ax - bx) * (ax - bx) + (ay - by) * (ay - by)
}

/// Squared Euclidean distance, computed on machine integers.
pub fn dist2_between(ax: usize, ay: usize, bx: usize, by: usize) -> (d: usize)
    requires
        ax <= MAX_DIM,
        ay <= MAX_DIM,
        bx <= MAX_DIM,
        by <= MAX_DIM,
    ensures
        d == dist2(ax as int, ay as int, bx as int, by as int),
        d == 0 <==> (ax == bx && ay == by),
{
    let dx = if ax >= bx {
        ax - bx
    } else {
        bx - ax
    };
    let dy = if ay >= by {
        ay - by
    } else {
        by - ay
    };
    proof {
        let a = ax as int;
        let b = bx as int;
        let c = ay as int;
        let e = by as int;
        assert((a - b) * (a - b) == (dx as int) * (dx as int) && (c - e) * (c - e) == (dy as int)
            * (dy as int) && dx * dx <= MAX_DIM * MAX_DIM && dy * dy <= MAX_DIM * MAX_DIM && (dx
            * dx + dy * dy == 0 <==> (a == b && c == e))) by (nonlinear_arith)
            requires
                dx as int == if a >= b {
                    a - b
                } else {
                    b - a
                },
                dy as int == if c >= e {
                    c - e
                } else {
                    e - c
                },
                dx <= MAX_DIM,
                dy <= MAX_DIM,
        ;
    }
    dx * dx + dy * dy
}

/// Cell kinds read the same through coordinates on two grids of the
/// same shape whose kinds agree position by position; in particular a
/// walled perimeter is kept.
pub proof fn lemma_kind_at_congruent(g1: Grid, g2: Grid)
    requires
        g1.wf(),
        g2.width == g1.width,
        g2.height == g1.height,
        g2.tiles@.len() == g1.tiles@.len(),
        forall|i: int| 0 <= i < g1.tiles@.len() ==> g2.tiles@[i].kind == g1.tiles@[i].kind,
    ensures
        forall|x: int, y: int|
            g1.in_bounds(x, y) ==> #[trigger] g2.kind_at(x, y) == g1.kind_at(x, y),
        g1.perimeter_walled() ==> g2.perimeter_walled(),
{
    assert forall|x: int, y: int| g1.in_bounds(x, y) implies #[trigger] g2.kind_at(x, y)
        == g1.kind_at(x, y) by {
        lemma_idx_bounds(g1.width as int, g1.height as int, x, y);
    }
    if g1.perimeter_walled() {
        assert forall|x: int, y: int|
            g2.in_bounds(x, y) && !g2.interior(x, y) implies g2.kind_at(x, y)
            == TileKind::Wall by {
            assert(g1.kind_at(x, y) == TileKind::Wall);
        }
    }
}

/// On a grid with a walled perimeter, a cell that is not wall is
/// interior.
pub proof fn lemma_nonwall_interior(g: Grid, x: int, y: int)
    requires
        g.perimeter_walled(),
        g.in_bounds(x, y),
        g.kind_at(x, y) != TileKind::Wall,
    ensures
        g.interior(x, y),
{
}

/// The per-tile, per-frame display test: a tile is eligible for
/// display at frame `now` exactly when it was revealed fewer than
/// `REVEAL_DURATION` frames ago, with `Never` always failing and
/// `Permanent` always passing.
pub open spec fn gate_spec(ls: LastSeen, now: u64) -> bool {
    match ls {
        LastSeen::Never => false,
        LastSeen::Frame(f) => f <= now && now < f + REVEAL_DURATION,
        LastSeen::Permanent => true,
    }
}

/// The fade gate every renderer-facing consumer applies.
pub fn passes_gate(ls: LastSeen, now: u64) -> (r: bool)
    ensures
        r == gate_spec(ls, now),
{
    match ls {
        LastSeen::Never => false,
        LastSeen::Frame(f) => f <= now && now - f < REVEAL_DURATION,
        LastSeen::Permanent => true,
    }
}

/// Fade-gate boundary law: a tile stamped at frame `f` passes the
/// gate at frame `f + 19` and fails at frame `f + 20`, while
/// `Permanent` tiles pass at every frame and `Never` tiles pass at
/// none.
pub proof fn lemma_fade_gate_boundary(f: u64)
    requires
        f + REVEAL_DURATION <= u64::MAX,
    ensures
        gate_spec(LastSeen::Frame(f), (f + 19) as u64),
        !gate_spec(LastSeen::Frame(f), (f + 20) as u64),
        forall|now: u64| gate_spec(LastSeen::Permanent, now),
        forall|now: u64| !gate_spec(LastSeen::Never, now),
{
}

} // verus!
