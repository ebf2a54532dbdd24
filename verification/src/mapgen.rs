//! The procedural map generator.
//!
//! A level is carved out of solid wall by a random walk ("drunkard's
//! walk") over the grid's interior, driven by the injected random
//! stream.  The walk runs under a step budget; if the budget runs out
//! before the carve target is met, a deterministic sweep over the
//! interior finishes the carving, so the floor-occupancy guarantee
//! holds for every random stream.  The exit is then placed on the
//! floor cell farthest (squared Euclidean distance, first maximum in
//! scan order) from the spawn point at the grid's center.

use crate::grid::{
    all_never, cnt_kind, dist2, dist2_between, lemma_cnt_bounds, lemma_cnt_exists_second,
    lemma_cnt_mono, lemma_cnt_none, lemma_cnt_run, lemma_cnt_update, lemma_flat_coords,
    lemma_idx_bounds, lemma_idx_injective, Grid, Tile, TileKind, MAX_DIM, MIN_DIM,
};
use crate::rng::{rng_range, rng_seeded};
use vstd::arithmetic::div_mod::{
    lemma_div_is_ordered, lemma_fundamental_div_mod, lemma_fundamental_div_mod_converse,
};
use vstd::prelude::*;

verus! {

/// An axis-aligned rectangle, kept from an early room-based sketch of
/// the generator.
#[derive(Clone, Copy, Debug, PartialEq, Eq, Structural)]
pub struct Rect {
    pub x1: i32,
    pub y1: i32,
    pub x2: i32,
    pub y2: i32,
}

impl Rect {
    pub fn new(x: i32, y: i32, w: i32, h: i32) -> (r: Rect)
        requires
            i32::MIN <= x + w <= i32::MAX,
            i32::MIN <= y + h <= i32::MAX,
        ensures
            r == (Rect { x1: x, y1: y, x2: (x + w) as i32, y2: (y + h) as i32 }),
    {
        Rect { x1: x, y1: y, x2: x + w, y2: y + h }
    }

    /// Whether two rectangles share at least one point (closed bounds).
    pub fn overlaps(&self, other: &Rect) -> (r: bool)
        ensures
            r == (self.x1 <= other.x2 && self.x2 >= other.x1 && self.y1 <= other.y2 && self.y2
                >= other.y1),
    {
        self.x1 <= other.x2 && self.x2 >= other.x1 && self.y1 <= other.y2 && self.y2 >= other.y1
    }

    /// The rectangle's central point, rounded down.
    pub fn center(&self) -> (c: (i32, i32))
        requires
            0 <= self.x1 + self.x2 <= i32::MAX,
            0 <= self.y1 + self.y2 <= i32::MAX,
        ensures
            c.0 == ((self.x1 + self.x2) as i32) / 2,
            c.1 == ((self.y1 + self.y2) as i32) / 2,
    {
        ((self.x1 + self.x2) / 2, (self.y1 + self.y2) / 2)
    }
}

/// A freshly generated level: the grid plus the player spawn point
/// and the exit's position.
#[derive(Clone, Debug, PartialEq)]
pub struct GeneratedLevel {
    pub grid: Grid,
    pub spawn_x: usize,
    pub spawn_y: usize,
    pub exit_x: usize,
    pub exit_y: usize,
}

/// How many cells the generator carves: enough floor for 40% of the
/// grid (rounded up, plus the one cell that becomes the exit), capped
/// by the size of the interior.
pub open spec fn carve_target(w: int, h: int) -> int {
    let want = (2 * (w * h) + 4) / 5 + 1;
    let cap = (w - 2) * (h - 2);
    if want <= cap {
        want
    } else {
        cap
    }
}

/// Everything the generator promises of a level.
///
/// The spawn is the grid's center and is a floor cell; the perimeter
/// is solid wall; nothing has been seen yet; there are no pickups;
/// there is exactly one exit, and it sits on the floor cell of
/// maximum squared Euclidean distance from the spawn (first maximum
/// in row-major scan order, so it is strictly farther than every
/// floor cell at a smaller index); and the carved cells (floor plus
/// exit) number exactly `carve_target`, which is at least 40% of the
/// grid whenever both sides are at least 10.
pub open spec fn gen_post(g: Grid, sx: int, sy: int, ex: int, ey: int) -> bool {
    let n = g.tiles@.len() as int;
    &&& g.wf()
    &&& g.perimeter_walled()
    &&& all_never(g.tiles@)
    &&& sx == g.width / 2
    &&& sy == g.height / 2
    &&& g.interior(sx, sy)
    &&& g.kind_at(sx, sy) == TileKind::Floor
    &&& g.in_bounds(ex, ey)
    &&& g.kind_at(ex, ey) == TileKind::Exit
    &&& cnt_kind(g.tiles@, TileKind::Exit, n) == 1
    &&& cnt_kind(g.tiles@, TileKind::Pickup, n) == 0
    &&& cnt_kind(g.tiles@, TileKind::Floor, n) == carve_target(
        g.width as int,
        g.height as int,
    ) - 1
    &&& g.width >= 10 && g.height >= 10 ==> 5 * cnt_kind(g.tiles@, TileKind::Floor, n) >= 2
        * (g.width * g.height)
    &&& dist2(ex, ey, sx, sy) > 0
    &&& forall|x: int, y: int|
        g.in_bounds(x, y) && #[trigger] g.kind_at(x, y) == TileKind::Floor ==> dist2(x, y, sx, sy)
            <= dist2(ex, ey, sx, sy)
    &&& forall|x: int, y: int|
        g.in_bounds(x, y) && #[trigger] g.kind_at(x, y) == TileKind::Floor && g.idx_of(x, y)
            < g.idx_of(ex, ey) ==> dist2(x, y, sx, sy) < dist2(ex, ey, sx, sy)
}

/// A generated level paired with the size it was asked for.
pub open spec fn level_post(lv: GeneratedLevel, w: int, h: int) -> bool {
    &&& lv.grid.width == w
    &&& lv.grid.height == h
    &&& gen_post(lv.grid, lv.spawn_x as int, lv.spawn_y as int, lv.exit_x as int, lv.exit_y as int)
}

/// Bounds on the carve target: it asks for at least two cells, never
/// more than the interior holds, and for grids of side 10 or more it
/// is large enough that the floors left beside the exit still cover
/// 40% of the grid.
proof fn lemma_target_bounds(w: int, h: int)
    requires
        MIN_DIM <= w <= MAX_DIM,
        MIN_DIM <= h <= MAX_DIM,
    ensures
        2 <= carve_target(w, h),
        carve_target(w, h) <= (w - 2) * (h - 2),
        w >= 10 && h >= 10 ==> 5 * (carve_target(w, h) - 1) >= 2 * (w * h),
{
    let a = 2 * (w * h) + 4;
    let want = a / 5 + 1;
    let cap = (w - 2) * (h - 2);
    assert(a >= 36 && cap >= 4) by (nonlinear_arith)
        requires
            4 <= w <= MAX_DIM,
            4 <= h <= MAX_DIM,
            a == 2 * (w * h) + 4,
            cap == (w - 2) * (h - 2),
    ;
    lemma_div_is_ordered(5, a, 5);
    assert(a / 5 >= 1);
    lemma_fundamental_div_mod(a, 5);
    if w >= 10 && h >= 10 {
        assert(5 * cap >= a + 5) by (nonlinear_arith)
            requires
                10 <= w,
                10 <= h,
                cap == (w - 2) * (h - 2),
                a == 2 * (w * h) + 4,
        ;
        // a == 5 * (a / 5) + a % 5 with 0 <= a % 5 < 5, so a / 5 <= cap - 1.
        assert(5 * (a / 5) >= a - 4);
        assert(5 * (a / 5) <= a);
        assert(want <= cap);
        assert(5 * (want - 1) >= 2 * (w * h));
    }
}

/// If every interior cell of the rows above `y` is floor, the floor
/// count of that prefix is at least the number of those cells.
proof fn lemma_interior_rows_full(s: Seq<Tile>, w: int, h: int, y: int)
    requires
        3 <= w,
        3 <= h,
        s.len() == w * h,
        1 <= y <= h - 1,
        forall|xx: int, yy: int|
            1 <= xx <= w - 2 && 1 <= yy < y ==> #[trigger] s[yy * w + xx].kind == TileKind::Floor,
    ensures
        cnt_kind(s, TileKind::Floor, y * w) >= (y - 1) * (w - 2),
    decreases y,
{
    assert(y * w <= (h - 1) * w && (h - 1) * w <= w * h && 0 <= (y - 1) * w && (y - 1) * w + 1 <= (y
        - 1) * w + (w - 1) && (y - 1) * w + (w - 1) <= y * w) by (nonlinear_arith)
        requires
            3 <= w,
            3 <= h,
            1 <= y <= h - 1,
    ;
    if y == 1 {
        lemma_cnt_bounds(s, TileKind::Floor, w);
    } else {
        lemma_interior_rows_full(s, w, h, y - 1);
        let base = (y - 1) * w;
        assert forall|j: int| base + 1 <= j < base + (w - 1) implies #[trigger] s[j].kind
            == TileKind::Floor by {
            let xx = j - base;
            assert(1 <= xx <= w - 2);
            assert(s[(y - 1) * w + xx].kind == TileKind::Floor);
        }
        lemma_cnt_mono(s, TileKind::Floor, (y - 1) * w, base + 1);
        lemma_cnt_run(s, TileKind::Floor, base + 1, base + (w - 1));
        lemma_cnt_mono(s, TileKind::Floor, base + (w - 1), y * w);
        assert(cnt_kind(s, TileKind::Floor, base + 1) >= cnt_kind(s, TileKind::Floor, (y - 1) * w));
        assert(cnt_kind(s, TileKind::Floor, y * w) >= cnt_kind(s, TileKind::Floor, (y - 1) * w) + (w
            - 2));
        assert(cnt_kind(s, TileKind::Floor, y * w) >= (y - 2) * (w - 2) + (w - 2));
        assert((y - 2) * (w - 2) + (w - 2) == (y - 1) * (w - 2)) by (nonlinear_arith);
    }
}

/// Invariant carried through the carving phase: a well-formed grid
/// of walls and floors only, its perimeter intact, nothing seen yet,
/// the spawn carved, and `floors` tracking the exact floor count.
spec fn carving_inv(g: Grid, w: int, h: int, floors: int) -> bool {
    &&& g.width == w
    &&& g.height == h
    &&& g.wf()
    &&& g.perimeter_walled()
    &&& all_never(g.tiles@)
    &&& forall|i: int|
        0 <= i < g.tiles@.len() ==> (g.tiles@[i].kind == TileKind::Wall || g.tiles@[i].kind
            == TileKind::Floor)
    &&& floors == cnt_kind(g.tiles@, TileKind::Floor, g.tiles@.len() as int)
    &&& cnt_kind(g.tiles@, TileKind::Exit, g.tiles@.len() as int) == 0
    &&& cnt_kind(g.tiles@, TileKind::Pickup, g.tiles@.len() as int) == 0
    &&& g.kind_at(w / 2, h / 2) == TileKind::Floor
}

/// Turn one interior wall cell to floor, reporting both the flat
/// update and the cell-level view of it, and how the counts move.
fn carve_floor(g: &mut Grid, x: usize, y: usize)
    requires
        old(g).wf(),
        old(g).interior(x as int, y as int),
        old(g).kind_at(x as int, y as int) == TileKind::Wall,
    ensures
        final(g).width == old(g).width,
        final(g).height == old(g).height,
        0 <= old(g).idx_of(x as int, y as int) < old(g).tiles@.len(),
        final(g).tiles@.len() == old(g).tiles@.len(),
        final(g).tiles@ == old(g).tiles@.update(
            old(g).idx_of(x as int, y as int),
            Tile { kind: TileKind::Floor, last_seen: old(g).seen_at(x as int, y as int) },
        ),
        final(g).kind_at(x as int, y as int) == TileKind::Floor,
        forall|a: int, b: int|
            old(g).in_bounds(a, b) && !(a == x as int && b == y as int) ==> final(g).kind_at(a, b)
                == old(g).kind_at(a, b),
        forall|j: int|
            0 <= j < old(g).tiles@.len() ==> final(g).tiles@[j].last_seen
                == old(g).tiles@[j].last_seen,
        cnt_kind(final(g).tiles@, TileKind::Floor, final(g).tiles@.len() as int) == cnt_kind(
            old(g).tiles@,
            TileKind::Floor,
            old(g).tiles@.len() as int,
        ) + 1,
        cnt_kind(final(g).tiles@, TileKind::Exit, final(g).tiles@.len() as int) == cnt_kind(
            old(g).tiles@,
            TileKind::Exit,
            old(g).tiles@.len() as int,
        ),
        cnt_kind(final(g).tiles@, TileKind::Pickup, final(g).tiles@.len() as int) == cnt_kind(
            old(g).tiles@,
            TileKind::Pickup,
            old(g).tiles@.len() as int,
        ),
        old(g).perimeter_walled() ==> final(g).perimeter_walled(),
        all_never(old(g).tiles@) ==> all_never(final(g).tiles@),
{
    let ghost w = old(g).width as int;
    let ghost h = old(g).height as int;
    let ghost i = old(g).idx_of(x as int, y as int);
    let ghost t = Tile {
        kind: TileKind::Floor,
        last_seen: old(g).seen_at(x as int, y as int),
    };
    proof {
        lemma_idx_bounds(w, h, x as int, y as int);
        lemma_cnt_update(old(g).tiles@, TileKind::Floor, old(g).tiles@.len() as int, i, t);
        lemma_cnt_update(old(g).tiles@, TileKind::Exit, old(g).tiles@.len() as int, i, t);
        lemma_cnt_update(old(g).tiles@, TileKind::Pickup, old(g).tiles@.len() as int, i, t);
    }
    g.set_kind(x, y, TileKind::Floor);
    proof {
        assert forall|a: int, b: int|
            old(g).in_bounds(a, b) && !(a == x as int && b == y as int) implies g.kind_at(a, b)
            == old(g).kind_at(a, b) by {
            lemma_idx_bounds(w, h, a, b);
            if g.idx_of(a, b) == i {
                lemma_idx_injective(w, h, a, b, x as int, y as int);
            }
        }
        if old(g).perimeter_walled() {
            assert forall|a: int, b: int|
                g.in_bounds(a, b) && !g.interior(a, b) implies g.kind_at(a, b)
                == TileKind::Wall by {
                assert(old(g).kind_at(a, b) == TileKind::Wall);
            }
        }
    }
}

/// Generate a level, drawing from the given random stream.
///
/// The walk carves under a step budget; whatever the stream does, a
/// deterministic sweep then tops the floor count up to the carve
/// target, so the postcondition holds for every stream.
pub fn generate_with(
    width: usize,
    height: usize,
    rng: &mut bracket_lib::random::RandomNumberGenerator,
) -> (lv: GeneratedLevel)
    requires
        MIN_DIM <= width <= MAX_DIM,
        MIN_DIM <= height <= MAX_DIM,
    ensures
        level_post(lv, width as int, height as int),
{
    let w = width;
    let h = height;
    proof {
        lemma_target_bounds(w as int, h as int);
        assert(w * h <= MAX_DIM * MAX_DIM && (w - 2) * (h - 2) <= w * h && 20 * (w * h)
            <= 2_000_000_000) by (nonlinear_arith)
            requires
                MIN_DIM <= w <= MAX_DIM,
                MIN_DIM <= h <= MAX_DIM,
        ;
    }
    let n = w * h;
    let want = (2 * n + 4) / 5 + 1;
    let cap = (w - 2) * (h - 2);
    let target = if want <= cap {
        want
    } else {
        cap
    };
    assert(target == carve_target(w as int, h as int));
    assert(2 <= target <= cap);

    let mut g = Grid::new_filled(w, h);
    proof {
        lemma_cnt_none(g.tiles@, TileKind::Floor, n as int);
        lemma_cnt_none(g.tiles@, TileKind::Exit, n as int);
        lemma_cnt_none(g.tiles@, TileKind::Pickup, n as int);
        assert forall|a: int, b: int| g.in_bounds(a, b) implies #[trigger] g.kind_at(a, b)
            == TileKind::Wall by {
            lemma_idx_bounds(w as int, h as int, a, b);
        }
    }
    let sx = w / 2;
    let sy = h / 2;
    proof {
        lemma_fundamental_div_mod(w as int, 2);
        lemma_fundamental_div_mod(h as int, 2);
        lemma_div_is_ordered(4, w as int, 2);
        lemma_div_is_ordered(4, h as int, 2);
        assert(g.interior(sx as int, sy as int));
        lemma_idx_bounds(w as int, h as int, sx as int, sy as int);
        assert(g.kind_at(sx as int, sy as int) == TileKind::Wall);
    }
    carve_floor(&mut g, sx, sy);
    let mut floors: usize = 1;

    // Phase one: the drunkard's walk, under a step budget.
    let mut cx = sx;
    let mut cy = sy;
    let mut steps: usize = 0;
    let budget = 20 * n;
    while floors < target && steps < budget
        invariant
            carving_inv(g, w as int, h as int, floors as int),
            MIN_DIM <= w <= MAX_DIM,
            MIN_DIM <= h <= MAX_DIM,
            n == w * h,
            sx == w / 2,
            sy == h / 2,
            target == carve_target(w as int, h as int),
            2 <= target,
            floors <= target,
            g.interior(sx as int, sy as int),
            g.interior(cx as int, cy as int),
            steps <= budget,
        decreases budget - steps,
    {
        let d = rng_range(rng, 0, 4);
        if d == 0 {
            if cx > 1 {
                cx = cx - 1;
            }
        } else if d == 1 {
            if cx < w - 2 {
                cx = cx + 1;
            }
        } else if d == 2 {
            if cy > 1 {
                cy = cy - 1;
            }
        } else {
            if cy < h - 2 {
                cy = cy + 1;
            }
        }
        if g.cell(cx, cy).kind == TileKind::Wall {
            carve_floor(&mut g, cx, cy);
            floors = floors + 1;
        }
        steps = steps + 1;
    }

    // Phase two: a deterministic sweep finishes the carving if the
    // budget ran out first.
    let mut yy: usize = 1;
    while yy < h - 1
        invariant
            carving_inv(g, w as int, h as int, floors as int),
            MIN_DIM <= w <= MAX_DIM,
            MIN_DIM <= h <= MAX_DIM,
            n == w * h,
            sx == w / 2,
            sy == h / 2,
            target == carve_target(w as int, h as int),
            2 <= target,
            floors <= target,
            g.interior(sx as int, sy as int),
            1 <= yy <= h - 1,
            floors == target || forall|px: int, py: int|
                1 <= px <= w - 2 && 1 <= py < yy ==> #[trigger] g.kind_at(px, py)
                    == TileKind::Floor,
        decreases h - 1 - yy,
    {
        let mut xx: usize = 1;
        while xx < w - 1
            invariant
                carving_inv(g, w as int, h as int, floors as int),
                MIN_DIM <= w <= MAX_DIM,
                MIN_DIM <= h <= MAX_DIM,
                n == w * h,
                sx == w / 2,
                sy == h / 2,
                target == carve_target(w as int, h as int),
                2 <= target,
                floors <= target,
                g.interior(sx as int, sy as int),
                1 <= yy <= h - 2,
                1 <= xx <= w - 1,
                floors == target || forall|px: int, py: int|
                    1 <= px <= w - 2 && 1 <= py < yy ==> #[trigger] g.kind_at(px, py)
                        == TileKind::Floor,
                floors == target || forall|px: int|
                    1 <= px < xx ==> #[trigger] g.kind_at(px, yy as int) == TileKind::Floor,
            decreases w - 1 - xx,
        {
            proof {
                lemma_idx_bounds(w as int, h as int, xx as int, yy as int);
            }
            if floors < target {
                if g.cell(xx, yy).kind == TileKind::Wall {
                    carve_floor(&mut g, xx, yy);
                    floors = floors + 1;
                }
            }
            xx = xx + 1;
        }
        yy = yy + 1;
    }

    proof {
        if floors < target {
            lemma_target_bounds(w as int, h as int);
            assert forall|xx: int, yy2: int|
                1 <= xx <= w - 2 && 1 <= yy2 < h - 1 implies #[trigger] g.tiles@[yy2 * w
                + xx].kind == TileKind::Floor by {
                lemma_idx_bounds(w as int, h as int, xx, yy2);
                assert(g.kind_at(xx, yy2) == TileKind::Floor);
            }
            lemma_interior_rows_full(g.tiles@, w as int, h as int, h as int - 1);
            assert((h - 1) * (w as int) <= w * h && (h as int - 1 - 1) * (w as int - 2) == (w as int
                - 2) * (h as int - 2)) by (nonlinear_arith)
                requires
                    4 <= w,
                    4 <= h,
            ;
            lemma_cnt_mono(g.tiles@, TileKind::Floor, (h as int - 1) * (w as int), n as int);
            assert(false);
        }
    }
    assert(floors == target);

    // Phase three: put the exit on the floor cell farthest from the
    // spawn, first maximum in scan order.
    let spawn_i = g.cell_index(sx, sy);
    let mut best_x = sx;
    let mut best_y = sy;
    let mut best_i = spawn_i;
    let mut best_d: usize = 0;
    let mut i: usize = 0;
    while i < n
        invariant
            carving_inv(g, w as int, h as int, floors as int),
            MIN_DIM <= w <= MAX_DIM,
            MIN_DIM <= h <= MAX_DIM,
            n == w * h,
            n == g.tiles@.len(),
            sx == w / 2,
            sy == h / 2,
            g.interior(sx as int, sy as int),
            spawn_i == g.idx_of(sx as int, sy as int),
            i <= n,
            best_x <= MAX_DIM,
            best_y <= MAX_DIM,
            best_d == dist2(best_x as int, best_y as int, sx as int, sy as int),
            best_d == 0 ==> best_x == sx && best_y == sy && best_i == spawn_i,
            best_d > 0 ==> g.in_bounds(best_x as int, best_y as int) && g.kind_at(
                best_x as int,
                best_y as int,
            ) == TileKind::Floor && best_i == g.idx_of(best_x as int, best_y as int) && best_i < i,
            forall|x2: int, y2: int|
                g.in_bounds(x2, y2) && #[trigger] g.kind_at(x2, y2) == TileKind::Floor && g.idx_of(
                    x2,
                    y2,
                ) < i ==> dist2(x2, y2, sx as int, sy as int) <= best_d,
            best_d > 0 ==> forall|x2: int, y2: int|
                g.in_bounds(x2, y2) && #[trigger] g.kind_at(x2, y2) == TileKind::Floor && g.idx_of(
                    x2,
                    y2,
                ) < best_i ==> dist2(x2, y2, sx as int, sy as int) < best_d,
        decreases n - i,
    {
        let x = i % w;
        let y = i / w;
        proof {
            lemma_flat_coords(i as int, w as int, h as int);
            assert(g.in_bounds(x as int, y as int));
            assert(g.idx_of(x as int, y as int) == i);
        }
        let d = dist2_between(x, y, sx, sy);
        if g.cell(x, y).kind == TileKind::Floor && d > best_d {
            proof {
                assert forall|x2: int, y2: int|
                    g.in_bounds(x2, y2) && #[trigger] g.kind_at(x2, y2) == TileKind::Floor
                        && g.idx_of(x2, y2) < i implies dist2(x2, y2, sx as int, sy as int) < d
                    as int by {}
            }
            best_x = x;
            best_y = y;
            best_i = i;
            best_d = d;
        }
        proof {
            assert forall|x2: int, y2: int|
                g.in_bounds(x2, y2) && #[trigger] g.kind_at(x2, y2) == TileKind::Floor && g.idx_of(
                    x2,
                    y2,
                ) < i + 1 implies dist2(x2, y2, sx as int, sy as int) <= best_d as int by {
                if g.idx_of(x2, y2) == i {
                    lemma_idx_injective(w as int, h as int, x2, y2, x as int, y as int);
                }
            }
        }
        i = i + 1;
    }

    // A second floor cell always exists, so the maximum distance is
    // positive and the chosen cell is a genuine floor cell.
    proof {
        lemma_cnt_exists_second(g.tiles@, TileKind::Floor, n as int, spawn_i as int);
        let wi = choose|j: int|
            0 <= j < n && j != spawn_i && g.tiles@[j].kind == TileKind::Floor;
        lemma_flat_coords(wi, w as int, h as int);
        let wx = wi % (w as int);
        let wy = wi / (w as int);
        assert(g.in_bounds(wx, wy) && g.idx_of(wx, wy) == wi);
        assert(g.kind_at(wx, wy) == TileKind::Floor);
        let d2w = dist2(wx, wy, sx as int, sy as int);
        assert(d2w >= 0) by (nonlinear_arith)
            requires
                d2w == (wx - sx) * (wx - sx) + (wy - sy) * (wy - sy),
        ;
        if dist2(wx, wy, sx as int, sy as int) == 0 {
            assert(wx == sx && wy == sy) by (nonlinear_arith)
                requires
                    (wx - sx) * (wx - sx) + (wy - sy) * (wy - sy) == 0,
            ;
            assert(false);
        }
        assert(best_d > 0);
    }

    let ghost g0 = g;
    let ghost s0 = g.tiles@;
    let ghost exit_tile = Tile {
        kind: TileKind::Exit,
        last_seen: g.seen_at(best_x as int, best_y as int),
    };
    proof {
        lemma_cnt_update(s0, TileKind::Floor, n as int, best_i as int, exit_tile);
        lemma_cnt_update(s0, TileKind::Exit, n as int, best_i as int, exit_tile);
        lemma_cnt_update(s0, TileKind::Pickup, n as int, best_i as int, exit_tile);
        lemma_idx_bounds(w as int, h as int, best_x as int, best_y as int);
        // The chosen cell is a floor cell, so it is interior, and it
        // is not the spawn (its distance from the spawn is positive).
        if !g0.interior(best_x as int, best_y as int) {
            assert(g0.kind_at(best_x as int, best_y as int) == TileKind::Wall);
        }
        assert(g0.interior(best_x as int, best_y as int));
        if spawn_i == best_i {
            lemma_idx_injective(
                w as int,
                h as int,
                sx as int,
                sy as int,
                best_x as int,
                best_y as int,
            );
            assert(false);
        }
    }
    g.set_kind(best_x, best_y, TileKind::Exit);
    proof {
        lemma_target_bounds(w as int, h as int);
        assert(g.tiles@ == s0.update(best_i as int, exit_tile));
        assert(g.kind_at(best_x as int, best_y as int) == TileKind::Exit);
        assert(g.kind_at(sx as int, sy as int) == TileKind::Floor);
        assert forall|a: int, b: int|
            g.in_bounds(a, b) && !g.interior(a, b) implies g.kind_at(a, b) == TileKind::Wall by {
            lemma_idx_bounds(w as int, h as int, a, b);
            if g.idx_of(a, b) == best_i {
                lemma_idx_injective(w as int, h as int, a, b, best_x as int, best_y as int);
                assert(false);
            }
            assert(g.tiles@[g.idx_of(a, b)] == s0[g0.idx_of(a, b)]);
            assert(g0.kind_at(a, b) == TileKind::Wall);
        }
        assert forall|x2: int, y2: int|
            g.in_bounds(x2, y2) && #[trigger] g.kind_at(x2, y2) == TileKind::Floor implies dist2(
            x2,
            y2,
            sx as int,
            sy as int,
        ) <= dist2(best_x as int, best_y as int, sx as int, sy as int) by {
            lemma_idx_bounds(w as int, h as int, x2, y2);
            if g.idx_of(x2, y2) == best_i {
                lemma_idx_injective(w as int, h as int, x2, y2, best_x as int, best_y as int);
            }
            assert(g0.kind_at(x2, y2) == TileKind::Floor);
            assert(g0.idx_of(x2, y2) < i);
        }
        assert forall|x2: int, y2: int|
            g.in_bounds(x2, y2) && #[trigger] g.kind_at(x2, y2) == TileKind::Floor && g.idx_of(
                x2,
                y2,
            ) < g.idx_of(best_x as int, best_y as int) implies dist2(x2, y2, sx as int, sy as int)
            < dist2(best_x as int, best_y as int, sx as int, sy as int) by {
            lemma_idx_bounds(w as int, h as int, x2, y2);
            assert(g0.kind_at(x2, y2) == TileKind::Floor);
            assert(g0.idx_of(x2, y2) < best_i);
        }
    }
    GeneratedLevel { grid: g, spawn_x: sx, spawn_y: sy, exit_x: best_x, exit_y: best_y }
}

/// Generate a level from a seed, as reproducible as the seed is.
pub fn generate(width: usize, height: usize, seed: u64) -> (lv: GeneratedLevel)
    requires
        MIN_DIM <= width <= MAX_DIM,
        MIN_DIM <= height <= MAX_DIM,
    ensures
        level_post(lv, width as int, height as int),
{
    let mut rng = rng_seeded(seed);
    generate_with(width, height, &mut rng)
}

/// Generation with the size precondition turned into a reported
/// error: `None` exactly when a side is out of the accepted range.
pub fn generate_checked(width: usize, height: usize, seed: u64) -> (r: Option<GeneratedLevel>)
    ensures
        r is None <==> !(MIN_DIM <= width <= MAX_DIM && MIN_DIM <= height <= MAX_DIM),
        r matches Some(lv) ==> level_post(lv, width as int, height as int),
{
    if MIN_DIM <= width && width <= MAX_DIM && MIN_DIM <= height && height <= MAX_DIM {
        Some(generate(width, height, seed))
    } else {
        None
    }
}

} // verus!
