//! The visibility ("sonar ping") engine.
//!
//! A ping computes a bounded-radius, occlusion-aware field of view: a
//! cell is visible from the origin when it lies within the radius
//! (squared Euclidean distance) and no wall cell sits strictly
//! between it and the origin on the straight line segment joining
//! them.  Every cell in the visible set is stamped with the current
//! frame, except the exit, which is stamped permanently.

use crate::grid::{
    dist2, dist2_between, lemma_flat_coords, lemma_idx_bounds, Grid, LastSeen, Tile, TileKind,
    MAX_DIM,
};
use vstd::prelude::*;

verus! {

/// Whether cell `(cx, cy)` lies strictly between `(ox, oy)` and
/// `(tx, ty)` on the straight segment joining them: collinear, inside
/// the bounding box, and distinct from both endpoints.
pub open spec fn on_segment_strict(ox: int, oy: int, tx: int, ty: int, cx: int, cy: int) -> bool {
    &&& (tx - ox) * (cy - oy) == (ty - oy) * (cx - ox)
    &&& if ox <= tx {
        ox <= cx <= tx
    } else {
        tx <= cx <= ox
    }
    &&& if oy <= ty {
        oy <= cy <= ty
    } else {
        ty <= cy <= oy
    }
    &&& !(cx == ox && cy == oy)
    &&& !(cx == tx && cy == ty)
}

/// Whether the cell at `(cx, cy)` blocks the sight line from the
/// origin to the target: it is a wall strictly between the two.
pub open spec fn blocks(
    s: Seq<Tile>,
    w: int,
    ox: int,
    oy: int,
    tx: int,
    ty: int,
    cx: int,
    cy: int,
) -> bool {
    s[cy * w + cx].kind == TileKind::Wall && on_segment_strict(ox, oy, tx, ty, cx, cy)
}

/// Some wall cell strictly occludes the line of sight.
pub open spec fn occluded(s: Seq<Tile>, w: int, h: int, ox: int, oy: int, tx: int, ty: int) -> bool {
    exists|cx: int, cy: int|
        0 <= cx < w && 0 <= cy < h && #[trigger] blocks(s, w, ox, oy, tx, ty, cx, cy)
}

/// A cell is visible from the origin when it is in bounds, within
/// the radius, and not occluded.  The origin always sees itself.
pub open spec fn visible(
    s: Seq<Tile>,
    w: int,
    h: int,
    ox: int,
    oy: int,
    r: int,
    tx: int,
    ty: int,
) -> bool {
    &&& 0 <= tx < w
    &&& 0 <= ty < h
    &&& dist2(ox, oy, tx, ty) <= r * r
    &&& !occluded(s, w, h, ox, oy, tx, ty)
}

/// How one reveal stamps one visible tile.
pub open spec fn stamp(t: Tile, now: u64) -> Tile {
    Tile {
        kind: t.kind,
        last_seen: if t.kind == TileKind::Exit {
            LastSeen::Permanent
        } else {
            LastSeen::Frame(now)
        },
    }
}

/// The whole grid after one reveal from `(ox, oy)`: visible cells are
/// stamped, all others are untouched.
pub open spec fn reveal_model(
    s: Seq<Tile>,
    w: int,
    h: int,
    ox: int,
    oy: int,
    r: int,
    now: u64,
) -> Seq<Tile> {
    Seq::new(
        s.len(),
        |i: int|
            if visible(s, w, h, ox, oy, r, i % w, i / w) {
                stamp(s[i], now)
            } else {
                s[i]
            },
    )
}

/// Collinearity-and-betweenness test on machine integers.
fn on_segment_strict_at(
    ox: usize,
    oy: usize,
    tx: usize,
    ty: usize,
    cx: usize,
    cy: usize,
) -> (r: bool)
    requires
        ox <= MAX_DIM,
        oy <= MAX_DIM,
        tx <= MAX_DIM,
        ty <= MAX_DIM,
        cx <= MAX_DIM,
        cy <= MAX_DIM,
    ensures
        r == on_segment_strict(ox as int, oy as int, tx as int, ty as int, cx as int, cy as int),
{
    let a = tx as i64 - ox as i64;
    let b = cy as i64 - oy as i64;
    let c = ty as i64 - oy as i64;
    let d = cx as i64 - ox as i64;
    proof {
        let m = MAX_DIM as int;
        assert(a * b <= m * m && a * b >= -(m * m) && c * d <= m * m && c * d >= -(m
            * m)) by (nonlinear_arith)
            requires
                -m <= a <= m,
                -m <= b <= m,
                -m <= c <= m,
                -m <= d <= m,
        ;
    }
    let collinear = a * b == c * d;
    let in_x = if ox <= tx {
        ox <= cx && cx <= tx
    } else {
        tx <= cx && cx <= ox
    };
    let in_y = if oy <= ty {
        oy <= cy && cy <= ty
    } else {
        ty <= cy && cy <= oy
    };
    let not_origin = !(cx == ox && cy == oy);
    let not_target = !(cx == tx && cy == ty);
    collinear && in_x && in_y && not_origin && not_target
}

/// Scan the segment's bounding box for a wall that blocks the sight
/// line.
fn seg_blocked(g: &Grid, ox: usize, oy: usize, tx: usize, ty: usize) -> (res: bool)
    requires
        g.wf(),
        g.in_bounds(ox as int, oy as int),
        g.in_bounds(tx as int, ty as int),
    ensures
        res == occluded(
            g.tiles@,
            g.width as int,
            g.height as int,
            ox as int,
            oy as int,
            tx as int,
            ty as int,
        ),
{
    let ghost s = g.tiles@;
    let ghost w = g.width as int;
    let ghost h = g.height as int;
    let x_lo = if ox <= tx {
        ox
    } else {
        tx
    };
    let x_hi = if ox <= tx {
        tx
    } else {
        ox
    };
    let y_lo = if oy <= ty {
        oy
    } else {
        ty
    };
    let y_hi = if oy <= ty {
        ty
    } else {
        oy
    };
    let mut found = false;
    let mut cy = y_lo;
    while cy <= y_hi
        invariant
            g.wf(),
            s == g.tiles@,
            w == g.width,
            h == g.height,
            g.in_bounds(ox as int, oy as int),
            g.in_bounds(tx as int, ty as int),
            x_lo <= x_hi < g.width,
            y_lo <= cy <= y_hi + 1,
            y_hi < g.height,
            found == exists|ax: int, ay: int|
                x_lo <= ax <= x_hi && y_lo <= ay < cy && #[trigger] blocks(
                    s,
                    w,
                    ox as int,
                    oy as int,
                    tx as int,
                    ty as int,
                    ax,
                    ay,
                ),
        decreases y_hi + 1 - cy,
    {
        let mut cx = x_lo;
        while cx <= x_hi
            invariant
                g.wf(),
                s == g.tiles@,
                w == g.width,
                h == g.height,
                g.in_bounds(ox as int, oy as int),
                g.in_bounds(tx as int, ty as int),
                x_lo <= cx <= x_hi + 1,
                x_hi < g.width,
                y_lo <= cy <= y_hi,
                y_hi < g.height,
                found == exists|ax: int, ay: int|
                    x_lo <= ax <= x_hi && (y_lo <= ay < cy || (ay == cy && x_lo <= ax < cx))
                        && #[trigger] blocks(
                        s,
                        w,
                        ox as int,
                        oy as int,
                        tx as int,
                        ty as int,
                        ax,
                        ay,
                    ),
            decreases x_hi + 1 - cx,
        {
            proof {
                lemma_idx_bounds(w, h, cx as int, cy as int);
            }
            if g.cell(cx, cy).kind == TileKind::Wall && on_segment_strict_at(
                ox,
                oy,
                tx,
                ty,
                cx,
                cy,
            ) {
                proof {
                    assert(blocks(s, w, ox as int, oy as int, tx as int, ty as int, cx as int,
                        cy as int));
                }
                found = true;
            }
            cx = cx + 1;
        }
        cy = cy + 1;
    }
    proof {
        if found {
            let (ax, ay) = choose|ax: int, ay: int|
                x_lo <= ax <= x_hi && y_lo <= ay < y_hi + 1 && #[trigger] blocks(
                    s,
                    w,
                    ox as int,
                    oy as int,
                    tx as int,
                    ty as int,
                    ax,
                    ay,
                );
            assert(0 <= ax < w && 0 <= ay < h);
            assert(occluded(s, w, h, ox as int, oy as int, tx as int, ty as int));
        } else {
            assert forall|ax: int, ay: int| 0 <= ax < w && 0 <= ay < h implies !#[trigger] blocks(
                s,
                w,
                ox as int,
                oy as int,
                tx as int,
                ty as int,
                ax,
                ay,
            ) by {
                if x_lo <= ax <= x_hi && y_lo <= ay <= y_hi {
                    assert(!blocks(s, w, ox as int, oy as int, tx as int, ty as int, ax, ay));
                } else {
                    assert(!on_segment_strict(ox as int, oy as int, tx as int, ty as int, ax, ay));
                }
            }
            assert(!occluded(s, w, h, ox as int, oy as int, tx as int, ty as int));
        }
    }
    found
}

/// Decide whether one cell is visible from the origin.
pub fn is_visible_cell(
    g: &Grid,
    ox: usize,
    oy: usize,
    radius: usize,
    tx: usize,
    ty: usize,
) -> (r: bool)
    requires
        g.wf(),
        g.in_bounds(ox as int, oy as int),
        g.in_bounds(tx as int, ty as int),
        radius <= MAX_DIM,
    ensures
        r == visible(
            g.tiles@,
            g.width as int,
            g.height as int,
            ox as int,
            oy as int,
            radius as int,
            tx as int,
            ty as int,
        ),
{
    proof {
        assert(radius * radius <= MAX_DIM * MAX_DIM) by (nonlinear_arith)
            requires
                radius <= MAX_DIM,
        ;
    }
    let d = dist2_between(ox, oy, tx, ty);
    if d > radius * radius {
        return false;
    }
    !seg_blocked(g, ox, oy, tx, ty)
}

/// Reveal from `(ox, oy)`: stamp every visible cell, the exit
/// permanently and every other visible cell with the current frame.
pub fn reveal_from(g: &mut Grid, ox: usize, oy: usize, radius: usize, now: u64)
    requires
        old(g).wf(),
        old(g).in_bounds(ox as int, oy as int),
        radius <= MAX_DIM,
    ensures
        final(g).width == old(g).width,
        final(g).height == old(g).height,
        final(g).tiles@ == reveal_model(
            old(g).tiles@,
            old(g).width as int,
            old(g).height as int,
            ox as int,
            oy as int,
            radius as int,
            now,
        ),
{
    let ghost s0 = g.tiles@;
    let w = g.width;
    let h = g.height;
    let n = g.tiles.len();
    let ghost model = reveal_model(s0, w as int, h as int, ox as int, oy as int, radius as int, now);

    // First pass: record each cell's visibility against the untouched
    // grid.
    let mut seen: Vec<bool> = Vec::new();
    let mut i: usize = 0;
    while i < n
        invariant
            g.wf(),
            *g == *old(g),
            s0 == g.tiles@,
            w == g.width,
            h == g.height,
            n == g.tiles@.len(),
            g.in_bounds(ox as int, oy as int),
            radius <= MAX_DIM,
            i <= n,
            seen@.len() == i,
            forall|j: int|
                0 <= j < i ==> seen@[j] == visible(
                    s0,
                    w as int,
                    h as int,
                    ox as int,
                    oy as int,
                    radius as int,
                    j % (w as int),
                    j / (w as int),
                ),
        decreases n - i,
    {
        let x = i % w;
        let y = i / w;
        proof {
            lemma_flat_coords(i as int, w as int, h as int);
        }
        let v = is_visible_cell(g, ox, oy, radius, x, y);
        seen.push(v);
        i = i + 1;
    }

    // Second pass: stamp the visible cells.
    let mut i: usize = 0;
    while i < n
        invariant
            w == g.width,
            h == g.height,
            n == g.tiles@.len(),
            n == s0.len(),
            model == reveal_model(
                s0,
                w as int,
                h as int,
                ox as int,
                oy as int,
                radius as int,
                now,
            ),
            i <= n,
            seen@.len() == n,
            forall|j: int|
                0 <= j < n ==> seen@[j] == visible(
                    s0,
                    w as int,
                    h as int,
                    ox as int,
                    oy as int,
                    radius as int,
                    j % (w as int),
                    j / (w as int),
                ),
            forall|j: int| 0 <= j < i ==> g.tiles@[j] == model[j],
            forall|j: int| i <= j < n ==> g.tiles@[j] == s0[j],
        decreases n - i,
    {
        if seen[i] {
            let t = g.tiles[i];
            let stamped = if t.kind == TileKind::Exit {
                Tile { kind: t.kind, last_seen: LastSeen::Permanent }
            } else {
                Tile { kind: t.kind, last_seen: LastSeen::Frame(now) }
            };
            g.tiles[i] = stamped;
        }
        i = i + 1;
    }
    proof {
        assert(g.tiles@ =~= model);
    }
}

/// The debug reveal: stamp every tile in the grid permanently,
/// bypassing radius and occlusion.
pub fn reveal_all(g: &mut Grid)
    ensures
        final(g).width == old(g).width,
        final(g).height == old(g).height,
        final(g).tiles@.len() == old(g).tiles@.len(),
        forall|i: int|
            0 <= i < old(g).tiles@.len() ==> final(g).tiles@[i] == (Tile {
                kind: old(g).tiles@[i].kind,
                last_seen: LastSeen::Permanent,
            }),
{
    let n = g.tiles.len();
    let mut i: usize = 0;
    while i < n
        invariant
            n == g.tiles@.len(),
            g.width == old(g).width,
            g.height == old(g).height,
            n == old(g).tiles@.len(),
            i <= n,
            forall|j: int|
                0 <= j < i ==> g.tiles@[j] == (Tile {
                    kind: old(g).tiles@[j].kind,
                    last_seen: LastSeen::Permanent,
                }),
            forall|j: int| i <= j < n ==> g.tiles@[j] == old(g).tiles@[j],
        decreases n - i,
    {
        let t = g.tiles[i];
        g.tiles[i] = Tile { kind: t.kind, last_seen: LastSeen::Permanent };
        i = i + 1;
    }
}

/// Reveals do not change any tile's kind.
pub proof fn lemma_reveal_keeps_kinds(
    s: Seq<Tile>,
    w: int,
    h: int,
    ox: int,
    oy: int,
    r: int,
    now: u64,
)
    ensures
        reveal_model(s, w, h, ox, oy, r, now).len() == s.len(),
        forall|i: int|
            0 <= i < s.len() ==> #[trigger] reveal_model(s, w, h, ox, oy, r, now)[i].kind
                == s[i].kind,
{
}

/// Visibility depends on the tile kinds alone: two grids whose kinds
/// agree cell by cell are visible in exactly the same places.
pub proof fn lemma_visible_congruent(
    s1: Seq<Tile>,
    s2: Seq<Tile>,
    w: int,
    h: int,
    ox: int,
    oy: int,
    r: int,
)
    requires
        1 <= w,
        s1.len() == w * h,
        s2.len() == s1.len(),
        forall|i: int| 0 <= i < s1.len() ==> s1[i].kind == s2[i].kind,
    ensures
        forall|tx: int, ty: int|
            #[trigger] visible(s1, w, h, ox, oy, r, tx, ty) == visible(s2, w, h, ox, oy, r, tx, ty),
{
    assert forall|tx: int, ty: int|
        #[trigger] visible(s1, w, h, ox, oy, r, tx, ty) == visible(
        s2,
        w,
        h,
        ox,
        oy,
        r,
        tx,
        ty,
    ) by {
        if occluded(s1, w, h, ox, oy, tx, ty) {
            let (cx, cy) = choose|cx: int, cy: int|
                0 <= cx < w && 0 <= cy < h && #[trigger] blocks(s1, w, ox, oy, tx, ty, cx, cy);
            lemma_idx_bounds(w, h, cx, cy);
            assert(blocks(s2, w, ox, oy, tx, ty, cx, cy));
            assert(occluded(s2, w, h, ox, oy, tx, ty));
        }
        if occluded(s2, w, h, ox, oy, tx, ty) {
            let (cx, cy) = choose|cx: int, cy: int|
                0 <= cx < w && 0 <= cy < h && #[trigger] blocks(s2, w, ox, oy, tx, ty, cx, cy);
            lemma_idx_bounds(w, h, cx, cy);
            assert(blocks(s1, w, ox, oy, tx, ty, cx, cy));
            assert(occluded(s1, w, h, ox, oy, tx, ty));
        }
    }
}

/// Reveal idempotence law: revealing twice in the same frame, from
/// the same origin with the same radius, leaves exactly the grid one
/// reveal leaves.
pub proof fn lemma_reveal_idempotent(
    s: Seq<Tile>,
    w: int,
    h: int,
    ox: int,
    oy: int,
    r: int,
    now: u64,
)
    requires
        1 <= w,
        s.len() == w * h,
    ensures
        reveal_model(reveal_model(s, w, h, ox, oy, r, now), w, h, ox, oy, r, now) == reveal_model(
            s,
            w,
            h,
            ox,
            oy,
            r,
            now,
        ),
{
    let s1 = reveal_model(s, w, h, ox, oy, r, now);
    let s2 = reveal_model(s1, w, h, ox, oy, r, now);
    lemma_reveal_keeps_kinds(s, w, h, ox, oy, r, now);
    lemma_visible_congruent(s, s1, w, h, ox, oy, r);
    assert forall|i: int| 0 <= i < s1.len() implies s2[i] == s1[i] by {
        assert(visible(s1, w, h, ox, oy, r, i % w, i / w) == visible(
            s,
            w,
            h,
            ox,
            oy,
            r,
            i % w,
            i / w,
        ));
    }
    assert(s2 =~= s1);
}

/// Permanent-reveal monotonicity law: a permanently revealed cell
/// stays permanently revealed through any further reveal, provided it
/// is the exit or lies outside that reveal's visible set.  (A
/// non-exit cell made permanent by the debug reveal and then caught
/// in a ping's visible set is restamped with the ping's frame, as the
/// stamping rule requires.)
pub proof fn lemma_permanent_monotone(
    s: Seq<Tile>,
    w: int,
    h: int,
    ox: int,
    oy: int,
    r: int,
    now: u64,
    i: int,
)
    requires
        1 <= w,
        s.len() == w * h,
        0 <= i < s.len(),
        s[i].last_seen == LastSeen::Permanent,
        s[i].kind == TileKind::Exit || !visible(s, w, h, ox, oy, r, i % w, i / w),
    ensures
        reveal_model(s, w, h, ox, oy, r, now)[i].last_seen == LastSeen::Permanent,
{
}

} // verus!
