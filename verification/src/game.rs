//! The game state machine.
//!
//! A run moves through `MainMenu`, `Playing`, `GameOver` and
//! `Victory`.  Exactly one input intent is consumed per tick, at most
//! one transition happens per tick, and `tick` replaces the whole
//! state value.  The transition relation `step_rel` is the machine's
//! contract: it pins every transition of the table down, up to the
//! random stream consumed when a new level is generated.

use crate::grid::{
    cnt_kind, gate_spec, lemma_cnt_bounds, lemma_cnt_congruent, lemma_cnt_update,
    lemma_idx_bounds, lemma_idx_injective, lemma_kind_at_congruent, lemma_nonwall_interior,
    passes_gate, Grid, LastSeen, Tile, TileKind,
};
use crate::mapgen::{gen_post, generate_with, level_post, GeneratedLevel};
use crate::vis::{lemma_reveal_keeps_kinds, reveal_all, reveal_from, reveal_model};
use vstd::prelude::*;

verus! {

/// Width of every generated level.
pub const LEVEL_WIDTH: usize = 40;

/// Height of every generated level.
pub const LEVEL_HEIGHT: usize = 25;

/// Ping budget a fresh run starts with.
pub const START_PINGS: u32 = 15;

/// Pings awarded on reaching the next level.
pub const LEVEL_BONUS_PINGS: u32 = 5;

/// Depth at which stepping onto the exit wins the run.
pub const MAX_DEPTH: u32 = 3;

/// Radius of the sonar ping.
pub const PING_RADIUS: usize = 8;

/// Ceiling on the ping budget plus the pickups still on the grid;
/// keeps the budget far from any machine limit.
pub const PING_CAP: u32 = 0x4000_0000;

/// A cardinal movement direction.
#[derive(Clone, Copy, Debug, PartialEq, Eq, Structural)]
pub enum Direction {
    Up,
    Down,
    Left,
    Right,
}

/// One discrete input intent, delivered once per tick.  `Nothing`
/// stands for a tick on which no intent arrived.
#[derive(Clone, Copy, Debug, PartialEq, Eq, Structural)]
pub enum Intent {
    Nothing,
    Confirm,
    Ping,
    DebugRevealAll,
    Move(Direction),
}

/// The per-run mutable state, owned by the `Playing` variant.
#[derive(Clone, Debug, PartialEq)]
pub struct PlayingState {
    pub grid: Grid,
    pub player_x: usize,
    pub player_y: usize,
    pub exit_x: usize,
    pub exit_y: usize,
    pub frame_time: u64,
    pub pings_left: u32,
    pub depth: u32,
}

/// The top-level game state; exactly one variant is live at a time.
#[derive(Clone, Debug, PartialEq)]
pub enum GameState {
    MainMenu,
    Playing(PlayingState),
    GameOver,
    Victory,
}

/// No timestamp is at or ahead of the frame counter.
pub open spec fn frame_bounded(ls: LastSeen, ft: u64) -> bool {
    match ls {
        LastSeen::Frame(f) => f < ft,
        _ => true,
    }
}

impl PlayingState {
    pub open spec fn exit_idx(self) -> int {
        self.grid.idx_of(self.exit_x as int, self.exit_y as int)
    }

    /// Everything the play loop preserves about a level in play: a
    /// well-formed walled grid, the player interior on a walkable
    /// cell, exactly one exit (where `exit_x`, `exit_y` say), a depth
    /// within range, a bounded ping budget, and no timestamp ahead of
    /// the frame counter.
    pub open spec fn inv(self) -> bool {
        &&& self.grid.wf()
        &&& self.grid.perimeter_walled()
        &&& self.grid.interior(self.player_x as int, self.player_y as int)
        &&& self.grid.kind_at(self.player_x as int, self.player_y as int) != TileKind::Wall
        &&& self.grid.in_bounds(self.exit_x as int, self.exit_y as int)
        &&& self.grid.kind_at(self.exit_x as int, self.exit_y as int) == TileKind::Exit
        &&& cnt_kind(self.grid.tiles@, TileKind::Exit, self.grid.tiles@.len() as int) == 1
        &&& 1 <= self.depth <= MAX_DEPTH
        &&& self.pings_left + cnt_kind(
            self.grid.tiles@,
            TileKind::Pickup,
            self.grid.tiles@.len() as int,
        ) + 10 * (MAX_DEPTH - self.depth) <= PING_CAP
        &&& forall|i: int|
            0 <= i < self.grid.tiles@.len() ==> frame_bounded(
                #[trigger] self.grid.tiles@[i].last_seen,
                self.frame_time,
            )
    }

    /// Whether the exit has been permanently revealed.
    pub open spec fn exit_marked(self) -> bool {
        self.grid.tiles@[self.exit_idx()].last_seen == LastSeen::Permanent
    }

    /// Whether a tile passes the fade gate this frame, for the
    /// renderer.
    pub fn cell_shown(&self, x: usize, y: usize) -> (r: bool)
        requires
            self.grid.wf(),
            self.grid.in_bounds(x as int, y as int),
        ensures
            r == gate_spec(self.grid.seen_at(x as int, y as int), self.frame_time),
    {
        let t = self.grid.cell(x, y);
        passes_gate(t.last_seen, self.frame_time)
    }
}

impl GameState {
    pub open spec fn inv(self) -> bool {
        match self {
            GameState::Playing(ps) => ps.inv(),
            _ => true,
        }
    }

    /// The state a run begins in.
    pub fn initial() -> (s: GameState)
        ensures
            s == GameState::MainMenu,
    {
        GameState::MainMenu
    }
}

/// The cell a move aims at.
pub open spec fn target_x(ps: PlayingState, d: Direction) -> int {
    match d {
        Direction::Left => ps.player_x - 1,
        Direction::Right => ps.player_x + 1,
        _ => ps.player_x as int,
    }
}

pub open spec fn target_y(ps: PlayingState, d: Direction) -> int {
    match d {
        Direction::Up => ps.player_y - 1,
        Direction::Down => ps.player_y + 1,
        _ => ps.player_y as int,
    }
}

/// Evaluated after a move: the run is lost when no pings are left
/// and the exit has not been permanently revealed.
pub open spec fn lose_now(ps: PlayingState) -> bool {
    ps.pings_left == 0 && !ps.exit_marked()
}

/// Player, exit and depth unchanged.
pub open spec fn same_identity(ps: PlayingState, q: PlayingState) -> bool {
    &&& q.player_x == ps.player_x
    &&& q.player_y == ps.player_y
    &&& q.exit_x == ps.exit_x
    &&& q.exit_y == ps.exit_y
    &&& q.depth == ps.depth
}

/// Only the frame counter advanced.
pub open spec fn advanced(ps: PlayingState, q: PlayingState) -> bool {
    &&& same_identity(ps, q)
    &&& q.grid == ps.grid
    &&& q.pings_left == ps.pings_left
    &&& q.frame_time == ps.frame_time + 1
}

/// A fresh depth-1 run on a newly generated level.
pub open spec fn fresh_run(post: GameState) -> bool {
    match post {
        GameState::Playing(q) => {
            &&& q.inv()
            &&& q.depth == 1
            &&& q.pings_left == START_PINGS
            &&& q.frame_time == 0
            &&& q.grid.width == LEVEL_WIDTH
            &&& q.grid.height == LEVEL_HEIGHT
            &&& gen_post(
                q.grid,
                q.player_x as int,
                q.player_y as int,
                q.exit_x as int,
                q.exit_y as int,
            )
        },
        _ => false,
    }
}

/// The next level: a new grid, the player on its spawn, depth one
/// deeper, the ping budget carried over plus the bonus, the clock
/// reset.
pub open spec fn level_up(ps: PlayingState, post: GameState) -> bool {
    match post {
        GameState::Playing(q) => {
            &&& q.inv()
            &&& q.depth == ps.depth + 1
            &&& q.pings_left == ps.pings_left + LEVEL_BONUS_PINGS
            &&& q.frame_time == 0
            &&& q.grid.width == LEVEL_WIDTH
            &&& q.grid.height == LEVEL_HEIGHT
            &&& gen_post(
                q.grid,
                q.player_x as int,
                q.player_y as int,
                q.exit_x as int,
                q.exit_y as int,
            )
        },
        _ => false,
    }
}

/// The `Playing` row of the transition table, one arm per intent.
pub open spec fn playing_step(ps: PlayingState, intent: Intent, post: GameState) -> bool {
    match intent {
        Intent::Nothing => post matches GameState::Playing(q) && advanced(ps, q),
        Intent::Confirm => post matches GameState::Playing(q) && advanced(ps, q),
        Intent::DebugRevealAll => post matches GameState::Playing(q) && {
            &&& same_identity(ps, q)
            &&& q.pings_left == ps.pings_left
            &&& q.frame_time == ps.frame_time + 1
            &&& q.grid.width == ps.grid.width
            &&& q.grid.height == ps.grid.height
            &&& q.grid.tiles@.len() == ps.grid.tiles@.len()
            &&& forall|i: int|
                0 <= i < ps.grid.tiles@.len() ==> q.grid.tiles@[i] == (Tile {
                    kind: ps.grid.tiles@[i].kind,
                    last_seen: LastSeen::Permanent,
                })
        },
        Intent::Ping => {
            if ps.pings_left > 0 {
                post matches GameState::Playing(q) && {
                    &&& same_identity(ps, q)
                    &&& q.pings_left == ps.pings_left - 1
                    &&& q.frame_time == ps.frame_time + 1
                    &&& q.grid.width == ps.grid.width
                    &&& q.grid.height == ps.grid.height
                    &&& q.grid.tiles@ == reveal_model(
                        ps.grid.tiles@,
                        ps.grid.width as int,
                        ps.grid.height as int,
                        ps.player_x as int,
                        ps.player_y as int,
                        PING_RADIUS as int,
                        ps.frame_time,
                    )
                }
            } else {
                post matches GameState::Playing(q) && advanced(ps, q)
            }
        },
        Intent::Move(d) => {
            let tx = target_x(ps, d);
            let ty = target_y(ps, d);
            let tk = ps.grid.kind_at(tx, ty);
            if tk == TileKind::Wall {
                if lose_now(ps) {
                    post == GameState::GameOver
                } else {
                    post matches GameState::Playing(q) && advanced(ps, q)
                }
            } else if tk == TileKind::Exit {
                if ps.depth == MAX_DEPTH {
                    post == GameState::Victory
                } else {
                    level_up(ps, post)
                }
            } else if tk == TileKind::Pickup {
                post matches GameState::Playing(q) && {
                    &&& q.player_x == tx
                    &&& q.player_y == ty
                    &&& q.exit_x == ps.exit_x
                    &&& q.exit_y == ps.exit_y
                    &&& q.depth == ps.depth
                    &&& q.pings_left == ps.pings_left + 1
                    &&& q.frame_time == ps.frame_time + 1
                    &&& q.grid.width == ps.grid.width
                    &&& q.grid.height == ps.grid.height
                    &&& q.grid.tiles@ == ps.grid.tiles@.update(
                        ps.grid.idx_of(tx, ty),
                        Tile { kind: TileKind::Floor, last_seen: ps.grid.tiles@[ps.grid.idx_of(tx, ty)].last_seen },
                    )
                }
            } else {
                if lose_now(ps) {
                    post == GameState::GameOver
                } else {
                    post matches GameState::Playing(q) && {
                        &&& q.player_x == tx
                        &&& q.player_y == ty
                        &&& q.exit_x == ps.exit_x
                        &&& q.exit_y == ps.exit_y
                        &&& q.depth == ps.depth
                        &&& q.pings_left == ps.pings_left
                        &&& q.frame_time == ps.frame_time + 1
                        &&& q.grid == ps.grid
                    }
                }
            }
        },
    }
}

/// The whole transition table.
pub open spec fn step_rel(pre: GameState, intent: Intent, post: GameState) -> bool {
    match pre {
        GameState::MainMenu => if intent == Intent::Confirm {
            fresh_run(post)
        } else {
            post == pre
        },
        GameState::GameOver => if intent == Intent::Confirm {
            fresh_run(post)
        } else {
            post == pre
        },
        GameState::Victory => if intent == Intent::Confirm {
            fresh_run(post)
        } else {
            post == pre
        },
        GameState::Playing(ps) => playing_step(ps, intent, post),
    }
}

/// Build the playing state of a newly generated level.
fn level_state(lv: GeneratedLevel, pings: u32, depth: u32) -> (q: PlayingState)
    requires
        level_post(lv, LEVEL_WIDTH as int, LEVEL_HEIGHT as int),
        1 <= depth <= MAX_DEPTH,
        pings + 10 * (MAX_DEPTH - depth) <= PING_CAP,
    ensures
        q.inv(),
        q.depth == depth,
        q.pings_left == pings,
        q.frame_time == 0,
        q.grid.width == LEVEL_WIDTH,
        q.grid.height == LEVEL_HEIGHT,
        gen_post(q.grid, q.player_x as int, q.player_y as int, q.exit_x as int, q.exit_y as int),
{
    let q = PlayingState {
        grid: lv.grid,
        player_x: lv.spawn_x,
        player_y: lv.spawn_y,
        exit_x: lv.exit_x,
        exit_y: lv.exit_y,
        frame_time: 0,
        pings_left: pings,
        depth,
    };
    proof {
        assert(q.inv());
    }
    q
}

/// Start a fresh depth-1 run.
fn new_run(rng: &mut bracket_lib::random::RandomNumberGenerator) -> (post: GameState)
    ensures
        fresh_run(post),
        post.inv(),
{
    let lv = generate_with(LEVEL_WIDTH, LEVEL_HEIGHT, rng);
    GameState::Playing(level_state(lv, START_PINGS, 1))
}

/// Move on to the next level, keeping the ping budget plus a bonus.
fn next_level(
    ps: PlayingState,
    rng: &mut bracket_lib::random::RandomNumberGenerator,
) -> (post: GameState)
    requires
        ps.inv(),
        ps.depth < MAX_DEPTH,
    ensures
        level_up(ps, post),
        post.inv(),
{
    proof {
        lemma_cnt_bounds(
            ps.grid.tiles@,
            TileKind::Pickup,
            ps.grid.tiles@.len() as int,
        );
    }
    let lv = generate_with(LEVEL_WIDTH, LEVEL_HEIGHT, rng);
    GameState::Playing(level_state(lv, ps.pings_left + LEVEL_BONUS_PINGS, ps.depth + 1))
}

/// Whether the run is lost, evaluated after a move.
fn check_lose(ps: &PlayingState) -> (r: bool)
    requires
        ps.grid.wf(),
        ps.grid.in_bounds(ps.exit_x as int, ps.exit_y as int),
    ensures
        r == lose_now(*ps),
{
    if ps.pings_left != 0 {
        return false;
    }
    let t = ps.grid.cell(ps.exit_x, ps.exit_y);
    t.last_seen != LastSeen::Permanent
}

/// One tick of the `Playing` state.
fn playing_tick(
    ps: PlayingState,
    intent: Intent,
    rng: &mut bracket_lib::random::RandomNumberGenerator,
) -> (post: GameState)
    requires
        ps.inv(),
        ps.frame_time < u64::MAX,
    ensures
        post.inv(),
        playing_step(ps, intent, post),
{
    let mut ps = ps;
    match intent {
        Intent::Nothing | Intent::Confirm => {
            ps.frame_time = ps.frame_time + 1;
            GameState::Playing(ps)
        },
        Intent::DebugRevealAll => {
            let ghost g0 = ps.grid;
            reveal_all(&mut ps.grid);
            ps.frame_time = ps.frame_time + 1;
            proof {
                lemma_kind_at_congruent(g0, ps.grid);
                lemma_cnt_congruent(
                    ps.grid.tiles@,
                    g0.tiles@,
                    TileKind::Exit,
                    g0.tiles@.len() as int,
                );
                lemma_cnt_congruent(
                    ps.grid.tiles@,
                    g0.tiles@,
                    TileKind::Pickup,
                    g0.tiles@.len() as int,
                );
            }
            GameState::Playing(ps)
        },
        Intent::Ping => {
            if ps.pings_left > 0 {
                let ghost g0 = ps.grid;
                let px = ps.player_x;
                let py = ps.player_y;
                let now = ps.frame_time;
                reveal_from(&mut ps.grid, px, py, PING_RADIUS, now);
                ps.pings_left = ps.pings_left - 1;
                ps.frame_time = ps.frame_time + 1;
                proof {
                    lemma_reveal_keeps_kinds(
                        g0.tiles@,
                        g0.width as int,
                        g0.height as int,
                        px as int,
                        py as int,
                        PING_RADIUS as int,
                        now,
                    );
                    lemma_kind_at_congruent(g0, ps.grid);
                    lemma_cnt_congruent(
                        ps.grid.tiles@,
                        g0.tiles@,
                        TileKind::Exit,
                        g0.tiles@.len() as int,
                    );
                    lemma_cnt_congruent(
                        ps.grid.tiles@,
                        g0.tiles@,
                        TileKind::Pickup,
                        g0.tiles@.len() as int,
                    );
                    assert forall|i: int| 0 <= i < ps.grid.tiles@.len() implies frame_bounded(
                        #[trigger] ps.grid.tiles@[i].last_seen,
                        ps.frame_time,
                    ) by {
                        assert(ps.grid.tiles@[i] == reveal_model(
                            g0.tiles@,
                            g0.width as int,
                            g0.height as int,
                            px as int,
                            py as int,
                            PING_RADIUS as int,
                            now,
                        )[i]);
                    }
                }
                GameState::Playing(ps)
            } else {
                ps.frame_time = ps.frame_time + 1;
                GameState::Playing(ps)
            }
        },
        Intent::Move(d) => {
            let tx = match d {
                Direction::Left => ps.player_x - 1,
                Direction::Right => ps.player_x + 1,
                _ => ps.player_x,
            };
            let ty = match d {
                Direction::Up => ps.player_y - 1,
                Direction::Down => ps.player_y + 1,
                _ => ps.player_y,
            };
            proof {
                assert(ps.grid.in_bounds(tx as int, ty as int));
            }
            let tk = ps.grid.cell(tx, ty).kind;
            if tk == TileKind::Wall {
                if check_lose(&ps) {
                    GameState::GameOver
                } else {
                    ps.frame_time = ps.frame_time + 1;
                    GameState::Playing(ps)
                }
            } else if tk == TileKind::Exit {
                if ps.depth == MAX_DEPTH {
                    GameState::Victory
                } else {
                    next_level(ps, rng)
                }
            } else if tk == TileKind::Pickup {
                proof {
                    lemma_nonwall_interior(ps.grid, tx as int, ty as int);
                    lemma_idx_bounds(
                        ps.grid.width as int,
                        ps.grid.height as int,
                        tx as int,
                        ty as int,
                    );
                    lemma_cnt_bounds(
                        ps.grid.tiles@,
                        TileKind::Pickup,
                        ps.grid.tiles@.len() as int,
                    );
                    let t = Tile {
                        kind: TileKind::Floor,
                        last_seen: ps.grid.seen_at(tx as int, ty as int),
                    };
                    lemma_cnt_update(
                        ps.grid.tiles@,
                        TileKind::Exit,
                        ps.grid.tiles@.len() as int,
                        ps.grid.idx_of(tx as int, ty as int),
                        t,
                    );
                    lemma_cnt_update(
                        ps.grid.tiles@,
                        TileKind::Pickup,
                        ps.grid.tiles@.len() as int,
                        ps.grid.idx_of(tx as int, ty as int),
                        t,
                    );
                }
                let ghost g0 = ps.grid;
                ps.grid.set_kind(tx, ty, TileKind::Floor);
                ps.player_x = tx;
                ps.player_y = ty;
                ps.pings_left = ps.pings_left + 1;
                ps.frame_time = ps.frame_time + 1;
                proof {
                    lemma_idx_bounds(
                        ps.grid.width as int,
                        ps.grid.height as int,
                        ps.exit_x as int,
                        ps.exit_y as int,
                    );
                    assert(g0.idx_of(ps.exit_x as int, ps.exit_y as int) != g0.idx_of(
                        tx as int,
                        ty as int,
                    ));
                    assert(ps.grid.kind_at(ps.exit_x as int, ps.exit_y as int) == TileKind::Exit);
                    assert forall|a: int, b: int|
                        ps.grid.in_bounds(a, b) && !ps.grid.interior(a, b) implies ps.grid.kind_at(
                        a,
                        b,
                    ) == TileKind::Wall by {
                        lemma_idx_bounds(ps.grid.width as int, ps.grid.height as int, a, b);
                        if ps.grid.idx_of(a, b) == g0.idx_of(tx as int, ty as int) {
                            lemma_idx_injective(
                                ps.grid.width as int,
                                ps.grid.height as int,
                                a,
                                b,
                                tx as int,
                                ty as int,
                            );
                            assert(false);
                        }
                        assert(g0.kind_at(a, b) == TileKind::Wall);
                    }
                }
                GameState::Playing(ps)
            } else {
                if check_lose(&ps) {
                    GameState::GameOver
                } else {
                    ps.player_x = tx;
                    ps.player_y = ty;
                    ps.frame_time = ps.frame_time + 1;
                    proof {
                        lemma_nonwall_interior(ps.grid, tx as int, ty as int);
                    }
                    GameState::Playing(ps)
                }
            }
        },
    }
}

/// Consume one intent and produce the next state.
///
/// The relation `step_rel` between the old and the new state is the
/// machine's whole contract; the new state satisfies the play
/// invariant whenever it is `Playing`.
pub fn tick(
    state: GameState,
    intent: Intent,
    rng: &mut bracket_lib::random::RandomNumberGenerator,
) -> (post: GameState)
    requires
        state.inv(),
        state matches GameState::Playing(ps) ==> ps.frame_time < u64::MAX,
    ensures
        post.inv(),
        step_rel(state, intent, post),
{
    match state {
        GameState::MainMenu => {
            if intent == Intent::Confirm {
                new_run(rng)
            } else {
                GameState::MainMenu
            }
        },
        GameState::GameOver => {
            if intent == Intent::Confirm {
                new_run(rng)
            } else {
                GameState::GameOver
            }
        },
        GameState::Victory => {
            if intent == Intent::Confirm {
                new_run(rng)
            } else {
                GameState::Victory
            }
        },
        GameState::Playing(ps) => playing_tick(ps, intent, rng),
    }
}

} // verus!
