use bracket_lib::random::RandomNumberGenerator;
use sonar_maze::{
    tick, Direction, GameState, Grid, Intent, LastSeen, PlayingState, Tile, TileKind,
};

/// A small hand-built level: a 6x6 room, walls on the border, floor
/// inside, the exit at (4, 4), the player wherever the test says.
fn playing(
    player: (usize, usize),
    pings: u32,
    depth: u32,
    overrides: &[(usize, usize, TileKind)],
) -> PlayingState {
    let (w, h) = (6usize, 6usize);
    let mut tiles = Vec::new();
    for y in 0..h {
        for x in 0..w {
            let kind = if x == 0 || y == 0 || x == w - 1 || y == h - 1 {
                TileKind::Wall
            } else if x == 4 && y == 4 {
                TileKind::Exit
            } else {
                TileKind::Floor
            };
            tiles.push(Tile { kind, last_seen: LastSeen::Never });
        }
    }
    for &(x, y, kind) in overrides {
        tiles[y * w + x] = Tile { kind, last_seen: LastSeen::Never };
    }
    PlayingState {
        grid: Grid { width: w, height: h, tiles },
        player_x: player.0,
        player_y: player.1,
        exit_x: 4,
        exit_y: 4,
        frame_time: 0,
        pings_left: pings,
        depth,
    }
}

fn rng() -> RandomNumberGenerator {
    RandomNumberGenerator::seeded(12345)
}

#[test]
fn confirm_in_menu_starts_a_depth_one_run() {
    let mut r = rng();
    let s = tick(GameState::MainMenu, Intent::Confirm, &mut r);
    match s {
        GameState::Playing(ps) => {
            assert_eq!(ps.depth, 1);
            assert_eq!(ps.pings_left, 15);
            assert_eq!(ps.frame_time, 0);
            assert_eq!(ps.grid.width, 40);
            assert_eq!(ps.grid.height, 25);
            assert_eq!(ps.player_x, 20);
            assert_eq!(ps.player_y, 12);
        }
        _ => panic!("expected Playing"),
    }
}

#[test]
fn other_intents_leave_the_menu_alone() {
    let mut r = rng();
    assert_eq!(
        tick(GameState::MainMenu, Intent::Ping, &mut r),
        GameState::MainMenu
    );
    assert_eq!(
        tick(GameState::Victory, Intent::Move(Direction::Up), &mut r),
        GameState::Victory
    );
    assert_eq!(
        tick(GameState::GameOver, Intent::Nothing, &mut r),
        GameState::GameOver
    );
}

#[test]
fn confirm_restarts_after_game_over_and_victory() {
    let mut r = rng();
    for terminal in [GameState::GameOver, GameState::Victory] {
        match tick(terminal, Intent::Confirm, &mut r) {
            GameState::Playing(ps) => {
                assert_eq!(ps.depth, 1);
                assert_eq!(ps.pings_left, 15);
                assert_eq!(ps.frame_time, 0);
            }
            _ => panic!("expected Playing"),
        }
    }
}

#[test]
fn move_with_no_pings_and_hidden_exit_is_game_over() {
    let mut r = rng();
    let ps = playing((2, 2), 0, 1, &[]);
    let s = tick(GameState::Playing(ps), Intent::Move(Direction::Up), &mut r);
    assert_eq!(s, GameState::GameOver);
}

#[test]
fn move_with_revealed_exit_survives_empty_ping_budget() {
    let mut r = rng();
    let mut ps = playing((2, 2), 0, 1, &[]);
    ps.grid.tiles[4 * 6 + 4].last_seen = LastSeen::Permanent;
    let s = tick(GameState::Playing(ps), Intent::Move(Direction::Up), &mut r);
    match s {
        GameState::Playing(q) => {
            assert_eq!((q.player_x, q.player_y), (2, 1));
            assert_eq!(q.frame_time, 1);
        }
        _ => panic!("expected Playing"),
    }
}

#[test]
fn stepping_onto_exit_at_max_depth_wins() {
    let mut r = rng();
    let ps = playing((3, 4), 2, 3, &[]);
    let s = tick(GameState::Playing(ps), Intent::Move(Direction::Right), &mut r);
    assert_eq!(s, GameState::Victory);
}

#[test]
fn stepping_onto_exit_below_max_depth_advances_a_level() {
    let mut r = rng();
    let ps = playing((3, 4), 4, 2, &[]);
    let s = tick(GameState::Playing(ps), Intent::Move(Direction::Right), &mut r);
    match s {
        GameState::Playing(q) => {
            assert_eq!(q.depth, 3);
            assert_eq!(q.pings_left, 9);
            assert_eq!(q.frame_time, 0);
            assert_eq!(q.grid.width, 40);
            assert_eq!(q.grid.height, 25);
            assert_eq!((q.player_x, q.player_y), (20, 12));
            assert!(q
                .grid
                .tiles
                .iter()
                .all(|t| t.last_seen == LastSeen::Never));
        }
        _ => panic!("expected Playing"),
    }
}

#[test]
fn blocked_move_stays_put_but_time_passes() {
    let mut r = rng();
    let ps = playing((1, 1), 3, 1, &[]);
    let s = tick(GameState::Playing(ps), Intent::Move(Direction::Left), &mut r);
    match s {
        GameState::Playing(q) => {
            assert_eq!((q.player_x, q.player_y), (1, 1));
            assert_eq!(q.frame_time, 1);
            assert_eq!(q.pings_left, 3);
        }
        _ => panic!("expected Playing"),
    }
}

#[test]
fn pickup_grants_a_ping_and_becomes_floor() {
    let mut r = rng();
    let ps = playing((2, 2), 0, 1, &[(2, 1, TileKind::Pickup)]);
    let s = tick(GameState::Playing(ps), Intent::Move(Direction::Up), &mut r);
    match s {
        GameState::Playing(q) => {
            assert_eq!((q.player_x, q.player_y), (2, 1));
            assert_eq!(q.pings_left, 1);
            assert_eq!(q.grid.tiles[1 * 6 + 2].kind, TileKind::Floor);
            assert_eq!(q.frame_time, 1);
        }
        _ => panic!("expected Playing"),
    }
}

#[test]
fn ping_spends_one_and_reveals_the_surroundings() {
    let mut r = rng();
    let ps = playing((2, 2), 5, 1, &[]);
    let s = tick(GameState::Playing(ps), Intent::Ping, &mut r);
    match s {
        GameState::Playing(q) => {
            assert_eq!(q.pings_left, 4);
            assert_eq!(q.frame_time, 1);
            // The player's own cell and the exit were in range.
            assert_eq!(q.grid.tiles[2 * 6 + 2].last_seen, LastSeen::Frame(0));
            assert_eq!(q.grid.tiles[4 * 6 + 4].last_seen, LastSeen::Permanent);
            assert!(q.cell_shown(2, 2));
        }
        _ => panic!("expected Playing"),
    }
}

#[test]
fn ping_with_empty_budget_is_a_quiet_tick() {
    let mut r = rng();
    let ps = playing((2, 2), 0, 1, &[]);
    let before = ps.grid.clone();
    let s = tick(GameState::Playing(ps), Intent::Ping, &mut r);
    match s {
        GameState::Playing(q) => {
            assert_eq!(q.pings_left, 0);
            assert_eq!(q.frame_time, 1);
            assert_eq!(q.grid, before);
        }
        _ => panic!("expected Playing"),
    }
}

#[test]
fn debug_reveal_marks_the_whole_grid_permanent() {
    let mut r = rng();
    let ps = playing((2, 2), 7, 1, &[]);
    let s = tick(GameState::Playing(ps), Intent::DebugRevealAll, &mut r);
    match s {
        GameState::Playing(q) => {
            assert_eq!(q.pings_left, 7);
            assert!(q.grid.tiles.iter().all(|t| t.last_seen == LastSeen::Permanent));
            for y in 0..6 {
                for x in 0..6 {
                    assert!(q.cell_shown(x, y));
                }
            }
        }
        _ => panic!("expected Playing"),
    }
}

#[test]
fn hidden_tiles_fail_the_gate_at_start() {
    let ps = playing((2, 2), 5, 1, &[]);
    for y in 0..6 {
        for x in 0..6 {
            assert!(!ps.cell_shown(x, y));
        }
    }
}

#[test]
fn initial_state_is_the_menu() {
    assert_eq!(GameState::initial(), GameState::MainMenu);
}
