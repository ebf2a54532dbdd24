use sonar_maze::{
    generate, is_visible_cell, passes_gate, reveal_all, reveal_from, Grid, LastSeen, Tile,
    TileKind,
};

/// A small open room: walls on the border, floor inside, with a few
/// cells overridden.
fn room(w: usize, h: usize, overrides: &[(usize, usize, TileKind)]) -> Grid {
    let mut tiles = Vec::new();
    for y in 0..h {
        for x in 0..w {
            let kind = if x == 0 || y == 0 || x == w - 1 || y == h - 1 {
                TileKind::Wall
            } else {
                TileKind::Floor
            };
            tiles.push(Tile { kind, last_seen: LastSeen::Never });
        }
    }
    for &(x, y, kind) in overrides {
        tiles[y * w + x] = Tile { kind, last_seen: LastSeen::Never };
    }
    Grid { width: w, height: h, tiles }
}

#[test]
fn fade_gate_boundary() {
    assert!(passes_gate(LastSeen::Frame(5), 5));
    assert!(passes_gate(LastSeen::Frame(5), 24));
    assert!(!passes_gate(LastSeen::Frame(5), 25));
    assert!(!passes_gate(LastSeen::Never, 0));
    assert!(!passes_gate(LastSeen::Never, 1_000_000));
    assert!(passes_gate(LastSeen::Permanent, 0));
    assert!(passes_gate(LastSeen::Permanent, u64::MAX));
}

#[test]
fn origin_sees_itself_and_nearby_floor() {
    let mut g = room(9, 7, &[]);
    reveal_from(&mut g, 3, 3, 2, 10);
    assert_eq!(g.tiles[3 * 9 + 3].last_seen, LastSeen::Frame(10));
    assert_eq!(g.tiles[3 * 9 + 4].last_seen, LastSeen::Frame(10));
    assert_eq!(g.tiles[2 * 9 + 3].last_seen, LastSeen::Frame(10));
    // Out of radius: untouched.
    assert_eq!(g.tiles[3 * 9 + 6].last_seen, LastSeen::Never);
}

#[test]
fn wall_occludes_straight_line() {
    let g = room(9, 7, &[(3, 3, TileKind::Wall)]);
    // The wall itself is visible, and so is the cell before it.
    assert!(is_visible_cell(&g, 1, 3, 8, 2, 3));
    assert!(is_visible_cell(&g, 1, 3, 8, 3, 3));
    // Cells straight behind the wall are not.
    assert!(!is_visible_cell(&g, 1, 3, 8, 4, 3));
    assert!(!is_visible_cell(&g, 1, 3, 8, 5, 3));
    // An off-line cell is unaffected by the wall.
    assert!(is_visible_cell(&g, 1, 3, 8, 5, 4));
}

#[test]
fn radius_limits_visibility() {
    let g = room(20, 7, &[]);
    assert!(is_visible_cell(&g, 1, 3, 8, 9, 3));
    assert!(!is_visible_cell(&g, 1, 3, 8, 10, 3));
}

#[test]
fn exit_is_stamped_permanent() {
    let mut g = room(9, 7, &[(4, 3, TileKind::Exit)]);
    reveal_from(&mut g, 3, 3, 8, 2);
    assert_eq!(g.tiles[3 * 9 + 4].last_seen, LastSeen::Permanent);
    // A later ping does not demote the exit.
    reveal_from(&mut g, 3, 3, 8, 7);
    assert_eq!(g.tiles[3 * 9 + 4].last_seen, LastSeen::Permanent);
    // But ordinary cells are restamped with the newer frame.
    assert_eq!(g.tiles[3 * 9 + 2].last_seen, LastSeen::Frame(7));
}

#[test]
fn reveal_twice_same_frame_is_idempotent() {
    let lv = generate(40, 25, 8);
    let mut once = lv.grid.clone();
    reveal_from(&mut once, lv.spawn_x, lv.spawn_y, 8, 4);
    let mut twice = lv.grid;
    reveal_from(&mut twice, lv.spawn_x, lv.spawn_y, 8, 4);
    reveal_from(&mut twice, lv.spawn_x, lv.spawn_y, 8, 4);
    assert_eq!(once, twice);
}

#[test]
fn debug_reveal_stamps_everything_permanent() {
    let mut g = room(9, 7, &[(4, 3, TileKind::Exit)]);
    reveal_all(&mut g);
    for t in g.tiles.iter() {
        assert_eq!(t.last_seen, LastSeen::Permanent);
    }
    // Kinds are untouched.
    assert_eq!(g.tiles[3 * 9 + 4].kind, TileKind::Exit);
    assert_eq!(g.tiles[0].kind, TileKind::Wall);
}
