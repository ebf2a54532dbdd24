use sonar_maze::{generate, generate_checked, Rect, TileKind};

fn count_kind(lv: &sonar_maze::GeneratedLevel, kind: TileKind) -> usize {
    lv.grid.tiles.iter().filter(|t| t.kind == kind).count()
}

#[test]
fn floor_share_at_least_forty_percent() {
    for seed in [1u64, 7, 42, 1234] {
        let lv = generate(40, 25, seed);
        let floors = count_kind(&lv, TileKind::Floor);
        assert!(5 * floors >= 2 * 40 * 25, "seed {seed}: only {floors} floors");
    }
    let lv = generate(10, 10, 99);
    let floors = count_kind(&lv, TileKind::Floor);
    assert!(5 * floors >= 2 * 10 * 10);
}

#[test]
fn perimeter_is_all_wall() {
    let lv = generate(40, 25, 3);
    for x in 0..40usize {
        for y in 0..25usize {
            if x == 0 || x == 39 || y == 0 || y == 24 {
                assert_eq!(lv.grid.tiles[y * 40 + x].kind, TileKind::Wall);
            }
        }
    }
}

#[test]
fn exactly_one_exit_at_farthest_floor() {
    for seed in [5u64, 77, 2024] {
        let lv = generate(40, 25, seed);
        assert_eq!(count_kind(&lv, TileKind::Exit), 1);
        let (sx, sy) = (lv.spawn_x as i64, lv.spawn_y as i64);
        let (ex, ey) = (lv.exit_x as i64, lv.exit_y as i64);
        let exit_idx = lv.exit_y * 40 + lv.exit_x;
        assert_eq!(lv.grid.tiles[exit_idx].kind, TileKind::Exit);
        let exit_d = (ex - sx) * (ex - sx) + (ey - sy) * (ey - sy);
        assert!(exit_d > 0);
        for (i, t) in lv.grid.tiles.iter().enumerate() {
            if t.kind == TileKind::Floor {
                let x = (i % 40) as i64;
                let y = (i / 40) as i64;
                let d = (x - sx) * (x - sx) + (y - sy) * (y - sy);
                assert!(d <= exit_d);
                if i < exit_idx {
                    assert!(d < exit_d, "earlier floor ties the maximum");
                }
            }
        }
    }
}

#[test]
fn spawn_is_center_floor_and_no_pickups() {
    let lv = generate(40, 25, 11);
    assert_eq!(lv.spawn_x, 20);
    assert_eq!(lv.spawn_y, 12);
    assert_eq!(lv.grid.tiles[lv.spawn_y * 40 + lv.spawn_x].kind, TileKind::Floor);
    assert_eq!(count_kind(&lv, TileKind::Pickup), 0);
    assert!(lv
        .grid
        .tiles
        .iter()
        .all(|t| t.last_seen == sonar_maze::LastSeen::Never));
}

#[test]
fn generation_is_reproducible_from_the_seed() {
    let a = generate(40, 25, 31337);
    let b = generate(40, 25, 31337);
    assert_eq!(a, b);
}

#[test]
fn checked_generation_rejects_tiny_grids() {
    assert!(generate_checked(3, 25, 1).is_none());
    assert!(generate_checked(40, 2, 1).is_none());
    assert!(generate_checked(0, 0, 1).is_none());
    let lv = generate_checked(12, 12, 1).expect("valid size");
    assert_eq!(lv.grid.width, 12);
    assert_eq!(lv.grid.height, 12);
}

#[test]
fn rect_overlaps_and_center() {
    let a = Rect::new(1, 1, 4, 3);
    let b = Rect::new(4, 2, 4, 4);
    let c = Rect::new(10, 10, 2, 2);
    assert!(a.overlaps(&b));
    assert!(b.overlaps(&a));
    assert!(!a.overlaps(&c));
    assert_eq!(a.center(), (3, 2));
    assert_eq!(c.center(), (11, 11));
}
