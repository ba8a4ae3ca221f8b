use dungeon_core::components::Position;
use dungeon_core::entity::{EntityStore, SpawnRequest, StoreError};
use dungeon_core::grid::{GridError, Point, TileGrid, TileKind};
use dungeon_core::mapgen::generate;
use dungeon_core::rng::Rng;
use dungeon_core::scheduler::{intent_delta, try_move, Intent, State};
use dungeon_core::visibility::visible_tiles;

fn contains_point(v: &[Point], x: i32, y: i32) -> bool {
    v.iter().any(|p| p.x == x && p.y == y)
}

fn l_path_cells(ax: i32, ay: i32, bx: i32, by: i32, horizontal_first: bool) -> Vec<(i32, i32)> {
    let (lox, hix) = if ax <= bx { (ax, bx) } else { (bx, ax) };
    let (loy, hiy) = if ay <= by { (ay, by) } else { (by, ay) };
    let mut cells = Vec::new();
    if horizontal_first {
        for x in lox..=hix {
            cells.push((x, ay));
        }
        for y in loy..=hiy {
            cells.push((bx, y));
        }
    } else {
        for y in loy..=hiy {
            cells.push((ax, y));
        }
        for x in lox..=hix {
            cells.push((x, by));
        }
    }
    cells
}

fn all_floor(grid: &TileGrid, cells: &[(i32, i32)]) -> bool {
    cells
        .iter()
        .all(|&(x, y)| grid.kind_at(x, y) == TileKind::Floor)
}

#[test]
fn index_round_trips_for_all_in_bounds_coordinates() {
    let g = TileGrid::filled(7, 5, TileKind::Wall);
    let mut seen = vec![false; 35];
    for y in 0..5 {
        for x in 0..7 {
            let idx = g.xy_idx(x, y);
            assert_eq!(idx, (y as usize) * 7 + (x as usize));
            let p = g.idx_xy(idx);
            assert_eq!((p.x, p.y), (x, y));
            assert!(!seen[idx]);
            seen[idx] = true;
        }
    }
    assert!(seen.iter().all(|&b| b));
}

#[test]
fn out_of_bounds_query_gives_explicit_signal() {
    let g = TileGrid::filled(7, 5, TileKind::Floor);
    assert_eq!(g.try_kind_at(7, 0), Err(GridError::OutOfBounds));
    assert_eq!(g.try_kind_at(0, 5), Err(GridError::OutOfBounds));
    assert_eq!(g.try_kind_at(-1, 2), Err(GridError::OutOfBounds));
    assert_eq!(g.try_kind_at(6, 4), Ok(TileKind::Floor));
}

#[test]
fn rng_streams_with_equal_seeds_agree() {
    let mut a = Rng::seeded(12345);
    let mut b = Rng::seeded(12345);
    for _ in 0..100 {
        assert_eq!(a.next_u64(), b.next_u64());
    }
    let mut c = Rng::seeded(0);
    let d = c.range_inclusive(3, 9);
    assert!((3..=9).contains(&d));
}

#[test]
fn generation_is_deterministic_for_a_fixed_seed() {
    let a = generate(80, 50, 30, 6, 10, 0xDEADBEEF);
    let b = generate(80, 50, 30, 6, 10, 0xDEADBEEF);
    assert_eq!(a.rooms, b.rooms);
    assert_eq!(a.grid.width(), b.grid.width());
    assert_eq!(a.grid.height(), b.grid.height());
    for y in 0..50 {
        for x in 0..80 {
            assert_eq!(a.grid.kind_at(x, y), b.grid.kind_at(x, y));
        }
    }
}

#[test]
fn accepted_rooms_never_intersect_for_several_seeds() {
    for seed in [1u64, 2, 3, 99, 0xABCDEF, u64::MAX] {
        let gm = generate(80, 50, 30, 6, 10, seed);
        for i in 0..gm.rooms.len() {
            for j in 0..gm.rooms.len() {
                if i != j {
                    assert!(!gm.rooms[i].intersects(&gm.rooms[j]));
                }
            }
        }
    }
}

#[test]
fn consecutive_rooms_are_joined_by_a_floor_corridor() {
    for seed in [7u64, 42, 1000003] {
        let gm = generate(80, 50, 30, 6, 10, seed);
        assert!(gm.rooms.len() >= 2, "seed {seed} gave too few rooms");
        for w in gm.rooms.windows(2) {
            let a = w[0].center();
            let b = w[1].center();
            let h_first = l_path_cells(a.x, a.y, b.x, b.y, true);
            let v_first = l_path_cells(a.x, a.y, b.x, b.y, false);
            assert!(
                all_floor(&gm.grid, &h_first) || all_floor(&gm.grid, &v_first),
                "no all-floor L path between consecutive room centers"
            );
        }
    }
}

#[test]
fn room_interiors_are_floor_and_borders_kept() {
    let gm = generate(80, 50, 30, 6, 10, 11);
    for r in &gm.rooms {
        for y in (r.y1 + 1)..=r.y2 {
            for x in (r.x1 + 1)..=r.x2 {
                assert_eq!(gm.grid.kind_at(x, y), TileKind::Floor);
            }
        }
        assert!(r.x1 >= 0 && r.x2 <= 78 && r.y1 >= 0 && r.y2 <= 48);
    }
}

#[test]
fn pathological_parameters_give_no_rooms_and_no_spawn() {
    let gm = generate(80, 50, 30, 10, 6, 5);
    assert_eq!(gm.rooms.len(), 0);
    for y in 0..50 {
        for x in 0..80 {
            assert_eq!(gm.grid.kind_at(x, y), TileKind::Wall);
        }
    }
    let s = State::new(80, 50, 30, 0, 10, 5);
    assert_eq!(s.rooms.len(), 0);
    assert_eq!(s.store.len(), 0);
}

#[test]
fn bootstrap_spawns_player_on_floor_at_first_room_center() {
    let s = State::new(80, 50, 30, 6, 10, 424242);
    assert!(s.rooms.len() >= 1);
    assert_eq!(s.store.len(), s.rooms.len());
    let c = s.rooms[0].center();
    match s.store.positions[0] {
        Some(p) => assert_eq!((p.x, p.y), (c.x, c.y)),
        None => panic!("player has no position"),
    }
    assert!(s.store.players[0].is_some());
    for i in 1..s.rooms.len() {
        assert!(s.store.players[i].is_none());
    }
    assert_eq!(s.map.kind_at(c.x, c.y), TileKind::Floor);
}

#[test]
fn visibility_on_open_ground_is_the_clipped_disk() {
    let g = TileGrid::filled(80, 50, TileKind::Floor);
    let vis = visible_tiles(&g, 10, 10, 8);
    for y in 0..50 {
        for x in 0..80 {
            let dx = (x - 10) as i64;
            let dy = (y - 10) as i64;
            let inside = dx * dx + dy * dy <= 64;
            assert_eq!(
                contains_point(&vis, x, y),
                inside,
                "cell ({x},{y}) wrong in open-ground disk"
            );
        }
    }
    let clipped = visible_tiles(&g, 0, 0, 8);
    for p in &clipped {
        assert!(p.x >= 0 && p.x < 80 && p.y >= 0 && p.y < 50);
    }
    assert!(contains_point(&clipped, 0, 0));
    assert!(!contains_point(&clipped, 0, 9));
}

#[test]
fn visibility_never_leaves_the_grid() {
    let g = TileGrid::filled(12, 9, TileKind::Floor);
    for range in [0, 1, 5, 100] {
        let vis = visible_tiles(&g, 11, 8, range);
        for p in &vis {
            assert!(p.x >= 0 && p.x < 12 && p.y >= 0 && p.y < 9);
        }
    }
}

#[test]
fn origin_is_visible_whenever_range_is_non_negative() {
    let g = TileGrid::filled(20, 20, TileKind::Wall);
    for range in [0, 1, 8] {
        let vis = visible_tiles(&g, 4, 7, range);
        assert!(contains_point(&vis, 4, 7), "origin missing at range {range}");
    }
    let zero = visible_tiles(&g, 4, 7, 0);
    assert_eq!(zero.len(), 1);
    let negative = visible_tiles(&g, 4, 7, -3);
    assert!(negative.is_empty());
}

#[test]
fn a_wall_blocks_sight_but_is_itself_visible() {
    let mut g = TileGrid::filled(80, 50, TileKind::Floor);
    g.set_kind(11, 10, TileKind::Wall);
    let vis = visible_tiles(&g, 10, 10, 8);
    assert!(contains_point(&vis, 11, 10), "the wall face must be visible");
    assert!(
        !contains_point(&vis, 12, 10),
        "the cell behind the wall must be occluded"
    );
}

#[test]
fn move_onto_floor_updates_position_exactly() {
    let g = TileGrid::filled(10, 10, TileKind::Floor);
    let p = try_move(&g, Position { x: 4, y: 4 }, 1, 0);
    assert_eq!((p.x, p.y), (5, 4));
    let q = try_move(&g, Position { x: 4, y: 4 }, 0, 5);
    assert_eq!((q.x, q.y), (4, 9));
    let past_edge = try_move(&g, Position { x: 4, y: 4 }, -5, 0);
    assert_eq!((past_edge.x, past_edge.y), (4, 4));
}

#[test]
fn blocked_or_out_of_bounds_move_is_a_silent_no_op() {
    let mut g = TileGrid::filled(10, 10, TileKind::Floor);
    g.set_kind(5, 4, TileKind::Wall);
    let p0 = Position { x: 4, y: 4 };
    let p = try_move(&g, p0, 1, 0);
    assert_eq!((p.x, p.y), (4, 4));
    let edge = try_move(&g, Position { x: 0, y: 0 }, -1, 0);
    assert_eq!((edge.x, edge.y), (0, 0));
}

#[test]
fn intent_deltas_match_their_documented_pairs() {
    assert_eq!(intent_delta(Intent::Idle), (0, 0));
    assert_eq!(intent_delta(Intent::Left), (-1, 0));
    assert_eq!(intent_delta(Intent::Right), (1, 0));
    assert_eq!(intent_delta(Intent::Up), (0, -1));
    assert_eq!(intent_delta(Intent::Down), (0, 1));
    assert_eq!(intent_delta(Intent::FastLeft), (-5, 0));
    assert_eq!(intent_delta(Intent::FastRight), (5, 0));
    assert_eq!(intent_delta(Intent::FastUp), (0, -5));
    assert_eq!(intent_delta(Intent::FastDown), (0, 5));
}

#[test]
fn tick_moves_the_player_and_recomputes_its_viewshed() {
    let mut g = TileGrid::filled(20, 20, TileKind::Floor);
    g.set_kind(7, 5, TileKind::Wall);
    let mut store = EntityStore::new();
    store.spawn(SpawnRequest {
        position: Some(Position { x: 5, y: 5 }),
        renderable: None,
        player: Some(dungeon_core::components::Player {}),
        viewshed: Some(dungeon_core::components::Viewshed {
            visible_tiles: Vec::new(),
            range: 8,
            dirty: true,
        }),
    });
    let mut s = State {
        map: g,
        rooms: Vec::new(),
        store,
    };
    s.tick(Intent::Right);
    match s.store.positions[0] {
        Some(p) => assert_eq!((p.x, p.y), (6, 5)),
        None => panic!("player lost its position"),
    }
    match &s.store.viewsheds[0] {
        Some(v) => {
            assert!(!v.dirty);
            assert!(contains_point(&v.visible_tiles, 6, 5));
            assert!(contains_point(&v.visible_tiles, 7, 5));
            assert!(!contains_point(&v.visible_tiles, 8, 5));
        }
        None => panic!("player lost its viewshed"),
    }
    s.tick(Intent::Right);
    match s.store.positions[0] {
        Some(p) => assert_eq!((p.x, p.y), (6, 5), "moving into a wall must be a no-op"),
        None => panic!("player lost its position"),
    }
}

#[test]
fn clean_viewsheds_are_skipped_and_dirty_ones_recomputed() {
    let g = TileGrid::filled(10, 10, TileKind::Floor);
    let mut store = EntityStore::new();
    store.spawn(SpawnRequest {
        position: Some(Position { x: 5, y: 5 }),
        renderable: None,
        player: None,
        viewshed: Some(dungeon_core::components::Viewshed {
            visible_tiles: Vec::new(),
            range: 3,
            dirty: false,
        }),
    });
    store.spawn(SpawnRequest {
        position: Some(Position { x: 5, y: 5 }),
        renderable: None,
        player: None,
        viewshed: Some(dungeon_core::components::Viewshed {
            visible_tiles: Vec::new(),
            range: 3,
            dirty: true,
        }),
    });
    let sys = dungeon_core::scheduler::VisibilitySystem {};
    sys.run(&g, &mut store);
    match &store.viewsheds[0] {
        Some(v) => assert!(v.visible_tiles.is_empty() && !v.dirty),
        None => panic!("clean viewshed vanished"),
    }
    match &store.viewsheds[1] {
        Some(v) => {
            assert!(!v.dirty);
            assert!(contains_point(&v.visible_tiles, 5, 5));
            assert!(!v.visible_tiles.is_empty());
        }
        None => panic!("dirty viewshed vanished"),
    }
}

#[test]
fn stale_entity_reference_fails_explicitly() {
    let mut store = EntityStore::new();
    let e = store.spawn(SpawnRequest {
        position: Some(Position { x: 1, y: 1 }),
        renderable: None,
        player: None,
        viewshed: None,
    });
    assert_eq!(store.position_of(e), Ok(Some(Position { x: 1, y: 1 })));
    assert_eq!(store.despawn(e), Ok(()));
    assert_eq!(store.position_of(e), Err(StoreError::StaleEntity));
    assert_eq!(store.despawn(e), Err(StoreError::StaleEntity));
    let f = store.spawn(SpawnRequest {
        position: Some(Position { x: 2, y: 2 }),
        renderable: None,
        player: None,
        viewshed: None,
    });
    assert_eq!(store.position_of(e), Err(StoreError::StaleEntity));
    assert_eq!(store.position_of(f), Ok(Some(Position { x: 2, y: 2 })));
}

#[test]
fn drawables_lists_live_entities_with_both_components_in_slot_order() {
    let mut store = EntityStore::new();
    let rend = dungeon_core::components::Renderable {
        glyph: 64,
        fg: dungeon_core::components::Color { r: 255, g: 255, b: 0 },
        bg: dungeon_core::components::Color { r: 0, g: 0, b: 0 },
    };
    let a = store.spawn(SpawnRequest {
        position: Some(Position { x: 1, y: 2 }),
        renderable: Some(rend),
        player: None,
        viewshed: None,
    });
    store.spawn(SpawnRequest {
        position: Some(Position { x: 3, y: 4 }),
        renderable: None,
        player: None,
        viewshed: None,
    });
    store.spawn(SpawnRequest {
        position: Some(Position { x: 5, y: 6 }),
        renderable: Some(rend),
        player: None,
        viewshed: None,
    });
    let d = store.drawables();
    assert_eq!(d.len(), 2);
    assert_eq!((d[0].0.x, d[0].0.y), (1, 2));
    assert_eq!((d[1].0.x, d[1].0.y), (5, 6));
    assert_eq!(store.despawn(a), Ok(()));
    let d2 = store.drawables();
    assert_eq!(d2.len(), 1);
    assert_eq!((d2[0].0.x, d2[0].0.y), (5, 6));
}

#[test]
fn set_position_rejects_a_stale_identifier() {
    let mut store = EntityStore::new();
    let e = store.spawn(SpawnRequest {
        position: Some(Position { x: 1, y: 1 }),
        renderable: None,
        player: None,
        viewshed: None,
    });
    assert_eq!(store.set_position(e, Position { x: 2, y: 3 }), Ok(()));
    assert_eq!(store.position_of(e), Ok(Some(Position { x: 2, y: 3 })));
    assert_eq!(store.despawn(e), Ok(()));
    assert_eq!(
        store.set_position(e, Position { x: 9, y: 9 }),
        Err(StoreError::StaleEntity)
    );
}

#[test]
fn queued_spawns_become_visible_only_at_commit() {
    let mut store = EntityStore::new();
    store.queue_spawn(SpawnRequest {
        position: Some(Position { x: 3, y: 4 }),
        renderable: None,
        player: None,
        viewshed: None,
    });
    assert_eq!(store.len(), 0);
    store.commit();
    assert_eq!(store.len(), 1);
    match store.positions[0] {
        Some(p) => assert_eq!((p.x, p.y), (3, 4)),
        None => panic!("committed spawn lost its position"),
    }
}
