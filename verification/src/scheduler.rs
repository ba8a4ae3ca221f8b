//! Per-tick orchestration: apply one movement intent, recompute visibility,
//! commit deferred structural changes.
//!
//! Phases run strictly in order; each tick is atomic from the caller's
//! side. Movement onto a Wall (or off the grid) is silently dropped by
//! design — a no-op, not an error.

use crate::components::{Color, Player, Position, Renderable, Viewshed};
use crate::entity::{commit_applied, EntityStore, SpawnRequest};
use crate::grid::{Point, TileGrid, TileKind};
use crate::mapgen::{gen_inv, generate, spec_generate, Room};
use crate::visibility::{fov_result, visible_tiles};
use vstd::prelude::*;

verus! {

/// One decoded movement intent, as handed in by the external input
/// collaborator once per tick.
#[derive(Clone, Copy, PartialEq, Eq, Debug, Structural)]
pub enum Intent {
    Idle,
    Left,
    Right,
    Up,
    Down,
    FastLeft,
    FastRight,
    FastUp,
    FastDown,
}

/// The fixed `(dx, dy)` pair of each intent; fast variants move five cells.
pub open spec fn spec_intent_delta(intent: Intent) -> (int, int) {
    match intent {
        Intent::Idle => (0, 0),
        Intent::Left => (-1, 0),
        Intent::Right => (1, 0),
        Intent::Up => (0, -1),
        Intent::Down => (0, 1),
        Intent::FastLeft => (-5, 0),
        Intent::FastRight => (5, 0),
        Intent::FastUp => (0, -5),
        Intent::FastDown => (0, 5),
    }
}

pub fn intent_delta(intent: Intent) -> (d: (i32, i32))
    ensures
        d.0 == spec_intent_delta(intent).0,
        d.1 == spec_intent_delta(intent).1,
{
    match intent {
        Intent::Idle => (0, 0),
        Intent::Left => (-1, 0),
        Intent::Right => (1, 0),
        Intent::Up => (0, -1),
        Intent::Down => (0, 1),
        Intent::FastLeft => (-5, 0),
        Intent::FastRight => (5, 0),
        Intent::FastUp => (0, -5),
        Intent::FastDown => (0, 5),
    }
}

/// Where a move request ends up: exactly origin plus delta when that
/// destination is an in-bounds Floor tile, the origin itself otherwise.
pub open spec fn spec_move_dest(map: TileGrid, p: Position, dx: int, dy: int) -> Position {
    let nx = p.x + dx;
    let ny = p.y + dy;
    if map.spec_in_bounds(nx, ny) && map.spec_kind_at(nx, ny) == TileKind::Floor {
        Position { x: nx as i32, y: ny as i32 }
    } else {
        p
    }
}

/// Validate one move request against the grid. A destination that is a Wall
/// or out of bounds leaves the position unchanged; a Floor destination
/// updates it to exactly origin plus delta, which always lies within
/// `[0, width) x [0, height)`.
pub fn try_move(map: &TileGrid, p: Position, dx: i32, dy: i32) -> (r: Position)
    requires
        map.wf(),
        map.spec_in_bounds(p.x as int, p.y as int),
    ensures
        r == spec_move_dest(*map, p, dx as int, dy as int),
        map.spec_in_bounds(r.x as int, r.y as int),
        map.spec_in_bounds(p.x + dx, p.y + dy) && map.spec_kind_at(p.x + dx, p.y + dy)
            == TileKind::Wall ==> r == p,
        !map.spec_in_bounds(p.x + dx, p.y + dy) ==> r == p,
        map.spec_in_bounds(p.x + dx, p.y + dy) && map.spec_kind_at(p.x + dx, p.y + dy)
            == TileKind::Floor ==> r.x == p.x + dx && r.y == p.y + dy,
{
    let nx64: i64 = (p.x as i64) + (dx as i64);
    let ny64: i64 = (p.y as i64) + (dy as i64);
    if nx64 >= 0 && nx64 < (map.width() as i64) && ny64 >= 0 && ny64 < (map.height() as i64) {
        let nx: i32 = nx64 as i32;
        let ny: i32 = ny64 as i32;
        if map.kind_at(nx, ny) == TileKind::Floor {
            return Position { x: nx, y: ny };
        }
    }
    p
}

/// Per-slot effect of the movement phase: a live player entity with a
/// position moves by the validated delta, and a changed position marks the
/// entity's viewshed dirty (tiles and range untouched); every other slot is
/// left exactly as it was.
pub open spec fn slot_moved(
    map: TileGrid,
    dx: int,
    dy: int,
    alive: bool,
    player: Option<Player>,
    pos_b: Option<Position>,
    vs_b: Option<Viewshed>,
    pos_a: Option<Position>,
    vs_a: Option<Viewshed>,
) -> bool {
    match (alive, player, pos_b) {
        (true, Some(_), Some(p0)) => {
            let p1 = spec_move_dest(map, p0, dx, dy);
            &&& pos_a == Some(p1)
            &&& if p1 == p0 {
                vs_a == vs_b
            } else {
                match (vs_b, vs_a) {
                    (Some(b), Some(a)) => {
                        &&& a.visible_tiles@ == b.visible_tiles@
                        &&& a.range == b.range
                        &&& a.dirty
                    },
                    (None, None) => true,
                    _ => false,
                }
            }
        },
        _ => pos_a == pos_b && vs_a == vs_b,
    }
}

/// The movement phase's whole effect on the store.
pub open spec fn movement_applied(
    map: TileGrid,
    dx: int,
    dy: int,
    b: EntityStore,
    a: EntityStore,
) -> bool {
    &&& a.generations@ == b.generations@
    &&& a.alive@ == b.alive@
    &&& a.renderables@ == b.renderables@
    &&& a.players@ == b.players@
    &&& a.pending@ == b.pending@
    &&& a.positions@.len() == b.positions@.len()
    &&& a.viewsheds@.len() == b.viewsheds@.len()
    &&& forall|i: int|
        0 <= i < b.spec_len() ==> slot_moved(
            map,
            dx,
            dy,
            b.alive@[i],
            b.players@[i],
            b.positions@[i],
            b.viewsheds@[i],
            #[trigger] a.positions@[i],
            a.viewsheds@[i],
        )
}

/// Per-slot effect of the visibility phase: a live entity holding both a
/// position and a dirty viewshed gets its visible set recomputed wholesale
/// and the flag cleared; every other slot keeps its viewshed untouched.
pub open spec fn slot_visibility(
    map: TileGrid,
    alive: bool,
    pos: Option<Position>,
    vs_b: Option<Viewshed>,
    vs_a: Option<Viewshed>,
) -> bool {
    match (alive, pos, vs_b) {
        (true, Some(p), Some(b)) => {
            if b.dirty {
                match vs_a {
                    Some(a) => {
                        &&& a.range == b.range
                        &&& !a.dirty
                        &&& fov_result(
                            map,
                            p.x as int,
                            p.y as int,
                            b.range as int,
                            a.visible_tiles@,
                        )
                    },
                    None => false,
                }
            } else {
                vs_a == vs_b
            }
        },
        _ => vs_a == vs_b,
    }
}

/// The visibility phase's whole effect on the store.
pub open spec fn visibility_applied(map: TileGrid, b: EntityStore, a: EntityStore) -> bool {
    &&& a.generations@ == b.generations@
    &&& a.alive@ == b.alive@
    &&& a.positions@ == b.positions@
    &&& a.renderables@ == b.renderables@
    &&& a.players@ == b.players@
    &&& a.pending@ == b.pending@
    &&& a.viewsheds@.len() == b.viewsheds@.len()
    &&& forall|i: int|
        0 <= i < b.spec_len() ==> slot_visibility(
            map,
            b.alive@[i],
            b.positions@[i],
            b.viewsheds@[i],
            #[trigger] a.viewsheds@[i],
        )
}

/// Every stored position lies on the grid.
pub open spec fn positions_in_bounds(store: EntityStore, map: TileGrid) -> bool {
    forall|i: int|
        0 <= i < store.spec_len() ==> match #[trigger] store.positions@[i] {
            Some(p) => map.spec_in_bounds(p.x as int, p.y as int),
            None => true,
        }
}

/// Every buffered spawn's position (if any) lies on the grid.
pub open spec fn pending_in_bounds(store: EntityStore, map: TileGrid) -> bool {
    forall|i: int|
        0 <= i < store.pending@.len() ==> match (#[trigger] store.pending@[i]).position {
            Some(p) => map.spec_in_bounds(p.x as int, p.y as int),
            None => true,
        }
}

/// Recomputes each entity's visible-tile set from its position and the grid.
pub struct VisibilitySystem {}

impl VisibilitySystem {
    /// One visibility pass over every entity, as `visibility_applied` says.
    pub fn run(&self, map: &TileGrid, store: &mut EntityStore)
        requires
            map.wf(),
            old(store).wf(),
            positions_in_bounds(*old(store), *map),
        ensures
            final(store).wf(),
            visibility_applied(*map, *old(store), *final(store)),
    {
        let n = store.generations.len();
        let mut i: usize = 0;
        while i < n
            invariant
                map.wf(),
                store.wf(),
                positions_in_bounds(*old(store), *map),
                n == store.spec_len(),
                i <= n,
                store.generations@ == old(store).generations@,
                store.alive@ == old(store).alive@,
                store.positions@ == old(store).positions@,
                store.renderables@ == old(store).renderables@,
                store.players@ == old(store).players@,
                store.pending@ == old(store).pending@,
                store.viewsheds@.len() == old(store).viewsheds@.len(),
                forall|j: int| i <= j < n ==> store.viewsheds@[j] == old(store).viewsheds@[j],
                forall|j: int|
                    0 <= j < i ==> slot_visibility(
                        *map,
                        old(store).alive@[j],
                        old(store).positions@[j],
                        old(store).viewsheds@[j],
                        #[trigger] store.viewsheds@[j],
                    ),
            decreases n - i,
        {
            let mut recompute = false;
            let mut px: i32 = 0;
            let mut py: i32 = 0;
            let mut range: i32 = 0;
            if store.alive[i] {
                match &store.positions[i] {
                    Some(p) => {
                        match &store.viewsheds[i] {
                            Some(v) => {
                                if v.dirty {
                                    recompute = true;
                                    px = p.x;
                                    py = p.y;
                                    range = v.range;
                                }
                            },
                            None => {},
                        }
                    },
                    None => {},
                }
            }
            if recompute {
                let tiles = visible_tiles(map, px, py, range);
                store.viewsheds.set(
                    i,
                    Some(Viewshed { visible_tiles: tiles, range, dirty: false }),
                );
            }
            i = i + 1;
        }
    }
}

/// The simulation context: the immutable map, the rooms it was generated
/// with, and the entity store. Passed explicitly into each phase.
pub struct State {
    pub map: TileGrid,
    pub rooms: Vec<Room>,
    pub store: EntityStore,
}

/// What bootstrap guarantees of each spawned entity: it is live, stands at
/// the center of its room, and starts with an empty, dirty viewshed of
/// range 8.
pub open spec fn spawned_at_room(store: EntityStore, rooms: Seq<Room>, i: int) -> bool {
    &&& store.alive@[i]
    &&& match store.positions@[i] {
        Some(p) => p.x == rooms[i].spec_center().0 && p.y == rooms[i].spec_center().1,
        None => false,
    }
    &&& match store.viewsheds@[i] {
        Some(v) => v.range == 8 && v.dirty && v.visible_tiles@.len() == 0,
        None => false,
    }
}

impl State {
    pub open spec fn wf(&self) -> bool {
        &&& self.map.wf()
        &&& self.store.wf()
        &&& positions_in_bounds(self.store, self.map)
        &&& pending_in_bounds(self.store, self.map)
    }

    /// Bootstrap: generate the map from the seed; if at least one room was
    /// accepted, spawn the player at the first room's center and one
    /// occupant at each other room's center. With zero accepted rooms there
    /// is no valid spawn, so no entity is created (fail-soft, not fatal).
    pub fn new(
        width: i32,
        height: i32,
        max_rooms: u32,
        min_size: i32,
        max_size: i32,
        seed: u64,
    ) -> (s: State)
        requires
            0 < width,
            0 < height,
            width * height <= usize::MAX,
        ensures
            s.wf(),
            s.map.spec_width() == width,
            s.map.spec_height() == height,
            s.map.spec_tiles() == spec_generate(
                width as int,
                height as int,
                max_rooms,
                min_size as int,
                max_size as int,
                seed,
            ).0,
            s.rooms@ == spec_generate(
                width as int,
                height as int,
                max_rooms,
                min_size as int,
                max_size as int,
                seed,
            ).1,
            gen_inv(s.map.spec_tiles(), width as int, height as int, s.rooms@),
            s.store.pending@.len() == 0,
            s.rooms@.len() == 0 ==> s.store.spec_len() == 0,
            s.rooms@.len() > 0 ==> {
                &&& s.store.spec_len() == s.rooms@.len()
                &&& forall|i: int| 0 <= i < s.rooms@.len() ==> spawned_at_room(s.store, s.rooms@, i)
                &&& s.store.players@[0] is Some
                &&& forall|i: int| 1 <= i < s.rooms@.len() ==> s.store.players@[i] is None
            },
    {
        let gm = generate(width, height, max_rooms, min_size, max_size, seed);
        let grid = gm.grid;
        let rooms = gm.rooms;
        let mut store = EntityStore::new();
        if rooms.len() > 0 {
            proof {
                assert(rooms@[0].spec_in_grid(width as int, height as int));
            }
            let c0 = rooms[0].center();
            let empty0: Vec<Point> = Vec::new();
            store.spawn(
                SpawnRequest {
                    position: Some(Position { x: c0.x, y: c0.y }),
                    renderable: Some(
                        Renderable {
                            glyph: 64u16,
                            fg: Color { r: 255, g: 255, b: 0 },
                            bg: Color { r: 0, g: 0, b: 0 },
                        },
                    ),
                    player: Some(Player {  }),
                    viewshed: Some(Viewshed { visible_tiles: empty0, range: 8, dirty: true }),
                },
            );
            let mut i: usize = 1;
            while i < rooms.len()
                invariant
                    grid.wf(),
                    grid.spec_width() == width,
                    grid.spec_height() == height,
                    gen_inv(grid.spec_tiles(), width as int, height as int, rooms@),
                    store.wf(),
                    store.spec_len() == i,
                    1 <= i <= rooms@.len(),
                    store.pending@.len() == 0,
                    forall|j: int| 0 <= j < i ==> spawned_at_room(store, rooms@, j),
                    store.players@[0] is Some,
                    forall|j: int| 1 <= j < i ==> store.players@[j] is None,
                    positions_in_bounds(store, grid),
                decreases rooms@.len() - i,
            {
                let ghost before = store;
                proof {
                    assert(rooms@[i as int].spec_in_grid(width as int, height as int));
                }
                let ci = rooms[i].center();
                let empty_i: Vec<Point> = Vec::new();
                store.spawn(
                    SpawnRequest {
                        position: Some(Position { x: ci.x, y: ci.y }),
                        renderable: Some(
                            Renderable {
                                glyph: 103u16,
                                fg: Color { r: 255, g: 0, b: 0 },
                                bg: Color { r: 0, g: 0, b: 0 },
                            },
                        ),
                        player: None,
                        viewshed: Some(
                            Viewshed { visible_tiles: empty_i, range: 8, dirty: true },
                        ),
                    },
                );
                proof {
                    assert forall|j: int| 0 <= j < i + 1 implies spawned_at_room(
                        store,
                        rooms@,
                        j,
                    ) by {
                        if j < i {
                            assert(spawned_at_room(before, rooms@, j));
                        }
                    }
                }
                i = i + 1;
            }
        }
        State { map: grid, rooms, store }
    }

    /// Movement phase: apply one decoded intent to every live player entity
    /// (there is normally exactly one). A blocked or out-of-bounds
    /// destination is silently dropped; a real move marks the entity's
    /// viewshed dirty.
    pub fn apply_movement(&mut self, intent: Intent)
        requires
            old(self).wf(),
        ensures
            final(self).wf(),
            final(self).map == old(self).map,
            final(self).rooms@ == old(self).rooms@,
            movement_applied(
                old(self).map,
                spec_intent_delta(intent).0,
                spec_intent_delta(intent).1,
                old(self).store,
                final(self).store,
            ),
    {
        let (dx, dy) = intent_delta(intent);
        let n = self.store.generations.len();
        let mut i: usize = 0;
        while i < n
            invariant
                self.map.wf(),
                self.map == old(self).map,
                self.rooms@ == old(self).rooms@,
                self.store.wf(),
                positions_in_bounds(self.store, self.map),
                pending_in_bounds(self.store, self.map),
                n == self.store.spec_len(),
                i <= n,
                dx == spec_intent_delta(intent).0,
                dy == spec_intent_delta(intent).1,
                self.store.generations@ == old(self).store.generations@,
                self.store.alive@ == old(self).store.alive@,
                self.store.renderables@ == old(self).store.renderables@,
                self.store.players@ == old(self).store.players@,
                self.store.pending@ == old(self).store.pending@,
                self.store.positions@.len() == old(self).store.positions@.len(),
                self.store.viewsheds@.len() == old(self).store.viewsheds@.len(),
                forall|j: int|
                    i <= j < n ==> self.store.positions@[j] == old(self).store.positions@[j]
                        && self.store.viewsheds@[j] == old(self).store.viewsheds@[j],
                forall|j: int|
                    0 <= j < i ==> slot_moved(
                        old(self).map,
                        dx as int,
                        dy as int,
                        old(self).store.alive@[j],
                        old(self).store.players@[j],
                        old(self).store.positions@[j],
                        old(self).store.viewsheds@[j],
                        #[trigger] self.store.positions@[j],
                        self.store.viewsheds@[j],
                    ),
            decreases n - i,
        {
            let mut do_move = false;
            let mut p0 = Position { x: 0, y: 0 };
            if self.store.alive[i] {
                match &self.store.players[i] {
                    Some(_) => {
                        match &self.store.positions[i] {
                            Some(p) => {
                                do_move = true;
                                p0 = *p;
                            },
                            None => {},
                        }
                    },
                    None => {},
                }
            }
            if do_move {
                let p1 = try_move(&self.map, p0, dx, dy);
                if p1.x != p0.x || p1.y != p0.y {
                    self.store.positions.set(i, Some(p1));
                    let mut taken: Option<Viewshed> = None;
                    self.store.viewsheds.set_and_swap(i, &mut taken);
                    match taken {
                        Some(v) => {
                            self.store.viewsheds.set(
                                i,
                                Some(
                                    Viewshed {
                                        visible_tiles: v.visible_tiles,
                                        range: v.range,
                                        dirty: true,
                                    },
                                ),
                            );
                        },
                        None => {
                            self.store.viewsheds.set(i, None);
                        },
                    }
                }
            }
            i = i + 1;
        }
    }

    /// Visibility and commit phases, in order: recompute dirty viewsheds,
    /// then apply buffered structural changes.
    pub fn run_systems(&mut self)
        requires
            old(self).wf(),
        ensures
            final(self).wf(),
            final(self).map == old(self).map,
            final(self).rooms@ == old(self).rooms@,
            exists|mid: EntityStore|
                #[trigger] visibility_applied(old(self).map, old(self).store, mid)
                    && commit_applied(mid, final(self).store),
    {
        let vis = VisibilitySystem {};
        vis.run(&self.map, &mut self.store);
        let ghost mid = self.store;
        self.store.commit();
        proof {
            let len_mid = mid.spec_len();
            assert forall|i: int| 0 <= i < self.store.spec_len() implies match #[trigger] self
                .store
                .positions@[i] {
                Some(p) => self.map.spec_in_bounds(p.x as int, p.y as int),
                None => true,
            } by {
                if i < len_mid {
                    assert(self.store.positions@.subrange(0, len_mid)[i] == mid.positions@[i]);
                } else {
                    assert(self.store.positions@[i] == mid.pending@[i - len_mid].position);
                }
            }
            assert(visibility_applied(old(self).map, old(self).store, mid) && commit_applied(
                mid,
                self.store,
            ));
        }
    }

    /// One atomic tick: apply the movement intent, recompute visibility,
    /// commit deferred structural changes, and return to awaiting input.
    pub fn tick(&mut self, intent: Intent)
        requires
            old(self).wf(),
        ensures
            final(self).wf(),
            final(self).map == old(self).map,
            final(self).rooms@ == old(self).rooms@,
            exists|m1: EntityStore, m2: EntityStore|
                movement_applied(
                    old(self).map,
                    spec_intent_delta(intent).0,
                    spec_intent_delta(intent).1,
                    old(self).store,
                    m1,
                ) && #[trigger] visibility_applied(old(self).map, m1, m2) && commit_applied(
                    m2,
                    final(self).store,
                ),
    {
        self.apply_movement(intent);
        let ghost m1 = self.store;
        self.run_systems();
        proof {
            let m2 = choose|m: EntityStore|
                #[trigger] visibility_applied(old(self).map, m1, m) && commit_applied(
                    m,
                    self.store,
                );
            assert(movement_applied(
                old(self).map,
                spec_intent_delta(intent).0,
                spec_intent_delta(intent).1,
                old(self).store,
                m1,
            ) && visibility_applied(old(self).map, m1, m2) && commit_applied(m2, self.store));
        }
    }
}

} // verus!
