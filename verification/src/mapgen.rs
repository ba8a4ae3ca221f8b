//! Procedural map generation: rectangular rooms connected by L-shaped
//! corridors, carved out of an all-Wall grid.
//!
//! Generation is a pure function of the seed: the whole outcome is pinned to
//! `spec_generate`, so identical seed and parameters reproduce identical tile
//! layouts and room lists. Accepted rooms are pairwise non-intersecting
//! (including a 1-tile margin), every accepted room's interior is Floor, and
//! every tile on an L-shaped path between consecutive room centers is Floor.

use crate::grid::{between, spec_idx, TileGrid, TileKind};
use crate::rng::{spec_bounded, spec_next_state, spec_seed_state, Rng};
use vstd::prelude::*;

verus! {

/// An axis-aligned rectangle. The carved (Floor) interior is
/// `[x1+1, x2] x [y1+1, y2]`; the outer ring stays Wall, so two rooms whose
/// rectangles merely touch already violate the 1-tile margin.
#[derive(Clone, Copy, PartialEq, Eq, Debug, Structural)]
pub struct Room {
    pub x1: i32,
    pub y1: i32,
    pub x2: i32,
    pub y2: i32,
}

impl Room {
    /// Rectangle overlap, margin included: rectangles that share even an
    /// edge or corner of their outer rings count as intersecting.
    pub open spec fn spec_intersects(self, other: Room) -> bool {
        self.x1 <= other.x2 && self.x2 >= other.x1 && self.y1 <= other.y2 && self.y2 >= other.y1
    }

    /// Integer midpoint of the rectangle.
    pub open spec fn spec_center(self) -> (int, int) {
        ((self.x1 + self.x2) / 2, (self.y1 + self.y2) / 2)
    }

    /// The rectangle lies inside the grid and keeps a 1-tile border of Wall
    /// at every grid edge, and its interior is non-empty.
    pub open spec fn spec_in_grid(self, width: int, height: int) -> bool {
        &&& 0 <= self.x1
        &&& self.x1 < self.x2
        &&& self.x2 <= width - 2
        &&& 0 <= self.y1
        &&& self.y1 < self.y2
        &&& self.y2 <= height - 2
    }

    /// `(x, y)` is a carved-interior cell of this room.
    pub open spec fn spec_contains_interior(self, x: int, y: int) -> bool {
        self.x1 + 1 <= x <= self.x2 && self.y1 + 1 <= y <= self.y2
    }

    pub fn intersects(&self, other: &Room) -> (r: bool)
        ensures
            r == self.spec_intersects(*other),
    {
        self.x1 <= other.x2 && self.x2 >= other.x1 && self.y1 <= other.y2 && self.y2 >= other.y1
    }

    /// Integer midpoint, used as the corridor anchor of the room.
    pub fn center(&self) -> (c: crate::grid::Point)
        requires
            0 <= self.x1 <= self.x2,
            0 <= self.y1 <= self.y2,
        ensures
            c.x as int == self.spec_center().0,
            c.y as int == self.spec_center().1,
            self.x1 <= c.x <= self.x2,
            self.y1 <= c.y <= self.y2,
    {
        proof {
            lemma_midpoint_between(self.x1 as int, self.x2 as int);
            lemma_midpoint_between(self.y1 as int, self.y2 as int);
        }
        let cx: i32 = (((self.x1 as i64) + (self.x2 as i64)) / 2) as i32;
        let cy: i32 = (((self.y1 as i64) + (self.y2 as i64)) / 2) as i32;
        crate::grid::Point { x: cx, y: cy }
    }
}

/// The midpoint of a non-empty non-negative interval stays inside it.
proof fn lemma_midpoint_between(a: int, b: int)
    requires
        0 <= a <= b,
    ensures
        a <= (a + b) / 2 <= b,
{
    assert(a <= (a + b) / 2 <= b) by (nonlinear_arith)
        requires
            0 <= a <= b,
    ;
}

/// Membership of `(x, y)` on the L-shaped corridor from `a` to `b`.
/// `horizontal_first` walks the row of `a` and then the column of `b`;
/// otherwise the column of `a` and then the row of `b`.
pub open spec fn on_l_path(
    x: int,
    y: int,
    ax: int,
    ay: int,
    bx: int,
    by: int,
    horizontal_first: bool,
) -> bool {
    if horizontal_first {
        (y == ay && between(ax, bx, x)) || (x == bx && between(ay, by, y))
    } else {
        (x == ax && between(ay, by, y)) || (y == by && between(ax, bx, x))
    }
}

/// Every cell of the L-shaped corridor is in bounds and carved to Floor.
pub open spec fn l_path_all_floor(
    tiles: Seq<TileKind>,
    width: int,
    ax: int,
    ay: int,
    bx: int,
    by: int,
    horizontal_first: bool,
) -> bool {
    forall|x: int, y: int|
        #[trigger] on_l_path(x, y, ax, ay, bx, by, horizontal_first) ==> {
            &&& 0 <= x < width
            &&& 0 <= y
            &&& 0 <= spec_idx(x, y, width) < tiles.len()
            &&& tiles[spec_idx(x, y, width)] == TileKind::Floor
        }
}

/// No two distinct accepted rooms intersect, margin included.
pub open spec fn rooms_disjoint(rooms: Seq<Room>) -> bool {
    forall|j: int, k: int|
        #![trigger rooms[j], rooms[k]]
        0 <= j < rooms.len() && 0 <= k < rooms.len() && j != k ==> !rooms[j].spec_intersects(
            rooms[k],
        )
}

/// Every accepted room lies inside the grid with its 1-tile border.
pub open spec fn rooms_in_grid(rooms: Seq<Room>, width: int, height: int) -> bool {
    forall|j: int| 0 <= j < rooms.len() ==> (#[trigger] rooms[j]).spec_in_grid(width, height)
}

/// Every interior cell of every accepted room is Floor.
pub open spec fn interiors_floor(tiles: Seq<TileKind>, width: int, rooms: Seq<Room>) -> bool {
    forall|j: int, x: int, y: int|
        0 <= j < rooms.len() && #[trigger] rooms[j].spec_contains_interior(x, y) ==> {
            &&& 0 <= spec_idx(x, y, width) < tiles.len()
            &&& tiles[spec_idx(x, y, width)] == TileKind::Floor
        }
}

/// Some L-shaped path joining the centers of `a` and `b` is entirely Floor.
pub open spec fn centers_connected(tiles: Seq<TileKind>, width: int, a: Room, b: Room) -> bool {
    exists|horizontal_first: bool|
        #[trigger] l_path_all_floor(
            tiles,
            width,
            a.spec_center().0,
            a.spec_center().1,
            b.spec_center().0,
            b.spec_center().1,
            horizontal_first,
        )
}

/// Between each pair of consecutively accepted rooms, some L-shaped path
/// joining their centers is entirely Floor.
pub open spec fn corridors_floor(tiles: Seq<TileKind>, width: int, rooms: Seq<Room>) -> bool {
    forall|j: int|
        1 <= j < rooms.len() ==> #[trigger] centers_connected(tiles, width, rooms[j - 1], rooms[j])
}

/// Everything generation guarantees about a partially or fully built map.
pub open spec fn gen_inv(tiles: Seq<TileKind>, width: int, height: int, rooms: Seq<Room>) -> bool {
    &&& rooms_in_grid(rooms, width, height)
    &&& rooms_disjoint(rooms)
    &&& interiors_floor(tiles, width, rooms)
    &&& corridors_floor(tiles, width, rooms)
}

/// Tiles after carving a room's interior to Floor.
pub open spec fn spec_carve_room(tiles: Seq<TileKind>, width: int, room: Room) -> Seq<TileKind> {
    Seq::new(
        tiles.len(),
        |i: int|
            if room.spec_contains_interior(i % width, i / width) {
                TileKind::Floor
            } else {
                tiles[i]
            },
    )
}

/// Tiles after carving the horizontal segment at row `y` from `xa` to `xb`.
pub open spec fn spec_carve_h(
    tiles: Seq<TileKind>,
    width: int,
    xa: int,
    xb: int,
    y: int,
) -> Seq<TileKind> {
    Seq::new(
        tiles.len(),
        |i: int|
            if i / width == y && between(xa, xb, i % width) {
                TileKind::Floor
            } else {
                tiles[i]
            },
    )
}

/// Tiles after carving the vertical segment at column `x` from `ya` to `yb`.
pub open spec fn spec_carve_v(
    tiles: Seq<TileKind>,
    width: int,
    ya: int,
    yb: int,
    x: int,
) -> Seq<TileKind> {
    Seq::new(
        tiles.len(),
        |i: int|
            if i % width == x && between(ya, yb, i / width) {
                TileKind::Floor
            } else {
                tiles[i]
            },
    )
}

/// The generator state after one placement attempt: two size draws; if the
/// candidate fits inside the border, two position draws; if it intersects no
/// accepted room, carve it, and (from the second room on) carve an L-shaped
/// corridor to the previous room's center, its orientation drawn from the
/// stream.
pub open spec fn spec_attempt(
    tiles: Seq<TileKind>,
    rooms: Seq<Room>,
    rng: u64,
    width: int,
    height: int,
    min_size: int,
    max_size: int,
) -> (Seq<TileKind>, Seq<Room>, u64) {
    let s1 = spec_next_state(rng);
    let w = spec_bounded(s1, min_size, max_size);
    let s2 = spec_next_state(s1);
    let h = spec_bounded(s2, min_size, max_size);
    if w + 2 <= width && h + 2 <= height {
        let s3 = spec_next_state(s2);
        let x = spec_bounded(s3, 0, width - w - 2);
        let s4 = spec_next_state(s3);
        let y = spec_bounded(s4, 0, height - h - 2);
        let room = Room { x1: x as i32, y1: y as i32, x2: (x + w) as i32, y2: (y + h) as i32 };
        if exists|j: int| 0 <= j < rooms.len() && (#[trigger] rooms[j]).spec_intersects(room) {
            (tiles, rooms, s4)
        } else {
            let carved = spec_carve_room(tiles, width, room);
            if rooms.len() > 0 {
                let s5 = spec_next_state(s4);
                let flip = spec_bounded(s5, 0, 1);
                let prev = rooms[rooms.len() - 1].spec_center();
                let here = room.spec_center();
                let t = if flip == 1 {
                    spec_carve_v(
                        spec_carve_h(carved, width, prev.0, here.0, prev.1),
                        width,
                        prev.1,
                        here.1,
                        here.0,
                    )
                } else {
                    spec_carve_h(
                        spec_carve_v(carved, width, prev.1, here.1, prev.0),
                        width,
                        prev.0,
                        here.0,
                        here.1,
                    )
                };
                (t, rooms.push(room), s5)
            } else {
                (carved, rooms.push(room), s4)
            }
        }
    } else {
        (tiles, rooms, s2)
    }
}

/// The generator state after the first `n` placement attempts.
pub open spec fn spec_gen_upto(
    n: nat,
    width: int,
    height: int,
    min_size: int,
    max_size: int,
    seed: u64,
) -> (Seq<TileKind>, Seq<Room>, u64)
    decreases n,
{
    if n == 0 {
        (
            Seq::new((width * height) as nat, |i: int| TileKind::Wall),
            Seq::<Room>::empty(),
            spec_seed_state(seed),
        )
    } else {
        let prev = spec_gen_upto((n - 1) as nat, width, height, min_size, max_size, seed);
        spec_attempt(prev.0, prev.1, prev.2, width, height, min_size, max_size)
    }
}

/// The full generation outcome for a seed and parameter set. Pathological
/// size parameters yield the all-Wall grid and no rooms.
pub open spec fn spec_generate(
    width: int,
    height: int,
    max_rooms: u32,
    min_size: int,
    max_size: int,
    seed: u64,
) -> (Seq<TileKind>, Seq<Room>) {
    if 1 <= min_size <= max_size {
        let g = spec_gen_upto(max_rooms as nat, width, height, min_size, max_size, seed);
        (g.0, g.1)
    } else {
        (Seq::new((width * height) as nat, |i: int| TileKind::Wall), Seq::<Room>::empty())
    }
}

/// Carve the horizontal segment of a corridor: every cell of row `y`
/// between columns `xa` and `xb` becomes Floor.
fn apply_h_tunnel(grid: &mut TileGrid, xa: i32, xb: i32, y: i32)
    requires
        old(grid).wf(),
        0 <= xa < old(grid).spec_width(),
        0 <= xb < old(grid).spec_width(),
        0 <= y < old(grid).spec_height(),
    ensures
        final(grid).wf(),
        final(grid).spec_width() == old(grid).spec_width(),
        final(grid).spec_height() == old(grid).spec_height(),
        final(grid).spec_tiles() == spec_carve_h(
            old(grid).spec_tiles(),
            old(grid).spec_width(),
            xa as int,
            xb as int,
            y as int,
        ),
{
    let ghost orig = grid.spec_tiles();
    let ghost wd = grid.spec_width();
    let ghost ht = grid.spec_height();
    let lo: i32 = if xa < xb {
        xa
    } else {
        xb
    };
    let hi: i32 = if xa < xb {
        xb
    } else {
        xa
    };
    let mut x: i32 = lo;
    while x <= hi
        invariant
            grid.wf(),
            grid.spec_width() == wd,
            grid.spec_height() == ht,
            grid.spec_tiles().len() == orig.len(),
            0 <= lo <= x,
            x <= hi + 1,
            hi < wd,
            0 <= y < ht,
            forall|i: int|
                0 <= i < orig.len() ==> grid.spec_tiles()[i] == (if i / wd == y as int && lo <= i
                    % wd < x {
                    TileKind::Floor
                } else {
                    orig[i]
                }),
        decreases hi + 1 - x,
    {
        let ghost before = grid.spec_tiles();
        grid.set_kind(x, y, TileKind::Floor);
        proof {
            assert forall|i: int| 0 <= i < orig.len() implies grid.spec_tiles()[i] == (if i / wd
                == y as int && lo <= i % wd < x + 1 {
                TileKind::Floor
            } else {
                orig[i]
            }) by {
                crate::grid::lemma_idx_inverse(i, wd, ht);
                crate::grid::lemma_idx_bijective(x as int, y as int, wd, ht);
            }
        }
        x = x + 1;
    }
    proof {
        assert(grid.spec_tiles() =~= spec_carve_h(orig, wd, xa as int, xb as int, y as int));
    }
}

/// Carve the vertical segment of a corridor: every cell of column `x`
/// between rows `ya` and `yb` becomes Floor.
fn apply_v_tunnel(grid: &mut TileGrid, ya: i32, yb: i32, x: i32)
    requires
        old(grid).wf(),
        0 <= ya < old(grid).spec_height(),
        0 <= yb < old(grid).spec_height(),
        0 <= x < old(grid).spec_width(),
    ensures
        final(grid).wf(),
        final(grid).spec_width() == old(grid).spec_width(),
        final(grid).spec_height() == old(grid).spec_height(),
        final(grid).spec_tiles() == spec_carve_v(
            old(grid).spec_tiles(),
            old(grid).spec_width(),
            ya as int,
            yb as int,
            x as int,
        ),
{
    let ghost orig = grid.spec_tiles();
    let ghost wd = grid.spec_width();
    let ghost ht = grid.spec_height();
    let lo: i32 = if ya < yb {
        ya
    } else {
        yb
    };
    let hi: i32 = if ya < yb {
        yb
    } else {
        ya
    };
    let mut y: i32 = lo;
    while y <= hi
        invariant
            grid.wf(),
            grid.spec_width() == wd,
            grid.spec_height() == ht,
            grid.spec_tiles().len() == orig.len(),
            0 <= lo <= y,
            y <= hi + 1,
            hi < ht,
            0 <= x < wd,
            forall|i: int|
                0 <= i < orig.len() ==> grid.spec_tiles()[i] == (if i % wd == x as int && lo <= i
                    / wd < y {
                    TileKind::Floor
                } else {
                    orig[i]
                }),
        decreases hi + 1 - y,
    {
        grid.set_kind(x, y, TileKind::Floor);
        proof {
            assert forall|i: int| 0 <= i < orig.len() implies grid.spec_tiles()[i] == (if i % wd
                == x as int && lo <= i / wd < y + 1 {
                TileKind::Floor
            } else {
                orig[i]
            }) by {
                crate::grid::lemma_idx_inverse(i, wd, ht);
                crate::grid::lemma_idx_bijective(x as int, y as int, wd, ht);
            }
        }
        y = y + 1;
    }
    proof {
        assert(grid.spec_tiles() =~= spec_carve_v(orig, wd, ya as int, yb as int, x as int));
    }
}

/// Carve a room's interior to Floor, row by row.
fn apply_room(grid: &mut TileGrid, room: Room)
    requires
        old(grid).wf(),
        room.spec_in_grid(old(grid).spec_width(), old(grid).spec_height()),
    ensures
        final(grid).wf(),
        final(grid).spec_width() == old(grid).spec_width(),
        final(grid).spec_height() == old(grid).spec_height(),
        final(grid).spec_tiles() == spec_carve_room(
            old(grid).spec_tiles(),
            old(grid).spec_width(),
            room,
        ),
{
    let ghost orig = grid.spec_tiles();
    let ghost wd = grid.spec_width();
    let ghost ht = grid.spec_height();
    let mut y: i32 = room.y1 + 1;
    while y <= room.y2
        invariant
            grid.wf(),
            grid.spec_width() == wd,
            grid.spec_height() == ht,
            grid.spec_tiles().len() == orig.len(),
            room.spec_in_grid(wd, ht),
            room.y1 + 1 <= y <= room.y2 + 1,
            forall|i: int|
                0 <= i < orig.len() ==> grid.spec_tiles()[i] == (if room.spec_contains_interior(
                    i % wd,
                    i / wd,
                ) && i / wd < y {
                    TileKind::Floor
                } else {
                    orig[i]
                }),
        decreases room.y2 + 1 - y,
    {
        let mut x: i32 = room.x1 + 1;
        while x <= room.x2
            invariant
                grid.wf(),
                grid.spec_width() == wd,
                grid.spec_height() == ht,
                grid.spec_tiles().len() == orig.len(),
                room.spec_in_grid(wd, ht),
                room.y1 + 1 <= y <= room.y2,
                room.x1 + 1 <= x <= room.x2 + 1,
                forall|i: int|
                    0 <= i < orig.len() ==> grid.spec_tiles()[i] == (if room.spec_contains_interior(
                        i % wd,
                        i / wd,
                    ) && (i / wd < y || (i / wd == y as int && i % wd < x)) {
                        TileKind::Floor
                    } else {
                        orig[i]
                    }),
            decreases room.x2 + 1 - x,
        {
            grid.set_kind(x, y, TileKind::Floor);
            proof {
                assert forall|i: int| 0 <= i < orig.len() implies grid.spec_tiles()[i] == (
                if room.spec_contains_interior(i % wd, i / wd) && (i / wd < y || (i / wd == y as int
                    && i % wd < x + 1)) {
                    TileKind::Floor
                } else {
                    orig[i]
                }) by {
                    crate::grid::lemma_idx_inverse(i, wd, ht);
                    crate::grid::lemma_idx_bijective(x as int, y as int, wd, ht);
                }
            }
            x = x + 1;
        }
        y = y + 1;
    }
    proof {
        assert(grid.spec_tiles() =~= spec_carve_room(orig, wd, room));
    }
}

/// Whether a candidate intersects any already accepted room.
fn intersects_any(rooms: &Vec<Room>, cand: &Room) -> (r: bool)
    ensures
        r == exists|j: int|
            0 <= j < rooms@.len() && (#[trigger] rooms@[j]).spec_intersects(*cand),
{
    let mut k: usize = 0;
    while k < rooms.len()
        invariant
            k <= rooms@.len(),
            forall|j: int| 0 <= j < k ==> !(#[trigger] rooms@[j]).spec_intersects(*cand),
        decreases rooms@.len() - k,
    {
        if rooms[k].intersects(cand) {
            return true;
        }
        k = k + 1;
    }
    false
}

/// One placement attempt, exactly as `spec_attempt` describes it.
fn gen_attempt(
    grid: &mut TileGrid,
    rooms: &mut Vec<Room>,
    rng: &mut Rng,
    min_size: i32,
    max_size: i32,
)
    requires
        old(grid).wf(),
        1 <= min_size <= max_size,
        gen_inv(
            old(grid).spec_tiles(),
            old(grid).spec_width(),
            old(grid).spec_height(),
            old(rooms)@,
        ),
    ensures
        final(grid).wf(),
        final(grid).spec_width() == old(grid).spec_width(),
        final(grid).spec_height() == old(grid).spec_height(),
        gen_inv(
            final(grid).spec_tiles(),
            final(grid).spec_width(),
            final(grid).spec_height(),
            final(rooms)@,
        ),
        old(rooms)@.len() <= final(rooms)@.len() <= old(rooms)@.len() + 1,
        ({
            let st = spec_attempt(
                old(grid).spec_tiles(),
                old(rooms)@,
                old(rng).state,
                old(grid).spec_width(),
                old(grid).spec_height(),
                min_size as int,
                max_size as int,
            );
            final(grid).spec_tiles() == st.0 && final(rooms)@ == st.1 && final(rng).state == st.2
        }),
{
    let ghost t0 = grid.spec_tiles();
    let ghost rooms0 = rooms@;
    let ghost s0 = rng.state;
    let ghost wd = grid.spec_width();
    let ghost ht = grid.spec_height();
    let ghost st = spec_attempt(t0, rooms0, s0, wd, ht, min_size as int, max_size as int);
    let w = rng.range_inclusive(min_size, max_size);
    let h = rng.range_inclusive(min_size, max_size);
    if (w as i64) + 2 <= (grid.width() as i64) && (h as i64) + 2 <= (grid.height() as i64) {
        let x = rng.range_inclusive(0, grid.width() - w - 2);
        let y = rng.range_inclusive(0, grid.height() - h - 2);
        let room = Room { x1: x, y1: y, x2: x + w, y2: y + h };
        proof {
            assert(room.spec_in_grid(wd, ht));
        }
        if intersects_any(rooms, &room) {
            proof {
                assert(grid.spec_tiles() == st.0 && rooms@ == st.1 && rng.state == st.2);
            }
        } else {
            apply_room(grid, room);
            let ghost t1 = grid.spec_tiles();
            if rooms.len() > 0 {
                let flip = rng.range_inclusive(0, 1);
                let last: usize = rooms.len() - 1;
                let prev_room = rooms[last];
                proof {
                    assert(rooms0[last as int].spec_in_grid(wd, ht));
                }
                let prev = prev_room.center();
                let here = room.center();
                if flip == 1 {
                    apply_h_tunnel(grid, prev.x, here.x, prev.y);
                    apply_v_tunnel(grid, prev.y, here.y, here.x);
                } else {
                    apply_v_tunnel(grid, prev.y, here.y, prev.x);
                    apply_h_tunnel(grid, prev.x, here.x, here.y);
                }
                proof {
                    lemma_accept_invariants(
                        t0,
                        t1,
                        grid.spec_tiles(),
                        wd,
                        ht,
                        rooms0,
                        room,
                        flip == 1,
                    );
                }
            } else {
                proof {
                    assert(rooms0 =~= Seq::<Room>::empty());
                    lemma_first_room_invariants(t0, grid.spec_tiles(), wd, ht, room);
                }
            }
            rooms.push(room);
            proof {
                assert(gen_inv(grid.spec_tiles(), wd, ht, rooms@));
                assert(grid.spec_tiles() == st.0 && rooms@ == st.1 && rng.state == st.2);
            }
        }
    } else {
        proof {
            assert(grid.spec_tiles() == st.0 && rooms@ == st.1 && rng.state == st.2);
        }
    }
}

/// A generated map: the carved grid and the accepted rooms in order of
/// acceptance.
pub struct GeneratedMap {
    pub grid: TileGrid,
    pub rooms: Vec<Room>,
}

/// Build a `width x height` map: start from all Wall, then make up to
/// `max_rooms` placement attempts. Each attempt draws a room of side lengths
/// in `[min_size, max_size]` at a drawn position that keeps a 1-tile border;
/// a candidate that intersects (margin included) an accepted room is
/// discarded. Each accepted room after the first is joined to the previous
/// one by an L-shaped corridor whose orientation is drawn from the stream.
///
/// The outcome is pinned to `spec_generate`: generation is deterministic in
/// the seed and parameters. Pathological size parameters (`min_size < 1` or
/// `min_size > max_size`) yield the all-Wall grid and an empty room list;
/// callers must gate entity spawning on a non-empty room list.
pub fn generate(
    width: i32,
    height: i32,
    max_rooms: u32,
    min_size: i32,
    max_size: i32,
    seed: u64,
) -> (r: GeneratedMap)
    requires
        0 < width,
        0 < height,
        width * height <= usize::MAX,
    ensures
        r.grid.wf(),
        r.grid.spec_width() == width,
        r.grid.spec_height() == height,
        r.grid.spec_tiles() == spec_generate(
            width as int,
            height as int,
            max_rooms,
            min_size as int,
            max_size as int,
            seed,
        ).0,
        r.rooms@ == spec_generate(
            width as int,
            height as int,
            max_rooms,
            min_size as int,
            max_size as int,
            seed,
        ).1,
        gen_inv(r.grid.spec_tiles(), width as int, height as int, r.rooms@),
        r.rooms@.len() <= max_rooms,
{
    let mut grid = TileGrid::filled(width, height, TileKind::Wall);
    let mut rooms: Vec<Room> = Vec::new();
    proof {
        assert(grid.spec_tiles() =~= Seq::new((width * height) as nat, |i: int| TileKind::Wall));
        assert(rooms@ =~= Seq::<Room>::empty());
    }
    if min_size < 1 || min_size > max_size {
        return GeneratedMap { grid, rooms };
    }
    let mut rng = Rng::seeded(seed);
    let mut i: u32 = 0;
    while i < max_rooms
        invariant
            grid.wf(),
            grid.spec_width() == width,
            grid.spec_height() == height,
            1 <= min_size <= max_size,
            gen_inv(grid.spec_tiles(), width as int, height as int, rooms@),
            rooms@.len() <= i <= max_rooms,
            ({
                let g = spec_gen_upto(
                    i as nat,
                    width as int,
                    height as int,
                    min_size as int,
                    max_size as int,
                    seed,
                );
                grid.spec_tiles() == g.0 && rooms@ == g.1 && rng.state == g.2
            }),
        decreases max_rooms - i,
    {
        gen_attempt(&mut grid, &mut rooms, &mut rng, min_size, max_size);
        i = i + 1;
        proof {
            let g_prev = spec_gen_upto(
                (i - 1) as nat,
                width as int,
                height as int,
                min_size as int,
                max_size as int,
                seed,
            );
            assert(spec_gen_upto(
                i as nat,
                width as int,
                height as int,
                min_size as int,
                max_size as int,
                seed,
            ) == spec_attempt(
                g_prev.0,
                g_prev.1,
                g_prev.2,
                width as int,
                height as int,
                min_size as int,
                max_size as int,
            ));
        }
    }
    GeneratedMap { grid, rooms }
}

/// Determinism of generation: any two outcomes of the same seed and
/// parameters have identical tile layouts and room lists.
pub proof fn lemma_generate_deterministic(a: GeneratedMap, b: GeneratedMap, width: int, height: int, max_rooms: u32, min_size: int, max_size: int, seed: u64)
    requires
        a.grid.spec_tiles() == spec_generate(width, height, max_rooms, min_size, max_size, seed).0,
        a.rooms@ == spec_generate(width, height, max_rooms, min_size, max_size, seed).1,
        b.grid.spec_tiles() == spec_generate(width, height, max_rooms, min_size, max_size, seed).0,
        b.rooms@ == spec_generate(width, height, max_rooms, min_size, max_size, seed).1,
    ensures
        a.grid.spec_tiles() == b.grid.spec_tiles(),
        a.rooms@ == b.rooms@,
{
}

/// Accepting the first room preserves the generation invariant: its
/// interior is carved and there is no corridor yet.
proof fn lemma_first_room_invariants(
    t0: Seq<TileKind>,
    t1: Seq<TileKind>,
    wd: int,
    ht: int,
    room: Room,
)
    requires
        0 < wd,
        0 < ht,
        t0.len() == wd * ht,
        t1 == spec_carve_room(t0, wd, room),
        room.spec_in_grid(wd, ht),
        gen_inv(t0, wd, ht, Seq::<Room>::empty()),
    ensures
        gen_inv(t1, wd, ht, Seq::<Room>::empty().push(room)),
{
    let rooms1 = Seq::<Room>::empty().push(room);
    assert forall|j: int, x: int, y: int|
        0 <= j < rooms1.len() && #[trigger] rooms1[j].spec_contains_interior(x, y) implies {
        &&& 0 <= spec_idx(x, y, wd) < t1.len()
        &&& t1[spec_idx(x, y, wd)] == TileKind::Floor
    } by {
        crate::grid::lemma_idx_bijective(x, y, wd, ht);
    }
}

/// Accepting a later room preserves the generation invariant: carving only
/// turns Wall into Floor, so every previously guaranteed Floor cell stays
/// Floor, the new interior is carved, and the freshly carved L-shaped path
/// joins the last two centers.
proof fn lemma_accept_invariants(
    t0: Seq<TileKind>,
    t1: Seq<TileKind>,
    t3: Seq<TileKind>,
    wd: int,
    ht: int,
    rooms0: Seq<Room>,
    room: Room,
    horizontal_first: bool,
)
    requires
        0 < wd,
        0 < ht,
        t0.len() == wd * ht,
        rooms0.len() > 0,
        t1 == spec_carve_room(t0, wd, room),
        ({
            let prev = rooms0[rooms0.len() - 1].spec_center();
            let here = room.spec_center();
            t3 == if horizontal_first {
                spec_carve_v(
                    spec_carve_h(t1, wd, prev.0, here.0, prev.1),
                    wd,
                    prev.1,
                    here.1,
                    here.0,
                )
            } else {
                spec_carve_h(
                    spec_carve_v(t1, wd, prev.1, here.1, prev.0),
                    wd,
                    prev.0,
                    here.0,
                    here.1,
                )
            }
        }),
        room.spec_in_grid(wd, ht),
        forall|j: int| 0 <= j < rooms0.len() ==> !(#[trigger] rooms0[j]).spec_intersects(room),
        gen_inv(t0, wd, ht, rooms0),
    ensures
        gen_inv(t3, wd, ht, rooms0.push(room)),
{
    let rooms1 = rooms0.push(room);
    let prev = rooms0[rooms0.len() - 1].spec_center();
    let here = room.spec_center();

    // Carving never un-carves: each step keeps every Floor cell Floor.
    assert(t3.len() == wd * ht);
    assert forall|i: int| 0 <= i < t0.len() && t1[i] == TileKind::Floor implies t3[i]
        == TileKind::Floor by {}
    assert forall|i: int| 0 <= i < t0.len() && t0[i] == TileKind::Floor implies t3[i]
        == TileKind::Floor by {}

    // Disjointness: the candidate was checked against every accepted room,
    // and intersection is symmetric.
    assert(rooms_disjoint(rooms1));

    // Interiors: old interiors persist, the new interior was just carved.
    assert forall|j: int, x: int, y: int|
        0 <= j < rooms1.len() && #[trigger] rooms1[j].spec_contains_interior(x, y) implies {
        &&& 0 <= spec_idx(x, y, wd) < t3.len()
        &&& t3[spec_idx(x, y, wd)] == TileKind::Floor
    } by {
        crate::grid::lemma_idx_bijective(x, y, wd, ht);
        if j < rooms0.len() {
            assert(rooms0[j].spec_contains_interior(x, y));
            assert(t0[spec_idx(x, y, wd)] == TileKind::Floor);
        } else {
            assert(room.spec_contains_interior(x, y));
            assert(t1[spec_idx(x, y, wd)] == TileKind::Floor);
        }
    }

    // The prior room's center lies on its interior boundary inside the grid.
    let prev_room = rooms0[rooms0.len() - 1];
    assert(prev_room.spec_in_grid(wd, ht));
    assert(prev_room.x1 <= prev.0 <= prev_room.x2 && prev_room.y1 <= prev.1 <= prev_room.y2) by {
        lemma_midpoint_between(prev_room.x1 as int, prev_room.x2 as int);
        lemma_midpoint_between(prev_room.y1 as int, prev_room.y2 as int);
    }
    assert(room.x1 <= here.0 <= room.x2 && room.y1 <= here.1 <= room.y2) by {
        lemma_midpoint_between(room.x1 as int, room.x2 as int);
        lemma_midpoint_between(room.y1 as int, room.y2 as int);
    }

    // The freshly carved L-shaped path is entirely Floor.
    assert forall|x: int, y: int|
        #[trigger] on_l_path(x, y, prev.0, prev.1, here.0, here.1, horizontal_first) implies {
        &&& 0 <= x < wd
        &&& 0 <= y
        &&& 0 <= spec_idx(x, y, wd) < t3.len()
        &&& t3[spec_idx(x, y, wd)] == TileKind::Floor
    } by {
        assert(0 <= x < wd && 0 <= y < ht);
        crate::grid::lemma_idx_bijective(x, y, wd, ht);
    }
    assert(l_path_all_floor(t3, wd, prev.0, prev.1, here.0, here.1, horizontal_first));

    // Corridors: old pairs persist pointwise, the new pair uses the path
    // just carved.
    assert forall|j: int|
        1 <= j < rooms1.len() implies #[trigger] centers_connected(
        t3,
        wd,
        rooms1[j - 1],
        rooms1[j],
    ) by {
        if j < rooms0.len() {
            assert(centers_connected(t0, wd, rooms0[j - 1], rooms0[j]));
            let hf0 = choose|hf: bool|
                #[trigger] l_path_all_floor(
                    t0,
                    wd,
                    rooms0[j - 1].spec_center().0,
                    rooms0[j - 1].spec_center().1,
                    rooms0[j].spec_center().0,
                    rooms0[j].spec_center().1,
                    hf,
                );
            assert(l_path_all_floor(
                t3,
                wd,
                rooms1[j - 1].spec_center().0,
                rooms1[j - 1].spec_center().1,
                rooms1[j].spec_center().0,
                rooms1[j].spec_center().1,
                hf0,
            ));
        } else {
            assert(l_path_all_floor(
                t3,
                wd,
                rooms1[j - 1].spec_center().0,
                rooms1[j - 1].spec_center().1,
                rooms1[j].spec_center().0,
                rooms1[j].spec_center().1,
                horizontal_first,
            ));
        }
    }
}

} // verus!
