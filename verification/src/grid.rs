//! The static tile classification of the dungeon and its coordinate math.
//!
//! A `TileGrid` owns a flat, row-major sequence of `TileKind` of length
//! `width * height`. The mapping `index(x, y) = y * width + x` is a bijection
//! between in-bounds coordinates and indices into that sequence; callers are
//! expected to bounds-check coordinates before indexing, and `try_kind_at`
//! gives an explicit out-of-range signal for callers that cannot.

use vstd::arithmetic::div_mod::{lemma_fundamental_div_mod_converse, lemma_div_is_ordered};
use vstd::prelude::*;

verus! {

/// A single grid cell's terrain classification.
#[derive(Clone, Copy, PartialEq, Eq, Debug, Structural)]
pub enum TileKind {
    Wall,
    Floor,
}

/// A grid coordinate pair.
#[derive(Clone, Copy, PartialEq, Eq, Debug, Structural)]
pub struct Point {
    pub x: i32,
    pub y: i32,
}

/// Explicit signal for a coordinate outside the grid dimensions.
#[derive(Clone, Copy, PartialEq, Eq, Debug, Structural)]
pub enum GridError {
    OutOfBounds,
}

/// Row-major index of the cell `(x, y)` on a grid of the given width.
pub open spec fn spec_idx(x: int, y: int, width: int) -> int {
    y * width + x
}

/// `t` lies between `a` and `b`, in either order.
pub open spec fn between(a: int, b: int, t: int) -> bool {
    (a <= t && t <= b) || (b <= t && t <= a)
}

/// The static 2D tile classification. Immutable per cell after generation.
pub struct TileGrid {
    pub width: i32,
    pub height: i32,
    pub tiles: Vec<TileKind>,
}

impl TileGrid {
    /// Well-formedness: positive dimensions and a backing sequence of
    /// exactly `width * height` tiles.
    pub open spec fn wf(&self) -> bool {
        &&& 0 < self.width
        &&& 0 < self.height
        &&& self.tiles@.len() == self.width as int * self.height as int
    }

    pub open spec fn spec_width(&self) -> int {
        self.width as int
    }

    pub open spec fn spec_height(&self) -> int {
        self.height as int
    }

    pub open spec fn spec_tiles(&self) -> Seq<TileKind> {
        self.tiles@
    }

    pub open spec fn spec_in_bounds(&self, x: int, y: int) -> bool {
        0 <= x < self.spec_width() && 0 <= y < self.spec_height()
    }

    /// The classification of the in-bounds cell `(x, y)`.
    pub open spec fn spec_kind_at(&self, x: int, y: int) -> TileKind {
        self.tiles@[spec_idx(x, y, self.spec_width())]
    }

    pub fn width(&self) -> (r: i32)
        ensures
            r == self.spec_width(),
    {
        self.width
    }

    pub fn height(&self) -> (r: i32)
        ensures
            r == self.spec_height(),
    {
        self.height
    }

    /// A grid with every cell set to `kind`.
    pub fn filled(width: i32, height: i32, kind: TileKind) -> (g: TileGrid)
        requires
            0 < width,
            0 < height,
            width * height <= usize::MAX,
        ensures
            g.wf(),
            g.spec_width() == width,
            g.spec_height() == height,
            forall|i: int| 0 <= i < g.spec_tiles().len() ==> g.spec_tiles()[i] == kind,
    {
        let n: usize = (width as usize) * (height as usize);
        let mut tiles: Vec<TileKind> = Vec::new();
        let mut i: usize = 0;
        while i < n
            invariant
                i <= n,
                tiles@.len() == i,
                forall|j: int| 0 <= j < i ==> tiles@[j] == kind,
            decreases n - i,
        {
            tiles.push(kind);
            i = i + 1;
        }
        TileGrid { width, height, tiles }
    }

    pub fn in_bounds(&self, x: i32, y: i32) -> (r: bool)
        ensures
            r == self.spec_in_bounds(x as int, y as int),
    {
        0 <= x && x < self.width && 0 <= y && y < self.height
    }

    /// Row-major index of an in-bounds coordinate pair.
    pub fn xy_idx(&self, x: i32, y: i32) -> (r: usize)
        requires
            self.wf(),
            self.spec_in_bounds(x as int, y as int),
        ensures
            r == spec_idx(x as int, y as int, self.spec_width()),
            r < self.spec_tiles().len(),
    {
        // Reading the length as a usize teaches the prover that
        // width * height fits the machine word.
        let _len_bound: usize = self.tiles.len();
        proof {
            lemma_idx_bijective(x as int, y as int, self.spec_width(), self.spec_height());
            assert(y as int * self.spec_width() <= y as int * self.spec_width() + x as int);
        }
        (y as usize) * (self.width as usize) + (x as usize)
    }

    /// Inverse of `xy_idx`: the coordinates of a valid tile index.
    pub fn idx_xy(&self, idx: usize) -> (p: Point)
        requires
            self.wf(),
            idx < self.spec_tiles().len(),
        ensures
            p.x == idx as int % self.spec_width(),
            p.y == idx as int / self.spec_width(),
            self.spec_in_bounds(p.x as int, p.y as int),
            spec_idx(p.x as int, p.y as int, self.spec_width()) == idx,
    {
        proof {
            lemma_idx_inverse(idx as int, self.spec_width(), self.spec_height());
        }
        let x: usize = idx % (self.width as usize);
        let y: usize = idx / (self.width as usize);
        Point { x: x as i32, y: y as i32 }
    }

    /// The classification of an in-bounds cell. Callers must bounds-check
    /// first; on in-bounds queries this never fails.
    pub fn kind_at(&self, x: i32, y: i32) -> (k: TileKind)
        requires
            self.wf(),
            self.spec_in_bounds(x as int, y as int),
        ensures
            k == self.spec_kind_at(x as int, y as int),
    {
        let idx = self.xy_idx(x, y);
        self.tiles[idx]
    }

    /// The classification of a cell, or an explicit out-of-range signal.
    pub fn try_kind_at(&self, x: i32, y: i32) -> (r: Result<TileKind, GridError>)
        requires
            self.wf(),
        ensures
            self.spec_in_bounds(x as int, y as int) ==> r == Ok::<TileKind, GridError>(
                self.spec_kind_at(x as int, y as int),
            ),
            !self.spec_in_bounds(x as int, y as int) ==> r == Err::<TileKind, GridError>(
                GridError::OutOfBounds,
            ),
    {
        if self.in_bounds(x, y) {
            Ok(self.kind_at(x, y))
        } else {
            Err(GridError::OutOfBounds)
        }
    }

    /// Reclassify one in-bounds cell. Generation-phase only: nothing calls
    /// this once the map has been handed to the scheduler.
    pub fn set_kind(&mut self, x: i32, y: i32, kind: TileKind)
        requires
            old(self).wf(),
            old(self).spec_in_bounds(x as int, y as int),
        ensures
            final(self).wf(),
            final(self).spec_width() == old(self).spec_width(),
            final(self).spec_height() == old(self).spec_height(),
            final(self).spec_tiles() == old(self).spec_tiles().update(
                spec_idx(x as int, y as int, old(self).spec_width()),
                kind,
            ),
    {
        let idx = self.xy_idx(x, y);
        self.tiles.set(idx, kind);
    }
}

/// `index(x, y) = y * width + x` maps in-bounds coordinates into
/// `[0, width * height)`, and `(% width, / width)` recovers the coordinates:
/// the two conversions round-trip exactly.
pub proof fn lemma_idx_bijective(x: int, y: int, width: int, height: int)
    requires
        0 < width,
        0 <= x < width,
        0 <= y < height,
    ensures
        0 <= spec_idx(x, y, width) < width * height,
        spec_idx(x, y, width) % width == x,
        spec_idx(x, y, width) / width == y,
{
    assert(0 <= y * width + x < width * height) by (nonlinear_arith)
        requires
            0 < width,
            0 <= x < width,
            0 <= y < height,
    ;
    lemma_fundamental_div_mod_converse(y * width + x, width, y, x);
}

/// Inverse round trip: for a valid index, `(% width, / width)` gives
/// in-bounds coordinates whose row-major index is the original index.
pub proof fn lemma_idx_inverse(idx: int, width: int, height: int)
    requires
        0 < width,
        0 < height,
        0 <= idx < width * height,
    ensures
        0 <= idx % width < width,
        0 <= idx / width < height,
        spec_idx(idx % width, idx / width, width) == idx,
{
    assert(0 <= idx % width < width && idx == width * (idx / width) + idx % width) by {
        vstd::arithmetic::div_mod::lemma_fundamental_div_mod(idx, width);
        vstd::arithmetic::div_mod::lemma_mod_bound(idx, width);
    }
    assert(idx / width < height) by {
        assert(idx <= width * height - 1);
        lemma_div_is_ordered(idx, width * height - 1, width);
        assert((width * height - 1) / width <= height - 1) by (nonlinear_arith)
            requires
                0 < width,
                0 < height,
        ;
    }
    assert(0 <= idx / width) by {
        vstd::arithmetic::div_mod::lemma_div_is_ordered(0, idx, width);
    }
    assert((idx / width) * width == width * (idx / width)) by (nonlinear_arith);
}

} // verus!
