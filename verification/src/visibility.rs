//! Grid field-of-view: which cells an entity at an origin can see within a
//! radius, with Wall tiles occluding the line of sight.
//!
//! A target cell is visible when it is in bounds, its squared Euclidean
//! distance from the origin is at most `range` squared, and no Wall stands
//! strictly between the origin and the target along the marched ray. The
//! origin itself is always visible for a non-negative range, a Wall is
//! visible if reached before any other blocker, and the result never
//! contains an out-of-bounds coordinate; a negative range sees nothing.

use crate::grid::{between, Point, TileGrid, TileKind};
use vstd::prelude::*;

verus! {

/// Rounded-to-nearest quotient for non-negative operands, rounding halves up.
pub open spec fn round_div(a: int, b: int) -> int {
    (2 * a + b) / (2 * b)
}

pub open spec fn spec_abs(a: int) -> int {
    if a < 0 {
        -a
    } else {
        a
    }
}

/// Number of marching steps from the origin to a target offset by
/// `(dx, dy)`: the larger coordinate distance.
pub open spec fn ray_steps(dx: int, dy: int) -> int {
    if spec_abs(dx) >= spec_abs(dy) {
        spec_abs(dx)
    } else {
        spec_abs(dy)
    }
}

/// One coordinate of the cell reached after `k` of `n` marching steps from
/// `o` toward `o + d`.
pub open spec fn ray_coord(o: int, d: int, n: int, k: int) -> int {
    if d >= 0 {
        o + round_div(k * d, n)
    } else {
        o - round_div(k * (-d), n)
    }
}

/// A Wall stands strictly between the origin and the target on the
/// marched ray.
pub open spec fn spec_blocked(grid: TileGrid, ox: int, oy: int, tx: int, ty: int) -> bool {
    let n = ray_steps(tx - ox, ty - oy);
    exists|k: int|
        1 <= k < n && grid.spec_kind_at(
            #[trigger] ray_coord(ox, tx - ox, n, k),
            ray_coord(oy, ty - oy, n, k),
        ) == TileKind::Wall
}

/// The target cell is visible from the origin within the given range.
pub open spec fn spec_visible(
    grid: TileGrid,
    ox: int,
    oy: int,
    range: int,
    tx: int,
    ty: int,
) -> bool {
    &&& grid.spec_in_bounds(tx, ty)
    &&& range >= 0
    &&& (tx - ox) * (tx - ox) + (ty - oy) * (ty - oy) <= range * range
    &&& !spec_blocked(grid, ox, oy, tx, ty)
}

/// `tiles` is exactly the visibility set of `(ox, oy)` within `range`:
/// every listed tile is visible, and every visible tile is listed.
pub open spec fn fov_result(
    grid: TileGrid,
    ox: int,
    oy: int,
    range: int,
    tiles: Seq<Point>,
) -> bool {
    &&& forall|i: int|
        0 <= i < tiles.len() ==> spec_visible(
            grid,
            ox,
            oy,
            range,
            (#[trigger] tiles[i]).x as int,
            tiles[i].y as int,
        )
    &&& forall|p: Point|
        #[trigger] spec_visible(grid, ox, oy, range, p.x as int, p.y as int) ==> tiles.contains(p)
}

/// Visibility never includes an out-of-bounds coordinate.
pub proof fn lemma_visible_in_bounds(
    grid: TileGrid,
    ox: int,
    oy: int,
    range: int,
    tx: int,
    ty: int,
)
    requires
        spec_visible(grid, ox, oy, range, tx, ty),
    ensures
        grid.spec_in_bounds(tx, ty),
{
}

/// The origin cell is visible whenever the range is non-negative.
pub proof fn lemma_origin_visible(grid: TileGrid, ox: int, oy: int, range: int)
    requires
        grid.spec_in_bounds(ox, oy),
        range >= 0,
    ensures
        spec_visible(grid, ox, oy, range, ox, oy),
{
    assert(0 <= range * range) by (nonlinear_arith)
        requires
            range >= 0,
    ;
    assert(ray_steps(0, 0) == 0);
}

/// A computed visibility set never holds an out-of-bounds coordinate, for
/// any origin and range.
pub proof fn lemma_fov_in_bounds(
    grid: TileGrid,
    ox: int,
    oy: int,
    range: int,
    tiles: Seq<Point>,
)
    requires
        fov_result(grid, ox, oy, range, tiles),
    ensures
        forall|i: int|
            0 <= i < tiles.len() ==> grid.spec_in_bounds(
                (#[trigger] tiles[i]).x as int,
                tiles[i].y as int,
            ),
{
}

/// A computed visibility set always holds the origin cell whenever the
/// range is non-negative.
pub proof fn lemma_fov_holds_origin(
    grid: TileGrid,
    ox: i32,
    oy: i32,
    range: i32,
    tiles: Seq<Point>,
)
    requires
        grid.spec_in_bounds(ox as int, oy as int),
        range >= 0,
        fov_result(grid, ox as int, oy as int, range as int, tiles),
    ensures
        tiles.contains(Point { x: ox, y: oy }),
{
    lemma_origin_visible(grid, ox as int, oy as int, range as int);
    let p = Point { x: ox, y: oy };
    assert(spec_visible(grid, ox as int, oy as int, range as int, p.x as int, p.y as int));
}

/// A bound on a sum of squares bounds each coordinate distance.
proof fn lemma_dist_interval(dx: int, dy: int, r: int)
    requires
        dx * dx + dy * dy <= r * r,
        r >= 0,
    ensures
        -r <= dx <= r,
        -r <= dy <= r,
{
    assert(-r <= dx <= r && -r <= dy <= r) by (nonlinear_arith)
        requires
            dx * dx + dy * dy <= r * r,
            r >= 0,
    ;
}

/// A rounded step offset toward a non-negative displacement `a` stays
/// within `[0, a]`.
proof fn lemma_round_div_bounds(a: int, n: int, k: int)
    requires
        n > 0,
        0 <= k <= n,
        0 <= a,
    ensures
        0 <= round_div(k * a, n) <= a,
{
    assert(0 <= (2 * (k * a) + n) / (2 * n) <= a) by (nonlinear_arith)
        requires
            n > 0,
            0 <= k <= n,
            0 <= a,
    ;
}

/// Whether a Wall stands strictly between origin and target.
fn ray_blocked(grid: &TileGrid, ox: i32, oy: i32, tx: i32, ty: i32) -> (r: bool)
    requires
        grid.wf(),
        grid.spec_in_bounds(ox as int, oy as int),
        grid.spec_in_bounds(tx as int, ty as int),
    ensures
        r == spec_blocked(*grid, ox as int, oy as int, tx as int, ty as int),
{
    let dx: i64 = (tx as i64) - (ox as i64);
    let dy: i64 = (ty as i64) - (oy as i64);
    let dxa: u64 = if dx >= 0 {
        dx as u64
    } else {
        (-dx) as u64
    };
    let dya: u64 = if dy >= 0 {
        dy as u64
    } else {
        (-dy) as u64
    };
    let n: u64 = if dxa >= dya {
        dxa
    } else {
        dya
    };
    let ghost gn = ray_steps(tx - ox, ty - oy);
    assert(n == gn);
    let mut k: u64 = 1;
    while k < n
        invariant
            grid.wf(),
            grid.spec_in_bounds(ox as int, oy as int),
            grid.spec_in_bounds(tx as int, ty as int),
            1 <= k,
            n == gn == ray_steps(tx - ox, ty - oy),
            dxa == spec_abs(tx - ox),
            dya == spec_abs(ty - oy),
            dx == tx - ox,
            dy == ty - oy,
            dxa < 0x8000_0000u64,
            dya < 0x8000_0000u64,
            n == 0 || k <= n,
            forall|j: int|
                1 <= j < k ==> grid.spec_kind_at(
                    #[trigger] ray_coord(ox as int, tx - ox, gn, j),
                    ray_coord(oy as int, ty - oy, gn, j),
                ) != TileKind::Wall,
        decreases n - k,
    {
        proof {
            lemma_round_div_bounds(dxa as int, gn, k as int);
            lemma_round_div_bounds(dya as int, gn, k as int);
            assert(2 * (k as int) * (dxa as int) + n <= 0xffff_ffff_ffff_ffffu64 && 2 * (k as int)
                * (dya as int) + n <= 0xffff_ffff_ffff_ffffu64) by (nonlinear_arith)
                requires
                    0 <= k as int <= n as int,
                    n < 0x8000_0000u64,
                    dxa < 0x8000_0000u64,
                    dya < 0x8000_0000u64,
            ;
        }
        let offx: u64 = (2 * k * dxa + n) / (2 * n);
        let offy: u64 = (2 * k * dya + n) / (2 * n);
        proof {
            assert((2 * (k as int)) * (dxa as int) == 2 * ((k as int) * (dxa as int)) && (2 * (
            k as int)) * (dya as int) == 2 * ((k as int) * (dya as int))) by (nonlinear_arith);
            assert(offx as int == round_div((k as int) * (dxa as int), gn));
            assert(offy as int == round_div((k as int) * (dya as int), gn));
            assert(offx as int <= dxa as int && offy as int <= dya as int);
        }
        let cx: i32 = if dx >= 0 {
            ox + (offx as i32)
        } else {
            ox - (offx as i32)
        };
        let cy: i32 = if dy >= 0 {
            oy + (offy as i32)
        } else {
            oy - (offy as i32)
        };
        assert(cx as int == ray_coord(ox as int, tx - ox, gn, k as int));
        assert(cy as int == ray_coord(oy as int, ty - oy, gn, k as int));
        assert(between(ox as int, tx as int, cx as int) && between(oy as int, ty as int, cy as int));
        let kind = grid.kind_at(cx, cy);
        if kind == TileKind::Wall {
            return true;
        }
        k = k + 1;
    }
    false
}

/// Squared Euclidean distance between two in-range coordinate pairs.
fn dist_sq(ax: i32, ay: i32, bx: i32, by: i32) -> (r: i64)
    requires
        0 <= ax,
        0 <= ay,
        0 <= bx,
        0 <= by,
    ensures
        r == (ax - bx) * (ax - bx) + (ay - by) * (ay - by),
{
    let dx: i64 = (ax as i64) - (bx as i64);
    let dy: i64 = (ay as i64) - (by as i64);
    proof {
        assert(dx * dx + dy * dy <= 0x7fff_ffff_ffff_ffffi64 && 0 <= dx * dx && 0 <= dy * dy)
            by (nonlinear_arith)
            requires
                -0x7fff_ffffi64 <= dx <= 0x7fff_ffffi64,
                -0x7fff_ffffi64 <= dy <= 0x7fff_ffffi64,
        ;
    }
    dx * dx + dy * dy
}

/// Every cell visible from `(ox, oy)` within `range`, and nothing else.
/// The result replaces any previous visibility set wholesale.
pub fn visible_tiles(grid: &TileGrid, ox: i32, oy: i32, range: i32) -> (r: Vec<Point>)
    requires
        grid.wf(),
        grid.spec_in_bounds(ox as int, oy as int),
    ensures
        fov_result(*grid, ox as int, oy as int, range as int, r@),
{
    let mut out: Vec<Point> = Vec::new();
    if range < 0 {
        return out;
    }
    proof {
        assert((range as i64) * (range as i64) == (range as int) * (range as int) && 0 <= (
        range as int) * (range as int) <= 0x7fff_ffff_ffff_ffffi64) by (nonlinear_arith)
            requires
                0 <= range <= 0x7fff_ffffi64,
        ;
    }
    let rr: i64 = (range as i64) * (range as i64);
    let w = grid.width();
    let h = grid.height();
    let ylo: i32 = if (oy as i64) - (range as i64) < 0 {
        0
    } else {
        oy - range
    };
    let yhi: i32 = if (oy as i64) + (range as i64) > (h as i64) - 1 {
        h - 1
    } else {
        oy + range
    };
    let xlo: i32 = if (ox as i64) - (range as i64) < 0 {
        0
    } else {
        ox - range
    };
    let xhi: i32 = if (ox as i64) + (range as i64) > (w as i64) - 1 {
        w - 1
    } else {
        ox + range
    };
    proof {
        assert forall|p: Point|
            #[trigger] spec_visible(
                *grid,
                ox as int,
                oy as int,
                range as int,
                p.x as int,
                p.y as int,
            ) && p.y < ylo implies out@.contains(p) by {
            lemma_dist_interval(p.x - ox, p.y - oy, range as int);
        }
    }
    let mut y: i32 = ylo;
    while y <= yhi
        invariant
            grid.wf(),
            grid.spec_in_bounds(ox as int, oy as int),
            0 <= range,
            rr == (range as int) * (range as int),
            w == grid.spec_width(),
            h == grid.spec_height(),
            0 <= ylo <= y,
            y <= yhi + 1,
            yhi < h,
            0 <= xlo,
            xhi < w,
            ylo <= oy as int - range || ylo == 0,
            yhi >= oy as int + range || yhi == h - 1,
            xlo <= ox as int - range || xlo == 0,
            xhi >= ox as int + range || xhi == w - 1,
            forall|i: int|
                0 <= i < out@.len() ==> spec_visible(
                    *grid,
                    ox as int,
                    oy as int,
                    range as int,
                    (#[trigger] out@[i]).x as int,
                    out@[i].y as int,
                ),
            forall|p: Point|
                #[trigger] spec_visible(
                    *grid,
                    ox as int,
                    oy as int,
                    range as int,
                    p.x as int,
                    p.y as int,
                ) && p.y < y ==> out@.contains(p),
        decreases yhi + 1 - y,
    {
        proof {
            assert forall|p: Point|
                #[trigger] spec_visible(
                    *grid,
                    ox as int,
                    oy as int,
                    range as int,
                    p.x as int,
                    p.y as int,
                ) && (p.y < y || (p.y == y && p.x < xlo)) implies out@.contains(p) by {
                lemma_dist_interval(p.x - ox, p.y - oy, range as int);
            }
        }
        let mut x: i32 = xlo;
        while x <= xhi
            invariant
                grid.wf(),
                grid.spec_in_bounds(ox as int, oy as int),
                0 <= range,
                rr == (range as int) * (range as int),
                w == grid.spec_width(),
                h == grid.spec_height(),
                0 <= ylo <= y <= yhi,
                yhi < h,
                0 <= xlo <= x,
                x <= xhi + 1,
                xhi < w,
                ylo <= oy as int - range || ylo == 0,
                yhi >= oy as int + range || yhi == h - 1,
                xlo <= ox as int - range || xlo == 0,
                xhi >= ox as int + range || xhi == w - 1,
                forall|i: int|
                    0 <= i < out@.len() ==> spec_visible(
                        *grid,
                        ox as int,
                        oy as int,
                        range as int,
                        (#[trigger] out@[i]).x as int,
                        out@[i].y as int,
                    ),
                forall|p: Point|
                    #[trigger] spec_visible(
                        *grid,
                        ox as int,
                        oy as int,
                        range as int,
                        p.x as int,
                        p.y as int,
                    ) && (p.y < y || (p.y == y && p.x < x)) ==> out@.contains(p),
            decreases xhi + 1 - x,
        {
            let ghost out0 = out@;
            let d2 = dist_sq(x, y, ox, oy);
            if d2 <= rr && !ray_blocked(grid, ox, oy, x, y) {
                out.push(Point { x, y });
            }
            proof {
                let p0 = Point { x, y };
                assert forall|p: Point|
                    #[trigger] spec_visible(
                        *grid,
                        ox as int,
                        oy as int,
                        range as int,
                        p.x as int,
                        p.y as int,
                    ) && (p.y < y || (p.y == y && p.x < x + 1)) implies out@.contains(p) by {
                    if p.y == y as int && p.x == x as int {
                        assert(p == p0);
                        assert(out@ == out0.push(p0));
                        assert(out@[out@.len() - 1] == p0);
                    } else {
                        assert(out0.contains(p));
                        let i = choose|i: int| 0 <= i < out0.len() && out0[i] == p;
                        assert(out@[i] == p);
                    }
                }
            }
            x = x + 1;
        }
        proof {
            assert forall|p: Point|
                #[trigger] spec_visible(
                    *grid,
                    ox as int,
                    oy as int,
                    range as int,
                    p.x as int,
                    p.y as int,
                ) && p.y < y + 1 implies out@.contains(p) by {
                if p.y == y as int {
                    lemma_dist_interval(p.x - ox, p.y - oy, range as int);
                    assert(p.x <= x);
                }
            }
        }
        y = y + 1;
    }
    proof {
        assert forall|p: Point|
            #[trigger] spec_visible(
                *grid,
                ox as int,
                oy as int,
                range as int,
                p.x as int,
                p.y as int,
            ) implies out@.contains(p) by {
            lemma_dist_interval(p.x - ox, p.y - oy, range as int);
            assert(p.y <= yhi);
        }
    }
    out
}

} // verus!
