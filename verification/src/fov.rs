//! Field-of-view computation over the map's opacity: a tile is
//! visible from a viewer when it lies in bounds, within the sight
//! range, and the ray walked toward it crosses no Wall strictly
//! between viewer and tile. The visible set is a pure function of the
//! tile grid, the viewer's position and the range.

use vstd::prelude::*;
use crate::map::{GameMap, TileType};

verus! {

/// The larger of two integers.
pub open spec fn imax(a: int, b: int) -> int {
    if a > b {
        a
    } else {
        b
    }
}

/// The smaller of two integers.
pub open spec fn imin(a: int, b: int) -> int {
    if a < b {
        a
    } else {
        b
    }
}

/// Magnitude of an integer.
pub open spec fn iabs(v: int) -> int {
    if v < 0 {
        -v
    } else {
        v
    }
}

/// Direction of an integer: -1, 0 or 1.
pub open spec fn sign(v: int) -> int {
    if v > 0 {
        1
    } else if v < 0 {
        -1
    } else {
        0
    }
}

/// The ray from `(x, y)` to `(tx, ty)` — stepping one tile diagonally
/// toward the target while both axes differ, then straight — meets no
/// Wall strictly between its endpoints.
pub open spec fn ray_clear(m: GameMap, x: int, y: int, tx: int, ty: int) -> bool
    decreases iabs(tx - x) + iabs(ty - y),
{
    if x == tx && y == ty {
        true
    } else {
        let nx = x + sign(tx - x);
        let ny = y + sign(ty - y);
        if nx == tx && ny == ty {
            true
        } else {
            m.tiles@[m.idx_of(nx, ny)] != TileType::Wall && ray_clear(m, nx, ny, tx, ty)
        }
    }
}

/// The visibility predicate: in bounds, within Euclidean range, and
/// line of sight unobstructed. Walls themselves are visible when the
/// way up to them is clear.
pub open spec fn visible_from(m: GameMap, px: int, py: int, range: int, x: int, y: int) -> bool {
    &&& m.in_bounds(x, y)
    &&& (x - px) * (x - px) + (y - py) * (y - py) <= range * range
    &&& ray_clear(m, px, py, x, y)
}

/// A squared distance bounds each of its components.
pub proof fn lemma_dist_component_bound(dx: int, dy: int, r: int)
    requires
        0 <= r,
        dx * dx + dy * dy <= r * r,
    ensures
        -r <= dx <= r,
        -r <= dy <= r,
{
    assert(-r <= dx <= r && -r <= dy <= r) by (nonlinear_arith)
        requires
            0 <= r,
            dx * dx + dy * dy <= r * r,
    ;
}

/// Squares of values that fit a machine word's half-range stay small
/// enough to add without overflow.
pub proof fn lemma_square_bounds(a: int, b: int)
    requires
        -0x7fff_ffff <= a <= 0x7fff_ffff,
        -0x7fff_ffff <= b <= 0x7fff_ffff,
    ensures
        0 <= a * a <= 0x3fff_ffff_0000_0001,
        0 <= b * b <= 0x3fff_ffff_0000_0001,
{
    assert(0 <= a * a <= 0x3fff_ffff_0000_0001 && 0 <= b * b <= 0x3fff_ffff_0000_0001)
        by (nonlinear_arith)
        requires
            -0x7fff_ffff <= a <= 0x7fff_ffff,
            -0x7fff_ffff <= b <= 0x7fff_ffff,
    ;
}

fn sign_i32(v: i32) -> (s: i32)
    ensures
        s as int == sign(v as int),
{
    if v > 0 {
        1
    } else if v < 0 {
        -1
    } else {
        0
    }
}

fn ray_clear_exec(m: &GameMap, x: i32, y: i32, tx: i32, ty: i32) -> (r: bool)
    requires
        m.inv(),
        m.in_bounds(x as int, y as int),
        m.in_bounds(tx as int, ty as int),
    ensures
        r == ray_clear(*m, x as int, y as int, tx as int, ty as int),
    decreases iabs(tx as int - x as int) + iabs(ty as int - y as int),
{
    if x == tx && y == ty {
        true
    } else {
        let nx = x + sign_i32(tx - x);
        let ny = y + sign_i32(ty - y);
        if nx == tx && ny == ty {
            true
        } else {
            let idx = m.xy_idx(nx, ny);
            !m.is_opaque(idx) && ray_clear_exec(m, nx, ny, tx, ty)
        }
    }
}

/// Computes the set of tiles visible from `(px, py)` within `range`:
/// a tile is in the result exactly when `visible_from` holds of it.
pub fn field_of_view(m: &GameMap, px: i32, py: i32, range: i32) -> (v: Vec<(i32, i32)>)
    requires
        m.inv(),
        m.in_bounds(px as int, py as int),
        0 <= range,
    ensures
        forall|x: i32, y: i32| #[trigger]
            v@.contains((x, y)) <==> visible_from(
                *m,
                px as int,
                py as int,
                range as int,
                x as int,
                y as int,
            ),
{
    let mut v: Vec<(i32, i32)> = Vec::new();
    let mut ylo: i64 = py as i64 - range as i64;
    if ylo < 0 {
        ylo = 0;
    }
    let mut yhi: i64 = py as i64 + range as i64;
    if yhi > (m.height - 1) as i64 {
        yhi = (m.height - 1) as i64;
    }
    let mut xlo: i64 = px as i64 - range as i64;
    if xlo < 0 {
        xlo = 0;
    }
    let mut xhi: i64 = px as i64 + range as i64;
    if xhi > (m.width - 1) as i64 {
        xhi = (m.width - 1) as i64;
    }
    proof {
        lemma_square_bounds(range as int, range as int);
    }
    let r2: i64 = range as i64 * range as i64;
    proof {
        assert forall|x: i32, y: i32|
            visible_from(*m, px as int, py as int, range as int, x as int, y as int) implies ylo
            <= y as int <= yhi && xlo <= x as int <= xhi by {
            lemma_dist_component_bound(x as int - px as int, y as int - py as int, range as int);
        }
    }
    let mut cy: i64 = ylo;
    while cy <= yhi
        invariant
            m.inv(),
            m.in_bounds(px as int, py as int),
            0 <= range,
            r2 == range as int * range as int,
            forall|x: i32, y: i32|
                #[trigger] visible_from(*m, px as int, py as int, range as int, x as int, y as int)
                    ==> ylo <= y as int <= yhi && xlo <= x as int <= xhi,
            ylo == imax(0, py as int - range as int),
            yhi == imin(py as int + range as int, m.height - 1),
            xlo == imax(0, px as int - range as int),
            xhi == imin(px as int + range as int, m.width - 1),
            ylo <= cy <= yhi + 1 || cy == ylo,
            forall|k: int|
                0 <= k < v@.len() ==> visible_from(
                    *m,
                    px as int,
                    py as int,
                    range as int,
                    (#[trigger] v@[k]).0 as int,
                    v@[k].1 as int,
                ),
            forall|x: i32, y: i32|
                visible_from(*m, px as int, py as int, range as int, x as int, y as int) && (
                y as int) < cy ==> #[trigger] v@.contains((x, y)),
        decreases yhi - cy + 1,
    {
        let y32: i32 = cy as i32;
        let mut cx: i64 = xlo;
        while cx <= xhi
            invariant
                m.inv(),
                m.in_bounds(px as int, py as int),
                0 <= range,
                r2 == range as int * range as int,
                forall|x: i32, y: i32|
                    #[trigger] visible_from(*m, px as int, py as int, range as int, x as int, y as int)
                        ==> ylo <= y as int <= yhi && xlo <= x as int <= xhi,
                ylo == imax(0, py as int - range as int),
                yhi == imin(py as int + range as int, m.height - 1),
                xlo == imax(0, px as int - range as int),
                xhi == imin(px as int + range as int, m.width - 1),
                ylo <= cy <= yhi,
                y32 as int == cy,
                xlo <= cx <= xhi + 1 || cx == xlo,
                forall|k: int|
                    0 <= k < v@.len() ==> visible_from(
                        *m,
                        px as int,
                        py as int,
                        range as int,
                        (#[trigger] v@[k]).0 as int,
                        v@[k].1 as int,
                    ),
                forall|x: i32, y: i32|
                    visible_from(*m, px as int, py as int, range as int, x as int, y as int) && ((
                    y as int) < cy || ((y as int) == cy && (x as int) < cx)) ==> #[trigger] v@.contains(
                        (x, y),
                    ),
            decreases xhi - cx + 1,
        {
            let x32: i32 = cx as i32;
            let dx: i64 = cx - px as i64;
            let dy: i64 = cy - py as i64;
            proof {
                lemma_square_bounds(dx as int, dy as int);
            }
            let d2: i64 = dx * dx + dy * dy;
            let ghost prev = v@;
            if d2 <= r2 && ray_clear_exec(m, px, py, x32, y32) {
                v.push((x32, y32));
            }
            proof {
                assert forall|x: i32, y: i32|
                    visible_from(*m, px as int, py as int, range as int, x as int, y as int) && ((
                    y as int) < cy || ((y as int) == cy && (x as int) < cx + 1)) implies #[trigger] v@.contains(
                    (x, y),
                ) by {
                    if (y as int) < cy || ((y as int) == cy && (x as int) < cx) {
                        assert(prev.contains((x, y)));
                        let j = choose|j: int| 0 <= j < prev.len() && prev[j] == (x, y);
                        assert(v@[j] == (x, y));
                    } else {
                        assert(x as int == cx && y as int == cy);
                        assert(v@[v@.len() - 1] == (x, y));
                    }
                }
            }
            cx = cx + 1;
        }
        cy = cy + 1;
    }
    proof {
        assert forall|x: i32, y: i32| #[trigger]
            v@.contains((x, y)) implies visible_from(
            *m,
            px as int,
            py as int,
            range as int,
            x as int,
            y as int,
        ) by {
            let j = choose|j: int| 0 <= j < v@.len() && v@[j] == (x, y);
            assert(visible_from(*m, px as int, py as int, range as int, v@[j].0 as int, v@[j].1 as int));
        }
    }
    v
}

/// Recomputing a viewshed from an unchanged map, position and range
/// yields the same visible-tile set: any two results that satisfy the
/// visibility characterization agree as sets.
pub proof fn lemma_fov_idempotent(
    m: GameMap,
    px: i32,
    py: i32,
    range: i32,
    v1: Seq<(i32, i32)>,
    v2: Seq<(i32, i32)>,
)
    requires
        forall|x: i32, y: i32| #[trigger]
            v1.contains((x, y)) <==> visible_from(
                m,
                px as int,
                py as int,
                range as int,
                x as int,
                y as int,
            ),
        forall|x: i32, y: i32| #[trigger]
            v2.contains((x, y)) <==> visible_from(
                m,
                px as int,
                py as int,
                range as int,
                x as int,
                y as int,
            ),
    ensures
        v1.to_set() == v2.to_set(),
{
    assert forall|e: (i32, i32)| #[trigger] v1.to_set().contains(e) implies v2.to_set().contains(
        e,
    ) by {
        assert(v1.contains((e.0, e.1)));
        assert(v2.contains((e.0, e.1)));
    }
    assert forall|e: (i32, i32)| #[trigger] v2.to_set().contains(e) implies v1.to_set().contains(
        e,
    ) by {
        assert(v2.contains((e.0, e.1)));
        assert(v1.contains((e.0, e.1)));
    }
    assert(v1.to_set() =~= v2.to_set());
}

} // verus!
