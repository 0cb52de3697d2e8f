//! Grid raycasting: a digital-differential-analyzer traversal that walks a
//! ray through the grid cells and reports the first wall cell hit.
//!
//! All arithmetic is exact. A ray parameter is the rational `t_num / t_den`
//! measured in multiples of the (unnormalized) direction vector; the world
//! distance to the hit is that parameter times the direction's length. The
//! executable traversal is proved equal to the mathematical traversal
//! `spec_raycast`, so every caller reasons about one definition; the
//! traversal is also proved never to pass over a blocked cell
//! (`lemma_raycast_no_tunnel`).

use vstd::math::abs;
use vstd::prelude::*;

use crate::geom::{div_floor, Vec2i};
use crate::grid::{Grid, GridCell};

verus! {

/// A ray: an origin and a direction. The direction need not be normalized;
/// a zero direction yields no hit.
#[derive(Clone, Copy, Debug, PartialEq, Eq, Structural)]
pub struct Ray {
    pub root: Vec2i,
    pub dir: Vec2i,
}

/// The first wall cell struck by a ray.
///
/// `t_num / t_den` is the ray parameter at which the traversal entered the
/// struck cell (`t_den > 0`); the world-space hit point is
/// `root + (t_num / t_den) * dir`, held exactly as the numerator pair
/// `(point_x_num, point_y_num)` over the denominator `t_den`. The normal is
/// one of the four axis-aligned unit vectors, chosen by which edge band of
/// the cell the hit point lies in, or — for near-center hits — the
/// componentwise sign pointing from the hit toward the cell center (a
/// deterministic heuristic, not a true surface normal).
#[derive(Clone, Copy, Debug, PartialEq, Eq, Structural)]
pub struct RayHitInfo {
    pub cell_x: usize,
    pub cell_y: usize,
    pub t_num: i128,
    pub t_den: i128,
    pub point_x_num: i128,
    pub point_y_num: i128,
    pub normal: Vec2i,
}

/// `a/b < c/d` for positive denominators.
pub open spec fn rat_lt(a: int, b: int, c: int, d: int) -> bool {
    a * d < c * b
}

/// `a/b <= c/d` for positive denominators.
pub open spec fn rat_le(a: int, b: int, c: int, d: int) -> bool {
    a * d <= c * b
}

/// Componentwise sign, as an `i64`.
pub open spec fn sgn64(v: int) -> i64 {
    if v > 0 {
        1i64
    } else if v < 0 {
        (-1) as i64
    } else {
        0i64
    }
}

/// Direction components a cast ray may carry: wide enough for the
/// difference of any two in-range positions.
pub open spec fn dir_ok(v: Vec2i) -> bool {
    -2_000_000_000 <= v.x <= 2_000_000_000 && -2_000_000_000 <= v.y <= 2_000_000_000
}

/// Entry parameter of the ray into the axis-aligned box, clamped to zero,
/// by the slab method; `None` when the ray misses the box entirely.
/// The result is a rational `(num, den)` with `den > 0`.
pub open spec fn slab_entry(
    rx: int,
    ry: int,
    dx: int,
    dy: int,
    mnx: int,
    mny: int,
    mxx: int,
    mxy: int,
) -> Option<(int, int)> {
    if dx == 0 && dy == 0 {
        None
    } else if dx == 0 && !(mnx <= rx <= mxx) {
        None
    } else if dy == 0 && !(mny <= ry <= mxy) {
        None
    } else {
        let exn = if dx > 0 {
            mnx - rx
        } else {
            rx - mxx
        };
        let exd = if dx > 0 {
            dx
        } else {
            -dx
        };
        let eyn = if dy > 0 {
            mny - ry
        } else {
            ry - mxy
        };
        let eyd = if dy > 0 {
            dy
        } else {
            -dy
        };
        let xxn = if dx > 0 {
            mxx - rx
        } else {
            rx - mnx
        };
        let xyn = if dy > 0 {
            mxy - ry
        } else {
            ry - mny
        };
        let bn1 = if dx != 0 && rat_lt(0, 1, exn, exd) {
            exn
        } else {
            0
        };
        let bd1 = if dx != 0 && rat_lt(0, 1, exn, exd) {
            exd
        } else {
            1
        };
        let bn = if dy != 0 && rat_lt(bn1, bd1, eyn, eyd) {
            eyn
        } else {
            bn1
        };
        let bd = if dy != 0 && rat_lt(bn1, bd1, eyn, eyd) {
            eyd
        } else {
            bd1
        };
        let xn = if dx == 0 {
            xyn
        } else if dy == 0 {
            xxn
        } else if rat_lt(xyn, eyd, xxn, exd) {
            xyn
        } else {
            xxn
        };
        let xd = if dx == 0 {
            eyd
        } else if dy == 0 {
            exd
        } else if rat_lt(xyn, eyd, xxn, exd) {
            eyd
        } else {
            exd
        };
        if rat_le(bn, bd, xn, xd) {
            Some((bn, bd))
        } else {
            None
        }
    }
}

/// Remaining cell budget of the traversal, for termination: how many more
/// steps each axis can take before leaving the grid.
pub open spec fn dda_measure(g: Grid, dir: Vec2i, gx: int, gy: int) -> int {
    (if dir.x > 0 {
        g.spec_width() - gx
    } else {
        gx + 1
    }) + (if dir.y > 0 {
        g.spec_height() - gy
    } else {
        gy + 1
    })
}

/// The incremental grid traversal. State: current cell `(gx, gy)`; `nx`
/// (over denominator `|dir.x|`) and `ny` (over `|dir.y|`) are the ray
/// parameters at which the next vertical / horizontal cell boundary is
/// crossed; `tn / td` is the parameter at which the current cell was
/// entered. Returns the first wall cell and its entry parameter, or `None`
/// once the traversal leaves the grid.
pub closed spec fn dda(
    g: Grid,
    dir: Vec2i,
    gx: int,
    gy: int,
    nx: int,
    ny: int,
    tn: int,
    td: int,
) -> Option<(int, int, int, int)>
    decreases dda_measure(g, dir, gx, gy),
{
    if !(0 <= gx < g.spec_width() && 0 <= gy < g.spec_height()) {
        None
    } else if g.cell_at(gx, gy) == GridCell::Wall {
        Some((gx, gy, tn, td))
    } else if dir.x == 0 && dir.y == 0 {
        None
    } else if dir.y == 0 || (dir.x != 0 && rat_lt(nx, (abs(dir.x as int) as int), ny, (abs(dir.y as int) as int))) {
        dda(
            g,
            dir,
            gx + (if dir.x > 0 {
                1int
            } else {
                -1int
            }),
            gy,
            nx + g.spec_cell_size(),
            ny,
            nx,
            (abs(dir.x as int) as int),
        )
    } else {
        dda(
            g,
            dir,
            gx,
            gy + (if dir.y > 0 {
                1int
            } else {
                -1int
            }),
            nx,
            ny + g.spec_cell_size(),
            ny,
            (abs(dir.y as int) as int),
        )
    }
}

/// Clamp an integer into `[lo, hi]`.
pub open spec fn clamp_int(v: int, lo: int, hi: int) -> int {
    if v < lo {
        lo
    } else if v > hi {
        hi
    } else {
        v
    }
}

/// Initial traversal state from the box entry parameter `en / ed`: the
/// starting cell (the cell containing the entry point, clamped into the
/// grid) and the per-axis parameters of the first boundary crossings.
pub open spec fn dda_init(g: Grid, ray: Ray, en: int, ed: int) -> (int, int, int, int) {
    let ox = g.spec_root().x as int;
    let oy = g.spec_root().y as int;
    let rx = ray.root.x as int;
    let ry = ray.root.y as int;
    let cell = g.spec_cell_size();
    let exn = rx * ed + en * ray.dir.x;
    let eyn = ry * ed + en * ray.dir.y;
    let gx0 = clamp_int((exn - ox * ed) / (ed * cell), 0, g.spec_width() - 1);
    let gy0 = clamp_int((eyn - oy * ed) / (ed * cell), 0, g.spec_height() - 1);
    let nx0 = if ray.dir.x > 0 {
        ox + (gx0 + 1) * cell - rx
    } else if ray.dir.x < 0 {
        rx - (ox + gx0 * cell)
    } else {
        0
    };
    let ny0 = if ray.dir.y > 0 {
        oy + (gy0 + 1) * cell - ry
    } else if ray.dir.y < 0 {
        ry - (oy + gy0 * cell)
    } else {
        0
    };
    (gx0, gy0, nx0, ny0)
}

/// The hit record for a wall cell entered at parameter `tn / td`.
pub open spec fn hit_info(g: Grid, ray: Ray, cx: int, cy: int, tn: int, td: int) -> RayHitInfo {
    let cell = g.spec_cell_size();
    let cwx = g.spec_root().x + cx * cell;
    let cwy = g.spec_root().y + cy * cell;
    let px = ray.root.x * td + tn * ray.dir.x;
    let py = ray.root.y * td + tn * ray.dir.y;
    let relx = px - cwx * td;
    let rely = py - cwy * td;
    let normal = if 10 * relx < cell * td {
        Vec2i { x: (-1) as i64, y: 0i64 }
    } else if 10 * relx > 9 * cell * td {
        Vec2i { x: 1i64, y: 0i64 }
    } else if 10 * rely < cell * td {
        Vec2i { x: 0i64, y: (-1) as i64 }
    } else if 10 * rely > 9 * cell * td {
        Vec2i { x: 0i64, y: 1i64 }
    } else {
        Vec2i {
            x: sgn64(2 * cwx * td + cell * td - 2 * px),
            y: sgn64(2 * cwy * td + cell * td - 2 * py),
        }
    };
    RayHitInfo {
        cell_x: cx as usize,
        cell_y: cy as usize,
        t_num: tn as i128,
        t_den: td as i128,
        point_x_num: px as i128,
        point_y_num: py as i128,
        normal,
    }
}

/// The full raycast: reject a zero direction, intersect the ray with the
/// grid's bounding box, then traverse cells from the entry point and report
/// the first wall cell hit.
pub closed spec fn spec_raycast(g: Grid, ray: Ray) -> Option<RayHitInfo> {
    if ray.dir.x == 0 && ray.dir.y == 0 {
        None
    } else {
        let mnx = g.spec_root().x as int;
        let mny = g.spec_root().y as int;
        let mxx = mnx + g.spec_width() * g.spec_cell_size();
        let mxy = mny + g.spec_height() * g.spec_cell_size();
        match slab_entry(
            ray.root.x as int,
            ray.root.y as int,
            ray.dir.x as int,
            ray.dir.y as int,
            mnx,
            mny,
            mxx,
            mxy,
        ) {
            None => None,
            Some((en, ed)) => {
                let init = dda_init(g, ray, en, ed);
                match dda(g, ray.dir, init.0, init.1, init.2, init.3, en, ed) {
                    None => None,
                    Some((cx, cy, tn, td)) => Some(hit_info(g, ray, cx, cy, tn, td)),
                }
            },
        }
    }
}

/// `a/b < c/d` on machine integers, by cross-multiplication.
fn rat_lt_exec(a: i128, b: i128, c: i128, d: i128) -> (r: bool)
    requires
        -100_000_000_000_000_000 <= a <= 100_000_000_000_000_000,
        0 < b <= 100_000_000_000_000_000,
        -100_000_000_000_000_000 <= c <= 100_000_000_000_000_000,
        0 < d <= 100_000_000_000_000_000,
    ensures
        r == rat_lt(a as int, b as int, c as int, d as int),
{
    proof {
        let bound: int = 10_000_000_000_000_000_000_000_000_000_000_000;
        assert(-bound <= a * d <= bound && -bound <= c * b <= bound) by (nonlinear_arith)
            requires
                bound == 10_000_000_000_000_000_000_000_000_000_000_000int
                    && -100_000_000_000_000_000 <= a <= 100_000_000_000_000_000 && 0 < b
                    <= 100_000_000_000_000_000 && -100_000_000_000_000_000 <= c
                    <= 100_000_000_000_000_000 && 0 < d <= 100_000_000_000_000_000,
        ;
    }
    a * d < c * b
}

/// `a/b <= c/d` on machine integers, by cross-multiplication.
fn rat_le_exec(a: i128, b: i128, c: i128, d: i128) -> (r: bool)
    requires
        -100_000_000_000_000_000 <= a <= 100_000_000_000_000_000,
        0 < b <= 100_000_000_000_000_000,
        -100_000_000_000_000_000 <= c <= 100_000_000_000_000_000,
        0 < d <= 100_000_000_000_000_000,
    ensures
        r == rat_le(a as int, b as int, c as int, d as int),
{
    !rat_lt_exec(c, d, a, b)
}

impl Grid {
    /// The slab-method box entry test against this grid's bounding box.
    fn box_entry(&self, ray: Ray) -> (r: Option<(i128, i128)>)
        requires
            self.wf(),
            ray.root.in_range(),
            dir_ok(ray.dir),
        ensures
            ({
                let s = slab_entry(
                    ray.root.x as int,
                    ray.root.y as int,
                    ray.dir.x as int,
                    ray.dir.y as int,
                    self.spec_root().x as int,
                    self.spec_root().y as int,
                    self.spec_root().x + self.spec_width() * self.spec_cell_size(),
                    self.spec_root().y + self.spec_height() * self.spec_cell_size(),
                );
                match r {
                    Some((n, d)) => s == Some((n as int, d as int)) && 0 <= n <= 2_000_000_000 && 0
                        < d <= 2_000_000_000,
                    None => s is None,
                }
            }),
    {
        proof {
            crate::grid::lemma_wf_bounds(*self);
        }
        let rx: i128 = ray.root.x as i128;
        let ry: i128 = ray.root.y as i128;
        let dx: i128 = ray.dir.x as i128;
        let dy: i128 = ray.dir.y as i128;
        let mnx: i128 = self.root().x as i128;
        let mny: i128 = self.root().y as i128;
        let mxx: i128 = mnx + (self.world_width() as i128);
        let mxy: i128 = mny + (self.world_height() as i128);

        if dx == 0 && dy == 0 {
            return None;
        }
        if dx == 0 && !(mnx <= rx && rx <= mxx) {
            return None;
        }
        if dy == 0 && !(mny <= ry && ry <= mxy) {
            return None;
        }
        let exn: i128 = if dx > 0 {
            mnx - rx
        } else {
            rx - mxx
        };
        let exd: i128 = if dx > 0 {
            dx
        } else {
            -dx
        };
        let eyn: i128 = if dy > 0 {
            mny - ry
        } else {
            ry - mxy
        };
        let eyd: i128 = if dy > 0 {
            dy
        } else {
            -dy
        };
        let xxn: i128 = if dx > 0 {
            mxx - rx
        } else {
            rx - mnx
        };
        let xyn: i128 = if dy > 0 {
            mxy - ry
        } else {
            ry - mny
        };

        let take_x: bool = dx != 0 && rat_lt_exec(0, 1, exn, exd);
        let bn1: i128 = if take_x {
            exn
        } else {
            0
        };
        let bd1: i128 = if take_x {
            exd
        } else {
            1
        };
        let take_y: bool = dy != 0 && rat_lt_exec(bn1, bd1, eyn, eyd);
        let bn: i128 = if take_y {
            eyn
        } else {
            bn1
        };
        let bd: i128 = if take_y {
            eyd
        } else {
            bd1
        };
        let take_exit_y: bool = dx == 0 || (dy != 0 && rat_lt_exec(xyn, eyd, xxn, exd));
        let xn: i128 = if dx == 0 {
            xyn
        } else if dy == 0 {
            xxn
        } else if take_exit_y {
            xyn
        } else {
            xxn
        };
        let xd: i128 = if dx == 0 {
            eyd
        } else if dy == 0 {
            exd
        } else if take_exit_y {
            eyd
        } else {
            exd
        };
        proof {
            if take_x {
                assert(exn > 0) by (nonlinear_arith)
                    requires
                        rat_lt(0, 1, exn as int, exd as int) && exd > 0,
                ;
            }
            if take_y {
                assert(eyn > 0) by (nonlinear_arith)
                    requires
                        rat_lt(bn1 as int, bd1 as int, eyn as int, eyd as int) && bn1 >= 0 && bd1
                            > 0 && eyd > 0,
                ;
            }
        }
        if rat_le_exec(bn, bd, xn, xd) {
            Some((bn, bd))
        } else {
            None
        }
    }

    /// Casts a ray through the grid and returns the first wall cell hit,
    /// or `None` when the direction is zero or the ray leaves the grid
    /// without striking a wall. Exactly the mathematical `spec_raycast`.
    #[verifier::loop_isolation(false)]
    pub fn raycast(&self, ray: Ray) -> (r: Option<RayHitInfo>)
        requires
            self.wf(),
            ray.root.in_range(),
            dir_ok(ray.dir),
        ensures
            r == spec_raycast(*self, ray),
    {
        proof {
            crate::grid::lemma_wf_bounds(*self);
        }
        if ray.dir.x == 0 && ray.dir.y == 0 {
            return None;
        }
        let ent = match self.box_entry(ray) {
            Some(e) => e,
            None => {
                return None;
            },
        };
        let en: i128 = ent.0;
        let ed: i128 = ent.1;

        let org = self.root();
        let cell: i128 = self.cell_size() as i128;
        let w: i128 = self.width() as i128;
        let h: i128 = self.height() as i128;
        let rx: i128 = ray.root.x as i128;
        let ry: i128 = ray.root.y as i128;
        let dx: i128 = ray.dir.x as i128;
        let dy: i128 = ray.dir.y as i128;
        let ox: i128 = org.x as i128;
        let oy: i128 = org.y as i128;

        proof {
            assert(rx * ed <= 2_000_000_000_000_000_000 && rx * ed >= -2_000_000_000_000_000_000
                && en * dx <= 4_000_000_000_000_000_000 && en * dx >= -4_000_000_000_000_000_000
                && ry * ed <= 2_000_000_000_000_000_000 && ry * ed >= -2_000_000_000_000_000_000
                && en * dy <= 4_000_000_000_000_000_000 && en * dy >= -4_000_000_000_000_000_000
                && ox * ed <= 2_000_000_000_000_000_000 && ox * ed >= -2_000_000_000_000_000_000
                && oy * ed <= 2_000_000_000_000_000_000 && oy * ed >= -2_000_000_000_000_000_000
                && 0 < ed * cell <= 200_000_000_000_000) by (nonlinear_arith)
                requires
                    -1_000_000_000 <= rx <= 1_000_000_000 && -1_000_000_000 <= ry
                        <= 1_000_000_000 && -2_000_000_000 <= dx <= 2_000_000_000
                        && -2_000_000_000 <= dy <= 2_000_000_000 && -1_000_000_000 <= ox
                        <= 1_000_000_000 && -1_000_000_000 <= oy <= 1_000_000_000 && 0 <= en
                        <= 2_000_000_000 && 0 < ed <= 2_000_000_000 && 0 < cell <= 100_000,
            ;
        }
        let exn: i128 = rx * ed + en * dx;
        let eyn: i128 = ry * ed + en * dy;

        let fx: i128 = div_floor(exn - ox * ed, ed * cell);
        let fy: i128 = div_floor(eyn - oy * ed, ed * cell);
        let mut gx: i128 = if fx < 0 {
            0
        } else if fx > w - 1 {
            w - 1
        } else {
            fx
        };
        let mut gy: i128 = if fy < 0 {
            0
        } else if fy > h - 1 {
            h - 1
        } else {
            fy
        };

        let dxa: i128 = if dx >= 0 {
            dx
        } else {
            -dx
        };
        let dya: i128 = if dy >= 0 {
            dy
        } else {
            -dy
        };

        proof {
            assert((gx + 1) * cell <= 1_000_000_000 && 0 <= gx * cell && gx * cell
                <= 1_000_000_000 && (gy + 1) * cell <= 1_000_000_000 && 0 <= gy * cell && gy * cell
                <= 1_000_000_000) by (nonlinear_arith)
                requires
                    0 <= gx < w && 0 <= gy < h && 0 < cell <= 100_000 && w * cell <= 500_000_000
                        && h * cell <= 500_000_000 && w >= 1 && h >= 1,
            ;
        }
        let mut nx: i128 = if dx > 0 {
            ox + (gx + 1) * cell - rx
        } else if dx < 0 {
            rx - (ox + gx * cell)
        } else {
            0
        };
        let mut ny: i128 = if dy > 0 {
            oy + (gy + 1) * cell - ry
        } else if dy < 0 {
            ry - (oy + gy * cell)
        } else {
            0
        };

        let mut tn: i128 = en;
        let mut td: i128 = ed;

        let ghost init = dda_init(*self, ray, en as int, ed as int);
        proof {
            assert(gx == init.0 && gy == init.1 && nx == init.2 && ny == init.3);
        }

        while 0 <= gx && gx < w && 0 <= gy && gy < h
            invariant
                dda(*self, ray.dir, gx as int, gy as int, nx as int, ny as int, tn as int, td as int)
                    == dda(*self, ray.dir, init.0, init.1, init.2, init.3, en as int, ed as int),
                -1 <= gx <= w,
                -1 <= gy <= h,
                dx > 0 ==> nx == ox + (gx + 1) * cell - rx,
                dx < 0 ==> nx == rx - (ox + gx * cell),
                dx == 0 ==> nx == 0,
                dy > 0 ==> ny == oy + (gy + 1) * cell - ry,
                dy < 0 ==> ny == ry - (oy + gy * cell),
                dy == 0 ==> ny == 0,
                0 < td <= 2_000_000_000,
                -3_000_000_000 <= tn <= 3_000_000_000,
            decreases dda_measure(*self, ray.dir, gx as int, gy as int),
        {
            proof {
                assert(-3_000_000_000 <= nx <= 3_000_000_000 && -3_000_000_000 <= ny
                    <= 3_000_000_000) by (nonlinear_arith)
                    requires
                        -1 <= gx <= w && -1 <= gy <= h && 0 < cell <= 100_000 && w * cell
                            <= 500_000_000 && h * cell <= 500_000_000 && 1 <= w <= 4096 && 1 <= h
                            <= 4096 && -1_000_000_000 <= ox <= 1_000_000_000 && -1_000_000_000
                            <= oy <= 1_000_000_000 && -1_000_000_000 <= rx <= 1_000_000_000
                            && -1_000_000_000 <= ry <= 1_000_000_000 && (dx > 0 ==> nx == ox + (gx
                            + 1) * cell - rx) && (dx < 0 ==> nx == rx - (ox + gx * cell)) && (dx
                            == 0 ==> nx == 0) && (dy > 0 ==> ny == oy + (gy + 1) * cell - ry) && (dy
                            < 0 ==> ny == ry - (oy + gy * cell)) && (dy == 0 ==> ny == 0),
                ;
            }
            let wall_here: bool = match self.is_wall(gx as usize, gy as usize) {
                Some(b) => b,
                None => false,
            };
            if wall_here {
                proof {
                    assert(0 <= gx * cell <= 500_000_000 && 0 <= gy * cell <= 500_000_000)
                        by (nonlinear_arith)
                        requires
                            0 <= gx < w && 0 <= gy < h && 0 < cell <= 100_000 && w * cell
                                <= 500_000_000 && h * cell <= 500_000_000,
                    ;
                }
                let cwx: i128 = ox + gx * cell;
                let cwy: i128 = oy + gy * cell;
                proof {
                    assert(rx * td <= 2_000_000_000_000_000_000 && rx * td
                        >= -2_000_000_000_000_000_000 && ry * td <= 2_000_000_000_000_000_000 && ry
                        * td >= -2_000_000_000_000_000_000 && tn * dx <= 6_000_000_000_000_000_000
                        && tn * dx >= -6_000_000_000_000_000_000 && tn * dy
                        <= 6_000_000_000_000_000_000 && tn * dy >= -6_000_000_000_000_000_000 && cwx
                        * td <= 4_000_000_000_000_000_000 && cwx * td >= -4_000_000_000_000_000_000
                        && cwy * td <= 4_000_000_000_000_000_000 && cwy * td
                        >= -4_000_000_000_000_000_000 && 0 < cell * td <= 200_000_000_000_000 && 0
                        < 9 * cell * td <= 1_800_000_000_000_000 && 2 * cwx * td
                        <= 8_000_000_000_000_000_000 && 2 * cwx * td >= -8_000_000_000_000_000_000
                        && 2 * cwy * td <= 8_000_000_000_000_000_000 && 2 * cwy * td
                        >= -8_000_000_000_000_000_000) by (nonlinear_arith)
                        requires
                            -1_000_000_000 <= rx <= 1_000_000_000 && -1_000_000_000 <= ry
                                <= 1_000_000_000 && -2_000_000_000 <= dx <= 2_000_000_000
                                && -2_000_000_000 <= dy <= 2_000_000_000 && -2_000_000_000 <= cwx
                                <= 2_000_000_000 && -2_000_000_000 <= cwy <= 2_000_000_000
                                && -3_000_000_000 <= tn <= 3_000_000_000 && 0 < td <= 2_000_000_000
                                && 0 < cell <= 100_000,
                    ;
                }
                let px: i128 = rx * td + tn * dx;
                let py: i128 = ry * td + tn * dy;
                let relx: i128 = px - cwx * td;
                let rely: i128 = py - cwy * td;
                let normal: Vec2i = if 10 * relx < cell * td {
                    Vec2i { x: -1, y: 0 }
                } else if 10 * relx > 9 * cell * td {
                    Vec2i { x: 1, y: 0 }
                } else if 10 * rely < cell * td {
                    Vec2i { x: 0, y: -1 }
                } else if 10 * rely > 9 * cell * td {
                    Vec2i { x: 0, y: 1 }
                } else {
                    let vx: i128 = 2 * cwx * td + cell * td - 2 * px;
                    let vy: i128 = 2 * cwy * td + cell * td - 2 * py;
                    Vec2i {
                        x: if vx > 0 {
                            1
                        } else if vx < 0 {
                            -1
                        } else {
                            0
                        },
                        y: if vy > 0 {
                            1
                        } else if vy < 0 {
                            -1
                        } else {
                            0
                        },
                    }
                };
                let hit = RayHitInfo {
                    cell_x: gx as usize,
                    cell_y: gy as usize,
                    t_num: tn,
                    t_den: td,
                    point_x_num: px,
                    point_y_num: py,
                    normal,
                };
                proof {
                    assert(dda(
                        *self,
                        ray.dir,
                        gx as int,
                        gy as int,
                        nx as int,
                        ny as int,
                        tn as int,
                        td as int,
                    ) == Some((gx as int, gy as int, tn as int, td as int)));
                    assert(hit == hit_info(*self, ray, gx as int, gy as int, tn as int, td as int));
                    assert(spec_raycast(*self, ray) == Some(hit));
                }
                return Some(hit);
            }
            let ghost ogx = gx as int;
            let ghost ogy = gy as int;
            let ghost onx = nx as int;
            let ghost ony = ny as int;
            let ghost otn = tn as int;
            let ghost otd = td as int;
            let step_x_now: bool = if dya == 0 {
                true
            } else if dxa == 0 {
                false
            } else {
                rat_lt_exec(nx, dxa, ny, dya)
            };
            if step_x_now {
                tn = nx;
                td = dxa;
                nx = nx + cell;
                gx = gx + (if dx > 0 {
                    1
                } else {
                    -1
                });
            } else {
                tn = ny;
                td = dya;
                ny = ny + cell;
                gy = gy + (if dy > 0 {
                    1
                } else {
                    -1
                });
            }
            proof {
                assert((ogx + 1 + 1) * cell == (ogx + 1) * cell + cell && (ogx - 1) * cell == ogx
                    * cell - cell && (ogy + 1 + 1) * cell == (ogy + 1) * cell + cell && (ogy - 1)
                    * cell == ogy * cell - cell) by (nonlinear_arith);
                assert(dda(*self, ray.dir, ogx, ogy, onx, ony, otn, otd) == dda(
                    *self,
                    ray.dir,
                    gx as int,
                    gy as int,
                    nx as int,
                    ny as int,
                    tn as int,
                    td as int,
                ));
            }
        }
        proof {
            assert(dda(
                *self,
                ray.dir,
                gx as int,
                gy as int,
                nx as int,
                ny as int,
                tn as int,
                td as int,
            ) is None);
            assert(spec_raycast(*self, ray) is None);
        }
        None
    }
}

/// Whatever cell the traversal reports is a wall inside the grid, and its
/// entry parameter has a positive denominator of the same magnitude class
/// as the inputs.
proof fn lemma_dda_props(g: Grid, dir: Vec2i, gx: int, gy: int, nx: int, ny: int, tn: int, td: int)
    requires
        0 < td <= 2_000_000_000,
        -2_000_000_000 <= dir.x <= 2_000_000_000,
        -2_000_000_000 <= dir.y <= 2_000_000_000,
    ensures
        dda(g, dir, gx, gy, nx, ny, tn, td) matches Some(h) ==> g.wall_at(h.0, h.1) && 0 < h.3
            <= 2_000_000_000,
    decreases dda_measure(g, dir, gx, gy),
{
    if !(0 <= gx < g.spec_width() && 0 <= gy < g.spec_height()) {
    } else if g.cell_at(gx, gy) == GridCell::Wall {
    } else if dir.x == 0 && dir.y == 0 {
    } else if dir.y == 0 || (dir.x != 0 && rat_lt(
        nx,
        (abs(dir.x as int) as int),
        ny,
        (abs(dir.y as int) as int),
    )) {
        lemma_dda_props(
            g,
            dir,
            gx + (if dir.x > 0 {
                1int
            } else {
                -1int
            }),
            gy,
            nx + g.spec_cell_size(),
            ny,
            nx,
            (abs(dir.x as int) as int),
        );
    } else {
        lemma_dda_props(
            g,
            dir,
            gx,
            gy + (if dir.y > 0 {
                1int
            } else {
                -1int
            }),
            nx,
            ny + g.spec_cell_size(),
            ny,
            (abs(dir.y as int) as int),
        );
    }
}

/// A grid without walls is never hit.
proof fn lemma_dda_all_air(
    g: Grid,
    dir: Vec2i,
    gx: int,
    gy: int,
    nx: int,
    ny: int,
    tn: int,
    td: int,
)
    requires
        g.all_air(),
    ensures
        dda(g, dir, gx, gy, nx, ny, tn, td) is None,
    decreases dda_measure(g, dir, gx, gy),
{
    if !(0 <= gx < g.spec_width() && 0 <= gy < g.spec_height()) {
    } else if g.cell_at(gx, gy) == GridCell::Wall {
        assert(!g.wall_at(gx, gy));
        assert(false);
    } else if dir.x == 0 && dir.y == 0 {
    } else if dir.y == 0 || (dir.x != 0 && rat_lt(
        nx,
        (abs(dir.x as int) as int),
        ny,
        (abs(dir.y as int) as int),
    )) {
        lemma_dda_all_air(
            g,
            dir,
            gx + (if dir.x > 0 {
                1int
            } else {
                -1int
            }),
            gy,
            nx + g.spec_cell_size(),
            ny,
            nx,
            (abs(dir.x as int) as int),
        );
    } else {
        lemma_dda_all_air(
            g,
            dir,
            gx,
            gy + (if dir.y > 0 {
                1int
            } else {
                -1int
            }),
            nx,
            ny + g.spec_cell_size(),
            ny,
            (abs(dir.y as int) as int),
        );
    }
}

/// The ray's point at parameter `a / b` lies strictly inside the open
/// square of cell `(cx, cy)`.
pub open spec fn pt_in_cell_interior(g: Grid, ray: Ray, a: int, b: int, cx: int, cy: int) -> bool {
    let cell = g.spec_cell_size();
    let cwx = g.spec_root().x + cx * cell;
    let cwy = g.spec_root().y + cy * cell;
    &&& b > 0
    &&& cwx * b < ray.root.x * b + a * ray.dir.x < (cwx + cell) * b
    &&& cwy * b < ray.root.y * b + a * ray.dir.y < (cwy + cell) * b
}

/// The traversal's state invariant: the boundary-crossing numerators
/// match the current cell, the cell index can only have left the grid on
/// the side the ray moves toward, and the entry point `tn / td` lies in
/// the current cell's closed square.
spec fn dda_inv(g: Grid, ray: Ray, gx: int, gy: int, nx: int, ny: int, tn: int, td: int) -> bool {
    let ox = g.spec_root().x as int;
    let oy = g.spec_root().y as int;
    let rx = ray.root.x as int;
    let ry = ray.root.y as int;
    let dx = ray.dir.x as int;
    let dy = ray.dir.y as int;
    let cell = g.spec_cell_size();
    &&& !(dx == 0 && dy == 0)
    &&& 0 < td <= 2_000_000_000
    &&& -4_000_000_000 <= tn <= 4_000_000_000
    &&& -4_000_000_000 <= nx <= 4_000_000_000
    &&& -4_000_000_000 <= ny <= 4_000_000_000
    &&& (dx > 0 ==> nx == ox + (gx + 1) * cell - rx && gx >= 0)
    &&& (dx < 0 ==> nx == rx - (ox + gx * cell) && gx <= g.spec_width() - 1)
    &&& (dx == 0 ==> 0 <= gx <= g.spec_width() - 1)
    &&& (dy > 0 ==> ny == oy + (gy + 1) * cell - ry && gy >= 0)
    &&& (dy < 0 ==> ny == ry - (oy + gy * cell) && gy <= g.spec_height() - 1)
    &&& (dy == 0 ==> 0 <= gy <= g.spec_height() - 1)
    &&& (ox + gx * cell) * td <= rx * td + tn * dx <= (ox + (gx + 1) * cell) * td
    &&& (oy + gy * cell) * td <= ry * td + tn * dy <= (oy + (gy + 1) * cell) * td
}

/// A coordinate `r + t * d` moving with `t` keeps its trailing bound:
/// for `t1 <= t2`, a lower bound at `t1` persists at `t2` when `d >= 0`,
/// an upper bound when `d <= 0`.
proof fn lemma_coord_monotone(r: int, d: int, c: int, t1n: int, t1d: int, t2n: int, t2d: int)
    requires
        t1d > 0,
        t2d > 0,
        t1n * t2d <= t2n * t1d,
    ensures
        d >= 0 && c * t1d <= r * t1d + t1n * d ==> c * t2d <= r * t2d + t2n * d,
        d <= 0 && r * t1d + t1n * d <= c * t1d ==> r * t2d + t2n * d <= c * t2d,
{
    assert((d >= 0 && c * t1d <= r * t1d + t1n * d ==> c * t2d <= r * t2d + t2n * d) && (d <= 0 && r
        * t1d + t1n * d <= c * t1d ==> r * t2d + t2n * d <= c * t2d)) by (nonlinear_arith)
        requires
            t1d > 0 && t2d > 0 && t1n * t2d <= t2n * t1d,
    ;
}

/// A point strictly inside one cell's open square lies in no other
/// cell's closed square: the two cells coincide.
proof fn lemma_cells_disjoint(
    g: Grid,
    px: int,
    py: int,
    b: int,
    gx: int,
    gy: int,
    cx: int,
    cy: int,
)
    requires
        g.wf(),
        b > 0,
        (g.spec_root().x + gx * g.spec_cell_size()) * b <= px <= (g.spec_root().x + (gx + 1)
            * g.spec_cell_size()) * b,
        (g.spec_root().y + gy * g.spec_cell_size()) * b <= py <= (g.spec_root().y + (gy + 1)
            * g.spec_cell_size()) * b,
        (g.spec_root().x + cx * g.spec_cell_size()) * b < px < (g.spec_root().x + cx
            * g.spec_cell_size() + g.spec_cell_size()) * b,
        (g.spec_root().y + cy * g.spec_cell_size()) * b < py < (g.spec_root().y + cy
            * g.spec_cell_size() + g.spec_cell_size()) * b,
    ensures
        cx == gx && cy == gy,
{
    let ox = g.spec_root().x as int;
    let oy = g.spec_root().y as int;
    let cell = g.spec_cell_size();
    crate::grid::lemma_wf_bounds(g);
    if cx >= gx + 1 {
        assert(false) by (nonlinear_arith)
            requires
                cx >= gx + 1 && cell > 0 && b > 0 && px <= (ox + (gx + 1) * cell) * b && (ox + cx
                    * cell) * b < px,
        ;
    } else if cx <= gx - 1 {
        assert(false) by (nonlinear_arith)
            requires
                cx <= gx - 1 && cell > 0 && b > 0 && (ox + gx * cell) * b <= px && px < (ox + cx
                    * cell + cell) * b,
        ;
    } else if cy >= gy + 1 {
        assert(false) by (nonlinear_arith)
            requires
                cy >= gy + 1 && cell > 0 && b > 0 && py <= (oy + (gy + 1) * cell) * b && (oy + cy
                    * cell) * b < py,
        ;
    } else if cy <= gy - 1 {
        assert(false) by (nonlinear_arith)
            requires
                cy <= gy - 1 && cell > 0 && b > 0 && (oy + gy * cell) * b <= py && py < (oy + cy
                    * cell + cell) * b,
        ;
    }
}

/// Between the cell's entry parameter and both next boundary crossings,
/// the ray's point lies in the current cell's closed square.
proof fn lemma_point_in_current_cell(
    g: Grid,
    ray: Ray,
    gx: int,
    gy: int,
    nx: int,
    ny: int,
    tn: int,
    td: int,
    a: int,
    b: int,
)
    requires
        g.wf(),
        dda_inv(g, ray, gx, gy, nx, ny, tn, td),
        b > 0,
        tn * b <= a * td,
        ray.dir.x != 0 ==> a * (abs(ray.dir.x as int) as int) <= nx * b,
        ray.dir.y != 0 ==> a * (abs(ray.dir.y as int) as int) <= ny * b,
    ensures
        (g.spec_root().x + gx * g.spec_cell_size()) * b <= ray.root.x * b + a * ray.dir.x <= (
        g.spec_root().x + (gx + 1) * g.spec_cell_size()) * b,
        (g.spec_root().y + gy * g.spec_cell_size()) * b <= ray.root.y * b + a * ray.dir.y <= (
        g.spec_root().y + (gy + 1) * g.spec_cell_size()) * b,
{
    let ox = g.spec_root().x as int;
    let oy = g.spec_root().y as int;
    let rx = ray.root.x as int;
    let ry = ray.root.y as int;
    let dx = ray.dir.x as int;
    let dy = ray.dir.y as int;
    let cell = g.spec_cell_size();
    if dx > 0 {
        assert((rx + nx) * b == (ox + (gx + 1) * cell) * b);
        assert(rx * b + a * dx <= (ox + (gx + 1) * cell) * b) by (nonlinear_arith)
            requires
                a * dx <= nx * b && (rx + nx) * b == (ox + (gx + 1) * cell) * b,
        ;
        lemma_coord_monotone(rx, dx, ox + gx * cell, tn, td, a, b);
    } else if dx < 0 {
        assert((rx - nx) * b == (ox + gx * cell) * b);
        assert((ox + gx * cell) * b <= rx * b + a * dx) by (nonlinear_arith)
            requires
                a * (-dx) <= nx * b && (rx - nx) * b == (ox + gx * cell) * b,
        ;
        lemma_coord_monotone(rx, dx, ox + (gx + 1) * cell, tn, td, a, b);
    } else {
        assert(rx * td + tn * dx == rx * td) by (nonlinear_arith)
            requires
                dx == 0,
        ;
        assert((ox + gx * cell) * b <= rx * b && rx * b <= (ox + (gx + 1) * cell) * b)
            by (nonlinear_arith)
            requires
                td > 0 && b > 0 && (ox + gx * cell) * td <= rx * td && rx * td <= (ox + (gx + 1)
                    * cell) * td,
        ;
    }
    if dy > 0 {
        assert((ry + ny) * b == (oy + (gy + 1) * cell) * b);
        assert(ry * b + a * dy <= (oy + (gy + 1) * cell) * b) by (nonlinear_arith)
            requires
                a * dy <= ny * b && (ry + ny) * b == (oy + (gy + 1) * cell) * b,
        ;
        lemma_coord_monotone(ry, dy, oy + gy * cell, tn, td, a, b);
    } else if dy < 0 {
        assert((ry - ny) * b == (oy + gy * cell) * b);
        assert((oy + gy * cell) * b <= ry * b + a * dy) by (nonlinear_arith)
            requires
                a * (-dy) <= ny * b && (ry - ny) * b == (oy + gy * cell) * b,
        ;
        lemma_coord_monotone(ry, dy, oy + (gy + 1) * cell, tn, td, a, b);
    } else {
        assert(ry * td + tn * dy == ry * td) by (nonlinear_arith)
            requires
                dy == 0,
        ;
        assert((oy + gy * cell) * b <= ry * b && ry * b <= (oy + (gy + 1) * cell) * b)
            by (nonlinear_arith)
            requires
                td > 0 && b > 0 && (oy + gy * cell) * td <= ry * td && ry * td <= (oy + (gy + 1)
                    * cell) * td,
        ;
    }
}

/// The traversal's soundness: once the interior witness parameter
/// `a / b` lies at or past the current cell's entry, the traversal
/// reports a wall at a parameter no greater than `a / b`. Between entry
/// and the next crossing the ray stays inside the current (air) cell, so
/// the witness cell cannot be passed over.
proof fn lemma_dda_no_tunnel(
    g: Grid,
    ray: Ray,
    gx: int,
    gy: int,
    nx: int,
    ny: int,
    tn: int,
    td: int,
    a: int,
    b: int,
    cx: int,
    cy: int,
)
    requires
        g.wf(),
        dir_ok(ray.dir),
        ray.root.in_range(),
        dda_inv(g, ray, gx, gy, nx, ny, tn, td),
        g.wall_at(cx, cy),
        pt_in_cell_interior(g, ray, a, b, cx, cy),
        tn * b <= a * td,
    ensures
        dda(g, ray.dir, gx, gy, nx, ny, tn, td) matches Some(hit) && hit.2 * b <= a * hit.3 && 0
            < hit.3 <= 2_000_000_000 && -4_000_000_000 <= hit.2 <= 4_000_000_000,
    decreases dda_measure(g, ray.dir, gx, gy),
{
    let ox = g.spec_root().x as int;
    let oy = g.spec_root().y as int;
    let rx = ray.root.x as int;
    let ry = ray.root.y as int;
    let dx = ray.dir.x as int;
    let dy = ray.dir.y as int;
    let cell = g.spec_cell_size();
    let w = g.spec_width();
    let h = g.spec_height();
    let px = rx * b + a * dx;
    let py = ry * b + a * dy;
    crate::grid::lemma_wf_bounds(g);
    if !(0 <= gx < w && 0 <= gy < h) {
        if gx >= w {
            assert(dx > 0);
            lemma_coord_monotone(rx, dx, ox + gx * cell, tn, td, a, b);
            assert(false) by (nonlinear_arith)
                requires
                    gx >= w && cx <= w - 1 && cell > 0 && b > 0 && (ox + gx * cell) * b <= px && px
                        < (ox + cx * cell + cell) * b,
            ;
        } else if gx < 0 {
            assert(dx < 0);
            lemma_coord_monotone(rx, dx, ox + (gx + 1) * cell, tn, td, a, b);
            assert(false) by (nonlinear_arith)
                requires
                    gx <= -1 && cx >= 0 && cell > 0 && b > 0 && px <= (ox + (gx + 1) * cell) * b
                        && (ox + cx * cell) * b < px,
            ;
        } else if gy >= h {
            assert(dy > 0);
            lemma_coord_monotone(ry, dy, oy + gy * cell, tn, td, a, b);
            assert(false) by (nonlinear_arith)
                requires
                    gy >= h && cy <= h - 1 && cell > 0 && b > 0 && (oy + gy * cell) * b <= py && py
                        < (oy + cy * cell + cell) * b,
            ;
        } else {
            assert(gy < 0 && dy < 0);
            lemma_coord_monotone(ry, dy, oy + (gy + 1) * cell, tn, td, a, b);
            assert(false) by (nonlinear_arith)
                requires
                    gy <= -1 && cy >= 0 && cell > 0 && b > 0 && py <= (oy + (gy + 1) * cell) * b
                        && (oy + cy * cell) * b < py,
            ;
        }
    } else if g.cell_at(gx, gy) == GridCell::Wall {
    } else {
        let dxa = abs(dx) as int;
        let dya = abs(dy) as int;
        // the next crossing of the stepped axis is ahead of the entry
        if dx > 0 {
            assert((rx + nx) * td == (ox + (gx + 1) * cell) * td);
            assert(tn * dxa <= nx * td) by (nonlinear_arith)
                requires
                    dx == dxa && rx * td + tn * dx <= (ox + (gx + 1) * cell) * td && (rx + nx) * td
                        == (ox + (gx + 1) * cell) * td,
            ;
        } else if dx < 0 {
            assert((rx - nx) * td == (ox + gx * cell) * td);
            assert(tn * dxa <= nx * td) by (nonlinear_arith)
                requires
                    dx == -dxa && (ox + gx * cell) * td <= rx * td + tn * dx && (rx - nx) * td == (
                    ox + gx * cell) * td,
            ;
        }
        if dy > 0 {
            assert((ry + ny) * td == (oy + (gy + 1) * cell) * td);
            assert(tn * dya <= ny * td) by (nonlinear_arith)
                requires
                    dy == dya && ry * td + tn * dy <= (oy + (gy + 1) * cell) * td && (ry + ny) * td
                        == (oy + (gy + 1) * cell) * td,
            ;
        } else if dy < 0 {
            assert((ry - ny) * td == (oy + gy * cell) * td);
            assert(tn * dya <= ny * td) by (nonlinear_arith)
                requires
                    dy == -dya && (oy + gy * cell) * td <= ry * td + tn * dy && (ry - ny) * td == (
                    oy + gy * cell) * td,
            ;
        }
        if dy == 0 || (dx != 0 && rat_lt(nx, dxa, ny, dya)) {
            assert(dx != 0);
            if a * dxa < nx * b {
                if dy != 0 {
                    assert(a * dya < ny * b) by (nonlinear_arith)
                        requires
                            a * dxa < nx * b && nx * dya < ny * dxa && dxa > 0 && b > 0 && dya > 0,
                    ;
                }
                lemma_point_in_current_cell(g, ray, gx, gy, nx, ny, tn, td, a, b);
                lemma_cells_disjoint(g, px, py, b, gx, gy, cx, cy);
                assert(false);
            }
            let gx2 = gx + (if dx > 0 {
                1int
            } else {
                -1int
            });
            let nx2 = nx + cell;
            let tn2 = nx;
            let td2 = dxa;
            assert(0 < td2 <= 2_000_000_000);
            if dx > 0 {
                assert((gx2 + 1) * cell == (gx + 1) * cell + cell && 0 <= (gx2 + 1) * cell <= w
                    * cell + cell) by (nonlinear_arith)
                    requires
                        gx2 == gx + 1 && 0 <= gx < w && cell > 0,
                ;
                assert(rx * td2 + tn2 * dx == (ox + gx2 * cell) * td2) by (nonlinear_arith)
                    requires
                        dx == dxa && nx == ox + (gx + 1) * cell - rx && gx2 == gx + 1 && td2 == dxa
                            && tn2 == nx,
                ;
                assert((ox + gx2 * cell) * td2 <= rx * td2 + tn2 * dx <= (ox + (gx2 + 1) * cell)
                    * td2) by (nonlinear_arith)
                    requires
                        rx * td2 + tn2 * dx == (ox + gx2 * cell) * td2 && cell > 0 && td2 > 0,
                ;
            } else {
                assert(gx2 * cell == gx * cell - cell && -cell <= gx2 * cell <= w * cell)
                    by (nonlinear_arith)
                    requires
                        gx2 == gx - 1 && 0 <= gx < w && cell > 0,
                ;
                assert(rx * td2 + tn2 * dx == (ox + (gx2 + 1) * cell) * td2) by (nonlinear_arith)
                    requires
                        dx == -dxa && nx == rx - (ox + gx * cell) && gx2 == gx - 1 && td2 == dxa
                            && tn2 == nx,
                ;
                assert((ox + gx2 * cell) * td2 <= rx * td2 + tn2 * dx <= (ox + (gx2 + 1) * cell)
                    * td2) by (nonlinear_arith)
                    requires
                        rx * td2 + tn2 * dx == (ox + (gx2 + 1) * cell) * td2 && cell > 0 && td2
                            > 0,
                ;
            }
            if dy > 0 {
                assert(ry * td2 + tn2 * dy <= (oy + (gy + 1) * cell) * td2) by (nonlinear_arith)
                    requires
                        dy == dya && nx * dya < ny * dxa && td2 == dxa && tn2 == nx && (ry + ny)
                            * dxa == (oy + (gy + 1) * cell) * dxa,
                ;
                lemma_coord_monotone(ry, dy, oy + gy * cell, tn, td, tn2, td2);
            } else if dy < 0 {
                assert((oy + gy * cell) * td2 <= ry * td2 + tn2 * dy) by (nonlinear_arith)
                    requires
                        dy == -dya && nx * dya < ny * dxa && td2 == dxa && tn2 == nx && (ry - ny)
                            * dxa == (oy + gy * cell) * dxa,
                ;
                lemma_coord_monotone(ry, dy, oy + (gy + 1) * cell, tn, td, tn2, td2);
            } else {
                assert(ry * td + tn * dy == ry * td && ry * td2 + tn2 * dy == ry * td2)
                    by (nonlinear_arith)
                    requires
                        dy == 0,
                ;
                assert((oy + gy * cell) * td2 <= ry * td2 && ry * td2 <= (oy + (gy + 1) * cell)
                    * td2) by (nonlinear_arith)
                    requires
                        td > 0 && td2 > 0 && (oy + gy * cell) * td <= ry * td && ry * td <= (oy + (
                        gy + 1) * cell) * td,
                ;
            }
            assert(-4_000_000_000 <= nx2 <= 4_000_000_000) by (nonlinear_arith)
                requires
                    (dx > 0 ==> nx2 == ox + (gx2 + 1) * cell - rx && 0 <= (gx2 + 1) * cell <= w
                        * cell + cell) && (dx < 0 ==> nx2 == rx - (ox + gx2 * cell) && -cell <= gx2
                        * cell <= w * cell) && dx != 0 && 0 < cell <= 100_000 && 0 < w * cell
                        <= 500_000_000 && -1_000_000_000 <= ox <= 1_000_000_000 && -1_000_000_000
                        <= rx <= 1_000_000_000,
            ;
            assert(dda_inv(g, ray, gx2, gy, nx2, ny, tn2, td2));
            lemma_dda_no_tunnel(g, ray, gx2, gy, nx2, ny, tn2, td2, a, b, cx, cy);
        } else {
            assert(dy != 0);
            assert(dx == 0 || ny * dxa <= nx * dya);
            if a * dya < ny * b {
                if dx != 0 {
                    assert(a * dxa < nx * b) by (nonlinear_arith)
                        requires
                            a * dya < ny * b && ny * dxa <= nx * dya && dya > 0 && b > 0 && dxa
                                > 0,
                    ;
                }
                lemma_point_in_current_cell(g, ray, gx, gy, nx, ny, tn, td, a, b);
                lemma_cells_disjoint(g, px, py, b, gx, gy, cx, cy);
                assert(false);
            }
            let gy2 = gy + (if dy > 0 {
                1int
            } else {
                -1int
            });
            let ny2 = ny + cell;
            let tn2 = ny;
            let td2 = dya;
            assert(0 < td2 <= 2_000_000_000);
            if dy > 0 {
                assert((gy2 + 1) * cell == (gy + 1) * cell + cell && 0 <= (gy2 + 1) * cell <= h
                    * cell + cell) by (nonlinear_arith)
                    requires
                        gy2 == gy + 1 && 0 <= gy < h && cell > 0,
                ;
                assert(ry * td2 + tn2 * dy == (oy + gy2 * cell) * td2) by (nonlinear_arith)
                    requires
                        dy == dya && ny == oy + (gy + 1) * cell - ry && gy2 == gy + 1 && td2 == dya
                            && tn2 == ny,
                ;
                assert((oy + gy2 * cell) * td2 <= ry * td2 + tn2 * dy <= (oy + (gy2 + 1) * cell)
                    * td2) by (nonlinear_arith)
                    requires
                        ry * td2 + tn2 * dy == (oy + gy2 * cell) * td2 && cell > 0 && td2 > 0,
                ;
            } else {
                assert(gy2 * cell == gy * cell - cell && -cell <= gy2 * cell <= h * cell)
                    by (nonlinear_arith)
                    requires
                        gy2 == gy - 1 && 0 <= gy < h && cell > 0,
                ;
                assert(ry * td2 + tn2 * dy == (oy + (gy2 + 1) * cell) * td2) by (nonlinear_arith)
                    requires
                        dy == -dya && ny == ry - (oy + gy * cell) && gy2 == gy - 1 && td2 == dya
                            && tn2 == ny,
                ;
                assert((oy + gy2 * cell) * td2 <= ry * td2 + tn2 * dy <= (oy + (gy2 + 1) * cell)
                    * td2) by (nonlinear_arith)
                    requires
                        ry * td2 + tn2 * dy == (oy + (gy2 + 1) * cell) * td2 && cell > 0 && td2
                            > 0,
                ;
            }
            if dx > 0 {
                assert(rx * td2 + tn2 * dx <= (ox + (gx + 1) * cell) * td2) by (nonlinear_arith)
                    requires
                        dx == dxa && ny * dxa <= nx * dya && td2 == dya && tn2 == ny && (rx + nx)
                            * dya == (ox + (gx + 1) * cell) * dya,
                ;
                lemma_coord_monotone(rx, dx, ox + gx * cell, tn, td, tn2, td2);
            } else if dx < 0 {
                assert((ox + gx * cell) * td2 <= rx * td2 + tn2 * dx) by (nonlinear_arith)
                    requires
                        dx == -dxa && ny * dxa <= nx * dya && td2 == dya && tn2 == ny && (rx - nx)
                            * dya == (ox + gx * cell) * dya,
                ;
                lemma_coord_monotone(rx, dx, ox + (gx + 1) * cell, tn, td, tn2, td2);
            } else {
                assert(rx * td + tn * dx == rx * td && rx * td2 + tn2 * dx == rx * td2)
                    by (nonlinear_arith)
                    requires
                        dx == 0,
                ;
                assert((ox + gx * cell) * td2 <= rx * td2 && rx * td2 <= (ox + (gx + 1) * cell)
                    * td2) by (nonlinear_arith)
                    requires
                        td > 0 && td2 > 0 && (ox + gx * cell) * td <= rx * td && rx * td <= (ox + (
                        gx + 1) * cell) * td,
                ;
            }
            assert(-4_000_000_000 <= ny2 <= 4_000_000_000) by (nonlinear_arith)
                requires
                    (dy > 0 ==> ny2 == oy + (gy2 + 1) * cell - ry && 0 <= (gy2 + 1) * cell <= h
                        * cell + cell) && (dy < 0 ==> ny2 == ry - (oy + gy2 * cell) && -cell <= gy2
                        * cell <= h * cell) && dy != 0 && 0 < cell <= 100_000 && 0 < h * cell
                        <= 500_000_000 && -1_000_000_000 <= oy <= 1_000_000_000 && -1_000_000_000
                        <= ry <= 1_000_000_000,
            ;
            assert(dda_inv(g, ray, gx, gy2, nx, ny2, tn2, td2));
            lemma_dda_no_tunnel(g, ray, gx, gy2, nx, ny2, tn2, td2, a, b, cx, cy);
        }
    }
}

/// The raycaster never tunnels. If the ray's point at any non-negative
/// parameter lies strictly inside some wall cell, then a hit is reported,
/// at a parameter no greater than that one: the reported hit distance is
/// never greater than the true distance to the first blocked cell the
/// ray passes through.
#[verifier::rlimit(100)]
pub proof fn lemma_raycast_no_tunnel(g: Grid, ray: Ray, a: int, b: int, cx: int, cy: int)
    requires
        g.wf(),
        dir_ok(ray.dir),
        ray.root.in_range(),
        !(ray.dir.x == 0 && ray.dir.y == 0),
        a >= 0,
        b > 0,
        g.wall_at(cx, cy),
        pt_in_cell_interior(g, ray, a, b, cx, cy),
    ensures
        spec_raycast(g, ray) matches Some(h) && h.t_num * b <= a * h.t_den && h.t_den > 0,
{
    crate::grid::lemma_wf_bounds(g);
    let ox = g.spec_root().x as int;
    let oy = g.spec_root().y as int;
    let rx = ray.root.x as int;
    let ry = ray.root.y as int;
    let dx = ray.dir.x as int;
    let dy = ray.dir.y as int;
    let cell = g.spec_cell_size();
    let w = g.spec_width();
    let h = g.spec_height();
    let mnx = ox;
    let mny = oy;
    let mxx = ox + w * cell;
    let mxy = oy + h * cell;
    let px = rx * b + a * dx;
    let py = ry * b + a * dy;

    // the witness point lies strictly inside the grid's bounding box
    assert(mnx * b < px && px < mxx * b && mny * b < py && py < mxy * b) by (nonlinear_arith)
        requires
            0 <= cx < w && 0 <= cy < h && cell > 0 && b > 0 && (ox + cx * cell) * b < px && px < (
            ox + cx * cell + cell) * b && (oy + cy * cell) * b < py && py < (oy + cy * cell + cell)
                * b && mnx == ox && mxx == ox + w * cell && mny == oy && mxy == oy + h * cell,
    ;

    // mirror the slab computation and place the witness parameter between
    // the box entry and exit on every constrained axis
    let exn = if dx > 0 { mnx - rx } else { rx - mxx };
    let exd = if dx > 0 { dx } else { -dx };
    let eyn = if dy > 0 { mny - ry } else { ry - mxy };
    let eyd = if dy > 0 { dy } else { -dy };
    let xxn = if dx > 0 { mxx - rx } else { rx - mnx };
    let xyn = if dy > 0 { mxy - ry } else { ry - mny };
    if dx == 0 {
        assert(mnx <= rx <= mxx) by (nonlinear_arith)
            requires
                dx == 0 && b > 0 && mnx * b < px && px < mxx * b && px == rx * b + a * dx,
        ;
    } else {
        assert(exn * b < a * exd && a * exd < xxn * b) by (nonlinear_arith)
            requires
                dx != 0 && b > 0 && mnx * b < px && px < mxx * b && px == rx * b + a * dx && (dx > 0
                    ==> exn == mnx - rx && exd == dx && xxn == mxx - rx) && (dx < 0 ==> exn == rx
                    - mxx && exd == -dx && xxn == rx - mnx),
        ;
    }
    if dy == 0 {
        assert(mny <= ry <= mxy) by (nonlinear_arith)
            requires
                dy == 0 && b > 0 && mny * b < py && py < mxy * b && py == ry * b + a * dy,
        ;
    } else {
        assert(eyn * b < a * eyd && a * eyd < xyn * b) by (nonlinear_arith)
            requires
                dy != 0 && b > 0 && mny * b < py && py < mxy * b && py == ry * b + a * dy && (dy > 0
                    ==> eyn == mny - ry && eyd == dy && xyn == mxy - ry) && (dy < 0 ==> eyn == ry
                    - mxy && eyd == -dy && xyn == ry - mny),
        ;
    }

    let take_x = dx != 0 && rat_lt(0, 1, exn, exd);
    let bn1: int = if take_x { exn } else { 0 };
    let bd1: int = if take_x { exd } else { 1 };
    let take_y = dy != 0 && rat_lt(bn1, bd1, eyn, eyd);
    let bn: int = if take_y { eyn } else { bn1 };
    let bd: int = if take_y { eyd } else { bd1 };
    let xn: int = if dx == 0 { xyn } else if dy == 0 { xxn } else if rat_lt(xyn, eyd, xxn, exd) { xyn } else { xxn };
    let xd: int = if dx == 0 { eyd } else if dy == 0 { exd } else if rat_lt(xyn, eyd, xxn, exd) { eyd } else { exd };

    // the witness parameter is at or past the chosen entry ...
    assert(bn * b <= a * bd) by (nonlinear_arith)
        requires
            a >= 0 && b > 0 && (take_x ==> bn1 == exn && bd1 == exd) && (!take_x ==> bn1 == 0 && bd1 == 1)
                && (take_y ==> bn == eyn && bd == eyd) && (!take_y ==> bn == bn1 && bd == bd1) && (dx != 0
                ==> exn * b < a * exd && exd > 0) && (dy != 0 ==> eyn * b < a * eyd && eyd > 0) && (take_y
                ==> dy != 0) && (take_x ==> dx != 0),
    ;
    // ... and strictly before the chosen exit
    assert(a * xd < xn * b && xd > 0) by (nonlinear_arith)
        requires
            b > 0 && (dx == 0 ==> xn == xyn && xd == eyd && dy != 0) && (dx != 0 && dy == 0 ==> xn == xxn
                && xd == exd) && (dx != 0 && dy != 0 ==> (xn == xyn && xd == eyd) || (xn == xxn && xd
                == exd)) && (dx != 0 ==> a * exd < xxn * b && exd > 0) && (dy != 0 ==> a * eyd < xyn * b
                && eyd > 0),
    ;
    // hence the slab test accepts
    assert(rat_le(bn, bd, xn, xd)) by (nonlinear_arith)
        requires
            b > 0 && bd > 0 && xd > 0 && bn * b <= a * bd && a * xd < xn * b,
    ;
    let s = slab_entry(rx, ry, dx, dy, mnx, mny, mxx, mxy);
    assert(s == Some((bn, bd)));
    let en = bn;
    let ed = bd;
    assert(0 <= en <= 2_000_000_000 && 0 < ed <= 2_000_000_000) by (nonlinear_arith)
        requires
            en == bn && ed == bd && (take_x ==> bn1 == exn && bd1 == exd && 0 * exd < exn * 1) && (!take_x
                ==> bn1 == 0 && bd1 == 1) && (take_y ==> bn == eyn && bd == eyd && bn1 * eyd < eyn * bd1)
                && (!take_y ==> bn == bn1 && bd == bd1) && (dx != 0 ==> 0 < exd <= 2_000_000_000) && (dy
                != 0 ==> 0 < eyd <= 2_000_000_000) && (take_x ==> dx != 0) && (take_y ==> dy != 0) && bd1
                > 0 && exn <= 2_000_000_000 && eyn <= 2_000_000_000,
    ;
    // the chosen entry dominates each per-axis entry and precedes each
    // per-axis exit
    if dx != 0 {
        assert(exn * bd <= en * exd) by (nonlinear_arith)
            requires
                en == bn && ed == bd && (take_x ==> bn1 == exn && bd1 == exd) && (!take_x ==> bn1 == 0
                    && bd1 == 1 && exn * 1 <= 0 * exd) && (take_y ==> bn == eyn && bd == eyd && bn1 * eyd
                    < eyn * bd1) && (!take_y ==> bn == bn1 && bd == bd1) && bd1 > 0 && exd > 0 && bd > 0,
        ;
        assert(en * exd <= xxn * bd) by (nonlinear_arith)
            requires
                en == bn && ed == bd && bn * xd <= xn * bd && ((xn == xxn && xd == exd) || (dy != 0 && xn
                    == xyn && xd == eyd && xyn * exd < xxn * eyd)) && exd > 0 && bd > 0 && (dy != 0
                    ==> eyd > 0),
        ;
    }
    if dy != 0 {
        assert(eyn * bd <= en * eyd) by (nonlinear_arith)
            requires
                en == bn && ed == bd && (take_y ==> bn == eyn && bd == eyd) && (!take_y ==> bn == bn1
                    && bd == bd1 && eyn * bd1 <= bn1 * eyd) && bd1 > 0 && eyd > 0 && bd > 0,
        ;
        assert(en * eyd <= xyn * bd) by (nonlinear_arith)
            requires
                en == bn && ed == bd && bn * xd <= xn * bd && ((xn == xyn && xd == eyd) || (dx != 0 && xn
                    == xxn && xd == exd && xxn * eyd <= xyn * exd)) && eyd > 0 && bd > 0 && (dx != 0
                    ==> exd > 0),
        ;
    }

    // the entry parameter stays at or before the witness on every axis,
    // so the box entry point lies within the box on both axes
    let epx = rx * ed + en * dx;
    let epy = ry * ed + en * dy;
    assert(mnx * ed <= epx <= mxx * ed) by (nonlinear_arith)
        requires
            ed > 0 && (dx == 0 ==> mnx <= rx <= mxx && epx == rx * ed + en * dx) && (dx != 0 ==> epx == rx
                * ed + en * dx && exd > 0 && (dx > 0 ==> exn == mnx - rx && exd == dx && xxn == mxx - rx)
                && (dx < 0 ==> exn == rx - mxx && exd == -dx && xxn == rx - mnx) && exn * bd <= en * exd
                && en * exd <= xxn * bd && ed == bd),
    ;
    assert(mny * ed <= epy <= mxy * ed) by (nonlinear_arith)
        requires
            ed > 0 && (dy == 0 ==> mny <= ry <= mxy && epy == ry * ed + en * dy) && (dy != 0 ==> epy == ry
                * ed + en * dy && eyd > 0 && (dy > 0 ==> eyn == mny - ry && eyd == dy && xyn == mxy - ry)
                && (dy < 0 ==> eyn == ry - mxy && eyd == -dy && xyn == ry - mny) && eyn * bd <= en * eyd
                && en * eyd <= xyn * bd && ed == bd),
    ;

    let init = dda_init(g, ray, en, ed);
    let lx = epx - ox * ed;
    let ly = epy - oy * ed;
    assert(0 <= lx <= w * cell * ed && 0 <= ly <= h * cell * ed) by (nonlinear_arith)
        requires
            lx == epx - ox * ed && ly == epy - oy * ed && mnx * ed <= epx <= mxx * ed && mny * ed <= epy
                <= mxy * ed && mnx == ox && mny == oy && mxx == ox + w * cell && mxy == oy + h * cell
                && ed > 0,
    ;
    let fx = lx / (ed * cell);
    let fy = ly / (ed * cell);
    assert(ed * cell > 0) by (nonlinear_arith)
        requires
            ed > 0 && cell > 0,
    ;
    vstd::arithmetic::div_mod::lemma_div_pos_is_pos(lx, ed * cell);
    vstd::arithmetic::div_mod::lemma_div_pos_is_pos(ly, ed * cell);
    vstd::arithmetic::div_mod::lemma_fundamental_div_mod(lx, ed * cell);
    vstd::arithmetic::div_mod::lemma_fundamental_div_mod(ly, ed * cell);
    assert(fx <= w && fy <= h) by (nonlinear_arith)
        requires
            lx == (ed * cell) * fx + lx % (ed * cell) && 0 <= lx % (ed * cell) && ly == (ed * cell) * fy
                + ly % (ed * cell) && 0 <= ly % (ed * cell) && lx <= w * cell * ed && ly <= h * cell * ed
                && ed * cell > 0,
    ;
    let gx0 = clamp_int(fx, 0, w - 1);
    let gy0 = clamp_int(fy, 0, h - 1);
    assert(init.0 == gx0 && init.1 == gy0);
    assert((ox + gx0 * cell) * ed <= epx <= (ox + (gx0 + 1) * cell) * ed) by (nonlinear_arith)
        requires
            gx0 == clamp_int(fx, 0, w - 1) && 0 <= fx <= w && w >= 1 && lx == (ed * cell) * fx + lx % (ed
                * cell) && 0 <= lx % (ed * cell) < ed * cell && lx <= w * cell * ed && lx == epx - ox
                * ed && ed > 0 && cell > 0 && (fx <= w - 1 ==> gx0 == fx) && (fx == w ==> gx0 == w - 1),
    ;
    assert((oy + gy0 * cell) * ed <= epy <= (oy + (gy0 + 1) * cell) * ed) by (nonlinear_arith)
        requires
            gy0 == clamp_int(fy, 0, h - 1) && 0 <= fy <= h && h >= 1 && ly == (ed * cell) * fy + ly % (ed
                * cell) && 0 <= ly % (ed * cell) < ed * cell && ly <= h * cell * ed && ly == epy - oy
                * ed && ed > 0 && cell > 0 && (fy <= h - 1 ==> gy0 == fy) && (fy == h ==> gy0 == h - 1),
    ;
    assert(-4_000_000_000 <= init.2 <= 4_000_000_000 && -4_000_000_000 <= init.3 <= 4_000_000_000)
        by (nonlinear_arith)
        requires
            (dx > 0 ==> init.2 == ox + (gx0 + 1) * cell - rx) && (dx < 0 ==> init.2 == rx - (ox + gx0
                * cell)) && (dx == 0 ==> init.2 == 0) && (dy > 0 ==> init.3 == oy + (gy0 + 1) * cell - ry)
                && (dy < 0 ==> init.3 == ry - (oy + gy0 * cell)) && (dy == 0 ==> init.3 == 0) && 0 <= gx0
                <= w - 1 && 0 <= gy0 <= h - 1 && 0 < cell <= 100_000 && 0 < w * cell <= 500_000_000 && 0
                < h * cell <= 500_000_000 && -1_000_000_000 <= ox <= 1_000_000_000 && -1_000_000_000 <= oy
                <= 1_000_000_000 && -1_000_000_000 <= rx <= 1_000_000_000 && -1_000_000_000 <= ry
                <= 1_000_000_000 && 1 <= w <= 4096 && 1 <= h <= 4096,
    ;
    assert(dda_inv(g, ray, init.0, init.1, init.2, init.3, en, ed));
    lemma_dda_no_tunnel(g, ray, init.0, init.1, init.2, init.3, en, ed, a, b, cx, cy);
}

/// For a horizontal ray the traversal scans its row cell by cell, so the
/// reported cell is the first wall of the row in the ray's direction and
/// every cell passed over is air.
proof fn lemma_dda_axis_first(
    g: Grid,
    dir: Vec2i,
    gx: int,
    gy: int,
    nx: int,
    ny: int,
    tn: int,
    td: int,
)
    requires
        dir.y == 0,
        dir.x != 0,
        dir.x > 0 ==> gx >= 0,
        dir.x < 0 ==> gx < g.spec_width(),
    ensures
        match dda(g, dir, gx, gy, nx, ny, tn, td) {
            Some(h) => h.1 == gy && g.wall_at(h.0, h.1) && (dir.x > 0 ==> gx <= h.0 && (forall|
                x: int,
            | gx <= x < h.0 ==> !g.wall_at(x, gy))) && (dir.x < 0 ==> h.0 <= gx && (forall|x: int|
                h.0 < x <= gx ==> !g.wall_at(x, gy))),
            None => (dir.x > 0 ==> (forall|x: int|
                gx <= x < g.spec_width() ==> !g.wall_at(x, gy))) && (dir.x < 0 ==> (forall|x: int|
                0 <= x <= gx ==> !g.wall_at(x, gy))),
        },
    decreases dda_measure(g, dir, gx, gy),
{
    if !(0 <= gx < g.spec_width() && 0 <= gy < g.spec_height()) {
    } else if g.cell_at(gx, gy) == GridCell::Wall {
    } else {
        lemma_dda_axis_first(
            g,
            dir,
            gx + (if dir.x > 0 {
                1int
            } else {
                -1int
            }),
            gy,
            nx + g.spec_cell_size(),
            ny,
            nx,
            (abs(dir.x as int) as int),
        );
    }
}

/// A horizontal ray from inside the grid strikes exactly the nearest wall
/// cell of its row: the reported cell is a wall, every row cell between
/// the start and the hit is air, and when nothing is reported the row has
/// no wall at all in the ray's direction. The reported distance therefore
/// never exceeds the true distance to the first blocked cell.
pub proof fn lemma_raycast_horizontal_first_wall(g: Grid, ray: Ray)
    requires
        g.wf(),
        dir_ok(ray.dir),
        ray.dir.y == 0,
        ray.dir.x != 0,
        ray.root.in_range(),
        g.spec_root().x <= ray.root.x < g.spec_root().x + g.spec_width() * g.spec_cell_size(),
        g.spec_root().y <= ray.root.y < g.spec_root().y + g.spec_height() * g.spec_cell_size(),
    ensures
        ({
            let cellx = (ray.root.x - g.spec_root().x) / g.spec_cell_size();
            let celly = (ray.root.y - g.spec_root().y) / g.spec_cell_size();
            match spec_raycast(g, ray) {
                Some(h) => h.cell_y == celly && g.wall_at(h.cell_x as int, celly) && (ray.dir.x > 0
                    ==> cellx <= h.cell_x as int && (forall|x: int|
                    cellx <= x < (h.cell_x as int) ==> !g.wall_at(x, celly))) && (ray.dir.x < 0
                    ==> h.cell_x as int <= cellx && (forall|x: int|
                    (h.cell_x as int) < x <= cellx ==> !g.wall_at(x, celly))),
                None => (ray.dir.x > 0 ==> (forall|x: int|
                    cellx <= x < g.spec_width() ==> !g.wall_at(x, celly))) && (ray.dir.x < 0 ==> (
                forall|x: int| 0 <= x <= cellx ==> !g.wall_at(x, celly))),
            }
        }),
{
    crate::grid::lemma_wf_bounds(g);
    let mnx = g.spec_root().x as int;
    let mny = g.spec_root().y as int;
    let w = g.spec_width();
    let h = g.spec_height();
    let cell = g.spec_cell_size();
    let mxx = mnx + w * cell;
    let mxy = mny + h * cell;
    let rx = ray.root.x as int;
    let ry = ray.root.y as int;
    let s = slab_entry(rx, ry, ray.dir.x as int, ray.dir.y as int, mnx, mny, mxx, mxy);
    assert(s == Some((0int, 1int)));
    let cellx = (rx - mnx) / cell;
    let celly = (ry - mny) / cell;
    assert(0 <= cellx < w && 0 <= celly < h) by (nonlinear_arith)
        requires
            cellx == (rx - mnx) / cell && celly == (ry - mny) / cell && 0 <= rx - mnx < w * cell
                && 0 <= ry - mny < h * cell && cell > 0,
    ;
    let init = dda_init(g, ray, 0, 1);
    assert(init.0 == cellx && init.1 == celly);
    lemma_dda_axis_first(g, ray.dir, init.0, init.1, init.2, init.3, 0, 1);
}

/// The public facts about `spec_raycast`: a reported hit names a wall cell
/// inside the grid with a positive parameter denominator, and a grid with
/// no walls yields no hit for any ray.
pub proof fn lemma_raycast_props(g: Grid, ray: Ray)
    requires
        g.wf(),
        dir_ok(ray.dir),
    ensures
        spec_raycast(g, ray) matches Some(h) ==> g.wall_at(h.cell_x as int, h.cell_y as int)
            && h.t_den > 0,
        g.all_air() ==> spec_raycast(g, ray) is None,
{
    crate::grid::lemma_wf_bounds(g);
    if ray.dir.x == 0 && ray.dir.y == 0 {
    } else {
        let mnx = g.spec_root().x as int;
        let mny = g.spec_root().y as int;
        let mxx = mnx + g.spec_width() * g.spec_cell_size();
        let mxy = mny + g.spec_height() * g.spec_cell_size();
        let s = slab_entry(
            ray.root.x as int,
            ray.root.y as int,
            ray.dir.x as int,
            ray.dir.y as int,
            mnx,
            mny,
            mxx,
            mxy,
        );
        match s {
            None => {},
            Some((en, ed)) => {
                assert(0 < ed <= 2_000_000_000);
                let init = dda_init(g, ray, en, ed);
                lemma_dda_props(g, ray.dir, init.0, init.1, init.2, init.3, en, ed);
                if g.all_air() {
                    lemma_dda_all_air(g, ray.dir, init.0, init.1, init.2, init.3, en, ed);
                }
            },
        }
    }
}

} // verus!
