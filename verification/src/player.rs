//! The player state: camera position, view direction, camera plane and the
//! per-frame derived speeds, together with the collision-aware update that
//! feeds the next frame's rays.

use vstd::prelude::*;

verus! {

use crate::fixed::FP;
use crate::fixed::fp_mul;
use crate::fixed::lemma_trunc_div_fp_bound;
use crate::fixed::mul_fp;
use crate::fixed::trunc_div_fp;
use crate::grid::Grid;
use crate::grid::on_border;
use crate::input::Intents;
use vstd::arithmetic::div_mod::lemma_fundamental_div_mod;
use vstd::arithmetic::div_mod::lemma_mod_bound;

/// The camera pose and per-frame speeds, in fixed-point map-cell units.
#[derive(PartialEq, Eq, Structural, Clone, Copy, Debug)]
pub struct PositionalData {
    pub pos_x: i64,
    pub pos_y: i64,
    pub dir_x: i64,
    pub dir_y: i64,
    pub plane_x: i64,
    pub plane_y: i64,
    pub move_speed: i64,
    pub rotation_speed: i64,
}

impl PositionalData {
    /// Direction and camera-plane vectors each have magnitude at most one
    /// cell unit.
    pub open spec fn vectors_ok(&self) -> bool {
        &&& self.dir_x * self.dir_x + self.dir_y * self.dir_y <= (FP as int) * (FP as int)
        &&& self.plane_x * self.plane_x + self.plane_y * self.plane_y
            <= (FP as int) * (FP as int)
    }

    /// The camera stands inside the map, in an open cell.
    pub open spec fn in_open_cell(&self, grid: &Grid) -> bool {
        &&& 0 <= self.pos_x < grid.spec_width() * (FP as int)
        &&& 0 <= self.pos_y < grid.spec_height() * (FP as int)
        &&& grid.cell(self.pos_x as int / (FP as int), self.pos_y as int / (FP as int)) == 0
    }

    /// The speed one move actually applies: the frame's `move_speed`, capped
    /// at one whole cell, so a single move cannot tunnel through the wall
    /// its collision check looks at.
    pub open spec fn capped_speed(&self) -> int {
        if self.move_speed > FP {
            FP as int
        } else {
            self.move_speed as int
        }
    }

    /// The signed fixed-point step along x for one move at the current speed.
    pub open spec fn step_dx(&self) -> int {
        fp_mul(self.dir_x as int, self.capped_speed())
    }

    /// The signed fixed-point step along y for one move at the current speed.
    pub open spec fn step_dy(&self) -> int {
        fp_mul(self.dir_y as int, self.capped_speed())
    }
}

impl Default for PositionalData {
    /// The fixed starting pose: position (22.0, 11.5), direction (-1, 0),
    /// camera plane (0, 0.66), no motion yet.
    fn default() -> (r: Self)
        ensures
            r.pos_x == 22 * FP,
            r.pos_y == 11 * FP + FP / 2,
            r.dir_x == -FP,
            r.dir_y == 0,
            r.plane_x == 0,
            r.plane_y == 43253,
            r.move_speed == 0,
            r.rotation_speed == 0,
            r.vectors_ok(),
    {
        PositionalData {
            pos_x: 22 * FP,
            pos_y: 11 * FP + FP / 2,
            dir_x: -FP,
            dir_y: 0,
            plane_x: 0,
            plane_y: 43253,
            move_speed: 0,
            rotation_speed: 0,
        }
    }
}

/// One collision-checked move along the view direction (backward negates the
/// step). The x candidate is applied only if its target cell, at the current
/// y, is open; the y candidate is then checked against the possibly-updated
/// x. This per-axis independence is what lets the player slide along walls.
pub open spec fn move_spec(p: PositionalData, grid: &Grid, forward: bool) -> PositionalData {
    let f = FP as int;
    let dx = if forward { p.step_dx() } else { -p.step_dx() };
    let dy = if forward { p.step_dy() } else { -p.step_dy() };
    let x1 = if grid.cell((p.pos_x + dx) / f, p.pos_y as int / f) == 0 {
        (p.pos_x + dx) as i64
    } else {
        p.pos_x
    };
    let y1 = if grid.cell(x1 as int / f, (p.pos_y + dy) / f) == 0 {
        (p.pos_y + dy) as i64
    } else {
        p.pos_y
    };
    PositionalData { pos_x: x1, pos_y: y1, ..p }
}

/// Rotation of direction and plane by the angle whose cosine and sine are
/// `c / FP` and `s / FP`: each component is the exact rotated value divided
/// by `FP` and truncated toward zero.
pub open spec fn rotate_spec(p: PositionalData, c: int, s: int) -> PositionalData {
    PositionalData {
        dir_x: trunc_div_fp(p.dir_x * c - p.dir_y * s) as i64,
        dir_y: trunc_div_fp(p.dir_x * s + p.dir_y * c) as i64,
        plane_x: trunc_div_fp(p.plane_x * c - p.plane_y * s) as i64,
        plane_y: trunc_div_fp(p.plane_x * s + p.plane_y * c) as i64,
        ..p
    }
}

/// The full per-frame update: derive the speeds from the elapsed time, then
/// apply the intents in the fixed order forward, backward, rotate right,
/// rotate left. A right rotation turns by the negated angle.
pub open spec fn update_spec(
    p: PositionalData,
    grid: &Grid,
    intents: Intents,
    elapsed: int,
    c: int,
    s: int,
) -> PositionalData {
    let p0 = PositionalData {
        move_speed: (5 * elapsed) as i64,
        rotation_speed: (3 * elapsed) as i64,
        ..p
    };
    let p1 = if intents.forward {
        move_spec(p0, grid, true)
    } else {
        p0
    };
    let p2 = if intents.backward {
        move_spec(p1, grid, false)
    } else {
        p1
    };
    let p3 = if intents.rotate_right {
        rotate_spec(p2, c, -s)
    } else {
        p2
    };
    if intents.rotate_left {
        rotate_spec(p3, c, s)
    } else {
        p3
    }
}

impl PositionalData {
    /// Applies one frame's intents. `elapsed` is the frame time in
    /// fixed-point seconds (any length up to a day; the per-move step is
    /// capped at one cell inside, see [`PositionalData::capped_speed`]);
    /// `rot_cos` and `rot_sin` give the rotation angle derived from that
    /// frame time as a vector no longer than one unit.
    pub fn update(
        &mut self,
        grid: &Grid,
        intents: Intents,
        elapsed: i64,
        rot_cos: i64,
        rot_sin: i64,
    )
        requires
            grid.wf(),
            old(self).vectors_ok(),
            old(self).in_open_cell(grid),
            0 <= elapsed <= 86400 * FP,
            rot_cos * rot_cos + rot_sin * rot_sin <= (FP as int) * (FP as int),
        ensures
            *final(self) == update_spec(
                *old(self),
                grid,
                intents,
                elapsed as int,
                rot_cos as int,
                rot_sin as int,
            ),
            final(self).vectors_ok(),
            final(self).in_open_cell(grid),
    {
        self.move_speed = 5 * elapsed;
        self.rotation_speed = 3 * elapsed;
        if intents.forward {
            self.move_along(grid, true);
        }
        if intents.backward {
            self.move_along(grid, false);
        }
        if intents.rotate_right {
            proof {
                lemma_component_bound(rot_cos as int, rot_sin as int);
                let cc = rot_cos as int;
                let ss = rot_sin as int;
                assert(cc * cc + (-ss) * (-ss) <= (FP as int) * (FP as int)) by (nonlinear_arith)
                    requires
                        cc * cc + ss * ss <= (FP as int) * (FP as int),
                {}
            }
            self.rotate_by(rot_cos, -rot_sin);
        }
        if intents.rotate_left {
            self.rotate_by(rot_cos, rot_sin);
        }
    }

    /// One collision-checked move along the view direction; see [`move_spec`].
    fn move_along(&mut self, grid: &Grid, forward: bool)
        requires
            grid.wf(),
            old(self).vectors_ok(),
            old(self).in_open_cell(grid),
            0 <= old(self).move_speed,
        ensures
            *final(self) == move_spec(*old(self), grid, forward),
            final(self).in_open_cell(grid),
    {
        let w = grid.width();
        let h = grid.height();
        let speed: i64 = if self.move_speed > FP {
            FP
        } else {
            self.move_speed
        };
        proof {
            lemma_component_bound(self.dir_x as int, self.dir_y as int);
            lemma_prod_bound(self.dir_x as int, speed as int);
            lemma_prod_bound(self.dir_y as int, speed as int);
            lemma_fp_mul_unit_bound(self.dir_x as int, speed as int);
            lemma_fp_mul_unit_bound(self.dir_y as int, speed as int);
            lemma_open_cell_interior(grid, self.pos_x as int, self.pos_y as int);
        }
        let dx0 = mul_fp(self.dir_x, speed);
        let dy0 = mul_fp(self.dir_y, speed);
        let dx = if forward { dx0 } else { -dx0 };
        let dy = if forward { dy0 } else { -dy0 };

        let cand_x = self.pos_x + dx;
        let cx: usize = (cand_x / FP) as usize;
        let cy: usize = (self.pos_y / FP) as usize;
        proof {
            lemma_cell_index_range(cand_x as int, grid.spec_width());
            lemma_cell_index_range(self.pos_y as int, grid.spec_height());
        }
        if grid.cell_at(cx, cy) == 0 {
            self.pos_x = cand_x;
        }

        proof {
            lemma_open_cell_interior(grid, self.pos_x as int, self.pos_y as int);
        }
        let cand_y = self.pos_y + dy;
        let cx2: usize = (self.pos_x / FP) as usize;
        let cy2: usize = (cand_y / FP) as usize;
        proof {
            lemma_cell_index_range(self.pos_x as int, grid.spec_width());
            lemma_cell_index_range(cand_y as int, grid.spec_height());
        }
        if grid.cell_at(cx2, cy2) == 0 {
            self.pos_y = cand_y;
        }
    }

    /// Rotates direction and plane together; see [`rotate_spec`].
    fn rotate_by(&mut self, c: i64, s: i64)
        requires
            old(self).vectors_ok(),
            c * c + s * s <= (FP as int) * (FP as int),
        ensures
            *final(self) == rotate_spec(*old(self), c as int, s as int),
            final(self).vectors_ok(),
            final(self).pos_x == old(self).pos_x,
            final(self).pos_y == old(self).pos_y,
    {
        proof {
            lemma_component_bound(c as int, s as int);
            lemma_component_bound(self.dir_x as int, self.dir_y as int);
            lemma_component_bound(self.plane_x as int, self.plane_y as int);
            lemma_prod_bound(self.dir_x as int, c as int);
            lemma_prod_bound(self.dir_y as int, s as int);
            lemma_prod_bound(self.dir_x as int, s as int);
            lemma_prod_bound(self.dir_y as int, c as int);
            lemma_prod_bound(self.plane_x as int, c as int);
            lemma_prod_bound(self.plane_y as int, s as int);
            lemma_prod_bound(self.plane_x as int, s as int);
            lemma_prod_bound(self.plane_y as int, c as int);
            lemma_trunc_div_fp_bound(self.dir_x * c - self.dir_y * s);
            lemma_trunc_div_fp_bound(self.dir_x * s + self.dir_y * c);
            lemma_trunc_div_fp_bound(self.plane_x * c - self.plane_y * s);
            lemma_trunc_div_fp_bound(self.plane_x * s + self.plane_y * c);
            lemma_rotate_norm_bound(self.dir_x as int, self.dir_y as int, c as int, s as int);
            lemma_rotate_norm_bound(self.plane_x as int, self.plane_y as int, c as int, s as int);
        }
        let ndx = (self.dir_x * c - self.dir_y * s) / FP;
        let ndy = (self.dir_x * s + self.dir_y * c) / FP;
        let npx = (self.plane_x * c - self.plane_y * s) / FP;
        let npy = (self.plane_x * s + self.plane_y * c) / FP;
        self.dir_x = ndx;
        self.dir_y = ndy;
        self.plane_x = npx;
        self.plane_y = npy;
    }
}

/// A vector of squared magnitude at most `FP^2` has both components in
/// `[-FP, FP]`.
pub proof fn lemma_component_bound(x: int, y: int)
    by (nonlinear_arith)
    requires
        x * x + y * y <= (FP as int) * (FP as int),
    ensures
        -(FP as int) <= x <= FP as int,
        -(FP as int) <= y <= FP as int,
{
}

/// The product of two values in `[-FP, FP]` fits well inside an `i64`.
pub proof fn lemma_prod_bound(a: int, b: int)
    by (nonlinear_arith)
    requires
        -(FP as int) <= a <= FP as int,
        -(FP as int) <= b <= FP as int,
    ensures
        -((FP as int) * (FP as int)) <= a * b <= (FP as int) * (FP as int),
{
}

/// A fixed-point product of two values no larger than one unit is itself no
/// larger than one unit.
proof fn lemma_fp_mul_unit_bound(a: int, b: int)
    requires
        -((FP as int) * (FP as int)) <= a * b <= (FP as int) * (FP as int),
    ensures
        -(FP as int) <= fp_mul(a, b) <= FP as int,
{
    lemma_trunc_div_fp_bound(a * b);
}

/// A fixed-point coordinate within the map spans cell indices `0` to
/// `width - 1`.
proof fn lemma_cell_index_range(v: int, extent: int)
    requires
        0 <= v < extent * (FP as int),
        0 < extent,
    ensures
        0 <= v / (FP as int) < extent,
{
    let f = FP as int;
    lemma_fundamental_div_mod(v, f);
    lemma_mod_bound(v, f);
    assert(0 <= v / f < extent) by (nonlinear_arith)
        requires
            v == f * (v / f) + v % f,
            0 <= v % f < f,
            0 <= v < extent * f,
            0 < f,
    {}
}

/// A position in an open cell of a bordered grid stands at least one full
/// cell away from the map's outer edge.
pub proof fn lemma_open_cell_interior(grid: &Grid, px: int, py: int)
    requires
        grid.wf(),
        0 <= px < grid.spec_width() * (FP as int),
        0 <= py < grid.spec_height() * (FP as int),
        grid.cell(px / (FP as int), py / (FP as int)) == 0,
    ensures
        FP as int <= px < (grid.spec_width() - 1) * (FP as int),
        FP as int <= py < (grid.spec_height() - 1) * (FP as int),
        1 <= px / (FP as int) < grid.spec_width() - 1,
        1 <= py / (FP as int) < grid.spec_height() - 1,
{
    let f = FP as int;
    let w = grid.spec_width();
    let h = grid.spec_height();
    let cx = px / f;
    let cy = py / f;
    lemma_cell_index_range(px, w);
    lemma_cell_index_range(py, h);
    assert(!on_border(w, h, cx, cy)) by {
        assert(grid.cell(cx, cy) == 0);
    }
    lemma_fundamental_div_mod(px, f);
    lemma_mod_bound(px, f);
    lemma_fundamental_div_mod(py, f);
    lemma_mod_bound(py, f);
    assert(f <= px && px < (w - 1) * f) by (nonlinear_arith)
        requires
            px == f * cx + px % f,
            0 <= px % f < f,
            1 <= cx < w - 1,
            0 < f,
    {}
    assert(f <= py && py < (h - 1) * f) by (nonlinear_arith)
        requires
            py == f * cy + py % f,
            0 <= py % f < f,
            1 <= cy < h - 1,
            0 < f,
    {}
}

/// Fixed-point rotation by a vector no longer than one unit never grows a
/// vector's squared magnitude.
pub proof fn lemma_rotate_norm_bound(x: int, y: int, c: int, s: int)
    requires
        x * x + y * y <= (FP as int) * (FP as int),
        c * c + s * s <= (FP as int) * (FP as int),
    ensures
        ({
            let nx = trunc_div_fp(x * c - y * s);
            let ny = trunc_div_fp(x * s + y * c);
            nx * nx + ny * ny <= x * x + y * y
        }),
{
    let f = FP as int;
    let a = x * c - y * s;
    let b = x * s + y * c;
    let na = trunc_div_fp(a);
    let nb = trunc_div_fp(b);
    lemma_trunc_div_fp_bound(a);
    lemma_trunc_div_fp_bound(b);
    assert(na * na * (f * f) <= a * a) by (nonlinear_arith)
        requires
            a >= 0 ==> 0 <= na && na * f <= a,
            a < 0 ==> na <= 0 && -(na * f) <= -a,
            0 < f,
    {}
    assert(nb * nb * (f * f) <= b * b) by (nonlinear_arith)
        requires
            b >= 0 ==> 0 <= nb && nb * f <= b,
            b < 0 ==> nb <= 0 && -(nb * f) <= -b,
            0 < f,
    {}
    lemma_rot_dot(x, y, x, y, c, s);
    assert(a * a + b * b == (x * x + y * y) * (c * c + s * s));
    assert((x * x + y * y) * (c * c + s * s) <= (x * x + y * y) * (f * f)) by (nonlinear_arith)
        requires
            c * c + s * s <= f * f,
    {}
    assert(na * na + nb * nb <= x * x + y * y) by (nonlinear_arith)
        requires
            na * na * (f * f) <= a * a,
            nb * nb * (f * f) <= b * b,
            a * a + b * b <= (x * x + y * y) * (f * f),
            0 < f,
    {}
}

/// Fixed-point rotation by an exactly-unit angle vector (`c^2 + s^2 ==
/// FP^2`) keeps a vector's squared magnitude within one narrow band of its
/// old value: truncation never grows it, and one rotation loses at most
/// `4 * FP` of squared magnitude — about six parts in a hundred thousand of
/// a unit vector's `FP^2`. Together with [`lemma_rotation_preserves_pose_geometry`]
/// this is the honest fixed-point form of "rotation preserves magnitude".
pub proof fn lemma_rotate_norm_loss_bound(x: int, y: int, c: int, s: int)
    requires
        x * x + y * y <= (FP as int) * (FP as int),
        c * c + s * s == (FP as int) * (FP as int),
    ensures
        ({
            let nx = trunc_div_fp(x * c - y * s);
            let ny = trunc_div_fp(x * s + y * c);
            x * x + y * y - 4 * (FP as int) <= nx * nx + ny * ny <= x * x + y * y
        }),
{
    let f = FP as int;
    let a = x * c - y * s;
    let b = x * s + y * c;
    let na = trunc_div_fp(a);
    let nb = trunc_div_fp(b);
    let aa = if a >= 0 { a } else { -a };
    let bb = if b >= 0 { b } else { -b };
    lemma_rotate_norm_bound(x, y, c, s);
    lemma_rot_dot(x, y, x, y, c, s);
    assert(a * a + b * b == (x * x + y * y) * (c * c + s * s));
    assert(a * a + b * b <= (f * f) * (f * f)) by (nonlinear_arith)
        requires
            a * a + b * b == (x * x + y * y) * (c * c + s * s),
            x * x + y * y <= f * f,
            c * c + s * s == f * f,
            0 < f,
    {}
    assert(aa <= f * f && bb <= f * f) by (nonlinear_arith)
        requires
            a * a + b * b <= (f * f) * (f * f),
            aa == (if a >= 0 { a } else { -a }),
            bb == (if b >= 0 { b } else { -b }),
            0 < f,
    {}
    lemma_trunc_div_fp_bound(a);
    lemma_trunc_div_fp_bound(b);
    assert(na * na * (f * f) >= a * a - 2 * (aa * f)) by (nonlinear_arith)
        requires
            a >= 0 ==> 0 <= na && na * f <= a && a < na * f + f,
            a < 0 ==> na <= 0 && -(na * f) <= -a && -a < -(na * f) + f,
            aa == (if a >= 0 { a } else { -a }),
            0 < f,
    {}
    assert(nb * nb * (f * f) >= b * b - 2 * (bb * f)) by (nonlinear_arith)
        requires
            b >= 0 ==> 0 <= nb && nb * f <= b && b < nb * f + f,
            b < 0 ==> nb <= 0 && -(nb * f) <= -b && -b < -(nb * f) + f,
            bb == (if b >= 0 { b } else { -b }),
            0 < f,
    {}
    let nn = na * na + nb * nb;
    let n0 = x * x + y * y;
    assert(nn * (f * f) == na * na * (f * f) + nb * nb * (f * f)) by (nonlinear_arith)
        requires
            nn == na * na + nb * nb,
    {}
    assert(aa * f <= (f * f) * f) by (nonlinear_arith)
        requires
            aa <= f * f,
            0 < f,
    {}
    assert(bb * f <= (f * f) * f) by (nonlinear_arith)
        requires
            bb <= f * f,
            0 < f,
    {}
    assert(nn * (f * f) >= n0 * (f * f) - 4 * ((f * f) * f));
    assert((n0 - 4 * f) * (f * f) == n0 * (f * f) - 4 * ((f * f) * f)) by (nonlinear_arith) {}
    assert(nn >= n0 - 4 * f) by (nonlinear_arith)
        requires
            nn * (f * f) >= (n0 - 4 * f) * (f * f),
            0 < f,
    {}
}

/// One fixed-point rotation by an exactly-unit angle vector (`c^2 + s^2 ==
/// FP^2`) moves the dot and cross products of the two rotated vectors by at
/// most `6 * FP` from their pre-rotation values. Since the angle between
/// direction and plane is fixed by those two products and the magnitudes
/// ([`lemma_rotate_norm_loss_bound`]), the field of view drifts by at most
/// this per-step loss under truncation; at exact arithmetic it is preserved
/// outright ([`lemma_rotation_preserves_pose_geometry`]).
pub proof fn lemma_rotate_angle_drift_bound(
    dx: int,
    dy: int,
    px: int,
    py: int,
    c: int,
    s: int,
)
    requires
        dx * dx + dy * dy <= (FP as int) * (FP as int),
        px * px + py * py <= (FP as int) * (FP as int),
        c * c + s * s == (FP as int) * (FP as int),
    ensures
        ({
            let ndx = trunc_div_fp(dx * c - dy * s);
            let ndy = trunc_div_fp(dx * s + dy * c);
            let npx = trunc_div_fp(px * c - py * s);
            let npy = trunc_div_fp(px * s + py * c);
            &&& dx * px + dy * py - 6 * (FP as int) <= ndx * npx + ndy * npy
                <= dx * px + dy * py + 6 * (FP as int)
            &&& dx * py - dy * px - 6 * (FP as int) <= ndx * npy - ndy * npx
                <= dx * py - dy * px + 6 * (FP as int)
        }),
{
    let f = FP as int;
    let ad = dx * c - dy * s;
    let bd = dx * s + dy * c;
    let ap = px * c - py * s;
    let bp = px * s + py * c;
    let ndx = trunc_div_fp(ad);
    let ndy = trunc_div_fp(bd);
    let npx = trunc_div_fp(ap);
    let npy = trunc_div_fp(bp);
    lemma_rot_dot(dx, dy, dx, dy, c, s);
    lemma_rot_dot(px, py, px, py, c, s);
    lemma_rot_dot(dx, dy, px, py, c, s);
    lemma_rot_cross(dx, dy, px, py, c, s);
    lemma_component_drift(ad, f, dx * dx + dy * dy, bd);
    lemma_component_drift(bd, f, dx * dx + dy * dy, ad);
    lemma_component_drift(ap, f, px * px + py * py, bp);
    lemma_component_drift(bp, f, px * px + py * py, ap);
    lemma_trunc_product_drift(ad, ap);
    lemma_trunc_product_drift(bd, bp);
    lemma_trunc_product_drift(ad, bp);
    lemma_trunc_product_drift(bd, ap);
    assert((ndx * npx + ndy * npy) * (f * f)
        == ndx * npx * (f * f) + ndy * npy * (f * f)) by (nonlinear_arith) {}
    assert((ndx * npy - ndy * npx) * (f * f)
        == ndx * npy * (f * f) - ndy * npx * (f * f)) by (nonlinear_arith) {}
    let dot0 = dx * px + dy * py;
    let cross0 = dx * py - dy * px;
    assert((dot0 - 6 * f) * (f * f) <= (ndx * npx + ndy * npy) * (f * f)
        <= (dot0 + 6 * f) * (f * f)) by (nonlinear_arith)
        requires
            (ndx * npx + ndy * npy) * (f * f)
                == ndx * npx * (f * f) + ndy * npy * (f * f),
            ad * ap - 3 * ((f * f) * f) <= ndx * npx * (f * f) <= ad * ap + 3 * ((f * f) * f),
            bd * bp - 3 * ((f * f) * f) <= ndy * npy * (f * f) <= bd * bp + 3 * ((f * f) * f),
            ad * ap + bd * bp == dot0 * (f * f),
            0 < f,
    {}
    assert(dot0 - 6 * f <= ndx * npx + ndy * npy <= dot0 + 6 * f) by (nonlinear_arith)
        requires
            (dot0 - 6 * f) * (f * f) <= (ndx * npx + ndy * npy) * (f * f)
                <= (dot0 + 6 * f) * (f * f),
            0 < f,
    {}
    assert((cross0 - 6 * f) * (f * f) <= (ndx * npy - ndy * npx) * (f * f)
        <= (cross0 + 6 * f) * (f * f)) by (nonlinear_arith)
        requires
            (ndx * npy - ndy * npx) * (f * f)
                == ndx * npy * (f * f) - ndy * npx * (f * f),
            ad * bp - 3 * ((f * f) * f) <= ndx * npy * (f * f) <= ad * bp + 3 * ((f * f) * f),
            bd * ap - 3 * ((f * f) * f) <= ndy * npx * (f * f) <= bd * ap + 3 * ((f * f) * f),
            ad * bp - bd * ap == cross0 * (f * f),
            0 < f,
    {}
    assert(cross0 - 6 * f <= ndx * npy - ndy * npx <= cross0 + 6 * f) by (nonlinear_arith)
        requires
            (cross0 - 6 * f) * (f * f) <= (ndx * npy - ndy * npx) * (f * f)
                <= (cross0 + 6 * f) * (f * f),
            0 < f,
    {}
}

/// A rotated component of a vector no longer than one unit is itself at
/// most `FP^2` in magnitude.
proof fn lemma_component_drift(a: int, f: int, norm: int, other: int)
    requires
        f == FP as int,
        norm <= f * f,
        a * a + other * other == norm * (f * f),
    ensures
        -(f * f) <= a <= f * f,
{
    assert(a * a <= (f * f) * (f * f)) by (nonlinear_arith)
        requires
            a * a + other * other == norm * (f * f),
            norm <= f * f,
            0 < f,
    {}
    assert(-(f * f) <= a <= f * f) by (nonlinear_arith)
        requires
            a * a <= (f * f) * (f * f),
            0 < f,
    {}
}

/// The product of two truncated quotients stays within `3 * FP^3` of the
/// product of the exact values, for exact values at most `FP^2`.
proof fn lemma_trunc_product_drift(a: int, b: int)
    requires
        -((FP as int) * (FP as int)) <= a <= (FP as int) * (FP as int),
        -((FP as int) * (FP as int)) <= b <= (FP as int) * (FP as int),
    ensures
        a * b - 3 * (((FP as int) * (FP as int)) * (FP as int))
            <= trunc_div_fp(a) * trunc_div_fp(b) * ((FP as int) * (FP as int))
            <= a * b + 3 * (((FP as int) * (FP as int)) * (FP as int)),
{
    let f = FP as int;
    let na = trunc_div_fp(a);
    let nb = trunc_div_fp(b);
    lemma_trunc_div_fp_bound(a);
    lemma_trunc_div_fp_bound(b);
    let u = na * f - a;
    let v = nb * f - b;
    assert(-f <= u <= f && -f <= v <= f);
    assert(na * nb * (f * f) == (a + u) * (b + v)) by (nonlinear_arith)
        requires
            u == na * f - a,
            v == nb * f - b,
    {}
    assert((a + u) * (b + v) == a * b + a * v + u * b + u * v) by (nonlinear_arith) {}
    assert(-((f * f) * f) <= a * v <= (f * f) * f) by (nonlinear_arith)
        requires
            -(f * f) <= a <= f * f,
            -f <= v <= f,
            0 < f,
    {}
    assert(-((f * f) * f) <= u * b <= (f * f) * f) by (nonlinear_arith)
        requires
            -(f * f) <= b <= f * f,
            -f <= u <= f,
            0 < f,
    {}
    assert(-((f * f) * f) <= u * v <= (f * f) * f) by (nonlinear_arith)
        requires
            -f <= u <= f,
            -f <= v <= f,
            0 < f,
    {}
}

/// Rotating the direction and camera-plane vectors by the same angle — given
/// as a vector `(c, s)` — preserves, at exact arithmetic, each vector's
/// squared magnitude and the dot and cross products between the two, all
/// scaled by `c^2 + s^2`. With `c^2 + s^2 == FP^2` (a unit angle vector),
/// magnitudes and the angle between direction and plane — the field of view —
/// are invariant across any sequence of rotations. The executable rotation
/// afterwards divides each component by `FP` and truncates, which can only
/// shrink a magnitude ([`lemma_rotate_norm_bound`]).
pub proof fn lemma_rotation_preserves_pose_geometry(
    dx: int,
    dy: int,
    px: int,
    py: int,
    c: int,
    s: int,
)
    ensures
        (dx * c - dy * s) * (dx * c - dy * s) + (dx * s + dy * c) * (dx * s + dy * c)
            == (dx * dx + dy * dy) * (c * c + s * s),
        (px * c - py * s) * (px * c - py * s) + (px * s + py * c) * (px * s + py * c)
            == (px * px + py * py) * (c * c + s * s),
        (dx * c - dy * s) * (px * c - py * s) + (dx * s + dy * c) * (px * s + py * c)
            == (dx * px + dy * py) * (c * c + s * s),
        (dx * c - dy * s) * (px * s + py * c) - (dx * s + dy * c) * (px * c - py * s)
            == (dx * py - dy * px) * (c * c + s * s),
{
    lemma_rot_dot(dx, dy, dx, dy, c, s);
    lemma_rot_dot(px, py, px, py, c, s);
    lemma_rot_dot(dx, dy, px, py, c, s);
    lemma_rot_cross(dx, dy, px, py, c, s);
}

/// The four sign variants of a product of two binomials, fully expanded.
proof fn lemma_expand_binomial(p: int, q: int, r: int, t: int)
    by (nonlinear_arith)
    ensures
        (p - q) * (r - t) == p * r - p * t - q * r + q * t,
        (p + q) * (r + t) == p * r + p * t + q * r + q * t,
        (p - q) * (r + t) == p * r + p * t - q * r - q * t,
        (p + q) * (r - t) == p * r - p * t + q * r - q * t,
{
}

/// Reassociation of a four-factor monomial.
proof fn lemma_regroup(a: int, b: int, g: int, d: int)
    by (nonlinear_arith)
    ensures
        (a * g) * (b * d) == (a * b) * (g * d),
{
}

/// Expansion of the dot product of two exactly rotated vectors.
proof fn lemma_rot_dot(u1: int, u2: int, v1: int, v2: int, c: int, s: int)
    ensures
        (u1 * c - u2 * s) * (v1 * c - v2 * s) + (u1 * s + u2 * c) * (v1 * s + v2 * c)
            == (u1 * v1 + u2 * v2) * (c * c + s * s),
{
    lemma_expand_binomial(u1 * c, u2 * s, v1 * c, v2 * s);
    lemma_expand_binomial(u1 * s, u2 * c, v1 * s, v2 * c);
    lemma_expand_binomial(u1 * v1, u2 * v2, c * c, s * s);
    lemma_regroup(u1, v1, c, c);
    lemma_regroup(u1, v2, c, s);
    lemma_regroup(u2, v1, s, c);
    lemma_regroup(u2, v2, s, s);
    lemma_regroup(u1, v1, s, s);
    lemma_regroup(u1, v2, s, c);
    lemma_regroup(u2, v1, c, s);
    lemma_regroup(u2, v2, c, c);
    vstd::arithmetic::mul::lemma_mul_is_commutative(c, s);
}

/// Expansion of the cross product of two exactly rotated vectors.
proof fn lemma_rot_cross(u1: int, u2: int, v1: int, v2: int, c: int, s: int)
    ensures
        (u1 * c - u2 * s) * (v1 * s + v2 * c) - (u1 * s + u2 * c) * (v1 * c - v2 * s)
            == (u1 * v2 - u2 * v1) * (c * c + s * s),
{
    lemma_expand_binomial(u1 * c, u2 * s, v1 * s, v2 * c);
    lemma_expand_binomial(u1 * s, u2 * c, v1 * c, v2 * s);
    lemma_expand_binomial(u1 * v2, u2 * v1, c * c, s * s);
    lemma_regroup(u1, v1, c, s);
    lemma_regroup(u1, v2, c, c);
    lemma_regroup(u2, v1, s, s);
    lemma_regroup(u2, v2, s, c);
    lemma_regroup(u1, v1, s, c);
    lemma_regroup(u1, v2, s, s);
    lemma_regroup(u2, v1, c, c);
    lemma_regroup(u2, v2, c, s);
    vstd::arithmetic::mul::lemma_mul_is_commutative(c, s);
}

/// Moving forward and then backward at the same speed returns the position
/// to its starting value whenever no wall blocks any of the four checked
/// target cells: collision-free movement is invertible, exactly, with no
/// drift from the fixed-point arithmetic.
pub proof fn lemma_move_round_trip(p: PositionalData, grid: &Grid)
    requires
        grid.wf(),
        p.in_open_cell(grid),
        0 <= p.pos_x + p.step_dx() < grid.spec_width() * (FP as int),
        0 <= p.pos_y + p.step_dy() < grid.spec_height() * (FP as int),
        grid.cell((p.pos_x + p.step_dx()) / (FP as int), p.pos_y as int / (FP as int)) == 0,
        grid.cell(
            (p.pos_x + p.step_dx()) / (FP as int),
            (p.pos_y + p.step_dy()) / (FP as int),
        ) == 0,
        grid.cell(p.pos_x as int / (FP as int), (p.pos_y + p.step_dy()) / (FP as int)) == 0,
    ensures
        move_spec(move_spec(p, grid, true), grid, false).pos_x == p.pos_x,
        move_spec(move_spec(p, grid, true), grid, false).pos_y == p.pos_y,
{
    let f = FP as int;
    let p1 = move_spec(p, grid, true);
    assert(p1.pos_x == p.pos_x + p.step_dx());
    assert(p1.pos_y == p.pos_y + p.step_dy());
    assert(p1.step_dx() == p.step_dx());
    assert(p1.step_dy() == p.step_dy());
    let p2 = move_spec(p1, grid, false);
    assert(p1.pos_x - p.step_dx() == p.pos_x);
    assert(p2.pos_x == p.pos_x);
    assert(p2.pos_y == p.pos_y);
}

} // verus!
