//! The ray caster: for one framebuffer column, walk the grid with a DDA
//! traversal until a solid cell is struck. Termination rests on the grid's
//! solid border; the step count is bounded by the map's half-perimeter.

use vstd::prelude::*;

verus! {

use crate::fixed::FP;
use crate::fixed::fp_mul;
use crate::fixed::mul_fp;
use crate::fixed::trunc_div_fp;
use crate::grid::Grid;
use crate::grid::on_border;
use crate::player::PositionalData;
use crate::player::lemma_component_bound;
use crate::player::lemma_prod_bound;
use vstd::arithmetic::div_mod::lemma_fundamental_div_mod;
use vstd::arithmetic::div_mod::lemma_fundamental_div_mod_converse;
use vstd::arithmetic::div_mod::lemma_mod_bound;

/// Stands in for `FP^2 / |ray_dir|` when a ray component is zero: farther
/// than any grid line a ray can reach inside a map.
pub const DELTA_MAX: i64 = 1099511627776;

/// What one cast ray struck.
pub struct RayHit {
    /// Cell coordinates of the first solid cell on the ray.
    pub map_x: usize,
    pub map_y: usize,
    /// 0 when the final step crossed a vertical grid line, 1 for horizontal.
    pub side: u8,
    /// Fixed-point perpendicular (camera-plane aligned) distance to the face.
    pub perp_dist: i64,
    /// Fixed-point position along the struck face, in `[0, FP)`.
    pub wall_frac: i64,
    /// Fixed-point ray direction, for texture mirroring.
    pub ray_dir_x: i64,
    pub ray_dir_y: i64,
    /// How many cells the traversal stepped through.
    pub steps: usize,
}

/// The normalized screen coordinate of a column, in `[-FP, FP)`.
pub open spec fn spec_camera_x(column: int, width: int) -> int {
    2 * column * (FP as int) / width - (FP as int)
}

/// The fixed-point distance a ray travels between two grid lines of one
/// axis, `FP^2 / |ray_dir|`, or `DELTA_MAX` for a ray parallel to the axis.
pub open spec fn spec_ray_delta(rd: int) -> int {
    if rd == 0 {
        DELTA_MAX as int
    } else if rd < 0 {
        ((FP as int) * (FP as int)) / (-rd)
    } else {
        ((FP as int) * (FP as int)) / rd
    }
}

/// The cell-stepping direction of one axis.
pub open spec fn spec_ray_step(rd: int) -> int {
    if rd < 0 {
        -1
    } else {
        1
    }
}

/// The side distance to the first grid line of one axis: the fraction of
/// the starting cell still ahead of the camera, scaled by the delta.
pub open spec fn spec_init_side(pos: int, rd: int, delta: int) -> int {
    let cell0 = pos / (FP as int);
    if rd < 0 {
        fp_mul(pos - cell0 * (FP as int), delta)
    } else {
        fp_mul(cell0 * (FP as int) + (FP as int) - pos, delta)
    }
}

/// The DDA traversal itself, at most `fuel` steps: repeatedly step one cell
/// along the axis of the smaller accumulated side distance, until the
/// entered cell is solid (or out of bounds, which a bordered grid never
/// lets happen). Returns the entered cell, the side distances after the
/// final step, and the struck side — 0 for a vertical grid line, 1 for a
/// horizontal one.
pub open spec fn spec_dda(
    grid: &Grid,
    mx: int,
    my: int,
    sdx: int,
    sdy: int,
    step_x: int,
    step_y: int,
    delta_x: int,
    delta_y: int,
    fuel: nat,
) -> (int, int, int, int, int)
    decreases fuel,
{
    if fuel == 0 {
        (mx, my, sdx, sdy, 0)
    } else if sdx < sdy {
        let nmx = mx + step_x;
        let nsdx = sdx + delta_x;
        if !grid.in_bounds(nmx, my) || grid.cell(nmx, my) > 0 {
            (nmx, my, nsdx, sdy, 0)
        } else {
            spec_dda(grid, nmx, my, nsdx, sdy, step_x, step_y, delta_x, delta_y, (fuel - 1) as nat)
        }
    } else {
        let nmy = my + step_y;
        let nsdy = sdy + delta_y;
        if !grid.in_bounds(mx, nmy) || grid.cell(mx, nmy) > 0 {
            (mx, nmy, sdx, nsdy, 1)
        } else {
            spec_dda(grid, mx, nmy, sdx, nsdy, step_x, step_y, delta_x, delta_y, (fuel - 1) as nat)
        }
    }
}

/// Everything one cast computes, as a function of the camera pose, the
/// grid, the column and the screen width: the ray direction swept by the
/// camera plane, the DDA walk from the camera's cell, the perpendicular
/// distance (the struck axis's side distance before its final step), and
/// the fractional position along the struck face.
pub open spec fn spec_cast(p: PositionalData, grid: &Grid, column: int, width: int) -> RayHit {
    let f = FP as int;
    let cx = spec_camera_x(column, width);
    let rdx = p.dir_x + fp_mul(p.plane_x as int, cx);
    let rdy = p.dir_y + fp_mul(p.plane_y as int, cx);
    let delta_x = spec_ray_delta(rdx);
    let delta_y = spec_ray_delta(rdy);
    let step_x = spec_ray_step(rdx);
    let step_y = spec_ray_step(rdy);
    let mx0 = p.pos_x as int / f;
    let my0 = p.pos_y as int / f;
    let d = spec_dda(
        grid,
        mx0,
        my0,
        spec_init_side(p.pos_x as int, rdx, delta_x),
        spec_init_side(p.pos_y as int, rdy, delta_y),
        step_x,
        step_y,
        delta_x,
        delta_y,
        (grid.spec_width() + grid.spec_height()) as nat,
    );
    let perp = if d.4 == 0 {
        d.2 - delta_x
    } else {
        d.3 - delta_y
    };
    let along = if d.4 == 0 {
        p.pos_y as int
    } else {
        p.pos_x as int
    };
    let rd = if d.4 == 0 {
        rdy
    } else {
        rdx
    };
    RayHit {
        map_x: d.0 as usize,
        map_y: d.1 as usize,
        side: d.4 as u8,
        perp_dist: perp as i64,
        wall_frac: ((along + trunc_div_fp(perp * rd)) % f) as i64,
        ray_dir_x: rdx as i64,
        ray_dir_y: rdy as i64,
        steps: ((if step_x == 1 { d.0 - mx0 } else { mx0 - d.0 })
            + (if step_y == 1 { d.1 - my0 } else { my0 - d.1 })) as usize,
    }
}

/// Casts the ray of screen column `column` out of `width` and walks the
/// grid to the first solid cell on it.
pub fn cast(p: &PositionalData, grid: &Grid, column: usize, width: usize) -> (r: RayHit)
    requires
        grid.wf(),
        p.vectors_ok(),
        p.in_open_cell(grid),
        column < width,
        width <= 8192,
    ensures
        r == spec_cast(*p, grid, column as int, width as int),
        grid.in_bounds(r.map_x as int, r.map_y as int),
        grid.cell(r.map_x as int, r.map_y as int) > 0,
        r.side <= 1,
        0 <= r.wall_frac < FP,
        r.perp_dist >= 0,
        2 <= p.pos_x % FP <= FP - 2 && 2 <= p.pos_y % FP <= FP - 2 ==> r.perp_dist >= 1,
        1 <= r.steps <= grid.spec_width() + grid.spec_height(),
{
    let f: i64 = FP;
    let w = grid.width();
    let h = grid.height();
    proof {
        lemma_component_bound(p.dir_x as int, p.dir_y as int);
        lemma_component_bound(p.plane_x as int, p.plane_y as int);
    }

    // Normalized screen coordinate in [-FP, FP), then the ray direction.
    let num: i64 = 2 * (column as i64) * f;
    proof {
        assert(0 <= (num as int) / (width as int) < 2 * (FP as int)) by (nonlinear_arith)
            requires
                num == 2 * (column as int) * (FP as int),
                0 <= column < width as int,
                width as int <= 8192,
                FP == 65536,
        {}
    }
    let camera_x: i64 = num / (width as i64) - f;
    proof {
        lemma_prod_bound(p.plane_x as int, camera_x as int);
    }
    let ray_dir_x: i64 = p.dir_x + mul_fp(p.plane_x, camera_x);
    proof {
        lemma_prod_bound(p.plane_y as int, camera_x as int);
        crate::fixed::lemma_trunc_div_fp_bound(p.plane_x as int * camera_x as int);
        crate::fixed::lemma_trunc_div_fp_bound(p.plane_y as int * camera_x as int);
    }
    let ray_dir_y: i64 = p.dir_y + mul_fp(p.plane_y, camera_x);
    assert(-2 * (FP as int) <= ray_dir_x <= 2 * (FP as int));
    assert(-2 * (FP as int) <= ray_dir_y <= 2 * (FP as int));
    assert(camera_x as int == spec_camera_x(column as int, width as int));

    let delta_x: i64 = ray_delta(ray_dir_x);
    let delta_y: i64 = ray_delta(ray_dir_y);

    // Starting cell and the distance to the first grid line on each axis.
    proof {
        lemma_fundamental_div_mod(p.pos_x as int, f as int);
        lemma_mod_bound(p.pos_x as int, f as int);
        lemma_fundamental_div_mod(p.pos_y as int, f as int);
        lemma_mod_bound(p.pos_y as int, f as int);
        crate::player::lemma_open_cell_interior(grid, p.pos_x as int, p.pos_y as int);
    }
    let mx0: i64 = p.pos_x / f;
    let my0: i64 = p.pos_y / f;

    let step_x: i64 = if ray_dir_x < 0 { -1 } else { 1 };
    let step_y: i64 = if ray_dir_y < 0 { -1 } else { 1 };
    let frac_x: i64 = if ray_dir_x < 0 { p.pos_x - mx0 * f } else { mx0 * f + f - p.pos_x };
    let frac_y: i64 = if ray_dir_y < 0 { p.pos_y - my0 * f } else { my0 * f + f - p.pos_y };
    proof {
        lemma_side_init_bound(frac_x as int, delta_x as int);
        lemma_side_init_bound(frac_y as int, delta_y as int);
    }
    let mut side_dist_x: i64 = mul_fp(frac_x, delta_x);
    let mut side_dist_y: i64 = mul_fp(frac_y, delta_y);
    assert(side_dist_x == spec_init_side(p.pos_x as int, ray_dir_x as int, delta_x as int));
    assert(side_dist_y == spec_init_side(p.pos_y as int, ray_dir_y as int, delta_y as int));

    let ghost init_sdx = side_dist_x as int;
    let ghost init_sdy = side_dist_y as int;
    let ghost fuel0: nat = (w + h) as nat;

    let mut mx: i64 = mx0;
    let mut my: i64 = my0;
    let mut side: u8 = 0;
    let mut steps: usize = 0;

    loop
        invariant_except_break
            grid.wf(),
            3 <= w == grid.spec_width() <= 4096,
            3 <= h == grid.spec_height() <= 4096,
            0 <= mx < w,
            0 <= my < h,
            grid.cell(mx as int, my as int) == 0,
            step_x == 1 || step_x == -1,
            step_y == 1 || step_y == -1,
            0 <= mx0 < w,
            0 <= my0 < h,
            steps == (if step_x == 1 { mx - mx0 } else { mx0 - mx })
                + (if step_y == 1 { my - my0 } else { my0 - my }),
            (if step_x == 1 { mx - mx0 } else { mx0 - mx }) >= 0,
            (if step_y == 1 { my - my0 } else { my0 - my }) >= 0,
            0 < delta_x <= DELTA_MAX,
            0 < delta_y <= DELTA_MAX,
            0 <= side_dist_x <= (1 + steps as int) * (DELTA_MAX as int),
            0 <= side_dist_y <= (1 + steps as int) * (DELTA_MAX as int),
            side_dist_x >= init_sdx,
            side_dist_y >= init_sdy,
            steps > 0 ==> (if side == 0 {
                side_dist_x >= init_sdx + delta_x
            } else {
                side_dist_y >= init_sdy + delta_y
            }),
            fuel0 == w + h,
            steps <= fuel0,
            (fuel0 - steps) as int >= (if step_x == 1 { w - 1 - mx } else { mx as int })
                + (if step_y == 1 { h - 1 - my } else { my as int }),
            spec_dda(grid, mx0 as int, my0 as int, init_sdx, init_sdy, step_x as int,
                step_y as int, delta_x as int, delta_y as int, fuel0)
                == spec_dda(grid, mx as int, my as int, side_dist_x as int, side_dist_y as int,
                    step_x as int, step_y as int, delta_x as int, delta_y as int,
                    (fuel0 - steps) as nat),
        ensures
            0 <= mx < w,
            0 <= my < h,
            grid.cell(mx as int, my as int) > 0,
            side <= 1,
            1 <= steps <= w + h,
            side == 0 ==> init_sdx + delta_x <= side_dist_x <= (1 + steps as int) * (DELTA_MAX as int),
            side == 1 ==> init_sdy + delta_y <= side_dist_y <= (1 + steps as int) * (DELTA_MAX as int),
            steps == (if step_x == 1 { mx - mx0 } else { mx0 - mx })
                + (if step_y == 1 { my - my0 } else { my0 - my }),
            (mx as int, my as int, side_dist_x as int, side_dist_y as int, side as int)
                == spec_dda(grid, mx0 as int, my0 as int, init_sdx, init_sdy, step_x as int,
                    step_y as int, delta_x as int, delta_y as int, fuel0),
        decreases (if step_x == 1 { w - 1 - mx } else { mx as int }) + (if step_y == 1 { h - 1 - my } else { my as int }),
    {
        proof {
            assert(!on_border(w as int, h as int, mx as int, my as int));
            assert(steps <= (w - 1) + (h - 1));
            assert((fuel0 - steps) as int >= 2);
        }
        if side_dist_x < side_dist_y {
            side_dist_x = side_dist_x + delta_x;
            mx = mx + step_x;
            side = 0;
        } else {
            side_dist_y = side_dist_y + delta_y;
            my = my + step_y;
            side = 1;
        }
        steps = steps + 1;
        if grid.cell_at(mx as usize, my as usize) > 0 {
            break;
        }
    }

    // Perpendicular distance: the side distance before the final step.
    let perp_dist: i64 = if side == 0 { side_dist_x - delta_x } else { side_dist_y - delta_y };

    // Fractional position along the struck face.
    let along: i64 = if side == 0 { p.pos_y } else { p.pos_x };
    let rd: i64 = if side == 0 { ray_dir_y } else { ray_dir_x };
    proof {
        assert(perp_dist as int * (rd as int) <= ((1 + (w + h) as int) * (DELTA_MAX as int)) * (2 * (FP as int))
            && -(((1 + (w + h) as int) * (DELTA_MAX as int)) * (2 * (FP as int))) <= perp_dist as int * (rd as int))
            by (nonlinear_arith)
            requires
                0 <= perp_dist as int <= (1 + (w + h) as int) * (DELTA_MAX as int),
                -2 * (FP as int) <= rd as int <= 2 * (FP as int),
                w as int + h as int <= 8192,
        {}
        crate::fixed::lemma_trunc_div_fp_bound(perp_dist as int * (rd as int));
    }
    proof {
        assert((mx0 as int) * (f as int) == (f as int) * (mx0 as int)) by (nonlinear_arith) {}
        assert((my0 as int) * (f as int) == (f as int) * (my0 as int)) by (nonlinear_arith) {}
        if 2 <= p.pos_x % FP <= FP - 2 && 2 <= p.pos_y % FP <= FP - 2 {
            assert(2 <= frac_x as int <= FP - 2);
            assert(2 <= frac_y as int <= FP - 2);
            if side == 0 {
                lemma_init_side_positive(frac_x as int, delta_x as int);
            } else {
                lemma_init_side_positive(frac_y as int, delta_y as int);
            }
        }
    }
    let travel: i128 = (perp_dist as i128) * (rd as i128) / (FP as i128);
    let t: i64 = along + (travel as i64);
    let wall_frac: i64 = floor_mod_fp(t);

    RayHit {
        map_x: mx as usize,
        map_y: my as usize,
        side,
        perp_dist,
        wall_frac,
        ray_dir_x,
        ray_dir_y,
        steps,
    }
}

/// The fixed-point remainder of `t` by one whole cell, always in `[0, FP)`,
/// as Euclidean division has it.
fn floor_mod_fp(t: i64) -> (r: i64)
    ensures
        r == (t as int) % (FP as int),
        0 <= r < FP,
{
    let m: i64 = t % FP;
    proof {
        let f = FP as int;
        if t >= 0 {
            lemma_mod_bound(t as int, f);
        } else {
            let q = (-(t as int)) / f;
            let s = (-(t as int)) % f;
            lemma_fundamental_div_mod(-(t as int), f);
            lemma_mod_bound(-(t as int), f);
            if s == 0 {
                lemma_fundamental_div_mod_converse(t as int, f, -q, 0);
            } else {
                assert(t as int == (-q - 1) * f + (f - s)) by (nonlinear_arith)
                    requires
                        -(t as int) == f * q + s,
                {}
                lemma_fundamental_div_mod_converse(t as int, f, -q - 1, f - s);
            }
        }
    }
    if m < 0 {
        m + FP
    } else {
        m
    }
}

/// The fixed-point distance the ray travels between two grid lines of one
/// axis: `FP^2 / |ray_dir|`, or `DELTA_MAX` for a ray parallel to the axis.
fn ray_delta(ray_dir: i64) -> (r: i64)
    requires
        -2 * (FP as int) <= ray_dir <= 2 * (FP as int),
    ensures
        r == spec_ray_delta(ray_dir as int),
        FP / 2 <= r <= DELTA_MAX,
{
    if ray_dir == 0 {
        DELTA_MAX
    } else {
        let a: i64 = if ray_dir < 0 { -ray_dir } else { ray_dir };
        let q: i64 = (FP * FP) / a;
        proof {
            assert(32768 <= (((FP * FP) as int) / (a as int)) <= DELTA_MAX) by (nonlinear_arith)
                requires
                    1 <= a as int <= 2 * (FP as int),
                    FP == 65536,
                    DELTA_MAX == 1099511627776,
            {}
        }
        q
    }
}

/// A camera at least two fixed-point ticks away from the next grid line,
/// with a delta of at least half a cell (a ray direction of magnitude at
/// most two), starts with a strictly positive side distance.
proof fn lemma_init_side_positive(frac: int, delta: int)
    requires
        2 <= frac,
        FP / 2 <= delta,
    ensures
        fp_mul(frac, delta) >= 1,
{
    let f = FP as int;
    assert(frac * delta >= f) by (nonlinear_arith)
        requires
            2 <= frac,
            32768 <= delta,
            f == 65536,
    {}
    lemma_fundamental_div_mod(frac * delta, f);
    lemma_mod_bound(frac * delta, f);
    assert((frac * delta) / f >= 1) by (nonlinear_arith)
        requires
            frac * delta == f * ((frac * delta) / f) + (frac * delta) % f,
            0 <= (frac * delta) % f < f,
            frac * delta >= f,
            0 < f,
    {}
}

/// The initial side distance, `frac * delta / FP` with `frac` at most one
/// cell, never exceeds one delta step.
proof fn lemma_side_init_bound(frac: int, delta: int)
    requires
        0 <= frac <= FP as int,
        0 < delta <= DELTA_MAX as int,
    ensures
        i64::MIN <= frac * delta <= i64::MAX,
        0 <= crate::fixed::fp_mul(frac, delta) <= DELTA_MAX as int,
{
    assert(0 <= frac * delta <= (FP as int) * (DELTA_MAX as int)) by (nonlinear_arith)
        requires
            0 <= frac <= FP as int,
            0 < delta <= DELTA_MAX as int,
    {}
    crate::fixed::lemma_trunc_div_fp_bound(frac * delta);
    assert((frac * delta) / (FP as int) * (FP as int) <= (FP as int) * (DELTA_MAX as int));
    assert(crate::fixed::fp_mul(frac, delta) <= DELTA_MAX as int) by (nonlinear_arith)
        requires
            crate::fixed::fp_mul(frac, delta) * (FP as int) <= frac * delta,
            frac * delta <= (FP as int) * (DELTA_MAX as int),
            0 <= crate::fixed::fp_mul(frac, delta),
            FP == 65536,
    {}
}

} // verus!
