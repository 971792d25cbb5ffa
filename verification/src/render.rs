//! Column rendering arithmetic: the on-screen wall span, the texture
//! coordinates, and the darkening of horizontal wall faces.

use vstd::prelude::*;

verus! {

use crate::fixed::FP;
use crate::grid::Grid;
use crate::input::Intents;
use crate::player::PositionalData;
use crate::player::update_spec;
use crate::raycast::RayHit;
use crate::raycast::cast;
use crate::raycast::spec_cast;
use crate::texture::Texture;
use vstd::arithmetic::div_mod::lemma_fundamental_div_mod;
use vstd::arithmetic::div_mod::lemma_fundamental_div_mod_converse;
use vstd::arithmetic::div_mod::lemma_mod_bound;

/// How many screen rows a wall at fixed-point distance `perp_dist` spans on
/// a screen of `height` rows, clamped to at least one row.
pub open spec fn spec_line_height(height: int, perp_dist: int) -> int {
    let p = if perp_dist < 1 {
        1
    } else {
        perp_dist
    };
    let lh = (height * (FP as int)) / p;
    if lh < 1 {
        1
    } else {
        lh
    }
}

/// The screen height of the wall span of one column.
pub fn line_height(height: usize, perp_dist: i64) -> (r: i64)
    requires
        1 <= height <= 8192,
        perp_dist >= 0,
    ensures
        r == spec_line_height(height as int, perp_dist as int),
        1 <= r <= height * (FP as int),
{
    let p: i64 = if perp_dist < 1 {
        1
    } else {
        perp_dist
    };
    let lh: i64 = ((height as i64) * FP) / p;
    proof {
        let n = (height as int) * (FP as int);
        vstd::arithmetic::div_mod::lemma_fundamental_div_mod(n, p as int);
        vstd::arithmetic::div_mod::lemma_mod_bound(n, p as int);
        assert(0 <= n / (p as int) <= n) by (nonlinear_arith)
            requires
                n == (p as int) * (n / (p as int)) + n % (p as int),
                0 <= n % (p as int) < p as int,
                1 <= p as int,
                0 <= n,
        {}
    }
    if lh < 1 {
        1
    } else {
        lh
    }
}

/// The horizontal texture coordinate of a hit: the fraction along the wall
/// face scaled to the texture, then mirrored when the face was struck from
/// the axis-positive side, so walls read the same way from both sides.
pub open spec fn spec_tex_x(hit: RayHit, tex_size: int) -> int {
    let t = (hit.wall_frac * tex_size) / (FP as int);
    if (hit.side == 0 && hit.ray_dir_x > 0) || (hit.side == 1 && hit.ray_dir_y < 0) {
        tex_size - t - 1
    } else {
        t
    }
}

/// The horizontal texture coordinate; always within the texture.
pub fn tex_x_of(hit: &RayHit, tex_size: usize) -> (r: usize)
    requires
        0 <= hit.wall_frac < FP,
        1 <= tex_size <= 1024,
    ensures
        r == spec_tex_x(*hit, tex_size as int),
        r < tex_size,
{
    proof {
        let wf = hit.wall_frac as int;
        let ts = tex_size as int;
        vstd::arithmetic::div_mod::lemma_fundamental_div_mod(wf * ts, FP as int);
        vstd::arithmetic::div_mod::lemma_mod_bound(wf * ts, FP as int);
        assert(0 <= (wf * ts) / (FP as int) < ts) by (nonlinear_arith)
            requires
                0 <= wf < FP as int,
                1 <= ts <= 1024,
                wf * ts == (FP as int) * ((wf * ts) / (FP as int)) + (wf * ts) % (FP as int),
                0 <= (wf * ts) % (FP as int) < FP as int,
                FP == 65536,
        {}
    }
    let t: i64 = (hit.wall_frac * (tex_size as i64)) / FP;
    let mirrored: bool = (hit.side == 0 && hit.ray_dir_x > 0) || (hit.side == 1
        && hit.ray_dir_y < 0);
    if mirrored {
        tex_size - (t as usize) - 1
    } else {
        t as usize
    }
}

/// The vertical texture coordinate for an accumulated fixed-point texture
/// position, wrapped to the texture height.
pub fn tex_y_of(tex_pos: i64, tex_size: usize) -> (r: usize)
    requires
        tex_pos >= 0,
        1 <= tex_size <= 1024,
    ensures
        r == (tex_pos as int / (FP as int)) % (tex_size as int),
        r < tex_size,
{
    ((tex_pos / FP) % (tex_size as i64)) as usize
}

/// Every channel of a packed color halved by one right shift and mask.
pub open spec fn spec_darken(color: u32) -> u32 {
    (color >> 1) & 0x7F7F7F
}

/// Every color channel of a packed `0x00RRGGBB` value halved: the darkening
/// applied to wall faces struck across a horizontal grid line.
pub fn darken(color: u32) -> (r: u32)
    ensures
        r == spec_darken(color),
        (r >> 16) & 0xFF == ((color >> 16) & 0xFF) / 2,
        (r >> 8) & 0xFF == ((color >> 8) & 0xFF) / 2,
        r & 0xFF == (color & 0xFF) / 2,
        r <= 0x7F7F7F,
{
    proof {
        assert((((color >> 1) & 0x7F7F7F) >> 16) & 0xFF == ((color >> 16) & 0xFF) / 2)
            by (bit_vector);
        assert((((color >> 1) & 0x7F7F7F) >> 8) & 0xFF == ((color >> 8) & 0xFF) / 2)
            by (bit_vector);
        assert(((color >> 1) & 0x7F7F7F) & 0xFF == (color & 0xFF) / 2) by (bit_vector);
        assert(((color >> 1) & 0x7F7F7F) <= 0x7F7F7F) by (bit_vector);
    }
    (color >> 1) & 0x7F7F7F
}

/// The first screen row of the wall span: the span is centered on the
/// screen and clamped at the top row.
pub open spec fn spec_draw_start(height: int, lh: int) -> int {
    let ds = height / 2 - lh / 2;
    if ds < 0 {
        0
    } else {
        ds
    }
}

/// The last screen row of the wall span, clamped at the bottom row.
pub open spec fn spec_draw_end(height: int, lh: int) -> int {
    let de = height / 2 + lh / 2;
    if de > height - 1 {
        height - 1
    } else {
        de
    }
}

/// The first row of the span a hit at `perp_dist` spans on the screen.
pub open spec fn spec_span_start(height: int, perp_dist: int) -> int {
    spec_draw_start(height, spec_line_height(height, perp_dist))
}

/// The last row of the span a hit at `perp_dist` spans on the screen.
pub open spec fn spec_span_end(height: int, perp_dist: int) -> int {
    spec_draw_end(height, spec_line_height(height, perp_dist))
}

/// The color of screen row `y` within the wall span of a hit: the struck
/// wall's texture sampled at the mirrored horizontal coordinate and the
/// linearly stepped vertical one, darkened when the face was struck across
/// a horizontal grid line.
pub open spec fn spec_column_pixel(
    hit: RayHit,
    grid: &Grid,
    textures: Seq<Texture>,
    height: int,
    y: int,
) -> u32 {
    let f = FP as int;
    let tex = textures[grid.cell(hit.map_x as int, hit.map_y as int) as int - 1];
    let ts = tex.spec_size();
    let lh = spec_line_height(height, hit.perp_dist as int);
    let ds = spec_draw_start(height, lh);
    let step = ts * f / lh;
    let tex_pos = (ds - height / 2 + lh / 2) * step + (y - ds) * step;
    let c = tex.pixel(spec_tex_x(hit, ts), (tex_pos / f) % ts);
    if hit.side == 1 {
        spec_darken(c)
    } else {
        c
    }
}

/// Draws the wall span of one column into the framebuffer: rows within the
/// span get the sampled, possibly darkened texel; every other pixel of the
/// buffer is left untouched.
pub fn render_column(
    fb: &mut Vec<u32>,
    width: usize,
    height: usize,
    column: usize,
    hit: &RayHit,
    grid: &Grid,
    textures: &Vec<Texture>,
)
    requires
        grid.wf(),
        column < width,
        width <= 8192,
        1 <= height <= 8192,
        old(fb)@.len() == width * height,
        grid.in_bounds(hit.map_x as int, hit.map_y as int),
        grid.cell(hit.map_x as int, hit.map_y as int) > 0,
        0 <= hit.wall_frac < FP,
        hit.perp_dist >= 0,
        grid.spec_texture_count() <= textures@.len(),
        forall|i: int| 0 <= i < textures@.len() ==> (#[trigger] textures@[i]).wf(),
    ensures
        final(fb)@.len() == old(fb)@.len(),
        forall|i: int|
            0 <= i < old(fb)@.len() ==> final(fb)@[i] == (
            if i % (width as int) == column
                && spec_span_start(height as int, hit.perp_dist as int) <= i / (width as int)
                    <= spec_span_end(height as int, hit.perp_dist as int) {
                spec_column_pixel(*hit, grid, textures@, height as int, i / (width as int))
            } else {
                old(fb)@[i]
            }),
{
    let code = grid.cell_at(hit.map_x, hit.map_y);
    proof {
        assert(grid.cell(hit.map_x as int, hit.map_y as int) <= grid.spec_texture_count());
    }
    let tex = &textures[(code - 1) as usize];
    proof {
        assert(textures@[code as int - 1].wf());
    }
    let ts = tex.size();
    let lh = line_height(height, hit.perp_dist);
    let half_h: i64 = (height as i64) / 2;
    let ds_raw: i64 = half_h - lh / 2;
    let ds: i64 = if ds_raw < 0 {
        0
    } else {
        ds_raw
    };
    let de_raw: i64 = half_h + lh / 2;
    let de: i64 = if de_raw > (height as i64) - 1 {
        (height as i64) - 1
    } else {
        de_raw
    };
    proof {
        lemma_div_shrinks((ts as int) * (FP as int), lh as int);
    }
    let step: i64 = (ts as i64) * FP / lh;
    let start_off: i64 = ds - half_h + lh / 2;
    proof {
        assert(0 <= start_off as int * (step as int) <= 0x40000000000000) by (nonlinear_arith)
            requires
                0 <= start_off as int <= 0x10000000,
                0 <= step as int <= 0x4000000,
        {}
    }
    let mut tex_pos: i64 = start_off * step;
    let tx = tex_x_of(hit, ts);
    let ghost tp0 = tex_pos as int;
    proof {
        assert((ds as int - ds as int) * (step as int) == 0) by (nonlinear_arith) {}
    }
    let mut y: i64 = ds;
    while y <= de
        invariant
            grid.wf(),
            column < width <= 8192,
            1 <= height <= 8192,
            fb@.len() == old(fb)@.len() == width * height,
            grid.in_bounds(hit.map_x as int, hit.map_y as int),
            grid.cell(hit.map_x as int, hit.map_y as int) > 0,
            code == grid.cell(hit.map_x as int, hit.map_y as int),
            *tex == textures@[code as int - 1],
            tex.wf(),
            ts == tex.spec_size(),
            1 <= ts <= 1024,
            lh == spec_line_height(height as int, hit.perp_dist as int),
            1 <= lh,
            half_h == (height as int) / 2,
            ds == spec_draw_start(height as int, lh as int),
            de == spec_draw_end(height as int, lh as int),
            0 <= ds <= y <= de + 1 <= height,
            step == (ts as int) * (FP as int) / (lh as int),
            0 <= step <= 0x4000000,
            start_off == ds - half_h + lh / 2,
            0 <= start_off <= 0x10000000,
            tp0 == start_off * step,
            0 <= tp0 <= 0x40000000000000,
            tex_pos == tp0 + (y - ds) * step,
            0 <= tex_pos,
            tx == spec_tex_x(*hit, ts as int),
            tx < ts,
            forall|i: int|
                0 <= i < old(fb)@.len() ==> fb@[i] == (
                if i % (width as int) == column && ds <= i / (width as int) < y {
                    spec_column_pixel(*hit, grid, textures@, height as int, i / (width as int))
                } else {
                    old(fb)@[i]
                }),
        decreases de + 1 - y,
    {
        let ty = tex_y_of(tex_pos, ts);
        let sample = tex.pixel_at(tx, ty);
        let c: u32 = if hit.side == 1 {
            darken(sample)
        } else {
            sample
        };
        proof {
            lemma_fb_index_bound(y as int, column as int, width as int, height as int);
        }
        let idx: usize = (y as usize) * width + column;
        let ghost prev = fb@;
        fb[idx] = c;
        proof {
            lemma_fundamental_div_mod_converse(
                (y as int) * (width as int) + (column as int),
                width as int,
                y as int,
                column as int,
            );
            assert(c == spec_column_pixel(*hit, grid, textures@, height as int, y as int));
            assert forall|i: int| 0 <= i < old(fb)@.len() implies fb@[i] == (
                if i % (width as int) == column && ds <= i / (width as int) < y + 1 {
                    spec_column_pixel(*hit, grid, textures@, height as int, i / (width as int))
                } else {
                    old(fb)@[i]
                }) by {
                if i != idx {
                    assert(fb@[i] == prev[i]);
                    if i % (width as int) == column && i / (width as int) == y {
                        lemma_fundamental_div_mod(i, width as int);
                        assert((width as int) * (y as int) == (y as int) * (width as int))
                            by (nonlinear_arith) {}
                        assert(i == idx);
                    }
                }
            }
            assert((y + 1 - ds) * step == (y - ds) * step + step) by (nonlinear_arith) {}
            assert((y + 1 - ds) * (step as int) <= (height as int) * (step as int))
                by (nonlinear_arith)
                requires
                    y + 1 - ds <= height as int,
                    0 <= step as int,
                    0 <= y + 1 - ds,
            {}
            assert((height as int) * (step as int) <= 0x8000000000) by (nonlinear_arith)
                requires
                    1 <= height as int <= 8192,
                    0 <= step as int <= 0x4000000,
            {}
        }
        tex_pos = tex_pos + step;
        y = y + 1;
    }
}

/// The color of flat framebuffer index `i` in a full frame: the pixel of
/// the wall span of its column's ray, or the cleared background.
pub open spec fn spec_frame_pixel(
    p: PositionalData,
    grid: &Grid,
    textures: Seq<Texture>,
    width: int,
    height: int,
    i: int,
) -> u32 {
    let x = i % width;
    let y = i / width;
    let hit = spec_cast(p, grid, x, width);
    if spec_span_start(height, hit.perp_dist as int) <= y
        <= spec_span_end(height, hit.perp_dist as int) {
        spec_column_pixel(hit, grid, textures, height, y)
    } else {
        0
    }
}

/// One frame: apply the intents to the pose, clear the framebuffer, then
/// for every column cast a ray against the frozen pose and draw its wall
/// span. Every pixel of the result is a function of the updated pose, the
/// map and the textures alone.
pub fn render_frame(
    p: &mut PositionalData,
    grid: &Grid,
    textures: &Vec<Texture>,
    fb: &mut Vec<u32>,
    width: usize,
    height: usize,
    intents: Intents,
    elapsed: i64,
    rot_cos: i64,
    rot_sin: i64,
)
    requires
        grid.wf(),
        old(p).vectors_ok(),
        old(p).in_open_cell(grid),
        0 <= elapsed <= 86400 * FP,
        rot_cos * rot_cos + rot_sin * rot_sin <= (FP as int) * (FP as int),
        old(fb)@.len() == width * height,
        1 <= width <= 8192,
        1 <= height <= 8192,
        grid.spec_texture_count() <= textures@.len(),
        forall|i: int| 0 <= i < textures@.len() ==> (#[trigger] textures@[i]).wf(),
    ensures
        *final(p) == update_spec(
            *old(p),
            grid,
            intents,
            elapsed as int,
            rot_cos as int,
            rot_sin as int,
        ),
        final(p).vectors_ok(),
        final(p).in_open_cell(grid),
        final(fb)@.len() == width * height,
        forall|i: int|
            0 <= i < width * height ==> final(fb)@[i] == spec_frame_pixel(
                *final(p),
                grid,
                textures@,
                width as int,
                height as int,
                i,
            ),
{
    p.update(grid, intents, elapsed, rot_cos, rot_sin);
    let mut i: usize = 0;
    while i < fb.len()
        invariant
            fb@.len() == old(fb)@.len(),
            i <= fb@.len(),
            forall|j: int| 0 <= j < i ==> fb@[j] == 0,
        decreases fb@.len() - i,
    {
        fb[i] = 0;
        i = i + 1;
    }
    let mut x: usize = 0;
    while x < width
        invariant
            grid.wf(),
            p.vectors_ok(),
            p.in_open_cell(grid),
            *p == update_spec(
                *old(p),
                grid,
                intents,
                elapsed as int,
                rot_cos as int,
                rot_sin as int,
            ),
            x <= width,
            1 <= width <= 8192,
            1 <= height <= 8192,
            fb@.len() == old(fb)@.len() == width * height,
            grid.spec_texture_count() <= textures@.len(),
            forall|i: int| 0 <= i < textures@.len() ==> (#[trigger] textures@[i]).wf(),
            forall|i: int|
                0 <= i < width * height ==> fb@[i] == (
                if i % (width as int) < x {
                    spec_frame_pixel(*p, grid, textures@, width as int, height as int, i)
                } else {
                    0
                }),
        decreases width - x,
    {
        let hit = cast(p, grid, x, width);
        let ghost before = fb@;
        render_column(fb, width, height, x, &hit, grid, textures);
        proof {
            assert forall|i: int| 0 <= i < width * height implies fb@[i] == (
                if i % (width as int) < x + 1 {
                    spec_frame_pixel(*p, grid, textures@, width as int, height as int, i)
                } else {
                    0
                }) by {
                if i % (width as int) == x {
                    assert(hit == spec_cast(*p, grid, i % (width as int), width as int));
                } else {
                    assert(fb@[i] == before[i]);
                }
            }
        }
        x = x + 1;
    }
}

/// Rendering is deterministic: the frame contract fixes every pixel as a
/// function of the updated pose, the map and the textures alone, so two
/// framebuffers written for the same inputs — the same pose rendered twice —
/// are identical bit for bit.
pub proof fn lemma_render_deterministic(
    a: Seq<u32>,
    b: Seq<u32>,
    p: PositionalData,
    grid: &Grid,
    textures: Seq<Texture>,
    width: int,
    height: int,
)
    requires
        a.len() == width * height,
        b.len() == width * height,
        forall|i: int|
            0 <= i < width * height ==> #[trigger] a[i] == spec_frame_pixel(
                p, grid, textures, width, height, i),
        forall|i: int|
            0 <= i < width * height ==> #[trigger] b[i] == spec_frame_pixel(
                p, grid, textures, width, height, i),
    ensures
        a == b,
{
    assert(a =~= b);
}

/// Dividing a nonnegative value by a positive one never grows it.
proof fn lemma_div_shrinks(n: int, d: int)
    requires
        0 <= n,
        1 <= d,
    ensures
        0 <= n / d <= n,
{
    lemma_fundamental_div_mod(n, d);
    lemma_mod_bound(n, d);
    assert(0 <= n / d <= n) by (nonlinear_arith)
        requires
            n == d * (n / d) + n % d,
            0 <= n % d < d,
            0 <= n,
            1 <= d,
    {}
}

/// A row-major framebuffer index stays within the buffer, and the buffer
/// itself is small enough to index with a `usize`.
proof fn lemma_fb_index_bound(y: int, column: int, width: int, height: int)
    by (nonlinear_arith)
    requires
        0 <= column < width <= 8192,
        0 <= y < height <= 8192,
    ensures
        0 <= y * width + column < width * height,
        width * height <= 67108864,
{
}

} // verus!
