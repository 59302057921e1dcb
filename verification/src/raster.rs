//! The rasterizer: fills one screen-space triangle at a time with a
//! depth-buffered barycentric test, and runs the whole face list of a
//! frame. The contract of `fill_triangle` pins down every pixel of the
//! buffer, so the depth-order law and the scenario tests rest on it.
use vstd::prelude::*;
use crate::fixed::{
    tdiv, mag, clamp_s, min3, max3, tdiv64, tdiv128, clamp64, min3_64, max3_64, lemma_mul_rng,
    lemma_tdiv_mono, lemma_tdiv_exact, lemma_tdiv_between,
};
use crate::geom::{
    P, in_bound, area_s, w0_s, w1_s, w2_s, inside_s, edge_function, lemma_barycentric,
    lemma_weighted_sum_range, lemma_inside_bbox,
};
use crate::light::{Color, shade_color_s, shade};
use crate::mesh::Mesh;
use crate::transform::{
    Mat4, mat_wf, bounded_mat, world_pt_s, ndc_pt_s, screen_pt_s, transform_vertices,
};
use crate::{SCALE, COORD_BOUND, AREA_EPS, DEPTH_INF, MAT_BOUND, MAX_DIM};
use vstd::arithmetic::div_mod::{
    lemma_fundamental_div_mod, lemma_fundamental_div_mod_converse, lemma_mod_bound,
    lemma_div_is_ordered,
};

verus! {

/// A triangle whose doubled screen area is below the threshold is
/// degenerate (edge-on or collapsed) and is skipped whole.
pub open spec fn degenerate_s(s0: P, s1: P, s2: P) -> bool {
    mag(area_s(s0, s1, s2)) < AREA_EPS as int
}

/// The numerator of the interpolated depth at a sample point: the screen
/// z values weighted by the edge weights.
pub open spec fn depth_num_s(s0: P, s1: P, s2: P, px: int, py: int) -> int {
    w0_s(s0, s1, s2, px, py) * s0.z + w1_s(s0, s1, s2, px, py) * s1.z + w2_s(s0, s1, s2, px, py)
        * s2.z
}

/// The interpolated depth at a sample point: the barycentric-weighted sum
/// of the three screen z values (linear in screen space).
pub open spec fn depth_s(s0: P, s1: P, s2: P, px: int, py: int) -> int {
    tdiv(depth_num_s(s0, s1, s2, px, py), area_s(s0, s1, s2))
}

/// The triangle hits the pixel (x, y): it is not degenerate and the pixel
/// center lies inside it.
pub open spec fn hits_s(s0: P, s1: P, s2: P, x: int, y: int) -> bool {
    !degenerate_s(s0, s1, s2) && inside_s(s0, s1, s2, x * SCALE, y * SCALE)
}

/// The triangle writes buffer cell k: it hits the pixel and its
/// interpolated depth there strictly beats the stored depth.
pub open spec fn pix_writes_s(deps: Seq<i64>, width: int, s0: P, s1: P, s2: P, k: int) -> bool {
    hits_s(s0, s1, s2, k % width, k / width) && depth_s(s0, s1, s2, (k % width) * SCALE, (k
        / width) * SCALE) < deps[k]
}

/// The color buffer after one triangle: its flat shade where it writes,
/// the old color everywhere else.
pub open spec fn raster_color_s(
    cols: Seq<Color>,
    deps: Seq<i64>,
    width: int,
    w0: P,
    w1: P,
    w2: P,
    s0: P,
    s1: P,
    s2: P,
    light: P,
) -> Seq<Color> {
    Seq::new(
        cols.len(),
        |k: int|
            if pix_writes_s(deps, width, s0, s1, s2, k) {
                shade_color_s(w0, w1, w2, light)
            } else {
                cols[k]
            },
    )
}

/// The depth buffer after one triangle: the interpolated depth where it
/// writes, the old depth everywhere else.
pub open spec fn raster_depth_s(deps: Seq<i64>, width: int, s0: P, s1: P, s2: P) -> Seq<i64> {
    Seq::new(
        deps.len(),
        |k: int|
            if pix_writes_s(deps, width, s0, s1, s2, k) {
                depth_s(s0, s1, s2, (k % width) * SCALE, (k / width) * SCALE) as i64
            } else {
                deps[k]
            },
    )
}

/// The frame buffer: a color plane and a depth plane of the same size,
/// row-major.
pub struct FrameBuffer {
    pub width: usize,
    pub height: usize,
    pub color: Vec<Color>,
    pub depth: Vec<i64>,
}

impl FrameBuffer {
    /// Both planes cover width x height pixels, and the dimensions stay
    /// within the range the rasterizer's arithmetic is proven for.
    pub open spec fn wf(self) -> bool {
        &&& 1 <= self.width <= MAX_DIM
        &&& 1 <= self.height <= MAX_DIM
        &&& self.color.len() == self.width * self.height
        &&& self.depth.len() == self.width * self.height
    }

    /// Creates a buffer with every pixel at the background color and
    /// every depth at the far sentinel.
    pub fn new(width: usize, height: usize, background: Color) -> (fb: FrameBuffer)
        requires
            1 <= width <= MAX_DIM,
            1 <= height <= MAX_DIM,
        ensures
            fb.wf(),
            fb.width == width,
            fb.height == height,
            forall|k: int| 0 <= k < fb.color.len() ==> #[trigger] fb.color@[k] == background,
            forall|k: int| 0 <= k < fb.depth.len() ==> #[trigger] fb.depth@[k] == DEPTH_INF,
    {
        proof {
            lemma_mul_rng(width as int, height as int, 4096, 4096);
        }
        let n: usize = width * height;
        let mut color: Vec<Color> = Vec::new();
        let mut depth: Vec<i64> = Vec::new();
        let mut k: usize = 0;
        while k < n
            invariant
                k <= n,
                color.len() == k,
                depth.len() == k,
                forall|i: int| 0 <= i < k ==> #[trigger] color@[i] == background,
                forall|i: int| 0 <= i < k ==> #[trigger] depth@[i] == DEPTH_INF,
            decreases n - k,
        {
            color.push(background);
            depth.push(DEPTH_INF);
            k = k + 1;
        }
        FrameBuffer { width, height, color, depth }
    }

    /// Resets every pixel to the background color and every depth to the
    /// far sentinel, without changing the dimensions.
    pub fn clear(&mut self, background: Color)
        requires
            old(self).wf(),
        ensures
            final(self).wf(),
            final(self).width == old(self).width,
            final(self).height == old(self).height,
            forall|k: int|
                0 <= k < final(self).color.len() ==> #[trigger] final(self).color@[k]
                    == background,
            forall|k: int|
                0 <= k < final(self).depth.len() ==> #[trigger] final(self).depth@[k] == DEPTH_INF,
    {
        let n: usize = self.color.len();
        let mut k: usize = 0;
        while k < n
            invariant
                k <= n,
                self.wf(),
                self.width == old(self).width,
                self.height == old(self).height,
                n == self.color.len(),
                forall|i: int| 0 <= i < k ==> #[trigger] self.color@[i] == background,
                forall|i: int| 0 <= i < k ==> #[trigger] self.depth@[i] == DEPTH_INF,
            decreases n - k,
        {
            self.color.set(k, background);
            self.depth.set(k, DEPTH_INF);
            k = k + 1;
        }
    }
}

/// A buffer cell index k splits into the pixel column k % width and row
/// k / width, and the row is inside the viewport.
proof fn lemma_cell_coords(k: int, width: int, height: int)
    requires
        width >= 1,
        height >= 1,
        0 <= k < width * height,
    ensures
        0 <= k % width < width,
        0 <= k / width < height,
        k == (k / width) * width + (k % width),
{
    lemma_fundamental_div_mod(k, width);
    lemma_mod_bound(k, width);
    lemma_div_is_ordered(k, width * height - 1, width);
    assert(width * height - 1 == (height - 1) * width + (width - 1)) by (nonlinear_arith);
    lemma_fundamental_div_mod_converse(width * height - 1, width, height - 1, width - 1);
    assert((k / width) * width == width * (k / width)) by (nonlinear_arith);
}

/// The pixel row and column reach their cell index back.
proof fn lemma_coords_cell(x: int, y: int, width: int, height: int)
    requires
        width >= 1,
        height >= 1,
        0 <= x < width,
        0 <= y < height,
    ensures
        0 <= y * width + x < width * height,
        (y * width + x) % width == x,
        (y * width + x) / width == y,

{
    assert(0 <= y * width + x && y * width + x <= width * height - 1) by (nonlinear_arith)
        requires
            width >= 1,
            height >= 1,
            0 <= x < width,
            0 <= y < height,
    ;
    lemma_fundamental_div_mod_converse(y * width + x, width, y, x);
}

/// Interpolated depth stays between the extreme z values of the triangle,
/// wherever the triangle is hit.
proof fn lemma_depth_range(s0: P, s1: P, s2: P, px: int, py: int, bz: int)
    requires
        inside_s(s0, s1, s2, px, py),
        mag(s0.z as int) <= bz,
        mag(s1.z as int) <= bz,
        mag(s2.z as int) <= bz,
    ensures
        area_s(s0, s1, s2) != 0,
        mag(depth_s(s0, s1, s2, px, py)) <= bz,
{
    lemma_barycentric(s0, s1, s2, px, py);
    let e0 = w0_s(s0, s1, s2, px, py);
    let e1 = w1_s(s0, s1, s2, px, py);
    let e2 = w2_s(s0, s1, s2, px, py);
    let area = area_s(s0, s1, s2);
    let n = depth_num_s(s0, s1, s2, px, py);
    lemma_weighted_sum_range(
        e0, e1, e2, s0.z as int, s1.z as int, s2.z as int, area, -bz, bz,
    );
    if area > 0 {
        assert((-bz) * area == -(bz * area)) by (nonlinear_arith);
        lemma_tdiv_between(n, area, -bz, bz);
    } else {
        assert(tdiv(n, area) == tdiv(n * -1, area * -1));
        assert((-bz) * area == bz * (area * -1)) by (nonlinear_arith);
        assert(bz * area == (-bz) * (area * -1)) by (nonlinear_arith);
        assert((-bz) * (area * -1) <= n * -1 <= bz * (area * -1)) by (nonlinear_arith)
            requires
                bz * area <= n <= (-bz) * area,
                (-bz) * area == bz * (area * -1),
                bz * area == (-bz) * (area * -1),
        ;
        lemma_tdiv_between(n * -1, area * -1, -bz, bz);
    }
}

/// A pixel of the viewport that the triangle hits lies inside the clamped
/// bounding box of the triangle.
proof fn lemma_hit_in_bbox(s0: P, s1: P, s2: P, x: int, y: int, w: int, h: int)
    requires
        inside_s(s0, s1, s2, x * SCALE, y * SCALE),
        0 <= x < w,
        0 <= y < h,
    ensures
        clamp_s(tdiv(min3(s0.x as int, s1.x as int, s2.x as int), SCALE as int), 0, w - 1) <= x,
        x <= clamp_s(tdiv(max3(s0.x as int, s1.x as int, s2.x as int), SCALE as int), 0, w - 1),
        clamp_s(tdiv(min3(s0.y as int, s1.y as int, s2.y as int), SCALE as int), 0, h - 1) <= y,
        y <= clamp_s(tdiv(max3(s0.y as int, s1.y as int, s2.y as int), SCALE as int), 0, h - 1),
{
    lemma_inside_bbox(s0, s1, s2, x * SCALE, y * SCALE);
    lemma_tdiv_exact(x, SCALE as int);
    lemma_tdiv_exact(y, SCALE as int);
    lemma_tdiv_mono(min3(s0.x as int, s1.x as int, s2.x as int), x * SCALE, SCALE as int);
    lemma_tdiv_mono(x * SCALE, max3(s0.x as int, s1.x as int, s2.x as int), SCALE as int);
    lemma_tdiv_mono(min3(s0.y as int, s1.y as int, s2.y as int), y * SCALE, SCALE as int);
    lemma_tdiv_mono(y * SCALE, max3(s0.y as int, s1.y as int, s2.y as int), SCALE as int);
}

/// Shades and draws the visible pixels of one triangle: `w0 w1 w2` are
/// its world-space corners (they decide the flat color), `s0 s1 s2` the
/// corresponding screen-space corners. A pixel is painted exactly when
/// the pixel center lies inside the screen triangle and the interpolated
/// depth strictly beats the depth buffer; everything else is untouched.
/// A triangle of near-zero area writes nothing.
pub fn fill_triangle(fb: &mut FrameBuffer, w0: P, w1: P, w2: P, s0: P, s1: P, s2: P, light: P)
    requires
        old(fb).wf(),
        in_bound(w0, COORD_BOUND as int),
        in_bound(w1, COORD_BOUND as int),
        in_bound(w2, COORD_BOUND as int),
        in_bound(light, COORD_BOUND as int),
        in_bound(s0, COORD_BOUND as int),
        in_bound(s1, COORD_BOUND as int),
        in_bound(s2, COORD_BOUND as int),
    ensures
        final(fb).wf(),
        final(fb).width == old(fb).width,
        final(fb).height == old(fb).height,
        final(fb).color@ == raster_color_s(
            old(fb).color@,
            old(fb).depth@,
            old(fb).width as int,
            w0,
            w1,
            w2,
            s0,
            s1,
            s2,
            light,
        ),
        final(fb).depth@ == raster_depth_s(old(fb).depth@, old(fb).width as int, s0, s1, s2),
        degenerate_s(s0, s1, s2) ==> final(fb).color@ == old(fb).color@ && final(fb).depth@ == old(
            fb,
        ).depth@,
{
    let ghost cols0 = fb.color@;
    let ghost deps0 = fb.depth@;
    let ghost wd = fb.width as int;
    let ghost tc = raster_color_s(cols0, deps0, wd, w0, w1, w2, s0, s1, s2, light);
    let ghost td = raster_depth_s(deps0, wd, s0, s1, s2);
    let area = edge_function(s0, s1, s2);
    if -AREA_EPS < area && area < AREA_EPS {
        proof {
            assert forall|k: int| 0 <= k < cols0.len() implies tc[k] == cols0[k] && td[k]
                == deps0[k] by {
                assert(!pix_writes_s(deps0, wd, s0, s1, s2, k));
            }
            assert(tc =~= cols0);
            assert(td =~= deps0);
        }
        return ;
    }
    let color = shade(w0, w1, w2, light);
    let w = fb.width;
    let h = fb.height;
    let lo_x = clamp64(tdiv64(min3_64(s0.x, s1.x, s2.x), SCALE), 0, (w - 1) as i64) as usize;
    let hi_x = clamp64(tdiv64(max3_64(s0.x, s1.x, s2.x), SCALE), 0, (w - 1) as i64) as usize;
    let lo_y = clamp64(tdiv64(min3_64(s0.y, s1.y, s2.y), SCALE), 0, (h - 1) as i64) as usize;
    let hi_y = clamp64(tdiv64(max3_64(s0.y, s1.y, s2.y), SCALE), 0, (h - 1) as i64) as usize;
    let mut y: usize = lo_y;
    while y <= hi_y
        invariant
            old(fb).wf(),
            fb.wf(),
            fb.width == old(fb).width,
            fb.height == old(fb).height,
            w == fb.width,
            h == fb.height,
            wd == w as int,
            cols0.len() == w * h,
            deps0.len() == w * h,
            fb.color.len() == cols0.len(),
            fb.depth.len() == deps0.len(),
            tc == raster_color_s(cols0, deps0, wd, w0, w1, w2, s0, s1, s2, light),
            td == raster_depth_s(deps0, wd, s0, s1, s2),
            in_bound(w0, COORD_BOUND as int),
            in_bound(w1, COORD_BOUND as int),
            in_bound(w2, COORD_BOUND as int),
            in_bound(light, COORD_BOUND as int),
            in_bound(s0, COORD_BOUND as int),
            in_bound(s1, COORD_BOUND as int),
            in_bound(s2, COORD_BOUND as int),
            area as int == area_s(s0, s1, s2),
            mag(area as int) >= AREA_EPS as int,
            color == shade_color_s(w0, w1, w2, light),
            lo_x as int == clamp_s(
                tdiv(min3(s0.x as int, s1.x as int, s2.x as int), SCALE as int),
                0,
                w as int - 1,
            ),
            hi_x as int == clamp_s(
                tdiv(max3(s0.x as int, s1.x as int, s2.x as int), SCALE as int),
                0,
                w as int - 1,
            ),
            lo_y as int == clamp_s(
                tdiv(min3(s0.y as int, s1.y as int, s2.y as int), SCALE as int),
                0,
                h as int - 1,
            ),
            hi_y as int == clamp_s(
                tdiv(max3(s0.y as int, s1.y as int, s2.y as int), SCALE as int),
                0,
                h as int - 1,
            ),
            lo_x <= hi_x < w,
            lo_y <= y,
            hi_y < h,
            y <= hi_y + 1,
            forall|k: int|
                #![trigger fb.color@[k]]
                #![trigger fb.depth@[k]]
                0 <= k < cols0.len() ==> {
                    if processed_s(
                        k,
                        wd,
                        lo_x as int,
                        hi_x as int,
                        lo_y as int,
                        hi_y as int,
                        y as int,
                        lo_x as int,
                    ) {
                        fb.color@[k] == tc[k] && fb.depth@[k] == td[k]
                    } else {
                        fb.color@[k] == cols0[k] && fb.depth@[k] == deps0[k]
                    }
                },
        decreases hi_y + 1 - y,
    {
        let mut x: usize = lo_x;
        while x <= hi_x
            invariant
                old(fb).wf(),
                fb.wf(),
                fb.width == old(fb).width,
                fb.height == old(fb).height,
                w == fb.width,
                h == fb.height,
                wd == w as int,
                cols0.len() == w * h,
                deps0.len() == w * h,
                fb.color.len() == cols0.len(),
                fb.depth.len() == deps0.len(),
                tc == raster_color_s(cols0, deps0, wd, w0, w1, w2, s0, s1, s2, light),
                td == raster_depth_s(deps0, wd, s0, s1, s2),
                in_bound(w0, COORD_BOUND as int),
                in_bound(w1, COORD_BOUND as int),
                in_bound(w2, COORD_BOUND as int),
                in_bound(light, COORD_BOUND as int),
                in_bound(s0, COORD_BOUND as int),
                in_bound(s1, COORD_BOUND as int),
                in_bound(s2, COORD_BOUND as int),
                area as int == area_s(s0, s1, s2),
                mag(area as int) >= AREA_EPS as int,
                color == shade_color_s(w0, w1, w2, light),
                lo_x <= x,
                lo_x <= hi_x < w,
                x <= hi_x + 1,
                lo_y <= y <= hi_y,
                hi_y < h,
                forall|k: int|
                    #![trigger fb.color@[k]]
                    #![trigger fb.depth@[k]]
                    0 <= k < cols0.len() ==> {
                        if processed_s(
                            k,
                            wd,
                            lo_x as int,
                            hi_x as int,
                            lo_y as int,
                            hi_y as int,
                            y as int,
                            x as int,
                        ) {
                            fb.color@[k] == tc[k] && fb.depth@[k] == td[k]
                        } else {
                            fb.color@[k] == cols0[k] && fb.depth@[k] == deps0[k]
                        }
                    },
            decreases hi_x + 1 - x,
        {
            let ghost pc = fb.color@;
            let ghost pd = fb.depth@;
            proof {
                lemma_coords_cell(x as int, y as int, w as int, h as int);
            }
            let idx: usize = y * w + x;
            proof {
                assert(!processed_s(
                    idx as int,
                    wd,
                    lo_x as int,
                    hi_x as int,
                    lo_y as int,
                    hi_y as int,
                    y as int,
                    x as int,
                ));
                assert(fb.color@[idx as int] == cols0[idx as int]);
                assert(fb.depth@[idx as int] == deps0[idx as int]);
            }
            let pe = P { x: (x as i64) * SCALE, y: (y as i64) * SCALE, z: 0 };
            let e0 = edge_function(s1, s2, pe);
            let e1 = edge_function(s2, s0, pe);
            let e2 = edge_function(s0, s1, pe);
            let ins = (area > 0 && e0 >= 0 && e1 >= 0 && e2 >= 0) || (area < 0 && e0 <= 0 && e1
                <= 0 && e2 <= 0);
            if ins {
                proof {
                    lemma_depth_range(
                        s0,
                        s1,
                        s2,
                        x as int * SCALE as int,
                        y as int * SCALE as int,
                        COORD_BOUND as int,
                    );
                    lemma_mul_rng(e0 as int, s0.z as int, 0x800_0000_0000_0000, 0x1000_0000);
                    lemma_mul_rng(e1 as int, s1.z as int, 0x800_0000_0000_0000, 0x1000_0000);
                    lemma_mul_rng(e2 as int, s2.z as int, 0x800_0000_0000_0000, 0x1000_0000);
                }
                let znum: i128 = (e0 as i128) * (s0.z as i128) + (e1 as i128) * (s1.z as i128) + (
                e2 as i128) * (s2.z as i128);
                let zq: i128 = tdiv128(znum, area as i128);
                let zv: i64 = zq as i64;
                if zv < fb.depth[idx] {
                    fb.color.set(idx, color);
                    fb.depth.set(idx, zv);
                    proof {
                        assert(pix_writes_s(deps0, wd, s0, s1, s2, idx as int));
                        assert(tc[idx as int] == shade_color_s(w0, w1, w2, light));
                        assert(td[idx as int] == zv);
                    }
                } else {
                    proof {
                        assert(!pix_writes_s(deps0, wd, s0, s1, s2, idx as int));
                        assert(tc[idx as int] == cols0[idx as int]);
                        assert(td[idx as int] == deps0[idx as int]);
                    }
                }
            } else {
                proof {
                    assert(!inside_s(s0, s1, s2, x as int * SCALE as int, y as int * SCALE as int));
                    assert(!pix_writes_s(deps0, wd, s0, s1, s2, idx as int));
                    assert(tc[idx as int] == cols0[idx as int]);
                    assert(td[idx as int] == deps0[idx as int]);
                }
            }
            proof {
                assert(fb.color@[idx as int] == tc[idx as int]);
                assert(fb.depth@[idx as int] == td[idx as int]);
                assert forall|k: int| 0 <= k < cols0.len() implies {
                    if processed_s(
                        k,
                        wd,
                        lo_x as int,
                        hi_x as int,
                        lo_y as int,
                        hi_y as int,
                        y as int,
                        x as int + 1,
                    ) {
                        fb.color@[k] == tc[k] && fb.depth@[k] == td[k]
                    } else {
                        fb.color@[k] == cols0[k] && fb.depth@[k] == deps0[k]
                    }
                } by {
                    lemma_cell_coords(k, wd, h as int);
                    if k != idx as int {
                        assert(k == (k / wd) * wd + (k % wd));
                        assert(!(k % wd == x as int && k / wd == y as int));
                        assert(processed_s(
                            k,
                            wd,
                            lo_x as int,
                            hi_x as int,
                            lo_y as int,
                            hi_y as int,
                            y as int,
                            x as int + 1,
                        ) == processed_s(
                            k,
                            wd,
                            lo_x as int,
                            hi_x as int,
                            lo_y as int,
                            hi_y as int,
                            y as int,
                            x as int,
                        ));
                        assert(fb.color@[k] == pc[k]);
                        assert(fb.depth@[k] == pd[k]);
                    }
                }
            }
            x = x + 1;
        }
        proof {
            assert forall|k: int|
                #![trigger fb.color@[k]]
                0 <= k < cols0.len() implies processed_s(
                k,
                wd,
                lo_x as int,
                hi_x as int,
                lo_y as int,
                hi_y as int,
                y as int,
                hi_x as int + 1,
            ) == processed_s(
                k,
                wd,
                lo_x as int,
                hi_x as int,
                lo_y as int,
                hi_y as int,
                y as int + 1,
                lo_x as int,
            ) by {
                lemma_cell_coords(k, wd, h as int);
            }
        }
        y = y + 1;
    }
    proof {
        assert forall|k: int| 0 <= k < cols0.len() implies fb.color@[k] == tc[k] && fb.depth@[k]
            == td[k] by {
            lemma_cell_coords(k, wd, h as int);
            let xk = k % wd;
            let yk = k / wd;
            if !processed_s(
                k,
                wd,
                lo_x as int,
                hi_x as int,
                lo_y as int,
                hi_y as int,
                (hi_y + 1) as int,
                lo_x as int,
            ) {
                if inside_s(s0, s1, s2, xk * SCALE, yk * SCALE) {
                    lemma_hit_in_bbox(s0, s1, s2, xk, yk, w as int, h as int);
                }
                assert(!pix_writes_s(deps0, wd, s0, s1, s2, k));
            }
        }
        assert(fb.color@ =~= tc);
        assert(fb.depth@ =~= td);
    }
}


/// Depth-test order independence: drawing the same two triangles in
/// either order leaves identical color and depth buffers — at every
/// pixel the nearer triangle wins, and a tie is never overwritten — as
/// long as no pixel sees both triangles at exactly equal depth with
/// different shades (on such a pixel the strict depth test keeps
/// whichever triangle came first).
pub proof fn lemma_draw_order(
    cols: Seq<Color>,
    deps: Seq<i64>,
    width: int,
    wa0: P, wa1: P, wa2: P, sa0: P, sa1: P, sa2: P,
    wb0: P, wb1: P, wb2: P, sb0: P, sb1: P, sb2: P,
    light: P,
)
    requires
        width >= 1,
        cols.len() == deps.len(),
        in_bound(sa0, COORD_BOUND as int),
        in_bound(sa1, COORD_BOUND as int),
        in_bound(sa2, COORD_BOUND as int),
        in_bound(sb0, COORD_BOUND as int),
        in_bound(sb1, COORD_BOUND as int),
        in_bound(sb2, COORD_BOUND as int),
        forall|k: int|
            #![trigger deps[k]]
            0 <= k < deps.len() && hits_s(sa0, sa1, sa2, k % width, k / width) && hits_s(
                sb0,
                sb1,
                sb2,
                k % width,
                k / width,
            ) && depth_s(sa0, sa1, sa2, (k % width) * SCALE, (k / width) * SCALE) == depth_s(
                sb0,
                sb1,
                sb2,
                (k % width) * SCALE,
                (k / width) * SCALE,
            ) ==> shade_color_s(wa0, wa1, wa2, light) == shade_color_s(wb0, wb1, wb2, light),
    ensures
        raster_color_s(
            raster_color_s(cols, deps, width, wa0, wa1, wa2, sa0, sa1, sa2, light),
            raster_depth_s(deps, width, sa0, sa1, sa2),
            width,
            wb0, wb1, wb2, sb0, sb1, sb2,
            light,
        ) == raster_color_s(
            raster_color_s(cols, deps, width, wb0, wb1, wb2, sb0, sb1, sb2, light),
            raster_depth_s(deps, width, sb0, sb1, sb2),
            width,
            wa0, wa1, wa2, sa0, sa1, sa2,
            light,
        ),
        raster_depth_s(
            raster_depth_s(deps, width, sa0, sa1, sa2),
            width,
            sb0, sb1, sb2,
        ) == raster_depth_s(
            raster_depth_s(deps, width, sb0, sb1, sb2),
            width,
            sa0, sa1, sa2,
        ),
{
    let ca1 = raster_color_s(cols, deps, width, wa0, wa1, wa2, sa0, sa1, sa2, light);
    let da1 = raster_depth_s(deps, width, sa0, sa1, sa2);
    let cb1 = raster_color_s(cols, deps, width, wb0, wb1, wb2, sb0, sb1, sb2, light);
    let db1 = raster_depth_s(deps, width, sb0, sb1, sb2);
    let cab = raster_color_s(ca1, da1, width, wb0, wb1, wb2, sb0, sb1, sb2, light);
    let dab = raster_depth_s(da1, width, sb0, sb1, sb2);
    let cba = raster_color_s(cb1, db1, width, wa0, wa1, wa2, sa0, sa1, sa2, light);
    let dba = raster_depth_s(db1, width, sa0, sa1, sa2);
    assert forall|k: int| 0 <= k < deps.len() implies cab[k] == cba[k] && dab[k] == dba[k] by {
        lemma_fundamental_div_mod(k, width);
        lemma_mod_bound(k, width);
        let xk = k % width;
        let yk = k / width;
        let ha = hits_s(sa0, sa1, sa2, xk, yk);
        let hb = hits_s(sb0, sb1, sb2, xk, yk);
        if ha {
            lemma_depth_range(sa0, sa1, sa2, xk * SCALE, yk * SCALE, COORD_BOUND as int);
        }
        if hb {
            lemma_depth_range(sb0, sb1, sb2, xk * SCALE, yk * SCALE, COORD_BOUND as int);
        }
        assert(deps[k] == deps[k]);
    }
    assert(cab =~= cba);
    assert(dab =~= dba);
}

/// The world-space points of every vertex under the model matrix.
pub open spec fn world_seq_s(m: Seq<int>, verts: Seq<P>) -> Seq<P> {
    verts.map_values(|p: P| world_pt_s(m, p))
}

/// The screen-space points of every vertex: world, perspective divide,
/// viewport.
pub open spec fn screen_seq_s(m: Seq<int>, verts: Seq<P>) -> Seq<P> {
    verts.map_values(|p: P| screen_pt_s(ndc_pt_s(world_pt_s(m, p))))
}

/// The buffers after rasterizing the first n faces in order. A face with
/// fewer than three indices is skipped; of a longer face only the first
/// three indices are drawn (the leading-vertex fan policy).
pub open spec fn render_faces_s(
    cols: Seq<Color>,
    deps: Seq<i64>,
    width: int,
    faces: Seq<Vec<usize>>,
    world: Seq<P>,
    scr: Seq<P>,
    light: P,
    n: int,
) -> (Seq<Color>, Seq<i64>)
    decreases n,
{
    if n <= 0 {
        (cols, deps)
    } else {
        let prev = render_faces_s(cols, deps, width, faces, world, scr, light, n - 1);
        let f = faces[n - 1];
        if f@.len() < 3 {
            prev
        } else {
            let i0 = f@[0] as int;
            let i1 = f@[1] as int;
            let i2 = f@[2] as int;
            (
                raster_color_s(
                    prev.0,
                    prev.1,
                    width,
                    world[i0], world[i1], world[i2],
                    scr[i0], scr[i1], scr[i2],
                    light,
                ),
                raster_depth_s(prev.1, width, scr[i0], scr[i1], scr[i2]),
            )
        }
    }
}

/// Renders one frame of the mesh into the buffer: transforms every vertex
/// once, then rasterizes every face in order, triangulating longer faces
/// as a fan of their first three indices.
pub fn render_frame(fb: &mut FrameBuffer, mesh: &Mesh, m: &Mat4, light: P)
    requires
        old(fb).wf(),
        mesh.wf(),
        mat_wf(*m),
        bounded_mat(m@, MAT_BOUND as int),
        in_bound(light, COORD_BOUND as int),
    ensures
        final(fb).wf(),
        final(fb).width == old(fb).width,
        final(fb).height == old(fb).height,
        (final(fb).color@, final(fb).depth@) == render_faces_s(
            old(fb).color@,
            old(fb).depth@,
            old(fb).width as int,
            mesh.faces@,
            world_seq_s(m@, mesh.vertices@),
            screen_seq_s(m@, mesh.vertices@),
            light,
            mesh.faces@.len() as int,
        ),
{
    let ghost cols0 = fb.color@;
    let ghost deps0 = fb.depth@;
    let ghost wd = fb.width as int;
    let ghost gw = world_seq_s(m@, mesh.vertices@);
    let ghost gs = screen_seq_s(m@, mesh.vertices@);
    let (world, scr) = transform_vertices(&mesh.vertices, m);
    proof {
        assert(world@ =~= gw);
        assert(scr@ =~= gs);
    }
    let nf = mesh.faces.len();
    let mut i: usize = 0;
    while i < nf
        invariant
            i <= nf,
            nf == mesh.faces.len(),
            fb.wf(),
            fb.width == old(fb).width,
            fb.height == old(fb).height,
            wd == fb.width as int,
            mesh.wf(),
            in_bound(light, COORD_BOUND as int),
            world@ == gw,
            scr@ == gs,
            world.len() == mesh.vertices.len(),
            scr.len() == mesh.vertices.len(),
            forall|j: int|
                0 <= j < world.len() ==> in_bound(#[trigger] world@[j], COORD_BOUND as int),
            forall|j: int|
                0 <= j < scr.len() ==> in_bound(#[trigger] scr@[j], COORD_BOUND as int),
            (fb.color@, fb.depth@) == render_faces_s(
                cols0,
                deps0,
                wd,
                mesh.faces@,
                gw,
                gs,
                light,
                i as int,
            ),
        decreases nf - i,
    {
        let flen = mesh.faces[i].len();
        if flen >= 3 {
            let i0 = mesh.faces[i][0];
            let i1 = mesh.faces[i][1];
            let i2 = mesh.faces[i][2];
            fill_triangle(
                fb,
                world[i0], world[i1], world[i2],
                scr[i0], scr[i1], scr[i2],
                light,
            );
            proof {
                assert((fb.color@, fb.depth@) == render_faces_s(
                    cols0,
                    deps0,
                    wd,
                    mesh.faces@,
                    gw,
                    gs,
                    light,
                    i as int + 1,
                ));
            }
        } else {
            proof {
                assert((fb.color@, fb.depth@) == render_faces_s(
                    cols0,
                    deps0,
                    wd,
                    mesh.faces@,
                    gw,
                    gs,
                    light,
                    i as int + 1,
                ));
            }
        }
        i = i + 1;
    }
}

/// Cell k has already been visited by the bounding-box walk that stands
/// at row cy, column cx.
pub open spec fn processed_s(
    k: int,
    width: int,
    lo_x: int,
    hi_x: int,
    lo_y: int,
    hi_y: int,
    cy: int,
    cx: int,
) -> bool {
    let xk = k % width;
    let yk = k / width;
    lo_x <= xk <= hi_x && lo_y <= yk <= hi_y && (yk < cy || (yk == cy && xk < cx))
}

} // verus!
