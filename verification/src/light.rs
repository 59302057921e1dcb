//! Flat lighting: one color per triangle from the world-space face normal
//! and the direction to the light.
use vstd::prelude::*;
use crate::fixed::{
    tdiv, mag, clamp_s, sqrt_floor, tdiv64, tdiv128, clamp64, isqrt, lemma_mul_rng,
    lemma_sqrt_floor,
};
use crate::geom::{P, in_bound};
use crate::{SCALE, COORD_BOUND};

verus! {

/// One displayable color.
#[derive(Clone, Copy, PartialEq, Eq, Structural, Debug)]
pub struct Color {
    pub r: u8,
    pub g: u8,
    pub b: u8,
}

/// The x component of the cross product of the two world-space edge
/// vectors w1 - w0 and w2 - w0: the (unnormalized) face normal.
pub open spec fn normal_x_s(w0: P, w1: P, w2: P) -> int {
    (w1.y - w0.y) * (w2.z - w0.z) - (w1.z - w0.z) * (w2.y - w0.y)
}

pub open spec fn normal_y_s(w0: P, w1: P, w2: P) -> int {
    (w1.z - w0.z) * (w2.x - w0.x) - (w1.x - w0.x) * (w2.z - w0.z)
}

pub open spec fn normal_z_s(w0: P, w1: P, w2: P) -> int {
    (w1.x - w0.x) * (w2.y - w0.y) - (w1.y - w0.y) * (w2.x - w0.x)
}

/// The squared length of the face normal.
pub open spec fn nn_s(w0: P, w1: P, w2: P) -> int {
    normal_x_s(w0, w1, w2) * normal_x_s(w0, w1, w2) + normal_y_s(w0, w1, w2) * normal_y_s(
        w0,
        w1,
        w2,
    ) + normal_z_s(w0, w1, w2) * normal_z_s(w0, w1, w2)
}

/// The squared length of the vector from w0 to the light.
pub open spec fn ll_s(w0: P, light: P) -> int {
    (light.x - w0.x) * (light.x - w0.x) + (light.y - w0.y) * (light.y - w0.y) + (light.z - w0.z)
        * (light.z - w0.z)
}

/// The dot product of the face normal with the vector toward the light.
pub open spec fn dot_s(w0: P, w1: P, w2: P, light: P) -> int {
    normal_x_s(w0, w1, w2) * (light.x - w0.x) + normal_y_s(w0, w1, w2) * (light.y - w0.y)
        + normal_z_s(w0, w1, w2) * (light.z - w0.z)
}

/// The flat lighting intensity, fixed-point in [0, 2 * SCALE]: the cosine
/// between the face normal and the light direction, through the floored
/// integer square roots of the squared lengths, zero when the light faces
/// away or either vector vanishes.
pub open spec fn intensity_s(w0: P, w1: P, w2: P, light: P) -> int {
    let d = dot_s(w0, w1, w2, light);
    let nn = nn_s(w0, w1, w2);
    let ll = ll_s(w0, light);
    if d <= 0 || nn == 0 || ll == 0 {
        0
    } else {
        clamp_s(
            tdiv(d * (SCALE as int), (sqrt_floor(nn as nat) * sqrt_floor(ll as nat)) as int),
            0,
            2 * SCALE as int,
        )
    }
}

/// One color channel: the intensity scaled by the channel's maximum and
/// clamped to it.
pub open spec fn channel_s(intensity: int, m: int) -> int {
    clamp_s(tdiv(intensity * m, SCALE as int), 0, m)
}

/// The flat color of a triangle: each channel of the warm material tint
/// scaled by the lighting intensity.
pub open spec fn shade_color_s(w0: P, w1: P, w2: P, light: P) -> Color {
    let i = intensity_s(w0, w1, w2, light);
    Color { r: channel_s(i, 255) as u8, g: channel_s(i, 210) as u8, b: channel_s(i, 0) as u8 }
}

/// A square is nonnegative.
proof fn lemma_square_nonneg(a: int) by (nonlinear_arith)
    ensures
        a * a >= 0,
{
}

/// A nonzero natural number has a square root of at least one.
proof fn lemma_sqrt_pos(n: nat)
    requires
        n >= 1,
    ensures
        sqrt_floor(n) >= 1,
{
    lemma_sqrt_floor(n);
    if sqrt_floor(n) == 0 {
        assert((sqrt_floor(n) + 1) * (sqrt_floor(n) + 1) == 1) by (nonlinear_arith)
            requires
                sqrt_floor(n) == 0,
        ;
        assert(false);
    }
}

/// Computes the flat lighting color of one world-space triangle lit from
/// `light`: the cosine of the normal against the light direction, scaled
/// into the warm material tint.
pub fn shade(w0: P, w1: P, w2: P, light: P) -> (c: Color)
    requires
        in_bound(w0, COORD_BOUND as int),
        in_bound(w1, COORD_BOUND as int),
        in_bound(w2, COORD_BOUND as int),
        in_bound(light, COORD_BOUND as int),
    ensures
        c == shade_color_s(w0, w1, w2, light),
{
    proof {
        lemma_mul_rng(w1.y - w0.y, w2.z - w0.z, 0x2000_0000, 0x2000_0000);
        lemma_mul_rng(w1.z - w0.z, w2.y - w0.y, 0x2000_0000, 0x2000_0000);
        lemma_mul_rng(w1.z - w0.z, w2.x - w0.x, 0x2000_0000, 0x2000_0000);
        lemma_mul_rng(w1.x - w0.x, w2.z - w0.z, 0x2000_0000, 0x2000_0000);
        lemma_mul_rng(w1.x - w0.x, w2.y - w0.y, 0x2000_0000, 0x2000_0000);
        lemma_mul_rng(w1.y - w0.y, w2.x - w0.x, 0x2000_0000, 0x2000_0000);
    }
    let nx: i128 = ((w1.y - w0.y) as i128) * ((w2.z - w0.z) as i128) - ((w1.z - w0.z) as i128) * ((
    w2.y - w0.y) as i128);
    let ny: i128 = ((w1.z - w0.z) as i128) * ((w2.x - w0.x) as i128) - ((w1.x - w0.x) as i128) * ((
    w2.z - w0.z) as i128);
    let nz: i128 = ((w1.x - w0.x) as i128) * ((w2.y - w0.y) as i128) - ((w1.y - w0.y) as i128) * ((
    w2.x - w0.x) as i128);
    let lx: i128 = (light.x - w0.x) as i128;
    let ly: i128 = (light.y - w0.y) as i128;
    let lz: i128 = (light.z - w0.z) as i128;
    proof {
        lemma_mul_rng(nx as int, lx as int, 0x800000000000000, 0x20000000);
        lemma_mul_rng(ny as int, ly as int, 0x800000000000000, 0x20000000);
        lemma_mul_rng(nz as int, lz as int, 0x800000000000000, 0x20000000);
        lemma_mul_rng(nx as int, nx as int, 0x800000000000000, 0x800000000000000);
        lemma_mul_rng(ny as int, ny as int, 0x800000000000000, 0x800000000000000);
        lemma_mul_rng(nz as int, nz as int, 0x800000000000000, 0x800000000000000);
        lemma_mul_rng(lx as int, lx as int, 0x20000000, 0x20000000);
        lemma_mul_rng(ly as int, ly as int, 0x20000000, 0x20000000);
        lemma_mul_rng(lz as int, lz as int, 0x20000000, 0x20000000);
        lemma_square_nonneg(nx as int);
        lemma_square_nonneg(ny as int);
        lemma_square_nonneg(nz as int);
        lemma_square_nonneg(lx as int);
        lemma_square_nonneg(ly as int);
        lemma_square_nonneg(lz as int);
    }
    let d: i128 = nx * lx + ny * ly + nz * lz;
    let nn: i128 = nx * nx + ny * ny + nz * nz;
    let ll: i128 = lx * lx + ly * ly + lz * lz;
    let intensity: i64 = if d <= 0 || nn == 0 || ll == 0 {
        0
    } else {
        let sn: u128 = isqrt(nn as u128);
        let sl: u128 = isqrt(ll as u128);
        proof {
            lemma_sqrt_pos(nn as nat);
            lemma_sqrt_pos(ll as nat);
            assert(sn as int <= 0x1000000000000000) by (nonlinear_arith)
                requires
                    (sn as int) * (sn as int) <= 0x1000000000000000000000000000000,
            ;
            assert(sl as int <= 0x40000000) by (nonlinear_arith)
                requires
                    (sl as int) * (sl as int) <= 0x1000000000000000,
            ;
            lemma_mul_rng(sn as int, sl as int, 0x1000000000000000, 0x40000000);
            assert((sn as int) * (sl as int) >= 1) by (nonlinear_arith)
                requires
                    sn as int >= 1,
                    sl as int >= 1,
            ;
            lemma_mul_rng(d as int, SCALE as int, 0x40000000000000000000000, 0x10000);
        }
        let den: i128 = (sn as i128) * (sl as i128);
        let q: i128 = tdiv128(d * (SCALE as i128), den);
        if q > 2 * (SCALE as i128) {
            2 * SCALE
        } else if q < 0 {
            0
        } else {
            q as i64
        }
    };
    proof {
        assert(intensity as int == intensity_s(w0, w1, w2, light));
    }
    let r = channel(intensity, 255);
    let g = channel(intensity, 210);
    let b = channel(intensity, 0);
    Color { r, g, b }
}

/// One color channel of the tint under the given intensity.
fn channel(intensity: i64, m: i64) -> (c: u8)
    requires
        0 <= intensity <= 2 * SCALE,
        0 <= m <= 255,
    ensures
        c as int == channel_s(intensity as int, m as int),
{
    proof {
        lemma_mul_rng(intensity as int, m as int, 0x2_0000, 255);
    }
    let v = tdiv64(intensity * m, SCALE);
    clamp64(v, 0, m) as u8
}

} // verus!
