//! The transform stage: the 4x4 model matrix built each frame from the
//! translation and rotation parameters, its application to every vertex,
//! the pinhole projection and the viewport mapping.
use vstd::prelude::*;
use crate::fixed::{
    tdiv, mag, clamp_s, tdiv64, tdiv128, clamp64, lemma_mul_rng, lemma_tdiv_mag_div,
};
use crate::geom::{P, in_bound};
use crate::{
    SCALE, COORD_BOUND, NDC_BOUND, TRANS_BOUND, MAT_BOUND, VERT_BOUND, APPLY_BOUND, ROT_STEP,
    TRANS_STEP, WIDTH, HEIGHT,
};
use vstd::arithmetic::div_mod::{lemma_div_is_ordered, lemma_div_by_multiple};

verus! {

/// The per-frame transform parameters: translation offsets and Euler
/// rotation angles (radians, fixed-point). Owned by the frame loop and
/// mutated only between frames.
#[derive(Clone, Copy, PartialEq, Eq, Structural, Debug)]
pub struct TranslationParams {
    pub dx: i64,
    pub dy: i64,
    pub dz: i64,
    pub angle_x: i64,
    pub angle_y: i64,
    pub angle_z: i64,
}

/// The sine and cosine of each rotation angle, fixed-point. Trigonometry
/// is outside this crate's arithmetic: the caller evaluates it and hands
/// the values in; every contract downstream is exact in them.
#[derive(Clone, Copy, PartialEq, Eq, Structural, Debug)]
pub struct EulerSinCos {
    pub sin_x: i64,
    pub cos_x: i64,
    pub sin_y: i64,
    pub cos_y: i64,
    pub sin_z: i64,
    pub cos_z: i64,
}

/// A 4x4 matrix of fixed-point entries, row-major.
pub struct Mat4 {
    pub e: Vec<i64>,
}

impl View for Mat4 {
    type V = Seq<int>;

    open spec fn view(&self) -> Seq<int> {
        self.e@.map_values(|v: i64| v as int)
    }
}

/// A well-formed matrix holds exactly 16 entries.
pub open spec fn mat_wf(m: Mat4) -> bool {
    m.e.len() == 16
}

/// Every entry of the 16-entry matrix has magnitude at most `b`.
pub open spec fn bounded_mat(m: Seq<int>, b: int) -> bool {
    m.len() == 16 && forall|k: int| 0 <= k < 16 ==> mag(#[trigger] m[k]) <= b
}

/// The fixed-point matrix product: each entry is the row-by-column sum of
/// products, scaled back down by one `SCALE` with truncating division.
pub open spec fn mul_mat(a: Seq<int>, b: Seq<int>) -> Seq<int> {
    Seq::new(
        16,
        |k: int|
            {
                let i = k / 4;
                let j = k % 4;
                tdiv(
                    a[4 * i] * b[j] + a[4 * i + 1] * b[4 + j] + a[4 * i + 2] * b[8 + j] + a[4 * i
                        + 3] * b[12 + j],
                    SCALE as int,
                )
            },
    )
}

/// The homogeneous translation matrix by (dx, dy, dz).
pub open spec fn trans_mat_s(dx: int, dy: int, dz: int) -> Seq<int> {
    seq![
        SCALE as int, 0, 0, dx,
        0, SCALE as int, 0, dy,
        0, 0, SCALE as int, dz,
        0, 0, 0, SCALE as int,
    ]
}

/// The homogeneous rotation about the x axis with sine `s` and cosine `c`.
pub open spec fn rot_x_mat_s(s: int, c: int) -> Seq<int> {
    seq![
        SCALE as int, 0, 0, 0,
        0, c, -s, 0,
        0, s, c, 0,
        0, 0, 0, SCALE as int,
    ]
}

/// The homogeneous rotation about the y axis with sine `s` and cosine `c`.
pub open spec fn rot_y_mat_s(s: int, c: int) -> Seq<int> {
    seq![
        c, 0, s, 0,
        0, SCALE as int, 0, 0,
        -s, 0, c, 0,
        0, 0, 0, SCALE as int,
    ]
}

/// The homogeneous rotation about the z axis with sine `s` and cosine `c`.
pub open spec fn rot_z_mat_s(s: int, c: int) -> Seq<int> {
    seq![
        c, -s, 0, 0,
        s, c, 0, 0,
        0, 0, SCALE as int, 0,
        0, 0, 0, SCALE as int,
    ]
}

/// The model matrix of one frame: Translation * RotZ * RotY * RotX. The
/// composition order is fixed: rotation turns the object about its local
/// origin, translation then moves the turned object.
pub open spec fn model_mat_s(tp: TranslationParams, sc: EulerSinCos) -> Seq<int> {
    mul_mat(
        trans_mat_s(tp.dx as int, tp.dy as int, tp.dz as int),
        mul_mat(
            rot_z_mat_s(sc.sin_z as int, sc.cos_z as int),
            mul_mat(
                rot_y_mat_s(sc.sin_y as int, sc.cos_y as int),
                rot_x_mat_s(sc.sin_x as int, sc.cos_x as int),
            ),
        ),
    )
}

/// Fixed-point matrix multiplication. The ghost bounds let callers chain
/// products without overflow.
pub fn mat_mul(a: &Mat4, b: &Mat4, Ghost(ba): Ghost<int>, Ghost(bb): Ghost<int>) -> (c: Mat4)
    requires
        mat_wf(*a),
        mat_wf(*b),
        0 <= ba,
        0 <= bb,
        bounded_mat(a@, ba),
        bounded_mat(b@, bb),
        4 * ba * bb <= (i64::MAX as int) * (SCALE as int),
    ensures
        mat_wf(c),
        c@ == mul_mat(a@, b@),
        bounded_mat(c@, (4 * ba * bb) / (SCALE as int)),
{
    let mut e: Vec<i64> = Vec::new();
    let mut k: usize = 0;
    while k < 16
        invariant
            k <= 16,
            e.len() == k,
            mat_wf(*a),
            mat_wf(*b),
            0 <= ba,
            0 <= bb,
            bounded_mat(a@, ba),
            bounded_mat(b@, bb),
            4 * ba * bb <= (i64::MAX as int) * (SCALE as int),
            forall|kk: int|
                0 <= kk < k ==> e@[kk] as int == mul_mat(a@, b@)[kk] && mag(#[trigger] (
                e@[kk]) as int) <= (4 * ba * bb) / (SCALE as int),
        decreases 16 - k,
    {
        let i: usize = k / 4;
        let j: usize = k % 4;
        proof {
            assert(a@[4 * i as int] == a.e@[4 * i as int] as int);
            assert(a@[4 * i + 1] == a.e@[4 * i + 1] as int);
            assert(a@[4 * i + 2] == a.e@[4 * i + 2] as int);
            assert(a@[4 * i + 3] == a.e@[4 * i + 3] as int);
            assert(b@[j as int] == b.e@[j as int] as int);
            assert(b@[4 + j as int] == b.e@[4 + j as int] as int);
            assert(b@[8 + j as int] == b.e@[8 + j as int] as int);
            assert(b@[12 + j as int] == b.e@[12 + j as int] as int);
            assert(4 * (ba * bb) == 4 * ba * bb) by (nonlinear_arith);
            lemma_mul_rng(a@[4 * i as int], b@[j as int], ba, bb);
            lemma_mul_rng(a@[4 * i + 1], b@[4 + j as int], ba, bb);
            lemma_mul_rng(a@[4 * i + 2], b@[8 + j as int], ba, bb);
            lemma_mul_rng(a@[4 * i + 3], b@[12 + j as int], ba, bb);
        }
        let s: i128 = (a.e[4 * i] as i128) * (b.e[j] as i128) + (a.e[4 * i + 1] as i128) * (b.e[4
            + j] as i128) + (a.e[4 * i + 2] as i128) * (b.e[8 + j] as i128) + (a.e[4 * i + 3]
            as i128) * (b.e[12 + j] as i128);
        let q: i128 = tdiv128(s, SCALE as i128);
        proof {
            assert(mag(s as int) <= 4 * ba * bb);
            lemma_tdiv_mag_div(s as int, SCALE as int, 4 * ba * bb);
            lemma_div_is_ordered(4 * ba * bb, (i64::MAX as int) * (SCALE as int), SCALE as int);
            lemma_div_by_multiple(i64::MAX as int, SCALE as int);
            assert(mul_mat(a@, b@)[k as int] == q as int);
        }
        e.push(q as i64);
        k = k + 1;
    }
    let c = Mat4 { e };
    proof {
        assert(c@ =~= mul_mat(a@, b@));
    }
    c
}

/// Builds the homogeneous translation matrix.
pub fn mat_translation(dx: i64, dy: i64, dz: i64) -> (m: Mat4)
    requires
        mag(dx as int) <= TRANS_BOUND as int,
        mag(dy as int) <= TRANS_BOUND as int,
        mag(dz as int) <= TRANS_BOUND as int,
    ensures
        mat_wf(m),
        m@ == trans_mat_s(dx as int, dy as int, dz as int),
        bounded_mat(m@, TRANS_BOUND as int),
{
    let e: Vec<i64> = vec![
        SCALE, 0, 0, dx,
        0, SCALE, 0, dy,
        0, 0, SCALE, dz,
        0, 0, 0, SCALE,
    ];
    let m = Mat4 { e };
    proof {
        assert(m@ =~= trans_mat_s(dx as int, dy as int, dz as int));
    }
    m
}

/// Builds the homogeneous rotation about the x axis.
pub fn mat_rot_x(s: i64, c: i64) -> (m: Mat4)
    requires
        mag(s as int) <= SCALE as int,
        mag(c as int) <= SCALE as int,
    ensures
        mat_wf(m),
        m@ == rot_x_mat_s(s as int, c as int),
        bounded_mat(m@, SCALE as int),
{
    let ns: i64 = -s;
    let e: Vec<i64> = vec![
        SCALE, 0, 0, 0,
        0, c, ns, 0,
        0, s, c, 0,
        0, 0, 0, SCALE,
    ];
    let m = Mat4 { e };
    proof {
        assert(m@ =~= rot_x_mat_s(s as int, c as int));
    }
    m
}

/// Builds the homogeneous rotation about the y axis.
pub fn mat_rot_y(s: i64, c: i64) -> (m: Mat4)
    requires
        mag(s as int) <= SCALE as int,
        mag(c as int) <= SCALE as int,
    ensures
        mat_wf(m),
        m@ == rot_y_mat_s(s as int, c as int),
        bounded_mat(m@, SCALE as int),
{
    let ns: i64 = -s;
    let e: Vec<i64> = vec![
        c, 0, s, 0,
        0, SCALE, 0, 0,
        ns, 0, c, 0,
        0, 0, 0, SCALE,
    ];
    let m = Mat4 { e };
    proof {
        assert(m@ =~= rot_y_mat_s(s as int, c as int));
    }
    m
}

/// Builds the homogeneous rotation about the z axis.
pub fn mat_rot_z(s: i64, c: i64) -> (m: Mat4)
    requires
        mag(s as int) <= SCALE as int,
        mag(c as int) <= SCALE as int,
    ensures
        mat_wf(m),
        m@ == rot_z_mat_s(s as int, c as int),
        bounded_mat(m@, SCALE as int),
{
    let ns: i64 = -s;
    let e: Vec<i64> = vec![
        c, ns, 0, 0,
        s, c, 0, 0,
        0, 0, SCALE, 0,
        0, 0, 0, SCALE,
    ];
    let m = Mat4 { e };
    proof {
        assert(m@ =~= rot_z_mat_s(s as int, c as int));
    }
    m
}

/// Builds the model matrix of one frame from the transform parameters and
/// the evaluated sines and cosines of its angles: Translation * RotZ *
/// RotY * RotX, in exactly that order.
pub fn build_model_matrix(tp: &TranslationParams, sc: &EulerSinCos) -> (m: Mat4)
    requires
        mag(tp.dx as int) <= TRANS_BOUND as int,
        mag(tp.dy as int) <= TRANS_BOUND as int,
        mag(tp.dz as int) <= TRANS_BOUND as int,
        mag(sc.sin_x as int) <= SCALE as int,
        mag(sc.cos_x as int) <= SCALE as int,
        mag(sc.sin_y as int) <= SCALE as int,
        mag(sc.cos_y as int) <= SCALE as int,
        mag(sc.sin_z as int) <= SCALE as int,
        mag(sc.cos_z as int) <= SCALE as int,
    ensures
        mat_wf(m),
        m@ == model_mat_s(*tp, *sc),
        bounded_mat(m@, MAT_BOUND as int),
{
    let rx = mat_rot_x(sc.sin_x, sc.cos_x);
    let ry = mat_rot_y(sc.sin_y, sc.cos_y);
    let rz = mat_rot_z(sc.sin_z, sc.cos_z);
    let t = mat_translation(tp.dx, tp.dy, tp.dz);
    let ryx = mat_mul(&ry, &rx, Ghost(SCALE as int), Ghost(SCALE as int));
    let rzyx = mat_mul(&rz, &ryx, Ghost(SCALE as int), Ghost(262144));
    let m = mat_mul(&t, &rzyx, Ghost(TRANS_BOUND as int), Ghost(1048576));
    proof {
        assert(forall|k: int| 0 <= k < 16 ==> mag(#[trigger] m@[k]) <= MAT_BOUND as int);
    }
    m
}


/// One row of the homogeneous matrix applied to a point with implicit
/// w = 1, scaled back down once.
pub open spec fn apply_s(m: Seq<int>, p: P, row: int) -> int {
    tdiv(
        m[4 * row] * p.x + m[4 * row + 1] * p.y + m[4 * row + 2] * p.z + m[4 * row + 3] * (
        SCALE as int),
        SCALE as int,
    )
}

/// Applies the model matrix to one point in homogeneous form.
pub fn translate_model(m: &Mat4, p: P) -> (r: P)
    requires
        mat_wf(*m),
        bounded_mat(m@, MAT_BOUND as int),
        in_bound(p, COORD_BOUND as int),
    ensures
        r.x as int == apply_s(m@, p, 0),
        r.y as int == apply_s(m@, p, 1),
        r.z as int == apply_s(m@, p, 2),
        in_bound(r, APPLY_BOUND as int),
{
    let x = apply_row(m, p, 0);
    let y = apply_row(m, p, 1);
    let z = apply_row(m, p, 2);
    P { x, y, z }
}

/// One row of the matrix application.
fn apply_row(m: &Mat4, p: P, row: usize) -> (r: i64)
    requires
        mat_wf(*m),
        bounded_mat(m@, MAT_BOUND as int),
        in_bound(p, COORD_BOUND as int),
        row < 4,
    ensures
        r as int == apply_s(m@, p, row as int),
        mag(r as int) <= APPLY_BOUND as int,
{
    proof {
        assert(m@[4 * row as int] == m.e@[4 * row as int] as int);
        assert(m@[4 * row + 1] == m.e@[4 * row + 1] as int);
        assert(m@[4 * row + 2] == m.e@[4 * row + 2] as int);
        assert(m@[4 * row + 3] == m.e@[4 * row + 3] as int);
        lemma_mul_rng(m@[4 * row as int], p.x as int, 0x4_0000_0000, 0x1000_0000);
        lemma_mul_rng(m@[4 * row + 1], p.y as int, 0x4_0000_0000, 0x1000_0000);
        lemma_mul_rng(m@[4 * row + 2], p.z as int, 0x4_0000_0000, 0x1000_0000);
        lemma_mul_rng(m@[4 * row + 3], SCALE as int, 0x4_0000_0000, 0x1_0000);
    }
    let s: i128 = (m.e[4 * row] as i128) * (p.x as i128) + (m.e[4 * row + 1] as i128) * (p.y
        as i128) + (m.e[4 * row + 2] as i128) * (p.z as i128) + (m.e[4 * row + 3] as i128) * (
    SCALE as i128);
    let q: i128 = tdiv128(s, SCALE as i128);
    proof {
        lemma_tdiv_mag_div(s as int, SCALE as int, 0xD0000_0000_0000_0000);
    }
    q as i64
}

/// The x coordinate after the pinhole perspective divide, clamped to the
/// representable range of normalized device coordinates. A point on the
/// camera plane (z = 0) has no finite projection; it is pinned to the
/// far edge of that range, and the viewport clamping downstream keeps it
/// harmless, as the design accepts in place of near-plane clipping.
pub open spec fn ndc_x_s(p: P) -> int {
    if p.z == 0 {
        NDC_BOUND as int
    } else {
        clamp_s(tdiv(p.x * (SCALE as int), p.z as int), -(NDC_BOUND as int), NDC_BOUND as int)
    }
}

/// The y coordinate after the perspective divide, clamped the same way.
pub open spec fn ndc_y_s(p: P) -> int {
    if p.z == 0 {
        NDC_BOUND as int
    } else {
        clamp_s(tdiv(p.y * (SCALE as int), p.z as int), -(NDC_BOUND as int), NDC_BOUND as int)
    }
}

/// The pinhole perspective projection x' = x/z, y' = y/z; depth passes
/// through unchanged.
pub fn project(p: P) -> (r: P)
    requires
        in_bound(p, APPLY_BOUND as int),
    ensures
        r.x as int == ndc_x_s(p),
        r.y as int == ndc_y_s(p),
        r.z == p.z,
        mag(r.x as int) <= NDC_BOUND as int,
        mag(r.y as int) <= NDC_BOUND as int,
{
    if p.z == 0 {
        return P { x: NDC_BOUND, y: NDC_BOUND, z: p.z };
    }
    proof {
        lemma_mul_rng(p.x as int, SCALE as int, 0x1_0000_0000_0000, 0x1_0000);
        lemma_mul_rng(p.y as int, SCALE as int, 0x1_0000_0000_0000, 0x1_0000);
    }
    let qx: i128 = tdiv128((p.x as i128) * (SCALE as i128), p.z as i128);
    let qy: i128 = tdiv128((p.y as i128) * (SCALE as i128), p.z as i128);
    let x: i64 = if qx < -(NDC_BOUND as i128) {
        -NDC_BOUND
    } else if qx > NDC_BOUND as i128 {
        NDC_BOUND
    } else {
        qx as i64
    };
    let y: i64 = if qy < -(NDC_BOUND as i128) {
        -NDC_BOUND
    } else if qy > NDC_BOUND as i128 {
        NDC_BOUND
    } else {
        qy as i64
    };
    P { x, y, z: p.z }
}

/// The viewport x mapping: normalized device x in [-1, 1] to pixel
/// columns [0, WIDTH], in fixed-point.
pub open spec fn screen_x_s(x: int) -> int {
    tdiv((x + SCALE as int) * (WIDTH as int), 2)
}

/// The viewport y mapping, with the y axis flipped: normalized device y
/// in [-1, 1] to pixel rows [HEIGHT, 0].
pub open spec fn screen_y_s(y: int) -> int {
    tdiv((SCALE as int - y) * (HEIGHT as int), 2)
}

/// Maps a post-projection point to screen space: the four corners of the
/// normalized square land exactly on the corners of the pixel rectangle,
/// the y axis flips, and depth passes through for the depth test.
pub fn screen(p: P) -> (r: P)
    requires
        mag(p.x as int) <= NDC_BOUND as int,
        mag(p.y as int) <= NDC_BOUND as int,
        mag(p.z as int) <= APPLY_BOUND as int,
    ensures
        r.x as int == screen_x_s(p.x as int),
        r.y as int == screen_y_s(p.y as int),
        r.z == p.z,
        mag(r.x as int) <= COORD_BOUND as int,
        mag(r.y as int) <= COORD_BOUND as int,
{
    proof {
        lemma_mul_rng(p.x + SCALE as int, WIDTH as int, 0x9_0000, 800);
        lemma_mul_rng(SCALE as int - p.y, HEIGHT as int, 0x9_0000, 600);
        lemma_tdiv_mag_div((p.x + SCALE as int) * (WIDTH as int), 2, 0x1_C200_0000);
        lemma_tdiv_mag_div((SCALE as int - p.y) * (HEIGHT as int), 2, 0x1_5180_0000);
    }
    let x: i64 = tdiv64((p.x + SCALE) * (WIDTH as i64), 2);
    let y: i64 = tdiv64((SCALE - p.y) * (HEIGHT as i64), 2);
    P { x, y, z: p.z }
}

/// Moves a point along z.
pub fn translate(p: P, dz: i64) -> (r: P)
    requires
        mag(p.z as int) <= APPLY_BOUND as int,
        mag(dz as int) <= TRANS_BOUND as int,
    ensures
        r.x == p.x,
        r.y == p.y,
        r.z as int == p.z + dz,
{
    P { x: p.x, y: p.y, z: p.z + dz }
}

/// Rotates a point about the x-parallel axis through the origin, given
/// the sine and cosine of the angle.
pub fn rotate_x(p: P, s: i64, c: i64) -> (r: P)
    requires
        in_bound(p, APPLY_BOUND as int),
        mag(s as int) <= SCALE as int,
        mag(c as int) <= SCALE as int,
    ensures
        r.x as int == tdiv(p.x * c - p.z * s, SCALE as int),
        r.z as int == tdiv(p.x * s + p.z * c, SCALE as int),
        r.y == p.y,
{
    proof {
        lemma_mul_rng(p.x as int, c as int, 0x1_0000_0000_0000, 0x1_0000);
        lemma_mul_rng(p.z as int, s as int, 0x1_0000_0000_0000, 0x1_0000);
        lemma_mul_rng(p.x as int, s as int, 0x1_0000_0000_0000, 0x1_0000);
        lemma_mul_rng(p.z as int, c as int, 0x1_0000_0000_0000, 0x1_0000);
        lemma_tdiv_mag_div(p.x * c - p.z * s, SCALE as int, 0x2_0000_0000_0000_0000);
        lemma_tdiv_mag_div(p.x * s + p.z * c, SCALE as int, 0x2_0000_0000_0000_0000);
    }
    let x: i128 = tdiv128((p.x as i128) * (c as i128) - (p.z as i128) * (s as i128), SCALE as i128);
    let z: i128 = tdiv128((p.x as i128) * (s as i128) + (p.z as i128) * (c as i128), SCALE as i128);
    P { x: x as i64, y: p.y, z: z as i64 }
}

/// One discrete input event of the interactive controller.
#[derive(Clone, Copy, PartialEq, Eq, Structural, Debug)]
pub enum InputAction {
    RotateXPlus,
    RotateXMinus,
    MoveFarther,
    MoveCloser,
}

/// What one input event does to the transform parameters.
pub open spec fn apply_input_s(tp: TranslationParams, action: InputAction) -> TranslationParams {
    match action {
        InputAction::RotateXPlus => TranslationParams {
            angle_x: (tp.angle_x + ROT_STEP) as i64,
            ..tp
        },
        InputAction::RotateXMinus => TranslationParams {
            angle_x: (tp.angle_x - ROT_STEP) as i64,
            ..tp
        },
        InputAction::MoveFarther => TranslationParams { dz: (tp.dz + TRANS_STEP) as i64, ..tp },
        InputAction::MoveCloser => TranslationParams { dz: (tp.dz - TRANS_STEP) as i64, ..tp },
    }
}

/// Applies one discrete input event: each event adds or subtracts one
/// fixed step on one field and leaves every other field unchanged.
pub fn apply_input(tp: &mut TranslationParams, action: InputAction)
    requires
        mag(old(tp).angle_x as int) <= TRANS_BOUND - ROT_STEP,
        mag(old(tp).dz as int) <= TRANS_BOUND - TRANS_STEP,
    ensures
        *final(tp) == apply_input_s(*old(tp), action),
{
    match action {
        InputAction::RotateXPlus => {
            tp.angle_x = tp.angle_x + ROT_STEP;
        },
        InputAction::RotateXMinus => {
            tp.angle_x = tp.angle_x - ROT_STEP;
        },
        InputAction::MoveFarther => {
            tp.dz = tp.dz + TRANS_STEP;
        },
        InputAction::MoveCloser => {
            tp.dz = tp.dz - TRANS_STEP;
        },
    }
}

/// A transformed world-space point: the model matrix applied, each
/// coordinate clamped to the representable range.
pub open spec fn world_pt_s(m: Seq<int>, p: P) -> P {
    P {
        x: clamp_s(apply_s(m, p, 0), -(COORD_BOUND as int), COORD_BOUND as int) as i64,
        y: clamp_s(apply_s(m, p, 1), -(COORD_BOUND as int), COORD_BOUND as int) as i64,
        z: clamp_s(apply_s(m, p, 2), -(COORD_BOUND as int), COORD_BOUND as int) as i64,
    }
}

/// A world point carried to normalized device coordinates.
pub open spec fn ndc_pt_s(w: P) -> P {
    P { x: ndc_x_s(w) as i64, y: ndc_y_s(w) as i64, z: w.z }
}

/// A normalized-device point carried to screen space.
pub open spec fn screen_pt_s(n: P) -> P {
    P { x: screen_x_s(n.x as int) as i64, y: screen_y_s(n.y as int) as i64, z: n.z }
}

/// Runs the whole transform stage over the vertex list of one frame:
/// returns the parallel arrays of world-space points (model matrix only)
/// and screen-space points (perspective divide, then viewport mapping).
pub fn transform_vertices(points: &Vec<P>, m: &Mat4) -> (out: (Vec<P>, Vec<P>))
    requires
        mat_wf(*m),
        bounded_mat(m@, MAT_BOUND as int),
        forall|i: int| 0 <= i < points.len() ==> in_bound(#[trigger] points@[i], VERT_BOUND as int),
    ensures
        out.0.len() == points.len(),
        out.1.len() == points.len(),
        forall|i: int|
            0 <= i < points.len() ==> #[trigger] out.0@[i] == world_pt_s(m@, points@[i]),
        forall|i: int|
            0 <= i < points.len() ==> #[trigger] out.1@[i] == screen_pt_s(
                ndc_pt_s(world_pt_s(m@, points@[i])),
            ),
        forall|i: int|
            0 <= i < points.len() ==> in_bound(#[trigger] out.0@[i], COORD_BOUND as int)
                && in_bound(#[trigger] out.1@[i], COORD_BOUND as int),
{
    let mut world: Vec<P> = Vec::new();
    let mut scr: Vec<P> = Vec::new();
    let mut i: usize = 0;
    while i < points.len()
        invariant
            i <= points.len(),
            world.len() == i,
            scr.len() == i,
            mat_wf(*m),
            bounded_mat(m@, MAT_BOUND as int),
            forall|k: int|
                0 <= k < points.len() ==> in_bound(#[trigger] points@[k], VERT_BOUND as int),
            forall|k: int| 0 <= k < i ==> #[trigger] world@[k] == world_pt_s(m@, points@[k]),
            forall|k: int|
                0 <= k < i ==> #[trigger] scr@[k] == screen_pt_s(
                    ndc_pt_s(world_pt_s(m@, points@[k])),
                ),
            forall|k: int|
                0 <= k < i ==> in_bound(#[trigger] world@[k], COORD_BOUND as int) && in_bound(
                    #[trigger] scr@[k],
                    COORD_BOUND as int,
                ),
        decreases points.len() - i,
    {
        let p = points[i];
        let raw = translate_model(m, p);
        let w = P {
            x: clamp64(raw.x, -COORD_BOUND, COORD_BOUND),
            y: clamp64(raw.y, -COORD_BOUND, COORD_BOUND),
            z: clamp64(raw.z, -COORD_BOUND, COORD_BOUND),
        };
        let n = project(w);
        let s = screen(n);
        proof {
            assert(w == world_pt_s(m@, points@[i as int]));
            assert(n == ndc_pt_s(world_pt_s(m@, points@[i as int])));
            assert(s == screen_pt_s(ndc_pt_s(world_pt_s(m@, points@[i as int]))));
        }
        world.push(w);
        scr.push(s);
        i = i + 1;
    }
    (world, scr)
}

} // verus!
