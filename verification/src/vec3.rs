//! Three-component fixed-point vectors.
//!
//! `x` and `y` are the screen plane, `z` is depth (used both for the physics
//! offset and for depth-based visual scaling).  Every executable operation
//! has a spec twin that states its result exactly, including the truncation
//! and saturation of the underlying scalar arithmetic.

use vstd::prelude::*;

use crate::fixed::add_clamped;
use crate::fixed::clamp_i;
use crate::fixed::fx_mul;
use crate::fixed::mul_div_sat;
use crate::fixed::sat_add;
use crate::fixed::sat_sub;
use crate::fixed::sub_clamped;
use crate::fixed::clamp64;
use crate::fixed::SAT_LIM;
use crate::fixed::SCALE;

verus! {

/// Bound on the operands of [`v3_mag2`] and [`v3_dot`], chosen so their
/// 128-bit intermediate sums cannot overflow.
pub const COMP_LIM: i64 = 0x100_0000_0000;

#[derive(Clone, Copy, PartialEq, Eq, Structural, Debug)]
pub struct Vec3Fx {
    pub x: i64,
    pub y: i64,
    pub z: i64,
}

/// Every component of `v` lies in `[-lim, lim]`.
pub open spec fn v3_in(v: Vec3Fx, lim: int) -> bool {
    &&& -lim <= v.x <= lim
    &&& -lim <= v.y <= lim
    &&& -lim <= v.z <= lim
}

/// Componentwise saturating sum.
pub open spec fn v3_add_s(a: Vec3Fx, b: Vec3Fx) -> Vec3Fx {
    Vec3Fx {
        x: add_clamped(a.x as int, b.x as int) as i64,
        y: add_clamped(a.y as int, b.y as int) as i64,
        z: add_clamped(a.z as int, b.z as int) as i64,
    }
}

/// Componentwise saturating difference.
pub open spec fn v3_sub_s(a: Vec3Fx, b: Vec3Fx) -> Vec3Fx {
    Vec3Fx {
        x: sub_clamped(a.x as int, b.x as int) as i64,
        y: sub_clamped(a.y as int, b.y as int) as i64,
        z: sub_clamped(a.z as int, b.z as int) as i64,
    }
}

/// Componentwise fixed-point product with the scalar `k`.
pub open spec fn v3_scale_s(k: int, v: Vec3Fx) -> Vec3Fx {
    Vec3Fx {
        x: fx_mul(k, v.x as int) as i64,
        y: fx_mul(k, v.y as int) as i64,
        z: fx_mul(k, v.z as int) as i64,
    }
}

/// Componentwise limit to `[-lim, lim]`.
pub open spec fn v3_clamp_s(v: Vec3Fx, lim: int) -> Vec3Fx {
    Vec3Fx {
        x: clamp_i(v.x as int, lim) as i64,
        y: clamp_i(v.y as int, lim) as i64,
        z: clamp_i(v.z as int, lim) as i64,
    }
}

/// Squared magnitude in raw (unscaled) units, saturated at [`SAT_LIM`].
pub open spec fn v3_mag2_s(v: Vec3Fx) -> int {
    clamp_i(
        (v.x as int) * (v.x as int) + (v.y as int) * (v.y as int) + (v.z as int) * (v.z as int),
        SAT_LIM as int,
    )
}

/// Exact dot product of the components, as a mathematical integer.
pub open spec fn v3_dot_exact(a: Vec3Fx, b: Vec3Fx) -> int {
    (a.x as int) * (b.x as int) + (a.y as int) * (b.y as int) + (a.z as int) * (b.z as int)
}

/// One De Casteljau interpolation step on scalars:
/// `a + (b - a) * t / SCALE`, truncated and saturated.
pub open spec fn lerp_comp(a: int, b: int, t: int) -> int {
    add_clamped(a, fx_mul(sub_clamped(b, a), t))
}

/// One De Casteljau interpolation step on vectors.
pub open spec fn v3_lerp_s(a: Vec3Fx, b: Vec3Fx, t: int) -> Vec3Fx {
    Vec3Fx {
        x: lerp_comp(a.x as int, b.x as int, t) as i64,
        y: lerp_comp(a.y as int, b.y as int, t) as i64,
        z: lerp_comp(a.z as int, b.z as int, t) as i64,
    }
}

/// Saturating vector sum.
pub fn v3_add(a: Vec3Fx, b: Vec3Fx) -> (r: Vec3Fx)
    ensures
        r == v3_add_s(a, b),
{
    Vec3Fx { x: sat_add(a.x, b.x), y: sat_add(a.y, b.y), z: sat_add(a.z, b.z) }
}

/// Saturating vector difference.
pub fn v3_sub(a: Vec3Fx, b: Vec3Fx) -> (r: Vec3Fx)
    ensures
        r == v3_sub_s(a, b),
{
    Vec3Fx { x: sat_sub(a.x, b.x), y: sat_sub(a.y, b.y), z: sat_sub(a.z, b.z) }
}

/// Fixed-point scalar product.
pub fn v3_scale(k: i64, v: Vec3Fx) -> (r: Vec3Fx)
    ensures
        r == v3_scale_s(k as int, v),
{
    Vec3Fx {
        x: mul_div_sat(k, v.x, SCALE),
        y: mul_div_sat(k, v.y, SCALE),
        z: mul_div_sat(k, v.z, SCALE),
    }
}

/// Componentwise limit to `[-lim, lim]`.
pub fn v3_clamp(v: Vec3Fx, lim: i64) -> (r: Vec3Fx)
    requires
        0 < lim,
    ensures
        r == v3_clamp_s(v, lim as int),
{
    Vec3Fx { x: clamp64(v.x, lim), y: clamp64(v.y, lim), z: clamp64(v.z, lim) }
}

/// Squared magnitude, saturated at [`SAT_LIM`].
pub fn v3_mag2(v: Vec3Fx) -> (r: i64)
    requires
        v3_in(v, COMP_LIM as int),
    ensures
        r as int == v3_mag2_s(v),
        r >= 0,
{
    let xw: i128 = v.x as i128;
    let yw: i128 = v.y as i128;
    let zw: i128 = v.z as i128;
    proof {
        assert(xw * xw <= 0x1_0000_0000_0000_0000_0000i128 && xw * xw >= 0) by (nonlinear_arith)
            requires
                -0x100_0000_0000i128 <= xw <= 0x100_0000_0000i128,
        ;
        assert(yw * yw <= 0x1_0000_0000_0000_0000_0000i128 && yw * yw >= 0) by (nonlinear_arith)
            requires
                -0x100_0000_0000i128 <= yw <= 0x100_0000_0000i128,
        ;
        assert(zw * zw <= 0x1_0000_0000_0000_0000_0000i128 && zw * zw >= 0) by (nonlinear_arith)
            requires
                -0x100_0000_0000i128 <= zw <= 0x100_0000_0000i128,
        ;
    }
    let s: i128 = xw * xw + yw * yw + zw * zw;
    if s > SAT_LIM as i128 {
        SAT_LIM
    } else {
        s as i64
    }
}

/// Dot product, saturated at [`SAT_LIM`].
pub fn v3_dot(a: Vec3Fx, b: Vec3Fx) -> (r: i64)
    requires
        v3_in(a, COMP_LIM as int),
        v3_in(b, COMP_LIM as int),
    ensures
        r as int == clamp_i(v3_dot_exact(a, b), SAT_LIM as int),
{
    proof {
        lemma_prod_bound(a.x as int, b.x as int, COMP_LIM as int);
        lemma_prod_bound(a.y as int, b.y as int, COMP_LIM as int);
        lemma_prod_bound(a.z as int, b.z as int, COMP_LIM as int);
    }
    let px: i128 = (a.x as i128) * (b.x as i128);
    let py: i128 = (a.y as i128) * (b.y as i128);
    let pz: i128 = (a.z as i128) * (b.z as i128);
    let s: i128 = px + py + pz;
    if s > SAT_LIM as i128 {
        SAT_LIM
    } else if s < -(SAT_LIM as i128) {
        -SAT_LIM
    } else {
        s as i64
    }
}

/// A product of two scalars bounded by `m` is bounded by `m * m`.
pub proof fn lemma_prod_bound(a: int, b: int, m: int)
    requires
        0 <= m,
        -m <= a <= m,
        -m <= b <= m,
    ensures
        -(m * m) <= a * b <= m * m,
{
    assert(-(m * m) <= a * b <= m * m) by (nonlinear_arith)
        requires
            0 <= m,
            -m <= a <= m,
            -m <= b <= m,
    ;
}

/// One De Casteljau interpolation step.
pub fn v3_lerp(a: Vec3Fx, b: Vec3Fx, t: i64) -> (r: Vec3Fx)
    ensures
        r == v3_lerp_s(a, b, t as int),
{
    Vec3Fx {
        x: sat_add(a.x, mul_div_sat(sat_sub(b.x, a.x), t, SCALE)),
        y: sat_add(a.y, mul_div_sat(sat_sub(b.y, a.y), t, SCALE)),
        z: sat_add(a.z, mul_div_sat(sat_sub(b.z, a.z), t, SCALE)),
    }
}

} // verus!
