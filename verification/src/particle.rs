//! The particle motion state machine.
//!
//! A particle falls toward its target under an inverse-square attraction
//! with a capped speed, leaving a bounded trail of (position, width)
//! samples, newest first.  Once the squared distance to the target drops
//! to the orbit threshold, the particle switches to a scripted cubic
//! Bezier path whose sideways control point always turns toward the
//! target; while on the path it replaces the newest trail sample each
//! step, and after the path is done the trail decays two samples per step
//! until it is empty, which marks the particle for removal.

use std::collections::VecDeque;

use vstd::prelude::*;

use vstd::arithmetic::div_mod::lemma_div_by_multiple;
use vstd::arithmetic::div_mod::lemma_div_is_ordered;
use vstd::arithmetic::div_mod::lemma_div_is_ordered_by_denominator;
use vstd::arithmetic::div_mod::lemma_div_pos_is_pos;
use vstd::arithmetic::div_mod::lemma_fundamental_div_mod;
use vstd::arithmetic::mul::lemma_mul_is_commutative;
use vstd::arithmetic::mul::lemma_mul_nonnegative;
use vstd::math::max;

use crate::fixed::abs_i;
use crate::fixed::add_clamped;
use crate::fixed::clamp_i;
use crate::fixed::div_tz;
use crate::fixed::fx_div;
use crate::fixed::fx_mul;
use crate::fixed::is_isqrt;
use crate::fixed::isqrt;
use crate::fixed::isqrt64;
use crate::fixed::lemma_mul_div_bound;
use crate::fixed::lemma_scale_frac_range;
use crate::fixed::mul_div_clamped;
use crate::fixed::mul_div_sat;
use crate::fixed::sat_add;
use crate::fixed::SAT_LIM;
use crate::fixed::SCALE;
use crate::rng::rand_in_range;
use crate::vec3::lemma_prod_bound;
use crate::vec3::v3_add;
use crate::vec3::v3_add_s;
use crate::vec3::v3_clamp;
use crate::vec3::v3_clamp_s;
use crate::vec3::v3_dot;
use crate::vec3::v3_dot_exact;
use crate::vec3::v3_in;
use crate::vec3::v3_lerp;
use crate::vec3::v3_lerp_s;
use crate::vec3::v3_mag2;
use crate::vec3::v3_mag2_s;
use crate::vec3::v3_scale;
use crate::vec3::v3_scale_s;
use crate::vec3::v3_sub;
use crate::vec3::v3_sub_s;
use crate::vec3::Vec3Fx;

verus! {

/// Bound on position, target and trail-sample components (about 2048.0).
pub const POS_LIM: i64 = 0x800_0000;

/// Bound on the Bezier control point components.
pub const CTRL_LIM: i64 = 0x1_0000_0000;

/// Bound on the velocity before the speed cap is applied.
pub const VEL_PRE_LIM: i64 = 0x4000_0000;

/// Largest speed cap a configuration may ask for (about 16.0).
pub const VCAP_LIM: i64 = 0x10_0000;

/// Bound on the Bezier phase parameter `t` (twice `SCALE`).
pub const T_LIM: i64 = 131072;

/// Bound on trail widths (1.0).
pub const WIDTH_LIM: i64 = 65536;

/// Smallest trail capacity a spawn may draw.
pub const TRAIL_CAP_MIN: i64 = 80;

/// Largest trail capacity a spawn may draw.
pub const TRAIL_CAP_MAX: i64 = 159;

/// Smallest trail width a spawn may draw (about 0.005).
pub const TRAIL_WIDTH_MIN: i64 = 328;

/// Largest trail width a spawn may draw (about 0.015).
pub const TRAIL_WIDTH_MAX: i64 = 983;

/// Smallest spawn velocity multiple (0.1).
pub const NORMAL_VEL_MIN: i64 = 6554;

/// Largest spawn velocity multiple (0.3).
pub const NORMAL_VEL_MAX: i64 = 19660;

/// Smallest distance of the perturbed target from the attractor (0.02).
pub const TARGET_OFF_MIN: i64 = 1311;

/// Largest distance of the perturbed target from the attractor (0.1).
pub const TARGET_OFF_MAX: i64 = 6553;

/// Constant depth component of every spawn velocity (-5.0).
pub const SPAWN_Z_VEL: i64 = -327680;

/// Red and green of every particle light (0.4).
pub const LIGHT_RG: i64 = 26214;

/// Smallest blue of a particle light (0.6).
pub const LIGHT_B_MIN: i64 = 39322;

/// Largest blue of a particle light (0.8).
pub const LIGHT_B_MAX: i64 = 52428;

/// Floor of the ending-phase width factor (0.05).
pub const WIDTH_FLOOR: i64 = 3277;

/// Bound on the attractor components a configuration may ask for.
pub const ATTR_LIM: i64 = 0x400_0000;

/// An RGB color with fixed-point channels in `[0, SCALE]`.
#[derive(Clone, Copy, Debug, PartialEq, Eq, Structural)]
pub struct ColorFx {
    pub r: i64,
    pub g: i64,
    pub b: i64,
}

/// One trail sample: a past position and the width of the trail there.
#[derive(Clone, Copy, Debug, PartialEq, Eq, Structural)]
pub struct TrailPoint {
    pub pos: Vec3Fx,
    pub width: i64,
}

/// The motion phase of a particle.
#[derive(Clone, Copy, Debug, PartialEq, Eq, Structural)]
pub enum Phase {
    /// Inverse-square attraction toward the target.
    Falling,
    /// Scripted cubic Bezier approach; `t` is the normalized path
    /// parameter in fixed point (`SCALE` is the end of the path).
    EndingPath { start: Vec3Fx, control1: Vec3Fx, control2: Vec3Fx, t: i64 },
}

/// The process-wide tunable constants of the particle simulation, passed
/// into constructors instead of living as globals.
#[derive(Clone, Copy, Debug, PartialEq, Eq, Structural)]
pub struct SimConfig {
    /// Where particles converge (targets are perturbed around this).
    pub attractor: Vec3Fx,
    /// Spawn velocities point away from this point.
    pub repulsor: Vec3Fx,
    /// The `K` of the attraction `a = -K / |d|^2`.
    pub gravity_strength: i64,
    /// Ceiling on the velocity magnitude.
    pub max_speed: i64,
    /// Squared orbit distance: at or below it the particle switches to
    /// the Bezier path.
    pub orbit_distance_sq: i64,
    /// Time the Bezier path takes (`t` advances by `dt / orbit_time`).
    pub orbit_time: i64,
    /// Scale of the velocity when it becomes the first control offset.
    pub orbit_path_size: i64,
}

impl SimConfig {
    pub open spec fn wf(&self) -> bool {
        &&& v3_in(self.attractor, ATTR_LIM as int)
        &&& v3_in(self.repulsor, POS_LIM as int)
        &&& 0 < self.gravity_strength <= 0x4000_0000
        &&& 0 < self.max_speed <= VCAP_LIM
        &&& 0 < self.orbit_distance_sq <= 0x1_0000_0000
        &&& 4 <= self.orbit_time <= 0x10_0000
        &&& 0 <= self.orbit_path_size <= SCALE
    }

    /// The constants the demo ships with: attractor near the staff,
    /// repulsor at the moon, gravity 10000, speed cap 10, orbit distance
    /// 0.25, orbit time 0.5, path size 0.05, all in fixed point.
    pub fn standard() -> (c: SimConfig)
        ensures
            c.wf(),
            c.attractor == (Vec3Fx { x: 793, y: 6287, z: -6554i64 }),
            c.repulsor == (Vec3Fx { x: 13107, y: 5505, z: 1966080 }),
            c.gravity_strength == 655360000,
            c.max_speed == 655360,
            c.orbit_distance_sq == 4096,
            c.orbit_time == 32768,
            c.orbit_path_size == 3277,
    {
        SimConfig {
            attractor: Vec3Fx { x: 793, y: 6287, z: -6554 },
            repulsor: Vec3Fx { x: 13107, y: 5505, z: 1966080 },
            gravity_strength: 655360000,
            max_speed: 655360,
            orbit_distance_sq: 4096,
            orbit_time: 32768,
            orbit_path_size: 3277,
        }
    }
}

/// The mathematical state of a particle: its scalars plus the trail as a
/// sequence of samples, newest first.
#[verifier::ext_equal]
pub struct ParticleV {
    pub position: Vec3Fx,
    pub velocity: Vec3Fx,
    pub target: Vec3Fx,
    pub light_color: ColorFx,
    pub trail_width: i64,
    pub trail_capacity: usize,
    pub trail: Seq<TrailPoint>,
    pub phase: Phase,
}

/// The spawn target perturbation: the target sits at the attractor,
/// displaced in the plane by the drawn distance `td` (in
/// `[TARGET_OFF_MIN, TARGET_OFF_MAX]`) along the direction of the drawn
/// nonzero sample `(ox, oy)`, normalized by its integer magnitude, with
/// the depth unchanged.
pub open spec fn spec_target_offset(
    target: Vec3Fx,
    attractor: Vec3Fx,
    ox: int,
    oy: int,
    td: int,
) -> bool {
    &&& -SCALE <= ox <= SCALE
    &&& -SCALE <= oy <= SCALE
    &&& !(ox == 0 && oy == 0)
    &&& TARGET_OFF_MIN <= td <= TARGET_OFF_MAX
    &&& target.x == attractor.x + mul_div_clamped(ox, td, isqrt(ox * ox + oy * oy))
    &&& target.y == attractor.y + mul_div_clamped(oy, td, isqrt(ox * ox + oy * oy))
    &&& target.z == attractor.z
}

/// Squared distance between two points, in fixed-point units
/// (`SCALE` times the real squared distance).
pub open spec fn spec_dist_sq(a: Vec3Fx, b: Vec3Fx) -> int {
    div_tz(v3_mag2_s(v3_sub_s(a, b)), SCALE as int)
}

/// The velocity after the speed cap: if the magnitude exceeds `cap`, the
/// velocity is rescaled by `cap / speed`; otherwise it is unchanged.
pub open spec fn spec_limit_speed(v: Vec3Fx, cap: int) -> Vec3Fx {
    let speed = isqrt(v3_mag2_s(v));
    if speed > cap {
        v3_scale_s(fx_div(cap, speed), v)
    } else {
        v
    }
}

/// One falling-phase velocity update: inverse-square attraction toward
/// the target, a clamp on raw components, then the speed cap.
pub open spec fn spec_falling_velocity(
    pos: Vec3Fx,
    vel: Vec3Fx,
    target: Vec3Fx,
    cfg: SimConfig,
    dt: int,
) -> Vec3Fx {
    let d = v3_sub_s(pos, target);
    let m2 = v3_mag2_s(d);
    let mag = isqrt(m2);
    let dsq = div_tz(m2, SCALE as int);
    let ga = fx_div(cfg.gravity_strength as int, dsq);
    let coeff = fx_mul(fx_mul(dt, dt), ga);
    let delta = Vec3Fx {
        x: mul_div_clamped(coeff, d.x as int, mag) as i64,
        y: mul_div_clamped(coeff, d.y as int, mag) as i64,
        z: mul_div_clamped(coeff, d.z as int, mag) as i64,
    };
    spec_limit_speed(v3_clamp_s(v3_sub_s(vel, delta), VEL_PRE_LIM as int), cfg.max_speed as int)
}

/// One falling-phase position update: integrate by `velocity * dt` and
/// keep the position inside the coordinate box.
pub open spec fn spec_falling_position(pos: Vec3Fx, vel: Vec3Fx, dt: int) -> Vec3Fx {
    v3_clamp_s(v3_add_s(pos, v3_scale_s(dt, vel)), POS_LIM as int)
}

/// Pushing a new newest sample: the oldest sample leaves first if the
/// trail is at capacity.
pub open spec fn spec_trail_push(
    trail: Seq<TrailPoint>,
    cap: int,
    sample: TrailPoint,
) -> Seq<TrailPoint> {
    let kept = if trail.len() >= cap {
        trail.drop_last()
    } else {
        trail
    };
    seq![sample] + kept
}

/// The Bezier path synthesized at the capture instant.  The first control
/// point continues the current motion; the second is offset sideways, the
/// offset flipped if it would turn away from the target.
pub open spec fn spec_end_path(pos: Vec3Fx, vel: Vec3Fx, target: Vec3Fx, cfg: SimConfig) -> Phase {
    let vs = v3_scale_s(cfg.orbit_path_size as int, vel);
    let c1 = v3_add_s(pos, vs);
    let dir = v3_sub_s(target, c1);
    let vt = Vec3Fx { x: (-(vs.y as int)) as i64, y: vs.x, z: 0 };
    let d = clamp_i(v3_dot_exact(dir, vt), SAT_LIM as int);
    let off = if d > 0 {
        vt
    } else {
        Vec3Fx { x: (-(vt.x as int)) as i64, y: (-(vt.y as int)) as i64, z: 0 }
    };
    Phase::EndingPath { start: pos, control1: c1, control2: v3_add_s(c1, off), t: 0 }
}

/// The cubic Bezier over `{start, control1, control2, target}` evaluated
/// at `t` by repeated linear interpolation (De Casteljau).
pub open spec fn spec_bezier(
    start: Vec3Fx,
    control1: Vec3Fx,
    control2: Vec3Fx,
    target: Vec3Fx,
    t: int,
) -> Vec3Fx {
    let l1 = v3_lerp_s(start, control1, t);
    let l2 = v3_lerp_s(control1, control2, t);
    let l3 = v3_lerp_s(control2, target, t);
    v3_lerp_s(v3_lerp_s(l1, l2, t), v3_lerp_s(l2, l3, t), t)
}

/// The ending-phase sample width: the base width shrunk by `1 - t^4`,
/// never below the floor.
pub open spec fn spec_end_width(w: int, t: int) -> int {
    let t4 = fx_mul(fx_mul(t, t), fx_mul(t, t));
    let f = max(SCALE - t4, WIDTH_FLOOR as int);
    fx_mul(w, f)
}

/// One simulation step of a single particle: the whole state machine.
pub open spec fn spec_step(p: ParticleV, cfg: SimConfig, dt: int) -> ParticleV {
    match p.phase {
        Phase::Falling => {
            if spec_dist_sq(p.position, p.target) > cfg.orbit_distance_sq {
                let nv = spec_falling_velocity(p.position, p.velocity, p.target, cfg, dt);
                let np = spec_falling_position(p.position, nv, dt);
                let sample = TrailPoint { pos: np, width: p.trail_width };
                ParticleV {
                    position: np,
                    velocity: nv,
                    target: p.target,
                    light_color: p.light_color,
                    trail_width: p.trail_width,
                    trail_capacity: p.trail_capacity,
                    trail: spec_trail_push(p.trail, p.trail_capacity as int, sample),
                    phase: Phase::Falling,
                }
            } else {
                ParticleV {
                    position: p.position,
                    velocity: p.velocity,
                    target: p.target,
                    light_color: p.light_color,
                    trail_width: p.trail_width,
                    trail_capacity: p.trail_capacity,
                    trail: p.trail,
                    phase: spec_end_path(p.position, p.velocity, p.target, cfg),
                }
            }
        },
        Phase::EndingPath { start, control1, control2, t } => {
            if t < SCALE {
                let tn = t + mul_div_clamped(dt, SCALE as int, cfg.orbit_time as int);
                let np = v3_clamp_s(
                    spec_bezier(start, control1, control2, p.target, tn),
                    POS_LIM as int,
                );
                let sample = TrailPoint {
                    pos: np,
                    width: spec_end_width(p.trail_width as int, tn) as i64,
                };
                let kept = if p.trail.len() > 0 {
                    p.trail.drop_first()
                } else {
                    p.trail
                };
                ParticleV {
                    position: np,
                    velocity: p.velocity,
                    target: p.target,
                    light_color: p.light_color,
                    trail_width: p.trail_width,
                    trail_capacity: p.trail_capacity,
                    trail: seq![sample] + kept,
                    phase: Phase::EndingPath { start, control1, control2, t: tn as i64 },
                }
            } else {
                let keep = if p.trail.len() >= 2 {
                    p.trail.len() - 2
                } else {
                    0
                };
                ParticleV {
                    position: p.position,
                    velocity: p.velocity,
                    target: p.target,
                    light_color: p.light_color,
                    trail_width: p.trail_width,
                    trail_capacity: p.trail_capacity,
                    trail: p.trail.subrange(0, keep as int),
                    phase: p.phase,
                }
            }
        },
    }
}

/// Well-formedness of one trail sample.
pub open spec fn trail_point_wf(tp: TrailPoint) -> bool {
    &&& v3_in(tp.pos, POS_LIM as int)
    &&& 0 <= tp.width <= WIDTH_LIM
}

/// Well-formedness of a particle state under a configuration: every
/// scalar within its bound, and the trail no longer than its capacity.
pub open spec fn wf_v(p: ParticleV, cfg: SimConfig) -> bool {
    &&& v3_in(p.position, POS_LIM as int)
    &&& v3_in(p.velocity, VEL_PRE_LIM as int)
    &&& v3_in(p.target, POS_LIM as int)
    &&& 1 <= p.trail_capacity
    &&& p.trail.len() <= p.trail_capacity
    &&& 0 <= p.trail_width <= WIDTH_LIM
    &&& (forall|i: int| 0 <= i < p.trail.len() ==> trail_point_wf(#[trigger] p.trail[i]))
    &&& 0 <= p.light_color.r <= SCALE
    &&& 0 <= p.light_color.g <= SCALE
    &&& 0 <= p.light_color.b <= SCALE
    &&& match p.phase {
        Phase::Falling => true,
        Phase::EndingPath { start, control1, control2, t } => {
            &&& v3_in(start, POS_LIM as int)
            &&& v3_in(control1, CTRL_LIM as int)
            &&& v3_in(control2, CTRL_LIM as int)
            &&& 0 <= t <= T_LIM
        },
    }
}

/// A component of a vector is bounded by the integer square root of the
/// squared magnitude.
pub proof fn lemma_comp_le_isqrt(c: int, m2: int, r: int)
    requires
        c * c <= m2,
        is_isqrt(m2, r),
    ensures
        abs_i(c) <= r,
{
    if abs_i(c) > r {
        assert(abs_i(c) * abs_i(c) == c * c) by (nonlinear_arith);
        assert((r + 1) * (r + 1) <= c * c) by (nonlinear_arith)
            requires
                0 <= r,
                r + 1 <= abs_i(c),
                abs_i(c) * abs_i(c) == c * c,
        ;
        assert(false);
    }
}

/// The magnitude squared of an in-bounds vector is exact (no saturation)
/// and each component squared is below it.
pub proof fn lemma_mag2_exact(v: Vec3Fx)
    requires
        v3_in(v, VEL_PRE_LIM as int),
    ensures
        v3_mag2_s(v) == (v.x as int) * (v.x as int) + (v.y as int) * (v.y as int) + (
        v.z as int) * (v.z as int),
        (v.x as int) * (v.x as int) <= v3_mag2_s(v),
        (v.y as int) * (v.y as int) <= v3_mag2_s(v),
        (v.z as int) * (v.z as int) <= v3_mag2_s(v),
        0 <= v3_mag2_s(v) <= 0x3000_0000_0000_0000,
{
    lemma_prod_bound(v.x as int, v.x as int, VEL_PRE_LIM as int);
    lemma_prod_bound(v.y as int, v.y as int, VEL_PRE_LIM as int);
    lemma_prod_bound(v.z as int, v.z as int, VEL_PRE_LIM as int);
    assert((v.x as int) * (v.x as int) >= 0) by (nonlinear_arith);
    assert((v.y as int) * (v.y as int) >= 0) by (nonlinear_arith);
    assert((v.z as int) * (v.z as int) >= 0) by (nonlinear_arith);
    assert(VEL_PRE_LIM as int * (VEL_PRE_LIM as int) == 0x1000_0000_0000_0000);
}

/// The speed cap caps every component: after [`spec_limit_speed`] with a
/// positive cap, every component of the result lies within the cap.
pub proof fn lemma_limit_speed_bounded(v: Vec3Fx, cap: int)
    requires
        v3_in(v, VEL_PRE_LIM as int),
        1 <= cap <= VCAP_LIM,
    ensures
        v3_in(spec_limit_speed(v, cap), cap),
{
    lemma_mag2_exact(v);
    let m2 = v3_mag2_s(v);
    crate::fixed::lemma_isqrt_exists(m2);
    let speed = isqrt(m2);
    lemma_comp_le_isqrt(v.x as int, m2, speed);
    lemma_comp_le_isqrt(v.y as int, m2, speed);
    lemma_comp_le_isqrt(v.z as int, m2, speed);
    if speed > cap {
        let k = fx_div(cap, speed);
        assert(cap * SCALE <= 0x10_0000 * 65536) by (nonlinear_arith)
            requires
                1 <= cap <= 0x10_0000,
        ;
        lemma_mul_nonnegative(cap, SCALE as int);
        lemma_div_pos_is_pos(cap * SCALE, speed);
        assert(k == div_tz(cap * SCALE, speed));
        assert(k == (cap * SCALE) / speed);
        // k * speed <= cap * SCALE
        lemma_fundamental_div_mod(cap * SCALE, speed);
        vstd::arithmetic::div_mod::lemma_mod_bound(cap * SCALE, speed);
        assert(k * speed <= cap * SCALE) by (nonlinear_arith)
            requires
                cap * SCALE == speed * k + (cap * SCALE) % speed,
                (cap * SCALE) % speed >= 0,
        ;
        let sv = v3_scale_s(k, v);
        lemma_mul_div_bound(k, v.x as int, SCALE as int, k, speed);
        lemma_mul_div_bound(k, v.y as int, SCALE as int, k, speed);
        lemma_mul_div_bound(k, v.z as int, SCALE as int, k, speed);
        lemma_div_is_ordered(k * speed, cap * SCALE, SCALE as int);
        lemma_div_by_multiple(cap, SCALE as int);
        assert((cap * SCALE) / (SCALE as int) == cap);
        assert(abs_i(fx_mul(k, v.x as int)) <= cap);
        assert(abs_i(fx_mul(k, v.y as int)) <= cap);
        assert(abs_i(fx_mul(k, v.z as int)) <= cap);
    }
}

/// Law: a falling particle's trail never exceeds its capacity, and one
/// step never changes the capacity — in any phase, stepping a well-formed
/// particle keeps `trail.len() <= trail_capacity`.
pub proof fn lemma_step_keeps_trail_bound(p: ParticleV, cfg: SimConfig, dt: int)
    requires
        wf_v(p, cfg),
    ensures
        spec_step(p, cfg, dt).trail_capacity == p.trail_capacity,
        spec_step(p, cfg, dt).trail.len() <= p.trail_capacity,
{
}

/// Law: the capture step turns toward the target.  For a well-formed
/// falling particle within the orbit threshold, one step yields the
/// `EndingPath` phase with `t == 0`, and the synthesized control points
/// satisfy `dot(control2 - control1, target - control1) >= 0`.
pub proof fn lemma_capture_turns_toward_target(p: ParticleV, cfg: SimConfig, dt: int)
    requires
        wf_v(p, cfg),
        cfg.wf(),
        p.phase == Phase::Falling,
        spec_dist_sq(p.position, p.target) <= cfg.orbit_distance_sq,
    ensures
        spec_step(p, cfg, dt).phase matches Phase::EndingPath { start, control1, control2, t } && {
            &&& t == 0
            &&& start == p.position
            &&& v3_dot_exact(
                v3_sub_s(control2, control1),
                v3_sub_s(p.target, control1),
            ) >= 0
        },
{
    let vs = v3_scale_s(cfg.orbit_path_size as int, p.velocity);
    lemma_mul_div_bound(
        cfg.orbit_path_size as int,
        p.velocity.x as int,
        SCALE as int,
        SCALE as int,
        VEL_PRE_LIM as int,
    );
    lemma_mul_div_bound(
        cfg.orbit_path_size as int,
        p.velocity.y as int,
        SCALE as int,
        SCALE as int,
        VEL_PRE_LIM as int,
    );
    lemma_mul_div_bound(
        cfg.orbit_path_size as int,
        p.velocity.z as int,
        SCALE as int,
        SCALE as int,
        VEL_PRE_LIM as int,
    );
    lemma_div_by_multiple(VEL_PRE_LIM as int, SCALE as int);
    lemma_mul_is_commutative(SCALE as int, VEL_PRE_LIM as int);
    assert(v3_in(vs, VEL_PRE_LIM as int));
    let c1 = v3_add_s(p.position, vs);
    assert(v3_in(c1, CTRL_LIM as int));
    let dir = v3_sub_s(p.target, c1);
    let vt = Vec3Fx { x: (-(vs.y as int)) as i64, y: vs.x, z: 0 };
    let d = clamp_i(v3_dot_exact(dir, vt), SAT_LIM as int);
    lemma_prod_bound(dir.x as int, vt.x as int, CTRL_LIM as int + POS_LIM as int);
    lemma_prod_bound(dir.y as int, vt.y as int, CTRL_LIM as int + POS_LIM as int);
    lemma_prod_bound(dir.z as int, vt.z as int, CTRL_LIM as int + POS_LIM as int);
    let off = if d > 0 {
        vt
    } else {
        Vec3Fx { x: (-(vt.x as int)) as i64, y: (-(vt.y as int)) as i64, z: 0 }
    };
    let c2 = v3_add_s(c1, off);
    assert(v3_in(off, VEL_PRE_LIM as int));
    assert(c2.x as int == c1.x + off.x && c2.y as int == c1.y + off.y && c2.z as int == c1.z
        + off.z);
    let back = v3_sub_s(c2, c1);
    assert(back.x as int == off.x && back.y as int == off.y && back.z as int == off.z);
    if d > 0 {
        assert(v3_dot_exact(dir, vt) > 0);
        assert(v3_dot_exact(back, dir) == v3_dot_exact(dir, vt)) by (nonlinear_arith)
            requires
                back.x == vt.x && back.y == vt.y && back.z == vt.z,
        ;
    } else {
        assert(v3_dot_exact(dir, vt) <= 0);
        assert(v3_dot_exact(back, dir) == -v3_dot_exact(dir, vt)) by (nonlinear_arith)
            requires
                back.x as int == -(vt.x as int) && back.y as int == -(vt.y as int) && back.z as int
                    == 0 && vt.z as int == 0,
        ;
    }
}

/// Law: the capture happens on exactly the tick that finds the particle
/// within the threshold — a falling particle strictly outside it stays
/// falling.
pub proof fn lemma_no_capture_above_threshold(p: ParticleV, cfg: SimConfig, dt: int)
    requires
        p.phase == Phase::Falling,
        spec_dist_sq(p.position, p.target) > cfg.orbit_distance_sq,
    ensures
        spec_step(p, cfg, dt).phase == Phase::Falling,
{
}

/// Law: the ending phase is terminal — a particle on the Bezier path
/// never returns to falling; it stays on the path while its trail decays.
pub proof fn lemma_ending_is_terminal(p: ParticleV, cfg: SimConfig, dt: int)
    requires
        p.phase matches Phase::EndingPath { .. },
    ensures
        spec_step(p, cfg, dt).phase matches Phase::EndingPath { .. },
{
}

/// Law: while the path is still being followed, the trail does not grow —
/// one step replaces the newest sample, keeping the length.
pub proof fn lemma_path_keeps_trail_length(p: ParticleV, cfg: SimConfig, dt: int)
    requires
        p.phase matches Phase::EndingPath { t, .. } && t < SCALE,
        p.trail.len() >= 1,
    ensures
        spec_step(p, cfg, dt).trail.len() == p.trail.len(),
{
}

/// Law: once the path is done, every step drains two trail samples (or
/// all that remain), so the trail reaches empty — the removal signal —
/// within a bounded number of steps.
pub proof fn lemma_done_path_drains_trail(p: ParticleV, cfg: SimConfig, dt: int)
    requires
        p.phase matches Phase::EndingPath { t, .. } && t >= SCALE,
    ensures
        spec_step(p, cfg, dt).trail.len() == if p.trail.len() >= 2 {
            p.trail.len() - 2
        } else {
            0
        },
{
}

/// The speed cap, executable form.
pub fn limit_speed(v: Vec3Fx, cap: i64) -> (r: Vec3Fx)
    requires
        v3_in(v, VEL_PRE_LIM as int),
        1 <= cap <= VCAP_LIM,
    ensures
        r == spec_limit_speed(v, cap as int),
        v3_in(r, cap as int),
{
    proof {
        lemma_mag2_exact(v);
        lemma_limit_speed_bounded(v, cap as int);
    }
    let m2 = v3_mag2(v);
    let speed64: u64 = isqrt64(m2 as u64);
    proof {
        crate::fixed::lemma_isqrt_is(m2 as int, isqrt(m2 as int));
        crate::fixed::lemma_isqrt_exists(m2 as int);
    }
    let speed: i64 = speed64 as i64;
    if speed > cap {
        let k = mul_div_sat(cap, SCALE, speed);
        v3_scale(k, v)
    } else {
        v
    }
}

/// The cubic Bezier evaluated by repeated linear interpolation.
pub fn bezier_point(start: Vec3Fx, control1: Vec3Fx, control2: Vec3Fx, target: Vec3Fx, t: i64) -> (r:
    Vec3Fx)
    ensures
        r == spec_bezier(start, control1, control2, target, t as int),
{
    let l1 = v3_lerp(start, control1, t);
    let l2 = v3_lerp(control1, control2, t);
    let l3 = v3_lerp(control2, target, t);
    v3_lerp(v3_lerp(l1, l2, t), v3_lerp(l2, l3, t), t)
}

/// The ending-phase width, executable form.
fn end_width(w: i64, t: i64) -> (r: i64)
    requires
        0 <= w <= WIDTH_LIM,
        0 <= t <= T_LIM,
    ensures
        r as int == spec_end_width(w as int, t as int),
        0 <= r <= WIDTH_LIM,
{
    let t2 = mul_div_sat(t, t, SCALE);
    let t4 = mul_div_sat(t2, t2, SCALE);
    proof {
        lemma_mul_div_bound(t as int, t as int, SCALE as int, T_LIM as int, T_LIM as int);
        assert(t as int * (t as int) >= 0) by (nonlinear_arith);
        lemma_div_pos_is_pos(t as int * (t as int), SCALE as int);
        lemma_mul_div_bound(t2 as int, t2 as int, SCALE as int, 0x40000, 0x40000);
        assert(t2 as int * (t2 as int) >= 0) by (nonlinear_arith);
        lemma_div_pos_is_pos(t2 as int * (t2 as int), SCALE as int);
    }
    let f: i64 = if SCALE - t4 > WIDTH_FLOOR {
        SCALE - t4
    } else {
        WIDTH_FLOOR
    };
    proof {
        lemma_scale_frac_range(w as int, f as int, SCALE as int);
    }
    mul_div_sat(w, f, SCALE)
}

/// A trail sample at `p` whose width fakes perspective: the base width
/// divided by `max(1, (z + 2) / 2)`.
pub open spec fn spec_depth_width(z: int, w: int) -> int {
    let denom = max(SCALE as int, div_tz(add_clamped(z, 2 * SCALE), 2));
    mul_div_clamped(w, SCALE as int, denom)
}

/// A particle with its own motion-phase state machine and a bounded trail
/// history, newest sample first.
pub struct Particle {
    pub position: Vec3Fx,
    pub velocity: Vec3Fx,
    /// The per-particle perturbed destination near the attractor.
    pub target: Vec3Fx,
    /// RGB emitted as a point-light color while the particle exists.
    pub light_color: ColorFx,
    /// Base width of the trail samples.
    pub trail_width: i64,
    /// Fixed bound on the trail length, drawn at creation.
    pub trail_capacity: usize,
    /// Past (position, width) samples, newest first.
    pub trail: VecDeque<TrailPoint>,
    pub phase: Phase,
}

impl View for Particle {
    type V = ParticleV;

    open spec fn view(&self) -> ParticleV {
        ParticleV {
            position: self.position,
            velocity: self.velocity,
            target: self.target,
            light_color: self.light_color,
            trail_width: self.trail_width,
            trail_capacity: self.trail_capacity,
            trail: self.trail@,
            phase: self.phase,
        }
    }
}

/// The views of a sequence of particles.
pub open spec fn views(s: Seq<Particle>) -> Seq<ParticleV> {
    s.map_values(|p: Particle| p@)
}

/// The particles that stay alive: those whose trail is not yet empty.
pub open spec fn live_pred() -> spec_fn(ParticleV) -> bool {
    |pv: ParticleV| pv.trail.len() > 0
}

/// Filtering distributes over pushing one element.
pub proof fn lemma_filter_push<A>(s: Seq<A>, pred: spec_fn(A) -> bool, x: A)
    ensures
        s.push(x).filter(pred) == if pred(x) {
            s.filter(pred).push(x)
        } else {
            s.filter(pred)
        },
{
    reveal(Seq::filter);
    assert(s.push(x).drop_last() =~= s);
    assert(s.push(x).last() == x);
}

/// Every element of a filtered sequence comes from the sequence itself.
pub proof fn lemma_filter_elems<A>(s: Seq<A>, pred: spec_fn(A) -> bool, i: int)
    requires
        0 <= i < s.filter(pred).len(),
    ensures
        exists|j: int| 0 <= j < s.len() && s.filter(pred)[i] == s[j],
    decreases s.len(),
{
    reveal(Seq::filter);
    if s.len() > 0 {
        let sub = s.drop_last().filter(pred);
        if pred(s.last()) {
            if i < sub.len() {
                lemma_filter_elems(s.drop_last(), pred, i);
                let j: int = choose|j: int|
                    0 <= j < s.drop_last().len() && s.drop_last().filter(pred)[i] == s.drop_last()[j];
                assert(s.filter(pred)[i] == s[j]);
            } else {
                assert(s.filter(pred)[i] == s[s.len() - 1]);
            }
        } else {
            lemma_filter_elems(s.drop_last(), pred, i);
            let j: int = choose|j: int|
                0 <= j < s.drop_last().len() && s.drop_last().filter(pred)[i] == s.drop_last()[j];
            assert(s.filter(pred)[i] == s[j]);
        }
    }
}

impl Particle {
    pub open spec fn wf(&self, cfg: SimConfig) -> bool {
        wf_v(self@, cfg)
    }

    /// Builds a particle in `Falling` phase from explicit values.  The
    /// velocity is stored as given (the speed cap applies from the first
    /// falling step) and the trail starts with one sample at the spawn
    /// position.
    pub fn new_with(
        cfg: &SimConfig,
        position: Vec3Fx,
        velocity: Vec3Fx,
        target: Vec3Fx,
        light_color: ColorFx,
        trail_width: i64,
        trail_capacity: usize,
    ) -> (p: Particle)
        requires
            cfg.wf(),
            v3_in(position, POS_LIM as int),
            v3_in(velocity, VEL_PRE_LIM as int),
            v3_in(target, POS_LIM as int),
            0 <= light_color.r <= SCALE,
            0 <= light_color.g <= SCALE,
            0 <= light_color.b <= SCALE,
            0 <= trail_width <= WIDTH_LIM,
            1 <= trail_capacity,
        ensures
            p.wf(*cfg),
            p@.position == position,
            p@.velocity == velocity,
            p@.target == target,
            p@.light_color == light_color,
            p@.trail_width == trail_width,
            p@.trail_capacity == trail_capacity,
            p@.trail == seq![TrailPoint { pos: position, width: trail_width }],
            p@.phase == Phase::Falling,
    {
        let mut trail: VecDeque<TrailPoint> = VecDeque::with_capacity(trail_capacity);
        trail.push_front(TrailPoint { pos: position, width: trail_width });
        proof {
            assert(trail@ =~= seq![TrailPoint { pos: position, width: trail_width }]);
        }
        Particle {
            position,
            velocity,
            target,
            light_color,
            trail_width,
            trail_capacity,
            trail,
            phase: Phase::Falling,
        }
    }

    /// Spawns a particle at `position` with randomized parameters: the
    /// velocity is a random multiple of the vector away from the
    /// repulsor plus a constant depth component; the target is the
    /// attractor perturbed by a random planar offset whose drawn distance
    /// lies in `[TARGET_OFF_MIN, TARGET_OFF_MAX]` along a random
    /// direction; trail capacity, trail width and the blue light channel
    /// are drawn from their fixed ranges.
    pub fn new(position: Vec3Fx, cfg: &SimConfig) -> (p: Particle)
        requires
            cfg.wf(),
            v3_in(position, POS_LIM as int),
        ensures
            p.wf(*cfg),
            p@.position == position,
            p@.phase == Phase::Falling,
            p@.trail.len() == 1,
            p@.trail[0] == (TrailPoint { pos: position, width: p@.trail_width }),
            TRAIL_CAP_MIN <= p@.trail_capacity as int <= TRAIL_CAP_MAX,
            TRAIL_WIDTH_MIN <= p@.trail_width <= TRAIL_WIDTH_MAX,
            p@.light_color.r == LIGHT_RG,
            p@.light_color.g == LIGHT_RG,
            LIGHT_B_MIN <= p@.light_color.b <= LIGHT_B_MAX,
            abs_i(p@.target.x - cfg.attractor.x) <= TARGET_OFF_MAX,
            abs_i(p@.target.y - cfg.attractor.y) <= TARGET_OFF_MAX,
            p@.target.z == cfg.attractor.z,
            exists|ox: int, oy: int, td: int|
                spec_target_offset(p@.target, cfg.attractor, ox, oy, td),
            exists|nv: int|
                #![auto]
                NORMAL_VEL_MIN <= nv <= NORMAL_VEL_MAX && p@.velocity == v3_clamp_s(
                    v3_add_s(
                        v3_scale_s(nv, v3_sub_s(position, cfg.repulsor)),
                        Vec3Fx { x: 0, y: 0, z: SPAWN_Z_VEL },
                    ),
                    VEL_PRE_LIM as int,
                ),
    {
        let cap64: i64 = rand_in_range(TRAIL_CAP_MIN, TRAIL_CAP_MAX);
        let cap: usize = cap64 as usize;
        let width: i64 = rand_in_range(TRAIL_WIDTH_MIN, TRAIL_WIDTH_MAX);
        let nv: i64 = rand_in_range(NORMAL_VEL_MIN, NORMAL_VEL_MAX);
        let dvec = v3_sub(position, cfg.repulsor);
        let v0 = v3_add(v3_scale(nv, dvec), Vec3Fx { x: 0, y: 0, z: SPAWN_Z_VEL });
        let v0c = v3_clamp(v0, VEL_PRE_LIM);

        let ox0: i64 = rand_in_range(-SCALE, SCALE);
        let oy0: i64 = rand_in_range(-SCALE, SCALE);
        let ox: i64 = if ox0 == 0 && oy0 == 0 {
            SCALE
        } else {
            ox0
        };
        let oy: i64 = if ox0 == 0 && oy0 == 0 {
            0
        } else {
            oy0
        };
        let ov = Vec3Fx { x: ox, y: oy, z: 0 };
        let m2 = v3_mag2(ov);
        proof {
            lemma_mag2_exact(ov);
            lemma_prod_bound(ox as int, ox as int, SCALE as int);
            lemma_prod_bound(oy as int, oy as int, SCALE as int);
            assert((ox as int) * (ox as int) >= 0) by (nonlinear_arith);
            assert((oy as int) * (oy as int) >= 0) by (nonlinear_arith);
            if ox != 0 {
                assert((ox as int) * (ox as int) >= 1) by (nonlinear_arith)
                    requires
                        ox as int != 0,
                ;
            } else {
                assert((oy as int) * (oy as int) >= 1) by (nonlinear_arith)
                    requires
                        oy as int != 0,
                ;
            }
        }
        proof {
            assert(m2 as int >= 1);
        }
        let mag64: u64 = isqrt64(m2 as u64);
        let mag: i64 = mag64 as i64;
        proof {
            assert((m2 as u64) as int == m2 as int);
            if mag == 0 {
                assert(is_isqrt(m2 as int, 0));
                assert((0 + 1) * (0 + 1) == 1) by (nonlinear_arith);
                assert(false);
            }
        }
        let td: i64 = rand_in_range(TARGET_OFF_MIN, TARGET_OFF_MAX);
        let offx = mul_div_sat(ox, td, mag);
        let offy = mul_div_sat(oy, td, mag);
        proof {
            assert((ox as int) * (ox as int) <= m2 as int);
            assert((oy as int) * (oy as int) <= m2 as int);
            assert(is_isqrt(m2 as int, mag as int));
            lemma_comp_le_isqrt(ox as int, m2 as int, mag as int);
            lemma_comp_le_isqrt(oy as int, m2 as int, mag as int);
            lemma_mul_div_bound(ox as int, td as int, mag as int, mag as int, TARGET_OFF_MAX as int);
            lemma_mul_div_bound(oy as int, td as int, mag as int, mag as int, TARGET_OFF_MAX as int);
            lemma_mul_is_commutative(mag as int, TARGET_OFF_MAX as int);
            lemma_div_by_multiple(TARGET_OFF_MAX as int, mag as int);
        }
        let target = Vec3Fx {
            x: sat_add(cfg.attractor.x, offx),
            y: sat_add(cfg.attractor.y, offy),
            z: cfg.attractor.z,
        };
        let lb: i64 = rand_in_range(LIGHT_B_MIN, LIGHT_B_MAX);
        let light = ColorFx { r: LIGHT_RG, g: LIGHT_RG, b: lb };
        let p = Self::new_with(cfg, position, v0c, target, light, width, cap);
        proof {
            assert(NORMAL_VEL_MIN <= nv as int <= NORMAL_VEL_MAX && p@.velocity == v3_clamp_s(
                v3_add_s(
                    v3_scale_s(nv as int, v3_sub_s(position, cfg.repulsor)),
                    Vec3Fx { x: 0, y: 0, z: SPAWN_Z_VEL },
                ),
                VEL_PRE_LIM as int,
            ));
            crate::fixed::lemma_isqrt_is(m2 as int, mag as int);
            assert((ov.z as int) * (ov.z as int) == 0) by (nonlinear_arith)
                requires
                    ov.z == 0i64,
            ;
            assert(m2 as int == ox as int * (ox as int) + oy as int * (oy as int));
            assert(isqrt(ox as int * (ox as int) + oy as int * (oy as int)) == mag as int);
            assert(spec_target_offset(
                p@.target,
                cfg.attractor,
                ox as int,
                oy as int,
                td as int,
            ));
        }
        p
    }

    /// Generates a renderable vertex at `p` with a width modulated by the
    /// depth coordinate to fake perspective: the base width divided by
    /// `max(1, (z + 2) / 2)`.
    pub fn point_to_line_vertex(p: Vec3Fx, base_width: i64) -> (tp: TrailPoint)
        requires
            0 <= base_width <= 4 * SCALE,
        ensures
            tp.pos == p,
            tp.width as int == spec_depth_width(p.z as int, base_width as int),
            0 <= tp.width <= base_width,
    {
        let zz = sat_add(p.z, 131072);
        let half = mul_div_sat(zz, 1, 2);
        proof {
            lemma_mul_div_bound(zz as int, 1, 2, SAT_LIM as int, 1);
            lemma_div_by_multiple(SAT_LIM as int, 2);
            assert(SAT_LIM as int * 1 == SAT_LIM as int) by (nonlinear_arith);
        }
        let denom: i64 = if half > SCALE {
            half
        } else {
            SCALE
        };
        proof {
            lemma_mul_nonnegative(base_width as int, SCALE as int);
            lemma_div_pos_is_pos(base_width as int * SCALE, denom as int);
            lemma_div_is_ordered_by_denominator(base_width as int * SCALE, SCALE as int, denom as int);
            lemma_mul_is_commutative(base_width as int, SCALE as int);
            lemma_div_by_multiple(base_width as int, SCALE as int);
        }
        TrailPoint { pos: p, width: mul_div_sat(base_width, SCALE, denom) }
    }

    /// Advances the particle one simulation step of length `dt` (fixed-
    /// point seconds): exactly the state machine of [`spec_step`].
    #[verifier::rlimit(100)]
    pub fn tick(&mut self, cfg: &SimConfig, dt: i64)
        requires
            old(self).wf(*cfg),
            cfg.wf(),
            1 <= dt <= SCALE,
            dt <= cfg.orbit_time,
        ensures
            final(self)@ == spec_step(old(self)@, *cfg, dt as int),
            final(self).wf(*cfg),
    {
        match self.phase {
            Phase::Falling => {
                let d = v3_sub(self.position, self.target);
                let m2 = v3_mag2(d);
                let dsq = mul_div_sat(m2, 1, SCALE);
                proof {
                    assert(m2 as int * 1 == m2 as int) by (nonlinear_arith);
                    lemma_div_pos_is_pos(m2 as int, SCALE as int);
                    vstd::arithmetic::div_mod::lemma_div_nonincreasing(m2 as int, SCALE as int);
                    assert(dsq as int == spec_dist_sq(old(self)@.position, old(self)@.target));
                }
                if dsq > cfg.orbit_distance_sq {
                    proof {
                        if m2 == 0 {
                            assert(div_tz(0, SCALE as int) == 0);
                            assert(false);
                        }
                    }
                    let mag64: u64 = isqrt64(m2 as u64);
                    let mag: i64 = mag64 as i64;
                    proof {
                        assert((m2 as u64) as int == m2 as int);
                        if mag == 0 {
                            assert(is_isqrt(m2 as int, 0));
                            assert((0 + 1) * (0 + 1) == 1) by (nonlinear_arith);
                            assert(false);
                        }
                    }
                    let ga = mul_div_sat(cfg.gravity_strength, SCALE, dsq);
                    let dt2 = mul_div_sat(dt, dt, SCALE);
                    let coeff = mul_div_sat(dt2, ga, SCALE);
                    let delta = Vec3Fx {
                        x: mul_div_sat(coeff, d.x, mag),
                        y: mul_div_sat(coeff, d.y, mag),
                        z: mul_div_sat(coeff, d.z, mag),
                    };
                    let vpre = v3_clamp(v3_sub(self.velocity, delta), VEL_PRE_LIM);
                    let nv = limit_speed(vpre, cfg.max_speed);
                    let np = v3_clamp(v3_add(self.position, v3_scale(dt, nv)), POS_LIM);
                    self.position = np;
                    self.velocity = nv;
                    let ghost pre_trail = self.trail@;
                    if self.trail.len() >= self.trail_capacity {
                        self.trail.pop_back();
                        proof {
                            assert(self.trail@ =~= pre_trail.drop_last());
                        }
                    }
                    let sample = TrailPoint { pos: np, width: self.trail_width };
                    self.trail.push_front(sample);
                    proof {
                        assert(self.trail@ =~= spec_trail_push(
                            pre_trail,
                            self.trail_capacity as int,
                            sample,
                        ));
                        assert(self@ =~~= spec_step(old(self)@, *cfg, dt as int));
                        assert forall|i: int| 0 <= i < self.trail@.len() implies trail_point_wf(
                            #[trigger] self.trail@[i],
                        ) by {
                            if i > 0 {
                                assert(self.trail@[i] == old(self)@.trail[i - 1]);
                            }
                        }
                    }
                } else {
                    let vs = v3_scale(cfg.orbit_path_size, self.velocity);
                    proof {
                        lemma_mul_div_bound(
                            cfg.orbit_path_size as int,
                            self.velocity.x as int,
                            SCALE as int,
                            SCALE as int,
                            VEL_PRE_LIM as int,
                        );
                        lemma_mul_div_bound(
                            cfg.orbit_path_size as int,
                            self.velocity.y as int,
                            SCALE as int,
                            SCALE as int,
                            VEL_PRE_LIM as int,
                        );
                        lemma_mul_div_bound(
                            cfg.orbit_path_size as int,
                            self.velocity.z as int,
                            SCALE as int,
                            SCALE as int,
                            VEL_PRE_LIM as int,
                        );
                        lemma_mul_is_commutative(SCALE as int, VEL_PRE_LIM as int);
                        lemma_div_by_multiple(VEL_PRE_LIM as int, SCALE as int);
                        assert(v3_in(vs, VEL_PRE_LIM as int));
                    }
                    let c1 = v3_add(self.position, vs);
                    let dir = v3_sub(self.target, c1);
                    let vt = Vec3Fx { x: -vs.y, y: vs.x, z: 0 };
                    let dq = v3_dot(dir, vt);
                    let off = if dq > 0 {
                        vt
                    } else {
                        Vec3Fx { x: -vt.x, y: -vt.y, z: 0 }
                    };
                    let c2 = v3_add(c1, off);
                    self.phase = Phase::EndingPath {
                        start: self.position,
                        control1: c1,
                        control2: c2,
                        t: 0,
                    };
                    proof {
                        assert(self@ =~~= spec_step(old(self)@, *cfg, dt as int));
                    }
                }
            },
            Phase::EndingPath { start, control1, control2, t } => {
                if t < SCALE {
                    let inc = mul_div_sat(dt, SCALE, cfg.orbit_time);
                    proof {
                        lemma_mul_nonnegative(dt as int, SCALE as int);
                        lemma_div_pos_is_pos(dt as int * SCALE, cfg.orbit_time as int);
                        lemma_div_is_ordered_by_denominator(
                            dt as int * SCALE,
                            dt as int,
                            cfg.orbit_time as int,
                        );
                        assert(dt as int * SCALE == SCALE as int * (dt as int))
                            by (nonlinear_arith);
                        lemma_div_by_multiple(SCALE as int, dt as int);
                        assert(0 <= inc as int <= SCALE);
                    }
                    let tn: i64 = t + inc;
                    let np0 = bezier_point(start, control1, control2, self.target, tn);
                    let np = v3_clamp(np0, POS_LIM);
                    let wid = end_width(self.trail_width, tn);
                    self.position = np;
                    let ghost pre_trail = self.trail@;
                    self.trail.pop_front();
                    let sample = TrailPoint { pos: np, width: wid };
                    self.trail.push_front(sample);
                    self.phase = Phase::EndingPath { start, control1, control2, t: tn };
                    proof {
                        let kept = if pre_trail.len() > 0 {
                            pre_trail.drop_first()
                        } else {
                            pre_trail
                        };
                        assert(self.trail@ =~= seq![sample] + kept);
                        assert(self@ =~~= spec_step(old(self)@, *cfg, dt as int));
                        assert forall|i: int| 0 <= i < self.trail@.len() implies trail_point_wf(
                            #[trigger] self.trail@[i],
                        ) by {
                            if i > 0 {
                                assert(self.trail@[i] == old(self)@.trail[i]);
                            }
                        }
                    }
                } else {
                    let ghost pre_trail = self.trail@;
                    self.trail.pop_back();
                    self.trail.pop_back();
                    proof {
                        let keep: int = if pre_trail.len() >= 2 {
                            pre_trail.len() - 2
                        } else {
                            0
                        };
                        assert(self.trail@ =~= pre_trail.subrange(0, keep));
                        assert(self@ =~~= spec_step(old(self)@, *cfg, dt as int));
                        assert forall|i: int| 0 <= i < self.trail@.len() implies trail_point_wf(
                            #[trigger] self.trail@[i],
                        ) by {
                            assert(self.trail@[i] == old(self)@.trail[i]);
                        }
                    }
                }
            },
        }
    }

    /// Destroys the particles whose trails are fully consumed and returns
    /// how many were removed; a particle is removed exactly when its
    /// trail is empty, and the survivors keep their order.
    pub fn remove_completed(particles: &mut Vec<Particle>) -> (removed: usize)
        ensures
            views(final(particles)@) == views(old(particles)@).filter(live_pred()),
            removed == old(particles)@.len() - final(particles)@.len(),
            final(particles)@.len() <= old(particles)@.len(),
    {
        let ghost orig = particles@;
        let n: usize = particles.len();
        let mut rev: Vec<Particle> = Vec::new();
        while particles.len() > 0
            invariant
                rev@.len() + particles@.len() == orig.len(),
                particles@ == orig.subrange(0, particles@.len() as int),
                forall|i: int|
                    0 <= i < rev@.len() ==> rev@[i] == orig[orig.len() - 1 - i],
            decreases particles@.len(),
        {
            let ghost plen: nat = particles@.len();
            let p = particles.pop();
            match p {
                Some(pp) => {
                    rev.push(pp);
                    proof {
                        assert(orig.subrange(0, plen as int).drop_last() =~= orig.subrange(
                            0,
                            plen as int - 1,
                        ));
                    }
                },
                None => {},
            }
        }
        let mut removed: usize = 0;
        proof {
            assert(views(particles@) =~= views(orig.subrange(0, 0)).filter(live_pred()));
            assert(Seq::<ParticleV>::empty().filter(live_pred()) =~= Seq::<ParticleV>::empty())
                by {
                reveal(Seq::filter);
            }
        }
        while rev.len() > 0
            invariant
                removed <= orig.len() - rev@.len(),
                particles@.len() + removed + rev@.len() == orig.len(),
                forall|i: int|
                    0 <= i < rev@.len() ==> rev@[i] == orig[orig.len() - 1 - i],
                views(particles@) == views(orig.subrange(0, orig.len() - rev@.len())).filter(
                    live_pred(),
                ),
                n == orig.len(),
            decreases rev@.len(),
        {
            let ghost k: int = orig.len() - rev@.len();
            let p = rev.pop();
            match p {
                Some(pp) => {
                    proof {
                        assert(pp == orig[k]);
                        assert(orig.subrange(0, k + 1) =~= orig.subrange(0, k).push(orig[k]));
                        assert(views(orig.subrange(0, k).push(orig[k])) =~= views(
                            orig.subrange(0, k),
                        ).push(orig[k]@));
                        lemma_filter_push(views(orig.subrange(0, k)), live_pred(), orig[k]@);
                    }
                    if pp.trail.len() > 0 {
                        let ghost pre = particles@;
                        particles.push(pp);
                        proof {
                            assert(live_pred()(pp@));
                            assert(views(particles@) =~= views(pre).push(pp@));
                        }
                    } else {
                        removed = removed + 1;
                        proof {
                            assert(!live_pred()(pp@));
                        }
                    }
                },
                None => {},
            }
        }
        proof {
            assert(orig.subrange(0, orig.len() as int) =~= orig);
        }
        removed
    }
}

} // verus!
