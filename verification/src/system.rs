//! The particle system: an unordered collection of particles stepped on a
//! fixed timestep, with reaping of completed particles and renderable
//! views (trail polylines and point lights) for an external renderer.

use vstd::prelude::*;

use crate::fixed::abs_i;
use crate::fixed::is_isqrt;
use crate::fixed::lemma_mul_div_bound;
use crate::fixed::mul_div_sat;
use crate::fixed::sat_add;
use crate::fixed::SCALE;
use crate::particle::lemma_comp_le_isqrt;
use crate::particle::lemma_filter_elems;
use crate::particle::live_pred;
use crate::particle::spec_target_offset;
use crate::particle::spec_depth_width;
use crate::particle::spec_step;
use crate::particle::views;
use crate::particle::wf_v;
use crate::particle::ColorFx;
use crate::particle::Particle;
use crate::particle::ParticleV;
use crate::particle::Phase;
use crate::particle::SimConfig;
use crate::particle::TrailPoint;
use crate::particle::ATTR_LIM;
use crate::particle::POS_LIM;
use crate::particle::LIGHT_B_MAX;
use crate::particle::LIGHT_B_MIN;
use crate::particle::LIGHT_RG;
use crate::particle::TARGET_OFF_MAX;
use crate::particle::TRAIL_CAP_MAX;
use crate::particle::TRAIL_CAP_MIN;
use crate::particle::TRAIL_WIDTH_MAX;
use crate::particle::TRAIL_WIDTH_MIN;
use crate::rng::rand_in_range;
use crate::vec3::v3_in;
use crate::vec3::v3_mag2;
use crate::vec3::Vec3Fx;
use crate::fixed::isqrt64;
use crate::particle::lemma_mag2_exact;

verus! {

/// Bound on the emission disc radius.
pub const EMIT_RADIUS_LIM: i64 = 0x100_0000;

/// A renderable point-light descriptor.
#[derive(Clone, Copy, Debug, PartialEq, Eq, Structural)]
pub struct PointLight {
    pub position: Vec3Fx,
    pub color: ColorFx,
    pub radius: i64,
}

/// One particle step as a mapping over particle states.
pub open spec fn step_fn(cfg: SimConfig, dt: int) -> spec_fn(ParticleV) -> ParticleV {
    |pv: ParticleV| spec_step(pv, cfg, dt)
}

/// Owns the particles and the configuration they are simulated under.
/// Iteration order carries no meaning for the simulation.
pub struct ParticleSystem {
    pub cfg: SimConfig,
    pub particles: Vec<Particle>,
}

impl ParticleSystem {
    pub open spec fn wf(&self) -> bool {
        &&& self.cfg.wf()
        &&& forall|i: int|
            0 <= i < self.particles@.len() ==> wf_v(#[trigger] self.particles@[i]@, self.cfg)
    }

    pub fn new(cfg: SimConfig) -> (s: ParticleSystem)
        requires
            cfg.wf(),
        ensures
            s.wf(),
            s.cfg == cfg,
            s.particles@.len() == 0,
    {
        ParticleSystem { cfg, particles: Vec::new() }
    }

    /// Appends a new particle in `Falling` state at `position`, with
    /// randomized trail capacity, trail width, target perturbation and
    /// light color, each within its documented range (see
    /// [`Particle::new`]); no population cap is enforced.
    pub fn spawn(&mut self, position: Vec3Fx)
        requires
            old(self).wf(),
            v3_in(position, POS_LIM as int),
        ensures
            final(self).wf(),
            final(self).cfg == old(self).cfg,
            final(self).particles@.len() == old(self).particles@.len() + 1,
            forall|i: int|
                0 <= i < old(self).particles@.len() ==> final(self).particles@[i] == old(
                    self,
                ).particles@[i],
            ({
                let p = final(self).particles@.last()@;
                &&& p.phase == Phase::Falling
                &&& p.position == position
                &&& p.trail.len() == 1
                &&& TRAIL_CAP_MIN <= p.trail_capacity as int <= TRAIL_CAP_MAX
                &&& TRAIL_WIDTH_MIN <= p.trail_width <= TRAIL_WIDTH_MAX
                &&& p.light_color.r == LIGHT_RG
                &&& p.light_color.g == LIGHT_RG
                &&& LIGHT_B_MIN <= p.light_color.b <= LIGHT_B_MAX
                &&& abs_i(p.target.x - old(self).cfg.attractor.x) <= TARGET_OFF_MAX
                &&& abs_i(p.target.y - old(self).cfg.attractor.y) <= TARGET_OFF_MAX
                &&& p.target.z == old(self).cfg.attractor.z
                &&& exists|ox: int, oy: int, td: int|
                    spec_target_offset(p.target, old(self).cfg.attractor, ox, oy, td)
            }),
    {
        let p = Particle::new(position, &self.cfg);
        self.particles.push(p);
    }

    /// With probability `1/20`, spawns a particle at a uniformly random
    /// point of the horizontal disc of the given radius around `center`
    /// (distance `radius * sqrt(u)`, direction random), and reports
    /// whether it did.  Whatever the draws, the spawn point stays within
    /// `radius` of `center` in both planar components, at `center`'s
    /// depth, and the new particle's randomized parameters lie in the
    /// same documented ranges as for [`ParticleSystem::spawn`].
    pub fn maybe_emit(&mut self, center: Vec3Fx, radius: i64) -> (spawned: bool)
        requires
            old(self).wf(),
            v3_in(center, ATTR_LIM as int),
            0 <= radius <= EMIT_RADIUS_LIM,
        ensures
            final(self).wf(),
            final(self).cfg == old(self).cfg,
            final(self).particles@.len() == old(self).particles@.len() + if spawned {
                1int
            } else {
                0int
            },
            forall|i: int|
                0 <= i < old(self).particles@.len() ==> final(self).particles@[i] == old(
                    self,
                ).particles@[i],
            spawned ==> ({
                let p = final(self).particles@.last()@;
                &&& p.phase == Phase::Falling
                &&& abs_i(p.position.x - center.x) <= radius
                &&& abs_i(p.position.y - center.y) <= radius
                &&& p.position.z == center.z
                &&& p.trail.len() == 1
                &&& TRAIL_CAP_MIN <= p.trail_capacity as int <= TRAIL_CAP_MAX
                &&& TRAIL_WIDTH_MIN <= p.trail_width <= TRAIL_WIDTH_MAX
                &&& p.light_color.r == LIGHT_RG
                &&& p.light_color.g == LIGHT_RG
                &&& LIGHT_B_MIN <= p.light_color.b <= LIGHT_B_MAX
                &&& abs_i(p.target.x - old(self).cfg.attractor.x) <= TARGET_OFF_MAX
                &&& abs_i(p.target.y - old(self).cfg.attractor.y) <= TARGET_OFF_MAX
                &&& p.target.z == old(self).cfg.attractor.z
            }),
    {
        let roll: i64 = rand_in_range(0, 19);
        if roll != 0 {
            return false;
        }
        let u: i64 = rand_in_range(0, SCALE);
        let us: i64 = u * SCALE;
        let rs64: u64 = isqrt64(us as u64);
        let rs: i64 = rs64 as i64;
        proof {
            assert((us as u64) as int == us as int);
            if rs > SCALE {
                assert((rs as int) * (rs as int) > (SCALE as int) * (SCALE as int))
                    by (nonlinear_arith)
                    requires
                        rs as int > SCALE as int,
                        SCALE as int > 0,
                ;
                assert(false);
            }
        }
        let dist: i64 = mul_div_sat(radius, rs, SCALE);
        proof {
            lemma_mul_div_bound(radius as int, rs as int, SCALE as int, radius as int, SCALE as int);
            vstd::arithmetic::mul::lemma_mul_is_commutative(radius as int, SCALE as int);
            vstd::arithmetic::div_mod::lemma_div_by_multiple(radius as int, SCALE as int);
            vstd::arithmetic::div_mod::lemma_div_pos_is_pos(radius as int * rs, SCALE as int);
            vstd::arithmetic::mul::lemma_mul_nonnegative(radius as int, rs as int);
        }
        let ox0: i64 = rand_in_range(-SCALE, SCALE);
        let oy0: i64 = rand_in_range(-SCALE, SCALE);
        let ox: i64 = if ox0 == 0 && oy0 == 0 {
            SCALE
        } else {
            ox0
        };
        let oy: i64 = if ox0 == 0 && oy0 == 0 {
            0
        } else {
            oy0
        };
        let ov = Vec3Fx { x: ox, y: oy, z: 0 };
        let m2 = v3_mag2(ov);
        proof {
            lemma_mag2_exact(ov);
            if ox != 0 {
                assert((ox as int) * (ox as int) >= 1) by (nonlinear_arith)
                    requires
                        ox as int != 0,
                ;
            } else {
                assert((oy as int) * (oy as int) >= 1) by (nonlinear_arith)
                    requires
                        oy as int != 0,
                ;
            }
            assert(m2 as int >= 1);
        }
        let mag64: u64 = isqrt64(m2 as u64);
        let mag: i64 = mag64 as i64;
        proof {
            assert((m2 as u64) as int == m2 as int);
            if mag == 0 {
                assert(is_isqrt(m2 as int, 0));
                assert((0 + 1) * (0 + 1) == 1) by (nonlinear_arith);
                assert(false);
            }
        }
        let offx = mul_div_sat(ox, dist, mag);
        let offy = mul_div_sat(oy, dist, mag);
        proof {
            assert((ox as int) * (ox as int) <= m2 as int);
            assert((oy as int) * (oy as int) <= m2 as int);
            assert(is_isqrt(m2 as int, mag as int));
            lemma_comp_le_isqrt(ox as int, m2 as int, mag as int);
            lemma_comp_le_isqrt(oy as int, m2 as int, mag as int);
            lemma_mul_div_bound(ox as int, dist as int, mag as int, mag as int, radius as int);
            lemma_mul_div_bound(oy as int, dist as int, mag as int, mag as int, radius as int);
            vstd::arithmetic::mul::lemma_mul_is_commutative(mag as int, radius as int);
            vstd::arithmetic::div_mod::lemma_div_by_multiple(radius as int, mag as int);
        }
        let pos = Vec3Fx { x: sat_add(center.x, offx), y: sat_add(center.y, offy), z: center.z };
        self.spawn(pos);
        true
    }

    /// Advances every particle one simulation step of length `dt`, then
    /// removes the particles whose trail is empty, returning the count
    /// removed.  The survivors are exactly the stepped particles with a
    /// nonempty trail, in order.
    pub fn tick(&mut self, dt: i64) -> (removed: usize)
        requires
            old(self).wf(),
            1 <= dt <= SCALE,
            dt <= old(self).cfg.orbit_time,
        ensures
            final(self).wf(),
            final(self).cfg == old(self).cfg,
            views(final(self).particles@) == views(old(self).particles@).map_values(
                step_fn(old(self).cfg, dt as int),
            ).filter(live_pred()),
            removed + final(self).particles@.len() == old(self).particles@.len(),
    {
        let ghost orig = self.particles@;
        let cfg = self.cfg;
        let n: usize = self.particles.len();
        let mut i: usize = 0;
        while i < n
            invariant
                self.cfg == cfg,
                cfg.wf(),
                1 <= dt <= SCALE,
                dt <= cfg.orbit_time,
                n == self.particles@.len(),
                n == orig.len(),
                i <= n,
                forall|j: int| i <= j < n ==> self.particles@[j] == orig[j],
                forall|j: int|
                    0 <= j < i ==> #[trigger] self.particles@[j]@ == spec_step(
                        orig[j]@,
                        cfg,
                        dt as int,
                    ),
                forall|j: int| 0 <= j < n ==> wf_v(#[trigger] self.particles@[j]@, cfg),
            decreases n - i,
        {
            self.particles[i].tick(&cfg, dt);
            i = i + 1;
        }
        let ghost stepped = self.particles@;
        proof {
            assert(views(stepped) =~= views(orig).map_values(step_fn(cfg, dt as int)));
        }
        let removed = Particle::remove_completed(&mut self.particles);
        proof {
            assert forall|i2: int|
                0 <= i2 < self.particles@.len() implies wf_v(
                #[trigger] self.particles@[i2]@,
                cfg,
            ) by {
                lemma_filter_elems(views(stepped), live_pred(), i2);
                let j: int = choose|j: int|
                    0 <= j < views(stepped).len() && views(stepped).filter(live_pred())[i2]
                        == views(stepped)[j];
                assert(self.particles@[i2]@ == stepped[j]@);
            }
        }
        removed
    }

    /// One renderable polyline per live particle: its trail samples in
    /// newest-to-oldest order, each vertex's width further modulated by
    /// depth through [`spec_depth_width`].
    pub fn trail_polylines(&self) -> (lines: Vec<Vec<TrailPoint>>)
        requires
            self.wf(),
        ensures
            lines@.len() == self.particles@.len(),
            forall|i: int|
                #![trigger lines@[i]]
                0 <= i < lines@.len() ==> {
                    let t = self.particles@[i]@.trail;
                    &&& lines@[i]@.len() == t.len()
                    &&& forall|j: int|
                        0 <= j < t.len() ==> #[trigger] lines@[i]@[j] == (TrailPoint {
                            pos: t[j].pos,
                            width: spec_depth_width(t[j].pos.z as int, t[j].width as int) as i64,
                        })
                },
    {
        let n: usize = self.particles.len();
        let mut lines: Vec<Vec<TrailPoint>> = Vec::with_capacity(n);
        let mut i: usize = 0;
        while i < n
            invariant
                self.wf(),
                n == self.particles@.len(),
                i <= n,
                lines@.len() == i,
                forall|k: int|
                    #![trigger lines@[k]]
                    0 <= k < i ==> {
                        let t = self.particles@[k]@.trail;
                        &&& lines@[k]@.len() == t.len()
                        &&& forall|j: int|
                            0 <= j < t.len() ==> #[trigger] lines@[k]@[j] == (TrailPoint {
                                pos: t[j].pos,
                                width: spec_depth_width(
                                    t[j].pos.z as int,
                                    t[j].width as int,
                                ) as i64,
                            })
                    },
            decreases n - i,
        {
            let p = &self.particles[i];
            let m: usize = p.trail.len();
            let mut line: Vec<TrailPoint> = Vec::with_capacity(m);
            let mut j: usize = 0;
            while j < m
                invariant
                    self.wf(),
                    i < self.particles@.len(),
                    p == &self.particles@[i as int],
                    m == p.trail@.len(),
                    j <= m,
                    line@.len() == j,
                    forall|q: int|
                        0 <= q < j ==> #[trigger] line@[q] == (TrailPoint {
                            pos: p.trail@[q].pos,
                            width: spec_depth_width(
                                p.trail@[q].pos.z as int,
                                p.trail@[q].width as int,
                            ) as i64,
                        }),
                decreases m - j,
            {
                let tp: TrailPoint = p.trail[j];
                proof {
                    assert(wf_v(self.particles@[i as int]@, self.cfg));
                    assert(crate::particle::trail_point_wf(
                        self.particles@[i as int]@.trail[j as int],
                    ));
                }
                line.push(Particle::point_to_line_vertex(tp.pos, tp.width));
                j = j + 1;
            }
            lines.push(line);
            i = i + 1;
        }
        lines
    }

    /// One point-light descriptor per live particle: its position, its
    /// fixed light color, and a radius of three times the depth-modulated
    /// unit width at its position.
    pub fn point_lights(&self) -> (lights: Vec<PointLight>)
        requires
            self.wf(),
        ensures
            lights@.len() == self.particles@.len(),
            forall|i: int|
                #![trigger lights@[i]]
                0 <= i < lights@.len() ==> {
                    let p = self.particles@[i]@;
                    lights@[i] == (PointLight {
                        position: p.position,
                        color: p.light_color,
                        radius: (3 * spec_depth_width(p.position.z as int, SCALE as int)) as i64,
                    })
                },
    {
        let n: usize = self.particles.len();
        let mut lights: Vec<PointLight> = Vec::with_capacity(n);
        let mut i: usize = 0;
        while i < n
            invariant
                self.wf(),
                n == self.particles@.len(),
                i <= n,
                lights@.len() == i,
                forall|k: int|
                    #![trigger lights@[k]]
                    0 <= k < i ==> {
                        let p = self.particles@[k]@;
                        lights@[k] == (PointLight {
                            position: p.position,
                            color: p.light_color,
                            radius: (3 * spec_depth_width(
                                p.position.z as int,
                                SCALE as int,
                            )) as i64,
                        })
                    },
            decreases n - i,
        {
            let p = &self.particles[i];
            let tp = Particle::point_to_line_vertex(p.position, SCALE);
            lights.push(PointLight { position: p.position, color: p.light_color, radius: 3 * tp.width });
            i = i + 1;
        }
        lights
    }
}

} // verus!
