use demosim::particle::{ColorFx, Particle, Phase, SimConfig};
use demosim::system::ParticleSystem;
use demosim::vec3::Vec3Fx;

const DT: i64 = 1092; // 1/60 s in fixed point

fn spawn_test_particle(cfg: &SimConfig, cap: usize) -> Particle {
    Particle::new_with(
        cfg,
        Vec3Fx { x: 19661, y: 19661, z: 1966080 }, // (0.3, 0.3, 30.0)
        Vec3Fx { x: 0, y: 0, z: -327680 },         // (0, 0, -5.0)
        cfg.attractor,
        ColorFx { r: 26214, g: 26214, b: 45000 },
        512,
        cap,
    )
}

/// Randomized spawns stay within the documented parameter ranges.
#[test]
fn spawn_ranges() {
    let cfg = SimConfig::standard();
    let mut sys = ParticleSystem::new(cfg);
    for _ in 0..50 {
        sys.spawn(Vec3Fx { x: 19661, y: 19661, z: 1966080 });
    }
    assert_eq!(sys.particles.len(), 50);
    for p in sys.particles.iter() {
        assert!(matches!(p.phase, Phase::Falling));
        assert_eq!(p.trail.len(), 1);
        assert!((80..=159).contains(&(p.trail_capacity as i64)));
        assert!((328..=983).contains(&p.trail_width));
        assert_eq!(p.light_color.r, 26214);
        assert_eq!(p.light_color.g, 26214);
        assert!((39322..=52428).contains(&p.light_color.b));
        assert!((p.target.x - cfg.attractor.x).abs() <= 6553);
        assert!((p.target.y - cfg.attractor.y).abs() <= 6553);
        // the drawn offset distance is at least 0.02 (1311 fixed-point),
        // less at most the rounding of the two planar components
        let dx = (p.target.x - cfg.attractor.x) as i128;
        let dy = (p.target.y - cfg.attractor.y) as i128;
        assert!(dx * dx + dy * dy >= 1309 * 1309);
        assert_eq!(p.target.z, cfg.attractor.z);
    }
}

/// While falling, the trail never grows past its fixed capacity.
#[test]
fn trail_stays_within_capacity() {
    let cfg = SimConfig::standard();
    let mut p = spawn_test_particle(&cfg, 5);
    for _ in 0..400 {
        p.tick(&cfg, DT);
        assert!(p.trail.len() <= 5);
        if matches!(p.phase, Phase::EndingPath { .. }) {
            break;
        }
    }
}

/// A particle within the orbit threshold changes phase on exactly one
/// tick, and the synthesized second control point turns toward the
/// target: dot(control2 - control1, target - control1) >= 0.
#[test]
fn capture_turns_toward_target() {
    let cfg = SimConfig::standard();
    for vel in [
        Vec3Fx { x: 0, y: 655360, z: 0 },
        Vec3Fx { x: -655360, y: 0, z: 0 },
        Vec3Fx { x: 400000, y: -400000, z: 100000 },
    ] {
        let mut p = Particle::new_with(
            &cfg,
            Vec3Fx {
                x: cfg.attractor.x + 8000,
                y: cfg.attractor.y,
                z: cfg.attractor.z,
            }, // squared distance 8000^2/65536 = 976 <= 4096
            vel,
            cfg.attractor,
            ColorFx { r: 26214, g: 26214, b: 45000 },
            512,
            100,
        );
        assert!(matches!(p.phase, Phase::Falling));
        p.tick(&cfg, DT);
        match p.phase {
            Phase::EndingPath { control1, control2, t, .. } => {
                assert_eq!(t, 0);
                let ox = (control2.x - control1.x) as i128;
                let oy = (control2.y - control1.y) as i128;
                let oz = (control2.z - control1.z) as i128;
                let dx = (p.target.x - control1.x) as i128;
                let dy = (p.target.y - control1.y) as i128;
                let dz = (p.target.z - control1.z) as i128;
                assert!(ox * dx + oy * dy + oz * dz >= 0);
            }
            Phase::Falling => panic!("particle was not captured"),
        }
        // the transition happens exactly once: later ticks stay on the path
        for _ in 0..3 {
            p.tick(&cfg, DT);
            assert!(matches!(p.phase, Phase::EndingPath { .. }));
        }
    }
}

/// Once the path is done the trail decays to empty, and the reaper
/// removes exactly the particles whose trail became empty.
#[test]
fn removal_counts_drained_particles() {
    let cfg = SimConfig::standard();
    let mut drained = Particle::new_with(
        &cfg,
        Vec3Fx { x: cfg.attractor.x + 8000, y: cfg.attractor.y, z: cfg.attractor.z },
        Vec3Fx { x: 0, y: 100000, z: 0 },
        cfg.attractor,
        ColorFx { r: 26214, g: 26214, b: 45000 },
        512,
        3,
    );
    for _ in 0..200 {
        drained.tick(&cfg, DT);
        if drained.trail.is_empty() {
            break;
        }
    }
    assert!(drained.trail.is_empty(), "trail did not decay to empty");
    let fresh = spawn_test_particle(&cfg, 10);
    let mut particles = vec![drained, fresh];
    let removed = Particle::remove_completed(&mut particles);
    assert_eq!(removed, 1);
    assert_eq!(particles.len(), 1);
    assert!(!particles[0].trail.is_empty());
}

/// End to end: a particle spawned far away falls until the distance drops
/// below the orbit threshold, follows the Bezier path, and its trail then
/// decays to empty within a bounded number of steps, at which point the
/// system removes it.
#[test]
fn end_to_end_capture_and_decay() {
    let cfg = SimConfig::standard();
    let mut sys = ParticleSystem::new(cfg);
    sys.particles.push(spawn_test_particle(&cfg, 100));

    let mut captured = false;
    let mut removed_total = 0;
    for _ in 0..2_000_000 {
        removed_total += sys.tick(DT);
        if !captured {
            if let Some(p) = sys.particles.first() {
                captured = matches!(p.phase, Phase::EndingPath { .. });
            }
        }
        if sys.particles.is_empty() {
            break;
        }
    }
    assert!(captured, "particle never reached the orbit threshold");
    assert!(sys.particles.is_empty(), "particle trail never fully decayed");
    assert_eq!(removed_total, 1);
}

/// The trail polyline modulates each sample width by depth
/// (`width / max(1, (z + 2) / 2)`), and each point light carries the
/// particle color with a radius of three unit-modulated widths.
#[test]
fn polylines_and_lights_formulas() {
    let cfg = SimConfig::standard();
    let mut sys = ParticleSystem::new(cfg);
    sys.particles.push(spawn_test_particle(&cfg, 100));

    let lines = sys.trail_polylines();
    assert_eq!(lines.len(), 1);
    assert_eq!(lines[0].len(), 1);
    // z = 30.0: denominator (z + 2) / 2 = 16.0, so width 512 becomes 32
    assert_eq!(lines[0][0].width, 32);
    assert_eq!(lines[0][0].pos, Vec3Fx { x: 19661, y: 19661, z: 1966080 });

    let lights = sys.point_lights();
    assert_eq!(lights.len(), 1);
    assert_eq!(lights[0].position, Vec3Fx { x: 19661, y: 19661, z: 1966080 });
    assert_eq!(lights[0].color, ColorFx { r: 26214, g: 26214, b: 45000 });
    // unit width 1.0 modulated by depth 16 is 4096; radius is three times that
    assert_eq!(lights[0].radius, 12288);
}

/// Random emission spawns inside the requested disc, at the disc's depth.
#[test]
fn emission_stays_in_disc() {
    let cfg = SimConfig::standard();
    let mut sys = ParticleSystem::new(cfg);
    let center = Vec3Fx { x: 13107, y: 5505, z: 1966080 };
    let mut spawned = 0;
    for _ in 0..1000 {
        if sys.maybe_emit(center, 18350) {
            spawned += 1;
            let p = sys.particles.last().unwrap();
            assert!((p.position.x - center.x).abs() <= 18350);
            assert!((p.position.y - center.y).abs() <= 18350);
            assert_eq!(p.position.z, center.z);
        }
    }
    assert!(spawned >= 1);
    assert_eq!(sys.particles.len(), spawned);
}
