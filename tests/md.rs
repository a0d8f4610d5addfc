use md_ecs::atom::{AtomType, World};
use md_ecs::error::MdError;
use md_ecs::integration::{
    clear_force, kinetic_sum, velocity_verlet_integrate_position, velocity_verlet_integrate_velocity, CurStep,
    Step, TimeStep,
};
use md_ecs::lj_interaction::{calc_lj_force, isqrt, mix_lj_params, LJCutOff, PairGeometry};
use md_ecs::atom::LJParams;
use md_ecs::output::{
    emitted_steps, frame_file_name, lammps_frame, push_decimal, should_output, OutInterval,
};
use md_ecs::rdf::{shell_weight, RDF};
use md_ecs::setup::{check_rdf_config, ConfigError, SetupPlugin};
use md_ecs::simbox::{SimBox, Vec3};
use md_ecs::simulation::Simulation;

// Units of the fixed-point state used by these tests.
const LENGTH_QUANTUM: f64 = 1e-21; // m
const TIME_QUANTUM: f64 = 1e-18; // s
const MASS_QUANTUM: f64 = 1e-30; // kg
const FORCE_QUANTUM: f64 = MASS_QUANTUM * LENGTH_QUANTUM / (TIME_QUANTUM * TIME_QUANTUM); // N
const ENERGY_QUANTUM: f64 = FORCE_QUANTUM * LENGTH_QUANTUM; // J
const VELOCITY_QUANTUM: f64 = LENGTH_QUANTUM / TIME_QUANTUM; // m/s

const SIGMA: f64 = 3.4e-10;
const EPSILON: f64 = 1.654e-21;
const ARGON_MASS: f64 = 39.948 * 1.660_539_066_60e-27;

fn quanta(x: f64, q: f64) -> i64 {
    (x / q).round() as i64
}

fn argon(epsilon: f64) -> AtomType {
    AtomType::new(
        String::from("Argon"),
        quanta(SIGMA, LENGTH_QUANTUM) as u64,
        quanta(epsilon, ENERGY_QUANTUM) as u64,
    )
}

fn argon_mass() -> u64 {
    quanta(ARGON_MASS, MASS_QUANTUM) as u64
}

/// The Lennard-Jones pair force `k r` with `k = 12 C12 / s^7 - 6 C6 / s^4`.
fn lj_pair_force(g: PairGeometry) -> Vec3 {
    let sigma = g.sigma as f64 * LENGTH_QUANTUM;
    let epsilon = g.epsilon as f64 * ENERGY_QUANTUM;
    let rx = g.r.x as f64 * LENGTH_QUANTUM;
    let ry = g.r.y as f64 * LENGTH_QUANTUM;
    let rz = g.r.z as f64 * LENGTH_QUANTUM;
    let s = rx * rx + ry * ry + rz * rz;
    let c12 = 4.0 * epsilon * sigma.powi(12);
    let c6 = 4.0 * epsilon * sigma.powi(6);
    let k = 12.0 * c12 / s.powi(7) - 6.0 * c6 / s.powi(4);
    Vec3::new(
        quanta(k * rx, FORCE_QUANTUM),
        quanta(k * ry, FORCE_QUANTUM),
        quanta(k * rz, FORCE_QUANTUM),
    )
}

fn lj_energy(s: f64) -> f64 {
    let sr6 = (SIGMA * SIGMA / s).powi(3);
    4.0 * EPSILON * (sr6 * sr6 - sr6)
}

fn cube_box(len: i64) -> SimBox {
    SimBox::new(Vec3::new(0, 0, 0), len, len, len)
}

fn empty_rdf() -> RDF {
    RDF::new(
        String::from("Argon"),
        String::from("Argon"),
        10,
        1000,
        u64::MAX - 1,
        u64::MAX - 1,
        String::from("rdf.csv"),
    )
}

struct Lcg(u64);

impl Lcg {
    fn next(&mut self) -> u64 {
        self.0 = self.0.wrapping_mul(6364136223846793005).wrapping_add(1442695040888963407);
        self.0 >> 11
    }
    fn below(&mut self, n: u64) -> u64 {
        self.next() % n
    }
}

#[test]
fn wrap_scenario() {
    // Box origin (0,0,0) and unit length, held in quanta of 1/1000.
    let b = cube_box(1000);
    assert_eq!(b.wrap(Vec3::new(1250, -250, 500)), Vec3::new(250, 750, 500));
    assert_eq!(b.wrap(Vec3::new(0, 0, 0)), Vec3::new(0, 0, 0));
}

#[test]
fn wrap_is_idempotent_and_inside() {
    let b = SimBox::new(Vec3::new(-7, 3, 100), 10, 4, 1);
    for p in [Vec3::new(-100, 250, -3), Vec3::new(2, 7, 101), Vec3::new(i64::MIN, i64::MAX, 0)] {
        let w = b.wrap(p);
        assert_eq!(b.wrap(w), w);
        assert!(-7 <= w.x && w.x < 3);
        assert!(3 <= w.y && w.y < 7);
        assert_eq!(w.z, 100);
    }
    assert_eq!(b.wrap(Vec3::new(-100, 250, -3)), Vec3::new(0, 6, 100));
}

#[test]
fn minimum_image_scenario() {
    let b = cube_box(10);
    assert_eq!(b.minimum_image(Vec3::new(6, -7, 0)), Vec3::new(-4, 3, 0));
}

#[test]
fn minimum_image_is_within_half_box() {
    let b = SimBox::new(Vec3::new(0, 0, 0), 10, 7, 1000);
    // Halves round away from zero.
    assert_eq!(b.minimum_image(Vec3::new(5, -5, 1500)), Vec3::new(-5, 2, -500));
    assert_eq!(b.minimum_image(Vec3::new(-5, 0, -500)), Vec3::new(5, 0, 500));
    let mut rng = Lcg(7);
    for _ in 0..1000 {
        let d = Vec3::new(
            rng.next() as i64 - (1 << 52),
            rng.next() as i64 - (1 << 52),
            rng.next() as i64 - (1 << 52),
        );
        let m = b.minimum_image(d);
        assert!(2 * m.x.abs() <= 10 && 2 * m.y.abs() <= 7 && 2 * m.z.abs() <= 1000);
        assert_eq!((d.x - m.x) % 10, 0);
        assert_eq!((d.y - m.y) % 7, 0);
        assert_eq!((d.z - m.z) % 1000, 0);
    }
}

#[test]
fn integer_square_root() {
    assert_eq!(isqrt(0), 0);
    assert_eq!(isqrt(15), 3);
    assert_eq!(isqrt(16), 4);
    assert_eq!(isqrt(u128::MAX), u64::MAX);
}

#[test]
fn lorentz_berthelot_mixing() {
    let (s, e) = mix_lj_params(LJParams::new(300, 4), LJParams::new(341, 9));
    assert_eq!(s, 320);
    assert_eq!(e, 6);
}

#[test]
fn newton_third_law_three_in_a_line() {
    let b = cube_box(quanta(3e-9, LENGTH_QUANTUM));
    let mut w = World::new();
    let x0 = quanta(1e-9, LENGTH_QUANTUM);
    let y0 = quanta(1.5e-9, LENGTH_QUANTUM);
    for k in 0..3i64 {
        let x = x0 + k * quanta(0.37e-9, LENGTH_QUANTUM) + k * k * 1234567;
        w.spawn(Vec3::new(x, y0, y0), Vec3::zero(), argon_mass(), argon(EPSILON));
    }
    let mut rdf = empty_rdf();
    let cut = LJCutOff::new(quanta(1.2e-9, LENGTH_QUANTUM) as u64);
    calc_lj_force(&mut w, &b, &cut, &mut rdf, &CurStep::init(), lj_pair_force).unwrap();
    let f = &w.forces;
    assert!(f[0].x != 0 && f[2].x != 0);
    assert_eq!(f[0].x + f[1].x + f[2].x, 0);
    assert_eq!(f[0].y + f[1].y + f[2].y, 0);
    assert_eq!(f[0].z + f[1].z + f[2].z, 0);
}

#[test]
fn forces_sum_to_zero_after_force_stage() {
    let b = cube_box(quanta(3e-9, LENGTH_QUANTUM));
    let mut w = World::new();
    let mut rng = Lcg(11);
    for _ in 0..40 {
        let l = b.dimension.x as u64;
        let p = Vec3::new(rng.below(l) as i64, rng.below(l) as i64, rng.below(l) as i64);
        w.spawn(p, Vec3::zero(), argon_mass(), argon(EPSILON * 1e-6));
    }
    let mut rdf = empty_rdf();
    let cut = LJCutOff::new(quanta(1.2e-9, LENGTH_QUANTUM) as u64);
    calc_lj_force(&mut w, &b, &cut, &mut rdf, &CurStep::init(), lj_pair_force).unwrap();
    let (sx, sy, sz) = w.forces.iter().fold((0i128, 0i128, 0i128), |a, f| {
        (a.0 + f.x as i128, a.1 + f.y as i128, a.2 + f.z as i128)
    });
    assert_eq!((sx, sy, sz), (0, 0, 0));
    assert!(w.forces.iter().any(|f| f.x != 0));
}

#[test]
fn pairs_outside_cutoff_contribute_nothing() {
    let b = cube_box(1000);
    let mut w = World::new();
    w.spawn(Vec3::new(0, 0, 0), Vec3::zero(), 1, AtomType::new(String::from("A"), 1, 1));
    w.spawn(Vec3::new(300, 0, 0), Vec3::zero(), 1, AtomType::new(String::from("A"), 1, 1));
    let mut rdf = empty_rdf();
    let unit = |_g: PairGeometry| Vec3::new(1, 2, 3);
    calc_lj_force(&mut w, &b, &LJCutOff::new(300), &mut rdf, &CurStep::init(), unit).unwrap();
    assert_eq!(w.forces[0], Vec3::zero());
    calc_lj_force(&mut w, &b, &LJCutOff::new(301), &mut rdf, &CurStep::init(), unit).unwrap();
    assert_eq!(w.forces[0], Vec3::new(1, 2, 3));
    assert_eq!(w.forces[1], Vec3::new(-1, -2, -3));
}

#[test]
fn coincident_particles_are_an_error() {
    let b = cube_box(1000);
    let mut w = World::new();
    w.spawn(Vec3::new(5, 5, 5), Vec3::zero(), 1, AtomType::new(String::from("A"), 1, 1));
    w.spawn(Vec3::new(1005, 5, -995), Vec3::zero(), 1, AtomType::new(String::from("A"), 1, 1));
    let mut rdf = empty_rdf();
    let r = calc_lj_force(&mut w, &b, &LJCutOff::new(10), &mut rdf, &CurStep::init(), |_g: PairGeometry| Vec3::zero());
    assert_eq!(r, Err(MdError::ZeroDistance { i: 0, j: 1 }));
}

#[test]
fn force_overflow_leaves_forces_unchanged() {
    let b = cube_box(1000);
    let mut w = World::new();
    for k in 0..3 {
        w.spawn(Vec3::new(10 * k, 0, 0), Vec3::zero(), 1, AtomType::new(String::from("A"), 1, 1));
    }
    let mut rdf = empty_rdf();
    let big = |_g: PairGeometry| Vec3::new(i64::MAX, 0, 0);
    let r = calc_lj_force(&mut w, &b, &LJCutOff::new(100), &mut rdf, &CurStep::init(), big);
    assert_eq!(r, Err(MdError::ForceOverflow { particle: 0 }));
    assert!(w.forces.iter().all(|f| *f == Vec3::zero()));
}

#[test]
fn rdf_counts_pairs_twice_inside_window() {
    let b = cube_box(1000);
    let mut w = World::new();
    w.spawn(Vec3::new(0, 0, 0), Vec3::zero(), 1, AtomType::new(String::from("A"), 1, 1));
    w.spawn(Vec3::new(0, 35, 0), Vec3::zero(), 1, AtomType::new(String::from("B"), 1, 1));
    w.spawn(Vec3::new(0, 0, 990), Vec3::zero(), 1, AtomType::new(String::from("A"), 1, 1));
    // 10 bins of width 10 up to 100; window steps 2..=3.
    let mut rdf = RDF::new(String::from("B"), String::from("A"), 10, 100, 2, 3, String::from("g.csv"));
    let zero = |_g: PairGeometry| Vec3::zero();
    let cut = LJCutOff::new(1);
    // Step 1 is outside the window.
    calc_lj_force(&mut w, &b, &cut, &mut rdf, &CurStep { n: 0 }, zero).unwrap();
    assert!(rdf.counts.iter().all(|c| *c == 0));
    calc_lj_force(&mut w, &b, &cut, &mut rdf, &CurStep { n: 1 }, zero).unwrap();
    // A-B at 35 (bin 3) and B-A at sqrt(35^2 + 10^2) = 36.4 (bin 3); A-A does not match.
    assert_eq!(rdf.counts[3], 4);
    assert_eq!(rdf.counts.iter().sum::<u64>(), 4);
    calc_lj_force(&mut w, &b, &cut, &mut rdf, &CurStep { n: 2 }, zero).unwrap();
    assert_eq!(rdf.counts[3], 8);
    calc_lj_force(&mut w, &b, &cut, &mut rdf, &CurStep { n: 3 }, zero).unwrap();
    assert_eq!(rdf.counts[3], 8);
    assert_eq!(rdf.n_frames(), 2);
}

#[test]
fn rdf_count_overflow_is_an_error() {
    let b = cube_box(1000);
    let mut w = World::new();
    w.spawn(Vec3::new(0, 0, 0), Vec3::zero(), 1, AtomType::new(String::from("A"), 1, 1));
    w.spawn(Vec3::new(35, 0, 0), Vec3::zero(), 1, AtomType::new(String::from("A"), 1, 1));
    let mut rdf = RDF::new(String::from("A"), String::from("A"), 10, 100, 1, 1, String::from("g.csv"));
    rdf.counts[3] = u64::MAX - 1;
    let unit = |_g: PairGeometry| Vec3::new(1, 0, 0);
    let r = calc_lj_force(&mut w, &b, &LJCutOff::new(100), &mut rdf, &CurStep::init(), unit);
    assert_eq!(r, Err(MdError::CountOverflow { bin: 3 }));
    assert_eq!(rdf.counts[3], u64::MAX - 1);
    assert!(w.forces.iter().all(|f| *f == Vec3::zero()));
}

#[test]
fn rdf_shell_weights() {
    assert_eq!(shell_weight(0), 1);
    assert_eq!(shell_weight(1), 7);
    assert_eq!(shell_weight(9), 271);
}

#[test]
fn rdf_of_ideal_gas() {
    // 500 particles, no interaction, random uniform positions in a (3 nm)^3 box;
    // 100 bins up to 1.2 nm.
    let len = quanta(3e-9, LENGTH_QUANTUM);
    let b = cube_box(len);
    let mut w = World::new();
    let mut rng = Lcg(2024);
    let n = 500;
    for _ in 0..n {
        let p = Vec3::new(rng.below(len as u64) as i64, rng.below(len as u64) as i64, rng.below(len as u64) as i64);
        w.spawn(p, Vec3::zero(), argon_mass(), argon(0.0));
    }
    let n_bins = 100usize;
    let range = quanta(1.2e-9, LENGTH_QUANTUM) as u64;
    let mut rdf = RDF::new(String::from("Argon"), String::from("Argon"), n_bins, range, 1, 2, String::from("rdf.csv"));
    let cut = LJCutOff::new(quanta(1.2e-9, LENGTH_QUANTUM) as u64);
    for step in 0..2u64 {
        calc_lj_force(&mut w, &b, &cut, &mut rdf, &CurStep { n: step }, lj_pair_force).unwrap();
        clear_force(&mut w);
    }
    let bin_width = 1.2e-9 / n_bins as f64;
    let volume = 3e-9f64.powi(3);
    let rho = n as f64 / volume;
    let frames = rdf.n_frames() as f64;
    let mut total = 0.0;
    let mut count = 0;
    for bin in 0..n_bins {
        let r_b = bin as f64 * bin_width;
        if r_b < 0.3e-9 || r_b > 1.0e-9 {
            continue;
        }
        let shell = 4.0 / 3.0 * std::f64::consts::PI * bin_width.powi(3) * shell_weight(bin as u64) as f64;
        let g = rdf.counts[bin] as f64 / (n as f64 * rho * shell) / frames;
        total += g;
        count += 1;
    }
    let mean = total / count as f64;
    assert!((mean - 1.0).abs() < 0.1, "mean g(r) = {}", mean);
}

fn two_body(offset: f64) -> Simulation {
    let len = quanta(3e-9, LENGTH_QUANTUM);
    let b = cube_box(len);
    let mut w = World::new();
    let r_min = SIGMA * 2f64.powf(1.0 / 6.0);
    let c = quanta(1.5e-9, LENGTH_QUANTUM);
    let half = quanta((r_min + offset) / 2.0, LENGTH_QUANTUM);
    w.spawn(Vec3::new(c - half, c, c), Vec3::zero(), argon_mass(), argon(EPSILON));
    w.spawn(Vec3::new(c + half, c, c), Vec3::zero(), argon_mass(), argon(EPSILON));
    Simulation {
        world: w,
        simbox: b,
        cut_off: LJCutOff::new(quanta(1.2e-9, LENGTH_QUANTUM) as u64),
        rdf: empty_rdf(),
        time_step: TimeStep::new(quanta(2e-15, TIME_QUANTUM) as u32),
        number_steps: Step::new(1000),
        cur_step: CurStep::init(),
        output_interval: OutInterval::new(100),
    }
}

fn separation(s: &Simulation) -> f64 {
    (s.world.positions[1].x - s.world.positions[0].x) as f64 * LENGTH_QUANTUM
}

#[test]
fn two_body_at_minimum_stays_put() {
    let mut s = two_body(0.0);
    let r0 = separation(&s);
    let mut max_dev: f64 = 0.0;
    let mut first = true;
    while !s.finished() {
        s.run_step(lj_pair_force).unwrap();
        if first {
            // Forces at the minimum: below 1e-13 N.
            for f in &s.world.old_forces {
                assert!((f.x as f64 * FORCE_QUANTUM).abs() < 1e-13);
            }
            first = false;
        }
        max_dev = max_dev.max((separation(&s) - r0).abs());
    }
    assert_eq!(s.cur_step.n, 1000);
    assert!(max_dev < 0.01 * SIGMA, "deviation {}", max_dev);
}

#[test]
fn two_body_energy_is_nearly_conserved() {
    let mut s = two_body(0.02 * SIGMA);
    let energy = |s: &Simulation| {
        let mut e = 0.0;
        for k in 0..2 {
            let v = s.world.velocities[k];
            let (vx, vy, vz) = (v.x as f64 * VELOCITY_QUANTUM, v.y as f64 * VELOCITY_QUANTUM, v.z as f64 * VELOCITY_QUANTUM);
            e += 0.5 * s.world.masses[k] as f64 * MASS_QUANTUM * (vx * vx + vy * vy + vz * vz);
        }
        let r = separation(s);
        e + lj_energy(r * r)
    };
    let e0 = energy(&s);
    let mut max_drift: f64 = 0.0;
    while !s.finished() {
        s.run_step(lj_pair_force).unwrap();
        max_drift = max_drift.max((energy(&s) - e0).abs());
    }
    // The kick uses the forces of this step and the last, so the scheme lags
    // the force by one step and the oscillation slowly gains energy; the
    // tolerance is one percent of the well depth.
    assert!(max_drift < 0.01 * EPSILON, "drift {} J", max_drift);
}

#[test]
fn velocity_stage_removes_drift() {
    let mut w = World::new();
    let mut rng = Lcg(5);
    for _ in 0..7 {
        let v = Vec3::new(rng.below(1000) as i64 + 500, rng.below(1000) as i64 - 300, -(rng.below(77) as i64));
        w.spawn(Vec3::zero(), v, 3, AtomType::new(String::from("A"), 1, 1));
    }
    w.forces[2] = Vec3::new(600, -60, 6);
    w.old_forces[2] = Vec3::new(600, -60, 6);
    velocity_verlet_integrate_velocity(&mut w, &TimeStep::new(5)).unwrap();
    let sx: i64 = w.velocities.iter().map(|v| v.x).sum();
    let sy: i64 = w.velocities.iter().map(|v| v.y).sum();
    let sz: i64 = w.velocities.iter().map(|v| v.z).sum();
    for s in [sx, sy, sz] {
        assert!(0 <= s && s < 7);
    }
}

#[test]
fn velocity_kick_exact_value() {
    let mut w = World::new();
    w.spawn(Vec3::zero(), Vec3::new(10, 0, 0), 4, AtomType::new(String::from("A"), 1, 1));
    w.spawn(Vec3::zero(), Vec3::new(-10, 0, 0), 4, AtomType::new(String::from("A"), 1, 1));
    w.forces[0] = Vec3::new(8, 0, -3);
    w.old_forces[0] = Vec3::new(4, 0, 0);
    velocity_verlet_integrate_velocity(&mut w, &TimeStep::new(2)).unwrap();
    // Kicks: x: 10 + floor(12*2/8) = 13, -10; z: 0 + floor(-6/8) = -1, 0.
    // Mean x: floor(3/2) = 1; mean z: floor(-1/2) = -1.
    assert_eq!(w.velocities[0], Vec3::new(12, 0, 0));
    assert_eq!(w.velocities[1], Vec3::new(-11, 0, 1));
}

#[test]
fn velocity_overflow_is_an_error() {
    let mut w = World::new();
    w.spawn(Vec3::zero(), Vec3::new(0x4000_0000_0000_0000 - 1, 0, 0), 1, AtomType::new(String::from("A"), 1, 1));
    w.forces[0] = Vec3::new(2, 0, 0);
    let before = w.velocities.clone();
    let r = velocity_verlet_integrate_velocity(&mut w, &TimeStep::new(1));
    assert_eq!(r, Err(MdError::VelocityOverflow { particle: 0 }));
    assert_eq!(w.velocities, before);
}

#[test]
fn position_stage_moves_and_wraps() {
    let b = cube_box(100);
    let mut w = World::new();
    w.spawn(Vec3::new(95, 3, 50), Vec3::new(2, -2, 0), 2, AtomType::new(String::from("A"), 1, 1));
    w.forces[0] = Vec3::new(4, 0, -1);
    let mut step = CurStep::init();
    velocity_verlet_integrate_position(&mut w, &b, &TimeStep::new(3), &mut step);
    // x: 95 + 6 + floor(4*9/4) = 110 -> 10; y: 3 - 6 = -3 -> 97; z: 50 + floor(-9/4) = 47.
    assert_eq!(w.positions[0], Vec3::new(10, 97, 47));
    assert_eq!(step.n, 1);
}

#[test]
fn old_force_is_carried_across_a_step() {
    let len = quanta(3e-9, LENGTH_QUANTUM);
    let b = cube_box(len);
    let mut w = World::new();
    let mut rng = Lcg(99);
    for _ in 0..10 {
        let p = Vec3::new(rng.below(len as u64) as i64, rng.below(len as u64) as i64, rng.below(len as u64) as i64);
        w.spawn(p, Vec3::zero(), argon_mass(), argon(EPSILON * 1e-6));
    }
    let mut rdf = empty_rdf();
    let cut = LJCutOff::new(quanta(1.2e-9, LENGTH_QUANTUM) as u64);
    let mut step = CurStep::init();
    calc_lj_force(&mut w, &b, &cut, &mut rdf, &step, lj_pair_force).unwrap();
    let after_force = w.forces.clone();
    let dt = TimeStep::new(2000);
    velocity_verlet_integrate_position(&mut w, &b, &dt, &mut step);
    velocity_verlet_integrate_velocity(&mut w, &dt).unwrap();
    clear_force(&mut w);
    assert_eq!(w.old_forces, after_force);
    assert!(w.forces.iter().all(|f| *f == Vec3::zero()));
}

#[test]
fn trajectory_stride_scenario() {
    assert_eq!(emitted_steps(20, 5), vec![0, 5, 10, 15, 20]);
    assert!(should_output(0, 5) && should_output(15, 5) && !should_output(16, 5));
    let b = cube_box(10);
    let mut w = World::new();
    w.spawn(Vec3::new(1, 2, 3), Vec3::new(-4, 5, 0), 1, AtomType::new(String::from("A"), 1, 1));
    for step in emitted_steps(20, 5) {
        let text = lammps_frame(step, &w, &b, "e-21", "e-3");
        let mut lines = text.lines();
        assert_eq!(lines.next(), Some("ITEM: TIMESTEP"));
        assert_eq!(lines.next(), Some(step.to_string().as_str()));
    }
}

#[test]
fn trajectory_stride_other_intervals() {
    assert_eq!(emitted_steps(0, 3), vec![0]);
    assert_eq!(emitted_steps(7, 3), vec![0, 3, 6]);
    assert_eq!(emitted_steps(4, 1), vec![0, 1, 2, 3, 4]);
}

#[test]
fn frame_text_exact() {
    let b = SimBox::new(Vec3::new(-5, 0, 7), 10, 20, 30);
    let mut w = World::new();
    w.spawn(Vec3::new(1, -2, 30), Vec3::new(-4, 5, 0), 1, AtomType::new(String::from("A"), 1, 1));
    w.spawn(Vec3::new(0, 0, 0), Vec3::new(0, 0, 123), 1, AtomType::new(String::from("A"), 1, 1));
    let text = lammps_frame(40, &w, &b, "e-9", "");
    let expected = "ITEM: TIMESTEP\n40\nITEM: NUMBER OF ATOMS\n2\nITEM: BOX BOUNDS pp pp pp\n\
-5e-9 5e-9\n0e-9 20e-9\n7e-9 37e-9\nITEM: ATOMS id type x y z vx vy vz\n\
1 1 1e-9 -2e-9 30e-9 -4 5 0\n2 1 0e-9 0e-9 0e-9 0 0 123\n";
    assert_eq!(text, expected);
}

#[test]
fn frame_file_names() {
    assert_eq!(frame_file_name(&String::from("./trjs/argon"), 0), "./trjs/argon_0.trj");
    assert_eq!(frame_file_name(&String::from("argon"), 1205), "argon_1205.trj");
}

#[test]
fn decimal_text() {
    let mut s = String::new();
    push_decimal(&mut s, i64::MIN);
    assert_eq!(s, i64::MIN.to_string());
    let mut s = String::from("x");
    push_decimal(&mut s, 907);
    assert_eq!(s, "x907");
}

#[test]
fn configuration_errors() {
    let ok = SetupPlugin::new(10, 2000, 100, 50, Vec3::new(10, 10, 10), Vec3::zero(), 5, String::from("t"), 10);
    assert_eq!(ok.validate(), Ok(()));
    let bad_dt = SetupPlugin::new(10, 0, 100, 50, Vec3::new(10, 10, 10), Vec3::zero(), 5, String::from("t"), 10);
    assert_eq!(bad_dt.validate(), Err(ConfigError::NonPositiveTimeStep));
    let bad_rc = SetupPlugin::new(10, 1, 100, 50, Vec3::new(10, 10, 10), Vec3::zero(), 0, String::from("t"), 10);
    assert_eq!(bad_rc.validate(), Err(ConfigError::NonPositiveCutoff));
    let bad_box = SetupPlugin::new(10, 1, 100, 50, Vec3::new(10, 0, 10), Vec3::zero(), 5, String::from("t"), 10);
    assert_eq!(bad_box.validate(), Err(ConfigError::NonPositiveBoxLength));
    let far_box = SetupPlugin::new(10, 1, 100, 50, Vec3::new(10, 10, 10), Vec3::new(0, 0, i64::MAX - 5), 5, String::from("t"), 10);
    assert_eq!(far_box.validate(), Err(ConfigError::BoxOutOfRange));
    let bad_out = SetupPlugin::new(10, 1, 100, 50, Vec3::new(10, 10, 10), Vec3::zero(), 5, String::from("t"), 0);
    assert_eq!(bad_out.validate(), Err(ConfigError::NonPositiveOutputInterval));
    let long = SetupPlugin::new(10, 1, u64::MAX, 50, Vec3::new(10, 10, 10), Vec3::zero(), 5, String::from("t"), 1);
    assert_eq!(long.validate(), Err(ConfigError::TooManySteps));
}

#[test]
fn rdf_configuration_errors() {
    assert_eq!(check_rdf_config(100, 1200, 500, 1000, 1000), Ok(()));
    assert_eq!(check_rdf_config(0, 1200, 500, 1000, 1000), Err(ConfigError::NoRdfBins));
    assert_eq!(check_rdf_config(100, 0, 500, 1000, 1000), Err(ConfigError::NonPositiveRdfRange));
    assert_eq!(check_rdf_config(1 << 40, 1 << 40, 500, 1000, 1000), Err(ConfigError::RdfRangeTooLarge));
    assert_eq!(check_rdf_config(100, 1200, 600, 500, 1000), Err(ConfigError::RdfWindowReversed));
    assert_eq!(check_rdf_config(100, 1200, 500, 1001, 1000), Err(ConfigError::RdfWindowPastRun));
}

#[test]
fn step_reports_frames_and_rdf_end() {
    let mut s = two_body(0.0);
    s.number_steps = Step::new(6);
    s.output_interval = OutInterval::new(3);
    s.rdf = RDF::new(String::from("Argon"), String::from("Argon"), 10, 1 << 40, 2, 4, String::from("g.csv"));
    let mut frames = Vec::new();
    let mut rdf_end = Vec::new();
    while !s.finished() {
        let rep = s.run_step(lj_pair_force).unwrap();
        if rep.write_frame {
            frames.push(rep.step);
        }
        if rep.rdf_complete {
            rdf_end.push(rep.step);
        }
    }
    assert_eq!(frames, vec![3, 6]);
    assert_eq!(rdf_end, vec![4]);
    // One pair, counted twice, in each of the three sampled steps.
    assert_eq!(s.rdf.counts.iter().sum::<u64>(), 6);
}

#[test]
fn kinetic_sum_exact_and_overflow() {
    let mut w = World::new();
    assert_eq!(kinetic_sum(&w), Some(0));
    w.spawn(Vec3::zero(), Vec3::new(1, -2, 3), 5, AtomType::new(String::from("A"), 1, 1));
    w.spawn(Vec3::zero(), Vec3::new(-4, 0, 0), 2, AtomType::new(String::from("A"), 1, 1));
    // 5 * 14 + 2 * 16
    assert_eq!(kinetic_sum(&w), Some(102));
    w.spawn(Vec3::zero(), Vec3::new(i64::MIN, i64::MIN, i64::MIN), u64::MAX, AtomType::new(String::from("A"), 1, 1));
    assert_eq!(kinetic_sum(&w), None);
}
