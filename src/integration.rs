use vstd::prelude::*;

use crate::atom::World;
use crate::error::MdError;
use crate::simbox::{SimBox, Vec3, wrap_coord, wrap_coord_spec};
use crate::lj_interaction::norm_sq;
use crate::sums::{seq_sum, lemma_seq_sum_bound, lemma_seq_sum_monotone, lemma_seq_sum_shift, lemma_seq_sum_scale};

verus! {

/// The step counter: how many steps have completed.
#[derive(Clone, Copy, Debug)]
pub struct CurStep {
    pub n: u64,
}

impl CurStep {
    pub fn init() -> (r: CurStep)
        ensures
            r.n == 0,
    {
        CurStep { n: 0 }
    }
}

/// The number of steps a run takes.
#[derive(Clone, Copy, Debug)]
pub struct Step {
    pub n: u64,
}

impl Step {
    pub fn new(n_step: u64) -> (r: Step)
        ensures
            r.n == n_step,
    {
        Step { n: n_step }
    }
}

/// The integration time step, in time quanta.
#[derive(Clone, Copy, Debug)]
pub struct TimeStep {
    pub delta: u32,
}

impl TimeStep {
    pub fn new(dt: u32) -> (r: TimeStep)
        ensures
            r.delta == dt,
    {
        TimeStep { delta: dt }
    }
}

/// The chunk size for per-particle work; a hint only.
#[derive(Clone, Copy, Debug)]
pub struct BatchSize(pub usize);

impl BatchSize {
    pub fn new(batch: usize) -> (r: BatchSize)
        ensures
            r.0 == batch,
    {
        BatchSize(batch)
    }
}

} // verus!

verus! {

/// Velocities whose components reach this size after a kick are a numeric
/// failure: it leaves room for the drift removal that follows.
pub const VELOCITY_LIMIT: i64 = 0x4000_0000_0000_0000;

/// `floor(a / d)` for a positive `d`.
pub fn floor_div(a: i128, d: i128) -> (r: i128)
    requires
        d > 0,
        a > i128::MIN,
    ensures
        r == a / d,
{
    if a >= 0 {
        a / d
    } else {
        let q = (-a) / d;
        let rem = (-a) % d;
        proof {
            let ai = a as int;
            let di = d as int;
            vstd::arithmetic::div_mod::lemma_fundamental_div_mod(-ai, di);
            if rem == 0 {
                assert(ai == (-q) * di + 0) by (nonlinear_arith)
                    requires -ai == di * q + rem, rem == 0;
                vstd::arithmetic::div_mod::lemma_fundamental_div_mod_converse(ai, di, -q as int, 0);
            } else {
                assert(ai == (-q - 1) * di + (di - rem)) by (nonlinear_arith)
                    requires -ai == di * q + rem;
                vstd::arithmetic::div_mod::lemma_fundamental_div_mod_converse(ai, di, -q - 1, di - rem);
            }
        }
        if rem == 0 {
            -q
        } else {
            -q - 1
        }
    }
}

/// The unwrapped position after one step along one axis:
/// `p + v dt + floor(f dt^2 / 2m)`.
pub open spec fn drift(p: int, v: int, f: int, m: int, dt: int) -> int {
    p + v * dt + (f * dt * dt) / (2 * m)
}

/// The new position of particle `k` of `w`.
pub open spec fn advanced_position(w: World, b: SimBox, dt: int, k: int) -> Vec3 {
    let p = w.positions@[k];
    let v = w.velocities@[k];
    let f = w.forces@[k];
    let m = w.masses@[k] as int;
    Vec3 {
        x: wrap_coord_spec(drift(p.x as int, v.x as int, f.x as int, m, dt), b.origin.x as int, b.dimension.x as int) as i64,
        y: wrap_coord_spec(drift(p.y as int, v.y as int, f.y as int, m, dt), b.origin.y as int, b.dimension.y as int) as i64,
        z: wrap_coord_spec(drift(p.z as int, v.z as int, f.z as int, m, dt), b.origin.z as int, b.dimension.z as int) as i64,
    }
}

/// `w1` is `w0` after the position stage with time step `dt`.
pub open spec fn position_stage_post(w0: World, w1: World, b: SimBox, dt: int) -> bool {
    &&& w1.wf()
    &&& w1.ids == w0.ids && w1.velocities == w0.velocities && w1.forces == w0.forces
    &&& w1.old_forces == w0.old_forces && w1.masses == w0.masses && w1.atom_types == w0.atom_types
    &&& w1.positions@.len() == w0.len()
    &&& forall|k: int| 0 <= k < w0.len() ==> #[trigger] w1.positions@[k] == advanced_position(w0, b, dt, k)
}

/// One coordinate of the position update, wrapped into `[o, o + l)`.
fn drift_coord(p: i64, v: i64, f: i64, m: u64, dt: u32, o: i64, l: i64) -> (r: i64)
    requires
        m > 0,
        l > 0,
        o + l <= i64::MAX,
    ensures
        r == wrap_coord_spec(drift(p as int, v as int, f as int, m as int, dt as int), o as int, l as int),
        o <= r < o + l,
{
    proof {
        assert(dt * dt < 0x1_0000_0000_0000_0000) by (nonlinear_arith)
            requires 0 <= dt < 0x1_0000_0000;
    }
    let dt2: i128 = dt as i128 * dt as i128;
    proof {
        assert(0 <= dt2 < 0x1_0000_0000_0000_0000) by (nonlinear_arith)
            requires dt2 == dt * dt, 0 <= dt < 0x1_0000_0000;
        assert(-0x8000_0000_0000_0000_0000_0000_0000_0000 < f * dt2 < 0x8000_0000_0000_0000_0000_0000_0000_0000) by (nonlinear_arith)
            requires 0 <= dt2 < 0x1_0000_0000_0000_0000, -0x8000_0000_0000_0000 <= f < 0x8000_0000_0000_0000;
        assert(-0x8000_0000_0000_0000_0000_0000 <= v * dt <= 0x8000_0000_0000_0000_0000_0000) by (nonlinear_arith)
            requires 0 <= dt < 0x1_0000_0000, -0x8000_0000_0000_0000 <= v < 0x8000_0000_0000_0000;
        assert(f * dt2 == f * dt * dt) by (nonlinear_arith)
            requires dt2 == dt * dt;
    }
    let fdt2: i128 = f as i128 * dt2;
    let acc: i128 = floor_div(fdt2, 2 * m as i128);
    proof {
        let a = fdt2 as int;
        let d = 2 * m as int;
        vstd::arithmetic::div_mod::lemma_fundamental_div_mod(a, d);
        assert(-0x4000_0000_0000_0000_0000_0000_0000_0000 <= a / d <= 0x4000_0000_0000_0000_0000_0000_0000_0000) by (nonlinear_arith)
            requires -0x8000_0000_0000_0000_0000_0000_0000_0000 < a < 0x8000_0000_0000_0000_0000_0000_0000_0000, d >= 2,
                a == d * (a / d) + a % d, 0 <= a % d < d;
    }
    let vdt: i128 = v as i128 * dt as i128;
    let unwrapped: i128 = p as i128 + vdt + acc;
    wrap_coord(unwrapped, o, l)
}

/// The position stage of velocity Verlet: every position moves to
/// `wrap(pos + vel dt + (F / m) dt^2 / 2)`, rounded down to the position
/// quantum, and the step counter advances by one.
pub fn velocity_verlet_integrate_position(
    world: &mut World,
    simbox: &SimBox,
    timestep: &TimeStep,
    cur_step: &mut CurStep,
)
    requires
        old(world).wf(),
        simbox.wf(),
        old(cur_step).n < u64::MAX,
    ensures
        position_stage_post(*old(world), *final(world), *simbox, timestep.delta as int),
        forall|k: int| 0 <= k < final(world).len() ==> simbox.contains(#[trigger] final(world).positions@[k]),
        final(cur_step).n == old(cur_step).n + 1,
{
    proof {
        assert(simbox.dimension.axis(0) > 0 && simbox.dimension.axis(1) > 0 && simbox.dimension.axis(2) > 0);
        assert(simbox.origin.axis(0) + simbox.dimension.axis(0) <= i64::MAX);
        assert(simbox.origin.axis(1) + simbox.dimension.axis(1) <= i64::MAX);
        assert(simbox.origin.axis(2) + simbox.dimension.axis(2) <= i64::MAX);
    }
    let ghost w0 = *world;
    let dt = timestep.delta;
    let n = world.positions.len();
    let mut k: usize = 0;
    while k < n
        invariant
            k <= n == w0.len(),
            w0.wf(),
            simbox.wf(),
            simbox.dimension.x > 0 && simbox.dimension.y > 0 && simbox.dimension.z > 0,
            simbox.origin.x + simbox.dimension.x <= i64::MAX,
            simbox.origin.y + simbox.dimension.y <= i64::MAX,
            simbox.origin.z + simbox.dimension.z <= i64::MAX,
            world.wf(),
            world.ids == w0.ids && world.velocities == w0.velocities && world.forces == w0.forces,
            world.old_forces == w0.old_forces && world.masses == w0.masses && world.atom_types == w0.atom_types,
            world.positions@.len() == n,
            forall|q: int| k <= q < n ==> #[trigger] world.positions@[q] == w0.positions@[q],
            forall|q: int| 0 <= q < k ==> #[trigger] world.positions@[q] == advanced_position(w0, *simbox, dt as int, q),
            forall|q: int| 0 <= q < k ==> simbox.contains(#[trigger] world.positions@[q]),
        decreases n - k,
    {
        let p = world.positions[k];
        let v = world.velocities[k];
        let f = world.forces[k];
        let m = world.masses[k];
        let np = Vec3 {
            x: drift_coord(p.x, v.x, f.x, m, dt, simbox.origin.x, simbox.dimension.x),
            y: drift_coord(p.y, v.y, f.y, m, dt, simbox.origin.y, simbox.dimension.y),
            z: drift_coord(p.z, v.z, f.z, m, dt, simbox.origin.z, simbox.dimension.z),
        };
        proof {
            assert forall|ax: int| 0 <= ax < 3 implies simbox.origin.axis(ax) <= #[trigger] np.axis(ax)
                < simbox.origin.axis(ax) + simbox.dimension.axis(ax) by {
                if ax == 0 {
                } else if ax == 1 {
                } else {
                }
            }
        }
        world.positions.set(k, np);
        k += 1;
    }
    cur_step.n = cur_step.n + 1;
}

} // verus!

verus! {

/// The velocity of particle `k` along `ax` after the kick
/// `v + floor((F + F_old) dt / 2m)`.
pub open spec fn kick(w: World, dt: int, k: int, ax: int) -> int {
    w.velocities@[k].axis(ax) + ((w.forces@[k].axis(ax) + w.old_forces@[k].axis(ax)) * dt) / (2 * w.masses@[k])
}

/// Every kicked velocity component lies strictly within the velocity limit.
pub open spec fn kicks_fit(w: World, dt: int) -> bool {
    forall|k: int, ax: int|
        0 <= k < w.len() && 0 <= ax < 3 ==> -VELOCITY_LIMIT < #[trigger] kick(w, dt, k, ax) < VELOCITY_LIMIT
}

/// The kicked velocities summed over all particles along `ax`.
pub open spec fn kick_sum(w: World, dt: int, ax: int) -> int {
    seq_sum(|k: int| kick(w, dt, k, ax), w.len())
}

/// The centre-of-mass drift removed along `ax`: the mean kicked velocity,
/// rounded down.
pub open spec fn drift_velocity(w: World, dt: int, ax: int) -> int {
    if w.len() == 0 {
        0
    } else {
        kick_sum(w, dt, ax) / w.len()
    }
}

/// `w1` is `w0` after the velocity stage with time step `dt`.
pub open spec fn velocity_stage_post(w0: World, w1: World, dt: int) -> bool {
    &&& w1.wf()
    &&& w1.ids == w0.ids && w1.positions == w0.positions && w1.forces == w0.forces
    &&& w1.old_forces == w0.old_forces && w1.masses == w0.masses && w1.atom_types == w0.atom_types
    &&& w1.velocities@.len() == w0.len()
    &&& forall|k: int, ax: int|
        0 <= k < w0.len() && 0 <= ax < 3 ==> #[trigger] w1.velocities@[k].axis(ax) == kick(w0, dt, k, ax) - drift_velocity(w0, dt, ax)
}

/// The velocities summed over all particles along `ax`.
pub open spec fn total_velocity(w: World, ax: int) -> int {
    seq_sum(|k: int| w.velocities@[k].axis(ax), w.len())
}

/// One component of the kick.
fn kick_coord(v: i64, f: i64, f_old: i64, m: u64, dt: u32) -> (r: i128)
    requires
        m > 0,
    ensures
        r == v + ((f + f_old) * dt) / (2 * m),
{
    let s: i128 = f as i128 + f_old as i128;
    proof {
        assert(-0x1_0000_0000_0000_0000_0000_0000 <= s * dt <= 0x1_0000_0000_0000_0000_0000_0000) by (nonlinear_arith)
            requires -0x1_0000_0000_0000_0000 <= s <= 0x1_0000_0000_0000_0000, 0 <= dt < 0x1_0000_0000;
    }
    let q = floor_div(s * dt as i128, 2 * m as i128);
    proof {
        let a = s * dt;
        let d = 2 * m as int;
        vstd::arithmetic::div_mod::lemma_fundamental_div_mod(a, d);
        assert(-0x1_0000_0000_0000_0000_0000_0000 <= a / d <= 0x1_0000_0000_0000_0000_0000_0000) by (nonlinear_arith)
            requires -0x1_0000_0000_0000_0000_0000_0000 <= a <= 0x1_0000_0000_0000_0000_0000_0000, d >= 2,
                a == d * (a / d) + a % d, 0 <= a % d < d;
    }
    v as i128 + q
}

proof fn lemma_drift_bound(s: int, n: int)
    requires
        n > 0,
        -(n * VELOCITY_LIMIT) < s < n * VELOCITY_LIMIT,
    ensures
        -VELOCITY_LIMIT <= s / n < VELOCITY_LIMIT,
{
    vstd::arithmetic::div_mod::lemma_fundamental_div_mod(s, n);
    let q = s / n;
    let r = s % n;
    assert(-VELOCITY_LIMIT <= q < VELOCITY_LIMIT) by (nonlinear_arith)
        requires s == n * q + r, 0 <= r < n, n > 0, -(n * VELOCITY_LIMIT) < s < n * VELOCITY_LIMIT;
}

/// The velocity stage of velocity Verlet: every velocity receives the kick
/// `((F + F_old) / m) dt / 2`, rounded down to the velocity quantum; then the
/// mean velocity is subtracted from every particle, which removes the drift of
/// the centre of mass.
///
/// A kicked component at or beyond the velocity limit is a numeric failure,
/// and nothing changes.
pub fn velocity_verlet_integrate_velocity(world: &mut World, timestep: &TimeStep) -> (r: Result<(), MdError>)
    requires
        old(world).wf(),
    ensures
        r is Ok <==> kicks_fit(*old(world), timestep.delta as int),
        r is Ok ==> velocity_stage_post(*old(world), *final(world), timestep.delta as int),
        r is Err ==> *final(world) == *old(world) && r->Err_0 is VelocityOverflow && ({
            let p = r->Err_0->VelocityOverflow_particle as int;
            0 <= p < old(world).len() && exists|ax: int|
                0 <= ax < 3 && !(-VELOCITY_LIMIT < #[trigger] kick(*old(world), timestep.delta as int, p, ax) < VELOCITY_LIMIT)
        }),
{
    let ghost w0 = *world;
    let ghost dt_i = timestep.delta as int;
    let dt = timestep.delta;
    let n = world.velocities.len();
    let mut kx: Vec<i128> = Vec::new();
    let mut ky: Vec<i128> = Vec::new();
    let mut kz: Vec<i128> = Vec::new();
    let mut sx: i128 = 0;
    let mut sy: i128 = 0;
    let mut sz: i128 = 0;
    let mut k: usize = 0;
    while k < n
        invariant
            k <= n == w0.len(),
            *world == w0,
            w0 == *old(world),
            dt_i == dt && dt == timestep.delta,
            w0.wf(),
            kx@.len() == k && ky@.len() == k && kz@.len() == k,
            forall|q: int| 0 <= q < k ==> #[trigger] kx@[q] == kick(w0, dt_i, q, 0),
            forall|q: int| 0 <= q < k ==> #[trigger] ky@[q] == kick(w0, dt_i, q, 1),
            forall|q: int| 0 <= q < k ==> #[trigger] kz@[q] == kick(w0, dt_i, q, 2),
            forall|q: int, ax: int| 0 <= q < k && 0 <= ax < 3 ==> -VELOCITY_LIMIT < #[trigger] kick(w0, dt_i, q, ax) < VELOCITY_LIMIT,
            sx == seq_sum(|q: int| kick(w0, dt_i, q, 0), k as int),
            sy == seq_sum(|q: int| kick(w0, dt_i, q, 1), k as int),
            sz == seq_sum(|q: int| kick(w0, dt_i, q, 2), k as int),
        decreases n - k,
    {
        let v = world.velocities[k];
        let f = world.forces[k];
        let fo = world.old_forces[k];
        let m = world.masses[k];
        let x = kick_coord(v.x, f.x, fo.x, m, dt);
        let y = kick_coord(v.y, f.y, fo.y, m, dt);
        let z = kick_coord(v.z, f.z, fo.z, m, dt);
        proof {
            assert(x == kick(w0, dt_i, k as int, 0));
            assert(y == kick(w0, dt_i, k as int, 1));
            assert(z == kick(w0, dt_i, k as int, 2));
        }
        let lim = VELOCITY_LIMIT as i128;
        if !(-lim < x && x < lim && -lim < y && y < lim && -lim < z && z < lim) {
            proof {
                let ax: int = if !(-lim < x && x < lim) { 0 } else if !(-lim < y && y < lim) { 1 } else { 2 };
                assert(!(-VELOCITY_LIMIT < kick(w0, dt_i, k as int, ax) < VELOCITY_LIMIT));
                assert(!kicks_fit(w0, dt_i));
                assert(!(-VELOCITY_LIMIT < kick(*old(world), timestep.delta as int, k as int, ax) < VELOCITY_LIMIT));
                assert(!kicks_fit(*old(world), timestep.delta as int));
                let rr: Result<(), MdError> = Err(MdError::VelocityOverflow { particle: k });
                assert(rr->Err_0->VelocityOverflow_particle == k);
                assert(exists|ax: int|
                    0 <= ax < 3 && !(-VELOCITY_LIMIT < #[trigger] kick(*old(world), timestep.delta as int, k as int, ax) < VELOCITY_LIMIT));
            }
            return Err(MdError::VelocityOverflow { particle: k });
        }
        proof {
            lemma_seq_sum_bound(|q: int| kick(w0, dt_i, q, 0), k as int, VELOCITY_LIMIT as int);
            lemma_seq_sum_bound(|q: int| kick(w0, dt_i, q, 1), k as int, VELOCITY_LIMIT as int);
            lemma_seq_sum_bound(|q: int| kick(w0, dt_i, q, 2), k as int, VELOCITY_LIMIT as int);
            assert(k * VELOCITY_LIMIT <= 0x4000_0000 * VELOCITY_LIMIT) by (nonlinear_arith)
                requires k <= 0x4000_0000;
        }
        kx.push(x);
        ky.push(y);
        kz.push(z);
        sx = sx + x;
        sy = sy + y;
        sz = sz + z;
        proof {
            assert forall|q: int, ax: int| 0 <= q < k + 1 && 0 <= ax < 3 implies -VELOCITY_LIMIT < #[trigger] kick(w0, dt_i, q, ax) < VELOCITY_LIMIT by {
                if q == k {
                    if ax == 0 {
                    } else if ax == 1 {
                    } else {
                    }
                }
            }
        }
        k += 1;
    }
    proof {
        assert(kicks_fit(w0, dt_i));
    }
    let (mx, my, mz) = if n == 0 {
        (0i128, 0i128, 0i128)
    } else {
        proof {
            lemma_seq_sum_bound(|q: int| kick(w0, dt_i, q, 0), n as int, VELOCITY_LIMIT as int);
            lemma_seq_sum_bound(|q: int| kick(w0, dt_i, q, 1), n as int, VELOCITY_LIMIT as int);
            lemma_seq_sum_bound(|q: int| kick(w0, dt_i, q, 2), n as int, VELOCITY_LIMIT as int);
            lemma_drift_bound(sx as int, n as int);
            lemma_drift_bound(sy as int, n as int);
            lemma_drift_bound(sz as int, n as int);
            assert(n * VELOCITY_LIMIT <= 0x4000_0000 * VELOCITY_LIMIT) by (nonlinear_arith)
                requires n <= 0x4000_0000;
        }
        (floor_div(sx, n as i128), floor_div(sy, n as i128), floor_div(sz, n as i128))
    };
    proof {
        assert(mx == drift_velocity(w0, dt_i, 0));
        assert(my == drift_velocity(w0, dt_i, 1));
        assert(mz == drift_velocity(w0, dt_i, 2));
        assert(-VELOCITY_LIMIT <= mx < VELOCITY_LIMIT);
        assert(-VELOCITY_LIMIT <= my < VELOCITY_LIMIT);
        assert(-VELOCITY_LIMIT <= mz < VELOCITY_LIMIT);
    }
    let mut k: usize = 0;
    while k < n
        invariant
            k <= n == w0.len(),
            w0 == *old(world),
            dt_i == dt && dt == timestep.delta,
            w0.wf(),
            kicks_fit(w0, dt_i),
            mx == drift_velocity(w0, dt_i, 0) && my == drift_velocity(w0, dt_i, 1) && mz == drift_velocity(w0, dt_i, 2),
            -VELOCITY_LIMIT <= mx < VELOCITY_LIMIT,
            -VELOCITY_LIMIT <= my < VELOCITY_LIMIT,
            -VELOCITY_LIMIT <= mz < VELOCITY_LIMIT,
            kx@.len() == n && ky@.len() == n && kz@.len() == n,
            forall|q: int| 0 <= q < n ==> #[trigger] kx@[q] == kick(w0, dt_i, q, 0),
            forall|q: int| 0 <= q < n ==> #[trigger] ky@[q] == kick(w0, dt_i, q, 1),
            forall|q: int| 0 <= q < n ==> #[trigger] kz@[q] == kick(w0, dt_i, q, 2),
            world.wf(),
            world.ids == w0.ids && world.positions == w0.positions && world.forces == w0.forces,
            world.old_forces == w0.old_forces && world.masses == w0.masses && world.atom_types == w0.atom_types,
            world.velocities@.len() == n,
            forall|q: int, ax: int| 0 <= q < k && 0 <= ax < 3 ==> #[trigger] world.velocities@[q].axis(ax) == kick(w0, dt_i, q, ax) - drift_velocity(w0, dt_i, ax),
        decreases n - k,
    {
        proof {
            assert(-VELOCITY_LIMIT < kick(w0, dt_i, k as int, 0) < VELOCITY_LIMIT);
            assert(-VELOCITY_LIMIT < kick(w0, dt_i, k as int, 1) < VELOCITY_LIMIT);
            assert(-VELOCITY_LIMIT < kick(w0, dt_i, k as int, 2) < VELOCITY_LIMIT);
        }
        let v = Vec3 { x: (kx[k] - mx) as i64, y: (ky[k] - my) as i64, z: (kz[k] - mz) as i64 };
        world.velocities.set(k, v);
        proof {
            assert forall|q: int, ax: int| 0 <= q < k + 1 && 0 <= ax < 3 implies #[trigger] world.velocities@[q].axis(ax) == kick(w0, dt_i, q, ax) - drift_velocity(w0, dt_i, ax) by {
                if q == k {
                    if ax == 0 {
                    } else if ax == 1 {
                    } else {
                    }
                }
            }
        }
        k += 1;
    }
    Ok(())
}

/// `w1` is `w0` after the clear stage.
pub open spec fn clear_stage_post(w0: World, w1: World) -> bool {
    &&& w1.wf()
    &&& w1.ids == w0.ids && w1.positions == w0.positions
    &&& w1.velocities == w0.velocities && w1.masses == w0.masses
    &&& w1.atom_types == w0.atom_types
    &&& w1.old_forces@ == w0.forces@
    &&& w1.forces@.len() == w0.len()
    &&& forall|k: int| 0 <= k < w0.len() ==> #[trigger] w1.forces@[k] == (Vec3 { x: 0, y: 0, z: 0 })
}

/// The clear stage: the force of every particle becomes its old force, and
/// the force is zeroed for the next force stage.
pub fn clear_force(world: &mut World)
    requires
        old(world).wf(),
    ensures
        clear_stage_post(*old(world), *final(world)),
{
    let ghost w0 = *world;
    let n = world.forces.len();
    let mut k: usize = 0;
    while k < n
        invariant
            k <= n == w0.len(),
            w0 == *old(world),
            w0.wf(),
            world.wf(),
            world.ids == w0.ids && world.positions == w0.positions && world.velocities == w0.velocities,
            world.masses == w0.masses && world.atom_types == w0.atom_types,
            world.forces@.len() == n && world.old_forces@.len() == n,
            forall|q: int| 0 <= q < k ==> #[trigger] world.old_forces@[q] == w0.forces@[q],
            forall|q: int| 0 <= q < k ==> #[trigger] world.forces@[q] == (Vec3 { x: 0, y: 0, z: 0 }),
            forall|q: int| k <= q < n ==> #[trigger] world.forces@[q] == w0.forces@[q],
        decreases n - k,
    {
        let f = world.forces[k];
        world.old_forces.set(k, f);
        world.forces.set(k, Vec3::zero());
        k += 1;
    }
    proof {
        assert(world.old_forces@ =~= w0.forces@);
    }
}

/// After the velocity stage the velocities sum, on every axis, to less than
/// one velocity quantum per particle, and not below zero: the drift of the
/// centre of mass is removed up to rounding.
pub proof fn lemma_velocity_stage_momentum(w0: World, w1: World, dt: int, ax: int)
    requires
        w0.wf(),
        0 <= ax < 3,
        velocity_stage_post(w0, w1, dt),
    ensures
        0 <= total_velocity(w1, ax) < w0.len() || w0.len() == 0,
        w0.len() == 0 ==> total_velocity(w1, ax) == 0,
{
    let n = w0.len();
    let c = drift_velocity(w0, dt, ax);
    lemma_seq_sum_shift(|k: int| kick(w0, dt, k, ax), |k: int| w1.velocities@[k].axis(ax), n, c);
    if n > 0 {
        vstd::arithmetic::div_mod::lemma_fundamental_div_mod(kick_sum(w0, dt, ax), n);
        assert(n * c == n * (kick_sum(w0, dt, ax) / n));
    }
}

/// With one mass `m` for every particle, the momentum left after the velocity
/// stage lies in `[0, m N)` on every axis.
pub proof fn lemma_momentum_after_drift_removal(w0: World, w1: World, dt: int, ax: int, m: int)
    requires
        w0.wf(),
        0 <= ax < 3,
        velocity_stage_post(w0, w1, dt),
        forall|k: int| 0 <= k < w0.len() ==> #[trigger] w0.masses@[k] == m,
    ensures
        w0.len() > 0 ==> 0 <= total_momentum(w1, ax) < m * w0.len(),
        w0.len() == 0 ==> total_momentum(w1, ax) == 0,
{
    let n = w0.len();
    lemma_velocity_stage_momentum(w0, w1, dt, ax);
    lemma_seq_sum_scale(|k: int| w1.velocities@[k].axis(ax), |k: int| w1.masses@[k] * w1.velocities@[k].axis(ax), n, m);
    if n > 0 {
        assert(m > 0);
        let t = total_velocity(w1, ax);
        assert(0 <= m * t < m * n) by (nonlinear_arith)
            requires 0 <= t < n, m > 0;
    }
}

/// The momentum summed over all particles along `ax`.
pub open spec fn total_momentum(w: World, ax: int) -> int {
    seq_sum(|k: int| w.masses@[k] * w.velocities@[k].axis(ax), w.len())
}

/// Old-force carry: across the position, velocity and clear stages that
/// follow a force stage, the force that stage produced becomes the old force,
/// and the next force stage starts from zero forces.
pub proof fn lemma_old_force_carry(w0: World, w1: World, w2: World, w3: World, b: SimBox, dt: int)
    requires
        w0.wf(),
        position_stage_post(w0, w1, b, dt),
        velocity_stage_post(w1, w2, dt),
        clear_stage_post(w2, w3),
    ensures
        w3.old_forces@ == w0.forces@,
        forall|k: int| 0 <= k < w0.len() ==> #[trigger] w3.forces@[k] == (Vec3 { x: 0, y: 0, z: 0 }),
{
}

} // verus!

verus! {

/// `m |v|^2` of particle `k`.
pub open spec fn kinetic_term(w: World, k: int) -> int {
    w.masses@[k] * norm_sq(w.velocities@[k])
}

/// `sum m |v|^2` over all particles: twice the kinetic energy, in quanta.
pub open spec fn kinetic_sum_spec(w: World) -> int {
    seq_sum(|k: int| kinetic_term(w, k), w.len())
}

/// `sum m |v|^2` over all particles, or `None` when it exceeds 128 bits. The
/// instantaneous temperature is this sum over `3 N k_B`.
pub fn kinetic_sum(world: &World) -> (r: Option<u128>)
    requires
        world.wf(),
    ensures
        r is Some <==> kinetic_sum_spec(*world) <= u128::MAX,
        r is Some ==> r->Some_0 == kinetic_sum_spec(*world),
{
    let n = world.velocities.len();
    let ghost f = |k: int| kinetic_term(*world, k);
    proof {
        assert forall|k: int| 0 <= k < n implies #[trigger] f(k) >= 0 by {
            let v = world.velocities@[k];
            assert(norm_sq(v) >= 0) by (nonlinear_arith)
                requires norm_sq(v) == v.x * v.x + v.y * v.y + v.z * v.z;
            assert(world.masses@[k] * norm_sq(v) >= 0) by (nonlinear_arith)
                requires norm_sq(v) >= 0, world.masses@[k] >= 0;
        }
    }
    let mut sum: u128 = 0;
    let mut k: usize = 0;
    while k < n
        invariant
            k <= n == world.len(),
            world.wf(),
            f == (|q: int| kinetic_term(*world, q)),
            forall|q: int| 0 <= q < n ==> #[trigger] f(q) >= 0,
            sum == seq_sum(f, k as int),
        decreases n - k,
    {
        let v = world.velocities[k];
        let (x, y, z) = (v.x as i128, v.y as i128, v.z as i128);
        proof {
            assert(0 <= x * x <= 0x4000_0000_0000_0000_0000_0000_0000_0000) by (nonlinear_arith)
                requires -0x8000_0000_0000_0000 <= x <= 0x8000_0000_0000_0000;
            assert(0 <= y * y <= 0x4000_0000_0000_0000_0000_0000_0000_0000) by (nonlinear_arith)
                requires -0x8000_0000_0000_0000 <= y <= 0x8000_0000_0000_0000;
            assert(0 <= z * z <= 0x4000_0000_0000_0000_0000_0000_0000_0000) by (nonlinear_arith)
                requires -0x8000_0000_0000_0000 <= z <= 0x8000_0000_0000_0000;
        }
        let v2: u128 = (x * x) as u128 + (y * y) as u128 + (z * z) as u128;
        let m = world.masses[k] as u128;
        proof {
            lemma_seq_sum_monotone(f, k + 1, n as int);
            assert(f(k as int) == m * v2);
            if v2 > 0 {
                vstd::arithmetic::div_mod::lemma_fundamental_div_mod(u128::MAX as int, v2 as int);
            }
        }
        if v2 > 0 && m > u128::MAX / v2 {
            proof {
                assert(m * v2 > u128::MAX) by (nonlinear_arith)
                    requires v2 > 0, m > u128::MAX / v2, u128::MAX == v2 * (u128::MAX / v2) + u128::MAX % v2, u128::MAX % v2 < v2;
                assert(seq_sum(f, k + 1) == seq_sum(f, k as int) + f(k as int));
            }
            return None;
        }
        proof {
            assert(m * v2 <= u128::MAX) by (nonlinear_arith)
                requires v2 == 0 || m <= u128::MAX / v2, v2 == 0 || u128::MAX >= (u128::MAX / v2) * v2, m >= 0, v2 >= 0;
        }
        let term: u128 = m * v2;
        if sum > u128::MAX - term {
            proof {
                assert(seq_sum(f, k + 1) == seq_sum(f, k as int) + f(k as int));
            }
            return None;
        }
        sum = sum + term;
        k += 1;
    }
    Some(sum)
}

} // verus!
