use vstd::prelude::*;

use crate::atom::World;
use crate::error::MdError;
use crate::integration::{
    CurStep, Step, TimeStep, clear_force, clear_stage_post, kicks_fit, position_stage_post, velocity_stage_post,
    velocity_verlet_integrate_position, velocity_verlet_integrate_velocity,
};
use crate::lj_interaction::{LJCutOff, PairGeometry, calc_lj_force, force_stage_post, has_zero_pair};
use crate::output::{OutInterval, emits, should_output};
use crate::rdf::RDF;
use crate::simbox::{SimBox, Vec3};

verus! {

/// The state of a run: the particles and every resource the stages read or
/// write.
pub struct Simulation {
    pub world: World,
    pub simbox: SimBox,
    pub cut_off: LJCutOff,
    pub rdf: RDF,
    pub time_step: TimeStep,
    pub number_steps: Step,
    pub cur_step: CurStep,
    pub output_interval: OutInterval,
}

/// What the driver does after a step: write a trajectory frame, and write
/// the RDF once its window has closed.
#[derive(Clone, Copy, Debug, PartialEq, Eq, Structural)]
pub struct StepReport {
    pub step: u64,
    pub write_frame: bool,
    pub rdf_complete: bool,
}

impl Simulation {
    pub open spec fn wf(self) -> bool {
        &&& self.world.wf()
        &&& self.simbox.wf()
        &&& self.rdf.wf()
        &&& self.output_interval.interval > 0
        &&& self.cur_step.n <= self.number_steps.n
    }

    /// Whether every step of the run has been taken.
    pub fn finished(&self) -> (r: bool)
        ensures
            r == (self.cur_step.n >= self.number_steps.n),
    {
        self.cur_step.n >= self.number_steps.n
    }

    /// One step of the fixed stage order: force, position, velocity, clear.
    /// The report then says whether the step gets a trajectory frame and
    /// whether it closes the RDF window.
    pub fn run_step<F: Fn(PairGeometry) -> Vec3>(&mut self, pair_force: F) -> (r: Result<StepReport, MdError>)
        requires
            old(self).wf(),
            old(self).cur_step.n < old(self).number_steps.n,
            forall|g: PairGeometry| call_requires(pair_force, (g,)),
        ensures
            final(self).wf(),
            final(self).simbox == old(self).simbox,
            final(self).number_steps == old(self).number_steps,
            final(self).output_interval == old(self).output_interval,
            r is Ok ==> ({
                let s0 = *old(self);
                let s1 = *final(self);
                let dt = s0.time_step.delta as int;
                &&& !has_zero_pair(s0.world, s0.simbox)
                &&& exists|c: Map<(int, int), Vec3>, wf: World, wp: World, wv: World|
                    #[trigger] force_stage_post(pair_force, c, s0.world, wf, s0.simbox, s0.cut_off.rc, s0.rdf, s1.rdf,
                        s0.cur_step.n + 1, Ok(()))
                    && #[trigger] position_stage_post(wf, wp, s0.simbox, dt)
                    && #[trigger] velocity_stage_post(wp, wv, dt)
                    && clear_stage_post(wv, s1.world)
                &&& s1.cur_step.n == s0.cur_step.n + 1
                &&& r->Ok_0.step == s1.cur_step.n
                &&& r->Ok_0.write_frame == emits(s1.cur_step.n as int, s0.output_interval.interval as int)
                &&& r->Ok_0.rdf_complete == (s1.cur_step.n == s0.rdf.end)
            }),
            r is Err && r->Err_0 is ZeroDistance <==> has_zero_pair(old(self).world, old(self).simbox),
            r is Err && !(r->Err_0 is VelocityOverflow) ==> *final(self) == *old(self),
            r is Err && (r->Err_0 is ForceOverflow || r->Err_0 is CountOverflow) ==> exists|c: Map<(int, int), Vec3>|
                #[trigger] force_stage_post(pair_force, c, old(self).world, old(self).world, old(self).simbox,
                    old(self).cut_off.rc, old(self).rdf, old(self).rdf, old(self).cur_step.n + 1, Err(r->Err_0)),
            r is Err && r->Err_0 is VelocityOverflow ==> ({
                let s0 = *old(self);
                let s1 = *final(self);
                let dt = s0.time_step.delta as int;
                &&& !has_zero_pair(s0.world, s0.simbox)
                &&& exists|c: Map<(int, int), Vec3>, wf: World|
                    #[trigger] force_stage_post(pair_force, c, s0.world, wf, s0.simbox, s0.cut_off.rc, s0.rdf, s1.rdf,
                        s0.cur_step.n + 1, Ok(()))
                    && #[trigger] position_stage_post(wf, s1.world, s0.simbox, dt)
                &&& !kicks_fit(s1.world, dt)
                &&& s1.cur_step.n == s0.cur_step.n + 1
            }),
    {
        let ghost s0 = *self;
        let res = calc_lj_force(&mut self.world, &self.simbox, &self.cut_off, &mut self.rdf, &self.cur_step, pair_force);
        let ghost force_res = res;
        match res {
            Err(e) => {
                proof {
                    if !(e is ZeroDistance) {
                        let c = choose|c: Map<(int, int), Vec3>|
                            #[trigger] force_stage_post(pair_force, c, s0.world, self.world, s0.simbox, s0.cut_off.rc,
                                s0.rdf, self.rdf, s0.cur_step.n + 1, force_res);
                        assert(force_res == Err::<(), MdError>(e));
                        assert(force_stage_post(pair_force, c, s0.world, s0.world, s0.simbox, s0.cut_off.rc,
                            s0.rdf, s0.rdf, s0.cur_step.n + 1, Err(e)));
                    }
                }
                return Err(e);
            },
            Ok(()) => {},
        }
        let ghost wf = self.world;
        velocity_verlet_integrate_position(&mut self.world, &self.simbox, &self.time_step, &mut self.cur_step);
        let ghost wp = self.world;
        let res = velocity_verlet_integrate_velocity(&mut self.world, &self.time_step);
        match res {
            Err(e) => {
                proof {
                    assert(force_res is Ok);
                    assert(force_res == Ok::<(), MdError>(force_res->Ok_0));
                    assert(force_res == Ok::<(), MdError>(()));
                    let c = choose|c: Map<(int, int), Vec3>|
                        #[trigger] force_stage_post(pair_force, c, s0.world, wf, s0.simbox, s0.cut_off.rc, s0.rdf,
                            self.rdf, s0.cur_step.n + 1, force_res);
                    assert(force_stage_post(pair_force, c, s0.world, wf, s0.simbox, s0.cut_off.rc, s0.rdf, self.rdf,
                        s0.cur_step.n + 1, Ok(())));
                    assert(position_stage_post(wf, self.world, s0.simbox, s0.time_step.delta as int));
                }
                return Err(e);
            },
            Ok(()) => {},
        }
        let ghost wv = self.world;
        clear_force(&mut self.world);
        let step = self.cur_step.n;
        let report = StepReport {
            step,
            write_frame: should_output(step, self.output_interval.interval),
            rdf_complete: step == self.rdf.end,
        };
        proof {
            assert(force_res is Ok);
            assert(force_res == Ok::<(), MdError>(force_res->Ok_0));
            assert(force_res == Ok::<(), MdError>(()));
            let c = choose|c: Map<(int, int), Vec3>|
                #[trigger] force_stage_post(pair_force, c, s0.world, wf, s0.simbox, s0.cut_off.rc, s0.rdf, self.rdf,
                    s0.cur_step.n + 1, force_res);
            assert(!has_zero_pair(s0.world, s0.simbox));
            assert(force_stage_post(pair_force, c, s0.world, wf, s0.simbox, s0.cut_off.rc, s0.rdf, self.rdf,
                s0.cur_step.n + 1, Ok(())));
            assert(position_stage_post(wf, wp, s0.simbox, s0.time_step.delta as int));
            assert(velocity_stage_post(wp, wv, s0.time_step.delta as int));
            assert(clear_stage_post(wv, self.world));
        }
        Ok(report)
    }
}

} // verus!
