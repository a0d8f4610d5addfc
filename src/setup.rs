use vstd::prelude::*;

use crate::atom::AtomNumber;
use crate::integration::{BatchSize, CurStep, Step, TimeStep};
use crate::lj_interaction::LJCutOff;
use crate::output::{OutInterval, TrjName};
use crate::simbox::{SimBox, Vec3};

verus! {

/// A configuration that cannot start a run.
#[derive(Clone, Copy, Debug, PartialEq, Eq, Structural)]
pub enum ConfigError {
    NonPositiveTimeStep,
    NonPositiveCutoff,
    NonPositiveBoxLength,
    BoxOutOfRange,
    NonPositiveOutputInterval,
    NoRdfBins,
    NonPositiveRdfRange,
    RdfRangeTooLarge,
    RdfWindowReversed,
    RdfWindowPastRun,
    TooManySteps,
}

/// The run parameters, held as resources of the run.
#[derive(Clone)]
pub struct SetupPlugin {
    pub atom_number: AtomNumber,
    pub time_step: TimeStep,
    pub number_steps: Step,
    pub batch_size: BatchSize,
    pub box_size: SimBox,
    pub lj_cutoff: LJCutOff,
    pub cur_step: CurStep,
    pub trj_name: TrjName,
    pub output_interval: OutInterval,
}

impl SetupPlugin {
    pub fn new(
        n_atoms: u64,
        delta: u32,
        n_steps: u64,
        batch: usize,
        box_length: Vec3,
        origin: Vec3,
        cutoff: u64,
        trjname: String,
        interval: u64,
    ) -> (r: SetupPlugin)
        ensures
            r.atom_number.n_atoms == n_atoms,
            r.time_step.delta == delta,
            r.number_steps.n == n_steps,
            r.batch_size.0 == batch,
            r.box_size.origin == origin && r.box_size.dimension == box_length,
            r.lj_cutoff.rc == cutoff,
            r.cur_step.n == 0,
            r.trj_name.name@ == trjname@,
            r.output_interval.interval == interval,
    {
        SetupPlugin {
            atom_number: AtomNumber::new(n_atoms),
            time_step: TimeStep::new(delta),
            number_steps: Step::new(n_steps),
            batch_size: BatchSize::new(batch),
            box_size: SimBox::new(origin, box_length.x, box_length.y, box_length.z),
            lj_cutoff: LJCutOff::new(cutoff),
            cur_step: CurStep::init(),
            trj_name: TrjName::new(trjname),
            output_interval: OutInterval::new(interval),
        }
    }

    /// The first configuration error, checked in the order of the fields.
    pub open spec fn config_error(self) -> Option<ConfigError> {
        if self.time_step.delta == 0 {
            Some(ConfigError::NonPositiveTimeStep)
        } else if self.lj_cutoff.rc == 0 {
            Some(ConfigError::NonPositiveCutoff)
        } else if self.box_size.dimension.x <= 0 || self.box_size.dimension.y <= 0 || self.box_size.dimension.z <= 0 {
            Some(ConfigError::NonPositiveBoxLength)
        } else if self.box_size.origin.x + self.box_size.dimension.x > i64::MAX
            || self.box_size.origin.y + self.box_size.dimension.y > i64::MAX
            || self.box_size.origin.z + self.box_size.dimension.z > i64::MAX {
            Some(ConfigError::BoxOutOfRange)
        } else if self.output_interval.interval == 0 {
            Some(ConfigError::NonPositiveOutputInterval)
        } else if self.number_steps.n == u64::MAX {
            Some(ConfigError::TooManySteps)
        } else {
            None
        }
    }

    /// Checks the run parameters before the first step.
    pub fn validate(&self) -> (r: Result<(), ConfigError>)
        ensures
            r is Ok <==> self.config_error() is None,
            r is Err ==> self.config_error() == Some(r->Err_0),
            r is Ok ==> self.box_size.wf(),
    {
        let b = &self.box_size;
        if self.time_step.delta == 0 {
            Err(ConfigError::NonPositiveTimeStep)
        } else if self.lj_cutoff.rc == 0 {
            Err(ConfigError::NonPositiveCutoff)
        } else if b.dimension.x <= 0 || b.dimension.y <= 0 || b.dimension.z <= 0 {
            Err(ConfigError::NonPositiveBoxLength)
        } else if b.origin.x > i64::MAX - b.dimension.x || b.origin.y > i64::MAX - b.dimension.y
            || b.origin.z > i64::MAX - b.dimension.z {
            Err(ConfigError::BoxOutOfRange)
        } else if self.output_interval.interval == 0 {
            Err(ConfigError::NonPositiveOutputInterval)
        } else if self.number_steps.n == u64::MAX {
            Err(ConfigError::TooManySteps)
        } else {
            proof {
                assert forall|k: int| 0 <= k < 3 implies #[trigger] b.dimension.axis(k) > 0 by {
                }
                assert forall|k: int| 0 <= k < 3 implies #[trigger] b.origin.axis(k) + b.dimension.axis(k) <= i64::MAX by {
                }
            }
            Ok(())
        }
    }
}

/// The first error of an RDF configuration for a run of `n_steps` steps.
pub open spec fn rdf_config_error(n_bins: int, range: int, start: int, end: int, n_steps: int) -> Option<ConfigError> {
    if n_bins == 0 {
        Some(ConfigError::NoRdfBins)
    } else if range == 0 {
        Some(ConfigError::NonPositiveRdfRange)
    } else if range * n_bins > u64::MAX {
        Some(ConfigError::RdfRangeTooLarge)
    } else if start > end {
        Some(ConfigError::RdfWindowReversed)
    } else if end > n_steps {
        Some(ConfigError::RdfWindowPastRun)
    } else {
        None
    }
}

/// Checks the RDF parameters against a run of `n_steps` steps.
pub fn check_rdf_config(n_bins: usize, range: u64, start: u64, end: u64, n_steps: u64) -> (r: Result<(), ConfigError>)
    ensures
        r is Ok <==> rdf_config_error(n_bins as int, range as int, start as int, end as int, n_steps as int) is None,
        r is Err ==> rdf_config_error(n_bins as int, range as int, start as int, end as int, n_steps as int) == Some(r->Err_0),
{
    proof {
        assert(range * n_bins <= 0xffff_ffff_ffff_ffffu128 * 0xffff_ffff_ffff_ffffu128) by (nonlinear_arith)
            requires range <= 0xffff_ffff_ffff_ffffu64, n_bins <= 0xffff_ffff_ffff_ffffu64;
    }
    if n_bins == 0 {
        Err(ConfigError::NoRdfBins)
    } else if range == 0 {
        Err(ConfigError::NonPositiveRdfRange)
    } else if range as u128 * n_bins as u128 > u64::MAX as u128 {
        Err(ConfigError::RdfRangeTooLarge)
    } else if start > end {
        Err(ConfigError::RdfWindowReversed)
    } else if end > n_steps {
        Err(ConfigError::RdfWindowPastRun)
    } else {
        Ok(())
    }
}

} // verus!
