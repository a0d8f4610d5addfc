use vstd::prelude::*;

verus! {

/// A fatal numeric failure inside a stage.
#[derive(Clone, Copy, Debug, PartialEq, Eq, Structural)]
pub enum MdError {
    /// Two distinct particles sit at the same periodic position.
    ZeroDistance { i: usize, j: usize },
    /// The net force on a particle leaves the fixed-point range.
    ForceOverflow { particle: usize },
    /// An RDF bin count leaves its range.
    CountOverflow { bin: usize },
    /// A velocity leaves the admitted range.
    VelocityOverflow { particle: usize },
}

} // verus!
