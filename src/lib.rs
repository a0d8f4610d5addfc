//! A molecular-dynamics engine for Lennard-Jones fluids on a fixed-point state:
//! a component store of particles, a periodic box, the fused force and RDF
//! pair pass, velocity-Verlet stages, and LAMMPS-style trajectory frames.
pub mod error;
pub mod simbox;
pub mod sums;
pub mod atom;
pub mod rdf;
pub mod lj_interaction;
pub mod integration;
pub mod output;
pub mod setup;
pub mod simulation;
