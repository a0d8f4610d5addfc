use vstd::prelude::*;

use crate::simbox::Vec3;

verus! {

/// The largest number of particles a world holds; it keeps every pair sum of
/// fixed-point forces within 128-bit accumulators.
pub const MAX_ATOMS: usize = 0x4000_0000;

/// Lennard-Jones parameters: `sigma` in length quanta, `epsilon` in energy quanta.
#[derive(Clone, Copy, Debug, PartialEq, Eq, Structural)]
pub struct LJParams {
    pub sigma: u64,
    pub epsilon: u64,
}

impl LJParams {
    pub fn new(sigma: u64, epsilon: u64) -> (r: LJParams)
        ensures
            r.sigma == sigma && r.epsilon == epsilon,
    {
        LJParams { sigma, epsilon }
    }
}

/// The chemical identity of a particle.
#[derive(Clone, Debug)]
pub struct AtomType {
    pub name: String,
    pub lj_params: LJParams,
}

impl AtomType {
    pub fn new(atom_name: String, sigma: u64, epsilon: u64) -> (r: AtomType)
        ensures
            r.name@ == atom_name@,
            r.lj_params.sigma == sigma && r.lj_params.epsilon == epsilon,
    {
        AtomType { name: atom_name, lj_params: LJParams::new(sigma, epsilon) }
    }
}

/// The number of particles a run starts with.
#[derive(Clone, Copy, Debug)]
pub struct AtomNumber {
    pub n_atoms: u64,
}

impl AtomNumber {
    pub fn new(n: u64) -> (r: AtomNumber)
        ensures
            r.n_atoms == n,
    {
        AtomNumber { n_atoms: n }
    }
}

/// The component store: one dense column per component, indexed by entity.
/// Entity `k` carries `ids[k]`, `positions[k]`, `velocities[k]`, `forces[k]`,
/// `old_forces[k]`, `masses[k]` and `atom_types[k]`.
pub struct World {
    pub ids: Vec<u64>,
    pub positions: Vec<Vec3>,
    pub velocities: Vec<Vec3>,
    pub forces: Vec<Vec3>,
    pub old_forces: Vec<Vec3>,
    pub masses: Vec<u64>,
    pub atom_types: Vec<AtomType>,
}

impl World {
    pub open spec fn len(self) -> int {
        self.positions@.len() as int
    }

    /// Every column has one entry per entity, the count is bounded, and every
    /// mass is positive.
    pub open spec fn wf(self) -> bool {
        &&& self.ids@.len() == self.len()
        &&& self.velocities@.len() == self.len()
        &&& self.forces@.len() == self.len()
        &&& self.old_forces@.len() == self.len()
        &&& self.masses@.len() == self.len()
        &&& self.atom_types@.len() == self.len()
        &&& self.len() <= MAX_ATOMS
        &&& forall|k: int| 0 <= k < self.len() ==> #[trigger] self.masses@[k] > 0
    }

    /// An empty world.
    pub fn new() -> (r: World)
        ensures
            r.wf(),
            r.len() == 0,
    {
        World {
            ids: Vec::new(),
            positions: Vec::new(),
            velocities: Vec::new(),
            forces: Vec::new(),
            old_forces: Vec::new(),
            masses: Vec::new(),
            atom_types: Vec::new(),
        }
    }

    pub fn n_atoms(&self) -> (r: usize)
        ensures
            r == self.len(),
    {
        self.positions.len()
    }

    /// Attaches a new entity with the given components, a zero force and a
    /// zero old force; its id is its rank counted from 1.
    pub fn spawn(&mut self, position: Vec3, velocity: Vec3, mass: u64, atom_type: AtomType) -> (id: u64)
        requires
            old(self).wf(),
            old(self).len() < MAX_ATOMS,
            mass > 0,
        ensures
            final(self).wf(),
            id == old(self).len() + 1,
            final(self).ids@ == old(self).ids@.push(id),
            final(self).positions@ == old(self).positions@.push(position),
            final(self).velocities@ == old(self).velocities@.push(velocity),
            final(self).forces@ == old(self).forces@.push((Vec3 { x: 0, y: 0, z: 0 })),
            final(self).old_forces@ == old(self).old_forces@.push((Vec3 { x: 0, y: 0, z: 0 })),
            final(self).masses@ == old(self).masses@.push(mass),
            final(self).atom_types@ == old(self).atom_types@.push(atom_type),
    {
        let id: u64 = self.positions.len() as u64 + 1;
        self.ids.push(id);
        self.positions.push(position);
        self.velocities.push(velocity);
        self.forces.push(Vec3::zero());
        self.old_forces.push(Vec3::zero());
        self.masses.push(mass);
        self.atom_types.push(atom_type);
        proof {
            assert forall|k: int| 0 <= k < self.len() implies #[trigger] self.masses@[k] > 0 by {
                if k < old(self).len() {
                    assert(self.masses@[k] == old(self).masses@[k]);
                }
            }
        }
        id
    }
}

} // verus!
