use vstd::prelude::*;

verus! {

/// Parameters and running counts of the radial distribution function of the
/// pair `(atom_a, atom_b)`, sampled over the steps `start..=end`.
///
/// `counts[b]` holds the pair separations seen so far in bin `b`, that is
/// `b * range / n_bins <= r < (b + 1) * range / n_bins`, each pair counted twice.
pub struct RDF {
    pub atom_a: String,
    pub atom_b: String,
    pub n_bins: usize,
    /// The outer edge of the last bin, in length quanta.
    pub range: u64,
    pub start: u64,
    pub end: u64,
    pub counts: Vec<u64>,
    pub filename: String,
}

impl RDF {
    /// At least one bin, a positive range, a non-empty window, and
    /// `range * n_bins` representable.
    pub open spec fn wf(self) -> bool {
        &&& self.n_bins >= 1
        &&& self.range > 0
        &&& self.start <= self.end
        &&& self.counts@.len() == self.n_bins
        &&& self.range * self.n_bins <= u64::MAX
    }

    /// Whether the step `step` lies in the sampling window.
    pub open spec fn samples_step(self, step: int) -> bool {
        self.start <= step <= self.end
    }

    /// A histogram with empty bins.
    pub fn new(a: String, b: String, bins: usize, rmax: u64, start: u64, end: u64, filename: String) -> (r: RDF)
        requires
            bins >= 1,
            rmax > 0,
            start <= end,
            rmax * bins <= u64::MAX,
        ensures
            r.wf(),
            r.atom_a@ == a@ && r.atom_b@ == b@ && r.filename@ == filename@,
            r.n_bins == bins && r.range == rmax && r.start == start && r.end == end,
            forall|k: int| 0 <= k < bins ==> #[trigger] r.counts@[k] == 0,
    {
        let mut counts: Vec<u64> = Vec::new();
        let mut k: usize = 0;
        while k < bins
            invariant
                k <= bins,
                counts@.len() == k,
                forall|m: int| 0 <= m < k ==> #[trigger] counts@[m] == 0,
            decreases bins - k,
        {
            counts.push(0);
            k += 1;
        }
        RDF { atom_a: a, atom_b: b, n_bins: bins, range: rmax, start, end, counts, filename }
    }

    /// The number of frames in the window: `end - start + 1`.
    pub fn n_frames(&self) -> (r: u64)
        requires
            self.wf(),
            self.end - self.start + 1 <= u64::MAX,
        ensures
            r == self.end - self.start + 1,
    {
        self.end - self.start + 1
    }
}

/// `(b + 1)^3 - b^3`: the volume of shell `b` in units of `(4 pi / 3) w^3`,
/// `w` the bin width.
pub fn shell_weight(b: u64) -> (r: u128)
    requires
        b < 0x8000_0000_0000_0000,
    ensures
        r == (b + 1) * (b + 1) * (b + 1) - b * b * b,
        r == 3 * b * b + 3 * b + 1,
{
    let bb = b as u128;
    proof {
        assert(3 * bb * bb + 3 * bb + 1 <= 3 * 0x8000_0000_0000_0000 * 0x8000_0000_0000_0000) by (nonlinear_arith)
            requires bb < 0x8000_0000_0000_0000u128;
        assert((b + 1) * (b + 1) * (b + 1) - b * b * b == 3 * b * b + 3 * b + 1) by (nonlinear_arith);
    }
    3 * bb * bb + 3 * bb + 1
}

} // verus!
