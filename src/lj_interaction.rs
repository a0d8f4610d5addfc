use vstd::prelude::*;

use crate::atom::{World, LJParams, MAX_ATOMS};
use crate::error::MdError;
use crate::integration::CurStep;
use crate::rdf::RDF;
use crate::simbox::{SimBox, Vec3, min_image_coord, min_image_coord_spec};
use crate::sums::{row_sum, tri_sum, seq_sum, lemma_row_sum_ext, lemma_tri_sum_ext, lemma_row_sum_bound, lemma_tri_sum_bound, lemma_tri_sum_add, lemma_tri_sum_zero};

verus! {

/// The Lennard-Jones cutoff radius, in length quanta.
#[derive(Clone, Copy, Debug)]
pub struct LJCutOff {
    pub rc: u64,
}

impl LJCutOff {
    pub fn new(rc: u64) -> (r: LJCutOff)
        ensures
            r.rc == rc,
    {
        LJCutOff { rc }
    }
}

/// What the pair law is told about one unordered pair `i < j`.
#[derive(Clone, Copy, Debug, PartialEq, Eq, Structural)]
pub struct PairGeometry {
    pub i: usize,
    pub j: usize,
    /// The minimum-image displacement `pos_i - pos_j`.
    pub r: Vec3,
    /// `|r|^2`.
    pub dist_sq: u128,
    /// Lorentz-Berthelot `sigma`: the mean of the two.
    pub sigma: u64,
    /// Lorentz-Berthelot `epsilon`: the integer square root of the product.
    pub epsilon: u64,
}

pub open spec fn is_isqrt(x: int, r: int) -> bool {
    r >= 0 && r * r <= x < (r + 1) * (r + 1)
}

/// `floor(sqrt(x))`.
pub open spec fn isqrt_spec(x: int) -> int {
    choose|r: int| is_isqrt(x, r)
}

pub proof fn lemma_isqrt_unique(x: int, r: int)
    requires
        is_isqrt(x, r),
    ensures
        isqrt_spec(x) == r,
{
    let s = isqrt_spec(x);
    assert(is_isqrt(x, s));
    if s < r {
        assert((s + 1) * (s + 1) <= r * r) by (nonlinear_arith)
            requires 0 <= s < r;
    } else if s > r {
        assert((r + 1) * (r + 1) <= s * s) by (nonlinear_arith)
            requires 0 <= r < s;
    }
}

/// `floor(sqrt(x))`, by bisection.
pub fn isqrt(x: u128) -> (r: u64)
    ensures
        is_isqrt(x as int, r as int),
        r == isqrt_spec(x as int),
{
    let mut lo: u128 = 0;
    let mut hi: u128 = 0x1_0000_0000_0000_0000;
    assert(x < hi * hi) by (nonlinear_arith)
        requires hi == 0x1_0000_0000_0000_0000u128, x <= u128::MAX;
    while hi - lo > 1
        invariant
            lo < hi <= 0x1_0000_0000_0000_0000,
            lo * lo <= x < hi * hi,
        decreases hi - lo,
    {
        let mid: u128 = lo + (hi - lo) / 2;
        assert(mid * mid <= 0xffff_ffff_ffff_ffffu128 * 0xffff_ffff_ffff_ffffu128) by (nonlinear_arith)
            requires mid < 0x1_0000_0000_0000_0000u128;
        if mid * mid <= x {
            lo = mid;
        } else {
            hi = mid;
        }
    }
    proof {
        assert(hi == lo + 1);
        lemma_isqrt_unique(x as int, lo as int);
    }
    lo as u64
}

pub open spec fn mix_sigma(a: LJParams, b: LJParams) -> int {
    (a.sigma + b.sigma) / 2
}

pub open spec fn mix_epsilon(a: LJParams, b: LJParams) -> int {
    isqrt_spec(a.epsilon * b.epsilon)
}

/// Lorentz-Berthelot mixing: the arithmetic mean of `sigma` and the geometric
/// mean of `epsilon`, both rounded down.
pub fn mix_lj_params(a: LJParams, b: LJParams) -> (r: (u64, u64))
    ensures
        r.0 == mix_sigma(a, b),
        r.1 == mix_epsilon(a, b),
{
    let sigma = ((a.sigma as u128 + b.sigma as u128) / 2) as u64;
    assert(a.epsilon * b.epsilon <= 0xffff_ffff_ffff_ffffu128 * 0xffff_ffff_ffff_ffffu128) by (nonlinear_arith)
        requires a.epsilon <= 0xffff_ffff_ffff_ffffu64, b.epsilon <= 0xffff_ffff_ffff_ffffu64;
    let epsilon = isqrt(a.epsilon as u128 * b.epsilon as u128);
    (sigma, epsilon)
}

/// The minimum-image displacement from `q` to `p`.
pub open spec fn displacement(b: SimBox, p: Vec3, q: Vec3) -> Vec3 {
    Vec3 {
        x: min_image_coord_spec(p.x - q.x, b.dimension.x as int) as i64,
        y: min_image_coord_spec(p.y - q.y, b.dimension.y as int) as i64,
        z: min_image_coord_spec(p.z - q.z, b.dimension.z as int) as i64,
    }
}

pub open spec fn norm_sq(v: Vec3) -> int {
    v.x * v.x + v.y * v.y + v.z * v.z
}

/// The geometry of the pair `i < j` of `w` in the box `b`.
pub open spec fn pair_geometry(w: World, b: SimBox, i: int, j: int) -> PairGeometry {
    let r = displacement(b, w.positions@[i], w.positions@[j]);
    let pi = w.atom_types@[i].lj_params;
    let pj = w.atom_types@[j].lj_params;
    PairGeometry {
        i: i as usize,
        j: j as usize,
        r,
        dist_sq: norm_sq(r) as u128,
        sigma: mix_sigma(pi, pj) as u64,
        epsilon: mix_epsilon(pi, pj) as u64,
    }
}

/// Computes the geometry of one pair.
pub fn geometry(w: &World, b: &SimBox, i: usize, j: usize) -> (g: PairGeometry)
    requires
        w.wf(),
        b.wf(),
        i < w.len() && j < w.len(),
    ensures
        g == pair_geometry(*w, *b, i as int, j as int),
        0 <= norm_sq(g.r) <= u128::MAX,
{
    proof {
        assert(b.dimension.axis(0) > 0 && b.dimension.axis(1) > 0 && b.dimension.axis(2) > 0);
    }
    let p = w.positions[i];
    let q = w.positions[j];
    let r = Vec3 {
        x: min_image_coord(p.x as i128 - q.x as i128, b.dimension.x),
        y: min_image_coord(p.y as i128 - q.y as i128, b.dimension.y),
        z: min_image_coord(p.z as i128 - q.z as i128, b.dimension.z),
    };
    let rx = r.x as i128;
    let ry = r.y as i128;
    let rz = r.z as i128;
    proof {
        assert(rx * rx <= 0x4000_0000_0000_0000_0000_0000_0000_0000) by (nonlinear_arith)
            requires -0x8000_0000_0000_0000 <= rx <= 0x8000_0000_0000_0000;
        assert(ry * ry <= 0x4000_0000_0000_0000_0000_0000_0000_0000) by (nonlinear_arith)
            requires -0x8000_0000_0000_0000 <= ry <= 0x8000_0000_0000_0000;
        assert(rz * rz <= 0x4000_0000_0000_0000_0000_0000_0000_0000) by (nonlinear_arith)
            requires -0x8000_0000_0000_0000 <= rz <= 0x8000_0000_0000_0000;
        assert(0 <= rx * rx && 0 <= ry * ry && 0 <= rz * rz) by (nonlinear_arith);
    }
    let dist_sq = (rx * rx) as u128 + (ry * ry) as u128 + (rz * rz) as u128;
    let (sigma, epsilon) = mix_lj_params(w.atom_types[i].lj_params, w.atom_types[j].lj_params);
    PairGeometry { i, j, r, dist_sq, sigma, epsilon }
}


/// Whether a pair lies strictly inside the cutoff sphere.
pub open spec fn in_cutoff(g: PairGeometry, rc: u64) -> bool {
    g.dist_sq < rc * rc
}

/// `v` is what the pair law may return for `g` inside the cutoff, and zero outside.
pub open spec fn contribution_ok<F: Fn(PairGeometry) -> Vec3>(f: F, v: Vec3, g: PairGeometry, rc: u64) -> bool {
    if in_cutoff(g, rc) {
        call_ensures(f, (g,), v)
    } else {
        v == Vec3 { x: 0, y: 0, z: 0 }
    }
}

/// `c[(i, j)]` is a contribution of the pair law for every pair `i < j` of `w`.
pub open spec fn contributions_valid<F: Fn(PairGeometry) -> Vec3>(
    f: F,
    c: Map<(int, int), Vec3>,
    w: World,
    b: SimBox,
    rc: u64,
) -> bool {
    forall|i: int, j: int|
        0 <= i < j < w.len() ==> contribution_ok(f, #[trigger] c[(i, j)], pair_geometry(w, b, i, j), rc)
}

/// What the pair `(a, b)` adds to particle `k` along axis `ax`: its contribution
/// on the first particle, its negation on the second.
pub open spec fn force_term(c: Map<(int, int), Vec3>, k: int, ax: int) -> spec_fn(int, int) -> int {
    |a: int, b: int|
        if a == k {
            c[(a, b)].axis(ax)
        } else if b == k {
            -c[(a, b)].axis(ax)
        } else {
            0
        }
}

/// The net force the contributions `c` put on particle `k` along axis `ax`.
pub open spec fn net_force(c: Map<(int, int), Vec3>, k: int, ax: int, n: int) -> int {
    tri_sum(force_term(c, k, ax), n, n)
}

/// Whether the pair `(i, j)` is of the RDF's pair of types, in either order.
pub open spec fn rdf_pair_matches(w: World, rdf: RDF, i: int, j: int) -> bool {
    ||| (w.atom_types@[i].name@ == rdf.atom_a@ && w.atom_types@[j].name@ == rdf.atom_b@)
    ||| (w.atom_types@[i].name@ == rdf.atom_b@ && w.atom_types@[j].name@ == rdf.atom_a@)
}

/// `floor(sqrt(s) / w)` with bin width `w = range / n_bins`.
pub open spec fn rdf_bin(s: int, rdf: RDF) -> int {
    isqrt_spec(s * rdf.n_bins * rdf.n_bins) / (rdf.range as int)
}

/// What the pair `(i, j)` adds to RDF bin `bin` at step `step`: 2 when the step
/// is sampled, the types match and the separation falls in that bin.
pub open spec fn rdf_term(w: World, b: SimBox, rdf: RDF, step: int, bin: int) -> spec_fn(int, int) -> int {
    |i: int, j: int|
        if rdf.samples_step(step) && rdf_pair_matches(w, rdf, i, j)
            && pair_geometry(w, b, i, j).dist_sq < rdf.range * rdf.range
            && rdf_bin(pair_geometry(w, b, i, j).dist_sq as int, rdf) == bin {
            2int
        } else {
            0int
        }
}

/// The count one force stage adds to RDF bin `bin`.
pub open spec fn rdf_frame_count(w: World, b: SimBox, rdf: RDF, step: int, bin: int) -> int {
    tri_sum(rdf_term(w, b, rdf, step, bin), w.len(), w.len())
}

pub open spec fn has_zero_pair(w: World, b: SimBox) -> bool {
    exists|i: int, j: int| 0 <= i < j < w.len() && #[trigger] pair_geometry(w, b, i, j).dist_sq == 0
}

struct PairSums {
    fx: Vec<i128>,
    fy: Vec<i128>,
    fz: Vec<i128>,
    frame: Vec<u64>,
}

const FORCE_BOUND: i128 = 0x8000_0000_0000_0000;

proof fn lemma_force_term_bounded(c: Map<(int, int), Vec3>, k: int, ax: int)
    ensures
        forall|a: int, b: int| -FORCE_BOUND <= #[trigger] force_term(c, k, ax)(a, b) <= FORCE_BOUND,
{
}

proof fn lemma_rdf_term_bounded(w: World, b: SimBox, rdf: RDF, step: int, bin: int)
    ensures
        forall|i: int, j: int| -2 <= #[trigger] rdf_term(w, b, rdf, step, bin)(i, j) <= 2,
{
}

/// The partial sums kept by the pair loop stay well inside 128 bits.
proof fn lemma_partial_bound(f: spec_fn(int, int) -> int, i: int, j: int, n: int, bound: int)
    requires
        0 <= i <= n <= MAX_ATOMS,
        0 <= j <= n,
        0 <= bound <= FORCE_BOUND,
        forall|a: int, b: int| -bound <= #[trigger] f(a, b) <= bound,
    ensures
        -(0x2000_0000_0000_0000 * bound) <= tri_sum(f, i, n) + row_sum(f, i, j)
            <= 0x2000_0000_0000_0000 * bound,
{
    lemma_tri_sum_bound(f, i, n, bound);
    lemma_row_sum_bound(f, i, j, bound);
    assert(i * n * bound + j * bound <= 0x2000_0000_0000_0000 * bound) by (nonlinear_arith)
        requires 0 <= i <= n <= 0x4000_0000, 0 <= j <= n, bound >= 0;
}

/// Processing the pair `(i, j)` with contribution `v` moves the partial net
/// force of particle `k` by `v` if `k == i`, by `-v` if `k == j`.
proof fn lemma_pair_step(c: Map<(int, int), Vec3>, v: Vec3, i: int, j: int, n: int, k: int, ax: int)
    requires
        0 <= i < j,
    ensures
        tri_sum(force_term(c.insert((i, j), v), k, ax), i, n)
            + row_sum(force_term(c.insert((i, j), v), k, ax), i, j + 1)
            == tri_sum(force_term(c, k, ax), i, n) + row_sum(force_term(c, k, ax), i, j)
                + (if k == i { v.axis(ax) } else if k == j { -v.axis(ax) } else { 0 }),
{
    let c2 = c.insert((i, j), v);
    let f1 = force_term(c, k, ax);
    let f2 = force_term(c2, k, ax);
    assert forall|a: int, b: int| 0 <= a < i && a < b < n implies #[trigger] f2(a, b) == f1(a, b) by {
        assert(c2[(a, b)] == c[(a, b)]);
    }
    lemma_tri_sum_ext(f2, f1, i, n);
    assert forall|b: int| i < b < j implies #[trigger] f2(i, b) == f1(i, b) by {
        assert(c2[(i, b)] == c[(i, b)]);
    }
    lemma_row_sum_ext(f2, f1, i, j);
    assert(c2[(i, j)] == v);
}

/// Enumerates every pair `i < j` once, in order, calling the pair law inside
/// the cutoff and binning the separations the RDF samples.
fn pair_loop<F: Fn(PairGeometry) -> Vec3>(
    w: &World,
    b: &SimBox,
    cutoff: &LJCutOff,
    rdf: &RDF,
    step: u64,
    pair_force: &F,
) -> (r: (Result<PairSums, (usize, usize)>, Ghost<Map<(int, int), Vec3>>))
    requires
        w.wf(),
        b.wf(),
        rdf.wf(),
        forall|g: PairGeometry| call_requires(*pair_force, (g,)),
    ensures
        r.0 is Err <==> has_zero_pair(*w, *b),
        r.0 is Err ==> ({
            let (i, j) = r.0->Err_0;
            0 <= i < j < w.len() && pair_geometry(*w, *b, i as int, j as int).dist_sq == 0
        }),
        r.0 is Ok ==> ({
            let s = r.0->Ok_0;
            let c = r.1@;
            let n = w.len();
            &&& contributions_valid(*pair_force, c, *w, *b, cutoff.rc)
            &&& s.fx@.len() == n && s.fy@.len() == n && s.fz@.len() == n
            &&& forall|k: int| 0 <= k < n ==> #[trigger] s.fx@[k] == w.forces@[k].x + net_force(c, k, 0, n)
            &&& forall|k: int| 0 <= k < n ==> #[trigger] s.fy@[k] == w.forces@[k].y + net_force(c, k, 1, n)
            &&& forall|k: int| 0 <= k < n ==> #[trigger] s.fz@[k] == w.forces@[k].z + net_force(c, k, 2, n)
            &&& s.frame@.len() == rdf.n_bins
            &&& forall|bin: int| 0 <= bin < rdf.n_bins ==> #[trigger] s.frame@[bin]
                == rdf_frame_count(*w, *b, *rdf, step + 1, bin)
        }),
{
    let n = w.positions.len();
    let ghost mut c: Map<(int, int), Vec3> = Map::empty();
    let mut fx: Vec<i128> = Vec::new();
    let mut fy: Vec<i128> = Vec::new();
    let mut fz: Vec<i128> = Vec::new();
    let mut k: usize = 0;
    while k < n
        invariant
            k <= n == w.len(),
            w.wf(),
            fx@.len() == k && fy@.len() == k && fz@.len() == k,
            forall|m: int| 0 <= m < k ==> #[trigger] fx@[m] == w.forces@[m].x + tri_sum(force_term(c, m, 0), 0, n as int),
            forall|m: int| 0 <= m < k ==> #[trigger] fy@[m] == w.forces@[m].y + tri_sum(force_term(c, m, 1), 0, n as int),
            forall|m: int| 0 <= m < k ==> #[trigger] fz@[m] == w.forces@[m].z + tri_sum(force_term(c, m, 2), 0, n as int),
        decreases n - k,
    {
        let f = w.forces[k];
        fx.push(f.x as i128);
        fy.push(f.y as i128);
        fz.push(f.z as i128);
        k += 1;
    }
    let mut frame: Vec<u64> = Vec::new();
    let mut m: usize = 0;
    while m < rdf.n_bins
        invariant
            m <= rdf.n_bins,
            frame@.len() == m,
            forall|q: int| 0 <= q < m ==> #[trigger] frame@[q] == tri_sum(rdf_term(*w, *b, *rdf, step + 1, q), 0, n as int),
        decreases rdf.n_bins - m,
    {
        frame.push(0);
        m += 1;
    }
    let sampling: bool = rdf.start as u128 <= step as u128 + 1 && step as u128 + 1 <= rdf.end as u128;
    proof {
        assert(cutoff.rc * cutoff.rc <= 0xffff_ffff_ffff_ffffu128 * 0xffff_ffff_ffff_ffffu128) by (nonlinear_arith)
            requires cutoff.rc <= 0xffff_ffff_ffff_ffffu64;
        assert(rdf.range * rdf.range <= 0xffff_ffff_ffff_ffffu128 * 0xffff_ffff_ffff_ffffu128) by (nonlinear_arith)
            requires rdf.range <= 0xffff_ffff_ffff_ffffu64;
    }
    let rc2: u128 = cutoff.rc as u128 * cutoff.rc as u128;
    let range2: u128 = rdf.range as u128 * rdf.range as u128;
    let mut i: usize = 0;
    while i < n
        invariant
            i <= n == w.len(),
            w.wf(),
            b.wf(),
            rdf.wf(),
            forall|g: PairGeometry| call_requires(*pair_force, (g,)),
            sampling == rdf.samples_step(step + 1),
            rc2 == cutoff.rc * cutoff.rc,
            range2 == rdf.range * rdf.range,
            fx@.len() == n && fy@.len() == n && fz@.len() == n,
            forall|q: int| 0 <= q < n ==> #[trigger] fx@[q] == w.forces@[q].x + tri_sum(force_term(c, q, 0), i as int, n as int),
            forall|q: int| 0 <= q < n ==> #[trigger] fy@[q] == w.forces@[q].y + tri_sum(force_term(c, q, 1), i as int, n as int),
            forall|q: int| 0 <= q < n ==> #[trigger] fz@[q] == w.forces@[q].z + tri_sum(force_term(c, q, 2), i as int, n as int),
            frame@.len() == rdf.n_bins,
            forall|q: int| 0 <= q < rdf.n_bins ==> #[trigger] frame@[q] == tri_sum(rdf_term(*w, *b, *rdf, step + 1, q), i as int, n as int),
            forall|a: int, bb: int| 0 <= a < i && a < bb < n ==> contribution_ok(*pair_force, #[trigger] c[(a, bb)], pair_geometry(*w, *b, a, bb), cutoff.rc),
            forall|a: int, bb: int| 0 <= a < i && a < bb < n ==> #[trigger] pair_geometry(*w, *b, a, bb).dist_sq != 0,
        decreases n - i,
    {
        let mut j: usize = i + 1;
        while j < n
            invariant
                i < n == w.len(),
                i + 1 <= j <= n,
                w.wf(),
                b.wf(),
                rdf.wf(),
                forall|g: PairGeometry| call_requires(*pair_force, (g,)),
                sampling == rdf.samples_step(step + 1),
                rc2 == cutoff.rc * cutoff.rc,
                range2 == rdf.range * rdf.range,
                fx@.len() == n && fy@.len() == n && fz@.len() == n,
                forall|q: int| 0 <= q < n ==> #[trigger] fx@[q] == w.forces@[q].x + tri_sum(force_term(c, q, 0), i as int, n as int) + row_sum(force_term(c, q, 0), i as int, j as int),
                forall|q: int| 0 <= q < n ==> #[trigger] fy@[q] == w.forces@[q].y + tri_sum(force_term(c, q, 1), i as int, n as int) + row_sum(force_term(c, q, 1), i as int, j as int),
                forall|q: int| 0 <= q < n ==> #[trigger] fz@[q] == w.forces@[q].z + tri_sum(force_term(c, q, 2), i as int, n as int) + row_sum(force_term(c, q, 2), i as int, j as int),
                frame@.len() == rdf.n_bins,
                forall|q: int| 0 <= q < rdf.n_bins ==> #[trigger] frame@[q] == tri_sum(rdf_term(*w, *b, *rdf, step + 1, q), i as int, n as int) + row_sum(rdf_term(*w, *b, *rdf, step + 1, q), i as int, j as int),
                forall|a: int, bb: int| 0 <= a < i && a < bb < n ==> contribution_ok(*pair_force, #[trigger] c[(a, bb)], pair_geometry(*w, *b, a, bb), cutoff.rc),
                forall|bb: int| i < bb < j ==> contribution_ok(*pair_force, #[trigger] c[(i as int, bb)], pair_geometry(*w, *b, i as int, bb), cutoff.rc),
                forall|a: int, bb: int| 0 <= a < i && a < bb < n ==> #[trigger] pair_geometry(*w, *b, a, bb).dist_sq != 0,
                forall|bb: int| i < bb < j ==> #[trigger] pair_geometry(*w, *b, i as int, bb).dist_sq != 0,
            decreases n - j,
        {
            let g = geometry(w, b, i, j);
            if g.dist_sq == 0 {
                proof {
                    assert(pair_geometry(*w, *b, i as int, j as int).dist_sq == 0);
                }
                return (Err((i, j)), Ghost(c));
            }
            let v: Vec3 = if g.dist_sq < rc2 {
                pair_force(g)
            } else {
                Vec3::zero()
            };
            let ghost c_old = c;
            proof {
                c = c.insert((i as int, j as int), v);
                assert forall|q: int, ax: int| 0 <= q < n && 0 <= ax < 3 implies
                    tri_sum(#[trigger] force_term(c, q, ax), i as int, n as int) + row_sum(force_term(c, q, ax), i as int, j + 1)
                    == tri_sum(force_term(c_old, q, ax), i as int, n as int) + row_sum(force_term(c_old, q, ax), i as int, j as int)
                        + (if q == i { v.axis(ax) } else if q == j { -v.axis(ax) } else { 0 })
                    && -(0x2000_0000_0000_0000 * FORCE_BOUND) <= tri_sum(force_term(c, q, ax), i as int, n as int) + row_sum(force_term(c, q, ax), i as int, j + 1)
                        <= 0x2000_0000_0000_0000 * FORCE_BOUND by {
                    lemma_pair_step(c_old, v, i as int, j as int, n as int, q, ax);
                    lemma_force_term_bounded(c, q, ax);
                    lemma_partial_bound(force_term(c, q, ax), i as int, j + 1, n as int, FORCE_BOUND as int);
                }
                assert forall|a: int, bb: int| 0 <= a < i && a < bb < n implies contribution_ok(*pair_force, #[trigger] c[(a, bb)], pair_geometry(*w, *b, a, bb), cutoff.rc) by {
                    assert(c[(a, bb)] == c_old[(a, bb)]);
                }
                assert forall|bb: int| i < bb < j + 1 implies contribution_ok(*pair_force, #[trigger] c[(i as int, bb)], pair_geometry(*w, *b, i as int, bb), cutoff.rc) by {
                    if bb < j {
                        assert(c[(i as int, bb)] == c_old[(i as int, bb)]);
                    }
                }
            }
            let ghost fx0 = fx@;
            let ghost fy0 = fy@;
            let ghost fz0 = fz@;
            proof {
                assert(fx0[i as int] + v.x == w.forces@[i as int].x + tri_sum(force_term(c, i as int, 0), i as int, n as int) + row_sum(force_term(c, i as int, 0), i as int, j + 1));
                assert(fx0[j as int] - v.x == w.forces@[j as int].x + tri_sum(force_term(c, j as int, 0), i as int, n as int) + row_sum(force_term(c, j as int, 0), i as int, j + 1));
                assert(fy0[i as int] + v.y == w.forces@[i as int].y + tri_sum(force_term(c, i as int, 1), i as int, n as int) + row_sum(force_term(c, i as int, 1), i as int, j + 1));
                assert(fy0[j as int] - v.y == w.forces@[j as int].y + tri_sum(force_term(c, j as int, 1), i as int, n as int) + row_sum(force_term(c, j as int, 1), i as int, j + 1));
                assert(fz0[i as int] + v.z == w.forces@[i as int].z + tri_sum(force_term(c, i as int, 2), i as int, n as int) + row_sum(force_term(c, i as int, 2), i as int, j + 1));
                assert(fz0[j as int] - v.z == w.forces@[j as int].z + tri_sum(force_term(c, j as int, 2), i as int, n as int) + row_sum(force_term(c, j as int, 2), i as int, j + 1));
            }
            let xi = fx[i] + v.x as i128;
            fx.set(i, xi);
            let xj = fx[j] - v.x as i128;
            fx.set(j, xj);
            let yi = fy[i] + v.y as i128;
            fy.set(i, yi);
            let yj = fy[j] - v.y as i128;
            fy.set(j, yj);
            let zi = fz[i] + v.z as i128;
            fz.set(i, zi);
            let zj = fz[j] - v.z as i128;
            fz.set(j, zj);
            let ghost frame0 = frame@;
            if sampling && g.dist_sq < range2 && rdf_matches(w, rdf, i, j) {
                let bin = bin_of(rdf, g.dist_sq);
                proof {
                    lemma_rdf_term_bounded(*w, *b, *rdf, step + 1, bin as int);
                    lemma_partial_bound(rdf_term(*w, *b, *rdf, step + 1, bin as int), i as int, j + 1, n as int, 2);
                    assert(row_sum(rdf_term(*w, *b, *rdf, step + 1, bin as int), i as int, j + 1) == row_sum(rdf_term(*w, *b, *rdf, step + 1, bin as int), i as int, j as int) + rdf_term(*w, *b, *rdf, step + 1, bin as int)(i as int, j as int));
                    assert(rdf_term(*w, *b, *rdf, step + 1, bin as int)(i as int, j as int) == 2);
                }
                let nb = frame[bin] + 2;
                frame.set(bin, nb);
            }
            proof {
                assert forall|q: int| 0 <= q < rdf.n_bins implies #[trigger] frame@[q] == tri_sum(rdf_term(*w, *b, *rdf, step + 1, q), i as int, n as int) + row_sum(rdf_term(*w, *b, *rdf, step + 1, q), i as int, j + 1) by {
                    assert(row_sum(rdf_term(*w, *b, *rdf, step + 1, q), i as int, j + 1) == row_sum(rdf_term(*w, *b, *rdf, step + 1, q), i as int, j as int) + rdf_term(*w, *b, *rdf, step + 1, q)(i as int, j as int));
                }
                assert forall|q: int| 0 <= q < n implies #[trigger] fx@[q] == w.forces@[q].x + tri_sum(force_term(c, q, 0), i as int, n as int) + row_sum(force_term(c, q, 0), i as int, j + 1) by {
                }
                assert forall|q: int| 0 <= q < n implies #[trigger] fy@[q] == w.forces@[q].y + tri_sum(force_term(c, q, 1), i as int, n as int) + row_sum(force_term(c, q, 1), i as int, j + 1) by {
                }
                assert forall|q: int| 0 <= q < n implies #[trigger] fz@[q] == w.forces@[q].z + tri_sum(force_term(c, q, 2), i as int, n as int) + row_sum(force_term(c, q, 2), i as int, j + 1) by {
                }
            }
            j += 1;
        }
        i += 1;
    }
    proof {
        assert forall|a: int, bb: int| 0 <= a < bb < n implies contribution_ok(*pair_force, #[trigger] c[(a, bb)], pair_geometry(*w, *b, a, bb), cutoff.rc) by {
        }
        assert(!has_zero_pair(*w, *b));
    }
    (Ok(PairSums { fx, fy, fz, frame }), Ghost(c))
}

/// Whether the pair `(i, j)` is of the RDF's pair of types.
fn rdf_matches(w: &World, rdf: &RDF, i: usize, j: usize) -> (r: bool)
    requires
        w.wf(),
        i < w.len() && j < w.len(),
    ensures
        r == rdf_pair_matches(*w, *rdf, i as int, j as int),
{
    let ti = &w.atom_types[i].name;
    let tj = &w.atom_types[j].name;
    (*ti == rdf.atom_a && *tj == rdf.atom_b) || (*ti == rdf.atom_b && *tj == rdf.atom_a)
}

/// The RDF bin of a squared separation below `range^2`.
fn bin_of(rdf: &RDF, s: u128) -> (bin: usize)
    requires
        rdf.wf(),
        s < rdf.range * rdf.range,
    ensures
        bin == rdf_bin(s as int, *rdf),
        bin < rdf.n_bins,
{
    let nb = rdf.n_bins as u128;
    let range = rdf.range as u128;
    proof {
        assert(s * nb * nb < (range * nb) * (range * nb)) by (nonlinear_arith)
            requires s < range * range, nb >= 1;
        assert((range * nb) * (range * nb) <= 0xffff_ffff_ffff_ffffu128 * 0xffff_ffff_ffff_ffffu128) by (nonlinear_arith)
            requires 0 <= range * nb <= 0xffff_ffff_ffff_ffffu128;
        assert(s * nb <= s * nb * nb) by (nonlinear_arith)
            requires nb >= 1, s >= 0;
    }
    let root = isqrt(s * nb * nb);
    proof {
        let rt = root as int;
        let rn = range * nb;
        assert(rt < rn) by (nonlinear_arith)
            requires rt * rt <= s * nb * nb, s * nb * nb < rn * rn, rt >= 0, rn >= 0;
        assert(rt / (range as int) < nb) by (nonlinear_arith)
            requires rt < range * nb, range > 0, rt >= 0;
    }
    (root / rdf.range) as usize
}


/// The net force on every particle stays within the fixed-point range.
pub open spec fn forces_fit(w: World, c: Map<(int, int), Vec3>) -> bool {
    forall|k: int, ax: int|
        0 <= k < w.len() && 0 <= ax < 3 ==> i64::MIN <= w.forces@[k].axis(ax) + #[trigger] net_force(c, k, ax, w.len()) <= i64::MAX
}

/// Every RDF bin has room for this stage's count.
pub open spec fn counts_fit(w: World, b: SimBox, rdf: RDF, step: int) -> bool {
    forall|bin: int|
        0 <= bin < rdf.n_bins ==> rdf.counts@[bin] + #[trigger] rdf_frame_count(w, b, rdf, step, bin) <= u64::MAX
}

/// `w1` is `w0` with the net forces of `c` added.
pub open spec fn forces_applied(w0: World, w1: World, c: Map<(int, int), Vec3>) -> bool {
    &&& w1.wf()
    &&& w1.ids == w0.ids && w1.positions == w0.positions && w1.velocities == w0.velocities
    &&& w1.old_forces == w0.old_forces && w1.masses == w0.masses && w1.atom_types == w0.atom_types
    &&& w1.forces@.len() == w0.len()
    &&& forall|k: int, ax: int|
        0 <= k < w0.len() && 0 <= ax < 3 ==> #[trigger] w1.forces@[k].axis(ax) == w0.forces@[k].axis(ax) + net_force(c, k, ax, w0.len())
}

/// `rdf1` is `rdf0` with this stage's counts added.
pub open spec fn counts_applied(w: World, b: SimBox, rdf0: RDF, rdf1: RDF, step: int) -> bool {
    &&& rdf1.atom_a == rdf0.atom_a && rdf1.atom_b == rdf0.atom_b && rdf1.filename == rdf0.filename
    &&& rdf1.n_bins == rdf0.n_bins && rdf1.range == rdf0.range
    &&& rdf1.start == rdf0.start && rdf1.end == rdf0.end
    &&& rdf1.counts@.len() == rdf0.counts@.len()
    &&& forall|bin: int|
        0 <= bin < rdf0.n_bins ==> #[trigger] rdf1.counts@[bin] == rdf0.counts@[bin] + rdf_frame_count(w, b, rdf0, step, bin)
}

/// The outcome of a force stage without coincident particles, for the pair
/// contributions `c`.
pub open spec fn force_stage_post<F: Fn(PairGeometry) -> Vec3>(
    f: F,
    c: Map<(int, int), Vec3>,
    w0: World,
    w1: World,
    b: SimBox,
    rc: u64,
    rdf0: RDF,
    rdf1: RDF,
    step: int,
    r: Result<(), MdError>,
) -> bool {
    &&& contributions_valid(f, c, w0, b, rc)
    &&& (r is Ok <==> forces_fit(w0, c) && counts_fit(w0, b, rdf0, step))
    &&& r is Ok ==> forces_applied(w0, w1, c) && counts_applied(w0, b, rdf0, rdf1, step)
    &&& (r is Err && r->Err_0 is ForceOverflow) ==> ({
        let p = r->Err_0->ForceOverflow_particle as int;
        0 <= p < w0.len() && exists|ax: int|
            0 <= ax < 3 && !(i64::MIN <= w0.forces@[p].axis(ax) + #[trigger] net_force(c, p, ax, w0.len()) <= i64::MAX)
    })
    &&& (r is Err && r->Err_0 is CountOverflow) ==> ({
        let bin = r->Err_0->CountOverflow_bin as int;
        forces_fit(w0, c) && 0 <= bin < rdf0.n_bins
            && rdf0.counts@[bin] + rdf_frame_count(w0, b, rdf0, step, bin) > u64::MAX
    })
    &&& r is Err ==> (r->Err_0 is ForceOverflow || r->Err_0 is CountOverflow)
}

/// The force stage. Visits every unordered pair `i < j` once; inside the
/// cutoff it asks `pair_force` for the pair's contribution `v`, adds `v` to
/// the force on `i` and subtracts it from the force on `j`. In the same pass,
/// when the step under way (`cur_step.n + 1`) lies in the RDF window, every
/// pair of the RDF's types closer than `range` adds 2 to its bin.
///
/// Coincident particles are an error. Otherwise the stage fails when a net
/// force or a bin count would leave its range; on any error nothing changes.
pub fn calc_lj_force<F: Fn(PairGeometry) -> Vec3>(
    world: &mut World,
    simbox: &SimBox,
    cut_off: &LJCutOff,
    rdf_data: &mut RDF,
    cur_step: &CurStep,
    pair_force: F,
) -> (r: Result<(), MdError>)
    requires
        old(world).wf(),
        simbox.wf(),
        old(rdf_data).wf(),
        forall|g: PairGeometry| call_requires(pair_force, (g,)),
    ensures
        (r is Err && r->Err_0 is ZeroDistance) <==> has_zero_pair(*old(world), *simbox),
        r matches Err(MdError::ZeroDistance { i, j }) ==> 0 <= i < j < old(world).len()
            && pair_geometry(*old(world), *simbox, i as int, j as int).dist_sq == 0,
        r is Err ==> *final(world) == *old(world) && *final(rdf_data) == *old(rdf_data),
        final(world).wf(),
        final(rdf_data).wf(),
        !has_zero_pair(*old(world), *simbox) ==> exists|c: Map<(int, int), Vec3>|
            #[trigger] force_stage_post(pair_force, c, *old(world), *final(world), *simbox, cut_off.rc,
                *old(rdf_data), *final(rdf_data), cur_step.n + 1, r),
{
    let ghost w0 = *world;
    let ghost rdf0 = *rdf_data;
    let step = cur_step.n;
    let (res, Ghost(c)) = pair_loop(world, simbox, cut_off, rdf_data, step, &pair_force);
    let sums = match res {
        Err((i, j)) => {
            return Err(MdError::ZeroDistance { i, j });
        },
        Ok(s) => s,
    };
    proof {
        assert(!has_zero_pair(w0, *simbox));
    }
    let n = world.positions.len();
    let mut k: usize = 0;
    while k < n
        invariant
            k <= n == w0.len(),
            *world == w0,
            *rdf_data == rdf0,
            w0.wf(),
            rdf0.wf(),
            contributions_valid(pair_force, c, w0, *simbox, cut_off.rc),
            !has_zero_pair(w0, *simbox),
            w0 == *old(world) && rdf0 == *old(rdf_data) && step == cur_step.n,
            sums.fx@.len() == n && sums.fy@.len() == n && sums.fz@.len() == n,
            forall|q: int| 0 <= q < n ==> #[trigger] sums.fx@[q] == w0.forces@[q].x + net_force(c, q, 0, n as int),
            forall|q: int| 0 <= q < n ==> #[trigger] sums.fy@[q] == w0.forces@[q].y + net_force(c, q, 1, n as int),
            forall|q: int| 0 <= q < n ==> #[trigger] sums.fz@[q] == w0.forces@[q].z + net_force(c, q, 2, n as int),
            forall|q: int, ax: int| 0 <= q < k && 0 <= ax < 3 ==> i64::MIN <= w0.forces@[q].axis(ax) + #[trigger] net_force(c, q, ax, n as int) <= i64::MAX,
        decreases n - k,
    {
        let x = sums.fx[k];
        let y = sums.fy[k];
        let z = sums.fz[k];
        if !(i64::MIN as i128 <= x && x <= i64::MAX as i128 && i64::MIN as i128 <= y && y <= i64::MAX as i128
            && i64::MIN as i128 <= z && z <= i64::MAX as i128) {
            proof {
                let ax: int = if !(i64::MIN as i128 <= x && x <= i64::MAX as i128) { 0 } else if !(i64::MIN as i128 <= y && y <= i64::MAX as i128) { 1 } else { 2 };
                assert(!(i64::MIN <= w0.forces@[k as int].axis(ax) + net_force(c, k as int, ax, n as int) <= i64::MAX));
                assert(!forces_fit(w0, c));
                assert(contributions_valid(pair_force, c, w0, *simbox, cut_off.rc));
                let rr: Result<(), MdError> = Err(MdError::ForceOverflow { particle: k });
                assert(rr is Ok <==> forces_fit(w0, c) && counts_fit(w0, *simbox, rdf0, step + 1));
                assert((rr is Err && rr->Err_0 is ForceOverflow));
                assert(rr->Err_0->ForceOverflow_particle == k);
                assert(force_stage_post(pair_force, c, w0, *world, *simbox, cut_off.rc, rdf0, *rdf_data, step + 1, Err(MdError::ForceOverflow { particle: k })));
            }
            proof {
                assert(force_stage_post(pair_force, c, *old(world), *world, *simbox, cut_off.rc,
                    *old(rdf_data), *rdf_data, cur_step.n + 1, Err(MdError::ForceOverflow { particle: k })));
            }
            return Err(MdError::ForceOverflow { particle: k });
        }
        proof {
            assert forall|q: int, ax: int| 0 <= q < k + 1 && 0 <= ax < 3 implies i64::MIN <= w0.forces@[q].axis(ax) + #[trigger] net_force(c, q, ax, n as int) <= i64::MAX by {
                if q == k {
                    if ax == 0 {
                    } else if ax == 1 {
                    } else {
                    }
                }
            }
        }
        k += 1;
    }
    let nb = rdf_data.counts.len();
    let mut m: usize = 0;
    while m < nb
        invariant
            m <= nb == rdf0.n_bins == rdf_data.n_bins,
            *rdf_data == rdf0,
            *world == w0,
            w0.wf(),
            rdf0.wf(),
            contributions_valid(pair_force, c, w0, *simbox, cut_off.rc),
            !has_zero_pair(w0, *simbox),
            w0 == *old(world) && rdf0 == *old(rdf_data) && step == cur_step.n,
            forall|q: int, ax: int| 0 <= q < n && 0 <= ax < 3 ==> i64::MIN <= w0.forces@[q].axis(ax) + #[trigger] net_force(c, q, ax, n as int) <= i64::MAX,
            n == w0.len(),
            sums.frame@.len() == nb,
            forall|q: int| 0 <= q < nb ==> #[trigger] sums.frame@[q] == rdf_frame_count(w0, *simbox, rdf0, step + 1, q),
            forall|q: int| 0 <= q < m ==> rdf0.counts@[q] + #[trigger] rdf_frame_count(w0, *simbox, rdf0, step + 1, q) <= u64::MAX,
        decreases nb - m,
    {
        if rdf_data.counts[m] > u64::MAX - sums.frame[m] {
            proof {
                assert(!counts_fit(w0, *simbox, rdf0, step + 1));
                assert(forces_fit(w0, c));
                assert(force_stage_post(pair_force, c, w0, *world, *simbox, cut_off.rc, rdf0, *rdf_data, step + 1, Err(MdError::CountOverflow { bin: m })));
            }
            proof {
                assert(force_stage_post(pair_force, c, *old(world), *world, *simbox, cut_off.rc,
                    *old(rdf_data), *rdf_data, cur_step.n + 1, Err(MdError::CountOverflow { bin: m })));
            }
            return Err(MdError::CountOverflow { bin: m });
        }
        m += 1;
    }
    let mut k: usize = 0;
    while k < n
        invariant
            k <= n == w0.len(),
            w0.wf(),
            rdf0.wf(),
            *rdf_data == rdf0,
            contributions_valid(pair_force, c, w0, *simbox, cut_off.rc),
            !has_zero_pair(w0, *simbox),
            w0 == *old(world) && rdf0 == *old(rdf_data) && step == cur_step.n,
            forall|q: int| 0 <= q < nb ==> #[trigger] sums.frame@[q] == rdf_frame_count(w0, *simbox, rdf0, step + 1, q),
            forall|q: int| 0 <= q < nb ==> rdf0.counts@[q] + #[trigger] rdf_frame_count(w0, *simbox, rdf0, step + 1, q) <= u64::MAX,
            sums.frame@.len() == nb == rdf0.n_bins,
            world.wf(),
            world.ids == w0.ids && world.positions == w0.positions && world.velocities == w0.velocities,
            world.old_forces == w0.old_forces && world.masses == w0.masses && world.atom_types == w0.atom_types,
            world.forces@.len() == n,
            sums.fx@.len() == n && sums.fy@.len() == n && sums.fz@.len() == n,
            forall|q: int| 0 <= q < n ==> #[trigger] sums.fx@[q] == w0.forces@[q].x + net_force(c, q, 0, n as int),
            forall|q: int| 0 <= q < n ==> #[trigger] sums.fy@[q] == w0.forces@[q].y + net_force(c, q, 1, n as int),
            forall|q: int| 0 <= q < n ==> #[trigger] sums.fz@[q] == w0.forces@[q].z + net_force(c, q, 2, n as int),
            forall|q: int, ax: int| 0 <= q < n && 0 <= ax < 3 ==> i64::MIN <= w0.forces@[q].axis(ax) + #[trigger] net_force(c, q, ax, n as int) <= i64::MAX,
            forall|q: int| k <= q < n ==> #[trigger] world.forces@[q] == w0.forces@[q],
            forall|q: int, ax: int| 0 <= q < k && 0 <= ax < 3 ==> #[trigger] world.forces@[q].axis(ax) == w0.forces@[q].axis(ax) + net_force(c, q, ax, n as int),
        decreases n - k,
    {
        proof {
            assert(i64::MIN <= w0.forces@[k as int].axis(0) + net_force(c, k as int, 0, n as int) <= i64::MAX);
            assert(i64::MIN <= w0.forces@[k as int].axis(1) + net_force(c, k as int, 1, n as int) <= i64::MAX);
            assert(i64::MIN <= w0.forces@[k as int].axis(2) + net_force(c, k as int, 2, n as int) <= i64::MAX);
        }
        let v = Vec3 { x: sums.fx[k] as i64, y: sums.fy[k] as i64, z: sums.fz[k] as i64 };
        world.forces.set(k, v);
        proof {
            assert forall|q: int, ax: int| 0 <= q < k + 1 && 0 <= ax < 3 implies #[trigger] world.forces@[q].axis(ax) == w0.forces@[q].axis(ax) + net_force(c, q, ax, n as int) by {
                if q == k {
                    if ax == 0 {
                    } else if ax == 1 {
                    } else {
                    }
                }
            }
        }
        k += 1;
    }
    let mut m: usize = 0;
    while m < nb
        invariant
            m <= nb == rdf0.n_bins,
            w0.wf(),
            rdf0.wf(),
            forces_applied(w0, *world, c),
            contributions_valid(pair_force, c, w0, *simbox, cut_off.rc),
            !has_zero_pair(w0, *simbox),
            w0 == *old(world) && rdf0 == *old(rdf_data) && step == cur_step.n,
            forall|q: int, ax: int| 0 <= q < n && 0 <= ax < 3 ==> i64::MIN <= w0.forces@[q].axis(ax) + #[trigger] net_force(c, q, ax, n as int) <= i64::MAX,
            n == w0.len(),
            rdf_data.atom_a == rdf0.atom_a && rdf_data.atom_b == rdf0.atom_b && rdf_data.filename == rdf0.filename,
            rdf_data.n_bins == rdf0.n_bins && rdf_data.range == rdf0.range,
            rdf_data.start == rdf0.start && rdf_data.end == rdf0.end,
            rdf_data.counts@.len() == nb,
            sums.frame@.len() == nb,
            forall|q: int| 0 <= q < nb ==> #[trigger] sums.frame@[q] == rdf_frame_count(w0, *simbox, rdf0, step + 1, q),
            forall|q: int| 0 <= q < nb ==> rdf0.counts@[q] + #[trigger] rdf_frame_count(w0, *simbox, rdf0, step + 1, q) <= u64::MAX,
            forall|q: int| m <= q < nb ==> #[trigger] rdf_data.counts@[q] == rdf0.counts@[q],
            forall|q: int| 0 <= q < m ==> #[trigger] rdf_data.counts@[q] == rdf0.counts@[q] + rdf_frame_count(w0, *simbox, rdf0, step + 1, q),
        decreases nb - m,
    {
        proof {
            assert(rdf0.counts@[m as int] + rdf_frame_count(w0, *simbox, rdf0, step + 1, m as int) <= u64::MAX);
        }
        let v = rdf_data.counts[m] + sums.frame[m];
        rdf_data.counts.set(m, v);
        m += 1;
    }
    proof {
        assert(forces_fit(w0, c));
        assert(counts_fit(w0, *simbox, rdf0, step + 1));
        assert(forces_applied(w0, *world, c));
        assert(counts_applied(w0, *simbox, rdf0, *rdf_data, step + 1));
        assert(force_stage_post(pair_force, c, w0, *world, *simbox, cut_off.rc, rdf0, *rdf_data, step + 1, Ok(())));
    }
    Ok(())
}


/// The sum over all particles of the forces along axis `ax`.
pub open spec fn total_force(w: World, ax: int) -> int {
    seq_sum(|k: int| w.forces@[k].axis(ax), w.len())
}

/// What the pair `(a, b)` adds to particles `0..m` together along `ax`.
spec fn pair_total(c: Map<(int, int), Vec3>, ax: int, m: int) -> spec_fn(int, int) -> int {
    |a: int, b: int| seq_sum(|k: int| force_term(c, k, ax)(a, b), m)
}

proof fn lemma_pair_total_value(c: Map<(int, int), Vec3>, ax: int, m: int, a: int, b: int)
    requires
        0 <= a < b,
    ensures
        pair_total(c, ax, m)(a, b) == (if a < m { c[(a, b)].axis(ax) } else { 0 })
            + (if b < m { -c[(a, b)].axis(ax) } else { 0 }),
    decreases m,
{
    if m > 0 {
        lemma_pair_total_value(c, ax, m - 1, a, b);
    }
}

proof fn lemma_sum_of_nets(c: Map<(int, int), Vec3>, ax: int, m: int, n: int)
    requires
        m >= 0,
    ensures
        seq_sum(|k: int| net_force(c, k, ax, n), m) == tri_sum(pair_total(c, ax, m), n, n),
    decreases m,
{
    if m == 0 {
        lemma_tri_sum_zero(pair_total(c, ax, 0), n, n);
    } else {
        lemma_sum_of_nets(c, ax, m - 1, n);
        lemma_tri_sum_add(pair_total(c, ax, m - 1), force_term(c, m - 1, ax), pair_total(c, ax, m), n, n);
    }
}

/// Newton's third law at pair level: every pair adds a contribution to one
/// particle and its negation to the other, so the net forces of any set of
/// contributions sum to zero over the particles, on every axis.
pub proof fn lemma_net_forces_cancel(c: Map<(int, int), Vec3>, n: int, ax: int)
    requires
        n >= 0,
    ensures
        seq_sum(|k: int| net_force(c, k, ax, n), n) == 0,
{
    lemma_sum_of_nets(c, ax, n, n);
    assert forall|a: int, b: int| 0 <= a < n && a < b < n implies #[trigger] pair_total(c, ax, n)(a, b) == 0 by {
        lemma_pair_total_value(c, ax, n, a, b);
    }
    lemma_tri_sum_zero(pair_total(c, ax, n), n, n);
}

proof fn lemma_seq_sum_add(f: spec_fn(int) -> int, g: spec_fn(int) -> int, h: spec_fn(int) -> int, m: int)
    requires
        forall|k: int| 0 <= k < m ==> #[trigger] h(k) == f(k) + g(k),
    ensures
        seq_sum(h, m) == seq_sum(f, m) + seq_sum(g, m),
    decreases m,
{
    if m > 0 {
        lemma_seq_sum_add(f, g, h, m - 1);
    }
}

/// A successful force stage leaves the total force unchanged on every axis;
/// entered with zero forces, as after the clear stage, it ends with forces
/// that sum to zero.
pub proof fn lemma_force_stage_total<F: Fn(PairGeometry) -> Vec3>(
    f: F,
    c: Map<(int, int), Vec3>,
    w0: World,
    w1: World,
    b: SimBox,
    rc: u64,
    rdf0: RDF,
    rdf1: RDF,
    step: int,
    ax: int,
)
    requires
        w0.wf(),
        0 <= ax < 3,
        force_stage_post(f, c, w0, w1, b, rc, rdf0, rdf1, step, Ok(())),
    ensures
        total_force(w1, ax) == total_force(w0, ax),
        (forall|k: int| 0 <= k < w0.len() ==> #[trigger] w0.forces@[k] == (Vec3 { x: 0, y: 0, z: 0 }))
            ==> total_force(w1, ax) == 0,
{
    let n = w0.len();
    lemma_net_forces_cancel(c, n, ax);
    lemma_seq_sum_add(|k: int| w0.forces@[k].axis(ax), |k: int| net_force(c, k, ax, n), |k: int| w1.forces@[k].axis(ax), n);
    if forall|k: int| 0 <= k < w0.len() ==> #[trigger] w0.forces@[k] == (Vec3 { x: 0, y: 0, z: 0 }) {
        lemma_seq_sum_zero(|k: int| w0.forces@[k].axis(ax), n);
    }
}

proof fn lemma_seq_sum_zero(f: spec_fn(int) -> int, m: int)
    requires
        forall|k: int| 0 <= k < m ==> #[trigger] f(k) == 0,
    ensures
        seq_sum(f, m) == 0,
    decreases m,
{
    if m > 0 {
        lemma_seq_sum_zero(f, m - 1);
    }
}

} // verus!
