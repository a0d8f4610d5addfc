use vstd::prelude::*;

use crate::atom::World;
use crate::simbox::{SimBox, Vec3};

verus! {

/// The prefix of the trajectory files.
#[derive(Clone, Debug)]
pub struct TrjName {
    pub name: String,
}

impl TrjName {
    pub fn new(filename: String) -> (r: TrjName)
        ensures
            r.name@ == filename@,
    {
        TrjName { name: filename }
    }
}

/// The number of steps between two trajectory frames.
#[derive(Clone, Copy, Debug)]
pub struct OutInterval {
    pub interval: u64,
}

impl OutInterval {
    pub fn new(interval: u64) -> (r: OutInterval)
        ensures
            r.interval == interval,
    {
        OutInterval { interval }
    }
}

/// The character of a decimal digit.
pub open spec fn digit_char(d: int) -> char {
    if d == 0 {
        '0'
    } else if d == 1 {
        '1'
    } else if d == 2 {
        '2'
    } else if d == 3 {
        '3'
    } else if d == 4 {
        '4'
    } else if d == 5 {
        '5'
    } else if d == 6 {
        '6'
    } else if d == 7 {
        '7'
    } else if d == 8 {
        '8'
    } else {
        '9'
    }
}

/// The decimal digits of `n`, most significant first, with no leading zero.
pub open spec fn digits(n: nat) -> Seq<char>
    decreases n,
{
    if n < 10 {
        seq![digit_char(n as int)]
    } else {
        digits(n / 10).push(digit_char((n % 10) as int))
    }
}

/// The decimal form of `i`, with a leading `-` when negative.
pub open spec fn decimal(i: int) -> Seq<char> {
    if i < 0 {
        seq!['-'] + digits((-i) as nat)
    } else {
        digits(i as nat)
    }
}

fn digit_str(d: u64) -> (r: &'static str)
    requires
        d < 10,
    ensures
        r@ == seq![digit_char(d as int)],
{
    if d == 0 {
        proof { reveal_strlit("0"); }
        "0"
    } else if d == 1 {
        proof { reveal_strlit("1"); }
        "1"
    } else if d == 2 {
        proof { reveal_strlit("2"); }
        "2"
    } else if d == 3 {
        proof { reveal_strlit("3"); }
        "3"
    } else if d == 4 {
        proof { reveal_strlit("4"); }
        "4"
    } else if d == 5 {
        proof { reveal_strlit("5"); }
        "5"
    } else if d == 6 {
        proof { reveal_strlit("6"); }
        "6"
    } else if d == 7 {
        proof { reveal_strlit("7"); }
        "7"
    } else if d == 8 {
        proof { reveal_strlit("8"); }
        "8"
    } else {
        proof { reveal_strlit("9"); }
        "9"
    }
}

/// Appends the digits of `n`.
fn push_digits(out: &mut String, n: u64)
    ensures
        final(out)@ == old(out)@ + digits(n as nat),
    decreases n,
{
    if n < 10 {
        out.append(digit_str(n));
    } else {
        push_digits(out, n / 10);
        out.append(digit_str(n % 10));
        proof {
            assert(final(out)@ =~= old(out)@ + digits(n as nat));
        }
    }
}

/// Appends the decimal form of `i`.
pub fn push_decimal(out: &mut String, i: i64)
    ensures
        final(out)@ == old(out)@ + decimal(i as int),
{
    if i < 0 {
        proof { reveal_strlit("-"); }
        out.append("-");
        let m: u64 = if i == i64::MIN { 0x8000_0000_0000_0000 } else { (-i) as u64 };
        push_digits(out, m);
        proof {
            assert(final(out)@ =~= old(out)@ + decimal(i as int));
        }
    } else {
        push_digits(out, i as u64);
    }
}

/// Whether a frame is written at step `step`: every `interval` steps,
/// starting with step 0.
pub open spec fn emits(step: int, interval: int) -> bool {
    step % interval == 0
}

pub fn should_output(step: u64, interval: u64) -> (r: bool)
    requires
        interval > 0,
    ensures
        r == emits(step as int, interval as int),
{
    step % interval == 0
}

/// The steps of a run of `n_steps` steps at which a frame is written, in order.
pub fn emitted_steps(n_steps: u64, interval: u64) -> (r: Vec<u64>)
    requires
        interval > 0,
        n_steps < u64::MAX,
    ensures
        forall|k: u64| r@.contains(k) <==> k <= n_steps && emits(k as int, interval as int),
        forall|a: int, b: int| 0 <= a < b < r@.len() ==> r@[a] < r@[b],
{
    let mut r: Vec<u64> = Vec::new();
    let mut s: u64 = 0;
    while s <= n_steps
        invariant
            interval > 0,
            n_steps < u64::MAX,
            s <= n_steps + 1,
            forall|k: u64| r@.contains(k) <==> k < s && emits(k as int, interval as int),
            forall|a: int, b: int| 0 <= a < b < r@.len() ==> r@[a] < r@[b],
            forall|a: int| 0 <= a < r@.len() ==> r@[a] < s,
        decreases n_steps + 1 - s,
    {
        if should_output(s, interval) {
            let ghost r0 = r@;
            r.push(s);
            proof {
                assert forall|k: u64| r@.contains(k) <==> k < s + 1 && emits(k as int, interval as int) by {
                    if r0.contains(k) {
                        let idx = choose|idx: int| 0 <= idx < r0.len() && r0[idx] == k;
                        assert(r@[idx] == k);
                    }
                    if k == s {
                        assert(r@[r0.len() as int] == k);
                    }
                    if r@.contains(k) && k != s {
                        let idx = choose|idx: int| 0 <= idx < r@.len() && r@[idx] == k;
                        assert(idx < r0.len());
                        assert(r0[idx] == k);
                    }
                }
            }
        }
        s += 1;
    }
    r
}

/// Trajectory stride: the steps of a run that get a frame are step 0 and the
/// steps `1..=n_steps` that are multiples of the interval.
pub proof fn lemma_trajectory_stride(n_steps: int, interval: int)
    requires
        interval > 0,
        n_steps >= 0,
    ensures
        Set::new(|k: int| 0 <= k <= n_steps && emits(k, interval))
            == Set::new(|k: int| k == 0 || (1 <= k <= n_steps && k % interval == 0)),
{
    assert(0int % interval == 0);
    assert(Set::new(|k: int| 0 <= k <= n_steps && emits(k, interval))
        =~= Set::new(|k: int| k == 0 || (1 <= k <= n_steps && k % interval == 0)));
}

/// The name of the frame file of step `step`: `<trj_name>_<step>.trj`.
pub fn frame_file_name(trj_name: &String, step: u64) -> (r: String)
    ensures
        r@ == trj_name@ + seq!['_'] + digits(step as nat) + seq!['.', 't', 'r', 'j'],
{
    let mut r = trj_name.clone();
    proof { reveal_strlit("_"); reveal_strlit(".trj"); }
    r.append("_");
    push_digits(&mut r, step);
    r.append(".trj");
    proof {
        assert(".trj"@ =~= seq!['.', 't', 'r', 'j']);
        assert(r@ =~= trj_name@ + seq!['_'] + digits(step as nat) + seq!['.', 't', 'r', 'j']);
    }
    r
}


/// One line of box bounds: `<lo><unit> <hi><unit>`.
pub open spec fn bounds_line(lo: int, hi: int, unit: Seq<char>) -> Seq<char> {
    decimal(lo) + unit + " "@ + decimal(hi) + unit + "\n"@
}

/// The header of a frame of `n` atoms at step `step`.
pub open spec fn frame_header(step: int, n: int, b: SimBox, unit: Seq<char>) -> Seq<char> {
    "ITEM: TIMESTEP\n"@ + digits(step as nat) + "\n"@
        + "ITEM: NUMBER OF ATOMS\n"@ + digits(n as nat) + "\n"@
        + "ITEM: BOX BOUNDS pp pp pp\n"@
        + bounds_line(b.origin.x as int, b.origin.x + b.dimension.x, unit)
        + bounds_line(b.origin.y as int, b.origin.y + b.dimension.y, unit)
        + bounds_line(b.origin.z as int, b.origin.z + b.dimension.z, unit)
        + "ITEM: ATOMS id type x y z vx vy vz\n"@
}

/// The line of one atom: `<id> 1 <x> <y> <z> <vx> <vy> <vz>`, each length
/// followed by `lu` and each velocity by `vu`.
pub open spec fn atom_line(id: int, p: Vec3, v: Vec3, lu: Seq<char>, vu: Seq<char>) -> Seq<char> {
    digits(id as nat) + " 1"@
        + " "@ + decimal(p.x as int) + lu + " "@ + decimal(p.y as int) + lu + " "@ + decimal(p.z as int) + lu
        + " "@ + decimal(v.x as int) + vu + " "@ + decimal(v.y as int) + vu + " "@ + decimal(v.z as int) + vu
        + "\n"@
}

/// The lines of the first `k` atoms of `w`.
pub open spec fn atom_lines(w: World, k: int, lu: Seq<char>, vu: Seq<char>) -> Seq<char>
    decreases k,
{
    if k <= 0 {
        Seq::empty()
    } else {
        atom_lines(w, k - 1, lu, vu) + atom_line(w.ids@[k - 1] as int, w.positions@[k - 1], w.velocities@[k - 1], lu, vu)
    }
}

/// A LAMMPS dump frame of `w` at step `step`.
pub open spec fn frame_text(step: int, w: World, b: SimBox, lu: Seq<char>, vu: Seq<char>) -> Seq<char> {
    frame_header(step, w.len(), b, lu) + atom_lines(w, w.len(), lu, vu)
}

fn push_bounds_line(out: &mut String, lo: i64, hi: i64, unit: &str)
    ensures
        final(out)@ == old(out)@ + bounds_line(lo as int, hi as int, unit@),
{
    push_decimal(out, lo);
    out.append(unit);
    out.append(" ");
    push_decimal(out, hi);
    out.append(unit);
    out.append("\n");
    proof {
        assert(final(out)@ =~= old(out)@ + bounds_line(lo as int, hi as int, unit@));
    }
}

fn push_atom_line(out: &mut String, id: u64, p: Vec3, v: Vec3, lu: &str, vu: &str)
    ensures
        final(out)@ == old(out)@ + atom_line(id as int, p, v, lu@, vu@),
{
    push_digits(out, id);
    out.append(" 1");
    out.append(" ");
    push_decimal(out, p.x);
    out.append(lu);
    out.append(" ");
    push_decimal(out, p.y);
    out.append(lu);
    out.append(" ");
    push_decimal(out, p.z);
    out.append(lu);
    out.append(" ");
    push_decimal(out, v.x);
    out.append(vu);
    out.append(" ");
    push_decimal(out, v.y);
    out.append(vu);
    out.append(" ");
    push_decimal(out, v.z);
    out.append(vu);
    out.append("\n");
    proof {
        assert(final(out)@ =~= old(out)@ + atom_line(id as int, p, v, lu@, vu@));
    }
}

/// The text of one trajectory frame: the header with the step, the atom count
/// and the box bounds, then one line per atom with its id, type 1, position
/// and velocity. Each number is written exactly, in quanta, followed by the
/// unit suffix given for its quantity (`length_unit` for lengths,
/// `velocity_unit` for velocities), so that a suffix such as `e-21` turns
/// it into a decimal in SI units.
pub fn lammps_frame(step: u64, world: &World, simbox: &SimBox, length_unit: &str, velocity_unit: &str) -> (r: String)
    requires
        world.wf(),
        simbox.wf(),
    ensures
        r@ == frame_text(step as int, *world, *simbox, length_unit@, velocity_unit@),
{
    proof {
        assert(simbox.origin.axis(0) + simbox.dimension.axis(0) <= i64::MAX);
        assert(simbox.origin.axis(1) + simbox.dimension.axis(1) <= i64::MAX);
        assert(simbox.origin.axis(2) + simbox.dimension.axis(2) <= i64::MAX);
        assert(simbox.dimension.axis(0) > 0 && simbox.dimension.axis(1) > 0 && simbox.dimension.axis(2) > 0);
    }
    let n = world.positions.len();
    let mut out = String::new();
    out.append("ITEM: TIMESTEP\n");
    push_digits(&mut out, step);
    out.append("\n");
    out.append("ITEM: NUMBER OF ATOMS\n");
    push_digits(&mut out, n as u64);
    out.append("\n");
    out.append("ITEM: BOX BOUNDS pp pp pp\n");
    push_bounds_line(&mut out, simbox.origin.x, simbox.origin.x + simbox.dimension.x, length_unit);
    push_bounds_line(&mut out, simbox.origin.y, simbox.origin.y + simbox.dimension.y, length_unit);
    push_bounds_line(&mut out, simbox.origin.z, simbox.origin.z + simbox.dimension.z, length_unit);
    out.append("ITEM: ATOMS id type x y z vx vy vz\n");
    proof {
        assert(out@ =~= frame_header(step as int, n as int, *simbox, length_unit@));
    }
    let mut k: usize = 0;
    while k < n
        invariant
            k <= n == world.len(),
            world.wf(),
            out@ == frame_header(step as int, n as int, *simbox, length_unit@) + atom_lines(*world, k as int, length_unit@, velocity_unit@),
        decreases n - k,
    {
        push_atom_line(&mut out, world.ids[k], world.positions[k], world.velocities[k], length_unit, velocity_unit);
        proof {
            assert(out@ =~= frame_header(step as int, n as int, *simbox, length_unit@) + atom_lines(*world, k + 1, length_unit@, velocity_unit@));
        }
        k += 1;
    }
    out
}

} // verus!
