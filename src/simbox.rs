use vstd::prelude::*;

verus! {

/// A fixed-point 3-vector: each component counts quanta of the quantity it
/// measures (length, velocity, force), so arithmetic on it is exact.
#[derive(Clone, Copy, Debug, PartialEq, Eq, Structural)]
pub struct Vec3 {
    pub x: i64,
    pub y: i64,
    pub z: i64,
}

impl Vec3 {
    pub open spec fn axis(self, k: int) -> int {
        if k == 0 {
            self.x as int
        } else if k == 1 {
            self.y as int
        } else {
            self.z as int
        }
    }

    pub fn new(x: i64, y: i64, z: i64) -> (r: Vec3)
        ensures
            r == (Vec3 { x, y, z }),
    {
        Vec3 { x, y, z }
    }

    pub fn zero() -> (r: Vec3)
        ensures
            r.x == 0 && r.y == 0 && r.z == 0,
    {
        Vec3 { x: 0, y: 0, z: 0 }
    }
}

/// `o + (p - o) mod l`, with the remainder taken in `[0, l)`.
pub open spec fn wrap_coord_spec(p: int, o: int, l: int) -> int {
    o + (p - o) % l
}

/// The integer nearest to `r / l`, halves rounded away from zero.
pub open spec fn round_div(r: int, l: int) -> int {
    if r >= 0 {
        (2 * r + l) / (2 * l)
    } else {
        -((-2 * r + l) / (2 * l))
    }
}

/// `r - l * round(r / l)`: the nearest periodic replica of a displacement.
pub open spec fn min_image_coord_spec(r: int, l: int) -> int {
    r - l * round_div(r, l)
}

/// The periodic simulation box: the cell `[origin, origin + dimension)` on each axis.
#[derive(Clone, Copy, Debug)]
pub struct SimBox {
    pub origin: Vec3,
    pub dimension: Vec3,
}

impl SimBox {
    /// Every extent is positive and the far corner is representable.
    pub open spec fn wf(self) -> bool {
        &&& forall|k: int| 0 <= k < 3 ==> #[trigger] self.dimension.axis(k) > 0
        &&& forall|k: int|
            0 <= k < 3 ==> #[trigger] self.origin.axis(k) + self.dimension.axis(k) <= i64::MAX
    }

    pub open spec fn contains(self, p: Vec3) -> bool {
        forall|k: int|
            0 <= k < 3 ==> self.origin.axis(k) <= #[trigger] p.axis(k) < self.origin.axis(k)
                + self.dimension.axis(k)
    }

    pub open spec fn wrap_spec(self, p: Vec3) -> Vec3 {
        Vec3 {
            x: wrap_coord_spec(p.x as int, self.origin.x as int, self.dimension.x as int) as i64,
            y: wrap_coord_spec(p.y as int, self.origin.y as int, self.dimension.y as int) as i64,
            z: wrap_coord_spec(p.z as int, self.origin.z as int, self.dimension.z as int) as i64,
        }
    }

    pub open spec fn minimum_image_spec(self, d: Vec3) -> Vec3 {
        Vec3 {
            x: min_image_coord_spec(d.x as int, self.dimension.x as int) as i64,
            y: min_image_coord_spec(d.y as int, self.dimension.y as int) as i64,
            z: min_image_coord_spec(d.z as int, self.dimension.z as int) as i64,
        }
    }

    /// A box with the given corner and extents.
    pub fn new(origin: Vec3, x_len: i64, y_len: i64, z_len: i64) -> (r: SimBox)
        ensures
            r.origin == origin,
            r.dimension == (Vec3 { x: x_len, y: y_len, z: z_len }),
    {
        SimBox { origin, dimension: Vec3 { x: x_len, y: y_len, z: z_len } }
    }

    /// Brings a position back into the box along every axis.
    pub fn wrap(&self, p: Vec3) -> (r: Vec3)
        requires
            self.wf(),
        ensures
            r == self.wrap_spec(p),
            self.contains(r),
    {
        proof {
            assert(self.dimension.axis(0) > 0 && self.dimension.axis(1) > 0
                && self.dimension.axis(2) > 0);
            assert(self.origin.axis(0) + self.dimension.axis(0) <= i64::MAX);
            assert(self.origin.axis(1) + self.dimension.axis(1) <= i64::MAX);
            assert(self.origin.axis(2) + self.dimension.axis(2) <= i64::MAX);
        }
        let r = Vec3 {
            x: wrap_coord(p.x as i128, self.origin.x, self.dimension.x),
            y: wrap_coord(p.y as i128, self.origin.y, self.dimension.y),
            z: wrap_coord(p.z as i128, self.origin.z, self.dimension.z),
        };
        proof {
            assert forall|k: int| 0 <= k < 3 implies self.origin.axis(k) <= #[trigger] r.axis(k)
                < self.origin.axis(k) + self.dimension.axis(k) by {
                if k == 0 {
                } else if k == 1 {
                } else {
                }
            }
        }
        r
    }

    /// The displacement of the nearest periodic replica, axis by axis.
    pub fn minimum_image(&self, d: Vec3) -> (r: Vec3)
        requires
            self.wf(),
        ensures
            r == self.minimum_image_spec(d),
            forall|k: int|
                0 <= k < 3 ==> 2 * abs(#[trigger] r.axis(k)) <= self.dimension.axis(k),
    {
        proof {
            assert(self.dimension.axis(0) > 0 && self.dimension.axis(1) > 0
                && self.dimension.axis(2) > 0);
        }
        let r = Vec3 {
            x: min_image_coord(d.x as i128, self.dimension.x),
            y: min_image_coord(d.y as i128, self.dimension.y),
            z: min_image_coord(d.z as i128, self.dimension.z),
        };
        proof {
            assert forall|k: int| 0 <= k < 3 implies 2 * abs(#[trigger] r.axis(k))
                <= self.dimension.axis(k) by {
                if k == 0 {
                } else if k == 1 {
                } else {
                }
            }
        }
        r
    }
}

pub open spec fn abs(v: int) -> int {
    if v < 0 {
        -v
    } else {
        v
    }
}

/// Wraps one coordinate, given as a wide integer, into `[o, o + l)`.
pub fn wrap_coord(p: i128, o: i64, l: i64) -> (r: i64)
    requires
        l > 0,
        o + l <= i64::MAX,
        -0x4000_0001_0000_0000_0000_0000_0000_0000 <= p <= 0x4000_0001_0000_0000_0000_0000_0000_0000,
    ensures
        r == wrap_coord_spec(p as int, o as int, l as int),
        o <= r < o + l,
{
    let d: i128 = p - o as i128;
    let m: i128 = if d >= 0 {
        d % (l as i128)
    } else {
        let q: i128 = (-d) % (l as i128);
        if q == 0 {
            0
        } else {
            l as i128 - q
        }
    };
    proof {
        let li = l as int;
        let di = d as int;
        if di < 0 {
            let e = -di;
            let q = e % li;
            let t = e / li;
            vstd::arithmetic::div_mod::lemma_fundamental_div_mod(e, li);
            assert(e == li * t + q);
            if q == 0 {
                assert(di == (-t) * li + 0) by (nonlinear_arith)
                    requires e == li * t + q, q == 0, di == -e;
                vstd::arithmetic::div_mod::lemma_fundamental_div_mod_converse(di, li, -t, 0);
            } else {
                assert(di == (-t - 1) * li + (li - q)) by (nonlinear_arith)
                    requires e == li * t + q, di == -e;
                vstd::arithmetic::div_mod::lemma_fundamental_div_mod_converse(
                    di, li, -t - 1, li - q);
            }
        }
    }
    (o as i128 + m) as i64
}

/// `r - l * round(r / l)` on one coordinate.
pub fn min_image_coord(r: i128, l: i64) -> (m: i64)
    requires
        l > 0,
        -0x1_0000_0000_0000_0000 <= r <= 0x1_0000_0000_0000_0000,
    ensures
        m == min_image_coord_spec(r as int, l as int),
        2 * abs(m as int) <= l,
{
    let l2: i128 = 2 * l as i128;
    let a: i128 = if r >= 0 { 2 * r + l as i128 } else { l as i128 - 2 * r };
    let n: i128 = a / l2;
    proof {
        let li = l as int;
        let ai = a as int;
        vstd::arithmetic::div_mod::lemma_fundamental_div_mod(ai, 2 * li);
        assert(0 <= ai - (2 * li) * (n as int) < 2 * li);
        assert(0 <= n <= ai) by (nonlinear_arith)
            requires n == ai / (2 * li), li > 0, ai >= 0;
        assert(li * n <= ai) by (nonlinear_arith)
            requires 0 <= ai - (2 * li) * (n as int), li > 0, n >= 0;
        let ln = li * n;
        assert((2 * li) * (n as int) == 2 * ln) by (nonlinear_arith)
            requires ln == li * n;
        if r >= 0 {
            assert(round_div(r as int, li) == n);
        } else {
            assert(round_div(r as int, li) == -n);
            assert(li * (-n) == -ln) by (nonlinear_arith)
                requires ln == li * n;
        }
    }
    let res: i128 = if r >= 0 {
        r - l as i128 * n
    } else {
        r + l as i128 * n
    };
    res as i64
}

} // verus!

verus! {

/// The remainder used by `wrap` lies in `[0, l)`.
pub proof fn lemma_wrap_coord_range(p: int, o: int, l: int)
    requires
        l > 0,
    ensures
        o <= wrap_coord_spec(p, o, l) < o + l,
{
    vstd::arithmetic::div_mod::lemma_mod_bound(p - o, l);
}

/// A coordinate already inside `[o, o + l)` is left where it is.
pub proof fn lemma_wrap_coord_fixed(p: int, o: int, l: int)
    requires
        l > 0,
        o <= p < o + l,
    ensures
        wrap_coord_spec(p, o, l) == p,
{
    vstd::arithmetic::div_mod::lemma_small_mod((p - o) as nat, l as nat);
}

/// The nearest replica of a displacement is at most half a box length away.
pub proof fn lemma_min_image_coord_bound(r: int, l: int)
    requires
        l > 0,
    ensures
        2 * abs(min_image_coord_spec(r, l)) <= l,
{
    let a = if r >= 0 { 2 * r + l } else { l - 2 * r };
    let n = a / (2 * l);
    vstd::arithmetic::div_mod::lemma_fundamental_div_mod(a, 2 * l);
    assert(0 <= a - (2 * l) * n < 2 * l);
    let ln = l * n;
    assert((2 * l) * n == 2 * ln) by (nonlinear_arith)
        requires ln == l * n;
    if r < 0 {
        assert(l * (-n) == -ln) by (nonlinear_arith)
            requires ln == l * n;
    }
}

/// Wrapping a position twice gives the same as wrapping it once, and the
/// wrapped position lies in the box.
pub proof fn lemma_wrap_idempotent(b: SimBox, p: Vec3)
    requires
        b.wf(),
    ensures
        b.wrap_spec(b.wrap_spec(p)) == b.wrap_spec(p),
        b.contains(b.wrap_spec(p)),
{
    assert(b.dimension.axis(0) > 0 && b.dimension.axis(1) > 0 && b.dimension.axis(2) > 0);
    assert(b.origin.axis(0) + b.dimension.axis(0) <= i64::MAX);
    assert(b.origin.axis(1) + b.dimension.axis(1) <= i64::MAX);
    assert(b.origin.axis(2) + b.dimension.axis(2) <= i64::MAX);
    let (ox, oy, oz) = (b.origin.x as int, b.origin.y as int, b.origin.z as int);
    let (lx, ly, lz) = (b.dimension.x as int, b.dimension.y as int, b.dimension.z as int);
    lemma_wrap_coord_range(p.x as int, ox, lx);
    lemma_wrap_coord_range(p.y as int, oy, ly);
    lemma_wrap_coord_range(p.z as int, oz, lz);
    let w = b.wrap_spec(p);
    lemma_wrap_coord_fixed(w.x as int, ox, lx);
    lemma_wrap_coord_fixed(w.y as int, oy, ly);
    lemma_wrap_coord_fixed(w.z as int, oz, lz);
    assert forall|k: int| 0 <= k < 3 implies b.origin.axis(k) <= #[trigger] w.axis(k)
        < b.origin.axis(k) + b.dimension.axis(k) by {
        if k == 0 {
        } else if k == 1 {
        } else {
        }
    }
}

/// Every component of a minimum-image displacement is at most half the box
/// length on its axis.
pub proof fn lemma_minimum_image_bound(b: SimBox, d: Vec3)
    requires
        b.wf(),
    ensures
        forall|k: int|
            0 <= k < 3 ==> 2 * abs(#[trigger] b.minimum_image_spec(d).axis(k))
                <= b.dimension.axis(k),
{
    assert(b.dimension.axis(0) > 0 && b.dimension.axis(1) > 0 && b.dimension.axis(2) > 0);
    lemma_min_image_coord_bound(d.x as int, b.dimension.x as int);
    lemma_min_image_coord_bound(d.y as int, b.dimension.y as int);
    lemma_min_image_coord_bound(d.z as int, b.dimension.z as int);
    let m = b.minimum_image_spec(d);
    assert forall|k: int| 0 <= k < 3 implies 2 * abs(#[trigger] m.axis(k))
        <= b.dimension.axis(k) by {
        if k == 0 {
        } else if k == 1 {
        } else {
        }
    }
}

} // verus!
