//! Mesh statistics on fixed-point positions.
//!
//! A coordinate is an `i64` count of millionths of a scene unit. Means are
//! rounded down, and a distance is the floor of the Euclidean distance.
use vstd::arithmetic::div_mod::{
    lemma_fundamental_div_mod,
    lemma_fundamental_div_mod_converse, lemma_mod_pos_bound,
};
use vstd::prelude::*;

verus! {

/// Fixed-point units in one scene unit.
pub const UNITS_PER_SCENE_UNIT: i64 = 1_000_000;

/// Largest magnitude of a coordinate (about 1.1 million scene units).
pub const COORD_LIMIT: i64 = 1_099_511_627_776;

/// A point or offset in fixed-point coordinates.
#[derive(Clone, Copy, Debug, PartialEq, Eq, Structural)]
pub struct FixedVec3 {
    pub x: i64,
    pub y: i64,
    pub z: i64,
}

/// An axis-aligned bounding box, as centre and half extents.
#[derive(Clone, Copy, Debug, PartialEq, Eq, Structural)]
pub struct Aabb {
    pub center: FixedVec3,
    pub half_extents: FixedVec3,
}

pub open spec fn zero_vec() -> FixedVec3 {
    FixedVec3 { x: 0, y: 0, z: 0 }
}

/// Every coordinate lies within `COORD_LIMIT`.
pub open spec fn in_range(p: FixedVec3) -> bool {
    &&& -COORD_LIMIT <= p.x <= COORD_LIMIT
    &&& -COORD_LIMIT <= p.y <= COORD_LIMIT
    &&& -COORD_LIMIT <= p.z <= COORD_LIMIT
}

pub open spec fn all_in_range(vs: Seq<FixedVec3>) -> bool {
    forall|i: int| 0 <= i < vs.len() ==> in_range(#[trigger] vs[i])
}

/// Coordinate `k` (0, 1 or 2) of `p`.
pub open spec fn axis(p: FixedVec3, k: int) -> int {
    if k == 0 {
        p.x as int
    } else if k == 1 {
        p.y as int
    } else {
        p.z as int
    }
}

/// Sum of coordinate `k` over `vs`.
pub open spec fn axis_sum(vs: Seq<FixedVec3>, k: int) -> int
    decreases vs.len(),
{
    if vs.len() == 0 {
        0
    } else {
        axis_sum(vs.drop_last(), k) + axis(vs.last(), k)
    }
}

/// The centroid of `vs`, each coordinate rounded down; the origin for no
/// vertices.
pub open spec fn midpoint_of(vs: Seq<FixedVec3>) -> FixedVec3 {
    if vs.len() == 0 {
        zero_vec()
    } else {
        FixedVec3 {
            x: (axis_sum(vs, 0) / vs.len() as int) as i64,
            y: (axis_sum(vs, 1) / vs.len() as int) as i64,
            z: (axis_sum(vs, 2) / vs.len() as int) as i64,
        }
    }
}

pub open spec fn dist_sq(a: FixedVec3, b: FixedVec3) -> nat {
    let dx = a.x - b.x;
    let dy = a.y - b.y;
    let dz = a.z - b.z;
    (dx * dx + dy * dy + dz * dz) as nat
}

pub open spec fn is_floor_sqrt(r: nat, x: nat) -> bool {
    r * r <= x && x < (r + 1) * (r + 1)
}

/// The floor of the square root of `x`.
pub open spec fn floor_sqrt(x: nat) -> nat {
    choose|r: nat| is_floor_sqrt(r, x)
}

/// Euclidean distance, rounded down.
pub open spec fn dist(a: FixedVec3, b: FixedVec3) -> nat {
    floor_sqrt(dist_sq(a, b))
}

/// Sum of the distances from `from` to each of `vs`.
pub open spec fn dist_sum(vs: Seq<FixedVec3>, from: FixedVec3) -> nat
    decreases vs.len(),
{
    if vs.len() == 0 {
        0
    } else {
        dist_sum(vs.drop_last(), from) + dist(from, vs.last())
    }
}

/// The first vertex, or the origin for no vertices.
pub open spec fn first_vert_of(vs: Seq<FixedVec3>) -> FixedVec3 {
    if vs.len() == 0 {
        zero_vec()
    } else {
        vs[0]
    }
}

/// Mean distance from the first vertex to every vertex (itself included),
/// rounded down; zero for no vertices.
pub open spec fn avg_dist_of(vs: Seq<FixedVec3>) -> nat {
    if vs.len() == 0 {
        0
    } else {
        dist_sum(vs, vs[0]) / vs.len() as nat
    }
}

proof fn lemma_floor_sqrt_unique(r: nat, x: nat)
    requires
        is_floor_sqrt(r, x),
    ensures
        floor_sqrt(x) == r,
{
    let s = floor_sqrt(x);
    assert(is_floor_sqrt(s, x));
    if s < r {
        assert((s + 1) * (s + 1) <= r * r) by (nonlinear_arith)
            requires
                s < r,
        ;
    } else if r < s {
        assert((r + 1) * (r + 1) <= s * s) by (nonlinear_arith)
            requires
                r < s,
        ;
    }
}

/// Integer square root, rounded down.
pub fn floor_sqrt_u128(x: u128) -> (r: u64)
    ensures
        r == floor_sqrt(x as nat),
        is_floor_sqrt(r as nat, x as nat),
{
    let mut lo: u128 = 0;
    let mut hi: u128 = 0x1_0000_0000_0000_0000;
    assert(x < hi * hi) by (nonlinear_arith)
        requires
            hi == 0x1_0000_0000_0000_0000u128,
            x <= u128::MAX,
    ;
    while hi - lo > 1
        invariant
            lo < hi <= 0x1_0000_0000_0000_0000u128,
            lo * lo <= x,
            x < hi * hi,
        decreases hi - lo,
    {
        let mid = lo + (hi - lo) / 2;
        assert(mid * mid <= u128::MAX) by (nonlinear_arith)
            requires
                mid < 0x1_0000_0000_0000_0000u128,
        ;
        if mid * mid <= x {
            lo = mid;
        } else {
            hi = mid;
        }
    }
    proof {
        assert(hi == lo + 1);
        lemma_floor_sqrt_unique(lo as nat, x as nat);
    }
    lo as u64
}

/// `q` is the floor of `sum / n`, and lies within the range of the summands.
proof fn lemma_mean_in_range(sum: int, n: int, q: int)
    requires
        n > 0,
        q * n <= sum < q * n + n,
        -n * COORD_LIMIT <= sum <= n * COORD_LIMIT,
    ensures
        q == sum / n,
        -COORD_LIMIT <= q <= COORD_LIMIT,
{
    lemma_fundamental_div_mod_converse(sum, n, q, sum - q * n);
    assert(q <= COORD_LIMIT) by (nonlinear_arith)
        requires
            n > 0,
            q * n <= n * COORD_LIMIT,
    ;
    assert(q >= -COORD_LIMIT) by (nonlinear_arith)
        requires
            n > 0,
            -n * COORD_LIMIT < q * n + n,
    ;
}

/// Floor division of a signed sum by a positive count.
fn floor_mean(sum: i128, n: usize) -> (q: i64)
    requires
        n > 0,
        -(n as int) * COORD_LIMIT <= sum <= (n as int) * COORD_LIMIT,
    ensures
        q == sum as int / n as int,
        -COORD_LIMIT <= q <= COORD_LIMIT,
{
    let d = n as u128;
    let q: i128 = if sum >= 0 {
        let a = sum as u128;
        let q0 = a / d;
        proof {
            let ai = a as int;
            let di = d as int;
            let qi = q0 as int;
            let ri = ai % di;
            lemma_fundamental_div_mod(ai, di);
            lemma_mod_pos_bound(ai, di);
            assert(qi * di <= ai < qi * di + di) by (nonlinear_arith)
                requires
                    ai == di * qi + ri,
                    0 <= ri < di,
            ;
        }
        assert(q0 <= a);
        q0 as i128
    } else {
        let a = (-sum) as u128;
        let c = (a + d - 1) / d;
        proof {
            let ti = (a + d - 1) as int;
            let di = d as int;
            let ci = c as int;
            let ri = ti % di;
            lemma_fundamental_div_mod(ti, di);
            lemma_mod_pos_bound(ti, di);
            assert(ci * di - di < a <= ci * di) by (nonlinear_arith)
                requires
                    ti == di * ci + ri,
                    ti == a + di - 1,
                    0 <= ri < di,
            ;
        }
        assert(c <= a) by (nonlinear_arith)
            requires
                c * d - d < a,
                d >= 1,
        ;
        -(c as i128)
    };
    proof {
        assert(q * n <= sum < q * n + n) by (nonlinear_arith)
            requires
                sum >= 0 ==> q * n <= sum < q * n + n,
                sum < 0 ==> (-q) * n - n < -sum <= (-q) * n,
        ;
        lemma_mean_in_range(sum as int, n as int, q as int);
    }
    q as i64
}

/// Squared distance between two points in range.
fn dist_sq_exec(a: FixedVec3, b: FixedVec3) -> (r: u128)
    requires
        in_range(a),
        in_range(b),
    ensures
        r == dist_sq(a, b),
        r < 0x10_0000_0000_0000_0000_0000,
{
    let dx = a.x as i128 - b.x as i128;
    let dy = a.y as i128 - b.y as i128;
    let dz = a.z as i128 - b.z as i128;
    assert(dx * dx <= 0x4_0000_0000_0000_0000_0000) by (nonlinear_arith)
        requires
            -0x200_0000_0000 <= dx <= 0x200_0000_0000,
    ;
    assert(dy * dy <= 0x4_0000_0000_0000_0000_0000) by (nonlinear_arith)
        requires
            -0x200_0000_0000 <= dy <= 0x200_0000_0000,
    ;
    assert(dz * dz <= 0x4_0000_0000_0000_0000_0000) by (nonlinear_arith)
        requires
            -0x200_0000_0000 <= dz <= 0x200_0000_0000,
    ;
    assert(dx * dx >= 0 && dy * dy >= 0 && dz * dz >= 0) by (nonlinear_arith);
    (dx * dx + dy * dy + dz * dz) as u128
}

/// Floor of the distance between two points in range.
fn dist_exec(a: FixedVec3, b: FixedVec3) -> (r: u64)
    requires
        in_range(a),
        in_range(b),
    ensures
        r == dist(a, b),
        r < 0x400_0000_0000,
{
    let sq = dist_sq_exec(a, b);
    let r = floor_sqrt_u128(sq);
    proof {
        let ri = r as int;
        assert(ri < 0x400_0000_0000) by (nonlinear_arith)
            requires
                ri >= 0,
                ri * ri <= sq,
                sq < 0x10_0000_0000_0000_0000_0000,
        ;
    }
    r
}

/// The centroid of the vertices, rounded down per coordinate; the origin
/// when there are none.
pub fn get_midpoint(verts: &Vec<FixedVec3>) -> (r: FixedVec3)
    requires
        all_in_range(verts@),
    ensures
        r == midpoint_of(verts@),
        in_range(r),
{
    let n = verts.len();
    if n == 0 {
        return FixedVec3 { x: 0, y: 0, z: 0 };
    }
    let mut sx: i128 = 0;
    let mut sy: i128 = 0;
    let mut sz: i128 = 0;
    let mut i: usize = 0;
    while i < n
        invariant
            n == verts.len(),
            all_in_range(verts@),
            i <= n,
            sx == axis_sum(verts@.take(i as int), 0),
            sy == axis_sum(verts@.take(i as int), 1),
            sz == axis_sum(verts@.take(i as int), 2),
            -(i as int) * COORD_LIMIT <= sx <= (i as int) * COORD_LIMIT,
            -(i as int) * COORD_LIMIT <= sy <= (i as int) * COORD_LIMIT,
            -(i as int) * COORD_LIMIT <= sz <= (i as int) * COORD_LIMIT,
        decreases n - i,
    {
        let v = verts[i];
        proof {
            assert(in_range(verts@[i as int]));
            assert(verts@.take(i as int + 1).drop_last() =~= verts@.take(i as int));
            assert(verts@.take(i as int + 1).last() == v);
        }
        sx = sx + v.x as i128;
        sy = sy + v.y as i128;
        sz = sz + v.z as i128;
        i += 1;
    }
    proof {
        assert(verts@.take(n as int) =~= verts@);
    }
    FixedVec3 { x: floor_mean(sx, n), y: floor_mean(sy, n), z: floor_mean(sz, n) }
}

/// The first vertex (the origin when there are none), and the mean distance
/// from it to every vertex, rounded down (zero when there are none).
pub fn avg_distances_from_first_vert(verts: &Vec<FixedVec3>) -> (r: (FixedVec3, u64))
    requires
        all_in_range(verts@),
    ensures
        r.0 == first_vert_of(verts@),
        r.1 == avg_dist_of(verts@),
        in_range(r.0),
{
    let n = verts.len();
    if n == 0 {
        return (FixedVec3 { x: 0, y: 0, z: 0 }, 0);
    }
    let first = verts[0];
    assert(in_range(verts@[0]));
    let mut sum: u128 = 0;
    let mut i: usize = 0;
    while i < n
        invariant
            n == verts.len(),
            n > 0,
            first == verts@[0],
            in_range(first),
            all_in_range(verts@),
            i <= n,
            sum == dist_sum(verts@.take(i as int), first),
            sum <= (i as int) * 0x400_0000_0000,
        decreases n - i,
    {
        let v = verts[i];
        proof {
            assert(in_range(verts@[i as int]));
            assert(verts@.take(i as int + 1).drop_last() =~= verts@.take(i as int));
            assert(verts@.take(i as int + 1).last() == v);
        }
        let d = dist_exec(first, v);
        sum = sum + d as u128;
        i += 1;
    }
    proof {
        assert(verts@.take(n as int) =~= verts@);
    }
    let avg = sum / (n as u128);
    proof {
        let si = sum as int;
        let ni = n as int;
        let ai = avg as int;
        lemma_fundamental_div_mod(si, ni);
        lemma_mod_pos_bound(si, ni);
        assert(ai <= 0x400_0000_0000) by (nonlinear_arith)
            requires
                si == ni * ai + si % ni,
                si % ni >= 0,
                si <= ni * 0x400_0000_0000,
                ni > 0,
        ;
    }
    (first, avg as u64)
}

} // verus!
