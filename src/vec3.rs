//! Three-dimensional vectors of fixed-point coordinates, used as points,
//! directions and colors.
use vstd::prelude::*;
use vstd::arithmetic::div_mod::lemma_div_is_ordered;
use crate::fixed::{
    fmul, fmul_spec, lemma_const_products, isqrt, is_isqrt, floor_div, lemma_div_within, LIMIT, ONE,
};

verus! {

#[derive(Clone, Copy, Debug, PartialEq, Eq, Structural)]
pub struct Vec3 {
    pub x: i64,
    pub y: i64,
    pub z: i64,
}

pub type Point3 = Vec3;

pub type Color = Vec3;

/// Every coordinate of `v` lies in `[-m, m]`.
pub open spec fn bounded(v: Vec3, m: int) -> bool {
    -m <= v.x <= m && -m <= v.y <= m && -m <= v.z <= m
}

/// Exact dot product of the raw coordinates (scaled by `ONE * ONE`).
pub open spec fn dot_spec(a: Vec3, b: Vec3) -> int {
    a.x * b.x + a.y * b.y + a.z * b.z
}

/// The unique floor square root of a non-negative integer.
pub open spec fn sqrt_floor(n: int) -> int {
    choose|r: int| is_isqrt(n, r)
}

/// Raw length of `v`: the floor of its Euclidean length, in fixed point.
pub open spec fn length_spec(v: Vec3) -> int {
    sqrt_floor(dot_spec(v, v))
}

/// `v` scaled to unit length: each coordinate times `ONE` over the length, rounded down.
pub open spec fn unit_spec(v: Vec3) -> Vec3 {
    let l = length_spec(v);
    Vec3 { x: ((v.x * ONE) / l) as i64, y: ((v.y * ONE) / l) as i64, z: ((v.z * ONE) / l) as i64 }
}

/// The vector pointing the opposite way.
pub open spec fn negated(v: Vec3) -> Vec3 {
    Vec3 { x: -v.x as i64, y: -v.y as i64, z: -v.z as i64 }
}

/// Whether every coordinate of `v` lies in `[-m, m]`.
pub fn within(v: &Vec3, m: i64) -> (r: bool)
    requires
        m >= 0,
    ensures
        r == bounded(*v, m as int),
{
    -m <= v.x && v.x <= m && -m <= v.y && v.y <= m && -m <= v.z && v.z <= m
}

/// Fixed-point value of a dot product, rounded down.
pub open spec fn dot_fixed(a: Vec3, b: Vec3) -> int {
    dot_spec(a, b) / (ONE as int)
}

/// The mirror image of `v` about the plane with normal `n`: `v - 2 (v . n) n`.
pub open spec fn reflect_spec(v: Vec3, n: Vec3) -> Vec3 {
    let d = dot_fixed(v, n);
    Vec3 {
        x: (v.x - 2 * fmul_spec(d, n.x as int)) as i64,
        y: (v.y - 2 * fmul_spec(d, n.y as int)) as i64,
        z: (v.z - 2 * fmul_spec(d, n.z as int)) as i64,
    }
}

/// `t * v`, coordinate by coordinate, rounded down.
pub open spec fn scale_spec(t: int, v: Vec3) -> Vec3 {
    Vec3 {
        x: fmul_spec(t, v.x as int) as i64,
        y: fmul_spec(t, v.y as int) as i64,
        z: fmul_spec(t, v.z as int) as i64,
    }
}

pub open spec fn diff_spec(a: Vec3, b: Vec3) -> Vec3 {
    Vec3 { x: (a.x - b.x) as i64, y: (a.y - b.y) as i64, z: (a.z - b.z) as i64 }
}

pub open spec fn sum_spec(a: Vec3, b: Vec3) -> Vec3 {
    Vec3 { x: (a.x + b.x) as i64, y: (a.y + b.y) as i64, z: (a.z + b.z) as i64 }
}

/// Cosine of the angle between `-uv` and `n`, kept within `[-1, 1]` against rounding.
pub open spec fn cos_incidence(uv: Vec3, n: Vec3) -> int {
    let c = dot_fixed(negated(uv), n);
    if c > ONE {
        ONE as int
    } else if c < -ONE {
        -ONE as int
    } else {
        c
    }
}

/// The clamped cosine of the angle between `-uv` and the unit normal `n`.
pub fn cos_theta(uv: Vec3, n: Vec3) -> (c: i64)
    requires
        bounded(uv, ONE as int),
        bounded(n, ONE as int),
    ensures
        c == cos_incidence(uv, n),
        -ONE <= c <= ONE,
{
    proof {
        lemma_const_products();
    }
    let m = uv.neg();
    proof {
        lemma_fmul_within(m.x as int, n.x as int, 1, 1);
        lemma_fmul_within(m.y as int, n.y as int, 1, 1);
        lemma_fmul_within(m.z as int, n.z as int, 1, 1);
        lemma_div_within(dot_spec(m, n), ONE as int, 3 * ONE);
    }
    let d = floor_div(dot(&m, &n), ONE as i128);
    if d > ONE as i128 {
        ONE
    } else if d < -ONE as i128 {
        -ONE
    } else {
        d as i64
    }
}

/// Direction of the ray refracted through a surface with normal `n`, where `ratio` is the
/// quotient of the refractive indices: the part perpendicular to the normal is
/// `ratio (uv + cos n)`, and the part along it completes a unit length.
pub open spec fn refract_spec(uv: Vec3, n: Vec3, ratio: int) -> Vec3 {
    let perp = scale_spec(ratio, sum_spec(uv, scale_spec(cos_incidence(uv, n), n)));
    let rest = (ONE as int) * (ONE as int) - dot_spec(perp, perp);
    let along = sqrt_floor(if rest < 0 { -rest } else { rest });
    sum_spec(perp, negated(scale_spec(along, n)))
}

/// Every non-negative integer has a floor square root, so `sqrt_floor` gives it.
pub proof fn lemma_sqrt_floor_exists(n: int)
    requires
        n >= 0,
    ensures
        is_isqrt(n, sqrt_floor(n)),
    decreases n,
{
    if n == 0 {
        assert(is_isqrt(0, 0));
    } else {
        lemma_sqrt_floor_exists(n - 1);
        let r = sqrt_floor(n - 1);
        if (r + 1) * (r + 1) <= n {
            assert(n < (r + 2) * (r + 2)) by (nonlinear_arith)
                requires
                    (r + 1) * (r + 1) == n,
                    r >= 0,
            ;
            assert(is_isqrt(n, r + 1));
        } else {
            assert(is_isqrt(n, r));
        }
    }
}

pub proof fn lemma_isqrt_unique(n: int, r: int)
    requires
        is_isqrt(n, r),
    ensures
        sqrt_floor(n) == r,
{
    let s = sqrt_floor(n);
    assert(is_isqrt(n, s));
    if s < r {
        assert((s + 1) * (s + 1) <= r * r) by (nonlinear_arith)
            requires
                0 <= s < r,
        ;
    } else if r < s {
        assert((r + 1) * (r + 1) <= s * s) by (nonlinear_arith)
            requires
                0 <= r < s,
        ;
    }
}

/// Bounds on a product of bounded factors, and on its fixed-point value.
pub proof fn lemma_product_within(a: int, b: int, ma: int, mb: int)
    requires
        0 <= ma,
        0 <= mb,
        -ma <= a <= ma,
        -mb <= b <= mb,
    ensures
        -(ma * mb) <= a * b <= ma * mb,
        (-(ma * mb)) / (ONE as int) <= fmul_spec(a, b) <= (ma * mb) / (ONE as int),
{
    lemma_const_products();
    assert(-(ma * mb) <= a * b <= ma * mb) by (nonlinear_arith)
        requires
            0 <= ma,
            0 <= mb,
            -ma <= a <= ma,
            -mb <= b <= mb,
    ;
    lemma_div_is_ordered(a * b, ma * mb, ONE as int);
    lemma_div_is_ordered(-(ma * mb), a * b, ONE as int);
}

/// Bounds on a product of factors bounded by multiples `ka` and `kb` of one.
pub proof fn lemma_fmul_within(a: int, b: int, ka: int, kb: int)
    requires
        0 <= ka,
        0 <= kb,
        -ka * ONE <= a <= ka * ONE,
        -kb * ONE <= b <= kb * ONE,
    ensures
        -(ka * kb * 0x1_0000_0000) <= a * b <= ka * kb * 0x1_0000_0000,
        -(ka * kb * ONE) <= fmul_spec(a, b) <= ka * kb * ONE,
{
    assert(-(ka * kb * 0x1_0000_0000) <= a * b <= ka * kb * 0x1_0000_0000) by (nonlinear_arith)
        requires
            ONE == 65536,
            0 <= ka,
            0 <= kb,
            -ka * ONE <= a <= ka * ONE,
            -kb * ONE <= b <= kb * ONE,
    ;
    assert((ka * kb * ONE) * ONE == ka * kb * 0x1_0000_0000) by (nonlinear_arith)
        requires
            ONE == 65536,
    ;
    lemma_div_within(a * b, ONE as int, ka * kb * ONE);
}

/// A coordinate is no longer than the vector it belongs to.
pub proof fn lemma_coord_within_length(c: int, n: int, l: int)
    requires
        is_isqrt(n, l),
        c * c <= n,
    ensures
        -l <= c <= l,
{
    if c > l {
        assert((l + 1) * (l + 1) <= c * c) by (nonlinear_arith)
            requires
                0 <= l < c,
        ;
    } else if c < -l {
        assert((l + 1) * (l + 1) <= c * c) by (nonlinear_arith)
            requires
                0 <= l,
                c < -l,
        ;
    }
}

proof fn lemma_dot_self_bound(v: Vec3, m: int)
    requires
        0 <= m,
        bounded(v, m),
    ensures
        0 <= dot_spec(v, v) <= 3 * (m * m),
        v.x * v.x <= dot_spec(v, v),
        v.y * v.y <= dot_spec(v, v),
        v.z * v.z <= dot_spec(v, v),
{
    let (x, y, z) = (v.x as int, v.y as int, v.z as int);
    assert(0 <= x * x <= m * m) by (nonlinear_arith)
        requires
            -m <= x <= m,
    ;
    assert(0 <= y * y <= m * m) by (nonlinear_arith)
        requires
            -m <= y <= m,
    ;
    assert(0 <= z * z <= m * m) by (nonlinear_arith)
        requires
            -m <= z <= m,
    ;
}

impl Vec3 {
    pub fn new(x: i64, y: i64, z: i64) -> (r: Vec3)
        ensures
            r == (Vec3 { x, y, z }),
    {
        Vec3 { x, y, z }
    }

    pub fn x(&self) -> (r: i64)
        ensures
            r == self.x,
    {
        self.x
    }

    pub fn y(&self) -> (r: i64)
        ensures
            r == self.y,
    {
        self.y
    }

    pub fn z(&self) -> (r: i64)
        ensures
            r == self.z,
    {
        self.z
    }
}

impl Vec3 {
    pub fn add(self, b: Vec3) -> (r: Vec3)
        requires
            bounded(self, 4 * LIMIT),
            bounded(b, 4 * LIMIT),
        ensures
            r.x == self.x + b.x,
            r.y == self.y + b.y,
            r.z == self.z + b.z,
    {
        Vec3 { x: self.x + b.x, y: self.y + b.y, z: self.z + b.z }
    }

    pub fn sub(self, b: Vec3) -> (r: Vec3)
        requires
            bounded(self, 4 * LIMIT),
            bounded(b, 4 * LIMIT),
        ensures
            r.x == self.x - b.x,
            r.y == self.y - b.y,
            r.z == self.z - b.z,
    {
        Vec3 { x: self.x - b.x, y: self.y - b.y, z: self.z - b.z }
    }

    pub fn neg(self) -> (r: Vec3)
        requires
            bounded(self, 4 * LIMIT),
        ensures
            r == negated(self),
    {
        Vec3 { x: -self.x, y: -self.y, z: -self.z }
    }

    /// The vector `v` scaled by the fixed-point factor `t`.
    pub fn scale(t: i64, v: Vec3) -> (r: Vec3)
        requires
            -LIMIT <= t <= LIMIT,
            bounded(v, LIMIT as int),
        ensures
            r.x == fmul_spec(t as int, v.x as int),
            r.y == fmul_spec(t as int, v.y as int),
            r.z == fmul_spec(t as int, v.z as int),
    {
        proof {
            lemma_const_products();
            lemma_product_within(t as int, v.x as int, LIMIT as int, LIMIT as int);
            lemma_product_within(t as int, v.y as int, LIMIT as int, LIMIT as int);
            lemma_product_within(t as int, v.z as int, LIMIT as int, LIMIT as int);
        }
        Vec3 { x: fmul(t, v.x), y: fmul(t, v.y), z: fmul(t, v.z) }
    }

    /// Component-wise product, as used to attenuate one color by another.
    pub fn mul(self, b: Vec3) -> (r: Vec3)
        requires
            bounded(self, LIMIT as int),
            bounded(b, LIMIT as int),
        ensures
            r.x == fmul_spec(self.x as int, b.x as int),
            r.y == fmul_spec(self.y as int, b.y as int),
            r.z == fmul_spec(self.z as int, b.z as int),
    {
        proof {
            lemma_const_products();
            lemma_product_within(self.x as int, b.x as int, LIMIT as int, LIMIT as int);
            lemma_product_within(self.y as int, b.y as int, LIMIT as int, LIMIT as int);
            lemma_product_within(self.z as int, b.z as int, LIMIT as int, LIMIT as int);
        }
        Vec3 { x: fmul(self.x, b.x), y: fmul(self.y, b.y), z: fmul(self.z, b.z) }
    }
}

/// Exact dot product of the raw coordinates.
pub fn dot(a: &Vec3, b: &Vec3) -> (r: i128)
    requires
        bounded(*a, 2 * LIMIT),
        bounded(*b, 2 * LIMIT),
    ensures
        r == dot_spec(*a, *b),
        -12 * (LIMIT * LIMIT) <= r <= 12 * (LIMIT * LIMIT),
{
    proof {
        lemma_const_products();
        lemma_product_within(a.x as int, b.x as int, (2 * LIMIT as int), (2 * LIMIT as int));
        lemma_product_within(a.y as int, b.y as int, (2 * LIMIT as int), (2 * LIMIT as int));
        lemma_product_within(a.z as int, b.z as int, (2 * LIMIT as int), (2 * LIMIT as int));
    }
    (a.x as i128) * (b.x as i128) + (a.y as i128) * (b.y as i128) + (a.z as i128) * (b.z as i128)
}

/// Cross product in fixed point, each product rounded down.
pub open spec fn cross_spec(u: Vec3, v: Vec3) -> Vec3 {
    Vec3 {
        x: (fmul_spec(u.y as int, v.z as int) - fmul_spec(u.z as int, v.y as int)) as i64,
        y: (fmul_spec(u.z as int, v.x as int) - fmul_spec(u.x as int, v.z as int)) as i64,
        z: (fmul_spec(u.x as int, v.y as int) - fmul_spec(u.y as int, v.x as int)) as i64,
    }
}

pub fn cross(u: &Vec3, v: &Vec3) -> (r: Vec3)
    requires
        bounded(*u, 2 * ONE),
        bounded(*v, 2 * ONE),
    ensures
        r == cross_spec(*u, *v),
        bounded(*u, ONE as int) && bounded(*v, ONE as int) ==> bounded(r, 2 * ONE),
        r.x == fmul_spec(u.y as int, v.z as int) - fmul_spec(u.z as int, v.y as int),
        r.y == fmul_spec(u.z as int, v.x as int) - fmul_spec(u.x as int, v.z as int),
        r.z == fmul_spec(u.x as int, v.y as int) - fmul_spec(u.y as int, v.x as int),
        bounded(r, 8 * ONE),
{
    proof {
        lemma_const_products();
        lemma_fmul_within(u.y as int, v.z as int, 2, 2);
        lemma_fmul_within(u.z as int, v.y as int, 2, 2);
        lemma_fmul_within(u.z as int, v.x as int, 2, 2);
        lemma_fmul_within(u.x as int, v.z as int, 2, 2);
        lemma_fmul_within(u.x as int, v.y as int, 2, 2);
        lemma_fmul_within(u.y as int, v.x as int, 2, 2);
        if bounded(*u, ONE as int) && bounded(*v, ONE as int) {
            lemma_fmul_within(u.y as int, v.z as int, 1, 1);
            lemma_fmul_within(u.z as int, v.y as int, 1, 1);
            lemma_fmul_within(u.z as int, v.x as int, 1, 1);
            lemma_fmul_within(u.x as int, v.z as int, 1, 1);
            lemma_fmul_within(u.x as int, v.y as int, 1, 1);
            lemma_fmul_within(u.y as int, v.x as int, 1, 1);
        }
    }
    Vec3 {
        x: fmul(u.y, v.z) - fmul(u.z, v.y),
        y: fmul(u.z, v.x) - fmul(u.x, v.z),
        z: fmul(u.x, v.y) - fmul(u.y, v.x),
    }
}

pub fn length_squared(v: &Vec3) -> (r: i128)
    requires
        bounded(*v, 2 * LIMIT),
    ensures
        r == dot_spec(*v, *v),
        0 <= r <= 12 * (LIMIT * LIMIT),
{
    proof {
        lemma_dot_self_bound(*v, 2 * LIMIT as int);
    }
    dot(v, v)
}

pub fn length(v: &Vec3) -> (r: i64)
    requires
        bounded(*v, 2 * LIMIT),
    ensures
        r == length_spec(*v),
        is_isqrt(dot_spec(*v, *v), r as int),
        0 <= r <= 4 * LIMIT,
{
    let n = length_squared(v);
    let s = isqrt(n);
    proof {
        lemma_isqrt_unique(n as int, s as int);
        if s > 4 * LIMIT {
            assert((4 * LIMIT as int) * (4 * LIMIT as int) < (s as int) * (s as int))
                by (nonlinear_arith)
                requires
                    s > 4 * LIMIT,
            ;
        }
    }
    s as i64
}

/// `v` scaled to unit length; `v` must not be the zero vector.
pub fn unit_vector(v: Vec3) -> (r: Vec3)
    requires
        bounded(v, 2 * LIMIT),
        dot_spec(v, v) > 0,
    ensures
        r == unit_spec(v),
        bounded(r, ONE as int),
{
    let l = length(&v);
    proof {
        lemma_dot_self_bound(v, 2 * LIMIT as int);
        if l == 0 {
            assert(dot_spec(v, v) < 1);
        }
        let li = l as int;
        lemma_coord_within_length(v.x as int, dot_spec(v, v), li);
        lemma_coord_within_length(v.y as int, dot_spec(v, v), li);
        lemma_coord_within_length(v.z as int, dot_spec(v, v), li);
        lemma_div_within(v.x * ONE, li, ONE as int);
        lemma_div_within(v.y * ONE, li, ONE as int);
        lemma_div_within(v.z * ONE, li, ONE as int);
    }
    let li = l as i128;
    let one = ONE as i128;
    Vec3 {
        x: floor_div(v.x as i128 * one, li) as i64,
        y: floor_div(v.y as i128 * one, li) as i64,
        z: floor_div(v.z as i128 * one, li) as i64,
    }
}

/// Mirror `v` about the plane with unit normal `n`.
pub fn reflect(v: Vec3, n: Vec3) -> (r: Vec3)
    requires
        bounded(v, ONE as int),
        bounded(n, ONE as int),
    ensures
        r == reflect_spec(v, n),
        bounded(r, 7 * ONE),
{
    proof {
        lemma_const_products();
        lemma_fmul_within(v.x as int, n.x as int, 1, 1);
        lemma_fmul_within(v.y as int, n.y as int, 1, 1);
        lemma_fmul_within(v.z as int, n.z as int, 1, 1);
        lemma_div_within(dot_spec(v, n), ONE as int, 3 * ONE);
    }
    let d = floor_div(dot(&v, &n), ONE as i128) as i64;
    proof {
        lemma_const_products();
        lemma_fmul_within(d as int, n.x as int, 3, 1);
        lemma_fmul_within(d as int, n.y as int, 3, 1);
        lemma_fmul_within(d as int, n.z as int, 3, 1);
    }
    Vec3 { x: v.x - 2 * fmul(d, n.x), y: v.y - 2 * fmul(d, n.y), z: v.z - 2 * fmul(d, n.z) }
}

/// Direction of `uv` refracted through a surface with unit normal `n`, by Snell's law with
/// index ratio `ratio`.
pub fn refract(uv: Vec3, n: Vec3, ratio: i64) -> (r: Vec3)
    requires
        bounded(uv, ONE as int),
        bounded(n, ONE as int),
        0 <= ratio <= 16 * ONE,
    ensures
        r == refract_spec(uv, n, ratio as int),
        bounded(r, 256 * ONE),
{
    proof {
        lemma_const_products();
    }
    let c = cos_theta(uv, n);
    let along_n = Vec3::scale(c, n);
    proof {
        lemma_fmul_within(c as int, n.x as int, 1, 1);
        lemma_fmul_within(c as int, n.y as int, 1, 1);
        lemma_fmul_within(c as int, n.z as int, 1, 1);
    }
    let s = uv.add(along_n);
    let perp = Vec3::scale(ratio, s);
    proof {
        lemma_fmul_within(ratio as int, s.x as int, 16, 2);
        lemma_fmul_within(ratio as int, s.y as int, 16, 2);
        lemma_fmul_within(ratio as int, s.z as int, 16, 2);
        lemma_dot_self_bound(perp, 64 * ONE);
        assert((64 * ONE) * (64 * ONE) == 0x1000_0000_0000) by (nonlinear_arith)
            requires
                ONE == 65536,
        ;
    }
    let rest = (ONE as i128) * (ONE as i128) - length_squared(&perp);
    let magnitude = if rest < 0 {
        -rest
    } else {
        rest
    };
    let along = isqrt(magnitude);
    proof {
        lemma_isqrt_unique(magnitude as int, along as int);
        if along > 128 * ONE {
            assert((128 * ONE) * (128 * ONE) < along * along) by (nonlinear_arith)
                requires
                    along > 128 * ONE,
            ;
        }
        lemma_fmul_within(along as int, n.x as int, 128, 1);
        lemma_fmul_within(along as int, n.y as int, 128, 1);
        lemma_fmul_within(along as int, n.z as int, 128, 1);
    }
    let parallel = Vec3::scale(along as i64, n);
    perp.add(parallel.neg())
}

} // verus!
