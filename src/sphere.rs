//! Spheres and the analytic ray-sphere intersection.
use vstd::prelude::*;
use crate::fixed::{floor_div, isqrt, lemma_const_products, LIMIT, ONE};
use crate::hit::{faces_front, HitRecord};
use crate::material::Material;
use crate::ray::{point_at, Ray};
use crate::vec3::{
    bounded, dot, dot_spec, length_squared, lemma_isqrt_unique, lemma_product_within,
    negated, sqrt_floor, unit_spec, unit_vector, within, Point3, Vec3,
};

verus! {

#[derive(Clone, Copy, Debug, PartialEq, Eq, Structural)]
pub struct Sphere {
    pub center: Point3,
    pub radius: i64,
    pub mat: Material,
}

/// Offset from the sphere's center to the ray's origin.
pub open spec fn center_offset(s: Sphere, r: Ray) -> Vec3 {
    Vec3 {
        x: (r.origin.x - s.center.x) as i64,
        y: (r.origin.y - s.center.y) as i64,
        z: (r.origin.z - s.center.z) as i64,
    }
}

/// Coefficient `a` of the quadratic `a t^2 + 2 half_b t + c = 0` in the hit parameter.
pub open spec fn quad_a(r: Ray) -> int {
    dot_spec(r.direction, r.direction)
}

pub open spec fn quad_half_b(s: Sphere, r: Ray) -> int {
    dot_spec(center_offset(s, r), r.direction)
}

pub open spec fn quad_c(s: Sphere, r: Ray) -> int {
    dot_spec(center_offset(s, r), center_offset(s, r)) - s.radius * s.radius
}

pub open spec fn discriminant(s: Sphere, r: Ray) -> int {
    quad_half_b(s, r) * quad_half_b(s, r) - quad_a(r) * quad_c(s, r)
}

/// The smaller root, in fixed point, rounded down.
pub open spec fn near_root(s: Sphere, r: Ray) -> int {
    ((-quad_half_b(s, r) - sqrt_floor(discriminant(s, r))) * ONE) / quad_a(r)
}

/// The larger root, in fixed point, rounded down.
pub open spec fn far_root(s: Sphere, r: Ray) -> int {
    ((-quad_half_b(s, r) + sqrt_floor(discriminant(s, r))) * ONE) / quad_a(r)
}

pub open spec fn in_range(t: int, t_min: int, t_max: int) -> bool {
    t_min < t <= t_max
}

/// The root a hit is reported at: the near one if it lies in range, else the far one if
/// that does, else none.
pub open spec fn chosen_root(s: Sphere, r: Ray, t_min: int, t_max: int) -> Option<int> {
    if quad_a(r) == 0 || discriminant(s, r) < 0 {
        None
    } else if in_range(near_root(s, r), t_min, t_max) {
        Some(near_root(s, r))
    } else if in_range(far_root(s, r), t_min, t_max) {
        Some(far_root(s, r))
    } else {
        None
    }
}

/// The outward unit normal at `p`: the direction from the center to `p`, reversed for a
/// negative radius.
pub open spec fn outward_normal(s: Sphere, p: Vec3) -> Vec3 {
    let u = unit_spec(
        Vec3 {
            x: (p.x - s.center.x) as i64,
            y: (p.y - s.center.y) as i64,
            z: (p.z - s.center.z) as i64,
        },
    );
    if s.radius > 0 {
        u
    } else {
        negated(u)
    }
}

/// What a ray meets of the sphere for parameters in `(t_min, t_max]`. A hit point outside
/// the representable range, or at the center itself, counts as no hit.
pub open spec fn sphere_hit_spec(s: Sphere, r: Ray, t_min: int, t_max: int) -> Option<HitRecord> {
    match chosen_root(s, r, t_min, t_max) {
        None => None,
        Some(t) => {
            let (px, py, pz) = point_at(r, t);
            let p = Vec3 { x: px as i64, y: py as i64, z: pz as i64 };
            let v = Vec3 {
                x: (px - s.center.x) as i64,
                y: (py - s.center.y) as i64,
                z: (pz - s.center.z) as i64,
            };
            if !(-LIMIT <= px <= LIMIT && -LIMIT <= py <= LIMIT && -LIMIT <= pz <= LIMIT) {
                None
            } else if dot_spec(v, v) == 0 {
                None
            } else {
                let outward = outward_normal(s, p);
                let front = faces_front(r, outward);
                Some(
                    HitRecord {
                        p,
                        normal: if front {
                            outward
                        } else {
                            negated(outward)
                        },
                        mat: s.mat,
                        t: t as i64,
                        front_face: front,
                    },
                )
            }
        },
    }
}

impl HitRecord {
    /// A record of a hit in `(t_min, t_max]`, with a unit normal facing the ray.
    pub open spec fn wf(&self, r: Ray, t_min: int, t_max: int) -> bool {
        &&& bounded(self.p, LIMIT as int)
        &&& bounded(self.normal, ONE as int)
        &&& t_min < self.t <= t_max
        &&& dot_spec(r.direction, self.normal) <= 0
        &&& self.mat.wf()
    }
}

impl Sphere {
    pub open spec fn wf(&self) -> bool {
        &&& bounded(self.center, LIMIT as int)
        &&& -LIMIT <= self.radius <= LIMIT
        &&& self.radius != 0
        &&& self.mat.wf()
    }

    pub fn new(center: Point3, radius: i64, mat: Material) -> (s: Sphere)
        ensures
            s == (Sphere { center, radius, mat }),
    {
        Sphere { center, radius, mat }
    }

    /// The intersection of `r` with this sphere at a parameter in `(t_min, t_max]`,
    /// preferring the nearer root.
    pub fn hit(&self, r: &Ray, t_min: i64, t_max: i64) -> (res: Option<HitRecord>)
        requires
            self.wf(),
            r.wf(),
            0 <= t_min <= t_max <= LIMIT,
        ensures
            res == sphere_hit_spec(*self, *r, t_min as int, t_max as int),
            res matches Some(h) ==> h.wf(*r, t_min as int, t_max as int),
    {
        let oc = r.origin.sub(self.center);
        assert(oc == center_offset(*self, *r));
        let a = length_squared(&r.direction);
        let half_b = dot(&oc, &r.direction);
        proof {
            lemma_const_products();
            lemma_product_within(self.radius as int, self.radius as int, LIMIT as int, LIMIT as int);
        }
        let c = length_squared(&oc) - (self.radius as i128) * (self.radius as i128);
        let big: i128 = 0x1000_0000_0000_0000;
        proof {
            lemma_product_within(half_b as int, half_b as int, big as int, big as int);
            lemma_product_within(a as int, c as int, big as int, big as int);
        }
        let discriminant = half_b * half_b - a * c;
        if a == 0 || discriminant < 0 {
            return None;
        }
        let sqrtd = isqrt(discriminant);
        proof {
            lemma_isqrt_unique(discriminant as int, sqrtd as int);
            if sqrtd >= 0x2000_0000_0000_0000 {
                assert(sqrtd * sqrtd >= 0x2000_0000_0000_0000int * 0x2000_0000_0000_0000int)
                    by (nonlinear_arith)
                    requires
                        sqrtd >= 0x2000_0000_0000_0000int,
                ;
            }
        }
        let one = ONE as i128;
        let mut root = floor_div((-half_b - sqrtd) * one, a);
        if root <= t_min as i128 || (t_max as i128) < root {
            root = floor_div((-half_b + sqrtd) * one, a);
            if root <= t_min as i128 || (t_max as i128) < root {
                return None;
            }
        }
        let t = root as i64;
        let p = r.at(t);
        if !within(&p, LIMIT) {
            return None;
        }
        let v = p.sub(self.center);
        if length_squared(&v) == 0 {
            return None;
        }
        let u = unit_vector(v);
        let outward = if self.radius > 0 {
            u
        } else {
            u.neg()
        };
        let mut rec = HitRecord { p, normal: outward, mat: self.mat, t, front_face: false };
        rec.set_face_normal(r, outward);
        Some(rec)
    }
}

} // verus!

verus! {

/// A hit is reported at a parameter in `(t_min, t_max]`.
pub proof fn lemma_sphere_hit_in_range(s: Sphere, r: Ray, t_min: int, t_max: int)
    requires
        0 <= t_min,
        t_max <= LIMIT,
    ensures
        sphere_hit_spec(s, r, t_min, t_max) matches Some(h) ==> t_min < h.t <= t_max,
{
}

/// Narrowing `t_max` down to no less than a reported hit keeps that hit.
pub proof fn lemma_hit_narrowed(s: Sphere, r: Ray, t_min: int, t_max: int, bound: int)
    requires
        0 <= t_min,
        t_max <= LIMIT,
        sphere_hit_spec(s, r, t_min, t_max) matches Some(h) && h.t <= bound,
        bound <= t_max,
    ensures
        sphere_hit_spec(s, r, t_min, bound) == sphere_hit_spec(s, r, t_min, t_max),
{
}

/// What a ray meets first among the spheres of `world`: each sphere is asked in turn with
/// `t_max` narrowed to the nearest hit found so far, and a sphere that reports a hit
/// under that bound takes its place.
pub open spec fn scene_hit_spec(world: Seq<Sphere>, r: Ray, t_min: int, t_max: int) -> Option<
    HitRecord,
>
    decreases world.len(),
{
    if world.len() == 0 {
        None
    } else {
        let prev = scene_hit_spec(world.drop_last(), r, t_min, t_max);
        let bound = match prev {
            Some(h) => h.t as int,
            None => t_max,
        };
        match sphere_hit_spec(world.last(), r, t_min, bound) {
            Some(h) => Some(h),
            None => prev,
        }
    }
}

/// The scene's hit lies in `(t_min, t_max]`.
pub proof fn lemma_scene_hit_in_range(world: Seq<Sphere>, r: Ray, t_min: int, t_max: int)
    requires
        0 <= t_min <= t_max <= LIMIT,
    ensures
        scene_hit_spec(world, r, t_min, t_max) matches Some(h) ==> t_min < h.t <= t_max,
    decreases world.len(),
{
    if world.len() > 0 {
        lemma_scene_hit_in_range(world.drop_last(), r, t_min, t_max);
        let prev = scene_hit_spec(world.drop_last(), r, t_min, t_max);
        let bound = match prev {
            Some(h) => h.t as int,
            None => t_max,
        };
        lemma_sphere_hit_in_range(world.last(), r, t_min, bound);
    }
}

/// The nearest surface wins: whenever some sphere of the scene is hit at `t`, the scene
/// reports a hit at a parameter no greater than `t`.
pub proof fn lemma_scene_hit_nearest(world: Seq<Sphere>, r: Ray, t_min: int, t_max: int, i: int)
    requires
        0 <= t_min <= t_max <= LIMIT,
        0 <= i < world.len(),
        sphere_hit_spec(world[i], r, t_min, t_max) is Some,
    ensures
        scene_hit_spec(world, r, t_min, t_max) matches Some(g) && g.t <= sphere_hit_spec(
            world[i],
            r,
            t_min,
            t_max,
        )->Some_0.t,
    decreases world.len(),
{
    let h = sphere_hit_spec(world[i], r, t_min, t_max)->Some_0;
    let prev = scene_hit_spec(world.drop_last(), r, t_min, t_max);
    lemma_scene_hit_in_range(world.drop_last(), r, t_min, t_max);
    let bound = match prev {
        Some(g) => g.t as int,
        None => t_max,
    };
    lemma_sphere_hit_in_range(world.last(), r, t_min, bound);
    lemma_sphere_hit_in_range(world[i], r, t_min, t_max);
    if i < world.len() - 1 {
        assert(world.drop_last()[i] == world[i]);
        lemma_scene_hit_nearest(world.drop_last(), r, t_min, t_max, i);
    } else if bound >= h.t {
        lemma_hit_narrowed(world[i], r, t_min, t_max, bound);
    }
}

/// The nearest hit of `r` among the spheres of `world` at a parameter in `(t_min, t_max]`.
pub fn hit_world(world: &Vec<Sphere>, r: &Ray, t_min: i64, t_max: i64) -> (res: Option<HitRecord>)
    requires
        forall|i: int| 0 <= i < world.len() ==> (#[trigger] world[i]).wf(),
        r.wf(),
        0 <= t_min <= t_max <= LIMIT,
    ensures
        res == scene_hit_spec(world@, *r, t_min as int, t_max as int),
        res matches Some(h) ==> h.wf(*r, t_min as int, t_max as int),
{
    let mut best: Option<HitRecord> = None;
    let mut i: usize = 0;
    while i < world.len()
        invariant
            forall|k: int| 0 <= k < world.len() ==> (#[trigger] world[k]).wf(),
            r.wf(),
            0 <= t_min <= t_max <= LIMIT,
            i <= world.len(),
            best == scene_hit_spec(world@.take(i as int), *r, t_min as int, t_max as int),
            best matches Some(h) ==> h.wf(*r, t_min as int, t_max as int),
        decreases world.len() - i,
    {
        let bound = match best {
            Some(h) => h.t,
            None => t_max,
        };
        let candidate = world[i].hit(r, t_min, bound);
        if candidate.is_some() {
            best = candidate;
        }
        proof {
            let next = world@.take(i + 1);
            assert(next.drop_last() =~= world@.take(i as int));
            assert(next.last() == world@[i as int]);
        }
        i += 1;
    }
    assert(world@.take(world.len() as int) =~= world@);
    best
}

} // verus!

verus! {

/// Root selection: a near root at or below `t_min` gives way to a far root in range, and when
/// neither root lies in `(t_min, t_max]` there is no hit.
pub proof fn lemma_root_selection(s: Sphere, r: Ray, t_min: int, t_max: int)
    requires
        quad_a(r) > 0,
        discriminant(s, r) >= 0,
    ensures
        near_root(s, r) <= t_min && in_range(far_root(s, r), t_min, t_max) ==> chosen_root(
            s,
            r,
            t_min,
            t_max,
        ) == Some(far_root(s, r)),
        !in_range(near_root(s, r), t_min, t_max) && !in_range(far_root(s, r), t_min, t_max)
            ==> sphere_hit_spec(s, r, t_min, t_max) is None,
{
}

} // verus!

verus! {

/// Widening `t_max` keeps a hit: a hit reported under `bound` is reported under any
/// `t_max` at or above it.
pub proof fn lemma_hit_widened(s: Sphere, r: Ray, t_min: int, bound: int, t_max: int)
    requires
        0 <= t_min,
        bound <= t_max <= LIMIT,
        sphere_hit_spec(s, r, t_min, bound) is Some,
    ensures
        sphere_hit_spec(s, r, t_min, t_max) == sphere_hit_spec(s, r, t_min, bound),
{
    assert(near_root(s, r) <= far_root(s, r)) by {
        let hb = quad_half_b(s, r);
        let sq = sqrt_floor(discriminant(s, r));
        crate::vec3::lemma_sqrt_floor_exists(discriminant(s, r));
        let d = r.direction;
        assert(d.x * d.x + d.y * d.y + d.z * d.z >= 0) by (nonlinear_arith);
        assert((-hb - sq) * ONE <= (-hb + sq) * ONE) by (nonlinear_arith)
            requires
                sq >= 0,
                ONE > 0,
        ;
        vstd::arithmetic::div_mod::lemma_div_is_ordered(
            (-hb - sq) * ONE,
            (-hb + sq) * ONE,
            quad_a(r),
        );
    }
}

/// The scene's hit is the hit of one of its spheres over the whole range `(t_min, t_max]`.
pub proof fn lemma_scene_hit_is_sphere_hit(world: Seq<Sphere>, r: Ray, t_min: int, t_max: int)
    requires
        0 <= t_min <= t_max <= LIMIT,
    ensures
        scene_hit_spec(world, r, t_min, t_max) is Some ==> exists|i: int|
            0 <= i < world.len() && sphere_hit_spec(world[i], r, t_min, t_max) == scene_hit_spec(
                world,
                r,
                t_min,
                t_max,
            ),
    decreases world.len(),
{
    if world.len() > 0 {
        let prev = scene_hit_spec(world.drop_last(), r, t_min, t_max);
        lemma_scene_hit_in_range(world.drop_last(), r, t_min, t_max);
        lemma_scene_hit_is_sphere_hit(world.drop_last(), r, t_min, t_max);
        let bound = match prev {
            Some(g) => g.t as int,
            None => t_max,
        };
        let last = world.len() - 1;
        if sphere_hit_spec(world.last(), r, t_min, bound) is Some {
            lemma_hit_widened(world.last(), r, t_min, bound, t_max);
            assert(world[last] == world.last());
        } else if prev is Some {
            let i = choose|i: int|
                0 <= i < world.drop_last().len() && sphere_hit_spec(
                    world.drop_last()[i],
                    r,
                    t_min,
                    t_max,
                ) == prev;
            assert(world[i] == world.drop_last()[i]);
        }
    }
}

} // verus!
