//! Surface materials and how they scatter an incoming ray.
use vstd::prelude::*;
use crate::fixed::{
    fdiv_spec, floor_div, fmul, fmul_spec, isqrt, lemma_const_products, lemma_div_within, ONE,
};
use vstd::arithmetic::div_mod::lemma_div_is_ordered_by_denominator;
use crate::hit::HitRecord;
use crate::ray::Ray;
use crate::sphere::quad_a;
use crate::vec3::{
    bounded, cos_theta, dot, dot_spec, lemma_fmul_within, lemma_isqrt_unique, reflect,
    reflect_spec, refract, refract_spec, scale_spec, sqrt_floor, sum_spec, unit_spec, unit_vector,
    Color, Vec3,
};

verus! {

/// Every channel of `c` lies in `[0, ONE]`.
pub open spec fn is_albedo(c: Color) -> bool {
    0 <= c.x <= ONE && 0 <= c.y <= ONE && 0 <= c.z <= ONE
}

/// Diffuse surface.
#[derive(Clone, Copy, Debug, PartialEq, Eq, Structural)]
pub struct Lambertian {
    pub albedo: Color,
}

/// Reflective surface; `fuzz` perturbs the mirror direction.
#[derive(Clone, Copy, Debug, PartialEq, Eq, Structural)]
pub struct Metal {
    pub albedo: Color,
    pub fuzz: i64,
}

/// Transparent, refracting surface with refractive index `ir`.
#[derive(Clone, Copy, Debug, PartialEq, Eq, Structural)]
pub struct Dielectric {
    pub ir: i64,
}

#[derive(Clone, Copy, Debug, PartialEq, Eq, Structural)]
pub enum Material {
    Lambertian(Lambertian),
    Metal(Metal),
    Dielectric(Dielectric),
}

/// Smallest and largest refractive index accepted, in fixed point.
pub const MIN_IR: i64 = 4096;

pub const MAX_IR: i64 = 1048576;

impl Material {
    /// Parameters within the ranges the scattering formulas are defined on.
    pub open spec fn wf(&self) -> bool {
        match *self {
            Material::Lambertian(l) => is_albedo(l.albedo),
            Material::Metal(m) => is_albedo(m.albedo) && 0 <= m.fuzz <= ONE,
            Material::Dielectric(d) => MIN_IR <= d.ir <= MAX_IR,
        }
    }
}

/// The outcome of a scattering event: the color filter and the outgoing ray.
#[derive(Clone, Copy, Debug, PartialEq, Eq, Structural)]
pub struct ScatteredRay {
    pub attenuation: Color,
    pub scattered: Ray,
}

/// The random inputs one scattering event may draw on: a unit vector, a vector inside the
/// unit ball, and a number in `[0, 1)`.
#[derive(Clone, Copy, Debug, PartialEq, Eq, Structural)]
pub struct ScatterNoise {
    pub unit: Vec3,
    pub in_sphere: Vec3,
    pub uniform: i64,
}

impl ScatterNoise {
    pub open spec fn wf(&self) -> bool {
        &&& bounded(self.unit, ONE as int)
        &&& bounded(self.in_sphere, ONE as int)
        &&& 0 <= self.uniform < ONE
    }
}

/// Schlick's approximation of the reflectance at incidence cosine `cosine` and index
/// ratio `ref_idx`: `r0 + (1 - r0) (1 - cosine)^5` with `r0 = ((1 - ref_idx) / (1 + ref_idx))^2`.
pub open spec fn schlick_spec(cosine: int, ref_idx: int) -> int {
    let q = fdiv_spec(ONE - ref_idx, ONE + ref_idx);
    let r0 = fmul_spec(q, q);
    let x = ONE - cosine;
    let x5 = fmul_spec(fmul_spec(fmul_spec(fmul_spec(x, x), x), x), x);
    r0 + fmul_spec(ONE - r0, x5)
}

/// Sine matching a cosine: the root of `1 - cos^2`, taken as zero where that is negative.
pub open spec fn sine_of(cos_theta: int) -> int {
    let rest = (ONE as int) * (ONE as int) - cos_theta * cos_theta;
    sqrt_floor(if rest < 0 { 0 } else { rest })
}

/// Quotient of the refractive indices on the two sides of the surface the ray crosses.
pub open spec fn index_ratio(d: Dielectric, front_face: bool) -> int {
    if front_face {
        fdiv_spec(ONE as int, d.ir as int)
    } else {
        d.ir as int
    }
}

/// The ray leaves `p` in direction `dir`, filtered by `attenuation`.
pub open spec fn scattered_to(attenuation: Color, p: Vec3, dir: Vec3) -> Option<ScatteredRay> {
    Some(ScatteredRay { attenuation, scattered: Ray { origin: p, direction: dir } })
}

/// The white filter: a dielectric absorbs nothing.
pub open spec fn white() -> Color {
    Vec3 { x: ONE, y: ONE, z: ONE }
}

/// A ray entering a dielectric is reflected when refraction is impossible
/// (`ratio * sin_theta >= 1`), or when the uniform draw falls below Schlick's reflectance.
pub open spec fn dielectric_reflects(d: Dielectric, r_in: Ray, rec: HitRecord, uniform: int) -> bool {
    let ratio = index_ratio(d, rec.front_face);
    let u = unit_spec(r_in.direction);
    let cos_theta = crate::vec3::cos_incidence(u, rec.normal);
    ratio * sine_of(cos_theta) >= (ONE as int) * (ONE as int) || uniform < schlick_spec(
        cos_theta,
        ratio,
    )
}

/// What a material does with a ray that hit it, given the random inputs of the event.
pub open spec fn scatter_spec(m: Material, r_in: Ray, rec: HitRecord, noise: ScatterNoise) -> Option<
    ScatteredRay,
> {
    match m {
        Material::Lambertian(l) => scattered_to(l.albedo, rec.p, sum_spec(rec.normal, noise.unit)),
        Material::Metal(mt) => {
            let dir = sum_spec(
                reflect_spec(unit_spec(r_in.direction), rec.normal),
                scale_spec(mt.fuzz as int, noise.in_sphere),
            );
            if dot_spec(dir, rec.normal) > 0 {
                scattered_to(mt.albedo, rec.p, dir)
            } else {
                None
            }
        },
        Material::Dielectric(d) => {
            let u = unit_spec(r_in.direction);
            let ratio = index_ratio(d, rec.front_face);
            let dir = if dielectric_reflects(d, r_in, rec, noise.uniform as int) {
                reflect_spec(u, rec.normal)
            } else {
                refract_spec(u, rec.normal, ratio)
            };
            scattered_to(white(), rec.p, dir)
        },
    }
}

/// A hit point in range, with a normal within the unit cube.
pub open spec fn hit_ready(rec: HitRecord) -> bool {
    &&& bounded(rec.p, crate::fixed::LIMIT as int)
    &&& bounded(rec.normal, ONE as int)
}

/// Conditions on the incoming ray and the hit under which a material can scatter.
pub open spec fn scatter_ready(r_in: Ray, rec: HitRecord) -> bool {
    &&& r_in.wf()
    &&& quad_a(r_in) > 0
    &&& hit_ready(rec)
}

/// Schlick's approximation of the reflectance of a dielectric.
pub fn schlick(cosine: i64, ref_idx: i64) -> (r: i64)
    requires
        -ONE <= cosine <= ONE,
        MIN_IR <= ref_idx <= 16 * ONE,
    ensures
        r == schlick_spec(cosine as int, ref_idx as int),
        0 <= cosine ==> 0 <= r <= ONE,
{
    proof {
        lemma_const_products();
        lemma_div_within((ONE - ref_idx) * ONE, ONE + ref_idx, 16 * ONE);
    }
    let q = floor_div((ONE - ref_idx) as i128 * ONE as i128, (ONE + ref_idx) as i128) as i64;
    proof {
        lemma_fmul_within(q as int, q as int, 16, 16);
    }
    let r0 = fmul(q, q);
    let x = ONE - cosine;
    proof {
        lemma_fmul_within(x as int, x as int, 2, 2);
    }
    let x2 = fmul(x, x);
    proof {
        lemma_fmul_within(x2 as int, x as int, 4, 2);
    }
    let x3 = fmul(x2, x);
    proof {
        lemma_fmul_within(x3 as int, x as int, 8, 2);
    }
    let x4 = fmul(x3, x);
    proof {
        lemma_fmul_within(x4 as int, x as int, 16, 2);
    }
    let x5 = fmul(x4, x);
    proof {
        lemma_fmul_within((ONE - r0) as int, x5 as int, 257, 32);
        if 0 <= cosine {
            let n = (ONE - ref_idx) * ONE;
            let d = ONE + ref_idx;
            assert(-(ONE * d) <= n <= ONE * d) by (nonlinear_arith)
                requires
                    ONE == 65536,
                    ref_idx >= 0,
                    n == (ONE - ref_idx) * ONE,
                    d == ONE + ref_idx,
            ;
            lemma_div_within(n, d, ONE as int);
            assert(q * q >= 0) by (nonlinear_arith);
            vstd::arithmetic::div_mod::lemma_div_is_ordered(0, q * q, ONE as int);
            lemma_fmul_within(q as int, q as int, 1, 1);
            crate::render::lemma_unit_product(x as int, x as int);
            crate::render::lemma_unit_product(x2 as int, x as int);
            crate::render::lemma_unit_product(x3 as int, x as int);
            crate::render::lemma_unit_product(x4 as int, x as int);
            crate::render::lemma_unit_product((ONE - r0) as int, x5 as int);
        }
    }
    r0 + fmul(ONE - r0, x5)
}

impl Lambertian {
    /// Scatters toward the normal plus a random unit vector, filtered by the albedo.
    pub fn scatter(&self, r_in: &Ray, rec: &HitRecord, noise: &ScatterNoise) -> (res: Option<
        ScatteredRay,
    >)
        requires
            hit_ready(*rec),
            noise.wf(),
        ensures
            res == scatter_spec(Material::Lambertian(*self), *r_in, *rec, *noise),
            res matches Some(s) ==> s.attenuation == self.albedo && s.scattered.wf(),
    {
        let direction = rec.normal.add(noise.unit);
        Some(ScatteredRay { attenuation: self.albedo, scattered: Ray::new(rec.p, direction) })
    }
}

impl Metal {
    /// Scatters along the mirror direction perturbed by `fuzz`, unless that leads into
    /// the surface.
    pub fn scatter(&self, r_in: &Ray, rec: &HitRecord, noise: &ScatterNoise) -> (res: Option<
        ScatteredRay,
    >)
        requires
            scatter_ready(*r_in, *rec),
            0 <= self.fuzz <= ONE,
            noise.wf(),
        ensures
            res == scatter_spec(Material::Metal(*self), *r_in, *rec, *noise),
            res matches Some(s) ==> s.attenuation == self.albedo && s.scattered.wf(),
    {
        let reflected = reflect(unit_vector(r_in.direction), rec.normal);
        let jitter = Vec3::scale(self.fuzz, noise.in_sphere);
        proof {
            lemma_const_products();
            lemma_fmul_within(self.fuzz as int, noise.in_sphere.x as int, 1, 1);
            lemma_fmul_within(self.fuzz as int, noise.in_sphere.y as int, 1, 1);
            lemma_fmul_within(self.fuzz as int, noise.in_sphere.z as int, 1, 1);
        }
        let direction = reflected.add(jitter);
        if dot(&direction, &rec.normal) > 0 {
            Some(ScatteredRay { attenuation: self.albedo, scattered: Ray::new(rec.p, direction) })
        } else {
            None
        }
    }
}

impl Dielectric {
    /// Reflects or refracts, never absorbing: reflection where refraction is impossible,
    /// and otherwise with the probability Schlick's approximation gives.
    pub fn scatter(&self, r_in: &Ray, rec: &HitRecord, noise: &ScatterNoise) -> (res: Option<
        ScatteredRay,
    >)
        requires
            scatter_ready(*r_in, *rec),
            MIN_IR <= self.ir <= MAX_IR,
            noise.wf(),
        ensures
            res == scatter_spec(Material::Dielectric(*self), *r_in, *rec, *noise),
            res matches Some(s) ==> s.scattered.wf(),
    {
        proof {
            lemma_const_products();
            lemma_div_is_ordered_by_denominator((ONE as int) * (ONE as int), MIN_IR as int, self.ir as int);
            lemma_div_is_ordered_by_denominator((ONE as int) * (ONE as int), self.ir as int, MAX_IR as int);
        }
        let etai_over_etat: i64 = if rec.front_face {
            floor_div(ONE as i128 * ONE as i128, self.ir as i128) as i64
        } else {
            self.ir
        };
        let unit_direction = unit_vector(r_in.direction);
        let cos_theta = cos_theta(unit_direction, rec.normal);
        proof {
            lemma_fmul_within(cos_theta as int, cos_theta as int, 1, 1);
            assert(cos_theta * cos_theta >= 0) by (nonlinear_arith);
        }
        let rest = (ONE as i128) * (ONE as i128) - (cos_theta as i128) * (cos_theta as i128);
        let sin_theta = isqrt(
            if rest < 0 {
                0
            } else {
                rest
            },
        );
        proof {
            lemma_isqrt_unique(if rest < 0 { 0 } else { rest as int }, sin_theta as int);
            if sin_theta > ONE {
                assert((ONE as int) * (ONE as int) < sin_theta * sin_theta) by (nonlinear_arith)
                    requires
                        sin_theta > ONE,
                        ONE == 65536,
                ;
            }
            assert(0x1_0000_0000int / (MIN_IR as int) == 16 * ONE);
            assert(0x1_0000_0000int / (MAX_IR as int) >= 0);
            lemma_fmul_within(etai_over_etat as int, sin_theta as int, 16, 1);
        }
        let reflected = reflect(unit_direction, rec.normal);
        let attenuation = Vec3::new(ONE, ONE, ONE);
        if (etai_over_etat as i128) * (sin_theta as i128) >= (ONE as i128) * (ONE as i128) {
            return Some(ScatteredRay { attenuation, scattered: Ray::new(rec.p, reflected) });
        }
        if noise.uniform < schlick(cos_theta, etai_over_etat) {
            return Some(ScatteredRay { attenuation, scattered: Ray::new(rec.p, reflected) });
        }
        let refracted = refract(unit_direction, rec.normal, etai_over_etat);
        Some(ScatteredRay { attenuation, scattered: Ray::new(rec.p, refracted) })
    }
}

impl Material {
    /// The scattering of a ray that hit a surface of this material.
    pub fn scatter(&self, r_in: &Ray, rec: &HitRecord, noise: &ScatterNoise) -> (res: Option<
        ScatteredRay,
    >)
        requires
            self.wf(),
            scatter_ready(*r_in, *rec),
            noise.wf(),
        ensures
            res == scatter_spec(*self, *r_in, *rec, *noise),
            res matches Some(s) ==> s.scattered.wf() && is_albedo(s.attenuation),
    {
        match self {
            Material::Lambertian(l) => l.scatter(r_in, rec, noise),
            Material::Metal(m) => m.scatter(r_in, rec, noise),
            Material::Dielectric(d) => d.scatter(r_in, rec, noise),
        }
    }
}

} // verus!

verus! {

/// No energy gain: a diffuse or metal surface passes on, in each channel, no more than its
/// albedo.
pub proof fn lemma_no_energy_gain(m: Material, r_in: Ray, rec: HitRecord, noise: ScatterNoise)
    ensures
        scatter_spec(m, r_in, rec, noise) matches Some(s) ==> match m {
            Material::Lambertian(l) => s.attenuation.x <= l.albedo.x && s.attenuation.y
                <= l.albedo.y && s.attenuation.z <= l.albedo.z,
            Material::Metal(mt) => s.attenuation.x <= mt.albedo.x && s.attenuation.y
                <= mt.albedo.y && s.attenuation.z <= mt.albedo.z,
            Material::Dielectric(_) => s.attenuation == white(),
        },
{
}

/// At the limit of total internal reflection, `ratio * sin_theta == 1`, a dielectric
/// reflects whatever the random draw.
pub proof fn lemma_critical_angle_reflects(
    d: Dielectric,
    r_in: Ray,
    rec: HitRecord,
    noise: ScatterNoise,
)
    requires
        ({
            let cos_theta = crate::vec3::cos_incidence(unit_spec(r_in.direction), rec.normal);
            index_ratio(d, rec.front_face) * sine_of(cos_theta) == (ONE as int) * (ONE as int)
        }),
    ensures
        scatter_spec(Material::Dielectric(d), r_in, rec, noise) == scattered_to(
            white(),
            rec.p,
            reflect_spec(unit_spec(r_in.direction), rec.normal),
        ),
{
}

} // verus!
