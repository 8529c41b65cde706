//! The recursive integrator: the color carried back along a ray.
use vstd::prelude::*;
use rand::rngs::StdRng;
use crate::fixed::{fmul, fmul_spec, lemma_const_products, LIMIT, ONE};
use crate::material::{is_albedo, scatter_spec, ScatterNoise};
use crate::camera::{camera_ray_spec, Camera};
use crate::color::{pixel_bytes, write_color};
use crate::random::{random_fraction, random_in_unit_disk, random_noise, rng_from_seed};
use crate::ray::Ray;
use crate::sphere::{hit_world, quad_a, scene_hit_spec, Sphere};
use crate::vec3::{bounded, length_squared, lemma_fmul_within, unit_spec, unit_vector, Color, Vec3};

verus! {

/// Smallest hit parameter counted, so that a scattered ray does not hit the surface it
/// leaves (about a thousandth).
pub const T_MIN: i64 = 65;

/// Color of the sky overhead; the horizon is white.
pub const SKY_R: i64 = 32768;

pub const SKY_G: i64 = 45875;

pub const SKY_B: i64 = 65536;

pub open spec fn black() -> Color {
    Vec3 { x: 0, y: 0, z: 0 }
}

/// One channel of the sky gradient at height `t`: `(1 - t) + t * sky`.
pub open spec fn blend(t: int, sky: int) -> int {
    (ONE - t) + fmul_spec(t, sky)
}

/// The light from the sky in the direction of `r`: white blended toward sky blue as the
/// direction's unit vector rises, with `t = (y + 1) / 2`.
pub open spec fn background(r: Ray) -> Color {
    let t = (unit_spec(r.direction).y + ONE) / 2;
    Vec3 {
        x: blend(t, SKY_R as int) as i64,
        y: blend(t, SKY_G as int) as i64,
        z: blend(t, SKY_B as int) as i64,
    }
}

/// Component-wise product of two colors, rounded down.
pub open spec fn attenuate(a: Color, c: Color) -> Color {
    Vec3 {
        x: fmul_spec(a.x as int, c.x as int) as i64,
        y: fmul_spec(a.y as int, c.y as int) as i64,
        z: fmul_spec(a.z as int, c.z as int) as i64,
    }
}

/// The color seen along `r` with `depth` bounces left, where bounce `i` draws on
/// `noises[i]`: black once the budget is spent or for a ray without direction; the sky
/// when the ray meets nothing; else the material's attenuation times the color along the
/// scattered ray, or black when the material absorbs the ray.
pub open spec fn color_spec(world: Seq<Sphere>, r: Ray, depth: nat, noises: Seq<ScatterNoise>) -> Color
    decreases depth,
{
    if depth == 0 || quad_a(r) == 0 {
        black()
    } else {
        match scene_hit_spec(world, r, T_MIN as int, LIMIT as int) {
            None => background(r),
            Some(h) => match scatter_spec(h.mat, r, h, noises[0]) {
                Some(s) => attenuate(
                    s.attenuation,
                    color_spec(world, s.scattered, (depth - 1) as nat, noises.drop_first()),
                ),
                None => black(),
            },
        }
    }
}

pub open spec fn scene_wf(world: Seq<Sphere>) -> bool {
    forall|i: int| 0 <= i < world.len() ==> (#[trigger] world[i]).wf()
}

/// The sky color seen along a ray that has a direction.
pub fn sky(r: &Ray) -> (c: Color)
    requires
        r.wf(),
        quad_a(*r) > 0,
    ensures
        c == background(*r),
        is_albedo(c),
{
    let u = unit_vector(r.direction);
    let t = (u.y + ONE) / 2;
    proof {
        lemma_const_products();
        lemma_fmul_within(t as int, SKY_R as int, 1, 1);
        lemma_fmul_within(t as int, SKY_G as int, 1, 1);
        lemma_fmul_within(t as int, SKY_B as int, 1, 1);
        assert(0 <= t <= ONE);
        assert(0 <= fmul_spec(t as int, SKY_R as int) <= t) by {
            vstd::arithmetic::div_mod::lemma_div_is_ordered(t * SKY_R, t * ONE, ONE as int);
            vstd::arithmetic::div_mod::lemma_div_multiples_vanish(t as int, ONE as int);
            assert(t * SKY_R <= t * ONE) by (nonlinear_arith)
                requires
                    0 <= t,
                    SKY_R <= ONE,
            ;
            assert(t * SKY_R >= 0) by (nonlinear_arith)
                requires
                    0 <= t,
                    SKY_R >= 0,
            ;
            assert(ONE * t == t * ONE) by (nonlinear_arith);
            vstd::arithmetic::div_mod::lemma_div_is_ordered(0, t * SKY_R, ONE as int);
        }
        assert(0 <= fmul_spec(t as int, SKY_G as int) <= t) by {
            vstd::arithmetic::div_mod::lemma_div_is_ordered(t * SKY_G, t * ONE, ONE as int);
            vstd::arithmetic::div_mod::lemma_div_multiples_vanish(t as int, ONE as int);
            assert(t * SKY_G <= t * ONE) by (nonlinear_arith)
                requires
                    0 <= t,
                    SKY_G <= ONE,
            ;
            assert(t * SKY_G >= 0) by (nonlinear_arith)
                requires
                    0 <= t,
                    SKY_G >= 0,
            ;
            assert(ONE * t == t * ONE) by (nonlinear_arith);
            vstd::arithmetic::div_mod::lemma_div_is_ordered(0, t * SKY_G, ONE as int);
        }
        assert(fmul_spec(t as int, SKY_B as int) == t) by {
            vstd::arithmetic::div_mod::lemma_div_multiples_vanish(t as int, ONE as int);
            assert(ONE * t == t * SKY_B) by (nonlinear_arith)
                requires
                    SKY_B == ONE,
            ;
        }
    }
    Vec3 {
        x: (ONE - t) + fmul(t, SKY_R),
        y: (ONE - t) + fmul(t, SKY_G),
        z: (ONE - t) + fmul(t, SKY_B),
    }
}

/// Component-wise product of two colors in `[0, 1]`, which stays in `[0, 1]`.
pub fn attenuate_color(a: Color, c: Color) -> (r: Color)
    requires
        is_albedo(a),
        is_albedo(c),
    ensures
        r == attenuate(a, c),
        is_albedo(r),
{
    proof {
        lemma_const_products();
        lemma_unit_product(a.x as int, c.x as int);
        lemma_unit_product(a.y as int, c.y as int);
        lemma_unit_product(a.z as int, c.z as int);
    }
    a.mul(c)
}

/// A product of two fixed-point numbers in `[0, 1]` lies in `[0, 1]`.
pub proof fn lemma_unit_product(a: int, b: int)
    requires
        0 <= a <= ONE,
        0 <= b <= ONE,
    ensures
        0 <= fmul_spec(a, b) <= a,
{
    assert(0 <= a * b <= a * ONE) by (nonlinear_arith)
        requires
            0 <= a <= ONE,
            0 <= b <= ONE,
    ;
    vstd::arithmetic::div_mod::lemma_div_is_ordered(a * b, a * ONE, ONE as int);
    vstd::arithmetic::div_mod::lemma_div_is_ordered(0, a * b, ONE as int);
    vstd::arithmetic::div_mod::lemma_div_multiples_vanish(a, ONE as int);
    assert(ONE * a == a * ONE) by (nonlinear_arith);
}

/// The color along `r` with `depth` bounces left, the bounces drawing on
/// `noises[start..]` in order.
pub fn trace(world: &Vec<Sphere>, r: &Ray, depth: u32, noises: &Vec<ScatterNoise>, start: usize) -> (c: Color)
    requires
        scene_wf(world@),
        r.wf(),
        forall|i: int| 0 <= i < noises.len() ==> (#[trigger] noises[i]).wf(),
        start + depth <= noises.len(),
    ensures
        c == color_spec(world@, *r, depth as nat, noises@.subrange(start as int, noises.len() as int)),
        is_albedo(c),
    decreases depth,
{
    let ghost rest = noises@.subrange(start as int, noises.len() as int);
    if depth == 0 || length_squared(&r.direction) == 0 {
        return Vec3::new(0, 0, 0);
    }
    match hit_world(world, r, T_MIN, LIMIT) {
        None => sky(r),
        Some(h) => {
            assert(rest[0] == noises[start as int]);
            match h.mat.scatter(r, &h, &noises[start]) {
                Some(s) => {
                    let c = trace(world, &s.scattered, depth - 1, noises, start + 1);
                    assert(rest.drop_first() =~= noises@.subrange(start + 1, noises.len() as int));
                    attenuate_color(s.attenuation, c)
                },
                None => Vec3::new(0, 0, 0),
            }
        },
    }
}

/// A well-formed set of random inputs, used where the inputs of a bounce are never read.
pub open spec fn quiet_noise() -> ScatterNoise {
    ScatterNoise { unit: Vec3 { x: ONE, y: 0, z: 0 }, in_sphere: Vec3 { x: 0, y: 0, z: 0 }, uniform: 0 }
}

/// The color along `r` with `depth` bounces left, drawing the random inputs of each
/// bounce from `rng` when the ray hits a surface: the color of `color_spec` for one
/// sequence of well-formed inputs. Nothing is drawn when no bounce is left, or when the
/// ray meets nothing.
pub fn ray_color(r: &Ray, world: &Vec<Sphere>, depth: u32, rng: &mut StdRng) -> (c: Color)
    requires
        scene_wf(world@),
        r.wf(),
    ensures
        exists|noises: Seq<ScatterNoise>|
            noises.len() == depth && (forall|i: int| 0 <= i < noises.len() ==> (#[trigger] noises[i]).wf())
                && c == color_spec(world@, *r, depth as nat, noises),
        depth == 0 ==> c == black() && *final(rng) == *old(rng),
        depth > 0 && quad_a(*r) > 0 && scene_hit_spec(world@, *r, T_MIN as int, LIMIT as int) is None
            ==> c == background(*r) && *final(rng) == *old(rng),
        is_albedo(c),
    decreases depth,
{
    proof {
        assert(quiet_noise().wf());
    }
    let ghost filler = Seq::new(depth as nat, |i: int| quiet_noise());
    assert(filler.len() == depth);
    assert(forall|i: int| 0 <= i < filler.len() ==> (#[trigger] filler[i]).wf()) by {
        assert forall|i: int| 0 <= i < filler.len() implies (#[trigger] filler[i]).wf() by {
            assert(filler[i] == quiet_noise());
        }
    }
    if depth == 0 || length_squared(&r.direction) == 0 {
        assert(color_spec(world@, *r, depth as nat, filler) == black());
        return Vec3::new(0, 0, 0);
    }
    match hit_world(world, r, T_MIN, LIMIT) {
        None => {
            let c = sky(r);
            assert(c == color_spec(world@, *r, depth as nat, filler));
            c
        },
        Some(h) => {
            let noise = random_noise(rng);
            match h.mat.scatter(r, &h, &noise) {
                Some(s) => {
                    let c = ray_color(&s.scattered, world, depth - 1, rng);
                    let ghost rest = choose|ns: Seq<ScatterNoise>|
                        ns.len() == depth - 1 && (forall|i: int| 0 <= i < ns.len() ==> (#[trigger] ns[i]).wf())
                            && c == color_spec(world@, s.scattered, (depth - 1) as nat, ns);
                    let ghost noises = seq![noise] + rest;
                    assert(noises.drop_first() =~= rest);
                    assert(forall|i: int| 0 <= i < noises.len() ==> (#[trigger] noises[i]).wf()) by {
                        assert forall|i: int| 0 <= i < noises.len() implies (#[trigger] noises[i]).wf() by {
                            if i > 0 {
                                assert(noises[i] == rest[i - 1]);
                            }
                        }
                    }
                    assert(noises.len() == depth);
                    let out = attenuate_color(s.attenuation, c);
                    assert(out == color_spec(world@, *r, depth as nat, noises));
                    out
                },
                None => {
                    let ghost noises = Seq::new(depth as nat, |i: int| noise);
                    assert(noises[0] == noise);
                    assert(noises.len() == depth);
                    assert(forall|i: int| 0 <= i < noises.len() ==> (#[trigger] noises[i]).wf()) by {
                        assert forall|i: int| 0 <= i < noises.len() implies (#[trigger] noises[i]).wf() by {
                            assert(noises[i] == noise);
                        }
                    }
                    assert(black() == color_spec(world@, *r, depth as nat, noises));
                    Vec3::new(0, 0, 0)
                },
            }
        },
    }
}

} // verus!

verus! {

/// With no bounces left the color is black, whatever the scene.
pub proof fn lemma_depth_zero_black(world: Seq<Sphere>, r: Ray, noises: Seq<ScatterNoise>)
    ensures
        color_spec(world, r, 0, noises) == black(),
{
}

/// A ray that meets nothing takes the sky's color; in particular every ray with a
/// direction does so in an empty scene.
pub proof fn lemma_miss_is_sky(world: Seq<Sphere>, r: Ray, depth: nat, noises: Seq<ScatterNoise>)
    requires
        depth > 0,
        quad_a(r) > 0,
        world.len() == 0 || scene_hit_spec(world, r, T_MIN as int, LIMIT as int) is None,
    ensures
        color_spec(world, r, depth, noises) == background(r),
{
}

} // verus!

verus! {

/// The random draws of one sample of a pixel: the jitter inside the pixel, the point on
/// the lens, and the inputs of each bounce.
pub struct SampleDraw {
    pub jitter_u: int,
    pub jitter_v: int,
    pub disk: Vec3,
    pub noises: Seq<ScatterNoise>,
}

impl SampleDraw {
    pub open spec fn wf(&self, depth: nat) -> bool {
        &&& 0 <= self.jitter_u < ONE
        &&& 0 <= self.jitter_v < ONE
        &&& bounded(self.disk, ONE as int)
        &&& self.noises.len() == depth
        &&& forall|i: int| 0 <= i < self.noises.len() ==> (#[trigger] self.noises[i]).wf()
    }
}

/// Image-plane coordinate of column (or row) `i` of `extent`, jittered by `jitter`:
/// `(i + jitter) / (extent - 1)`, capped at one.
pub open spec fn plane_coord(i: int, jitter: int, extent: int) -> int {
    let c = (i * ONE + jitter) / (extent - 1);
    if c > ONE {
        ONE as int
    } else {
        c
    }
}

/// The color of one sample of pixel `(i, j)` of a `width` by `height` image.
pub open spec fn sample_color(
    cam: Camera,
    world: Seq<Sphere>,
    i: int,
    j: int,
    width: int,
    height: int,
    depth: nat,
    d: SampleDraw,
) -> Color {
    let r = camera_ray_spec(
        cam,
        plane_coord(i, d.jitter_u, width),
        plane_coord(j, d.jitter_v, height),
        d.disk,
    );
    color_spec(world, r, depth, d.noises)
}

/// Channel sums of the samples of a pixel taken with the draws `draws`.
pub open spec fn pixel_sum(
    cam: Camera,
    world: Seq<Sphere>,
    i: int,
    j: int,
    width: int,
    height: int,
    depth: nat,
    draws: Seq<SampleDraw>,
) -> (int, int, int)
    decreases draws.len(),
{
    if draws.len() == 0 {
        (0, 0, 0)
    } else {
        let (x, y, z) = pixel_sum(cam, world, i, j, width, height, depth, draws.drop_last());
        let c = sample_color(cam, world, i, j, width, height, depth, draws.last());
        (x + c.x, y + c.y, z + c.z)
    }
}

fn plane_coordinate(i: u32, jitter: i64, extent: u32) -> (c: i64)
    requires
        extent >= 2,
        i < extent,
        0 <= jitter < ONE,
    ensures
        c == plane_coord(i as int, jitter as int, extent as int),
        0 <= c <= ONE,
{
    proof {
        assert(i * ONE <= 0xFFFF_FFFF * 65536) by (nonlinear_arith)
            requires
                ONE == 65536,
                i <= 0xFFFF_FFFF,
        ;
    }
    let q = (i as i64 * ONE + jitter) / (extent as i64 - 1);
    if q > ONE {
        ONE
    } else {
        q
    }
}

/// The seed of the generator for pixel `(i, j)` of an image rendered from `image_seed`.
pub fn pixel_seed(image_seed: u32, i: u32, j: u32, width: u32) -> (s: u64)
    requires
        i < width,
    ensures
        s == image_seed as int * 0x1_0000_0000 + (j as int * width as int + i as int) % 0x1_0000_0000,
{
    proof {
        assert(j * width + i < 0xFFFF_FFFF * 0xFFFF_FFFF + 0xFFFF_FFFF) by (nonlinear_arith)
            requires
                j <= 0xFFFF_FFFF,
                width <= 0xFFFF_FFFF,
                i < width,
        ;
    }
    let index = ((j as u64) * (width as u64) + i as u64) % 0x1_0000_0000;
    (image_seed as u64) * 0x1_0000_0000 + index
}

/// The RGBA bytes of pixel `(i, j)` of a `width` by `height` image, averaging
/// `samples_per_pixel` samples drawn from a generator seeded with `seed`; column `i` runs
/// left to right and row `j` bottom to top. The bytes are those of the sample colors for
/// one sequence of well-formed draws.
pub fn render_pixel(
    cam: &Camera,
    world: &Vec<Sphere>,
    i: u32,
    j: u32,
    width: u32,
    height: u32,
    samples_per_pixel: u32,
    max_depth: u32,
    seed: u64,
) -> (bytes: Vec<u8>)
    requires
        cam.wf(),
        scene_wf(world@),
        2 <= width,
        2 <= height,
        i < width,
        j < height,
        samples_per_pixel > 0,
    ensures
        exists|draws: Seq<SampleDraw>| #![auto]
            draws.len() == samples_per_pixel && (forall|k: int|
                0 <= k < draws.len() ==> (#[trigger] draws[k]).wf(max_depth as nat)) && ({
                let (x, y, z) = pixel_sum(
                    *cam,
                    world@,
                    i as int,
                    j as int,
                    width as int,
                    height as int,
                    max_depth as nat,
                    draws,
                );
                bytes@ == pixel_bytes(
                    Vec3 { x: x as i64, y: y as i64, z: z as i64 },
                    samples_per_pixel as int,
                )
            }),
{
    let mut rng = rng_from_seed(seed);
    let mut sum = Vec3::new(0, 0, 0);
    let ghost mut draws: Seq<SampleDraw> = Seq::empty();
    let mut k: u32 = 0;
    while k < samples_per_pixel
        invariant
            cam.wf(),
            scene_wf(world@),
            2 <= width,
            2 <= height,
            i < width,
            j < height,
            k <= samples_per_pixel,
            draws.len() == k,
            forall|m: int| 0 <= m < draws.len() ==> (#[trigger] draws[m]).wf(max_depth as nat),
            pixel_sum(*cam, world@, i as int, j as int, width as int, height as int, max_depth as nat, draws)
                == (sum.x as int, sum.y as int, sum.z as int),
            0 <= sum.x <= k * 65536,
            0 <= sum.y <= k * 65536,
            0 <= sum.z <= k * 65536,
        decreases samples_per_pixel - k,
    {
        let ju = random_fraction(&mut rng);
        let jv = random_fraction(&mut rng);
        let disk = random_in_unit_disk(&mut rng);
        let s = plane_coordinate(i, ju, width);
        let t = plane_coordinate(j, jv, height);
        let r = cam.get_ray(s, t, disk);
        let c = ray_color(&r, world, max_depth, &mut rng);
        proof {
            let ns = choose|ns: Seq<ScatterNoise>|
                ns.len() == max_depth && (forall|m: int| 0 <= m < ns.len() ==> (#[trigger] ns[m]).wf())
                    && c == color_spec(world@, r, max_depth as nat, ns);
            let d = SampleDraw { jitter_u: ju as int, jitter_v: jv as int, disk, noises: ns };
            let next = draws.push(d);
            assert(next.drop_last() =~= draws);
            assert(next.last() == d);
            draws = next;
        }
        sum = Vec3 { x: sum.x + c.x, y: sum.y + c.y, z: sum.z + c.z };
        k += 1;
    }
    write_color(sum, samples_per_pixel)
}

} // verus!

verus! {

/// A color is fixed by the random inputs of its bounces: two input sequences that agree on
/// their first `depth` entries give the same color, whatever follows.
pub proof fn lemma_color_reproducible(
    world: Seq<Sphere>,
    r: Ray,
    depth: nat,
    first: Seq<ScatterNoise>,
    second: Seq<ScatterNoise>,
)
    requires
        first.len() >= depth,
        second.len() >= depth,
        first.take(depth as int) == second.take(depth as int),
    ensures
        color_spec(world, r, depth, first) == color_spec(world, r, depth, second),
    decreases depth,
{
    if depth > 0 {
        assert(first[0] == first.take(depth as int)[0]);
        assert(second[0] == second.take(depth as int)[0]);
        assert(first.drop_first().take(depth - 1) =~= first.take(depth as int).drop_first());
        assert(second.drop_first().take(depth - 1) =~= second.take(depth as int).drop_first());
        match scene_hit_spec(world, r, T_MIN as int, LIMIT as int) {
            Some(h) => match scatter_spec(h.mat, r, h, first[0]) {
                Some(s) => lemma_color_reproducible(
                    world,
                    s.scattered,
                    (depth - 1) as nat,
                    first.drop_first(),
                    second.drop_first(),
                ),
                None => {},
            },
            None => {},
        }
    }
}

} // verus!
