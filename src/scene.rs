//! The demonstration scene: a ground sphere, a grid of small random spheres, and three
//! large ones.
use vstd::prelude::*;
use vstd::arithmetic::div_mod::lemma_fundamental_div_mod_converse;
use rand::rngs::StdRng;
use crate::fixed::{fmul, fmul_spec, ONE};
use crate::material::{Dielectric, Lambertian, Material, Metal};
use crate::random::random_fraction;
use crate::render::scene_wf;
use crate::sphere::Sphere;
use crate::vec3::{length, length_spec, lemma_fmul_within, Color, Vec3};

verus! {

/// Radius of the small spheres, and the height of their centers (0.2).
pub const SMALL_RADIUS: i64 = 13107;

/// Nine tenths, in fixed point.
pub const NINE_TENTHS: i64 = 58982;

/// Thresholds of the material draw: diffuse below 0.8, metal below 0.95, glass above.
pub const DIFFUSE_BELOW: i64 = 52429;

pub const METAL_BELOW: i64 = 62259;

/// Refractive index of the glass spheres (1.5).
pub const GLASS_IR: i64 = 98304;

pub open spec fn ground() -> Sphere {
    Sphere {
        center: Vec3 { x: 0, y: (-1000 * ONE) as i64, z: 0 },
        radius: (1000 * ONE) as i64,
        mat: Material::Lambertian(Lambertian { albedo: Vec3 { x: 32768, y: 32768, z: 32768 } }),
    }
}

pub open spec fn big_glass() -> Sphere {
    Sphere {
        center: Vec3 { x: 0, y: ONE, z: 0 },
        radius: ONE,
        mat: Material::Dielectric(Dielectric { ir: GLASS_IR }),
    }
}

pub open spec fn big_diffuse() -> Sphere {
    Sphere {
        center: Vec3 { x: (-4 * ONE) as i64, y: ONE, z: 0 },
        radius: ONE,
        mat: Material::Lambertian(Lambertian { albedo: Vec3 { x: 26214, y: 13107, z: 6554 } }),
    }
}

pub open spec fn big_metal() -> Sphere {
    Sphere {
        center: Vec3 { x: (4 * ONE) as i64, y: ONE, z: 0 },
        radius: ONE,
        mat: Material::Metal(Metal { albedo: Vec3 { x: 45875, y: 39322, z: 32768 }, fuzz: 0 }),
    }
}

/// Position of the grid cell `(a, b)` of `[-11, 11)^2` in row-major order.
pub open spec fn cell_index(a: int, b: int) -> int {
    (a + 11) * 22 + (b + 11)
}

/// The grid cell a small sphere belongs to: the integer parts of its center's x and z.
pub open spec fn cell_of(s: Sphere) -> int {
    cell_index((s.center.x as int) / (ONE as int), (s.center.z as int) / (ONE as int))
}

/// A small sphere of the grid: radius 0.2, resting on the ground, centered in
/// `[a, a + 0.9) x [b, b + 0.9)` for its cell `(a, b)`, more than 0.9 away from the point
/// `(4, 0.2, 0)` in front of the large metal sphere, and of one of the small materials.
pub open spec fn is_small_sphere(s: Sphere) -> bool {
    &&& s.radius == SMALL_RADIUS
    &&& s.center.y == SMALL_RADIUS
    &&& -11 * ONE <= s.center.x < 11 * ONE
    &&& -11 * ONE <= s.center.z < 11 * ONE
    &&& (s.center.x as int) % (ONE as int) < NINE_TENTHS
    &&& (s.center.z as int) % (ONE as int) < NINE_TENTHS
    &&& is_small_material(s.mat)
    &&& length_spec(Vec3 { x: (s.center.x - 4 * ONE) as i64, y: 0, z: s.center.z }) > NINE_TENTHS
}

/// A fraction `f` of the interval `[lo, hi)`: `lo + f (hi - lo)`, rounded down.
pub open spec fn between_spec(f: int, lo: int, hi: int) -> int {
    lo + fmul_spec(f, hi - lo)
}

/// The color whose channels are the fractions `f` of the interval `[lo, hi)`.
pub open spec fn color_between(f: Vec3, lo: int, hi: int) -> Color {
    Vec3 {
        x: between_spec(f.x as int, lo, hi) as i64,
        y: between_spec(f.y as int, lo, hi) as i64,
        z: between_spec(f.z as int, lo, hi) as i64,
    }
}

pub open spec fn is_fraction(f: int) -> bool {
    0 <= f < ONE
}

pub open spec fn is_fractions(v: Vec3) -> bool {
    is_fraction(v.x as int) && is_fraction(v.y as int) && is_fraction(v.z as int)
}

/// The random draws of one grid cell, each a fraction in `[0, 1)`: the material choice,
/// the offsets of the center within the cell, two colors and a fuzz.
#[derive(Clone, Copy, Debug, PartialEq, Eq, Structural)]
pub struct CellDraw {
    pub choose_mat: i64,
    pub fx: i64,
    pub fz: i64,
    pub first: Vec3,
    pub second: Vec3,
    pub fuzz: i64,
}

impl CellDraw {
    pub open spec fn wf(&self) -> bool {
        &&& is_fraction(self.choose_mat as int)
        &&& is_fraction(self.fx as int)
        &&& is_fraction(self.fz as int)
        &&& is_fractions(self.first)
        &&& is_fractions(self.second)
        &&& is_fraction(self.fuzz as int)
    }
}

/// The material a cell's draws give: diffuse below 0.8, with albedo the product of two
/// colors in `[0, 1)`; metal below 0.95, with albedo in `[0.5, 1)` and fuzz in `[0, 0.5)`;
/// glass of index 1.5 above.
pub open spec fn material_spec(d: CellDraw) -> Material {
    if d.choose_mat < DIFFUSE_BELOW {
        let a = color_between(d.first, 0, ONE as int);
        let b = color_between(d.second, 0, ONE as int);
        Material::Lambertian(
            Lambertian {
                albedo: Vec3 {
                    x: fmul_spec(a.x as int, b.x as int) as i64,
                    y: fmul_spec(a.y as int, b.y as int) as i64,
                    z: fmul_spec(a.z as int, b.z as int) as i64,
                },
            },
        )
    } else if d.choose_mat < METAL_BELOW {
        Material::Metal(
            Metal {
                albedo: color_between(d.first, (ONE / 2) as int, ONE as int),
                fuzz: between_spec(d.fuzz as int, 0, (ONE / 2) as int) as i64,
            },
        )
    } else {
        Material::Dielectric(Dielectric { ir: GLASS_IR })
    }
}

/// The center drawn in cell `k` of the grid, in row-major order: `(a + 0.9 fx, 0.2,
/// b + 0.9 fz)` for the cell `(a, b)`.
pub open spec fn cell_center(k: int, d: CellDraw) -> Vec3 {
    Vec3 {
        x: ((k / 22 - 11) * ONE + fmul_spec(NINE_TENTHS as int, d.fx as int)) as i64,
        y: SMALL_RADIUS,
        z: ((k % 22 - 11) * ONE + fmul_spec(NINE_TENTHS as int, d.fz as int)) as i64,
    }
}

/// The center lies more than 0.9 from `(4, 0.2, 0)`, in front of the large metal sphere.
pub open spec fn clears_metal_sphere(c: Vec3) -> bool {
    length_spec(Vec3 { x: (c.x - 4 * ONE) as i64, y: 0, z: c.z }) > NINE_TENTHS
}

/// The small spheres of the first `draws.len()` cells: one per cell whose drawn center
/// clears the large metal sphere, in cell order.
pub open spec fn small_spheres_spec(draws: Seq<CellDraw>) -> Seq<Sphere>
    decreases draws.len(),
{
    if draws.len() == 0 {
        Seq::empty()
    } else {
        let prev = small_spheres_spec(draws.drop_last());
        let c = cell_center(draws.len() - 1, draws.last());
        if clears_metal_sphere(c) {
            prev.push(Sphere { center: c, radius: SMALL_RADIUS, mat: material_spec(draws.last()) })
        } else {
            prev
        }
    }
}

/// The scene built from the draws of the 484 cells: the ground, the small spheres, then
/// the large glass, diffuse and metal spheres.
pub open spec fn scene_spec(draws: Seq<CellDraw>) -> Seq<Sphere> {
    seq![ground()] + small_spheres_spec(draws) + seq![big_glass(), big_diffuse(), big_metal()]
}

/// A fraction `f` in `[0, 1)` of a positive `m`, rounded down, lies in `[0, m)`.
proof fn lemma_scaled_fraction(f: int, m: int)
    requires
        0 <= f < ONE,
        0 < m,
    ensures
        0 <= fmul_spec(f, m) < m,
{
    let x = f * m;
    assert(0 <= x < m * ONE) by (nonlinear_arith)
        requires
            0 <= f < ONE,
            0 < m,
            x == f * m,
    ;
    vstd::arithmetic::div_mod::lemma_div_is_ordered(0, x, ONE as int);
    let q = x / (ONE as int);
    vstd::arithmetic::div_mod::lemma_fundamental_div_mod(x, ONE as int);
    vstd::arithmetic::div_mod::lemma_mod_bound(x, ONE as int);
    if q >= m {
        assert(false) by (nonlinear_arith)
            requires
                x == ONE * q + x % (ONE as int),
                x % (ONE as int) >= 0,
                q >= m,
                x < m * ONE,
                ONE > 0,
        ;
    }
}

/// The fraction `f` of the interval `[lo, hi)`.
fn between(f: i64, lo: i64, hi: i64) -> (r: i64)
    requires
        0 <= f < ONE,
        0 <= lo < hi <= ONE,
    ensures
        r == between_spec(f as int, lo as int, hi as int),
        lo <= r < hi,
{
    proof {
        lemma_fmul_within(f as int, (hi - lo) as int, 1, 1);
        lemma_scaled_fraction(f as int, (hi - lo) as int);
    }
    lo + fmul(f, hi - lo)
}

fn color_in(f: Vec3, lo: i64, hi: i64) -> (c: Color)
    requires
        is_fractions(f),
        0 <= lo < hi <= ONE,
    ensures
        c == color_between(f, lo as int, hi as int),
        lo <= c.x < hi && lo <= c.y < hi && lo <= c.z < hi,
{
    Vec3::new(between(f.x, lo, hi), between(f.y, lo, hi), between(f.z, lo, hi))
}

/// The materials a small sphere may get: diffuse with every channel of the albedo in
/// `[0, 1)`, metal with albedo channels in `[0.5, 1)` and fuzz in `[0, 0.5)`, or glass of
/// index 1.5.
pub open spec fn is_small_material(m: Material) -> bool {
    match m {
        Material::Lambertian(l) => 0 <= l.albedo.x < ONE && 0 <= l.albedo.y < ONE && 0
            <= l.albedo.z < ONE,
        Material::Metal(mt) => ONE / 2 <= mt.albedo.x < ONE && ONE / 2 <= mt.albedo.y < ONE
            && ONE / 2 <= mt.albedo.z < ONE && 0 <= mt.fuzz < ONE / 2,
        Material::Dielectric(d) => d.ir == GLASS_IR,
    }
}

/// The material a cell's draws give.
pub fn material_from(d: &CellDraw) -> (m: Material)
    requires
        d.wf(),
    ensures
        m == material_spec(*d),
        m.wf(),
        is_small_material(m),
{
    if d.choose_mat < DIFFUSE_BELOW {
        let a = color_in(d.first, 0, ONE);
        let b = color_in(d.second, 0, ONE);
        proof {
            crate::render::lemma_unit_product(a.x as int, b.x as int);
            crate::render::lemma_unit_product(a.y as int, b.y as int);
            crate::render::lemma_unit_product(a.z as int, b.z as int);
        }
        Material::Lambertian(Lambertian { albedo: a.mul(b) })
    } else if d.choose_mat < METAL_BELOW {
        let albedo = color_in(d.first, ONE / 2, ONE);
        let fuzz = between(d.fuzz, 0, ONE / 2);
        Material::Metal(Metal { albedo, fuzz })
    } else {
        Material::Dielectric(Dielectric { ir: GLASS_IR })
    }
}

/// Number of cells of the grid `[-11, 11)^2`.
pub const CELLS: usize = 484;

/// The scene built from the draws of the grid's cells, in row-major order: the ground,
/// then for each cell a small sphere at its drawn center unless that falls within 0.9 of
/// `(4, 0.2, 0)`, then the large glass, diffuse and metal spheres.
pub fn scene_from_draws(draws: &Vec<CellDraw>) -> (world: Vec<Sphere>)
    requires
        draws.len() == CELLS,
        forall|k: int| 0 <= k < draws.len() ==> (#[trigger] draws[k]).wf(),
    ensures
        world@ == scene_spec(draws@),
        scene_wf(world@),
        4 <= world.len() <= 488,
        forall|k: int| 1 <= k < world.len() - 3 ==> is_small_sphere(#[trigger] world@[k]),
        forall|k: int, m: int|
            1 <= k < m < world.len() - 3 ==> cell_of(#[trigger] world@[k]) < cell_of(
                #[trigger] world@[m],
            ),
{
    let mut world: Vec<Sphere> = Vec::new();
    world.push(
        Sphere::new(
            Vec3::new(0, -1000 * ONE, 0),
            1000 * ONE,
            Material::Lambertian(Lambertian { albedo: Vec3::new(32768, 32768, 32768) }),
        ),
    );
    assert(world@ =~= seq![ground()] + small_spheres_spec(draws@.take(0)));
    let mut k: usize = 0;
    while k < CELLS
        invariant
            k <= CELLS,
            draws.len() == CELLS,
            forall|m: int| 0 <= m < draws.len() ==> (#[trigger] draws[m]).wf(),
            world@ == seq![ground()] + small_spheres_spec(draws@.take(k as int)),
            1 <= world.len() <= 1 + k,
            scene_wf(world@),
            forall|m: int| 1 <= m < world.len() ==> is_small_sphere(#[trigger] world@[m]),
            forall|m: int| 1 <= m < world.len() ==> cell_of(#[trigger] world@[m]) < k,
            forall|m: int, n: int|
                1 <= m < n < world.len() ==> cell_of(#[trigger] world@[m]) < cell_of(#[trigger] world@[n]),
        decreases CELLS - k,
    {
        let d = draws[k];
        let a = (k / 22) as i64 - 11;
        let b = (k % 22) as i64 - 11;
        proof {
            vstd::arithmetic::div_mod::lemma_fundamental_div_mod(k as int, 22);
            lemma_fmul_within(NINE_TENTHS as int, d.fx as int, 1, 1);
            lemma_fmul_within(NINE_TENTHS as int, d.fz as int, 1, 1);
            lemma_scaled_fraction(d.fx as int, NINE_TENTHS as int);
            lemma_scaled_fraction(d.fz as int, NINE_TENTHS as int);
            assert(fmul_spec(d.fx as int, NINE_TENTHS as int) == fmul_spec(NINE_TENTHS as int, d.fx as int)) by {
                assert(d.fx * NINE_TENTHS == NINE_TENTHS * d.fx) by (nonlinear_arith);
            }
            assert(fmul_spec(d.fz as int, NINE_TENTHS as int) == fmul_spec(NINE_TENTHS as int, d.fz as int)) by {
                assert(d.fz * NINE_TENTHS == NINE_TENTHS * d.fz) by (nonlinear_arith);
            }
        }
        let center = Vec3::new(a * ONE + fmul(NINE_TENTHS, d.fx), SMALL_RADIUS, b * ONE + fmul(NINE_TENTHS, d.fz));
        proof {
            lemma_fundamental_div_mod_converse(
                center.x as int,
                ONE as int,
                a as int,
                fmul_spec(NINE_TENTHS as int, d.fx as int),
            );
            lemma_fundamental_div_mod_converse(
                center.z as int,
                ONE as int,
                b as int,
                fmul_spec(NINE_TENTHS as int, d.fz as int),
            );
            assert(center == cell_center(k as int, d));
            let next = draws@.take(k + 1);
            assert(next.drop_last() =~= draws@.take(k as int));
            assert(next.last() == d);
        }
        let gap = Vec3::new(center.x - 4 * ONE, 0, center.z);
        if length(&gap) > NINE_TENTHS {
            let mat = material_from(&d);
            let ghost before = world@;
            world.push(Sphere::new(center, SMALL_RADIUS, mat));
            proof {
                assert(cell_of(world@[world.len() - 1]) == k);
                assert forall|m: int| 1 <= m < world.len() - 1 implies world@[m] == before[m] by {}
                assert(world@ =~= seq![ground()] + small_spheres_spec(draws@.take(k + 1)));
            }
        }
        k += 1;
    }
    assert(draws@.take(CELLS as int) =~= draws@);
    let ghost small = world@;
    world.push(Sphere::new(Vec3::new(0, ONE, 0), ONE, Material::Dielectric(Dielectric { ir: GLASS_IR })));
    world.push(
        Sphere::new(
            Vec3::new(-4 * ONE, ONE, 0),
            ONE,
            Material::Lambertian(Lambertian { albedo: Vec3::new(26214, 13107, 6554) }),
        ),
    );
    world.push(
        Sphere::new(
            Vec3::new(4 * ONE, ONE, 0),
            ONE,
            Material::Metal(Metal { albedo: Vec3::new(45875, 39322, 32768), fuzz: 0 }),
        ),
    );
    assert forall|m: int| 0 <= m < small.len() implies world@[m] == small[m] by {}
    assert(world@ =~= scene_spec(draws@));
    world
}

/// Fractions drawn from `[0, 1)` for the three channels of a color.
fn random_fractions(rng: &mut StdRng) -> (v: Vec3)
    ensures
        is_fractions(v),
{
    let x = random_fraction(rng);
    let y = random_fraction(rng);
    let z = random_fraction(rng);
    Vec3::new(x, y, z)
}

/// The scene, built from draws of `rng`: `scene_spec` of one well-formed set of cell draws.
pub fn random_scene(rng: &mut StdRng) -> (world: Vec<Sphere>)
    ensures
        exists|d: Seq<CellDraw>|
            d.len() == CELLS && (forall|k: int| 0 <= k < d.len() ==> (#[trigger] d[k]).wf())
                && world@ == scene_spec(d),
        scene_wf(world@),
        4 <= world.len() <= 488,
        world@[0] == ground(),
        world@[world.len() - 3] == big_glass(),
        world@[world.len() - 2] == big_diffuse(),
        world@[world.len() - 1] == big_metal(),
        forall|k: int| 1 <= k < world.len() - 3 ==> is_small_sphere(#[trigger] world@[k]),
        forall|k: int, m: int|
            1 <= k < m < world.len() - 3 ==> cell_of(#[trigger] world@[k]) < cell_of(
                #[trigger] world@[m],
            ),
{
    let mut draws: Vec<CellDraw> = Vec::new();
    let mut k: usize = 0;
    while k < CELLS
        invariant
            k <= CELLS,
            draws.len() == k,
            forall|m: int| 0 <= m < draws.len() ==> (#[trigger] draws[m]).wf(),
        decreases CELLS - k,
    {
        let choose_mat = random_fraction(rng);
        let fx = random_fraction(rng);
        let fz = random_fraction(rng);
        let first = random_fractions(rng);
        let second = random_fractions(rng);
        let fuzz = random_fraction(rng);
        draws.push(CellDraw { choose_mat, fx, fz, first, second, fuzz });
        k += 1;
    }
    let world = scene_from_draws(&draws);
    let ghost n = world.len() as int;
    assert(world@[0] == scene_spec(draws@)[0]);
    assert(world@[n - 3] == big_glass());
    assert(world@[n - 2] == big_diffuse());
    assert(world@[n - 1] == big_metal());
    world
}

} // verus!
