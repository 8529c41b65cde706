//! Random sampling for the renderer, drawn from a seedable generator passed in by the
//! caller so that a render is reproducible from its seed.
use vstd::prelude::*;
use rand::rngs::StdRng;
use rand::Rng;
use rand::SeedableRng;
use crate::fixed::{is_isqrt, lemma_const_products, ONE};
use crate::material::ScatterNoise;
use crate::vec3::{
    bounded, dot_spec, length_squared, lemma_isqrt_unique, unit_spec, unit_vector, Vec3,
};

verus! {

#[verifier::external_type_specification]
#[verifier::external_body]
pub struct ExStdRng(StdRng);

/// Number of rejected draws after which a rejection sampler gives its fallback value.
pub const MAX_TRIES: u32 = 64;

/// Relies on rand's `SeedableRng::seed_from_u64`: a generator whose stream is fixed by the seed.
#[verifier::external_body]
pub(crate) fn rng_from_seed(seed: u64) -> (r: StdRng) {
    StdRng::seed_from_u64(seed)
}

/// Relies on rand's `Rng::gen_range`: a value of the half-open range `low..high`, which must
/// not be empty.
#[verifier::external_body]
fn draw_range(rng: &mut StdRng, low: i64, high: i64) -> (r: i64)
    requires
        low < high,
    ensures
        low <= r < high,
{
    rng.gen_range(low..high)
}

/// A fixed-point number drawn from `[0, 1)`.
pub fn random_fraction(rng: &mut StdRng) -> (r: i64)
    ensures
        0 <= r < ONE,
{
    draw_range(rng, 0, ONE)
}

/// `p` lies strictly inside the unit ball.
pub open spec fn in_ball(p: Vec3) -> bool {
    dot_spec(p, p) < (ONE as int) * (ONE as int)
}

/// Every coordinate of `p` lies in `[-1, 1)`.
pub open spec fn in_cube(p: Vec3) -> bool {
    -ONE <= p.x < ONE && -ONE <= p.y < ONE && -ONE <= p.z < ONE
}

/// The outcome of rejection sampling over `draws`: the first draw inside the unit ball,
/// or the center when there is none.
pub open spec fn first_in_ball_spec(draws: Seq<Vec3>) -> Vec3
    decreases draws.len(),
{
    if draws.len() == 0 {
        Vec3 { x: 0, y: 0, z: 0 }
    } else if in_ball(draws[0]) {
        draws[0]
    } else {
        first_in_ball_spec(draws.drop_first())
    }
}

/// Draws that all fall outside the ball, followed by one inside it, yield that last draw.
proof fn lemma_first_in_ball_last(rejected: Seq<Vec3>, p: Vec3)
    requires
        forall|i: int| 0 <= i < rejected.len() ==> !in_ball(#[trigger] rejected[i]),
        in_ball(p),
    ensures
        first_in_ball_spec(rejected.push(p)) == p,
    decreases rejected.len(),
{
    if rejected.len() > 0 {
        assert(rejected.push(p).drop_first() =~= rejected.drop_first().push(p));
        assert(!in_ball(rejected[0]));
        lemma_first_in_ball_last(rejected.drop_first(), p);
    }
}

/// Draws that all fall outside the ball yield the center.
proof fn lemma_first_in_ball_none(rejected: Seq<Vec3>)
    requires
        forall|i: int| 0 <= i < rejected.len() ==> !in_ball(#[trigger] rejected[i]),
    ensures
        first_in_ball_spec(rejected) == (Vec3 { x: 0, y: 0, z: 0 }),
    decreases rejected.len(),
{
    if rejected.len() > 0 {
        assert(!in_ball(rejected[0]));
        lemma_first_in_ball_none(rejected.drop_first());
    }
}

/// The first of `draws` inside the unit ball, or the center when none is.
pub fn first_in_ball(draws: &Vec<Vec3>) -> (r: Vec3)
    requires
        forall|i: int| 0 <= i < draws.len() ==> in_cube(#[trigger] draws[i]),
    ensures
        r == first_in_ball_spec(draws@),
{
    assert(draws@.subrange(0, draws.len() as int) =~= draws@);
    let mut i: usize = 0;
    while i < draws.len()
        invariant
            i <= draws.len(),
            forall|k: int| 0 <= k < draws.len() ==> in_cube(#[trigger] draws[k]),
            first_in_ball_spec(draws@) == first_in_ball_spec(draws@.subrange(i as int, draws.len() as int)),
        decreases draws.len() - i,
    {
        proof {
            lemma_const_products();
        }
        let rest = Ghost(draws@.subrange(i as int, draws.len() as int));
        assert(rest@[0] == draws@[i as int]);
        if length_squared(&draws[i]) < (ONE as i128) * (ONE as i128) {
            return draws[i];
        }
        assert(rest@.drop_first() =~= draws@.subrange(i + 1, draws.len() as int));
        i += 1;
    }
    Vec3::new(0, 0, 0)
}

/// A vector drawn from the unit ball by rejection from the cube `[-1, 1)^3`: the first
/// of at most `MAX_TRIES` draws from the cube that lies inside the ball, or the center.
pub fn random_in_unit_sphere(rng: &mut StdRng) -> (r: Vec3)
    ensures
        exists|d: Seq<Vec3>|
            d.len() <= MAX_TRIES && (forall|i: int| 0 <= i < d.len() ==> in_cube(#[trigger] d[i]))
                && r == first_in_ball_spec(d),
        bounded(r, ONE as int),
        in_ball(r),
{
    proof {
        lemma_const_products();
    }
    let ghost mut drawn: Seq<Vec3> = Seq::empty();
    let mut tries: u32 = 0;
    while tries < MAX_TRIES
        invariant
            drawn.len() == tries,
            tries <= MAX_TRIES,
            forall|i: int| 0 <= i < drawn.len() ==> in_cube(#[trigger] drawn[i]),
            forall|i: int| 0 <= i < drawn.len() ==> !in_ball(#[trigger] drawn[i]),
        decreases MAX_TRIES - tries,
    {
        proof {
            lemma_const_products();
        }
        let p = Vec3::new(draw_range(rng, -ONE, ONE), draw_range(rng, -ONE, ONE), draw_range(rng, -ONE, ONE));
        if length_squared(&p) < (ONE as i128) * (ONE as i128) {
            proof {
                lemma_first_in_ball_last(drawn, p);
                assert(forall|i: int| 0 <= i < drawn.push(p).len() ==> in_cube(#[trigger] drawn.push(p)[i]));
            }
            return p;
        }
        proof {
            let next = drawn.push(p);
            assert(forall|i: int| 0 <= i < drawn.len() ==> next[i] == drawn[i]);
            drawn = next;
        }
        tries += 1;
    }
    proof {
        lemma_first_in_ball_none(drawn);
    }
    Vec3::new(0, 0, 0)
}

/// A random vector of unit length: a nonzero draw from the unit ball, normalized; after
/// `MAX_TRIES` zero draws, the unit vector along the x axis.
pub fn random_unit_vector(rng: &mut StdRng) -> (r: Vec3)
    ensures
        bounded(r, ONE as int),
        exists|p: Vec3| #![auto] bounded(p, ONE as int) && dot_spec(p, p) > 0 && r == unit_spec(p),
{
    proof {
        lemma_const_products();
    }
    let mut tries: u32 = 0;
    while tries < MAX_TRIES
        decreases MAX_TRIES - tries,
    {
        let p = random_in_unit_sphere(rng);
        if length_squared(&p) > 0 {
            return unit_vector(p);
        }
        tries += 1;
    }
    let e = Vec3::new(ONE, 0, 0);
    proof {
        assert(dot_spec(e, e) == (ONE as int) * (ONE as int));
        assert(is_isqrt(dot_spec(e, e), ONE as int)) by (nonlinear_arith)
            requires
                dot_spec(e, e) == (ONE as int) * (ONE as int),
                ONE == 65536,
        ;
        lemma_isqrt_unique(dot_spec(e, e), ONE as int);
    }
    unit_vector(e)
}

/// A vector `(x, y, 0)` drawn from the unit disk by rejection from the square `[-1, 1)^2`:
/// the first of at most `MAX_TRIES` draws from the square that lies inside the disk, or
/// the center.
pub fn random_in_unit_disk(rng: &mut StdRng) -> (r: Vec3)
    ensures
        exists|d: Seq<Vec3>|
            d.len() <= MAX_TRIES && (forall|i: int|
                0 <= i < d.len() ==> in_cube(#[trigger] d[i]) && d[i].z == 0) && r
                == first_in_ball_spec(d),
        bounded(r, ONE as int),
        r.z == 0,
        in_ball(r),
{
    proof {
        lemma_const_products();
    }
    let ghost mut drawn: Seq<Vec3> = Seq::empty();
    let mut tries: u32 = 0;
    while tries < MAX_TRIES
        invariant
            drawn.len() == tries,
            tries <= MAX_TRIES,
            forall|i: int| 0 <= i < drawn.len() ==> in_cube(#[trigger] drawn[i]) && drawn[i].z == 0,
            forall|i: int| 0 <= i < drawn.len() ==> !in_ball(#[trigger] drawn[i]),
        decreases MAX_TRIES - tries,
    {
        proof {
            lemma_const_products();
        }
        let p = Vec3::new(draw_range(rng, -ONE, ONE), draw_range(rng, -ONE, ONE), 0);
        if length_squared(&p) < (ONE as i128) * (ONE as i128) {
            proof {
                lemma_first_in_ball_last(drawn, p);
                assert(forall|i: int|
                    0 <= i < drawn.push(p).len() ==> in_cube(#[trigger] drawn.push(p)[i])
                        && drawn.push(p)[i].z == 0);
            }
            return p;
        }
        proof {
            let next = drawn.push(p);
            assert(forall|i: int| 0 <= i < drawn.len() ==> next[i] == drawn[i]);
            drawn = next;
        }
        tries += 1;
    }
    proof {
        lemma_first_in_ball_none(drawn);
    }
    Vec3::new(0, 0, 0)
}

/// The random inputs of one scattering event.
pub fn random_noise(rng: &mut StdRng) -> (n: ScatterNoise)
    ensures
        n.wf(),
{
    let unit = random_unit_vector(rng);
    let in_sphere = random_in_unit_sphere(rng);
    let uniform = random_fraction(rng);
    ScatterNoise { unit, in_sphere, uniform }
}

} // verus!
