//! Rays: an origin and a direction, evaluated at a fixed-point parameter.
use vstd::prelude::*;
use crate::fixed::{fmul, fmul_spec, lemma_const_products, LIMIT};
use crate::vec3::{bounded, lemma_product_within, Point3, Vec3};

verus! {

#[derive(Clone, Copy, Debug, PartialEq, Eq, Structural)]
pub struct Ray {
    pub origin: Point3,
    pub direction: Vec3,
}

/// The point `origin + t * direction`, coordinate by coordinate, with products rounded down.
pub open spec fn point_at(r: Ray, t: int) -> (int, int, int) {
    (
        r.origin.x + fmul_spec(t, r.direction.x as int),
        r.origin.y + fmul_spec(t, r.direction.y as int),
        r.origin.z + fmul_spec(t, r.direction.z as int),
    )
}

impl Ray {
    /// A ray's origin and direction lie in the representable range.
    pub open spec fn wf(&self) -> bool {
        bounded(self.origin, LIMIT as int) && bounded(self.direction, LIMIT as int)
    }

    pub fn new(origin: Point3, direction: Vec3) -> (r: Ray)
        ensures
            r == (Ray { origin, direction }),
    {
        Ray { origin, direction }
    }

    /// The point at parameter `t` along the ray.
    pub fn at(&self, t: i64) -> (p: Point3)
        requires
            self.wf(),
            -LIMIT <= t <= LIMIT,
        ensures
            (p.x as int, p.y as int, p.z as int) == point_at(*self, t as int),
            bounded(p, LIMIT + (LIMIT as int) * (LIMIT as int)),
    {
        let d = self.direction;
        proof {
            lemma_const_products();
            lemma_product_within(t as int, d.x as int, LIMIT as int, LIMIT as int);
            lemma_product_within(t as int, d.y as int, LIMIT as int, LIMIT as int);
            lemma_product_within(t as int, d.z as int, LIMIT as int, LIMIT as int);
        }
        Vec3 {
            x: self.origin.x + fmul(t, d.x),
            y: self.origin.y + fmul(t, d.y),
            z: self.origin.z + fmul(t, d.z),
        }
    }
}

} // verus!
