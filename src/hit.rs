//! Intersection records and the nearest-hit query over a scene.
use vstd::prelude::*;
use crate::fixed::ONE;
use crate::material::Material;
use crate::ray::Ray;
use crate::vec3::{bounded, dot, dot_spec, negated, Point3, Vec3};

verus! {

#[derive(Clone, Copy, Debug, PartialEq, Eq, Structural)]
pub struct HitRecord {
    pub p: Point3,
    pub normal: Vec3,
    pub mat: Material,
    pub t: i64,
    pub front_face: bool,
}

/// The ray meets the surface from the side its outward normal points to.
pub open spec fn faces_front(r: Ray, outward: Vec3) -> bool {
    dot_spec(r.direction, outward) < 0
}

/// `n` is `outward` when `front`, and its negation otherwise.
pub open spec fn oriented(n: Vec3, outward: Vec3, front: bool) -> bool {
    n == if front {
        outward
    } else {
        negated(outward)
    }
}

impl HitRecord {
    /// Stores the face the ray came from, and the normal turned to face the ray.
    pub fn set_face_normal(&mut self, r: &Ray, outward_normal: Vec3)
        requires
            r.wf(),
            bounded(outward_normal, ONE as int),
        ensures
            final(self).front_face == faces_front(*r, outward_normal),
            oriented(final(self).normal, outward_normal, final(self).front_face),
            dot_spec(r.direction, final(self).normal) <= 0,
            bounded(final(self).normal, ONE as int),
            final(self).p == old(self).p,
            final(self).t == old(self).t,
            final(self).mat == old(self).mat,
    {
        self.front_face = dot(&r.direction, &outward_normal) < 0;
        self.normal = if self.front_face {
            outward_normal
        } else {
            outward_normal.neg()
        };
        proof {
            let (d, n, m) = (r.direction, outward_normal, self.normal);
            if !self.front_face {
                assert(dot_spec(d, m) == -dot_spec(d, n)) by (nonlinear_arith)
                    requires
                        m.x == -n.x,
                        m.y == -n.y,
                        m.z == -n.z,
                ;
            }
        }
    }
}

} // verus!
