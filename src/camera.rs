//! A thin-lens camera mapping image-plane coordinates to rays.
use vstd::prelude::*;
use crate::fixed::{fmul, fmul_spec, lemma_const_products, LIMIT, ONE};
use crate::ray::Ray;
use crate::vec3::{
    bounded, cross, cross_spec, diff_spec, dot_spec, length_squared, lemma_fmul_within, scale_spec, sum_spec,
    unit_spec, unit_vector, Point3, Vec3,
};

verus! {

/// Every coordinate of `a` is within `m` of the same coordinate of `b`.
pub open spec fn near(a: Vec3, b: Vec3, m: int) -> bool {
    &&& -m <= a.x - b.x <= m
    &&& -m <= a.y - b.y <= m
    &&& -m <= a.z - b.z <= m
}

/// Positive fixed-point factors have a non-negative product.
proof fn lemma_fmul_nonneg(a: int, b: int)
    requires
        0 <= a,
        0 <= b,
    ensures
        0 <= fmul_spec(a, b),
{
    assert(a * b >= 0) by (nonlinear_arith)
        requires
            0 <= a,
            0 <= b,
    ;
    vstd::arithmetic::div_mod::lemma_div_is_ordered(0, a * b, ONE as int);
}

#[derive(Clone, Copy, Debug, PartialEq, Eq, Structural)]
pub struct Camera {
    pub origin: Point3,
    pub lower_left_corner: Point3,
    pub horizontal: Vec3,
    pub vertical: Vec3,
    pub u: Vec3,
    pub v: Vec3,
    pub w: Vec3,
    pub lens_radius: i64,
}

/// The ray through image-plane point `(s, t)` from the lens point `disk` (a sample of the
/// unit disk): it starts at the origin moved by `lens_radius * disk` along `u` and `v`, and
/// points at `lower_left_corner + s horizontal + t vertical`.
pub open spec fn camera_ray_spec(c: Camera, s: int, t: int, disk: Vec3) -> Ray {
    let rd = scale_spec(c.lens_radius as int, disk);
    let offset = sum_spec(scale_spec(rd.x as int, c.u), scale_spec(rd.y as int, c.v));
    let target = sum_spec(
        sum_spec(c.lower_left_corner, scale_spec(s, c.horizontal)),
        scale_spec(t, c.vertical),
    );
    Ray { origin: sum_spec(c.origin, offset), direction: diff_spec(diff_spec(target, c.origin), offset) }
}

/// The camera `Camera::new` builds: `w` points back from `lookat` to `lookfrom`, `u` to the
/// right and `v` up; the viewport spans `horizontal` and `vertical` at distance
/// `focus_dist`, with `lower_left_corner` half of each away from its center.
pub open spec fn camera_spec(
    lookfrom: Point3,
    lookat: Point3,
    vup: Vec3,
    viewport_height: int,
    aspect_ratio: int,
    aperture: int,
    focus_dist: int,
) -> Camera {
    let w = unit_spec(diff_spec(lookfrom, lookat));
    let u = unit_spec(cross_spec(vup, w));
    let v = cross_spec(w, u);
    let viewport_width = fmul_spec(aspect_ratio, viewport_height);
    let horizontal = scale_spec(fmul_spec(focus_dist, viewport_width), u);
    let vertical = scale_spec(fmul_spec(focus_dist, viewport_height), v);
    let half = ONE / 2;
    let lower_left_corner = diff_spec(
        diff_spec(diff_spec(lookfrom, scale_spec(half as int, horizontal)), scale_spec(half as int, vertical)),
        scale_spec(focus_dist, w),
    );
    Camera {
        origin: lookfrom,
        lower_left_corner,
        horizontal,
        vertical,
        u,
        v,
        w,
        lens_radius: fmul_spec(half as int, aperture) as i64,
    }
}

impl Camera {
    pub open spec fn wf(&self) -> bool {
        &&& bounded(self.origin, LIMIT / 2)
        &&& near(self.lower_left_corner, self.origin, 1280 * ONE)
        &&& bounded(self.horizontal, 512 * ONE)
        &&& bounded(self.vertical, 512 * ONE)
        &&& bounded(self.u, ONE as int)
        &&& bounded(self.v, 2 * ONE)
        &&& bounded(self.w, ONE as int)
        &&& 0 <= self.lens_radius <= 64 * ONE
    }

    /// A camera at `lookfrom` facing `lookat`, with `vup` giving the upward direction. The
    /// viewport is `viewport_height` high (twice the tangent of half the vertical field of
    /// view) and `aspect_ratio` times as wide, at distance `focus_dist`; the lens has
    /// diameter `aperture`. None when `lookfrom` equals `lookat` or `vup` is parallel to the
    /// viewing direction. The bounds keep every ray the camera makes within `LIMIT`: the
    /// positions within half of it, the viewport's width and height at the focus distance
    /// within an eighth and a sixteenth, the focus distance within a sixteenth and the
    /// aperture within a sixty-fourth.
    pub fn new(
        lookfrom: Point3,
        lookat: Point3,
        vup: Vec3,
        viewport_height: i64,
        aspect_ratio: i64,
        aperture: i64,
        focus_dist: i64,
    ) -> (res: Option<Camera>)
        requires
            bounded(lookfrom, LIMIT / 2),
            bounded(lookat, LIMIT / 2),
            bounded(vup, ONE as int),
            0 < viewport_height <= LIMIT,
            0 < aspect_ratio <= LIMIT,
            fmul_spec(aspect_ratio as int, viewport_height as int) <= LIMIT,
            0 <= aperture <= LIMIT / 64,
            0 < focus_dist <= LIMIT / 16,
            fmul_spec(focus_dist as int, fmul_spec(aspect_ratio as int, viewport_height as int))
                <= LIMIT / 8,
            fmul_spec(focus_dist as int, viewport_height as int) <= LIMIT / 16,
        ensures
            res is None <==> ({
                let back = diff_spec(lookfrom, lookat);
                dot_spec(back, back) == 0 || ({
                    let side = crate::vec3::cross_spec(vup, crate::vec3::unit_spec(back));
                    dot_spec(side, side) == 0
                })
            }),
            res matches Some(c) ==> c.wf() && c == camera_spec(
                lookfrom,
                lookat,
                vup,
                viewport_height as int,
                aspect_ratio as int,
                aperture as int,
                focus_dist as int,
            ),
    {
        proof {
            lemma_const_products();
        }
        let back = lookfrom.sub(lookat);
        if length_squared(&back) == 0 {
            return None;
        }
        let w = unit_vector(back);
        let side = cross(&vup, &w);
        if length_squared(&side) == 0 {
            return None;
        }
        let u = unit_vector(side);
        let v = cross(&w, &u);
        proof {
            lemma_fmul_within(aspect_ratio as int, viewport_height as int, 4096, 4096);
            lemma_fmul_nonneg(aspect_ratio as int, viewport_height as int);
        }
        let viewport_width = fmul(aspect_ratio, viewport_height);
        proof {
            lemma_fmul_within(focus_dist as int, viewport_width as int, 256, 4096);
            lemma_fmul_within(focus_dist as int, viewport_height as int, 256, 4096);
            lemma_fmul_nonneg(focus_dist as int, viewport_width as int);
            lemma_fmul_nonneg(focus_dist as int, viewport_height as int);
        }
        let kh = fmul(focus_dist, viewport_width);
        let kv = fmul(focus_dist, viewport_height);
        proof {
            lemma_fmul_within(kh as int, u.x as int, 512, 1);
            lemma_fmul_within(kh as int, u.y as int, 512, 1);
            lemma_fmul_within(kh as int, u.z as int, 512, 1);
            lemma_fmul_within(kv as int, v.x as int, 256, 2);
            lemma_fmul_within(kv as int, v.y as int, 256, 2);
            lemma_fmul_within(kv as int, v.z as int, 256, 2);
            lemma_fmul_within(focus_dist as int, w.x as int, 256, 1);
            lemma_fmul_within(focus_dist as int, w.y as int, 256, 1);
            lemma_fmul_within(focus_dist as int, w.z as int, 256, 1);
        }
        let horizontal = Vec3::scale(kh, u);
        let vertical = Vec3::scale(kv, v);
        let depth = Vec3::scale(focus_dist, w);
        let half = ONE / 2;
        proof {
            lemma_fmul_within(half as int, horizontal.x as int, 1, 512);
            lemma_fmul_within(half as int, horizontal.y as int, 1, 512);
            lemma_fmul_within(half as int, horizontal.z as int, 1, 512);
            lemma_fmul_within(half as int, vertical.x as int, 1, 512);
            lemma_fmul_within(half as int, vertical.y as int, 1, 512);
            lemma_fmul_within(half as int, vertical.z as int, 1, 512);
            lemma_fmul_within(half as int, aperture as int, 1, 64);
        }
        let lower_left_corner = lookfrom.sub(Vec3::scale(half, horizontal)).sub(Vec3::scale(half, vertical)).sub(
            depth,
        );
        let lens_radius = fmul(half, aperture);
        proof {
            lemma_fmul_nonneg(half as int, aperture as int);
        }
        Some(Camera { origin: lookfrom, lower_left_corner, horizontal, vertical, u, v, w, lens_radius })
    }

    /// The ray through the image-plane point `(s, t)`, each in `[0, 1]`, leaving the lens at
    /// the unit-disk sample `disk`.
    pub fn get_ray(&self, s: i64, t: i64, disk: Vec3) -> (r: Ray)
        requires
            self.wf(),
            0 <= s <= ONE,
            0 <= t <= ONE,
            bounded(disk, ONE as int),
        ensures
            r == camera_ray_spec(*self, s as int, t as int, disk),
            r.wf(),
    {
        proof {
            lemma_const_products();
            lemma_fmul_within(self.lens_radius as int, disk.x as int, 64, 1);
            lemma_fmul_within(self.lens_radius as int, disk.y as int, 64, 1);
            lemma_fmul_within(self.lens_radius as int, disk.z as int, 64, 1);
        }
        let rd = Vec3::scale(self.lens_radius, disk);
        proof {
            lemma_fmul_within(rd.x as int, self.u.x as int, 64, 1);
            lemma_fmul_within(rd.x as int, self.u.y as int, 64, 1);
            lemma_fmul_within(rd.x as int, self.u.z as int, 64, 1);
            lemma_fmul_within(rd.y as int, self.v.x as int, 64, 2);
            lemma_fmul_within(rd.y as int, self.v.y as int, 64, 2);
            lemma_fmul_within(rd.y as int, self.v.z as int, 64, 2);
            lemma_fmul_within(s as int, self.horizontal.x as int, 1, 512);
            lemma_fmul_within(s as int, self.horizontal.y as int, 1, 512);
            lemma_fmul_within(s as int, self.horizontal.z as int, 1, 512);
            lemma_fmul_within(t as int, self.vertical.x as int, 1, 512);
            lemma_fmul_within(t as int, self.vertical.y as int, 1, 512);
            lemma_fmul_within(t as int, self.vertical.z as int, 1, 512);
        }
        let offset = Vec3::scale(rd.x, self.u).add(Vec3::scale(rd.y, self.v));
        let target = self.lower_left_corner.add(Vec3::scale(s, self.horizontal)).add(Vec3::scale(t, self.vertical));
        Ray::new(self.origin.add(offset), target.sub(self.origin).sub(offset))
    }
}

} // verus!
