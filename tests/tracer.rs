use tracers::camera::Camera;
use tracers::color::write_color;
use tracers::fixed::ONE;
use tracers::hit::HitRecord;
use tracers::material::{schlick, Dielectric, Lambertian, Material, Metal, ScatterNoise};
use rand::rngs::StdRng;
use rand::SeedableRng;
use tracers::random::{first_in_ball, random_fraction, random_in_unit_disk, random_in_unit_sphere, random_unit_vector};
use tracers::ray::Ray;
use tracers::render::{pixel_seed, ray_color, render_pixel, trace};
use tracers::scene::{random_scene, scene_from_draws, CellDraw, CELLS, SMALL_RADIUS};
use tracers::sphere::{hit_world, Sphere};
use tracers::vec3::{length, reflect, unit_vector, Vec3};

fn v(x: i64, y: i64, z: i64) -> Vec3 {
    Vec3::new(x, y, z)
}

fn grey() -> Material {
    Material::Lambertian(Lambertian { albedo: v(ONE / 2, ONE / 2, ONE / 2) })
}

fn small_sphere() -> Sphere {
    Sphere::new(v(0, 0, -ONE), ONE / 2, grey())
}

fn quiet_noise() -> ScatterNoise {
    ScatterNoise { unit: v(0, ONE, 0), in_sphere: v(0, 0, 0), uniform: ONE - 1 }
}

fn record(p: Vec3, normal: Vec3, front_face: bool, mat: Material) -> HitRecord {
    HitRecord { p, normal, mat, t: ONE, front_face }
}

#[test]
fn empty_scene_gives_sky_gradient() {
    let world: Vec<Sphere> = Vec::new();
    let mut rng = StdRng::seed_from_u64(1);
    let ahead = Ray::new(v(0, 0, 0), v(0, 0, -ONE));
    assert_eq!(ray_color(&ahead, &world, 5, &mut rng), v(49152, 55705, 65536));
    let up = Ray::new(v(0, 0, 0), v(0, ONE, 0));
    assert_eq!(ray_color(&up, &world, 5, &mut rng), v(32768, 45875, 65536));
    let down = Ray::new(v(0, 0, 0), v(0, -ONE, 0));
    assert_eq!(ray_color(&down, &world, 5, &mut rng), v(ONE, ONE, ONE));
}

#[test]
fn sphere_hit_closed_form() {
    let s = small_sphere();
    let r = Ray::new(v(0, 0, 0), v(0, 0, -ONE));
    let h = s.hit(&r, 0, 1 << 28).expect("the ray hits the sphere");
    assert_eq!(h.t, ONE / 2);
    assert_eq!(h.normal, v(0, 0, ONE));
    assert_eq!(h.p, v(0, 0, -ONE / 2));
    assert!(h.front_face);
}

#[test]
fn near_root_behind_uses_far_root() {
    let s = small_sphere();
    let r = Ray::new(v(0, 0, -ONE), v(0, 0, -ONE));
    let h = s.hit(&r, 0, 1 << 28).expect("the far root is in range");
    assert_eq!(h.t, ONE / 2);
    assert_eq!(h.p, v(0, 0, -ONE - ONE / 2));
}

#[test]
fn both_roots_out_of_range_is_no_hit() {
    let s = small_sphere();
    let r = Ray::new(v(0, 0, 0), v(0, 0, -ONE));
    assert!(s.hit(&r, 0, ONE / 4).is_none());
    assert!(s.hit(&r, 2 * ONE, 3 * ONE).is_none());
    let away = Ray::new(v(0, 0, 0), v(0, 0, ONE));
    assert!(s.hit(&away, 0, 1 << 28).is_none());
}

#[test]
fn front_face_from_outside() {
    let s = small_sphere();
    let r = Ray::new(v(0, 0, 0), v(0, 0, -ONE));
    let h = s.hit(&r, 0, 1 << 28).unwrap();
    assert!(h.front_face);
    // The normal points away from the center (0, 0, -1), toward the viewer.
    assert!(h.normal.z > 0);
}

#[test]
fn back_face_from_inside() {
    let s = small_sphere();
    let r = Ray::new(v(0, 0, -ONE), v(0, 0, -ONE));
    let h = s.hit(&r, 0, 1 << 28).unwrap();
    assert!(!h.front_face);
    // Outward is -z at this point; the stored normal is flipped toward the origin's side.
    assert_eq!(h.normal, v(0, 0, ONE));
}

#[test]
fn nearest_sphere_wins_in_any_order() {
    let near = Sphere::new(v(0, 0, -2 * ONE), ONE / 2, grey());
    let far = Sphere::new(v(0, 0, -5 * ONE), ONE / 2, grey());
    let r = Ray::new(v(0, 0, 0), v(0, 0, -ONE));
    let a = hit_world(&vec![near, far], &r, 65, 1 << 28).unwrap();
    let b = hit_world(&vec![far, near], &r, 65, 1 << 28).unwrap();
    assert_eq!(a.t, 3 * ONE / 2);
    assert_eq!(b.t, 3 * ONE / 2);
    assert!(hit_world(&Vec::new(), &r, 65, 1 << 28).is_none());
}

#[test]
fn lambertian_and_metal_keep_albedo() {
    let albedo = v(ONE / 2, ONE / 4, ONE);
    let r_in = Ray::new(v(0, ONE, 0), v(ONE, -ONE, 0));
    let rec = record(v(ONE, 0, 0), v(0, ONE, 0), true, grey());
    let noise = quiet_noise();
    let l = Lambertian { albedo }.scatter(&r_in, &rec, &noise).unwrap();
    assert_eq!(l.attenuation, albedo);
    assert_eq!(l.scattered.origin, v(ONE, 0, 0));
    assert_eq!(l.scattered.direction, v(0, 2 * ONE, 0));
    let m = Metal { albedo, fuzz: 0 }.scatter(&r_in, &rec, &noise).unwrap();
    assert_eq!(m.attenuation, albedo);
    assert!(m.attenuation.x <= albedo.x && m.attenuation.y <= albedo.y && m.attenuation.z <= albedo.z);
    assert_eq!(m.scattered.direction, v(46341, 46342, 0));
}

#[test]
fn metal_absorbs_rays_fuzzed_into_surface() {
    let albedo = v(ONE, ONE, ONE);
    let r_in = Ray::new(v(0, ONE, 0), v(ONE, -ONE / 64, 0));
    let rec = record(v(ONE, 0, 0), v(0, ONE, 0), true, grey());
    let noise = ScatterNoise { unit: v(0, ONE, 0), in_sphere: v(0, -ONE, 0), uniform: 0 };
    assert!(Metal { albedo, fuzz: ONE }.scatter(&r_in, &rec, &noise).is_none());
}

#[test]
fn dielectric_total_internal_reflection() {
    // Leaving glass of index 1.5 at 45 degrees: 1.5 * sin(45) > 1, so the ray reflects.
    let glass = Dielectric { ir: 3 * ONE / 2 };
    let r_in = Ray::new(v(0, ONE, 0), v(ONE, -ONE, 0));
    let rec = record(v(ONE, 0, 0), v(0, ONE, 0), false, Material::Dielectric(glass));
    let s = glass.scatter(&r_in, &rec, &quiet_noise()).unwrap();
    assert_eq!(s.attenuation, v(ONE, ONE, ONE));
    assert_eq!(s.scattered.direction, v(46341, 46342, 0));
    assert_eq!(s.scattered.direction, reflect(unit_vector(r_in.direction), rec.normal));
}

#[test]
fn dielectric_reflects_at_grazing_critical_angle() {
    // Index ratio one and a grazing ray: ratio * sin_theta is exactly one.
    let glass = Dielectric { ir: ONE };
    let r_in = Ray::new(v(0, 0, 0), v(ONE, 0, 0));
    let rec = record(v(ONE, 0, 0), v(0, ONE, 0), false, Material::Dielectric(glass));
    for uniform in [0, ONE / 2, ONE - 1] {
        let noise = ScatterNoise { unit: v(0, ONE, 0), in_sphere: v(0, 0, 0), uniform };
        let s = glass.scatter(&r_in, &rec, &noise).unwrap();
        assert_eq!(s.scattered.direction, reflect(v(ONE, 0, 0), v(0, ONE, 0)));
    }
}

#[test]
fn dielectric_refracts_head_on() {
    // Entering glass head-on: reflectance is about 4%, so a high draw refracts straight on.
    let glass = Dielectric { ir: 3 * ONE / 2 };
    let r_in = Ray::new(v(0, ONE, 0), v(0, -ONE, 0));
    let rec = record(v(0, 0, 0), v(0, ONE, 0), true, Material::Dielectric(glass));
    let s = glass.scatter(&r_in, &rec, &quiet_noise()).unwrap();
    assert_eq!(s.scattered.direction, v(0, -ONE, 0));
}

#[test]
fn schlick_values() {
    assert_eq!(schlick(ONE, 2 * ONE), 7282);
    assert_eq!(schlick(0, ONE), ONE);
    assert_eq!(schlick(ONE / 2, 3 * ONE / 2), 4587);
}

#[test]
fn depth_zero_is_black() {
    let world = vec![small_sphere()];
    let mut rng = StdRng::seed_from_u64(3);
    let r = Ray::new(v(0, 0, 0), v(0, 0, -ONE));
    assert_eq!(ray_color(&r, &world, 0, &mut rng), v(0, 0, 0));
    let sky = Ray::new(v(0, 0, 0), v(0, ONE, 0));
    assert_eq!(ray_color(&sky, &world, 0, &mut rng), v(0, 0, 0));
}

#[test]
fn traced_bounce_attenuates_sky() {
    // A grey diffuse floor; the bounce goes straight up into the sky overhead.
    let floor = Sphere::new(v(0, -1000 * ONE, 0), 1000 * ONE, grey());
    let world = vec![floor];
    let r = Ray::new(v(0, ONE, 0), v(0, -ONE, 0));
    let noises = vec![ScatterNoise { unit: v(0, ONE, 0), in_sphere: v(0, 0, 0), uniform: 0 }; 2];
    let c = trace(&world, &r, 2, &noises, 0);
    assert_eq!(c, v(16384, 22937, 32768));
    let one_bounce = trace(&world, &r, 1, &noises, 0);
    assert_eq!(one_bounce, v(0, 0, 0));
}

#[test]
fn write_color_exact_bytes() {
    assert_eq!(write_color(v(ONE, ONE / 4, 0), 1), vec![255, 127, 0, 255]);
    assert_eq!(write_color(v(2 * ONE, -5, 100 * ONE), 4), vec![181, 0, 255, 255]);
    assert_eq!(write_color(v(0, 0, 0), 7), vec![0, 0, 0, 255]);
}

#[test]
fn camera_center_ray_points_ahead() {
    let cam = Camera::new(v(0, 0, 0), v(0, 0, -ONE), v(0, ONE, 0), 2 * ONE, ONE, 0, ONE).unwrap();
    let r = cam.get_ray(ONE / 2, ONE / 2, v(0, 0, 0));
    assert_eq!(r.origin, v(0, 0, 0));
    assert_eq!(r.direction, v(0, 0, -ONE));
    let corner = cam.get_ray(0, 0, v(0, 0, 0));
    assert_eq!(corner.direction, v(-ONE, -ONE, -ONE));
}

#[test]
fn camera_rejects_degenerate_views() {
    assert!(Camera::new(v(ONE, 0, 0), v(ONE, 0, 0), v(0, ONE, 0), ONE, ONE, 0, ONE).is_none());
    assert!(Camera::new(v(0, 0, 0), v(0, -ONE, 0), v(0, ONE, 0), ONE, ONE, 0, ONE).is_none());
}

#[test]
fn random_draws_are_in_range_and_vary() {
    let mut rng = StdRng::seed_from_u64(11);
    let draws: Vec<i64> = (0..32).map(|_| random_fraction(&mut rng)).collect();
    assert!(draws.iter().all(|d| (0..ONE).contains(d)));
    assert!(draws.iter().any(|d| *d != draws[0]));
    for _ in 0..16 {
        let p = random_in_unit_sphere(&mut rng);
        assert!((p.x as i128).pow(2) + (p.y as i128).pow(2) + (p.z as i128).pow(2) < (ONE as i128).pow(2));
        let u = random_unit_vector(&mut rng);
        let l = length(&u);
        assert!(l >= ONE - 8 && l <= ONE + 8, "unit length, got {}", l);
    }
}

fn three_sphere_render(seed: u32) -> Vec<u8> {
    let world = vec![
        Sphere::new(v(0, -1000 * ONE, 0), 1000 * ONE, grey()),
        Sphere::new(v(0, ONE, 0), ONE, Material::Dielectric(Dielectric { ir: 3 * ONE / 2 })),
        Sphere::new(
            v(4 * ONE, ONE, 0),
            ONE,
            Material::Metal(Metal { albedo: v(45875, 39322, 32768), fuzz: 0 }),
        ),
    ];
    let viewport_height = (2.0 * 10f64.to_radians().tan() * ONE as f64) as i64;
    let cam = Camera::new(
        v(13 * ONE, 2 * ONE, 3 * ONE),
        v(0, 0, 0),
        v(0, ONE, 0),
        viewport_height,
        (4.0 / 3.0 * ONE as f64) as i64,
        ONE / 10,
        10 * ONE,
    )
    .unwrap();
    let (width, height) = (20u32, 15u32);
    let mut bytes = Vec::new();
    for j in (0..height).rev() {
        for i in 0..width {
            let seed = pixel_seed(seed, i, j, width);
            bytes.extend(render_pixel(&cam, &world, i, j, width, height, 4, 8, seed));
        }
    }
    bytes
}

#[test]
fn render_is_reproducible_from_seed() {
    let first = three_sphere_render(42);
    let second = three_sphere_render(42);
    assert_eq!(first.len(), 20 * 15 * 4);
    assert_eq!(first, second);
    assert!(first.chunks(4).all(|px| px[3] == 255));
    let other = three_sphere_render(43);
    assert_ne!(first, other);
}

#[test]
fn random_scene_layout() {
    let mut rng = StdRng::seed_from_u64(5);
    let world = random_scene(&mut rng);
    assert!(world.len() >= 4 && world.len() <= 488);
    assert_eq!(world[0].center, v(0, -1000 * ONE, 0));
    assert_eq!(world[0].radius, 1000 * ONE);
    let n = world.len();
    assert_eq!(world[n - 3].mat, Material::Dielectric(Dielectric { ir: 3 * ONE / 2 }));
    assert_eq!(world[n - 1].center, v(4 * ONE, ONE, 0));
    assert!(world[1..n - 3].iter().all(|s| s.radius == SMALL_RADIUS && s.center.y == SMALL_RADIUS));
    let again = random_scene(&mut StdRng::seed_from_u64(5));
    assert_eq!(world, again);
}

#[test]
fn pixel_seeds_differ_per_pixel() {
    assert_eq!(pixel_seed(1, 2, 3, 10), (1u64 << 32) + 32);
    assert_ne!(pixel_seed(1, 0, 1, 10), pixel_seed(1, 1, 0, 10));
}

#[test]
fn root_equal_to_t_min_is_excluded() {
    let s = small_sphere();
    let r = Ray::new(v(0, 0, 0), v(0, 0, -ONE));
    let h = s.hit(&r, ONE / 2, 1 << 28).expect("the far root is in range");
    assert_eq!(h.t, 3 * ONE / 2);
    assert!(!h.front_face);
    assert!(s.hit(&r, 3 * ONE / 2, 1 << 28).is_none());
}

#[test]
fn random_scene_cells_and_materials() {
    let world = random_scene(&mut StdRng::seed_from_u64(9));
    let n = world.len();
    let mut previous = -1i64;
    for s in &world[1..n - 3] {
        let (a, b) = (s.center.x.div_euclid(ONE), s.center.z.div_euclid(ONE));
        assert!((-11..11).contains(&a) && (-11..11).contains(&b));
        assert!(s.center.x.rem_euclid(ONE) < 58982 && s.center.z.rem_euclid(ONE) < 58982);
        let cell = (a + 11) * 22 + (b + 11);
        assert!(cell > previous);
        previous = cell;
        match s.mat {
            Material::Lambertian(l) => assert!([l.albedo.x, l.albedo.y, l.albedo.z].iter().all(|c| (0..ONE).contains(c))),
            Material::Metal(m) => {
                assert!([m.albedo.x, m.albedo.y, m.albedo.z].iter().all(|c| (ONE / 2..ONE).contains(c)));
                assert!((0..ONE / 2).contains(&m.fuzz));
            }
            Material::Dielectric(d) => assert_eq!(d.ir, 3 * ONE / 2),
        }
    }
}

#[test]
fn camera_far_from_origin() {
    let cam = Camera::new(
        v(1500 * ONE, 20 * ONE, -1500 * ONE),
        v(1400 * ONE, 0, -1450 * ONE),
        v(0, ONE, 0),
        23111,
        116508,
        ONE / 10,
        100 * ONE,
    )
    .expect("a well-defined view");
    let r = cam.get_ray(ONE / 2, ONE / 2, v(0, 0, 0));
    assert_eq!(r.origin, v(1500 * ONE, 20 * ONE, -1500 * ONE));
    assert!(r.direction.x < 0 && r.direction.z > 0);
}

#[test]
fn first_in_ball_takes_first_accepted_draw() {
    let outside = v(-ONE, -ONE, 0);
    let corner = v(ONE - 1, ONE - 1, ONE - 1);
    let inside = v(ONE / 2, -ONE / 4, 0);
    let later = v(0, 0, ONE / 8);
    assert_eq!(first_in_ball(&vec![outside, corner, inside, later]), inside);
    assert_eq!(first_in_ball(&vec![later, inside]), later);
    assert_eq!(first_in_ball(&vec![outside, corner]), v(0, 0, 0));
    assert_eq!(first_in_ball(&Vec::new()), v(0, 0, 0));
}

#[test]
fn samplers_draw_inside_and_vary() {
    let mut rng = StdRng::seed_from_u64(21);
    let balls: Vec<Vec3> = (0..16).map(|_| random_in_unit_sphere(&mut rng)).collect();
    let disks: Vec<Vec3> = (0..16).map(|_| random_in_unit_disk(&mut rng)).collect();
    let sq = |p: &Vec3| (p.x as i128).pow(2) + (p.y as i128).pow(2) + (p.z as i128).pow(2);
    assert!(balls.iter().chain(disks.iter()).all(|p| sq(p) < (ONE as i128).pow(2)));
    assert!(disks.iter().all(|p| p.z == 0));
    assert!(balls.iter().any(|p| *p != balls[0]));
    assert!(disks.iter().any(|p| *p != disks[0]));
}

#[test]
fn ray_color_leaves_generator_on_miss_and_at_depth_zero() {
    let world = vec![small_sphere()];
    let mut rng = StdRng::seed_from_u64(17);
    let mut twin = rng.clone();
    let up = Ray::new(v(0, 0, 0), v(0, ONE, 0));
    assert_eq!(ray_color(&up, &world, 10, &mut rng), v(32768, 45875, 65536));
    let ahead = Ray::new(v(0, 0, 0), v(0, 0, -ONE));
    assert_eq!(ray_color(&ahead, &world, 0, &mut rng), v(0, 0, 0));
    assert_eq!(random_fraction(&mut rng), random_fraction(&mut twin));
}

#[test]
fn scene_from_draws_places_each_clear_cell() {
    let glass_draw = CellDraw { choose_mat: ONE - 1, fx: 0, fz: 0, first: v(0, 0, 0), second: v(0, 0, 0), fuzz: 0 };
    let draws = vec![glass_draw; CELLS];
    let world = scene_from_draws(&draws);
    // Every cell corner (a, 0.2, b) is more than 0.9 from (4, 0.2, 0) except (4, 0) itself.
    assert_eq!(world.len(), 1 + CELLS - 1 + 3);
    assert_eq!(world[1].center, v(-11 * ONE, SMALL_RADIUS, -11 * ONE));
    assert_eq!(world[1].mat, Material::Dielectric(Dielectric { ir: 3 * ONE / 2 }));
    let diffuse = CellDraw { choose_mat: 0, fx: ONE / 2, fz: 0, first: v(ONE / 2, ONE / 2, ONE / 2), second: v(ONE / 2, 0, ONE - 1), fuzz: 0 };
    let world = scene_from_draws(&vec![diffuse; CELLS]);
    assert_eq!(world[1].center, v(-11 * ONE + 29491, SMALL_RADIUS, -11 * ONE));
    assert_eq!(world[1].mat, Material::Lambertian(Lambertian { albedo: v(16384, 0, 32767) }));
    assert_eq!(scene_from_draws(&vec![diffuse; CELLS]), world);
}
