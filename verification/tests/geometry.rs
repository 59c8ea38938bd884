use raytracer::fx::SCALE;
use raytracer::objects::Ground;
use raytracer::plane::Plane;
use raytracer::ray::Ray;
use raytracer::sphere::Sphere;
use raytracer::triangle::Triangle;
use raytracer::mesh::Mesh;
use raytracer::vec3::Vec3;

const TOL: i64 = 66;

#[test]
fn vector_algebra_is_exact() {
    let a = Vec3::new(SCALE, 0, 0);
    let b = Vec3::new(0, SCALE, 0);
    assert_eq!(a.dot(&b), 0);
    assert_eq!(a.dot(&a), SCALE);
    let c = a.cross(&b);
    assert_eq!((c.x, c.y, c.z), (0, 0, SCALE));
    let s = a.add(&b).sub(&b);
    assert_eq!((s.x, s.y, s.z), (SCALE, 0, 0));
    assert_eq!(a.scale(2 * SCALE).x, 2 * SCALE);
    assert_eq!(Vec3::new(3 * SCALE, 4 * SCALE, 0).magnitude(), 5 * SCALE);
}

#[test]
fn ray_extrapolates_exactly() {
    let r = Ray::new(Vec3::new(0, 0, 0), Vec3::new(0, 0, 7 * SCALE));
    let d = r.dir();
    assert_eq!((d.x, d.y, d.z), (0, 0, SCALE));
    let p = r.at(3 * SCALE);
    assert_eq!((p.x, p.y, p.z), (0, 0, 3 * SCALE));
}

#[test]
fn sphere_head_on_hit_is_distance_minus_radius() {
    // a unit-radius sphere five units ahead: the hit parameter is four
    let sphere = Sphere::new(SCALE);
    let center = Vec3::new(0, 0, 5 * SCALE);
    let ray = Ray::new(Vec3::new(0, 0, 0), Vec3::new(0, 0, SCALE));
    let hit = sphere.intersection_point(&center, &ray, TOL).expect("head-on ray must hit");
    assert_eq!((hit.x, hit.y, hit.z), (0, 0, 4 * SCALE));
}

#[test]
fn sphere_behind_or_aside_misses() {
    let sphere = Sphere::new(SCALE / 2);
    let center = Vec3::new(0, 0, -5 * SCALE);
    let ray = Ray::new(Vec3::new(0, 0, 0), Vec3::new(0, 0, SCALE));
    assert!(sphere.intersection_point(&center, &ray, TOL).is_none());
    let aside = Vec3::new(10 * SCALE, 0, 5 * SCALE);
    assert!(sphere.intersection_point(&aside, &ray, TOL).is_none());
}

#[test]
fn sphere_normal_points_outward() {
    let sphere = Sphere::new(SCALE);
    let center = Vec3::new(0, 0, 0);
    let n = sphere.surface_normal(&center, &Vec3::new(2 * SCALE, 0, 0));
    assert_eq!((n.x, n.y, n.z), (SCALE, 0, 0));
}

#[test]
fn plane_hit_and_parallel_miss() {
    let plane = Plane::new(Vec3::new(0, 0, SCALE));
    let pos = Vec3::new(0, 0, 3 * SCALE);
    let toward = Ray::new(Vec3::new(0, 0, 0), Vec3::new(0, 0, SCALE));
    let hit = plane.intersection_point(&pos, &toward, TOL).expect("must hit the plane");
    assert_eq!((hit.x, hit.y, hit.z), (0, 0, 3 * SCALE));
    let parallel = Ray::new(Vec3::new(0, 0, 0), Vec3::new(SCALE, 0, 0));
    assert!(plane.intersection_point(&pos, &parallel, TOL).is_none());
}

#[test]
fn ground_hit_from_above() {
    let ground = Ground::new();
    let pos = Vec3::new(0, -2 * SCALE, 0);
    let down = Ray::new(Vec3::new(0, 0, 0), Vec3::new(0, -SCALE, 0));
    let hit = ground.intersection_point(&pos, &down, TOL).expect("must hit the ground");
    assert_eq!((hit.x, hit.y, hit.z), (0, -2 * SCALE, 0));
    let n = ground.surface_normal(&pos, &hit);
    assert_eq!((n.x, n.y, n.z), (0, SCALE, 0));
}

#[test]
fn triangle_inside_hit_and_outside_miss() {
    let tri = Triangle::new(
        Vec3::new(0, 0, 0),
        Vec3::new(SCALE, 0, 0),
        Vec3::new(0, SCALE, 0),
    );
    let pos = Vec3::new(0, 0, 0);
    let inside = Ray::new(
        Vec3::new(SCALE / 4, SCALE / 4, -SCALE),
        Vec3::new(0, 0, SCALE),
    );
    let hit = tri.intersection_point(&pos, &inside, TOL).expect("interior ray must hit");
    assert_eq!((hit.x, hit.y, hit.z), (SCALE / 4, SCALE / 4, 0));
    let outside = Ray::new(
        Vec3::new(2 * SCALE, 2 * SCALE, -SCALE),
        Vec3::new(0, 0, SCALE),
    );
    assert!(tri.intersection_point(&pos, &outside, TOL).is_none());
}

#[test]
fn triangle_distance_inside_is_perpendicular() {
    let tri = Triangle::new(
        Vec3::new(0, 0, 0),
        Vec3::new(SCALE, 0, 0),
        Vec3::new(0, SCALE, 0),
    );
    let pos = Vec3::new(0, 0, 0);
    let d = tri.distance_to_point(&pos, &Vec3::new(SCALE / 4, SCALE / 4, 3 * SCALE));
    assert_eq!(d, 3 * SCALE);
}

#[test]
fn mesh_takes_nearest_triangle() {
    let near = Triangle::new(
        Vec3::new(-SCALE, -SCALE, SCALE),
        Vec3::new(SCALE, -SCALE, SCALE),
        Vec3::new(0, SCALE, SCALE),
    );
    let far = Triangle::new(
        Vec3::new(-SCALE, -SCALE, 4 * SCALE),
        Vec3::new(SCALE, -SCALE, 4 * SCALE),
        Vec3::new(0, SCALE, 4 * SCALE),
    );
    let mesh = Mesh::new(vec![far, near]);
    let pos = Vec3::new(0, 0, 0);
    let ray = Ray::new(Vec3::new(0, 0, -2 * SCALE), Vec3::new(0, 0, SCALE));
    let hit = mesh.intersection_point(&pos, &ray, TOL).expect("mesh must be hit");
    assert_eq!(hit.z, SCALE);
    let n = mesh.surface_normal(&pos, &hit);
    assert!(n.z != 0);
}

#[test]
fn degenerate_triangle_never_hits() {
    // collinear vertices: the face normal collapses and every ray misses
    let tri = Triangle::new(
        Vec3::new(0, 0, 0),
        Vec3::new(SCALE, 0, 0),
        Vec3::new(2 * SCALE, 0, 0),
    );
    let pos = Vec3::new(0, 0, 0);
    let ray = Ray::new(Vec3::new(SCALE, 0, -SCALE), Vec3::new(0, 0, SCALE));
    assert!(tri.intersection_point(&pos, &ray, TOL).is_none());
}

#[test]
fn point_to_segment_distance_clamps_to_endpoints() {
    let a = Vec3::new(0, 0, 0);
    let b = Vec3::new(SCALE, 0, 0);
    // beyond the near endpoint: distance to that endpoint
    let d = raytracer::triangle::distance_from_point_to_line(
        &Vec3::new(-3 * SCALE, 0, 0),
        &a,
        &b,
    );
    assert_eq!(d, 3 * SCALE);
    // beside the segment: perpendicular distance
    let d2 = raytracer::triangle::distance_from_point_to_line(
        &Vec3::new(SCALE / 2, 2 * SCALE, 0),
        &a,
        &b,
    );
    assert_eq!(d2, 2 * SCALE);
}

#[test]
fn sphere_head_on_hit_with_half_unit_radius() {
    let sphere = Sphere::new(SCALE / 2);
    let center = Vec3::new(0, 0, 2 * SCALE);
    let ray = Ray::new(Vec3::new(0, 0, 0), Vec3::new(0, 0, SCALE));
    let hit = sphere.intersection_point(&center, &ray, TOL).expect("head-on ray must hit");
    assert_eq!((hit.x, hit.y, hit.z), (0, 0, SCALE + SCALE / 2));
}
