use raytracer::camera::{Camera, CameraError};
use raytracer::color::Color;
use raytracer::fx::SCALE;
use raytracer::materials::{Diffuse, Material, MaterialError, Opaque, Specular};
use raytracer::objects::Geometry;
use raytracer::plane::Plane;
use raytracer::ray::Ray;
use raytracer::sphere::Sphere;
use raytracer::vec3::Vec3;
use raytracer::world::{Background, World, WorldError};

fn simple_camera(iwidth: usize, vfov: i64, defangle: i64) -> Camera {
    Camera::new(
        Vec3::new(0, SCALE, 0),
        Vec3::new(SCALE, 0, 0),
        iwidth,
        vfov,
        SCALE,
        SCALE,
        defangle,
    )
}

#[test]
fn reflectance_outside_open_interval_is_rejected() {
    let red = Color::new(255, 0, 0);
    assert_eq!(
        Diffuse::new(red, 0).unwrap_err(),
        MaterialError::InvalidReflectance
    );
    assert_eq!(
        Diffuse::new(red, SCALE).unwrap_err(),
        MaterialError::InvalidReflectance
    );
    assert_eq!(
        Specular::new(red, -1).unwrap_err(),
        MaterialError::InvalidReflectance
    );
    let d = Diffuse::new(red, SCALE / 2).unwrap();
    assert_eq!(d.reflectance(), SCALE / 2);
    assert_eq!(d.color(), red);
}

#[test]
fn opaque_bounce_returns_the_ray_unchanged() {
    let geom = Geometry::Sphere(Sphere::new(SCALE));
    let pos = Vec3::new(0, 0, 5 * SCALE);
    let ray = Ray::new(Vec3::new(0, 0, 0), Vec3::new(0, 0, SCALE));
    let mat = Material::Opaque(Opaque::new(Color::new(255, 0, 0)));
    let out = mat.bounce(&ray, &geom, &pos, &Vec3::new(0, 0, 4 * SCALE));
    assert_eq!(out.pos(), ray.pos());
    assert_eq!(out.dir(), ray.dir());
}

#[test]
fn specular_bounce_mirrors_head_on() {
    let geom = Geometry::Plane(Plane::new(Vec3::new(0, 0, SCALE)));
    let pos = Vec3::new(0, 0, 3 * SCALE);
    let ray = Ray::new(Vec3::new(0, 0, 0), Vec3::new(0, 0, SCALE));
    let mat = Material::Specular(Specular::new(Color::new(200, 200, 200), SCALE / 2).unwrap());
    let hit = Vec3::new(0, 0, 3 * SCALE);
    let out = mat.bounce(&ray, &geom, &pos, &hit);
    assert_eq!(out.pos(), hit);
    assert_eq!(out.dir(), Vec3::new(0, 0, -SCALE));
}

#[test]
fn diffuse_bounce_starts_at_the_hit_point() {
    let geom = Geometry::Sphere(Sphere::new(SCALE));
    let pos = Vec3::new(0, 0, 5 * SCALE);
    let ray = Ray::new(Vec3::new(0, 0, 0), Vec3::new(0, 0, SCALE));
    let mat = Material::Diffuse(Diffuse::new(Color::new(0, 255, 0), SCALE / 2).unwrap());
    let hit = Vec3::new(0, 0, 4 * SCALE);
    let out = mat.bounce(&ray, &geom, &pos, &hit);
    assert_eq!(out.pos(), hit);
}

#[test]
fn camera_derives_height_from_aspect() {
    let cam = simple_camera(8, SCALE / 2, 0);
    assert_eq!(cam.get_iwidth(), 8);
    assert_eq!(cam.get_iheight(), 8);
}

#[test]
fn single_sample_without_defocus_covers_each_pixel_once() {
    let cam = simple_camera(4, SCALE / 2, 0);
    let pos = Vec3::new(0, 0, 0);
    let rays = cam.get_rays(&pos, 1);
    assert_eq!(rays.len(), 16);
    for (k, (ray, x, y)) in rays.iter().enumerate() {
        assert_eq!(*x, k / 4);
        assert_eq!(*y, k % 4);
        assert_eq!(ray.pos(), pos);
    }
}

#[test]
fn sample_count_scales_with_rays_per_pixel() {
    let cam = simple_camera(3, SCALE / 2, SCALE / 4);
    let rays = cam.get_rays(&Vec3::new(0, 0, 0), 5);
    assert_eq!(rays.len(), 45);
}

#[test]
fn lookat_antiparallel_vertical_is_degenerate() {
    // a camera looking straight up asked to look straight down
    let mut cam = Camera::new(
        Vec3::new(0, 0, SCALE),
        Vec3::new(SCALE, 0, 0),
        4,
        SCALE / 2,
        SCALE,
        SCALE,
        0,
    );
    let r = cam.lookat(Vec3::new(0, -4 * SCALE, 0), Vec3::new(0, 0, 0));
    assert_eq!(r.unwrap_err(), CameraError::DegenerateOrientation);
}

#[test]
fn lookat_sideways_recomputes_the_frame() {
    let mut cam = simple_camera(4, SCALE / 2, 0);
    let r = cam.lookat(Vec3::new(5 * SCALE, 0, 0), Vec3::new(0, 0, 0));
    assert!(r.is_ok());
}

#[test]
fn unknown_camera_names_are_reported() {
    let mut world = World::new(Background::Solid(Color::new(0, 0, 0)));
    assert_eq!(
        world.move_camera_to(Vec3::new(0, 0, 0), String::from("missing")),
        Err(WorldError::CameraNotFound)
    );
    assert_eq!(
        world.make_camera_lookat(Vec3::new(0, 0, SCALE), String::from("missing")),
        Err(WorldError::CameraNotFound)
    );
    assert!(world.render(String::from("missing"), 1, 1).is_err());
}

#[test]
fn ray_color_at_bounce_limit_is_the_background() {
    let blue = Color::new(10, 20, 200);
    let mut world = World::new(Background::Solid(blue));
    world.add_object(
        Geometry::Sphere(Sphere::new(SCALE)),
        Vec3::new(0, 0, 3 * SCALE),
        Material::Opaque(Opaque::new(Color::new(255, 0, 0))),
        String::from("ball"),
    );
    let ray = Ray::new(Vec3::new(0, 0, 0), Vec3::new(0, 0, SCALE));
    // a zero bounce budget never consults the scene
    assert_eq!(world.ray_color(&ray, 0, 0), blue);
}

#[test]
fn nearest_object_wins_the_intersection() {
    let mut world = World::new(Background::Solid(Color::new(0, 0, 0)));
    world.add_object(
        Geometry::Sphere(Sphere::new(SCALE)),
        Vec3::new(0, 0, 9 * SCALE),
        Material::Opaque(Opaque::new(Color::new(1, 1, 1))),
        String::from("far"),
    );
    world.add_object(
        Geometry::Sphere(Sphere::new(SCALE)),
        Vec3::new(0, 0, 4 * SCALE),
        Material::Opaque(Opaque::new(Color::new(2, 2, 2))),
        String::from("near"),
    );
    let ray = Ray::new(Vec3::new(0, 0, 0), Vec3::new(0, 0, SCALE));
    let (point, key) = world.intersection(&ray).expect("both spheres lie ahead");
    assert_eq!(key, String::from("near"));
    assert_eq!((point.x, point.y, point.z), (0, 0, 3 * SCALE));
}

#[test]
fn opaque_hit_returns_the_object_color_exactly() {
    let red = Color::new(255, 0, 0);
    let mut world = World::new(Background::Solid(Color::new(0, 0, 255)));
    world.add_object(
        Geometry::Sphere(Sphere::new(SCALE)),
        Vec3::new(0, 0, 4 * SCALE),
        Material::Opaque(Opaque::new(red)),
        String::from("ball"),
    );
    let ray = Ray::new(Vec3::new(0, 0, 0), Vec3::new(0, 0, SCALE));
    assert_eq!(world.ray_color(&ray, 0, 1), red);
}

#[test]
fn render_center_red_corners_background() {
    let red = Color::new(255, 0, 0);
    let blue = Color::new(0, 0, 255);
    let mut world = World::new(Background::Solid(blue));
    // the camera faces -z; a red sphere of radius one half sits on the
    // view axis two units ahead
    let cam = Camera::new(
        Vec3::new(0, SCALE, 0),
        Vec3::new(SCALE, 0, 0),
        9,
        SCALE,
        SCALE,
        SCALE,
        0,
    );
    assert_eq!(cam.get_iheight(), 9);
    world.add_camera(cam, Vec3::new(0, 0, 0), String::from("eye"));
    world.add_object(
        Geometry::Sphere(Sphere::new(SCALE / 2)),
        Vec3::new(0, 0, -2 * SCALE),
        Material::Opaque(Opaque::new(red)),
        String::from("ball"),
    );
    let img = world.render(String::from("eye"), 1, 1).expect("camera exists");
    assert_eq!(img.dim(), (9, 9));
    assert_eq!(img.pixel_at(4, 4), red);
    assert_eq!(img.pixel_at(0, 0), blue);
    assert_eq!(img.pixel_at(8, 0), blue);
    assert_eq!(img.pixel_at(0, 8), blue);
    assert_eq!(img.pixel_at(8, 8), blue);
}

#[test]
fn uniform_scene_averages_to_the_same_color() {
    // three samples of the same deterministic color average back to it
    let red = Color::new(255, 0, 0);
    let mut world = World::new(Background::Solid(red));
    let cam = simple_camera(1, SCALE / 2, 0);
    world.add_camera(cam, Vec3::new(0, 0, 0), String::from("eye"));
    let img = world.render(String::from("eye"), 1, 3).expect("camera exists");
    assert_eq!(img.pixel_at(0, 0), red);
}

#[test]
fn moved_camera_keeps_rendering() {
    let mut world = World::new(Background::Solid(Color::new(7, 7, 7)));
    world.add_camera(simple_camera(2, SCALE / 2, 0), Vec3::new(0, 0, 0), String::from("eye"));
    world
        .move_camera_to(Vec3::new(0, 0, 2 * SCALE), String::from("eye"))
        .expect("camera exists");
    let img = world.render(String::from("eye"), 1, 1).expect("camera exists");
    assert_eq!(img.dim(), (2, 2));
}

#[test]
fn diffuse_scene_renders_within_channel_range() {
    let mut world = World::new(Background::Solid(Color::new(80, 90, 100)));
    world.add_camera(simple_camera(4, SCALE / 2, 0), Vec3::new(0, 0, 0), String::from("eye"));
    world.add_object(
        Geometry::Sphere(Sphere::new(SCALE)),
        Vec3::new(0, 0, -3 * SCALE),
        Material::Diffuse(Diffuse::new(Color::new(40, 200, 40), SCALE / 2).unwrap()),
        String::from("ball"),
    );
    let img = world.render(String::from("eye"), 3, 2).expect("camera exists");
    assert_eq!(img.dim(), (4, 4));
    for x in 0..4 {
        for y in 0..4 {
            let p = img.pixel_at(x, y);
            assert!(p.r <= 255 && p.g <= 255 && p.b <= 255);
        }
    }
}

#[test]
fn random_samples_stay_in_their_ranges() {
    for _ in 0..32 {
        let u = raytracer::materials::random_unit_vector();
        assert!(u.x.abs() <= SCALE && u.y.abs() <= SCALE && u.z.abs() <= SCALE);
        assert!(u.x != 0 || u.y != 0 || u.z != 0);
        let d = raytracer::camera::random_vector_on_unit_disk(
            &Vec3::new(0, SCALE, 0),
            &Vec3::new(SCALE, 0, 0),
        );
        assert!(d.x.abs() <= SCALE && d.y.abs() <= SCALE);
        assert_eq!(d.z, 0);
    }
}
