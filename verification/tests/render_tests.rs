use pathtracer::camera::Camera;
use pathtracer::color::{ray_color, write_color};
use pathtracer::fixed::{SCALE, T_MAX, T_MIN_HIT};
use pathtracer::hit::HitRecord;
use pathtracer::material::{reflect, Material};
use pathtracer::ray::Ray;
use pathtracer::renderer::{create_header, render, render_scene};
use pathtracer::sphere::Sphere;
use pathtracer::vector3d::{Color, Point, Vector3D};
use pathtracer::world::{Hittable, HittableList};

fn gray(v: i128) -> Color {
    Color { x: v, y: v, z: v }
}

fn down_z_ray() -> Ray {
    Ray {
        origin: Point { x: 0, y: 0, z: 0 },
        direction: Vector3D {
            x: 0,
            y: 0,
            z: -SCALE,
        },
    }
}

fn test_sphere(center_z: i128, material: Material) -> Sphere {
    Sphere {
        center: Point {
            x: 0,
            y: 0,
            z: center_z,
        },
        radius: 500_000,
        material,
    }
}

#[test]
fn sphere_hit_head_on_from_outside() {
    let s = test_sphere(-2_000_000, Material::Lambert { albedo: gray(500_000) });
    let ray = down_z_ray();
    let hit = s.hit(&ray, T_MIN_HIT, T_MAX).expect("head-on ray must hit");
    // distance to center is 2, radius is 0.5: t = 1.5 exactly
    assert_eq!(hit.t, 1_500_000);
    assert_eq!(hit.point.z, -1_500_000);
    assert_eq!(hit.normal.z, SCALE);
    assert!(hit.front_face);
}

#[test]
fn sphere_miss_with_offset_beyond_radius() {
    let s = test_sphere(-2_000_000, Material::Lambert { albedo: gray(500_000) });
    let ray = Ray {
        origin: Point {
            x: 0,
            y: 2_000_000,
            z: 0,
        },
        direction: Vector3D {
            x: 0,
            y: 0,
            z: -SCALE,
        },
    };
    assert!(s.hit(&ray, T_MIN_HIT, T_MAX).is_none());
}

#[test]
fn sphere_hit_from_inside_takes_far_root() {
    let s = test_sphere(-2_000_000, Material::Lambert { albedo: gray(500_000) });
    let ray = Ray {
        origin: Point {
            x: 0,
            y: 0,
            z: -2_000_000,
        },
        direction: Vector3D {
            x: 0,
            y: 0,
            z: -SCALE,
        },
    };
    let hit = s.hit(&ray, T_MIN_HIT, T_MAX).expect("interior ray must exit");
    assert_eq!(hit.t, 500_000);
    assert!(!hit.front_face);
    assert_eq!(hit.normal.z, SCALE);
}

#[test]
fn scene_returns_nearest_of_two_overlapping_spheres() {
    let near = test_sphere(-2_000_000, Material::Lambert { albedo: gray(500_000) });
    let far = test_sphere(-2_400_000, Material::Lambert { albedo: gray(100_000) });
    let ray = down_z_ray();

    let mut world = HittableList::new();
    world.add(Hittable::Sphere(near));
    world.add(Hittable::Sphere(far));
    let hit = world.hit(&ray, T_MIN_HIT, T_MAX).expect("both spheres lie on the ray");
    assert_eq!(hit.t, 1_500_000);

    let mut reversed = HittableList::new();
    reversed.add(Hittable::Sphere(far));
    reversed.add(Hittable::Sphere(near));
    let hit2 = reversed.hit(&ray, T_MIN_HIT, T_MAX).expect("both spheres lie on the ray");
    assert_eq!(hit2.t, 1_500_000);
}

#[test]
fn lambert_always_scatters() {
    let albedo = Color {
        x: 100_000,
        y: 700_000,
        z: 300_000,
    };
    let material = Material::Lambert { albedo };
    let hit = HitRecord {
        point: Point {
            x: 0,
            y: 0,
            z: -1_500_000,
        },
        normal: Vector3D { x: 0, y: 0, z: SCALE },
        material,
        t: 1_500_000,
        front_face: true,
    };
    let ray = down_z_ray();
    // even a noise vector exactly opposite the normal scatters (fallback)
    let noise = Vector3D {
        x: 0,
        y: 0,
        z: -SCALE,
    };
    let (attenuation, scattered) = material.scatter(&ray, &hit, noise).expect("diffuse never absorbs");
    assert_eq!(attenuation, albedo);
    assert_eq!(scattered.origin, hit.point);
    assert_eq!(scattered.direction, hit.normal);

    let noise2 = Vector3D {
        x: 400_000,
        y: 300_000,
        z: 500_000,
    };
    let (_, scattered2) = material.scatter(&ray, &hit, noise2).expect("diffuse never absorbs");
    assert_eq!(scattered2.direction.x, 400_000);
    assert_eq!(scattered2.direction.z, SCALE + 500_000);
}

#[test]
fn metal_scatters_only_away_from_surface() {
    let material = Material::Metal { albedo: gray(800_000) };
    let noise = Vector3D { x: 0, y: 0, z: 0 };
    let ray = down_z_ray();

    let front_hit = HitRecord {
        point: Point {
            x: 0,
            y: 0,
            z: -1_500_000,
        },
        normal: Vector3D { x: 0, y: 0, z: SCALE },
        material,
        t: 1_500_000,
        front_face: true,
    };
    let (_, scattered) = material.scatter(&ray, &front_hit, noise).expect("mirror reflection");
    assert_eq!(scattered.direction.z, SCALE);

    // a normal pointing along the ray sends the reflection into the surface
    let back_hit = HitRecord {
        normal: Vector3D {
            x: 0,
            y: 0,
            z: -SCALE,
        },
        ..front_hit
    };
    assert!(material.scatter(&ray, &back_hit, noise).is_none());
}

#[test]
fn reflect_mirrors_about_the_normal() {
    let v = Vector3D {
        x: 0,
        y: 0,
        z: -SCALE,
    };
    let n = Vector3D { x: 0, y: 0, z: SCALE };
    let r = reflect(v, n);
    assert_eq!(r, Vector3D { x: 0, y: 0, z: SCALE });
}

#[test]
fn integrator_returns_black_at_depth_zero() {
    let mut world = HittableList::new();
    world.add(Hittable::Sphere(test_sphere(
        -1_000_000,
        Material::Lambert { albedo: gray(700_000) },
    )));
    let ray = down_z_ray();
    let out = ray_color(&ray, &world, 0);
    assert_eq!(out, Color { x: 0, y: 0, z: 0 });
    let out_negative = ray_color(&ray, &world, -3);
    assert_eq!(out_negative, Color { x: 0, y: 0, z: 0 });
}

#[test]
fn integrator_sees_sky_on_a_miss() {
    let world = HittableList::new();
    let ray = Ray {
        origin: Point { x: 0, y: 0, z: 0 },
        direction: Vector3D { x: 0, y: 0, z: SCALE },
    };
    // unit y component is 0: halfway between white and sky blue
    let out = ray_color(&ray, &world, 5);
    assert_eq!(
        out,
        Color {
            x: 750_000,
            y: 850_000,
            z: 1_000_000,
        }
    );
}

#[test]
fn attenuation_multiplies_across_a_reflective_bounce() {
    let albedo = Color {
        x: 800_000,
        y: 600_000,
        z: 400_000,
    };
    let mut world = HittableList::new();
    world.add(Hittable::Sphere(test_sphere(-1_000_000, Material::Metal { albedo })));
    let ray = down_z_ray();
    // the mirror sends the ray straight back up to the sky; the result is the
    // albedo times the horizon sky color (0.75, 0.85, 1.0), componentwise
    let out = ray_color(&ray, &world, 2);
    assert_eq!(
        out,
        Color {
            x: 600_000,
            y: 510_000,
            z: 400_000,
        }
    );
}

#[test]
fn two_chained_bounces_exhaust_depth_two() {
    let mut world = HittableList::new();
    world.add(Hittable::Sphere(test_sphere(-1_000_000, Material::Metal { albedo: gray(800_000) })));
    world.add(Hittable::Sphere(test_sphere(
        2_000_000,
        Material::Lambert { albedo: gray(700_000) },
    )));
    let ray = down_z_ray();
    // bounce one reflects, bounce two scatters diffusely, and the recursion
    // bottoms out: the product ends in black
    let out = ray_color(&ray, &world, 2);
    assert_eq!(out, Color { x: 0, y: 0, z: 0 });
}

#[test]
fn write_color_maps_white_to_255_at_any_sample_count() {
    assert_eq!(write_color(&gray(SCALE), 1), "255 255 255\n");
    assert_eq!(write_color(&gray(7 * SCALE), 7), "255 255 255\n");
    assert_eq!(write_color(&gray(50 * SCALE), 50), "255 255 255\n");
}

#[test]
fn write_color_maps_black_to_zero() {
    assert_eq!(write_color(&gray(0), 1), "0 0 0\n");
    assert_eq!(write_color(&gray(0), 13), "0 0 0\n");
}

#[test]
fn write_color_applies_gamma_two() {
    // a quarter averages to 0.25, whose square root is 0.5: channel 128
    assert_eq!(write_color(&gray(250_000), 1), "128 128 128\n");
    assert_eq!(write_color(&gray(500_000), 2), "128 128 128\n");
}

#[test]
fn header_lists_format_dimensions_and_depth() {
    let mut s = String::new();
    create_header(&mut s, 512, 288);
    assert_eq!(s, "P3\n512 288\n255\n");
}

#[test]
fn camera_shoots_through_the_viewport_center() {
    let camera = Camera::new();
    let ray = camera.get_ray(500_000, 500_000);
    assert_eq!(ray.origin, Point { x: 0, y: 0, z: 0 });
    assert_eq!(
        ray.direction,
        Vector3D {
            x: 0,
            y: 0,
            z: -SCALE,
        }
    );
}

#[test]
fn scene_list_grows_and_clears() {
    let mut world = HittableList::new();
    assert_eq!(world.objects.len(), 0);
    world.add(Hittable::Sphere(test_sphere(
        -1_000_000,
        Material::Lambert { albedo: gray(1) },
    )));
    assert_eq!(world.objects.len(), 1);
    world.clear();
    assert_eq!(world.objects.len(), 0);
}

#[test]
fn deterministic_render_of_a_single_sphere() {
    let mut world = HittableList::new();
    world.add(Hittable::Sphere(test_sphere(-1_000_000, Material::Metal { albedo: gray(800_000) })));
    let camera = Camera::new();
    let image = render_scene(&world, &camera, 16, 9, 1, 2, false);

    let lines: Vec<&str> = image.lines().collect();
    assert_eq!(lines[0], "P3");
    assert_eq!(lines[1], "16 9");
    assert_eq!(lines[2], "255");
    assert_eq!(lines.len(), 3 + 16 * 9);
    for line in &lines[3..] {
        let channels: Vec<u32> = line
            .split(' ')
            .map(|tok| tok.parse().expect("channel must be an integer"))
            .collect();
        assert_eq!(channels.len(), 3);
        assert!(channels.iter().all(|&c| c <= 255));
    }
    // the center pixel sees the sphere, the top-left corner only sky
    let corner = lines[3];
    let center = lines[3 + 4 * 16 + 7];
    assert_ne!(corner, center);
    // rendering the same scene twice without jitter is reproducible up to
    // the diffuse noise, of which this scene has none
    let again = render_scene(&world, &camera, 16, 9, 1, 2, false);
    assert_eq!(image, again);
}

#[test]
fn demo_render_has_header_and_full_pixel_grid() {
    let image = render(16);
    let lines: Vec<&str> = image.lines().collect();
    assert_eq!(lines[0], "P3");
    assert_eq!(lines[1], "16 9");
    assert_eq!(lines[2], "255");
    assert_eq!(lines.len(), 3 + 16 * 9);
}
