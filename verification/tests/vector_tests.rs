use pathtracer::fixed::{isqrt, SCALE};
use pathtracer::ray::{dot, Ray};
use pathtracer::util::degrees_to_radians;
use pathtracer::vector3d::{
    random_in_unit_sphere, random_unit_vector, scalar_mul, scalar_sub, unit_vector, Color, Point,
    Vector3D,
};

#[test]
fn test_vector3d_negative() {
    let vector = Vector3D {
        x: 1_000_000,
        y: 2_000_000,
        z: 3_000_000,
    };
    let negative = vector.neg();
    assert_eq!(negative.x, -1_000_000);
    assert_eq!(negative.y, -2_000_000);
    assert_eq!(negative.z, -3_000_000);
}

#[test]
fn test_vector3d_add() {
    let first = Vector3D {
        x: 1_000_000,
        y: 2_000_000,
        z: 3_000_000,
    };
    let second = Vector3D {
        x: 4_000_000,
        y: 5_000_000,
        z: 6_000_000,
    };
    let sum = first.add(second);
    assert_eq!(sum.x, 5_000_000);
    assert_eq!(sum.y, 7_000_000);
    assert_eq!(sum.z, 9_000_000);
}

#[test]
fn test_vector3d_subtract_vector3d() {
    let first = Vector3D {
        x: 1_000_000,
        y: 2_000_000,
        z: 3_000_000,
    };
    let second = Vector3D {
        x: 4_000_000,
        y: 5_000_000,
        z: 6_000_000,
    };
    let difference = first.sub(second);
    assert_eq!(difference.x, -3_000_000);
    assert_eq!(difference.y, -3_000_000);
    assert_eq!(difference.z, -3_000_000);
}

#[test]
fn test_f64_subtract_vector3d() {
    let first: i128 = 1_000_000;
    let second = Vector3D {
        x: 4_000_000,
        y: 5_000_000,
        z: 6_000_000,
    };
    let difference = scalar_sub(first, second);
    assert_eq!(difference.x, -3_000_000);
    assert_eq!(difference.y, -4_000_000);
    assert_eq!(difference.z, -5_000_000);
}

#[test]
fn test_vector3d_multiply_vector3d() {
    let first = Vector3D {
        x: 1_000_000,
        y: 2_000_000,
        z: 3_000_000,
    };
    let second = Vector3D {
        x: 4_000_000,
        y: 5_000_000,
        z: 6_000_000,
    };
    let product = first.mul(second);
    assert_eq!(product.x, 4_000_000);
    assert_eq!(product.y, 10_000_000);
    assert_eq!(product.z, 18_000_000);
}

#[test]
fn test_vector3d_multiply_f64() {
    let vector = Vector3D {
        x: 1_000_000,
        y: 2_000_000,
        z: 3_000_000,
    };
    let product = vector.mul_s(2_000_000);
    assert_eq!(product.x, 2_000_000);
    assert_eq!(product.y, 4_000_000);
    assert_eq!(product.z, 6_000_000);
}

#[test]
fn test_f64_multiply_vector3d() {
    let vector = Vector3D {
        x: 1_000_000,
        y: 2_000_000,
        z: 3_000_000,
    };
    let product = scalar_mul(2_000_000, vector);
    assert_eq!(product.x, 2_000_000);
    assert_eq!(product.y, 4_000_000);
    assert_eq!(product.z, 6_000_000);
}

#[test]
fn test_vector3d_divide_vector32() {
    let first = Vector3D {
        x: 1_000_000,
        y: 2_000_000,
        z: 3_000_000,
    };
    let second = Vector3D {
        x: 4_000_000,
        y: 5_000_000,
        z: 6_000_000,
    };
    let quotient = first.div(second);
    assert_eq!(quotient.x, 250_000);
    assert_eq!(quotient.y, 400_000);
    assert_eq!(quotient.z, 500_000);
}

#[test]
fn test_vector3d_divide_f64() {
    let vector = Vector3D {
        x: 1_000_000,
        y: 2_000_000,
        z: 3_000_000,
    };
    let quotient = vector.div_s(2_000_000);
    assert_eq!(quotient.x, 500_000);
    assert_eq!(quotient.y, 1_000_000);
    assert_eq!(quotient.z, 1_500_000);
}

#[test]
fn test_vector3d_length_squared() {
    let vector = Vector3D {
        x: 1_000_000,
        y: 2_000_000,
        z: 3_000_000,
    };
    assert_eq!(vector.length_squared(), 14_000_000_000_000);
}

#[test]
fn test_vector3d_length() {
    let vector = Vector3D {
        x: 1_000_000,
        y: 2_000_000,
        z: 3_000_000,
    };
    assert_eq!(
        vector.length(),
        isqrt(vector.length_squared() as u128) as i128
    );
}

#[test]
fn test_color_get_color() {
    let color = Color {
        x: 500_000,
        y: 600_000,
        z: 700_000,
    };
    assert_eq!(color.get_color(), "127 153 179");
}

#[test]
fn test_ray_at() {
    let ray = Ray {
        origin: Point {
            x: 1_000_000,
            y: 2_000_000,
            z: 4_000_000,
        },
        direction: Vector3D {
            x: 1_000_000,
            y: 2_000_000,
            z: 6_000_000,
        },
    };
    let point = ray.at(5_000_000);
    assert_eq!(point.x, 6_000_000);
    assert_eq!(point.y, 12_000_000);
    assert_eq!(point.z, 34_000_000);
}

#[test]
fn test_dot() {
    let first = Vector3D {
        x: 1_000_000,
        y: 2_000_000,
        z: 3_000_000,
    };
    let second = Vector3D {
        x: 4_000_000,
        y: 5_000_000,
        z: 6_000_000,
    };
    let dot_product = dot(first, second);
    assert_eq!(dot_product, 32_000_000_000_000);
}

#[test]
fn unit_vector_of_exact_pythagorean_triple() {
    let v = Vector3D {
        x: 3_000_000,
        y: 4_000_000,
        z: 0,
    };
    let u = unit_vector(v);
    assert_eq!(u.x, 600_000);
    assert_eq!(u.y, 800_000);
    assert_eq!(u.z, 0);
    assert_eq!(u.length(), SCALE);
}

#[test]
fn unit_vector_length_is_one_within_tolerance() {
    let v = Vector3D {
        x: 1_000_000,
        y: 1_000_000,
        z: 1_000_000,
    };
    let u = unit_vector(v);
    let len = u.length();
    assert!(len >= SCALE - 2 && len <= SCALE);

    let w = Vector3D {
        x: -7_250_000,
        y: 1_333_333,
        z: 4_100_999,
    };
    let uw = unit_vector(w);
    let len_w = uw.length();
    assert!(len_w >= SCALE - 2 && len_w <= SCALE);
}

#[test]
fn random_in_unit_sphere_is_interior_and_nonzero() {
    for _ in 0..100 {
        let p = random_in_unit_sphere();
        let sq = p.length_squared();
        assert!(sq > 0);
        assert!(sq < SCALE * SCALE);
    }
}

#[test]
fn random_unit_vector_is_bounded() {
    for _ in 0..100 {
        let u = random_unit_vector();
        assert!(u.x.abs() <= SCALE && u.y.abs() <= SCALE && u.z.abs() <= SCALE);
        let len = u.length();
        assert!(len > 0 && len <= 1_732_051);
    }
}

#[test]
fn is_near_zero_detects_only_the_zero_grid_point() {
    let zero = Vector3D { x: 0, y: 0, z: 0 };
    assert!(zero.is_near_zero());
    let tiny = Vector3D { x: 1, y: 0, z: 0 };
    assert!(!tiny.is_near_zero());
}

#[test]
fn degrees_to_radians_of_straight_angle() {
    assert_eq!(degrees_to_radians(180_000_000), 3_141_593);
    assert_eq!(degrees_to_radians(0), 0);
}
