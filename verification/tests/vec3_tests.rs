use raytracer::vec3::Vec3;

const ONE: i64 = 65536;

#[test]
fn it_adds() {
    let a = Vec3::new(1 * ONE, 2 * ONE, 3 * ONE);
    let b = Vec3::new(1 * ONE, 2 * ONE, 3 * ONE);

    let c = Vec3::new(2 * ONE, 4 * ONE, 6 * ONE);

    let sum = Vec3::add(a, b);

    assert_eq!(c.x, sum.x);
    assert_eq!(c.y, sum.y);
    assert_eq!(c.z, sum.z);
}

#[test]
fn it_subs() {
    let a = Vec3::new(1 * ONE, 2 * ONE, 3 * ONE);
    let b = Vec3::new(1 * ONE, 2 * ONE, 3 * ONE);

    let sub_1 = Vec3::sub(a, b);

    let c = Vec3::new(0, 0, 0);

    let result_1 = c;
    assert_eq!(result_1.x, sub_1.x);
    assert_eq!(result_1.y, sub_1.y);
    assert_eq!(result_1.z, sub_1.z);

    // 5.5 units is exactly 360448 steps.
    let d = Vec3::new(4 * ONE, 360448, 6 * ONE);
    let sub_2 = Vec3::sub(a, d);

    let result_2 = Vec3::new(-3 * ONE, -229376, -3 * ONE);
    assert_eq!(result_2.x, sub_2.x);
    assert_eq!(result_2.y, sub_2.y);
    assert_eq!(result_2.z, sub_2.z);
}

#[test]
fn it_mults() {
    let a = Vec3::new(1 * ONE, 2 * ONE, 3 * ONE);

    // About 4.32 units.
    let c: i64 = 283116;
    let mult_1 = Vec3::scale(a, c);

    let result_1 = Vec3::new(c, 2 * c, 3 * c);

    assert_eq!(result_1.x, mult_1.x);
    assert_eq!(result_1.y, mult_1.y);
    assert_eq!(result_1.z, mult_1.z);
}

#[test]
fn it_cross() {
    let a = Vec3::new(1 * ONE, 2 * ONE, 3 * ONE);
    let b = Vec3::new(1 * ONE, 2 * ONE, 3 * ONE);

    let c = Vec3::cross(a, b);

    let result_1 = Vec3::zero();

    assert_eq!(result_1.x, c.x);
    assert_eq!(result_1.y, c.y);
    assert_eq!(result_1.z, c.z);

    let d = Vec3::new(1 * ONE, 2 * ONE, 3 * ONE);
    let e = Vec3::new(3 * ONE, 2 * ONE, 1 * ONE);

    let f = Vec3::cross(d, e);
    let result_2 = Vec3::new(-4 * ONE, 8 * ONE, -4 * ONE);

    assert_eq!(result_2.x, f.x);
    assert_eq!(result_2.y, f.y);
    assert_eq!(result_2.z, f.z);
}

#[test]
fn it_dot() {
    let a = Vec3::new(1 * ONE, 2 * ONE, 3 * ONE);
    let b = Vec3::new(1 * ONE, 2 * ONE, 3 * ONE);

    let c = Vec3::new(3 * ONE, 2 * ONE, 1 * ONE);
    let d = Vec3::new(5 * ONE, 8 * ONE, 0);

    let result_1 = 14 * ONE;
    let result_2 = a.len_squared();

    let result_4 = 31 * ONE;

    let dot_1 = Vec3::dot(a, b);
    let dot_2 = Vec3::dot(c, d);

    assert_eq!(dot_1, result_1);
    assert_eq!(dot_1, result_2);

    assert_eq!(dot_2, result_4);
}

#[test]
fn add_commutes_on_values() {
    let a = Vec3::new(5 * ONE, -7 * ONE, 12345);
    let b = Vec3::new(-2 * ONE, 3 * ONE, 67890);
    let ab = Vec3::add(a, b);
    let ba = Vec3::add(b, a);
    assert_eq!(ab, ba);
}

#[test]
fn dot_commutes_on_values() {
    let a = Vec3::new(5 * ONE, -7 * ONE, 12345);
    let b = Vec3::new(-2 * ONE, 3 * ONE, 67890);
    assert_eq!(Vec3::dot(a, b), Vec3::dot(b, a));
}

#[test]
fn cross_with_self_is_zero() {
    let a = Vec3::new(9 * ONE, -4 * ONE, 31415);
    let c = Vec3::cross(a, a);
    assert_eq!(c, Vec3::zero());
}

#[test]
fn negate_flips_components() {
    let a = Vec3::new(ONE, -2 * ONE, 3);
    let n = Vec3::negate(a);
    assert_eq!(n, Vec3::new(-ONE, 2 * ONE, -3));
}

#[test]
fn len_of_three_four_zero_is_five() {
    let a = Vec3::new(3 * ONE, 4 * ONE, 0);
    assert_eq!(a.len(), 5 * ONE);
}

#[test]
fn normalize_three_four_zero() {
    let a = Vec3::new(3 * ONE, 4 * ONE, 0);
    let n = a.normalize();
    // 0.6 and 0.8 units, truncated toward zero.
    assert_eq!(n.x, 39321);
    assert_eq!(n.y, 52428);
    assert_eq!(n.z, 0);
}
