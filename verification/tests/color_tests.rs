use raytracer::color::Color;

const ONE: i64 = 65536;

#[test]
fn new_clamps_channels_above_one() {
    let c = Color::new(2 * ONE, ONE + 1, 3 * ONE);
    assert_eq!(c.r, ONE);
    assert_eq!(c.g, ONE);
    assert_eq!(c.b, ONE);
}

#[test]
fn new_passes_channels_in_range_unchanged() {
    let c = Color::new(0, 12345, ONE);
    assert_eq!(c.r, 0);
    assert_eq!(c.g, 12345);
    assert_eq!(c.b, ONE);
}

#[test]
fn add_clamps_at_one() {
    let a = Color::new(40000, 10, 0);
    let b = Color::new(40000, 20, ONE);
    let c = Color::add(a, b);
    assert_eq!(c.r, ONE);
    assert_eq!(c.g, 30);
    assert_eq!(c.b, ONE);
}

#[test]
fn from_rgb_is_integer_division_by_255() {
    let c = Color::from_rgb(255, 128, 0);
    assert_eq!(c.r, ONE);
    assert_eq!(c.g, 0);
    assert_eq!(c.b, 0);
}

#[test]
fn from_hex_unpacks_bytes() {
    let c = Color::from_hex(0xFF80FF);
    assert_eq!(c.r, ONE);
    assert_eq!(c.g, 0);
    assert_eq!(c.b, ONE);

    let blue = Color::from_hex(0x338DFF);
    assert_eq!(blue.r, 0);
    assert_eq!(blue.g, 0);
    assert_eq!(blue.b, ONE);
}

#[test]
fn blend_half_and_half() {
    let a = Color::new(ONE, 0, 0);
    let b = Color::new(0, 0, ONE);
    let c = Color::blend(a, b, ONE / 2);
    assert_eq!(c.r, ONE / 2);
    assert_eq!(c.g, 0);
    assert_eq!(c.b, ONE / 2);
}

#[test]
fn blend_clamps_weight() {
    let a = Color::new(ONE, 0, 0);
    let b = Color::new(0, ONE, 0);
    let all_a = Color::blend(a, b, 2 * ONE);
    assert_eq!(all_a.r, ONE);
    assert_eq!(all_a.g, 0);
    let all_b = Color::blend(a, b, -ONE);
    assert_eq!(all_b.r, 0);
    assert_eq!(all_b.g, ONE);
}
