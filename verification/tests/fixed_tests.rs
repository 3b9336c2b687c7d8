use anti_tower::fixed::{div_toward_zero, isqrt, saturate, NANOS_PER_SECOND, UNIT};
use anti_tower::group::Group;
use anti_tower::vector::{is_within, Vec3};

#[test]
fn units() {
    assert_eq!(UNIT, 1000);
    assert_eq!(NANOS_PER_SECOND, 1_000_000_000);
}

#[test]
fn division_rounds_toward_zero() {
    assert_eq!(div_toward_zero(7, 2), 3);
    assert_eq!(div_toward_zero(-7, 2), -3);
    assert_eq!(div_toward_zero(6, 3), 2);
    assert_eq!(div_toward_zero(-1, 5), 0);
    assert_eq!(div_toward_zero(0, 5), 0);
}

#[test]
fn saturate_clamps_to_the_stored_range() {
    assert_eq!(saturate(5), 5);
    assert_eq!(saturate(-5), -5);
    assert_eq!(saturate(i32::MAX as i128 + 1), i32::MAX);
    assert_eq!(saturate(i32::MIN as i128 - 1), i32::MIN);
    assert_eq!(saturate(i128::MAX), i32::MAX);
    assert_eq!(saturate(i128::MIN), i32::MIN);
}

#[test]
fn integer_square_roots() {
    assert_eq!(isqrt(0), 0);
    assert_eq!(isqrt(1), 1);
    assert_eq!(isqrt(3), 1);
    assert_eq!(isqrt(4), 2);
    assert_eq!(isqrt(99), 9);
    assert_eq!(isqrt(100), 10);
    assert_eq!(isqrt(100_000_000), 10_000);
    assert_eq!(isqrt(u128::MAX), u64::MAX);
    assert_eq!(isqrt((u64::MAX as u128) * (u64::MAX as u128) - 1), u64::MAX - 1);
}

#[test]
fn distances() {
    let a = Vec3::new(0, 0, 0);
    let b = Vec3::new(3000, 4000, 0);
    assert_eq!(a.distance_squared(&b), 25_000_000);
    assert_eq!(b.distance_squared(&a), 25_000_000);
    let c = Vec3::new(3000, 4000, 12_000);
    assert_eq!(a.distance_squared(&c), 169_000_000);
    assert_eq!(a.planar_distance_squared(&c), 25_000_000);
    assert_eq!(Vec3::zero(), a);
}

#[test]
fn farthest_points_do_not_overflow() {
    let a = Vec3::new(i32::MIN, i32::MIN, i32::MIN);
    let b = Vec3::new(i32::MAX, i32::MAX, i32::MAX);
    let side = u32::MAX as u128;
    assert_eq!(a.distance_squared(&b), 3 * side * side);
    assert!(!is_within(&a, &b, u32::MAX as u64));
    assert!(is_within(&a, &b, u64::MAX));
}

#[test]
fn within_leaves_out_both_ends() {
    let a = Vec3::new(0, 0, 0);
    let b = Vec3::new(3000, 4000, 0);
    assert!(is_within(&a, &b, 5001));
    assert!(!is_within(&a, &b, 5000));
    assert!(!is_within(&a, &b, 0));
    assert!(!is_within(&a, &a, 5000));
}

#[test]
fn translate_clamps_each_coordinate() {
    let p = Vec3::new(i32::MAX - 1, -5, 7);
    assert_eq!(p.translate(10, -10, 0), Vec3::new(i32::MAX, -15, 7));
    assert_eq!(p.translate(i128::MAX, i128::MIN, 1), Vec3::new(i32::MAX, i32::MIN, 8));
}

#[test]
fn group_masks() {
    assert_eq!(Group::player().bits(), 1);
    assert_eq!(Group::ally().bits(), 2);
    assert_eq!(Group::npc().bits(), 4);
    assert_eq!(Group::enemy().bits(), 8);
    assert_eq!(Group::weapon().bits(), 16);
    assert_eq!(Group::projectile().bits(), 32);
    assert_eq!(Group::structure().bits(), 64);
    assert_eq!(Group::numbered(1), Group::player());
    assert_eq!(Group::numbered(7), Group::structure());
    assert_eq!(Group::numbered(32).bits(), 1 << 31);
    assert_eq!(Group::all().bits(), u32::MAX);
    assert_eq!(Group::none().bits(), 0);
    assert_eq!(Group::default(), Group::all());
    assert_eq!(Group::from_bits_retain(0x48), Group::enemy() | Group::structure());
}

#[test]
fn group_operations() {
    let both = Group::ally() | Group::player();
    assert_eq!(both.bits(), 3);
    assert_eq!(both & Group::player(), Group::player());
    assert_eq!(both & Group::enemy(), Group::none());
    assert!(both.intersects(Group::ally()));
    assert!(!both.intersects(Group::enemy()));
    assert!(!both.intersects(Group::none()));
    assert!(both.contains(Group::ally()));
    assert!(!Group::ally().contains(both));
    assert!(Group::none().is_empty());
    assert!(!both.is_empty());
    assert!(Group::all().is_all());
    assert!(!both.is_all());
    assert_eq!(both.union(Group::enemy()).bits(), 11);
    assert_eq!(both.intersection(Group::ally()), Group::ally());
    assert_eq!(both.difference(Group::ally()), Group::player());
    assert_eq!(Group::none().complement(), Group::all());
}
