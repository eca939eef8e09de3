use corewars::load_file::offset::offset_value;
use corewars::load_file::Offset;

#[test]
fn create_offset() {
    let offset = Offset::new(1234, 12);
    assert_eq!(offset.value(), 10);
}

#[test]
fn add_offset() {
    let mut offset = Offset::new(0, 12);

    assert_eq!(offset + 17_i32, Offset::new(5, 12));
    assert_eq!(offset + -17_i32, Offset::new(7, 12));
    assert_eq!(offset + Offset::new(17, 12), Offset::new(5, 12));
    assert_eq!(offset + Offset::new(-17, 12), Offset::new(7, 12));
    assert_eq!(offset + 17_i32, Offset::new(5, 12));

    offset = offset + 17_i32;
    assert_eq!(offset, Offset::new(5, 12));
    offset = Offset::new(0, 12);

    offset = offset + -17_i32;
    assert_eq!(offset, Offset::new(7, 12));
    offset = Offset::new(0, 12);

    offset = offset + Offset::new(17, 12);
    assert_eq!(offset, Offset::new(5, 12));
    offset = Offset::new(0, 12);

    offset = offset + Offset::new(-17, 12);
    assert_eq!(offset, Offset::new(7, 12));
    offset = Offset::new(0, 12);

    offset = offset + 17_i32;
    assert_eq!(offset, Offset::new(5, 12));
}

#[test]
fn sub_offset() {
    let mut offset = Offset::new(0, 12);

    assert_eq!(offset - 17_i32, Offset::new(7, 12));
    assert_eq!(offset - -17_i32, Offset::new(5, 12));
    assert_eq!(offset - Offset::new(17, 12), Offset::new(7, 12));
    assert_eq!(offset - Offset::new(-17, 12), Offset::new(5, 12));
    assert_eq!(offset - 17_i32, Offset::new(7, 12));

    offset = offset - 17_i32;
    assert_eq!(offset, Offset::new(7, 12));

    offset = Offset::new(0, 12);
    offset = offset - -17_i32;
    assert_eq!(offset, Offset::new(5, 12));

    offset = Offset::new(0, 12);
    offset = offset - Offset::new(17, 12);
    assert_eq!(offset, Offset::new(7, 12));

    offset = Offset::new(0, 12);
    offset = offset - Offset::new(-17, 12);
    assert_eq!(offset, Offset::new(5, 12));

    offset = Offset::new(0, 12);
    offset = offset - 17_i32;
    assert_eq!(offset, Offset::new(7, 12));
}

#[test]
fn mul_offset() {
    let mut offset = Offset::new(2, 12);

    assert_eq!(offset * 5_i32, Offset::new(10, 12));
    assert_eq!(offset * -5_i32, Offset::new(2, 12));
    assert_eq!(offset * Offset::new(5, 12), Offset::new(10, 12));
    assert_eq!(offset * Offset::new(-5, 12), Offset::new(2, 12));
    assert_eq!(offset * 5_i32, Offset::new(10, 12));

    offset = offset * 5_i32;
    assert_eq!(offset, Offset::new(10, 12));

    offset = Offset::new(2, 12);
    offset = offset * -5_i32;
    assert_eq!(offset, Offset::new(2, 12));

    offset = Offset::new(2, 12);
    offset = offset * Offset::new(5, 12);
    assert_eq!(offset, Offset::new(10, 12));

    offset = Offset::new(2, 12);
    offset = offset * Offset::new(-5, 12);
    assert_eq!(offset, Offset::new(2, 12));

    offset = Offset::new(2, 12);
    offset = offset * 5_i32;
    assert_eq!(offset, Offset::new(10, 12));
}

#[test]
fn div_offset() {
    let mut offset = Offset::new(10, 12);

    assert_eq!(offset / 5_i32, Offset::new(2, 12));
    assert_eq!(offset / -5_i32, Offset::new(1, 12));
    assert_eq!(offset / Offset::new(5, 12), Offset::new(2, 12));
    assert_eq!(offset / Offset::new(-5, 12), Offset::new(1, 12));
    assert_eq!(offset / 5_i32, Offset::new(2, 12));

    offset = offset / 5_i32;
    assert_eq!(offset, Offset::new(2, 12));

    offset = Offset::new(10, 12);
    offset = offset / -5_i32;
    assert_eq!(offset, Offset::new(1, 12));

    offset = Offset::new(10, 12);
    offset = offset / Offset::new(5, 12);
    assert_eq!(offset, Offset::new(2, 12));

    offset = Offset::new(10, 12);
    offset = offset / Offset::new(-5, 12);
    assert_eq!(offset, Offset::new(1, 12));

    offset = Offset::new(10, 12);
    offset = offset / 5_i32;
    assert_eq!(offset, Offset::new(2, 12));
}

#[test]
fn rem_offset() {
    let mut offset = Offset::new(8, 12);

    assert_eq!(offset % 5_i32, Offset::new(3, 12));
    assert_eq!(offset % -5_i32, Offset::new(1, 12));
    assert_eq!(offset % Offset::new(5, 12), Offset::new(3, 12));
    assert_eq!(offset % Offset::new(-5, 12), Offset::new(1, 12));
    assert_eq!(offset % 5_i32, Offset::new(3, 12));

    offset = offset % 5_i32;
    assert_eq!(offset, Offset::new(3, 12));

    offset = Offset::new(8, 12);
    offset = offset % -5_i32;
    assert_eq!(offset, Offset::new(1, 12));

    offset = Offset::new(8, 12);
    offset = offset % Offset::new(5, 12);
    assert_eq!(offset, Offset::new(3, 12));

    offset = Offset::new(8, 12);
    offset = offset % Offset::new(-5, 12);
    assert_eq!(offset, Offset::new(1, 12));

    offset = Offset::new(8, 12);
    offset = offset % 5_i32;
    assert_eq!(offset, Offset::new(3, 12));
}

#[test]
fn offset_value_is_euclidean() {
    assert_eq!(offset_value(-1, 8000), 7999);
    assert_eq!(offset_value(8000, 8000), 0);
    assert_eq!(offset_value(i32::MIN, 7), (i32::MIN as i64).rem_euclid(7) as i32);
    assert_eq!(offset_value(i32::MAX, i32::MAX), 0);
}

#[test]
fn offset_stays_in_bounds() {
    for core_size in [1, 2, 7, 8000, i32::MAX] {
        for value in [i32::MIN, -8001, -1, 0, 1, 7999, 8000, i32::MAX] {
            let offset = Offset::new(value, core_size);
            assert!(0 <= offset.value() && offset.value() < core_size);
            assert_eq!(offset.core_size(), core_size);
        }
    }
}

#[test]
fn offset_new_is_idempotent() {
    for core_size in [1, 12, 8000] {
        for value in [-8001, -13, -1, 0, 5, 12, 7999, 123456] {
            let once = Offset::new(value, core_size);
            assert_eq!(Offset::new(once.value(), core_size), once);
        }
    }
}

#[test]
fn offset_operators_are_modular() {
    let m = 8000;
    for a in [0, 1, 17, 4000, 7999] {
        for b in [1, 2, 17, 4000, 7999] {
            let x = Offset::new(a, m);
            let y = Offset::new(b, m);
            assert_eq!((x + y).value(), (a + b).rem_euclid(m));
            assert_eq!((x - y).value(), (a - b).rem_euclid(m));
            assert_eq!((x * y).value(), ((a as i64 * b as i64).rem_euclid(m as i64)) as i32);
            assert_eq!((x / y).value(), (a / b).rem_euclid(m));
            assert_eq!((x % y).value(), (a % b).rem_euclid(m));
        }
    }
}

#[test]
fn offset_product_of_large_values() {
    let m = i32::MAX;
    let x = Offset::new(m - 1, m);
    // (m - 1)^2 = m^2 - 2m + 1, which is 1 modulo m
    assert_eq!((x * x).value(), 1);
    assert_eq!((x + x).value(), m - 2);
}

#[test]
fn offset_core_sizes_are_compared() {
    let a = Offset::new(3, 12);
    assert!(a.check_core_size(Offset::new(11, 12)));
    assert!(!a.check_core_size(Offset::new(3, 13)));
}
