use hpcrypt_mldsa::constant_time::{
    ct_abs_i32, ct_compare, ct_eq_zero, ct_gt_i32, ct_lt_i32, ct_select_i32, ct_select_u32,
    ct_swap_i32,
};

#[test]
fn test_ct_compare_equal() {
    let a = b"hello world";
    let b = b"hello world";
    assert_eq!(ct_compare(a, b), 1);
}

#[test]
fn test_ct_compare_different() {
    let a = b"hello world";
    let b = b"hello worlD";
    assert_eq!(ct_compare(a, b), 0);
}

#[test]
fn test_ct_compare_different_length() {
    let a = b"hello";
    let b = b"hello world";
    assert_eq!(ct_compare(a, b), 0);
}

#[test]
fn test_ct_eq_zero() {
    assert_eq!(ct_eq_zero(0), 1);
    assert_eq!(ct_eq_zero(1), 0);
    assert_eq!(ct_eq_zero(255), 0);
    assert_eq!(ct_eq_zero(42), 0);
}

#[test]
fn test_ct_select_u32() {
    assert_eq!(ct_select_u32(1, 100, 200), 100);
    assert_eq!(ct_select_u32(0, 100, 200), 200);
}

#[test]
fn test_ct_select_i32() {
    assert_eq!(ct_select_i32(1, -100, 200), -100);
    assert_eq!(ct_select_i32(0, -100, 200), 200);
}

#[test]
fn test_ct_lt_i32() {
    assert_eq!(ct_lt_i32(5, 10), 1);
    assert_eq!(ct_lt_i32(10, 5), 0);
    assert_eq!(ct_lt_i32(5, 5), 0);
    assert_eq!(ct_lt_i32(-5, 5), 1);
}

#[test]
fn test_ct_gt_i32() {
    assert_eq!(ct_gt_i32(10, 5), 1);
    assert_eq!(ct_gt_i32(5, 10), 0);
    assert_eq!(ct_gt_i32(5, 5), 0);
}

#[test]
fn test_ct_abs_i32() {
    assert_eq!(ct_abs_i32(5), 5);
    assert_eq!(ct_abs_i32(-5), 5);
    assert_eq!(ct_abs_i32(0), 0);
    assert_eq!(ct_abs_i32(i32::MAX), i32::MAX);
}

#[test]
fn test_ct_swap_i32() {
    let mut a = 100;
    let mut b = 200;

    ct_swap_i32(1, &mut a, &mut b);
    assert_eq!(a, 200);
    assert_eq!(b, 100);

    ct_swap_i32(0, &mut a, &mut b);
    assert_eq!(a, 200);
    assert_eq!(b, 100);
}

#[test]
fn ct_lt_i32_extreme_values() {
    assert_eq!(ct_lt_i32(i32::MIN, i32::MAX), 1);
    assert_eq!(ct_lt_i32(i32::MAX, i32::MIN), 0);
    assert_eq!(ct_gt_i32(i32::MAX, i32::MIN), 1);
}

#[test]
fn ct_swap_twice_restores() {
    let mut a = -7;
    let mut b = 123456;
    ct_swap_i32(1, &mut a, &mut b);
    ct_swap_i32(1, &mut a, &mut b);
    assert_eq!(a, -7);
    assert_eq!(b, 123456);
}
