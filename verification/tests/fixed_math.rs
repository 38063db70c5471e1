use demosim::fixed::{clamp64, isqrt64, mul_div_sat, sat_add, sat_sub, SAT_LIM};

#[test]
fn isqrt_small_values() {
    assert_eq!(isqrt64(0), 0);
    assert_eq!(isqrt64(1), 1);
    assert_eq!(isqrt64(3), 1);
    assert_eq!(isqrt64(4), 2);
    assert_eq!(isqrt64(15), 3);
    assert_eq!(isqrt64(16), 4);
    assert_eq!(isqrt64(65536), 256);
}

#[test]
fn isqrt_large_values() {
    assert_eq!(isqrt64(u64::MAX), 4294967295);
    assert_eq!(isqrt64(1 << 62), 1 << 31);
    assert_eq!(isqrt64((1 << 62) - 1), (1 << 31) - 1);
}

/// The scaled product truncates toward zero for every sign combination.
#[test]
fn mul_div_truncates_toward_zero() {
    assert_eq!(mul_div_sat(7, 3, 2), 10);
    assert_eq!(mul_div_sat(-7, 3, 2), -10);
    assert_eq!(mul_div_sat(7, -3, 2), -10);
    assert_eq!(mul_div_sat(-7, -3, 2), 10);
    assert_eq!(mul_div_sat(0, 5, 3), 0);
}

/// Oversized products saturate instead of wrapping.
#[test]
fn arithmetic_saturates() {
    assert_eq!(mul_div_sat(i64::MAX, i64::MAX, 1), SAT_LIM);
    assert_eq!(mul_div_sat(i64::MAX, -i64::MAX, 1), -SAT_LIM);
    assert_eq!(sat_add(SAT_LIM, SAT_LIM), SAT_LIM);
    assert_eq!(sat_sub(-SAT_LIM, SAT_LIM), -SAT_LIM);
    assert_eq!(sat_add(5, 7), 12);
    assert_eq!(sat_sub(5, 7), -2);
}

#[test]
fn clamp_limits_both_sides() {
    assert_eq!(clamp64(100, 10), 10);
    assert_eq!(clamp64(-100, 10), -10);
    assert_eq!(clamp64(7, 10), 7);
}
