use ray_tracing_in_a_weekend::fixed::{fx_div, fx_mul, fx_sqrt, SCALE};

#[test]
fn mul_exact_products() {
    // 2.0 * 3.0 == 6.0
    assert_eq!(fx_mul(2 * SCALE, 3 * SCALE), 6 * SCALE);
    // 0.5 * 0.5 == 0.25
    assert_eq!(fx_mul(SCALE / 2, SCALE / 2), SCALE / 4);
    // multiplying by one is the identity
    assert_eq!(fx_mul(12345, SCALE), 12345);
    assert_eq!(fx_mul(SCALE, -9876), -9876);
}

#[test]
fn mul_truncates_toward_zero() {
    // 1/65536 * 1/65536 rounds to zero
    assert_eq!(fx_mul(1, 1), 0);
    // the negative mirror also rounds to zero, not to -1
    assert_eq!(fx_mul(-1, 1), 0);
    // 3 * (1/3-ish): 21845 * 3 = 65535 raw steps
    assert_eq!(fx_mul(21845, 3 * SCALE), 65535);
    assert_eq!(fx_mul(-21845, 3 * SCALE), -65535);
}

#[test]
fn div_exact_quotients() {
    assert_eq!(fx_div(6 * SCALE, 3 * SCALE), 2 * SCALE);
    assert_eq!(fx_div(SCALE, 2 * SCALE), SCALE / 2);
    assert_eq!(fx_div(-SCALE, 2 * SCALE), -SCALE / 2);
    // dividing by one is the identity
    assert_eq!(fx_div(-4242, SCALE), -4242);
}

#[test]
fn div_truncates_toward_zero() {
    // 1.0 / 3.0 == 0.33332824... floor on the grid
    assert_eq!(fx_div(SCALE, 3 * SCALE), 21845);
    // the negative quotient truncates toward zero
    assert_eq!(fx_div(-SCALE, 3 * SCALE), -21845);
}

#[test]
fn sqrt_of_perfect_squares() {
    assert_eq!(fx_sqrt(0), 0);
    assert_eq!(fx_sqrt(SCALE), SCALE);
    assert_eq!(fx_sqrt(4 * SCALE), 2 * SCALE);
    assert_eq!(fx_sqrt(SCALE / 4), SCALE / 2);
}

#[test]
fn sqrt_rounds_down() {
    // sqrt(2) == 1.41421... -> 92681 raw steps (92682^2 > 2 * 65536^2)
    let r = fx_sqrt(2 * SCALE);
    assert_eq!(r, 92681);
    let n = 2 * (SCALE as i128) * (SCALE as i128);
    assert!((r as i128) * (r as i128) <= n);
    assert!(((r + 1) as i128) * ((r + 1) as i128) > n);
}
