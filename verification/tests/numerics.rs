use vrust::beta0_from_r0;
use vrust::spectral_radius_power_iteration;
use vrust::Fix;

fn fx(i: i64) -> Fix {
    Fix::from_int(i)
}

fn ratio(n: i64, d: i64) -> Fix {
    Fix::from_ratio(n, d)
}

fn approx(x: Fix) -> f64 {
    x.raw as f64 / 4294967296.0
}

#[test]
fn fix_add_sub_are_exact() {
    assert_eq!(fx(3).qadd(fx(4)).raw, fx(7).raw);
    assert_eq!(fx(3).qsub(fx(4)).raw, fx(-1).raw);
    assert_eq!(fx(0).qadd(fx(0)).raw, 0);
}

#[test]
fn fix_mul_matches_whole_numbers() {
    assert_eq!(fx(6).qmul(ratio(1, 2)).raw, fx(3).raw);
    assert_eq!(fx(-6).qmul(ratio(1, 2)).raw, fx(-3).raw);
    assert_eq!(fx(7).qmul(fx(0)).raw, 0);
}

#[test]
fn fix_div_truncates_toward_zero() {
    // 1/3 in Q32.32 is the truncation of 2^32 / 3.
    assert_eq!(ratio(1, 3).raw, 4294967296i128 / 3);
    assert_eq!(ratio(-1, 3).raw, -(4294967296i128 / 3));
    // Division by zero is guarded to zero.
    assert_eq!(fx(5).qdiv(fx(0)).raw, 0);
}

#[test]
fn fix_add_saturates_at_bound() {
    let top = Fix::from_raw(4611686018427387904);
    assert_eq!(top.qadd(fx(1)).raw, 4611686018427387904);
    assert_eq!(top.qneg().qsub(fx(1)).raw, -4611686018427387904);
}

#[test]
fn fix_sqrt_exact_and_approximate() {
    assert_eq!(fx(4).qsqrt().raw, fx(2).raw);
    assert_eq!(fx(0).qsqrt().raw, 0);
    assert_eq!(fx(-9).qsqrt().raw, 0);
    let r = approx(fx(2).qsqrt());
    assert!((r - 1.4142135623730951).abs() < 1e-9);
}

#[test]
fn spectral_radius_of_identity_like_matrices() {
    let one = vec![vec![fx(1)]];
    let r = spectral_radius_power_iteration(&one, 1000, Fix::from_raw(1));
    assert!((approx(r) - 1.0).abs() < 1e-6);

    let zero = vec![vec![fx(0)]];
    let r0 = spectral_radius_power_iteration(&zero, 1000, Fix::from_raw(1));
    assert_eq!(r0.raw, 0);
}

#[test]
fn spectral_radius_of_symmetric_two_by_two() {
    // Eigenvalues of [[8,2],[2,6]] are 7 +- sqrt(5); the dominant one is
    // 7 + sqrt(5).
    let c = vec![vec![fx(8), fx(2)], vec![fx(2), fx(6)]];
    let r = spectral_radius_power_iteration(&c, 10000, Fix::from_raw(1));
    let expected = 7.0 + 5.0f64.sqrt();
    assert!((approx(r) - expected).abs() < 1e-5);
}

#[test]
fn calibration_round_trip_recovers_r0() {
    let c = vec![vec![fx(8), fx(2)], vec![fx(2), fx(6)]];
    let gamma = ratio(1, 5);
    let r0 = ratio(5, 2);
    let beta0 = beta0_from_r0(&c, gamma, r0);
    let expected_beta0 = 2.5 * 0.2 / (7.0 + 5.0f64.sqrt());
    assert!(beta0.raw > 0);
    assert!((approx(beta0) - expected_beta0).abs() < 1e-6);

    // rho(beta0 * C / gamma) must come back to R0.
    let mut scaled: Vec<Vec<Fix>> = Vec::new();
    for row in &c {
        let mut out_row: Vec<Fix> = Vec::new();
        for v in row {
            out_row.push(beta0.qmul(*v).qdiv(gamma));
        }
        scaled.push(out_row);
    }
    let rho = spectral_radius_power_iteration(&scaled, 10000, Fix::from_raw(1));
    assert!((approx(rho) - 2.5).abs() < 1e-4);
}

#[test]
fn calibration_floors_degenerate_matrix() {
    // A zero contact matrix has spectral radius zero; the floor keeps the
    // division defined and the result huge but finite.
    let c = vec![vec![fx(0), fx(0)], vec![fx(0), fx(0)]];
    let beta0 = beta0_from_r0(&c, ratio(1, 5), ratio(5, 2));
    assert!(beta0.raw > 0);
}
