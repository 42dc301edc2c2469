use ff::{Field, PrimeField};
use group::{Curve, CurveAffine as _, Group};
use orchard_fixed_bases::field::{base_from_u64, BaseElement, ScalarElement};
use orchard_fixed_bases::lagrange::{evaluate, lagrange_coeffs_for_table};
use orchard_fixed_bases::point::Point;
use orchard_fixed_bases::table::build_window_table;
use orchard_fixed_bases::{FixedBase, OrchardFixedBase, TestFixedBase, NUM_WINDOWS};
use pasta_curves::arithmetic::CurveAffine as _;
use pasta_curves::pallas;

fn to_point(a: pallas::Affine) -> Point {
    if bool::from(a.is_identity()) {
        Point {
            infinity: true,
            x: BaseElement { bytes: vec![0u8; 32] },
            y: BaseElement { bytes: vec![0u8; 32] },
        }
    } else {
        let c = a.coordinates().unwrap();
        Point {
            infinity: false,
            x: BaseElement { bytes: c.x().to_repr().to_vec() },
            y: BaseElement { bytes: c.y().to_repr().to_vec() },
        }
    }
}

fn generator() -> Point {
    to_point(pallas::Point::generator().to_affine())
}

#[test]
fn evaluate_known_polynomial() {
    // 1 + 2x + 3x^2 at x = 2 is 17.
    let coeffs = vec![base_from_u64(1), base_from_u64(2), base_from_u64(3)];
    let r = evaluate(2, &coeffs);
    assert_eq!(r.bytes, base_from_u64(17).bytes);
}

#[test]
fn evaluate_empty_polynomial_is_zero() {
    let coeffs: Vec<BaseElement> = Vec::new();
    let r = evaluate(5, &coeffs);
    assert_eq!(r.bytes, base_from_u64(0).bytes);
}

#[test]
fn lagrange_round_trip_three_windows() {
    // Evaluating window w's polynomial at k reproduces the x-coordinate of
    // table entry (w, k) exactly.
    let t = build_window_table(&generator(), 3);
    let coeffs = lagrange_coeffs_for_table(&t);
    assert_eq!(coeffs.len(), 3);
    for w in 0..3 {
        assert_eq!(coeffs[w].len(), 8);
        for k in 0..8u64 {
            let ev = evaluate(k, &coeffs[w]);
            assert_eq!(ev.bytes, t[w][k as usize].x.bytes);
        }
    }
}

#[test]
fn lagrange_round_trip_all_windows() {
    let base = OrchardFixedBase::new(generator());
    let t = base.compute_window_table();
    let coeffs = base.compute_lagrange_coeffs();
    assert_eq!(coeffs.len(), NUM_WINDOWS);
    for w in 0..NUM_WINDOWS {
        for k in 0..8u64 {
            let ev = evaluate(k, &coeffs[w]);
            assert_eq!(ev.bytes, t[w][k as usize].x.bytes);
        }
    }
}

#[test]
fn lagrange_determinism() {
    let t = build_window_table(&generator(), 2);
    let c1 = lagrange_coeffs_for_table(&t);
    let c2 = lagrange_coeffs_for_table(&t);
    for w in 0..2 {
        for i in 0..8 {
            assert_eq!(c1[w][i].bytes, c2[w][i].bytes);
        }
    }
}

#[test]
fn lagrange_spot_check_passes() {
    let base = OrchardFixedBase::new(generator());
    let scalar = pallas::Scalar::from(0xdead_beef_0123_4567u64);
    let s_elem = ScalarElement { bytes: scalar.to_repr().to_vec() };
    assert!(base.test_lagrange_coeffs(&s_elem));
}

#[test]
fn lagrange_spot_check_large_scalar() {
    let base = OrchardFixedBase::new(generator());
    let scalar = pallas::Scalar::from(3u64).pow_vartime([200u64]);
    let s_elem = ScalarElement { bytes: scalar.to_repr().to_vec() };
    assert!(base.test_lagrange_coeffs(&s_elem));
}
