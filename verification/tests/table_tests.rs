use ff::{Field, PrimeField};
use group::{Curve, CurveAffine as _, Group};
use orchard_fixed_bases::field::{BaseElement, ScalarElement};
use orchard_fixed_bases::point::Point;
use orchard_fixed_bases::table::build_window_table;
use orchard_fixed_bases::util::decompose_scalar;
use orchard_fixed_bases::{FixedBase, OrchardFixedBase, NUM_WINDOWS};
use pasta_curves::arithmetic::CurveAffine as _;
use pasta_curves::pallas;

fn to_point(a: pallas::Affine) -> Point {
    if bool::from(a.is_identity()) {
        Point {
            infinity: true,
            x: BaseElement { bytes: vec![0u8; 32] },
            y: BaseElement { bytes: vec![0u8; 32] },
        }
    } else {
        let c = a.coordinates().unwrap();
        Point {
            infinity: false,
            x: BaseElement { bytes: c.x().to_repr().to_vec() },
            y: BaseElement { bytes: c.y().to_repr().to_vec() },
        }
    }
}

fn generator() -> Point {
    to_point(pallas::Point::generator().to_affine())
}

fn points_equal(a: &Point, b: &Point) -> bool {
    a.infinity == b.infinity && a.x.bytes == b.x.bytes && a.y.bytes == b.y.bytes
}

#[test]
fn table_cardinality() {
    let t = build_window_table(&generator(), NUM_WINDOWS);
    assert_eq!(t.len(), NUM_WINDOWS);
    for row in &t {
        assert_eq!(row.len(), 8);
    }
}

#[test]
fn table_entries_two_windows() {
    // With two windows: entry (0, k) is (k+1)*G and entry (1, k) is (8k - 1)*G,
    // since the offset sum over the single non-final window is 1.
    let g = pallas::Point::generator();
    let t = build_window_table(&generator(), 2);
    for k in 0..8u64 {
        let expected = to_point((g * pallas::Scalar::from(k + 1)).to_affine());
        assert!(points_equal(&t[0][k as usize], &expected));
        let scalar = pallas::Scalar::from(8 * k) - pallas::Scalar::ONE;
        let expected = to_point((g * scalar).to_affine());
        assert!(points_equal(&t[1][k as usize], &expected));
    }
}

#[test]
fn no_infinity_outside_final_window() {
    let t = build_window_table(&generator(), NUM_WINDOWS);
    for w in 0..NUM_WINDOWS - 1 {
        for k in 0..8 {
            assert!(!t[w][k].infinity);
        }
    }
}

#[test]
fn telescoping_sum_small_scalar() {
    // Digits (3, 5) over two windows select (3+1)*G and (5*8 - 1)*G, which sum
    // to 43*G.
    let g = pallas::Point::generator();
    let t = build_window_table(&generator(), 2);
    let p0 = &t[0][3];
    let p1 = &t[1][5];
    let a0 = pallas::Affine::from_xy(
        pallas::Base::from_repr(p0.x.bytes.as_slice().try_into().unwrap()).unwrap(),
        pallas::Base::from_repr(p0.y.bytes.as_slice().try_into().unwrap()).unwrap(),
    )
    .unwrap();
    let a1 = pallas::Affine::from_xy(
        pallas::Base::from_repr(p1.x.bytes.as_slice().try_into().unwrap()).unwrap(),
        pallas::Base::from_repr(p1.y.bytes.as_slice().try_into().unwrap()).unwrap(),
    )
    .unwrap();
    let sum = (a0 + a1).to_affine();
    let expected = (g * pallas::Scalar::from(43u64)).to_affine();
    assert_eq!(sum, expected);
}

#[test]
fn telescoping_sum_full_scalar() {
    // A scalar with bits in every window: the digits select one entry per
    // window and the entries sum to scalar * G.
    let g = pallas::Point::generator();
    let scalar = pallas::Scalar::from(0x1234_5678_9abc_def1u64).pow_vartime([5u64]);
    let s_elem = ScalarElement { bytes: scalar.to_repr().to_vec() };
    let digits = decompose_scalar(&s_elem, NUM_WINDOWS);
    assert_eq!(digits.len(), NUM_WINDOWS);
    let t = build_window_table(&generator(), NUM_WINDOWS);
    let mut sum = pallas::Point::identity();
    for w in 0..NUM_WINDOWS {
        let p = &t[w][digits[w] as usize];
        if !p.infinity {
            let a = pallas::Affine::from_xy(
                pallas::Base::from_repr(p.x.bytes.as_slice().try_into().unwrap()).unwrap(),
                pallas::Base::from_repr(p.y.bytes.as_slice().try_into().unwrap()).unwrap(),
            )
            .unwrap();
            sum += a;
        }
    }
    assert_eq!(sum.to_affine(), (g * scalar).to_affine());
}

#[test]
fn table_determinism() {
    let t1 = build_window_table(&generator(), 4);
    let t2 = build_window_table(&generator(), 4);
    assert_eq!(t1.len(), t2.len());
    for w in 0..4 {
        for k in 0..8 {
            assert!(points_equal(&t1[w][k], &t2[w][k]));
        }
    }
}

#[test]
fn trait_window_table_matches_core() {
    let base = OrchardFixedBase::new(generator());
    let t1 = base.compute_window_table();
    let t2 = build_window_table(&generator(), NUM_WINDOWS);
    assert_eq!(t1.len(), t2.len());
    for w in 0..NUM_WINDOWS {
        for k in 0..8 {
            assert!(points_equal(&t1[w][k], &t2[w][k]));
        }
    }
}

#[test]
fn decompose_digits_small() {
    // 43 = 3 + 5 * 8: digit 0 is 3, digit 1 is 5, the rest are 0.
    let s = orchard_fixed_bases::field::scalar_from_u64(43);
    let digits = decompose_scalar(&s, NUM_WINDOWS);
    assert_eq!(digits[0], 3);
    assert_eq!(digits[1], 5);
    for w in 2..NUM_WINDOWS {
        assert_eq!(digits[w], 0);
    }
}

#[test]
fn decompose_digits_straddle_bytes() {
    // 0xfff has digits 7, 7, 7, 7 in base 8 across the first two bytes.
    let s = orchard_fixed_bases::field::scalar_from_u64(0xfff);
    let digits = decompose_scalar(&s, NUM_WINDOWS);
    assert_eq!(&digits[0..4], &[7, 7, 7, 7]);
    assert_eq!(digits[4], 0);
}
