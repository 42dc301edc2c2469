use ff::{Field, PrimeField};
use group::{Curve, CurveAffine as _, Group};
use orchard_fixed_bases::field::{BaseElement, ScalarElement};
use orchard_fixed_bases::point::Point;
use orchard_fixed_bases::table::build_window_table;
use orchard_fixed_bases::zsearch::{find_z, find_zs_for_table};
use orchard_fixed_bases::{OrchardFixedBase, TestFixedBase, Z_SEARCH_BOUND};
use pasta_curves::arithmetic::CurveAffine as _;
use pasta_curves::pallas;

fn to_point(a: pallas::Affine) -> Point {
    if bool::from(a.is_identity()) {
        Point {
            infinity: true,
            x: BaseElement { bytes: vec![0u8; 32] },
            y: BaseElement { bytes: vec![0u8; 32] },
        }
    } else {
        let c = a.coordinates().unwrap();
        Point {
            infinity: false,
            x: BaseElement { bytes: c.x().to_repr().to_vec() },
            y: BaseElement { bytes: c.y().to_repr().to_vec() },
        }
    }
}

fn generator() -> Point {
    to_point(pallas::Point::generator().to_affine())
}

fn window_y_values(t: &[Vec<Point>], w: usize) -> Vec<pallas::Base> {
    t[w].iter()
        .map(|p| pallas::Base::from_repr(p.y.bytes.as_slice().try_into().unwrap()).unwrap())
        .collect()
}

fn z_is_valid(ys: &[pallas::Base], z: u64) -> bool {
    ys.iter().all(|y| {
        let plus: bool = (*y + pallas::Base::from(z)).sqrt().is_some().into();
        let minus: bool = (-*y + pallas::Base::from(z)).sqrt().is_some().into();
        plus && !minus
    })
}

fn reference_find_z(ys: &[pallas::Base], bound: u64) -> Option<u64> {
    (0..bound).find(|&z| z_is_valid(ys, z))
}

#[test]
fn find_z_agrees_with_reference_search() {
    let t = build_window_table(&generator(), 1);
    let ys = window_y_values(&t, 0);
    let lib_ys: Vec<BaseElement> = t[0].iter().map(|p| BaseElement {
        bytes: p.y.bytes.clone(),
    }).collect();
    let bound = 2000u64;
    assert_eq!(find_z(&lib_ys, bound), reference_find_z(&ys, bound));
}

#[test]
fn find_zs_single_window_agrees_with_reference() {
    // Against a direct search: same found constant (the least valid one,
    // which then satisfies the sign conditions for every point), or absence
    // for both.
    let bound = 6000u64;
    let t = build_window_table(&generator(), 1);
    let ys = window_y_values(&t, 0);
    match find_zs_for_table(&t, bound) {
        Some(zs) => {
            assert_eq!(zs.len(), 1);
            assert!(z_is_valid(&ys, zs[0]));
            assert_eq!(Some(zs[0]), reference_find_z(&ys, bound));
        }
        None => {
            assert_eq!(None, reference_find_z(&ys, bound));
        }
    }
}

#[test]
fn find_zs_none_for_tiny_bound() {
    // With a bound this small no window constant exists (checked against the
    // direct search), so the whole result is absent.
    let t = build_window_table(&generator(), 1);
    let ys = window_y_values(&t, 0);
    let bound = 3u64;
    if reference_find_z(&ys, bound).is_none() {
        assert!(find_zs_for_table(&t, bound).is_none());
    } else {
        assert!(find_zs_for_table(&t, bound).is_some());
    }
}

#[test]
fn test_z_matches_direct_check() {
    // test_z checks the windows covered by both the table and the constants;
    // here one constant, checked against the first window.
    let base = OrchardFixedBase::new(generator());
    let t = build_window_table(&generator(), 1);
    let ys = window_y_values(&t, 0);
    match reference_find_z(&ys, 6000) {
        Some(z) => assert!(base.test_z(&vec![z])),
        None => assert!(!base.test_z(&vec![0])),
    }
}

#[test]
fn test_z_rejects_bad_constant() {
    let base = OrchardFixedBase::new(generator());
    let t = build_window_table(&generator(), 1);
    let ys = window_y_values(&t, 0);
    let bad = (0..Z_SEARCH_BOUND)
        .find(|&z| !z_is_valid(&ys, z))
        .expect("some z fails");
    assert!(!base.test_z(&vec![bad]));
}

#[test]
fn find_z_determinism() {
    let t = build_window_table(&generator(), 1);
    let lib_ys: Vec<BaseElement> = t[0].iter().map(|p| BaseElement {
        bytes: p.y.bytes.clone(),
    }).collect();
    let r1 = find_z(&lib_ys, 5000);
    let r2 = find_z(&lib_ys, 5000);
    assert_eq!(r1, r2);
}

#[test]
fn find_zs_uses_scalar_field_tables() {
    // The searched table is built from the generator each time; two runs on
    // equal tables give identical vectors.
    let t = build_window_table(&generator(), 2);
    let bound = 20_000u64;
    let r1 = find_zs_for_table(&t, bound);
    let r2 = find_zs_for_table(&t, bound);
    assert_eq!(r1, r2);
}

#[test]
fn scalar_element_round_trip() {
    let scalar = pallas::Scalar::from(7u64).pow_vartime([30u64]);
    let s_elem = ScalarElement { bytes: scalar.to_repr().to_vec() };
    let back = pallas::Scalar::from_repr(s_elem.bytes.as_slice().try_into().unwrap()).unwrap();
    assert_eq!(scalar, back);
}
