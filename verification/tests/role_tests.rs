use ff::PrimeField;
use group::{Curve, CurveAffine as _, Group};
use orchard_fixed_bases::field::BaseElement;
use orchard_fixed_bases::point::Point;
use orchard_fixed_bases::{
    OrchardFixedBase, OrchardFixedBases, FIXED_BASE_WINDOW_SIZE, H, NUM_WINDOWS,
};
use pasta_curves::arithmetic::CurveAffine as _;
use pasta_curves::pallas;

fn to_point(a: pallas::Affine) -> Point {
    let c = a.coordinates().unwrap();
    Point {
        infinity: false,
        x: BaseElement { bytes: c.x().to_repr().to_vec() },
        y: BaseElement { bytes: c.y().to_repr().to_vec() },
    }
}

fn generator() -> Point {
    to_point(pallas::Point::generator().to_affine())
}

fn double_generator() -> Point {
    to_point((pallas::Point::generator() + pallas::Point::generator()).to_affine())
}

#[test]
fn constants_are_consistent() {
    assert_eq!(FIXED_BASE_WINDOW_SIZE, 3);
    assert_eq!(H, 1 << FIXED_BASE_WINDOW_SIZE);
    assert_eq!(NUM_WINDOWS, 255 / FIXED_BASE_WINDOW_SIZE);
}

#[test]
fn new_and_value_round_trip() {
    let g = generator();
    let base = OrchardFixedBase::new(to_point(pallas::Point::generator().to_affine()));
    let v = base.value();
    assert_eq!(v.infinity, g.infinity);
    assert_eq!(v.x.bytes, g.x.bytes);
    assert_eq!(v.y.bytes, g.y.bytes);
}

#[test]
fn inner_returns_wrapped_generator() {
    let tagged = OrchardFixedBases::NullifierK(OrchardFixedBase::new(generator()));
    let inner = tagged.inner();
    let v = inner.value();
    assert_eq!(v.x.bytes, generator().x.bytes);
}

#[test]
fn equality_is_by_role() {
    // Two tagged generators with the same role are equal even when they wrap
    // different points; different roles are never equal.
    let a = OrchardFixedBases::CommitIvkR(OrchardFixedBase::new(generator()));
    let b = OrchardFixedBases::CommitIvkR(OrchardFixedBase::new(double_generator()));
    let c = OrchardFixedBases::NoteCommitR(OrchardFixedBase::new(generator()));
    assert!(a == b);
    assert!(!(a == c));
    assert!(!(b == c));
}

#[test]
fn all_five_roles_distinct() {
    let mk = || OrchardFixedBase::new(generator());
    let roles = vec![
        OrchardFixedBases::CommitIvkR(mk()),
        OrchardFixedBases::NoteCommitR(mk()),
        OrchardFixedBases::NullifierK(mk()),
        OrchardFixedBases::ValueCommitR(mk()),
        OrchardFixedBases::ValueCommitV(mk()),
    ];
    for i in 0..roles.len() {
        for j in 0..roles.len() {
            assert_eq!(roles[i] == roles[j], i == j);
        }
    }
}
