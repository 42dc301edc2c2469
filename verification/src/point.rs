//! Affine Pallas points carried by their coordinate bytes, together with the
//! trusted group operations (scalar multiplication and point addition).
use crate::field::{
    base_from_u64, base_modulus, le_val, lemma_le_val_injective, BaseElement, ScalarElement,
};
use ff::PrimeField;
use group::CurveAffine as _;
use pasta_curves::arithmetic::CurveAffine;
use vstd::prelude::*;

verus! {

/// The mathematical value of an affine point: an infinity flag and the two
/// coordinate values.  For the point at infinity the coordinates are zero.
pub struct PointVal {
    pub infinity: bool,
    pub x: nat,
    pub y: nat,
}

/// The Pallas curve equation, `y^2 = x^3 + 5` over the base field; the point
/// at infinity stands outside it.
pub open spec fn on_curve(v: PointVal) -> bool {
    ||| v.infinity
    ||| (v.y * v.y) % base_modulus() == (v.x * v.x * v.x + 5) % base_modulus()
}

/// An affine Pallas point: coordinates as canonical base-field bytes, with a
/// flag for the point at infinity (whose coordinates are kept at zero).
#[derive(Clone, Debug)]
pub struct Point {
    pub infinity: bool,
    pub x: BaseElement,
    pub y: BaseElement,
}

impl View for Point {
    type V = PointVal;

    open spec fn view(&self) -> PointVal {
        PointVal { infinity: self.infinity, x: self.x@, y: self.y@ }
    }
}

impl Point {
    /// Coordinates are well-formed field elements satisfying the curve
    /// equation; the point at infinity carries zero coordinates so that its
    /// value is canonical.
    pub open spec fn wf(&self) -> bool {
        &&& self.x.wf()
        &&& self.y.wf()
        &&& self.infinity ==> self.x@ == 0 && self.y@ == 0
        &&& on_curve(self@)
    }

    /// An equal point backed by fresh storage.
    pub fn duplicate(&self) -> (r: Self)
        ensures
            r@ == self@,
            r.wf() <==> self.wf(),
    {
        Point { infinity: self.infinity, x: self.x.duplicate(), y: self.y.duplicate() }
    }
}

/// The value of the point at infinity.
pub open spec fn identity_val() -> PointVal {
    PointVal { infinity: true, x: 0, y: 0 }
}

/// The point at infinity.
pub fn identity_point() -> (r: Point)
    ensures
        r.wf(),
        r@ == identity_val(),
{
    Point { infinity: true, x: base_from_u64(0), y: base_from_u64(0) }
}

/// The external Pallas affine type, declared so it can appear in signatures.
#[verifier::external_type_specification]
#[verifier::external_body]
pub struct ExPallasAffine(pasta_curves::pallas::Affine);

/// The value that a `pasta_curves` affine point holds.
pub uninterp spec fn affine_val(a: pasta_curves::pallas::Affine) -> PointVal;

/// The affine value of `s` times the point `g` on the Pallas curve.
pub uninterp spec fn mul_of(g: PointVal, s: nat) -> PointVal;

/// The affine value of the sum of the points `a` and `b` on the Pallas curve.
pub uninterp spec fn add_of(a: PointVal, b: PointVal) -> PointVal;

/// Relies on `CurveAffine::from_xy` and `CurveAffine::identity`: rebuilds
/// the `pasta_curves` affine point that this `Point`'s coordinates describe;
/// `from_xy` accepts exactly the pairs satisfying the curve equation, which
/// well-formedness guarantees.
#[verifier::external_body]
pub(crate) fn point_to_affine(p: &Point) -> (r: pasta_curves::pallas::Affine)
    requires
        p.wf(),
    ensures
        affine_val(r) == p@,
{
    let mut rx = [0u8; 32];
    rx.copy_from_slice(&p.x.bytes);
    let mut ry = [0u8; 32];
    ry.copy_from_slice(&p.y.bytes);
    if p.infinity {
        pasta_curves::pallas::Affine::identity()
    } else {
        pasta_curves::pallas::Affine::from_xy(
            pasta_curves::pallas::Base::from_repr(rx).unwrap(),
            pasta_curves::pallas::Base::from_repr(ry).unwrap(),
        ).unwrap()
    }
}

/// Relies on `CurveAffine::coordinates`, `CurveAffine::is_identity` and
/// `ff::PrimeField::to_repr`: reads an affine point's coordinates out as
/// canonical bytes (zero for the identity).  The coordinates of a point built
/// by the checked constructors and group operations satisfy the curve
/// equation, so the result is well formed.
#[verifier::external_body]
pub(crate) fn affine_to_point(a: &pasta_curves::pallas::Affine) -> (r: Point)
    ensures
        r.wf(),
        r@ == affine_val(*a),
{
    if bool::from(a.is_identity()) {
        Point { infinity: true, x: base_from_u64(0), y: base_from_u64(0) }
    } else {
        let c = a.coordinates().unwrap();
        Point {
            infinity: false,
            x: BaseElement { bytes: c.x().to_repr().to_vec() },
            y: BaseElement { bytes: c.y().to_repr().to_vec() },
        }
    }
}

/// Relies on `pasta_curves`' scalar multiplication (`Mul<&Fq>` for `&Affine`)
/// and `group::Curve::to_affine`: the result is the affine form of `s * g`, a
/// function of the two values alone.
#[verifier::external_body]
pub(crate) fn mul_affine(g: &pasta_curves::pallas::Affine, s: &ScalarElement) -> (
    r: pasta_curves::pallas::Affine)
    requires
        s.wf(),
    ensures
        affine_val(r) == mul_of(affine_val(*g), s@),
{
    let mut rs = [0u8; 32];
    rs.copy_from_slice(&s.bytes);
    let p = g * &pasta_curves::pallas::Scalar::from_repr(rs).unwrap();
    group::Curve::to_affine(&p)
}

/// Relies on `pasta_curves`' point addition (`Add` for `Affine`) and
/// `group::Curve::to_affine`: the result is the affine form of `a + b`, a
/// function of the two values alone.
#[verifier::external_body]
pub(crate) fn add_affine(
    a: &pasta_curves::pallas::Affine,
    b: &pasta_curves::pallas::Affine,
) -> (r: pasta_curves::pallas::Affine)
    ensures
        affine_val(r) == add_of(affine_val(*a), affine_val(*b)),
{
    group::Curve::to_affine(&(*a + *b))
}

/// The affine point `s * g`.
pub(crate) fn point_mul(g: &Point, s: &ScalarElement) -> (r: Point)
    requires
        g.wf(),
        s.wf(),
    ensures
        r.wf(),
        r@ == mul_of(g@, s@),
{
    let ga = point_to_affine(g);
    let p = mul_affine(&ga, s);
    affine_to_point(&p)
}

/// The affine point `a + b`.
pub(crate) fn point_add(a: &Point, b: &Point) -> (r: Point)
    requires
        a.wf(),
        b.wf(),
    ensures
        r.wf(),
        r@ == add_of(a@, b@),
{
    let pa = point_to_affine(a);
    let pb = point_to_affine(b);
    let s = add_affine(&pa, &pb);
    affine_to_point(&s)
}

/// Byte-for-byte equality of two byte vectors.
pub fn bytes_eq(a: &Vec<u8>, b: &Vec<u8>) -> (r: bool)
    ensures
        r == (a@ == b@),
{
    if a.len() != b.len() {
        return false;
    }
    let mut i: usize = 0;
    while i < a.len()
        invariant
            i <= a.len(),
            a@.len() == b@.len(),
            forall|j: int| 0 <= j < i ==> a@[j] == b@[j],
        decreases a.len() - i,
    {
        if a[i] != b[i] {
            return false;
        }
        i = i + 1;
    }
    proof {
        assert(a@ =~= b@);
    }
    true
}

/// Equality of the values of two well-formed points.
pub fn point_eq(a: &Point, b: &Point) -> (r: bool)
    requires
        a.wf(),
        b.wf(),
    ensures
        r == (a@ == b@),
{
    if a.infinity != b.infinity {
        return false;
    }
    let xs_eq = bytes_eq(&a.x.bytes, &b.x.bytes);
    let ys_eq = bytes_eq(&a.y.bytes, &b.y.bytes);
    proof {
        if a.x.bytes@ != b.x.bytes@ && a.x@ == b.x@ {
            lemma_le_val_injective(a.x.bytes@, b.x.bytes@);
        }
        if a.y.bytes@ != b.y.bytes@ && a.y@ == b.y@ {
            lemma_le_val_injective(a.y.bytes@, b.y.bytes@);
        }
    }
    xs_eq && ys_eq
}

} // verus!
