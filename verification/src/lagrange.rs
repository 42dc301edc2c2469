//! Lagrange coefficients: for each window, the monomial coefficients of the
//! unique degree-7 polynomial through `(k, x_k)` for `k` in `[0, 8)`, where
//! `x_k` is the x-coordinate of the window's `k`-th table entry, so a circuit
//! can select an x-coordinate by one polynomial evaluation.
use crate::field::{
    base_add, base_from_u64, base_modulus, base_mul, elems_view, elems_wf, BaseElement,
};
use crate::point::{Point, PointVal};
use crate::table::table_view;
use vstd::arithmetic::div_mod::lemma_add_mod_noop_right;
use vstd::prelude::*;

verus! {

/// The external Pallas base-field type, declared so it can appear in signatures.
#[verifier::external_type_specification]
#[verifier::external_body]
pub struct ExPallasBase(pasta_curves::pallas::Base);

/// The value that a `pasta_curves` base-field element holds.
pub uninterp spec fn fp_val(a: pasta_curves::pallas::Base) -> nat;

/// The values that a sequence of `pasta_curves` elements holds.
pub open spec fn ffs_view(s: Seq<pasta_curves::pallas::Base>) -> Seq<nat> {
    s.map_values(|a: pasta_curves::pallas::Base| fp_val(a))
}

/// Relies on `ff::PrimeField::from_repr` for `Fp`: parses canonical
/// little-endian bytes into the element with that value.
#[verifier::external_body]
pub(crate) fn base_to_ff(e: &BaseElement) -> (r: pasta_curves::pallas::Base)
    requires
        e.wf(),
    ensures
        fp_val(r) == e@,
{
    let mut a = [0u8; 32];
    a.copy_from_slice(&e.bytes);
    ff::PrimeField::from_repr(a).unwrap()
}

/// Relies on `ff::PrimeField::to_repr` for `Fp`: reads an element back out as
/// its canonical little-endian bytes.
#[verifier::external_body]
pub(crate) fn ff_to_base(a: &pasta_curves::pallas::Base) -> (r: BaseElement)
    ensures
        r.wf(),
        r@ == fp_val(*a),
{
    BaseElement { bytes: ff::PrimeField::to_repr(a).to_vec() }
}

/// The coefficients, lowest degree first, of the unique polynomial of degree
/// below `points.len()` over the base field with `P(points[i]) == evals[i]`.
pub uninterp spec fn lagrange_of(points: Seq<nat>, evals: Seq<nat>) -> Seq<nat>;

/// Relies on `halo2_proofs::arithmetic::lagrange_interpolate`: the monomial
/// coefficients (lowest degree first, one per node) of the interpolation
/// polynomial through `(points[i], evals[i])`, a function of the values alone.
#[verifier::external_body]
pub(crate) fn interpolate_ff(
    points: &Vec<pasta_curves::pallas::Base>,
    evals: &Vec<pasta_curves::pallas::Base>,
) -> (r: Vec<pasta_curves::pallas::Base>)
    requires
        points@.len() == evals@.len(),
        points@.len() >= 1,
    ensures
        r@.len() == evals@.len(),
        ffs_view(r@) == lagrange_of(ffs_view(points@), ffs_view(evals@)),
{
    halo2_proofs::arithmetic::lagrange_interpolate(points, evals)
}

/// The interpolation nodes `0, 1, ..., h-1`.
pub open spec fn node_vals(h: int) -> Seq<nat> {
    Seq::new(h as nat, |i: int| i as nat)
}

/// The x-coordinates of window `w` of a table.
pub open spec fn window_xs(t: Seq<Seq<PointVal>>, w: int) -> Seq<nat> {
    t[w].map_values(|p: PointVal| p.x)
}

/// The interpolation nodes as field elements.
fn build_nodes() -> (r: Vec<pasta_curves::pallas::Base>)
    ensures
        r@.len() == 8,
        ffs_view(r@) =~= node_vals(8),
{
    let mut r: Vec<pasta_curves::pallas::Base> = Vec::new();
    let mut i: usize = 0;
    while i < 8
        invariant
            i <= 8,
            r@.len() == i,
            forall|j: int| 0 <= j < i ==> fp_val(#[trigger] r@[j]) == j,
        decreases 8 - i,
    {
        let e = base_from_u64(i as u64);
        r.push(base_to_ff(&e));
        i = i + 1;
    }
    r
}

/// Derives the Lagrange coefficients of every window of a table: window `w`
/// gets the coefficients of the polynomial through `(k, x_k)` for its eight
/// x-coordinates.
pub fn lagrange_coeffs_for_table(t: &Vec<Vec<Point>>) -> (r: Vec<Vec<BaseElement>>)
    requires
        crate::table::table_points_wf(t@),
        forall|w: int| 0 <= w < t@.len() ==> (#[trigger] t@[w])@.len() == 8,
    ensures
        r@.len() == t@.len(),
        forall|w: int| 0 <= w < t@.len() ==> (#[trigger] r@[w])@.len() == 8,
        forall|w: int| 0 <= w < t@.len() ==> elems_wf((#[trigger] r@[w])@),
        forall|w: int|
            0 <= w < t@.len() ==> elems_view((#[trigger] r@[w])@) == lagrange_of(
                node_vals(8),
                window_xs(table_view(t@), w),
            ),
{
    let nodes = build_nodes();
    let mut r: Vec<Vec<BaseElement>> = Vec::new();
    let mut w: usize = 0;
    while w < t.len()
        invariant
            w <= t@.len(),
            crate::table::table_points_wf(t@),
            forall|i: int| 0 <= i < t@.len() ==> (#[trigger] t@[i])@.len() == 8,
            nodes@.len() == 8,
            ffs_view(nodes@) == node_vals(8),
            r@.len() == w,
            forall|i: int| 0 <= i < w ==> (#[trigger] r@[i])@.len() == 8,
            forall|i: int| 0 <= i < w ==> elems_wf((#[trigger] r@[i])@),
            forall|i: int|
                0 <= i < w ==> elems_view((#[trigger] r@[i])@) == lagrange_of(
                    node_vals(8),
                    window_xs(table_view(t@), i),
                ),
        decreases t@.len() - w,
    {
        let row = &t[w];
        let mut xs: Vec<pasta_curves::pallas::Base> = Vec::new();
        let mut k: usize = 0;
        while k < row.len()
            invariant
                k <= row@.len(),
                row == t@[w as int],
                w < t@.len(),
                crate::table::table_points_wf(t@),
                xs@.len() == k,
                forall|j: int| 0 <= j < k ==> fp_val(#[trigger] xs@[j]) == t@[w as int]@[j]@.x,
            decreases row@.len() - k,
        {
            xs.push(base_to_ff(&row[k].x));
            k = k + 1;
        }
        let coeffs_ff = interpolate_ff(&nodes, &xs);
        let mut coeffs: Vec<BaseElement> = Vec::new();
        let mut c: usize = 0;
        while c < coeffs_ff.len()
            invariant
                c <= coeffs_ff@.len(),
                coeffs@.len() == c,
                elems_wf(coeffs@),
                forall|j: int| 0 <= j < c ==> (#[trigger] coeffs@[j])@ == fp_val(coeffs_ff@[j]),
            decreases coeffs_ff@.len() - c,
        {
            coeffs.push(ff_to_base(&coeffs_ff[c]));
            c = c + 1;
        }
        proof {
            assert(ffs_view(xs@) =~= window_xs(table_view(t@), w as int));
            assert(elems_view(coeffs@) =~= ffs_view(coeffs_ff@));
        }
        r.push(coeffs);
        w = w + 1;
    }
    r
}

/// Horner evaluation of a polynomial (coefficients lowest degree first) at a
/// point, in the base field.
pub open spec fn poly_eval(coeffs: Seq<nat>, x: nat) -> nat
    decreases coeffs.len(),
{
    if coeffs.len() == 0 {
        0
    } else {
        (((coeffs[0] + x * poly_eval(coeffs.skip(1), x)) as int) % (base_modulus() as int)) as nat
    }
}

/// Evaluates a polynomial with the given coefficients (lowest degree first)
/// at a small public integer, in the base field.
pub fn evaluate(x: u64, coeffs: &Vec<BaseElement>) -> (r: BaseElement)
    requires
        elems_wf(coeffs@),
    ensures
        r.wf(),
        r@ == poly_eval(elems_view(coeffs@), x as nat),
{
    let xe = base_from_u64(x);
    let mut acc = base_from_u64(0);
    let mut i: usize = coeffs.len();
    proof {
        assert(elems_view(coeffs@).skip(i as int) =~= Seq::<nat>::empty());
    }
    while i > 0
        invariant
            i <= coeffs@.len(),
            elems_wf(coeffs@),
            xe.wf(),
            xe@ == x as nat,
            acc.wf(),
            acc@ == poly_eval(elems_view(coeffs@).skip(i as int), x as nat),
        decreases i,
    {
        let t = base_mul(&xe, &acc);
        let next = base_add(&coeffs[i - 1], &t);
        proof {
            let p = base_modulus() as int;
            let cs = elems_view(coeffs@);
            assert(cs.skip(i - 1 as int).skip(1) =~= cs.skip(i as int));
            assert(cs.skip(i - 1 as int)[0] == cs[i - 1 as int]);
            lemma_add_mod_noop_right(
                cs[i - 1 as int] as int,
                (x as nat * poly_eval(cs.skip(i as int), x as nat)) as int,
                p,
            );
            assert(next@ == poly_eval(cs.skip(i - 1 as int), x as nat));
        }
        acc = next;
        i = i - 1;
    }
    proof {
        assert(elems_view(coeffs@).skip(0) =~= elems_view(coeffs@));
    }
    acc
}

} // verus!
