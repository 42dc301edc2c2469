//! The sign-disambiguation search: for each window, the least integer `z`
//! such that for every point `(x, y)` of the window `y + z` is a square in
//! the base field while `z - y` is not, so a circuit can recover `y` from a
//! single witnessed square root of `y + z`.
use crate::field::{
    base_add, base_from_u64, base_is_square, base_modulus, base_sub, elems_wf, elems_view, is_qr,
    BaseElement,
};
use crate::point::{Point, PointVal};
use crate::table::table_view;
use vstd::arithmetic::div_mod::lemma_mod_twice;
use vstd::prelude::*;

verus! {

/// `z` disambiguates the sign of `y`: `y + z` is a square, `z - y` is not.
pub open spec fn z_ok(y: nat, z: nat) -> bool {
    is_qr((y + z) as int) && !is_qr(z as int - y as int)
}

/// `z` disambiguates every `y` of the window.
pub open spec fn window_z_ok(ys: Seq<nat>, z: nat) -> bool {
    forall|i: int| 0 <= i < ys.len() ==> z_ok(#[trigger] ys[i], z)
}

/// `z` is the least value that disambiguates the whole window.
pub open spec fn least_z(ys: Seq<nat>, z: nat) -> bool {
    window_z_ok(ys, z) && forall|z2: nat| z2 < z ==> !(#[trigger] window_z_ok(ys, z2))
}

/// The y-coordinates of window `w` of a table.
pub open spec fn window_ys(t: Seq<Seq<PointVal>>, w: int) -> Seq<nat> {
    t[w].map_values(|p: PointVal| p.y)
}

/// No `z` below the bound disambiguates the whole window.
pub open spec fn no_z_below(ys: Seq<nat>, z_bound: nat) -> bool {
    forall|z2: nat| z2 < z_bound ==> !(#[trigger] window_z_ok(ys, z2))
}

/// Some window of the table has no disambiguating `z` below the bound.
pub open spec fn some_window_unsolved(t: Seq<Seq<PointVal>>, z_bound: nat) -> bool {
    exists|w: int| 0 <= w < t.len() && no_z_below(#[trigger] window_ys(t, w), z_bound)
}

/// Being a quadratic residue depends only on the value modulo the field prime.
proof fn lemma_is_qr_mod(v: int)
    ensures
        is_qr(v % (base_modulus() as int)) <==> is_qr(v),
{
    let p = base_modulus() as int;
    lemma_mod_twice(v, p);
    if is_qr(v) {
        let u = choose|u: nat|
            u < base_modulus() && #[trigger] ((u * u) as int % p) == v % p;
        assert((u * u) as int % p == (v % p) % p);
    }
    if is_qr(v % p) {
        let u = choose|u: nat|
            u < base_modulus() && #[trigger] ((u * u) as int % p) == (v % p) % p;
        assert((u * u) as int % p == v % p);
    }
}

/// Whether `z` disambiguates the sign of a single y-coordinate.
pub(crate) fn z_ok_exec(y: &BaseElement, z: u64) -> (r: bool)
    requires
        y.wf(),
    ensures
        r == z_ok(y@, z as nat),
{
    let ze = base_from_u64(z);
    let plus = base_add(y, &ze);
    let minus = base_sub(&ze, y);
    let plus_square = base_is_square(&plus);
    let minus_square = base_is_square(&minus);
    proof {
        lemma_is_qr_mod((y@ + z) as int);
        lemma_is_qr_mod(z as int - y@ as int);
    }
    plus_square && !minus_square
}

/// Searches `[0, z_bound)` in increasing order for the least `z` that
/// disambiguates every y-coordinate of the window; absence means no value
/// below the bound works.
pub fn find_z(ys: &Vec<BaseElement>, z_bound: u64) -> (r: Option<u64>)
    requires
        elems_wf(ys@),
    ensures
        match r {
            Some(z) => z < z_bound && least_z(elems_view(ys@), z as nat),
            None => no_z_below(elems_view(ys@), z_bound as nat),
        },
{
    let mut z: u64 = 0;
    while z < z_bound
        invariant
            z <= z_bound,
            elems_wf(ys@),
            forall|z2: nat| z2 < z ==> !(#[trigger] window_z_ok(elems_view(ys@), z2)),
        decreases z_bound - z,
    {
        let mut ok = true;
        let mut i: usize = 0;
        while i < ys.len() && ok
            invariant
                i <= ys@.len(),
                elems_wf(ys@),
                ok ==> forall|j: int| 0 <= j < i ==> z_ok(elems_view(ys@)[j], z as nat),
                !ok ==> !window_z_ok(elems_view(ys@), z as nat),
            decreases ys@.len() - i,
        {
            if !z_ok_exec(&ys[i], z) {
                proof {
                    assert(elems_view(ys@)[i as int] == ys@[i as int]@);
                    assert(!z_ok(elems_view(ys@)[i as int], z as nat));
                }
                ok = false;
            }
            i = i + 1;
        }
        if ok {
            proof {
                assert(i == ys@.len());
                assert(window_z_ok(elems_view(ys@), z as nat));
            }
            return Some(z);
        }
        z = z + 1;
    }
    None
}

/// Per-window sign-disambiguation constants for a whole table: the least
/// valid `z` for every window, or absence if any window has no valid `z`
/// below the bound.
pub fn find_zs_for_table(t: &Vec<Vec<Point>>, z_bound: u64) -> (r: Option<Vec<u64>>)
    requires
        crate::table::table_points_wf(t@),
    ensures
        match r {
            Some(zs) => zs@.len() == t@.len() && forall|w: int|
                0 <= w < t@.len() ==> (#[trigger] zs@[w]) < z_bound && least_z(
                    window_ys(table_view(t@), w),
                    zs@[w] as nat,
                ),
            None => some_window_unsolved(table_view(t@), z_bound as nat),
        },
{
    let mut zs: Vec<u64> = Vec::new();
    let mut w: usize = 0;
    while w < t.len()
        invariant
            w <= t@.len(),
            crate::table::table_points_wf(t@),
            zs@.len() == w,
            forall|i: int|
                0 <= i < w ==> (#[trigger] zs@[i]) < z_bound && least_z(
                    window_ys(table_view(t@), i),
                    zs@[i] as nat,
                ),
        decreases t@.len() - w,
    {
        let row = &t[w];
        let mut ys: Vec<BaseElement> = Vec::new();
        let mut k: usize = 0;
        while k < row.len()
            invariant
                k <= row@.len(),
                row == t@[w as int],
                w < t@.len(),
                crate::table::table_points_wf(t@),
                ys@.len() == k,
                elems_wf(ys@),
                forall|j: int| 0 <= j < k ==> (#[trigger] ys@[j])@ == t@[w as int]@[j]@.y,
            decreases row@.len() - k,
        {
            ys.push(row[k].y.duplicate());
            k = k + 1;
        }
        proof {
            assert(elems_view(ys@) =~= window_ys(table_view(t@), w as int));
        }
        match find_z(&ys, z_bound) {
            Some(z) => {
                zs.push(z);
            },
            None => {
                proof {
                    assert(no_z_below(window_ys(table_view(t@), w as int), z_bound as nat));
                }
                return None;
            },
        }
        w = w + 1;
    }
    Some(zs)
}

/// Determinism of the search: the contract of `find_z` pins its result, so
/// two values that are both the least disambiguating constant of the same
/// window are equal.
pub proof fn lemma_least_z_unique(ys: Seq<nat>, z1: nat, z2: nat)
    requires
        least_z(ys, z1),
        least_z(ys, z2),
    ensures
        z1 == z2,
{
    if z1 < z2 {
        assert(!window_z_ok(ys, z1));
    }
    if z2 < z1 {
        assert(!window_z_ok(ys, z2));
    }
}

} // verus!
