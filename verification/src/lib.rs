//! Precomputation of the auxiliary tables that let a circuit perform
//! fixed-base scalar multiplication on the Pallas curve: windowed tables of
//! multiples of a fixed generator, Lagrange coefficients interpolating each
//! window's x-coordinates, and the per-window sign-disambiguation constants.
use vstd::prelude::*;

pub mod field;
pub mod lagrange;
pub mod point;
pub mod table;
pub mod util;
pub mod zsearch;

use crate::field::{lemma_le_val_injective, BaseElement, ScalarElement};
use crate::lagrange::{lagrange_of, node_vals, poly_eval, window_xs};
use crate::point::{add_of, identity_val, mul_of, Point, PointVal};
use crate::table::{spec_table, table_entry, table_ok, table_points_wf, table_view};
use crate::util::scalar_digit;
use crate::zsearch::{least_z, some_window_unsolved, window_ys, window_z_ok};

verus! {

/// Window size in bits for fixed-base scalar multiplication.
pub const FIXED_BASE_WINDOW_SIZE: usize = 3;

/// Number of table entries per window, `2^FIXED_BASE_WINDOW_SIZE`.
pub const H: usize = 8;

/// Number of windows covering a 255-bit scalar, `255 / FIXED_BASE_WINDOW_SIZE`.
pub const NUM_WINDOWS: usize = 85;

/// Default bound of the sign-disambiguation search, `1000 * 2^(2*H)`.
pub const Z_SEARCH_BOUND: u64 = 1000 * 65536;

/// A fixed-base generator: one affine Pallas point.
#[derive(Clone, Debug)]
pub struct OrchardFixedBase {
    base: Point,
}

impl OrchardFixedBase {
    /// The wrapped generator point is well formed.
    pub closed spec fn wf(&self) -> bool {
        self.base.wf()
    }

    /// The value of the wrapped generator point.
    pub closed spec fn gen_val(&self) -> PointVal {
        self.base@
    }

    /// Wraps a generator point.
    pub fn new(generator: Point) -> (r: Self)
        ensures
            r.gen_val() == generator@,
            r.wf() <==> generator.wf(),
    {
        OrchardFixedBase { base: generator }
    }

    /// The wrapped generator point.
    pub fn value(&self) -> (r: Point)
        ensures
            r@ == self.gen_val(),
            r.wf() <==> self.wf(),
    {
        self.base.duplicate()
    }

    /// An equal generator backed by fresh storage.
    pub fn duplicate(&self) -> (r: Self)
        ensures
            r.gen_val() == self.gen_val(),
            r.wf() <==> self.wf(),
    {
        OrchardFixedBase { base: self.base.duplicate() }
    }
}

/// The five fixed-base generators of the protocol, tagged by role.  Identity
/// and equality of a tagged generator go by the role alone: one generator is
/// created per role, so the role stands for the point.
#[derive(Clone, Debug)]
pub enum OrchardFixedBases {
    CommitIvkR(OrchardFixedBase),
    NoteCommitR(OrchardFixedBase),
    NullifierK(OrchardFixedBase),
    ValueCommitR(OrchardFixedBase),
    ValueCommitV(OrchardFixedBase),
}

impl OrchardFixedBases {
    /// The wrapped generator, whichever the role.
    pub open spec fn inner_spec(&self) -> OrchardFixedBase {
        match self {
            OrchardFixedBases::CommitIvkR(b) => *b,
            OrchardFixedBases::NoteCommitR(b) => *b,
            OrchardFixedBases::NullifierK(b) => *b,
            OrchardFixedBases::ValueCommitR(b) => *b,
            OrchardFixedBases::ValueCommitV(b) => *b,
        }
    }

    /// Whether two tagged generators carry the same role.
    pub open spec fn same_role(&self, other: &Self) -> bool {
        match (self, other) {
            (OrchardFixedBases::CommitIvkR(_), OrchardFixedBases::CommitIvkR(_)) => true,
            (OrchardFixedBases::NoteCommitR(_), OrchardFixedBases::NoteCommitR(_)) => true,
            (OrchardFixedBases::NullifierK(_), OrchardFixedBases::NullifierK(_)) => true,
            (OrchardFixedBases::ValueCommitR(_), OrchardFixedBases::ValueCommitR(_)) => true,
            (OrchardFixedBases::ValueCommitV(_), OrchardFixedBases::ValueCommitV(_)) => true,
            _ => false,
        }
    }

    /// The wrapped generator, whichever the role.
    pub fn inner(&self) -> (r: OrchardFixedBase)
        ensures
            r.gen_val() == self.inner_spec().gen_val(),
            r.wf() <==> self.inner_spec().wf(),
    {
        match self {
            OrchardFixedBases::CommitIvkR(b) => b.duplicate(),
            OrchardFixedBases::NoteCommitR(b) => b.duplicate(),
            OrchardFixedBases::NullifierK(b) => b.duplicate(),
            OrchardFixedBases::ValueCommitR(b) => b.duplicate(),
            OrchardFixedBases::ValueCommitV(b) => b.duplicate(),
        }
    }
}

impl PartialEq for OrchardFixedBases {
    /// Equality by role identity, as each role's generator is fixed.
    fn eq(&self, other: &Self) -> (r: bool) {
        match (self, other) {
            (OrchardFixedBases::CommitIvkR(_), OrchardFixedBases::CommitIvkR(_)) => true,
            (OrchardFixedBases::NoteCommitR(_), OrchardFixedBases::NoteCommitR(_)) => true,
            (OrchardFixedBases::NullifierK(_), OrchardFixedBases::NullifierK(_)) => true,
            (OrchardFixedBases::ValueCommitR(_), OrchardFixedBases::ValueCommitR(_)) => true,
            (OrchardFixedBases::ValueCommitV(_), OrchardFixedBases::ValueCommitV(_)) => true,
            _ => false,
        }
    }
}

impl Eq for OrchardFixedBases {
}

impl vstd::std_specs::cmp::PartialEqSpecImpl for OrchardFixedBases {
    open spec fn obeys_eq_spec() -> bool {
        true
    }

    open spec fn eq_spec(&self, other: &Self) -> bool {
        self.same_role(other)
    }
}

/// Computation of the three derived tables of a fixed-base generator.
pub trait FixedBase {
    /// The generator's value.
    spec fn base_val(&self) -> PointVal;

    /// The generator is well formed.
    spec fn base_wf(&self) -> bool;

    /// The window table: `NUM_WINDOWS` windows of `H` points, entry `(w, k)`
    /// being the generator times the window scalar for `(w, k)`.
    fn compute_window_table(&self) -> (t: Vec<Vec<Point>>)
        requires
            self.base_wf(),
        ensures
            table_points_wf(t@),
            table_ok(table_view(t@), self.base_val(), NUM_WINDOWS as int),
    ;

    /// For each window, the coefficients of the degree-7 polynomial through
    /// the window's eight x-coordinates at the nodes `0..8`.
    fn compute_lagrange_coeffs(&self) -> (r: Vec<Vec<BaseElement>>)
        requires
            self.base_wf(),
        ensures
            r@.len() == NUM_WINDOWS,
            forall|w: int| 0 <= w < NUM_WINDOWS ==> (#[trigger] r@[w])@.len() == 8,
            forall|w: int| 0 <= w < NUM_WINDOWS ==> crate::field::elems_wf((#[trigger] r@[w])@),
            forall|w: int|
                0 <= w < NUM_WINDOWS ==> crate::field::elems_view((#[trigger] r@[w])@)
                    == lagrange_of(
                    node_vals(8),
                    window_xs(spec_table(self.base_val(), NUM_WINDOWS as int), w),
                ),
    ;

    /// For each window, the least `z` in `[0, Z_SEARCH_BOUND)` such that for
    /// every point `(x, y)` of the window `y + z` is a square and `z - y` is
    /// not; absence exactly when some window has no such `z`.
    fn find_zs(&self) -> (r: Option<Vec<u64>>)
        requires
            self.base_wf(),
        ensures
            match r {
                Some(zs) => zs@.len() == NUM_WINDOWS && forall|w: int|
                    0 <= w < NUM_WINDOWS ==> (#[trigger] zs@[w]) < Z_SEARCH_BOUND && least_z(
                        window_ys(spec_table(self.base_val(), NUM_WINDOWS as int), w),
                        zs@[w] as nat,
                    ),
                None => some_window_unsolved(
                    spec_table(self.base_val(), NUM_WINDOWS as int),
                    Z_SEARCH_BOUND as nat,
                ),
            },
    ;
}

impl FixedBase for OrchardFixedBase {
    open spec fn base_val(&self) -> PointVal {
        self.gen_val()
    }

    open spec fn base_wf(&self) -> bool {
        self.wf()
    }

    fn compute_window_table(&self) -> (t: Vec<Vec<Point>>) {
        crate::table::build_window_table(&self.base, NUM_WINDOWS)
    }

    fn compute_lagrange_coeffs(&self) -> (r: Vec<Vec<BaseElement>>) {
        let t = crate::table::build_window_table(&self.base, NUM_WINDOWS);
        proof {
            assert forall|w: int| 0 <= w < t@.len() implies (#[trigger] t@[w])@.len() == 8 by {
                assert(table_view(t@)[w].len() == 8);
            }
        }
        let r = crate::lagrange::lagrange_coeffs_for_table(&t);
        proof {
            crate::table::lemma_table_ok_unique(
                table_view(t@),
                self.base_val(),
                NUM_WINDOWS as int,
            );
            assert(table_view(t@) == spec_table(self.base_val(), NUM_WINDOWS as int));
        }
        r
    }

    fn find_zs(&self) -> (r: Option<Vec<u64>>) {
        let t = crate::table::build_window_table(&self.base, NUM_WINDOWS);
        let r = crate::zsearch::find_zs_for_table(&t, Z_SEARCH_BOUND);
        proof {
            crate::table::lemma_table_ok_unique(
                table_view(t@),
                self.base_val(),
                NUM_WINDOWS as int,
            );
            let st = spec_table(self.base_val(), NUM_WINDOWS as int);
            assert(table_view(t@) == st);
        }
        r
    }
}

/// The interpolated polynomial of window `w` reproduces, at the scalar's
/// `w`-th digit, the x-coordinate of the table entry that digit selects.
pub open spec fn x_matches_at(g: PointVal, sv: nat, w: int) -> bool {
    poly_eval(
        lagrange_of(node_vals(8), window_xs(spec_table(g, NUM_WINDOWS as int), w)),
        scalar_digit(sv, w) as nat,
    ) == table_entry(g, NUM_WINDOWS as int, w, scalar_digit(sv, w)).x
}

/// The sum of the first `n` table entries selected by the scalar's digits,
/// folded from the point at infinity.
pub open spec fn sum_digit_points(g: PointVal, sv: nat, n: int) -> PointVal
    decreases n,
{
    if n <= 0 {
        identity_val()
    } else {
        add_of(
            sum_digit_points(g, sv, n - 1),
            table_entry(g, NUM_WINDOWS as int, n - 1, scalar_digit(sv, n - 1)),
        )
    }
}

/// What the Lagrange spot-check of a scalar asserts: every window's
/// polynomial reproduces the selected x-coordinate, and the selected entries
/// sum to the scalar times the generator.
pub open spec fn lagrange_check(g: PointVal, sv: nat) -> bool {
    &&& forall|w: int| 0 <= w < NUM_WINDOWS ==> #[trigger] x_matches_at(g, sv, w)
    &&& sum_digit_points(g, sv, NUM_WINDOWS as int) == mul_of(g, sv)
}

/// What the z-parameter check asserts: for every window covered by both the
/// table and the given constants, the window's constant disambiguates every
/// point of the window.
pub open spec fn z_check(g: PointVal, zs: Seq<u64>) -> bool {
    forall|w: int|
        0 <= w < zs.len() && w < NUM_WINDOWS ==> #[trigger] window_z_ok(
            window_ys(spec_table(g, NUM_WINDOWS as int), w),
            zs[w] as nat,
        )
}

/// Runtime checks of the derived tables against the generator.
pub trait TestFixedBase: FixedBase {
    /// Checks the Lagrange coefficients against one scalar: for each window,
    /// the polynomial evaluated at the scalar's digit must equal the selected
    /// entry's x-coordinate, and the selected entries must sum to
    /// `scalar * generator`.
    fn test_lagrange_coeffs(&self, scalar: &ScalarElement) -> (ok: bool)
        requires
            self.base_wf(),
            scalar.wf(),
        ensures
            ok == lagrange_check(self.base_val(), scalar@),
    ;

    /// Checks sign-disambiguation constants, one per window: each must make
    /// `y + z` a square and `z - y` a non-square for the whole window.
    fn test_z(&self, z: &Vec<u64>) -> (ok: bool)
        requires
            self.base_wf(),
        ensures
            ok == z_check(self.base_val(), z@),
    ;
}

impl TestFixedBase for OrchardFixedBase {
    #[verifier::loop_isolation(false)]
    fn test_lagrange_coeffs(&self, scalar: &ScalarElement) -> (ok: bool) {
        let ghost gv = self.base_val();
        let ghost sv = scalar@;
        let t = crate::table::build_window_table(&self.base, NUM_WINDOWS);
        proof {
            crate::table::lemma_table_ok_unique(table_view(t@), gv, NUM_WINDOWS as int);
            assert(table_view(t@) == spec_table(gv, NUM_WINDOWS as int));
            assert forall|w: int| 0 <= w < t@.len() implies (#[trigger] t@[w])@.len() == 8 by {
                assert(table_view(t@)[w].len() == 8);
            }
        }
        let coeffs = crate::lagrange::lagrange_coeffs_for_table(&t);
        let digits = crate::util::decompose_scalar(scalar, NUM_WINDOWS);
        let mut xok = true;
        let mut sum = crate::point::identity_point();
        let mut w: usize = 0;
        while w < NUM_WINDOWS
            invariant
                w <= NUM_WINDOWS,
                sum.wf(),
                sum@ == sum_digit_points(gv, sv, w as int),
                xok == (forall|i: int| 0 <= i < w ==> #[trigger] x_matches_at(gv, sv, i)),
            decreases NUM_WINDOWS - w,
        {
            let d = digits[w];
            let ev = crate::lagrange::evaluate(d, &coeffs[w]);
            let p = &t[w][d as usize];
            let good = crate::point::bytes_eq(&ev.bytes, &p.x.bytes);
            proof {
                assert(0 <= d < 8);
                assert(table_view(t@)[w as int] == t@[w as int]@.map_values(|pp: Point| pp@));
                assert(p@ == table_view(t@)[w as int][d as int]);
                assert(p@ == table_entry(gv, NUM_WINDOWS as int, w as int, d as int));
                assert(d as int == scalar_digit(sv, w as int));
                if ev.bytes@ != p.x.bytes@ && ev@ == p.x@ {
                    lemma_le_val_injective(ev.bytes@, p.x.bytes@);
                }
                assert(good == (ev@ == p.x@));
                assert(crate::field::elems_view(coeffs@[w as int]@) == lagrange_of(
                    node_vals(8),
                    window_xs(spec_table(gv, NUM_WINDOWS as int), w as int),
                ));
                assert(good == x_matches_at(gv, sv, w as int));
            }
            xok = xok && good;
            let next = crate::point::point_add(&sum, p);
            proof {
                assert(next@ == sum_digit_points(gv, sv, w + 1 as int));
            }
            sum = next;
            w = w + 1;
        }
        let target = crate::point::point_mul(&self.base, scalar);
        let sum_ok = crate::point::point_eq(&sum, &target);
        proof {
            assert(sum_ok == (sum_digit_points(gv, sv, NUM_WINDOWS as int) == mul_of(gv, sv)));
        }
        xok && sum_ok
    }

    #[verifier::loop_isolation(false)]
    fn test_z(&self, z: &Vec<u64>) -> (ok: bool) {
        let ghost gv = self.base_val();
        let t = crate::table::build_window_table(&self.base, NUM_WINDOWS);
        proof {
            crate::table::lemma_table_ok_unique(table_view(t@), gv, NUM_WINDOWS as int);
            assert(table_view(t@) == spec_table(gv, NUM_WINDOWS as int));
        }
        let n = if z.len() < NUM_WINDOWS {
            z.len()
        } else {
            NUM_WINDOWS
        };
        let mut ok = true;
        let mut w: usize = 0;
        while w < n
            invariant
                w <= n,
                ok == (forall|i: int|
                    0 <= i < w ==> #[trigger] window_z_ok(
                        window_ys(spec_table(gv, NUM_WINDOWS as int), i),
                        z@[i] as nat,
                    )),
            decreases n - w,
        {
            let row = &t[w];
            let zw = z[w];
            let mut wok = true;
            let mut k: usize = 0;
            proof {
                assert(table_view(t@)[w as int].len() == 8);
                assert(row@.len() == 8);
            }
            while k < 8
                invariant
                    k <= 8,
                    row == t@[w as int],
                    w < n,
                    wok == (forall|j: int|
                        0 <= j < k ==> crate::zsearch::z_ok(
                            #[trigger] window_ys(spec_table(gv, NUM_WINDOWS as int), w as int)[j],
                            zw as nat,
                        )),
                decreases 8 - k,
            {
                let good = crate::zsearch::z_ok_exec(&row[k].y, zw);
                proof {
                    assert(row@[k as int]@ == table_view(t@)[w as int][k as int]);
                    assert(window_ys(spec_table(gv, NUM_WINDOWS as int), w as int)[k as int]
                        == row@[k as int]@.y);
                }
                wok = wok && good;
                k = k + 1;
            }
            proof {
                assert(window_ys(spec_table(gv, NUM_WINDOWS as int), w as int).len() == 8);
                assert(wok == window_z_ok(
                    window_ys(spec_table(gv, NUM_WINDOWS as int), w as int),
                    zw as nat,
                ));
            }
            ok = ok && wok;
            w = w + 1;
        }
        ok
    }
}

} // verus!
