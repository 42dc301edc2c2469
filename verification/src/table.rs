//! The window-table builder: for every 3-bit window of a scalar, the eight
//! multiples of the generator that the window's digit can select, offset so
//! that no entry of a non-final window is the point at infinity and the
//! per-window offsets cancel in the final window.
use crate::field::{scalar_from_u64, scalar_modulus, scalar_mul, scalar_pow, scalar_sub,
    scalar_add, ScalarElement};
use crate::point::{mul_of, point_mul, Point, PointVal};
use vstd::arithmetic::div_mod::{
    lemma_add_mod_noop, lemma_mul_mod_noop_right, lemma_small_mod,
    lemma_sub_mod_noop,
};
use vstd::arithmetic::mul::{
    lemma_mul_is_distributive_add_other_way, lemma_mul_inequality, lemma_mul_strictly_positive,
};
use vstd::arithmetic::power::{lemma_pow1, lemma_pow_increases, lemma_pow_positive, pow};
use vstd::arithmetic::power2::{lemma2_to64, lemma_pow2, lemma_pow2_adds, pow2};
use vstd::prelude::*;

verus! {

/// `1 + 8 + ... + 8^(n-1)`: the sum of the place values of the first `n`
/// windows, which the `+1` offsets of the non-final windows accumulate.
pub open spec fn offset_sum(n: int) -> int
    decreases n,
{
    if n <= 0 {
        0
    } else {
        offset_sum(n - 1) + pow(8, (n - 1) as nat)
    }
}

/// The integer that window `w` contributes when its digit is `k`:
/// `(k+1) * 8^w` for every window but the last, and
/// `k * 8^(W-1) - offset_sum(W-1)` for the last, cancelling the offsets.
pub open spec fn window_scalar(num_windows: int, w: int, k: int) -> int {
    if w < num_windows - 1 {
        (k + 1) * pow(8, w as nat)
    } else {
        k * pow(8, (num_windows - 1) as nat) - offset_sum(num_windows - 1)
    }
}

/// The same contribution reduced into the scalar field.
pub open spec fn window_scalar_mod(num_windows: int, w: int, k: int) -> nat {
    (window_scalar(num_windows, w, k) % (scalar_modulus() as int)) as nat
}

/// The table entry for window `w` and digit `k`.
pub open spec fn table_entry(g: PointVal, num_windows: int, w: int, k: int) -> PointVal {
    mul_of(g, window_scalar_mod(num_windows, w, k))
}

/// What `build_window_table` returns: `num_windows` windows of eight
/// well-formed points, entry `(w, k)` being the multiple of the generator by
/// the window scalar for `(w, k)`.
pub open spec fn table_ok(t: Seq<Seq<PointVal>>, g: PointVal, num_windows: int) -> bool {
    &&& t.len() == num_windows
    &&& forall|w: int| 0 <= w < num_windows ==> (#[trigger] t[w]).len() == 8
    &&& forall|w: int, k: int|
        0 <= w < num_windows && 0 <= k < 8 ==> (#[trigger] t[w][k]) == table_entry(
            g,
            num_windows,
            w,
            k,
        )
}

/// The view of a built table, window by window and entry by entry.
pub open spec fn table_view(t: Seq<Vec<Point>>) -> Seq<Seq<PointVal>> {
    t.map_values(|row: Vec<Point>| row@.map_values(|p: Point| p@))
}

/// Every point of every window is well formed.
pub open spec fn table_points_wf(t: Seq<Vec<Point>>) -> bool {
    forall|w: int, k: int|
        0 <= w < t.len() && 0 <= k < t[w]@.len() ==> (#[trigger] t[w]@[k]).wf()
}

/// The scalar-field element holding `8^w`.
fn pow8_elem(w: u64) -> (r: ScalarElement)
    ensures
        r.wf(),
        r@ as int == pow(8, w as nat) % (scalar_modulus() as int),
{
    let e8 = scalar_from_u64(8);
    scalar_pow(&e8, w)
}

/// The scalar-field element holding `offset_sum(n)` reduced into the field.
fn offset_elem(n: usize) -> (r: ScalarElement)
    ensures
        r.wf(),
        r@ as int == offset_sum(n as int) % (scalar_modulus() as int),
{
    let mut acc = scalar_from_u64(0);
    let mut j: usize = 0;
    proof {
        lemma_small_mod(0, scalar_modulus());
    }
    while j < n
        invariant
            j <= n,
            acc.wf(),
            acc@ as int == offset_sum(j as int) % (scalar_modulus() as int),
        decreases n - j,
    {
        let p8 = pow8_elem(j as u64);
        let next = scalar_add(&acc, &p8);
        proof {
            let q = scalar_modulus() as int;
            lemma_add_mod_noop(offset_sum(j as int), pow(8, j as nat), q);
            assert((acc@ + p8@) as int % q == (offset_sum(j as int) + pow(8, j as nat)) % q);
            assert(offset_sum(j + 1 as int) == offset_sum(j as int) + pow(8, j as nat));
        }
        acc = next;
        j = j + 1;
    }
    acc
}

/// The scalar-field element holding the window scalar for `(w, k)`.
pub fn window_scalar_elem(num_windows: usize, w: usize, k: usize) -> (s: ScalarElement)
    requires
        1 <= num_windows,
        w < num_windows,
        k < 8,
    ensures
        s.wf(),
        s@ == window_scalar_mod(num_windows as int, w as int, k as int),
{
    let q_ghost: Ghost<int> = Ghost(scalar_modulus() as int);
    if w + 1 < num_windows {
        let a = scalar_from_u64((k + 1) as u64);
        let p8 = pow8_elem(w as u64);
        let s = scalar_mul(&a, &p8);
        proof {
            lemma_mul_mod_noop_right((k + 1) as int, pow(8, w as nat), q_ghost@);
        }
        s
    } else {
        let a = scalar_from_u64(k as u64);
        let p8 = pow8_elem((num_windows - 1) as u64);
        let t = scalar_mul(&a, &p8);
        let off = offset_elem(num_windows - 1);
        let s = scalar_sub(&t, &off);
        proof {
            let wl = (num_windows - 1) as nat;
            lemma_mul_mod_noop_right(k as int, pow(8, wl), q_ghost@);
            assert(t@ as int == (k as int * pow(8, wl)) % q_ghost@);
            lemma_sub_mod_noop(k as int * pow(8, wl), offset_sum(num_windows - 1 as int), q_ghost@);
        }
        s
    }
}

/// Builds the window table for a generator: for each of the `num_windows`
/// windows, the eight multiples of the generator that the window's digit can
/// select (§`window_scalar`), as affine points.
pub fn build_window_table(g: &Point, num_windows: usize) -> (t: Vec<Vec<Point>>)
    requires
        g.wf(),
        num_windows >= 1,
    ensures
        t@.len() == num_windows,
        table_points_wf(t@),
        table_ok(table_view(t@), g@, num_windows as int),
{
    let mut t: Vec<Vec<Point>> = Vec::new();
    let mut w: usize = 0;
    while w < num_windows
        invariant
            w <= num_windows,
            1 <= num_windows,
            g.wf(),
            t@.len() == w,
            forall|i: int, k: int|
                0 <= i < w && 0 <= k < t@[i]@.len() ==> (#[trigger] t@[i]@[k]).wf(),
            forall|i: int| 0 <= i < w ==> (#[trigger] t@[i])@.len() == 8,
            forall|i: int, k: int|
                0 <= i < w && 0 <= k < 8 ==> (#[trigger] t@[i]@[k])@ == table_entry(
                    g@,
                    num_windows as int,
                    i,
                    k,
                ),
        decreases num_windows - w,
    {
        let mut row: Vec<Point> = Vec::new();
        let mut k: usize = 0;
        while k < 8
            invariant
                k <= 8,
                1 <= num_windows,
                w < num_windows,
                g.wf(),
                row@.len() == k,
                forall|j: int| 0 <= j < k ==> (#[trigger] row@[j]).wf(),
                forall|j: int|
                    0 <= j < k ==> (#[trigger] row@[j])@ == table_entry(
                        g@,
                        num_windows as int,
                        w as int,
                        j,
                    ),
            decreases 8 - k,
        {
            let s = window_scalar_elem(num_windows, w, k);
            let p = point_mul(g, &s);
            row.push(p);
            k = k + 1;
        }
        t.push(row);
        w = w + 1;
    }
    proof {
        assert(table_view(t@).len() == num_windows);
        assert forall|w2: int| 0 <= w2 < num_windows implies (#[trigger] table_view(t@)[w2]).len()
            == 8 by {
            assert(t@[w2]@.len() == 8);
        }
        assert forall|w2: int, k2: int|
            0 <= w2 < num_windows && 0 <= k2 < 8 implies (#[trigger] table_view(t@)[w2][k2])
            == table_entry(g@, num_windows as int, w2, k2) by {
            assert(t@[w2]@[k2]@ == table_entry(g@, num_windows as int, w2, k2));
        }
    }
    t
}

/// The table that `table_ok` describes, written out entry by entry.
pub open spec fn spec_table(g: PointVal, num_windows: int) -> Seq<Seq<PointVal>> {
    Seq::new(
        num_windows as nat,
        |w: int| Seq::new(8, |k: int| table_entry(g, num_windows, w, k)),
    )
}

/// Determinism of table construction: any table satisfying `table_ok` equals
/// the one written out by `spec_table`, so two runs on the same generator
/// yield the same table.
pub proof fn lemma_table_ok_unique(t: Seq<Seq<PointVal>>, g: PointVal, num_windows: int)
    requires
        num_windows >= 0,
        table_ok(t, g, num_windows),
    ensures
        t == spec_table(g, num_windows),
{
    assert forall|w: int| 0 <= w < num_windows implies t[w] == spec_table(g, num_windows)[w] by {
        assert(t[w] =~= spec_table(g, num_windows)[w]);
    }
    assert(t =~= spec_table(g, num_windows));
}

/// The sum of the window scalars of the first `n` windows for given digits.
pub open spec fn sum_window_scalars(num_windows: int, digits: Seq<int>, n: int) -> int
    decreases n,
{
    if n <= 0 {
        0
    } else {
        sum_window_scalars(num_windows, digits, n - 1) + window_scalar(
            num_windows,
            n - 1,
            digits[n - 1],
        )
    }
}

/// The integer whose base-8 digits (little-endian) are the first `n` digits.
pub open spec fn base8_value(digits: Seq<int>, n: int) -> int
    decreases n,
{
    if n <= 0 {
        0
    } else {
        base8_value(digits, n - 1) + digits[n - 1] * pow(8, (n - 1) as nat)
    }
}

/// Every digit is a 3-bit value.
pub open spec fn digits_ok(digits: Seq<int>) -> bool {
    forall|i: int| 0 <= i < digits.len() ==> 0 <= #[trigger] digits[i] < 8
}

/// Over the non-final windows the `+1` offsets accumulate into `offset_sum`.
proof fn lemma_prefix_sum(num_windows: int, digits: Seq<int>, n: int)
    requires
        0 <= n <= num_windows - 1,
        digits.len() == num_windows,
    ensures
        sum_window_scalars(num_windows, digits, n) == base8_value(digits, n) + offset_sum(n),
    decreases n,
{
    if n > 0 {
        lemma_prefix_sum(num_windows, digits, n - 1);
        lemma_mul_is_distributive_add_other_way(pow(8, (n - 1) as nat), digits[n - 1], 1);
    }
}

/// Telescoping sum: for any digit assignment, the window scalars of all
/// `num_windows` windows sum to the integer whose base-8 digits they are —
/// the per-window `+1` offsets cancel exactly against the final window's
/// `offset_sum` subtraction, so selecting one entry per window reproduces
/// the decomposed scalar times the generator.
pub proof fn lemma_telescoping_sum(num_windows: int, digits: Seq<int>)
    requires
        num_windows >= 1,
        digits.len() == num_windows,
    ensures
        sum_window_scalars(num_windows, digits, num_windows) == base8_value(digits, num_windows),
{
    lemma_prefix_sum(num_windows, digits, num_windows - 1);
}

/// `8^n` is `2^(3n)`.
proof fn lemma_pow8_is_pow2(n: nat)
    ensures
        pow(8, n) == pow2(3 * n),
{
    vstd::arithmetic::power::lemma_pow_multiplies(2, 3, n);
    lemma_pow2(3 * n);
    lemma_pow2(3);
    lemma2_to64();
}

/// The scalar of a non-final window is small and positive: below the scalar
/// modulus and nonzero, so (for a generator of prime order) the entry it
/// selects is not the point at infinity.
pub proof fn lemma_nonfinal_window_scalar_nonzero(num_windows: int, w: int, k: int)
    requires
        1 <= num_windows <= 85,
        0 <= w < num_windows - 1,
        0 <= k < 8,
    ensures
        0 < window_scalar(num_windows, w, k) < scalar_modulus(),
        window_scalar_mod(num_windows, w, k) != 0,
{
    let p = pow(8, w as nat);
    lemma_pow_positive(8, w as nat);
    lemma_mul_strictly_positive(k + 1, p);
    lemma_pow_increases(8, w as nat, 83);
    lemma_mul_inequality(k + 1, 8, p);
    assert((k + 1) * p <= 8 * p);
    assert(8 * p <= 8 * pow(8, 83));
    assert(8 * pow(8, 83) == pow(8, 84)) by {
        lemma_pow1(8);
        vstd::arithmetic::power::lemma_pow_adds(8, 1, 83);
    }
    assert(pow(8, 84) < scalar_modulus()) by {
        lemma_pow8_is_pow2(84);
        assert(pow2(252) < scalar_modulus()) by {
            lemma2_to64();
            vstd::arithmetic::power2::lemma2_to64_rest();
            lemma_pow2_adds(63, 63);
            lemma_pow2_adds(126, 126);
            assert(pow2(126) == 0x8000000000000000 * 0x8000000000000000);
            assert(pow2(126) == 0x40000000000000000000000000000000);
            assert(pow2(252) == 0x40000000000000000000000000000000
                * 0x40000000000000000000000000000000);
            assert(pow2(252) == 0x1000000000000000000000000000000000000000000000000000000000000000);
        }
    }
    lemma_small_mod(window_scalar(num_windows, w, k) as nat, scalar_modulus());
}

} // verus!
