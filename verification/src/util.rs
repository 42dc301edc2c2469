//! Decomposition of a scalar into 3-bit window digits, used by the checks
//! that tie a digit assignment back to the scalar it came from.
use crate::field::{le_val, lemma_le_val_bound, lemma_le_val_push, ScalarElement};
use crate::table::{base8_value, sum_window_scalars};
use vstd::arithmetic::div_mod::{
    lemma_div_denominator, lemma_fundamental_div_mod_converse, lemma_hoist_over_denominator,
    lemma_mod_breakdown, lemma_mod_multiples_vanish, lemma_small_mod,
};
use vstd::arithmetic::mul::{lemma_mul_is_associative, lemma_mul_is_distributive_add};
use vstd::arithmetic::power::{
    lemma_pow0, lemma_pow_adds, lemma_pow_multiplies, lemma_pow_positive, pow,
};
use vstd::arithmetic::power2::{lemma2_to64, lemma2_to64_rest, lemma_pow2, lemma_pow2_adds, lemma_pow2_pos, pow2};
use vstd::bits::{
    lemma_low_bits_mask_values, lemma_u64_low_bits_mask_is_mod, lemma_u64_shr_is_div,
};
use vstd::prelude::*;

verus! {

/// The `w`-th base-8 digit of an integer.
pub open spec fn scalar_digit(v: nat, w: int) -> int {
    (v as int / pow(8, w as nat)) % 8
}

/// Splitting a byte string: the low bytes plus the shifted high bytes.
proof fn lemma_le_val_split(s: Seq<u8>, j: int)
    requires
        0 <= j <= s.len(),
    ensures
        le_val(s) == le_val(s.take(j)) + pow(256, j as nat) * le_val(s.skip(j)),
    decreases j,
{
    if j == 0 {
        lemma_pow0(256);
        assert(s.take(0) =~= Seq::<u8>::empty());
        assert(s.skip(0) =~= s);
    } else {
        lemma_le_val_split(s, j - 1);
        assert(s.take(j) =~= s.take(j - 1).push(s[j - 1]));
        lemma_le_val_push(s.take(j - 1), s[j - 1]);
        assert(s.skip(j - 1).skip(1) =~= s.skip(j));
        assert(s.skip(j - 1)[0] == s[j - 1]);
        assert(le_val(s.skip(j - 1)) == s[j - 1] + 256 * le_val(s.skip(j)));
        let p = pow(256, (j - 1) as nat);
        assert(pow(256, j as nat) == p * 256) by {
            lemma_pow_adds(256, (j - 1) as nat, 1);
            vstd::arithmetic::power::lemma_pow1(256);
        }
        assert(p * (s[j - 1] + 256 * le_val(s.skip(j))) == p * s[j - 1] + p * (256 * le_val(
            s.skip(j),
        ))) by {
            lemma_mul_is_distributive_add(p, s[j - 1] as int, 256 * le_val(s.skip(j)) as int);
        }
        assert(p * (256 * le_val(s.skip(j))) == (p * 256) * le_val(s.skip(j))) by {
            lemma_mul_is_associative(p, 256, le_val(s.skip(j)) as int);
        }
        assert(p * s[j - 1] == s[j - 1] * p) by {
            vstd::arithmetic::mul::lemma_mul_is_commutative(p, s[j - 1] as int);
        }
        assert(le_val(s) == le_val(s.take(j - 1)) + p * le_val(s.skip(j - 1)));
        assert(le_val(s.take(j)) == le_val(s.take(j - 1)) + s[j - 1] * p);
    }
}

/// The high part of a byte string after `j` bytes is the value divided by the
/// place value of byte `j`.
proof fn lemma_le_val_div(s: Seq<u8>, j: int)
    requires
        0 <= j <= s.len(),
    ensures
        le_val(s) as int / pow(256, j as nat) == le_val(s.skip(j)),
        le_val(s) as int % pow(256, j as nat) == le_val(s.take(j)),
{
    lemma_le_val_split(s, j);
    lemma_le_val_bound(s.take(j));
    lemma_pow_positive(256, j as nat);
    assert(s.take(j).len() == j);
    lemma_fundamental_div_mod_converse(
        le_val(s) as int,
        pow(256, j as nat),
        le_val(s.skip(j)) as int,
        le_val(s.take(j)) as int,
    );
}

/// The 3-bit digit at bit offset `3w` of a 32-byte string, read from the two
/// bytes it straddles.
proof fn lemma_digit_from_bytes(s: Seq<u8>, w: int)
    requires
        s.len() == 32,
        0 <= w <= 84,
    ensures
        ({
            let j = 3 * w / 8;
            let rs = 3 * w % 8;
            let hi: int = if j + 1 < 32 { s[j + 1] as int } else { 0 };
            let lo: int = s[j] + 256 * hi;
            scalar_digit(le_val(s), w) == (lo / pow2(rs as nat) as int) % 8
        }),
{
    let v = le_val(s) as int;
    let j = 3 * w / 8;
    let rs = 3 * w % 8;
    assert(0 <= j <= 31 && 0 <= rs < 8 && 8 * j + rs == 3 * w);
    let hi: int = if j + 1 < 32 { s[j + 1] as int } else { 0 };
    let lo: int = s[j] + 256 * hi;
    let u = le_val(s.skip(j)) as int;

    // v / 8^w == u / 2^rs
    assert(pow(8, w as nat) == pow2((3 * w) as nat)) by {
        lemma_pow_multiplies(2, 3, w as nat);
        lemma_pow2((3 * w) as nat);
        lemma_pow2(3);
        lemma2_to64();
    }
    assert(pow(256, j as nat) == pow2((8 * j) as nat)) by {
        lemma_pow_multiplies(2, 8, j as nat);
        lemma_pow2((8 * j) as nat);
        lemma_pow2(8);
        lemma2_to64();
    }
    lemma_pow2_adds((8 * j) as nat, rs as nat);
    lemma_le_val_div(s, j);
    lemma_pow2_pos((8 * j) as nat);
    lemma_pow2_pos(rs as nat);
    lemma_div_denominator(v, pow2((8 * j) as nat) as int, pow2(rs as nat) as int);
    assert(v / pow(8, w as nat) == u / pow2(rs as nat) as int);

    // u == lo + 65536 * rest
    let rest: int = if j + 2 <= 32 { le_val(s.skip(j + 2)) as int } else { 0 };
    if j + 1 < 32 {
        assert(s.skip(j).skip(1) =~= s.skip(j + 1));
        assert(s.skip(j + 1).skip(1) =~= s.skip(j + 2));
        assert(s.skip(j)[0] == s[j] && s.skip(j + 1)[0] == s[j + 1]);
        assert(s.skip(j).len() == 32 - j && s.skip(j + 1).len() == 31 - j);
        assert(le_val(s.skip(j)) == s[j] + 256 * le_val(s.skip(j).skip(1)));
        assert(le_val(s.skip(j + 1)) == s[j + 1] + 256 * le_val(s.skip(j + 1).skip(1)));
        assert(u == s[j] + 256 * (s[j + 1] + 256 * le_val(s.skip(j + 2))));
        assert(256 * (s[j + 1] + 256 * le_val(s.skip(j + 2))) == 256 * s[j + 1] as int + 256 * (256
            * le_val(s.skip(j + 2)))) by {
            lemma_mul_is_distributive_add(256, s[j + 1] as int, 256 * le_val(s.skip(j + 2)) as int);
        }
        assert(u == lo + 65536 * rest);
    } else {
        assert(s.skip(j).skip(1) =~= s.skip(j + 1));
        assert(s.skip(j + 1) =~= Seq::<u8>::empty());
        assert(le_val(Seq::<u8>::empty()) == 0);
        assert(s.skip(j).len() == 1 && s.skip(j)[0] == s[j]);
        assert(le_val(s.skip(j)) == s[j] + 256 * le_val(s.skip(j).skip(1)));
        assert(u == lo + 65536 * rest);
    }

    // (u / 2^rs) % 8 == (lo / 2^rs) % 8
    let d = pow2(rs as nat) as int;
    let m = pow2((16 - rs) as nat) as int;
    assert(d * m == 65536) by {
        lemma_pow2_adds(rs as nat, (16 - rs) as nat);
        lemma2_to64();
    }
    assert(u == lo + (m * rest) * d) by {
        lemma_mul_is_associative(m, rest, d);
        lemma_mul_is_associative(d, m, rest);
        vstd::arithmetic::mul::lemma_mul_is_commutative(m * rest, d);
        vstd::arithmetic::mul::lemma_mul_is_commutative(d, m);
    }
    lemma_hoist_over_denominator(lo, m * rest, pow2(rs as nat));
    assert(u / d == lo / d + m * rest);
    assert(m % 8 == 0 && m == 8 * (m / 8)) by {
        lemma_pow2_adds(3, (13 - rs) as nat);
        lemma_pow2_pos((13 - rs) as nat);
        lemma2_to64();
        assert(m == 8 * pow2((13 - rs) as nat));
    }
    assert((lo / d + m * rest) % 8 == (lo / d) % 8) by {
        let m8 = m / 8;
        assert(m * rest == 8 * (m8 * rest)) by {
            lemma_mul_is_associative(8, m8, rest);
        }
        lemma_mod_multiples_vanish(m8 * rest, lo / d, 8);
        assert(8 * (m8 * rest) + lo / d == lo / d + m * rest);
    }
}

/// Splits a scalar into `num_windows` 3-bit digits, little-endian: digit `w`
/// is the `w`-th base-8 digit of the scalar's integer value.
pub fn decompose_scalar(s: &ScalarElement, num_windows: usize) -> (digits: Vec<u64>)
    requires
        s.wf(),
        num_windows <= 85,
    ensures
        digits@.len() == num_windows,
        forall|w: int|
            0 <= w < num_windows ==> 0 <= #[trigger] digits@[w] < 8 && digits@[w] as int
                == scalar_digit(s@, w),
{
    let mut digits: Vec<u64> = Vec::new();
    let mut w: usize = 0;
    while w < num_windows
        invariant
            w <= num_windows,
            num_windows <= 85,
            s.wf(),
            digits@.len() == w,
            forall|i: int|
                0 <= i < w ==> 0 <= #[trigger] digits@[i] < 8 && digits@[i] as int == scalar_digit(
                    s@,
                    i,
                ),
        decreases num_windows - w,
    {
        let bit = 3 * w;
        let j = bit / 8;
        let rs = (bit % 8) as u64;
        let b0 = s.bytes[j] as u64;
        let b1: u64 = if j + 1 < 32 {
            s.bytes[j + 1] as u64
        } else {
            0
        };
        let lo: u64 = b0 + 256 * b1;
        let d: u64 = (lo >> rs) & 7;
        proof {
            lemma_digit_from_bytes(s.bytes@, w as int);
            lemma_u64_shr_is_div(lo, rs);
            lemma_low_bits_mask_values();
            lemma_u64_low_bits_mask_is_mod(lo >> rs, 3);
            lemma_pow2(3);
            lemma2_to64();
            assert((lo >> rs) % 8 == ((lo as int / pow2(rs as nat) as int) % 8));
            assert(d as int == scalar_digit(s@, w as int));
        }
        digits.push(d);
        w = w + 1;
    }
    digits
}

/// The first `m` base-8 digits of `v` rebuild `v` modulo `8^m`.
proof fn lemma_base8_prefix(v: nat, digits: Seq<int>, m: int)
    requires
        0 <= m <= digits.len(),
        forall|w: int| 0 <= w < digits.len() ==> #[trigger] digits[w] == scalar_digit(v, w),
    ensures
        base8_value(digits, m) == v as int % pow(8, m as nat),
    decreases m,
{
    if m == 0 {
        lemma_pow0(8);
        lemma_small_mod(0, 1);
        assert(v as int % 1 == 0) by {
            vstd::arithmetic::div_mod::lemma_mod_self_0(1);
            vstd::arithmetic::div_mod::lemma_mod_twice(v as int, 1);
            vstd::arithmetic::div_mod::lemma_mod_bound(v as int, 1);
        }
    } else {
        lemma_base8_prefix(v, digits, m - 1);
        lemma_pow_positive(8, (m - 1) as nat);
        lemma_mod_breakdown(v as int, pow(8, (m - 1) as nat), 8);
        lemma_pow_adds(8, (m - 1) as nat, 1);
        vstd::arithmetic::power::lemma_pow1(8);
        assert(pow(8, (m - 1) as nat) * ((v as int / pow(8, (m - 1) as nat)) % 8) == digits[m - 1]
            * pow(8, (m - 1) as nat)) by {
            vstd::arithmetic::mul::lemma_mul_is_commutative(
                pow(8, (m - 1) as nat),
                (v as int / pow(8, (m - 1) as nat)) % 8,
            );
        }
    }
}

/// Any scalar-field value fits in the 85 windows' 255 bits.
pub proof fn lemma_scalar_fits_windows()
    ensures
        crate::field::scalar_modulus() < pow(8, 85),
{
    lemma_pow_multiplies(2, 3, 85);
    lemma_pow2(255);
    lemma_pow2(3);
    lemma2_to64();
    assert(pow(8, 85) == pow2(255));
    assert(pow2(255) > crate::field::scalar_modulus()) by {
        lemma2_to64_rest();
        lemma_pow2_adds(63, 63);
        lemma_pow2_adds(126, 126);
        assert(pow2(126) == 0x8000000000000000 * 0x8000000000000000);
        assert(pow2(126) == 0x40000000000000000000000000000000);
        assert(pow2(252) == 0x40000000000000000000000000000000
            * 0x40000000000000000000000000000000);
        assert(pow2(252) == 0x1000000000000000000000000000000000000000000000000000000000000000);
        lemma_pow2_adds(252, 3);
    }
}

/// Telescoping decomposition: for a scalar below `8^num_windows`, the window
/// scalars selected by its base-8 digits sum to the scalar itself — selecting
/// one table entry per window according to the digits reproduces
/// `scalar * generator`.
pub proof fn lemma_decomposition_telescopes(v: nat, digits: Seq<int>, num_windows: int)
    requires
        1 <= num_windows,
        v < pow(8, num_windows as nat),
        digits.len() == num_windows,
        forall|w: int| 0 <= w < num_windows ==> #[trigger] digits[w] == scalar_digit(v, w),
    ensures
        sum_window_scalars(num_windows, digits, num_windows) == v,
{
    crate::table::lemma_telescoping_sum(num_windows, digits);
    lemma_base8_prefix(v, digits, num_windows);
    lemma_small_mod(v, pow(8, num_windows as nat) as nat);
}

} // verus!
