//! Elements of the two prime fields attached to the Pallas curve, carried as
//! canonical 32-byte little-endian representations so that every arithmetic
//! contract can speak of the integer value of an element.
use vstd::arithmetic::div_mod::{
    lemma_fundamental_div_mod_converse, lemma_mod_breakdown, lemma_small_mod,
};
use vstd::arithmetic::mul::lemma_mul_is_associative;
use vstd::arithmetic::power::{
    lemma_pow0, lemma_pow1, lemma_pow_adds, lemma_pow_increases, lemma_pow_multiplies, pow,
};
use vstd::arithmetic::power2::{lemma2_to64, lemma2_to64_rest, lemma_pow2, pow2};
use vstd::bits::{
    lemma_low_bits_mask_values, lemma_u64_low_bits_mask_is_mod, lemma_u64_shr_is_div,
};
use ff::PrimeField;
use vstd::prelude::*;

verus! {

/// The integer that a little-endian byte string stands for.
pub open spec fn le_val(s: Seq<u8>) -> nat
    decreases s.len(),
{
    if s.len() == 0 {
        0
    } else {
        (s[0] + 256 * le_val(s.skip(1))) as nat
    }
}

/// The modulus of the Pallas base field.
pub open spec fn base_modulus() -> nat {
    0x40000000000000000000000000000000224698fc094cf91b992d30ed00000001nat
}

/// The modulus of the Pallas scalar field.
pub open spec fn scalar_modulus() -> nat {
    0x40000000000000000000000000000000224698fc0994a8dd8c46eb2100000001nat
}

/// An element of the Pallas base field, as its canonical little-endian bytes.
#[derive(Clone, Debug)]
pub struct BaseElement {
    pub bytes: Vec<u8>,
}

impl View for BaseElement {
    type V = nat;

    open spec fn view(&self) -> nat {
        le_val(self.bytes@)
    }
}

impl BaseElement {
    /// The representation is 32 bytes and canonical (below the modulus).
    pub open spec fn wf(&self) -> bool {
        self.bytes@.len() == 32 && le_val(self.bytes@) < base_modulus()
    }

    /// An equal element backed by fresh storage.
    pub fn duplicate(&self) -> (r: Self)
        ensures
            r.bytes@ == self.bytes@,
            r@ == self@,
            r.wf() <==> self.wf(),
    {
        BaseElement { bytes: copy_bytes(&self.bytes) }
    }
}

/// An element of the Pallas scalar field, as its canonical little-endian bytes.
#[derive(Clone, Debug)]
pub struct ScalarElement {
    pub bytes: Vec<u8>,
}

impl View for ScalarElement {
    type V = nat;

    open spec fn view(&self) -> nat {
        le_val(self.bytes@)
    }
}

impl ScalarElement {
    /// The representation is 32 bytes and canonical (below the modulus).
    pub open spec fn wf(&self) -> bool {
        self.bytes@.len() == 32 && le_val(self.bytes@) < scalar_modulus()
    }
}

/// A byte-for-byte copy of a byte vector.
pub fn copy_bytes(v: &Vec<u8>) -> (r: Vec<u8>)
    ensures
        r@ == v@,
{
    let mut r: Vec<u8> = Vec::new();
    let mut i: usize = 0;
    while i < v.len()
        invariant
            i <= v.len(),
            r@ == v@.take(i as int),
        decreases v.len() - i,
    {
        r.push(v[i]);
        assert(v@.take(i + 1 as int) == v@.take(i as int).push(v@[i as int]));
        i = i + 1;
    }
    assert(v@.take(v@.len() as int) == v@);
    r
}

/// Appending a byte raises the value by that byte times the place value.
pub proof fn lemma_le_val_push(s: Seq<u8>, b: u8)
    ensures
        le_val(s.push(b)) == le_val(s) + b * pow(256, s.len()),
    decreases s.len(),
{
    if s.len() == 0 {
        assert(s.push(b).skip(1) =~= Seq::<u8>::empty());
        assert(le_val(Seq::<u8>::empty()) == 0);
        assert(s.push(b)[0] == b);
        assert(le_val(s.push(b)) == b);
        lemma_pow0(256);
    } else {
        assert(s.push(b).skip(1) =~= s.skip(1).push(b));
        lemma_le_val_push(s.skip(1), b);
        assert(pow(256, s.len()) == 256 * pow(256, (s.len() - 1) as nat)) by {
            lemma_pow_adds(256, 1, (s.len() - 1) as nat);
            lemma_pow1(256);
        }
        assert(256 * (b * pow(256, (s.len() - 1) as nat)) == b * (256 * pow(
            256,
            (s.len() - 1) as nat,
        ))) by {
            lemma_mul_is_associative(256, b as int, pow(256, (s.len() - 1) as nat));
            lemma_mul_is_associative(b as int, 256, pow(256, (s.len() - 1) as nat));
        }
    }
}

/// A byte string's value is below the place value just past its end.
pub proof fn lemma_le_val_bound(s: Seq<u8>)
    ensures
        le_val(s) < pow(256, s.len()),
    decreases s.len(),
{
    if s.len() == 0 {
        lemma_pow0(256);
    } else {
        lemma_le_val_bound(s.skip(1));
        assert(pow(256, s.len()) == 256 * pow(256, (s.len() - 1) as nat)) by {
            lemma_pow_adds(256, 1, (s.len() - 1) as nat);
            lemma_pow1(256);
        }
    }
}

/// Equal-length byte strings with the same value are the same bytes.
pub proof fn lemma_le_val_injective(a: Seq<u8>, b: Seq<u8>)
    requires
        a.len() == b.len(),
        le_val(a) == le_val(b),
    ensures
        a =~= b,
    decreases a.len(),
{
    if a.len() > 0 {
        assert(le_val(a) == a[0] + 256 * le_val(a.skip(1)));
        assert(le_val(b) == b[0] + 256 * le_val(b.skip(1)));
        lemma_fundamental_div_mod_converse(le_val(a) as int, 256, le_val(a.skip(1)) as int, a[0] as int);
        lemma_fundamental_div_mod_converse(le_val(b) as int, 256, le_val(b.skip(1)) as int, b[0] as int);
        assert(a[0] == le_val(a) % 256 && b[0] == le_val(b) % 256);
        assert(le_val(a.skip(1)) == le_val(a) / 256 && le_val(b.skip(1)) == le_val(b) / 256);
        lemma_le_val_injective(a.skip(1), b.skip(1));
        assert forall|i: int| 0 <= i < a.len() implies a[i] == b[i] by {
            if i > 0 {
                assert(a[i] == a.skip(1)[i - 1]);
                assert(b[i] == b.skip(1)[i - 1]);
            }
        }
    }
}

/// The 32-byte little-endian representation of a 64-bit integer.
pub fn u64_to_le_bytes32(v: u64) -> (r: Vec<u8>)
    ensures
        r@.len() == 32,
        le_val(r@) == v,
{
    let mut r: Vec<u8> = Vec::new();
    let mut i: usize = 0;
    proof {
        lemma_pow0(256);
        assert(le_val(Seq::<u8>::empty()) == 0);
    }
    while i < 32
        invariant
            i <= 32,
            r@.len() == i,
            le_val(r@) as int == v as int % pow(256, i as nat),
        decreases 32 - i,
    {
        let b: u8 = if i < 8 {
            #[verifier::truncate]
            (((v >> ((8 * i) as u64)) & 0xff) as u8)
        } else {
            0
        };
        proof {
            lemma_byte_of_u64(v, i as nat);
            assert(b as int == (v as int / pow(256, i as nat)) % 256);
            lemma_le_val_push(r@, b);
            vstd::arithmetic::power::lemma_pow_positive(256, i as nat);
            lemma_mod_breakdown(v as int, pow(256, i as nat), 256);
            lemma_pow_adds(256, i as nat, 1);
            lemma_pow1(256);
            assert(le_val(r@) as int + b * pow(256, i as nat) == v as int % pow(256, (i + 1) as nat));
        }
        r.push(b);
        i = i + 1;
    }
    proof {
        assert(v < pow(256, 32)) by {
            lemma_pow_multiplies(2, 8, 8);
            lemma_pow2(64);
            lemma_pow2(8);
            lemma2_to64();
            lemma2_to64_rest();
            assert(pow(256, 8) == pow2(64));
            lemma_pow_increases(256, 8, 32);
        }
        lemma_small_mod(v as nat, pow(256, 32) as nat);
    }
    r
}

/// The i-th little-endian byte of a 64-bit integer.
proof fn lemma_byte_of_u64(v: u64, i: nat)
    requires
        i < 32,
    ensures
        i < 8 ==> ((v >> ((8 * i) as u64)) & 0xff) as int == (v as int / pow(256, i)) % 256,
        i >= 8 ==> (v as int / pow(256, i)) % 256 == 0,
{
    lemma_pow_multiplies(2, 8, i);
    lemma_pow2(8 * i);
    lemma_pow2(8);
    lemma2_to64();
    assert(pow(256, i) == pow2(8 * i));
    if i < 8 {
        lemma_u64_shr_is_div(v, (8 * i) as u64);
        lemma_low_bits_mask_values();
        lemma_u64_low_bits_mask_is_mod(v >> ((8 * i) as u64), 8);
    } else {
        assert(v < pow2(64)) by {
            lemma2_to64_rest();
        }
        assert(pow2(64) <= pow2(8 * i)) by {
            vstd::arithmetic::power2::lemma_pow2_adds(64, (8 * i - 64) as nat);
            vstd::arithmetic::power2::lemma_pow2_pos((8 * i - 64) as nat);
            vstd::arithmetic::mul::lemma_mul_increases(
                pow2((8 * i - 64) as nat) as int,
                pow2(64) as int,
            );
        }
        assert(v as int / pow(256, i) == 0) by {
            vstd::arithmetic::div_mod::lemma_basic_div(v as int, pow2(8 * i) as int);
        }
    }
}

/// A base-field element holding a small integer.
pub fn base_from_u64(v: u64) -> (r: BaseElement)
    ensures
        r.wf(),
        r@ == v,
{
    let r = BaseElement { bytes: u64_to_le_bytes32(v) };
    r
}

/// A scalar-field element holding a small integer.
pub fn scalar_from_u64(v: u64) -> (r: ScalarElement)
    ensures
        r.wf(),
        r@ == v,
{
    let r = ScalarElement { bytes: u64_to_le_bytes32(v) };
    r
}

/// Every element of a sequence is well formed.
pub open spec fn elems_wf(s: Seq<BaseElement>) -> bool {
    forall|i: int| 0 <= i < s.len() ==> (#[trigger] s[i]).wf()
}

/// The values that a sequence of elements holds.
pub open spec fn elems_view(s: Seq<BaseElement>) -> Seq<nat> {
    s.map_values(|e: BaseElement| e@)
}

/// Whether an integer is a quadratic residue (a square) in the base field.
pub open spec fn is_qr(v: int) -> bool {
    exists|u: nat|
        u < base_modulus() && #[trigger] ((u * u) as int % (base_modulus() as int)) == v % (
        base_modulus() as int)
}

/// Relies on `pasta_curves`' `Add` for `Fp` (field addition modulo `p`) and on
/// `ff::PrimeField::{from_repr, to_repr}` carrying canonical little-endian bytes.
#[verifier::external_body]
pub(crate) fn base_add(a: &BaseElement, b: &BaseElement) -> (r: BaseElement)
    requires
        a.wf(),
        b.wf(),
    ensures
        r.wf(),
        r@ as int == ((a@ + b@) as int) % (base_modulus() as int),
{
    let mut ra = [0u8; 32];
    ra.copy_from_slice(&a.bytes);
    let mut rb = [0u8; 32];
    rb.copy_from_slice(&b.bytes);
    let x = pasta_curves::pallas::Base::from_repr(ra).unwrap()
        + pasta_curves::pallas::Base::from_repr(rb).unwrap();
    BaseElement { bytes: x.to_repr().to_vec() }
}

/// Relies on `pasta_curves`' `Sub` for `Fp` (field subtraction modulo `p`) and on
/// `ff::PrimeField::{from_repr, to_repr}` carrying canonical little-endian bytes.
#[verifier::external_body]
pub(crate) fn base_sub(a: &BaseElement, b: &BaseElement) -> (r: BaseElement)
    requires
        a.wf(),
        b.wf(),
    ensures
        r.wf(),
        r@ as int == (a@ - b@) % (base_modulus() as int),
{
    let mut ra = [0u8; 32];
    ra.copy_from_slice(&a.bytes);
    let mut rb = [0u8; 32];
    rb.copy_from_slice(&b.bytes);
    let x = pasta_curves::pallas::Base::from_repr(ra).unwrap()
        - pasta_curves::pallas::Base::from_repr(rb).unwrap();
    BaseElement { bytes: x.to_repr().to_vec() }
}

/// Relies on `pasta_curves`' `Mul` for `Fp` (field multiplication modulo `p`) and on
/// `ff::PrimeField::{from_repr, to_repr}` carrying canonical little-endian bytes.
#[verifier::external_body]
pub(crate) fn base_mul(a: &BaseElement, b: &BaseElement) -> (r: BaseElement)
    requires
        a.wf(),
        b.wf(),
    ensures
        r.wf(),
        r@ as int == (a@ as int * b@ as int) % (base_modulus() as int),
{
    let mut ra = [0u8; 32];
    ra.copy_from_slice(&a.bytes);
    let mut rb = [0u8; 32];
    rb.copy_from_slice(&b.bytes);
    let x = pasta_curves::pallas::Base::from_repr(ra).unwrap()
        * pasta_curves::pallas::Base::from_repr(rb).unwrap();
    BaseElement { bytes: x.to_repr().to_vec() }
}

/// Relies on `ff::Field::sqrt` for `Fp`: it returns a value exactly when the
/// element is a quadratic residue in the base field.
#[verifier::external_body]
pub(crate) fn base_is_square(a: &BaseElement) -> (r: bool)
    requires
        a.wf(),
    ensures
        r == is_qr(a@ as int),
{
    let mut ra = [0u8; 32];
    ra.copy_from_slice(&a.bytes);
    let x = pasta_curves::pallas::Base::from_repr(ra).unwrap();
    bool::from(ff::Field::sqrt(&x).is_some())
}

/// Relies on `pasta_curves`' `Add` for `Fq` (field addition modulo `q`) and on
/// `ff::PrimeField::{from_repr, to_repr}` carrying canonical little-endian bytes.
#[verifier::external_body]
pub(crate) fn scalar_add(a: &ScalarElement, b: &ScalarElement) -> (r: ScalarElement)
    requires
        a.wf(),
        b.wf(),
    ensures
        r.wf(),
        r@ as int == ((a@ + b@) as int) % (scalar_modulus() as int),
{
    let mut ra = [0u8; 32];
    ra.copy_from_slice(&a.bytes);
    let mut rb = [0u8; 32];
    rb.copy_from_slice(&b.bytes);
    let x = pasta_curves::pallas::Scalar::from_repr(ra).unwrap()
        + pasta_curves::pallas::Scalar::from_repr(rb).unwrap();
    ScalarElement { bytes: x.to_repr().to_vec() }
}

/// Relies on `pasta_curves`' `Sub` for `Fq` (field subtraction modulo `q`) and on
/// `ff::PrimeField::{from_repr, to_repr}` carrying canonical little-endian bytes.
#[verifier::external_body]
pub(crate) fn scalar_sub(a: &ScalarElement, b: &ScalarElement) -> (r: ScalarElement)
    requires
        a.wf(),
        b.wf(),
    ensures
        r.wf(),
        r@ as int == (a@ - b@) % (scalar_modulus() as int),
{
    let mut ra = [0u8; 32];
    ra.copy_from_slice(&a.bytes);
    let mut rb = [0u8; 32];
    rb.copy_from_slice(&b.bytes);
    let x = pasta_curves::pallas::Scalar::from_repr(ra).unwrap()
        - pasta_curves::pallas::Scalar::from_repr(rb).unwrap();
    ScalarElement { bytes: x.to_repr().to_vec() }
}

/// Relies on `pasta_curves`' `Mul` for `Fq` (field multiplication modulo `q`) and on
/// `ff::PrimeField::{from_repr, to_repr}` carrying canonical little-endian bytes.
#[verifier::external_body]
pub(crate) fn scalar_mul(a: &ScalarElement, b: &ScalarElement) -> (r: ScalarElement)
    requires
        a.wf(),
        b.wf(),
    ensures
        r.wf(),
        r@ as int == (a@ as int * b@ as int) % (scalar_modulus() as int),
{
    let mut ra = [0u8; 32];
    ra.copy_from_slice(&a.bytes);
    let mut rb = [0u8; 32];
    rb.copy_from_slice(&b.bytes);
    let x = pasta_curves::pallas::Scalar::from_repr(ra).unwrap()
        * pasta_curves::pallas::Scalar::from_repr(rb).unwrap();
    ScalarElement { bytes: x.to_repr().to_vec() }
}

/// Relies on `ff::Field::pow_vartime` for `Fq`: exponentiation by a 64-bit
/// public exponent in the scalar field.
#[verifier::external_body]
pub(crate) fn scalar_pow(a: &ScalarElement, e: u64) -> (r: ScalarElement)
    requires
        a.wf(),
    ensures
        r.wf(),
        r@ as int == pow(a@ as int, e as nat) % (scalar_modulus() as int),
{
    let mut ra = [0u8; 32];
    ra.copy_from_slice(&a.bytes);
    let x = ff::Field::pow_vartime(&pasta_curves::pallas::Scalar::from_repr(ra).unwrap(), [e]);
    ScalarElement { bytes: x.to_repr().to_vec() }
}

} // verus!
