//! Elements of the BN254 scalar field.
//!
//! The arithmetic is that of `ark_bn254`; the functions here that call it carry the
//! contracts that the rest of the library builds on.
use ark_ff::{BigInteger, FftField, Field, PrimeField};
use vstd::arithmetic::div_mod::*;
use vstd::arithmetic::mul::*;
use vstd::arithmetic::power::*;
use vstd::prelude::*;

verus! {

/// Number of 64-bit limbs that hold one field element.
pub const LIMBS_PER_FR: usize = 4;

/// A generator of the multiplicative group of the field.
pub const GENERATOR: u64 = 5;

/// The order of the field.
pub open spec fn modulus() -> int {
    21888242871839275222246405745257275088548364400416034343698204186575808495617int
}

/// The inverse of `2^256` in the field.
pub open spec fn radix_inverse() -> int {
    9915499612839321149637521777990102151350674507940716049588462388200839649614int
}

/// The number that four little-endian 64-bit limbs stand for.
pub open spec fn limbs_value(limbs: Seq<u64>) -> int {
    limbs[0] + limbs[1] * 0x1_0000_0000_0000_0000int + limbs[2]
        * 0x1_0000_0000_0000_0000_0000_0000_0000_0000int + limbs[3]
        * 0x1_0000_0000_0000_0000_0000_0000_0000_0000_0000_0000_0000_0000int
}

/// The number that little-endian bytes stand for.
pub open spec fn bytes_value(bytes: Seq<u8>) -> int
    decreases bytes.len(),
{
    if bytes.len() == 0 {
        0
    } else {
        bytes[0] + 256 * bytes_value(bytes.drop_first())
    }
}

/// Whether the field has elements of multiplicative order `n` that the root finder knows:
/// `n` is a product of at most 28 factors of two and at most two factors of three.
pub open spec fn has_root(n: int) -> bool {
    n > 0 && 0x9000_0000int % n == 0
}

/// The element of multiplicative order `n` that the root finder picks.
pub open spec fn root(n: int) -> int {
    pow(GENERATOR as int, ((modulus() - 1) / n) as nat) % modulus()
}

/// A field element in Montgomery form: the limbs hold the element's value times `2^256`,
/// reduced modulo the order of the field.
#[derive(Clone, Copy, Debug, PartialEq, Eq)]
pub struct Fr {
    pub limbs: [u64; 4],
}

/// The element zero.
pub open spec fn zero_element() -> Fr {
    Fr { limbs: [0, 0, 0, 0] }
}

impl View for Fr {
    type V = int;

    /// The value of the element, from zero up to the order of the field.
    open spec fn view(&self) -> int {
        (limbs_value(self.limbs@) * radix_inverse()) % modulus()
    }
}

impl Fr {
    /// Whether the limbs are reduced. Each field element has exactly one valid form.
    pub open spec fn valid(self) -> bool {
        limbs_value(self.limbs@) < modulus()
    }

    /// The element zero.
    pub fn zero() -> (zero: Fr)
        ensures
            zero.valid(),
            zero@ == 0,
            zero == zero_element(),
    {
        let zero = Fr { limbs: [0, 0, 0, 0] };
        assert(zero.limbs =~= zero_element().limbs);
        zero
    }

    /// Whether the limbs stand for a number below the order of the field.
    pub fn is_reduced(&self) -> (yes: bool)
        ensures
            yes == self.valid(),
    {
        let bound = fr_modulus();
        limbs_below(&self.limbs, &bound)
    }
}

/// Whether the first of two numbers is the smaller one.
fn limbs_below(a: &[u64; 4], b: &[u64; 4]) -> (yes: bool)
    ensures
        yes == (limbs_value(a@) < limbs_value(b@)),
{
    if a[3] != b[3] {
        return a[3] < b[3];
    }
    if a[2] != b[2] {
        return a[2] < b[2];
    }
    if a[1] != b[1] {
        return a[1] < b[1];
    }
    a[0] < b[0]
}

/// Reads the constant `ark_bn254::Fr::MODULUS`. Claims that its limbs stand for the order
/// of the field.
#[verifier::external_body]
pub(crate) fn fr_modulus() -> (limbs: [u64; 4])
    ensures
        limbs_value(limbs@) == modulus(),
{
    ark_bn254::Fr::MODULUS.0
}

/// Calls the addition of `ark_bn254::Fr`. Claims that the sum of two reduced elements is
/// reduced and has the sum of their values, modulo the order of the field.
#[verifier::external_body]
pub(crate) fn fr_add(a: &Fr, b: &Fr) -> (sum: Fr)
    requires
        a.valid(),
        b.valid(),
    ensures
        sum.valid(),
        sum@ == (a@ + b@) % modulus(),
{
    let x = ark_bn254::Fr::new_unchecked(ark_ff::BigInt(a.limbs));
    let y = ark_bn254::Fr::new_unchecked(ark_ff::BigInt(b.limbs));
    Fr { limbs: (x + y).0.0 }
}

/// Calls the subtraction of `ark_bn254::Fr`. Claims that the difference of two reduced
/// elements is reduced and has the difference of their values, modulo the order of the
/// field.
#[verifier::external_body]
pub(crate) fn fr_sub(a: &Fr, b: &Fr) -> (difference: Fr)
    requires
        a.valid(),
        b.valid(),
    ensures
        difference.valid(),
        difference@ == (a@ - b@) % modulus(),
{
    let x = ark_bn254::Fr::new_unchecked(ark_ff::BigInt(a.limbs));
    let y = ark_bn254::Fr::new_unchecked(ark_ff::BigInt(b.limbs));
    Fr { limbs: (x - y).0.0 }
}

/// Calls the multiplication of `ark_bn254::Fr`. Claims that the product of two reduced
/// elements is reduced and has the product of their values, modulo the order of the field.
#[verifier::external_body]
pub(crate) fn fr_mul(a: &Fr, b: &Fr) -> (product: Fr)
    requires
        a.valid(),
        b.valid(),
    ensures
        product.valid(),
        product@ == (a@ * b@) % modulus(),
{
    let x = ark_bn254::Fr::new_unchecked(ark_ff::BigInt(a.limbs));
    let y = ark_bn254::Fr::new_unchecked(ark_ff::BigInt(b.limbs));
    Fr { limbs: (x * y).0.0 }
}

/// Calls `ark_ff::Field::pow` for `ark_bn254::Fr` with one exponent limb. Claims that the
/// result is reduced and has the base's value to that power, modulo the order of the
/// field.
#[verifier::external_body]
pub(crate) fn fr_pow(base: &Fr, exponent: u64) -> (power: Fr)
    requires
        base.valid(),
    ensures
        power.valid(),
        power@ == pow(base@, exponent as nat) % modulus(),
{
    let x = ark_bn254::Fr::new_unchecked(ark_ff::BigInt(base.limbs));
    Fr { limbs: x.pow([exponent]).0.0 }
}

/// Calls `ark_ff::FftField::get_root_of_unity` for `ark_bn254::Fr`. Claims that there is a
/// root exactly for the orders `2^a * 3^b` with `a <= 28` and `b <= 2`, and that it is the
/// group generator raised to the group order divided by `n`.
#[verifier::external_body]
pub(crate) fn fr_root_of_unity(n: u64) -> (found: Option<Fr>)
    ensures
        found is Some <==> has_root(n as int),
        found matches Some(r) ==> r.valid() && r@ == root(n as int),
{
    ark_bn254::Fr::get_root_of_unity(n).map(|r| Fr { limbs: r.0.0 })
}

/// Calls `ark_ff::PrimeField::into_bigint` for `ark_bn254::Fr`. Claims that the limbs of
/// the result stand for the value of the element.
#[verifier::external_body]
pub(crate) fn fr_into_bigint(element: &Fr) -> (limbs: [u64; 4])
    requires
        element.valid(),
    ensures
        limbs_value(limbs@) == element@,
{
    ark_bn254::Fr::new_unchecked(ark_ff::BigInt(element.limbs)).into_bigint().0
}

/// Calls `ark_ff::BigInteger::to_bytes_le` for four limbs. Claims that the result is 32
/// bytes long and stands for the same number.
#[verifier::external_body]
pub(crate) fn bigint_to_bytes_le(limbs: &[u64; 4]) -> (bytes: Vec<u8>)
    ensures
        bytes@.len() == 32,
        bytes_value(bytes@) == limbs_value(limbs@),
{
    ark_ff::BigInt(*limbs).to_bytes_le()
}

/// Calls `ark_ff::PrimeField::from_le_bytes_mod_order` for `ark_bn254::Fr`. Claims that
/// the result is reduced and has the value of the number that the bytes stand for, modulo
/// the order of the field.
#[verifier::external_body]
pub(crate) fn fr_from_le_bytes_mod_order(bytes: &[u8]) -> (element: Fr)
    ensures
        element.valid(),
        element@ == bytes_value(bytes@) % modulus(),
{
    Fr { limbs: ark_bn254::Fr::from_le_bytes_mod_order(bytes).0.0 }
}

/// The little-endian bytes of an element's value.
pub fn fr_to_bytes_le(element: &Fr) -> (bytes: Vec<u8>)
    requires
        element.valid(),
    ensures
        bytes@.len() == 32,
        bytes_value(bytes@) == element@,
{
    let limbs = fr_into_bigint(element);
    bigint_to_bytes_le(&limbs)
}

/// The value of an element lies below the order of the field.
pub proof fn lemma_value_bounds(element: Fr)
    ensures
        0 <= element@ < modulus(),
{
    lemma_mod_bound(limbs_value(element.limbs@) * radix_inverse(), modulus());
}

/// Four limbs are determined by the number that they stand for.
proof fn lemma_limbs_unique(a: Seq<u64>, b: Seq<u64>)
    requires
        a.len() == 4,
        b.len() == 4,
        limbs_value(a) == limbs_value(b),
    ensures
        a == b,
{
    let word = 0x1_0000_0000_0000_0000int;
    let a23 = a[2] + word * a[3];
    let b23 = b[2] + word * b[3];
    let a13 = a[1] + word * a23;
    let b13 = b[1] + word * b23;
    assert(a[0] + word * a13 == b[0] + word * b13);
    assert(a[0] == b[0] && a13 == b13);
    assert(a[1] == b[1] && a23 == b23);
    assert(a[2] == b[2] && a[3] == b[3]);
    assert(a =~= b);
}

/// A reduced element is determined by its value.
pub proof fn lemma_valid_unique(a: Fr, b: Fr)
    requires
        a.valid(),
        b.valid(),
        a@ == b@,
    ensures
        a == b,
{
    let x = limbs_value(a.limbs@);
    let y = limbs_value(b.limbs@);
    lemma_from_value(x);
    lemma_from_value(y);
    assert(x == y);
    lemma_limbs_unique(a.limbs@, b.limbs@);
    assert(a.limbs =~= b.limbs);
}

/// A number below the order of the field is found again from its product with the
/// inverse of the radix.
proof fn lemma_from_value(x: int)
    requires
        0 <= x < modulus(),
    ensures
        (((x * radix_inverse()) % modulus())
            * 0x1_0000_0000_0000_0000_0000_0000_0000_0000_0000_0000_0000_0000_0000_0000_0000_0000int)
            % modulus() == x,
{
    let r =
        0x1_0000_0000_0000_0000_0000_0000_0000_0000_0000_0000_0000_0000_0000_0000_0000_0000int;
    let k = 52454480824480482120356829342366457550537710351690908576382634413609933864959int;
    lemma_mul_mod_noop_left(x * radix_inverse(), r, modulus());
    assert(radix_inverse() * r == 1 + modulus() * k);
    assert((x * radix_inverse()) * r == x + modulus() * (x * k)) by (nonlinear_arith)
        requires
            radix_inverse() * r == 1 + modulus() * k,
    ;
    lemma_mod_multiples_vanish(x * k, x, modulus());
    lemma_small_mod(x as nat, modulus() as nat);
}

} // verus!
