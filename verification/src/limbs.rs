//! Field elements as flat vectors of limbs, and the constants of Montgomery arithmetic.
use vstd::arithmetic::div_mod::*;
use vstd::arithmetic::mul::*;
use vstd::prelude::*;

use crate::field::{Fr, LIMBS_PER_FR};

verus! {

/// The limbs of field elements, one element after the other.
pub open spec fn flattened(values: Seq<Fr>) -> Seq<u64> {
    Seq::new(LIMBS_PER_FR as nat * values.len(), |i: int| values[i / 4].limbs@[i % 4])
}

/// The field elements whose limbs stand one after the other.
pub open spec fn hydrated(limbs: Seq<u64>) -> Seq<Fr> {
    Seq::new(
        limbs.len() / LIMBS_PER_FR as nat,
        |i: int|
            Fr { limbs: [limbs[4 * i], limbs[4 * i + 1], limbs[4 * i + 2], limbs[4 * i + 3]] },
    )
}

/// Writes the limbs of field elements into a vector, whatever it held before.
pub fn flatten_roots_into(roots: &[Fr], flat: &mut Vec<u64>)
    ensures
        final(flat)@ == flattened(roots@),
{
    flat.clear();
    let mut i: usize = 0;
    while i < roots.len()
        invariant
            i <= roots@.len(),
            flat@ == flattened(roots@.take(i as int)),
        decreases roots@.len() - i,
    {
        let limbs = roots[i].limbs;
        flat.push(limbs[0]);
        flat.push(limbs[1]);
        flat.push(limbs[2]);
        flat.push(limbs[3]);
        assert(flat@ =~= flattened(roots@.take(i + 1)));
        i = i + 1;
    }
    assert(roots@.take(i as int) =~= roots@);
}

/// The limbs of field elements.
pub fn fr_slice_as_u64(values: &[Fr]) -> (limbs: Vec<u64>)
    ensures
        limbs@ == flattened(values@),
{
    let mut limbs: Vec<u64> = Vec::new();
    flatten_roots_into(values, &mut limbs);
    limbs
}

/// Overwrites field elements with those whose limbs are given.
pub fn fr_slice_from_u64(values: &mut [Fr], limbs: &[u64])
    requires
        limbs@.len() == LIMBS_PER_FR * old(values)@.len(),
    ensures
        final(values)@ == hydrated(limbs@),
{
    let total: usize = values.len();
    let count: usize = limbs.len();
    let mut i: usize = 0;
    while i < total
        invariant
            i <= total,
            total == values@.len(),
            limbs@.len() == LIMBS_PER_FR * total,
            limbs@.len() == count,
            forall|j: int| 0 <= j < i ==> values@[j] == hydrated(limbs@)[j],
        decreases total - i,
    {
        let element = Fr {
            limbs: [limbs[4 * i], limbs[4 * i + 1], limbs[4 * i + 2], limbs[4 * i + 3]],
        };
        values[i] = element;
        assert(element.limbs =~= hydrated(limbs@)[i as int].limbs);
        i = i + 1;
    }
    assert(values@ =~= hydrated(limbs@));
}

/// Field elements survive being flattened and read back.
pub proof fn lemma_flatten_round_trip(values: Seq<Fr>)
    ensures
        hydrated(flattened(values)) == values,
{
    let back = hydrated(flattened(values));
    assert(back.len() == values.len());
    assert forall|i: int| 0 <= i < values.len() implies back[i] == values[i] by {
        assert(back[i].limbs@ =~= values[i].limbs@);
        assert(back[i].limbs =~= values[i].limbs);
    }
    assert(back =~= values);
}

/// Whole elements' limbs survive being read and flattened.
pub proof fn lemma_hydrate_round_trip(limbs: Seq<u64>)
    requires
        limbs.len() % LIMBS_PER_FR as nat == 0,
    ensures
        flattened(hydrated(limbs)) == limbs,
{
    let back = flattened(hydrated(limbs));
    assert forall|i: int| 0 <= i < limbs.len() implies back[i] == limbs[i] by {
        let element = hydrated(limbs)[i / 4];
        assert(back[i] == element.limbs@[i % 4]);
        assert(element.limbs@[0] == limbs[4 * (i / 4)]);
        assert(element.limbs@[1] == limbs[4 * (i / 4) + 1]);
        assert(element.limbs@[2] == limbs[4 * (i / 4) + 2]);
        assert(element.limbs@[3] == limbs[4 * (i / 4) + 3]);
    }
    assert(back =~= limbs);
}

/// One more than the largest limb.
pub open spec fn word() -> int {
    0x1_0000_0000_0000_0000
}

/// What Newton's iteration for an inverse modulo the word size has reached after some
/// rounds.
pub open spec fn newton(limb: int, rounds: nat) -> int
    decreases rounds,
{
    if rounds == 0 {
        1
    } else {
        let inv = newton(limb, (rounds - 1) as nat);
        (inv * ((2 - (limb * inv) % word()) % word())) % word()
    }
}

/// One round of Newton's iteration doubles the number of digits that are right.
proof fn lemma_newton_step(limb: int, inv: int, next: int, small: int, large: int, rest: int)
    requires
        small > 1,
        large == small * small,
        word() == large * rest,
        (limb * inv) % small == 1,
        next == (inv * ((2 - (limb * inv) % word()) % word())) % word(),
    ensures
        (limb * next) % large == 1,
{
    let w = word();
    let x = limb * inv;
    let q1 = x / w;
    let y = 2 - x % w;
    let q2 = y / w;
    let z = inv * (y % w);
    let q3 = z / w;
    lemma_fundamental_div_mod(x, w);
    lemma_fundamental_div_mod(y, w);
    lemma_fundamental_div_mod(z, w);
    let a = x / small;
    lemma_fundamental_div_mod(x, small);
    let t = inv * q1 - inv * q2 - q3;
    assert(next == inv * (2 - x) + w * t) by (nonlinear_arith)
        requires
            next == z - w * q3,
            z == inv * (y - w * q2),
            y == 2 - (x - w * q1),
            t == inv * q1 - inv * q2 - q3,
    ;
    assert(limb * next == x * (2 - x) + w * (t * limb)) by (nonlinear_arith)
        requires
            next == inv * (2 - x) + w * t,
            x == limb * inv,
    ;
    let k = rest * (t * limb) - a * a;
    assert(x * (2 - x) == 1 - large * (a * a)) by (nonlinear_arith)
        requires
            x == small * a + 1,
            large == small * small,
    ;
    assert(w * (t * limb) == large * (rest * (t * limb))) by (nonlinear_arith)
        requires
            w == large * rest,
    ;
    assert(limb * next == large * k + 1) by (nonlinear_arith)
        requires
            limb * next == 1 - large * (a * a) + large * (rest * (t * limb)),
            k == rest * (t * limb) - a * a,
    ;
    assert(large > 1) by (nonlinear_arith)
        requires
            large == small * small,
            small > 1,
    ;
    lemma_fundamental_div_mod_converse(limb * next, large, k, 1);
}

/// Six rounds of Newton's iteration invert an odd limb modulo the word size.
pub proof fn lemma_newton_inverts(limb: int)
    requires
        limb % 2 == 1,
    ensures
        (limb * newton(limb, 6)) % word() == 1,
{
    reveal_with_fuel(newton, 7);
    let n0 = newton(limb, 0);
    let n1 = newton(limb, 1);
    let n2 = newton(limb, 2);
    let n3 = newton(limb, 3);
    let n4 = newton(limb, 4);
    let n5 = newton(limb, 5);
    let n6 = newton(limb, 6);
    assert(limb * n0 == limb);
    lemma_newton_step(limb, n0, n1, 2, 4, 0x4000_0000_0000_0000);
    lemma_newton_step(limb, n1, n2, 4, 16, 0x1000_0000_0000_0000);
    lemma_newton_step(limb, n2, n3, 16, 256, 0x100_0000_0000_0000);
    lemma_newton_step(limb, n3, n4, 256, 0x1_0000, 0x1_0000_0000_0000);
    lemma_newton_step(limb, n4, n5, 0x1_0000, 0x1_0000_0000, 0x1_0000_0000);
    lemma_newton_step(limb, n5, n6, 0x1_0000_0000, 0x1_0000_0000_0000_0000, 1);
}

/// The number that a Montgomery reduction multiplies with: the negated inverse of the
/// modulus' lowest limb, modulo the word size.
pub fn montgomery_inv(modulus_limb_0: u64) -> (result: u64)
    ensures
        result == (-newton(modulus_limb_0 as int, 6)) % word(),
        modulus_limb_0 % 2 == 1 ==> (modulus_limb_0 * result + 1) % word() == 0,
{
    let mut inv: u64 = 1;
    let mut round: u32 = 0;
    while round < 6
        invariant
            round <= 6,
            inv == newton(modulus_limb_0 as int, round as nat),
        decreases 6 - round,
    {
        inv = inv.wrapping_mul(2u64.wrapping_sub(modulus_limb_0.wrapping_mul(inv)));
        round = round + 1;
    }
    let result = 0u64.wrapping_sub(inv);
    proof {
        if modulus_limb_0 % 2 == 1 {
            lemma_newton_inverts(modulus_limb_0 as int);
            let limb = modulus_limb_0 as int;
            let k = (limb * inv) / word();
            lemma_fundamental_div_mod(limb * inv, word());
            if inv > 0 {
                assert(limb * result + 1 == word() * (limb - k)) by (nonlinear_arith)
                    requires
                        result == word() - inv,
                        limb * inv == word() * k + 1,
                ;
                lemma_mod_multiples_basic(limb - k, word());
                lemma_mul_is_commutative(limb - k, word());
            } else {
                assert(limb * 0 == 0);
            }
        }
    }
    result
}

} // verus!
