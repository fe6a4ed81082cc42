//! Powers of two and the bit-reversed order of indices.
use vstd::arithmetic::div_mod::*;
use vstd::arithmetic::mul::*;
use vstd::arithmetic::power::*;
use vstd::arithmetic::power2::*;
use vstd::prelude::*;

verus! {

/// The number whose binary digits are the lowest `bits` digits of `index`, in reverse.
pub open spec fn reversed(index: nat, bits: nat) -> nat
    decreases bits,
{
    if bits == 0 {
        0
    } else {
        (index % 2) * pow2((bits - 1) as nat) + reversed(index / 2, (bits - 1) as nat)
    }
}

/// The number of binary digits that the indices below `length` need.
pub open spec fn index_bits(length: nat) -> nat
    decreases length,
{
    if length <= 1 {
        0
    } else {
        1 + index_bits((length + 1) / 2)
    }
}

/// Whether `length` is a power of two.
pub fn is_power_of_two(length: usize) -> (yes: bool)
    ensures
        yes == is_pow2(length as int),
{
    if length == 0 {
        proof {
            reveal(is_pow2);
        }
        return false;
    }
    let mut rest: usize = length;
    while rest % 2 == 0
        invariant
            rest > 0,
            is_pow2(rest as int) == is_pow2(length as int),
        decreases rest,
    {
        proof {
            reveal_with_fuel(is_pow2, 2);
        }
        rest = rest / 2;
    }
    proof {
        reveal_with_fuel(is_pow2, 2);
    }
    rest == 1
}

/// The number of digits that the indices below `length` need.
pub fn count_index_bits(length: usize) -> (count: u32)
    ensures
        count == index_bits(length as nat),
        count <= 64,
{
    let mut rest: usize = length;
    let mut count: u32 = 0;
    proof {
        lemma_index_bits_bound(length as nat);
        lemma2_to64();
        lemma2_to64_rest();
        if index_bits(length as nat) > 64 {
            lemma_power_order(64, index_bits(length as nat));
            lemma_power_divides(65, index_bits(length as nat));
            lemma_pow2_unfold(65);
        }
    }
    while rest > 1
        invariant
            index_bits(length as nat) == count + index_bits(rest as nat),
            index_bits(length as nat) <= 64,
        decreases rest,
    {
        assert(rest / 2 + rest % 2 == (rest + 1) / 2);
        rest = rest / 2 + rest % 2;
        count = count + 1;
    }
    count
}

/// The number whose binary digits are the lowest `bits` digits of `index`, in reverse.
pub fn reverse_index(index: usize, bits: u32) -> (result: usize)
    requires
        pow2(bits as nat) <= usize::MAX + 1,
    ensures
        result == reversed(index as nat, bits as nat),
{
    let mut rest: usize = index;
    let mut left: u32 = bits;
    let mut result: usize = 0;
    proof {
        lemma2_to64();
        lemma_reversed_bound(index as nat, bits as nat);
    }
    while left > 0
        invariant
            left <= bits,
            reversed(index as nat, bits as nat) == result * pow2(left as nat) + reversed(
                rest as nat,
                left as nat,
            ),
            reversed(index as nat, bits as nat) <= usize::MAX,
        decreases left,
    {
        proof {
            let half = pow2((left - 1) as nat);
            let digit = rest % 2;
            lemma_pow2_unfold(left as nat);
            lemma_pow2_pos((left - 1) as nat);
            assert(result * pow2(left as nat) + digit * half == (2 * result + digit) * half)
                by (nonlinear_arith)
                requires
                    pow2(left as nat) == 2 * half,
            ;
            assert((2 * result + digit) * half >= 2 * result + digit) by (nonlinear_arith)
                requires
                    half >= 1,
                    2 * result + digit >= 0,
            ;
        }
        result = 2 * result + rest % 2;
        rest = rest / 2;
        left = left - 1;
    }
    proof {
        lemma2_to64();
        assert(result * pow2(0) == result) by (nonlinear_arith)
            requires
                pow2(0) == 1,
        ;
    }
    result
}

/// A length lies between half of the count of indices that its digits allow and all of it.
pub proof fn lemma_index_bits_bound(length: nat)
    ensures
        length <= pow2(index_bits(length)),
        length >= 1 ==> pow2(index_bits(length)) < 2 * length,
    decreases length,
{
    lemma2_to64();
    if length > 1 {
        lemma_index_bits_bound((length + 1) / 2);
        lemma_pow2_unfold(index_bits(length));
        if length > 2 {
            lemma_pow2_unfold(index_bits((length + 1) / 2));
        }
    }
}

/// The exponent of a power of two.
pub proof fn lemma_exponent(length: int) -> (exponent: nat)
    requires
        is_pow2(length),
    ensures
        length == pow2(exponent),
{
    is_pow2_equiv(length);
    let exponent = choose|i: nat| pow(2, i) == length;
    lemma_pow2(exponent);
    exponent
}

/// Every power with base two is a power of two.
pub proof fn lemma_is_power(exponent: nat)
    ensures
        is_pow2(pow2(exponent) as int),
{
    lemma_pow2(exponent);
    is_pow2_equiv(pow2(exponent) as int);
}

/// Every power of two is positive.
pub proof fn lemma_power_positive(length: int)
    requires
        is_pow2(length),
    ensures
        length > 0,
{
    let exponent = lemma_exponent(length);
    lemma_pow2_pos(exponent);
}

/// A larger power of two is a multiple of a smaller one.
pub proof fn lemma_power_divides(small: nat, large: nat)
    requires
        small <= large,
    ensures
        pow2(large) == pow2(small) * pow2((large - small) as nat),
        pow2(large) % pow2(small) == 0,
        pow2(large) / pow2(small) == pow2((large - small) as nat),
        pow2(small) <= pow2(large),
{
    let rest = (large - small) as nat;
    lemma_pow2_adds(small, rest);
    lemma_pow2_pos(small);
    lemma_pow2_pos(rest);
    lemma_mod_multiples_basic(pow2(rest) as int, pow2(small) as int);
    lemma_div_multiples_vanish(pow2(rest) as int, pow2(small) as int);
    assert(pow2(small) * 1 <= pow2(small) * pow2(rest)) by (nonlinear_arith)
        requires
            pow2(rest) >= 1,
    ;
    assert(pow2(rest) * pow2(small) == pow2(small) * pow2(rest)) by (nonlinear_arith);
}

/// What divides a power of two is a power of two.
pub proof fn lemma_power_divisor(exponent: nat, divisor: int)
    requires
        divisor > 0,
        pow2(exponent) as int % divisor == 0,
    ensures
        is_pow2(divisor),
        is_pow2(pow2(exponent) as int / divisor),
    decreases exponent,
{
    let n = pow2(exponent) as int;
    let quotient = n / divisor;
    lemma_pow2_pos(exponent);
    lemma_fundamental_div_mod(n, divisor);
    assert(quotient > 0) by (nonlinear_arith)
        requires
            n == divisor * quotient,
            n > 0,
            divisor > 0,
    ;
    if exponent == 0 {
        lemma2_to64();
        assert(divisor == 1 && quotient == 1) by (nonlinear_arith)
            requires
                1 == divisor * quotient,
                divisor > 0,
                quotient > 0,
        ;
        lemma_is_power(0);
    } else {
        let half = pow2((exponent - 1) as nat) as int;
        lemma_pow2_unfold(exponent);
        if divisor % 2 == 0 {
            let d = divisor / 2;
            assert(half == d * quotient) by (nonlinear_arith)
                requires
                    2 * half == divisor * quotient,
                    divisor == 2 * d,
            ;
            lemma_fundamental_div_mod_converse(half, d, quotient, 0);
            lemma_power_divisor((exponent - 1) as nat, d);
            let e = lemma_exponent(d);
            lemma_pow2_unfold(e + 1);
            lemma_is_power(e + 1);
        } else {
            let k = divisor / 2;
            assert(quotient % 2 == 0) by {
                assert(2 * (half - k * quotient) == quotient) by (nonlinear_arith)
                    requires
                        2 * half == divisor * quotient,
                        divisor == 2 * k + 1,
                ;
            }
            let q = quotient / 2;
            assert(half == divisor * q) by (nonlinear_arith)
                requires
                    2 * half == divisor * quotient,
                    quotient == 2 * q,
            ;
            lemma_mul_is_commutative(divisor, q);
            lemma_fundamental_div_mod_converse(half, divisor, q, 0);
            lemma_power_divisor((exponent - 1) as nat, divisor);
            let e = lemma_exponent(q);
            lemma_pow2_unfold(e + 1);
            lemma_is_power(e + 1);
        }
    }
}

/// Distinct powers of two differ in their exponents.
pub proof fn lemma_power_order(a: nat, b: nat)
    ensures
        pow2(a) < pow2(b) <==> a < b,
        pow2(a) == pow2(b) <==> a == b,
{
    if a < b {
        lemma_pow2_strictly_increases(a, b);
    }
    if b < a {
        lemma_pow2_strictly_increases(b, a);
    }
}

/// The indices below a power of two need as many digits as its exponent.
pub proof fn lemma_index_bits_of_power(exponent: nat)
    ensures
        index_bits(pow2(exponent)) == exponent,
    decreases exponent,
{
    lemma2_to64();
    if exponent > 0 {
        lemma_pow2_unfold(exponent);
        lemma_pow2_pos((exponent - 1) as nat);
        lemma_index_bits_of_power((exponent - 1) as nat);
        assert((pow2(exponent) + 1) / 2 == pow2((exponent - 1) as nat));
    }
}

/// A reversed index fits in its digits.
pub proof fn lemma_reversed_bound(index: nat, bits: nat)
    ensures
        reversed(index, bits) < pow2(bits),
    decreases bits,
{
    lemma2_to64();
    if bits > 0 {
        lemma_reversed_bound(index / 2, (bits - 1) as nat);
        lemma_pow2_unfold(bits);
        let half = pow2((bits - 1) as nat);
        assert((index % 2) * half <= half) by (nonlinear_arith)
            requires
                index % 2 <= 1,
        ;
    }
}

/// Leading zero digits of an index reverse into nothing.
pub proof fn lemma_reversed_zero(bits: nat)
    ensures
        reversed(0, bits) == 0,
    decreases bits,
{
    if bits > 0 {
        lemma_reversed_zero((bits - 1) as nat);
        let half = pow2((bits - 1) as nat);
        assert(0 * half == 0) by (nonlinear_arith);
        assert(0nat % 2 == 0 && 0nat / 2 == 0);
    }
}

/// The digits of an index that is written as a high and a low part reverse part by part.
pub proof fn lemma_reversed_parts(high: nat, high_bits: nat, low: nat, low_bits: nat)
    requires
        low < pow2(low_bits),
    ensures
        reversed(high * pow2(low_bits) + low, high_bits + low_bits) == reversed(low, low_bits)
            * pow2(high_bits) + reversed(high, high_bits),
    decreases low_bits,
{
    lemma2_to64();
    if low_bits == 0 {
        assert(high * pow2(0) == high) by (nonlinear_arith)
            requires
                pow2(0) == 1,
        ;
        assert(reversed(low, 0) * pow2(high_bits) == 0) by (nonlinear_arith)
            requires
                reversed(low, 0) == 0,
        ;
    } else {
        let fewer = (low_bits - 1) as nat;
        let index = high * pow2(low_bits) + low;
        lemma_pow2_unfold(low_bits);
        assert(high * pow2(low_bits) == 2 * (high * pow2(fewer))) by (nonlinear_arith)
            requires
                pow2(low_bits) == 2 * pow2(fewer),
        ;
        assert(index % 2 == low % 2);
        assert(index / 2 == high * pow2(fewer) + low / 2);
        lemma_reversed_parts(high, high_bits, low / 2, fewer);
        lemma_pow2_adds(fewer, high_bits);
        let digit = low % 2;
        let rest = reversed(low / 2, fewer);
        assert((digit * pow2(fewer) + rest) * pow2(high_bits) == digit * pow2(fewer + high_bits)
            + rest * pow2(high_bits)) by (nonlinear_arith)
            requires
                pow2(fewer + high_bits) == pow2(fewer) * pow2(high_bits),
        ;
        assert((high_bits + low_bits - 1) as nat == fewer + high_bits);
    }
}

/// Reversing the digits of an index twice gives the index back.
pub proof fn lemma_reversed_twice(index: nat, bits: nat)
    requires
        index < pow2(bits),
    ensures
        reversed(reversed(index, bits), bits) == index,
    decreases bits,
{
    lemma2_to64();
    if bits > 0 {
        let fewer = (bits - 1) as nat;
        let rest = reversed(index / 2, fewer);
        lemma_pow2_unfold(bits);
        lemma_reversed_twice(index / 2, fewer);
        lemma_reversed_bound(index / 2, fewer);
        lemma_reversed_parts(index % 2, 1, rest, fewer);
        assert(reversed(index % 2, 1) == index % 2) by {
            reveal_with_fuel(reversed, 2);
            assert((index % 2) * 1 == index % 2);
        }
        assert((1 + fewer) as nat == bits);
    }
}

} // verus!
