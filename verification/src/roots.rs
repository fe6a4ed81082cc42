//! Roots of unity and the points at which codewords are evaluated.
use vstd::arithmetic::div_mod::*;
use vstd::arithmetic::mul::*;
use vstd::arithmetic::power::*;
use vstd::arithmetic::power2::*;
use vstd::prelude::*;

use crate::bits;
use crate::field;
use crate::field::Fr;
use crate::generator;
use crate::poly;

verus! {

/// The point at which row `index` of a codeword of `length` rows is evaluated: the power
/// of the root of order `length` whose exponent is the index with its digits reversed.
pub open spec fn point(length: nat, index: nat) -> int {
    pow(field::root(length as int), bits::reversed(index, bits::index_bits(length)))
        % field::modulus()
}

/// The factor that the transform of a codeword of `length` rows applies in group `group`.
pub open spec fn twiddle(length: nat, group: nat) -> int {
    pow(field::root(length as int), bits::reversed(group, (bits::index_bits(length) - 1) as nat))
        % field::modulus()
}

/// The root of unity whose powers are the evaluation points of a codeword.
pub fn generator_impl(codeword_length: usize) -> (generator: Fr)
    requires
        field::has_root(codeword_length as int),
    ensures
        generator.valid(),
        generator@ == field::root(codeword_length as int),
{
    field::fr_root_of_unity(codeword_length as u64).unwrap()
}

/// The points at which the rows `indices` of a codeword are evaluated.
pub fn evaluation_points_impl(codeword_length: usize, indices: &[usize]) -> (points: Vec<Fr>)
    requires
        indices@.len() > 0 ==> field::has_root(codeword_length as int),
    ensures
        points@.len() == indices@.len(),
        forall|i: int|
            0 <= i < indices@.len() ==> (#[trigger] points@[i]).valid() && points@[i]@ == point(
                codeword_length as nat,
                indices@[i] as nat,
            ),
{
    let mut points: Vec<Fr> = Vec::new();
    if indices.len() == 0 {
        return points;
    }
    let bits: u32 = bits::count_index_bits(codeword_length);
    let generator = generator_impl(codeword_length);
    proof {
        lemma_order_bound(codeword_length as nat);
    }
    let mut i: usize = 0;
    while i < indices.len()
        invariant
            i <= indices@.len(),
            bits == bits::index_bits(codeword_length as nat),
            pow2(bits as nat) <= usize::MAX + 1,
            generator.valid(),
            generator@ == field::root(codeword_length as int),
            points@.len() == i,
            forall|j: int|
                0 <= j < i ==> (#[trigger] points@[j]).valid() && points@[j]@ == point(
                    codeword_length as nat,
                    indices@[j] as nat,
                ),
        decreases indices@.len() - i,
    {
        let exponent: usize = bits::reverse_index(indices[i], bits);
        points.push(field::fr_pow(&generator, exponent as u64));
        i = i + 1;
    }
    points
}

/// The twiddle factors of the transform of a codeword, group by group.
pub fn reverse_ordered_roots(codeword_size: usize) -> (roots: Vec<Fr>)
    requires
        codeword_size > 1 ==> field::has_root(codeword_size as int),
    ensures
        roots@.len() == codeword_size / 2,
        forall|k: int|
            0 <= k < codeword_size / 2 ==> (#[trigger] roots@[k]).valid() && roots@[k]@ == twiddle(
                codeword_size as nat,
                k as nat,
            ),
{
    let mut roots: Vec<Fr> = Vec::new();
    if codeword_size <= 1 {
        return roots;
    }
    let bits: u32 = bits::count_index_bits(codeword_size);
    let generator = generator_impl(codeword_size);
    proof {
        lemma_order_bound(codeword_size as nat);
        lemma_pow2_unfold(bits as nat);
        lemma_pow2_pos((bits - 1) as nat);
    }
    let mut k: usize = 0;
    while k < codeword_size / 2
        invariant
            k <= codeword_size / 2,
            bits > 0,
            bits == bits::index_bits(codeword_size as nat),
            pow2((bits - 1) as nat) <= usize::MAX + 1,
            generator.valid(),
            generator@ == field::root(codeword_size as int),
            roots@.len() == k,
            forall|j: int|
                0 <= j < k ==> (#[trigger] roots@[j]).valid() && roots@[j]@ == twiddle(
                    codeword_size as nat,
                    j as nat,
                ),
        decreases codeword_size - k,
    {
        let exponent: usize = bits::reverse_index(k, bits - 1);
        roots.push(field::fr_pow(&generator, exponent as u64));
        k = k + 1;
    }
    roots
}

/// The orders of roots of unity are small enough for their indices to be reversed.
proof fn lemma_order_bound(length: nat)
    requires
        field::has_root(length as int),
    ensures
        length <= 0x9000_0000,
        pow2(bits::index_bits(length)) <= 0x1_0000_0000,
{
    lemma_fundamental_div_mod(0x9000_0000int, length as int);
    let times = 0x9000_0000int / length as int;
    assert(length <= 0x9000_0000) by {
        if times <= 0 {
            assert(length * times <= 0) by (nonlinear_arith)
                requires
                    times <= 0,
                    length > 0,
            ;
        }
        assert(length * times >= length) by (nonlinear_arith)
            requires
                times >= 1,
                length > 0,
        ;
    }
    bits::lemma_index_bits_bound(length);
    lemma2_to64();
    lemma2_to64_rest();
    let count = bits::index_bits(length);
    if count > 32 {
        bits::lemma_power_divides(33, count);
    } else {
        bits::lemma_power_divides(count, 32);
    }
}

/// Codeword lengths that are powers of two have a root of unity, up to the largest power
/// of two that divides the group order.
pub proof fn lemma_power_has_root(exponent: nat)
    requires
        exponent <= 28,
    ensures
        field::has_root(pow2(exponent) as int),
        pow2(exponent) <= 0x1000_0000,
{
    lemma2_to64();
    lemma_pow2_pos(exponent);
    bits::lemma_power_divides(exponent, 28);
    let n = pow2(exponent) as int;
    let rest = pow2((28 - exponent) as nat) as int;
    assert(0x9000_0000int == (9 * rest) * n) by (nonlinear_arith)
        requires
            n * rest == 0x1000_0000,
    ;
    lemma_mod_multiples_basic(9 * rest, n);
}

/// A root of even order, raised to half of its order, is minus one.
pub proof fn lemma_root_half(exponent: nat)
    requires
        1 <= exponent <= 28,
    ensures
        pow(field::root(pow2(exponent) as int), pow2((exponent - 1) as nat)) % field::modulus()
            == field::modulus() - 1,
{
    let m = field::modulus();
    let odd = 81540058820840996586704275553141814055101440848469862132140264610111int;
    let n = pow2(exponent) as int;
    let half = pow2((exponent - 1) as nat);
    let rest = pow2((28 - exponent) as nat) as int;
    lemma2_to64();
    lemma_pow2_pos(exponent);
    bits::lemma_power_divides(exponent, 28);
    lemma_pow2_unfold(exponent);
    let step = (rest * odd) as nat;
    assert(m - 1 == 0x1000_0000 * odd);
    assert(m - 1 == n * (rest * odd)) by (nonlinear_arith)
        requires
            m - 1 == 0x1000_0000 * odd,
            n * rest == 0x1000_0000,
    ;
    lemma_div_multiples_vanish(rest * odd, n);
    assert(rest * odd >= 0) by (nonlinear_arith)
        requires
            rest >= 0,
            odd >= 0,
    ;
    assert((m - 1) / n == step);
    let g = field::GENERATOR as int;
    poly::lemma_congruent_power(field::root(n), pow(g, step), half, m);
    lemma_pow_multiplies(g, step, half);
    assert(step * half == (m - 1) / 2) by {
        assert(2 * (step * half) == n * (rest * odd)) by (nonlinear_arith)
            requires
                n == 2 * half,
                step == rest * odd,
        ;
    }
    generator::lemma_generator_half_order();
}

/// Even powers of minus one are one, and odd powers are minus one.
proof fn lemma_minus_one_power(double: nat, digit: nat)
    requires
        digit <= 1,
    ensures
        pow(-1, 2 * double + digit) == (if digit == 0 { 1int } else { -1int }),
{
    lemma_pow_multiplies(-1, 2, double);
    lemma_square_is_pow2(-1);
    lemma1_pow(double);
    lemma_pow_adds(-1, 2 * double, digit);
    lemma_pow0(-1);
    lemma_pow1(-1);
}

/// Halving a group of rows: the evaluation points of its first half, raised to the number
/// of rows in a half, are the group's twiddle factor, and those of its second half are the
/// negated factor.
pub proof fn lemma_point_splits(exponent: nat, group_bits: nat, group: nat, offset: nat)
    requires
        exponent <= 28,
        group_bits < exponent,
        group < pow2(group_bits),
        offset < pow2((exponent - group_bits) as nat),
    ensures
        ({
            let size = pow2((exponent - group_bits) as nat);
            let half = pow2((exponent - group_bits - 1) as nat);
            let length = pow2(exponent);
            let power = pow(point(length, group * size + offset), half) % field::modulus();
            let factor = twiddle(length, group);
            if offset < half {
                power == factor % field::modulus()
            } else {
                power == (-factor) % field::modulus()
            }
        }),
{
    let m = field::modulus();
    let length = pow2(exponent);
    let row_bits = (exponent - group_bits) as nat;
    let size = pow2(row_bits);
    let half_bits = (row_bits - 1) as nat;
    let half = pow2(half_bits);
    let row = group * size + offset;
    let omega = field::root(length as int);
    let turn = pow2((exponent - 1) as nat);
    bits::lemma_index_bits_of_power(exponent);
    lemma2_to64();
    lemma_pow2_unfold(row_bits);
    // The offset, as its leading digit and the rest.
    let digit: nat = if offset < half { 0 } else { 1 };
    let low: nat = if offset < half { offset } else { (offset - half) as nat };
    assert(digit * half + low == offset) by (nonlinear_arith)
        requires
            digit == 0 && low == offset || digit == 1 && low == offset - half,
    ;
    bits::lemma_reversed_parts(digit, 1, low, half_bits);
    assert(bits::reversed(digit, 1) == digit) by {
        reveal_with_fuel(bits::reversed, 2);
        assert(digit * pow2(0) == digit) by (nonlinear_arith)
            requires
                pow2(0) == 1,
        ;
    }
    let low_reversed = bits::reversed(low, half_bits);
    assert(bits::reversed(offset, row_bits) == 2 * low_reversed + digit) by {
        assert((1 + half_bits) as nat == row_bits);
    }
    // The row, as its group and its offset.
    bits::lemma_reversed_parts(group, group_bits, offset, row_bits);
    assert((group_bits + row_bits) as nat == exponent);
    let group_reversed = bits::reversed(group, group_bits);
    // The group's own index in the table of factors.
    let table_bits = (exponent - 1) as nat;
    bits::lemma_reversed_parts(0, half_bits, group, group_bits);
    bits::lemma_reversed_zero(half_bits);
    assert((half_bits + group_bits) as nat == table_bits);
    assert(0 * pow2(group_bits) == 0) by (nonlinear_arith);
    let table = bits::reversed(group, table_bits);
    assert(table == group_reversed * half);
    // The exponent of the point, times the number of rows in a half.
    lemma_pow2_adds(group_bits, half_bits);
    let turns = 2 * low_reversed + digit;
    let reversed_row = bits::reversed(row, exponent);
    assert(reversed_row == turns * pow2(group_bits) + group_reversed);
    assert(reversed_row * half == turns * turn + table) by (nonlinear_arith)
        requires
            reversed_row == turns * pow2(group_bits) + group_reversed,
            turn == pow2(group_bits) * half,
            table == group_reversed * half,
    ;
    lemma_pow_multiplies(omega, reversed_row, half);
    poly::lemma_congruent_power(point(length, row), pow(omega, reversed_row), half, m);
    assert(turns * turn >= 0) by (nonlinear_arith)
        requires
            turns >= 0,
            turn >= 0,
    ;
    lemma_pow_adds(omega, (turns * turn) as nat, table);
    lemma_root_half(exponent);
    lemma_mul_is_commutative(turns as int, turn as int);
    lemma_pow_multiplies(omega, turn, turns);
    assert((-1int) % m == m - 1) by {
        lemma_mod_add_multiples_vanish(-1, m);
        lemma_small_mod((m - 1) as nat, m as nat);
    }
    poly::lemma_congruent_power(pow(omega, turn), -1, turns, m);
    lemma_minus_one_power(low_reversed, digit);
    poly::lemma_congruent_product(
        pow(omega, (turns * turn) as nat),
        pow(-1, turns),
        pow(omega, table),
        twiddle(length, group),
        m,
    );
}

/// An element whose power with exponent `2^(exponent - 1)` is minus one has no smaller
/// power than the one with exponent `2^exponent` that is one.
proof fn lemma_no_early_one(element: int, exponent: nat, power: nat)
    requires
        exponent >= 1,
        pow(element, pow2((exponent - 1) as nat)) % field::modulus() == field::modulus() - 1,
        0 < power < pow2(exponent),
    ensures
        pow(element, power) % field::modulus() != 1,
    decreases exponent,
{
    let m = field::modulus();
    let half = pow2((exponent - 1) as nat);
    lemma2_to64();
    lemma_pow2_unfold(exponent);
    if power % 2 == 1 {
        if pow(element, power) % m == 1 {
            lemma_small_mod(1, m as nat);
            poly::lemma_congruent_power(pow(element, power), 1, half, m);
            lemma1_pow(half);
            lemma_pow_multiplies(element, power, half);
            lemma_pow_multiplies(element, half, power);
            lemma_mul_is_commutative(power as int, half as int);
            lemma_small_mod((m - 1) as nat, m as nat);
            lemma_mod_add_multiples_vanish(-1, m);
            poly::lemma_congruent_power(pow(element, half), -1, power, m);
            lemma_minus_one_power(power / 2, 1);
        }
    } else {
        let square = pow(element, 2);
        lemma_pow2_unfold((exponent - 1) as nat);
        let fewer = (exponent - 1) as nat;
        lemma_pow_multiplies(element, 2, pow2((fewer - 1) as nat));
        lemma_pow_multiplies(element, 2, power / 2);
        lemma_no_early_one(square, fewer, power / 2);
    }
}

/// The rows of a codeword whose length is a power of two are evaluated at distinct points.
pub proof fn lemma_points_distinct(exponent: nat, first: nat, second: nat)
    requires
        exponent <= 28,
        first < pow2(exponent),
        second < pow2(exponent),
        first != second,
    ensures
        point(pow2(exponent), first) != point(pow2(exponent), second),
{
    let a = bits::reversed(first, exponent);
    let b = bits::reversed(second, exponent);
    bits::lemma_index_bits_of_power(exponent);
    bits::lemma_reversed_twice(first, exponent);
    bits::lemma_reversed_twice(second, exponent);
    bits::lemma_reversed_bound(first, exponent);
    bits::lemma_reversed_bound(second, exponent);
    if a < b {
        lemma_powers_differ(exponent, a, b);
    } else {
        lemma_powers_differ(exponent, b, a);
    }
}

/// The powers of a root with exponents below its order are distinct.
proof fn lemma_powers_differ(exponent: nat, small: nat, large: nat)
    requires
        exponent <= 28,
        small < large < pow2(exponent),
    ensures
        pow(field::root(pow2(exponent) as int), small) % field::modulus() != pow(
            field::root(pow2(exponent) as int),
            large,
        ) % field::modulus(),
{
    let m = field::modulus();
    let n = pow2(exponent);
    let w = field::root(n as int);
    lemma2_to64();
    assert(exponent >= 1);
    let half = pow2((exponent - 1) as nat);
    lemma_pow2_unfold(exponent);
    lemma_root_half(exponent);
    // The root to the power of its order is one.
    lemma_pow_multiplies(w, half, 2);
    lemma_small_mod((m - 1) as nat, m as nat);
    lemma_mod_add_multiples_vanish(-1, m);
    poly::lemma_congruent_power(pow(w, half), -1, 2, m);
    lemma_minus_one_power(1, 0);
    lemma_small_mod(1, m as nat);
    assert(pow(w, n) % m == 1);
    if pow(w, small) % m == pow(w, large) % m {
        let gap = (large - small) as nat;
        let rest = (n - small) as nat;
        lemma_pow_adds(w, small, rest);
        lemma_pow_adds(w, large, rest);
        lemma_pow_adds(w, n, gap);
        poly::lemma_congruent_product(pow(w, small), pow(w, large), pow(w, rest), pow(w, rest), m);
        assert((large + rest) as nat == (n + gap) as nat);
        poly::lemma_congruent_product(pow(w, n), 1, pow(w, gap), pow(w, gap), m);
        assert(pow(w, gap) % m == 1);
        lemma_no_early_one(w, exponent, gap);
    }
}

/// Every power of the root is an evaluation point: the one of the row whose index has the
/// digits of the exponent in reverse.
pub proof fn lemma_points_cover(exponent: nat, power: nat)
    requires
        power < pow2(exponent),
    ensures
        bits::reversed(power, exponent) < pow2(exponent),
        point(pow2(exponent), bits::reversed(power, exponent)) == pow(
            field::root(pow2(exponent) as int),
            power,
        ) % field::modulus(),
{
    bits::lemma_index_bits_of_power(exponent);
    bits::lemma_reversed_bound(power, exponent);
    bits::lemma_reversed_twice(power, exponent);
}

} // verus!
