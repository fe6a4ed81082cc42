//! Laws of powers of two, limbs, field elements and evaluation points.
use vstd::arithmetic::div_mod::*;
use vstd::arithmetic::mul::*;
use vstd::arithmetic::power::*;
use vstd::arithmetic::power2::*;
use vstd::prelude::*;

use crate::bits;
use crate::bits::{count_index_bits, is_power_of_two, reverse_index};
use crate::cuda_encode::RSFrCuda;
use crate::field;
use crate::field::{fr_to_bytes_le, Fr};
use crate::limbs;
use crate::limbs::{flatten_roots_into, fr_slice_as_u64, fr_slice_from_u64, montgomery_inv};
use crate::poly;
use crate::reed_solomon::RSFr;
use crate::roots;
use crate::roots::{evaluation_points_impl, generator_impl, reverse_ordered_roots};

verus! {

/// A length is a power of two exactly if some number of doublings of one makes it.
pub proof fn lemma_powers_recognized(length: usize, exponent: nat, yes: bool)
    requires
        call_ensures(is_power_of_two, (length,), yes),
    ensures
        length == pow2(exponent) ==> yes,
        yes ==> exists|e: nat| length == #[trigger] pow2(e),
{
    bits::lemma_is_power(exponent);
    if yes {
        let e = bits::lemma_exponent(length as int);
        assert(length == pow2(e));
    }
}

/// The digits that the indices below a length need are enough for it, and one less are not.
pub proof fn lemma_digits_counted(length: usize, count: u32)
    requires
        call_ensures(count_index_bits, (length,), count),
    ensures
        length <= pow2(count as nat),
        count > 0 ==> pow2((count - 1) as nat) < length,
{
    bits::lemma_index_bits_bound(length as nat);
    if count > 0 {
        lemma_pow2_unfold(count as nat);
    }
}

/// Reversing the digits of an index twice gives it back, its lowest digit becomes the
/// highest, and the others move down by one place.
pub proof fn lemma_digits_reversed(
    index: usize,
    bits: u32,
    result: usize,
    back: usize,
    rest: usize,
)
    requires
        0 < bits,
        call_ensures(reverse_index, (index, bits), result),
        call_ensures(reverse_index, (result, bits), back),
        call_ensures(reverse_index, ((index / 2) as usize, (bits - 1) as u32), rest),
    ensures
        result < pow2(bits as nat),
        index < pow2(bits as nat) ==> back == index,
        result == (index % 2) * pow2((bits - 1) as nat) + rest,
{
    bits::lemma_reversed_bound(index as nat, bits as nat);
    if index < pow2(bits as nat) {
        bits::lemma_reversed_twice(index as nat, bits as nat);
    }
}

/// The limbs of elements stand one element after the other, lowest limb first.
pub proof fn lemma_limbs_positions(
    values: &[Fr],
    flat: &mut Vec<u64>,
    limbs: Vec<u64>,
    i: int,
    j: int,
)
    requires
        call_ensures(flatten_roots_into, (values, flat), ()),
        call_ensures(fr_slice_as_u64, (values,), limbs),
        0 <= i < values@.len(),
        0 <= j < 4,
    ensures
        limbs@.len() == 4 * values@.len(),
        limbs@[4 * i + j] == values@[i].limbs@[j],
        final(flat)@ == limbs@,
{
}

/// Elements that are written out as limbs and read back are the same.
pub proof fn lemma_limbs_round_trip(values: &[Fr], limbs: Vec<u64>, read: &[u64], back: &mut [Fr])
    requires
        call_ensures(fr_slice_as_u64, (values,), limbs),
        read@ == limbs@,
        call_ensures(fr_slice_from_u64, (back, read), ()),
    ensures
        final(back)@ == values@,
{
    limbs::lemma_flatten_round_trip(values@);
}

/// The number for a Montgomery reduction, times the modulus' lowest limb, is minus one modulo
/// two to the 64.
pub proof fn lemma_montgomery(limb: u64, result: u64)
    requires
        call_ensures(montgomery_inv, (limb,), result),
        limb % 2 == 1,
    ensures
        (limb * result + 1) % 0x1_0000_0000_0000_0000int == 0,
{
}

/// One round towards the number for a Montgomery reduction: what was reached, modulo two to
/// the 64, is multiplied by one more than the rest that was left, and the rest is squared.
proof fn lemma_newton_round(limb: int, rest: int, product: int, reached: int, next: int) -> (
    quotient: int)
    requires
        limb * product == 1 - rest,
        exists|k: int| reached == product + #[trigger] (limbs::word() * k),
        next == (reached * ((2 - (limb * reached) % limbs::word()) % limbs::word()))
            % limbs::word(),
    ensures
        limb * (product * (1 + rest)) == 1 - rest * rest,
        next == product * (1 + rest) + limbs::word() * quotient,
{
    let w = limbs::word();
    let k = choose|k: int| reached == product + #[trigger] (w * k);
    let x = limb * reached;
    let y = 2 - x % w;
    let z = reached * (y % w);
    lemma_fundamental_div_mod(x, w);
    lemma_fundamental_div_mod(y, w);
    lemma_fundamental_div_mod(z, w);
    let (q1, q2, q3) = (x / w, y / w, z / w);
    let t = reached * q1 - reached * q2 - q3;
    assert(next == reached * (2 - x) + w * t) by (nonlinear_arith)
        requires
            next == z - w * q3,
            z == reached * (y - w * q2),
            y == 2 - (x - w * q1),
            t == reached * q1 - reached * q2 - q3,
    ;
    let m = w * k;
    let a = limb * product;
    let b = limb * m;
    let y2 = 2 - 2 * a - b;
    let d = k * y2;
    assert(x == a + b && product * b == m * a) by (nonlinear_arith)
        requires
            x == limb * reached,
            reached == product + m,
            a == limb * product,
            b == limb * m,
    ;
    assert(reached * (2 - x) == product * (2 - a) + m * y2) by (nonlinear_arith)
        requires
            x == a + b,
            reached == product + m,
            product * b == m * a,
            y2 == 2 - 2 * a - b,
    ;
    assert(m * y2 == w * d) by (nonlinear_arith)
        requires
            m == w * k,
            d == k * y2,
    ;
    assert(2 - a == 1 + rest);
    assert(limb * (product * (1 + rest)) == 1 - rest * rest) by (nonlinear_arith)
        requires
            limb * product == 1 - rest,
    ;
    assert(w * d + w * t == w * (d + t)) by (nonlinear_arith);
    d + t
}

/// The number for a Montgomery reduction has one form for every limb, odd or even: added to
/// the product of what the limb lacks to one and five repeated squares of that, each increased
/// by one, it gives zero modulo two to the 64.
pub proof fn lemma_montgomery_product(
    limb: u64,
    result: u64,
    e1: int,
    e2: int,
    e4: int,
    e8: int,
    e16: int,
    e32: int,
)
    requires
        call_ensures(montgomery_inv, (limb,), result),
        e1 == 1 - limb,
        e2 == e1 * e1,
        e4 == e2 * e2,
        e8 == e4 * e4,
        e16 == e8 * e8,
        e32 == e16 * e16,
    ensures
        (result + (1 + e1) * (1 + e2) * (1 + e4) * (1 + e8) * (1 + e16) * (1 + e32))
            % 0x1_0000_0000_0000_0000int == 0,
{
    reveal_with_fuel(limbs::newton, 7);
    let w = limbs::word();
    let l = limb as int;
    let (n1, n2, n3) = (limbs::newton(l, 1), limbs::newton(l, 2), limbs::newton(l, 3));
    let (n4, n5, n6) = (limbs::newton(l, 4), limbs::newton(l, 5), limbs::newton(l, 6));
    let p1 = 1 * (1 + e1);
    let p2 = p1 * (1 + e2);
    let p4 = p2 * (1 + e4);
    let p8 = p4 * (1 + e8);
    let p16 = p8 * (1 + e16);
    let p32 = p16 * (1 + e32);
    assert(limbs::newton(l, 0) == 1 + w * 0);
    let k1 = lemma_newton_round(l, e1, 1, limbs::newton(l, 0), n1);
    let k2 = lemma_newton_round(l, e2, p1, n1, n2);
    let k3 = lemma_newton_round(l, e4, p2, n2, n3);
    let k4 = lemma_newton_round(l, e8, p4, n3, n4);
    let k5 = lemma_newton_round(l, e16, p8, n4, n5);
    let k6 = lemma_newton_round(l, e32, p16, n5, n6);
    assert(n6 == p32 + w * k6);
    lemma_fundamental_div_mod(-n6, w);
    let q = (-n6) / w;
    assert(result + p32 == w * (-k6 - q)) by (nonlinear_arith)
        requires
            -n6 == w * q + result,
            n6 == p32 + w * k6,
    ;
    lemma_mod_multiples_basic(-k6 - q, w);
    lemma_mul_is_commutative(-k6 - q, w);
}

/// An element is reduced exactly if its limbs stand for a number below the order of the
/// field.
pub proof fn lemma_reduced(element: Fr, yes: bool)
    requires
        call_ensures(Fr::is_reduced, (&element,), yes),
    ensures
        yes <==> element.limbs@[0] + element.limbs@[1] * 0x1_0000_0000_0000_0000int
            + element.limbs@[2] * 0x1_0000_0000_0000_0000_0000_0000_0000_0000int
            + element.limbs@[3]
            * 0x1_0000_0000_0000_0000_0000_0000_0000_0000_0000_0000_0000_0000int
            < 21888242871839275222246405745257275088548364400416034343698204186575808495617int,
{
}

/// The element zero has the value zero and no limb that is not, and adds nothing.
pub proof fn lemma_zero(zero: Fr)
    requires
        call_ensures(Fr::zero, (), zero),
    ensures
        zero@ == 0,
        zero.valid(),
        forall|j: int| 0 <= j < 4 ==> (#[trigger] zero.limbs@[j]) == 0,
{
}

/// An element is written as 32 bytes, and two elements with the same bytes are the same.
pub proof fn lemma_bytes_written(first: Fr, second: Fr, bytes: Vec<u8>, others: Vec<u8>)
    requires
        first.valid(),
        second.valid(),
        call_ensures(fr_to_bytes_le, (&first,), bytes),
        call_ensures(fr_to_bytes_le, (&second,), others),
        bytes@ == others@,
    ensures
        bytes@.len() == 32,
        first == second,
{
    field::lemma_valid_unique(first, second);
}

/// The root of unity of a codeword whose length is a power of two has that order: raised to
/// half of it, it is minus one, and raised to all of it one.
pub proof fn lemma_generator_order(codeword_length: usize, exponent: nat, generator: Fr)
    requires
        call_ensures(generator_impl, (codeword_length,), generator),
        codeword_length == pow2(exponent),
        1 <= exponent <= 28,
    ensures
        generator.valid(),
        pow(generator@, pow2((exponent - 1) as nat)) % field::modulus() == field::modulus() - 1,
        pow(generator@, codeword_length as nat) % field::modulus() == 1,
{
    roots::lemma_root_half(exponent);
    lemma_root_power(exponent);
}

/// A root of unity to the power of its order is one.
proof fn lemma_root_power(exponent: nat)
    requires
        exponent <= 28,
    ensures
        pow(field::root(pow2(exponent) as int), pow2(exponent)) % field::modulus() == 1,
{
    let m = field::modulus();
    let w = field::root(pow2(exponent) as int);
    lemma2_to64();
    if exponent >= 1 {
        let half = pow2((exponent - 1) as nat);
        roots::lemma_root_half(exponent);
        lemma_pow2_unfold(exponent);
        lemma_pow_multiplies(w, half, 2);
        lemma_small_mod((m - 1) as nat, m as nat);
        lemma_mod_add_multiples_vanish(-1, m);
        poly::lemma_congruent_power(pow(w, half), -1, 2, m);
        lemma_square_is_pow2(-1);
        lemma_small_mod(1, m as nat);
        lemma_mul_is_commutative(half as int, 2);
    } else {
        lemma_pow1(w);
        // The root of order one is the generator to the order of the group, which is the
        // square of its power to half of that.
        let g = field::GENERATOR as int;
        crate::generator::lemma_generator_half_order();
        let h = ((m - 1) / 2) as nat;
        assert(2 * h == m - 1);
        lemma_pow_multiplies(g, h, 2);
        lemma_mul_is_commutative(h as int, 2);
        lemma_small_mod((m - 1) as nat, m as nat);
        lemma_mod_add_multiples_vanish(-1, m);
        poly::lemma_congruent_power(pow(g, h), -1, 2, m);
        lemma_square_is_pow2(-1);
        lemma_small_mod(1, m as nat);
        lemma_div_by_one(m - 1);
        lemma_mod_twice(pow(g, (m - 1) as nat), m);
    }
}

/// Dividing by one changes nothing.
proof fn lemma_div_by_one(x: int)
    ensures
        x / 1 == x,
{
    lemma_div_basics(x);
}

/// The evaluation points of a codeword whose length is a power of two are distinct, and each
/// is a root of unity: raised to the length it is one. The first row is evaluated at one.
pub proof fn lemma_points_are_roots(
    codeword_length: usize,
    exponent: nat,
    indices: &[usize],
    points: Vec<Fr>,
    i: int,
    j: int,
)
    requires
        call_ensures(evaluation_points_impl, (codeword_length, indices), points),
        codeword_length == pow2(exponent),
        exponent <= 28,
        0 <= i < indices@.len(),
        0 <= j < indices@.len(),
        indices@[i] < codeword_length,
        indices@[j] < codeword_length,
    ensures
        points@.len() == indices@.len(),
        points@[i].valid(),
        points@[i] == points@[j] <==> indices@[i] == indices@[j],
        pow(points@[i]@, codeword_length as nat) % field::modulus() == 1,
        indices@[i] == 0 ==> points@[i]@ == 1,
{
    let m = field::modulus();
    let n = codeword_length as nat;
    let w = field::root(n as int);
    if indices@[i] != indices@[j] {
        roots::lemma_points_distinct(exponent, indices@[i] as nat, indices@[j] as nat);
    } else {
        field::lemma_valid_unique(points@[i], points@[j]);
    }
    let r = bits::reversed(indices@[i] as nat, bits::index_bits(n));
    poly::lemma_congruent_power(points@[i]@, pow(w, r), n, m);
    lemma_mod_twice(pow(w, r), m);
    lemma_pow_multiplies(w, r, n);
    lemma_pow_multiplies(w, n, r);
    lemma_mul_is_commutative(r as int, n as int);
    lemma_root_power(exponent);
    lemma_small_mod(1, m as nat);
    poly::lemma_congruent_power(pow(w, n), 1, r, m);
    lemma1_pow(r);
    if indices@[i] == 0 {
        bits::lemma_reversed_zero(bits::index_bits(n));
        lemma_pow0(w);
    }
}

/// The two rows of each pair are evaluated at points that are each other's negation.
pub proof fn lemma_neighbours_negated(
    codeword_length: usize,
    exponent: nat,
    indices: &[usize],
    points: Vec<Fr>,
    i: int,
    j: int,
)
    requires
        call_ensures(evaluation_points_impl, (codeword_length, indices), points),
        codeword_length == pow2(exponent),
        1 <= exponent <= 28,
        0 <= i < indices@.len(),
        0 <= j < indices@.len(),
        indices@[i] < codeword_length,
        indices@[i] % 2 == 0,
        indices@[j] == indices@[i] + 1,
    ensures
        (points@[i]@ + points@[j]@) % field::modulus() == 0,
{
    let m = field::modulus();
    let n = codeword_length as nat;
    let w = field::root(n as int);
    let even = indices@[i] as nat;
    let half = pow2((exponent - 1) as nat);
    bits::lemma_index_bits_of_power(exponent);
    let r = bits::reversed(even / 2, (exponent - 1) as nat);
    assert((even + 1) / 2 == even / 2 && (even + 1) % 2 == 1);
    assert(bits::reversed(even, exponent) == r) by {
        assert(0 * half == 0);
    }
    assert(bits::reversed(even + 1, exponent) == half + r) by {
        assert(1 * half == half);
    }
    lemma_pow_adds(w, half, r);
    roots::lemma_root_half(exponent);
    lemma_small_mod((m - 1) as nat, m as nat);
    lemma_mod_add_multiples_vanish(-1, m);
    poly::lemma_congruent_product(pow(w, half), -1, pow(w, r), pow(w, r), m);
    let x = pow(w, r);
    lemma_mod_twice(x, m);
    lemma_mod_twice(-x, m);
    assert(-1 * x == -x);
    poly::lemma_congruent_sum(x % m, x, (-x) % m, -x, m);
}

/// The square of the root for a length is the root for half of it.
proof fn lemma_root_halves(exponent: nat)
    requires
        1 <= exponent <= 28,
    ensures
        pow(field::root(pow2(exponent) as int), 2) % field::modulus() == field::root(
            pow2((exponent - 1) as nat) as int,
        ),
{
    let m = field::modulus();
    let odd = 81540058820840996586704275553141814055101440848469862132140264610111int;
    let n = pow2(exponent) as int;
    let half = pow2((exponent - 1) as nat) as int;
    let rest = pow2((28 - exponent) as nat) as int;
    lemma2_to64();
    lemma_pow2_pos(exponent);
    lemma_pow2_pos((exponent - 1) as nat);
    bits::lemma_power_divides(exponent, 28);
    lemma_pow2_unfold(exponent);
    assert(m - 1 == 0x1000_0000 * odd);
    let step = rest * odd;
    assert(step >= 0) by (nonlinear_arith)
        requires
            step == rest * odd,
            rest >= 0,
            odd >= 0,
    ;
    assert(m - 1 == n * step) by (nonlinear_arith)
        requires
            m - 1 == 0x1000_0000 * odd,
            n * rest == 0x1000_0000,
            step == rest * odd,
    ;
    assert(m - 1 == half * (2 * step)) by (nonlinear_arith)
        requires
            m - 1 == n * step,
            n == 2 * half,
    ;
    lemma_div_multiples_vanish(step, n);
    lemma_div_multiples_vanish(2 * step, half);
    lemma_mul_is_commutative(n, step);
    lemma_mul_is_commutative(half, 2 * step);
    let g = field::GENERATOR as int;
    lemma_pow_multiplies(g, step as nat, 2);
    lemma_mod_twice(pow(g, step as nat), m);
    poly::lemma_congruent_power(field::root(n), pow(g, step as nat), 2, m);
}

/// The first half of the evaluation points of a codeword are those of a codeword of half the
/// length.
pub proof fn lemma_points_prefix(
    codeword_length: usize,
    half_length: usize,
    exponent: nat,
    indices: &[usize],
    points: Vec<Fr>,
    half_points: Vec<Fr>,
    i: int,
)
    requires
        call_ensures(evaluation_points_impl, (codeword_length, indices), points),
        call_ensures(evaluation_points_impl, (half_length, indices), half_points),
        codeword_length == 2 * half_length,
        codeword_length == pow2(exponent),
        1 <= exponent <= 28,
        0 <= i < indices@.len(),
        indices@[i] < half_length,
    ensures
        points@[i] == half_points@[i],
{
    let m = field::modulus();
    let fewer = (exponent - 1) as nat;
    let index = indices@[i] as nat;
    lemma_pow2_unfold(exponent);
    assert(half_length == pow2(fewer));
    bits::lemma_index_bits_of_power(exponent);
    bits::lemma_index_bits_of_power(fewer);
    lemma2_to64();
    bits::lemma_reversed_parts(0, 1, index, fewer);
    bits::lemma_reversed_zero(1);
    assert(0 * pow2(fewer) == 0);
    assert((1 + fewer) as nat == exponent);
    let r = bits::reversed(index, fewer);
    assert(bits::reversed(index, exponent) == r * 2);
    let w = field::root(codeword_length as int);
    lemma_mul_is_commutative(r as int, 2);
    lemma_pow_multiplies(w, 2, r);
    lemma_root_halves(exponent);
    lemma_mod_twice(pow(w, 2), m);
    poly::lemma_congruent_power(pow(w, 2), field::root(half_length as int), r, m);
    field::lemma_valid_unique(points@[i], half_points@[i]);
}

/// The twiddle factors of a codeword are the evaluation points of a codeword of half its
/// length, with the root of the whole one: each squared is such a point.
pub proof fn lemma_twiddles_square_to_points(
    codeword_size: usize,
    half_size: usize,
    exponent: nat,
    factors: Vec<Fr>,
    indices: &[usize],
    points: Vec<Fr>,
    i: int,
)
    requires
        call_ensures(reverse_ordered_roots, (codeword_size,), factors),
        call_ensures(evaluation_points_impl, (half_size, indices), points),
        codeword_size == 2 * half_size,
        codeword_size == pow2(exponent),
        1 <= exponent <= 28,
        0 <= i < indices@.len(),
        indices@[i] < half_size,
    ensures
        factors@.len() == half_size,
        factors@[indices@[i] as int].valid(),
        (factors@[indices@[i] as int]@ * factors@[indices@[i] as int]@) % field::modulus()
            == points@[i]@,
{
    let m = field::modulus();
    let fewer = (exponent - 1) as nat;
    let index = indices@[i] as nat;
    lemma_pow2_unfold(exponent);
    assert(half_size == pow2(fewer));
    bits::lemma_index_bits_of_power(exponent);
    bits::lemma_index_bits_of_power(fewer);
    let r = bits::reversed(index, fewer);
    let w = field::root(codeword_size as int);
    let factor = factors@[index as int]@;
    lemma_mul_mod_noop(pow(w, r), pow(w, r), m);
    lemma_pow_adds(w, r, r);
    lemma_pow_multiplies(w, 2, r);
    lemma_root_halves(exponent);
    lemma_mod_twice(pow(w, 2), m);
    poly::lemma_congruent_power(pow(w, 2), field::root(half_size as int), r, m);
}

/// Both encoders have the same root of unity, the same evaluation points and the same
/// codeword lengths: the shortest power of two that is long enough, up to the longest that
/// has a root of unity.
pub proof fn lemma_encoders_agree(
    host: RSFr,
    device: RSFrCuda,
    size: usize,
    order: Option<usize>,
    device_order: Option<usize>,
    masked_length: usize,
    codeword_length: usize,
    indices: &[usize],
    points: Vec<Fr>,
    device_points: Vec<Fr>,
    generator: Fr,
    device_generator: Fr,
)
    requires
        call_ensures(RSFr::next_order, (&host, size), order),
        call_ensures(RSFrCuda::next_order, (&device, size), device_order),
        call_ensures(
            RSFr::evaluation_points,
            (&host, masked_length, codeword_length, indices),
            points,
        ),
        call_ensures(
            RSFrCuda::evaluation_points,
            (&device, masked_length, codeword_length, indices),
            device_points,
        ),
        call_ensures(RSFr::generator, (&host, codeword_length), generator),
        call_ensures(RSFrCuda::generator, (&device, codeword_length), device_generator),
    ensures
        order == device_order,
        order is Some <==> size <= 0x1000_0000,
        order matches Some(found) ==> {
            &&& size <= found
            &&& exists|e: nat| found == #[trigger] pow2(e)
            &&& found > 1 ==> found < 2 * size
        },
        points@ == device_points@,
        generator == device_generator,
{
    lemma2_to64();
    bits::lemma_is_power(28);
    if let Some(found) = order {
        let e = bits::lemma_exponent(found as int);
        assert(found == pow2(e));
        if found > 1 {
            if e == 0 {
                assert(pow2(0) == 1);
            }
            lemma_pow2_unfold(e);
            bits::lemma_is_power((e - 1) as nat);
            assert(is_pow2(pow2((e - 1) as nat) as int));
        }
    }
    assert forall|i: int| 0 <= i < indices@.len() implies points@[i] == device_points@[i] by {
        field::lemma_valid_unique(points@[i], device_points@[i]);
    }
    assert(points@ =~= device_points@);
    field::lemma_valid_unique(generator, device_generator);
}

/// The evaluation points of an encoder are powers of its root of unity, for every length that
/// has one: the exponent is the index with as many of its digits in reverse as the indices
/// below the length need.
pub proof fn lemma_points_are_powers(
    encoder: RSFr,
    masked_length: usize,
    codeword_length: usize,
    digits: u32,
    indices: &[usize],
    reversed: usize,
    points: Vec<Fr>,
    generator: Fr,
    i: int,
)
    requires
        call_ensures(count_index_bits, (codeword_length,), digits),
        call_ensures(
            RSFr::evaluation_points,
            (&encoder, masked_length, codeword_length, indices),
            points,
        ),
        call_ensures(RSFr::generator, (&encoder, codeword_length), generator),
        0 <= i < indices@.len(),
        call_ensures(reverse_index, (indices@[i], digits), reversed),
    ensures
        points@[i]@ == pow(generator@, reversed as nat) % field::modulus(),
{
}

/// The twiddle factors of a codeword are powers of its root of unity, for every length that
/// has one: the exponent is the index with its digits in reverse, one fewer than the indices
/// below the length need.
pub proof fn lemma_twiddles_are_powers(
    codeword_size: usize,
    digits: u32,
    factors: Vec<Fr>,
    generator: Fr,
    reversed: usize,
    k: usize,
)
    requires
        call_ensures(reverse_ordered_roots, (codeword_size,), factors),
        call_ensures(generator_impl, (codeword_size,), generator),
        call_ensures(count_index_bits, (codeword_size,), digits),
        0 <= k < codeword_size / 2,
        call_ensures(reverse_index, (k, (digits - 1) as u32), reversed),
    ensures
        factors@.len() == codeword_size / 2,
        factors@[k as int].valid(),
        factors@[k as int]@ == pow(generator@, reversed as nat) % field::modulus(),
{
    bits::lemma_index_bits_bound(codeword_size as nat);
    assert(digits > 0) by {
        lemma2_to64();
    }
}

/// The root of unity for a length is five to the order of the group divided by it.
pub proof fn lemma_generator_is_power(codeword_length: usize, generator: Fr)
    requires
        call_ensures(generator_impl, (codeword_length,), generator),
        codeword_length > 0,
    ensures
        generator@ == pow(
            5,
            ((21888242871839275222246405745257275088548364400416034343698204186575808495617int - 1)
                / codeword_length as int) as nat,
        ) % 21888242871839275222246405745257275088548364400416034343698204186575808495617int,
{
}

} // verus!
