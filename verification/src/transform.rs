//! The number-theoretic transform of interleaved codewords.
//!
//! A buffer holds `length` rows of equal width; each column is one codeword. The rows are
//! in natural order before the transform and in bit-reversed order after it.
use vstd::arithmetic::div_mod::*;
use vstd::arithmetic::mul::*;
use vstd::arithmetic::power::*;
use vstd::arithmetic::power2::*;
use vstd::prelude::*;

use crate::bits;
use crate::bits::is_power_of_two;
use crate::field;
use crate::field::Fr;
use crate::poly;
use crate::roots;

verus! {

/// The entry of a buffer in a row and a column.
pub open spec fn cell<T>(values: Seq<T>, width: int, row: int, column: int) -> T {
    values[row * width + column]
}

/// Whether all elements of a buffer are reduced.
pub open spec fn all_valid(values: Seq<Fr>) -> bool {
    forall|q: int| 0 <= q < values.len() ==> (#[trigger] values[q]).valid()
}

/// The entries of one column in `count` rows from row `start` on, read as the coefficients
/// of a polynomial.
pub open spec fn column_coefficients(
    values: Seq<Fr>,
    width: int,
    start: int,
    count: nat,
    column: int,
) -> Seq<int> {
    Seq::new(count, |t: int| cell(values, width, start + t, column)@)
}

/// What the transform makes of one entry: the rows are split into `groups` groups, the
/// group that holds `row` is read as a polynomial, and the entry becomes the value of that
/// polynomial at the row's evaluation point.
pub open spec fn transformed(
    values: Seq<Fr>,
    length: nat,
    groups: nat,
    row: int,
    column: int,
) -> int {
    let width = values.len() as int / length as int;
    let size = length / groups;
    poly::evaluate(
        column_coefficients(values, width, (row / size as int) * size, size, column),
        roots::point(length, row as nat),
    ) % field::modulus()
}

/// Whether a buffer is the transform of another.
pub open spec fn is_transform(before: Seq<Fr>, after: Seq<Fr>, length: nat, groups: nat) -> bool {
    &&& after.len() == before.len()
    &&& all_valid(after)
    &&& forall|row: int, column: int|
        0 <= row < length && 0 <= column < before.len() as int / length as int ==> (
        #[trigger] cell(after, before.len() as int / length as int, row, column))@ == transformed(
            before,
            length,
            groups,
            row,
            column,
        )
}

/// The shapes that can be transformed: the number of rows is a power of two that has a
/// root of unity, the number of groups is a power of two no larger than that, and all rows
/// are of the same width.
pub open spec fn transform_shape(total: nat, length: nat, groups: nat) -> bool {
    &&& is_pow2(length as int)
    &&& length <= 0x1000_0000
    &&& is_pow2(groups as int)
    &&& groups <= length
    &&& total % length == 0
}

/// Whether a shape can be transformed.
pub fn is_transform_shape(total: usize, length: usize, groups: usize) -> (yes: bool)
    ensures
        yes == transform_shape(total as nat, length as nat, groups as nat),
{
    proof {
        if is_pow2(length as int) {
            bits::lemma_power_positive(length as int);
        }
    }
    is_power_of_two(length) && length <= 0x1000_0000 && is_power_of_two(groups) && groups <= length
        && total % length == 0
}

/// One butterfly: the two entries that are `half` apart become their sum and difference,
/// the second of them scaled by `factor`.
pub open spec fn butterfly(
    before: Seq<Fr>,
    after: Seq<Fr>,
    start: int,
    half: int,
    factor: int,
    offset: int,
) -> bool {
    let a = before[start + offset]@;
    let b = before[start + half + offset]@;
    &&& after[start + offset]@ == (a + factor * b) % field::modulus()
    &&& after[start + half + offset]@ == (a - factor * b) % field::modulus()
}

/// The butterfly at `offset` in group `group` of one stage.
pub open spec fn stage_butterfly(
    before: Seq<Fr>,
    after: Seq<Fr>,
    factors: Seq<Fr>,
    half: int,
    group: int,
    offset: int,
) -> bool {
    butterfly(before, after, group * (2 * half), half, factors[group]@, offset)
}

/// All butterflies of one group.
fn group_butterflies(values: &mut [Fr], start: usize, half: usize, factor: &Fr)
    requires
        start + 2 * half <= old(values)@.len(),
        all_valid(old(values)@),
        factor.valid(),
    ensures
        final(values)@.len() == old(values)@.len(),
        all_valid(final(values)@),
        forall|offset: int|
            0 <= offset < half ==> #[trigger] butterfly(
                old(values)@,
                final(values)@,
                start as int,
                half as int,
                factor@,
                offset,
            ),
        forall|q: int|
            0 <= q < old(values)@.len() && !(start <= q < start + 2 * half) ==> (
            #[trigger] final(values)@[q]) == old(values)@[q],
{
    let ghost before = values@;
    let total: usize = values.len();
    let mut offset: usize = 0;
    while offset < half
        invariant
            offset <= half,
            start + 2 * half <= total,
            total == before.len(),
            values@.len() == before.len(),
            all_valid(before),
            all_valid(values@),
            factor.valid(),
            forall|o: int|
                0 <= o < offset ==> #[trigger] butterfly(
                    before,
                    values@,
                    start as int,
                    half as int,
                    factor@,
                    o,
                ),
            forall|q: int|
                0 <= q < before.len() && !(start <= q < start + offset) && !(start + half <= q
                    < start + half + offset) ==> (#[trigger] values@[q]) == before[q],
        decreases half - offset,
    {
        let ghost current = values@;
        let low = values[start + offset];
        let scaled = field::fr_mul(&values[start + half + offset], factor);
        let sum = field::fr_add(&low, &scaled);
        let difference = field::fr_sub(&low, &scaled);
        proof {
            let a = low@;
            let b = before[start + half + offset]@;
            let m = field::modulus();
            lemma_mul_is_commutative(b, factor@);
            lemma_add_mod_noop_right(a, factor@ * b, m);
            lemma_sub_mod_noop_right(a, factor@ * b, m);
        }
        values[start + offset] = sum;
        values[start + half + offset] = difference;
        proof {
            assert(butterfly(
                before,
                values@,
                start as int,
                half as int,
                factor@,
                offset as int,
            ));
            assert forall|o: int| 0 <= o < offset implies #[trigger] butterfly(
                before,
                values@,
                start as int,
                half as int,
                factor@,
                o,
            ) by {
                assert(butterfly(before, current, start as int, half as int, factor@, o));
                assert(values@[start + o] == current[start + o]);
                assert(values@[start + half + o] == current[start + half + o]);
            }
        }
        offset = offset + 1;
    }
}

/// One stage of the transform: every group is halved.
fn halve_groups(values: &mut [Fr], factors: &[Fr], groups: usize, half: usize)
    requires
        groups * (2 * half) == old(values)@.len(),
        groups <= factors@.len(),
        all_valid(old(values)@),
        all_valid(factors@),
    ensures
        final(values)@.len() == old(values)@.len(),
        all_valid(final(values)@),
        forall|group: int, offset: int|
            0 <= group < groups && 0 <= offset < half ==> #[trigger] stage_butterfly(
                old(values)@,
                final(values)@,
                factors@,
                half as int,
                group,
                offset,
            ),
{
    let ghost before = values@;
    let total: usize = values.len();
    let mut group: usize = 0;
    let mut start: usize = 0;
    while group < groups
        invariant
            group <= groups,
            start == group * (2 * half),
            groups * (2 * half) == total,
            total == before.len(),
            values@.len() == before.len(),
            groups <= factors@.len(),
            all_valid(values@),
            all_valid(factors@),
            forall|g: int, o: int|
                0 <= g < group && 0 <= o < half ==> #[trigger] stage_butterfly(
                    before,
                    values@,
                    factors@,
                    half as int,
                    g,
                    o,
                ),
            forall|q: int| start <= q < before.len() ==> (#[trigger] values@[q]) == before[q],
        decreases groups - group,
    {
        let ghost current = values@;
        proof {
            lemma_group_fits(group as int, groups as int, 2 * half as int);
        }
        group_butterflies(values, start, half, &factors[group]);
        proof {
            assert forall|g: int, o: int| 0 <= g <= group && 0 <= o < half implies #[trigger]
            stage_butterfly(before, values@, factors@, half as int, g, o) by {
                let s = g * (2 * half);
                if g < group {
                    lemma_group_fits(g, group as int, 2 * half as int);
                    assert(stage_butterfly(before, current, factors@, half as int, g, o));
                    assert(values@[s + o] == current[s + o]);
                    assert(values@[s + half + o] == current[s + half + o]);
                } else {
                    assert(butterfly(
                        current,
                        values@,
                        start as int,
                        half as int,
                        factors@[group as int]@,
                        o,
                    ));
                    assert(current[s + o] == before[s + o]);
                    assert(current[s + half + o] == before[s + half + o]);
                }
            }
        }
        start = start + 2 * half;
        group = group + 1;
    }
}

/// A group ends where the next one starts, and no later than the last one.
proof fn lemma_group_fits(group: int, groups: int, size: int)
    requires
        0 <= group < groups,
        size >= 0,
    ensures
        0 <= group * size,
        (group + 1) * size == group * size + size,
        (group + 1) * size <= groups * size,
{
    assert(0 <= group * size) by (nonlinear_arith)
        requires
            0 <= group,
            0 <= size,
    ;
    assert((group + 1) * size == group * size + size) by (nonlinear_arith);
    assert((group + 1) * size <= groups * size) by (nonlinear_arith)
        requires
            group + 1 <= groups,
            0 <= size,
    ;
}

/// Where an entry of a group's half lies in the buffer.
proof fn lemma_entry_position(
    group: int,
    half_rows: int,
    width: int,
    row: int,
    column: int,
)
    requires
        0 <= row < half_rows,
        0 <= column < width,
    ensures
        0 <= row * width + column < half_rows * width,
        (group * (2 * half_rows) + row) * width + column == group * (2 * (half_rows * width)) + (
        row * width + column),
        (group * (2 * half_rows) + half_rows + row) * width + column == group * (2 * (half_rows
            * width)) + half_rows * width + (row * width + column),
{
    assert(0 <= row * width) by (nonlinear_arith)
        requires
            0 <= row,
            0 <= width,
    ;
    assert(row * width + width <= half_rows * width) by (nonlinear_arith)
        requires
            row + 1 <= half_rows,
            0 <= width,
    ;
    assert((group * (2 * half_rows) + row) * width == group * (2 * (half_rows * width)) + row
        * width) by (nonlinear_arith);
    assert((group * (2 * half_rows) + half_rows + row) * width == group * (2 * (half_rows * width))
        + half_rows * width + row * width) by (nonlinear_arith);
}

/// One stage keeps the value of every row's polynomial at the row's evaluation point.
proof fn lemma_stage_keeps_values(
    before: Seq<Fr>,
    after: Seq<Fr>,
    factors: Seq<Fr>,
    exponent: nat,
    group_bits: nat,
    row: int,
    column: int,
)
    requires
        exponent <= 28,
        group_bits < exponent,
        after.len() == before.len(),
        before.len() as int % pow2(exponent) as int == 0,
        0 <= row < pow2(exponent),
        0 <= column < before.len() as int / pow2(exponent) as int,
        forall|k: int|
            0 <= k < pow2((exponent - 1) as nat) ==> (#[trigger] factors[k])@ == roots::twiddle(
                pow2(exponent),
                k as nat,
            ),
        ({
            let half = pow2((exponent - group_bits - 1) as nat) * (before.len() as int / pow2(
                exponent,
            ) as int);
            forall|group: int, offset: int|
                0 <= group < pow2(group_bits) && 0 <= offset < half ==> #[trigger] stage_butterfly(
                    before,
                    after,
                    factors,
                    half,
                    group,
                    offset,
                )
        }),
    ensures
        transformed(after, pow2(exponent), pow2(group_bits + 1), row, column) == transformed(
            before,
            pow2(exponent),
            pow2(group_bits),
            row,
            column,
        ),
{
    let m = field::modulus();
    let length = pow2(exponent);
    let width = before.len() as int / length as int;
    let size_bits = (exponent - group_bits) as nat;
    let size = pow2(size_bits);
    let half_rows = pow2((size_bits - 1) as nat);
    let half = half_rows * width;
    bits::lemma_power_divides(group_bits, exponent);
    bits::lemma_power_divides(group_bits + 1, exponent);
    assert((exponent - (group_bits + 1)) as nat == (size_bits - 1) as nat);
    lemma_pow2_unfold(size_bits);
    lemma_pow2_pos((size_bits - 1) as nat);
    // The row's group and its place in it.
    let group = row / size as int;
    let offset = row % size as int;
    lemma_fundamental_div_mod(row, size as int);
    lemma_mul_is_commutative(size as int, group);
    assert(0 <= group < pow2(group_bits)) by {
        lemma_pow2_pos(group_bits);
        lemma_div_pos_is_pos(row, size as int);
        lemma_mul_is_commutative(size as int, pow2(group_bits) as int);
        lemma_multiply_divide_lt(row, size as int, pow2(group_bits) as int);
    }
    let digit: int = if offset < half_rows { 0 } else { 1 };
    let half_group = 2 * group + digit;
    assert(half_group * half_rows == group * size + digit * half_rows) by (nonlinear_arith)
        requires
            half_group == 2 * group + digit,
            size == 2 * half_rows,
    ;
    assert(digit * half_rows == (if offset < half_rows {
        0int
    } else {
        half_rows as int
    })) by (nonlinear_arith)
        requires
            digit == (if offset < half_rows {
                0int
            } else {
                1int
            }),
    ;
    lemma_fundamental_div_mod_converse(
        row,
        half_rows as int,
        half_group,
        offset - digit * half_rows,
    );
    // The group's polynomial, in two parts, and the polynomial of the half that holds the row.
    let start = group * size;
    let low = column_coefficients(before, width, start, half_rows, column);
    let high = column_coefficients(before, width, start + half_rows, half_rows, column);
    let whole = column_coefficients(before, width, start, size, column);
    assert(low + high =~= whole);
    let combined = column_coefficients(
        after,
        width,
        half_group * half_rows,
        half_rows,
        column,
    );
    let x = roots::point(length, row as nat);
    let factor = roots::twiddle(length, group as nat);
    let scale = if digit == 0 { factor } else { -factor };
    bits::lemma_power_divides(group_bits, (exponent - 1) as nat);
    assert(factors[group]@ == factor);
    assert forall|t: int| 0 <= t < half_rows implies (#[trigger] combined[t]) % m == (low[t] + scale
        * high[t]) % m by {
        lemma_entry_position(group, half_rows as int, width, t, column);
        let place = t * width + column;
        assert(stage_butterfly(before, after, factors, half, group, place));
        assert(low[t] == before[group * (2 * half) + place]@);
        assert(high[t] == before[group * (2 * half) + half + place]@);
        if digit == 0 {
            assert(combined[t] == after[group * (2 * half) + place]@);
        } else {
            assert(combined[t] == after[group * (2 * half) + half + place]@);
            assert((-factor) * high[t] == -(factor * high[t])) by (nonlinear_arith);
        }
        lemma_mod_twice(low[t] + scale * high[t], m);
    }
    poly::lemma_evaluate_combination(low, high, scale, combined, x, m);
    poly::lemma_evaluate_parts(low, high, x);
    roots::lemma_point_splits(exponent, group_bits, group as nat, offset as nat);
    let top = poly::evaluate(high, x);
    poly::lemma_congruent_product(pow(x, half_rows), scale, top, top, m);
    poly::lemma_congruent_sum(
        poly::evaluate(low, x),
        poly::evaluate(low, x),
        pow(x, half_rows) * top,
        scale * top,
        m,
    );
}

/// Once every row is a group of its own, the buffer holds the transformed values.
proof fn lemma_single_rows(values: Seq<Fr>, length: nat, row: int, column: int)
    requires
        length > 0,
        0 <= row < length,
        0 <= column < values.len() as int / length as int,
        values.len() as int % length as int == 0,
    ensures
        transformed(values, length, length, row, column) == cell(
            values,
            values.len() as int / length as int,
            row,
            column,
        )@,
{
    let width = values.len() as int / length as int;
    lemma_div_by_self(length as int);
    lemma_div_basics(row);
    let single = column_coefficients(values, width, row, 1, column);
    let x = roots::point(length, row as nat);
    assert(single.drop_first() =~= Seq::<int>::empty());
    assert(poly::evaluate(single.drop_first(), x) == 0);
    assert(x * 0 == 0) by (nonlinear_arith);
    let entry = cell(values, width, row, column);
    assert(poly::evaluate(single, x) == entry@);
    field::lemma_value_bounds(entry);
    lemma_small_mod(entry@ as nat, field::modulus() as nat);
}

/// Transforms the columns of a buffer in place, from natural to bit-reversed row order.
///
/// The transform starts from rows that are already split into `num_groups` groups; with
/// one group it evaluates whole columns.
pub fn ntt_nr(values: &mut [Fr], codeword_size: usize, num_groups: usize)
    requires
        transform_shape(old(values)@.len(), codeword_size as nat, num_groups as nat),
        all_valid(old(values)@),
    ensures
        is_transform(old(values)@, final(values)@, codeword_size as nat, num_groups as nat),
{
    let ghost before = values@;
    let ghost exponent = bits::lemma_exponent(codeword_size as int);
    let ghost mut group_bits = bits::lemma_exponent(num_groups as int);
    let total: usize = values.len();
    proof {
        lemma2_to64();
        bits::lemma_power_order(28, exponent);
        bits::lemma_power_order(exponent, group_bits);
        roots::lemma_power_has_root(exponent);
        lemma_pow2_pos(exponent);
        lemma_pow2_pos(group_bits);
    }
    let roots: Vec<Fr> = roots::reverse_ordered_roots(codeword_size);
    let ghost width = total as int / codeword_size as int;
    let mut groups: usize = num_groups;
    let mut group_len: usize = total / num_groups;
    proof {
        lemma_fundamental_div_mod(total as int, codeword_size as int);
        bits::lemma_power_divides(group_bits, exponent);
        let size = pow2((exponent - group_bits) as nat) as int;
        assert(total == num_groups * (size * width)) by (nonlinear_arith)
            requires
                total == codeword_size * width,
                codeword_size == num_groups * size,
        ;
        lemma_div_multiples_vanish(size * width, num_groups as int);
        assert(group_len == size * width);
        if exponent > 0 {
            lemma_pow2_unfold(exponent);
        }
    }
    while groups < codeword_size
        invariant
            exponent <= 28,
            codeword_size == pow2(exponent),
            codeword_size <= 0x1000_0000,
            total == before.len(),
            total as int % codeword_size as int == 0,
            width == total as int / codeword_size as int,
            values@.len() == before.len(),
            all_valid(values@),
            group_bits <= exponent,
            groups == pow2(group_bits),
            group_len == pow2((exponent - group_bits) as nat) * width,
            groups * group_len == total,
            exponent > 0 ==> codeword_size == 2 * pow2((exponent - 1) as nat),
            roots@.len() == codeword_size / 2,
            all_valid(roots@),
            forall|k: int|
                0 <= k < codeword_size / 2 ==> (#[trigger] roots@[k])@ == roots::twiddle(
                    codeword_size as nat,
                    k as nat,
                ),
            forall|row: int, column: int|
                0 <= row < codeword_size && 0 <= column < width ==> #[trigger] transformed(
                    values@,
                    codeword_size as nat,
                    groups as nat,
                    row,
                    column,
                ) == transformed(before, codeword_size as nat, num_groups as nat, row, column),
        decreases codeword_size - groups,
    {
        let ghost current = values@;
        let half: usize = group_len / 2;
        proof {
            bits::lemma_power_order(group_bits, exponent);
            let half_rows = pow2((exponent - group_bits - 1) as nat) as int;
            lemma_pow2_unfold((exponent - group_bits) as nat);
            assert(group_len == 2 * (half_rows * width)) by (nonlinear_arith)
                requires
                    group_len == (2 * half_rows) * width,
            ;
            assert(half == half_rows * width);
            bits::lemma_power_divides(group_bits, (exponent - 1) as nat);
            lemma_pow2_unfold(group_bits + 1);
            assert(groups * (2 * half) == (2 * groups) * half) by (nonlinear_arith);
        }
        halve_groups(values, &roots, groups, half);
        proof {
            assert forall|row: int, column: int|
                0 <= row < codeword_size && 0 <= column < width implies #[trigger] transformed(
                values@,
                codeword_size as nat,
                (2 * groups) as nat,
                row,
                column,
            ) == transformed(before, codeword_size as nat, num_groups as nat, row, column) by {
                lemma_stage_keeps_values(
                    current,
                    values@,
                    roots@,
                    exponent,
                    group_bits,
                    row,
                    column,
                );
                assert(transformed(
                    current,
                    codeword_size as nat,
                    groups as nat,
                    row,
                    column,
                ) == transformed(before, codeword_size as nat, num_groups as nat, row, column));
            }
            group_bits = group_bits + 1;
        }
        groups = 2 * groups;
        group_len = half;
    }
    proof {
        bits::lemma_power_order(group_bits, exponent);
        assert(groups == codeword_size);
        assert forall|row: int, column: int|
            0 <= row < codeword_size && 0 <= column < width implies (#[trigger] cell(
            values@,
            width,
            row,
            column,
        ))@ == transformed(before, codeword_size as nat, num_groups as nat, row, column) by {
            lemma_single_rows(values@, codeword_size as nat, row, column);
        }
    }
}

/// A buffer has only one transform.
pub proof fn lemma_transform_unique(
    before: Seq<Fr>,
    first: Seq<Fr>,
    second: Seq<Fr>,
    length: nat,
    groups: nat,
)
    requires
        length > 0,
        before.len() % length == 0,
        is_transform(before, first, length, groups),
        is_transform(before, second, length, groups),
    ensures
        first == second,
{
    let width = before.len() as int / length as int;
    lemma_fundamental_div_mod(before.len() as int, length as int);
    assert forall|q: int| 0 <= q < before.len() implies first[q] == second[q] by {
        assert(width > 0) by (nonlinear_arith)
            requires
                0 <= q < before.len(),
                before.len() == length * width,
        ;
        let row = q / width;
        let column = q % width;
        lemma_fundamental_div_mod(q, width);
        lemma_mod_bound(q, width);
        lemma_div_pos_is_pos(q, width);
        lemma_mul_is_commutative(length as int, width);
        lemma_multiply_divide_lt(q, width, length as int);
        lemma_mul_is_commutative(row, width);
        assert(cell(first, width, row, column) == first[q]);
        assert(cell(second, width, row, column) == second[q]);
        field::lemma_valid_unique(first[q], second[q]);
    }
    assert(first =~= second);
}

} // verus!
