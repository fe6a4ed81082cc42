//! Interleaved Reed-Solomon encoding.
use vstd::arithmetic::div_mod::*;
use vstd::arithmetic::mul::*;
use vstd::arithmetic::power::*;
use vstd::arithmetic::power2::*;
use vstd::prelude::*;

use crate::bits;
use crate::bits::is_power_of_two;
use crate::field;
use crate::field::Fr;
use crate::layout;
use crate::layout::{build_interleaved_host_values, interleaved_layout, next_order_impl};
use crate::poly;
use crate::roots;
use crate::roots::{evaluation_points_impl, generator_impl};
use crate::transform;
use crate::transform::ntt_nr;

verus! {

/// Whether all messages are as long as the first.
pub open spec fn uniform(messages: Seq<&[Fr]>) -> bool {
    forall|row: int|
        0 <= row < messages.len() ==> (#[trigger] messages[row])@.len() == messages[0]@.len()
}

/// Whether all elements of all messages are reduced.
pub open spec fn messages_valid(messages: Seq<&[Fr]>) -> bool {
    forall|row: int|
        0 <= row < messages.len() ==> transform::all_valid((#[trigger] messages[row])@)
}

/// The number of coefficients of one masked message.
pub open spec fn masked_length(messages: Seq<&[Fr]>, masks: Seq<Fr>) -> int {
    messages[0]@.len() + masks.len() as int / messages.len() as int
}

/// The coset size of a batch.
pub open spec fn batch_coset_size(
    messages: Seq<&[Fr]>,
    masks: Seq<Fr>,
    codeword_length: nat,
) -> int {
    layout::coset_size(masked_length(messages, masks), codeword_length as int)
}

/// The number of cosets of a batch.
pub open spec fn batch_cosets(messages: Seq<&[Fr]>, masks: Seq<Fr>, codeword_length: nat) -> int {
    codeword_length as int / batch_coset_size(messages, masks, codeword_length)
}

/// The buffer that a batch is laid out in before the transform.
pub open spec fn batch_buffer(
    messages: Seq<&[Fr]>,
    masks: Seq<Fr>,
    codeword_length: nat,
) -> Seq<Fr> {
    layout::interleaved(
        messages,
        masks,
        messages[0]@.len(),
        messages.len() * codeword_length,
        (batch_coset_size(messages, masks, codeword_length) * messages.len()) as nat,
        batch_cosets(messages, masks, codeword_length) as nat,
    )
}

/// Whether a batch can be laid out for a codeword length: it is uniform, there is a
/// layout, and the messages and masks fit into the buffer.
pub open spec fn batch_fits(messages: Seq<&[Fr]>, masks: Seq<Fr>, codeword_length: nat) -> bool {
    messages.len() > 0 ==> {
        &&& uniform(messages)
        &&& layout::has_layout(
            messages.len(),
            messages[0]@.len(),
            masks.len(),
            codeword_length,
        )
        &&& messages[0]@.len() * messages.len() + masks.len() <= messages.len() * codeword_length
    }
}

/// Lays out a batch and hands it to a transform, with the codeword length and the number
/// of cosets.
pub fn interleaved_encode_impl<F: FnOnce(Vec<Fr>, usize, usize) -> Vec<Fr>>(
    messages: &[&[Fr]],
    masks: &[Fr],
    codeword_length: usize,
    ntt_impl: F,
) -> (result: Vec<Fr>)
    requires
        batch_fits(messages@, masks@, codeword_length as nat),
        messages@.len() > 0 ==> forall|values: Vec<Fr>, cosets: usize|
            values@ == batch_buffer(messages@, masks@, codeword_length as nat) && cosets
                == batch_cosets(messages@, masks@, codeword_length as nat)
                ==> #[trigger] ntt_impl.requires((values, codeword_length, cosets)),
    ensures
        messages@.len() == 0 ==> result@.len() == 0,
        messages@.len() > 0 ==> exists|values: Vec<Fr>, cosets: usize|
            values@ == batch_buffer(messages@, masks@, codeword_length as nat) && cosets
                == batch_cosets(messages@, masks@, codeword_length as nat)
                && #[trigger] ntt_impl.ensures((values, codeword_length, cosets), result),
{
    if messages.len() == 0 {
        return Vec::new();
    }
    let num_messages: usize = messages.len();
    let message_length: usize = messages[0].len();
    let layout = interleaved_layout(num_messages, message_length, masks.len(), codeword_length);
    proof {
        layout::lemma_coset_size(
            layout.coset_size as int,
            masked_length(messages@, masks@),
            codeword_length as int,
        );
        bits::lemma_power_positive(layout.coset_size as int);
        lemma_fundamental_div_mod(codeword_length as int, layout.coset_size as int);
        assert(layout.chunk_size * layout.num_cosets == layout.total_size) by (nonlinear_arith)
            requires
                layout.chunk_size == layout.coset_size * num_messages,
                layout.total_size == num_messages * codeword_length,
                codeword_length == layout.coset_size * layout.num_cosets,
        ;
        assert(layout.num_cosets > 1 ==> layout.chunk_size <= layout.total_size)
            by (nonlinear_arith)
            requires
                layout.chunk_size * layout.num_cosets == layout.total_size,
        ;
        assert(layout.chunk_size > 0) by (nonlinear_arith)
            requires
                layout.chunk_size == layout.coset_size * num_messages,
                layout.coset_size > 0,
                num_messages > 0,
        ;
    }
    let values = build_interleaved_host_values(
        messages,
        masks,
        message_length,
        layout.total_size,
        layout.chunk_size,
        layout.num_cosets,
    );
    ntt_impl(values, codeword_length, layout.num_cosets)
}

/// Whether a batch can be encoded: it is uniform, the codeword length is a supported power
/// of two, the messages and masks fit into the codewords, and the codewords into memory.
pub open spec fn encodable(messages: Seq<&[Fr]>, masks: Seq<Fr>, codeword_length: nat) -> bool {
    messages.len() > 0 ==> {
        &&& uniform(messages)
        &&& is_pow2(codeword_length as int)
        &&& codeword_length <= layout::MAX_CODEWORD_ORDER
        &&& messages.len() * codeword_length <= usize::MAX
        &&& messages[0]@.len() * messages.len() + masks.len() <= messages.len() * codeword_length
    }
}

/// Whether a batch can be encoded.
pub fn is_encodable(messages: &[&[Fr]], masks: &[Fr], codeword_length: usize) -> (yes: bool)
    ensures
        yes == encodable(messages@, masks@, codeword_length as nat),
{
    if messages.len() == 0 {
        return true;
    }
    let num_messages: usize = messages.len();
    let message_length: usize = messages[0].len();
    let mut row: usize = 0;
    while row < num_messages
        invariant
            row <= num_messages,
            num_messages == messages@.len(),
            num_messages > 0,
            message_length == messages@[0]@.len(),
            forall|i: int| 0 <= i < row ==> (#[trigger] messages@[i])@.len() == message_length,
        decreases num_messages - row,
    {
        if messages[row].len() != message_length {
            assert(messages@[row as int]@.len() != messages@[0]@.len());
            return false;
        }
        row = row + 1;
    }
    if !is_power_of_two(codeword_length) || codeword_length > layout::MAX_CODEWORD_ORDER {
        return false;
    }
    match (
        num_messages.checked_mul(codeword_length),
        message_length.checked_mul(num_messages),
    ) {
        (Some(total), Some(start)) => start <= total && masks.len() <= total - start,
        _ => false,
    }
}

/// The coefficients of one masked message: the message, then its column of the masks.
pub open spec fn masked_message(messages: Seq<&[Fr]>, masks: Seq<Fr>, column: int) -> Seq<int> {
    Seq::new(
        masked_length(messages, masks) as nat,
        |t: int|
            if t < messages[0]@.len() {
                messages[column]@[t]@
            } else {
                transform::cell(
                    masks,
                    messages.len() as int,
                    t - messages[0]@.len(),
                    column,
                )@
            },
    )
}

/// Whether a buffer holds the codewords of a batch: entry `column` of row `row` is the
/// value of masked message `column` at the evaluation point of that row.
pub open spec fn is_codeword(
    messages: Seq<&[Fr]>,
    masks: Seq<Fr>,
    codeword_length: nat,
    result: Seq<Fr>,
) -> bool {
    &&& result.len() == messages.len() * codeword_length
    &&& transform::all_valid(result)
    &&& forall|row: int, column: int|
        0 <= row < codeword_length && 0 <= column < messages.len() ==> (#[trigger] transform::cell(
            result,
            messages.len() as int,
            row,
            column,
        ))@ == poly::evaluate(
            masked_message(messages, masks, column),
            roots::point(codeword_length, row as nat),
        ) % field::modulus()
}

/// An encodable batch has a layout whose buffer the transform takes.
pub proof fn lemma_encodable(messages: Seq<&[Fr]>, masks: Seq<Fr>, codeword_length: nat)
    requires
        messages.len() > 0,
        encodable(messages, masks, codeword_length),
        messages_valid(messages),
        transform::all_valid(masks),
    ensures
        masked_length(messages, masks) <= codeword_length,
        batch_fits(messages, masks, codeword_length),
        transform::transform_shape(
            messages.len() * codeword_length,
            codeword_length,
            batch_cosets(messages, masks, codeword_length) as nat,
        ),
        transform::all_valid(batch_buffer(messages, masks, codeword_length)),
        layout::is_next_power(
            batch_coset_size(messages, masks, codeword_length),
            masked_length(messages, masks),
        ),
        0 < batch_coset_size(messages, masks, codeword_length) <= codeword_length,
        batch_cosets(messages, masks, codeword_length) > 0,
        batch_coset_size(messages, masks, codeword_length) * batch_cosets(
            messages,
            masks,
            codeword_length,
        ) == codeword_length,
{
    let count = messages.len() as int;
    let length = messages[0]@.len() as int;
    let n = codeword_length as int;
    let rows = masked_length(messages, masks);
    assert(rows <= n) by {
        assert(masks.len() <= (n - length) * count) by (nonlinear_arith)
            requires
                length * count + masks.len() <= count * n,
        ;
        lemma_div_is_ordered(masks.len() as int, (n - length) * count, count);
        lemma_div_multiples_vanish(n - length, count);
        lemma_mul_is_commutative(n - length, count);
    }
    let size = layout::lemma_power_length(rows as nat, codeword_length);
    layout::lemma_coset_size(size, rows, n);
    assert(count * size <= count * n) by (nonlinear_arith)
        requires
            size <= n,
            count > 0,
    ;
    lemma_mod_multiples_basic(count, n);
    bits::lemma_power_positive(n / size);
    bits::lemma_power_positive(n);
    let buffer = batch_buffer(messages, masks, codeword_length);
    let chunk = size * count;
    assert(chunk > 0) by (nonlinear_arith)
        requires
            chunk == size * count,
            size > 0,
            count > 0,
    ;
    assert forall|q: int| 0 <= q < buffer.len() implies (#[trigger] buffer[q]).valid() by {
        let position = if n / size > 1 && q / chunk < n / size {
            q % chunk
        } else {
            q
        };
        lemma_base_entry_valid(messages, masks, position);
    }
}

/// What stands in a buffer is reduced if what is laid out in it is.
pub proof fn lemma_base_entry_valid(messages: Seq<&[Fr]>, masks: Seq<Fr>, position: int)
    requires
        messages.len() > 0,
        uniform(messages),
        messages_valid(messages),
        transform::all_valid(masks),
        position >= 0,
    ensures
        layout::base_entry(messages, masks, messages[0]@.len(), position).valid(),
{
    let count = messages.len() as int;
    let length = messages[0]@.len() as int;
    if position < length * count {
        lemma_mul_is_commutative(length, count);
        lemma_multiply_divide_lt(position, count, length);
        assert(transform::all_valid(messages[position % count]@));
        assert(messages[position % count]@.len() == length);
        assert(messages[position % count]@[position / count].valid());
    }
}

/// The buffer that a batch is laid out in, with cosets of a given size.
pub open spec fn split_buffer(
    messages: Seq<&[Fr]>,
    masks: Seq<Fr>,
    codeword_length: nat,
    size: int,
    cosets: int,
) -> Seq<Fr> {
    layout::interleaved(
        messages,
        masks,
        messages[0]@.len(),
        messages.len() * codeword_length,
        (size * messages.len()) as nat,
        cosets as nat,
    )
}

/// Each block of a buffer holds the masked messages, followed by zeros.
proof fn lemma_block_coefficients(
    messages: Seq<&[Fr]>,
    masks: Seq<Fr>,
    codeword_length: nat,
    size: int,
    cosets: int,
    block: int,
    column: int,
)
    requires
        messages.len() > 0,
        masks.len() % messages.len() == 0,
        size > 0,
        size * cosets == codeword_length,
        masked_length(messages, masks) <= size,
        0 <= block < cosets,
        0 <= column < messages.len(),
    ensures
        transform::column_coefficients(
            split_buffer(messages, masks, codeword_length, size, cosets),
            messages.len() as int,
            block * size,
            size as nat,
            column,
        ) =~= masked_message(messages, masks, column) + Seq::new(
            (size - masked_length(messages, masks)) as nat,
            |t: int| 0int,
        ),
{
    let count = messages.len() as int;
    let length = messages[0]@.len() as int;
    let mask_rows = masks.len() as int / count;
    let chunk = size * count;
    let buffer = split_buffer(messages, masks, codeword_length, size, cosets);
    let coefficients = transform::column_coefficients(
        buffer,
        count,
        block * size,
        size as nat,
        column,
    );
    let expected = masked_message(messages, masks, column) + Seq::new(
        (size - masked_length(messages, masks)) as nat,
        |t: int| 0int,
    );
    lemma_fundamental_div_mod(masks.len() as int, count);
    assert forall|t: int| 0 <= t < size implies coefficients[t] == expected[t] by {
        let q = (block * size + t) * count + column;
        let position = t * count + column;
        assert(q == block * chunk + position) by (nonlinear_arith)
            requires
                q == (block * size + t) * count + column,
                position == t * count + column,
                chunk == size * count,
        ;
        assert(0 <= position < chunk) by (nonlinear_arith)
            requires
                position == t * count + column,
                chunk == size * count,
                0 <= t < size,
                0 <= column < count,
        ;
        assert(0 <= q < count * codeword_length) by (nonlinear_arith)
            requires
                q == block * chunk + position,
                0 <= position < chunk,
                chunk == size * count,
                0 <= block < cosets,
                size * cosets == codeword_length,
        ;
        lemma_fundamental_div_mod_converse(q, chunk, block, position);
        assert(cosets <= 1 ==> q == position) by (nonlinear_arith)
            requires
                0 <= block < cosets,
                q == block * chunk + position,
        ;
        assert(buffer[q] == layout::base_entry(messages, masks, length as nat, position));
        lemma_fundamental_div_mod_converse(position, count, t, column);
        assert(t < length <==> position < length * count) by (nonlinear_arith)
            requires
                position == t * count + column,
                0 <= column < count,
        ;
        assert(t < length + mask_rows <==> position < length * count + masks.len())
            by (nonlinear_arith)
            requires
                position == t * count + column,
                0 <= column < count,
                masks.len() == count * mask_rows,
        ;
        assert(position - length * count == (t - length) * count + column) by (nonlinear_arith)
            requires
                position == t * count + column,
        ;
    }
}

/// The transform of the buffer of a batch, whose masks form whole rows, holds the
/// Reed-Solomon codewords of the masked messages, however the codewords are split into
/// cosets that hold a masked message.
pub proof fn lemma_split_encodes(
    messages: Seq<&[Fr]>,
    masks: Seq<Fr>,
    codeword_length: nat,
    size: int,
    cosets: int,
    result: Seq<Fr>,
)
    requires
        messages.len() > 0,
        masks.len() % messages.len() == 0,
        size > 0,
        cosets > 0,
        size * cosets == codeword_length,
        masked_length(messages, masks) <= size,
        transform::is_transform(
            split_buffer(messages, masks, codeword_length, size, cosets),
            result,
            codeword_length,
            cosets as nat,
        ),
    ensures
        is_codeword(messages, masks, codeword_length, result),
{
    let count = messages.len() as int;
    let n = codeword_length as int;
    let buffer = split_buffer(messages, masks, codeword_length, size, cosets);
    assert(n > 0) by (nonlinear_arith)
        requires
            size * cosets == n,
            size > 0,
            cosets > 0,
    ;
    lemma_div_multiples_vanish(count, n);
    lemma_mul_is_commutative(count, n);
    assert(buffer.len() as int / n == count);
    lemma_div_multiples_vanish(size, cosets);
    lemma_mul_is_commutative(size, cosets);
    assert(n / cosets == size);
    assert forall|row: int, column: int| 0 <= row < n && 0 <= column < count implies (
    #[trigger] transform::cell(result, count, row, column))@ == poly::evaluate(
        masked_message(messages, masks, column),
        roots::point(codeword_length, row as nat),
    ) % field::modulus() by {
        let block = row / size;
        lemma_multiply_divide_lt(row, size, cosets);
        lemma_div_pos_is_pos(row, size);
        lemma_block_coefficients(
            messages,
            masks,
            codeword_length,
            size,
            cosets,
            block,
            column,
        );
        let point = roots::point(codeword_length, row as nat);
        let low = masked_message(messages, masks, column);
        let zeros = Seq::new(
            (size - masked_length(messages, masks)) as nat,
            |t: int| 0int,
        );
        poly::lemma_evaluate_parts(low, zeros, point);
        poly::lemma_evaluate_zeros(zeros, point);
        assert(transform::cell(result, count, row, column)@ == transform::transformed(
            buffer,
            codeword_length,
            cosets as nat,
            row,
            column,
        ));
    }
}

/// The transform of the buffer of a batch in its own cosets, whose masks form whole rows,
/// holds the Reed-Solomon codewords of the masked messages.
pub proof fn lemma_transform_encodes(
    messages: Seq<&[Fr]>,
    masks: Seq<Fr>,
    codeword_length: nat,
    result: Seq<Fr>,
)
    requires
        messages.len() > 0,
        encodable(messages, masks, codeword_length),
        messages_valid(messages),
        transform::all_valid(masks),
        masks.len() % messages.len() == 0,
        transform::is_transform(
            batch_buffer(messages, masks, codeword_length),
            result,
            codeword_length,
            batch_cosets(messages, masks, codeword_length) as nat,
        ),
    ensures
        is_codeword(messages, masks, codeword_length, result),
{
    lemma_encodable(messages, masks, codeword_length);
    lemma_split_encodes(
        messages,
        masks,
        codeword_length,
        batch_coset_size(messages, masks, codeword_length),
        batch_cosets(messages, masks, codeword_length),
        result,
    );
}

/// In a buffer of codewords, the row whose index has the digits of `power` in reverse holds
/// the values of the masked messages at the root of unity to that power. So the rows are
/// those of an encoder that evaluates at the powers of the root in order, permuted.
pub proof fn lemma_codeword_in_natural_order(
    messages: Seq<&[Fr]>,
    masks: Seq<Fr>,
    exponent: nat,
    result: Seq<Fr>,
    power: nat,
    column: int,
)
    requires
        is_codeword(messages, masks, pow2(exponent), result),
        power < pow2(exponent),
        0 <= column < messages.len(),
    ensures
        transform::cell(
            result,
            messages.len() as int,
            bits::reversed(power, exponent) as int,
            column,
        )@ == poly::evaluate(
            masked_message(messages, masks, column),
            pow(field::root(pow2(exponent) as int), power) % field::modulus(),
        ) % field::modulus(),
{
    roots::lemma_points_cover(exponent, power);
}

/// A batch has only one buffer of codewords, limb for limb.
pub proof fn lemma_codeword_unique(
    messages: Seq<&[Fr]>,
    masks: Seq<Fr>,
    codeword_length: nat,
    first: Seq<Fr>,
    second: Seq<Fr>,
)
    requires
        is_codeword(messages, masks, codeword_length, first),
        is_codeword(messages, masks, codeword_length, second),
    ensures
        first == second,
{
    let count = messages.len() as int;
    assert forall|q: int| 0 <= q < first.len() implies first[q] == second[q] by {
        assert(count > 0) by (nonlinear_arith)
            requires
                0 <= q < count * codeword_length,
                count >= 0,
        ;
        let row = q / count;
        let column = q % count;
        lemma_fundamental_div_mod(q, count);
        lemma_div_pos_is_pos(q, count);
        lemma_multiply_divide_lt(q, count, codeword_length as int);
        lemma_mul_is_commutative(row, count);
        assert(transform::cell(first, count, row, column) == first[q]);
        assert(transform::cell(second, count, row, column) == second[q]);
        field::lemma_valid_unique(first[q], second[q]);
    }
    assert(first =~= second);
}

/// The Reed-Solomon encoder that runs on the host.
#[derive(Clone, Copy, Debug)]
pub struct RSFr;

impl RSFr {
    /// The smallest supported codeword length that holds `size` rows, if there is one.
    pub fn next_order(&self, size: usize) -> (order: Option<usize>)
        requires
            size <= usize::MAX / 2 + 1,
        ensures
            match order {
                Some(order) => layout::is_next_power(order as int, size as int) && order
                    <= layout::MAX_CODEWORD_ORDER,
                None => size > layout::MAX_CODEWORD_ORDER,
            },
    {
        next_order_impl(size)
    }

    /// The points at which the rows `indices` of a codeword are evaluated.
    pub fn evaluation_points(
        &self,
        _masked_message_length: usize,
        codeword_length: usize,
        indices: &[usize],
    ) -> (points: Vec<Fr>)
        requires
            indices@.len() > 0 ==> field::has_root(codeword_length as int),
        ensures
            points@.len() == indices@.len(),
            forall|i: int|
                0 <= i < indices@.len() ==> (#[trigger] points@[i]).valid() && points@[i]@
                    == roots::point(codeword_length as nat, indices@[i] as nat),
    {
        evaluation_points_impl(codeword_length, indices)
    }

    /// Encodes a batch of messages; the codewords are interleaved row by row.
    pub fn interleaved_encode(
        &self,
        messages: &[&[Fr]],
        masks: &[Fr],
        codeword_length: usize,
    ) -> (result: Vec<Fr>)
        requires
            encodable(messages@, masks@, codeword_length as nat),
            messages_valid(messages@),
            transform::all_valid(masks@),
        ensures
            messages@.len() == 0 ==> result@.len() == 0,
            messages@.len() > 0 ==> transform::is_transform(
                batch_buffer(messages@, masks@, codeword_length as nat),
                result@,
                codeword_length as nat,
                batch_cosets(messages@, masks@, codeword_length as nat) as nat,
            ),
            messages@.len() > 0 && masks@.len() % messages@.len() == 0 ==> is_codeword(
                messages@,
                masks@,
                codeword_length as nat,
                result@,
            ),
    {
        proof {
            if messages@.len() > 0 {
                lemma_encodable(messages@, masks@, codeword_length as nat);
            }
        }
        let result = interleaved_encode_impl(messages, masks, codeword_length, transform_buffer);
        proof {
            if messages@.len() > 0 && masks@.len() % messages@.len() == 0 {
                lemma_transform_encodes(messages@, masks@, codeword_length as nat, result@);
            }
        }
        result
    }

    /// The root of unity whose powers are the evaluation points of a codeword.
    pub fn generator(&self, codeword_length: usize) -> (generator: Fr)
        requires
            field::has_root(codeword_length as int),
        ensures
            generator.valid(),
            generator@ == field::root(codeword_length as int),
    {
        generator_impl(codeword_length)
    }
}

/// Transforms a buffer and gives it back.
pub fn transform_buffer(values: Vec<Fr>, codeword_size: usize, num_groups: usize) -> (result: Vec<
    Fr,
>)
    requires
        transform::transform_shape(values@.len(), codeword_size as nat, num_groups as nat),
        transform::all_valid(values@),
    ensures
        transform::is_transform(values@, result@, codeword_size as nat, num_groups as nat),
{
    let mut values = values;
    ntt_nr(values.as_mut_slice(), codeword_size, num_groups);
    values
}

} // verus!
