//! Laws of the layout, the transform and the encoder on the host.
use vstd::arithmetic::div_mod::*;
use vstd::arithmetic::mul::*;
use vstd::arithmetic::power2::*;
use vstd::prelude::*;

use crate::bits;
use crate::field;
use crate::field::Fr;
use crate::icicle::build_interleaved_buffer;
use crate::laws::cuda_encode::{fits_codewords, same_lengths};
use crate::layout;
use crate::layout::{
    build_interleaved_host_values, interleaved_layout, next_order_impl, InterleavedLayout,
};
use crate::poly;
use crate::reed_solomon;
use crate::reed_solomon::{interleaved_encode_impl, is_encodable, transform_buffer, RSFr};
use crate::roots::evaluation_points_impl;
use crate::transform;
use crate::transform::{is_transform_shape, ntt_nr};

verus! {

/// The codeword length for a number of rows is the shortest power of two that holds them, up
/// to the longest that has a root of unity.
pub proof fn lemma_next_order(size: usize, other: nat, order: Option<usize>)
    requires
        call_ensures(next_order_impl, (size,), order),
    ensures
        order is Some <==> size <= 0x1000_0000,
        order matches Some(found) ==> {
            &&& exists|e: nat| found == #[trigger] pow2(e)
            &&& size <= found <= 0x1000_0000
            &&& size <= pow2(other) ==> found <= pow2(other)
        },
{
    lemma2_to64();
    bits::lemma_is_power(28);
    bits::lemma_is_power(other);
    if let Some(found) = order {
        let e = bits::lemma_exponent(found as int);
        assert(found == pow2(e));
    }
}

/// A layout splits the codeword into cosets without a rest, and the buffer into as many
/// blocks; a coset is a power of two, holds a masked message, and no smaller power of two
/// that divides the codeword does.
pub proof fn lemma_layout(
    num_messages: usize,
    message_length: usize,
    masks_len: usize,
    codeword_length: usize,
    layout: InterleavedLayout,
    smaller: nat,
)
    requires
        call_ensures(
            interleaved_layout,
            (num_messages, message_length, masks_len, codeword_length),
            layout,
        ),
        num_messages > 0,
    ensures
        layout.coset_size * layout.num_cosets == codeword_length,
        layout.chunk_size * layout.num_cosets == layout.total_size,
        layout.total_size == num_messages * codeword_length,
        layout.chunk_size == num_messages * layout.coset_size,
        message_length + masks_len as int / num_messages as int <= layout.coset_size,
        exists|e: nat| layout.coset_size == #[trigger] pow2(e),
        pow2(smaller) < layout.coset_size && codeword_length as int % pow2(smaller) as int == 0
            ==> pow2(smaller) < message_length + masks_len as int / num_messages as int,
{
    let size = layout.coset_size as int;
    let n = codeword_length as int;
    let count = num_messages as int;
    let e = bits::lemma_exponent(size);
    assert(layout.coset_size == pow2(e));
    lemma_pow2_pos(e);
    lemma_fundamental_div_mod(n, size);
    assert(size * layout.num_cosets == n);
    assert(layout.chunk_size * layout.num_cosets == layout.total_size) by (nonlinear_arith)
        requires
            size * layout.num_cosets == n,
            layout.chunk_size == size * count,
            layout.total_size == count * n,
    ;
    lemma_mul_is_commutative(size, count);
    bits::lemma_is_power(smaller);
}

/// What stands in a block of a buffer: entry `column` of a row is that coefficient of message
/// `column`; the masks follow row by row, and zeros fill the block.
pub open spec fn laid_out(
    messages: Seq<&[Fr]>,
    masks: Seq<Fr>,
    row: int,
    column: int,
    entry: Fr,
) -> bool {
    let length = messages[0]@.len() as int;
    let position = (row - length) * messages.len() + column;
    if row < length {
        entry == messages[column]@[row]
    } else if position < masks.len() {
        entry == masks[position]
    } else {
        entry == field::zero_element()
    }
}

/// The position of an entry in its block.
pub proof fn lemma_block_position(
    count: int,
    rows: int,
    cosets: int,
    block: int,
    row: int,
    column: int,
)
    requires
        count > 0,
        0 <= block < cosets,
        0 <= row < rows,
        0 <= column < count,
    ensures
        ({
            let q = (block * rows + row) * count + column;
            let chunk = rows * count;
            let position = row * count + column;
            &&& 0 <= q < chunk * cosets
            &&& chunk > 0
            &&& q / chunk == block
            &&& q % chunk == position
            &&& cosets <= 1 ==> q == position
            &&& position / count == row
            &&& position % count == column
        }),
{
    let q = (block * rows + row) * count + column;
    let chunk = rows * count;
    let position = row * count + column;
    assert(q == block * chunk + position) by (nonlinear_arith)
        requires
            q == (block * rows + row) * count + column,
            position == row * count + column,
            chunk == rows * count,
    ;
    assert(0 <= position < chunk) by (nonlinear_arith)
        requires
            position == row * count + column,
            chunk == rows * count,
            0 <= row,
            row + 1 <= rows,
            0 <= column < count,
    ;
    assert(0 <= q < chunk * cosets) by (nonlinear_arith)
        requires
            q == block * chunk + position,
            0 <= position < chunk,
            0 <= block,
            block + 1 <= cosets,
    ;
    assert(cosets <= 1 ==> q == position) by (nonlinear_arith)
        requires
            q == block * chunk + position,
            0 <= block < cosets,
    ;
    lemma_fundamental_div_mod_converse(q, chunk, block, position);
    lemma_fundamental_div_mod_converse(position, count, row, column);
}

/// A row lies in the messages if its entries do.
pub proof fn lemma_row_position(count: int, length: int, row: int, column: int)
    requires
        count > 0,
        0 <= column < count,
    ensures
        row < length <==> row * count + column < length * count,
        row * count + column - length * count == (row - length) * count + column,
{
    assert(row < length <==> row * count + column < length * count) by (nonlinear_arith)
        requires
            0 <= column < count,
    ;
    assert(row * count + column - length * count == (row - length) * count + column)
        by (nonlinear_arith);
}

/// A batch is laid out in a buffer with the same block for each coset: the messages column
/// by column, then the masks as they come, then zeros.
pub proof fn lemma_values_laid_out(
    messages: &[&[Fr]],
    masks: &[Fr],
    rows: usize,
    cosets: usize,
    total: usize,
    chunk: usize,
    result: Vec<Fr>,
    block: int,
    row: int,
    column: int,
)
    requires
        messages@.len() > 0,
        chunk == rows * messages@.len(),
        total == chunk * cosets,
        call_ensures(
            build_interleaved_host_values,
            (messages, masks, messages@[0]@.len() as usize, total, chunk, cosets),
            result,
        ),
        messages@[0]@.len() <= usize::MAX,
        0 <= block < cosets,
        0 <= row < rows,
        0 <= column < messages@.len(),
    ensures
        result@.len() == total,
        laid_out(
            messages@,
            masks@,
            row,
            column,
            result@[(block * rows + row) * messages@.len() + column],
        ),
{
    let count = messages@.len() as int;
    let length = messages@[0]@.len() as int;
    lemma_block_position(count, rows as int, cosets as int, block, row, column);
    lemma_row_position(count, length, row, column);
}

/// Both builders lay a batch out alike.
pub proof fn lemma_builders_agree(
    messages: &[&[Fr]],
    masks: &[Fr],
    codeword_length: usize,
    coset_size: usize,
    num_cosets: usize,
    total: usize,
    chunk: usize,
    buffer: Vec<Fr>,
    values: Vec<Fr>,
)
    requires
        messages@.len() > 0,
        messages@[0]@.len() <= usize::MAX,
        total == messages@.len() * codeword_length,
        chunk == coset_size * messages@.len(),
        call_ensures(
            build_interleaved_buffer,
            (messages, masks, codeword_length, coset_size, num_cosets),
            buffer,
        ),
        call_ensures(
            build_interleaved_host_values,
            (messages, masks, messages@[0]@.len() as usize, total, chunk, num_cosets),
            values,
        ),
    ensures
        buffer@ == values@,
{
}

/// A shape can be transformed if its rows are a power of two with a root of unity, its groups
/// a power of two that is no larger, and all rows of one width.
pub proof fn lemma_shapes(total: usize, length: usize, groups: usize, yes: bool)
    requires
        call_ensures(is_transform_shape, (total, length, groups), yes),
    ensures
        yes <==> {
            &&& exists|e: nat| e <= 28 && length == #[trigger] pow2(e)
            &&& exists|e: nat| groups == #[trigger] pow2(e)
            &&& groups <= length
            &&& exists|width: int| total == #[trigger] (width * length)
        },
{
    lemma2_to64();
    if is_pow2(length as int) {
        let e = bits::lemma_exponent(length as int);
        bits::lemma_power_order(28, e);
        lemma_pow2_pos(e);
        assert(length == pow2(e));
        lemma_fundamental_div_mod(total as int, length as int);
        lemma_mul_is_commutative(length as int, total as int / length as int);
        if total as int % length as int == 0 {
            assert(total == (total as int / length as int) * length);
        }
        if exists|width: int| total == #[trigger] (width * length) {
            let width = choose|width: int| total == #[trigger] (width * length);
            lemma_mod_multiples_basic(width, length as int);
        }
    }
    if is_pow2(groups as int) {
        let e = bits::lemma_exponent(groups as int);
        assert(groups == pow2(e));
    }
    if exists|e: nat| e <= 28 && length == #[trigger] pow2(e) {
        let e = choose|e: nat| e <= 28 && length == #[trigger] pow2(e);
        bits::lemma_is_power(e);
        bits::lemma_power_order(28, e);
    }
    if exists|e: nat| groups == #[trigger] pow2(e) {
        let e = choose|e: nat| groups == #[trigger] pow2(e);
        bits::lemma_is_power(e);
    }
}

/// The transform evaluates polynomials: of each column and each group of rows, the one whose
/// coefficients the rows held, at the evaluation points of the rows. With one group that is
/// the whole column.
pub proof fn lemma_transform_evaluates(
    values: &mut [Fr],
    length: usize,
    groups: usize,
    indices: &[usize],
    points: Vec<Fr>,
    i: int,
    size: nat,
    width: int,
    column: int,
)
    requires
        call_ensures(ntt_nr, (values, length, groups), ()),
        call_ensures(evaluation_points_impl, (length, indices), points),
        0 <= i < indices@.len(),
        indices@[i] < length,
        groups > 0,
        size > 0,
        size * groups == length,
        old(values)@.len() == width * length,
        0 <= column < width,
    ensures
        final(values)@.len() == old(values)@.len(),
        final(values)@[indices@[i] * width + column].valid(),
        final(values)@[indices@[i] * width + column]@ == poly::evaluate(
            Seq::new(
                size,
                |t: int|
                    old(values)@[((indices@[i] as int / size as int) * size + t) * width
                        + column]@,
            ),
            points@[i]@,
        ) % field::modulus(),
{
    let before = old(values)@;
    let row = indices@[i] as int;
    lemma_div_multiples_vanish(width, length as int);
    lemma_mul_is_commutative(length as int, width);
    assert(before.len() as int / length as int == width);
    lemma_div_multiples_vanish(size as int, groups as int);
    lemma_mul_is_commutative(groups as int, size as int);
    assert(length as nat / groups as nat == size);
    assert(transform::cell(final(values)@, width, row, column) == final(values)@[row * width
        + column]);
    let start = (row / size as int) * size;
    assert(transform::column_coefficients(before, width, start, size, column) =~= Seq::new(
        size,
        |t: int| before[((row / size as int) * size + t) * width + column]@,
    ));
    assert(0 <= row * width + column < width * length) by (nonlinear_arith)
        requires
            0 <= row,
            row + 1 <= length,
            0 <= column < width,
    ;
}

/// Transforming a copy is transforming in place.
pub proof fn lemma_transform_copies(
    values: &mut [Fr],
    copy: Vec<Fr>,
    length: usize,
    groups: usize,
    result: Vec<Fr>,
)
    requires
        call_ensures(ntt_nr, (values, length, groups), ()),
        call_ensures(transform_buffer, (copy, length, groups), result),
        copy@ == old(values)@,
        transform::transform_shape(copy@.len(), length as nat, groups as nat),
    ensures
        result@ == final(values)@,
{
    bits::lemma_power_positive(length as int);
    transform::lemma_transform_unique(
        copy@,
        result@,
        final(values)@,
        length as nat,
        groups as nat,
    );
}

/// A batch can be encoded exactly if its messages are of one length, the codeword length is
/// a power of two with a root of unity, and everything fits.
pub proof fn lemma_encodable_batches(
    messages: &[&[Fr]],
    masks: &[Fr],
    codeword_length: usize,
    yes: bool,
)
    requires
        call_ensures(is_encodable, (messages, masks, codeword_length), yes),
    ensures
        messages@.len() == 0 ==> yes,
        messages@.len() > 0 ==> (yes <==> fits_codewords(messages@, masks@, codeword_length)),
{
    if messages@.len() > 0 {
        if same_lengths(messages@) {
            assert forall|row: int| 0 <= row < messages@.len() implies (
            #[trigger] messages@[row])@.len() == messages@[0]@.len() by {}
        }
    }
}

/// In the codewords of a batch with whole rows of masks, entry `column` of a row is the value
/// of one polynomial at that row's evaluation point: the one whose coefficients are those of
/// message `column`, followed by column `column` of the masks.
pub proof fn lemma_encoding_evaluates(
    encoder: RSFr,
    messages: &[&[Fr]],
    masks: &[Fr],
    codeword_length: usize,
    masked_length: usize,
    indices: &[usize],
    points: Vec<Fr>,
    result: Vec<Fr>,
    mask_rows: nat,
    i: int,
    column: int,
)
    requires
        call_ensures(
            RSFr::interleaved_encode,
            (&encoder, messages, masks, codeword_length),
            result,
        ),
        call_ensures(
            RSFr::evaluation_points,
            (&encoder, masked_length, codeword_length, indices),
            points,
        ),
        0 <= i < indices@.len(),
        indices@[i] < codeword_length,
        0 <= column < messages@.len(),
        masks@.len() == mask_rows * messages@.len(),
    ensures
        result@.len() == messages@.len() * codeword_length,
        result@[indices@[i] * messages@.len() + column].valid(),
        result@[indices@[i] * messages@.len() + column]@ == poly::evaluate(
            Seq::new(
                messages@[0]@.len() + mask_rows,
                |t: int|
                    if t < messages@[0]@.len() {
                        messages@[column]@[t]@
                    } else {
                        masks@[(t - messages@[0]@.len()) * messages@.len() + column]@
                    },
            ),
            points@[i]@,
        ) % field::modulus(),
{
    let count = messages@.len() as int;
    let row = indices@[i] as int;
    lemma_mod_multiples_basic(mask_rows as int, count);
    lemma_div_multiples_vanish(mask_rows as int, count);
    lemma_mul_is_commutative(mask_rows as int, count);
    assert(reed_solomon::masked_message(messages@, masks@, column) =~= Seq::new(
        messages@[0]@.len() + mask_rows,
        |t: int|
            if t < messages@[0]@.len() {
                messages@[column]@[t]@
            } else {
                masks@[(t - messages@[0]@.len()) * messages@.len() + column]@
            },
    ));
    assert(transform::cell(result@, count, row, column) == result@[row * count + column]);
    assert(0 <= row * count + column < count * codeword_length) by (nonlinear_arith)
        requires
            0 <= row,
            row + 1 <= codeword_length,
            0 <= column < count,
    ;
}

/// No messages are encoded to nothing.
pub proof fn lemma_nothing_encoded(
    encoder: RSFr,
    messages: &[&[Fr]],
    masks: &[Fr],
    codeword_length: usize,
    result: Vec<Fr>,
)
    requires
        call_ensures(
            RSFr::interleaved_encode,
            (&encoder, messages, masks, codeword_length),
            result,
        ),
        messages@.len() == 0,
    ensures
        result@.len() == 0,
{
}

/// The transform that an encoding is given is handed the batch as it is laid out: blocks of
/// one power of two of rows that hold a masked message and make up the codeword, all alike;
/// the codeword length; and the number of blocks. What it gives is the result.
pub proof fn lemma_transform_handed_buffer<F: FnOnce(Vec<Fr>, usize, usize) -> Vec<Fr>>(
    messages: &[&[Fr]],
    masks: &[Fr],
    codeword_length: usize,
    ntt_impl: F,
    result: Vec<Fr>,
)
    requires
        call_ensures(
            interleaved_encode_impl::<F>,
            (messages, masks, codeword_length, ntt_impl),
            result,
        ),
        messages@.len() > 0,
        reed_solomon::batch_fits(messages@, masks@, codeword_length as nat),
    ensures
        exists|values: Vec<Fr>, cosets: usize, rows: int|
            {
                &&& #[trigger] ntt_impl.ensures((values, codeword_length, cosets), result)
                &&& values@.len() == messages@.len() * codeword_length
                &&& #[trigger] (rows * cosets) == codeword_length
                &&& is_pow2(rows)
                &&& messages@[0]@.len() + masks@.len() as int / messages@.len() as int <= rows
                &&& forall|block: int, row: int, column: int|
                    0 <= block < cosets && 0 <= row < rows && 0 <= column < messages@.len()
                        ==> laid_out(
                        messages@,
                        masks@,
                        row,
                        column,
                        #[trigger] values@[(block * rows + row) * messages@.len() + column],
                    )
            },
{
    let count = messages@.len() as int;
    let length = codeword_length as nat;
    let rows = reed_solomon::batch_coset_size(messages@, masks@, length);
    let number = reed_solomon::batch_cosets(messages@, masks@, length);
    let masked = messages@[0]@.len() + masks@.len() as int / count;
    let found = choose|size: int| #[trigger]
        layout::is_coset_size(size, masked, codeword_length as int) && count * size <= usize::MAX;
    layout::lemma_coset_size(found, masked, codeword_length as int);
    bits::lemma_power_positive(rows);
    lemma_fundamental_div_mod(codeword_length as int, rows);
    let (values, cosets) = choose|values: Vec<Fr>, cosets: usize|
        {
            &&& values@ == reed_solomon::batch_buffer(messages@, masks@, length)
            &&& cosets == number
            &&& #[trigger] ntt_impl.ensures((values, codeword_length, cosets), result)
        };
    assert forall|block: int, row: int, column: int|
        0 <= block < cosets && 0 <= row < rows && 0 <= column < count implies laid_out(
        messages@,
        masks@,
        row,
        column,
        #[trigger] values@[(block * rows + row) * messages@.len() + column],
    ) by {
        lemma_block_position(count, rows, cosets as int, block, row, column);
        lemma_row_position(count, messages@[0]@.len() as int, row, column);
        assert((rows * count) * cosets == count * length) by (nonlinear_arith)
            requires
                rows * cosets == length,
        ;
    }
    assert(rows * cosets == codeword_length);
}

/// The coefficient that a column has in a row of a block: that of its message, then what the
/// masks hold at that place, then zero.
pub open spec fn block_coefficient(
    messages: Seq<&[Fr]>,
    masks: Seq<Fr>,
    row: int,
    column: int,
) -> int {
    let length = messages[0]@.len() as int;
    let position = (row - length) * messages.len() + column;
    if row < length {
        messages[column]@[row]@
    } else if position < masks.len() {
        masks[position]@
    } else {
        0
    }
}

/// Whatever masks a batch has, also if they do not fill a row, each entry of its codewords is
/// the value of one polynomial at that row's evaluation point. It has as many coefficients as
/// the smallest power of two that holds a masked message.
pub proof fn lemma_any_encoding_evaluates(
    encoder: RSFr,
    messages: &[&[Fr]],
    masks: &[Fr],
    codeword_length: usize,
    masked_length: usize,
    indices: &[usize],
    points: Vec<Fr>,
    result: Vec<Fr>,
    order: Option<usize>,
    i: int,
    column: int,
)
    requires
        call_ensures(
            RSFr::interleaved_encode,
            (&encoder, messages, masks, codeword_length),
            result,
        ),
        call_ensures(
            RSFr::evaluation_points,
            (&encoder, masked_length, codeword_length, indices),
            points,
        ),
        messages@.len() > 0,
        fits_codewords(messages@, masks@, codeword_length),
        reed_solomon::messages_valid(messages@),
        transform::all_valid(masks@),
        masked_length == messages@[0]@.len() + masks@.len() as int / messages@.len() as int,
        call_ensures(RSFr::next_order, (&encoder, masked_length), order),
        0 <= i < indices@.len(),
        indices@[i] < codeword_length,
        0 <= column < messages@.len(),
    ensures
        order is Some,
        result@.len() == messages@.len() * codeword_length,
        result@[indices@[i] * messages@.len() + column].valid(),
        result@[indices@[i] * messages@.len() + column]@ == poly::evaluate(
            Seq::new(
                order->0 as nat,
                |t: int| block_coefficient(messages@, masks@, t, column),
            ),
            points@[i]@,
        ) % field::modulus(),
{
    let count = messages@.len() as int;
    let length = codeword_length as nat;
    let n = codeword_length as int;
    let row = indices@[i] as int;
    assert(reed_solomon::uniform(messages@)) by {
        assert forall|row: int| 0 <= row < messages@.len() implies (
        #[trigger] messages@[row])@.len() == messages@[0]@.len() by {}
    }
    reed_solomon::lemma_encodable(messages@, masks@, length);
    let size = reed_solomon::batch_coset_size(messages@, masks@, length);
    let cosets = reed_solomon::batch_cosets(messages@, masks@, length);
    assert(order is Some && order->0 == size);
    let buffer = reed_solomon::batch_buffer(messages@, masks@, length);
    lemma_div_multiples_vanish(count, n);
    lemma_mul_is_commutative(count, n);
    assert(buffer.len() as int / n == count);
    lemma_div_multiples_vanish(size, cosets);
    lemma_mul_is_commutative(size, cosets);
    assert(n / cosets == size);
    let block = row / size;
    lemma_multiply_divide_lt(row, size, cosets);
    lemma_div_pos_is_pos(row, size);
    assert(field::zero_element()@ == 0) by {
        assert(field::limbs_value(field::zero_element().limbs@) == 0);
        assert(0 * field::radix_inverse() == 0);
        lemma_small_mod(0, field::modulus() as nat);
    }
    let coefficients = transform::column_coefficients(
        buffer,
        count,
        block * size,
        size as nat,
        column,
    );
    let expected = Seq::new(
        size as nat,
        |t: int| block_coefficient(messages@, masks@, t, column),
    );
    assert((size * count) * cosets == count * n) by (nonlinear_arith)
        requires
            size * cosets == n,
    ;
    assert forall|t: int| 0 <= t < size implies coefficients[t] == expected[t] by {
        lemma_block_position(count, size, cosets, block, t, column);
        lemma_row_position(count, messages@[0]@.len() as int, t, column);
    }
    assert(coefficients =~= expected);
    assert(transform::cell(result@, count, row, column) == result@[row * count + column]);
    assert(0 <= row * count + column < count * n) by (nonlinear_arith)
        requires
            0 <= row,
            row + 1 <= n,
            0 <= column < count,
    ;
}

/// In a buffer of any size, each entry is that of one position: its own, or, as far as the
/// block is repeated, its position in the block. There stand the messages column by column,
/// then the masks as they come, then zeros.
pub proof fn lemma_values_anywhere(
    messages: &[&[Fr]],
    masks: &[Fr],
    message_length: usize,
    total: usize,
    chunk: usize,
    cosets: usize,
    result: Vec<Fr>,
    q: int,
    position: int,
)
    requires
        messages@.len() > 0,
        call_ensures(
            build_interleaved_host_values,
            (messages, masks, message_length, total, chunk, cosets),
            result,
        ),
        0 <= q < total,
        cosets > 1 ==> chunk > 0,
        cosets > 1 && q < chunk * cosets ==> 0 <= position < chunk && exists|times: int|
            q == #[trigger] (times * chunk) + position,
        !(cosets > 1 && q < chunk * cosets) ==> position == q,
    ensures
        result@.len() == total,
        position < message_length * messages@.len() ==> result@[q] == messages@[position
            % messages@.len() as int]@[position / messages@.len() as int],
        message_length * messages@.len() <= position < message_length * messages@.len()
            + masks@.len() ==> result@[q] == masks@[position - message_length * messages@.len()],
        position >= message_length * messages@.len() + masks@.len() ==> result@[q]
            == field::zero_element(),
{
    if cosets > 1 {
        lemma_fundamental_div_mod(q, chunk as int);
        lemma_mod_bound(q, chunk as int);
        assert(q < chunk * cosets <==> q / (chunk as int) < cosets) by (nonlinear_arith)
            requires
                q == chunk * (q / (chunk as int)) + q % chunk as int,
                0 <= q % chunk as int,
                q % (chunk as int) < chunk,
                chunk > 0,
        ;
        if q < chunk * cosets {
            let times = choose|times: int| q == #[trigger] (times * chunk) + position;
            lemma_fundamental_div_mod_converse(q, chunk as int, times, position);
        }
    }
}

} // verus!
