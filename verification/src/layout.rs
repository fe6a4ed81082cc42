//! The interleaved layout of messages before they are encoded.
use vstd::arithmetic::div_mod::*;
use vstd::arithmetic::mul::*;
use vstd::arithmetic::power2::*;
use vstd::prelude::*;

use crate::bits;
use crate::field;
use crate::field::Fr;

verus! {

/// The longest codeword: the largest power of two that is the order of a root of unity.
pub const MAX_CODEWORD_ORDER: usize = 0x1000_0000;

/// Whether `order` is the smallest power of two that is at least `size`.
pub open spec fn is_next_power(order: int, size: int) -> bool {
    &&& is_pow2(order)
    &&& size <= order
    &&& forall|other: int| #[trigger] is_pow2(other) && size <= other ==> order <= other
}

/// The smallest supported codeword length that holds `size` rows, if there is one.
pub fn next_order_impl(size: usize) -> (order: Option<usize>)
    requires
        size <= usize::MAX / 2 + 1,
    ensures
        match order {
            Some(order) => is_next_power(order as int, size as int) && order <= MAX_CODEWORD_ORDER,
            None => size > MAX_CODEWORD_ORDER,
        },
{
    let mut order: usize = 1;
    let ghost mut exponent: nat = 0;
    proof {
        lemma2_to64();
        bits::lemma_is_power(0);
        assert forall|other: int| #[trigger] is_pow2(other) && size <= other implies order
            <= other by {
            reveal(is_pow2);
        }
    }
    while order < size
        invariant
            order == pow2(exponent),
            order <= MAX_CODEWORD_ORDER,
            forall|other: int| #[trigger] is_pow2(other) && size <= other ==> order <= other,
        decreases MAX_CODEWORD_ORDER - order,
    {
        proof {
            lemma2_to64();
            bits::lemma_power_order(exponent, 28);
            lemma_pow2_unfold(exponent + 1);
            assert forall|other: int| #[trigger] is_pow2(other) && size <= other implies 2 * order
                <= other by {
                let e = bits::lemma_exponent(other);
                bits::lemma_power_order(exponent, e);
                bits::lemma_power_divides(exponent + 1, e);
            }
        }
        if order == MAX_CODEWORD_ORDER {
            return None;
        }
        proof {
            lemma2_to64();
            bits::lemma_power_divides(exponent + 1, 28);
            exponent = exponent + 1;
        }
        order = 2 * order;
    }
    proof {
        bits::lemma_is_power(exponent);
    }
    Some(order)
}

/// How a batch of messages is laid out for encoding.
#[derive(Clone, Copy, Debug)]
pub struct InterleavedLayout {
    pub coset_size: usize,
    pub num_cosets: usize,
    pub total_size: usize,
    pub chunk_size: usize,
}

/// Whether `size` is the smallest power of two that holds `rows` rows and divides the
/// codeword length.
pub open spec fn is_coset_size(size: int, rows: int, codeword_length: int) -> bool {
    &&& is_pow2(size)
    &&& rows <= size <= MAX_CODEWORD_ORDER
    &&& codeword_length % size == 0
    &&& forall|other: int|
        #[trigger] is_pow2(other) && rows <= other && codeword_length % other == 0 ==> size <= other
}

/// The smallest power of two that holds `rows` rows and divides the codeword length.
pub open spec fn coset_size(rows: int, codeword_length: int) -> int {
    choose|size: int| is_coset_size(size, rows, codeword_length)
}

/// There is only one smallest coset.
pub proof fn lemma_coset_size(size: int, rows: int, codeword_length: int)
    requires
        is_coset_size(size, rows, codeword_length),
    ensures
        coset_size(rows, codeword_length) == size,
{
    assert(is_coset_size(coset_size(rows, codeword_length), rows, codeword_length));
}

/// The smallest power of two that is at least `size`.
pub open spec fn next_power(size: nat) -> nat {
    pow2(bits::index_bits(size))
}

/// The next power of two is what its name says.
pub proof fn lemma_next_power(size: nat)
    ensures
        is_next_power(next_power(size) as int, size as int),
{
    let exponent = bits::index_bits(size);
    bits::lemma_index_bits_bound(size);
    bits::lemma_is_power(exponent);
    assert forall|other: int| #[trigger] is_pow2(other) && size <= other implies pow2(exponent)
        <= other by {
        let e = bits::lemma_exponent(other);
        bits::lemma_power_order(e, exponent);
        if e < exponent {
            lemma_pow2_unfold(exponent);
            bits::lemma_power_divides(e, (exponent - 1) as nat);
        }
    }
}

/// A codeword length that is a power of two is divided by the smallest power of two that
/// holds the rows.
pub proof fn lemma_power_length(rows: nat, codeword_length: nat) -> (size: int)
    requires
        is_pow2(codeword_length as int),
        rows <= codeword_length <= MAX_CODEWORD_ORDER,
    ensures
        is_coset_size(size, rows as int, codeword_length as int),
        is_next_power(size, rows as int),
        is_pow2(codeword_length as int / size),
        0 < size <= codeword_length,
        codeword_length as int / size <= codeword_length,
        size * (codeword_length as int / size) == codeword_length,
{
    let exponent = bits::index_bits(rows);
    let size = pow2(exponent) as int;
    lemma_next_power(rows);
    let e = bits::lemma_exponent(codeword_length as int);
    bits::lemma_power_order(e, exponent);
    bits::lemma_power_divides(exponent, e);
    bits::lemma_is_power((e - exponent) as nat);
    bits::lemma_power_divides((e - exponent) as nat, e);
    lemma_pow2_pos(exponent);
    size
}

/// Whether the messages fit into a codeword of the given length, and the whole batch into
/// memory.
pub open spec fn has_layout(
    num_messages: nat,
    message_length: nat,
    masks_len: nat,
    codeword_length: nat,
) -> bool {
    &&& num_messages > 0
    &&& message_length + masks_len / num_messages <= usize::MAX / 2 + 1
    &&& num_messages * codeword_length <= usize::MAX
    &&& exists|size: int|
        #[trigger] is_coset_size(
            size,
            (message_length + masks_len / num_messages) as int,
            codeword_length as int,
        ) && num_messages * size <= usize::MAX
}

/// What the layout of a batch is.
pub open spec fn is_layout(
    layout: InterleavedLayout,
    num_messages: nat,
    message_length: nat,
    masks_len: nat,
    codeword_length: nat,
) -> bool {
    &&& is_coset_size(
        layout.coset_size as int,
        (message_length + masks_len / num_messages) as int,
        codeword_length as int,
    )
    &&& layout.num_cosets == codeword_length / layout.coset_size as nat
    &&& layout.total_size == num_messages * codeword_length
    &&& layout.chunk_size == layout.coset_size * num_messages
}

/// Chooses the layout of a batch: the smallest coset that holds a masked message and
/// divides the codeword length.
pub fn interleaved_layout(
    num_messages: usize,
    message_length: usize,
    masks_len: usize,
    codeword_length: usize,
) -> (layout: InterleavedLayout)
    requires
        has_layout(
            num_messages as nat,
            message_length as nat,
            masks_len as nat,
            codeword_length as nat,
        ),
    ensures
        is_layout(
            layout,
            num_messages as nat,
            message_length as nat,
            masks_len as nat,
            codeword_length as nat,
        ),
{
    let rows: usize = message_length + masks_len / num_messages;
    let ghost target = choose|size: int|
        #[trigger] is_coset_size(size, rows as int, codeword_length as int) && num_messages * size
            <= usize::MAX;
    let mut coset_size: usize = next_order_impl(rows).unwrap();
    proof {
        bits::lemma_power_positive(coset_size as int);
    }
    while !codeword_length.is_multiple_of(coset_size)
        invariant
            is_coset_size(target, rows as int, codeword_length as int),
            is_pow2(coset_size as int),
            0 < coset_size <= target,
            rows <= coset_size,
            forall|other: int|
                #[trigger] is_pow2(other) && rows <= other && codeword_length as int % other == 0
                    ==> coset_size <= other,
        decreases target - coset_size,
    {
        proof {
            assert(is_pow2(target));
        }
        coset_size = next_order_impl(coset_size + 1).unwrap();
    }
    assert(target == coset_size);
    let num_cosets: usize = codeword_length / coset_size;
    proof {
        lemma_mul_is_commutative(num_messages as int, coset_size as int);
    }
    InterleavedLayout {
        coset_size,
        num_cosets,
        total_size: num_messages * codeword_length,
        chunk_size: coset_size * num_messages,
    }
}

/// What stands at a position before the block is repeated: the messages column by column,
/// then the masks, then zeros.
pub open spec fn base_entry(
    messages: Seq<&[Fr]>,
    masks: Seq<Fr>,
    message_length: nat,
    position: int,
) -> Fr {
    let count = messages.len() as int;
    let start = message_length * count;
    if position < start {
        messages[position % count]@[position / count]
    } else if position < start + masks.len() {
        masks[position - start]
    } else {
        field::zero_element()
    }
}

/// The interleaved buffer: its first block, repeated once for each coset.
pub open spec fn interleaved(
    messages: Seq<&[Fr]>,
    masks: Seq<Fr>,
    message_length: nat,
    total: nat,
    chunk_size: nat,
    num_cosets: nat,
) -> Seq<Fr> {
    Seq::new(
        total,
        |q: int|
            base_entry(
                messages,
                masks,
                message_length,
                if num_cosets > 1 && q / (chunk_size as int) < num_cosets {
                    q % chunk_size as int
                } else {
                    q
                },
            ),
    )
}

/// Lays out messages and masks in one buffer and repeats its first block for each coset.
pub fn build_interleaved_host_values(
    messages: &[&[Fr]],
    masks: &[Fr],
    message_length: usize,
    total_values: usize,
    chunk_size: usize,
    num_cosets: usize,
) -> (result: Vec<Fr>)
    requires
        messages@.len() > 0,
        forall|row: int|
            0 <= row < messages@.len() ==> (#[trigger] messages@[row])@.len() >= message_length,
        message_length * messages@.len() + masks@.len() <= total_values,
        num_cosets > 1 ==> {
            &&& 0 < chunk_size <= total_values
            &&& chunk_size * num_cosets <= total_values || total_values % chunk_size == 0
        },
    ensures
        result@ == interleaved(
            messages@,
            masks@,
            message_length as nat,
            total_values as nat,
            chunk_size as nat,
            num_cosets as nat,
        ),
{
    let count: usize = messages.len();
    let mut result: Vec<Fr> = Vec::new();
    let start: usize = message_length * count;
    let end: usize = start + masks.len();
    let mut q: usize = 0;
    while q < total_values
        invariant
            q <= total_values,
            count == messages@.len(),
            count > 0,
            forall|row: int|
                0 <= row < messages@.len() ==> (#[trigger] messages@[row])@.len()
                    >= message_length,
            start == message_length * count,
            end == start + masks@.len(),
            num_cosets > 1 ==> 0 < chunk_size,
            result@ == interleaved(
                messages@,
                masks@,
                message_length as nat,
                q as nat,
                chunk_size as nat,
                num_cosets as nat,
            ),
        decreases total_values - q,
    {
        let position: usize = if num_cosets > 1 && q / chunk_size < num_cosets {
            q % chunk_size
        } else {
            q
        };
        let entry: Fr = if position < start {
            proof {
                lemma_mul_is_commutative(message_length as int, count as int);
                lemma_multiply_divide_lt(position as int, count as int, message_length as int);
            }
            messages[position % count][position / count]
        } else if position < end {
            masks[position - start]
        } else {
            Fr::zero()
        };
        result.push(entry);
        q = q + 1;
    }
    result
}

} // verus!
