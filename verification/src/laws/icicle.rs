//! Laws of the column-batched transform and its encoder.
use vstd::arithmetic::div_mod::*;
use vstd::arithmetic::mul::*;
use vstd::prelude::*;

use crate::error::Error;
use crate::field;
use crate::field::Fr;
use crate::icicle;
use crate::icicle::{
    ark_to_icicle, ensure_domain_covers, icicle_to_ark, interleaved_encode_icicle,
    preflight_icicle, ColumnLaunch,
};
use crate::laws::cuda_encode::whole_mask_rows;
use crate::reed_solomon;
use crate::reed_solomon::RSFr;
use crate::transform;

verus! {

/// A domain that is large enough is left alone. Otherwise it is set up for exactly the
/// length that is needed: if that succeeds the domain has that length, and if not the error
/// says for which length and why, and the domain is as it was.
pub proof fn lemma_domain<I: FnOnce(u64) -> Result<(), String>>(
    domain_max: &mut u64,
    codeword_length: usize,
    initialize_domain: I,
    result: Result<(), Error>,
)
    requires
        call_ensures(
            ensure_domain_covers::<I>,
            (domain_max, codeword_length, initialize_domain),
            result,
        ),
    ensures
        *final(domain_max) >= *old(domain_max),
        result is Ok ==> *final(domain_max) >= codeword_length,
        *old(domain_max) >= codeword_length ==> result is Ok && *final(domain_max) == *old(
            domain_max,
        ),
        *old(domain_max) < codeword_length ==> exists|reply: Result<(), String>|
            {
                &&& #[trigger] initialize_domain.ensures((codeword_length as u64,), reply)
                &&& result is Ok <==> reply is Ok
                &&& result is Ok ==> *final(domain_max) == codeword_length
                &&& result matches Err(error) ==> {
                    &&& error matches Error::DomainFailed { size, reason }
                    &&& size == codeword_length
                    &&& reply == Err::<(), String>(reason)
                    &&& *final(domain_max) == *old(domain_max)
                }
            },
{
}

/// The preflight sets a domain of 256 up, unless there is one that is as large.
pub proof fn lemma_preflight_domain<I: FnOnce(u64) -> Result<(), String>>(
    domain_max: &mut u64,
    initialize_domain: I,
    result: Result<(), Error>,
)
    requires
        call_ensures(preflight_icicle::<I>, (domain_max, initialize_domain), result),
    ensures
        result is Ok ==> *final(domain_max) >= 256,
        *old(domain_max) >= 256 ==> result is Ok && *final(domain_max) == *old(domain_max),
        *old(domain_max) < 256 ==> exists|reply: Result<(), String>|
            {
                &&& #[trigger] initialize_domain.ensures((256u64,), reply)
                &&& result is Ok <==> reply is Ok
                &&& result is Ok ==> *final(domain_max) == 256
                &&& result matches Err(error) ==> {
                    &&& error matches Error::PreflightDomainFailed { size, reason }
                    &&& size == 256
                    &&& reply == Err::<(), String>(reason)
                    &&& *final(domain_max) == *old(domain_max)
                }
            },
{
}

/// Elements that are handed over as plain integers and read back are the same.
pub proof fn lemma_scalars_round_trip(
    elements: &[Fr],
    scalars: Vec<Vec<u8>>,
    read: &[Vec<u8>],
    back: Vec<Fr>,
)
    requires
        transform::all_valid(elements@),
        call_ensures(ark_to_icicle, (elements,), scalars),
        read@ == scalars@,
        call_ensures(icicle_to_ark, (read,), back),
    ensures
        back@ == elements@,
        forall|i: int| 0 <= i < scalars@.len() ==> (#[trigger] scalars@[i])@.len() == 32,
{
    assert forall|i: int| 0 <= i < elements@.len() implies back@[i] == elements@[i] by {
        assert(elements@[i].valid() && back@[i].valid());
        icicle::lemma_bytes_round_trip(elements@[i], scalars@[i]@, back@[i]);
    }
    assert(back@ =~= elements@);
}

/// Whether a launch transforms the first block of a batch, padded with zeros: one scalar for
/// each value, one column for each message, from natural into reversed order.
pub open spec fn launches_block(
    launch: ColumnLaunch,
    messages: Seq<&[Fr]>,
    masks: Seq<Fr>,
    codeword_length: usize,
    coset_size: usize,
) -> bool {
    let count = messages.len() as int;
    let length = messages[0]@.len() as int;
    &&& launch.columns_batch
    &&& launch.ordering is NR
    &&& launch.batch_size == count
    &&& launch.scalars@.len() == count * codeword_length
    &&& forall|row: int, column: int|
        0 <= row < codeword_length && 0 <= column < count ==> {
            let scalar = #[trigger] launch.scalars@[row * messages.len() + column];
            &&& scalar@.len() == 32
            &&& field::bytes_value(scalar@) == if row >= coset_size {
                0
            } else if row < length {
                messages[column]@[row]@
            } else if (row - length) * count + column < masks.len() {
                masks[(row - length) * count + column]@
            } else {
                0
            }
        }
}

/// The launch for a padded block is the one of the block.
proof fn lemma_launches_block(
    launch: ColumnLaunch,
    messages: Seq<&[Fr]>,
    masks: Seq<Fr>,
    codeword_length: usize,
    coset_size: usize,
    num_cosets: usize,
)
    requires
        0 < messages.len() <= i32::MAX,
        coset_size * num_cosets == codeword_length,
        codeword_length > 0,
        icicle::is_column_launch(
            launch,
            icicle::padded_block(
                icicle::repeated_buffer(
                    messages,
                    masks,
                    codeword_length,
                    coset_size,
                    num_cosets,
                ),
                coset_size as nat * messages.len(),
            ),
            messages.len(),
        ),
    ensures
        launches_block(launch, messages, masks, codeword_length, coset_size),
{
    let count = messages.len() as int;
    let length = messages[0]@.len() as int;
    let size = coset_size as int;
    let buffer = icicle::repeated_buffer(
        messages,
        masks,
        codeword_length,
        coset_size,
        num_cosets,
    );
    let padded = icicle::padded_block(buffer, coset_size as nat * messages.len());
    assert(size > 0 && num_cosets > 0) by (nonlinear_arith)
        requires
            size * num_cosets == codeword_length,
            codeword_length > 0,
            size >= 0,
            num_cosets >= 0,
    ;
    assert(field::zero_element()@ == 0) by {
        assert(field::limbs_value(field::zero_element().limbs@) == 0);
        assert(0 * field::radix_inverse() == 0);
        lemma_small_mod(0, field::modulus() as nat);
    }
    assert forall|row: int, column: int|
        0 <= row < codeword_length && 0 <= column < count implies {
        let scalar = #[trigger] launch.scalars@[row * messages.len() + column];
        &&& scalar@.len() == 32
        &&& field::bytes_value(scalar@) == if row >= coset_size {
            0
        } else if row < length {
            messages[column]@[row]@
        } else if (row - length) * count + column < masks.len() {
            masks[(row - length) * count + column]@
        } else {
            0
        }
    } by {
        let q = row * count + column;
        let chunk = size * count;
        assert(0 <= q < count * codeword_length) by (nonlinear_arith)
            requires
                q == row * count + column,
                0 <= row,
                row + 1 <= codeword_length,
                0 <= column < count,
        ;
        assert(row < size <==> q < chunk) by (nonlinear_arith)
            requires
                q == row * count + column,
                chunk == size * count,
                0 <= column < count,
        ;
        assert(row < length <==> q < length * count) by (nonlinear_arith)
            requires
                q == row * count + column,
                0 <= column < count,
        ;
        assert(q - length * count == (row - length) * count + column) by (nonlinear_arith)
            requires
                q == row * count + column,
        ;
        lemma_fundamental_div_mod_converse(q, count, row, column);
        if row < size {
            lemma_small_mod(q as nat, chunk as nat);
            assert(q % chunk == q);
            assert(padded[q] == buffer[q]);
        } else {
            assert(padded[q] == field::zero_element());
        }
        assert(field::bytes_value(launch.scalars@[q]@) == padded[q]@);
    }
}

/// If the domain covers the codewords, the device is launched on the batch: what comes back
/// is read as elements, and a failure is handed on with its reason.
pub proof fn lemma_columns_launched<
    I: FnOnce(u64) -> Result<(), String>,
    K: FnOnce(ColumnLaunch) -> Result<Vec<Vec<u8>>, String>,
>(
    domain_max: &mut u64,
    initialize_domain: I,
    kernel: K,
    messages: &[&[Fr]],
    masks: &[Fr],
    codeword_length: usize,
    coset_size: usize,
    num_cosets: usize,
    result: Result<Vec<Fr>, Error>,
)
    requires
        call_ensures(
            interleaved_encode_icicle::<I, K>,
            (
                domain_max,
                initialize_domain,
                kernel,
                messages,
                masks,
                codeword_length,
                coset_size,
                num_cosets,
            ),
            result,
        ),
        0 < messages@.len() <= i32::MAX,
        coset_size * num_cosets == codeword_length,
        codeword_length > 0,
        *final(domain_max) >= codeword_length,
    ensures
        *old(domain_max) >= codeword_length ==> *final(domain_max) == *old(domain_max),
        exists|launch: ColumnLaunch, reply: Result<Vec<Vec<u8>>, String>|
            {
                &&& #[trigger] kernel.ensures((launch,), reply)
                &&& launches_block(launch, messages@, masks@, codeword_length, coset_size)
                &&& result is Ok <==> reply is Ok
                &&& result matches Err(error) ==> {
                    &&& error matches Error::ColumnTransformFailed { reason }
                    &&& reply == Err::<Vec<Vec<u8>>, String>(reason)
                }
                &&& result matches Ok(values) ==> {
                    &&& values@.len() == reply->Ok_0@.len()
                    &&& forall|i: int|
                        0 <= i < values@.len() ==> (#[trigger] values@[i]).valid() && values@[i]@
                            == field::bytes_value(reply->Ok_0@[i]@) % field::modulus()
                }
            },
{
    let input = icicle::padded_block(
        icicle::repeated_buffer(messages@, masks@, codeword_length, coset_size, num_cosets),
        coset_size as nat * messages@.len(),
    );
    assert forall|launch: ColumnLaunch| #[trigger]
        icicle::is_column_launch(launch, input, messages@.len()) implies launches_block(
        launch,
        messages@,
        masks@,
        codeword_length,
        coset_size,
    ) by {
        lemma_launches_block(
            launch,
            messages@,
            masks@,
            codeword_length,
            coset_size,
            num_cosets,
        );
    }
    assert(icicle::columns_launched(kernel, input, messages@.len(), result));
}

/// A batch with whole rows of masks, whose cosets hold a masked message, is encoded: if the
/// domain is or can be set up and the device never fails and transforms columns right, the
/// call succeeds, the domain covers the codewords, and what comes out is what the encoder on
/// the host makes of the batch.
pub proof fn lemma_icicle_encoding_succeeds<
    I: FnOnce(u64) -> Result<(), String>,
    K: FnOnce(ColumnLaunch) -> Result<Vec<Vec<u8>>, String>,
>(
    domain_max: &mut u64,
    initialize_domain: I,
    kernel: K,
    messages: &[&[Fr]],
    masks: &[Fr],
    codeword_length: usize,
    coset_size: usize,
    num_cosets: usize,
    encoder: RSFr,
    result: Result<Vec<Fr>, Error>,
    host: Vec<Fr>,
)
    requires
        call_ensures(
            interleaved_encode_icicle::<I, K>,
            (
                domain_max,
                initialize_domain,
                kernel,
                messages,
                masks,
                codeword_length,
                coset_size,
                num_cosets,
            ),
            result,
        ),
        0 < messages@.len() <= i32::MAX,
        coset_size * num_cosets == codeword_length,
        codeword_length > 0,
        whole_mask_rows(messages@, masks@),
        messages@[0]@.len() + masks@.len() as int / messages@.len() as int <= coset_size,
        forall|reply: Result<(), String>| #[trigger]
            initialize_domain.ensures((codeword_length as u64,), reply) ==> reply is Ok,
        forall|launch: ColumnLaunch, reply: Result<Vec<Vec<u8>>, String>| #[trigger]
            kernel.ensures((launch,), reply) ==> reply is Ok,
        icicle::computes_columns(kernel),
        call_ensures(
            RSFr::interleaved_encode,
            (&encoder, messages, masks, codeword_length),
            host,
        ),
    ensures
        result is Ok,
        *final(domain_max) >= codeword_length,
        result->Ok_0@ == host@,
{
    let input = icicle::padded_block(
        icicle::repeated_buffer(messages@, masks@, codeword_length, coset_size, num_cosets),
        coset_size as nat * messages@.len(),
    );
    let rows = choose|rows: int| masks@.len() == #[trigger] (rows * messages@.len());
    lemma_mod_multiples_basic(rows, messages@.len() as int);
    assert(icicle::columns_launched(kernel, input, messages@.len(), result));
    assert(result is Ok);
    icicle::lemma_icicle_encodes(
        kernel,
        messages@,
        masks@,
        codeword_length,
        coset_size,
        num_cosets,
        result,
    );
    assert(coset_size > 0 && num_cosets > 0) by (nonlinear_arith)
        requires
            coset_size * num_cosets == codeword_length,
            codeword_length > 0,
            coset_size >= 0,
            num_cosets >= 0,
    ;
    reed_solomon::lemma_split_encodes(
        messages@,
        masks@,
        codeword_length as nat,
        coset_size as int,
        num_cosets as int,
        result->Ok_0@,
    );
    reed_solomon::lemma_codeword_unique(
        messages@,
        masks@,
        codeword_length as nat,
        result->Ok_0@,
        host@,
    );
}

/// A domain that cannot be set up is the error of the encoding, and no messages are encoded
/// to nothing.
pub proof fn lemma_icicle_needs_domain<
    I: FnOnce(u64) -> Result<(), String>,
    K: FnOnce(ColumnLaunch) -> Result<Vec<Vec<u8>>, String>,
>(
    domain_max: &mut u64,
    initialize_domain: I,
    kernel: K,
    messages: &[&[Fr]],
    masks: &[Fr],
    codeword_length: usize,
    coset_size: usize,
    num_cosets: usize,
    result: Result<Vec<Fr>, Error>,
)
    requires
        call_ensures(
            interleaved_encode_icicle::<I, K>,
            (
                domain_max,
                initialize_domain,
                kernel,
                messages,
                masks,
                codeword_length,
                coset_size,
                num_cosets,
            ),
            result,
        ),
    ensures
        messages@.len() == 0 ==> result is Ok && result->Ok_0@.len() == 0 && *final(domain_max)
            == *old(domain_max),
        messages@.len() > 0 && result is Ok ==> *final(domain_max) >= codeword_length,
        messages@.len() > 0 && *old(domain_max) < codeword_length && (forall|
            reply: Result<(), String>,
        | #[trigger]
            initialize_domain.ensures((codeword_length as u64,), reply) ==> reply is Err) ==> {
            &&& result matches Err(error)
            &&& error matches Error::DomainFailed { size, reason }
            &&& size == codeword_length
            &&& initialize_domain.ensures((codeword_length as u64,), Err(reason))
            &&& *final(domain_max) == *old(domain_max)
        },
{
}

} // verus!
