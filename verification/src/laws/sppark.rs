//! Laws of the single-polynomial transform and its encoder.
use vstd::arithmetic::div_mod::*;
use vstd::arithmetic::mul::*;
use vstd::arithmetic::power2::*;
use vstd::prelude::*;

use crate::bits;
use crate::cuda::NttReply;
use crate::error::{Error, Setting};
use crate::field;
use crate::field::Fr;
use crate::laws::cuda_encode::{fits_codewords, same_lengths};
use crate::laws::settings::{always_set, never_set};
use crate::limbs;
use crate::reed_solomon;
use crate::reed_solomon::RSFr;
use crate::settings::EnvVar;
use crate::sppark;
use crate::sppark::{
    interleaved_encode_hybrid, interleaved_encode_sppark, preflight_sppark, sppark_ntt,
    NttDirection, NttOrder, NttType, SpparkLaunch, SpparkSettings,
};
use crate::transform;

verus! {

/// The device knows the four orders as 0 to 3, in the order natural to natural, natural to
/// reversed, reversed to natural, reversed to reversed; forward as 0 and inverse as 1; and
/// the roots of unity as 0 and a coset of them as 1.
pub proof fn lemma_codes(
    order: NttOrder,
    direction: NttDirection,
    ntt_type: NttType,
    order_code: u32,
    direction_code: u32,
    type_code: u32,
)
    requires
        call_ensures(NttOrder::code, (&order,), order_code),
        call_ensures(NttDirection::code, (&direction,), direction_code),
        call_ensures(NttType::code, (&ntt_type,), type_code),
    ensures
        order is NN <==> order_code == 0,
        order is NR <==> order_code == 1,
        order is RN <==> order_code == 2,
        order is RR <==> order_code == 3,
        direction is Forward <==> direction_code == 0,
        direction is Inverse <==> direction_code == 1,
        ntt_type is Standard <==> type_code == 0,
        ntt_type is Coset <==> type_code == 1,
{
}

/// Whether a launch asks for a transform of given values, and for the order, direction and
/// type that were asked for.
pub open spec fn asks_for(
    launch: SpparkLaunch,
    values: Seq<Fr>,
    order: NttOrder,
    direction: NttDirection,
    ntt_type: NttType,
) -> bool {
    &&& launch.device_id == 0
    &&& pow2(launch.lg_domain_size as nat) == values.len()
    &&& launch.values@.len() == 4 * values.len()
    &&& forall|i: int, j: int|
        0 <= i < values.len() && 0 <= j < 4 ==> #[trigger] launch.values@[4 * i + j]
            == values[i].limbs@[j]
    &&& launch.ntt_order == match order {
        NttOrder::NN => 0u32,
        NttOrder::NR => 1u32,
        NttOrder::RN => 2u32,
        NttOrder::RR => 3u32,
    }
    &&& launch.ntt_direction == match direction {
        NttDirection::Forward => 0u32,
        NttDirection::Inverse => 1u32,
    }
    &&& launch.ntt_type == match ntt_type {
        NttType::Standard => 0u32,
        NttType::Coset => 1u32,
    }
}

/// The launch for values asks for what was asked for.
proof fn lemma_asks_for(
    launch: SpparkLaunch,
    values: Seq<Fr>,
    order: NttOrder,
    direction: NttDirection,
    ntt_type: NttType,
)
    requires
        sppark::is_sppark_launch(launch, values, order, direction, ntt_type),
    ensures
        asks_for(launch, values, order, direction, ntt_type),
{
    assert forall|i: int, j: int| 0 <= i < values.len() && 0 <= j < 4 implies #[trigger]
    launch.values@[4 * i + j] == values[i].limbs@[j] by {
        assert((4 * i + j) / 4 == i && (4 * i + j) % 4 == j);
    }
}

/// Whatever order, direction and type are asked for, the device is asked for them: a launch
/// for the inverse transform carries the code of the inverse, for each type and each order.
/// The values become what the device gives back, and on a failure they stay as they were.
pub proof fn lemma_launch_asks<K: Fn(SpparkLaunch) -> NttReply>(
    kernel: K,
    values: &mut [Fr],
    order: NttOrder,
    direction: NttDirection,
    ntt_type: NttType,
    exponent: nat,
    result: Result<(), Error>,
)
    requires
        call_ensures(sppark_ntt::<K>, (&kernel, values, order, direction, ntt_type), result),
        old(values)@.len() == pow2(exponent),
    ensures
        exists|launch: SpparkLaunch, reply: NttReply|
            {
                &&& #[trigger] kernel.ensures((launch,), reply)
                &&& asks_for(launch, old(values)@, order, direction, ntt_type)
                &&& result is Ok <==> reply.status == 0
                &&& result is Ok ==> final(values)@ == limbs::hydrated(reply.values@)
                &&& result matches Err(error) ==> {
                    &&& error matches Error::Device { kernel, status, message: _ }
                    &&& kernel is SinglePolynomial
                    &&& status == reply.status
                    &&& final(values)@ == old(values)@
                }
            },
{
    bits::lemma_is_power(exponent);
    lemma_pow2_pos(exponent);
    assert forall|launch: SpparkLaunch| #[trigger]
        sppark::is_sppark_launch(launch, old(values)@, order, direction, ntt_type) implies asks_for(
        launch,
        old(values)@,
        order,
        direction,
        ntt_type,
    ) by {
        lemma_asks_for(launch, old(values)@, order, direction, ntt_type);
    }
    let (launch, reply) = choose|launch: SpparkLaunch, reply: NttReply|
        {
            &&& sppark::is_sppark_launch(launch, old(values)@, order, direction, ntt_type)
            &&& #[trigger] kernel.ensures((launch,), reply)
            &&& result is Ok <==> reply.status == 0
            &&& result is Ok ==> final(values)@ == limbs::hydrated(reply.values@)
            &&& result matches Err(error) ==> {
                &&& error matches Error::Device { kernel, status, message: _ }
                &&& kernel is SinglePolynomial
                &&& status == reply.status
            }
        };
    assert(kernel.ensures((launch,), reply));
}

/// Values whose number is not a power of two are refused with it and left as they were, and
/// no values are no work.
pub proof fn lemma_lengths_checked<K: Fn(SpparkLaunch) -> NttReply>(
    kernel: K,
    values: &mut [Fr],
    order: NttOrder,
    direction: NttDirection,
    ntt_type: NttType,
    result: Result<(), Error>,
)
    requires
        call_ensures(sppark_ntt::<K>, (&kernel, values, order, direction, ntt_type), result),
        old(values)@.len() <= usize::MAX,
    ensures
        final(values)@.len() == old(values)@.len(),
        old(values)@.len() == 0 ==> result is Ok,
        old(values)@.len() > 0 && !is_pow2(old(values)@.len() as int) ==> {
            &&& result matches Err(error)
            &&& error matches Error::TransformLength { length }
            &&& length == old(values)@.len()
            &&& final(values)@ == old(values)@
        },
        is_pow2(old(values)@.len() as int) && result is Err ==> result->Err_0 is Device,
{
}

/// Whether a device undoes with the inverse transform what it does with the forward one, from
/// natural into natural order and at the roots of unity.
pub open spec fn inverts<K: Fn(SpparkLaunch) -> NttReply>(kernel: K) -> bool {
    forall|there: SpparkLaunch, reply: NttReply, back: SpparkLaunch, again: NttReply|
        {
            &&& #[trigger] kernel.ensures((there,), reply)
            &&& #[trigger] kernel.ensures((back,), again)
            &&& reply.status == 0
            &&& again.status == 0
            &&& there.device_id == back.device_id
            &&& there.lg_domain_size == back.lg_domain_size
            &&& there.ntt_order == 0 && back.ntt_order == 0
            &&& there.ntt_direction == 0 && back.ntt_direction == 1
            &&& there.ntt_type == 0 && back.ntt_type == 0
            &&& back.values@ == reply.values@
        } ==> again.values@ == there.values@
}

/// On a device that undoes with the inverse transform what it does with the forward one,
/// transforming values forward and then back leaves them as they were.
pub proof fn lemma_forward_and_back<K: Fn(SpparkLaunch) -> NttReply>(
    kernel: K,
    values: &mut [Fr],
    later_values: &mut [Fr],
    exponent: nat,
    first: Result<(), Error>,
    second: Result<(), Error>,
)
    requires
        old(values)@.len() == pow2(exponent),
        inverts(kernel),
        forall|launch: SpparkLaunch, reply: NttReply|
            #[trigger] kernel.ensures((launch,), reply) && reply.status == 0
                ==> reply.values@.len() == launch.values@.len(),
        call_ensures(
            sppark_ntt::<K>,
            (&kernel, values, NttOrder::NN, NttDirection::Forward, NttType::Standard),
            first,
        ),
        old(later_values)@ == final(values)@,
        call_ensures(
            sppark_ntt::<K>,
            (&kernel, later_values, NttOrder::NN, NttDirection::Inverse, NttType::Standard),
            second,
        ),
        first is Ok,
        second is Ok,
    ensures
        final(later_values)@ == old(values)@,
{
    lemma_launch_asks(
        kernel,
        values,
        NttOrder::NN,
        NttDirection::Forward,
        NttType::Standard,
        exponent,
        first,
    );
    let (there, reply) = choose|launch: SpparkLaunch, reply: NttReply|
        {
            &&& #[trigger] kernel.ensures((launch,), reply)
            &&& asks_for(
                launch,
                old(values)@,
                NttOrder::NN,
                NttDirection::Forward,
                NttType::Standard,
            )
            &&& reply.status == 0
            &&& final(values)@ == limbs::hydrated(reply.values@)
        };
    lemma_launch_asks(
        kernel,
        later_values,
        NttOrder::NN,
        NttDirection::Inverse,
        NttType::Standard,
        exponent,
        second,
    );
    let (back, again) = choose|launch: SpparkLaunch, reply: NttReply|
        {
            &&& #[trigger] kernel.ensures((launch,), reply)
            &&& asks_for(
                launch,
                old(later_values)@,
                NttOrder::NN,
                NttDirection::Inverse,
                NttType::Standard,
            )
            &&& reply.status == 0
            &&& final(later_values)@ == limbs::hydrated(reply.values@)
        };
    bits::lemma_power_order(there.lg_domain_size as nat, back.lg_domain_size as nat);
    lemma_limbs_of(there.values@, old(values)@);
    lemma_limbs_of(back.values@, old(later_values)@);
    limbs::lemma_hydrate_round_trip(reply.values@);
    limbs::lemma_flatten_round_trip(old(values)@);
}

/// Limbs that stand where those of elements do are theirs.
proof fn lemma_limbs_of(flat: Seq<u64>, values: Seq<Fr>)
    requires
        flat.len() == 4 * values.len(),
        forall|i: int, j: int|
            0 <= i < values.len() && 0 <= j < 4 ==> #[trigger] flat[4 * i + j]
                == values[i].limbs@[j],
    ensures
        flat == limbs::flattened(values),
{
    assert forall|q: int| 0 <= q < flat.len() implies flat[q] == limbs::flattened(values)[q] by {
        assert(flat[4 * (q / 4) + q % 4] == values[q / 4].limbs@[q % 4]);
        assert(4 * (q / 4) + q % 4 == q);
    }
    assert(flat =~= limbs::flattened(values));
}

/// The preflight transforms eight zeros forward, in natural order and at the roots of unity,
/// and succeeds exactly if the device does.
pub proof fn lemma_preflight_transforms_zeros<K: Fn(SpparkLaunch) -> NttReply>(
    kernel: K,
    result: Result<(), Error>,
)
    requires
        call_ensures(preflight_sppark::<K>, (&kernel,), result),
    ensures
        exists|launch: SpparkLaunch, reply: NttReply|
            {
                &&& #[trigger] kernel.ensures((launch,), reply)
                &&& launch.device_id == 0
                &&& launch.lg_domain_size == 3
                &&& launch.values@.len() == 32
                &&& forall|q: int| 0 <= q < 32 ==> (#[trigger] launch.values@[q]) == 0
                &&& launch.ntt_order == 0
                &&& launch.ntt_direction == 0
                &&& launch.ntt_type == 0
                &&& result is Ok <==> reply.status == 0
            },
{
    let probe = Seq::new(8, |i: int| field::zero_element());
    let (launch, reply) = choose|launch: SpparkLaunch, reply: NttReply|
        {
            &&& sppark::is_sppark_launch(
                launch,
                probe,
                NttOrder::NN,
                NttDirection::Forward,
                NttType::Standard,
            )
            &&& #[trigger] kernel.ensures((launch,), reply)
            &&& result is Ok <==> reply.status == 0
        };
    lemma2_to64();
    bits::lemma_power_order(3, launch.lg_domain_size as nat);
    assert(kernel.ensures((launch,), reply));
    assert forall|q: int| 0 <= q < 32 implies (#[trigger] launch.values@[q]) == 0 by {
        assert(launch.values@[q] == probe[q / 4].limbs@[q % 4]);
    }
}

/// A batch is encoded by the device exactly if its messages are of one length and fit with
/// their masks into codewords whose length is a power of two; what else is wrong is said,
/// the first thing first.
pub proof fn lemma_sppark_batches_checked<K: Fn(SpparkLaunch) -> NttReply>(
    kernel: K,
    messages: &[&[Fr]],
    masks: &[Fr],
    codeword_length: usize,
    result: Result<Vec<Fr>, Error>,
)
    requires
        call_ensures(
            interleaved_encode_sppark::<K>,
            (&kernel, messages, masks, codeword_length),
            result,
        ),
        messages@.len() > 0 ==> messages@[0]@.len() + masks@.len() as int / messages@.len() as int
            <= usize::MAX,
        forall|i: int|
            0 <= i < messages@.len() ==> (#[trigger] messages@[i])@.len() <= usize::MAX,
    ensures
        messages@.len() == 0 ==> result is Ok && result->Ok_0@.len() == 0,
        messages@.len() > 0 && !is_pow2(codeword_length as int) ==> {
            &&& result matches Err(error)
            &&& error matches Error::CodewordLength { length }
            &&& length == codeword_length
        },
        messages@.len() > 0 && is_pow2(codeword_length as int) && !same_lengths(messages@) ==> {
            &&& result matches Err(error)
            &&& error matches Error::MessageLengths { first, other }
            &&& first == messages@[0]@.len()
            &&& exists|row: int|
                {
                    &&& 0 <= row < messages@.len()
                    &&& (#[trigger] messages@[row])@.len() == other
                    &&& first != other
                    &&& forall|i: int|
                        0 <= i < row ==> (#[trigger] messages@[i])@.len() == first
                }
        },
        messages@.len() > 0 && is_pow2(codeword_length as int) && same_lengths(messages@)
            && messages@[0]@.len() + masks@.len() as int / messages@.len() as int
            > codeword_length ==> {
            &&& result matches Err(error)
            &&& error matches Error::MaskedTooLong { masked, codeword }
            &&& masked == messages@[0]@.len() + masks@.len() as int / messages@.len() as int
            &&& codeword == codeword_length
        },
        messages@.len() > 0 && is_pow2(codeword_length as int) && same_lengths(messages@)
            && messages@[0]@.len() + masks@.len() as int / messages@.len() as int
            <= codeword_length ==> match result {
            Ok(values) => values@.len() == messages@.len() * codeword_length,
            Err(error) => error is Device,
        },
{
    if messages@.len() > 0 {
        if same_lengths(messages@) {
            assert forall|row: int| 0 <= row < messages@.len() implies (
            #[trigger] messages@[row])@.len() == messages@[0]@.len() by {}
        }
        if !same_lengths(messages@) && reed_solomon::uniform(messages@) {
            assert forall|i: int, j: int|
                0 <= i < messages@.len() && 0 <= j < messages@.len() implies (
            #[trigger] messages@[i])@.len() == (#[trigger] messages@[j])@.len() by {}
        }
    }
}

/// Whether masks are others with rows and messages exchanged: what stands row by row in the
/// one stands message by message in the other.
pub open spec fn exchanged(messages: Seq<&[Fr]>, masks: Seq<Fr>, turned: Seq<Fr>) -> bool {
    let count = masks.len() as int / messages.len() as int;
    &&& turned.len() == count * messages.len()
    &&& forall|row: int, column: int|
        0 <= row < count && 0 <= column < messages.len() ==> #[trigger] turned[row
            * messages.len() + column] == masks[column * count + row]
}

/// Exchanged masks are the transposed ones.
proof fn lemma_exchanged(messages: Seq<&[Fr]>, masks: Seq<Fr>, turned: Seq<Fr>)
    requires
        messages.len() > 0,
        exchanged(messages, masks, turned),
    ensures
        turned == sppark::transposed_masks(messages, masks),
{
    let count = masks.len() as int / messages.len() as int;
    let width = messages.len() as int;
    let expected = sppark::transposed_masks(messages, masks);
    lemma_div_pos_is_pos(masks.len() as int, width);
    assert(count * width >= 0) by (nonlinear_arith)
        requires
            count >= 0,
            width > 0,
    ;
    assert forall|q: int| 0 <= q < turned.len() implies turned[q] == expected[q] by {
        let row = q / width;
        let column = q % width;
        lemma_fundamental_div_mod(q, width);
        lemma_mod_bound(q, width);
        lemma_div_pos_is_pos(q, width);
        lemma_mul_is_commutative(count, width);
        lemma_multiply_divide_lt(q, width, count);
        lemma_mul_is_commutative(width, row);
        assert(turned[row * messages.len() + column] == masks[column * count + row]);
        assert(row * messages.len() + column == q);
    }
    assert(turned =~= expected);
}

/// A batch of messages of one length that fit with their masks is encoded: on a device that
/// never fails and computes the transform, the call succeeds, and what comes out is what the
/// encoder on the host makes of the messages and the masks with rows and messages exchanged.
pub proof fn lemma_sppark_encoding_succeeds<K: Fn(SpparkLaunch) -> NttReply>(
    kernel: K,
    messages: &[&[Fr]],
    masks: &[Fr],
    turned: &[Fr],
    codeword_length: usize,
    encoder: RSFr,
    result: Result<Vec<Fr>, Error>,
    host: Vec<Fr>,
)
    requires
        call_ensures(
            interleaved_encode_sppark::<K>,
            (&kernel, messages, masks, codeword_length),
            result,
        ),
        messages@.len() > 0,
        same_lengths(messages@),
        is_pow2(codeword_length as int),
        messages@[0]@.len() + masks@.len() as int / messages@.len() as int <= codeword_length,
        sppark::computes_reversed_order(kernel),
        forall|launch: SpparkLaunch, reply: NttReply| #[trigger]
            kernel.ensures((launch,), reply) ==> reply.status == 0,
        exchanged(messages@, masks@, turned@),
        call_ensures(
            RSFr::interleaved_encode,
            (&encoder, messages, turned, codeword_length),
            host,
        ),
    ensures
        result is Ok,
        result->Ok_0@ == host@,
{
    assert(reed_solomon::uniform(messages@)) by {
        assert forall|row: int| 0 <= row < messages@.len() implies (
        #[trigger] messages@[row])@.len() == messages@[0]@.len() by {}
    }
    assert(result is Ok);
    lemma_exchanged(messages@, masks@, turned@);
    let count = masks@.len() as int / messages@.len() as int;
    lemma_mod_multiples_basic(count, messages@.len() as int);
    sppark::lemma_sppark_matches_host(
        kernel,
        messages@,
        masks@,
        codeword_length,
        result,
        host@,
    );
}

/// Each message that the device is given is the message, its run of the masks and zeros, and
/// each column of the result is what came back for it.
pub proof fn lemma_sppark_columns<K: Fn(SpparkLaunch) -> NttReply>(
    kernel: K,
    messages: &[&[Fr]],
    masks: &[Fr],
    codeword_length: usize,
    result: Result<Vec<Fr>, Error>,
    column: int,
)
    requires
        call_ensures(
            interleaved_encode_sppark::<K>,
            (&kernel, messages, masks, codeword_length),
            result,
        ),
        result is Ok,
        0 <= column < messages@.len(),
    ensures
        exists|launch: SpparkLaunch, reply: NttReply, input: Seq<Fr>|
            {
                let length = messages@[0]@.len();
                let count = masks@.len() as int / messages@.len() as int;
                &&& #[trigger] kernel.ensures((launch,), reply)
                &&& #[trigger] asks_for(
                    launch,
                    input,
                    NttOrder::NR,
                    NttDirection::Forward,
                    NttType::Standard,
                )
                &&& input.len() == codeword_length
                &&& forall|t: int|
                    0 <= t < codeword_length ==> (#[trigger] input[t]) == if t < length {
                        messages@[column]@[t]
                    } else if t < length + count {
                        masks@[column * count + (t - length)]
                    } else {
                        field::zero_element()
                    }
                &&& reply.status == 0
                &&& forall|row: int|
                    0 <= row < codeword_length ==> #[trigger] limbs::hydrated(reply.values@)[row]
                        == result->Ok_0@[row * messages@.len() + column]
            },
{
    let input = sppark::padded_message(messages@, masks@, codeword_length as nat, column);
    let output = sppark::column_of(
        result->Ok_0@,
        messages@.len() as int,
        codeword_length as nat,
        column,
    );
    let (launch, reply) = choose|launch: SpparkLaunch, reply: NttReply|
        {
            &&& sppark::is_sppark_launch(
                launch,
                input,
                NttOrder::NR,
                NttDirection::Forward,
                NttType::Standard,
            )
            &&& #[trigger] kernel.ensures((launch,), reply)
            &&& reply.status == 0
            &&& output == limbs::hydrated(reply.values@)
        };
    lemma_asks_for(launch, input, NttOrder::NR, NttDirection::Forward, NttType::Standard);
    assert(kernel.ensures((launch,), reply));
    assert forall|row: int| 0 <= row < codeword_length implies #[trigger] limbs::hydrated(
        reply.values@,
    )[row] == result->Ok_0@[row * messages@.len() + column] by {
        assert(output[row] == result->Ok_0@[row * messages@.len() + column]);
    }
}

/// A batch that is not one for the single-polynomial transform is encoded on the host if it
/// fits, whatever the device would do, and refused with its shape if it does not.
pub proof fn lemma_hybrid_on_host<E: Fn(Setting) -> EnvVar, K: Fn(SpparkLaunch) -> NttReply>(
    settings: &mut SpparkSettings,
    env: E,
    kernel: K,
    messages: &[&[Fr]],
    masks: &[Fr],
    codeword_length: usize,
    max_batch: usize,
    min_codeword: usize,
    encoder: RSFr,
    host: Vec<Fr>,
    result: Result<Vec<Fr>, Error>,
)
    requires
        call_ensures(
            interleaved_encode_hybrid::<E, K>,
            (settings, &env, &kernel, messages, masks, codeword_length),
            result,
        ),
        0 < messages@.len() <= usize::MAX,
        masks@.len() <= usize::MAX,
        reed_solomon::messages_valid(messages@),
        transform::all_valid(masks@),
        match old(settings).max_batch {
            Some(kept) => max_batch == kept,
            None => {
                ||| never_set(env, Setting::SpparkMaxBatch) && max_batch == 32
                ||| always_set(env, Setting::SpparkMaxBatch, max_batch)
            },
        },
        match old(settings).min_codeword {
            Some(kept) => min_codeword == kept,
            None => {
                ||| never_set(env, Setting::SpparkMinCodeword) && min_codeword == 131072
                ||| always_set(env, Setting::SpparkMinCodeword, min_codeword)
            },
        },
        messages@.len() >= max_batch || codeword_length < min_codeword,
        fits_codewords(messages@, masks@, codeword_length) ==> call_ensures(
            RSFr::interleaved_encode,
            (&encoder, messages, masks, codeword_length),
            host,
        ),
    ensures
        fits_codewords(messages@, masks@, codeword_length) ==> result is Ok && result->Ok_0@
            == host@,
        !fits_codewords(messages@, masks@, codeword_length) ==> {
            &&& result matches Err(error)
            &&& error matches Error::BatchDoesNotFit {
                messages: number,
                masks: mask_number,
                codeword,
            }
            &&& number == messages@.len()
            &&& mask_number == masks@.len()
            &&& codeword == codeword_length
        },
{
    lemma_trimmed_settings(env, max_batch, min_codeword);
    lemma_uniform(messages@);
    if fits_codewords(messages@, masks@, codeword_length) {
        crate::cuda_encode::lemma_cuda_matches_host(
            messages@,
            masks@,
            codeword_length as nat,
            host@,
            result->Ok_0@,
        );
    }
}

/// A batch that is one for the single-polynomial transform goes to the device: what is said
/// of it there holds here.
pub proof fn lemma_hybrid_on_device<E: Fn(Setting) -> EnvVar, K: Fn(SpparkLaunch) -> NttReply>(
    settings: &mut SpparkSettings,
    env: E,
    kernel: K,
    messages: &[&[Fr]],
    masks: &[Fr],
    turned: &[Fr],
    codeword_length: usize,
    max_batch: usize,
    min_codeword: usize,
    encoder: RSFr,
    host: Vec<Fr>,
    result: Result<Vec<Fr>, Error>,
)
    requires
        call_ensures(
            interleaved_encode_hybrid::<E, K>,
            (settings, &env, &kernel, messages, masks, codeword_length),
            result,
        ),
        0 < messages@.len() <= usize::MAX,
        match old(settings).max_batch {
            Some(kept) => max_batch == kept,
            None => {
                ||| never_set(env, Setting::SpparkMaxBatch) && max_batch == 32
                ||| always_set(env, Setting::SpparkMaxBatch, max_batch)
            },
        },
        match old(settings).min_codeword {
            Some(kept) => min_codeword == kept,
            None => {
                ||| never_set(env, Setting::SpparkMinCodeword) && min_codeword == 131072
                ||| always_set(env, Setting::SpparkMinCodeword, min_codeword)
            },
        },
        messages@.len() < max_batch,
        codeword_length >= min_codeword,
        same_lengths(messages@),
        is_pow2(codeword_length as int),
        messages@[0]@.len() + masks@.len() as int / messages@.len() as int <= codeword_length,
        sppark::computes_reversed_order(kernel),
        forall|launch: SpparkLaunch, reply: NttReply| #[trigger]
            kernel.ensures((launch,), reply) ==> reply.status == 0,
        exchanged(messages@, masks@, turned@),
        call_ensures(
            RSFr::interleaved_encode,
            (&encoder, messages, turned, codeword_length),
            host,
        ),
    ensures
        result is Ok,
        result->Ok_0@ == host@,
{
    lemma_trimmed_settings(env, max_batch, min_codeword);
    lemma_uniform(messages@);
    assert(result is Ok);
    lemma_exchanged(messages@, masks@, turned@);
    let count = masks@.len() as int / messages@.len() as int;
    lemma_mod_multiples_basic(count, messages@.len() as int);
    sppark::lemma_sppark_matches_host(
        kernel,
        messages@,
        masks@,
        codeword_length,
        result,
        host@,
    );
}

/// Numbers in the environment have no white space around them.
proof fn lemma_trimmed_settings<E: Fn(Setting) -> EnvVar>(
    env: E,
    max_batch: usize,
    min_codeword: usize,
)
    ensures
        always_set(env, Setting::SpparkMaxBatch, max_batch) ==> forall|var: EnvVar| #[trigger]
            env.ensures((Setting::SpparkMaxBatch,), var) ==> crate::text::trimmed(var->Value_0@)
                == var->Value_0@,
        always_set(env, Setting::SpparkMinCodeword, min_codeword) ==> forall|var: EnvVar| #[trigger]
            env.ensures((Setting::SpparkMinCodeword,), var) ==> crate::text::trimmed(var->Value_0@)
                == var->Value_0@,
{
    if always_set(env, Setting::SpparkMaxBatch, max_batch) {
        assert forall|var: EnvVar| #[trigger]
            env.ensures((Setting::SpparkMaxBatch,), var) implies crate::text::trimmed(
            var->Value_0@,
        ) == var->Value_0@ by {
            crate::laws::text::lemma_number_is_trimmed(var->Value_0@);
        }
    }
    if always_set(env, Setting::SpparkMinCodeword, min_codeword) {
        assert forall|var: EnvVar| #[trigger]
            env.ensures((Setting::SpparkMinCodeword,), var) implies crate::text::trimmed(
            var->Value_0@,
        ) == var->Value_0@ by {
            crate::laws::text::lemma_number_is_trimmed(var->Value_0@);
        }
    }
}

/// A batch of equal messages is uniform.
proof fn lemma_uniform(messages: Seq<&[Fr]>)
    ensures
        messages.len() > 0 ==> (reed_solomon::uniform(messages) <==> same_lengths(messages)),
{
    if messages.len() > 0 && same_lengths(messages) {
        assert forall|row: int| 0 <= row < messages.len() implies (#[trigger] messages[row])@.len()
            == messages[0]@.len() by {}
    }
}

/// The messages of a batch are transformed in order: if one fails, those before it came back
/// from the device, and the error is the one of the message that failed.
pub proof fn lemma_first_failure<K: Fn(SpparkLaunch) -> NttReply>(
    kernel: K,
    messages: &[&[Fr]],
    masks: &[Fr],
    codeword_length: usize,
    result: Result<Vec<Fr>, Error>,
)
    requires
        call_ensures(
            interleaved_encode_sppark::<K>,
            (&kernel, messages, masks, codeword_length),
            result,
        ),
        result matches Err(error) && error is Device,
    ensures
        exists|failed: int|
            {
                &&& 0 <= failed < messages@.len()
                &&& #[trigger] replied(
                    kernel,
                    messages@,
                    masks@,
                    codeword_length,
                    failed,
                    result->Err_0->Device_status,
                )
                &&& result->Err_0->Device_status != 0
                &&& result->Err_0->Device_kernel is SinglePolynomial
                &&& forall|earlier: int|
                    0 <= earlier < failed ==> #[trigger] replied(
                        kernel,
                        messages@,
                        masks@,
                        codeword_length,
                        earlier,
                        0,
                    )
            },
{
    let error = result->Err_0;
    let length = codeword_length as nat;
    let failed = choose|row: int|
        0 <= row < messages@.len() && #[trigger] sppark::first_failure(
            kernel,
            messages@,
            masks@,
            length,
            row,
            error,
        );
    assert forall|launch: SpparkLaunch, row: int| #[trigger]
        sppark::is_sppark_launch(
            launch,
            sppark::padded_message(messages@, masks@, length, row),
            NttOrder::NR,
            NttDirection::Forward,
            NttType::Standard,
        ) implies is_for_message(launch, messages@, masks@, codeword_length, row) by {
        lemma_asks_for(
            launch,
            sppark::padded_message(messages@, masks@, length, row),
            NttOrder::NR,
            NttDirection::Forward,
            NttType::Standard,
        );
    }
    assert(replied(kernel, messages@, masks@, codeword_length, failed, error->Device_status));
    assert forall|earlier: int| 0 <= earlier < failed implies #[trigger] replied(
        kernel,
        messages@,
        masks@,
        codeword_length,
        earlier,
        0,
    ) by {
        assert(sppark::succeeds_on(
            kernel,
            sppark::padded_message(messages@, masks@, length, earlier),
            NttOrder::NR,
            NttDirection::Forward,
            NttType::Standard,
        ));
        let output = choose|output: Seq<Fr>| #[trigger]
            sppark::turned_into(
                kernel,
                sppark::padded_message(messages@, masks@, length, earlier),
                NttOrder::NR,
                NttDirection::Forward,
                NttType::Standard,
                output,
            );
    }
}

/// Whether a launch transforms one message of a batch from natural into reversed order: the
/// message, its run of the masks and zeros.
pub open spec fn is_for_message(
    launch: SpparkLaunch,
    messages: Seq<&[Fr]>,
    masks: Seq<Fr>,
    codeword_length: usize,
    row: int,
) -> bool {
    let length = messages[0]@.len();
    let count = masks.len() as int / messages.len() as int;
    asks_for(
        launch,
        Seq::new(
            codeword_length as nat,
            |t: int|
                if t < length {
                    messages[row]@[t]
                } else if t < length + count {
                    masks[row * count + (t - length)]
                } else {
                    field::zero_element()
                },
        ),
        NttOrder::NR,
        NttDirection::Forward,
        NttType::Standard,
    )
}

/// Whether the device may have replied to the transform of a message with a status.
pub open spec fn replied<K: Fn(SpparkLaunch) -> NttReply>(
    kernel: K,
    messages: Seq<&[Fr]>,
    masks: Seq<Fr>,
    codeword_length: usize,
    row: int,
    status: i32,
) -> bool {
    exists|launch: SpparkLaunch, reply: NttReply|
        {
            &&& #[trigger] kernel.ensures((launch,), reply)
            &&& is_for_message(launch, messages, masks, codeword_length, row)
            &&& reply.status == status
        }
}

} // verus!
