//! The transform of single polynomials on a device, and an encoder that uses it.
use vstd::arithmetic::div_mod::*;
use vstd::arithmetic::mul::*;
use vstd::arithmetic::power::pow;
use vstd::arithmetic::power2::*;
use vstd::prelude::*;

use crate::bits;
use crate::bits::{count_index_bits, is_power_of_two};
use crate::cuda::NttReply;
use crate::device;
use crate::device::check_reply;
use crate::error::{Error, Kernel, Setting};
use crate::field;
use crate::field::Fr;
use crate::limbs;
use crate::limbs::{fr_slice_as_u64, fr_slice_from_u64};
use crate::poly;
use crate::reed_solomon;
use crate::reed_solomon::{is_encodable, RSFr};
use crate::roots;
use crate::settings;
use crate::settings::{cached_lenient_number, EnvVar};
use crate::transform;

verus! {

/// The smallest codeword for the single-polynomial transform, by default.
pub const DEFAULT_MIN_CODEWORD: usize = 131072;

/// The first batch size that is too large for the single-polynomial transform, by default.
pub const DEFAULT_MAX_BATCH: usize = 32;

/// The order of the values before and after a transform: natural or bit-reversed.
#[derive(Clone, Copy, Debug)]
pub enum NttOrder {
    NN,
    NR,
    RN,
    RR,
}

/// The direction of a transform.
#[derive(Clone, Copy, Debug)]
pub enum NttDirection {
    Forward,
    Inverse,
}

/// Where a transform evaluates: at the roots of unity, or at a coset of them.
#[derive(Clone, Copy, Debug)]
pub enum NttType {
    Standard,
    Coset,
}

impl NttOrder {
    /// The number that the device knows the order by.
    pub open spec fn spec_code(self) -> u32 {
        match self {
            NttOrder::NN => 0,
            NttOrder::NR => 1,
            NttOrder::RN => 2,
            NttOrder::RR => 3,
        }
    }

    /// The number that the device knows the order by.
    pub fn code(&self) -> (code: u32)
        ensures
            code == self.spec_code(),
    {
        match self {
            NttOrder::NN => 0,
            NttOrder::NR => 1,
            NttOrder::RN => 2,
            NttOrder::RR => 3,
        }
    }
}

impl NttDirection {
    /// The number that the device knows the direction by.
    pub open spec fn spec_code(self) -> u32 {
        match self {
            NttDirection::Forward => 0,
            NttDirection::Inverse => 1,
        }
    }

    /// The number that the device knows the direction by.
    pub fn code(&self) -> (code: u32)
        ensures
            code == self.spec_code(),
    {
        match self {
            NttDirection::Forward => 0,
            NttDirection::Inverse => 1,
        }
    }
}

impl NttType {
    /// The number that the device knows the type by.
    pub open spec fn spec_code(self) -> u32 {
        match self {
            NttType::Standard => 0,
            NttType::Coset => 1,
        }
    }

    /// The number that the device knows the type by.
    pub fn code(&self) -> (code: u32)
        ensures
            code == self.spec_code(),
    {
        match self {
            NttType::Standard => 0,
            NttType::Coset => 1,
        }
    }
}

/// What is handed to the single-polynomial transform.
#[derive(Debug)]
pub struct SpparkLaunch {
    pub device_id: usize,
    pub values: Vec<u64>,
    pub lg_domain_size: u32,
    pub ntt_order: u32,
    pub ntt_direction: u32,
    pub ntt_type: u32,
}

/// Whether a launch is the one for given values and a given kind of transform.
pub open spec fn is_sppark_launch(
    launch: SpparkLaunch,
    input: Seq<Fr>,
    order: NttOrder,
    direction: NttDirection,
    ntt_type: NttType,
) -> bool {
    &&& launch.device_id == 0
    &&& launch.values@ == limbs::flattened(input)
    &&& pow2(launch.lg_domain_size as nat) == input.len()
    &&& launch.ntt_order == order.spec_code()
    &&& launch.ntt_direction == direction.spec_code()
    &&& launch.ntt_type == ntt_type.spec_code()
}

/// Whether a function can stand for the single-polynomial transform of given values: it
/// takes their launch, and on success it fills all values.
pub open spec fn is_sppark_kernel<K: Fn(SpparkLaunch) -> NttReply>(
    kernel: K,
    input: Seq<Fr>,
    order: NttOrder,
    direction: NttDirection,
    ntt_type: NttType,
) -> bool {
    &&& forall|launch: SpparkLaunch|
        is_sppark_launch(launch, input, order, direction, ntt_type)
            ==> #[trigger] kernel.requires((launch,))
    &&& forall|launch: SpparkLaunch, reply: NttReply|
        #[trigger] kernel.ensures((launch,), reply) && reply.status == device::CUDA_SUCCESS
            ==> reply.values@.len() == launch.values@.len()
}

/// Whether the device may turn values into others.
pub open spec fn turned_into<K: Fn(SpparkLaunch) -> NttReply>(
    kernel: K,
    input: Seq<Fr>,
    order: NttOrder,
    direction: NttDirection,
    ntt_type: NttType,
    output: Seq<Fr>,
) -> bool {
    exists|launch: SpparkLaunch, reply: NttReply|
        {
            &&& is_sppark_launch(launch, input, order, direction, ntt_type)
            &&& #[trigger] kernel.ensures((launch,), reply)
            &&& reply.status == device::CUDA_SUCCESS
            &&& output == limbs::hydrated(reply.values@)
        }
}

/// Whether the device may turn values into some others.
pub open spec fn succeeds_on<K: Fn(SpparkLaunch) -> NttReply>(
    kernel: K,
    input: Seq<Fr>,
    order: NttOrder,
    direction: NttDirection,
    ntt_type: NttType,
) -> bool {
    exists|output: Seq<Fr>|
        #[trigger] turned_into(kernel, input, order, direction, ntt_type, output)
}

/// Whether the device may fail on values.
pub open spec fn fails_on<K: Fn(SpparkLaunch) -> NttReply>(
    kernel: K,
    input: Seq<Fr>,
    order: NttOrder,
    direction: NttDirection,
    ntt_type: NttType,
    error: Error,
) -> bool {
    exists|launch: SpparkLaunch, reply: NttReply|
        {
            &&& is_sppark_launch(launch, input, order, direction, ntt_type)
            &&& #[trigger] kernel.ensures((launch,), reply)
            &&& reply.status != device::CUDA_SUCCESS
            &&& device::device_result(
                Kernel::SinglePolynomial,
                reply.status,
                reply.error_buffer@,
                Err(error),
            )
        }
}

/// Transforms values in place on the device. The number of values must be a power of two;
/// otherwise the device is not called.
pub fn sppark_ntt<K: Fn(SpparkLaunch) -> NttReply>(
    kernel: &K,
    values: &mut [Fr],
    order: NttOrder,
    direction: NttDirection,
    ntt_type: NttType,
) -> (result: Result<(), Error>)
    requires
        is_pow2(old(values)@.len() as int) ==> is_sppark_kernel(
            *kernel,
            old(values)@,
            order,
            direction,
            ntt_type,
        ),
    ensures
        final(values)@.len() == old(values)@.len(),
        if old(values)@.len() == 0 {
            result == Ok::<(), Error>(())
        } else if !is_pow2(old(values)@.len() as int) {
            &&& result == Err::<(), Error>(
                Error::TransformLength { length: old(values)@.len() as usize },
            )
            &&& final(values)@ == old(values)@
        } else {
            match result {
                Ok(_) => turned_into(
                    *kernel,
                    old(values)@,
                    order,
                    direction,
                    ntt_type,
                    final(values)@,
                ),
                Err(error) => {
                    &&& fails_on(*kernel, old(values)@, order, direction, ntt_type, error)
                    &&& final(values)@ == old(values)@
                },
            }
        },
{
    let length: usize = values.len();
    if length == 0 {
        return Ok(());
    }
    if !is_power_of_two(length) {
        return Err(Error::TransformLength { length });
    }
    proof {
        let exponent = bits::lemma_exponent(length as int);
        bits::lemma_index_bits_of_power(exponent);
    }
    let launch = SpparkLaunch {
        device_id: 0,
        values: fr_slice_as_u64(values),
        lg_domain_size: count_index_bits(length),
        ntt_order: order.code(),
        ntt_direction: direction.code(),
        ntt_type: ntt_type.code(),
    };
    let ghost sent = launch;
    let reply = kernel(launch);
    assert(is_sppark_launch(sent, old(values)@, order, direction, ntt_type));
    assert(kernel.ensures((sent,), reply));
    match check_reply(Kernel::SinglePolynomial, reply.status, reply.error_buffer.as_slice()) {
        Ok(()) => {
            fr_slice_from_u64(values, reply.values.as_slice());
            Ok(())
        },
        Err(error) => Err(error),
    }
}

/// The number of masks of each message.
pub open spec fn masks_per_message(messages: Seq<&[Fr]>, masks: Seq<Fr>) -> int {
    masks.len() as int / messages.len() as int
}

/// The coefficients of one message: the message, its run of the masks, and zeros.
pub open spec fn padded_message(
    messages: Seq<&[Fr]>,
    masks: Seq<Fr>,
    codeword_length: nat,
    row: int,
) -> Seq<Fr> {
    let length = messages[0]@.len();
    let count = masks_per_message(messages, masks);
    Seq::new(
        codeword_length,
        |t: int|
            if t < length {
                messages[row]@[t]
            } else if t < length + count {
                transform::cell(masks, count, row, t - length)
            } else {
                field::zero_element()
            },
    )
}

/// One column of an interleaved buffer.
pub open spec fn column_of(values: Seq<Fr>, width: int, length: nat, column: int) -> Seq<Fr> {
    Seq::new(length, |row: int| transform::cell(values, width, row, column))
}

/// Whether an error says which is the first message that is not as long as the first one.
pub open spec fn names_first_unequal(messages: Seq<&[Fr]>, error: Error) -> bool {
    exists|row: int|
        {
            &&& 0 <= row < messages.len()
            &&& (#[trigger] messages[row])@.len() != messages[0]@.len()
            &&& forall|i: int|
                0 <= i < row ==> (#[trigger] messages[i])@.len() == messages[0]@.len()
            &&& error == (Error::MessageLengths {
                first: messages[0]@.len() as usize,
                other: messages[row]@.len() as usize,
            })
        }
}

/// Writes one message, its masks and zeros over a buffer.
fn fill_padded(messages: &[&[Fr]], masks: &[Fr], row: usize, work: &mut Vec<Fr>)
    requires
        messages@.len() > 0,
        row < messages@.len(),
        reed_solomon::uniform(messages@),
        messages@[0]@.len() + masks_per_message(messages@, masks@) <= old(work)@.len(),
    ensures
        final(work)@ == padded_message(messages@, masks@, old(work)@.len(), row as int),
{
    let message_length: usize = messages[0].len();
    let masks_len: usize = masks.len();
    let count: usize = masks_len / messages.len();
    let total: usize = work.len();
    proof {
        lemma_fundamental_div_mod(masks@.len() as int, messages@.len() as int);
    }
    let mut t: usize = 0;
    while t < total
        invariant
            t <= total,
            total == work@.len(),
            row < messages@.len(),
            reed_solomon::uniform(messages@),
            message_length == messages@[0]@.len(),
            message_length + count <= total,
            count == masks_per_message(messages@, masks@),
            masks_len == masks@.len(),
            messages@.len() * count <= masks_len,
            forall|j: int|
                0 <= j < t ==> work@[j] == padded_message(
                    messages@,
                    masks@,
                    total as nat,
                    row as int,
                )[j],
        decreases total - t,
    {
        let entry: Fr = if t < message_length {
            assert(messages@[row as int]@.len() == message_length);
            messages[row][t]
        } else if t < message_length + count {
            proof {
                assert(row * count + (t - message_length) < messages@.len() * count)
                    by (nonlinear_arith)
                    requires
                        row + 1 <= messages@.len(),
                        0 <= t - message_length < count,
                ;
                assert(row * count >= 0) by (nonlinear_arith);
            }
            masks[row * count + (t - message_length)]
        } else {
            Fr::zero()
        };
        work.set(t, entry);
        t = t + 1;
    }
    assert(work@ =~= padded_message(messages@, masks@, total as nat, row as int));
}

/// Writes values into one column of an interleaved buffer.
fn scatter(work: &Vec<Fr>, result: &mut Vec<Fr>, width: usize, column: usize)
    requires
        column < width,
        old(result)@.len() == width * work@.len(),
    ensures
        final(result)@.len() == old(result)@.len(),
        column_of(final(result)@, width as int, work@.len(), column as int) == work@,
        forall|other: int|
            0 <= other < width && other != column ==> #[trigger] column_of(
                final(result)@,
                width as int,
                work@.len(),
                other,
            ) == column_of(old(result)@, width as int, work@.len(), other),
{
    let ghost before = result@;
    let length: usize = work.len();
    let total: usize = result.len();
    let mut row: usize = 0;
    while row < length
        invariant
            row <= length,
            length == work@.len(),
            column < width,
            total == width * length,
            result@.len() == total,
            before.len() == total,
            forall|r: int|
                0 <= r < row ==> #[trigger] transform::cell(
                    result@,
                    width as int,
                    r,
                    column as int,
                ) == work@[r],
            forall|r: int, other: int|
                0 <= r < length && 0 <= other < width && other != column
                    ==> #[trigger] transform::cell(result@, width as int, r, other)
                    == transform::cell(before, width as int, r, other),
        decreases length - row,
    {
        proof {
            assert(row * width + column < width * length) by (nonlinear_arith)
                requires
                    row + 1 <= length,
                    column < width,
            ;
            assert(row * width >= 0) by (nonlinear_arith);
        }
        let ghost earlier = result@;
        result.set(row * width + column, work[row]);
        proof {
            assert forall|r: int| 0 <= r < row + 1 implies #[trigger] transform::cell(
                result@,
                width as int,
                r,
                column as int,
            ) == work@[r] by {
                lemma_positions_differ(r, column as int, row as int, column as int, width as int);
                lemma_position_fits(r, column as int, length as int, width as int);
                assert(transform::cell(earlier, width as int, r, column as int)
                    == earlier[r * width + column]);
            }
            assert forall|r: int, other: int|
                0 <= r < length && 0 <= other < width && other
                    != column implies #[trigger] transform::cell(result@, width as int, r, other)
                == transform::cell(before, width as int, r, other) by {
                lemma_positions_differ(r, other, row as int, column as int, width as int);
                lemma_position_fits(r, other, length as int, width as int);
                assert(transform::cell(earlier, width as int, r, other) == earlier[r * width
                    + other]);
            }
        }
        row = row + 1;
    }
    assert(column_of(result@, width as int, work@.len(), column as int) =~= work@);
    assert forall|other: int| 0 <= other < width && other != column implies #[trigger] column_of(
        result@,
        width as int,
        work@.len(),
        other,
    ) == column_of(before, width as int, work@.len(), other) by {
        assert(column_of(result@, width as int, work@.len(), other) =~= column_of(
            before,
            width as int,
            work@.len(),
            other,
        ));
    }
}

/// Distinct entries of an interleaved buffer stand at distinct positions.
proof fn lemma_positions_differ(row: int, column: int, other_row: int, other_column: int, width: int)
    requires
        0 <= column < width,
        0 <= other_column < width,
    ensures
        row * width + column == other_row * width + other_column <==> row == other_row && column
            == other_column,
{
    if row * width + column == other_row * width + other_column {
        lemma_fundamental_div_mod_converse(row * width + column, width, row, column);
        lemma_fundamental_div_mod_converse(row * width + column, width, other_row, other_column);
    }
}

/// The entries of an interleaved buffer stand inside of it.
proof fn lemma_position_fits(row: int, column: int, length: int, width: int)
    requires
        0 <= row < length,
        0 <= column < width,
    ensures
        0 <= row * width + column < width * length,
{
    assert(0 <= row * width + column < width * length) by (nonlinear_arith)
        requires
            0 <= row,
            row + 1 <= length,
            0 <= column < width,
    ;
}

/// Whether a batch is encoded: it is not empty, the codeword length is a power of two, and
/// all messages are of one length and fit with their masks.
pub open spec fn sppark_accepts(
    messages: Seq<&[Fr]>,
    masks: Seq<Fr>,
    codeword_length: usize,
) -> bool {
    &&& messages.len() > 0
    &&& is_pow2(codeword_length as int)
    &&& reed_solomon::uniform(messages)
    &&& reed_solomon::masked_length(messages, masks) <= codeword_length
}

/// Whether a function can stand for the transforms of all messages of a batch.
pub open spec fn is_batch_kernel<K: Fn(SpparkLaunch) -> NttReply>(
    kernel: K,
    messages: Seq<&[Fr]>,
    masks: Seq<Fr>,
    codeword_length: usize,
) -> bool {
    forall|row: int|
        0 <= row < messages.len() ==> is_sppark_kernel(
            kernel,
            #[trigger] padded_message(messages, masks, codeword_length as nat, row),
            NttOrder::NR,
            NttDirection::Forward,
            NttType::Standard,
        )
}

/// Whether a batch fits into memory, as far as it is not refused for another reason.
pub open spec fn batch_in_memory(
    messages: Seq<&[Fr]>,
    masks: Seq<Fr>,
    codeword_length: usize,
) -> bool {
    &&& messages.len() > 0 && is_pow2(codeword_length as int) && reed_solomon::uniform(messages)
        ==> reed_solomon::masked_length(messages, masks) <= usize::MAX
    &&& sppark_accepts(messages, masks, codeword_length) ==> messages.len() * codeword_length
        <= usize::MAX
}

/// Whether the device may turn the messages before one of a batch into something, and then
/// fail on that one.
pub open spec fn first_failure<K: Fn(SpparkLaunch) -> NttReply>(
    kernel: K,
    messages: Seq<&[Fr]>,
    masks: Seq<Fr>,
    codeword_length: nat,
    row: int,
    error: Error,
) -> bool {
    &&& forall|earlier: int|
        0 <= earlier < row ==> succeeds_on(
            kernel,
            #[trigger] padded_message(messages, masks, codeword_length, earlier),
            NttOrder::NR,
            NttDirection::Forward,
            NttType::Standard,
        )
    &&& fails_on(
        kernel,
        padded_message(messages, masks, codeword_length, row),
        NttOrder::NR,
        NttDirection::Forward,
        NttType::Standard,
        error,
    )
}

/// What an encoding with the single-polynomial transform comes to: each padded message is
/// transformed from natural into bit-reversed order and becomes one column of the result. The
/// messages are transformed in order, and the error is that of the first one that fails.
pub open spec fn sppark_encoded<K: Fn(SpparkLaunch) -> NttReply>(
    kernel: K,
    messages: Seq<&[Fr]>,
    masks: Seq<Fr>,
    codeword_length: usize,
    result: Result<Vec<Fr>, Error>,
) -> bool {
    let width = messages.len() as int;
    let length = codeword_length as nat;
    if messages.len() == 0 {
        result matches Ok(values) && values@.len() == 0
    } else if !is_pow2(codeword_length as int) {
        result == Err::<Vec<Fr>, Error>(Error::CodewordLength { length: codeword_length })
    } else if !reed_solomon::uniform(messages) {
        result matches Err(error) && names_first_unequal(messages, error)
    } else if reed_solomon::masked_length(messages, masks) > codeword_length {
        result == Err::<Vec<Fr>, Error>(
            Error::MaskedTooLong {
                masked: reed_solomon::masked_length(messages, masks) as usize,
                codeword: codeword_length,
            },
        )
    } else {
        match result {
            Ok(values) => {
                &&& values@.len() == width * length
                &&& forall|row: int|
                    0 <= row < width ==> turned_into(
                        kernel,
                        #[trigger] padded_message(messages, masks, length, row),
                        NttOrder::NR,
                        NttDirection::Forward,
                        NttType::Standard,
                        column_of(values@, width, length, row),
                    )
            },
            Err(error) => exists|row: int|
                0 <= row < width && #[trigger] first_failure(
                    kernel,
                    messages,
                    masks,
                    length,
                    row,
                    error,
                ),
        }
    }
}

/// Encodes a batch of messages, one device transform for each. The codewords are
/// interleaved row by row; the masks stand message by message. The device is called only
/// for a batch that passes all checks.
pub fn interleaved_encode_sppark<K: Fn(SpparkLaunch) -> NttReply>(
    kernel: &K,
    messages: &[&[Fr]],
    masks: &[Fr],
    codeword_length: usize,
) -> (result: Result<Vec<Fr>, Error>)
    requires
        batch_in_memory(messages@, masks@, codeword_length),
        sppark_accepts(messages@, masks@, codeword_length) ==> is_batch_kernel(
            *kernel,
            messages@,
            masks@,
            codeword_length,
        ),
    ensures
        sppark_encoded(*kernel, messages@, masks@, codeword_length, result),
{
    if messages.len() == 0 {
        return Ok(Vec::new());
    }
    if !is_power_of_two(codeword_length) {
        return Err(Error::CodewordLength { length: codeword_length });
    }
    proof {
        bits::lemma_power_positive(codeword_length as int);
    }
    let num_messages: usize = messages.len();
    let message_length: usize = messages[0].len();
    let mut m: usize = 0;
    while m < num_messages
        invariant
            m <= num_messages,
            num_messages == messages@.len(),
            message_length == messages@[0]@.len(),
            codeword_length > 0,
            is_pow2(codeword_length as int),
            forall|i: int| 0 <= i < m ==> (#[trigger] messages@[i])@.len() == message_length,
        decreases num_messages - m,
    {
        let other: usize = messages[m].len();
        if other != message_length {
            proof {
                let error = Error::MessageLengths { first: message_length, other };
                assert(messages@[m as int]@.len() != messages@[0]@.len());
                assert(names_first_unequal(messages@, error));
            }
            return Err(Error::MessageLengths { first: message_length, other });
        }
        m = m + 1;
    }
    let masks_per_msg: usize = masks.len() / num_messages;
    let effective_msg_len: usize = message_length + masks_per_msg;
    if effective_msg_len > codeword_length {
        return Err(
            Error::MaskedTooLong { masked: effective_msg_len, codeword: codeword_length },
        );
    }
    let total: usize = num_messages * codeword_length;
    let mut result: Vec<Fr> = zeros(total);
    let mut work: Vec<Fr> = zeros(codeword_length);
    let mut row: usize = 0;
    while row < num_messages
        invariant
            row <= num_messages,
            num_messages == messages@.len(),
            num_messages > 0,
            is_pow2(codeword_length as int),
            codeword_length > 0,
            reed_solomon::uniform(messages@),
            reed_solomon::masked_length(messages@, masks@) <= codeword_length,
            is_batch_kernel(*kernel, messages@, masks@, codeword_length),
            total == num_messages * codeword_length,
            result@.len() == total,
            work@.len() == codeword_length,
            forall|r: int|
                0 <= r < row ==> turned_into(
                    *kernel,
                    #[trigger] padded_message(messages@, masks@, codeword_length as nat, r),
                    NttOrder::NR,
                    NttDirection::Forward,
                    NttType::Standard,
                    column_of(result@, num_messages as int, codeword_length as nat, r),
                ),
        decreases num_messages - row,
    {
        fill_padded(messages, masks, row, &mut work);
        match sppark_ntt(
            kernel,
            work.as_mut_slice(),
            NttOrder::NR,
            NttDirection::Forward,
            NttType::Standard,
        ) {
            Ok(()) => {},
            Err(error) => {
                proof {
                    let length = codeword_length as nat;
                    assert forall|earlier: int| 0 <= earlier < row implies succeeds_on(
                        *kernel,
                        #[trigger] padded_message(messages@, masks@, length, earlier),
                        NttOrder::NR,
                        NttDirection::Forward,
                        NttType::Standard,
                    ) by {
                        assert(turned_into(
                            *kernel,
                            padded_message(messages@, masks@, length, earlier),
                            NttOrder::NR,
                            NttDirection::Forward,
                            NttType::Standard,
                            column_of(result@, num_messages as int, length, earlier),
                        ));
                    }
                    assert(first_failure(
                        *kernel,
                        messages@,
                        masks@,
                        length,
                        row as int,
                        error,
                    ));
                }
                return Err(error);
            },
        }
        let ghost earlier = result@;
        scatter(&work, &mut result, num_messages, row);
        proof {
            assert forall|r: int| 0 <= r < row + 1 implies turned_into(
                *kernel,
                #[trigger] padded_message(messages@, masks@, codeword_length as nat, r),
                NttOrder::NR,
                NttDirection::Forward,
                NttType::Standard,
                column_of(result@, num_messages as int, codeword_length as nat, r),
            ) by {
                if r != row {
                    assert(column_of(result@, num_messages as int, codeword_length as nat, r)
                        == column_of(earlier, num_messages as int, codeword_length as nat, r));
                }
            }
        }
        row = row + 1;
    }
    Ok(result)
}

/// A buffer of zeros.
fn zeros(count: usize) -> (values: Vec<Fr>)
    ensures
        values@.len() == count,
        forall|i: int| 0 <= i < count ==> values@[i] == field::zero_element(),
{
    let mut values: Vec<Fr> = Vec::new();
    let mut i: usize = 0;
    while i < count
        invariant
            i <= count,
            values@.len() == i,
            forall|j: int| 0 <= j < i ==> values@[j] == field::zero_element(),
        decreases count - i,
    {
        values.push(Fr::zero());
        i = i + 1;
    }
    values
}

/// Brings the device up with a small transform, so that failures show early.
pub fn preflight_sppark<K: Fn(SpparkLaunch) -> NttReply>(kernel: &K) -> (result: Result<(), Error>)
    requires
        is_sppark_kernel(
            *kernel,
            Seq::new(8, |i: int| field::zero_element()),
            NttOrder::NN,
            NttDirection::Forward,
            NttType::Standard,
        ),
    ensures
        ({
            let probe = Seq::new(8, |i: int| field::zero_element());
            match result {
                Ok(_) => succeeds_on(
                    *kernel,
                    probe,
                    NttOrder::NN,
                    NttDirection::Forward,
                    NttType::Standard,
                ),
                Err(error) => fails_on(
                    *kernel,
                    probe,
                    NttOrder::NN,
                    NttDirection::Forward,
                    NttType::Standard,
                    error,
                ),
            }
        }),
{
    let mut probe: Vec<Fr> = zeros(8);
    proof {
        assert(probe@ =~= Seq::new(8, |i: int| field::zero_element()));
        lemma2_to64();
        bits::lemma_is_power(3);
    }
    sppark_ntt(
        kernel,
        probe.as_mut_slice(),
        NttOrder::NN,
        NttDirection::Forward,
        NttType::Standard,
    )
}

/// The settings that decide about the single-polynomial transform, as far as they were
/// read.
#[derive(Clone, Copy, Debug)]
pub struct SpparkSettings {
    pub min_codeword: Option<usize>,
    pub max_batch: Option<usize>,
}

impl SpparkSettings {
    /// Settings of which none was read.
    pub fn new() -> (settings: SpparkSettings)
        ensures
            settings.min_codeword is None,
            settings.max_batch is None,
    {
        SpparkSettings { min_codeword: None, max_batch: None }
    }
}

/// The smallest codeword for the single-polynomial transform.
pub fn env_threshold_codeword<E: Fn(Setting) -> EnvVar>(
    settings: &mut SpparkSettings,
    env: &E,
) -> (threshold: usize)
    requires
        old(settings).min_codeword is None ==> env.requires((Setting::SpparkMinCodeword,)),
    ensures
        settings::lenient_read_once(
            old(settings).min_codeword,
            final(settings).min_codeword,
            Setting::SpparkMinCodeword,
            DEFAULT_MIN_CODEWORD,
            *env,
            threshold,
        ),
        final(settings).max_batch == old(settings).max_batch,
{
    cached_lenient_number(
        &mut settings.min_codeword,
        Setting::SpparkMinCodeword,
        DEFAULT_MIN_CODEWORD,
        env,
    )
}

/// The first batch size that is too large for the single-polynomial transform.
pub fn env_max_batch<E: Fn(Setting) -> EnvVar>(settings: &mut SpparkSettings, env: &E) -> (max_batch:
    usize)
    requires
        old(settings).max_batch is None ==> env.requires((Setting::SpparkMaxBatch,)),
    ensures
        settings::lenient_read_once(
            old(settings).max_batch,
            final(settings).max_batch,
            Setting::SpparkMaxBatch,
            DEFAULT_MAX_BATCH,
            *env,
            max_batch,
        ),
        final(settings).min_codeword == old(settings).min_codeword,
{
    cached_lenient_number(
        &mut settings.max_batch,
        Setting::SpparkMaxBatch,
        DEFAULT_MAX_BATCH,
        env,
    )
}

/// Whether the settings that decide about a batch were read once, and what they say: the
/// batch must be small, and the codeword large.
pub open spec fn sppark_decided<E: Fn(Setting) -> EnvVar>(
    before: SpparkSettings,
    after: SpparkSettings,
    env: E,
    codeword_length: usize,
    num_messages: usize,
    decision: bool,
) -> bool {
    &&& after.max_batch matches Some(max_batch)
    &&& settings::lenient_read_once(
        before.max_batch,
        after.max_batch,
        Setting::SpparkMaxBatch,
        DEFAULT_MAX_BATCH,
        env,
        max_batch,
    )
    &&& if num_messages >= max_batch {
        &&& !decision
        &&& after.min_codeword == before.min_codeword
    } else {
        &&& after.min_codeword matches Some(threshold)
        &&& settings::lenient_read_once(
            before.min_codeword,
            after.min_codeword,
            Setting::SpparkMinCodeword,
            DEFAULT_MIN_CODEWORD,
            env,
            threshold,
        )
        &&& decision == (codeword_length >= threshold)
    }
}

/// Whether the settings that are needed to decide about a batch can be read, as far as they
/// were not: the smallest codeword is read only for a batch that is small enough.
pub open spec fn decision_granted<E: Fn(Setting) -> EnvVar>(
    settings: SpparkSettings,
    env: E,
    num_messages: int,
) -> bool {
    &&& settings.max_batch is None ==> env.requires((Setting::SpparkMaxBatch,))
    &&& settings.min_codeword is None ==> forall|max_batch: usize|
        #[trigger] settings::lenient_read_once(
            settings.max_batch,
            Some(max_batch),
            Setting::SpparkMaxBatch,
            DEFAULT_MAX_BATCH,
            env,
            max_batch,
        ) && num_messages < max_batch ==> env.requires((Setting::SpparkMinCodeword,))
}

/// Whether a batch may turn out to be one for the single-polynomial transform.
pub open spec fn may_use_sppark<E: Fn(Setting) -> EnvVar>(
    settings: SpparkSettings,
    env: E,
    codeword_length: usize,
    num_messages: int,
) -> bool {
    exists|after: SpparkSettings|
        #[trigger] sppark_decided(
            settings,
            after,
            env,
            codeword_length,
            num_messages as usize,
            true,
        )
}

/// Whether a batch is one for the single-polynomial transform.
pub fn should_use_sppark<E: Fn(Setting) -> EnvVar>(
    settings: &mut SpparkSettings,
    env: &E,
    codeword_length: usize,
    num_messages: usize,
) -> (decision: bool)
    requires
        decision_granted(*old(settings), *env, num_messages as int),
    ensures
        sppark_decided(
            *old(settings),
            *final(settings),
            *env,
            codeword_length,
            num_messages,
            decision,
        ),
{
    if num_messages >= env_max_batch(settings, env) {
        return false;
    }
    codeword_length >= env_threshold_codeword(settings, env)
}

/// What an encoding on the host comes to: the transform of the batch in its own cosets for
/// one that fits, whose masks stand row by row, and an error that names the shape otherwise.
pub open spec fn host_encoded(
    messages: Seq<&[Fr]>,
    masks: Seq<Fr>,
    codeword_length: usize,
    result: Result<Vec<Fr>, Error>,
) -> bool {
    let length = codeword_length as nat;
    if !reed_solomon::encodable(messages, masks, length) {
        result == Err::<Vec<Fr>, Error>(
            Error::BatchDoesNotFit {
                messages: messages.len() as usize,
                masks: masks.len() as usize,
                codeword: codeword_length,
            },
        )
    } else {
        &&& result matches Ok(values)
        &&& messages.len() == 0 ==> values@.len() == 0
        &&& messages.len() > 0 ==> transform::is_transform(
            reed_solomon::batch_buffer(messages, masks, length),
            values@,
            length,
            reed_solomon::batch_cosets(messages, masks, length) as nat,
        )
        &&& messages.len() > 0 && masks.len() % messages.len() == 0
            ==> reed_solomon::is_codeword(messages, masks, length, values@)
    }
}

/// Encodes a batch with the single-polynomial transform if it is one for it, and with the
/// encoder on the host otherwise. The masks have the order of the encoder that is used:
/// message by message for the single-polynomial transform, row by row on the host.
pub fn interleaved_encode_hybrid<E: Fn(Setting) -> EnvVar, K: Fn(SpparkLaunch) -> NttReply>(
    settings: &mut SpparkSettings,
    env: &E,
    kernel: &K,
    messages: &[&[Fr]],
    masks: &[Fr],
    codeword_length: usize,
) -> (result: Result<Vec<Fr>, Error>)
    requires
        decision_granted(*old(settings), *env, messages@.len() as int),
        may_use_sppark(*old(settings), *env, codeword_length, messages@.len() as int) ==> {
            &&& batch_in_memory(messages@, masks@, codeword_length)
            &&& sppark_accepts(messages@, masks@, codeword_length) ==> is_batch_kernel(
                *kernel,
                messages@,
                masks@,
                codeword_length,
            )
        },
        reed_solomon::messages_valid(messages@),
        transform::all_valid(masks@),
    ensures
        exists|decision: bool|
            {
                &&& #[trigger] sppark_decided(
                    *old(settings),
                    *final(settings),
                    *env,
                    codeword_length,
                    messages@.len() as usize,
                    decision,
                )
                &&& if decision {
                    sppark_encoded(*kernel, messages@, masks@, codeword_length, result)
                } else {
                    host_encoded(messages@, masks@, codeword_length, result)
                }
            },
{
    let num_messages: usize = messages.len();
    let decision: bool = should_use_sppark(settings, env, codeword_length, num_messages);
    assert(sppark_decided(
        *old(settings),
        *settings,
        *env,
        codeword_length,
        messages@.len() as usize,
        decision,
    ));
    if decision {
        interleaved_encode_sppark(kernel, messages, masks, codeword_length)
    } else if is_encodable(messages, masks, codeword_length) {
        Ok(RSFr.interleaved_encode(messages, masks, codeword_length))
    } else {
        Err(
            Error::BatchDoesNotFit {
                messages: num_messages,
                masks: masks.len(),
                codeword: codeword_length,
            },
        )
    }
}

/// Whether a device computes the transform from natural into bit-reversed order, given as
/// many limbs as the launch says that there are values.
pub open spec fn computes_reversed_order<K: Fn(SpparkLaunch) -> NttReply>(kernel: K) -> bool {
    forall|launch: SpparkLaunch, reply: NttReply|
        {
            &&& #[trigger] kernel.ensures((launch,), reply)
            &&& reply.status == device::CUDA_SUCCESS
            &&& launch.device_id == 0
            &&& launch.values@.len() == 4 * pow2(launch.lg_domain_size as nat)
            &&& launch.ntt_order == 1
            &&& launch.ntt_direction == 0
            &&& launch.ntt_type == 0
        } ==> transform::is_transform(
            limbs::hydrated(launch.values@),
            limbs::hydrated(reply.values@),
            pow2(launch.lg_domain_size as nat),
            1,
        )
}

/// The masks in the order in which they are interleaved: row by row rather than message by
/// message.
pub open spec fn transposed_masks(messages: Seq<&[Fr]>, masks: Seq<Fr>) -> Seq<Fr> {
    let count = masks_per_message(messages, masks);
    let width = messages.len() as int;
    Seq::new((count * width) as nat, |q: int| transform::cell(masks, count, q % width, q / width))
}

/// If the device transform is right, the encoder yields the codewords of the messages with
/// the transposed masks.
pub proof fn lemma_sppark_encodes<K: Fn(SpparkLaunch) -> NttReply>(
    kernel: K,
    messages: Seq<&[Fr]>,
    masks: Seq<Fr>,
    codeword_length: usize,
    result: Result<Vec<Fr>, Error>,
)
    requires
        messages.len() > 0,
        computes_reversed_order(kernel),
        sppark_encoded(kernel, messages, masks, codeword_length, result),
    ensures
        result matches Ok(values) ==> reed_solomon::is_codeword(
            messages,
            transposed_masks(messages, masks),
            codeword_length as nat,
            values@,
        ),
{
    if let Ok(values) = result {
        let width = messages.len() as int;
        let length = codeword_length as nat;
        let turned = transposed_masks(messages, masks);
        bits::lemma_power_positive(codeword_length as int);
        assert forall|q: int| 0 <= q < values@.len() implies (#[trigger] values@[q]).valid() by {
            let row = q / width;
            let column = q % width;
            lemma_fundamental_div_mod(q, width);
            lemma_div_pos_is_pos(q, width);
            lemma_multiply_divide_lt(q, width, length as int);
            lemma_mul_is_commutative(row, width);
            lemma_column_transformed(kernel, messages, masks, codeword_length, values, column);
            assert(column_of(values@, width, length, column)[row] == values@[q]);
        }
        assert forall|row: int, column: int|
            0 <= row < length && 0 <= column < width implies (#[trigger] transform::cell(
            values@,
            width,
            row,
            column,
        ))@ == poly::evaluate(
            reed_solomon::masked_message(messages, turned, column),
            roots::point(length, row as nat),
        ) % field::modulus() by {
            lemma_column_transformed(kernel, messages, masks, codeword_length, values, column);
            lemma_padded_coefficients(messages, masks, codeword_length, row, column);
            let output = column_of(values@, width, length, column);
            assert(transform::cell(output, 1, row, 0) == output[row]);
        }
    }
}

/// Each column of an encoding is the transform of its padded message.
proof fn lemma_column_transformed<K: Fn(SpparkLaunch) -> NttReply>(
    kernel: K,
    messages: Seq<&[Fr]>,
    masks: Seq<Fr>,
    codeword_length: usize,
    values: Vec<Fr>,
    column: int,
)
    requires
        messages.len() > 0,
        computes_reversed_order(kernel),
        sppark_encoded(kernel, messages, masks, codeword_length, Ok(values)),
        0 <= column < messages.len(),
    ensures
        transform::is_transform(
            padded_message(messages, masks, codeword_length as nat, column),
            column_of(values@, messages.len() as int, codeword_length as nat, column),
            codeword_length as nat,
            1,
        ),
        codeword_length as int / codeword_length as int == 1,
{
    let padded = padded_message(messages, masks, codeword_length as nat, column);
    limbs::lemma_flatten_round_trip(padded);
    bits::lemma_power_positive(codeword_length as int);
    lemma_div_by_self(codeword_length as int);
}

/// Each coefficient of a padded message is that of the message with the transposed masks,
/// or zero.
proof fn lemma_padded_entry(
    messages: Seq<&[Fr]>,
    masks: Seq<Fr>,
    codeword_length: usize,
    t: int,
    column: int,
)
    requires
        messages.len() > 0,
        0 <= t < codeword_length,
        0 <= column < messages.len(),
    ensures
        padded_message(messages, masks, codeword_length as nat, column)[t]@ == if t
            < reed_solomon::masked_length(messages, masks) {
            reed_solomon::masked_message(messages, transposed_masks(messages, masks), column)[t]
        } else {
            0
        },
        reed_solomon::masked_length(messages, transposed_masks(messages, masks))
            == reed_solomon::masked_length(messages, masks),
{
    let width = messages.len() as int;
    let count = masks_per_message(messages, masks);
    let turned = transposed_masks(messages, masks);
    let first = messages[0]@.len() as int;
    lemma_div_pos_is_pos(masks.len() as int, width);
    lemma_div_multiples_vanish(count, width);
    lemma_mul_is_commutative(count, width);
    assert(count * width >= 0) by (nonlinear_arith)
        requires
            count >= 0,
            width > 0,
    ;
    assert(turned.len() == count * width);
    if first <= t < first + count {
        let q = (t - first) * width + column;
        lemma_fundamental_div_mod_converse(q, width, t - first, column);
        lemma_position_fits(t - first, column, count, width);
        assert(turned[q] == transform::cell(masks, count, column, t - first));
    }
}

/// The coefficients of a padded message are those of the message with the transposed masks,
/// followed by zeros.
proof fn lemma_padded_coefficients(
    messages: Seq<&[Fr]>,
    masks: Seq<Fr>,
    codeword_length: usize,
    row: int,
    column: int,
)
    requires
        messages.len() > 0,
        codeword_length > 0,
        reed_solomon::uniform(messages),
        reed_solomon::masked_length(messages, masks) <= codeword_length,
        0 <= row < codeword_length,
        0 <= column < messages.len(),
    ensures
        transform::transformed(
            padded_message(messages, masks, codeword_length as nat, column),
            codeword_length as nat,
            1,
            row,
            0,
        ) == poly::evaluate(
            reed_solomon::masked_message(messages, transposed_masks(messages, masks), column),
            roots::point(codeword_length as nat, row as nat),
        ) % field::modulus(),
{
    let length = codeword_length as nat;
    let n = codeword_length as int;
    let turned = transposed_masks(messages, masks);
    let padded = padded_message(messages, masks, length, column);
    let rows = reed_solomon::masked_length(messages, masks);
    let low = reed_solomon::masked_message(messages, turned, column);
    let high = Seq::new((n - rows) as nat, |t: int| 0int);
    lemma_padded_entry(messages, masks, codeword_length, row, column);
    assert(padded.len() as int / n == 1) by {
        lemma_div_by_self(n);
    }
    assert(length / 1 == length) by {
        lemma_div_basics(n);
    }
    assert((row / n) * n == 0) by {
        lemma_basic_div(row, n);
        lemma_mul_basics(n);
    }
    let coefficients = transform::column_coefficients(padded, 1, 0, length, 0);
    assert forall|t: int| 0 <= t < n implies coefficients[t] == (low + high)[t] by {
        assert(transform::cell(padded, 1, t, 0) == padded[t]);
        lemma_padded_entry(messages, masks, codeword_length, t, column);
    }
    assert(coefficients =~= low + high);
    let point = roots::point(length, row as nat);
    assert(poly::evaluate(coefficients, point) == poly::evaluate(low, point)) by {
        poly::lemma_evaluate_parts(low, high, point);
        poly::lemma_evaluate_zeros(high, point);
        lemma_mul_basics(pow(point, low.len()));
    }
    assert(transform::transformed(padded, length, 1, row, 0) == poly::evaluate(coefficients, point)
        % field::modulus());
}

/// If the device transform is right, its encoder and the encoder that runs on the host,
/// given the transposed masks, agree limb for limb.
pub proof fn lemma_sppark_matches_host<K: Fn(SpparkLaunch) -> NttReply>(
    kernel: K,
    messages: Seq<&[Fr]>,
    masks: Seq<Fr>,
    codeword_length: usize,
    result: Result<Vec<Fr>, Error>,
    host: Seq<Fr>,
)
    requires
        messages.len() > 0,
        computes_reversed_order(kernel),
        sppark_encoded(kernel, messages, masks, codeword_length, result),
        reed_solomon::is_codeword(
            messages,
            transposed_masks(messages, masks),
            codeword_length as nat,
            host,
        ),
    ensures
        result matches Ok(values) ==> values@ == host,
{
    lemma_sppark_encodes(kernel, messages, masks, codeword_length, result);
    if let Ok(values) = result {
        reed_solomon::lemma_codeword_unique(
            messages,
            transposed_masks(messages, masks),
            codeword_length as nat,
            values@,
            host,
        );
    }
}

} // verus!
