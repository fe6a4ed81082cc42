//! Interleaved Reed-Solomon encoding on a CUDA device.
use vstd::arithmetic::div_mod::*;
use vstd::arithmetic::mul::*;
use vstd::arithmetic::power2::*;
use vstd::prelude::*;
use vstd::string::StringExecFns;

use crate::bits;
use crate::bits::is_power_of_two;
use crate::cuda;
use crate::cuda::{
    ntt_nr_cuda_raw, release_guard_check, CudaState, LaunchShape, NttLaunch, NttReply,
};
use crate::device::DeviceReply;
use crate::error::{Error, Setting};
use crate::field;
use crate::field::Fr;
use crate::layout;
use crate::layout::{
    build_interleaved_host_values, interleaved_layout, next_order_impl, InterleavedLayout,
};
use crate::limbs;
use crate::limbs::{fr_slice_as_u64, fr_slice_from_u64};
use crate::reed_solomon;
use crate::reed_solomon::{transform_buffer, RSFr};
use crate::roots;
use crate::roots::{evaluation_points_impl, generator_impl};
use crate::settings;
use crate::settings::{
    cuda_ntt_policy, cuda_should_offload_codeword_size, CudaNttPolicy, CudaSettings, EnvVar,
};
use crate::transform;

verus! {

/// The first thing that is wrong with a batch and the cosets that it is to be encoded in.
pub open spec fn encode_check(
    messages: Seq<&[Fr]>,
    masks: Seq<Fr>,
    codeword_length: usize,
    coset_size: usize,
    num_cosets: usize,
) -> Option<Error> {
    let rows = reed_solomon::masked_length(messages, masks);
    if !reed_solomon::uniform(messages) {
        Some(Error::UnequalMessages)
    } else if masks.len() % messages.len() != 0 {
        Some(Error::UnevenMasks)
    } else if !is_pow2(codeword_length as int) {
        Some(Error::CodewordLengthNotPower)
    } else if coset_size == 0 || codeword_length % coset_size != 0 {
        Some(Error::UnevenCosets)
    } else if num_cosets != codeword_length / coset_size {
        Some(Error::CosetCount)
    } else if rows > layout::MAX_CODEWORD_ORDER || layout::next_power(rows as nat) > coset_size {
        Some(Error::CosetTooSmall)
    } else {
        None
    }
}

/// Looks for the first thing that is wrong with a batch and its cosets.
pub fn check_encode(
    messages: &[&[Fr]],
    masks: &[Fr],
    codeword_length: usize,
    coset_size: usize,
    num_cosets: usize,
) -> (error: Option<Error>)
    requires
        messages@.len() > 0,
        reed_solomon::masked_length(messages@, masks@) <= usize::MAX / 2 + 1,
    ensures
        error == encode_check(messages@, masks@, codeword_length, coset_size, num_cosets),
{
    let num_messages: usize = messages.len();
    let message_length: usize = messages[0].len();
    let mut row: usize = 0;
    while row < num_messages
        invariant
            row <= num_messages,
            num_messages == messages@.len(),
            num_messages > 0,
            message_length == messages@[0]@.len(),
            forall|i: int| 0 <= i < row ==> (#[trigger] messages@[i])@.len() == message_length,
        decreases num_messages - row,
    {
        if messages[row].len() != message_length {
            assert(!reed_solomon::uniform(messages@)) by {
                assert(messages@[row as int]@.len() != messages@[0]@.len());
            }
            return Some(Error::UnequalMessages);
        }
        row = row + 1;
    }
    if masks.len() % num_messages != 0 {
        return Some(Error::UnevenMasks);
    }
    if !is_power_of_two(codeword_length) {
        return Some(Error::CodewordLengthNotPower);
    }
    if coset_size == 0 || codeword_length % coset_size != 0 {
        return Some(Error::UnevenCosets);
    }
    if num_cosets != codeword_length / coset_size {
        return Some(Error::CosetCount);
    }
    proof {
        layout::lemma_next_power(reed_solomon::masked_length(messages@, masks@) as nat);
    }
    match next_order_impl(message_length + masks.len() / num_messages) {
        Some(order) => if order <= coset_size {
            None
        } else {
            Some(Error::CosetTooSmall)
        },
        None => Some(Error::CosetTooSmall),
    }
}

/// The buffer that a batch is laid out in, in the given cosets.
pub open spec fn coset_buffer(
    messages: Seq<&[Fr]>,
    masks: Seq<Fr>,
    codeword_length: usize,
    coset_size: usize,
    num_cosets: usize,
) -> Seq<Fr> {
    layout::interleaved(
        messages,
        masks,
        messages[0]@.len(),
        messages.len() * codeword_length as nat,
        coset_size as nat * messages.len(),
        num_cosets as nat,
    )
}

/// A batch that passed the check fits its buffer, and unless the codeword is too long to have
/// a root of unity, the buffer has a shape that can be transformed.
pub proof fn lemma_checked_shape(
    messages: Seq<&[Fr]>,
    masks: Seq<Fr>,
    codeword_length: usize,
    coset_size: usize,
    num_cosets: usize,
)
    requires
        messages.len() > 0,
        encode_check(messages, masks, codeword_length, coset_size, num_cosets) is None,
    ensures
        messages[0]@.len() * messages.len() + masks.len() <= messages.len() * codeword_length,
        coset_size * num_cosets == codeword_length,
        (coset_size * messages.len()) * num_cosets == messages.len() * codeword_length,
        0 < coset_size * messages.len() <= messages.len() * codeword_length,
        0 < num_cosets <= codeword_length,
        (messages.len() * codeword_length as nat) % num_cosets as nat == 0,
        codeword_length <= layout::MAX_CODEWORD_ORDER ==> transform::transform_shape(
            messages.len() * codeword_length as nat,
            codeword_length as nat,
            num_cosets as nat,
        ),
{
    let count = messages.len() as int;
    let length = messages[0]@.len() as int;
    let n = codeword_length as int;
    let size = coset_size as int;
    let cosets = num_cosets as int;
    let rows = reed_solomon::masked_length(messages, masks);
    let mask_rows = masks.len() as int / count;
    layout::lemma_next_power(rows as nat);
    let exponent = bits::lemma_exponent(n);
    bits::lemma_power_divisor(exponent, size);
    bits::lemma_power_positive(cosets);
    lemma_fundamental_div_mod(n, size);
    lemma_fundamental_div_mod(masks.len() as int, count);
    assert(size <= n && cosets <= n) by (nonlinear_arith)
        requires
            n == size * cosets,
            size > 0,
            cosets > 0,
    ;
    assert(length * count + masks.len() <= count * n) by (nonlinear_arith)
        requires
            masks.len() == count * mask_rows,
            length + mask_rows <= n,
            count > 0,
    ;
    assert((size * count) * cosets == count * n) by (nonlinear_arith)
        requires
            n == size * cosets,
    ;
    assert(0 < size * count <= count * n) by (nonlinear_arith)
        requires
            0 < size <= n,
            count > 0,
    ;
    lemma_mod_multiples_basic(count, n);
    lemma_mod_multiples_basic(count * size, cosets);
    assert((count * size) * cosets == count * n) by (nonlinear_arith)
        requires
            n == size * cosets,
    ;
}

/// A batch that passed the check fits its buffer, which is reduced if the batch is, and
/// unless the codeword is too long to have a root of unity, the buffer has a shape that can
/// be transformed.
pub proof fn lemma_checked_batch(
    messages: Seq<&[Fr]>,
    masks: Seq<Fr>,
    codeword_length: usize,
    coset_size: usize,
    num_cosets: usize,
)
    requires
        messages.len() > 0,
        encode_check(messages, masks, codeword_length, coset_size, num_cosets) is None,
        reed_solomon::messages_valid(messages),
        transform::all_valid(masks),
    ensures
        messages[0]@.len() * messages.len() + masks.len() <= messages.len() * codeword_length,
        coset_size * num_cosets == codeword_length,
        (coset_size * messages.len()) * num_cosets == messages.len() * codeword_length,
        0 < coset_size * messages.len() <= messages.len() * codeword_length,
        0 < num_cosets <= codeword_length,
        (messages.len() * codeword_length as nat) % num_cosets as nat == 0,
        codeword_length <= layout::MAX_CODEWORD_ORDER ==> transform::transform_shape(
            messages.len() * codeword_length as nat,
            codeword_length as nat,
            num_cosets as nat,
        ),
        transform::all_valid(
            coset_buffer(messages, masks, codeword_length, coset_size, num_cosets),
        ),
{
    lemma_checked_shape(messages, masks, codeword_length, coset_size, num_cosets);
    let buffer = coset_buffer(messages, masks, codeword_length, coset_size, num_cosets);
    let chunk = coset_size as int * messages.len();
    assert forall|q: int| 0 <= q < buffer.len() implies (#[trigger] buffer[q]).valid() by {
        let position = if num_cosets > 1 && q / chunk < num_cosets {
            q % chunk
        } else {
            q
        };
        lemma_mod_bound(q, chunk);
        reed_solomon::lemma_base_entry_valid(messages, masks, position);
    }
}

/// What the encoding of a laid out batch comes to once the size setting says that it is
/// offloaded.
pub open spec fn encode_offloaded<
    E: Fn(Setting) -> EnvVar,
    P: Fn(i32) -> DeviceReply,
    K: FnOnce(NttLaunch) -> NttReply,
>(
    before: CudaState,
    after: CudaState,
    env: E,
    preflight: P,
    kernel: K,
    buffer: Seq<Fr>,
    codeword_length: usize,
    num_cosets: usize,
    result: Result<Vec<Fr>, Error>,
) -> bool {
    let shape = LaunchShape {
        input_elements: buffer.len() as usize,
        total_values: buffer.len() as usize,
        codeword_size: codeword_length,
        num_groups: num_cosets,
    };
    &&& buffer.len() <= usize::MAX
    &&& after.preflight matches Some(ready)
    &&& cuda::preflight_once(before, after, env, preflight, ready)
    &&& match ready {
        Err(error) => result == Err::<Vec<Fr>, Error>(error),
        Ok(_) => {
            &&& after.settings.device matches Some(Ok(device))
            &&& exists|outcome: Result<Vec<u64>, Error>|
                {
                    &&& #[trigger] cuda::launched(
                        kernel,
                        device,
                        limbs::flattened(buffer),
                        shape,
                        outcome,
                    )
                    &&& match outcome {
                        Err(error) => result == Err::<Vec<Fr>, Error>(error),
                        Ok(limbs) => {
                            &&& after.settings.guard_stride matches Some(stride)
                            &&& settings::number_read_once(
                                before.settings.guard_stride,
                                after.settings.guard_stride,
                                Setting::GuardStride,
                                0,
                                env,
                                stride,
                            )
                            &&& match cuda::guard_decision(stride, limbs::hydrated(limbs@)) {
                                Err(error) => result == Err::<Vec<Fr>, Error>(error),
                                Ok(_) => {
                                    &&& result matches Ok(values)
                                    &&& values@ == limbs::hydrated(limbs@)
                                },
                            }
                        },
                    }
                }
        },
    }
}

/// What the encoding of a batch in the given cosets comes to: nothing for no messages, an
/// error for a batch that does not pass the check, the host transform for codewords that
/// are too small, and the device transform for the others.
pub open spec fn cuda_encoded<
    E: Fn(Setting) -> EnvVar,
    P: Fn(i32) -> DeviceReply,
    K: FnOnce(NttLaunch) -> NttReply,
>(
    before: CudaState,
    after: CudaState,
    env: E,
    preflight: P,
    kernel: K,
    messages: Seq<&[Fr]>,
    masks: Seq<Fr>,
    codeword_length: usize,
    coset_size: usize,
    num_cosets: usize,
    result: Result<Vec<Fr>, Error>,
) -> bool {
    if messages.len() == 0 {
        &&& result matches Ok(values)
        &&& values@.len() == 0
        &&& after == before
    } else if let Some(error) = encode_check(
        messages,
        masks,
        codeword_length,
        coset_size,
        num_cosets,
    ) {
        &&& result == Err::<Vec<Fr>, Error>(error)
        &&& after == before
    } else {
        let buffer = coset_buffer(messages, masks, codeword_length, coset_size, num_cosets);
        let read_size = CudaState {
            settings: CudaSettings {
                min_codeword_size: after.settings.min_codeword_size,
                ..before.settings
            },
            ..before
        };
        &&& after.settings.min_codeword_size matches Some(minimum)
        &&& settings::number_read_once(
            before.settings.min_codeword_size,
            after.settings.min_codeword_size,
            Setting::MinCodewordSize,
            settings::DEFAULT_MIN_CODEWORD_SIZE,
            env,
            minimum,
        )
        &&& match settings::size_decision(minimum, codeword_length) {
            Err(error) => result == Err::<Vec<Fr>, Error>(error) && after == read_size,
            Ok(false) => {
                &&& result matches Ok(values)
                &&& transform::is_transform(
                    buffer,
                    values@,
                    codeword_length as nat,
                    num_cosets as nat,
                )
                &&& after == read_size
            },
            Ok(true) => encode_offloaded(
                before,
                after,
                env,
                preflight,
                kernel,
                buffer,
                codeword_length,
                num_cosets,
                result,
            ),
        }
    }
}

/// Whether the device can be brought up as far as it has to be, and then transform.
pub open spec fn device_granted<
    E: Fn(Setting) -> EnvVar,
    P: Fn(i32) -> DeviceReply,
    K: FnOnce(NttLaunch) -> NttReply,
>(state: CudaState, env: E, preflight: P, kernel: K) -> bool {
    &&& cuda::probe_granted(state, env, preflight)
    &&& cuda::may_be_up(state, env, preflight) ==> {
        &&& cuda::is_transform_kernel(kernel)
        &&& state.settings.guard_stride is None ==> env.requires((Setting::GuardStride,))
    }
}

/// Whether what the encoding of a batch in the given cosets needs is there: nothing for a
/// batch that is refused, and no device for codewords that are too small.
pub open spec fn encode_granted<
    E: Fn(Setting) -> EnvVar,
    P: Fn(i32) -> DeviceReply,
    K: FnOnce(NttLaunch) -> NttReply,
>(
    state: CudaState,
    env: E,
    preflight: P,
    kernel: K,
    messages: Seq<&[Fr]>,
    masks: Seq<Fr>,
    codeword_length: usize,
    coset_size: usize,
    num_cosets: usize,
) -> bool {
    let minimum = state.settings.min_codeword_size;
    messages.len() > 0 && encode_check(
        messages,
        masks,
        codeword_length,
        coset_size,
        num_cosets,
    ) is None ==> {
        &&& minimum is None ==> env.requires((Setting::MinCodewordSize,))
        &&& settings::may_offload(minimum, env, codeword_length) ==> device_granted(
            state,
            env,
            preflight,
            kernel,
        )
    }
}

/// Transforms a laid out batch on the device, and checks what comes back.
fn encode_on_device<
    E: Fn(Setting) -> EnvVar,
    P: Fn(i32) -> DeviceReply,
    K: FnOnce(NttLaunch) -> NttReply,
>(
    state: &mut CudaState,
    env: &E,
    preflight: &P,
    kernel: K,
    buffer: Vec<Fr>,
    codeword_length: usize,
    num_cosets: usize,
) -> (result: Result<Vec<Fr>, Error>)
    requires
        old(state).wf(),
        device_granted(*old(state), *env, *preflight, kernel),
        buffer@.len() > 0,
        num_cosets > 0,
        buffer@.len() % num_cosets as nat == 0,
        is_pow2(codeword_length as int),
        cuda::may_be_up(*old(state), *env, *preflight) ==> codeword_length
            <= layout::MAX_CODEWORD_ORDER,
    ensures
        final(state).wf(),
        final(state).settings.policy == old(state).settings.policy,
        final(state).settings.min_codeword_size == old(state).settings.min_codeword_size,
        old(state).flattened_roots@.dom().subset_of(final(state).flattened_roots@.dom()),
        encode_offloaded(
            *old(state),
            *final(state),
            *env,
            *preflight,
            kernel,
            buffer@,
            codeword_length,
            num_cosets,
            result,
        ),
{
    let mut values = buffer;
    let total_values: usize = values.len();
    let shape = LaunchShape {
        input_elements: total_values,
        total_values,
        codeword_size: codeword_length,
        num_groups: num_cosets,
    };
    let limbs = fr_slice_as_u64(values.as_slice());
    match ntt_nr_cuda_raw(state, env, preflight, kernel, limbs, shape) {
        Ok(limbs) => {
            proof {
                cuda::lemma_came_up(*old(state), *state, *env, *preflight, state.preflight->0);
            }
            fr_slice_from_u64(values.as_mut_slice(), limbs.as_slice());
        },
        Err(error) => {
            return Err(error);
        },
    }
    match release_guard_check(&mut state.settings, env, values.as_slice()) {
        Ok(()) => Ok(values),
        Err(error) => Err(error),
    }
}

/// Encodes a batch in the given cosets: on the device, or on the host if the codeword is
/// too small to be offloaded. The device is not called for a batch that is refused or stays
/// on the host.
pub fn interleaved_encode_cuda<
    E: Fn(Setting) -> EnvVar,
    P: Fn(i32) -> DeviceReply,
    K: FnOnce(NttLaunch) -> NttReply,
>(
    state: &mut CudaState,
    env: &E,
    preflight: &P,
    kernel: K,
    messages: &[&[Fr]],
    masks: &[Fr],
    codeword_length: usize,
    coset_size: usize,
    num_cosets: usize,
) -> (result: Result<Vec<Fr>, Error>)
    requires
        old(state).wf(),
        encode_granted(
            *old(state),
            *env,
            *preflight,
            kernel,
            messages@,
            masks@,
            codeword_length,
            coset_size,
            num_cosets,
        ),
        reed_solomon::messages_valid(messages@),
        transform::all_valid(masks@),
        messages@.len() > 0 ==> reed_solomon::masked_length(messages@, masks@) <= usize::MAX / 2
            + 1,
        messages@.len() > 0 && encode_check(
            messages@,
            masks@,
            codeword_length,
            coset_size,
            num_cosets,
        ) is None ==> {
            let minimum = old(state).settings.min_codeword_size;
            &&& settings::may_be_decided(minimum, *env, codeword_length) ==> messages@.len()
                * codeword_length <= usize::MAX
            &&& settings::may_stay_on_host(minimum, *env, codeword_length) ==> codeword_length
                <= layout::MAX_CODEWORD_ORDER
            &&& settings::may_offload(minimum, *env, codeword_length) && cuda::may_be_up(
                *old(state),
                *env,
                *preflight,
            ) ==> codeword_length <= layout::MAX_CODEWORD_ORDER
        },
    ensures
        final(state).wf(),
        final(state).settings.policy == old(state).settings.policy,
        old(state).flattened_roots@.dom().subset_of(final(state).flattened_roots@.dom()),
        cuda_encoded(
            *old(state),
            *final(state),
            *env,
            *preflight,
            kernel,
            messages@,
            masks@,
            codeword_length,
            coset_size,
            num_cosets,
            result,
        ),
{
    if messages.len() == 0 {
        return Ok(Vec::new());
    }
    if let Some(error) = check_encode(messages, masks, codeword_length, coset_size, num_cosets) {
        return Err(error);
    }
    let decision = cuda_should_offload_codeword_size(&mut state.settings, env, codeword_length);
    proof {
        settings::lemma_size_decided(
            old(state).settings.min_codeword_size,
            state.settings.min_codeword_size,
            *env,
            codeword_length,
            decision,
        );
    }
    let offload: bool = match decision {
        Ok(offload) => offload,
        Err(error) => {
            return Err(error);
        },
    };
    proof {
        lemma_checked_batch(messages@, masks@, codeword_length, coset_size, num_cosets);
    }
    let num_messages: usize = messages.len();
    let message_length: usize = messages[0].len();
    let total_values: usize = num_messages * codeword_length;
    let values = build_interleaved_host_values(
        messages,
        masks,
        message_length,
        total_values,
        coset_size * num_messages,
        num_cosets,
    );
    if offload {
        encode_on_device(state, env, preflight, kernel, values, codeword_length, num_cosets)
    } else {
        Ok(transform_buffer(values, codeword_length, num_cosets))
    }
}

/// If the device transform is right, what comes out of an encoding is the transform of the
/// buffer, whether the host or the device computed it.
pub proof fn lemma_cuda_encodes<
    E: Fn(Setting) -> EnvVar,
    P: Fn(i32) -> DeviceReply,
    K: FnOnce(NttLaunch) -> NttReply,
>(
    before: CudaState,
    after: CudaState,
    env: E,
    preflight: P,
    kernel: K,
    messages: Seq<&[Fr]>,
    masks: Seq<Fr>,
    codeword_length: usize,
    coset_size: usize,
    num_cosets: usize,
    result: Result<Vec<Fr>, Error>,
)
    requires
        messages.len() > 0,
        cuda::computes_transform(kernel),
        cuda_encoded(
            before,
            after,
            env,
            preflight,
            kernel,
            messages,
            masks,
            codeword_length,
            coset_size,
            num_cosets,
            result,
        ),
    ensures
        result matches Ok(values) ==> transform::is_transform(
            coset_buffer(messages, masks, codeword_length, coset_size, num_cosets),
            values@,
            codeword_length as nat,
            num_cosets as nat,
        ),
{
    let buffer = coset_buffer(messages, masks, codeword_length, coset_size, num_cosets);
    let shape = LaunchShape {
        input_elements: buffer.len() as usize,
        total_values: buffer.len() as usize,
        codeword_size: codeword_length,
        num_groups: num_cosets,
    };
    if result is Ok && buffer.len() <= usize::MAX {
        lemma_checked_shape(messages, masks, codeword_length, coset_size, num_cosets);
        assert forall|device: usize, outcome: Result<Vec<u64>, Error>| #[trigger]
            cuda::launched(kernel, device, limbs::flattened(buffer), shape, outcome)
                && outcome is Ok implies transform::is_transform(
            buffer,
            limbs::hydrated(outcome->Ok_0@),
            codeword_length as nat,
            num_cosets as nat,
        ) by {
            cuda::lemma_launch_transforms(kernel, device, buffer, shape, outcome);
        }
    }
}

/// Whether a policy offloads a codeword, given whether it is large enough.
pub open spec fn policy_allows(policy: CudaNttPolicy, large_enough: bool) -> bool {
    match policy {
        CudaNttPolicy::Always => true,
        CudaNttPolicy::SizeOnly => large_enough,
        CudaNttPolicy::Never => false,
        CudaNttPolicy::Auto => large_enough,
    }
}

/// Why an encoding on the device failed.
#[derive(Debug)]
pub enum EncodeError {
    /// The size setting could not be read.
    SizePolicy(Error),
    /// The policy setting could not be read.
    Policy(Error),
    /// The encoding was refused or failed.
    Execution(Error),
}

impl EncodeError {
    /// The error in words.
    pub open spec fn text(self) -> Seq<char> {
        match self {
            EncodeError::SizePolicy(error) =>
                "CUDA NTT size policy parsing failed before backend execution: "@ + error.text(),
            EncodeError::Policy(error) =>
                "CUDA NTT policy parsing failed before backend execution: "@ + error.text(),
            EncodeError::Execution(error) =>
                "CUDA NTT execution failed after successful backend preflight: "@ + error.text(),
        }
    }

    /// The error in words.
    pub fn message(&self) -> (message: String)
        ensures
            message@ == self.text(),
    {
        let (start, error): (&str, &Error) = match self {
            EncodeError::SizePolicy(error) => (
                "CUDA NTT size policy parsing failed before backend execution: ",
                error,
            ),
            EncodeError::Policy(error) => (
                "CUDA NTT policy parsing failed before backend execution: ",
                error,
            ),
            EncodeError::Execution(error) => (
                "CUDA NTT execution failed after successful backend preflight: ",
                error,
            ),
        };
        String::from_str(start).concat(error.message().as_str())
    }
}

/// Whether both settings that decide about a codeword were read once, and what they say.
pub open spec fn shape_decided<E: Fn(Setting) -> EnvVar>(
    before: CudaSettings,
    after: CudaSettings,
    env: E,
    codeword_length: usize,
    result: Result<bool, EncodeError>,
) -> bool {
    &&& after.device == before.device
    &&& after.guard_stride == before.guard_stride
    &&& after.min_codeword_size matches Some(minimum)
    &&& settings::number_read_once(
        before.min_codeword_size,
        after.min_codeword_size,
        Setting::MinCodewordSize,
        settings::DEFAULT_MIN_CODEWORD_SIZE,
        env,
        minimum,
    )
    &&& match settings::size_decision(minimum, codeword_length) {
        Err(error) => {
            &&& result == Err::<bool, EncodeError>(EncodeError::SizePolicy(error))
            &&& after.policy == before.policy
        },
        Ok(large_enough) => {
            &&& after.policy matches Some(policy)
            &&& match before.policy {
                Some(cached) => policy == cached,
                None => exists|var: EnvVar|
                    #[trigger] env.ensures((Setting::Policy,), var) && policy
                        == settings::policy_setting(var),
            }
            &&& match policy {
                Ok(policy) => result == Ok::<bool, EncodeError>(
                    policy_allows(policy, large_enough),
                ),
                Err(error) => result == Err::<bool, EncodeError>(EncodeError::Policy(error)),
            }
        },
    }
}

/// Whether the settings that decide about a codeword can be read, as far as they were not:
/// the policy is read only once the size setting is a number.
pub open spec fn shape_granted<E: Fn(Setting) -> EnvVar>(
    settings: CudaSettings,
    env: E,
    codeword_length: usize,
) -> bool {
    &&& settings.min_codeword_size is None ==> env.requires((Setting::MinCodewordSize,))
    &&& settings.policy is None && settings::may_be_decided(
        settings.min_codeword_size,
        env,
        codeword_length,
    ) ==> env.requires((Setting::Policy,))
}

/// Whether codewords of a given length are offloaded.
pub fn should_use_cuda_for_shape<E: Fn(Setting) -> EnvVar>(
    settings: &mut CudaSettings,
    env: &E,
    codeword_length: usize,
    _num_cosets: usize,
) -> (result: Result<bool, EncodeError>)
    requires
        shape_granted(*old(settings), *env, codeword_length),
    ensures
        shape_decided(*old(settings), *final(settings), *env, codeword_length, result),
{
    let decision = cuda_should_offload_codeword_size(settings, env, codeword_length);
    proof {
        settings::lemma_size_decided(
            old(settings).min_codeword_size,
            settings.min_codeword_size,
            *env,
            codeword_length,
            decision,
        );
    }
    let large_enough: bool = match decision {
        Ok(large_enough) => large_enough,
        Err(error) => {
            return Err(EncodeError::SizePolicy(error));
        },
    };
    match cuda_ntt_policy(settings, env) {
        Ok(CudaNttPolicy::Always) => Ok(true),
        Ok(CudaNttPolicy::SizeOnly) => Ok(large_enough),
        Ok(CudaNttPolicy::Never) => Ok(false),
        Ok(CudaNttPolicy::Auto) => Ok(large_enough),
        Err(error) => Err(EncodeError::Policy(error)),
    }
}

/// What the encoding of a batch in its own cosets comes to: the settings decide whether it
/// is encoded on the host or handed to the device encoder.
pub open spec fn dispatched<
    E: Fn(Setting) -> EnvVar,
    P: Fn(i32) -> DeviceReply,
    K: FnOnce(NttLaunch) -> NttReply,
>(
    before: CudaState,
    after: CudaState,
    env: E,
    preflight: P,
    kernel: K,
    messages: Seq<&[Fr]>,
    masks: Seq<Fr>,
    codeword_length: usize,
    result: Result<Vec<Fr>, EncodeError>,
) -> bool {
    exists|read: CudaSettings, decision: Result<bool, EncodeError>|
        {
            &&& #[trigger] shape_decided(before.settings, read, env, codeword_length, decision)
            &&& dispatched_as(
                before,
                after,
                env,
                preflight,
                kernel,
                messages,
                masks,
                codeword_length,
                read,
                decision,
                result,
            )
        }
}

/// What the encoding of a batch in its own cosets comes to once the settings were read and
/// decided.
pub open spec fn dispatched_as<
    E: Fn(Setting) -> EnvVar,
    P: Fn(i32) -> DeviceReply,
    K: FnOnce(NttLaunch) -> NttReply,
>(
    before: CudaState,
    after: CudaState,
    env: E,
    preflight: P,
    kernel: K,
    messages: Seq<&[Fr]>,
    masks: Seq<Fr>,
    codeword_length: usize,
    read: CudaSettings,
    decision: Result<bool, EncodeError>,
    result: Result<Vec<Fr>, EncodeError>,
) -> bool {
    let size = reed_solomon::batch_coset_size(messages, masks, codeword_length as nat);
    let cosets = reed_solomon::batch_cosets(messages, masks, codeword_length as nat);
    let between = CudaState { settings: read, ..before };
    match decision {
        Err(error) => result == Err::<Vec<Fr>, EncodeError>(error) && after == between,
        Ok(false) => {
            &&& result matches Ok(values)
            &&& transform::is_transform(
                reed_solomon::batch_buffer(messages, masks, codeword_length as nat),
                values@,
                codeword_length as nat,
                cosets as nat,
            )
            &&& after == between
        },
        Ok(true) => exists|encoded: Result<Vec<Fr>, Error>|
            {
                &&& #[trigger] cuda_encoded(
                    between,
                    after,
                    env,
                    preflight,
                    kernel,
                    messages,
                    masks,
                    codeword_length,
                    size as usize,
                    cosets as usize,
                    encoded,
                )
                &&& encode_mapped(encoded, result)
            },
    }
}

/// The outcome of the device encoder with its errors put in context.
pub open spec fn encode_mapped(
    encoded: Result<Vec<Fr>, Error>,
    result: Result<Vec<Fr>, EncodeError>,
) -> bool {
    match encoded {
        Ok(values) => result == Ok::<Vec<Fr>, EncodeError>(values),
        Err(error) => result == Err::<Vec<Fr>, EncodeError>(EncodeError::Execution(error)),
    }
}

/// Encodes a batch on the host or on the device, as decided.
fn encode_as_decided<
    E: Fn(Setting) -> EnvVar,
    P: Fn(i32) -> DeviceReply,
    K: FnOnce(NttLaunch) -> NttReply,
>(
    state: &mut CudaState,
    env: &E,
    preflight: &P,
    kernel: K,
    messages: &[&[Fr]],
    masks: &[Fr],
    codeword_length: usize,
    layout: InterleavedLayout,
    decision: Result<bool, EncodeError>,
) -> (result: Result<Vec<Fr>, EncodeError>)
    requires
        old(state).wf(),
        decision matches Ok(true) ==> encode_granted(
            *old(state),
            *env,
            *preflight,
            kernel,
            messages@,
            masks@,
            codeword_length,
            layout.coset_size,
            layout.num_cosets,
        ),
        messages@.len() > 0,
        reed_solomon::encodable(messages@, masks@, codeword_length as nat),
        reed_solomon::messages_valid(messages@),
        transform::all_valid(masks@),
        layout.coset_size == reed_solomon::batch_coset_size(
            messages@,
            masks@,
            codeword_length as nat,
        ),
        layout.num_cosets == reed_solomon::batch_cosets(messages@, masks@, codeword_length as nat),
    ensures
        final(state).wf(),
        old(state).flattened_roots@.dom().subset_of(final(state).flattened_roots@.dom()),
        dispatched_as(
            *old(state),
            *final(state),
            *env,
            *preflight,
            kernel,
            messages@,
            masks@,
            codeword_length,
            old(state).settings,
            decision,
            result,
        ),
{
    match decision {
        Ok(true) => {
            proof {
                reed_solomon::lemma_encodable(messages@, masks@, codeword_length as nat);
            }
            let encoded = interleaved_encode_cuda(
                state,
                env,
                preflight,
                kernel,
                messages,
                masks,
                codeword_length,
                layout.coset_size,
                layout.num_cosets,
            );
            let ghost outcome = encoded;
            let result = match encoded {
                Ok(values) => Ok(values),
                Err(error) => Err(EncodeError::Execution(error)),
            };
            assert(encode_mapped(outcome, result));
            assert(cuda_encoded(
                CudaState { settings: old(state).settings, ..*old(state) },
                *state,
                *env,
                *preflight,
                kernel,
                messages@,
                masks@,
                codeword_length,
                reed_solomon::batch_coset_size(messages@, masks@, codeword_length as nat) as usize,
                reed_solomon::batch_cosets(messages@, masks@, codeword_length as nat) as usize,
                outcome,
            ));
            result
        },
        Ok(false) => Ok(RSFr.interleaved_encode(messages, masks, codeword_length)),
        Err(error) => Err(error),
    }
}

/// Whether what the encoding of a batch in its own cosets needs is there: the settings that
/// decide, and the device if they may decide for it and the batch is not refused.
pub open spec fn dispatch_granted<
    E: Fn(Setting) -> EnvVar,
    P: Fn(i32) -> DeviceReply,
    K: FnOnce(NttLaunch) -> NttReply,
>(
    state: CudaState,
    env: E,
    preflight: P,
    kernel: K,
    messages: Seq<&[Fr]>,
    masks: Seq<Fr>,
    codeword_length: usize,
) -> bool {
    let length = codeword_length as nat;
    messages.len() > 0 ==> {
        &&& shape_granted(state.settings, env, codeword_length)
        &&& {
            &&& settings::may_offload(state.settings.min_codeword_size, env, codeword_length)
            &&& settings::policy_may_offload(state.settings.policy, env)
            &&& encode_check(
                messages,
                masks,
                codeword_length,
                reed_solomon::batch_coset_size(messages, masks, length) as usize,
                reed_solomon::batch_cosets(messages, masks, length) as usize,
            ) is None
        } ==> device_granted(state, env, preflight, kernel)
    }
}

/// What is needed to encode a batch for which the settings decided is there.
proof fn lemma_decided_granted<
    E: Fn(Setting) -> EnvVar,
    P: Fn(i32) -> DeviceReply,
    K: FnOnce(NttLaunch) -> NttReply,
>(
    before: CudaState,
    after: CudaState,
    env: E,
    preflight: P,
    kernel: K,
    messages: Seq<&[Fr]>,
    masks: Seq<Fr>,
    codeword_length: usize,
    coset_size: usize,
    num_cosets: usize,
    decision: Result<bool, EncodeError>,
)
    requires
        messages.len() > 0,
        dispatch_granted(
            before,
            env,
            preflight,
            kernel,
            messages,
            masks,
            codeword_length,
        ),
        coset_size == reed_solomon::batch_coset_size(messages, masks, codeword_length as nat),
        num_cosets == reed_solomon::batch_cosets(messages, masks, codeword_length as nat),
        shape_decided(before.settings, after.settings, env, codeword_length, decision),
        after.preflight == before.preflight,
    ensures
        decision matches Ok(true) ==> encode_granted(
            after,
            env,
            preflight,
            kernel,
            messages,
            masks,
            codeword_length,
            coset_size,
            num_cosets,
        ),
{
    let minimum = after.settings.min_codeword_size->0;
    settings::lemma_size_decided(
        before.settings.min_codeword_size,
        after.settings.min_codeword_size,
        env,
        codeword_length,
        settings::size_decision(minimum, codeword_length),
    );
    if decision matches Ok(true) && settings::may_offload(
        after.settings.min_codeword_size,
        env,
        codeword_length,
    ) {
        assert(settings::policy_may_offload(before.settings.policy, env));
        assert(settings::may_offload(before.settings.min_codeword_size, env, codeword_length));
    }
}

/// Encodes a batch on the host or on the device, as the settings decide. The device is not
/// called for a batch that is refused or stays on the host.
pub fn interleaved_encode_cuda_impl<
    E: Fn(Setting) -> EnvVar,
    P: Fn(i32) -> DeviceReply,
    K: FnOnce(NttLaunch) -> NttReply,
>(
    state: &mut CudaState,
    env: &E,
    preflight: &P,
    kernel: K,
    messages: &[&[Fr]],
    masks: &[Fr],
    codeword_length: usize,
) -> (result: Result<Vec<Fr>, EncodeError>)
    requires
        old(state).wf(),
        dispatch_granted(
            *old(state),
            *env,
            *preflight,
            kernel,
            messages@,
            masks@,
            codeword_length,
        ),
        reed_solomon::encodable(messages@, masks@, codeword_length as nat),
        reed_solomon::messages_valid(messages@),
        transform::all_valid(masks@),
    ensures
        final(state).wf(),
        old(state).flattened_roots@.dom().subset_of(final(state).flattened_roots@.dom()),
        messages@.len() == 0 ==> {
            &&& result matches Ok(values)
            &&& values@.len() == 0
            &&& *final(state) == *old(state)
        },
        messages@.len() > 0 ==> dispatched(
            *old(state),
            *final(state),
            *env,
            *preflight,
            kernel,
            messages@,
            masks@,
            codeword_length,
            result,
        ),
{
    if messages.len() == 0 {
        return Ok(Vec::new());
    }
    proof {
        reed_solomon::lemma_encodable(messages@, masks@, codeword_length as nat);
    }
    let layout = interleaved_layout(
        messages.len(),
        messages[0].len(),
        masks.len(),
        codeword_length,
    );
    proof {
        layout::lemma_coset_size(
            layout.coset_size as int,
            reed_solomon::masked_length(messages@, masks@),
            codeword_length as int,
        );
    }
    let decision = should_use_cuda_for_shape(
        &mut state.settings,
        env,
        codeword_length,
        layout.num_cosets,
    );
    proof {
        lemma_decided_granted(
            *old(state),
            *state,
            *env,
            *preflight,
            kernel,
            messages@,
            masks@,
            codeword_length,
            layout.coset_size,
            layout.num_cosets,
            decision,
        );
    }
    encode_as_decided(
        state,
        env,
        preflight,
        kernel,
        messages,
        masks,
        codeword_length,
        layout,
        decision,
    )
}

/// If the device transform is right, a batch that was encoded on the host or on the device
/// comes out as the transform of its buffer.
pub proof fn lemma_dispatch_encodes<
    E: Fn(Setting) -> EnvVar,
    P: Fn(i32) -> DeviceReply,
    K: FnOnce(NttLaunch) -> NttReply,
>(
    before: CudaState,
    after: CudaState,
    env: E,
    preflight: P,
    kernel: K,
    messages: Seq<&[Fr]>,
    masks: Seq<Fr>,
    codeword_length: usize,
    result: Result<Vec<Fr>, EncodeError>,
)
    requires
        messages.len() > 0,
        cuda::computes_transform(kernel),
        reed_solomon::encodable(messages, masks, codeword_length as nat),
        reed_solomon::messages_valid(messages),
        transform::all_valid(masks),
        dispatched(
            before,
            after,
            env,
            preflight,
            kernel,
            messages,
            masks,
            codeword_length,
            result,
        ),
    ensures
        result matches Ok(values) ==> transform::is_transform(
            reed_solomon::batch_buffer(messages, masks, codeword_length as nat),
            values@,
            codeword_length as nat,
            reed_solomon::batch_cosets(messages, masks, codeword_length as nat) as nat,
        ),
{
    reed_solomon::lemma_encodable(messages, masks, codeword_length as nat);
    let size = reed_solomon::batch_coset_size(messages, masks, codeword_length as nat);
    let cosets = reed_solomon::batch_cosets(messages, masks, codeword_length as nat);
    let (read, decision) = choose|read: CudaSettings, decision: Result<bool, EncodeError>|
        {
            &&& #[trigger] shape_decided(before.settings, read, env, codeword_length, decision)
            &&& dispatched_as(
                before,
                after,
                env,
                preflight,
                kernel,
                messages,
                masks,
                codeword_length,
                read,
                decision,
                result,
            )
        };
    if decision == Ok::<bool, EncodeError>(true) {
        let between = CudaState { settings: read, ..before };
        let encoded = choose|encoded: Result<Vec<Fr>, Error>|
            {
                &&& #[trigger] cuda_encoded(
                    between,
                    after,
                    env,
                    preflight,
                    kernel,
                    messages,
                    masks,
                    codeword_length,
                    size as usize,
                    cosets as usize,
                    encoded,
                )
                &&& encode_mapped(encoded, result)
            };
        lemma_cuda_encodes(
            between,
            after,
            env,
            preflight,
            kernel,
            messages,
            masks,
            codeword_length,
            size as usize,
            cosets as usize,
            encoded,
        );
    }
}

/// The Reed-Solomon encoder that runs on a CUDA device.
#[derive(Clone, Copy, Debug)]
pub struct RSFrCuda;

impl RSFrCuda {
    /// The smallest supported codeword length that holds `size` rows, if there is one.
    pub fn next_order(&self, size: usize) -> (order: Option<usize>)
        requires
            size <= usize::MAX / 2 + 1,
        ensures
            match order {
                Some(order) => layout::is_next_power(order as int, size as int) && order
                    <= layout::MAX_CODEWORD_ORDER,
                None => size > layout::MAX_CODEWORD_ORDER,
            },
    {
        next_order_impl(size)
    }

    /// The points at which the rows `indices` of a codeword are evaluated.
    pub fn evaluation_points(
        &self,
        _masked_message_length: usize,
        codeword_length: usize,
        indices: &[usize],
    ) -> (points: Vec<Fr>)
        requires
            indices@.len() > 0 ==> field::has_root(codeword_length as int),
        ensures
            points@.len() == indices@.len(),
            forall|i: int|
                0 <= i < indices@.len() ==> (#[trigger] points@[i]).valid() && points@[i]@
                    == roots::point(codeword_length as nat, indices@[i] as nat),
    {
        evaluation_points_impl(codeword_length, indices)
    }

    /// Encodes a batch of messages; the codewords are interleaved row by row. If the device
    /// transform is right, the result is the one of the encoder that runs on the host.
    pub fn interleaved_encode<
        E: Fn(Setting) -> EnvVar,
        P: Fn(i32) -> DeviceReply,
        K: FnOnce(NttLaunch) -> NttReply,
    >(
        &self,
        state: &mut CudaState,
        env: &E,
        preflight: &P,
        kernel: K,
        messages: &[&[Fr]],
        masks: &[Fr],
        codeword_length: usize,
    ) -> (result: Result<Vec<Fr>, EncodeError>)
        requires
            old(state).wf(),
            dispatch_granted(
                *old(state),
                *env,
                *preflight,
                kernel,
                messages@,
                masks@,
                codeword_length,
            ),
            reed_solomon::encodable(messages@, masks@, codeword_length as nat),
            reed_solomon::messages_valid(messages@),
            transform::all_valid(masks@),
        ensures
            final(state).wf(),
            messages@.len() == 0 ==> {
                &&& result matches Ok(values)
                &&& values@.len() == 0
                &&& *final(state) == *old(state)
            },
            messages@.len() > 0 ==> dispatched(
                *old(state),
                *final(state),
                *env,
                *preflight,
                kernel,
                messages@,
                masks@,
                codeword_length,
                result,
            ),
            messages@.len() > 0 && cuda::computes_transform(kernel) && result is Ok
                ==> transform::is_transform(
                reed_solomon::batch_buffer(messages@, masks@, codeword_length as nat),
                result->Ok_0@,
                codeword_length as nat,
                reed_solomon::batch_cosets(messages@, masks@, codeword_length as nat) as nat,
            ),
    {
        let result = interleaved_encode_cuda_impl(
            state,
            env,
            preflight,
            kernel,
            messages,
            masks,
            codeword_length,
        );
        proof {
            if messages@.len() > 0 && cuda::computes_transform(kernel) {
                lemma_dispatch_encodes(
                    *old(state),
                    *state,
                    *env,
                    *preflight,
                    kernel,
                    messages@,
                    masks@,
                    codeword_length,
                    result,
                );
            }
        }
        result
    }

    /// The root of unity whose powers are the evaluation points of a codeword.
    pub fn generator(&self, codeword_length: usize) -> (generator: Fr)
        requires
            field::has_root(codeword_length as int),
        ensures
            generator.valid(),
            generator@ == field::root(codeword_length as int),
    {
        generator_impl(codeword_length)
    }
}

/// Two encodings of one batch that both hold the transform of its buffer are equal, limb
/// for limb: the device encoder, if its transform is right, and the host encoder agree.
pub proof fn lemma_cuda_matches_host(
    messages: Seq<&[Fr]>,
    masks: Seq<Fr>,
    codeword_length: nat,
    host: Seq<Fr>,
    device: Seq<Fr>,
)
    requires
        messages.len() > 0,
        reed_solomon::encodable(messages, masks, codeword_length),
        reed_solomon::messages_valid(messages),
        transform::all_valid(masks),
        transform::is_transform(
            reed_solomon::batch_buffer(messages, masks, codeword_length),
            host,
            codeword_length,
            reed_solomon::batch_cosets(messages, masks, codeword_length) as nat,
        ),
        transform::is_transform(
            reed_solomon::batch_buffer(messages, masks, codeword_length),
            device,
            codeword_length,
            reed_solomon::batch_cosets(messages, masks, codeword_length) as nat,
        ),
    ensures
        host == device,
{
    reed_solomon::lemma_encodable(messages, masks, codeword_length);
    bits::lemma_power_positive(codeword_length as int);
    transform::lemma_transform_unique(
        reed_solomon::batch_buffer(messages, masks, codeword_length),
        host,
        device,
        codeword_length,
        reed_solomon::batch_cosets(messages, masks, codeword_length) as nat,
    );
}

/// The transform of a checked batch holds its Reed-Solomon codewords, whichever of the
/// admissible coset sizes it was laid out with.
pub proof fn lemma_cosets_encode(
    messages: Seq<&[Fr]>,
    masks: Seq<Fr>,
    codeword_length: usize,
    coset_size: usize,
    num_cosets: usize,
    values: Seq<Fr>,
)
    requires
        messages.len() > 0,
        encode_check(messages, masks, codeword_length, coset_size, num_cosets) is None,
        transform::is_transform(
            coset_buffer(messages, masks, codeword_length, coset_size, num_cosets),
            values,
            codeword_length as nat,
            num_cosets as nat,
        ),
    ensures
        reed_solomon::is_codeword(messages, masks, codeword_length as nat, values),
{
    layout::lemma_next_power(reed_solomon::masked_length(messages, masks) as nat);
    bits::lemma_power_positive(codeword_length as int);
    lemma_fundamental_div_mod(codeword_length as int, coset_size as int);
    assert(num_cosets > 0) by (nonlinear_arith)
        requires
            codeword_length == coset_size * num_cosets,
            codeword_length > 0,
    ;
    reed_solomon::lemma_split_encodes(
        messages,
        masks,
        codeword_length as nat,
        coset_size as int,
        num_cosets as int,
        values,
    );
}

/// The codewords of a batch do not depend on the coset size, limb for limb.
pub proof fn lemma_coset_sizes_agree(
    messages: Seq<&[Fr]>,
    masks: Seq<Fr>,
    codeword_length: usize,
    first_size: usize,
    first_cosets: usize,
    first: Seq<Fr>,
    second_size: usize,
    second_cosets: usize,
    second: Seq<Fr>,
)
    requires
        messages.len() > 0,
        encode_check(messages, masks, codeword_length, first_size, first_cosets) is None,
        encode_check(messages, masks, codeword_length, second_size, second_cosets) is None,
        transform::is_transform(
            coset_buffer(messages, masks, codeword_length, first_size, first_cosets),
            first,
            codeword_length as nat,
            first_cosets as nat,
        ),
        transform::is_transform(
            coset_buffer(messages, masks, codeword_length, second_size, second_cosets),
            second,
            codeword_length as nat,
            second_cosets as nat,
        ),
    ensures
        first == second,
{
    lemma_cosets_encode(messages, masks, codeword_length, first_size, first_cosets, first);
    lemma_cosets_encode(messages, masks, codeword_length, second_size, second_cosets, second);
    reed_solomon::lemma_codeword_unique(
        messages,
        masks,
        codeword_length as nat,
        first,
        second,
    );
}

/// Both encoders choose the same codeword length for a size.
pub proof fn lemma_same_next_order(size: int, host: Option<usize>, device: Option<usize>)
    requires
        match host {
            Some(order) => layout::is_next_power(order as int, size) && order
                <= layout::MAX_CODEWORD_ORDER,
            None => size > layout::MAX_CODEWORD_ORDER,
        },
        match device {
            Some(order) => layout::is_next_power(order as int, size) && order
                <= layout::MAX_CODEWORD_ORDER,
            None => size > layout::MAX_CODEWORD_ORDER,
        },
    ensures
        host == device,
{
}

/// Both encoders evaluate at the same points, limb for limb.
pub proof fn lemma_same_evaluation_points(
    codeword_length: nat,
    indices: Seq<usize>,
    host: Seq<Fr>,
    device: Seq<Fr>,
)
    requires
        host.len() == indices.len(),
        device.len() == indices.len(),
        forall|i: int|
            0 <= i < indices.len() ==> (#[trigger] host[i]).valid() && host[i]@ == roots::point(
                codeword_length,
                indices[i] as nat,
            ),
        forall|i: int|
            0 <= i < indices.len() ==> (#[trigger] device[i]).valid() && device[i]@
                == roots::point(codeword_length, indices[i] as nat),
    ensures
        host == device,
{
    assert forall|i: int| 0 <= i < indices.len() implies host[i] == device[i] by {
        field::lemma_valid_unique(host[i], device[i]);
    }
    assert(host =~= device);
}

} // verus!
