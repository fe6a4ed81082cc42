//! Laws of the encoder on a CUDA device.
use vstd::arithmetic::div_mod::*;
use vstd::arithmetic::mul::*;
use vstd::arithmetic::power2::*;
use vstd::prelude::*;

use crate::bits;
use crate::cuda;
use crate::cuda::{CudaState, LaunchShape, NttLaunch, NttReply};
use crate::cuda_encode;
use crate::cuda_encode::{
    check_encode, interleaved_encode_cuda, interleaved_encode_cuda_impl, should_use_cuda_for_shape,
    EncodeError, RSFrCuda,
};
use crate::device::DeviceReply;
use crate::error::{Error, Setting};
use crate::field::Fr;
use crate::laws::cuda::{
    comes_up, gives_number, guarded_by, is_offloaded, lemma_guarded_by, never_fails,
};
use crate::laws::encode::{laid_out, lemma_block_position, lemma_row_position};
use crate::laws::settings::{always_set, never_set};
use crate::layout;
use crate::limbs;
use crate::reed_solomon;
use crate::settings;
use crate::settings::{CudaNttPolicy, CudaSettings, EnvVar};
use crate::transform;

verus! {

/// Whether all messages of a batch are of one length.
pub open spec fn same_lengths(messages: Seq<&[Fr]>) -> bool {
    forall|i: int, j: int|
        0 <= i < messages.len() && 0 <= j < messages.len() ==> (#[trigger] messages[i])@.len() == (
        #[trigger] messages[j])@.len()
}

/// Whether the masks of a batch form whole rows.
pub open spec fn whole_mask_rows(messages: Seq<&[Fr]>, masks: Seq<Fr>) -> bool {
    exists|rows: int| masks.len() == #[trigger] (rows * messages.len())
}

/// Whether a power of two up to the longest codeword holds a masked message and fits into a
/// coset.
pub open spec fn coset_holds(rows: int, coset_size: usize) -> bool {
    exists|order: int| #[trigger] is_pow2(order) && rows <= order <= coset_size && order
        <= 0x1000_0000
}

/// A batch of equal messages is uniform.
proof fn lemma_same_lengths(messages: Seq<&[Fr]>)
    ensures
        messages.len() > 0 ==> (reed_solomon::uniform(messages) <==> same_lengths(messages)),
{
    if messages.len() > 0 && same_lengths(messages) {
        assert forall|row: int| 0 <= row < messages.len() implies (#[trigger] messages[row])@.len()
            == messages[0]@.len() by {}
    }
}

/// Masks form whole rows if there are a multiple of the messages.
proof fn lemma_whole_mask_rows(messages: Seq<&[Fr]>, masks: Seq<Fr>)
    requires
        messages.len() > 0,
    ensures
        whole_mask_rows(messages, masks) <==> masks.len() % messages.len() == 0,
{
    let count = messages.len() as int;
    let total = masks.len() as int;
    lemma_fundamental_div_mod(total, count);
    lemma_mul_is_commutative(count, total / count);
    if total % count == 0 {
        assert(masks.len() == (total / count) * messages.len());
    }
    if whole_mask_rows(messages, masks) {
        let rows = choose|rows: int| masks.len() == #[trigger] (rows * messages.len());
        lemma_mod_multiples_basic(rows, count);
    }
}

/// A coset holds a masked message if the smallest power of two that does fits into it.
proof fn lemma_coset_holds(rows: int, coset_size: usize)
    requires
        rows >= 0,
    ensures
        coset_holds(rows, coset_size) <==> rows <= layout::MAX_CODEWORD_ORDER
            && layout::next_power(rows as nat) <= coset_size,
{
    layout::lemma_next_power(rows as nat);
    lemma2_to64();
    bits::lemma_is_power(28);
    if rows <= layout::MAX_CODEWORD_ORDER && layout::next_power(rows as nat) <= coset_size {
        let order = layout::next_power(rows as nat) as int;
        assert(is_pow2(order) && order <= pow2(28));
    }
    if coset_holds(rows, coset_size) {
        let order = choose|order: int| #[trigger]
            is_pow2(order) && rows <= order <= coset_size && order <= 0x1000_0000;
        assert(layout::next_power(rows as nat) <= order);
    }
}

/// Cosets make up a codeword if there are as many as it splits into.
proof fn lemma_cosets_make_up(codeword_length: usize, coset_size: usize, num_cosets: usize)
    ensures
        coset_size > 0 ==> (coset_size * num_cosets == codeword_length <==> codeword_length
            % coset_size == 0 && num_cosets == codeword_length / coset_size),
        coset_size > 0 ==> (codeword_length % coset_size == 0 <==> exists|times: int|
            codeword_length == #[trigger] (times * coset_size)),
{
    if coset_size > 0 {
        let n = codeword_length as int;
        let size = coset_size as int;
        lemma_fundamental_div_mod(n, size);
        lemma_mul_is_commutative(size, n / size);
        if coset_size * num_cosets == codeword_length {
            lemma_mul_is_commutative(size, num_cosets as int);
            lemma_div_multiples_vanish(num_cosets as int, size);
            lemma_mod_multiples_basic(num_cosets as int, size);
        }
        if n % size == 0 {
            assert(codeword_length == (n / size) * coset_size);
        }
        if exists|times: int| codeword_length == #[trigger] (times * coset_size) {
            let times = choose|times: int| codeword_length == #[trigger] (times * coset_size);
            lemma_mod_multiples_basic(times, size);
        }
    }
}

/// Whether a batch can be encoded in the given cosets: all messages are of one length, the
/// masks form whole rows, the codeword length is a power of two and made up of the cosets,
/// and a coset holds a masked message.
pub open spec fn fits_cosets(
    messages: Seq<&[Fr]>,
    masks: Seq<Fr>,
    codeword_length: usize,
    coset_size: usize,
    num_cosets: usize,
) -> bool {
    &&& same_lengths(messages)
    &&& whole_mask_rows(messages, masks)
    &&& is_pow2(codeword_length as int)
    &&& coset_size * num_cosets == codeword_length
    &&& coset_holds(
        messages[0]@.len() + masks.len() as int / messages.len() as int,
        coset_size,
    )
}

/// A batch that can be encoded in the given cosets passes the check.
pub proof fn lemma_fits_cosets(
    messages: Seq<&[Fr]>,
    masks: Seq<Fr>,
    codeword_length: usize,
    coset_size: usize,
    num_cosets: usize,
)
    requires
        messages.len() > 0,
    ensures
        fits_cosets(messages, masks, codeword_length, coset_size, num_cosets)
            <==> cuda_encode::encode_check(
            messages,
            masks,
            codeword_length,
            coset_size,
            num_cosets,
        ) is None,
{
    let rows = messages[0]@.len() + masks.len() as int / messages.len() as int;
    lemma_same_lengths(messages);
    lemma_whole_mask_rows(messages, masks);
    lemma_div_pos_is_pos(masks.len() as int, messages.len() as int);
    lemma_coset_holds(rows, coset_size);
    lemma_cosets_make_up(codeword_length, coset_size, num_cosets);
    if is_pow2(codeword_length as int) && coset_size * num_cosets == codeword_length {
        bits::lemma_power_positive(codeword_length as int);
        if coset_size == 0 {
            assert(0 * num_cosets == 0);
        }
    }
}

/// A batch is refused exactly if it cannot be encoded in the given cosets: one that fits is
/// not, however many cosets there are. What is said of one that is refused is the first of
/// these things that is wrong with it.
pub proof fn lemma_batches_checked(
    messages: &[&[Fr]],
    masks: &[Fr],
    codeword_length: usize,
    coset_size: usize,
    num_cosets: usize,
    error: Option<Error>,
)
    requires
        call_ensures(
            check_encode,
            (messages, masks, codeword_length, coset_size, num_cosets),
            error,
        ),
        messages@.len() > 0,
    ensures
        error is None <==> fits_cosets(
            messages@,
            masks@,
            codeword_length,
            coset_size,
            num_cosets,
        ),
        !same_lengths(messages@) ==> error == Some(Error::UnequalMessages),
        same_lengths(messages@) && !whole_mask_rows(messages@, masks@) ==> error == Some(
            Error::UnevenMasks,
        ),
        same_lengths(messages@) && whole_mask_rows(messages@, masks@) && !is_pow2(
            codeword_length as int,
        ) ==> error == Some(Error::CodewordLengthNotPower),
        error == Some(Error::UnevenCosets) ==> coset_size == 0 || forall|times: int|
            codeword_length != #[trigger] (times * coset_size),
        error == Some(Error::CosetCount) ==> {
            &&& coset_size * num_cosets != codeword_length
            &&& exists|times: int| codeword_length == #[trigger] (times * coset_size)
        },
        error == Some(Error::CosetTooSmall) ==> {
            &&& coset_size * num_cosets == codeword_length
            &&& !coset_holds(
                messages@[0]@.len() + masks@.len() as int / messages@.len() as int,
                coset_size,
            )
        },
        error matches Some(reason) ==> reason is UnequalMessages || reason is UnevenMasks
            || reason is CodewordLengthNotPower || reason is UnevenCosets || reason is CosetCount
            || reason is CosetTooSmall,
{
    let rows = messages@[0]@.len() + masks@.len() as int / messages@.len() as int;
    lemma_fits_cosets(messages@, masks@, codeword_length, coset_size, num_cosets);
    lemma_same_lengths(messages@);
    lemma_whole_mask_rows(messages@, masks@);
    lemma_div_pos_is_pos(masks@.len() as int, messages@.len() as int);
    lemma_coset_holds(rows, coset_size);
    lemma_cosets_make_up(codeword_length, coset_size, num_cosets);
}

/// What the device encoder comes to on a batch that fits, with everything in order.
proof fn lemma_encoded_in_order<
    E: Fn(Setting) -> EnvVar,
    P: Fn(i32) -> DeviceReply,
    K: FnOnce(NttLaunch) -> NttReply,
>(
    before: CudaState,
    after: CudaState,
    env: E,
    probe: P,
    kernel: K,
    messages: Seq<&[Fr]>,
    masks: Seq<Fr>,
    codeword_length: usize,
    coset_size: usize,
    num_cosets: usize,
    result: Result<Vec<Fr>, Error>,
)
    requires
        messages.len() > 0,
        cuda_encode::cuda_encoded(
            before,
            after,
            env,
            probe,
            kernel,
            messages,
            masks,
            codeword_length,
            coset_size,
            num_cosets,
            result,
        ),
        fits_cosets(messages, masks, codeword_length, coset_size, num_cosets),
        comes_up(before, env, probe),
        gives_number(before.settings.min_codeword_size, env, Setting::MinCodewordSize),
        gives_number(before.settings.guard_stride, env, Setting::GuardStride),
        never_fails(kernel),
        cuda::computes_transform(kernel),
    ensures
        result matches Ok(values) && reed_solomon::is_codeword(
            messages,
            masks,
            codeword_length as nat,
            values@,
        ),
{
    lemma_fits_cosets(messages, masks, codeword_length, coset_size, num_cosets);
    cuda_encode::lemma_checked_shape(messages, masks, codeword_length, coset_size, num_cosets);
    let buffer = cuda_encode::coset_buffer(
        messages,
        masks,
        codeword_length,
        coset_size,
        num_cosets,
    );
    let shape = LaunchShape {
        input_elements: buffer.len() as usize,
        total_values: buffer.len() as usize,
        codeword_size: codeword_length,
        num_groups: num_cosets,
    };
    assert forall|device: usize, outcome: Result<Vec<u64>, Error>| #[trigger]
        cuda::launched(kernel, device, limbs::flattened(buffer), shape, outcome) && buffer.len()
            <= usize::MAX implies outcome is Ok && transform::is_transform(
        buffer,
        limbs::hydrated(outcome->Ok_0@),
        codeword_length as nat,
        num_cosets as nat,
    ) by {
        cuda::lemma_launch_transforms(kernel, device, buffer, shape, outcome);
    }
    assert(result is Ok);
    cuda_encode::lemma_cuda_encodes(
        before,
        after,
        env,
        probe,
        kernel,
        messages,
        masks,
        codeword_length,
        coset_size,
        num_cosets,
        result,
    );
    cuda_encode::lemma_cosets_encode(
        messages,
        masks,
        codeword_length,
        coset_size,
        num_cosets,
        result->Ok_0@,
    );
}

/// A batch that fits the given cosets is encoded: with readable settings and a device that
/// comes up, never fails and computes the transform, the call succeeds and gives the
/// Reed-Solomon codewords, whether the host or the device computed them.
pub proof fn lemma_cosets_encoding_succeeds<
    E: Fn(Setting) -> EnvVar,
    P: Fn(i32) -> DeviceReply,
    K: FnOnce(NttLaunch) -> NttReply,
>(
    state: &mut CudaState,
    env: E,
    probe: P,
    kernel: K,
    messages: &[&[Fr]],
    masks: &[Fr],
    codeword_length: usize,
    coset_size: usize,
    num_cosets: usize,
    result: Result<Vec<Fr>, Error>,
)
    requires
        call_ensures(
            interleaved_encode_cuda::<E, P, K>,
            (
                state,
                &env,
                &probe,
                kernel,
                messages,
                masks,
                codeword_length,
                coset_size,
                num_cosets,
            ),
            result,
        ),
        messages@.len() > 0,
        fits_cosets(messages@, masks@, codeword_length, coset_size, num_cosets),
        comes_up(*old(state), env, probe),
        gives_number(old(state).settings.min_codeword_size, env, Setting::MinCodewordSize),
        gives_number(old(state).settings.guard_stride, env, Setting::GuardStride),
        never_fails(kernel),
        cuda::computes_transform(kernel),
    ensures
        result matches Ok(values) && reed_solomon::is_codeword(
            messages@,
            masks@,
            codeword_length as nat,
            values@,
        ),
{
    lemma_encoded_in_order(
        *old(state),
        *final(state),
        env,
        probe,
        kernel,
        messages@,
        masks@,
        codeword_length,
        coset_size,
        num_cosets,
        result,
    );
}

/// A batch that does not fit the given cosets is refused with what the check says, and then
/// nothing is read or brought up. No messages are encoded to nothing.
pub proof fn lemma_cosets_encoding_refused<
    E: Fn(Setting) -> EnvVar,
    P: Fn(i32) -> DeviceReply,
    K: FnOnce(NttLaunch) -> NttReply,
>(
    state: &mut CudaState,
    env: E,
    probe: P,
    kernel: K,
    messages: &[&[Fr]],
    masks: &[Fr],
    codeword_length: usize,
    coset_size: usize,
    num_cosets: usize,
    error: Option<Error>,
    result: Result<Vec<Fr>, Error>,
)
    requires
        call_ensures(
            interleaved_encode_cuda::<E, P, K>,
            (
                state,
                &env,
                &probe,
                kernel,
                messages,
                masks,
                codeword_length,
                coset_size,
                num_cosets,
            ),
            result,
        ),
        messages@.len() > 0 ==> call_ensures(
            check_encode,
            (messages, masks, codeword_length, coset_size, num_cosets),
            error,
        ),
    ensures
        messages@.len() == 0 ==> result is Ok && result->Ok_0@.len() == 0,
        messages@.len() > 0 && !fits_cosets(
            messages@,
            masks@,
            codeword_length,
            coset_size,
            num_cosets,
        ) ==> error is Some && result == Err::<Vec<Fr>, Error>(error->0),
        messages@.len() == 0 || !fits_cosets(
            messages@,
            masks@,
            codeword_length,
            coset_size,
            num_cosets,
        ) ==> *final(state) == *old(state),
{
    if messages@.len() > 0 {
        lemma_fits_cosets(messages@, masks@, codeword_length, coset_size, num_cosets);
    }
}

/// The codewords that a batch is encoded to do not depend on the cosets that were asked for,
/// nor on where they were computed.
pub proof fn lemma_cosets_encodings_agree<
    E: Fn(Setting) -> EnvVar,
    P: Fn(i32) -> DeviceReply,
    K: FnOnce(NttLaunch) -> NttReply,
    F: Fn(Setting) -> EnvVar,
    Q: Fn(i32) -> DeviceReply,
    L: FnOnce(NttLaunch) -> NttReply,
>(
    state: &mut CudaState,
    other_state: &mut CudaState,
    env: E,
    probe: P,
    kernel: K,
    other_env: F,
    other_probe: Q,
    other_kernel: L,
    messages: &[&[Fr]],
    masks: &[Fr],
    codeword_length: usize,
    coset_size: usize,
    num_cosets: usize,
    other_size: usize,
    other_cosets: usize,
    result: Result<Vec<Fr>, Error>,
    other: Result<Vec<Fr>, Error>,
)
    requires
        call_ensures(
            interleaved_encode_cuda::<E, P, K>,
            (
                state,
                &env,
                &probe,
                kernel,
                messages,
                masks,
                codeword_length,
                coset_size,
                num_cosets,
            ),
            result,
        ),
        call_ensures(
            interleaved_encode_cuda::<F, Q, L>,
            (
                other_state,
                &other_env,
                &other_probe,
                other_kernel,
                messages,
                masks,
                codeword_length,
                other_size,
                other_cosets,
            ),
            other,
        ),
        messages@.len() > 0,
        cuda::computes_transform(kernel),
        cuda::computes_transform(other_kernel),
        result is Ok,
        other is Ok,
    ensures
        result->Ok_0@ == other->Ok_0@,
{
    cuda_encode::lemma_cuda_encodes(
        *old(state),
        *final(state),
        env,
        probe,
        kernel,
        messages@,
        masks@,
        codeword_length,
        coset_size,
        num_cosets,
        result,
    );
    cuda_encode::lemma_cuda_encodes(
        *old(other_state),
        *final(other_state),
        other_env,
        other_probe,
        other_kernel,
        messages@,
        masks@,
        codeword_length,
        other_size,
        other_cosets,
        other,
    );
    cuda_encode::lemma_coset_sizes_agree(
        messages@,
        masks@,
        codeword_length,
        coset_size,
        num_cosets,
        result->Ok_0@,
        other_size,
        other_cosets,
        other->Ok_0@,
    );
}

/// Whether the policy setting gives a policy: the one that was kept, or whatever the
/// environment may hold.
pub open spec fn gives_policy<E: Fn(Setting) -> EnvVar>(
    kept: Option<Result<CudaNttPolicy, Error>>,
    env: E,
) -> bool {
    match kept {
        Some(read) => read is Ok,
        None => forall|var: EnvVar| #[trigger]
            env.ensures((Setting::Policy,), var) ==> settings::policy_setting(var) is Ok,
    }
}

/// A policy to offload always offloads every codeword and one to never do so none; the other
/// two, and no policy, offload those that are large enough: with the setting, as large as it
/// says, and without it 2048 rows.
pub proof fn lemma_shape_decision<E: Fn(Setting) -> EnvVar>(
    settings: &mut CudaSettings,
    env: E,
    codeword_length: usize,
    num_cosets: usize,
    policy: CudaNttPolicy,
    minimum: usize,
    result: Result<bool, EncodeError>,
)
    requires
        call_ensures(
            should_use_cuda_for_shape::<E>,
            (settings, &env, codeword_length, num_cosets),
            result,
        ),
        match old(settings).min_codeword_size {
            Some(kept) => kept == Ok::<usize, Error>(minimum),
            None => {
                ||| never_set(env, Setting::MinCodewordSize) && minimum == 2048
                ||| always_set(env, Setting::MinCodewordSize, minimum)
            },
        },
        match old(settings).policy {
            Some(kept) => kept == Ok::<CudaNttPolicy, Error>(policy),
            None => never_set(env, Setting::Policy) && policy == CudaNttPolicy::Auto,
        },
    ensures
        result is Ok,
        policy is Always ==> result->Ok_0,
        policy is Never ==> !result->Ok_0,
        policy is Auto || policy is SizeOnly ==> (result->Ok_0 <==> codeword_length >= minimum),
{
}

/// A size setting that cannot be read is reported before a policy that cannot, each as such.
pub proof fn lemma_shape_errors<E: Fn(Setting) -> EnvVar>(
    settings: &mut CudaSettings,
    env: E,
    codeword_length: usize,
    num_cosets: usize,
    result: Result<bool, EncodeError>,
)
    requires
        call_ensures(
            should_use_cuda_for_shape::<E>,
            (settings, &env, codeword_length, num_cosets),
            result,
        ),
    ensures
        final(settings).min_codeword_size is Some,
        final(settings).min_codeword_size matches Some(Err(error)) ==> result == Err::<
            bool,
            EncodeError,
        >(EncodeError::SizePolicy(error)) && final(settings).policy == old(settings).policy,
        final(settings).min_codeword_size->0 is Ok ==> {
            &&& final(settings).policy is Some
            &&& final(settings).policy matches Some(Err(error)) ==> result == Err::<
                bool,
                EncodeError,
            >(EncodeError::Policy(error))
            &&& final(settings).policy->0 is Ok ==> result is Ok
        },
        final(settings).device == old(settings).device,
        final(settings).guard_stride == old(settings).guard_stride,
{
}

/// What is said of a failed encoding: what failed, and then why.
pub proof fn lemma_encode_messages(
    cause: Error,
    cause_message: String,
    size_policy: String,
    policy: String,
    execution: String,
)
    requires
        call_ensures(Error::message, (&cause,), cause_message),
        call_ensures(EncodeError::message, (&EncodeError::SizePolicy(cause),), size_policy),
        call_ensures(EncodeError::message, (&EncodeError::Policy(cause),), policy),
        call_ensures(EncodeError::message, (&EncodeError::Execution(cause),), execution),
    ensures
        size_policy@ == "CUDA NTT size policy parsing failed before backend execution: "@
            + cause_message@,
        policy@ == "CUDA NTT policy parsing failed before backend execution: "@ + cause_message@,
        execution@ == "CUDA NTT execution failed after successful backend preflight: "@
            + cause_message@,
{
}

/// Whether a batch can be encoded: all messages are of one length, the codeword length is a
/// power of two with a root of unity, and messages and masks fit into the codewords and the
/// codewords into memory.
pub open spec fn fits_codewords(
    messages: Seq<&[Fr]>,
    masks: Seq<Fr>,
    codeword_length: usize,
) -> bool {
    &&& same_lengths(messages)
    &&& is_pow2(codeword_length as int)
    &&& codeword_length <= 0x1000_0000
    &&& messages.len() * codeword_length <= usize::MAX
    &&& messages[0]@.len() * messages.len() + masks.len() <= messages.len() * codeword_length
}

/// What the encoder comes to on a batch that fits, with everything in order.
proof fn lemma_dispatched_in_order<
    E: Fn(Setting) -> EnvVar,
    P: Fn(i32) -> DeviceReply,
    K: FnOnce(NttLaunch) -> NttReply,
>(
    before: CudaState,
    after: CudaState,
    env: E,
    probe: P,
    kernel: K,
    messages: Seq<&[Fr]>,
    masks: Seq<Fr>,
    codeword_length: usize,
    result: Result<Vec<Fr>, EncodeError>,
)
    requires
        cuda_encode::dispatched(
            before,
            after,
            env,
            probe,
            kernel,
            messages,
            masks,
            codeword_length,
            result,
        ),
        messages.len() > 0,
        fits_codewords(messages, masks, codeword_length),
        whole_mask_rows(messages, masks),
        reed_solomon::messages_valid(messages),
        transform::all_valid(masks),
        comes_up(before, env, probe),
        gives_number(before.settings.min_codeword_size, env, Setting::MinCodewordSize),
        gives_policy(before.settings.policy, env),
        gives_number(before.settings.guard_stride, env, Setting::GuardStride),
        never_fails(kernel),
        cuda::computes_transform(kernel),
    ensures
        result matches Ok(values) && reed_solomon::is_codeword(
            messages,
            masks,
            codeword_length as nat,
            values@,
        ),
{
    let length = codeword_length as nat;
    lemma_same_lengths(messages);
    lemma_whole_mask_rows(messages, masks);
    reed_solomon::lemma_encodable(messages, masks, length);
    let size = reed_solomon::batch_coset_size(messages, masks, length);
    let cosets = reed_solomon::batch_cosets(messages, masks, length);
    assert(cosets <= length) by (nonlinear_arith)
        requires
            size * cosets == length,
            size > 0,
            cosets > 0,
    ;
    assert(fits_cosets(messages, masks, codeword_length, size as usize, cosets as usize)) by {
        assert(is_pow2(size) && size <= 0x1000_0000);
    }
    assert forall|between: CudaState, encoded: Result<Vec<Fr>, Error>| #[trigger]
        cuda_encode::cuda_encoded(
            between,
            after,
            env,
            probe,
            kernel,
            messages,
            masks,
            codeword_length,
            size as usize,
            cosets as usize,
            encoded,
        ) && between.preflight == before.preflight && between.settings.device
            == before.settings.device && between.settings.guard_stride
            == before.settings.guard_stride && (between.settings.min_codeword_size matches Some(
            Ok(_),
        )) implies encoded is Ok && reed_solomon::is_codeword(
        messages,
        masks,
        length,
        encoded->Ok_0@,
    ) by {
        lemma_encoded_in_order(
            between,
            after,
            env,
            probe,
            kernel,
            messages,
            masks,
            codeword_length,
            size as usize,
            cosets as usize,
            encoded,
        );
    }
    assert(result is Ok);
    assert forall|values: Seq<Fr>| #[trigger]
        transform::is_transform(
            reed_solomon::batch_buffer(messages, masks, length),
            values,
            length,
            cosets as nat,
        ) implies reed_solomon::is_codeword(messages, masks, length, values) by {
        reed_solomon::lemma_transform_encodes(messages, masks, length, values);
    }
}

/// A batch that fits, with whole rows of masks, is encoded: with readable settings and a
/// device that comes up, never fails and computes the transform, the encoder succeeds and
/// gives the Reed-Solomon codewords, whichever policy and sizes the settings name.
pub proof fn lemma_device_encoding_succeeds<
    E: Fn(Setting) -> EnvVar,
    P: Fn(i32) -> DeviceReply,
    K: FnOnce(NttLaunch) -> NttReply,
>(
    encoder: RSFrCuda,
    state: &mut CudaState,
    env: E,
    probe: P,
    kernel: K,
    messages: &[&[Fr]],
    masks: &[Fr],
    codeword_length: usize,
    result: Result<Vec<Fr>, EncodeError>,
)
    requires
        call_ensures(
            RSFrCuda::interleaved_encode::<E, P, K>,
            (
                &encoder,
                state,
                &env,
                &probe,
                kernel,
                messages,
                masks,
                codeword_length,
            ),
            result,
        ),
        messages@.len() > 0 ==> {
            &&& fits_codewords(messages@, masks@, codeword_length)
            &&& whole_mask_rows(messages@, masks@)
            &&& reed_solomon::messages_valid(messages@)
            &&& transform::all_valid(masks@)
            &&& comes_up(*old(state), env, probe)
            &&& gives_number(
                old(state).settings.min_codeword_size,
                env,
                Setting::MinCodewordSize,
            )
            &&& gives_policy(old(state).settings.policy, env)
            &&& gives_number(old(state).settings.guard_stride, env, Setting::GuardStride)
            &&& never_fails(kernel)
            &&& cuda::computes_transform(kernel)
        },
    ensures
        result is Ok,
        messages@.len() == 0 ==> result->Ok_0@.len() == 0 && *final(state) == *old(state),
        messages@.len() > 0 ==> reed_solomon::is_codeword(
            messages@,
            masks@,
            codeword_length as nat,
            result->Ok_0@,
        ),
{
    if messages@.len() > 0 {
        lemma_dispatched_in_order(
            *old(state),
            *final(state),
            env,
            probe,
            kernel,
            messages@,
            masks@,
            codeword_length,
            result,
        );
    }
}

/// The same holds of the function that decides between host and device.
pub proof fn lemma_dispatch_succeeds<
    E: Fn(Setting) -> EnvVar,
    P: Fn(i32) -> DeviceReply,
    K: FnOnce(NttLaunch) -> NttReply,
>(
    state: &mut CudaState,
    env: E,
    probe: P,
    kernel: K,
    messages: &[&[Fr]],
    masks: &[Fr],
    codeword_length: usize,
    result: Result<Vec<Fr>, EncodeError>,
)
    requires
        call_ensures(
            interleaved_encode_cuda_impl::<E, P, K>,
            (
                state,
                &env,
                &probe,
                kernel,
                messages,
                masks,
                codeword_length,
            ),
            result,
        ),
        messages@.len() > 0 ==> {
            &&& fits_codewords(messages@, masks@, codeword_length)
            &&& whole_mask_rows(messages@, masks@)
            &&& reed_solomon::messages_valid(messages@)
            &&& transform::all_valid(masks@)
            &&& comes_up(*old(state), env, probe)
            &&& gives_number(
                old(state).settings.min_codeword_size,
                env,
                Setting::MinCodewordSize,
            )
            &&& gives_policy(old(state).settings.policy, env)
            &&& gives_number(old(state).settings.guard_stride, env, Setting::GuardStride)
            &&& never_fails(kernel)
            &&& cuda::computes_transform(kernel)
        },
    ensures
        result is Ok,
        messages@.len() == 0 ==> result->Ok_0@.len() == 0 && *final(state) == *old(state),
        messages@.len() > 0 ==> reed_solomon::is_codeword(
            messages@,
            masks@,
            codeword_length as nat,
            result->Ok_0@,
        ),
{
    if messages@.len() > 0 {
        lemma_dispatched_in_order(
            *old(state),
            *final(state),
            env,
            probe,
            kernel,
            messages@,
            masks@,
            codeword_length,
            result,
        );
    }
}

/// With a policy that never offloads, or a codeword that is too small for one that decides by
/// the size, a batch that fits is encoded on the host: the call succeeds and gives the
/// codewords whatever the device would do, and nothing is brought up.
pub proof fn lemma_small_batches_stay_on_host<
    E: Fn(Setting) -> EnvVar,
    P: Fn(i32) -> DeviceReply,
    K: FnOnce(NttLaunch) -> NttReply,
>(
    encoder: RSFrCuda,
    state: &mut CudaState,
    env: E,
    probe: P,
    kernel: K,
    messages: &[&[Fr]],
    masks: &[Fr],
    codeword_length: usize,
    minimum: usize,
    policy: CudaNttPolicy,
    result: Result<Vec<Fr>, EncodeError>,
)
    requires
        call_ensures(
            RSFrCuda::interleaved_encode::<E, P, K>,
            (&encoder, state, &env, &probe, kernel, messages, masks, codeword_length),
            result,
        ),
        messages@.len() > 0,
        fits_codewords(messages@, masks@, codeword_length),
        whole_mask_rows(messages@, masks@),
        reed_solomon::messages_valid(messages@),
        transform::all_valid(masks@),
        match old(state).settings.min_codeword_size {
            Some(kept) => kept == Ok::<usize, Error>(minimum),
            None => {
                ||| never_set(env, Setting::MinCodewordSize) && minimum == 2048
                ||| always_set(env, Setting::MinCodewordSize, minimum)
            },
        },
        match old(state).settings.policy {
            Some(kept) => kept == Ok::<CudaNttPolicy, Error>(policy),
            None => never_set(env, Setting::Policy) && policy == CudaNttPolicy::Auto,
        },
        policy is Never || !(policy is Always) && codeword_length < minimum,
    ensures
        result matches Ok(values) && reed_solomon::is_codeword(
            messages@,
            masks@,
            codeword_length as nat,
            values@,
        ),
        final(state).preflight == old(state).preflight,
        final(state).settings.device == old(state).settings.device,
        final(state).settings.guard_stride == old(state).settings.guard_stride,
        final(state).flattened_roots == old(state).flattened_roots,
{
    let length = codeword_length as nat;
    lemma_same_lengths(messages@);
    lemma_whole_mask_rows(messages@, masks@);
    reed_solomon::lemma_encodable(messages@, masks@, length);
    assert(result is Ok);
    reed_solomon::lemma_transform_encodes(messages@, masks@, length, result->Ok_0@);
}

/// A batch that is offloaded is handed to the device as it is laid out: as many values as the
/// codewords have together, as many groups as there are cosets, half as many twiddle factors
/// as rows, and the same block for each coset. What the device gives back is the result, once
/// it was looked at as the guard setting says.
pub proof fn lemma_encoding_launched<
    E: Fn(Setting) -> EnvVar,
    P: Fn(i32) -> DeviceReply,
    K: FnOnce(NttLaunch) -> NttReply,
>(
    state: &mut CudaState,
    env: E,
    probe: P,
    kernel: K,
    messages: &[&[Fr]],
    masks: &[Fr],
    codeword_length: usize,
    coset_size: usize,
    num_cosets: usize,
    result: Result<Vec<Fr>, Error>,
)
    requires
        call_ensures(
            interleaved_encode_cuda::<E, P, K>,
            (
                state,
                &env,
                &probe,
                kernel,
                messages,
                masks,
                codeword_length,
                coset_size,
                num_cosets,
            ),
            result,
        ),
        messages@.len() > 0,
        fits_cosets(messages@, masks@, codeword_length, coset_size, num_cosets),
        final(state).is_up(),
        is_offloaded(final(state).settings, codeword_length),
    ensures
        exists|launch: NttLaunch, reply: NttReply|
            {
                &&& #[trigger] kernel.ensures((launch,), reply)
                &&& final(state).settings.device matches Some(Ok(index))
                &&& launch.device == index as i32
                &&& launch.num_values == messages@.len() * codeword_length
                &&& launch.input_elements == launch.num_values
                &&& launch.values@.len() == 4 * launch.num_values
                &&& launch.num_groups_start == num_cosets
                &&& launch.elements_in_group_start * num_cosets == launch.num_values
                &&& codeword_length > 1 ==> 2 * launch.num_roots == codeword_length
                &&& forall|block: int, row: int, column: int|
                    0 <= block < num_cosets && 0 <= row < coset_size && 0 <= column
                        < messages@.len() ==> laid_out(
                        messages@,
                        masks@,
                        row,
                        column,
                        #[trigger] limbs::hydrated(launch.values@)[(block * coset_size + row)
                            * messages@.len() + column],
                    )
                &&& reply.status != 0 ==> {
                    &&& result matches Err(error)
                    &&& error matches Error::Device { kernel, status, message: _ }
                    &&& kernel is Transform
                    &&& status == reply.status
                }
                &&& reply.status == 0 ==> {
                    &&& final(state).settings.guard_stride is Some
                    &&& result matches Ok(values) ==> values@ == limbs::hydrated(reply.values@)
                    &&& result matches Ok(values) ==> {
                        &&& final(state).settings.guard_stride matches Some(Ok(stride))
                        &&& guarded_by(values@, stride)
                    }
                    &&& final(state).settings.guard_stride matches Some(Err(error)) ==> result
                        == Err::<Vec<Fr>, Error>(error)
                    &&& final(state).settings.guard_stride->0 is Ok && result is Err
                        ==> result->Err_0 is OutsideField
                }
            },
{
    lemma_fits_cosets(messages@, masks@, codeword_length, coset_size, num_cosets);
    cuda_encode::lemma_checked_shape(
        messages@,
        masks@,
        codeword_length,
        coset_size,
        num_cosets,
    );
    let buffer = cuda_encode::coset_buffer(
        messages@,
        masks@,
        codeword_length,
        coset_size,
        num_cosets,
    );
    let count = messages@.len() as int;
    let flat = limbs::flattened(buffer);
    let shape = LaunchShape {
        input_elements: buffer.len() as usize,
        total_values: buffer.len() as usize,
        codeword_size: codeword_length,
        num_groups: num_cosets,
    };
    limbs::lemma_flatten_round_trip(buffer);
    let device = final(state).settings.device->0->Ok_0;
    let outcome = choose|outcome: Result<Vec<u64>, Error>|
        {
            &&& #[trigger] cuda::launched(kernel, device, flat, shape, outcome)
            &&& outcome matches Err(error) ==> result == Err::<Vec<Fr>, Error>(error)
            &&& outcome matches Ok(limbs) ==> {
                &&& final(state).settings.guard_stride matches Some(stride)
                &&& match cuda::guard_decision(stride, limbs::hydrated(limbs@)) {
                    Err(error) => result == Err::<Vec<Fr>, Error>(error),
                    Ok(_) => {
                        &&& result matches Ok(values)
                        &&& values@ == limbs::hydrated(limbs@)
                    },
                }
            }
        };
    let (launch, reply) = choose|launch: NttLaunch, reply: NttReply|
        {
            &&& cuda::is_launch(launch, device, flat, shape)
            &&& #[trigger] kernel.ensures((launch,), reply)
            &&& outcome is Ok <==> reply.status == 0
            &&& outcome matches Ok(values) ==> values == reply.values
            &&& outcome matches Err(error) ==> {
                &&& error matches Error::Device { kernel, status, message: _ }
                &&& kernel is Transform
                &&& status == reply.status
            }
        };
    cuda::lemma_launch_described(launch, device, flat, shape);
    assert(kernel.ensures((launch,), reply));
    assert forall|block: int, row: int, column: int|
        0 <= block < num_cosets && 0 <= row < coset_size && 0 <= column < count implies laid_out(
        messages@,
        masks@,
        row,
        column,
        #[trigger] limbs::hydrated(launch.values@)[(block * coset_size + row) * messages@.len()
            + column],
    ) by {
        lemma_block_position(
            count,
            coset_size as int,
            num_cosets as int,
            block,
            row,
            column,
        );
        lemma_row_position(count, messages@[0]@.len() as int, row, column);
    }
    if let Ok(values) = result {
        if reply.status == 0 {
            lemma_guarded_by(values@, final(state).settings.guard_stride->0->Ok_0);
        }
    }
}

/// A device that does not come up, or a size setting that cannot be read, is the error of the
/// encoding of every batch that fits and is not kept on the host.
pub proof fn lemma_encoding_needs_device<
    E: Fn(Setting) -> EnvVar,
    P: Fn(i32) -> DeviceReply,
    K: FnOnce(NttLaunch) -> NttReply,
>(
    state: &mut CudaState,
    env: E,
    probe: P,
    kernel: K,
    messages: &[&[Fr]],
    masks: &[Fr],
    codeword_length: usize,
    coset_size: usize,
    num_cosets: usize,
    result: Result<Vec<Fr>, Error>,
)
    requires
        call_ensures(
            interleaved_encode_cuda::<E, P, K>,
            (
                state,
                &env,
                &probe,
                kernel,
                messages,
                masks,
                codeword_length,
                coset_size,
                num_cosets,
            ),
            result,
        ),
        messages@.len() > 0,
        fits_cosets(messages@, masks@, codeword_length, coset_size, num_cosets),
    ensures
        final(state).settings.min_codeword_size is Some,
        final(state).settings.min_codeword_size matches Some(Err(error)) ==> result == Err::<
            Vec<Fr>,
            Error,
        >(error),
        is_offloaded(final(state).settings, codeword_length) ==> {
            &&& final(state).preflight is Some
            &&& final(state).preflight matches Some(Err(error)) ==> result == Err::<
                Vec<Fr>,
                Error,
            >(error)
        },
        final(state).settings.min_codeword_size matches Some(Ok(minimum)) && codeword_length
            < minimum ==> result is Ok && final(state).preflight == old(state).preflight,
{
    lemma_fits_cosets(messages@, masks@, codeword_length, coset_size, num_cosets);
}

/// Settings that cannot be read are the error of the encoding of every batch, the size before
/// the policy; a batch that goes to the device and fails there says so and hands the error on.
pub proof fn lemma_dispatch_errors<
    E: Fn(Setting) -> EnvVar,
    P: Fn(i32) -> DeviceReply,
    K: FnOnce(NttLaunch) -> NttReply,
>(
    encoder: RSFrCuda,
    state: &mut CudaState,
    env: E,
    probe: P,
    kernel: K,
    messages: &[&[Fr]],
    masks: &[Fr],
    codeword_length: usize,
    minimum: usize,
    policy: CudaNttPolicy,
    result: Result<Vec<Fr>, EncodeError>,
)
    requires
        call_ensures(
            RSFrCuda::interleaved_encode::<E, P, K>,
            (&encoder, state, &env, &probe, kernel, messages, masks, codeword_length),
            result,
        ),
        messages@.len() > 0,
        fits_codewords(messages@, masks@, codeword_length),
        whole_mask_rows(messages@, masks@),
        reed_solomon::messages_valid(messages@),
        transform::all_valid(masks@),
    ensures
        old(state).settings.min_codeword_size matches Some(Err(error)) ==> result == Err::<
            Vec<Fr>,
            EncodeError,
        >(EncodeError::SizePolicy(error)) && final(state).settings.policy
            == old(state).settings.policy,
        (old(state).settings.min_codeword_size matches Some(Ok(_))) && (
        old(state).settings.policy matches Some(Err(_))) ==> result == Err::<
            Vec<Fr>,
            EncodeError,
        >(EncodeError::Policy(old(state).settings.policy->0->Err_0)),
        old(state).settings.min_codeword_size == Some(Ok::<usize, Error>(minimum))
            && old(state).settings.policy == Some(Ok::<CudaNttPolicy, Error>(policy)) && !(
        policy is Never) && codeword_length >= minimum && (old(state).preflight matches Some(
            Err(_),
        )) ==> result == Err::<Vec<Fr>, EncodeError>(
            EncodeError::Execution(old(state).preflight->0->Err_0),
        ),
        old(state).settings.min_codeword_size == Some(Ok::<usize, Error>(minimum))
            && old(state).settings.policy == Some(Ok::<CudaNttPolicy, Error>(policy)) && result
            is Err ==> result->Err_0 is Execution && !(policy is Never) && codeword_length
            >= minimum,
        old(state).settings.min_codeword_size == Some(Ok::<usize, Error>(minimum))
            && old(state).settings.policy == Some(Ok::<CudaNttPolicy, Error>(policy)) && !(
        policy is Never) && codeword_length >= minimum && result is Ok ==> final(state).is_up(),
{
    let length = codeword_length as nat;
    lemma_same_lengths(messages@);
    lemma_whole_mask_rows(messages@, masks@);
    reed_solomon::lemma_encodable(messages@, masks@, length);
    let size = reed_solomon::batch_coset_size(messages@, masks@, length);
    let cosets = reed_solomon::batch_cosets(messages@, masks@, length);
    assert(cosets <= length) by (nonlinear_arith)
        requires
            size * cosets == length,
            size > 0,
            cosets > 0,
    ;
    assert(fits_cosets(messages@, masks@, codeword_length, size as usize, cosets as usize)) by {
        assert(is_pow2(size) && size <= 0x1000_0000);
    }
    lemma_fits_cosets(messages@, masks@, codeword_length, size as usize, cosets as usize);
}

} // verus!
