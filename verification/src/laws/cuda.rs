//! Laws of the transform on a CUDA device.
use vstd::arithmetic::div_mod::*;
use vstd::arithmetic::mul::*;
use vstd::arithmetic::power2::*;
use vstd::prelude::*;

use crate::cuda;
use crate::cuda::{
    call_cuda_preflight, check_values, cuda_runtime_state, flattened_roots, ntt_nr_cuda,
    ntt_nr_cuda_raw, preflight_cuda, release_guard_check, should_check_hydrated_value,
    CudaRuntimeState, CudaState, LaunchShape, NttLaunch, NttReply,
};
use crate::device::DeviceReply;
use crate::error::{Error, Setting};
use crate::field;
use crate::field::Fr;
use crate::laws::settings::{always_set, may_be_read, never_set};
use crate::limbs;
use crate::roots;
use crate::settings::{CudaSettings, EnvVar};
use crate::text::number_in;
use crate::transform;

verus! {

/// Whether a setting gives a number: the one that was kept, or whatever the environment may
/// hold.
pub open spec fn gives_number<E: Fn(Setting) -> EnvVar>(
    kept: Option<Result<usize, Error>>,
    env: E,
    setting: Setting,
) -> bool {
    match kept {
        Some(read) => read is Ok,
        None => forall|var: EnvVar| #[trigger]
            env.ensures((setting,), var) ==> {
                ||| var is Missing
                ||| var is Value && number_in(var->Value_0@) is Some && number_in(
                    var->Value_0@,
                )->0 <= usize::MAX
            },
    }
}

/// Whether a device is up, or comes up whichever it is.
pub open spec fn comes_up<E: Fn(Setting) -> EnvVar, P: Fn(i32) -> DeviceReply>(
    state: CudaState,
    env: E,
    probe: P,
) -> bool {
    match state.preflight {
        Some(kept) => kept is Ok,
        None => {
            &&& gives_number(state.settings.device, env, Setting::CudaDevice)
            &&& forall|index: i32, reply: DeviceReply| #[trigger]
                probe.ensures((index,), reply) ==> reply.status == 0
        },
    }
}

/// Whether a device never fails on a transform.
pub open spec fn never_fails<K: FnOnce(NttLaunch) -> NttReply>(kernel: K) -> bool {
    forall|launch: NttLaunch, reply: NttReply| #[trigger]
        kernel.ensures((launch,), reply) ==> reply.status == 0
}

/// A device comes up exactly if its call reports the status zero, and the call is for the
/// device that was named.
pub proof fn lemma_device_call<P: Fn(i32) -> DeviceReply>(
    device: usize,
    probe: P,
    result: Result<(), Error>,
)
    requires
        call_ensures(call_cuda_preflight::<P>, (device, &probe), result),
    ensures
        exists|reply: DeviceReply|
            {
                &&& #[trigger] probe.ensures((device as i32,), reply)
                &&& result is Ok <==> reply.status == 0
                &&& result matches Err(error) ==> {
                    &&& error matches Error::Device { kernel, status, message: _ }
                    &&& kernel is Preflight
                    &&& status == reply.status
                }
            },
{
}

/// A device whose outcome is not known is brought up: the one that the setting names, and
/// the first one without it. The outcome is the one of that call, and it is kept.
pub proof fn lemma_preflight_calls_device<E: Fn(Setting) -> EnvVar, P: Fn(i32) -> DeviceReply>(
    state: &mut CudaState,
    env: E,
    probe: P,
    index: usize,
    result: Result<(), Error>,
)
    requires
        call_ensures(preflight_cuda::<E, P>, (state, &env, &probe), result),
    ensures
        final(state).preflight == Some(result),
        old(state).preflight matches Some(kept) ==> result == kept && final(state).settings.device
            == old(state).settings.device,
        old(state).preflight is None ==> {
            &&& final(state).settings.device is Some
            &&& old(state).settings.device is Some ==> final(state).settings.device == old(
                state,
            ).settings.device
            &&& old(state).settings.device is None ==> may_be_read(
                env,
                Setting::CudaDevice,
                0,
                final(state).settings.device->0,
            )
            &&& final(state).settings.device matches Some(Err(error)) ==> result == Err::<
                (),
                Error,
            >(error)
            &&& final(state).settings.device matches Some(Ok(named)) ==> exists|
                reply: DeviceReply,
            |
                {
                    &&& #[trigger] probe.ensures((named as i32,), reply)
                    &&& result is Ok <==> reply.status == 0
                    &&& result matches Err(error) ==> {
                        &&& error matches Error::Device { kernel, status, message: _ }
                        &&& kernel is Preflight
                        &&& status == reply.status
                    }
                }
        },
        old(state).preflight is None && (match old(state).settings.device {
            Some(kept) => kept == Ok::<usize, Error>(index),
            None => {
                ||| never_set(env, Setting::CudaDevice) && index == 0
                ||| always_set(env, Setting::CudaDevice, index)
            },
        }) ==> exists|reply: DeviceReply|
            {
                &&& #[trigger] probe.ensures((index as i32,), reply)
                &&& result is Ok <==> reply.status == 0
            },
        final(state).settings.min_codeword_size == old(state).settings.min_codeword_size,
        final(state).settings.policy == old(state).settings.policy,
        final(state).settings.guard_stride == old(state).settings.guard_stride,
        final(state).flattened_roots == old(state).flattened_roots,
{
}

/// A device that comes up is reported as up, and no device is as long as its setting cannot
/// be read.
pub proof fn lemma_preflight_succeeds<E: Fn(Setting) -> EnvVar, P: Fn(i32) -> DeviceReply>(
    state: &mut CudaState,
    env: E,
    probe: P,
    result: Result<(), Error>,
)
    requires
        call_ensures(preflight_cuda::<E, P>, (state, &env, &probe), result),
    ensures
        comes_up(*old(state), env, probe) ==> result is Ok,
        old(state).preflight is None && (old(state).settings.device matches Some(Err(_)))
            ==> result is Err,
{
}

/// The constants of a device are those of the field: its order as four limbs, and the number
/// that is minus one over the lowest of them, modulo two to the 64.
pub proof fn lemma_device_constants(device: usize, runtime: CudaRuntimeState)
    requires
        call_ensures(cuda_runtime_state, (device,), runtime),
    ensures
        runtime.device == device,
        runtime.modulus@[0] + runtime.modulus@[1] * 0x1_0000_0000_0000_0000int
            + runtime.modulus@[2] * 0x1_0000_0000_0000_0000_0000_0000_0000_0000int
            + runtime.modulus@[3]
            * 0x1_0000_0000_0000_0000_0000_0000_0000_0000_0000_0000_0000_0000int
            == 21888242871839275222246405745257275088548364400416034343698204186575808495617int,
        (runtime.modulus@[0] * runtime.montgomery_inv + 1) % 0x1_0000_0000_0000_0000int == 0,
{
}

/// The twiddle factors of a codeword are reduced elements, half as many as it has rows, in
/// bit-reversed order; asked for again they are the same, and the second time nothing is
/// computed.
pub proof fn lemma_roots_kept(
    state: &mut CudaState,
    later_state: &mut CudaState,
    codeword_size: usize,
    flat: Vec<u64>,
    again: Vec<u64>,
)
    requires
        call_ensures(flattened_roots, (state, codeword_size), flat),
        *old(later_state) == *final(state),
        call_ensures(flattened_roots, (later_state, codeword_size), again),
    ensures
        flat@.len() == 4 * (codeword_size / 2),
        forall|k: int|
            0 <= k < codeword_size / 2 ==> (#[trigger] limbs::hydrated(flat@)[k])@
                == roots::twiddle(codeword_size as nat, k as nat),
        again@ == flat@,
        *final(later_state) == *final(state),
{
    assert forall|k: int| 0 <= k < codeword_size / 2 implies limbs::hydrated(flat@)[k]
        == limbs::hydrated(again@)[k] by {
        field::lemma_valid_unique(limbs::hydrated(flat@)[k], limbs::hydrated(again@)[k]);
    }
    assert(limbs::hydrated(flat@) =~= limbs::hydrated(again@));
    limbs::lemma_hydrate_round_trip(flat@);
    limbs::lemma_hydrate_round_trip(again@);
}

/// Whether a shape can be launched: there are groups and input, the input fits, the groups
/// are of one size, and the codeword size is a power of two.
pub open spec fn can_launch(shape: LaunchShape) -> bool {
    &&& shape.num_groups > 0
    &&& 0 < shape.input_elements <= shape.total_values
    &&& exists|size: int| shape.total_values == #[trigger] (size * shape.num_groups)
    &&& is_pow2(shape.codeword_size as int)
}

/// A shape that can be launched passes, and only such a shape does.
proof fn lemma_can_launch(shape: LaunchShape)
    ensures
        cuda::launch_check(shape) is None <==> can_launch(shape),
{
    if shape.num_groups > 0 {
        let groups = shape.num_groups as int;
        lemma_fundamental_div_mod(shape.total_values as int, groups);
        lemma_mul_is_commutative(groups, shape.total_values as int / groups);
        if exists|size: int| shape.total_values == #[trigger] (size * shape.num_groups) {
            let size = choose|size: int| shape.total_values == #[trigger] (size * shape.num_groups);
            lemma_mod_multiples_basic(size, groups);
        }
        if shape.total_values % shape.num_groups == 0 {
            assert(shape.total_values == (shape.total_values as int / groups) * shape.num_groups);
        }
    }
}

/// Every launch that reaches the device describes its own buffers: the limbs are those of
/// the input, four for each element; as many elements stand in each group as make up all
/// values together with the number of groups; there are half as many twiddle factors as the
/// codeword has rows; and the constants are those of the field. What comes back is the
/// device's reply to that launch.
pub proof fn lemma_launch_describes_buffers<
    E: Fn(Setting) -> EnvVar,
    P: Fn(i32) -> DeviceReply,
    K: FnOnce(NttLaunch) -> NttReply,
>(
    state: &mut CudaState,
    env: E,
    probe: P,
    kernel: K,
    host_input: Vec<u64>,
    shape: LaunchShape,
    result: Result<Vec<u64>, Error>,
)
    requires
        call_ensures(
            ntt_nr_cuda_raw::<E, P, K>,
            (state, &env, &probe, kernel, host_input, shape),
            result,
        ),
        can_launch(shape),
        host_input@.len() == 4 * shape.input_elements,
        final(state).is_up(),
    ensures
        exists|launch: NttLaunch, reply: NttReply|
            {
                &&& #[trigger] kernel.ensures((launch,), reply)
                &&& final(state).settings.device matches Some(Ok(index))
                &&& launch.device == index as i32
                &&& launch.values@ == host_input@
                &&& launch.values@.len() == 4 * launch.input_elements
                &&& launch.input_elements == shape.input_elements
                &&& launch.num_values == shape.total_values
                &&& launch.num_groups_start == shape.num_groups
                &&& launch.elements_in_group_start * launch.num_groups_start == launch.num_values
                &&& shape.codeword_size > 1 ==> 2 * launch.num_roots == shape.codeword_size
                &&& launch.roots@.len() == 4 * launch.num_roots
                &&& forall|k: int|
                    0 <= k < launch.num_roots ==> (#[trigger] limbs::hydrated(
                        launch.roots@,
                    )[k]).valid() && limbs::hydrated(launch.roots@)[k]@ == roots::twiddle(
                        shape.codeword_size as nat,
                        k as nat,
                    )
                &&& field::limbs_value(launch.modulus@) == field::modulus()
                &&& (launch.modulus@[0] * launch.montgomery_inv + 1)
                    % 0x1_0000_0000_0000_0000int == 0
                &&& result is Ok <==> reply.status == 0
                &&& result matches Ok(values) ==> values == reply.values
                &&& result matches Err(error) ==> {
                    &&& error matches Error::Device { kernel, status, message: _ }
                    &&& kernel is Transform
                    &&& status == reply.status
                }
            },
{
    lemma_can_launch(shape);
    assert forall|device: usize, launch: NttLaunch| #[trigger]
        cuda::is_launch(launch, device, host_input@, shape) implies cuda::describes_buffers(launch)
        && cuda::launch_rows(launch) == shape.codeword_size by {
        cuda::lemma_launch_described(launch, device, host_input@, shape);
    }
    let device = final(state).settings.device->0->Ok_0;
    let (launch, reply) = choose|launch: NttLaunch, reply: NttReply|
        {
            &&& cuda::is_launch(launch, device, host_input@, shape)
            &&& #[trigger] kernel.ensures((launch,), reply)
            &&& result is Ok <==> reply.status == 0
            &&& result matches Ok(values) ==> values == reply.values
            &&& result matches Err(error) ==> {
                &&& error matches Error::Device { kernel, status, message: _ }
                &&& kernel is Transform
                &&& status == reply.status
            }
        };
    assert(kernel.ensures((launch,), reply));
    assert(cuda::describes_buffers(launch));
}

/// What is wrong with a shape is said, the first thing first, and nothing is then brought up
/// or kept. A shape that can be launched fails only on the device.
pub proof fn lemma_launch_checked<
    E: Fn(Setting) -> EnvVar,
    P: Fn(i32) -> DeviceReply,
    K: FnOnce(NttLaunch) -> NttReply,
>(
    state: &mut CudaState,
    env: E,
    probe: P,
    kernel: K,
    host_input: Vec<u64>,
    shape: LaunchShape,
    result: Result<Vec<u64>, Error>,
)
    requires
        call_ensures(
            ntt_nr_cuda_raw::<E, P, K>,
            (state, &env, &probe, kernel, host_input, shape),
            result,
        ),
    ensures
        shape.num_groups == 0 ==> result == Err::<Vec<u64>, Error>(Error::ZeroGroups),
        shape.num_groups > 0 && shape.input_elements == 0 ==> result == Err::<Vec<u64>, Error>(
            Error::ZeroInput,
        ),
        shape.num_groups > 0 && shape.input_elements > shape.total_values ==> result == Err::<
            Vec<u64>,
            Error,
        >(Error::InputTooLong),
        shape.num_groups > 0 && 0 < shape.input_elements <= shape.total_values && (forall|
            size: int,
        | shape.total_values != #[trigger] (size * shape.num_groups)) ==> result == Err::<
            Vec<u64>,
            Error,
        >(Error::UnevenTotal),
        shape.num_groups > 0 && 0 < shape.input_elements <= shape.total_values && (exists|
            size: int,
        | shape.total_values == #[trigger] (size * shape.num_groups)) && !is_pow2(
            shape.codeword_size as int,
        ) ==> result == Err::<Vec<u64>, Error>(Error::CodewordSizeNotPower),
        !can_launch(shape) ==> *final(state) == *old(state),
        can_launch(shape) && !final(state).is_up() ==> final(state).preflight == Some(
            Err::<(), Error>(result->Err_0),
        ) && result is Err,
        can_launch(shape) && comes_up(*old(state), env, probe) && never_fails(kernel)
            ==> result is Ok,
{
    lemma_can_launch(shape);
    if shape.num_groups > 0 && 0 < shape.input_elements <= shape.total_values {
        let groups = shape.num_groups as int;
        lemma_fundamental_div_mod(shape.total_values as int, groups);
        lemma_mul_is_commutative(groups, shape.total_values as int / groups);
        if shape.total_values as int % groups == 0 {
            assert(shape.total_values == (shape.total_values as int / groups) * shape.num_groups);
        } else if exists|size: int| shape.total_values == #[trigger] (size * shape.num_groups) {
            let size = choose|size: int|
                shape.total_values == #[trigger] (size * shape.num_groups);
            lemma_mod_multiples_basic(size, groups);
        }
    }
}

/// A transformed value is checked with a stride of one always, with none never, and with any
/// other stride if it is the first or the last, or its index is a multiple of the stride.
pub proof fn lemma_checked_positions(index: usize, len: usize, stride: usize, yes: bool)
    requires
        call_ensures(should_check_hydrated_value, (index, len, stride), yes),
    ensures
        stride == 0 ==> !yes,
        stride == 1 ==> yes,
        stride > 1 ==> (yes <==> index == 0 || index + 1 == len || exists|times: int|
            index == #[trigger] (times * stride)),
{
    if stride > 1 {
        lemma_fundamental_div_mod(index as int, stride as int);
        lemma_mul_is_commutative(stride as int, index as int / stride as int);
        if index as int % stride as int == 0 {
            assert(index == (index as int / stride as int) * stride);
        } else if exists|times: int| index == #[trigger] (times * stride) {
            let times = choose|times: int| index == #[trigger] (times * stride);
            lemma_mod_multiples_basic(times, stride as int);
        }
    }
}

/// Values pass the check exactly if those that the stride selects are reduced: each with a
/// stride of one, none with a stride of zero, and otherwise at least the first, the last and
/// those whose index is a multiple of it.
pub proof fn lemma_values_checked(values: &[Fr], stride: usize, result: Result<(), Error>)
    requires
        call_ensures(check_values, (values, stride), result),
    ensures
        result matches Err(error) ==> error is OutsideField,
        stride == 0 ==> result is Ok,
        stride == 1 ==> (result is Ok <==> forall|i: int|
            0 <= i < values@.len() ==> (#[trigger] values@[i]).valid()),
        stride > 1 ==> (result is Ok <==> forall|i: int|
            0 <= i < values@.len() && (i == 0 || i == values@.len() - 1 || exists|times: int|
                i == #[trigger] (times * stride)) ==> (#[trigger] values@[i]).valid()),
{
    let len = values@.len() as int;
    assert forall|i: int| 0 <= i < len && stride > 1 implies #[trigger] cuda::guarded(
        i,
        len,
        stride as int,
    ) == (i == 0 || i == len - 1 || exists|times: int| i == #[trigger] (times * stride)) by {
        lemma_fundamental_div_mod(i, stride as int);
        lemma_mul_is_commutative(stride as int, i / stride as int);
        if i % stride as int == 0 {
            assert(i == (i / stride as int) * stride);
        } else if exists|times: int| i == #[trigger] (times * stride) {
            let times = choose|times: int| i == #[trigger] (times * stride);
            lemma_mod_multiples_basic(times, stride as int);
        }
    }
    assert forall|i: int| 0 <= i < len && stride == 1 implies #[trigger] cuda::guarded(
        i,
        len,
        stride as int,
    ) by {}
    if stride > 1 && result is Err && forall|i: int|
        0 <= i < len && (i == 0 || i == len - 1 || exists|times: int|
            i == #[trigger] (times * stride)) ==> (#[trigger] values@[i]).valid() {
        assert forall|i: int| 0 <= i < len && cuda::guarded(i, len, stride as int) implies (
        #[trigger] values@[i]).valid() by {}
    }
    if stride > 1 && result is Ok {
        assert forall|i: int|
            0 <= i < len && (i == 0 || i == len - 1 || exists|times: int|
                i == #[trigger] (times * stride)) implies (#[trigger] values@[i]).valid() by {
            assert(cuda::guarded(i, len, stride as int));
        }
    }
    if stride == 1 && result is Ok {
        assert forall|i: int| 0 <= i < len implies (#[trigger] values@[i]).valid() by {
            assert(cuda::guarded(i, len, stride as int));
        }
    }
}

/// Checking by the guard setting is checking with the stride that it gives: none without it.
pub proof fn lemma_guard_by_setting<E: Fn(Setting) -> EnvVar>(
    settings: &mut CudaSettings,
    env: E,
    values: &[Fr],
    stride: usize,
    result: Result<(), Error>,
    checked: Result<(), Error>,
)
    requires
        call_ensures(release_guard_check::<E>, (settings, &env, values), result),
        call_ensures(check_values, (values, stride), checked),
    ensures
        (match old(settings).guard_stride {
            Some(kept) => kept == Ok::<usize, Error>(stride),
            None => {
                ||| never_set(env, Setting::GuardStride) && stride == 0
                ||| always_set(env, Setting::GuardStride, stride)
            },
        }) ==> result == checked,
        old(settings).guard_stride matches Some(Err(error)) ==> result == Err::<(), Error>(error),
        final(settings).device == old(settings).device,
        final(settings).min_codeword_size == old(settings).min_codeword_size,
        final(settings).policy == old(settings).policy,
        final(settings).guard_stride is Some,
{
}

/// Reduced values pass every check, and what is refused is not reduced.
pub proof fn lemma_reduced_values_pass<E: Fn(Setting) -> EnvVar>(
    settings: &mut CudaSettings,
    env: E,
    values: &[Fr],
    result: Result<(), Error>,
)
    requires
        call_ensures(release_guard_check::<E>, (settings, &env, values), result),
        gives_number(old(settings).guard_stride, env, Setting::GuardStride),
    ensures
        (forall|i: int| 0 <= i < values@.len() ==> (#[trigger] values@[i]).valid())
            ==> result is Ok,
        result matches Err(error) ==> error is OutsideField,
{
}

/// What is wrong with values that are to be transformed in place is said, the first thing
/// first; then nothing is brought up, kept or changed. A codeword of at most one row is left
/// as it is, whatever the groups.
pub proof fn lemma_in_place_checked<
    E: Fn(Setting) -> EnvVar,
    P: Fn(i32) -> DeviceReply,
    K: FnOnce(NttLaunch) -> NttReply,
>(
    state: &mut CudaState,
    env: E,
    probe: P,
    kernel: K,
    debug: bool,
    values: &mut [Fr],
    codeword_size: usize,
    num_groups: usize,
    result: Result<(), Error>,
)
    requires
        call_ensures(
            ntt_nr_cuda::<E, P, K>,
            (state, &env, &probe, kernel, debug, values, codeword_size, num_groups),
            result,
        ),
    ensures
        final(values)@.len() == old(values)@.len(),
        codeword_size <= 1 ==> result is Ok,
        codeword_size > 1 && num_groups == 0 ==> result == Err::<(), Error>(Error::ZeroGroups),
        codeword_size > 1 && num_groups > 0 && (forall|size: int|
            old(values)@.len() != #[trigger] (size * num_groups)) ==> result == Err::<(), Error>(
            Error::UnevenValues,
        ),
        codeword_size > 1 && num_groups > 0 && (exists|size: int|
            old(values)@.len() == #[trigger] (size * num_groups)) && !is_pow2(
            codeword_size as int,
        ) ==> result == Err::<(), Error>(Error::CodewordSizeNotPower),
        codeword_size <= 1 || num_groups == 0 || (forall|size: int|
            old(values)@.len() != #[trigger] (size * num_groups)) || !is_pow2(codeword_size as int)
            ==> final(values)@ == old(values)@ && *final(state) == *old(state),
{
    if num_groups > 0 {
        let len = old(values)@.len() as int;
        let groups = num_groups as int;
        lemma_fundamental_div_mod(len, groups);
        lemma_mul_is_commutative(groups, len / groups);
        if len % groups == 0 {
            assert(len == (len / groups) * num_groups);
        } else if exists|size: int| len == #[trigger] (size * num_groups) {
            let size = choose|size: int| len == #[trigger] (size * num_groups);
            lemma_mod_multiples_basic(size, groups);
        }
    }
}

/// Values that form groups of codewords whose size is a power of two are transformed: if the
/// device comes up, never fails and computes the transform, and all settings are readable,
/// the call succeeds, and the values become their transform, whether the host or the device
/// computed it.
pub proof fn lemma_in_place_succeeds<
    E: Fn(Setting) -> EnvVar,
    P: Fn(i32) -> DeviceReply,
    K: FnOnce(NttLaunch) -> NttReply,
>(
    state: &mut CudaState,
    env: E,
    probe: P,
    kernel: K,
    debug: bool,
    values: &mut [Fr],
    codeword_size: usize,
    num_groups: usize,
    result: Result<(), Error>,
)
    requires
        call_ensures(
            ntt_nr_cuda::<E, P, K>,
            (state, &env, &probe, kernel, debug, values, codeword_size, num_groups),
            result,
        ),
        is_pow2(codeword_size as int),
        codeword_size > 1,
        num_groups > 0,
        exists|size: int| old(values)@.len() == #[trigger] (size * num_groups),
        old(values)@.len() > 0,
        comes_up(*old(state), env, probe),
        gives_number(old(state).settings.min_codeword_size, env, Setting::MinCodewordSize),
        gives_number(old(state).settings.guard_stride, env, Setting::GuardStride),
        never_fails(kernel),
        cuda::computes_transform(kernel),
    ensures
        result is Ok,
        transform::is_transform(
            old(values)@,
            final(values)@,
            codeword_size as nat,
            num_groups as nat,
        ),
        final(state).is_up(),
{
    let size = choose|size: int| old(values)@.len() == #[trigger] (size * num_groups);
    lemma_mod_multiples_basic(size, num_groups as int);
    let input = old(values)@;
    let shape = LaunchShape {
        input_elements: input.len() as usize,
        total_values: input.len() as usize,
        codeword_size,
        num_groups,
    };
    assert forall|device: usize, outcome: Result<Vec<u64>, Error>| #[trigger]
        cuda::launched(kernel, device, limbs::flattened(input), shape, outcome) && input.len()
            <= usize::MAX implies outcome is Ok && transform::is_transform(
        input,
        limbs::hydrated(outcome->Ok_0@),
        codeword_size as nat,
        num_groups as nat,
    ) by {
        cuda::lemma_launch_transforms(kernel, device, input, shape, outcome);
    }
}

/// A device that does not come up, or a size setting that cannot be read, is an error for
/// values of every shape that pass the check, and they are left as they were.
pub proof fn lemma_in_place_needs_device<
    E: Fn(Setting) -> EnvVar,
    P: Fn(i32) -> DeviceReply,
    K: FnOnce(NttLaunch) -> NttReply,
>(
    state: &mut CudaState,
    env: E,
    probe: P,
    kernel: K,
    debug: bool,
    values: &mut [Fr],
    codeword_size: usize,
    num_groups: usize,
    result: Result<(), Error>,
)
    requires
        call_ensures(
            ntt_nr_cuda::<E, P, K>,
            (state, &env, &probe, kernel, debug, values, codeword_size, num_groups),
            result,
        ),
        is_pow2(codeword_size as int),
        codeword_size > 1,
        num_groups > 0,
        exists|size: int| old(values)@.len() == #[trigger] (size * num_groups),
    ensures
        final(state).preflight is Some,
        final(state).preflight matches Some(Err(error)) ==> result == Err::<(), Error>(error)
            && final(values)@ == old(values)@,
        final(state).is_up() ==> {
            &&& final(state).settings.min_codeword_size is Some
            &&& final(state).settings.min_codeword_size matches Some(Err(error)) ==> result
                == Err::<(), Error>(error) && final(values)@ == old(values)@
            &&& is_offloaded(final(state).settings, codeword_size) && old(values)@.len() == 0
                ==> result == Err::<(), Error>(Error::ZeroInput)
            &&& final(state).settings.min_codeword_size matches Some(Ok(minimum)) ==> (
            codeword_size < minimum ==> result is Ok)
            &&& old(state).settings.min_codeword_size is None ==> may_be_read(
                env,
                Setting::MinCodewordSize,
                2048,
                final(state).settings.min_codeword_size->0,
            )
        },
{
    let size = choose|size: int| old(values)@.len() == #[trigger] (size * num_groups);
    lemma_mod_multiples_basic(size, num_groups as int);
}

/// What the device gives back for values that are offloaded is looked at: in debug builds
/// each of them is reduced if the call succeeds, and otherwise those that the guard setting
/// selects.
pub proof fn lemma_offloaded_values_checked<
    E: Fn(Setting) -> EnvVar,
    P: Fn(i32) -> DeviceReply,
    K: FnOnce(NttLaunch) -> NttReply,
>(
    state: &mut CudaState,
    env: E,
    probe: P,
    kernel: K,
    debug: bool,
    values: &mut [Fr],
    codeword_size: usize,
    num_groups: usize,
    result: Result<(), Error>,
)
    requires
        call_ensures(
            ntt_nr_cuda::<E, P, K>,
            (state, &env, &probe, kernel, debug, values, codeword_size, num_groups),
            result,
        ),
        codeword_size > 1,
        result is Ok,
    ensures
        debug ==> transform::all_valid(final(values)@),
        final(state).settings.guard_stride == Some(Ok::<usize, Error>(1)) && !debug
            ==> transform::all_valid(final(values)@),
        final(state).settings.guard_stride matches Some(Ok(stride)) && !debug && stride > 1
            && final(values)@.len() > 0 ==> final(values)@[0].valid() && final(values)@[
            final(values)@.len() - 1].valid(),
        debug ==> final(state).settings.guard_stride == old(state).settings.guard_stride,
{
    let output = final(values)@;
    let len = output.len() as int;
    assert forall|stride: int| #[trigger] cuda::guard_result(output, stride) is Ok && stride
        == 1 implies transform::all_valid(output) by {
        assert forall|i: int| 0 <= i < len implies (#[trigger] output[i]).valid() by {
            assert(cuda::guarded(i, len, 1));
        }
    }
    assert forall|stride: int| #[trigger] cuda::guard_result(output, stride) is Ok && stride > 1
        && len > 0 implies output[0].valid() && output[len - 1].valid() by {
        assert(cuda::guarded(0, len, stride));
        assert(cuda::guarded(len - 1, len, stride));
    }
}

/// Whether a codeword is large enough to be offloaded once the size setting was read.
pub open spec fn is_offloaded(settings: CudaSettings, codeword_size: usize) -> bool {
    settings.min_codeword_size matches Some(Ok(minimum)) && codeword_size >= minimum
}

/// Values that are offloaded are handed to the device as they are, in the groups and rows
/// that were asked for. If it succeeds the values become what it gives back, also if that is
/// then refused; if it fails they stay as they were.
pub proof fn lemma_in_place_launched<
    E: Fn(Setting) -> EnvVar,
    P: Fn(i32) -> DeviceReply,
    K: FnOnce(NttLaunch) -> NttReply,
>(
    state: &mut CudaState,
    env: E,
    probe: P,
    kernel: K,
    debug: bool,
    values: &mut [Fr],
    codeword_size: usize,
    num_groups: usize,
    result: Result<(), Error>,
)
    requires
        call_ensures(
            ntt_nr_cuda::<E, P, K>,
            (state, &env, &probe, kernel, debug, values, codeword_size, num_groups),
            result,
        ),
        is_pow2(codeword_size as int),
        codeword_size > 1,
        num_groups > 0,
        exists|size: int| old(values)@.len() == #[trigger] (size * num_groups),
        old(values)@.len() > 0,
        final(state).is_up(),
        is_offloaded(final(state).settings, codeword_size),
    ensures
        exists|launch: NttLaunch, reply: NttReply|
            {
                &&& #[trigger] kernel.ensures((launch,), reply)
                &&& final(state).settings.device matches Some(Ok(index))
                &&& launch.device == index as i32
                &&& limbs::hydrated(launch.values@) == old(values)@
                &&& launch.values@.len() == 4 * old(values)@.len()
                &&& launch.input_elements == old(values)@.len()
                &&& launch.num_values == old(values)@.len()
                &&& launch.num_groups_start == num_groups
                &&& launch.elements_in_group_start * num_groups == old(values)@.len()
                &&& 2 * launch.num_roots == codeword_size
                &&& reply.status == 0 ==> final(values)@ == limbs::hydrated(reply.values@)
                &&& reply.status == 0 && debug ==> (result is Ok <==> transform::all_valid(
                    final(values)@,
                )) && (result is Err ==> result->Err_0 is OutsideField)
                &&& reply.status == 0 && !debug ==> {
                    &&& final(state).settings.guard_stride is Some
                    &&& final(state).settings.guard_stride matches Some(Err(error)) ==> result
                        == Err::<(), Error>(error)
                    &&& final(state).settings.guard_stride matches Some(Ok(stride)) ==> {
                        &&& result is Ok ==> guarded_by(final(values)@, stride)
                        &&& result is Err ==> result->Err_0 is OutsideField && stride > 0
                            && !transform::all_valid(final(values)@)
                    }
                }
                &&& reply.status != 0 ==> {
                    &&& final(values)@ == old(values)@
                    &&& result matches Err(error)
                    &&& error matches Error::Device { kernel, status, message: _ }
                    &&& kernel is Transform
                    &&& status == reply.status
                }
            },
{
    let size = choose|size: int| old(values)@.len() == #[trigger] (size * num_groups);
    lemma_mod_multiples_basic(size, num_groups as int);
    let input = old(values)@;
    let flat = limbs::flattened(input);
    let shape = LaunchShape {
        input_elements: input.len() as usize,
        total_values: input.len() as usize,
        codeword_size,
        num_groups,
    };
    limbs::lemma_flatten_round_trip(input);
    let device = final(state).settings.device->0->Ok_0;
    let outcome = choose|outcome: Result<Vec<u64>, Error>|
        {
            &&& #[trigger] cuda::launched(kernel, device, flat, shape, outcome)
            &&& outcome matches Err(error) ==> result == Err::<(), Error>(error)
                && final(values)@ == input
            &&& outcome matches Ok(limbs) ==> {
                &&& final(values)@ == limbs::hydrated(limbs@)
                &&& debug ==> result == cuda::guard_result(final(values)@, 1)
                &&& !debug ==> {
                    &&& final(state).settings.guard_stride matches Some(stride)
                    &&& result == cuda::guard_decision(stride, final(values)@)
                }
            }
        };
    let (launch, reply) = choose|launch: NttLaunch, reply: NttReply|
        {
            &&& cuda::is_launch(launch, device, flat, shape)
            &&& #[trigger] kernel.ensures((launch,), reply)
            &&& outcome is Ok <==> reply.status == 0
            &&& outcome matches Ok(values) ==> values == reply.values
            &&& outcome matches Err(error) ==> {
                &&& error matches Error::Device { kernel, status, message: _ }
                &&& kernel is Transform
                &&& status == reply.status
            }
        };
    cuda::lemma_launch_described(launch, device, flat, shape);
    assert(kernel.ensures((launch,), reply));
    if reply.status == 0 && debug && result is Ok {
        lemma_guarded_by(final(values)@, 1);
    }
    if reply.status == 0 && !debug && result is Ok {
        lemma_guarded_by(final(values)@, final(state).settings.guard_stride->0->Ok_0);
    }
}

/// Whether values were looked at as a guard setting says: each with a stride of one, and
/// otherwise at least the first, the last and those whose index is a multiple of the stride.
pub open spec fn guarded_by(values: Seq<Fr>, stride: usize) -> bool {
    &&& stride == 1 ==> transform::all_valid(values)
    &&& stride > 1 ==> forall|i: int|
        0 <= i < values.len() && (i == 0 || i == values.len() - 1 || i % stride as int == 0)
            ==> (#[trigger] values[i]).valid()
}

/// Values that pass the check of a stride were looked at as it says.
pub proof fn lemma_guarded_by(values: Seq<Fr>, stride: usize)
    requires
        cuda::guard_result(values, stride as int) is Ok,
    ensures
        guarded_by(values, stride),
{
    let len = values.len() as int;
    if stride == 1 {
        assert forall|i: int| 0 <= i < len implies (#[trigger] values[i]).valid() by {
            assert(cuda::guarded(i, len, 1));
        }
    }
    if stride > 1 {
        assert forall|i: int|
            0 <= i < len && (i == 0 || i == len - 1 || i % stride as int == 0) implies (
        #[trigger] values[i]).valid() by {
            assert(cuda::guarded(i, len, stride as int));
        }
    }
}

/// A process starts with nothing read, brought up or computed.
pub proof fn lemma_fresh_device_state(state: CudaState)
    requires
        call_ensures(CudaState::new, (), state),
    ensures
        state.wf(),
        state.preflight is None,
        state.settings.device is None && state.settings.min_codeword_size is None,
        state.settings.policy is None && state.settings.guard_stride is None,
        forall|size: usize| !(#[trigger] state.flattened_roots@.contains_key(size)),
{
}

} // verus!
