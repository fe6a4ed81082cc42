//! The transform on a CUDA device.
//!
//! The device is reached through functions that the caller passes in. What they are given
//! and what is made of their replies is decided here.
use std::collections::HashMap;

use vstd::arithmetic::div_mod::*;
use vstd::arithmetic::mul::*;
use vstd::arithmetic::power2::*;
use vstd::prelude::*;

use crate::bits;
use crate::bits::is_power_of_two;
use crate::device;
use crate::device::{check_reply, DeviceReply};
use crate::error::{Error, Kernel, Setting};
use crate::field;
use crate::field::{fr_modulus, Fr, LIMBS_PER_FR};
use crate::layout;
use crate::limbs;
use crate::limbs::{flatten_roots_into, fr_slice_as_u64, fr_slice_from_u64, montgomery_inv};
use crate::roots;
use crate::roots::reverse_ordered_roots;
use crate::settings;
use crate::settings::{
    copied, cuda_device_index, cuda_release_guard_stride, cuda_should_offload_codeword_size,
    CudaSettings, EnvVar,
};
use crate::transform;
use crate::transform::ntt_nr;

verus! {

/// What is kept between calls: the settings that were read, how the device came up, and
/// the twiddle factors of each codeword size that was transformed.
#[derive(Debug)]
pub struct CudaState {
    pub settings: CudaSettings,
    pub preflight: Option<Result<(), Error>>,
    pub flattened_roots: HashMap<usize, Vec<u64>>,
}

/// Whether limbs are those of the twiddle factors of a codeword size, in order.
pub open spec fn is_flat_roots(codeword_size: usize, flat: Seq<u64>) -> bool {
    &&& flat.len() == LIMBS_PER_FR * (codeword_size / 2)
    &&& forall|k: int|
        0 <= k < codeword_size / 2 ==> (#[trigger] limbs::hydrated(flat)[k]).valid()
            && limbs::hydrated(flat)[k]@ == roots::twiddle(codeword_size as nat, k as nat)
}

/// Whether the device setting was read and names a device.
pub open spec fn has_device(settings: CudaSettings) -> bool {
    settings.device matches Some(Ok(_))
}

impl CudaState {
    /// Whether the device was brought up.
    pub open spec fn is_up(self) -> bool {
        self.preflight matches Some(Ok(_))
    }

    /// A device that came up has an index, and all kept twiddle factors are right.
    pub open spec fn wf(self) -> bool {
        &&& self.is_up() ==> has_device(self.settings)
        &&& forall|size: usize|
            self.flattened_roots@.contains_key(size) ==> is_flat_roots(
                size,
                (#[trigger] self.flattened_roots@[size])@,
            )
    }

    /// The state before the first call.
    pub fn new() -> (state: CudaState)
        ensures
            state.wf(),
            state.settings.device is None,
            state.settings.min_codeword_size is None,
            state.settings.policy is None,
            state.settings.guard_stride is None,
            state.preflight is None,
            state.flattened_roots@ == Map::<usize, Vec<u64>>::empty(),
    {
        broadcast use vstd::std_specs::hash::group_hash_axioms;

        CudaState {
            settings: CudaSettings::new(),
            preflight: None,
            flattened_roots: HashMap::new(),
        }
    }
}

/// What the device transform needs to know besides the values.
#[derive(Debug)]
pub struct CudaRuntimeState {
    pub device: usize,
    pub modulus: [u64; 4],
    pub montgomery_inv: u64,
}

impl CudaRuntimeState {
    /// Whether the constants are those of the field.
    pub open spec fn valid(self) -> bool {
        &&& field::limbs_value(self.modulus@) == field::modulus()
        &&& (self.modulus@[0] * self.montgomery_inv + 1) % limbs::word() == 0
    }
}

/// The constants for a device that came up.
pub fn cuda_runtime_state(device: usize) -> (runtime: CudaRuntimeState)
    ensures
        runtime.device == device,
        runtime.valid(),
{
    let modulus = fr_modulus();
    assert(modulus@[0] % 2 == 1);
    CudaRuntimeState { device, modulus, montgomery_inv: montgomery_inv(modulus[0]) }
}

/// The twiddle factors of a codeword size as limbs, computed the first time.
pub fn flattened_roots(state: &mut CudaState, codeword_size: usize) -> (flat: Vec<u64>)
    requires
        old(state).wf(),
        codeword_size > 1 ==> field::has_root(codeword_size as int),
    ensures
        is_flat_roots(codeword_size, flat@),
        final(state).wf(),
        final(state).settings == old(state).settings,
        final(state).preflight == old(state).preflight,
        old(state).flattened_roots@.contains_key(codeword_size) ==> *final(state) == *old(state),
        final(state).flattened_roots@.dom() == old(state).flattened_roots@.dom().insert(
            codeword_size,
        ),
{
    broadcast use vstd::std_specs::hash::group_hash_axioms;

    if let Some(cached) = state.flattened_roots.get(&codeword_size) {
        assert(state.flattened_roots@.dom() =~= state.flattened_roots@.dom().insert(codeword_size));
        return cached.clone();
    }
    let mut flat: Vec<u64> = Vec::new();
    let factors = reverse_ordered_roots(codeword_size);
    flatten_roots_into(factors.as_slice(), &mut flat);
    proof {
        limbs::lemma_flatten_round_trip(factors@);
    }
    let copy = flat.clone();
    state.flattened_roots.insert(codeword_size, copy);
    flat
}

/// Brings the device with a given index up.
pub fn call_cuda_preflight<P: Fn(i32) -> DeviceReply>(device: usize, kernel: &P) -> (result:
    Result<(), Error>)
    requires
        kernel.requires((device as i32,)),
    ensures
        exists|reply: DeviceReply|
            #[trigger] kernel.ensures((device as i32,), reply) && device::device_result(
                Kernel::Preflight,
                reply.status,
                reply.error_buffer@,
                result,
            ),
{
    let reply = kernel(
        #[verifier::truncate]
        (device as i32),
    );
    check_reply(Kernel::Preflight, reply.status, reply.error_buffer.as_slice())
}

/// Whether it was known how the device came up, or it was brought up and that was noted.
pub open spec fn preflight_once<E: Fn(Setting) -> EnvVar, P: Fn(i32) -> DeviceReply>(
    before: CudaState,
    after: CudaState,
    env: E,
    kernel: P,
    result: Result<(), Error>,
) -> bool {
    &&& after.preflight == Some(result)
    &&& match before.preflight {
        Some(cached) => result == cached && after.settings.device == before.settings.device,
        None => {
            &&& after.settings.device matches Some(device)
            &&& settings::number_read_once(
                before.settings.device,
                after.settings.device,
                Setting::CudaDevice,
                0,
                env,
                device,
            )
            &&& match device {
                Ok(index) => exists|reply: DeviceReply|
                    #[trigger] kernel.ensures((index as i32,), reply) && device::device_result(
                        Kernel::Preflight,
                        reply.status,
                        reply.error_buffer@,
                        result,
                    ),
                Err(error) => result == Err::<(), Error>(error),
            }
        },
    }
}

/// Whether the device setting, as far as it was read, may name a device.
pub open spec fn device_may_be<E: Fn(Setting) -> EnvVar>(
    cache: Option<Result<usize, Error>>,
    env: E,
    index: usize,
) -> bool {
    settings::number_may_be(cache, Setting::CudaDevice, 0, env, index)
}

/// Whether a device can be brought up as far as it has to be: if it is not known how that
/// went, the device setting can be read unless it was, and the device that it names, if it
/// names one, can be brought up.
pub open spec fn probe_granted<E: Fn(Setting) -> EnvVar, P: Fn(i32) -> DeviceReply>(
    state: CudaState,
    env: E,
    kernel: P,
) -> bool {
    state.preflight is None ==> {
        &&& state.settings.device is None ==> env.requires((Setting::CudaDevice,))
        &&& forall|index: usize|
            #[trigger] device_may_be(state.settings.device, env, index) ==> kernel.requires(
                (index as i32,),
            )
    }
}

/// Whether the device is up, or may come up.
pub open spec fn may_be_up<E: Fn(Setting) -> EnvVar, P: Fn(i32) -> DeviceReply>(
    state: CudaState,
    env: E,
    kernel: P,
) -> bool {
    match state.preflight {
        Some(cached) => cached is Ok,
        None => exists|index: usize, reply: DeviceReply|
            {
                &&& #[trigger] device_may_be(state.settings.device, env, index)
                &&& #[trigger] kernel.ensures((index as i32,), reply)
                &&& reply.status == device::CUDA_SUCCESS
            },
    }
}

/// A device that came up was one that may come up.
pub proof fn lemma_came_up<E: Fn(Setting) -> EnvVar, P: Fn(i32) -> DeviceReply>(
    before: CudaState,
    after: CudaState,
    env: E,
    kernel: P,
    result: Result<(), Error>,
)
    requires
        preflight_once(before, after, env, kernel, result),
        result is Ok,
    ensures
        may_be_up(before, env, kernel),
{
    if before.preflight is None {
        let index = after.settings.device->0->Ok_0;
        assert(device_may_be(before.settings.device, env, index));
    }
}

/// Brings the device up the first time, and says how that went. Once that is known, and if
/// no device is named, nothing is brought up.
pub fn preflight_cuda<E: Fn(Setting) -> EnvVar, P: Fn(i32) -> DeviceReply>(
    state: &mut CudaState,
    env: &E,
    kernel: &P,
) -> (result: Result<(), Error>)
    requires
        old(state).wf(),
        probe_granted(*old(state), *env, *kernel),
    ensures
        final(state).wf(),
        *final(state) == (CudaState {
            settings: CudaSettings {
                device: final(state).settings.device,
                ..old(state).settings
            },
            preflight: final(state).preflight,
            ..*old(state)
        }),
        preflight_once(*old(state), *final(state), *env, *kernel, result),
{
    if let Some(cached) = &state.preflight {
        return copied(cached);
    }
    let result = match cuda_device_index(&mut state.settings, env) {
        Ok(device) => {
            assert(device_may_be(old(state).settings.device, *env, device));
            call_cuda_preflight(device, kernel)
        },
        Err(error) => Err(error),
    };
    state.preflight = Some(copied(&result));
    result
}

/// What is handed to the device transform.
#[derive(Debug)]
pub struct NttLaunch {
    pub device: i32,
    pub values: Vec<u64>,
    pub input_elements: usize,
    pub num_values: usize,
    pub roots: Vec<u64>,
    pub num_roots: usize,
    pub elements_in_group_start: usize,
    pub num_groups_start: usize,
    pub modulus: [u64; 4],
    pub montgomery_inv: u64,
}

/// What the device transform reports: its status, the buffer that it may have written a
/// message to, and the limbs of the transformed values.
#[derive(Debug)]
pub struct NttReply {
    pub status: i32,
    pub error_buffer: Vec<u8>,
    pub values: Vec<u64>,
}

/// The shape of a transform on a device.
pub struct LaunchShape {
    pub input_elements: usize,
    pub total_values: usize,
    pub codeword_size: usize,
    pub num_groups: usize,
}

/// Whether a launch is the one for given limbs and a given shape.
pub open spec fn is_launch(
    launch: NttLaunch,
    device: usize,
    input: Seq<u64>,
    shape: LaunchShape,
) -> bool {
    &&& launch.device == device as i32
    &&& launch.values@ == input
    &&& launch.input_elements == shape.input_elements
    &&& launch.num_values == shape.total_values
    &&& is_flat_roots(shape.codeword_size, launch.roots@)
    &&& launch.num_roots == shape.codeword_size / 2
    &&& launch.elements_in_group_start == shape.total_values / shape.num_groups
    &&& launch.num_groups_start == shape.num_groups
    &&& (CudaRuntimeState {
        device,
        modulus: launch.modulus,
        montgomery_inv: launch.montgomery_inv,
    }).valid()
}

/// The number of rows that a launch transforms.
pub open spec fn launch_rows(launch: NttLaunch) -> nat {
    if launch.num_roots == 0 {
        1
    } else {
        2 * launch.num_roots as nat
    }
}

/// Whether a launch describes its own buffers: as many limbs as the input has, groups of
/// elements that make up all values, the twiddle factors of as many rows as it transforms,
/// and the constants of the field.
pub open spec fn describes_buffers(launch: NttLaunch) -> bool {
    &&& launch.values@.len() == 4 * launch.input_elements
    &&& 0 < launch.input_elements <= launch.num_values
    &&& launch.num_groups_start > 0
    &&& launch.elements_in_group_start * launch.num_groups_start == launch.num_values
    &&& launch.roots@.len() == 4 * launch.num_roots
    &&& forall|k: int|
        0 <= k < launch.num_roots ==> (#[trigger] limbs::hydrated(launch.roots@)[k]).valid()
            && limbs::hydrated(launch.roots@)[k]@ == roots::twiddle(
            launch_rows(launch),
            k as nat,
        )
    &&& field::limbs_value(launch.modulus@) == field::modulus()
    &&& (launch.modulus@[0] * launch.montgomery_inv + 1) % limbs::word() == 0
}

/// Whether a device transform fills all values on success.
pub open spec fn fills_values<K: FnOnce(NttLaunch) -> NttReply>(kernel: K) -> bool {
    forall|launch: NttLaunch, reply: NttReply|
        #[trigger] kernel.ensures((launch,), reply) && reply.status == device::CUDA_SUCCESS
            ==> reply.values@.len() == LIMBS_PER_FR * launch.num_values
}

/// Whether a function can stand for the device transform: it takes every launch that
/// describes its own buffers, and on success it fills all values.
pub open spec fn is_transform_kernel<K: FnOnce(NttLaunch) -> NttReply>(kernel: K) -> bool {
    &&& forall|launch: NttLaunch|
        describes_buffers(launch) ==> #[trigger] kernel.requires((launch,))
    &&& fills_values(kernel)
}

/// Whether a device transform computes what the host transform computes, given a launch that
/// describes its own buffers and leaves no room.
pub open spec fn computes_transform<K: FnOnce(NttLaunch) -> NttReply>(kernel: K) -> bool {
    forall|launch: NttLaunch, reply: NttReply|
        #[trigger] kernel.ensures((launch,), reply) && reply.status == device::CUDA_SUCCESS
            && describes_buffers(launch) && launch.input_elements == launch.num_values
            ==> transform::is_transform(
            limbs::hydrated(launch.values@),
            limbs::hydrated(reply.values@),
            launch_rows(launch),
            launch.num_groups_start as nat,
        )
}

/// The first thing that is wrong with the shape of a launch.
pub open spec fn launch_check(shape: LaunchShape) -> Option<Error> {
    if shape.num_groups == 0 {
        Some(Error::ZeroGroups)
    } else if shape.input_elements == 0 {
        Some(Error::ZeroInput)
    } else if shape.input_elements > shape.total_values {
        Some(Error::InputTooLong)
    } else if shape.total_values % shape.num_groups != 0 {
        Some(Error::UnevenTotal)
    } else if !is_pow2(shape.codeword_size as int) {
        Some(Error::CodewordSizeNotPower)
    } else {
        None
    }
}

/// What a launch on a device comes to.
pub open spec fn launched<K: FnOnce(NttLaunch) -> NttReply>(
    kernel: K,
    device: usize,
    input: Seq<u64>,
    shape: LaunchShape,
    result: Result<Vec<u64>, Error>,
) -> bool {
    exists|launch: NttLaunch, reply: NttReply|
        {
            &&& is_launch(launch, device, input, shape)
            &&& #[trigger] kernel.ensures((launch,), reply)
            &&& match result {
                Ok(values) => reply.status == device::CUDA_SUCCESS && values == reply.values,
                Err(error) => reply.status != device::CUDA_SUCCESS && device::device_result(
                    Kernel::Transform,
                    reply.status,
                    reply.error_buffer@,
                    Err(error),
                ),
            }
        }
}

/// The launch for a shape that passes the check describes its own buffers.
pub proof fn lemma_launch_described(
    launch: NttLaunch,
    device: usize,
    input: Seq<u64>,
    shape: LaunchShape,
)
    requires
        is_launch(launch, device, input, shape),
        launch_check(shape) is None,
        input.len() == 4 * shape.input_elements,
    ensures
        describes_buffers(launch),
        launch_rows(launch) == shape.codeword_size,
{
    let groups = shape.num_groups as int;
    lemma_fundamental_div_mod(shape.total_values as int, groups);
    lemma_mul_is_commutative(groups, shape.total_values as int / groups);
    if shape.codeword_size > 1 {
        lemma_rows_of_shape(shape.codeword_size);
    } else {
        bits::lemma_power_positive(shape.codeword_size as int);
    }
}

/// What a launch of values without further room comes to if the device transform is right:
/// the transform of the values.
pub proof fn lemma_launch_transforms<K: FnOnce(NttLaunch) -> NttReply>(
    kernel: K,
    device: usize,
    input: Seq<Fr>,
    shape: LaunchShape,
    result: Result<Vec<u64>, Error>,
)
    requires
        launched(kernel, device, limbs::flattened(input), shape, result),
        launch_check(shape) is None,
        shape.input_elements == input.len(),
        shape.total_values == input.len(),
        computes_transform(kernel),
    ensures
        result matches Ok(limbs) ==> transform::is_transform(
            input,
            limbs::hydrated(limbs@),
            shape.codeword_size as nat,
            shape.num_groups as nat,
        ),
{
    limbs::lemma_flatten_round_trip(input);
    assert forall|launch: NttLaunch|
        is_launch(launch, device, limbs::flattened(input), shape) implies #[trigger]
    describes_buffers(launch) && launch_rows(launch) == shape.codeword_size by {
        lemma_launch_described(launch, device, limbs::flattened(input), shape);
    }
}

/// Launches the transform on a device that is up.
fn launch_transform<K: FnOnce(NttLaunch) -> NttReply>(
    kernel: K,
    device: usize,
    host_input: Vec<u64>,
    roots_flat: Vec<u64>,
    shape: LaunchShape,
) -> (result: Result<Vec<u64>, Error>)
    requires
        fills_values(kernel),
        forall|launch: NttLaunch|
            is_launch(launch, device, host_input@, shape) ==> #[trigger] kernel.requires(
                (launch,),
            ),
        is_flat_roots(shape.codeword_size, roots_flat@),
        shape.num_groups > 0,
    ensures
        launched(kernel, device, host_input@, shape, result),
        result matches Ok(values) ==> values@.len() == LIMBS_PER_FR * shape.total_values,
{
    let runtime = cuda_runtime_state(device);
    let launch = NttLaunch {
        device: #[verifier::truncate]
        (runtime.device as i32),
        values: host_input,
        input_elements: shape.input_elements,
        num_values: shape.total_values,
        roots: roots_flat,
        num_roots: shape.codeword_size / 2,
        elements_in_group_start: shape.total_values / shape.num_groups,
        num_groups_start: shape.num_groups,
        modulus: runtime.modulus,
        montgomery_inv: runtime.montgomery_inv,
    };
    let ghost sent = launch;
    let reply = kernel(launch);
    let ghost received = reply;
    assert(kernel.ensures((sent,), received));
    match check_reply(Kernel::Transform, reply.status, reply.error_buffer.as_slice()) {
        Ok(()) => Ok(reply.values),
        Err(error) => Err(error),
    }
}

/// Checks the shape, brings the device up if that was not done, and launches the
/// transform. Nothing is brought up or launched for a shape that is refused, and nothing is
/// launched on a device that does not come up.
pub fn ntt_nr_cuda_raw<
    E: Fn(Setting) -> EnvVar,
    P: Fn(i32) -> DeviceReply,
    K: FnOnce(NttLaunch) -> NttReply,
>(
    state: &mut CudaState,
    env: &E,
    preflight: &P,
    kernel: K,
    host_input: Vec<u64>,
    shape: LaunchShape,
) -> (result: Result<Vec<u64>, Error>)
    requires
        old(state).wf(),
        launch_check(shape) is None ==> {
            &&& host_input@.len() == LIMBS_PER_FR * shape.input_elements
            &&& probe_granted(*old(state), *env, *preflight)
        },
        launch_check(shape) is None && may_be_up(*old(state), *env, *preflight) ==> {
            &&& is_transform_kernel(kernel)
            &&& shape.codeword_size <= layout::MAX_CODEWORD_ORDER
        },
    ensures
        final(state).wf(),
        match launch_check(shape) {
            Some(error) => result == Err::<Vec<u64>, Error>(error) && *final(state) == *old(state),
            None => {
                &&& final(state).settings == (CudaSettings {
                    device: final(state).settings.device,
                    ..old(state).settings
                })
                &&& final(state).preflight matches Some(ready)
                &&& preflight_once(*old(state), *final(state), *env, *preflight, ready)
                &&& match ready {
                    Err(error) => {
                        &&& result == Err::<Vec<u64>, Error>(error)
                        &&& final(state).flattened_roots == old(state).flattened_roots
                    },
                    Ok(_) => {
                        &&& final(state).settings.device matches Some(Ok(device))
                        &&& launched(kernel, device, host_input@, shape, result)
                        &&& final(state).flattened_roots@.dom()
                            == old(state).flattened_roots@.dom().insert(shape.codeword_size)
                    },
                }
            },
        },
        result matches Ok(values) ==> values@.len() == LIMBS_PER_FR * shape.total_values,
{
    if shape.num_groups == 0 {
        return Err(Error::ZeroGroups);
    }
    if shape.input_elements == 0 {
        return Err(Error::ZeroInput);
    }
    if shape.input_elements > shape.total_values {
        return Err(Error::InputTooLong);
    }
    if shape.total_values % shape.num_groups != 0 {
        return Err(Error::UnevenTotal);
    }
    if !is_power_of_two(shape.codeword_size) {
        return Err(Error::CodewordSizeNotPower);
    }
    match preflight_cuda(state, env, preflight) {
        Ok(()) => {},
        Err(error) => {
            return Err(error);
        },
    }
    proof {
        lemma_came_up(*old(state), *state, *env, *preflight, state.preflight->0);
    }
    let device: usize = match &state.settings.device {
        Some(Ok(device)) => *device,
        _ => 0,
    };
    proof {
        let exponent = bits::lemma_exponent(shape.codeword_size as int);
        lemma2_to64();
        bits::lemma_power_order(28, exponent);
        roots::lemma_power_has_root(exponent);
    }
    let roots_flat = flattened_roots(state, shape.codeword_size);
    proof {
        assert forall|launch: NttLaunch|
            is_launch(launch, device, host_input@, shape) implies #[trigger] kernel.requires(
            (launch,),
        ) by {
            lemma_launch_described(launch, device, host_input@, shape);
        }
    }
    launch_transform(kernel, device, host_input, roots_flat, shape)
}

/// Whether a transformed value is checked: with a stride of one, each; with a larger one,
/// the first, the last and every value whose index is a multiple of it.
pub open spec fn guarded(index: int, len: int, stride: int) -> bool {
    stride == 1 || (stride > 1 && (index == 0 || index + 1 == len || index % stride == 0))
}

/// Whether a transformed value is checked.
pub fn should_check_hydrated_value(index: usize, len: usize, stride: usize) -> (yes: bool)
    requires
        stride > 1 ==> index < usize::MAX,
    ensures
        yes == guarded(index as int, len as int, stride as int),
{
    stride == 1 || (stride > 1 && (index == 0 || index + 1 == len || index % stride == 0))
}

/// What the check of transformed values comes to.
pub open spec fn guard_result(values: Seq<Fr>, stride: int) -> Result<(), Error> {
    if forall|i: int|
        0 <= i < values.len() && guarded(i, values.len() as int, stride)
            ==> (#[trigger] values[i]).valid() {
        Ok(())
    } else {
        Err(Error::OutsideField)
    }
}

/// Checks the values that a stride selects.
pub fn check_values(values: &[Fr], stride: usize) -> (result: Result<(), Error>)
    ensures
        result == guard_result(values@, stride as int),
{
    if stride == 0 {
        return Ok(());
    }
    let len: usize = values.len();
    let mut index: usize = 0;
    while index < len
        invariant
            index <= len,
            len == values@.len(),
            forall|i: int|
                0 <= i < index && guarded(i, len as int, stride as int)
                    ==> (#[trigger] values@[i]).valid(),
        decreases len - index,
    {
        if should_check_hydrated_value(index, len, stride) && !values[index].is_reduced() {
            return Err(Error::OutsideField);
        }
        index = index + 1;
    }
    Ok(())
}

/// What the guard comes to once its setting was read.
pub open spec fn guard_decision(stride: Result<usize, Error>, values: Seq<Fr>) -> Result<(), Error> {
    match stride {
        Ok(stride) => guard_result(values, stride as int),
        Err(error) => Err(error),
    }
}

/// Checks those transformed values that the guard setting selects.
pub fn release_guard_check<E: Fn(Setting) -> EnvVar>(
    settings: &mut CudaSettings,
    env: &E,
    values: &[Fr],
) -> (result: Result<(), Error>)
    requires
        old(settings).guard_stride is None ==> env.requires((Setting::GuardStride,)),
    ensures
        final(settings).guard_stride matches Some(stride) && settings::number_read_once(
            old(settings).guard_stride,
            final(settings).guard_stride,
            Setting::GuardStride,
            0,
            *env,
            stride,
        ) && result == guard_decision(stride, values@),
        *final(settings) == (CudaSettings {
            guard_stride: final(settings).guard_stride,
            ..*old(settings)
        }),
{
    match cuda_release_guard_stride(settings, env) {
        Ok(stride) => check_values(values, stride),
        Err(error) => Err(error),
    }
}

/// The first thing that is wrong with values that are to be transformed in place.
pub open spec fn values_check(len: nat, codeword_size: usize, num_groups: usize) -> Option<Error> {
    if num_groups == 0 {
        Some(Error::ZeroGroups)
    } else if len % num_groups as nat != 0 {
        Some(Error::UnevenValues)
    } else if !is_pow2(codeword_size as int) {
        Some(Error::CodewordSizeNotPower)
    } else {
        None
    }
}

/// What is done with values once the device is up and the size setting was read.
pub open spec fn offloaded<E: Fn(Setting) -> EnvVar, K: FnOnce(NttLaunch) -> NttReply>(
    before: CudaState,
    after: CudaState,
    env: E,
    kernel: K,
    debug: bool,
    input: Seq<Fr>,
    output: Seq<Fr>,
    codeword_size: usize,
    num_groups: usize,
    result: Result<(), Error>,
) -> bool {
    let shape = LaunchShape {
        input_elements: input.len() as usize,
        total_values: input.len() as usize,
        codeword_size,
        num_groups,
    };
    &&& input.len() <= usize::MAX
    &&& after.settings.device matches Some(Ok(device))
    &&& exists|outcome: Result<Vec<u64>, Error>|
        {
            &&& #[trigger] launched(kernel, device, limbs::flattened(input), shape, outcome)
            &&& match outcome {
                Err(error) => {
                    &&& result == Err::<(), Error>(error)
                    &&& output == input
                    &&& after.settings.guard_stride == before.settings.guard_stride
                },
                Ok(limbs) => {
                    &&& output == limbs::hydrated(limbs@)
                    &&& if debug {
                        &&& result == guard_result(output, 1)
                        &&& after.settings.guard_stride == before.settings.guard_stride
                    } else {
                        &&& after.settings.guard_stride matches Some(stride)
                        &&& settings::number_read_once(
                            before.settings.guard_stride,
                            after.settings.guard_stride,
                            Setting::GuardStride,
                            0,
                            env,
                            stride,
                        )
                        &&& result == guard_decision(stride, output)
                    }
                },
            }
        }
}

/// What a transform in place comes to: nothing for single rows, an error for values that do
/// not pass the check or a device that does not come up, the host transform for codewords
/// that are too small, and the device transform for the others. Values stay on the host only
/// in a shape that it transforms.
pub open spec fn transformed_in_place<
    E: Fn(Setting) -> EnvVar,
    P: Fn(i32) -> DeviceReply,
    K: FnOnce(NttLaunch) -> NttReply,
>(
    before: CudaState,
    after: CudaState,
    env: E,
    preflight: P,
    kernel: K,
    debug: bool,
    input: Seq<Fr>,
    output: Seq<Fr>,
    codeword_size: usize,
    num_groups: usize,
    result: Result<(), Error>,
) -> bool {
    if codeword_size <= 1 {
        &&& result == Ok::<(), Error>(())
        &&& output == input
        &&& after == before
    } else if let Some(error) = values_check(input.len(), codeword_size, num_groups) {
        &&& result == Err::<(), Error>(error)
        &&& output == input
        &&& after == before
    } else {
        &&& after.preflight matches Some(ready)
        &&& preflight_once(before, after, env, preflight, ready)
        &&& match ready {
            Err(error) => {
                &&& result == Err::<(), Error>(error)
                &&& output == input
                &&& after.flattened_roots == before.flattened_roots
                &&& after.settings == (CudaSettings {
                    device: after.settings.device,
                    ..before.settings
                })
            },
            Ok(_) => {
                &&& after.settings.min_codeword_size matches Some(minimum)
                &&& settings::number_read_once(
                    before.settings.min_codeword_size,
                    after.settings.min_codeword_size,
                    Setting::MinCodewordSize,
                    settings::DEFAULT_MIN_CODEWORD_SIZE,
                    env,
                    minimum,
                )
                &&& match settings::size_decision(minimum, codeword_size) {
                    Err(error) => {
                        &&& result == Err::<(), Error>(error)
                        &&& output == input
                        &&& after.settings.guard_stride == before.settings.guard_stride
                    },
                    Ok(false) => {
                        &&& result == Ok::<(), Error>(())
                        &&& transform::transform_shape(
                            input.len(),
                            codeword_size as nat,
                            num_groups as nat,
                        )
                        &&& transform::is_transform(
                            input,
                            output,
                            codeword_size as nat,
                            num_groups as nat,
                        )
                        &&& after.settings.guard_stride == before.settings.guard_stride
                    },
                    Ok(true) => if input.len() == 0 {
                        &&& result == Err::<(), Error>(Error::ZeroInput)
                        &&& output == input
                        &&& after.settings.guard_stride == before.settings.guard_stride
                    } else {
                        offloaded(
                            before,
                            after,
                            env,
                            kernel,
                            debug,
                            input,
                            output,
                            codeword_size,
                            num_groups,
                            result,
                        )
                    },
                }
            },
        }
    }
}

/// Transforms values in place: on the device, or on the host if the codeword is too small
/// to be offloaded. In debug builds all values that come back are checked, otherwise those
/// that the guard setting selects.
pub fn ntt_nr_cuda<
    E: Fn(Setting) -> EnvVar,
    P: Fn(i32) -> DeviceReply,
    K: FnOnce(NttLaunch) -> NttReply,
>(
    state: &mut CudaState,
    env: &E,
    preflight: &P,
    kernel: K,
    debug: bool,
    values: &mut [Fr],
    codeword_size: usize,
    num_groups: usize,
) -> (result: Result<(), Error>)
    requires
        old(state).wf(),
        codeword_size > 1 && values_check(old(values)@.len(), codeword_size, num_groups) is None
            ==> probe_granted(*old(state), *env, *preflight),
        codeword_size > 1 && values_check(old(values)@.len(), codeword_size, num_groups) is None
            && may_be_up(*old(state), *env, *preflight) ==> {
            let minimum = old(state).settings.min_codeword_size;
            &&& minimum is None ==> env.requires((Setting::MinCodewordSize,))
            &&& settings::may_stay_on_host(minimum, *env, codeword_size) ==> {
                &&& transform::all_valid(old(values)@)
                &&& transform::transform_shape(
                    old(values)@.len(),
                    codeword_size as nat,
                    num_groups as nat,
                )
            }
            &&& settings::may_offload(minimum, *env, codeword_size) && old(values)@.len() > 0 ==> {
                &&& is_transform_kernel(kernel)
                &&& codeword_size <= layout::MAX_CODEWORD_ORDER
                &&& !debug && old(state).settings.guard_stride is None ==> env.requires(
                    (Setting::GuardStride,),
                )
            }
        },
    ensures
        final(state).wf(),
        final(state).settings.policy == old(state).settings.policy,
        old(state).flattened_roots@.dom().subset_of(final(state).flattened_roots@.dom()),
        final(values)@.len() == old(values)@.len(),
        transformed_in_place(
            *old(state),
            *final(state),
            *env,
            *preflight,
            kernel,
            debug,
            old(values)@,
            final(values)@,
            codeword_size,
            num_groups,
            result,
        ),
{
    if codeword_size <= 1 {
        return Ok(());
    }
    let len: usize = values.len();
    if num_groups == 0 {
        return Err(Error::ZeroGroups);
    }
    if len % num_groups != 0 {
        return Err(Error::UnevenValues);
    }
    if !is_power_of_two(codeword_size) {
        return Err(Error::CodewordSizeNotPower);
    }
    match preflight_cuda(state, env, preflight) {
        Ok(()) => {},
        Err(error) => {
            return Err(error);
        },
    }
    proof {
        lemma_came_up(*old(state), *state, *env, *preflight, state.preflight->0);
    }
    let offload = cuda_should_offload_codeword_size(&mut state.settings, env, codeword_size);
    proof {
        settings::lemma_size_decided(
            old(state).settings.min_codeword_size,
            state.settings.min_codeword_size,
            *env,
            codeword_size,
            offload,
        );
    }
    match offload {
        Ok(true) => {},
        Ok(false) => {
            ntt_nr(values, codeword_size, num_groups);
            return Ok(());
        },
        Err(error) => {
            return Err(error);
        },
    }
    let shape = LaunchShape {
        input_elements: len,
        total_values: len,
        codeword_size,
        num_groups,
    };
    let limbs = fr_slice_as_u64(values);
    match ntt_nr_cuda_raw(state, env, preflight, kernel, limbs, shape) {
        Ok(limbs) => {
            fr_slice_from_u64(values, limbs.as_slice());
        },
        Err(error) => {
            return Err(error);
        },
    }
    if debug {
        check_values(values, 1)
    } else {
        release_guard_check(&mut state.settings, env, values)
    }
}

/// However often the device is brought up, the first outcome stands.
pub proof fn lemma_preflight_idempotent<
    E: Fn(Setting) -> EnvVar,
    P: Fn(i32) -> DeviceReply,
    L: Fn(Setting) -> EnvVar,
    Q: Fn(i32) -> DeviceReply,
>(
    start: CudaState,
    between: CudaState,
    end: CudaState,
    env: E,
    kernel: P,
    later_env: L,
    later_kernel: Q,
    first: Result<(), Error>,
    second: Result<(), Error>,
)
    requires
        preflight_once(start, between, env, kernel, first),
        preflight_once(between, end, later_env, later_kernel, second),
    ensures
        second == first,
        end.preflight == between.preflight,
        end.settings.device == between.settings.device,
{
}

/// A stride of zero checks nothing, a stride of one checks every value, and no stride
/// checks more than a stride of one.
pub proof fn lemma_guard_strides(values: Seq<Fr>, stride: int)
    ensures
        guard_result(values, 0) == Ok::<(), Error>(()),
        guard_result(values, 1) == Ok::<(), Error>(()) <==> transform::all_valid(values),
        transform::all_valid(values) ==> guard_result(values, stride) == Ok::<(), Error>(()),
{
    if guard_result(values, 1) == Ok::<(), Error>(()) {
        assert forall|q: int| 0 <= q < values.len() implies (#[trigger] values[q]).valid() by {
            assert(guarded(q, values.len() as int, 1));
        }
    }
}

/// With any stride at all, the first and the last value are checked.
pub proof fn lemma_guard_ends(values: Seq<Fr>, stride: int)
    requires
        stride > 0,
        values.len() > 0,
        guard_result(values, stride) == Ok::<(), Error>(()),
    ensures
        values[0].valid(),
        values[values.len() - 1].valid(),
{
    assert(guarded(0, values.len() as int, stride));
    assert(guarded(values.len() - 1, values.len() as int, stride));
}

/// The number of rows that a launch transforms is that of its shape.
proof fn lemma_rows_of_shape(codeword_size: usize)
    requires
        codeword_size > 1,
        is_pow2(codeword_size as int),
    ensures
        codeword_size / 2 > 0,
        2 * (codeword_size / 2) == codeword_size,
{
    let exponent = bits::lemma_exponent(codeword_size as int);
    lemma2_to64();
    if exponent > 0 {
        lemma_pow2_unfold(exponent);
    }
}

/// If the device transform evaluates polynomials as the host transform does, so does a
/// transform in place that succeeds, whether the host or the device computed it.
pub proof fn lemma_in_place_transforms<
    E: Fn(Setting) -> EnvVar,
    P: Fn(i32) -> DeviceReply,
    K: FnOnce(NttLaunch) -> NttReply,
>(
    before: CudaState,
    after: CudaState,
    env: E,
    preflight: P,
    kernel: K,
    debug: bool,
    input: Seq<Fr>,
    output: Seq<Fr>,
    codeword_size: usize,
    num_groups: usize,
    result: Result<(), Error>,
)
    requires
        codeword_size > 1,
        computes_transform(kernel),
        transformed_in_place(
            before,
            after,
            env,
            preflight,
            kernel,
            debug,
            input,
            output,
            codeword_size,
            num_groups,
            result,
        ),
    ensures
        result is Ok ==> transform::is_transform(
            input,
            output,
            codeword_size as nat,
            num_groups as nat,
        ),
{
    let shape = LaunchShape {
        input_elements: input.len() as usize,
        total_values: input.len() as usize,
        codeword_size,
        num_groups,
    };
    if result is Ok && input.len() > 0 && input.len() <= usize::MAX {
        assert forall|device: usize, outcome: Result<Vec<u64>, Error>| #[trigger]
            launched(kernel, device, limbs::flattened(input), shape, outcome)
                && outcome is Ok implies transform::is_transform(
            input,
            limbs::hydrated(outcome->Ok_0@),
            codeword_size as nat,
            num_groups as nat,
        ) by {
            lemma_launch_transforms(kernel, device, input, shape, outcome);
        }
    }
}

/// Whether a function from values, rows and groups to values agrees with the host transform
/// on all shapes that the host transforms.
pub open spec fn extends_host_transform(host: spec_fn(Seq<Fr>, nat, nat) -> Seq<Fr>) -> bool {
    forall|values: Seq<Fr>, rows: nat, groups: nat|
        transform::transform_shape(values.len(), rows, groups) && transform::all_valid(values)
            ==> transform::is_transform(values, #[trigger] host(values, rows, groups), rows, groups)
}

/// Whether a device transform computes a given function from values, rows and groups to
/// values, given a launch that describes its own buffers and leaves no room.
pub open spec fn computes_function<K: FnOnce(NttLaunch) -> NttReply>(
    kernel: K,
    host: spec_fn(Seq<Fr>, nat, nat) -> Seq<Fr>,
) -> bool {
    forall|launch: NttLaunch, reply: NttReply|
        #[trigger] kernel.ensures((launch,), reply) && reply.status == device::CUDA_SUCCESS
            && describes_buffers(launch) && launch.input_elements == launch.num_values
            ==> limbs::hydrated(reply.values@) == host(
            limbs::hydrated(launch.values@),
            launch_rows(launch),
            launch.num_groups_start as nat,
        )
}

/// On either side of the offload threshold, and whatever the number of groups, a transform
/// in place that succeeds leaves what the host transform makes of the values: if the device
/// computes some extension of the host transform, that extension is what comes out.
pub proof fn lemma_in_place_matches_host<
    E: Fn(Setting) -> EnvVar,
    P: Fn(i32) -> DeviceReply,
    K: FnOnce(NttLaunch) -> NttReply,
>(
    before: CudaState,
    after: CudaState,
    env: E,
    preflight: P,
    kernel: K,
    host: spec_fn(Seq<Fr>, nat, nat) -> Seq<Fr>,
    debug: bool,
    input: Seq<Fr>,
    output: Seq<Fr>,
    codeword_size: usize,
    num_groups: usize,
    result: Result<(), Error>,
)
    requires
        codeword_size > 1,
        transform::all_valid(input),
        extends_host_transform(host),
        computes_function(kernel, host),
        transformed_in_place(
            before,
            after,
            env,
            preflight,
            kernel,
            debug,
            input,
            output,
            codeword_size,
            num_groups,
            result,
        ),
    ensures
        result is Ok ==> output == host(input, codeword_size as nat, num_groups as nat),
{
    let rows = codeword_size as nat;
    let groups = num_groups as nat;
    let shape = LaunchShape {
        input_elements: input.len() as usize,
        total_values: input.len() as usize,
        codeword_size,
        num_groups,
    };
    limbs::lemma_flatten_round_trip(input);
    if result is Ok {
        if input.len() > 0 && input.len() <= usize::MAX {
            assert forall|device: usize, launch: NttLaunch| #[trigger]
                is_launch(
                    launch,
                    device,
                    limbs::flattened(input),
                    shape,
                ) implies describes_buffers(launch) && launch_rows(launch) == codeword_size by {
                lemma_launch_described(launch, device, limbs::flattened(input), shape);
            }
        }
        if transform::transform_shape(input.len(), rows, groups) && transform::is_transform(
            input,
            output,
            rows,
            groups,
        ) {
            transform::lemma_transform_unique(
                input,
                output,
                host(input, rows, groups),
                rows,
                groups,
            );
        }
    }
}

} // verus!
