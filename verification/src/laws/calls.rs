//! Laws of what is not called: the functions can be used although some of what they are
//! given must never be called, wherever they have no need to call it.
use vstd::arithmetic::power2::*;
use vstd::prelude::*;

use crate::backend::{
    build_registered_ntt_backend, preflight_cuda_backend, register_ntt, BackendError, Features,
    NttBackend, NttBackendState,
};
use crate::cuda::{
    ntt_nr_cuda, ntt_nr_cuda_raw, preflight_cuda, CudaState, LaunchShape, NttLaunch, NttReply,
};
use crate::cuda_encode::interleaved_encode_cuda;
use crate::device::DeviceReply;
use crate::error::{Error, Setting};
use crate::field::Fr;
use crate::icicle::{ensure_domain_covers, interleaved_encode_icicle, ColumnLaunch};
use crate::laws::cuda_encode::fits_cosets;
use crate::prove::{Args, Steps};
use crate::reed_solomon;
use crate::settings::{
    cuda_device_index, cuda_min_codeword_size, cuda_ntt_policy, cuda_release_guard_stride,
    cuda_should_offload_codeword_size, CudaSettings, EnvVar,
};
use crate::sha256::{
    cached_device, min_batch_threshold, sha256_many_cuda, CudaSha2, ShaLaunch, ShaReply,
    ShaSettings,
};
use crate::sppark::{
    env_max_batch, env_threshold_codeword, interleaved_encode_hybrid, interleaved_encode_sppark,
    should_use_sppark, sppark_ntt, NttDirection, NttOrder, NttType, SpparkLaunch, SpparkSettings,
};
use crate::transform;

verus! {

/// The environment is not read for a setting that was read before.
pub proof fn lemma_kept_settings_not_read<E: Fn(Setting) -> EnvVar>(
    settings: &mut CudaSettings,
    sha: &mut ShaSettings,
    sppark: &mut SpparkSettings,
    env: E,
    codeword_size: usize,
    num_messages: usize,
)
    ensures
        old(settings).device is Some ==> call_requires(
            cuda_device_index::<E>,
            (settings, &env),
        ),
        old(settings).min_codeword_size is Some ==> call_requires(
            cuda_min_codeword_size::<E>,
            (settings, &env),
        ) && call_requires(
            cuda_should_offload_codeword_size::<E>,
            (settings, &env, codeword_size),
        ),
        old(settings).policy is Some ==> call_requires(cuda_ntt_policy::<E>, (settings, &env)),
        old(settings).guard_stride is Some ==> call_requires(
            cuda_release_guard_stride::<E>,
            (settings, &env),
        ),
        old(sha).device is Some ==> call_requires(cached_device::<E>, (sha, &env)),
        old(sha).min_batch is Some ==> call_requires(min_batch_threshold::<E>, (sha, &env)),
        old(sppark).min_codeword is Some ==> call_requires(
            env_threshold_codeword::<E>,
            (sppark, &env),
        ),
        old(sppark).max_batch is Some ==> call_requires(env_max_batch::<E>, (sppark, &env)),
        old(sppark).max_batch matches Some(most) && num_messages >= most ==> call_requires(
            should_use_sppark::<E>,
            (sppark, &env, codeword_size, num_messages),
        ),
{
}

/// A device whose outcome is known is not looked at again.
pub proof fn lemma_known_device_not_probed<
    E: Fn(Setting) -> EnvVar,
    P: Fn(i32) -> DeviceReply,
>(state: &mut CudaState, env: E, probe: P, features: Features)
    requires
        old(state).wf(),
        old(state).preflight is Some,
    ensures
        call_requires(preflight_cuda::<E, P>, (state, &env, &probe)),
        call_requires(preflight_cuda_backend::<E, P>, (features, state, &env, &probe)),
{
}

/// For the host, in a program without devices, and once a backend is settled on, no device is
/// looked at.
pub proof fn lemma_host_backend_not_probed<
    E: Fn(Setting) -> EnvVar,
    P: Fn(i32) -> DeviceReply,
>(
    state: &mut NttBackendState,
    cuda_state: &mut CudaState,
    env: E,
    probe: P,
    backend: NttBackend,
    features: Features,
)
    requires
        old(cuda_state).wf(),
    ensures
        backend is Cpu || !features.cuda ==> call_requires(
            build_registered_ntt_backend::<E, P>,
            (backend, features, cuda_state, &env, &probe),
        ),
        !features.cuda ==> call_requires(
            preflight_cuda_backend::<E, P>,
            (features, cuda_state, &env, &probe),
        ),
        old(state).registered is Some || old(state).requested is Cpu || !features.cuda
            ==> call_requires(
            register_ntt::<E, P>,
            (state, features, cuda_state, &env, &probe),
        ),
{
}

/// A device that is known not to come up is handed no values.
pub proof fn lemma_failed_device_not_launched<
    E: Fn(Setting) -> EnvVar,
    P: Fn(i32) -> DeviceReply,
    K: FnOnce(NttLaunch) -> NttReply,
>(
    state: &mut CudaState,
    env: E,
    probe: P,
    kernel: K,
    host_input: Vec<u64>,
    shape: LaunchShape,
    debug: bool,
    values: &mut [Fr],
    codeword_size: usize,
    num_groups: usize,
)
    requires
        old(state).wf(),
        old(state).preflight matches Some(Err(_)),
    ensures
        host_input@.len() == 4 * shape.input_elements ==> call_requires(
            ntt_nr_cuda_raw::<E, P, K>,
            (state, &env, &probe, kernel, host_input, shape),
        ),
        call_requires(
            ntt_nr_cuda::<E, P, K>,
            (state, &env, &probe, kernel, debug, values, codeword_size, num_groups),
        ),
{
}

/// For values that are refused, and for single rows, nothing is read, brought up or launched.
pub proof fn lemma_refused_values_not_launched<
    E: Fn(Setting) -> EnvVar,
    P: Fn(i32) -> DeviceReply,
    K: FnOnce(NttLaunch) -> NttReply,
>(
    state: &mut CudaState,
    env: E,
    probe: P,
    kernel: K,
    host_input: Vec<u64>,
    shape: LaunchShape,
    debug: bool,
    values: &mut [Fr],
    codeword_size: usize,
    num_groups: usize,
)
    requires
        old(state).wf(),
    ensures
        shape.num_groups == 0 || shape.input_elements == 0 || shape.input_elements
            > shape.total_values || !is_pow2(shape.codeword_size as int) ==> call_requires(
            ntt_nr_cuda_raw::<E, P, K>,
            (state, &env, &probe, kernel, host_input, shape),
        ),
        codeword_size <= 1 || num_groups == 0 || !is_pow2(codeword_size as int) ==> call_requires(
            ntt_nr_cuda::<E, P, K>,
            (state, &env, &probe, kernel, debug, values, codeword_size, num_groups),
        ),
{
}

/// For a batch that is refused nothing is read, brought up or launched, and for one that the
/// size that was read keeps on the host nothing is brought up or launched.
pub proof fn lemma_refused_batch_not_launched<
    E: Fn(Setting) -> EnvVar,
    P: Fn(i32) -> DeviceReply,
    K: FnOnce(NttLaunch) -> NttReply,
>(
    state: &mut CudaState,
    env: E,
    probe: P,
    kernel: K,
    messages: &[&[Fr]],
    masks: &[Fr],
    codeword_length: usize,
    coset_size: usize,
    num_cosets: usize,
    minimum: usize,
)
    requires
        old(state).wf(),
        reed_solomon::messages_valid(messages@),
        transform::all_valid(masks@),
        messages@.len() > 0 ==> messages@[0]@.len() + masks@.len() as int / messages@.len() as int
            <= usize::MAX / 2 + 1,
        ({
            ||| messages@.len() == 0
            ||| !fits_cosets(messages@, masks@, codeword_length, coset_size, num_cosets)
            ||| {
                &&& old(state).settings.min_codeword_size == Some(Ok::<usize, Error>(minimum))
                &&& codeword_length < minimum
                &&& codeword_length <= 0x1000_0000
                &&& messages@.len() * codeword_length <= usize::MAX
            }
        }),
    ensures
        call_requires(
            interleaved_encode_cuda::<E, P, K>,
            (
                state,
                &env,
                &probe,
                kernel,
                messages,
                masks,
                codeword_length,
                coset_size,
                num_cosets,
            ),
        ),
{
    if messages@.len() > 0 {
        crate::laws::cuda_encode::lemma_fits_cosets(
            messages@,
            masks@,
            codeword_length,
            coset_size,
            num_cosets,
        );
    }
}

/// Values whose number is not a power of two, and a batch that is refused, are not handed to
/// the single-polynomial transform.
pub proof fn lemma_refused_not_handed_to_sppark<K: Fn(SpparkLaunch) -> NttReply>(
    kernel: K,
    values: &mut [Fr],
    order: NttOrder,
    direction: NttDirection,
    ntt_type: NttType,
    messages: &[&[Fr]],
    masks: &[Fr],
    codeword_length: usize,
)
    ensures
        !is_pow2(old(values)@.len() as int) ==> call_requires(
            sppark_ntt::<K>,
            (&kernel, values, order, direction, ntt_type),
        ),
        messages@.len() == 0 || !is_pow2(codeword_length as int) ==> call_requires(
            interleaved_encode_sppark::<K>,
            (&kernel, messages, masks, codeword_length),
        ),
{
}

/// A batch that the settings that were read keep on the host is not handed to the
/// single-polynomial transform.
pub proof fn lemma_host_batch_not_handed_to_sppark<
    E: Fn(Setting) -> EnvVar,
    K: Fn(SpparkLaunch) -> NttReply,
>(
    settings: &mut SpparkSettings,
    env: E,
    kernel: K,
    messages: &[&[Fr]],
    masks: &[Fr],
    codeword_length: usize,
    max_batch: usize,
    min_codeword: usize,
)
    requires
        reed_solomon::messages_valid(messages@),
        transform::all_valid(masks@),
        messages@.len() <= usize::MAX,
        old(settings).max_batch == Some(max_batch),
        old(settings).min_codeword == Some(min_codeword),
        messages@.len() >= max_batch || codeword_length < min_codeword,
    ensures
        call_requires(
            interleaved_encode_hybrid::<E, K>,
            (settings, &env, &kernel, messages, masks, codeword_length),
        ),
{
}

/// A domain that covers the codewords is not set up again, and for no messages nothing is set
/// up or launched.
pub proof fn lemma_covered_domain_not_set_up<
    I: FnOnce(u64) -> Result<(), String>,
    K: FnOnce(ColumnLaunch) -> Result<Vec<Vec<u8>>, String>,
>(
    domain_max: &mut u64,
    initialize_domain: I,
    kernel: K,
    messages: &[&[Fr]],
    masks: &[Fr],
    codeword_length: usize,
    coset_size: usize,
    num_cosets: usize,
)
    ensures
        *old(domain_max) >= codeword_length ==> call_requires(
            ensure_domain_covers::<I>,
            (domain_max, codeword_length, initialize_domain),
        ),
        messages@.len() == 0 && transform::all_valid(masks@) ==> call_requires(
            interleaved_encode_icicle::<I, K>,
            (
                domain_max,
                initialize_domain,
                kernel,
                messages,
                masks,
                codeword_length,
                coset_size,
                num_cosets,
            ),
        ),
{
}

/// Lengths that are refused, and no room, are not handed to the device for digests, nor is a
/// batch that is too small or of empty messages.
pub proof fn lemma_refused_digests_not_launched<
    E: Fn(Setting) -> EnvVar,
    K: FnOnce(ShaLaunch) -> ShaReply,
>(
    engine: CudaSha2,
    settings: &mut ShaSettings,
    env: E,
    kernel: K,
    size: usize,
    input: &[u8],
    output: &mut [u8],
    hashes: &mut [crate::sha256::Hash],
    threshold: usize,
)
    ensures
        size * (old(output)@.len() as int / 32) <= usize::MAX && (old(output)@.len() == 0 || old(
            output,
        )@.len() % 32 != 0 || input@.len() != size * (old(output)@.len() as int / 32))
            ==> call_requires(
            sha256_many_cuda::<E, K>,
            (settings, &env, kernel, size, input, output),
        ),
        old(settings).min_batch == Some(threshold) && input@.len() == size * old(hashes)@.len()
            && 32 * old(hashes)@.len() <= usize::MAX && (old(hashes)@.len() < threshold || size
            == 0) ==> call_requires(
            CudaSha2::hash_many::<E, K>,
            (&engine, settings, &env, kernel, size, input, hashes),
        ),
{
}

/// A command that cannot have its backend takes no step at all.
pub proof fn lemma_refused_command_takes_no_step<
    H,
    T,
    Q,
    K,
    S: FnOnce() -> H,
    J: FnOnce(H) -> Option<Result<(), BackendError>>,
    R: FnOnce(&String) -> Result<T, String>,
    P: FnOnce(T, &String) -> Result<Q, String>,
    W: FnOnce(&Q, &String) -> Result<(), String>,
    V: FnOnce(&String) -> Result<K, String>,
    C: FnOnce(K, &Q) -> Result<(), String>,
>(args: Args, state: &mut NttBackendState, steps: Steps<S, J, R, P, W, V, C>)
    requires
        args.cuda,
        old(state).registered == Some(NttBackend::Cpu),
    ensures
        call_requires(
            Args::run::<H, T, Q, K, S, J, R, P, W, V, C>,
            (&args, state, steps),
        ),
{
}

/// A command that uses a device which cannot come up brings it up and reads the scheme, but
/// proves and stores nothing and reads no verifier.
pub proof fn lemma_failed_device_proves_nothing<
    H,
    T,
    Q,
    K,
    S: FnOnce() -> H,
    J: FnOnce(H) -> Option<Result<(), BackendError>>,
    R: FnOnce(&String) -> Result<T, String>,
    P: FnOnce(T, &String) -> Result<Q, String>,
    W: FnOnce(&Q, &String) -> Result<(), String>,
    V: FnOnce(&String) -> Result<K, String>,
    C: FnOnce(K, &Q) -> Result<(), String>,
>(args: Args, state: &mut NttBackendState, steps: Steps<S, J, R, P, W, V, C>)
    requires
        args.cuda,
        steps.start_preflight.requires(()),
        steps.read_prover.requires((&args.prover_path,)),
        forall|handle: H| #[trigger] steps.join_preflight.requires((handle,)),
        forall|handle: H, joined: Option<Result<(), BackendError>>| #[trigger]
            steps.join_preflight.ensures((handle,), joined) ==> !(joined matches Some(Ok(_))),
    ensures
        call_requires(
            Args::run::<H, T, Q, K, S, J, R, P, W, V, C>,
            (&args, state, steps),
        ),
{
}

/// A command without the device brings nothing up; one whose scheme cannot be read proves and
/// stores nothing, and one whose statement cannot be proved stores nothing.
pub proof fn lemma_failed_steps_end_command<
    H,
    T,
    Q,
    K,
    S: FnOnce() -> H,
    J: FnOnce(H) -> Option<Result<(), BackendError>>,
    R: FnOnce(&String) -> Result<T, String>,
    P: FnOnce(T, &String) -> Result<Q, String>,
    W: FnOnce(&Q, &String) -> Result<(), String>,
    V: FnOnce(&String) -> Result<K, String>,
    C: FnOnce(K, &Q) -> Result<(), String>,
>(args: Args, state: &mut NttBackendState, steps: Steps<S, J, R, P, W, V, C>)
    requires
        !args.cuda,
        steps.read_prover.requires((&args.prover_path,)),
        ({
            ||| forall|prover: T| !(#[trigger] steps.read_prover.ensures(
                (&args.prover_path,),
                Ok(prover),
            ))
            ||| {
                &&& forall|prover: T| #[trigger]
                    steps.prove.requires((prover, &args.input_path))
                &&& forall|prover: T, proof: Q|
                    !(#[trigger] steps.prove.ensures((prover, &args.input_path), Ok(proof)))
            }
        }),
    ensures
        call_requires(
            Args::run::<H, T, Q, K, S, J, R, P, W, V, C>,
            (&args, state, steps),
        ),
{
}

} // verus!
