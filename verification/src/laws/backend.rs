//! Laws of the choice of the backend.
use vstd::prelude::*;

use crate::backend::{
    build_registered_ntt_backend, preflight_cuda_backend, register_ntt, requested_ntt_backend,
    selected_ntt_backend, set_ntt_backend, BackendError, Encoder, Features, NttBackend,
    NttBackendState,
};
use crate::cuda::{preflight_cuda, CudaState};
use crate::device::DeviceReply;
use crate::error::Setting;
use crate::settings::EnvVar;

verus! {

/// For the host, the encoder depends on one feature alone: it is the one of this library for
/// every program that was built with it and the reference for every other one, and no device
/// is looked at.
pub proof fn lemma_host_encoder_follows_feature<
    E: Fn(Setting) -> EnvVar,
    P: Fn(i32) -> DeviceReply,
>(
    features: Features,
    cuda_state: &mut CudaState,
    env: E,
    kernel: P,
    result: Result<Encoder, BackendError>,
)
    requires
        call_ensures(
            build_registered_ntt_backend::<E, P>,
            (NttBackend::Cpu, features, cuda_state, &env, &kernel),
            result,
        ),
    ensures
        result is Ok,
        result->Ok_0 is Host <==> features.provekit_ntt,
        result->Ok_0 is Reference <==> !features.provekit_ntt,
        *final(cuda_state) == *old(cuda_state),
{
}

/// The CUDA backend gives its own encoder exactly if the program was built for devices and
/// the device is up afterwards; otherwise the error says which of the two is missing.
pub proof fn lemma_device_encoder_needs_device<
    E: Fn(Setting) -> EnvVar,
    P: Fn(i32) -> DeviceReply,
>(
    features: Features,
    cuda_state: &mut CudaState,
    env: E,
    kernel: P,
    result: Result<Encoder, BackendError>,
)
    requires
        call_ensures(
            build_registered_ntt_backend::<E, P>,
            (NttBackend::Cuda, features, cuda_state, &env, &kernel),
            result,
        ),
    ensures
        result is Ok <==> features.cuda && final(cuda_state).is_up(),
        result matches Ok(encoder) ==> encoder is Cuda,
        !features.cuda ==> result->Err_0 is WithoutCuda && *final(cuda_state) == *old(cuda_state),
        features.cuda && result is Err ==> {
            &&& result->Err_0 matches BackendError::Initialization(error)
            &&& final(cuda_state).preflight matches Some(Err(kept))
            &&& kept == error
        },
{
}

/// Bringing the CUDA backend up succeeds exactly if the program was built for devices and
/// the device is up afterwards.
pub proof fn lemma_backend_preflight<E: Fn(Setting) -> EnvVar, P: Fn(i32) -> DeviceReply>(
    features: Features,
    cuda_state: &mut CudaState,
    env: E,
    kernel: P,
    result: Result<(), BackendError>,
)
    requires
        call_ensures(
            preflight_cuda_backend::<E, P>,
            (features, cuda_state, &env, &kernel),
            result,
        ),
    ensures
        result is Ok <==> features.cuda && final(cuda_state).is_up(),
        !features.cuda ==> result->Err_0 is WithoutCuda && *final(cuda_state) == *old(cuda_state),
        features.cuda && result is Err ==> {
            &&& result->Err_0 matches BackendError::Initialization(error)
            &&& final(cuda_state).preflight matches Some(Err(kept))
            &&& kept == error
        },
{
}

/// A device that was up before stays up for the CUDA backend, and one that had failed keeps
/// its error; it is not tried again.
pub proof fn lemma_backend_preflight_keeps_outcome<
    E: Fn(Setting) -> EnvVar,
    P: Fn(i32) -> DeviceReply,
>(
    cuda_state: &mut CudaState,
    features: Features,
    env: E,
    kernel: P,
    result: Result<(), BackendError>,
)
    requires
        features.cuda,
        old(cuda_state).preflight is Some,
        call_ensures(
            preflight_cuda_backend::<E, P>,
            (features, cuda_state, &env, &kernel),
            result,
        ),
    ensures
        result is Ok <==> old(cuda_state).preflight->0 is Ok,
        final(cuda_state).preflight == old(cuda_state).preflight,
        final(cuda_state).settings == old(cuda_state).settings,
        final(cuda_state).flattened_roots == old(cuda_state).flattened_roots,
{
}

/// On a state on which nothing is settled, a registration for the host always succeeds: it
/// settles on the host and gives the encoder that the feature names, whatever else the
/// program was built with.
pub proof fn lemma_host_registration<E: Fn(Setting) -> EnvVar, P: Fn(i32) -> DeviceReply>(
    state: &mut NttBackendState,
    features: Features,
    cuda_state: &mut CudaState,
    env: E,
    kernel: P,
    result: Result<Option<Encoder>, BackendError>,
)
    requires
        old(state).registered is None,
        old(state).requested is Cpu,
        call_ensures(
            register_ntt::<E, P>,
            (state, features, cuda_state, &env, &kernel),
            result,
        ),
    ensures
        result matches Ok(Some(encoder)) && (encoder is Host <==> features.provekit_ntt) && (
        encoder is Reference <==> !features.provekit_ntt),
        final(state).registered == Some(NttBackend::Cpu),
        final(state).requested == NttBackend::Cpu,
        *final(cuda_state) == *old(cuda_state),
{
}

/// On a state on which nothing is settled, a registration for the device settles on it and
/// gives its encoder exactly if the program was built for devices and the device is up
/// afterwards; otherwise nothing is settled, and the request stands.
pub proof fn lemma_device_registration<E: Fn(Setting) -> EnvVar, P: Fn(i32) -> DeviceReply>(
    state: &mut NttBackendState,
    features: Features,
    cuda_state: &mut CudaState,
    env: E,
    kernel: P,
    result: Result<Option<Encoder>, BackendError>,
)
    requires
        old(state).registered is None,
        old(state).requested is Cuda,
        call_ensures(
            register_ntt::<E, P>,
            (state, features, cuda_state, &env, &kernel),
            result,
        ),
    ensures
        result is Ok <==> features.cuda && final(cuda_state).is_up(),
        result matches Ok(installed) ==> installed == Some(Encoder::Cuda),
        result is Ok ==> final(state).registered == Some(NttBackend::Cuda),
        result is Err ==> final(state).registered is None,
        final(state).requested == NttBackend::Cuda,
        !features.cuda ==> result->Err_0 is WithoutCuda,
        features.cuda && result is Err ==> result->Err_0 is Initialization,
{
}

/// Of two registrations, the first that succeeds installs an encoder, and the second then
/// neither installs nor changes anything, whatever the features and the device.
pub proof fn lemma_registered_once<
    E: Fn(Setting) -> EnvVar,
    P: Fn(i32) -> DeviceReply,
    L: Fn(Setting) -> EnvVar,
    Q: Fn(i32) -> DeviceReply,
>(
    state: &mut NttBackendState,
    later_state: &mut NttBackendState,
    features: Features,
    later_features: Features,
    cuda_state: &mut CudaState,
    later_cuda_state: &mut CudaState,
    env: E,
    kernel: P,
    later_env: L,
    later_kernel: Q,
    first: Result<Option<Encoder>, BackendError>,
    second: Result<Option<Encoder>, BackendError>,
)
    requires
        call_ensures(
            register_ntt::<E, P>,
            (state, features, cuda_state, &env, &kernel),
            first,
        ),
        *old(later_state) == *final(state),
        call_ensures(
            register_ntt::<L, Q>,
            (later_state, later_features, later_cuda_state, &later_env, &later_kernel),
            second,
        ),
        first is Ok,
    ensures
        first->Ok_0 is Some <==> old(state).registered is None,
        second == Ok::<Option<Encoder>, BackendError>(None),
        *final(later_state) == *final(state),
        *final(later_cuda_state) == *old(later_cuda_state),
{
}

/// A backend can be asked for unless another one was settled on. The one that was asked for
/// last is then the requested and, as long as nothing is settled, the selected one. A
/// request never settles anything.
pub proof fn lemma_request(
    state: &mut NttBackendState,
    backend: NttBackend,
    result: Result<(), BackendError>,
)
    requires
        call_ensures(set_ntt_backend, (state, backend), result),
    ensures
        result is Ok <==> old(state).registered is None || old(state).registered == Some(backend),
        old(state).registered is None ==> final(state).requested == backend,
        old(state).registered is Some ==> final(state).requested == old(state).requested,
        final(state).registered == old(state).registered,
        result matches Err(error) ==> {
            &&& error matches BackendError::AlreadyInitialized { registered, backend: asked }
            &&& old(state).registered == Some(registered)
            &&& asked == backend
        },
{
}

/// What was asked for last is what is reported as requested, and what was settled on is what
/// is reported as selected, before anything that was asked for.
pub proof fn lemma_reported_backends(
    state: NttBackendState,
    requested: NttBackend,
    selected: NttBackend,
)
    requires
        call_ensures(requested_ntt_backend, (&state,), requested),
        call_ensures(selected_ntt_backend, (&state,), selected),
    ensures
        requested == state.requested,
        state.registered matches Some(registered) ==> selected == registered,
        state.registered is None ==> selected == requested,
{
}

/// A process starts with the host requested and nothing settled.
pub proof fn lemma_fresh_state(state: NttBackendState)
    requires
        call_ensures(NttBackendState::new, (), state),
    ensures
        state.requested is Cpu,
        state.registered is None,
{
}

/// The backends are called `cpu` and `cuda`, and the error of a request that comes too late
/// names both in that order: the one that was settled on and the one that was asked for.
pub proof fn lemma_late_request_message(
    registered: NttBackend,
    backend: NttBackend,
    registered_name: &'static str,
    backend_name: &'static str,
    message: String,
)
    requires
        call_ensures(NttBackend::name, (&registered,), registered_name),
        call_ensures(NttBackend::name, (&backend,), backend_name),
        call_ensures(
            BackendError::message,
            (&BackendError::AlreadyInitialized { registered, backend },),
            message,
        ),
    ensures
        registered is Cpu ==> registered_name@ == "cpu"@,
        registered is Cuda ==> registered_name@ == "cuda"@,
        message@ == "the NTT backend was already initialized as `"@ + registered_name@
            + "`; it cannot be switched to `"@ + backend_name@ + "` in the same process"@,
{
}

/// The other two errors of a backend say that CUDA was requested, and what is missing.
pub proof fn lemma_backend_messages(
    cause: crate::error::Error,
    cause_message: String,
    without: String,
    initialization: String,
)
    requires
        call_ensures(crate::error::Error::message, (&cause,), cause_message),
        call_ensures(BackendError::message, (&BackendError::WithoutCuda,), without),
        call_ensures(
            BackendError::message,
            (&BackendError::Initialization(cause),),
            initialization,
        ),
    ensures
        without@ == "CUDA NTT requested, but this binary was built without the `cuda` feature"@,
        initialization@ == "CUDA NTT requested, but CUDA initialization failed: "@
            + cause_message@,
{
}

/// The CUDA backend comes up exactly if the device does.
pub proof fn lemma_backend_and_device_agree<
    E: Fn(Setting) -> EnvVar,
    P: Fn(i32) -> DeviceReply,
    L: Fn(Setting) -> EnvVar,
    Q: Fn(i32) -> DeviceReply,
>(
    cuda_state: &mut CudaState,
    later_state: &mut CudaState,
    features: Features,
    env: E,
    kernel: P,
    later_env: L,
    later_kernel: Q,
    direct: Result<(), crate::error::Error>,
    through: Result<(), BackendError>,
)
    requires
        features.cuda,
        call_ensures(preflight_cuda::<E, P>, (cuda_state, &env, &kernel), direct),
        *old(later_state) == *final(cuda_state),
        call_ensures(
            preflight_cuda_backend::<L, Q>,
            (features, later_state, &later_env, &later_kernel),
            through,
        ),
    ensures
        through is Ok <==> direct is Ok,
        direct matches Err(error) ==> through == Err::<(), BackendError>(
            BackendError::Initialization(error),
        ),
{
}

} // verus!
