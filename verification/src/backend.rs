//! Which encoder is used, and when that is settled.
use vstd::prelude::*;
use vstd::string::StringExecFns;

use crate::cuda;
use crate::cuda::{preflight_cuda, CudaState};
use crate::device::DeviceReply;
use crate::error::{Error, Setting};
use crate::settings::{CudaSettings, EnvVar};

verus! {

/// Where transforms run.
#[derive(Clone, Copy, Debug, PartialEq, Eq, Structural)]
pub enum NttBackend {
    Cpu,
    Cuda,
}

impl NttBackend {
    /// The name of the backend.
    pub open spec fn spec_name(self) -> Seq<char> {
        match self {
            NttBackend::Cpu => "cpu"@,
            NttBackend::Cuda => "cuda"@,
        }
    }

    /// The name of the backend.
    pub fn name(&self) -> (name: &'static str)
        ensures
            name@ == self.spec_name(),
    {
        match self {
            NttBackend::Cpu => "cpu",
            NttBackend::Cuda => "cuda",
        }
    }
}

/// What the program was built with.
#[derive(Clone, Copy, Debug)]
pub struct Features {
    /// Support for CUDA devices.
    pub cuda: bool,
    /// The encoder of this library on the host.
    pub provekit_ntt: bool,
}

/// An encoder.
#[derive(Clone, Copy, Debug, PartialEq, Eq, Structural)]
pub enum Encoder {
    /// The reference encoder.
    Reference,
    /// The encoder of this library on the host.
    Host,
    /// The encoder of this library on a CUDA device.
    Cuda,
}

/// Why a backend cannot be used.
#[derive(Debug)]
pub enum BackendError {
    /// Another backend was settled on.
    AlreadyInitialized { registered: NttBackend, backend: NttBackend },
    /// The program was built without support for CUDA devices.
    WithoutCuda,
    /// The device did not come up.
    Initialization(Error),
}

impl BackendError {
    /// The error in words.
    pub open spec fn text(self) -> Seq<char> {
        match self {
            BackendError::AlreadyInitialized { registered, backend } =>
                "the NTT backend was already initialized as `"@ + registered.spec_name()
                + "`; it cannot be switched to `"@ + backend.spec_name()
                + "` in the same process"@,
            BackendError::WithoutCuda =>
                "CUDA NTT requested, but this binary was built without the `cuda` feature"@,
            BackendError::Initialization(error) =>
                "CUDA NTT requested, but CUDA initialization failed: "@ + error.text(),
        }
    }

    /// The error in words.
    pub fn message(&self) -> (message: String)
        ensures
            message@ == self.text(),
    {
        match self {
            BackendError::AlreadyInitialized { registered, backend } => {
                let mut text = String::from_str("the NTT backend was already initialized as `");
                text.append(registered.name());
                text.append("`; it cannot be switched to `");
                text.append(backend.name());
                text.append("` in the same process");
                text
            },
            BackendError::WithoutCuda => String::from_str(
                "CUDA NTT requested, but this binary was built without the `cuda` feature",
            ),
            BackendError::Initialization(error) => {
                let mut text = String::from_str(
                    "CUDA NTT requested, but CUDA initialization failed: ",
                );
                text.append(error.message().as_str());
                text
            },
        }
    }
}

/// The backend that is asked for, and the one that was settled on.
#[derive(Clone, Copy, Debug)]
pub struct NttBackendState {
    pub requested: NttBackend,
    pub registered: Option<NttBackend>,
}

impl NttBackendState {
    /// The host is asked for, and nothing is settled.
    pub fn new() -> (state: NttBackendState)
        ensures
            state.requested == NttBackend::Cpu,
            state.registered is None,
    {
        NttBackendState { requested: NttBackend::Cpu, registered: None }
    }

    /// The backend that is in use, or will be.
    pub open spec fn selected(self) -> NttBackend {
        match self.registered {
            Some(registered) => registered,
            None => self.requested,
        }
    }

    /// The state after a backend was asked for.
    pub open spec fn after_set(self, backend: NttBackend) -> NttBackendState {
        match self.registered {
            Some(_) => self,
            None => NttBackendState { requested: backend, ..self },
        }
    }

    /// Whether a backend can be asked for.
    pub open spec fn accepts(self, backend: NttBackend) -> bool {
        match self.registered {
            Some(registered) => registered == backend,
            None => true,
        }
    }

    /// The state after the requested backend was settled on.
    pub open spec fn after_registration(self) -> NttBackendState {
        match self.registered {
            Some(_) => self,
            None => NttBackendState { registered: Some(self.requested), ..self },
        }
    }
}

/// The backend that was asked for last.
pub fn requested_ntt_backend(state: &NttBackendState) -> (backend: NttBackend)
    ensures
        backend == state.requested,
{
    state.requested
}

/// The backend that is in use, or will be.
pub fn selected_ntt_backend(state: &NttBackendState) -> (backend: NttBackend)
    ensures
        backend == state.selected(),
{
    match state.registered {
        Some(registered) => registered,
        None => state.requested,
    }
}

/// What asking for a backend comes to.
pub open spec fn set_result(state: NttBackendState, backend: NttBackend) -> Result<
    (),
    BackendError,
> {
    match state.registered {
        Some(registered) if registered != backend => Err(
            BackendError::AlreadyInitialized { registered, backend },
        ),
        _ => Ok(()),
    }
}

/// Asks for a backend. Once one was settled on, only that one can be asked for.
pub fn set_ntt_backend(state: &mut NttBackendState, backend: NttBackend) -> (result: Result<
    (),
    BackendError,
>)
    ensures
        result == set_result(*old(state), backend),
        result is Ok <==> old(state).accepts(backend),
        *final(state) == old(state).after_set(backend),
{
    if let Some(registered) = state.registered {
        if registered != backend {
            return Err(BackendError::AlreadyInitialized { registered, backend });
        }
        return Ok(());
    }
    state.requested = backend;
    Ok(())
}

/// What the preflight of the CUDA backend comes to.
pub open spec fn backend_preflighted<E: Fn(Setting) -> EnvVar, P: Fn(i32) -> DeviceReply>(
    features: Features,
    before: CudaState,
    after: CudaState,
    env: E,
    kernel: P,
    result: Result<(), BackendError>,
) -> bool {
    if !features.cuda {
        &&& result == Err::<(), BackendError>(BackendError::WithoutCuda)
        &&& after == before
    } else {
        &&& after == (CudaState {
            settings: CudaSettings { device: after.settings.device, ..before.settings },
            preflight: after.preflight,
            ..before
        })
        &&& after.preflight matches Some(ready)
        &&& cuda::preflight_once(before, after, env, kernel, ready)
        &&& match ready {
            Ok(_) => result is Ok,
            Err(error) => result == Err::<(), BackendError>(BackendError::Initialization(error)),
        }
    }
}

/// Brings the device up, if the program was built with support for it.
pub fn preflight_cuda_backend<E: Fn(Setting) -> EnvVar, P: Fn(i32) -> DeviceReply>(
    features: Features,
    cuda_state: &mut CudaState,
    env: &E,
    kernel: &P,
) -> (result: Result<(), BackendError>)
    requires
        old(cuda_state).wf(),
        features.cuda ==> cuda::probe_granted(*old(cuda_state), *env, *kernel),
    ensures
        final(cuda_state).wf(),
        backend_preflighted(
            features,
            *old(cuda_state),
            *final(cuda_state),
            *env,
            *kernel,
            result,
        ),
{
    if !features.cuda {
        return Err(BackendError::WithoutCuda);
    }
    match preflight_cuda(cuda_state, env, kernel) {
        Ok(()) => Ok(()),
        Err(error) => Err(BackendError::Initialization(error)),
    }
}

/// What choosing the encoder of a backend comes to.
pub open spec fn encoder_built<E: Fn(Setting) -> EnvVar, P: Fn(i32) -> DeviceReply>(
    backend: NttBackend,
    features: Features,
    before: CudaState,
    after: CudaState,
    env: E,
    kernel: P,
    result: Result<Encoder, BackendError>,
) -> bool {
    match backend {
        NttBackend::Cpu => {
            &&& result == Ok::<Encoder, BackendError>(
                if features.provekit_ntt {
                    Encoder::Host
                } else {
                    Encoder::Reference
                },
            )
            &&& after == before
        },
        NttBackend::Cuda => match result {
            Ok(encoder) => {
                &&& encoder == Encoder::Cuda
                &&& backend_preflighted(features, before, after, env, kernel, Ok(()))
            },
            Err(error) => backend_preflighted(features, before, after, env, kernel, Err(error)),
        },
    }
}

/// Chooses the encoder of a backend, and brings the device up if it needs one. For the host
/// no device is looked at.
pub fn build_registered_ntt_backend<E: Fn(Setting) -> EnvVar, P: Fn(i32) -> DeviceReply>(
    backend: NttBackend,
    features: Features,
    cuda_state: &mut CudaState,
    env: &E,
    kernel: &P,
) -> (result: Result<Encoder, BackendError>)
    requires
        old(cuda_state).wf(),
        backend == NttBackend::Cuda && features.cuda ==> cuda::probe_granted(
            *old(cuda_state),
            *env,
            *kernel,
        ),
    ensures
        final(cuda_state).wf(),
        encoder_built(
            backend,
            features,
            *old(cuda_state),
            *final(cuda_state),
            *env,
            *kernel,
            result,
        ),
{
    match backend {
        NttBackend::Cpu => if features.provekit_ntt {
            Ok(Encoder::Host)
        } else {
            Ok(Encoder::Reference)
        },
        NttBackend::Cuda => match preflight_cuda_backend(features, cuda_state, env, kernel) {
            Ok(()) => Ok(Encoder::Cuda),
            Err(error) => Err(error),
        },
    }
}

/// Settles on the requested backend, unless one was settled on, and gives the encoder that
/// is to be installed.
pub fn register_ntt<E: Fn(Setting) -> EnvVar, P: Fn(i32) -> DeviceReply>(
    state: &mut NttBackendState,
    features: Features,
    cuda_state: &mut CudaState,
    env: &E,
    kernel: &P,
) -> (result: Result<Option<Encoder>, BackendError>)
    requires
        old(cuda_state).wf(),
        old(state).registered is None && old(state).requested == NttBackend::Cuda && features.cuda
            ==> cuda::probe_granted(*old(cuda_state), *env, *kernel),
    ensures
        final(cuda_state).wf(),
        match old(state).registered {
            Some(_) => {
                &&& result == Ok::<Option<Encoder>, BackendError>(None)
                &&& *final(state) == *old(state)
                &&& *final(cuda_state) == *old(cuda_state)
            },
            None => match result {
                Ok(installed) => {
                    &&& installed matches Some(encoder)
                    &&& encoder_built(
                        old(state).requested,
                        features,
                        *old(cuda_state),
                        *final(cuda_state),
                        *env,
                        *kernel,
                        Ok(encoder),
                    )
                    &&& *final(state) == old(state).after_registration()
                },
                Err(error) => {
                    &&& encoder_built(
                        old(state).requested,
                        features,
                        *old(cuda_state),
                        *final(cuda_state),
                        *env,
                        *kernel,
                        Err(error),
                    )
                    &&& *final(state) == *old(state)
                },
            },
        },
{
    if state.registered.is_some() {
        return Ok(None);
    }
    let backend = state.requested;
    match build_registered_ntt_backend(backend, features, cuda_state, env, kernel) {
        Ok(encoder) => {
            state.registered = Some(backend);
            Ok(Some(encoder))
        },
        Err(error) => Err(error),
    }
}

/// Until a backend is settled on, the one that was asked for last is selected.
pub proof fn lemma_last_request_selected(state: NttBackendState, backend: NttBackend)
    requires
        state.registered is None,
    ensures
        state.accepts(backend),
        state.after_set(backend).selected() == backend,
        state.after_set(backend).registered is None,
{
}

/// Once a backend is settled on, neither requests nor registrations change anything, and
/// only that backend is accepted.
pub proof fn lemma_registration_is_final(state: NttBackendState, backend: NttBackend)
    ensures
        state.after_registration().selected() == state.selected(),
        state.after_registration().accepts(backend) <==> backend == state.selected(),
        state.after_registration().after_set(backend) == state.after_registration(),
        state.after_registration().after_registration() == state.after_registration(),
{
}

} // verus!
