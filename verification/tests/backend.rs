use provekit_ntt::backend::{
    preflight_cuda_backend, register_ntt, requested_ntt_backend, selected_ntt_backend,
    set_ntt_backend, BackendError, Encoder, Features, NttBackend, NttBackendState,
};
use provekit_ntt::cuda::CudaState;
use provekit_ntt::device::DeviceReply;
use provekit_ntt::error::Setting;
use provekit_ntt::settings::EnvVar;

const WITHOUT_CUDA: Features = Features { cuda: false, provekit_ntt: true };
const WITH_CUDA: Features = Features { cuda: true, provekit_ntt: true };

fn missing(_setting: Setting) -> EnvVar {
    EnvVar::Missing
}

fn ready(_device: i32) -> DeviceReply {
    DeviceReply { status: 0, error_buffer: vec![0; 8] }
}

fn broken(_device: i32) -> DeviceReply {
    DeviceReply { status: 3, error_buffer: b"no device\0".to_vec() }
}

#[test]
fn preflight_cuda_backend_errors_without_cuda_feature() {
    let mut state = CudaState::new();
    let err = preflight_cuda_backend(WITHOUT_CUDA, &mut state, &missing, &ready)
        .expect_err("CUDA preflight should fail without the feature");
    assert!(
        err.message().contains("built without the `cuda` feature"),
        "unexpected error: {}",
        err.message()
    );
    assert!(state.preflight.is_none());
}

#[test]
fn preflight_reports_why_the_device_did_not_come_up() {
    let mut state = CudaState::new();
    let err = preflight_cuda_backend(WITH_CUDA, &mut state, &missing, &broken).unwrap_err();
    assert_eq!(
        err.message(),
        "CUDA NTT requested, but CUDA initialization failed: no device"
    );
    // The first outcome stands.
    let again = preflight_cuda_backend(WITH_CUDA, &mut state, &missing, &ready).unwrap_err();
    assert_eq!(again.message(), err.message());
    let mut state = CudaState::new();
    assert!(preflight_cuda_backend(WITH_CUDA, &mut state, &missing, &ready).is_ok());
    assert!(preflight_cuda_backend(WITH_CUDA, &mut state, &missing, &broken).is_ok());
}

#[test]
fn the_host_is_requested_at_first() {
    let state = NttBackendState::new();
    assert_eq!(requested_ntt_backend(&state), NttBackend::Cpu);
    assert_eq!(selected_ntt_backend(&state), NttBackend::Cpu);
    assert_eq!(NttBackend::Cpu.name(), "cpu");
    assert_eq!(NttBackend::Cuda.name(), "cuda");
}

#[test]
fn the_last_request_is_selected_until_one_is_registered() {
    let mut state = NttBackendState::new();
    set_ntt_backend(&mut state, NttBackend::Cuda).unwrap();
    assert_eq!(selected_ntt_backend(&state), NttBackend::Cuda);
    set_ntt_backend(&mut state, NttBackend::Cpu).unwrap();
    assert_eq!(selected_ntt_backend(&state), NttBackend::Cpu);
    let mut cuda = CudaState::new();
    let installed = register_ntt(&mut state, WITH_CUDA, &mut cuda, &missing, &ready).unwrap();
    assert_eq!(installed, Some(Encoder::Host));
    let err = set_ntt_backend(&mut state, NttBackend::Cuda).unwrap_err();
    assert_eq!(
        err.message(),
        "the NTT backend was already initialized as `cpu`; it cannot be switched to `cuda` in the \
         same process"
    );
    assert!(set_ntt_backend(&mut state, NttBackend::Cpu).is_ok());
    assert_eq!(selected_ntt_backend(&state), NttBackend::Cpu);
}

#[test]
fn registration_is_idempotent() {
    let mut state = NttBackendState::new();
    set_ntt_backend(&mut state, NttBackend::Cuda).unwrap();
    let mut cuda = CudaState::new();
    let first = register_ntt(&mut state, WITH_CUDA, &mut cuda, &missing, &ready).unwrap();
    assert_eq!(first, Some(Encoder::Cuda));
    let second = register_ntt(&mut state, WITHOUT_CUDA, &mut cuda, &missing, &broken).unwrap();
    assert_eq!(second, None);
    assert_eq!(selected_ntt_backend(&state), NttBackend::Cuda);
}

#[test]
fn a_failed_registration_can_be_tried_with_another_backend() {
    let mut state = NttBackendState::new();
    set_ntt_backend(&mut state, NttBackend::Cuda).unwrap();
    let mut cuda = CudaState::new();
    let err = register_ntt(&mut state, WITHOUT_CUDA, &mut cuda, &missing, &ready).unwrap_err();
    assert!(matches!(err, BackendError::WithoutCuda));
    assert!(state.registered.is_none());
    set_ntt_backend(&mut state, NttBackend::Cpu).unwrap();
    let features = Features { cuda: false, provekit_ntt: false };
    let installed = register_ntt(&mut state, features, &mut cuda, &missing, &ready).unwrap();
    assert_eq!(installed, Some(Encoder::Reference));
}
