use std::cell::RefCell;

use provekit_ntt::backend::{
    preflight_cuda_backend, BackendError, Features, NttBackend, NttBackendState,
};
use provekit_ntt::cuda::CudaState;
use provekit_ntt::device::DeviceReply;
use provekit_ntt::error::Setting;
use provekit_ntt::prove::{Args, ProveError, Steps, DEFAULT_PROOF_PATH};
use provekit_ntt::settings::EnvVar;

fn args(cuda: bool) -> Args {
    Args {
        cuda,
        prover_path: "unused-prover.pkp".to_string(),
        verifier_path: Some("unused-verifier.pkv".to_string()),
        input_path: "unused-prover.toml".to_string(),
        proof_path: "unused-proof.np".to_string(),
    }
}

fn missing(_setting: Setting) -> EnvVar {
    EnvVar::Missing
}

fn ready(_device: i32) -> DeviceReply {
    DeviceReply { status: 0, error_buffer: Vec::new() }
}

/// Runs the command on steps that are noted; the step named by `fail` fails.
fn run_noting(args: &Args, fail: &str, log: &RefCell<Vec<String>>) -> Result<(), ProveError> {
    let note = |what: String| log.borrow_mut().push(what);
    let outcome = |step: &str| if step == fail { Err(format!("{step} broke")) } else { Ok(()) };
    let mut state = NttBackendState::new();
    args.run(
        &mut state,
        Steps {
            start_preflight: || note("start".to_string()),
            join_preflight: |_handle: ()| {
                note("join".to_string());
                match fail {
                    "panic" => None,
                    "preflight" => Some(Err(BackendError::WithoutCuda)),
                    _ => Some(Ok(())),
                }
            },
            read_prover: |path: &String| {
                note(format!("read {path}"));
                outcome("read").map(|()| 7_u32)
            },
            prove: |prover: u32, path: &String| {
                note(format!("prove {prover} {path}"));
                outcome("prove").map(|()| prover + 1)
            },
            write_proof: |proof: &u32, path: &String| {
                note(format!("write {proof} {path}"));
                outcome("write")
            },
            read_verifier: |path: &String| {
                note(format!("verifier {path}"));
                outcome("verifier").map(|()| 'v')
            },
            verify: |verifier: char, proof: &u32| {
                note(format!("verify {verifier} {proof}"));
                outcome("verify")
            },
        },
    )
}

#[test]
fn cuda_requires_cuda_feature() {
    let args = args(true);
    let mut state = NttBackendState::new();
    let err = args
        .run(
            &mut state,
            Steps {
                start_preflight: || {
                    let features = Features { cuda: false, provekit_ntt: true };
                    preflight_cuda_backend(features, &mut CudaState::new(), &missing, &ready)
                },
                join_preflight: Some,
                read_prover: |path: &String| Err::<(), String>(format!("{path} does not exist")),
                prove: |_prover: (), _path: &String| Ok(()),
                write_proof: |_proof: &(), _path: &String| Ok(()),
                read_verifier: |_path: &String| Ok(()),
                verify: |_verifier: (), _proof: &()| Ok(()),
            },
        )
        .expect_err("`prove --cuda` should fail without the `cuda` feature");
    assert!(
        err.message().contains("built without the `cuda` feature"),
        "unexpected error: {}",
        err.message()
    );
    assert_eq!(state.requested, NttBackend::Cuda);
}

#[test]
fn the_steps_run_in_order() {
    let log = RefCell::new(Vec::new());
    run_noting(&args(true), "", &log).unwrap();
    assert_eq!(
        log.into_inner(),
        [
            "start",
            "read unused-prover.pkp",
            "join",
            "prove 7 unused-prover.toml",
            "write 8 unused-proof.np",
            "verifier unused-verifier.pkv",
            "verify v 8",
        ]
    );
}

#[test]
fn without_the_device_there_is_no_preflight() {
    let log = RefCell::new(Vec::new());
    let mut plain = args(false);
    plain.verifier_path = None;
    run_noting(&plain, "", &log).unwrap();
    assert_eq!(
        log.into_inner(),
        ["read unused-prover.pkp", "prove 7 unused-prover.toml", "write 8 unused-proof.np"]
    );
}

#[test]
fn each_step_that_fails_is_named() {
    let texts = [
        (
            "preflight",
            "while preflighting the CUDA NTT backend for `prove --cuda`: CUDA NTT requested, but \
             this binary was built without the `cuda` feature",
        ),
        ("panic", "CUDA preflight thread panicked"),
        ("read", "while reading Provekit Prover: read broke"),
        ("prove", "While proving Noir program statement: prove broke"),
        ("write", "while writing proof: write broke"),
        ("verifier", "while reading Provekit Verifier: verifier broke"),
        ("verify", "While verifying Noir proof: verify broke"),
    ];
    for (step, text) in texts {
        let log = RefCell::new(Vec::new());
        let err = run_noting(&args(true), step, &log).unwrap_err();
        assert_eq!(err.message(), text);
        // What comes after the step that failed is not done.
        let log = log.into_inner();
        let done = |what: &str| log.iter().any(|entry| entry.starts_with(what));
        assert!(done("start") && done("read") && done("join"));
        assert_eq!(done("prove"), !matches!(step, "preflight" | "panic" | "read"));
        assert_eq!(done("write"), matches!(step, "write" | "verifier" | "verify"));
        assert_eq!(done("verify "), step == "verify");
    }
}

#[test]
fn a_settled_backend_cannot_be_switched_by_the_command() {
    let mut state =
        NttBackendState { requested: NttBackend::Cpu, registered: Some(NttBackend::Cpu) };
    let err = args(true)
        .run(
            &mut state,
            Steps {
                start_preflight: || panic!("no preflight is to be started"),
                join_preflight: |_handle: ()| None,
                read_prover: |_path: &String| Err::<(), String>(String::new()),
                prove: |_prover: (), _path: &String| Ok(()),
                write_proof: |_proof: &(), _path: &String| Ok(()),
                read_verifier: |_path: &String| Ok(()),
                verify: |_verifier: (), _proof: &()| Ok(()),
            },
        )
        .unwrap_err();
    assert_eq!(
        err.message(),
        "while selecting the CUDA NTT backend for `prove`: the NTT backend was already initialized \
         as `cpu`; it cannot be switched to `cuda` in the same process"
    );
    assert_eq!(state.requested, NttBackend::Cpu);
}

#[test]
fn proofs_are_stored_in_the_working_directory_by_default() {
    assert_eq!(DEFAULT_PROOF_PATH, "./proof.np");
}
