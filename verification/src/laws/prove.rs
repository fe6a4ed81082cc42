//! Laws of the `prove` command.
use vstd::prelude::*;

use crate::backend::{BackendError, NttBackend, NttBackendState};
use crate::prove::{check_preflight, Args, ProveError, Steps, DEFAULT_PROOF_PATH};

verus! {

/// A command that succeeds has read its scheme, made a proof from it and the input, and
/// stored that proof where it was told to, whether or not it uses the device. With a verifier
/// the proof was accepted by it, and with the device the device came up.
pub proof fn lemma_success_stores_proof<
    H,
    T,
    Q,
    K,
    S: FnOnce() -> H,
    J: FnOnce(H) -> Option<Result<(), BackendError>>,
    R: FnOnce(&String) -> Result<T, String>,
    P: FnOnce(T, &String) -> Result<Q, String>,
    W: FnOnce(&Q, &String) -> Result<(), String>,
    V: FnOnce(&String) -> Result<K, String>,
    C: FnOnce(K, &Q) -> Result<(), String>,
>(
    args: Args,
    state: &mut NttBackendState,
    steps: Steps<S, J, R, P, W, V, C>,
    result: Result<(), ProveError>,
)
    requires
        call_ensures(
            Args::run::<H, T, Q, K, S, J, R, P, W, V, C>,
            (&args, state, steps),
            result,
        ),
        result is Ok,
    ensures
        exists|read: Result<T, String>, made: Result<Q, String>, stored: Result<(), String>|
            {
                &&& #[trigger] steps.read_prover.ensures((&args.prover_path,), read)
                &&& read is Ok
                &&& #[trigger] steps.prove.ensures((read->Ok_0, &args.input_path), made)
                &&& made is Ok
                &&& #[trigger] steps.write_proof.ensures((&made->Ok_0, &args.proof_path), stored)
                &&& stored is Ok
                &&& args.verifier_path matches Some(path) ==> exists|
                    verifier: Result<K, String>,
                    checked: Result<(), String>,
                |
                    {
                        &&& #[trigger] steps.read_verifier.ensures((&path,), verifier)
                        &&& verifier is Ok
                        &&& #[trigger] steps.verify.ensures(
                            (verifier->Ok_0, &made->Ok_0),
                            checked,
                        )
                        &&& checked is Ok
                    }
            },
        args.cuda ==> exists|handle: H, joined: Option<Result<(), BackendError>>|
            {
                &&& steps.start_preflight.ensures((), handle)
                &&& #[trigger] steps.join_preflight.ensures((handle,), joined)
                &&& joined matches Some(Ok(_))
            },
        args.cuda ==> old(state).registered is None || old(state).registered == Some(
            NttBackend::Cuda,
        ),
{
}

/// The same holds once the backend was asked for.
pub proof fn lemma_selected_success_stores_proof<
    H,
    T,
    Q,
    K,
    S: FnOnce() -> H,
    J: FnOnce(H) -> Option<Result<(), BackendError>>,
    R: FnOnce(&String) -> Result<T, String>,
    P: FnOnce(T, &String) -> Result<Q, String>,
    W: FnOnce(&Q, &String) -> Result<(), String>,
    V: FnOnce(&String) -> Result<K, String>,
    C: FnOnce(K, &Q) -> Result<(), String>,
>(args: Args, steps: Steps<S, J, R, P, W, V, C>, result: Result<(), ProveError>)
    requires
        call_ensures(
            Args::run_selected::<H, T, Q, K, S, J, R, P, W, V, C>,
            (&args, steps),
            result,
        ),
        result is Ok,
    ensures
        exists|read: Result<T, String>, made: Result<Q, String>, stored: Result<(), String>|
            {
                &&& #[trigger] steps.read_prover.ensures((&args.prover_path,), read)
                &&& read is Ok
                &&& #[trigger] steps.prove.ensures((read->Ok_0, &args.input_path), made)
                &&& made is Ok
                &&& #[trigger] steps.write_proof.ensures((&made->Ok_0, &args.proof_path), stored)
                &&& stored is Ok
                &&& args.verifier_path matches Some(path) ==> exists|
                    verifier: Result<K, String>,
                    checked: Result<(), String>,
                |
                    {
                        &&& #[trigger] steps.read_verifier.ensures((&path,), verifier)
                        &&& verifier is Ok
                        &&& #[trigger] steps.verify.ensures(
                            (verifier->Ok_0, &made->Ok_0),
                            checked,
                        )
                        &&& checked is Ok
                    }
            },
        args.cuda ==> exists|handle: H, joined: Option<Result<(), BackendError>>|
            {
                &&& steps.start_preflight.ensures((), handle)
                &&& #[trigger] steps.join_preflight.ensures((handle,), joined)
                &&& joined matches Some(Ok(_))
            },
{
}

/// A command that fails names the step that failed, and hands its reason on: the step was
/// reached and gave that reason. Only a command that uses the device fails on it, and only
/// one with a verifier on that.
pub proof fn lemma_failure_names_step<
    H,
    T,
    Q,
    K,
    S: FnOnce() -> H,
    J: FnOnce(H) -> Option<Result<(), BackendError>>,
    R: FnOnce(&String) -> Result<T, String>,
    P: FnOnce(T, &String) -> Result<Q, String>,
    W: FnOnce(&Q, &String) -> Result<(), String>,
    V: FnOnce(&String) -> Result<K, String>,
    C: FnOnce(K, &Q) -> Result<(), String>,
>(
    args: Args,
    state: &mut NttBackendState,
    steps: Steps<S, J, R, P, W, V, C>,
    result: Result<(), ProveError>,
)
    requires
        call_ensures(
            Args::run::<H, T, Q, K, S, J, R, P, W, V, C>,
            (&args, state, steps),
            result,
        ),
    ensures
        match result {
            Ok(_) => true,
            Err(ProveError::Select(error)) => {
                &&& args.cuda
                &&& old(state).registered == Some(NttBackend::Cpu)
                &&& error == (BackendError::AlreadyInitialized {
                    registered: NttBackend::Cpu,
                    backend: NttBackend::Cuda,
                })
            },
            Err(ProveError::PreflightPanicked) => args.cuda && exists|
                handle: H,
                joined: Option<Result<(), BackendError>>,
            |
                {
                    &&& steps.start_preflight.ensures((), handle)
                    &&& #[trigger] steps.join_preflight.ensures((handle,), joined)
                    &&& joined is None
                },
            Err(ProveError::Preflight(error)) => args.cuda && exists|
                handle: H,
                joined: Option<Result<(), BackendError>>,
            |
                {
                    &&& steps.start_preflight.ensures((), handle)
                    &&& #[trigger] steps.join_preflight.ensures((handle,), joined)
                    &&& joined == Some(Err::<(), BackendError>(error))
                },
            Err(ProveError::ReadProver(reason)) => exists|read: Result<T, String>|
                {
                    &&& #[trigger] steps.read_prover.ensures((&args.prover_path,), read)
                    &&& read == Err::<T, String>(reason)
                },
            Err(ProveError::Prove(reason)) => exists|
                read: Result<T, String>,
                made: Result<Q, String>,
            |
                {
                    &&& #[trigger] steps.read_prover.ensures((&args.prover_path,), read)
                    &&& read is Ok
                    &&& #[trigger] steps.prove.ensures((read->Ok_0, &args.input_path), made)
                    &&& made == Err::<Q, String>(reason)
                },
            Err(ProveError::Write(reason)) => exists|
                read: Result<T, String>,
                made: Result<Q, String>,
                stored: Result<(), String>,
            |
                {
                    &&& #[trigger] steps.read_prover.ensures((&args.prover_path,), read)
                    &&& read is Ok
                    &&& #[trigger] steps.prove.ensures((read->Ok_0, &args.input_path), made)
                    &&& made is Ok
                    &&& #[trigger] steps.write_proof.ensures(
                        (&made->Ok_0, &args.proof_path),
                        stored,
                    )
                    &&& stored == Err::<(), String>(reason)
                },
            Err(ProveError::ReadVerifier(reason)) => {
                &&& args.verifier_path matches Some(path)
                &&& exists|verifier: Result<K, String>|
                    {
                        &&& #[trigger] steps.read_verifier.ensures((&path,), verifier)
                        &&& verifier == Err::<K, String>(reason)
                    }
            },
            Err(ProveError::Verify(reason)) => {
                &&& args.verifier_path matches Some(path)
                &&& exists|
                    made: Result<Q, String>,
                    stored: Result<(), String>,
                    verifier: Result<K, String>,
                    checked: Result<(), String>,
                |
                    {
                        &&& made is Ok
                        &&& #[trigger] steps.write_proof.ensures(
                            (&made->Ok_0, &args.proof_path),
                            stored,
                        )
                        &&& stored is Ok
                        &&& #[trigger] steps.read_verifier.ensures((&path,), verifier)
                        &&& verifier is Ok
                        &&& #[trigger] steps.verify.ensures(
                            (verifier->Ok_0, &made->Ok_0),
                            checked,
                        )
                        &&& checked == Err::<(), String>(reason)
                    }
            },
        },
{
}

/// The same holds once the backend was asked for.
pub proof fn lemma_selected_failure_names_step<
    H,
    T,
    Q,
    K,
    S: FnOnce() -> H,
    J: FnOnce(H) -> Option<Result<(), BackendError>>,
    R: FnOnce(&String) -> Result<T, String>,
    P: FnOnce(T, &String) -> Result<Q, String>,
    W: FnOnce(&Q, &String) -> Result<(), String>,
    V: FnOnce(&String) -> Result<K, String>,
    C: FnOnce(K, &Q) -> Result<(), String>,
>(args: Args, steps: Steps<S, J, R, P, W, V, C>, result: Result<(), ProveError>)
    requires
        call_ensures(
            Args::run_selected::<H, T, Q, K, S, J, R, P, W, V, C>,
            (&args, steps),
            result,
        ),
    ensures
        match result {
            Ok(_) => true,
            Err(ProveError::Select(_)) => false,
            Err(ProveError::PreflightPanicked) => args.cuda && exists|
                handle: H,
                joined: Option<Result<(), BackendError>>,
            |
                {
                    &&& steps.start_preflight.ensures((), handle)
                    &&& #[trigger] steps.join_preflight.ensures((handle,), joined)
                    &&& joined is None
                },
            Err(ProveError::Preflight(error)) => args.cuda && exists|
                handle: H,
                joined: Option<Result<(), BackendError>>,
            |
                {
                    &&& steps.start_preflight.ensures((), handle)
                    &&& #[trigger] steps.join_preflight.ensures((handle,), joined)
                    &&& joined == Some(Err::<(), BackendError>(error))
                },
            Err(ProveError::ReadProver(reason)) => exists|read: Result<T, String>|
                {
                    &&& #[trigger] steps.read_prover.ensures((&args.prover_path,), read)
                    &&& read == Err::<T, String>(reason)
                },
            Err(ProveError::Prove(reason)) => exists|
                read: Result<T, String>,
                made: Result<Q, String>,
            |
                {
                    &&& #[trigger] steps.read_prover.ensures((&args.prover_path,), read)
                    &&& read is Ok
                    &&& #[trigger] steps.prove.ensures((read->Ok_0, &args.input_path), made)
                    &&& made == Err::<Q, String>(reason)
                },
            Err(ProveError::Write(reason)) => exists|
                read: Result<T, String>,
                made: Result<Q, String>,
                stored: Result<(), String>,
            |
                {
                    &&& #[trigger] steps.read_prover.ensures((&args.prover_path,), read)
                    &&& read is Ok
                    &&& #[trigger] steps.prove.ensures((read->Ok_0, &args.input_path), made)
                    &&& made is Ok
                    &&& #[trigger] steps.write_proof.ensures(
                        (&made->Ok_0, &args.proof_path),
                        stored,
                    )
                    &&& stored == Err::<(), String>(reason)
                },
            Err(ProveError::ReadVerifier(reason)) => {
                &&& args.verifier_path matches Some(path)
                &&& exists|verifier: Result<K, String>|
                    {
                        &&& #[trigger] steps.read_verifier.ensures((&path,), verifier)
                        &&& verifier == Err::<K, String>(reason)
                    }
            },
            Err(ProveError::Verify(reason)) => {
                &&& args.verifier_path matches Some(path)
                &&& exists|
                    made: Result<Q, String>,
                    stored: Result<(), String>,
                    verifier: Result<K, String>,
                    checked: Result<(), String>,
                |
                    {
                        &&& made is Ok
                        &&& #[trigger] steps.write_proof.ensures(
                            (&made->Ok_0, &args.proof_path),
                            stored,
                        )
                        &&& stored is Ok
                        &&& #[trigger] steps.read_verifier.ensures((&path,), verifier)
                        &&& verifier is Ok
                        &&& #[trigger] steps.verify.ensures(
                            (verifier->Ok_0, &made->Ok_0),
                            checked,
                        )
                        &&& checked == Err::<(), String>(reason)
                    }
            },
        },
{
}

/// Whatever a command fails on after the device, the device had come up.
pub proof fn lemma_later_failures_need_device<
    H,
    T,
    Q,
    K,
    S: FnOnce() -> H,
    J: FnOnce(H) -> Option<Result<(), BackendError>>,
    R: FnOnce(&String) -> Result<T, String>,
    P: FnOnce(T, &String) -> Result<Q, String>,
    W: FnOnce(&Q, &String) -> Result<(), String>,
    V: FnOnce(&String) -> Result<K, String>,
    C: FnOnce(K, &Q) -> Result<(), String>,
>(
    args: Args,
    state: &mut NttBackendState,
    steps: Steps<S, J, R, P, W, V, C>,
    result: Result<(), ProveError>,
)
    requires
        call_ensures(
            Args::run::<H, T, Q, K, S, J, R, P, W, V, C>,
            (&args, state, steps),
            result,
        ),
        result matches Err(error) ==> !(error is Select || error is Preflight
            || error is PreflightPanicked),
    ensures
        args.cuda ==> exists|handle: H, joined: Option<Result<(), BackendError>>|
            {
                &&& steps.start_preflight.ensures((), handle)
                &&& #[trigger] steps.join_preflight.ensures((handle,), joined)
                &&& joined matches Some(Ok(_))
            },
{
}

/// Running a command changes at most the request, and that only if the command uses the
/// device and nothing is settled; selecting the backend alone does the same.
pub proof fn lemma_command_requests_device<
    H,
    T,
    Q,
    K,
    S: FnOnce() -> H,
    J: FnOnce(H) -> Option<Result<(), BackendError>>,
    R: FnOnce(&String) -> Result<T, String>,
    P: FnOnce(T, &String) -> Result<Q, String>,
    W: FnOnce(&Q, &String) -> Result<(), String>,
    V: FnOnce(&String) -> Result<K, String>,
    C: FnOnce(K, &Q) -> Result<(), String>,
>(
    args: Args,
    state: &mut NttBackendState,
    selected: &mut NttBackendState,
    steps: Steps<S, J, R, P, W, V, C>,
    result: Result<(), ProveError>,
    selection: Result<(), ProveError>,
)
    requires
        call_ensures(
            Args::run::<H, T, Q, K, S, J, R, P, W, V, C>,
            (&args, state, steps),
            result,
        ),
        *old(selected) == *old(state),
        call_ensures(Args::select_backend, (&args, selected), selection),
    ensures
        final(state).registered == old(state).registered,
        final(state).requested == if args.cuda && old(state).registered is None {
            NttBackend::Cuda
        } else {
            old(state).requested
        },
        *final(selected) == *final(state),
        selection is Err <==> args.cuda && old(state).registered == Some(NttBackend::Cpu),
        selection is Err ==> result == selection && selection->Err_0 is Select,
{
}

/// A preflight lets the command go on exactly if it returned and succeeded.
pub proof fn lemma_preflight_judged(
    joined: Option<Result<(), BackendError>>,
    failure: Option<ProveError>,
)
    requires
        call_ensures(check_preflight, (joined,), failure),
    ensures
        failure is None <==> joined is Some && joined->0 is Ok,
        joined is None ==> failure->0 is PreflightPanicked,
        joined matches Some(Err(error)) ==> failure == Some(ProveError::Preflight(error)),
{
}

/// What is said of a failed command: in what it failed, and then the reason.
pub proof fn lemma_failure_messages(
    reason: String,
    cause: BackendError,
    cause_message: String,
    select: String,
    preflight: String,
    panicked: String,
    read_prover: String,
    prove: String,
    write: String,
    read_verifier: String,
    verify: String,
)
    requires
        call_ensures(BackendError::message, (&cause,), cause_message),
        call_ensures(ProveError::message, (&ProveError::Select(cause),), select),
        call_ensures(ProveError::message, (&ProveError::Preflight(cause),), preflight),
        call_ensures(ProveError::message, (&ProveError::PreflightPanicked,), panicked),
        call_ensures(ProveError::message, (&ProveError::ReadProver(reason),), read_prover),
        call_ensures(ProveError::message, (&ProveError::Prove(reason),), prove),
        call_ensures(ProveError::message, (&ProveError::Write(reason),), write),
        call_ensures(ProveError::message, (&ProveError::ReadVerifier(reason),), read_verifier),
        call_ensures(ProveError::message, (&ProveError::Verify(reason),), verify),
    ensures
        select@ == "while selecting the CUDA NTT backend for `prove`: "@ + cause_message@,
        preflight@ == "while preflighting the CUDA NTT backend for `prove --cuda`: "@
            + cause_message@,
        panicked@ == "CUDA preflight thread panicked"@,
        read_prover@ == "while reading Provekit Prover: "@ + reason@,
        prove@ == "While proving Noir program statement: "@ + reason@,
        write@ == "while writing proof: "@ + reason@,
        read_verifier@ == "while reading Provekit Verifier: "@ + reason@,
        verify@ == "While verifying Noir proof: "@ + reason@,
{
}

/// Without a path a proof is stored as `proof.np` in the working directory.
pub proof fn lemma_default_path()
    ensures
        DEFAULT_PROOF_PATH@ == "./proof.np"@,
{
}

} // verus!
