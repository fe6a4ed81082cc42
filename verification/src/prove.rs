//! The `prove` command.
use vstd::prelude::*;
use vstd::string::StringExecFns;

use crate::backend;
use crate::backend::{set_ntt_backend, BackendError, NttBackend, NttBackendState};

verus! {

/// Where a proof is stored unless the command says otherwise.
pub const DEFAULT_PROOF_PATH: &'static str = "./proof.np";

/// What the `prove` command is given.
#[derive(PartialEq, Eq, Debug)]
pub struct Args {
    /// Whether to use the CUDA backend.
    pub cuda: bool,
    /// The prepared proof scheme.
    pub prover_path: String,
    /// The verifier to check the proof with once it is stored, if any.
    pub verifier_path: Option<String>,
    /// The input values.
    pub input_path: String,
    /// Where the proof is stored.
    pub proof_path: String,
}

/// Why the `prove` command failed.
#[derive(Debug)]
pub enum ProveError {
    /// The CUDA backend could not be asked for.
    Select(BackendError),
    /// The device did not come up.
    Preflight(BackendError),
    /// Bringing the device up did not return.
    PreflightPanicked,
    /// The scheme could not be read.
    ReadProver(String),
    /// The statement could not be proved.
    Prove(String),
    /// The proof could not be stored.
    Write(String),
    /// The verifier could not be read.
    ReadVerifier(String),
    /// The proof was not accepted.
    Verify(String),
}

impl ProveError {
    /// The error in words.
    pub open spec fn text(self) -> Seq<char> {
        match self {
            ProveError::Select(error) =>
                "while selecting the CUDA NTT backend for `prove`: "@ + error.text(),
            ProveError::Preflight(error) =>
                "while preflighting the CUDA NTT backend for `prove --cuda`: "@ + error.text(),
            ProveError::PreflightPanicked => "CUDA preflight thread panicked"@,
            ProveError::ReadProver(reason) => "while reading Provekit Prover: "@ + reason@,
            ProveError::Prove(reason) => "While proving Noir program statement: "@ + reason@,
            ProveError::Write(reason) => "while writing proof: "@ + reason@,
            ProveError::ReadVerifier(reason) => "while reading Provekit Verifier: "@ + reason@,
            ProveError::Verify(reason) => "While verifying Noir proof: "@ + reason@,
        }
    }

    /// The error in words.
    pub fn message(&self) -> (message: String)
        ensures
            message@ == self.text(),
    {
        match self {
            ProveError::Select(error) => String::from_str(
                "while selecting the CUDA NTT backend for `prove`: ",
            ).concat(error.message().as_str()),
            ProveError::Preflight(error) => String::from_str(
                "while preflighting the CUDA NTT backend for `prove --cuda`: ",
            ).concat(error.message().as_str()),
            ProveError::PreflightPanicked => String::from_str("CUDA preflight thread panicked"),
            ProveError::ReadProver(reason) => String::from_str(
                "while reading Provekit Prover: ",
            ).concat(reason.as_str()),
            ProveError::Prove(reason) => String::from_str(
                "While proving Noir program statement: ",
            ).concat(reason.as_str()),
            ProveError::Write(reason) => String::from_str("while writing proof: ").concat(
                reason.as_str(),
            ),
            ProveError::ReadVerifier(reason) => String::from_str(
                "while reading Provekit Verifier: ",
            ).concat(reason.as_str()),
            ProveError::Verify(reason) => String::from_str("While verifying Noir proof: ").concat(
                reason.as_str(),
            ),
        }
    }
}

/// Why a preflight keeps the command from proving, if it does. No result means that the
/// preflight did not return.
pub open spec fn preflight_failure(joined: Option<Result<(), BackendError>>) -> Option<ProveError> {
    match joined {
        None => Some(ProveError::PreflightPanicked),
        Some(Err(error)) => Some(ProveError::Preflight(error)),
        Some(Ok(_)) => None,
    }
}

/// Judges a preflight by what came back.
pub fn check_preflight(joined: Option<Result<(), BackendError>>) -> (failure: Option<ProveError>)
    ensures
        failure == preflight_failure(joined),
{
    match joined {
        None => Some(ProveError::PreflightPanicked),
        Some(Err(error)) => Some(ProveError::Preflight(error)),
        Some(Ok(_)) => None,
    }
}

/// What the preflight of a command comes to: only one that uses the device has one.
pub open spec fn preflighted<H, S: FnOnce() -> H, J: FnOnce(H) -> Option<Result<(), BackendError>>>(
    cuda: bool,
    start: S,
    join: J,
    failure: Option<ProveError>,
) -> bool {
    if cuda {
        exists|handle: H, joined: Option<Result<(), BackendError>>|
            {
                &&& start.ensures((), handle)
                &&& #[trigger] join.ensures((handle,), joined)
                &&& failure == preflight_failure(joined)
            }
    } else {
        failure is None
    }
}

/// What the command does outside of this library.
pub struct Steps<S, J, R, P, W, V, C> {
    /// Starts to bring the device up.
    pub start_preflight: S,
    /// Waits until the device is up; gives nothing if that did not return.
    pub join_preflight: J,
    /// Reads the prepared proof scheme.
    pub read_prover: R,
    /// Proves the statement for the input values.
    pub prove: P,
    /// Stores the proof.
    pub write_proof: W,
    /// Reads the verifier.
    pub read_verifier: V,
    /// Checks the proof.
    pub verify: C,
}

/// What checking a stored proof comes to.
pub open spec fn verified<
    Q,
    K,
    V: FnOnce(&String) -> Result<K, String>,
    C: FnOnce(K, &Q) -> Result<(), String>,
>(
    verifier_path: Option<String>,
    read_verifier: V,
    verify: C,
    proof: Q,
    result: Result<(), ProveError>,
) -> bool {
    match verifier_path {
        None => result is Ok,
        Some(path) => exists|read: Result<K, String>|
            {
                &&& #[trigger] read_verifier.ensures((&path,), read)
                &&& match read {
                    Err(reason) => result == Err::<(), ProveError>(
                        ProveError::ReadVerifier(reason),
                    ),
                    Ok(verifier) => exists|checked: Result<(), String>|
                        {
                            &&& #[trigger] verify.ensures((verifier, &proof), checked)
                            &&& match checked {
                                Err(reason) => result == Err::<(), ProveError>(
                                    ProveError::Verify(reason),
                                ),
                                Ok(_) => result is Ok,
                            }
                        },
                }
            },
    }
}

/// Whether a stored proof can be checked: the verifier is read only if there is one, and the
/// proof is checked only with a verifier that was read.
pub open spec fn check_granted<
    Q,
    K,
    V: FnOnce(&String) -> Result<K, String>,
    C: FnOnce(K, &Q) -> Result<(), String>,
>(verifier_path: Option<String>, read_verifier: V, verify: C, proof: Q) -> bool {
    match verifier_path {
        None => true,
        Some(path) => {
            &&& read_verifier.requires((&path,))
            &&& forall|verifier: K|
                #[trigger] read_verifier.ensures((&path,), Ok(verifier)) ==> verify.requires(
                    (verifier, &proof),
                )
        },
    }
}

/// Checks a stored proof, if there is a verifier to check it with.
fn verify_stored<
    Q,
    K,
    V: FnOnce(&String) -> Result<K, String>,
    C: FnOnce(K, &Q) -> Result<(), String>,
>(verifier_path: &Option<String>, read_verifier: V, verify: C, proof: &Q) -> (result: Result<
    (),
    ProveError,
>)
    requires
        check_granted(*verifier_path, read_verifier, verify, *proof),
    ensures
        verified(*verifier_path, read_verifier, verify, *proof, result),
{
    match verifier_path {
        None => Ok(()),
        Some(path) => match read_verifier(path) {
            Err(reason) => Err(ProveError::ReadVerifier(reason)),
            Ok(verifier) => match verify(verifier, proof) {
                Err(reason) => Err(ProveError::Verify(reason)),
                Ok(()) => Ok(()),
            },
        },
    }
}

/// What proving, storing and checking come to once the scheme was read.
pub open spec fn proved<
    T,
    Q,
    K,
    P: FnOnce(T, &String) -> Result<Q, String>,
    W: FnOnce(&Q, &String) -> Result<(), String>,
    V: FnOnce(&String) -> Result<K, String>,
    C: FnOnce(K, &Q) -> Result<(), String>,
>(
    args: Args,
    prove: P,
    write_proof: W,
    read_verifier: V,
    verify: C,
    prover: T,
    result: Result<(), ProveError>,
) -> bool {
    exists|made: Result<Q, String>|
        {
            &&& #[trigger] prove.ensures((prover, &args.input_path), made)
            &&& match made {
                Err(reason) => result == Err::<(), ProveError>(ProveError::Prove(reason)),
                Ok(proof) => exists|stored: Result<(), String>|
                    {
                        &&& #[trigger] write_proof.ensures((&proof, &args.proof_path), stored)
                        &&& match stored {
                            Err(reason) => result == Err::<(), ProveError>(
                                ProveError::Write(reason),
                            ),
                            Ok(_) => verified(
                                args.verifier_path,
                                read_verifier,
                                verify,
                                proof,
                                result,
                            ),
                        }
                    },
            }
        }
}

/// Whether a statement can be proved with a scheme that was read: only a proof that was made
/// is stored, and only one that was stored is checked.
pub open spec fn proving_granted<
    T,
    Q,
    K,
    P: FnOnce(T, &String) -> Result<Q, String>,
    W: FnOnce(&Q, &String) -> Result<(), String>,
    V: FnOnce(&String) -> Result<K, String>,
    C: FnOnce(K, &Q) -> Result<(), String>,
>(args: Args, prove: P, write_proof: W, read_verifier: V, verify: C, prover: T) -> bool {
    &&& prove.requires((prover, &args.input_path))
    &&& forall|proof: Q|
        #[trigger] prove.ensures((prover, &args.input_path), Ok(proof)) ==> write_proof.requires(
            (&proof, &args.proof_path),
        )
    &&& forall|proof: Q, stored: Result<(), String>|
        #[trigger] prove.ensures((prover, &args.input_path), Ok(proof))
            && #[trigger] write_proof.ensures((&proof, &args.proof_path), stored) && stored is Ok
            ==> check_granted(args.verifier_path, read_verifier, verify, proof)
}

/// Proves, stores and checks with a scheme that was read.
fn prove_with<
    T,
    Q,
    K,
    P: FnOnce(T, &String) -> Result<Q, String>,
    W: FnOnce(&Q, &String) -> Result<(), String>,
    V: FnOnce(&String) -> Result<K, String>,
    C: FnOnce(K, &Q) -> Result<(), String>,
>(args: &Args, prove: P, write_proof: W, read_verifier: V, verify: C, prover: T) -> (result: Result<
    (),
    ProveError,
>)
    requires
        proving_granted(*args, prove, write_proof, read_verifier, verify, prover),
    ensures
        proved(*args, prove, write_proof, read_verifier, verify, prover, result),
{
    match prove(prover, &args.input_path) {
        Err(reason) => Err(ProveError::Prove(reason)),
        Ok(proof) => match write_proof(&proof, &args.proof_path) {
            Err(reason) => Err(ProveError::Write(reason)),
            Ok(()) => verify_stored(&args.verifier_path, read_verifier, verify, &proof),
        },
    }
}

/// What the command comes to once the backend was asked for.
pub open spec fn ran<
    H,
    T,
    Q,
    K,
    S: FnOnce() -> H,
    J: FnOnce(H) -> Option<Result<(), BackendError>>,
    R: FnOnce(&String) -> Result<T, String>,
    P: FnOnce(T, &String) -> Result<Q, String>,
    W: FnOnce(&Q, &String) -> Result<(), String>,
    V: FnOnce(&String) -> Result<K, String>,
    C: FnOnce(K, &Q) -> Result<(), String>,
>(args: Args, steps: Steps<S, J, R, P, W, V, C>, result: Result<(), ProveError>) -> bool {
    exists|failure: Option<ProveError>, read: Result<T, String>|
        {
            &&& #[trigger] preflighted(
                args.cuda,
                steps.start_preflight,
                steps.join_preflight,
                failure,
            )
            &&& #[trigger] steps.read_prover.ensures((&args.prover_path,), read)
            &&& match failure {
                Some(error) => result == Err::<(), ProveError>(error),
                None => match read {
                    Err(reason) => result == Err::<(), ProveError>(
                        ProveError::ReadProver(reason),
                    ),
                    Ok(prover) => proved(
                        args,
                        steps.prove,
                        steps.write_proof,
                        steps.read_verifier,
                        steps.verify,
                        prover,
                        result,
                    ),
                },
            }
        }
}

/// Whether the steps of a command can be taken, each in its turn: the device is brought up
/// only for a command that uses it; the scheme is read once that was started, and the device
/// is waited for once the scheme was read; and nothing is proved or stored unless the device
/// came up and the scheme was read.
pub open spec fn steps_granted<
    H,
    T,
    Q,
    K,
    S: FnOnce() -> H,
    J: FnOnce(H) -> Option<Result<(), BackendError>>,
    R: FnOnce(&String) -> Result<T, String>,
    P: FnOnce(T, &String) -> Result<Q, String>,
    W: FnOnce(&Q, &String) -> Result<(), String>,
    V: FnOnce(&String) -> Result<K, String>,
    C: FnOnce(K, &Q) -> Result<(), String>,
>(args: Args, steps: Steps<S, J, R, P, W, V, C>) -> bool {
    &&& args.cuda ==> {
        &&& steps.start_preflight.requires(())
        &&& forall|handle: H|
            #[trigger] steps.start_preflight.ensures((), handle) ==> steps.read_prover.requires(
                (&args.prover_path,),
            )
        &&& forall|handle: H, read: Result<T, String>|
            #[trigger] steps.start_preflight.ensures((), handle)
                && #[trigger] steps.read_prover.ensures((&args.prover_path,), read)
                ==> steps.join_preflight.requires((handle,))
    }
    &&& !args.cuda ==> steps.read_prover.requires((&args.prover_path,))
    &&& preflighted(args.cuda, steps.start_preflight, steps.join_preflight, None)
        ==> forall|prover: T|
        #[trigger] steps.read_prover.ensures((&args.prover_path,), Ok(prover))
            ==> proving_granted(
            args,
            steps.prove,
            steps.write_proof,
            steps.read_verifier,
            steps.verify,
            prover,
        )
}

/// A command that uses a device which cannot come up fails for that reason, whatever the
/// scheme, the input and the stored proof would have come to.
pub proof fn lemma_unavailable_device_fails<
    H,
    T,
    Q,
    K,
    S: FnOnce() -> H,
    J: FnOnce(H) -> Option<Result<(), BackendError>>,
    R: FnOnce(&String) -> Result<T, String>,
    P: FnOnce(T, &String) -> Result<Q, String>,
    W: FnOnce(&Q, &String) -> Result<(), String>,
    V: FnOnce(&String) -> Result<K, String>,
    C: FnOnce(K, &Q) -> Result<(), String>,
>(
    args: Args,
    steps: Steps<S, J, R, P, W, V, C>,
    result: Result<(), ProveError>,
    error: BackendError,
)
    requires
        args.cuda,
        ran(args, steps, result),
        forall|handle: H, joined: Option<Result<(), BackendError>>|
            #[trigger] steps.join_preflight.ensures((handle,), joined) ==> joined == Some(
                Err::<(), BackendError>(error),
            ),
    ensures
        result == Err::<(), ProveError>(ProveError::Preflight(error)),
{
}

impl Args {
    /// Asks for the CUDA backend if the command says so.
    pub fn select_backend(&self, state: &mut NttBackendState) -> (result: Result<(), ProveError>)
        ensures
            *final(state) == if self.cuda {
                old(state).after_set(NttBackend::Cuda)
            } else {
                *old(state)
            },
            if self.cuda && !old(state).accepts(NttBackend::Cuda) {
                &&& backend::set_result(*old(state), NttBackend::Cuda) matches Err(error)
                &&& result == Err::<(), ProveError>(ProveError::Select(error))
            } else {
                result is Ok
            },
    {
        if self.cuda {
            match set_ntt_backend(state, NttBackend::Cuda) {
                Ok(()) => Ok(()),
                Err(error) => Err(ProveError::Select(error)),
            }
        } else {
            Ok(())
        }
    }

    /// Reads the scheme while the device comes up, proves, stores the proof, and checks it
    /// if there is a verifier. A device that does not come up is reported before a scheme
    /// that cannot be read, and in either case nothing is proved or stored.
    pub fn run_selected<
        H,
        T,
        Q,
        K,
        S: FnOnce() -> H,
        J: FnOnce(H) -> Option<Result<(), BackendError>>,
        R: FnOnce(&String) -> Result<T, String>,
        P: FnOnce(T, &String) -> Result<Q, String>,
        W: FnOnce(&Q, &String) -> Result<(), String>,
        V: FnOnce(&String) -> Result<K, String>,
        C: FnOnce(K, &Q) -> Result<(), String>,
    >(&self, steps: Steps<S, J, R, P, W, V, C>) -> (result: Result<(), ProveError>)
        requires
            steps_granted(*self, steps),
        ensures
            ran(*self, steps, result),
    {
        let read: Result<T, String>;
        let failure: Option<ProveError>;
        if self.cuda {
            let handle = (steps.start_preflight)();
            read = (steps.read_prover)(&self.prover_path);
            failure = check_preflight((steps.join_preflight)(handle));
        } else {
            read = (steps.read_prover)(&self.prover_path);
            failure = None;
        }
        assert(preflighted(self.cuda, steps.start_preflight, steps.join_preflight, failure));
        assert(steps.read_prover.ensures((&self.prover_path,), read));
        if let Some(error) = failure {
            return Err(error);
        }
        match read {
            Err(reason) => Err(ProveError::ReadProver(reason)),
            Ok(prover) => prove_with(
                self,
                steps.prove,
                steps.write_proof,
                steps.read_verifier,
                steps.verify,
                prover,
            ),
        }
    }

    /// Runs the command: asks for the backend and does everything else. If the backend
    /// cannot be had, nothing else is done.
    pub fn run<
        H,
        T,
        Q,
        K,
        S: FnOnce() -> H,
        J: FnOnce(H) -> Option<Result<(), BackendError>>,
        R: FnOnce(&String) -> Result<T, String>,
        P: FnOnce(T, &String) -> Result<Q, String>,
        W: FnOnce(&Q, &String) -> Result<(), String>,
        V: FnOnce(&String) -> Result<K, String>,
        C: FnOnce(K, &Q) -> Result<(), String>,
    >(&self, state: &mut NttBackendState, steps: Steps<S, J, R, P, W, V, C>) -> (result: Result<
        (),
        ProveError,
    >)
        requires
            !self.cuda || old(state).accepts(NttBackend::Cuda) ==> steps_granted(*self, steps),
        ensures
            *final(state) == if self.cuda {
                old(state).after_set(NttBackend::Cuda)
            } else {
                *old(state)
            },
            if self.cuda && !old(state).accepts(NttBackend::Cuda) {
                &&& backend::set_result(*old(state), NttBackend::Cuda) matches Err(error)
                &&& result == Err::<(), ProveError>(ProveError::Select(error))
            } else {
                ran(*self, steps, result)
            },
    {
        match self.select_backend(state) {
            Ok(()) => self.run_selected(steps),
            Err(error) => Err(error),
        }
    }
}

} // verus!
