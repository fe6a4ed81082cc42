//! Batches of SHA-256 digests, on the host or on a CUDA device.
use sha2::digest::const_oid::AssociatedOid;
use sha2::{Digest, Sha256};
use vstd::arithmetic::div_mod::*;
use vstd::arithmetic::mul::*;
use vstd::prelude::*;
use vstd::slice::slice_subrange;
use vstd::string::StringExecFns;

use crate::device;
use crate::device::check_reply;
use crate::error::{Error, Kernel, Setting};
use crate::settings;
use crate::settings::{cached_lenient_number, cached_number, EnvVar};

verus! {

/// The number of bytes of a digest.
pub const DIGEST_LEN: usize = 32;

/// The smallest batch of digests that is offloaded, by default. Below it the launch and the
/// transfers cost more than they save.
pub const DEFAULT_MIN_BATCH: usize = 4096;

/// The SHA-256 digest of a message.
pub uninterp spec fn sha256_of(message: Seq<u8>) -> Seq<u8>;

/// Calls `sha2::Sha256::digest`. Claims that the digest depends on the message alone and
/// has 32 bytes. Which bytes they are is left to a name.
#[verifier::external_body]
fn sha256_digest(message: &[u8]) -> (digest: [u8; 32])
    ensures
        digest@ == sha256_of(message@),
        digest@.len() == DIGEST_LEN,
{
    Sha256::digest(message).into()
}

/// Reads the constant `AssociatedOid::OID` of `sha2::Sha256`. Claims that it is the object
/// identifier that SHA-256 is registered under.
#[verifier::external_body]
fn sha256_oid() -> (oid: String)
    ensures
        oid@ == "2.16.840.1.101.3.4.2.1"@,
{
    <Sha256 as AssociatedOid>::OID.to_string()
}

/// A digest.
#[derive(Clone, Copy, Debug, PartialEq, Eq)]
pub struct Hash {
    pub bytes: [u8; 32],
}

/// The settings of the digests on a device, as far as they were read.
#[derive(Debug)]
pub struct ShaSettings {
    pub device: Option<Result<usize, Error>>,
    pub min_batch: Option<usize>,
}

impl ShaSettings {
    /// Settings of which none was read.
    pub fn new() -> (settings: ShaSettings)
        ensures
            settings.device is None,
            settings.min_batch is None,
    {
        ShaSettings { device: None, min_batch: None }
    }
}

/// The index of the device that digests are computed on; the first device by default.
pub fn cached_device<E: Fn(Setting) -> EnvVar>(settings: &mut ShaSettings, env: &E) -> (result:
    Result<usize, Error>)
    requires
        old(settings).device is None ==> env.requires((Setting::ShaDevice,)),
    ensures
        settings::number_read_once(
            old(settings).device,
            final(settings).device,
            Setting::ShaDevice,
            0,
            *env,
            result,
        ),
        final(settings).min_batch == old(settings).min_batch,
{
    cached_number(&mut settings.device, Setting::ShaDevice, 0, env)
}

/// The smallest batch of digests that is offloaded.
pub fn min_batch_threshold<E: Fn(Setting) -> EnvVar>(settings: &mut ShaSettings, env: &E) -> (
    threshold: usize)
    requires
        old(settings).min_batch is None ==> env.requires((Setting::ShaMinBatch,)),
    ensures
        settings::lenient_read_once(
            old(settings).min_batch,
            final(settings).min_batch,
            Setting::ShaMinBatch,
            DEFAULT_MIN_BATCH,
            *env,
            threshold,
        ),
        final(settings).device == old(settings).device,
{
    cached_lenient_number(&mut settings.min_batch, Setting::ShaMinBatch, DEFAULT_MIN_BATCH, env)
}

/// What is handed to the device.
#[derive(Debug)]
pub struct ShaLaunch {
    pub device: i32,
    pub input: Vec<u8>,
    pub size: usize,
    pub n_messages: usize,
}

/// What the device reports: its status, the buffer that it may have written a message to,
/// and the digests one after the other.
#[derive(Debug)]
pub struct ShaReply {
    pub status: i32,
    pub error_buffer: Vec<u8>,
    pub output: Vec<u8>,
}

/// Whether a launch describes its own input: as many bytes as the messages have together.
pub open spec fn describes_input(launch: ShaLaunch) -> bool {
    &&& launch.n_messages > 0
    &&& launch.input@.len() == launch.size * launch.n_messages
}

/// Whether a device fills all digests on success.
pub open spec fn fills_digests<K: FnOnce(ShaLaunch) -> ShaReply>(kernel: K) -> bool {
    forall|launch: ShaLaunch, reply: ShaReply|
        #[trigger] kernel.ensures((launch,), reply) && reply.status == device::CUDA_SUCCESS
            ==> reply.output@.len() == launch.n_messages * DIGEST_LEN
}

/// Whether a function can stand for the device: it takes every launch that describes its own
/// input, and on success it fills all digests.
pub open spec fn is_digest_kernel<K: FnOnce(ShaLaunch) -> ShaReply>(kernel: K) -> bool {
    &&& forall|launch: ShaLaunch|
        describes_input(launch) ==> #[trigger] kernel.requires((launch,))
    &&& fills_digests(kernel)
}

/// One of the messages that stand one after the other.
pub open spec fn message_at(input: Seq<u8>, size: int, index: int) -> Seq<u8> {
    input.subrange(index * size, index * size + size)
}

/// One of the digests that stand one after the other.
pub open spec fn digest_at(output: Seq<u8>, index: int) -> Seq<u8> {
    output.subrange(index * DIGEST_LEN, index * DIGEST_LEN + DIGEST_LEN)
}

/// Whether the device computes the digest of each message, given a launch that describes its
/// own input.
pub open spec fn computes_digests<K: FnOnce(ShaLaunch) -> ShaReply>(kernel: K) -> bool {
    forall|launch: ShaLaunch, reply: ShaReply|
        #[trigger] kernel.ensures((launch,), reply) && reply.status == device::CUDA_SUCCESS
            && describes_input(launch) ==> forall|i: int|
            0 <= i < launch.n_messages ==> #[trigger] digest_at(reply.output@, i) == sha256_of(
                message_at(launch.input@, launch.size as int, i),
            )
}

/// Whether a launch is the one for given messages.
pub open spec fn is_digest_launch(
    launch: ShaLaunch,
    device: usize,
    input: Seq<u8>,
    size: usize,
    n_messages: int,
) -> bool {
    &&& launch.device == device as i32
    &&& launch.input@ == input
    &&& launch.size == size
    &&& launch.n_messages == n_messages
}

/// What hashing on the device comes to.
pub open spec fn digests_launched<K: FnOnce(ShaLaunch) -> ShaReply>(
    kernel: K,
    device: usize,
    size: usize,
    input: Seq<u8>,
    before: Seq<u8>,
    after: Seq<u8>,
    result: Result<(), Error>,
) -> bool {
    exists|launch: ShaLaunch, reply: ShaReply|
        {
            &&& is_digest_launch(launch, device, input, size, before.len() as int / 32)
            &&& #[trigger] kernel.ensures((launch,), reply)
            &&& device::device_result(
                Kernel::Digest,
                reply.status,
                reply.error_buffer@,
                result,
            )
            &&& after == if reply.status == device::CUDA_SUCCESS {
                reply.output@
            } else {
                before
            }
        }
}

/// Copies bytes.
fn copy_bytes(from: &[u8], to: &mut [u8])
    requires
        from@.len() == old(to)@.len(),
    ensures
        final(to)@ == from@,
{
    let total: usize = to.len();
    let mut i: usize = 0;
    while i < total
        invariant
            i <= total,
            total == to@.len(),
            total == from@.len(),
            forall|j: int| 0 <= j < i ==> to@[j] == from@[j],
        decreases total - i,
    {
        to[i] = from[i];
        i = i + 1;
    }
    assert(to@ =~= from@);
}

/// Launches the device on messages.
fn launch_digests<K: FnOnce(ShaLaunch) -> ShaReply>(
    kernel: K,
    device: usize,
    size: usize,
    input: &[u8],
    output: &mut [u8],
) -> (result: Result<(), Error>)
    requires
        fills_digests(kernel),
        forall|launch: ShaLaunch|
            is_digest_launch(launch, device, input@, size, old(output)@.len() as int / 32)
                ==> #[trigger] kernel.requires((launch,)),
        old(output)@.len() % DIGEST_LEN as nat == 0,
    ensures
        final(output)@.len() == old(output)@.len(),
        digests_launched(
            kernel,
            device,
            size,
            input@,
            old(output)@,
            final(output)@,
            result,
        ),
{
    let mut bytes: Vec<u8> = Vec::new();
    bytes.extend_from_slice(input);
    assert(bytes@ =~= input@);
    let launch = ShaLaunch {
        device: #[verifier::truncate]
        (device as i32),
        input: bytes,
        size,
        n_messages: output.len() / DIGEST_LEN,
    };
    let ghost sent = launch;
    assert(is_digest_launch(sent, device, input@, size, old(output)@.len() as int / 32));
    let reply = kernel(launch);
    assert(kernel.ensures((sent,), reply));
    match check_reply(Kernel::Digest, reply.status, reply.error_buffer.as_slice()) {
        Ok(()) => {
            copy_bytes(reply.output.as_slice(), output);
            Ok(())
        },
        Err(error) => Err(error),
    }
}

/// Whether the device that digests are computed on can be found, and then hash.
pub open spec fn digests_granted<E: Fn(Setting) -> EnvVar, K: FnOnce(ShaLaunch) -> ShaReply>(
    settings: ShaSettings,
    env: E,
    kernel: K,
) -> bool {
    &&& settings.device is None ==> env.requires((Setting::ShaDevice,))
    &&& forall|index: usize|
        #[trigger] settings::number_may_be(
            settings.device,
            Setting::ShaDevice,
            0,
            env,
            index,
        ) ==> is_digest_kernel(kernel)
}

/// Hashes messages of `size` bytes, which stand one after the other, on the device, and
/// writes their digests one after the other. The device is not called for lengths that are
/// refused, for no messages, or if the setting names no device.
pub fn sha256_many_cuda<E: Fn(Setting) -> EnvVar, K: FnOnce(ShaLaunch) -> ShaReply>(
    settings: &mut ShaSettings,
    env: &E,
    kernel: K,
    size: usize,
    input: &[u8],
    output: &mut [u8],
) -> (result: Result<(), Error>)
    requires
        old(output)@.len() % DIGEST_LEN as nat == 0 ==> size * (old(output)@.len() as int / 32)
            <= usize::MAX,
        old(output)@.len() % DIGEST_LEN as nat == 0 && old(output)@.len() > 0 && input@.len()
            == size * (old(output)@.len() as int / 32) ==> digests_granted(
            *old(settings),
            *env,
            kernel,
        ),
    ensures
        final(settings).min_batch == old(settings).min_batch,
        final(output)@.len() == old(output)@.len(),
        ({
            let n_messages = old(output)@.len() as int / 32;
            if old(output)@.len() % DIGEST_LEN as nat != 0 {
                &&& result == Err::<(), Error>(
                    Error::DigestOutput { length: old(output)@.len() as usize },
                )
                &&& final(output)@ == old(output)@
                &&& *final(settings) == *old(settings)
            } else if input@.len() != size * n_messages {
                &&& result == Err::<(), Error>(
                    Error::DigestInput {
                        length: input@.len() as usize,
                        expected: (size * n_messages) as usize,
                    },
                )
                &&& final(output)@ == old(output)@
                &&& *final(settings) == *old(settings)
            } else if n_messages == 0 {
                &&& result is Ok
                &&& final(output)@ == old(output)@
                &&& *final(settings) == *old(settings)
            } else {
                &&& final(settings).device matches Some(device)
                &&& settings::number_read_once(
                    old(settings).device,
                    final(settings).device,
                    Setting::ShaDevice,
                    0,
                    *env,
                    device,
                )
                &&& match device {
                    Err(error) => {
                        &&& result == Err::<(), Error>(error)
                        &&& final(output)@ == old(output)@
                    },
                    Ok(device) => digests_launched(
                        kernel,
                        device,
                        size,
                        input@,
                        old(output)@,
                        final(output)@,
                        result,
                    ),
                }
            }
        }),
{
    let length: usize = output.len();
    let n_messages: usize = length / DIGEST_LEN;
    if length % DIGEST_LEN != 0 {
        return Err(Error::DigestOutput { length });
    }
    let expected: usize = size * n_messages;
    if input.len() != expected {
        return Err(Error::DigestInput { length: input.len(), expected });
    }
    if n_messages == 0 {
        return Ok(());
    }
    match cached_device(settings, env) {
        Ok(device) => {
            assert(settings::number_may_be(
                old(settings).device,
                Setting::ShaDevice,
                0,
                *env,
                device,
            ));
            launch_digests(kernel, device, size, input, output)
        },
        Err(error) => Err(error),
    }
}

/// The bytes of digests, one after the other.
pub open spec fn digest_bytes(hashes: Seq<Hash>) -> Seq<u8> {
    Seq::new(DIGEST_LEN as nat * hashes.len(), |q: int| hashes[q / 32].bytes@[q % 32])
}

/// The bytes of digests.
fn bytes_of(hashes: &[Hash]) -> (bytes: Vec<u8>)
    ensures
        bytes@ == digest_bytes(hashes@),
{
    let mut bytes: Vec<u8> = Vec::new();
    let mut i: usize = 0;
    while i < hashes.len()
        invariant
            i <= hashes@.len(),
            bytes@ == digest_bytes(hashes@.take(i as int)),
        decreases hashes@.len() - i,
    {
        bytes.extend_from_slice(hashes[i].bytes.as_slice());
        assert(bytes@ =~= digest_bytes(hashes@.take(i + 1)));
        i = i + 1;
    }
    assert(hashes@.take(i as int) =~= hashes@);
    bytes
}

/// Overwrites digests with those whose bytes are given.
fn set_bytes(hashes: &mut [Hash], bytes: &[u8])
    requires
        bytes@.len() == DIGEST_LEN * old(hashes)@.len(),
    ensures
        final(hashes)@.len() == old(hashes)@.len(),
        digest_bytes(final(hashes)@) == bytes@,
{
    let total: usize = hashes.len();
    let count: usize = bytes.len();
    let mut i: usize = 0;
    while i < total
        invariant
            i <= total,
            total == hashes@.len(),
            count == bytes@.len(),
            count == DIGEST_LEN * total,
            forall|q: int| 0 <= q < 32 * i ==> hashes@[q / 32].bytes@[q % 32] == bytes@[q],
        decreases total - i,
    {
        let mut digest: [u8; 32] = [0;32];
        let mut j: usize = 0;
        while j < 32
            invariant
                j <= 32,
                i < total,
                count == bytes@.len(),
                count == DIGEST_LEN * total,
                forall|k: int| 0 <= k < j ==> digest@[k] == bytes@[32 * i + k],
            decreases 32 - j,
        {
            digest[j] = bytes[32 * i + j];
            j = j + 1;
        }
        hashes[i] = Hash { bytes: digest };
        assert forall|q: int| 0 <= q < 32 * (i + 1) implies hashes@[q / 32].bytes@[q % 32]
            == bytes@[q] by {
            if q >= 32 * i {
                assert(q / 32 == i && q % 32 == q - 32 * i);
            }
        }
        i = i + 1;
    }
    assert(digest_bytes(hashes@) =~= bytes@);
}

/// Whether a batch of digests is right.
pub open spec fn digests_right(size: usize, input: Seq<u8>, output: Seq<Hash>) -> bool {
    forall|i: int|
        0 <= i < output.len() ==> (#[trigger] output[i]).bytes@ == sha256_of(
            message_at(input, size as int, i),
        )
}

/// What becomes of one digest when a batch is hashed on the host: it is that of its message
/// if there is one, and otherwise left as it was. All empty messages have one digest.
pub open spec fn host_digest(
    size: usize,
    input: Seq<u8>,
    index: int,
    before: Hash,
    after: Hash,
) -> bool {
    if size == 0 {
        after.bytes@ == sha256_of(Seq::empty())
    } else if index < input.len() as int / size as int {
        after.bytes@ == sha256_of(message_at(input, size as int, index))
    } else {
        after == before
    }
}

/// A batch with as many messages as there is room for digests is hashed right on the host.
proof fn lemma_host_digests(size: usize, input: Seq<u8>, before: Seq<Hash>, after: Seq<Hash>)
    requires
        before.len() == after.len(),
        input.len() == size * after.len(),
        forall|i: int|
            0 <= i < after.len() ==> host_digest(size, input, i, before[i], #[trigger] after[i]),
    ensures
        digests_right(size, input, after),
{
    assert forall|i: int| 0 <= i < after.len() implies (#[trigger] after[i]).bytes@ == sha256_of(
        message_at(input, size as int, i),
    ) by {
        assert(host_digest(size, input, i, before[i], after[i]));
        if size == 0 {
            assert(i * 0 == 0);
            assert(message_at(input, 0, i) =~= Seq::empty());
        } else {
            lemma_div_multiples_vanish(after.len() as int, size as int);
            lemma_mul_is_commutative(after.len() as int, size as int);
        }
    }
}

/// Digests whose bytes are right are right.
proof fn lemma_device_digests(size: usize, input: Seq<u8>, output: Seq<Hash>)
    requires
        forall|i: int|
            0 <= i < output.len() ==> #[trigger] digest_at(digest_bytes(output), i) == sha256_of(
                message_at(input, size as int, i),
            ),
    ensures
        digests_right(size, input, output),
{
    assert forall|i: int| 0 <= i < output.len() implies (#[trigger] output[i]).bytes@
        == sha256_of(message_at(input, size as int, i)) by {
        let digest = digest_at(digest_bytes(output), i);
        assert forall|k: int| 0 <= k < 32 implies digest[k] == output[i].bytes@[k] by {
            let q = i * DIGEST_LEN + k;
            assert(q / 32 == i && q % 32 == k);
        }
        assert(digest =~= output[i].bytes@);
    }
}

/// Why hashing failed.
#[derive(Debug)]
pub struct HashError {
    pub cause: Error,
}

impl HashError {
    /// The error in words.
    pub open spec fn text(self) -> Seq<char> {
        "CUDA SHA-256 hashing failed: "@ + self.cause.text()
    }

    /// The error in words.
    pub fn message(&self) -> (message: String)
        ensures
            message@ == self.text(),
    {
        String::from_str("CUDA SHA-256 hashing failed: ").concat(self.cause.message().as_str())
    }
}

/// What hashing a batch on the device comes to.
pub open spec fn batch_offloaded<E: Fn(Setting) -> EnvVar, K: FnOnce(ShaLaunch) -> ShaReply>(
    before: ShaSettings,
    after: ShaSettings,
    env: E,
    kernel: K,
    size: usize,
    input: Seq<u8>,
    old_output: Seq<Hash>,
    new_output: Seq<Hash>,
    result: Result<(), HashError>,
) -> bool {
    &&& after.device matches Some(device)
    &&& settings::number_read_once(
        before.device,
        after.device,
        Setting::ShaDevice,
        0,
        env,
        device,
    )
    &&& match device {
        Err(error) => {
            &&& result == Err::<(), HashError>(HashError { cause: error })
            &&& new_output == old_output
        },
        Ok(device) => exists|hashed: Result<(), Error>|
            {
                &&& #[trigger] digests_launched(
                    kernel,
                    device,
                    size,
                    input,
                    digest_bytes(old_output),
                    digest_bytes(new_output),
                    hashed,
                )
                &&& match hashed {
                    Ok(_) => result is Ok,
                    Err(error) => result == Err::<(), HashError>(HashError { cause: error }),
                }
            },
    }
}

/// Whether the batch setting, as far as it was read, may let a batch be offloaded.
pub open spec fn batch_may_offload<E: Fn(Setting) -> EnvVar>(
    settings: ShaSettings,
    env: E,
    count: nat,
) -> bool {
    exists|threshold: usize|
        threshold <= count && #[trigger] settings::lenient_read_once(
            settings.min_batch,
            Some(threshold),
            Setting::ShaMinBatch,
            DEFAULT_MIN_BATCH,
            env,
            threshold,
        )
}

/// The SHA-256 engine that offloads large batches.
#[derive(Debug, Clone, Copy)]
pub struct CudaSha2;

impl Default for CudaSha2 {
    fn default() -> (engine: Self)
        ensures
            engine == CudaSha2,
    {
        CudaSha2
    }
}

impl CudaSha2 {
    /// The engine.
    pub fn new() -> (engine: CudaSha2)
        ensures
            engine == CudaSha2,
    {
        CudaSha2
    }

    /// The name that the engine is known by.
    pub fn name(&self) -> (name: &'static str)
        ensures
            name@ == "sha2"@,
    {
        "sha2"
    }

    /// The object identifier of the digest, in dotted form.
    pub fn oid(&self) -> (oid: Option<String>)
        ensures
            oid matches Some(text) && text@ == "2.16.840.1.101.3.4.2.1"@,
    {
        Some(sha256_oid())
    }

    /// Whether messages of a size can be hashed: all can.
    pub fn supports_size(&self, _size: usize) -> (yes: bool)
        ensures
            yes,
    {
        true
    }

    /// The batch size to split work into; none is preferred.
    pub fn preferred_batch_size(&self) -> (count: usize)
        ensures
            count == 1,
    {
        1
    }

    /// Hashes messages of `size` bytes, which stand one after the other, on the host, as
    /// many as there are messages and room for digests.
    pub fn cpu_fallback(size: usize, input: &[u8], output: &mut [Hash])
        ensures
            final(output)@.len() == old(output)@.len(),
            forall|i: int|
                0 <= i < old(output)@.len() ==> host_digest(
                    size,
                    input@,
                    i,
                    old(output)@[i],
                    #[trigger] final(output)@[i],
                ),
    {
        let total: usize = output.len();
        if size == 0 {
            let nothing: [u8; 0] = [];
            let empty = sha256_digest(nothing.as_slice());
            assert(nothing@ =~= Seq::empty());
            let mut i: usize = 0;
            while i < total
                invariant
                    i <= total,
                    total == output@.len(),
                    empty@ == sha256_of(Seq::empty()),
                    forall|j: int| 0 <= j < i ==> output@[j].bytes@ == sha256_of(Seq::empty()),
                decreases total - i,
            {
                output[i] = Hash { bytes: empty };
                i = i + 1;
            }
            return;
        }
        let ghost before = output@;
        let length: usize = input.len();
        let mut i: usize = 0;
        while i < total && i < length / size
            invariant
                i <= total,
                i <= length / size,
                size > 0,
                length == input@.len(),
                total == output@.len(),
                total == before.len(),
                forall|j: int|
                    0 <= j < i ==> (#[trigger] output@[j]).bytes@ == sha256_of(
                        message_at(input@, size as int, j),
                    ),
                forall|j: int| i <= j < total ==> output@[j] == before[j],
            decreases total - i,
        {
            proof {
                lemma_fundamental_div_mod(length as int, size as int);
                lemma_mod_bound(length as int, size as int);
                assert(0 <= i * size && i * size + size <= length) by (nonlinear_arith)
                    requires
                        i + 1 <= length as int / size as int,
                        length == size * (length as int / size as int) + length as int
                            % size as int,
                        length as int % size as int >= 0,
                        size > 0,
                        i >= 0,
                ;
            }
            let start: usize = i * size;
            let digest = sha256_digest(slice_subrange(input, start, start + size));
            output[i] = Hash { bytes: digest };
            i = i + 1;
        }
    }

    /// Hashes messages of `size` bytes, which stand one after the other: on the device, or
    /// on the host if the batch is too small or the messages are empty. On the host the
    /// device is not called.
    pub fn hash_many<E: Fn(Setting) -> EnvVar, K: FnOnce(ShaLaunch) -> ShaReply>(
        &self,
        settings: &mut ShaSettings,
        env: &E,
        kernel: K,
        size: usize,
        input: &[u8],
        output: &mut [Hash],
    ) -> (result: Result<(), HashError>)
        requires
            old(settings).min_batch is None ==> env.requires((Setting::ShaMinBatch,)),
            size > 0 && old(output)@.len() > 0 && batch_may_offload(
                *old(settings),
                *env,
                old(output)@.len(),
            ) ==> digests_granted(*old(settings), *env, kernel),
            input@.len() == size * old(output)@.len(),
            DIGEST_LEN * old(output)@.len() <= usize::MAX,
        ensures
            final(output)@.len() == old(output)@.len(),
            final(settings).min_batch matches Some(threshold) && settings::lenient_read_once(
                old(settings).min_batch,
                final(settings).min_batch,
                Setting::ShaMinBatch,
                DEFAULT_MIN_BATCH,
                *env,
                threshold,
            ) && if old(output)@.len() < threshold || size == 0 {
                &&& result is Ok
                &&& digests_right(size, input@, final(output)@)
                &&& final(settings).device == old(settings).device
            } else if old(output)@.len() == 0 {
                &&& result is Ok
                &&& final(settings).device == old(settings).device
            } else {
                batch_offloaded(
                    *old(settings),
                    *final(settings),
                    *env,
                    kernel,
                    size,
                    input@,
                    old(output)@,
                    final(output)@,
                    result,
                )
            },
            computes_digests(kernel) && result is Ok ==> digests_right(
                size,
                input@,
                final(output)@,
            ),
    {
        let n: usize = output.len();
        let length: usize = input.len();
        let threshold: usize = min_batch_threshold(settings, env);
        if n < threshold || size == 0 {
            Self::cpu_fallback(size, input, output);
            proof {
                lemma_host_digests(size, input@, old(output)@, output@);
            }
            return Ok(());
        }
        let mut bytes = bytes_of(output);
        proof {
            assert(bytes@.len() as int / 32 == n);
            assert(size * n == length);
        }
        match sha256_many_cuda(settings, env, kernel, size, input, bytes.as_mut_slice()) {
            Ok(()) => {
                set_bytes(output, bytes.as_slice());
                proof {
                    if computes_digests(kernel) {
                        lemma_device_digests(size, input@, output@);
                    }
                }
                Ok(())
            },
            Err(cause) => Err(HashError { cause }),
        }
    }
}

} // verus!
