//! Laws of batches of digests.
use vstd::arithmetic::div_mod::*;
use vstd::arithmetic::mul::*;
use vstd::prelude::*;

use crate::error::{Error, Setting};
use crate::laws::cuda::gives_number;
use crate::laws::settings::{always_set, never_set};
use crate::settings::EnvVar;
use crate::sha256;
use crate::sha256::{
    sha256_many_cuda, sha256_of, CudaSha2, HashError, ShaLaunch, ShaReply, ShaSettings,
};

verus! {

/// Whether a device never fails on digests.
pub open spec fn always_hashes<K: FnOnce(ShaLaunch) -> ShaReply>(kernel: K) -> bool {
    forall|launch: ShaLaunch, reply: ShaReply| #[trigger]
        kernel.ensures((launch,), reply) ==> reply.status == 0
}

/// Room that is not a whole number of digests, or input that is not as long as the messages
/// together, is refused with both lengths; no room is no work. Then nothing is read, called
/// or written.
pub proof fn lemma_lengths_checked<E: Fn(Setting) -> EnvVar, K: FnOnce(ShaLaunch) -> ShaReply>(
    settings: &mut ShaSettings,
    env: E,
    kernel: K,
    size: usize,
    input: &[u8],
    output: &mut [u8],
    result: Result<(), Error>,
)
    requires
        call_ensures(
            sha256_many_cuda::<E, K>,
            (settings, &env, kernel, size, input, output),
            result,
        ),
        old(output)@.len() <= usize::MAX,
        input@.len() <= usize::MAX,
        size * (old(output)@.len() as int / 32) <= usize::MAX,
    ensures
        final(output)@.len() == old(output)@.len(),
        old(output)@.len() % 32 != 0 ==> {
            &&& result matches Err(error)
            &&& error matches Error::DigestOutput { length }
            &&& length == old(output)@.len()
        },
        old(output)@.len() % 32 == 0 && 32 * input@.len() != size * old(output)@.len() ==> {
            &&& result matches Err(error)
            &&& error matches Error::DigestInput { length, expected }
            &&& length == input@.len()
            &&& 32 * expected == size * old(output)@.len()
        },
        old(output)@.len() == 0 && input@.len() == 0 ==> result is Ok,
        old(output)@.len() == 0 || old(output)@.len() % 32 != 0 || 32 * input@.len() != size * old(
            output,
        )@.len() ==> *final(settings) == *old(settings) && final(output)@ == old(output)@,
        final(settings).min_batch == old(settings).min_batch,
{
    let n = old(output)@.len() as int / 32;
    if old(output)@.len() % 32 == 0 {
        assert(old(output)@.len() == 32 * n);
        assert(size * (32 * n) == 32 * (size * n)) by (nonlinear_arith);
        if old(output)@.len() == 0 {
            assert(size * 0 == 0);
        }
    }
}

/// Messages that are as long as the input and have room for their digests are handed to the
/// device as they are, with their size and number and the device that the setting names. The
/// digests are what it gives back, and on a failure nothing is written.
pub proof fn lemma_digests_launched<E: Fn(Setting) -> EnvVar, K: FnOnce(ShaLaunch) -> ShaReply>(
    settings: &mut ShaSettings,
    env: E,
    kernel: K,
    size: usize,
    input: &[u8],
    output: &mut [u8],
    count: usize,
    result: Result<(), Error>,
)
    requires
        call_ensures(
            sha256_many_cuda::<E, K>,
            (settings, &env, kernel, size, input, output),
            result,
        ),
        count > 0,
        old(output)@.len() == 32 * count,
        input@.len() == size * count,
    ensures
        final(settings).device is Some,
        final(settings).device matches Some(Err(error)) ==> result == Err::<(), Error>(error)
            && final(output)@ == old(output)@,
        final(settings).device matches Some(Ok(index)) ==> exists|
            launch: ShaLaunch,
            reply: ShaReply,
        |
            {
                &&& #[trigger] kernel.ensures((launch,), reply)
                &&& launch.device == index as i32
                &&& launch.input@ == input@
                &&& launch.size == size
                &&& launch.n_messages == count
                &&& result is Ok <==> reply.status == 0
                &&& result is Ok ==> final(output)@ == reply.output@
                &&& result matches Err(error) ==> {
                    &&& error matches Error::Device { kernel, status, message: _ }
                    &&& kernel is Digest
                    &&& status == reply.status
                    &&& final(output)@ == old(output)@
                }
            },
        gives_number(old(settings).device, env, Setting::ShaDevice) && always_hashes(kernel)
            ==> result is Ok,
{
    assert(old(output)@.len() as int / 32 == count);
}

/// With a device that never fails and hashes right, each digest that comes out is the one of
/// its message.
pub proof fn lemma_digests_right<E: Fn(Setting) -> EnvVar, K: FnOnce(ShaLaunch) -> ShaReply>(
    settings: &mut ShaSettings,
    env: E,
    kernel: K,
    size: usize,
    input: &[u8],
    output: &mut [u8],
    count: usize,
    i: int,
    result: Result<(), Error>,
)
    requires
        call_ensures(
            sha256_many_cuda::<E, K>,
            (settings, &env, kernel, size, input, output),
            result,
        ),
        old(output)@.len() == 32 * count,
        input@.len() == size * count,
        gives_number(old(settings).device, env, Setting::ShaDevice),
        always_hashes(kernel),
        sha256::computes_digests(kernel),
        0 <= i < count,
    ensures
        result is Ok,
        final(output)@.subrange(32 * i, 32 * i + 32) == sha256_of(
            input@.subrange(i * size, i * size + size),
        ),
{
    assert(old(output)@.len() as int / 32 == count);
    let index = final(settings).device->0->Ok_0;
    let (launch, reply) = choose|launch: ShaLaunch, reply: ShaReply|
        {
            &&& sha256::is_digest_launch(launch, index, input@, size, count as int)
            &&& #[trigger] kernel.ensures((launch,), reply)
            &&& reply.status == 0
            &&& final(output)@ == reply.output@
        };
    assert(sha256::describes_input(launch));
    assert(sha256::digest_at(reply.output@, i) == sha256_of(
        sha256::message_at(launch.input@, launch.size as int, i),
    ));
}

/// On the host each digest that has a message becomes the one of its message, those of empty
/// messages the one of nothing, and the others stay.
pub proof fn lemma_host_digests(
    size: usize,
    input: &[u8],
    output: &mut [crate::sha256::Hash],
    i: int,
)
    requires
        call_ensures(CudaSha2::cpu_fallback, (size, input, output), ()),
        0 <= i < old(output)@.len(),
    ensures
        final(output)@.len() == old(output)@.len(),
        size == 0 ==> final(output)@[i].bytes@ == sha256_of(Seq::empty()),
        size > 0 && i * size + size <= input@.len() ==> final(output)@[i].bytes@ == sha256_of(
            input@.subrange(i * size, i * size + size),
        ),
        size > 0 && i * size + size > input@.len() ==> final(output)@[i] == old(output)@[i],
{
    assert(sha256::host_digest(
        size,
        input@,
        i,
        old(output)@[i],
        final(output)@[i],
    ));
    if size > 0 {
        let length = input@.len() as int;
        let quotient = length / size as int;
        lemma_fundamental_div_mod(length, size as int);
        lemma_mod_bound(length, size as int);
        let rest = length % size as int;
        assert(i < quotient <==> i * size + size <= length) by (nonlinear_arith)
            requires
                length == size * quotient + rest,
                0 <= rest < size,
        ;
    }
}

/// A batch of as many messages as there is room for digests is hashed right, wherever that is
/// done: with readable settings and a device that never fails and hashes right, hashing
/// succeeds, and each digest is the one of its message.
pub proof fn lemma_batch_hashed<E: Fn(Setting) -> EnvVar, K: FnOnce(ShaLaunch) -> ShaReply>(
    engine: CudaSha2,
    settings: &mut ShaSettings,
    env: E,
    kernel: K,
    size: usize,
    input: &[u8],
    output: &mut [crate::sha256::Hash],
    i: int,
    result: Result<(), HashError>,
)
    requires
        call_ensures(
            CudaSha2::hash_many::<E, K>,
            (&engine, settings, &env, kernel, size, input, output),
            result,
        ),
        input@.len() == size * old(output)@.len(),
        gives_number(old(settings).device, env, Setting::ShaDevice),
        always_hashes(kernel),
        sha256::computes_digests(kernel),
    ensures
        result is Ok,
        final(output)@.len() == old(output)@.len(),
        0 <= i < final(output)@.len() ==> final(output)@[i].bytes@ == sha256_of(
            input@.subrange(i * size, i * size + size),
        ),
{
    if 0 <= i < final(output)@.len() {
        assert(final(output)@[i].bytes@ == sha256_of(
            sha256::message_at(input@, size as int, i),
        ));
    }
}

/// A batch with fewer digests than the smallest one that is offloaded, or with empty messages,
/// is hashed right whatever the device would do, and no device is looked for. Without the
/// setting that is fewer than 4096 digests.
pub proof fn lemma_small_batch_hashed<E: Fn(Setting) -> EnvVar, K: FnOnce(ShaLaunch) -> ShaReply>(
    engine: CudaSha2,
    settings: &mut ShaSettings,
    env: E,
    kernel: K,
    size: usize,
    input: &[u8],
    output: &mut [crate::sha256::Hash],
    threshold: usize,
    i: int,
    result: Result<(), HashError>,
)
    requires
        call_ensures(
            CudaSha2::hash_many::<E, K>,
            (&engine, settings, &env, kernel, size, input, output),
            result,
        ),
        input@.len() == size * old(output)@.len(),
        match old(settings).min_batch {
            Some(kept) => threshold == kept,
            None => {
                ||| never_set(env, Setting::ShaMinBatch) && threshold == 4096
                ||| always_set(env, Setting::ShaMinBatch, threshold)
            },
        },
    ensures
        final(settings).min_batch == Some(threshold),
        old(output)@.len() < threshold || size == 0 ==> {
            &&& result is Ok
            &&& 0 <= i < old(output)@.len() ==> final(output)@[i].bytes@ == sha256_of(
                input@.subrange(i * size, i * size + size),
            )
            &&& final(settings).device == old(settings).device
        },
        old(output)@.len() >= threshold && size > 0 && old(output)@.len() > 0 ==> {
            &&& final(settings).device is Some
            &&& final(settings).device matches Some(Err(error)) ==> result == Err::<
                (),
                HashError,
            >(HashError { cause: error })
            &&& final(settings).device matches Some(Ok(index)) ==> exists|
                launch: ShaLaunch,
                reply: ShaReply,
            |
                {
                    &&& #[trigger] kernel.ensures((launch,), reply)
                    &&& launch.device == index as i32
                    &&& launch.input@ == input@
                    &&& launch.size == size
                    &&& launch.n_messages == old(output)@.len()
                    &&& result is Ok <==> reply.status == 0
                    &&& result matches Err(error) ==> {
                        &&& error.cause matches Error::Device { kernel, status, message: _ }
                        &&& kernel is Digest
                        &&& status == reply.status
                    }
                }
        },
{
    if always_set(env, Setting::ShaMinBatch, threshold) {
        assert forall|var: EnvVar| #[trigger]
            env.ensures((Setting::ShaMinBatch,), var) implies crate::text::trimmed(
            var->Value_0@,
        ) == var->Value_0@ by {
            crate::laws::text::lemma_number_is_trimmed(var->Value_0@);
        }
    }
    if (old(output)@.len() < threshold || size == 0) && 0 <= i < old(output)@.len() {
        assert(final(output)@[i].bytes@ == sha256_of(
            sha256::message_at(input@, size as int, i),
        ));
    }
    assert(sha256::digest_bytes(old(output)@).len() as int / 32 == old(output)@.len());
}

/// The engine is the one for SHA-256: its name and object identifier say so, it takes
/// messages of every size, and it prefers no batches.
pub proof fn lemma_engine(
    engine: CudaSha2,
    name: &'static str,
    oid: Option<String>,
    size: usize,
    supported: bool,
    batch: usize,
)
    requires
        call_ensures(CudaSha2::name, (&engine,), name),
        call_ensures(CudaSha2::oid, (&engine,), oid),
        call_ensures(CudaSha2::supports_size, (&engine, size), supported),
        call_ensures(CudaSha2::preferred_batch_size, (&engine,), batch),
    ensures
        name@ == "sha2"@,
        oid is Some,
        oid->0@ == "2.16.840.1.101.3.4.2.1"@,
        supported,
        batch == 1,
{
}

/// What is said of failed hashing is that it failed, and why.
pub proof fn lemma_hash_message(error: HashError, cause_message: String, message: String)
    requires
        call_ensures(Error::message, (&error.cause,), cause_message),
        call_ensures(HashError::message, (&error,), message),
    ensures
        message@ == "CUDA SHA-256 hashing failed: "@ + cause_message@,
{
}

/// If hashing a batch fails, its digests are as they were.
pub proof fn lemma_failed_batch_unchanged<
    E: Fn(Setting) -> EnvVar,
    K: FnOnce(ShaLaunch) -> ShaReply,
>(
    engine: CudaSha2,
    settings: &mut ShaSettings,
    env: E,
    kernel: K,
    size: usize,
    input: &[u8],
    output: &mut [crate::sha256::Hash],
    i: int,
    j: int,
    result: Result<(), HashError>,
)
    requires
        call_ensures(
            CudaSha2::hash_many::<E, K>,
            (&engine, settings, &env, kernel, size, input, output),
            result,
        ),
        result is Err,
        0 <= i < old(output)@.len(),
        0 <= j < 32,
    ensures
        final(output)@[i].bytes@[j] == old(output)@[i].bytes@[j],
{
    let q = 32 * i + j;
    assert(q / 32 == i && q % 32 == j);
    assert(sha256::digest_bytes(old(output)@)[q] == old(output)@[i].bytes@[j]);
    assert(sha256::digest_bytes(final(output)@)[q] == final(output)@[i].bytes@[j]);
}

} // verus!
