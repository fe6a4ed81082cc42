//! Laws of the settings.
use vstd::prelude::*;

use crate::error::{Error, Setting};
use crate::laws::text;
use crate::settings::{
    cached_lenient_number, cached_number, cuda_device_index, cuda_min_codeword_size,
    cuda_ntt_policy, cuda_release_guard_stride, cuda_should_offload_codeword_size,
    policy_from_name, read_lenient_number, read_number, read_policy, CudaNttPolicy, CudaSettings,
    EnvVar,
};
use crate::sha256::{cached_device, min_batch_threshold, ShaSettings};
use crate::sppark::{env_max_batch, env_threshold_codeword, should_use_sppark, SpparkSettings};
use crate::text::{is_name, lowered, number_in, trim, trimmed};

verus! {

/// Whether the environment never holds a setting.
pub open spec fn never_set<E: Fn(Setting) -> EnvVar>(env: E, setting: Setting) -> bool {
    forall|var: EnvVar| #[trigger] env.ensures((setting,), var) ==> var is Missing
}

/// Whether the environment always holds the same number for a setting.
pub open spec fn always_set<E: Fn(Setting) -> EnvVar>(
    env: E,
    setting: Setting,
    number: usize,
) -> bool {
    forall|var: EnvVar| #[trigger]
        env.ensures((setting,), var) ==> {
            &&& var matches EnvVar::Value(value)
            &&& number_in(value@) == Some(number as nat)
        }
}

/// Whether a numeric setting may have been read as a result: its number if the environment
/// held one that fits, the default if it held nothing, and an error that names the setting
/// otherwise.
pub open spec fn may_be_read<E: Fn(Setting) -> EnvVar>(
    env: E,
    setting: Setting,
    default: usize,
    result: Result<usize, Error>,
) -> bool {
    exists|var: EnvVar|
        {
            &&& #[trigger] env.ensures((setting,), var)
            &&& match result {
                Ok(number) => {
                    ||| var is Missing && number == default
                    ||| var is Value && number_in(var->Value_0@) == Some(number as nat)
                },
                Err(Error::NotANumber { setting: named, value, reason: _ }) => {
                    &&& named == setting
                    &&& var == EnvVar::Value(value)
                    &&& number_in(value@) is None || number_in(value@)->0 > usize::MAX
                },
                Err(Error::Unreadable { setting: named, reason }) => {
                    &&& named == setting
                    &&& var == EnvVar::Unreadable(reason)
                },
                Err(_) => false,
            }
        }
}

/// Whether a numeric setting with a fallback may have been read as a number: the one that the
/// environment held, without the white space around it, and the default if there was none
/// that fits.
pub open spec fn may_be_read_leniently<E: Fn(Setting) -> EnvVar>(
    env: E,
    setting: Setting,
    default: usize,
    number: usize,
) -> bool {
    exists|var: EnvVar|
        {
            &&& #[trigger] env.ensures((setting,), var)
            &&& if var is Value && number_in(trimmed(var->Value_0@)) is Some && number_in(
                trimmed(var->Value_0@),
            )->0 <= usize::MAX {
                number == number_in(trimmed(var->Value_0@))->0
            } else {
                number == default
            }
        }
}

/// Whether the policy may have been read as a result: the one that the environment named, the
/// automatic one if it held nothing, and an error otherwise.
pub open spec fn may_be_policy<E: Fn(Setting) -> EnvVar>(
    env: E,
    result: Result<CudaNttPolicy, Error>,
) -> bool {
    exists|var: EnvVar|
        {
            let name = lowered(trimmed(var->Value_0@));
            &&& #[trigger] env.ensures((Setting::Policy,), var)
            &&& match result {
                Ok(CudaNttPolicy::Auto) => var is Missing || var is Value && name == "auto"@,
                Ok(CudaNttPolicy::SizeOnly) => var is Value && (name == "size-only"@ || name
                    == "size_only"@ || name == "size"@),
                Ok(CudaNttPolicy::Always) => var is Value && name == "always"@,
                Ok(CudaNttPolicy::Never) => var is Value && name == "never"@,
                Err(Error::UnknownPolicy { value }) => {
                    &&& var == EnvVar::Value(value)
                    &&& name != "auto"@ && name != "size-only"@ && name != "size_only"@
                    &&& name != "size"@ && name != "always"@ && name != "never"@
                },
                Err(Error::Unreadable { setting, reason }) => setting is Policy && var
                    == EnvVar::Unreadable(reason),
                Err(_) => false,
            }
        }
}

/// A numeric setting is its number if it is one that fits, and the default if it is not set;
/// anything else is an error that names the setting.
pub proof fn lemma_number_read(
    setting: Setting,
    var: EnvVar,
    default: usize,
    result: Result<usize, Error>,
)
    requires
        call_ensures(read_number, (setting, var, default), result),
    ensures
        var is Missing ==> result == Ok::<usize, Error>(default),
        var is Value && number_in(var->Value_0@) is Some && number_in(var->Value_0@)->0
            <= usize::MAX ==> result is Ok && result->Ok_0 == number_in(var->Value_0@)->0,
        result is Ok ==> var is Missing || var is Value && number_in(var->Value_0@) == Some(
            result->Ok_0 as nat,
        ),
        var matches EnvVar::Unreadable(reason) ==> result == Err::<usize, Error>(
            Error::Unreadable { setting, reason },
        ),
        var is Value && result is Err ==> {
            &&& result->Err_0 matches Error::NotANumber { setting: named, value, reason: _ }
            &&& named == setting
            &&& EnvVar::Value(value) == var
        },
{
}

/// A numeric setting with a fallback is its number, whatever white space stands around it,
/// and the default in every other case.
pub proof fn lemma_lenient_number_read(
    var: EnvVar,
    value: &str,
    trimmed: &str,
    default: usize,
    result: usize,
)
    requires
        call_ensures(read_lenient_number, (var, default), result),
        call_ensures(trim, (value,), trimmed),
        var is Value ==> var->Value_0@ == value@,
    ensures
        var is Value && number_in(trimmed@) is Some && number_in(trimmed@)->0 <= usize::MAX
            ==> result == number_in(trimmed@)->0,
        !(var is Value && number_in(trimmed@) is Some && number_in(trimmed@)->0 <= usize::MAX)
            ==> result == default,
{
}

/// A policy has the names that it is documented with, in capitals or small letters, and no
/// other text names one.
pub proof fn lemma_policy_names(
    name: &str,
    policy: Option<CudaNttPolicy>,
    auto: bool,
    size_only: bool,
    size_underscore_only: bool,
    size: bool,
    always: bool,
    never: bool,
)
    requires
        call_ensures(policy_from_name, (name,), policy),
        call_ensures(is_name, (name, "auto"), auto),
        call_ensures(is_name, (name, "size-only"), size_only),
        call_ensures(is_name, (name, "size_only"), size_underscore_only),
        call_ensures(is_name, (name, "size"), size),
        call_ensures(is_name, (name, "always"), always),
        call_ensures(is_name, (name, "never"), never),
    ensures
        policy == Some(CudaNttPolicy::Auto) <==> auto,
        policy == Some(CudaNttPolicy::SizeOnly) <==> size_only || size_underscore_only || size,
        policy == Some(CudaNttPolicy::Always) <==> always,
        policy == Some(CudaNttPolicy::Never) <==> never,
{
    reveal_strlit("auto");
    reveal_strlit("size-only");
    reveal_strlit("size_only");
    reveal_strlit("size");
    reveal_strlit("always");
    reveal_strlit("never");
    assert("auto"@[0] == 'a' && "size-only"@[0] == 's' && "size_only"@[0] == 's');
    assert("size"@[0] == 's' && "always"@[0] == 'a' && "never"@[0] == 'n');
    assert("auto"@.len() == 4 && "always"@.len() == 6);
}

/// The policy setting is the policy that its text names, whatever white space stands around
/// it; a text that names none is an error that holds it, and without the setting the size
/// decides.
pub proof fn lemma_policy_read(
    var: EnvVar,
    value: &str,
    trimmed: &str,
    named: Option<CudaNttPolicy>,
    result: Result<CudaNttPolicy, Error>,
)
    requires
        call_ensures(read_policy, (var,), result),
        call_ensures(trim, (value,), trimmed),
        call_ensures(policy_from_name, (trimmed,), named),
        var is Value ==> var->Value_0@ == value@,
    ensures
        var is Missing ==> result == Ok::<CudaNttPolicy, Error>(CudaNttPolicy::Auto),
        var matches EnvVar::Value(text) ==> result == match named {
            Some(policy) => Ok::<CudaNttPolicy, Error>(policy),
            None => Err(Error::UnknownPolicy { value: text }),
        },
        var matches EnvVar::Unreadable(reason) ==> result == Err::<CudaNttPolicy, Error>(
            Error::Unreadable { setting: Setting::Policy, reason },
        ),
{
}

/// The policy is read once: afterwards it is kept, whatever the environment holds. Without
/// the setting it is the automatic one.
pub proof fn lemma_policy_kept<E: Fn(Setting) -> EnvVar>(
    settings: &mut CudaSettings,
    env: E,
    result: Result<CudaNttPolicy, Error>,
)
    requires
        call_ensures(cuda_ntt_policy::<E>, (settings, &env), result),
    ensures
        old(settings).policy matches Some(kept) ==> result == kept,
        old(settings).policy is None && never_set(env, Setting::Policy) ==> result == Ok::<
            CudaNttPolicy,
            Error,
        >(CudaNttPolicy::Auto),
        old(settings).policy is None ==> may_be_policy(env, result),
        final(settings).policy == Some(result),
        final(settings).device == old(settings).device,
        final(settings).min_codeword_size == old(settings).min_codeword_size,
        final(settings).guard_stride == old(settings).guard_stride,
{
}

/// The device that transforms run on is the first one unless the setting names another. It is
/// read once: afterwards it is kept, whatever the environment holds.
pub proof fn lemma_cuda_device_index<E: Fn(Setting) -> EnvVar>(
    settings: &mut CudaSettings,
    env: E,
    number: usize,
    result: Result<usize, Error>,
)
    requires
        call_ensures(cuda_device_index::<E>, (settings, &env), result),
    ensures
        old(settings).device matches Some(kept) ==> result == kept,
        old(settings).device is None && never_set(env, Setting::CudaDevice) ==> result == Ok::<
            usize,
            Error,
        >(0),
        old(settings).device is None && always_set(env, Setting::CudaDevice, number) ==> result
            == Ok::<usize, Error>(number),
        old(settings).device is None ==> may_be_read(env, Setting::CudaDevice, 0, result),
        final(settings).device == Some(result),
        final(settings).min_codeword_size == old(settings).min_codeword_size,
        final(settings).policy == old(settings).policy,
        final(settings).guard_stride == old(settings).guard_stride,
{
}

/// The smallest codeword that is offloaded has 2048 rows unless the setting says otherwise.
/// It is read once: afterwards it is kept, whatever the environment holds.
pub proof fn lemma_cuda_min_codeword_size<E: Fn(Setting) -> EnvVar>(
    settings: &mut CudaSettings,
    env: E,
    number: usize,
    result: Result<usize, Error>,
)
    requires
        call_ensures(cuda_min_codeword_size::<E>, (settings, &env), result),
    ensures
        old(settings).min_codeword_size matches Some(kept) ==> result == kept,
        old(settings).min_codeword_size is None && never_set(
            env,
            Setting::MinCodewordSize,
        ) ==> result == Ok::<usize, Error>(2048),
        old(settings).min_codeword_size is None && always_set(
            env,
            Setting::MinCodewordSize,
            number,
        ) ==> result == Ok::<usize, Error>(number),
        old(settings).min_codeword_size is None ==> may_be_read(
            env,
            Setting::MinCodewordSize,
            2048,
            result,
        ),
        final(settings).min_codeword_size == Some(result),
        final(settings).device == old(settings).device,
        final(settings).policy == old(settings).policy,
        final(settings).guard_stride == old(settings).guard_stride,
{
}

/// Transformed values are not checked unless the setting says which. It is read once:
/// afterwards it is kept, whatever the environment holds.
pub proof fn lemma_cuda_release_guard_stride<E: Fn(Setting) -> EnvVar>(
    settings: &mut CudaSettings,
    env: E,
    number: usize,
    result: Result<usize, Error>,
)
    requires
        call_ensures(cuda_release_guard_stride::<E>, (settings, &env), result),
    ensures
        old(settings).guard_stride matches Some(kept) ==> result == kept,
        old(settings).guard_stride is None && never_set(env, Setting::GuardStride) ==> result
            == Ok::<usize, Error>(0),
        old(settings).guard_stride is None && always_set(
            env,
            Setting::GuardStride,
            number,
        ) ==> result == Ok::<usize, Error>(number),
        old(settings).guard_stride is None ==> may_be_read(env, Setting::GuardStride, 0, result),
        final(settings).guard_stride == Some(result),
        final(settings).device == old(settings).device,
        final(settings).min_codeword_size == old(settings).min_codeword_size,
        final(settings).policy == old(settings).policy,
{
}

/// The device that digests are computed on is the first one unless the setting names another.
/// It is read once: afterwards it is kept, whatever the environment holds.
pub proof fn lemma_cached_device<E: Fn(Setting) -> EnvVar>(
    settings: &mut ShaSettings,
    env: E,
    number: usize,
    result: Result<usize, Error>,
)
    requires
        call_ensures(cached_device::<E>, (settings, &env), result),
    ensures
        old(settings).device matches Some(kept) ==> result == kept,
        old(settings).device is None && never_set(env, Setting::ShaDevice) ==> result == Ok::<
            usize,
            Error,
        >(0),
        old(settings).device is None && always_set(env, Setting::ShaDevice, number) ==> result
            == Ok::<usize, Error>(number),
        old(settings).device is None ==> may_be_read(env, Setting::ShaDevice, 0, result),
        final(settings).device == Some(result),
        final(settings).min_batch == old(settings).min_batch,
{
}

/// The smallest batch of digests that is offloaded has 4096 of them unless the setting says
/// otherwise. It is read once: afterwards it is kept, whatever the environment holds.
pub proof fn lemma_min_batch_threshold<E: Fn(Setting) -> EnvVar>(
    settings: &mut ShaSettings,
    env: E,
    number: usize,
    result: usize,
)
    requires
        call_ensures(min_batch_threshold::<E>, (settings, &env), result),
    ensures
        old(settings).min_batch matches Some(kept) ==> result == kept,
        old(settings).min_batch is None && never_set(env, Setting::ShaMinBatch) ==> result == 4096,
        old(settings).min_batch is None && always_set(env, Setting::ShaMinBatch, number) ==> result
            == number,
        old(settings).min_batch is None ==> may_be_read_leniently(
            env,
            Setting::ShaMinBatch,
            4096,
            result,
        ),
        final(settings).min_batch == Some(result),
        final(settings).device == old(settings).device,
{
    if old(settings).min_batch is None && always_set(env, Setting::ShaMinBatch, number) {
        assert forall|var: EnvVar| #[trigger]
            env.ensures((Setting::ShaMinBatch,), var) implies trimmed(var->Value_0@)
            == var->Value_0@ by {
            text::lemma_number_is_trimmed(var->Value_0@);
        }
    }
}

/// The smallest codeword for the single-polynomial transform has 131072 rows unless the
/// setting says otherwise. It is read once: afterwards it is kept, whatever the environment
/// holds.
pub proof fn lemma_env_threshold_codeword<E: Fn(Setting) -> EnvVar>(
    settings: &mut SpparkSettings,
    env: E,
    number: usize,
    result: usize,
)
    requires
        call_ensures(env_threshold_codeword::<E>, (settings, &env), result),
    ensures
        old(settings).min_codeword matches Some(kept) ==> result == kept,
        old(settings).min_codeword is None && never_set(env, Setting::SpparkMinCodeword) ==> result
            == 131072,
        old(settings).min_codeword is None && always_set(
            env,
            Setting::SpparkMinCodeword,
            number,
        ) ==> result == number,
        old(settings).min_codeword is None ==> may_be_read_leniently(
            env,
            Setting::SpparkMinCodeword,
            131072,
            result,
        ),
        final(settings).min_codeword == Some(result),
        final(settings).max_batch == old(settings).max_batch,
{
    if old(settings).min_codeword is None && always_set(env, Setting::SpparkMinCodeword, number) {
        assert forall|var: EnvVar| #[trigger]
            env.ensures((Setting::SpparkMinCodeword,), var) implies trimmed(var->Value_0@)
            == var->Value_0@ by {
            text::lemma_number_is_trimmed(var->Value_0@);
        }
    }
}

/// The first batch that is too large for the single-polynomial transform has 32 messages
/// unless the setting says otherwise. It is read once: afterwards it is kept, whatever the
/// environment holds.
pub proof fn lemma_env_max_batch<E: Fn(Setting) -> EnvVar>(
    settings: &mut SpparkSettings,
    env: E,
    number: usize,
    result: usize,
)
    requires
        call_ensures(env_max_batch::<E>, (settings, &env), result),
    ensures
        old(settings).max_batch matches Some(kept) ==> result == kept,
        old(settings).max_batch is None && never_set(env, Setting::SpparkMaxBatch) ==> result == 32,
        old(settings).max_batch is None && always_set(
            env,
            Setting::SpparkMaxBatch,
            number,
        ) ==> result == number,
        old(settings).max_batch is None ==> may_be_read_leniently(
            env,
            Setting::SpparkMaxBatch,
            32,
            result,
        ),
        final(settings).max_batch == Some(result),
        final(settings).min_codeword == old(settings).min_codeword,
{
    if old(settings).max_batch is None && always_set(env, Setting::SpparkMaxBatch, number) {
        assert forall|var: EnvVar| #[trigger]
            env.ensures((Setting::SpparkMaxBatch,), var) implies trimmed(var->Value_0@)
            == var->Value_0@ by {
            text::lemma_number_is_trimmed(var->Value_0@);
        }
    }
}

/// A codeword is offloaded exactly if it has as many rows as the smallest one that is: with
/// the setting, as many as it says, and without it 2048.
pub proof fn lemma_offload_decision<E: Fn(Setting) -> EnvVar>(
    settings: &mut CudaSettings,
    env: E,
    codeword_size: usize,
    number: usize,
    result: Result<bool, Error>,
)
    requires
        call_ensures(
            cuda_should_offload_codeword_size::<E>,
            (settings, &env, codeword_size),
            result,
        ),
    ensures
        old(settings).min_codeword_size matches Some(Ok(kept)) ==> result == Ok::<bool, Error>(
            codeword_size >= kept,
        ),
        old(settings).min_codeword_size matches Some(Err(error)) ==> result == Err::<bool, Error>(
            error,
        ),
        old(settings).min_codeword_size is None && never_set(env, Setting::MinCodewordSize)
            ==> result == Ok::<bool, Error>(codeword_size >= 2048),
        old(settings).min_codeword_size is None && always_set(
            env,
            Setting::MinCodewordSize,
            number,
        ) ==> result == Ok::<bool, Error>(codeword_size >= number),
        old(settings).min_codeword_size is None ==> may_be_read(
            env,
            Setting::MinCodewordSize,
            2048,
            final(settings).min_codeword_size->0,
        ),
        final(settings).min_codeword_size is Some,
        final(settings).min_codeword_size matches Some(Ok(kept)) ==> result == Ok::<bool, Error>(
            codeword_size >= kept,
        ),
        result is Err ==> final(settings).min_codeword_size == Some(
            Err::<usize, Error>(result->Err_0),
        ),
        final(settings).device == old(settings).device,
        final(settings).policy == old(settings).policy,
        final(settings).guard_stride == old(settings).guard_stride,
{
}

/// If a codeword is offloaded, every larger one is after it, and if one stays on the host,
/// so does every smaller one.
pub proof fn lemma_offload_monotone<E: Fn(Setting) -> EnvVar, L: Fn(Setting) -> EnvVar>(
    settings: &mut CudaSettings,
    later_settings: &mut CudaSettings,
    env: E,
    later_env: L,
    codeword_size: usize,
    other_size: usize,
    result: Result<bool, Error>,
    other: Result<bool, Error>,
)
    requires
        call_ensures(
            cuda_should_offload_codeword_size::<E>,
            (settings, &env, codeword_size),
            result,
        ),
        *old(later_settings) == *final(settings),
        call_ensures(
            cuda_should_offload_codeword_size::<L>,
            (later_settings, &later_env, other_size),
            other,
        ),
    ensures
        other is Ok <==> result is Ok,
        result == Ok::<bool, Error>(true) && other_size >= codeword_size ==> other == Ok::<
            bool,
            Error,
        >(true),
        result == Ok::<bool, Error>(false) && other_size <= codeword_size ==> other == Ok::<
            bool,
            Error,
        >(false),
        *final(later_settings) == *final(settings),
{
}

/// A batch is one for the single-polynomial transform exactly if it has fewer messages than
/// the first batch that is too large and codewords no shorter than the smallest: without
/// settings, fewer than 32 messages and no fewer than 131072 rows.
pub proof fn lemma_sppark_decision<E: Fn(Setting) -> EnvVar>(
    settings: &mut SpparkSettings,
    env: E,
    codeword_length: usize,
    num_messages: usize,
    max_batch: usize,
    min_codeword: usize,
    decision: bool,
)
    requires
        call_ensures(
            should_use_sppark::<E>,
            (settings, &env, codeword_length, num_messages),
            decision,
        ),
        match old(settings).max_batch {
            Some(kept) => max_batch == kept,
            None => {
                ||| never_set(env, Setting::SpparkMaxBatch) && max_batch == 32
                ||| always_set(env, Setting::SpparkMaxBatch, max_batch)
            },
        },
        match old(settings).min_codeword {
            Some(kept) => min_codeword == kept,
            None => {
                ||| never_set(env, Setting::SpparkMinCodeword) && min_codeword == 131072
                ||| always_set(env, Setting::SpparkMinCodeword, min_codeword)
            },
        },
    ensures
        decision <==> num_messages < max_batch && codeword_length >= min_codeword,
{
    if always_set(env, Setting::SpparkMaxBatch, max_batch) {
        assert forall|var: EnvVar| #[trigger]
            env.ensures((Setting::SpparkMaxBatch,), var) implies trimmed(
            var->Value_0@,
        ) == var->Value_0@ by {
            text::lemma_number_is_trimmed(var->Value_0@);
        }
    }
    if always_set(env, Setting::SpparkMinCodeword, min_codeword) {
        assert forall|var: EnvVar| #[trigger]
            env.ensures((Setting::SpparkMinCodeword,), var) implies trimmed(
            var->Value_0@,
        ) == var->Value_0@ by {
            text::lemma_number_is_trimmed(var->Value_0@);
        }
    }
}

/// Whatever the settings are, a decision about a batch rests on those that are kept: the first
/// batch that is too large always, and the smallest codeword only for a smaller batch.
pub proof fn lemma_sppark_decision_kept<E: Fn(Setting) -> EnvVar>(
    settings: &mut SpparkSettings,
    env: E,
    codeword_length: usize,
    num_messages: usize,
    decision: bool,
)
    requires
        call_ensures(
            should_use_sppark::<E>,
            (settings, &env, codeword_length, num_messages),
            decision,
        ),
    ensures
        final(settings).max_batch is Some,
        old(settings).max_batch is Some ==> final(settings).max_batch == old(settings).max_batch,
        old(settings).max_batch is None ==> may_be_read_leniently(
            env,
            Setting::SpparkMaxBatch,
            32,
            final(settings).max_batch->0,
        ),
        num_messages >= final(settings).max_batch->0 ==> !decision
            && final(settings).min_codeword == old(settings).min_codeword,
        num_messages < final(settings).max_batch->0 ==> {
            &&& final(settings).min_codeword matches Some(smallest)
            &&& decision <==> codeword_length >= smallest
            &&& old(settings).min_codeword is Some ==> final(settings).min_codeword == old(
                settings,
            ).min_codeword
            &&& old(settings).min_codeword is None ==> may_be_read_leniently(
                env,
                Setting::SpparkMinCodeword,
                131072,
                smallest,
            )
        },
{
}

/// Whatever the setting and its default, a numeric setting that is kept is given again, and
/// one that is not is read and kept, an error as well as a number.
pub proof fn lemma_numbers_kept<E: Fn(Setting) -> EnvVar>(
    cache: &mut Option<Result<usize, Error>>,
    lenient: &mut Option<usize>,
    setting: Setting,
    default: usize,
    env: E,
    result: Result<usize, Error>,
    number: usize,
)
    requires
        call_ensures(cached_number::<E>, (cache, setting, default, &env), result),
        call_ensures(cached_lenient_number::<E>, (lenient, setting, default, &env), number),
    ensures
        *old(cache) matches Some(kept) ==> result == kept,
        *old(cache) is None ==> may_be_read(env, setting, default, result),
        *final(cache) == Some(result),
        *old(lenient) matches Some(kept) ==> number == kept,
        *old(lenient) is None ==> may_be_read_leniently(env, setting, default, number),
        *final(lenient) == Some(number),
{
}

/// Settings of which none was read are what a process starts with.
pub proof fn lemma_fresh_settings(cuda: CudaSettings, sha: ShaSettings, sppark: SpparkSettings)
    requires
        call_ensures(CudaSettings::new, (), cuda),
        call_ensures(ShaSettings::new, (), sha),
        call_ensures(SpparkSettings::new, (), sppark),
    ensures
        cuda.device is None && cuda.min_codeword_size is None && cuda.policy is None,
        cuda.guard_stride is None,
        sha.device is None && sha.min_batch is None,
        sppark.min_codeword is None && sppark.max_batch is None,
{
}

/// Each setting is read from the environment variable that it is documented with, and both
/// devices from the same one.
pub proof fn lemma_variable_names(setting: Setting, name: &'static str)
    requires
        call_ensures(Setting::name, (&setting,), name),
    ensures
        setting is CudaDevice || setting is ShaDevice ==> name@ == "PROVEKIT_CUDA_DEVICE"@,
        setting is MinCodewordSize ==> name@ == "PROVEKIT_CUDA_NTT_MIN_CODEWORD_SIZE"@,
        setting is Policy ==> name@ == "PROVEKIT_CUDA_NTT_POLICY"@,
        setting is GuardStride ==> name@ == "PROVEKIT_CUDA_NTT_RELEASE_GUARD_STRIDE"@,
        setting is ShaMinBatch ==> name@ == "PROVEKIT_CUDA_SHA256_MIN_BATCH"@,
        setting is SpparkMinCodeword ==> name@ == "PROVEKIT_SPPARK_MIN_CODEWORD"@,
        setting is SpparkMaxBatch ==> name@ == "PROVEKIT_SPPARK_MAX_BATCH"@,
{
}

} // verus!
