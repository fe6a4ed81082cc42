//! Settings that are read from the environment, each at most once.
use vstd::prelude::*;

use crate::error::{Error, Setting};
use crate::text;
use crate::text::{is_name, parse_usize, trim};

verus! {

/// The smallest codeword that is offloaded unless a setting says otherwise. Below it a
/// device is not kept busy and the host is faster.
pub const DEFAULT_MIN_CODEWORD_SIZE: usize = 2048;

/// What the environment holds for a setting.
#[derive(Debug)]
pub enum EnvVar {
    /// The variable is set.
    Value(String),
    /// The variable is not set.
    Missing,
    /// The variable is set to something that is not text; the reason says so.
    Unreadable(String),
}

/// Which transforms are offloaded.
#[derive(Clone, Copy, Debug, PartialEq, Eq, Structural)]
pub enum CudaNttPolicy {
    /// Those whose codewords are large enough.
    Auto,
    /// Those whose codewords are large enough.
    SizeOnly,
    /// All.
    Always,
    /// None.
    Never,
}

/// The policy that a name in small letters stands for.
pub open spec fn policy_named(name: Seq<char>) -> Option<CudaNttPolicy> {
    if name == "auto"@ {
        Some(CudaNttPolicy::Auto)
    } else if name == "size-only"@ || name == "size_only"@ || name == "size"@ {
        Some(CudaNttPolicy::SizeOnly)
    } else if name == "always"@ {
        Some(CudaNttPolicy::Always)
    } else if name == "never"@ {
        Some(CudaNttPolicy::Never)
    } else {
        None
    }
}

/// The policy that a name stands for, in capitals or small letters.
pub fn policy_from_name(name: &str) -> (policy: Option<CudaNttPolicy>)
    ensures
        policy == policy_named(text::lowered(name@)),
{
    if is_name(name, "auto") {
        Some(CudaNttPolicy::Auto)
    } else if is_name(name, "size-only") || is_name(name, "size_only") || is_name(name, "size") {
        Some(CudaNttPolicy::SizeOnly)
    } else if is_name(name, "always") {
        Some(CudaNttPolicy::Always)
    } else if is_name(name, "never") {
        Some(CudaNttPolicy::Never)
    } else {
        None
    }
}

/// What a numeric setting is read as: its number, the default if it is not set, and an
/// error otherwise.
pub open spec fn number_setting(
    setting: Setting,
    var: EnvVar,
    default: usize,
    result: Result<usize, Error>,
) -> bool {
    match var {
        EnvVar::Value(value) => match text::number_in(value@) {
            Some(number) if number <= usize::MAX => result matches Ok(n) && n == number,
            _ => {
                &&& result matches Err(Error::NotANumber { setting: s, value: v, reason: r })
                &&& s == setting
                &&& v == value
                &&& r@ == text::parse_error_text(value@)
            },
        },
        EnvVar::Missing => result == Ok::<usize, Error>(default),
        EnvVar::Unreadable(reason) => result == Err::<usize, Error>(
            Error::Unreadable { setting, reason },
        ),
    }
}

/// Reads a numeric setting.
pub fn read_number(setting: Setting, var: EnvVar, default: usize) -> (result: Result<usize, Error>)
    ensures
        number_setting(setting, var, default, result),
{
    match var {
        EnvVar::Value(value) => match parse_usize(value.as_str()) {
            Ok(number) => Ok(number),
            Err(reason) => Err(Error::NotANumber { setting, value, reason }),
        },
        EnvVar::Missing => Ok(default),
        EnvVar::Unreadable(reason) => Err(Error::Unreadable { setting, reason }),
    }
}

/// What a numeric setting with a fallback is read as: its number, with white space around
/// it ignored, and the default if there is none.
pub open spec fn lenient_number(var: EnvVar, default: usize) -> usize {
    match var {
        EnvVar::Value(value) => match text::number_in(text::trimmed(value@)) {
            Some(number) if number <= usize::MAX => number as usize,
            _ => default,
        },
        _ => default,
    }
}

/// Reads a numeric setting with a fallback.
pub fn read_lenient_number(var: EnvVar, default: usize) -> (number: usize)
    ensures
        number == lenient_number(var, default),
{
    match var {
        EnvVar::Value(value) => match parse_usize(trim(value.as_str())) {
            Ok(number) => number,
            Err(_) => default,
        },
        _ => default,
    }
}

/// What the policy setting is read as.
pub open spec fn policy_setting(var: EnvVar) -> Result<CudaNttPolicy, Error> {
    match var {
        EnvVar::Value(value) => match policy_named(text::lowered(text::trimmed(value@))) {
            Some(policy) => Ok(policy),
            None => Err(Error::UnknownPolicy { value }),
        },
        EnvVar::Missing => Ok(CudaNttPolicy::Auto),
        EnvVar::Unreadable(reason) => Err(Error::Unreadable { setting: Setting::Policy, reason }),
    }
}

/// Reads the policy setting.
pub fn read_policy(var: EnvVar) -> (result: Result<CudaNttPolicy, Error>)
    ensures
        result == policy_setting(var),
{
    match var {
        EnvVar::Value(value) => match policy_from_name(trim(value.as_str())) {
            Some(policy) => Ok(policy),
            None => Err(Error::UnknownPolicy { value }),
        },
        EnvVar::Missing => Ok(CudaNttPolicy::Auto),
        EnvVar::Unreadable(reason) => Err(Error::Unreadable { setting: Setting::Policy, reason }),
    }
}

/// Whether a numeric setting was taken from its cache, or read and put there.
pub open spec fn number_read_once<E: Fn(Setting) -> EnvVar>(
    before: Option<Result<usize, Error>>,
    after: Option<Result<usize, Error>>,
    setting: Setting,
    default: usize,
    env: E,
    result: Result<usize, Error>,
) -> bool {
    &&& after == Some(result)
    &&& match before {
        Some(cached) => result == cached,
        None => exists|var: EnvVar|
            #[trigger] env.ensures((setting,), var) && number_setting(
                setting,
                var,
                default,
                result,
            ),
    }
}

/// Whether a numeric setting, as far as it was read, may have a value.
pub open spec fn number_may_be<E: Fn(Setting) -> EnvVar>(
    cache: Option<Result<usize, Error>>,
    setting: Setting,
    default: usize,
    env: E,
    value: usize,
) -> bool {
    number_read_once(cache, Some(Ok(value)), setting, default, env, Ok(value))
}

/// Gives a numeric setting, which is read from the environment the first time and not
/// again.
pub fn cached_number<E: Fn(Setting) -> EnvVar>(
    cache: &mut Option<Result<usize, Error>>,
    setting: Setting,
    default: usize,
    env: &E,
) -> (result: Result<usize, Error>)
    requires
        *old(cache) is None ==> env.requires((setting,)),
    ensures
        number_read_once(*old(cache), *final(cache), setting, default, *env, result),
{
    if let Some(cached) = cache {
        return copied(cached);
    }
    let result = read_number(setting, env(setting), default);
    *cache = Some(copied(&result));
    result
}

/// Whether a numeric setting with a fallback was taken from its cache, or read and put
/// there.
pub open spec fn lenient_read_once<E: Fn(Setting) -> EnvVar>(
    before: Option<usize>,
    after: Option<usize>,
    setting: Setting,
    default: usize,
    env: E,
    result: usize,
) -> bool {
    &&& after == Some(result)
    &&& match before {
        Some(cached) => result == cached,
        None => exists|var: EnvVar|
            #[trigger] env.ensures((setting,), var) && result == lenient_number(var, default),
    }
}

/// Gives a numeric setting with a fallback, which is read from the environment the first
/// time and not again.
pub fn cached_lenient_number<E: Fn(Setting) -> EnvVar>(
    cache: &mut Option<usize>,
    setting: Setting,
    default: usize,
    env: &E,
) -> (result: usize)
    requires
        *old(cache) is None ==> env.requires((setting,)),
    ensures
        lenient_read_once(*old(cache), *final(cache), setting, default, *env, result),
{
    if let Some(cached) = cache {
        return *cached;
    }
    let result: usize = read_lenient_number(env(setting), default);
    *cache = Some(result);
    result
}

/// A copy of a cached result.
pub(crate) fn copied<T: Copy>(result: &Result<T, Error>) -> (copy: Result<T, Error>)
    ensures
        copy == *result,
{
    match result {
        Ok(value) => Ok(*value),
        Err(error) => Err(error.clone()),
    }
}

/// The settings of the device transform, as far as they were read.
#[derive(Debug)]
pub struct CudaSettings {
    pub device: Option<Result<usize, Error>>,
    pub min_codeword_size: Option<Result<usize, Error>>,
    pub policy: Option<Result<CudaNttPolicy, Error>>,
    pub guard_stride: Option<Result<usize, Error>>,
}

impl CudaSettings {
    /// Settings of which none was read.
    pub fn new() -> (settings: CudaSettings)
        ensures
            settings.device is None,
            settings.min_codeword_size is None,
            settings.policy is None,
            settings.guard_stride is None,
    {
        CudaSettings { device: None, min_codeword_size: None, policy: None, guard_stride: None }
    }
}

/// The index of the device that transforms run on; the first device by default.
pub fn cuda_device_index<E: Fn(Setting) -> EnvVar>(settings: &mut CudaSettings, env: &E) -> (result:
    Result<usize, Error>)
    requires
        old(settings).device is None ==> env.requires((Setting::CudaDevice,)),
    ensures
        number_read_once(
            old(settings).device,
            final(settings).device,
            Setting::CudaDevice,
            0,
            *env,
            result,
        ),
        *final(settings) == (CudaSettings { device: final(settings).device, ..*old(settings) }),
{
    cached_number(&mut settings.device, Setting::CudaDevice, 0, env)
}

/// The smallest codeword that is offloaded.
pub fn cuda_min_codeword_size<E: Fn(Setting) -> EnvVar>(
    settings: &mut CudaSettings,
    env: &E,
) -> (result: Result<usize, Error>)
    requires
        old(settings).min_codeword_size is None ==> env.requires((Setting::MinCodewordSize,)),
    ensures
        number_read_once(
            old(settings).min_codeword_size,
            final(settings).min_codeword_size,
            Setting::MinCodewordSize,
            DEFAULT_MIN_CODEWORD_SIZE,
            *env,
            result,
        ),
        *final(settings) == (CudaSettings {
            min_codeword_size: final(settings).min_codeword_size,
            ..*old(settings)
        }),
{
    cached_number(
        &mut settings.min_codeword_size,
        Setting::MinCodewordSize,
        DEFAULT_MIN_CODEWORD_SIZE,
        env,
    )
}

/// What is decided about a codeword once the size setting was read.
pub open spec fn size_decision(
    minimum: Result<usize, Error>,
    codeword_size: usize,
) -> Result<bool, Error> {
    match minimum {
        Ok(minimum) => Ok(codeword_size >= minimum),
        Err(error) => Err(error),
    }
}

/// Whether a codeword is large enough to be offloaded.
pub fn cuda_should_offload_codeword_size<E: Fn(Setting) -> EnvVar>(
    settings: &mut CudaSettings,
    env: &E,
    codeword_size: usize,
) -> (result: Result<bool, Error>)
    requires
        old(settings).min_codeword_size is None ==> env.requires((Setting::MinCodewordSize,)),
    ensures
        final(settings).min_codeword_size matches Some(minimum) && number_read_once(
            old(settings).min_codeword_size,
            final(settings).min_codeword_size,
            Setting::MinCodewordSize,
            DEFAULT_MIN_CODEWORD_SIZE,
            *env,
            minimum,
        ) && result == size_decision(minimum, codeword_size),
        *final(settings) == (CudaSettings {
            min_codeword_size: final(settings).min_codeword_size,
            ..*old(settings)
        }),
{
    match cuda_min_codeword_size(settings, env) {
        Ok(minimum) => Ok(codeword_size >= minimum),
        Err(error) => Err(error),
    }
}

/// Whether the size setting, as far as it was read, may keep a codeword on the host.
pub open spec fn may_stay_on_host<E: Fn(Setting) -> EnvVar>(
    cache: Option<Result<usize, Error>>,
    env: E,
    codeword_size: usize,
) -> bool {
    exists|minimum: usize|
        minimum > codeword_size && #[trigger] number_may_be(
            cache,
            Setting::MinCodewordSize,
            DEFAULT_MIN_CODEWORD_SIZE,
            env,
            minimum,
        )
}

/// Whether the size setting, as far as it was read, may let a codeword be offloaded.
pub open spec fn may_offload<E: Fn(Setting) -> EnvVar>(
    cache: Option<Result<usize, Error>>,
    env: E,
    codeword_size: usize,
) -> bool {
    exists|minimum: usize|
        minimum <= codeword_size && #[trigger] number_may_be(
            cache,
            Setting::MinCodewordSize,
            DEFAULT_MIN_CODEWORD_SIZE,
            env,
            minimum,
        )
}

/// Whether the size setting, as far as it was read, may be a number.
pub open spec fn may_be_decided<E: Fn(Setting) -> EnvVar>(
    cache: Option<Result<usize, Error>>,
    env: E,
    codeword_size: usize,
) -> bool {
    may_stay_on_host(cache, env, codeword_size) || may_offload(cache, env, codeword_size)
}

/// What was decided about a codeword may have been decided.
pub proof fn lemma_size_decided<E: Fn(Setting) -> EnvVar>(
    before: Option<Result<usize, Error>>,
    after: Option<Result<usize, Error>>,
    env: E,
    codeword_size: usize,
    decision: Result<bool, Error>,
)
    requires
        after is Some,
        number_read_once(
            before,
            after,
            Setting::MinCodewordSize,
            DEFAULT_MIN_CODEWORD_SIZE,
            env,
            after->0,
        ),
        decision == size_decision(after->0, codeword_size),
    ensures
        decision == Ok::<bool, Error>(true) ==> may_offload(before, env, codeword_size),
        decision == Ok::<bool, Error>(false) ==> may_stay_on_host(before, env, codeword_size),
{
    if let Some(Ok(minimum)) = after {
        assert(number_may_be(
            before,
            Setting::MinCodewordSize,
            DEFAULT_MIN_CODEWORD_SIZE,
            env,
            minimum,
        ));
    }
}

/// Whether the policy, as far as it was read, may let anything be offloaded.
pub open spec fn policy_may_offload<E: Fn(Setting) -> EnvVar>(
    cache: Option<Result<CudaNttPolicy, Error>>,
    env: E,
) -> bool {
    match cache {
        Some(policy) => policy is Ok && policy->Ok_0 != CudaNttPolicy::Never,
        None => exists|var: EnvVar|
            #[trigger] env.ensures((Setting::Policy,), var) && policy_setting(var) is Ok
                && policy_setting(var)->Ok_0 != CudaNttPolicy::Never,
    }
}

/// Which transforms are offloaded.
pub fn cuda_ntt_policy<E: Fn(Setting) -> EnvVar>(settings: &mut CudaSettings, env: &E) -> (result:
    Result<CudaNttPolicy, Error>)
    requires
        old(settings).policy is None ==> env.requires((Setting::Policy,)),
    ensures
        final(settings).policy == Some(result),
        match old(settings).policy {
            Some(cached) => result == cached,
            None => exists|var: EnvVar|
                #[trigger] env.ensures((Setting::Policy,), var) && result == policy_setting(var),
        },
        *final(settings) == (CudaSettings { policy: final(settings).policy, ..*old(settings) }),
{
    if let Some(cached) = &settings.policy {
        return copied(cached);
    }
    let result = read_policy(env(Setting::Policy));
    settings.policy = Some(copied(&result));
    result
}

/// Which transformed values are checked; none by default.
pub fn cuda_release_guard_stride<E: Fn(Setting) -> EnvVar>(
    settings: &mut CudaSettings,
    env: &E,
) -> (result: Result<usize, Error>)
    requires
        old(settings).guard_stride is None ==> env.requires((Setting::GuardStride,)),
    ensures
        number_read_once(
            old(settings).guard_stride,
            final(settings).guard_stride,
            Setting::GuardStride,
            0,
            *env,
            result,
        ),
        *final(settings) == (CudaSettings {
            guard_stride: final(settings).guard_stride,
            ..*old(settings)
        }),
{
    cached_number(&mut settings.guard_stride, Setting::GuardStride, 0, env)
}

/// Once a numeric setting was read, it keeps its value, whatever the environment holds
/// later.
pub proof fn lemma_first_read_wins<E: Fn(Setting) -> EnvVar, L: Fn(Setting) -> EnvVar>(
    start: Option<Result<usize, Error>>,
    between: Option<Result<usize, Error>>,
    end: Option<Result<usize, Error>>,
    setting: Setting,
    default: usize,
    env: E,
    later: L,
    first: Result<usize, Error>,
    second: Result<usize, Error>,
)
    requires
        number_read_once(start, between, setting, default, env, first),
        number_read_once(between, end, setting, default, later, second),
    ensures
        second == first,
        end == between,
{
}

/// A minimum of zero offloads codewords of every size.
pub proof fn lemma_zero_minimum_offloads_all(codeword_size: usize)
    ensures
        size_decision(Ok(0), codeword_size) == Ok::<bool, Error>(true),
{
}

} // verus!
