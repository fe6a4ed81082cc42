use std::cell::Cell;

use provekit_ntt::error::{Error, Kernel, Setting};
use provekit_ntt::settings::{
    cuda_device_index, cuda_min_codeword_size, cuda_ntt_policy, cuda_release_guard_stride,
    cuda_should_offload_codeword_size, policy_from_name, read_lenient_number, read_number,
    read_policy, CudaNttPolicy, CudaSettings, EnvVar, DEFAULT_MIN_CODEWORD_SIZE,
};
use provekit_ntt::text::{decimal_text, is_name, signed_decimal_text, trim};

fn value(text: &str) -> EnvVar {
    EnvVar::Value(text.to_string())
}

fn missing(_setting: Setting) -> EnvVar {
    EnvVar::Missing
}

#[test]
fn numbers_are_written_in_decimal() {
    assert_eq!(decimal_text(0), "0");
    assert_eq!(decimal_text(9), "9");
    assert_eq!(decimal_text(10), "10");
    assert_eq!(decimal_text(1234567890), "1234567890");
    assert_eq!(decimal_text(u64::MAX), "18446744073709551615");
    assert_eq!(signed_decimal_text(-1), "-1");
    assert_eq!(signed_decimal_text(i32::MIN), "-2147483648");
    assert_eq!(signed_decimal_text(42), "42");
}

#[test]
fn white_space_is_trimmed_at_both_ends() {
    assert_eq!(trim("  a b\t\n"), "a b");
    assert_eq!(trim("\u{3000}x\u{a0}"), "x");
    assert_eq!(trim(" \n "), "");
    assert_eq!(trim(""), "");
}

#[test]
fn exactly_the_white_space_characters_are_trimmed() {
    let white = |code: u32| {
        matches!(
            code,
            0x9..=0xd | 0x20 | 0x85 | 0xa0 | 0x1680 | 0x2000..=0x200a | 0x2028 | 0x2029 | 0x202f
                | 0x205f | 0x3000
        )
    };
    let mut count = 0;
    for code in 0..=0x10_ffff {
        if let Some(c) = char::from_u32(code) {
            assert_eq!(trim(&c.to_string()).is_empty(), white(code));
            count += white(code) as usize;
        }
    }
    assert_eq!(count, 25);
}

#[test]
fn names_ignore_capitals() {
    assert!(is_name("AuTo", "auto"));
    assert!(!is_name("auto ", "auto"));
    assert!(!is_name("aut", "auto"));
    assert!(!is_name("\u{c4}", "\u{e4}"));
}

#[test]
fn policies_have_names() {
    assert_eq!(policy_from_name("auto"), Some(CudaNttPolicy::Auto));
    assert_eq!(policy_from_name("Size-Only"), Some(CudaNttPolicy::SizeOnly));
    assert_eq!(policy_from_name("size_only"), Some(CudaNttPolicy::SizeOnly));
    assert_eq!(policy_from_name("SIZE"), Some(CudaNttPolicy::SizeOnly));
    assert_eq!(policy_from_name("always"), Some(CudaNttPolicy::Always));
    assert_eq!(policy_from_name("never"), Some(CudaNttPolicy::Never));
    assert_eq!(policy_from_name("sometimes"), None);
}

#[test]
fn policy_setting_is_trimmed() {
    assert_eq!(read_policy(value("  ALWAYS ")).unwrap(), CudaNttPolicy::Always);
    assert_eq!(read_policy(EnvVar::Missing).unwrap(), CudaNttPolicy::Auto);
    let error = read_policy(value(" maybe")).unwrap_err();
    assert_eq!(
        error.message(),
        "PROVEKIT_CUDA_NTT_POLICY must be one of `auto`, `size-only`, `always`, or `never`, got ` \
         maybe` instead"
    );
    let error = read_policy(EnvVar::Unreadable("no text".to_string())).unwrap_err();
    assert_eq!(
        error.message(),
        "failed to read PROVEKIT_CUDA_NTT_POLICY for CUDA NTT tuning: no text"
    );
}

#[test]
fn numeric_settings_are_parsed() {
    assert_eq!(read_number(Setting::CudaDevice, value("3"), 0).unwrap(), 3);
    assert_eq!(read_number(Setting::CudaDevice, value("+3"), 0).unwrap(), 3);
    assert_eq!(read_number(Setting::CudaDevice, value("007"), 0).unwrap(), 7);
    assert_eq!(read_number(Setting::GuardStride, EnvVar::Missing, 5).unwrap(), 5);
    assert_eq!(
        read_number(Setting::CudaDevice, value("18446744073709551615"), 0).unwrap(),
        usize::MAX
    );
    for text in ["", "+", "-1", " 1", "1_000", "0x10", "18446744073709551616"] {
        let error = read_number(Setting::CudaDevice, value(text), 0).unwrap_err();
        assert!(matches!(&error, Error::NotANumber { value, .. } if value == text));
        let reason = text.parse::<usize>().unwrap_err().to_string();
        assert_eq!(
            error.message(),
            format!(
                "PROVEKIT_CUDA_DEVICE must be a non-negative integer, got `{text}` instead: \
                 {reason}"
            )
        );
    }
    let error = read_number(Setting::ShaDevice, value("x"), 0).unwrap_err();
    assert_eq!(
        error.message(),
        "PROVEKIT_CUDA_DEVICE must be a non-negative integer, got `x` (invalid digit found in \
         string)"
    );
}

#[test]
fn unreadable_settings_are_reported_with_their_purpose() {
    let texts = [
        (
            Setting::CudaDevice,
            "failed to read PROVEKIT_CUDA_DEVICE for CUDA NTT selection: why",
        ),
        (Setting::ShaDevice, "failed to read PROVEKIT_CUDA_DEVICE for CUDA SHA-256: why"),
        (
            Setting::MinCodewordSize,
            "failed to read PROVEKIT_CUDA_NTT_MIN_CODEWORD_SIZE for CUDA NTT tuning: why",
        ),
        (
            Setting::GuardStride,
            "failed to read PROVEKIT_CUDA_NTT_RELEASE_GUARD_STRIDE for CUDA NTT safety tuning: why",
        ),
    ];
    for (setting, text) in texts {
        let error = read_number(setting, EnvVar::Unreadable("why".to_string()), 0).unwrap_err();
        assert!(matches!(error, Error::Unreadable { .. }));
        assert_eq!(error.message(), text);
    }
}

#[test]
fn lenient_settings_fall_back() {
    assert_eq!(read_lenient_number(value(" 17 "), 4), 17);
    assert_eq!(read_lenient_number(value("many"), 4), 4);
    assert_eq!(read_lenient_number(EnvVar::Missing, 4), 4);
    assert_eq!(read_lenient_number(EnvVar::Unreadable(String::new()), 4), 4);
}

#[test]
fn small_codewords_stay_on_the_host_by_default() {
    assert_eq!(DEFAULT_MIN_CODEWORD_SIZE, 2048);
    let mut settings = CudaSettings::new();
    assert!(!cuda_should_offload_codeword_size(&mut settings, &missing, 1024).unwrap());
    assert!(!cuda_should_offload_codeword_size(&mut settings, &missing, 2047).unwrap());
    assert!(cuda_should_offload_codeword_size(&mut settings, &missing, 2048).unwrap());
    assert_eq!(cuda_min_codeword_size(&mut settings, &missing).unwrap(), 2048);
}

#[test]
fn a_minimum_of_zero_offloads_everything() {
    let mut settings = CudaSettings::new();
    let env = |_: Setting| value("0");
    assert!(cuda_should_offload_codeword_size(&mut settings, &env, 0).unwrap());
    assert!(cuda_should_offload_codeword_size(&mut settings, &env, 1).unwrap());
}

#[test]
fn settings_are_read_once() {
    let reads = Cell::new(0);
    let env = |setting: Setting| {
        reads.set(reads.get() + 1);
        match setting {
            Setting::CudaDevice => value("2"),
            Setting::GuardStride => value("oops"),
            _ => EnvVar::Missing,
        }
    };
    let mut settings = CudaSettings::new();
    assert_eq!(cuda_device_index(&mut settings, &env).unwrap(), 2);
    assert_eq!(cuda_device_index(&mut settings, &env).unwrap(), 2);
    assert_eq!(cuda_device_index(&mut settings, &missing).unwrap(), 2);
    assert_eq!(reads.get(), 1);
    let first = cuda_release_guard_stride(&mut settings, &env).unwrap_err();
    let second = cuda_release_guard_stride(&mut settings, &missing).unwrap_err();
    assert_eq!(first.message(), second.message());
    assert_eq!(reads.get(), 2);
    assert_eq!(cuda_ntt_policy(&mut settings, &env).unwrap(), CudaNttPolicy::Auto);
    let always = |_: Setting| value("always");
    assert_eq!(cuda_ntt_policy(&mut settings, &always).unwrap(), CudaNttPolicy::Auto);
    assert_eq!(reads.get(), 3);
}

#[test]
fn guard_is_off_by_default() {
    let mut settings = CudaSettings::new();
    assert_eq!(cuda_release_guard_stride(&mut settings, &missing).unwrap(), 0);
    assert_eq!(cuda_device_index(&mut settings, &missing).unwrap(), 0);
}

#[test]
fn errors_without_details_have_fixed_texts() {
    let texts = [
        (Error::ZeroGroups, "num_groups must be non-zero"),
        (Error::ZeroInput, "input_elements must be non-zero"),
        (Error::InputTooLong, "input_elements must be <= total_values"),
        (Error::UnevenTotal, "total_values must be divisible by num_groups"),
        (Error::UnevenValues, "values.len() must be divisible by num_groups"),
        (Error::CodewordSizeNotPower, "codeword_size must be a power of two"),
        (Error::UnequalMessages, "all messages must have the same length"),
        (Error::UnevenMasks, "masks.len() must be divisible by the number of messages"),
        (Error::CodewordLengthNotPower, "codeword_length must be a power of two"),
        (Error::UnevenCosets, "codeword_length must be divisible by coset_size"),
        (Error::CosetCount, "num_cosets must match codeword_length / coset_size"),
        (Error::CosetTooSmall, "coset_size must be large enough for the masked message length"),
        (Error::OutsideField, "CUDA kernel returned a value outside the BN254 field"),
    ];
    for (error, text) in texts {
        assert_eq!(error.message(), text);
        assert_eq!(error.clone().message(), text);
    }
}

#[test]
fn device_errors_show_the_message_or_the_status() {
    let failed = |kernel: Kernel, message: &str| Error::Device {
        kernel,
        status: -7,
        message: message.to_string(),
    };
    assert_eq!(
        failed(Kernel::Preflight, "").message(),
        "CUDA preflight failed with status code -7"
    );
    assert_eq!(
        failed(Kernel::Transform, "").message(),
        "CUDA NTT execution failed with status code -7"
    );
    assert_eq!(
        failed(Kernel::Digest, "").message(),
        "CUDA SHA-256 execution failed with status code -7"
    );
    assert_eq!(
        failed(Kernel::SinglePolynomial, "").message(),
        "sppark NTT failed with status -7"
    );
    assert_eq!(failed(Kernel::Transform, "out of memory").message(), "out of memory");
}

#[test]
fn setting_names() {
    assert_eq!(Setting::ShaMinBatch.name(), "PROVEKIT_CUDA_SHA256_MIN_BATCH");
    assert_eq!(Setting::SpparkMinCodeword.name(), "PROVEKIT_SPPARK_MIN_CODEWORD");
    assert_eq!(Setting::SpparkMaxBatch.name(), "PROVEKIT_SPPARK_MAX_BATCH");
    assert_eq!(Setting::Policy.name(), "PROVEKIT_CUDA_NTT_POLICY");
}
