use std::cell::Cell;

use ark_ff::{AdditiveGroup, FftField, Field, PrimeField};
use provekit_ntt::cuda::{
    cuda_runtime_state, flattened_roots, ntt_nr_cuda, ntt_nr_cuda_raw, preflight_cuda,
    release_guard_check, should_check_hydrated_value, CudaState, LaunchShape, NttLaunch, NttReply,
};
use provekit_ntt::cuda_encode::{
    interleaved_encode_cuda, should_use_cuda_for_shape, EncodeError, RSFrCuda,
};
use provekit_ntt::device::{check_reply, error_buffer_to_string, DeviceReply};
use provekit_ntt::error::{Error, Kernel, Setting};
use provekit_ntt::field::Fr;
use provekit_ntt::limbs::{
    flatten_roots_into, fr_slice_as_u64, fr_slice_from_u64, montgomery_inv,
};
use provekit_ntt::reed_solomon::{transform_buffer, RSFr};
use provekit_ntt::settings::{CudaSettings, EnvVar};

type Ark = ark_bn254::Fr;

fn lift(x: Ark) -> Fr {
    Fr { limbs: x.0 .0 }
}

fn elements(count: usize, seed: u64) -> Vec<Fr> {
    let mut x = Ark::from(seed) + Ark::from(0x9e37_79b9_7f4a_7c15_u64);
    let mut out = Vec::new();
    for i in 0..count {
        x = x * x + Ark::from(i as u64 + 3);
        out.push(lift(x));
    }
    out
}

fn evaluate(coefficients: &[Ark], point: Ark) -> Ark {
    let mut value = Ark::ZERO;
    for c in coefficients.iter().rev() {
        value = value * point + c;
    }
    value
}

/// A transform on limbs by direct evaluation.
fn software_kernel(launch: NttLaunch) -> NttReply {
    let rows = if launch.num_roots == 0 { 1 } else { 2 * launch.num_roots };
    let width = launch.num_values / rows;
    let size = rows / launch.num_groups_start;
    let bits = rows.trailing_zeros();
    let input: Vec<Ark> = launch
        .values
        .chunks(4)
        .map(|l| Ark::new_unchecked(ark_ff::BigInt([l[0], l[1], l[2], l[3]])))
        .collect();
    let omega = Ark::get_root_of_unity(rows as u64).unwrap();
    let mut values = Vec::new();
    for row in 0..rows {
        let exponent = if bits == 0 { 0 } else { row.reverse_bits() >> (usize::BITS - bits) };
        let point = omega.pow([exponent as u64]);
        for column in 0..width {
            let start = row / size * size;
            let coefficients: Vec<Ark> =
                (0..size).map(|t| input[(start + t) * width + column]).collect();
            values.extend_from_slice(&evaluate(&coefficients, point).0 .0);
        }
    }
    NttReply { status: 0, error_buffer: vec![0; 16], values }
}

fn unreduced_kernel(launch: NttLaunch) -> NttReply {
    NttReply {
        status: 0,
        error_buffer: Vec::new(),
        values: vec![u64::MAX; 4 * launch.num_values],
    }
}

fn failing_kernel(_launch: NttLaunch) -> NttReply {
    NttReply { status: 11, error_buffer: vec![0; 4], values: Vec::new() }
}

fn never_kernel(_launch: NttLaunch) -> NttReply {
    panic!("nothing is to be launched")
}

fn ready(_device: i32) -> DeviceReply {
    DeviceReply { status: 0, error_buffer: vec![0; 16] }
}

fn broken(_device: i32) -> DeviceReply {
    DeviceReply { status: 100, error_buffer: b"no CUDA device\0junk".to_vec() }
}

fn missing(_setting: Setting) -> EnvVar {
    EnvVar::Missing
}

fn offload_all(setting: Setting) -> EnvVar {
    match setting {
        Setting::MinCodewordSize => EnvVar::Value("0".to_string()),
        _ => EnvVar::Missing,
    }
}

fn guarded(setting: Setting) -> EnvVar {
    match setting {
        Setting::MinCodewordSize => EnvVar::Value("0".to_string()),
        Setting::GuardStride => EnvVar::Value("3".to_string()),
        _ => EnvVar::Missing,
    }
}

#[test]
fn limbs_round_trip() {
    let values = elements(5, 1);
    let limbs = fr_slice_as_u64(&values);
    assert_eq!(limbs.len(), 20);
    assert_eq!(limbs[4..8], values[1].limbs);
    let mut back = vec![Fr::zero(); 5];
    fr_slice_from_u64(&mut back, &limbs);
    assert_eq!(back, values);
    let mut flat = vec![1, 2, 3];
    flatten_roots_into(&values, &mut flat);
    assert_eq!(flat, limbs);
}

#[test]
fn montgomery_constant_of_the_field() {
    let limb = Ark::MODULUS.0[0];
    assert_eq!(limb, 0x43e1_f593_f000_0001);
    let inv = montgomery_inv(limb);
    assert_eq!(inv, 0xc2e1_f593_efff_ffff);
    assert_eq!(limb.wrapping_mul(inv), u64::MAX);
    assert_eq!(montgomery_inv(1), u64::MAX);
    for odd in [3_u64, 5, 12345677, u64::MAX] {
        assert_eq!(odd.wrapping_mul(montgomery_inv(odd)).wrapping_add(1), 0);
    }
}

#[test]
fn runtime_constants() {
    let runtime = cuda_runtime_state(4);
    assert_eq!(runtime.device, 4);
    assert_eq!(runtime.modulus, Ark::MODULUS.0);
    assert_eq!(runtime.montgomery_inv, 0xc2e1_f593_efff_ffff);
}

#[test]
fn roots_are_kept_by_size() {
    let mut state = CudaState::new();
    let first = flattened_roots(&mut state, 8);
    let omega = Ark::get_root_of_unity(8).unwrap();
    let expected: Vec<Fr> =
        [0_u64, 2, 1, 3].iter().map(|k| lift(omega.pow([*k]))).collect();
    assert_eq!(first, fr_slice_as_u64(&expected));
    assert_eq!(flattened_roots(&mut state, 8), first);
    assert_eq!(state.flattened_roots.len(), 1);
    assert_eq!(flattened_roots(&mut state, 2), lift(Ark::ONE).limbs);
    assert!(flattened_roots(&mut state, 1).is_empty());
    assert_eq!(state.flattened_roots.len(), 3);
}

#[test]
fn error_buffers_are_read_up_to_the_first_zero() {
    assert_eq!(error_buffer_to_string(b"bad\0rest"), "bad");
    assert_eq!(error_buffer_to_string(b"no end"), "no end");
    assert_eq!(error_buffer_to_string(b"\0hidden"), "");
    assert_eq!(error_buffer_to_string(b""), "");
    assert_eq!(error_buffer_to_string("\u{fc}ber\0".as_bytes()), "\u{fc}ber");
    assert_eq!(error_buffer_to_string(b"a\xffb\0"), "a\u{fffd}b");
}

#[test]
fn replies_are_judged_by_their_status() {
    assert!(check_reply(Kernel::Transform, 0, b"ignored\0").is_ok());
    let error = check_reply(Kernel::Transform, 1, b"boom\0").unwrap_err();
    assert_eq!(error.message(), "boom");
    let error = check_reply(Kernel::Transform, -2, b"\0").unwrap_err();
    assert_eq!(error.message(), "CUDA NTT execution failed with status code -2");
}

#[test]
fn preflight_runs_once_on_the_chosen_device() {
    let calls = Cell::new(0);
    let kernel = |device: i32| {
        assert_eq!(device, 3);
        calls.set(calls.get() + 1);
        ready(device)
    };
    let env = |setting: Setting| match setting {
        Setting::CudaDevice => EnvVar::Value("3".to_string()),
        _ => EnvVar::Missing,
    };
    let mut state = CudaState::new();
    assert!(preflight_cuda(&mut state, &env, &kernel).is_ok());
    assert!(preflight_cuda(&mut state, &env, &kernel).is_ok());
    assert_eq!(calls.get(), 1);
}

#[test]
fn preflight_failures_stand() {
    let mut state = CudaState::new();
    let error = preflight_cuda(&mut state, &missing, &broken).unwrap_err();
    assert_eq!(error.message(), "no CUDA device");
    let error = preflight_cuda(&mut state, &missing, &ready).unwrap_err();
    assert_eq!(error.message(), "no CUDA device");
    let mut state = CudaState::new();
    let env = |_: Setting| EnvVar::Value("first".to_string());
    let error = preflight_cuda(&mut state, &env, &ready).unwrap_err();
    assert!(matches!(error, Error::NotANumber { setting: Setting::CudaDevice, .. }));
}

#[test]
fn launches_are_checked_before_anything_else() {
    let launch = |input_elements, total_values, codeword_size, num_groups| {
        let mut state = CudaState::new();
        let shape = LaunchShape { input_elements, total_values, codeword_size, num_groups };
        let input = vec![0; 4 * input_elements];
        let result =
            ntt_nr_cuda_raw(&mut state, &missing, &broken, never_kernel, input, shape);
        assert_eq!(state.preflight.is_some(), matches!(&result, Err(Error::Device { .. })));
        result.unwrap_err()
    };
    assert!(matches!(launch(8, 8, 8, 0), Error::ZeroGroups));
    assert!(matches!(launch(0, 8, 8, 1), Error::ZeroInput));
    assert!(matches!(launch(9, 8, 8, 1), Error::InputTooLong));
    assert!(matches!(launch(8, 8, 8, 3), Error::UnevenTotal));
    assert!(matches!(launch(8, 8, 12, 2), Error::CodewordSizeNotPower));
    assert!(matches!(launch(8, 8, 8, 2), Error::Device { kernel: Kernel::Preflight, .. }));
}

#[test]
fn launches_carry_the_shape_and_the_constants() {
    let mut state = CudaState::new();
    let values = elements(24, 9);
    let limbs = fr_slice_as_u64(&values);
    let shape =
        LaunchShape { input_elements: 24, total_values: 24, codeword_size: 8, num_groups: 2 };
    let kernel = |launch: NttLaunch| {
        assert_eq!(launch.device, 0);
        assert_eq!(launch.values, limbs);
        assert_eq!((launch.input_elements, launch.num_values), (24, 24));
        assert_eq!((launch.num_roots, launch.roots.len()), (4, 16));
        assert_eq!((launch.elements_in_group_start, launch.num_groups_start), (12, 2));
        assert_eq!(launch.modulus, Ark::MODULUS.0);
        assert_eq!(launch.montgomery_inv, 0xc2e1_f593_efff_ffff);
        software_kernel(launch)
    };
    let out =
        ntt_nr_cuda_raw(&mut state, &missing, &ready, kernel, limbs.clone(), shape).unwrap();
    assert_eq!(out, fr_slice_as_u64(&transform_buffer(values, 8, 2)));
}

#[test]
fn offloaded_transform_matches_the_host() {
    for (rows, groups, width) in [(8_usize, 2_usize, 3_usize), (16, 1, 2), (2, 1, 4)] {
        let input = elements(rows * width, 33);
        let mut values = input.clone();
        let mut state = CudaState::new();
        ntt_nr_cuda(
            &mut state,
            &offload_all,
            &ready,
            software_kernel,
            true,
            &mut values,
            rows,
            groups,
        )
        .unwrap();
        assert_eq!(values, transform_buffer(input, rows, groups));
    }
}

#[test]
fn both_sides_of_the_threshold_leave_the_same_values() {
    let at_eight = |setting: Setting| match setting {
        Setting::MinCodewordSize => EnvVar::Value("8".to_string()),
        _ => EnvVar::Missing,
    };
    for rows in [4_usize, 8, 16] {
        for groups in [1_usize, 2, 4] {
            let input = elements(rows * 3, 71);
            let mut values = input.clone();
            let launched = std::cell::Cell::new(false);
            let kernel = |launch: NttLaunch| {
                launched.set(true);
                software_kernel(launch)
            };
            let mut state = CudaState::new();
            ntt_nr_cuda(&mut state, &at_eight, &ready, kernel, true, &mut values, rows, groups)
                .unwrap();
            assert_eq!(launched.get(), rows >= 8);
            assert_eq!(values, transform_buffer(input, rows, groups));
        }
    }
}

#[test]
fn small_transforms_stay_on_the_host() {
    let input = elements(8, 2);
    let mut values = input.clone();
    let mut state = CudaState::new();
    ntt_nr_cuda(&mut state, &missing, &ready, never_kernel, false, &mut values, 8, 1).unwrap();
    assert_eq!(values, transform_buffer(input.clone(), 8, 1));
    // A single row is left alone, without a look at the device.
    let mut state = CudaState::new();
    let mut values = input.clone();
    ntt_nr_cuda(&mut state, &missing, &broken, never_kernel, false, &mut values, 1, 0).unwrap();
    assert_eq!(values, input);
}

#[test]
fn a_device_that_is_not_there_is_an_error_for_every_shape() {
    let input = elements(6, 4);
    let mut values = input.clone();
    let mut state = CudaState::new();
    let error =
        ntt_nr_cuda(&mut state, &missing, &broken, never_kernel, false, &mut values, 2, 3)
            .unwrap_err();
    assert_eq!(error.message(), "no CUDA device");
    assert_eq!(values, input);
    let unclear = |setting: Setting| match setting {
        Setting::MinCodewordSize => EnvVar::Value("large".to_string()),
        _ => EnvVar::Missing,
    };
    let mut state = CudaState::new();
    let error = ntt_nr_cuda(&mut state, &unclear, &ready, never_kernel, false, &mut values, 2, 3)
        .unwrap_err();
    assert!(matches!(error, Error::NotANumber { setting: Setting::MinCodewordSize, .. }));
    assert_eq!(values, input);
}

#[test]
fn the_device_takes_any_number_of_groups() {
    let kernel = |launch: NttLaunch| {
        assert_eq!((launch.num_roots, launch.num_groups_start), (1024, 168));
        assert_eq!(launch.elements_in_group_start, 2048);
        NttReply { status: 0, error_buffer: Vec::new(), values: launch.values }
    };
    let mut values = vec![lift(Ark::ONE); 2048 * 168];
    let mut state = CudaState::new();
    ntt_nr_cuda(&mut state, &missing, &ready, kernel, false, &mut values, 2048, 168).unwrap();
    assert_eq!(values[5], lift(Ark::ONE));
}

#[test]
fn no_device_is_probed_once_the_outcome_is_known_or_none_is_named() {
    let never = |_: i32| -> DeviceReply { panic!("nothing is to be probed") };
    let mut state = CudaState::new();
    preflight_cuda(&mut state, &missing, &ready).unwrap();
    assert!(preflight_cuda(&mut state, &missing, &never).is_ok());
    let env = |_: Setting| EnvVar::Value("none".to_string());
    assert!(preflight_cuda(&mut CudaState::new(), &env, &never).is_err());
}

#[test]
fn transforms_in_place_are_checked() {
    let attempt = |codeword_size, num_groups, count| {
        let mut state = CudaState::new();
        let mut values = elements(count, 4);
        let before = values.clone();
        let error = ntt_nr_cuda(
            &mut state,
            &offload_all,
            &ready,
            failing_kernel,
            false,
            &mut values,
            codeword_size,
            num_groups,
        )
        .unwrap_err();
        assert_eq!(values, before);
        error
    };
    assert!(matches!(attempt(8, 0, 8), Error::ZeroGroups));
    assert!(matches!(attempt(8, 3, 8), Error::UnevenValues));
    assert!(matches!(attempt(6, 2, 8), Error::CodewordSizeNotPower));
    assert!(matches!(attempt(8, 2, 0), Error::ZeroInput));
    let failed = attempt(8, 2, 8);
    assert_eq!(failed.message(), "CUDA NTT execution failed with status code 11");
}

#[test]
fn values_outside_the_field_are_caught() {
    let run = |env: &dyn Fn(Setting) -> EnvVar, debug: bool| {
        let mut state = CudaState::new();
        let mut values = elements(8, 4);
        let read = |setting: Setting| env(setting);
        ntt_nr_cuda(&mut state, &read, &ready, unreduced_kernel, debug, &mut values, 8, 1)
    };
    assert!(matches!(run(&offload_all, true), Err(Error::OutsideField)));
    assert!(matches!(run(&guarded, false), Err(Error::OutsideField)));
    assert!(run(&offload_all, false).is_ok());
}

#[test]
fn guard_strides() {
    let checked = |stride: usize| -> Vec<usize> {
        (0..8).filter(|i| should_check_hydrated_value(*i, 8, stride)).collect()
    };
    assert_eq!(checked(0), Vec::<usize>::new());
    assert_eq!(checked(1), (0..8).collect::<Vec<_>>());
    assert_eq!(checked(3), [0, 3, 6, 7]);
    assert_eq!(checked(100), [0, 7]);
}

#[test]
fn guard_checks_only_what_its_stride_selects() {
    let mut values = elements(8, 8);
    values[4] = Fr { limbs: [u64::MAX; 4] };
    let mut settings = CudaSettings::new();
    assert!(release_guard_check(&mut settings, &guarded, &values).is_ok());
    values[6] = Fr { limbs: Ark::MODULUS.0 };
    let error = release_guard_check(&mut settings, &guarded, &values).unwrap_err();
    assert_eq!(error.message(), "CUDA kernel returned a value outside the BN254 field");
    assert!(release_guard_check(&mut CudaSettings::new(), &missing, &values).is_ok());
    assert!(release_guard_check(&mut settings, &guarded, &[]).is_ok());
}

fn encode_error(
    messages: &[&[Fr]],
    masks: &[Fr],
    codeword_length: usize,
    coset_size: usize,
    num_cosets: usize,
) -> Error {
    let mut state = CudaState::new();
    interleaved_encode_cuda(
        &mut state,
        &offload_all,
        &broken,
        never_kernel,
        messages,
        masks,
        codeword_length,
        coset_size,
        num_cosets,
    )
    .unwrap_err()
}

#[test]
fn device_encodings_are_checked() {
    let data = elements(8, 5);
    let messages: Vec<&[Fr]> = vec![&data[..4], &data[4..]];
    let uneven: Vec<&[Fr]> = vec![&data[..4], &data[5..]];
    let masks = elements(2, 6);
    assert!(matches!(encode_error(&uneven, &masks, 16, 8, 2), Error::UnequalMessages));
    assert!(matches!(encode_error(&messages, &masks[..1], 16, 8, 2), Error::UnevenMasks));
    assert!(matches!(encode_error(&messages, &masks, 12, 4, 3), Error::CodewordLengthNotPower));
    assert!(matches!(encode_error(&messages, &masks, 16, 3, 5), Error::UnevenCosets));
    assert!(matches!(encode_error(&messages, &masks, 16, 0, 0), Error::UnevenCosets));
    assert!(matches!(encode_error(&messages, &masks, 16, 8, 4), Error::CosetCount));
    assert!(matches!(encode_error(&messages, &masks, 16, 4, 4), Error::CosetTooSmall));
    let up = encode_error(&messages, &masks, 16, 8, 2);
    assert_eq!(up.message(), "no CUDA device");
}

#[test]
fn device_encoding_with_larger_cosets_gives_the_same_codewords() {
    let data = elements(6, 5);
    let messages: Vec<&[Fr]> = vec![&data[..3], &data[3..]];
    let masks = elements(2, 6);
    let expected = RSFr.interleaved_encode(&messages, &masks, 32);
    for (coset_size, num_cosets) in [(4, 8), (8, 4), (32, 1)] {
        let mut state = CudaState::new();
        let encoded = interleaved_encode_cuda(
            &mut state,
            &guarded,
            &ready,
            software_kernel,
            &messages,
            &masks,
            32,
            coset_size,
            num_cosets,
        )
        .unwrap();
        assert_eq!(encoded, expected);
        // On the host the codewords are the same, and the device is not looked at.
        let mut state = CudaState::new();
        let on_host = interleaved_encode_cuda(
            &mut state,
            &missing,
            &broken,
            never_kernel,
            &messages,
            &masks,
            32,
            coset_size,
            num_cosets,
        )
        .unwrap();
        assert_eq!(on_host, expected);
        assert!(state.preflight.is_none());
    }
}

#[test]
fn the_policy_decides_about_a_shape() {
    let decide = |policy: &'static str, minimum: &'static str, codeword_length: usize| {
        let env = move |setting: Setting| match setting {
            Setting::Policy => EnvVar::Value(policy.to_string()),
            Setting::MinCodewordSize => EnvVar::Value(minimum.to_string()),
            _ => EnvVar::Missing,
        };
        should_use_cuda_for_shape(&mut CudaSettings::new(), &env, codeword_length, 1)
    };
    assert!(decide("always", "64", 32).unwrap());
    assert!(!decide("never", "64", 128).unwrap());
    assert!(!decide("auto", "64", 32).unwrap());
    assert!(decide("auto", "64", 64).unwrap());
    assert!(!decide("size-only", "64", 63).unwrap());
    assert!(decide("size-only", "64", 128).unwrap());
    let error = decide("often", "64", 64).unwrap_err();
    assert_eq!(
        error.message(),
        "CUDA NTT policy parsing failed before backend execution: PROVEKIT_CUDA_NTT_POLICY must be \
         one of `auto`, `size-only`, `always`, or `never`, got `often` instead"
    );
    // A size setting that cannot be read is reported first.
    let error = decide("often", "big", 64).unwrap_err();
    assert_eq!(
        error.message(),
        "CUDA NTT size policy parsing failed before backend execution: \
         PROVEKIT_CUDA_NTT_MIN_CODEWORD_SIZE must be a non-negative integer, got `big` instead: \
         invalid digit found in string"
    );
}

#[test]
fn failed_device_encodings_are_reported() {
    let data = elements(4, 5);
    let messages: Vec<&[Fr]> = vec![&data];
    let mut state = CudaState::new();
    let error = RSFrCuda
        .interleaved_encode(&mut state, &offload_all, &ready, failing_kernel, &messages, &[], 8)
        .unwrap_err();
    assert!(matches!(error, EncodeError::Execution(_)));
    assert_eq!(
        error.message(),
        "CUDA NTT execution failed after successful backend preflight: CUDA NTT execution failed \
         with status code 11"
    );
    // With the policy `never` the host encodes.
    let env = |setting: Setting| match setting {
        Setting::Policy => EnvVar::Value("never".to_string()),
        Setting::MinCodewordSize => EnvVar::Value("0".to_string()),
        _ => EnvVar::Missing,
    };
    let mut state = CudaState::new();
    let encoded = RSFrCuda
        .interleaved_encode(&mut state, &env, &broken, never_kernel, &messages, &[], 8)
        .unwrap();
    assert_eq!(encoded, RSFr.interleaved_encode(&messages, &[], 8));
}

#[test]
fn uneven_masks_are_refused_by_the_device_encoder() {
    let data = elements(4, 5);
    let messages: Vec<&[Fr]> = vec![&data[..2], &data[2..]];
    let masks = elements(1, 6);
    let mut state = CudaState::new();
    let error = RSFrCuda
        .interleaved_encode(&mut state, &offload_all, &ready, software_kernel, &messages, &masks, 8)
        .unwrap_err();
    assert!(matches!(error, EncodeError::Execution(Error::UnevenMasks)));
}
