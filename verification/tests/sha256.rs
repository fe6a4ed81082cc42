use std::cell::Cell;

use provekit_ntt::error::{Error, Setting};
use provekit_ntt::settings::EnvVar;
use provekit_ntt::sha256::{
    min_batch_threshold, sha256_many_cuda, CudaSha2, ShaLaunch, ShaReply, ShaSettings,
};
use sha2::{Digest, Sha256};

fn digest(message: &[u8]) -> [u8; 32] {
    Sha256::digest(message).into()
}

fn missing(_setting: Setting) -> EnvVar {
    EnvVar::Missing
}

fn offload_all(setting: Setting) -> EnvVar {
    match setting {
        Setting::ShaMinBatch => EnvVar::Value("1".to_string()),
        Setting::ShaDevice => EnvVar::Value("6".to_string()),
        _ => EnvVar::Missing,
    }
}

fn software_kernel(launch: ShaLaunch) -> ShaReply {
    let mut output = Vec::new();
    for message in launch.input.chunks(launch.size) {
        output.extend_from_slice(&digest(message));
    }
    assert_eq!(output.len(), 32 * launch.n_messages);
    ShaReply { status: 0, error_buffer: Vec::new(), output }
}

fn failing_kernel(_launch: ShaLaunch) -> ShaReply {
    ShaReply { status: 2, error_buffer: vec![0; 8], output: Vec::new() }
}

fn never_kernel(_launch: ShaLaunch) -> ShaReply {
    panic!("nothing is to be launched")
}

fn blank(count: usize) -> Vec<provekit_ntt::sha256::Hash> {
    vec![provekit_ntt::sha256::Hash { bytes: [0xee; 32] }; count]
}

#[test]
fn known_digests() {
    let mut output = blank(1);
    CudaSha2::cpu_fallback(3, b"abc", &mut output);
    assert_eq!(output[0].bytes[..4], [0xba, 0x78, 0x16, 0xbf]);
    assert_eq!(output[0].bytes[28..], [0xf2, 0x00, 0x15, 0xad]);
    let mut output = blank(2);
    CudaSha2::cpu_fallback(0, b"", &mut output);
    assert_eq!(output[1].bytes[..4], [0xe3, 0xb0, 0xc4, 0x42]);
    assert_eq!(output[0], output[1]);
}

#[test]
fn the_host_hashes_as_many_as_there_are() {
    let mut output = blank(3);
    CudaSha2::cpu_fallback(2, b"aabbc", &mut output);
    assert_eq!(output[0].bytes, digest(b"aa"));
    assert_eq!(output[1].bytes, digest(b"bb"));
    assert_eq!(output[2].bytes, [0xee; 32]);
    let mut output = blank(1);
    CudaSha2::cpu_fallback(2, b"aabb", &mut output);
    assert_eq!(output[0].bytes, digest(b"aa"));
}

#[test]
fn small_batches_stay_on_the_host() {
    let mut settings = ShaSettings::new();
    assert_eq!(min_batch_threshold(&mut settings, &missing), 4096);
    let input: Vec<u8> = (0..40).collect();
    let mut output = blank(5);
    CudaSha2::new()
        .hash_many(&mut settings, &missing, never_kernel, 8, &input, &mut output)
        .unwrap();
    for (message, hash) in input.chunks(8).zip(&output) {
        assert_eq!(hash.bytes, digest(message));
    }
    assert!(settings.device.is_none());
}

#[test]
fn empty_messages_stay_on_the_host() {
    let mut settings = ShaSettings::new();
    let mut output = blank(5);
    CudaSha2::new()
        .hash_many(&mut settings, &offload_all, never_kernel, 0, &[], &mut output)
        .unwrap();
    assert!(output.iter().all(|hash| hash.bytes == digest(b"")));
}

#[test]
fn large_batches_are_offloaded() {
    let device = Cell::new(0);
    let kernel = |launch: ShaLaunch| {
        device.set(launch.device);
        assert_eq!((launch.size, launch.n_messages), (8, 5));
        software_kernel(launch)
    };
    let mut settings = ShaSettings::new();
    let input: Vec<u8> = (0..40).collect();
    let mut offloaded = blank(5);
    CudaSha2::new()
        .hash_many(&mut settings, &offload_all, kernel, 8, &input, &mut offloaded)
        .unwrap();
    assert_eq!(device.get(), 6);
    let mut on_host = blank(5);
    CudaSha2::cpu_fallback(8, &input, &mut on_host);
    assert_eq!(offloaded, on_host);
}

#[test]
fn failures_of_the_device_are_reported() {
    let mut settings = ShaSettings::new();
    let mut output = blank(1);
    let error = CudaSha2::new()
        .hash_many(&mut settings, &offload_all, failing_kernel, 1, b"x", &mut output)
        .unwrap_err();
    assert_eq!(
        error.message(),
        "CUDA SHA-256 hashing failed: CUDA SHA-256 execution failed with status code 2"
    );
    assert_eq!(output, blank(1));
    let env = |setting: Setting| match setting {
        Setting::ShaDevice => EnvVar::Value("gpu".to_string()),
        _ => EnvVar::Value("1".to_string()),
    };
    let mut settings = ShaSettings::new();
    let error = CudaSha2::new()
        .hash_many(&mut settings, &env, never_kernel, 1, b"x", &mut output)
        .unwrap_err();
    assert_eq!(
        error.message(),
        "CUDA SHA-256 hashing failed: PROVEKIT_CUDA_DEVICE must be a non-negative integer, got \
         `gpu` (invalid digit found in string)"
    );
}

#[test]
fn lengths_are_checked() {
    let mut settings = ShaSettings::new();
    let mut output = vec![0; 33];
    let error =
        sha256_many_cuda(&mut settings, &missing, never_kernel, 1, b"x", &mut output).unwrap_err();
    assert!(matches!(error, Error::DigestOutput { length: 33 }));
    assert_eq!(error.message(), "output length 33 must be a multiple of 32");
    let mut output = vec![0; 64];
    let error =
        sha256_many_cuda(&mut settings, &missing, never_kernel, 3, b"xxxxx", &mut output)
            .unwrap_err();
    assert_eq!(error.message(), "input length 5 must equal size * n_messages = 6");
    assert!(sha256_many_cuda(&mut settings, &missing, never_kernel, 3, b"", &mut []).is_ok());
    assert!(settings.device.is_none());
    let mut output = vec![0; 64];
    sha256_many_cuda(&mut settings, &missing, software_kernel, 1, b"ab", &mut output).unwrap();
    assert_eq!(output[32..], digest(b"b"));
}

#[test]
fn the_batch_setting_is_read_once() {
    let mut settings = ShaSettings::new();
    let seven = |_: Setting| EnvVar::Value(" 7\n".to_string());
    assert_eq!(min_batch_threshold(&mut settings, &seven), 7);
    assert_eq!(min_batch_threshold(&mut settings, &missing), 7);
    let mut settings = ShaSettings::new();
    let unclear = |_: Setting| EnvVar::Value("few".to_string());
    assert_eq!(min_batch_threshold(&mut settings, &unclear), 4096);
}

#[test]
fn the_engine_describes_itself() {
    let engine = CudaSha2::new();
    assert_eq!(engine.name(), "sha2");
    assert_eq!(engine.oid(), Some("2.16.840.1.101.3.4.2.1".to_string()));
    assert!(engine.supports_size(0) && engine.supports_size(1 << 30));
    assert_eq!(engine.preferred_batch_size(), 1);
    let _same: CudaSha2 = Default::default();
}
