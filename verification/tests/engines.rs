use std::cell::Cell;

use ark_ff::{AdditiveGroup, BigInteger, FftField, Field, PrimeField};
use provekit_ntt::cuda::NttReply;
use provekit_ntt::error::{Error, Setting};
use provekit_ntt::field::Fr;
use provekit_ntt::icicle::{
    ark_to_icicle, build_interleaved_buffer, ensure_domain_covers, icicle_to_ark,
    interleaved_encode_icicle, preflight_icicle, ColumnLaunch,
};
use provekit_ntt::reed_solomon::{transform_buffer, RSFr};
use provekit_ntt::settings::EnvVar;
use provekit_ntt::sppark::{
    interleaved_encode_hybrid, interleaved_encode_sppark, preflight_sppark, should_use_sppark,
    sppark_ntt, NttDirection, NttOrder, NttType, SpparkLaunch, SpparkSettings,
};

type Ark = ark_bn254::Fr;

fn lift(x: Ark) -> Fr {
    Fr { limbs: x.0 .0 }
}

fn elements(count: usize, seed: u64) -> Vec<Fr> {
    let mut x = Ark::from(seed) + Ark::from(0x9e37_79b9_7f4a_7c15_u64);
    let mut out = Vec::new();
    for i in 0..count {
        x = x * x + Ark::from(i as u64 + 3);
        out.push(lift(x));
    }
    out
}

fn evaluate(coefficients: &[Ark], point: Ark) -> Ark {
    let mut value = Ark::ZERO;
    for c in coefficients.iter().rev() {
        value = value * point + c;
    }
    value
}

fn reversed(index: usize, rows: usize) -> u64 {
    let bits = rows.trailing_zeros();
    if bits == 0 {
        0
    } else {
        (index.reverse_bits() >> (usize::BITS - bits)) as u64
    }
}

/// The single-polynomial transform by direct evaluation, from natural order.
fn software_sppark(launch: SpparkLaunch) -> NttReply {
    assert_eq!(launch.device_id, 0);
    assert_eq!((launch.ntt_direction, launch.ntt_type), (0, 0));
    let rows = 1_usize << launch.lg_domain_size;
    assert_eq!(launch.values.len(), 4 * rows);
    let input: Vec<Ark> = launch
        .values
        .chunks(4)
        .map(|l| Ark::new_unchecked(ark_ff::BigInt([l[0], l[1], l[2], l[3]])))
        .collect();
    let omega = Ark::get_root_of_unity(rows as u64).unwrap();
    let mut values = Vec::new();
    for row in 0..rows {
        let exponent = if launch.ntt_order == 1 { reversed(row, rows) } else { row as u64 };
        values.extend_from_slice(&evaluate(&input, omega.pow([exponent])).0 .0);
    }
    NttReply { status: 0, error_buffer: Vec::new(), values }
}

fn failing_sppark(_launch: SpparkLaunch) -> NttReply {
    NttReply { status: 5, error_buffer: Vec::new(), values: Vec::new() }
}

/// The column-batched transform by direct evaluation on plain integers.
fn software_icicle(launch: ColumnLaunch) -> Result<Vec<Vec<u8>>, String> {
    assert!(launch.columns_batch);
    assert!(matches!(launch.ordering, NttOrder::NR));
    let width = launch.batch_size as usize;
    let rows = launch.scalars.len() / width;
    let input: Vec<Ark> =
        launch.scalars.iter().map(|s| Ark::from_le_bytes_mod_order(s)).collect();
    let omega = Ark::get_root_of_unity(rows as u64).unwrap();
    let mut out = Vec::new();
    for row in 0..rows {
        let point = omega.pow([reversed(row, rows)]);
        for column in 0..width {
            let coefficients: Vec<Ark> =
                (0..rows).map(|t| input[t * width + column]).collect();
            out.push(evaluate(&coefficients, point).into_bigint().to_bytes_le());
        }
    }
    Ok(out)
}

fn domain_ok(_size: u64) -> Result<(), String> {
    Ok(())
}

fn missing(_setting: Setting) -> EnvVar {
    EnvVar::Missing
}

#[test]
fn sppark_transform_matches_the_host() {
    let input = elements(16, 1);
    let mut values = input.clone();
    sppark_ntt(
        &software_sppark,
        &mut values,
        NttOrder::NR,
        NttDirection::Forward,
        NttType::Standard,
    )
    .unwrap();
    assert_eq!(values, transform_buffer(input, 16, 1));
}

#[test]
fn sppark_transform_checks_the_length() {
    let never = |_: SpparkLaunch| -> NttReply { panic!("nothing is to be launched") };
    let forward = NttDirection::Forward;
    let mut empty: Vec<Fr> = Vec::new();
    assert!(sppark_ntt(&never, &mut empty, NttOrder::NN, forward, NttType::Standard).is_ok());
    let mut six = elements(6, 1);
    let error =
        sppark_ntt(&never, &mut six, NttOrder::NN, forward, NttType::Standard).unwrap_err();
    assert_eq!(error.message(), "sppark NTT requires power-of-two length, got 6");
    assert_eq!(six, elements(6, 1));
}

#[test]
fn sppark_codes() {
    let codes = Cell::new((9, 9, 9, 9));
    let kernel = |launch: SpparkLaunch| {
        codes.set((
            launch.lg_domain_size,
            launch.ntt_order,
            launch.ntt_direction,
            launch.ntt_type,
        ));
        NttReply { status: 0, error_buffer: Vec::new(), values: launch.values }
    };
    let mut values = elements(8, 1);
    sppark_ntt(&kernel, &mut values, NttOrder::RN, NttDirection::Inverse, NttType::Coset).unwrap();
    assert_eq!(codes.get(), (3, 2, 1, 1));
    sppark_ntt(&kernel, &mut values, NttOrder::RR, NttDirection::Forward, NttType::Standard)
        .unwrap();
    assert_eq!(codes.get(), (3, 3, 0, 0));
    assert_eq!(values, elements(8, 1));
    assert_eq!((NttOrder::NN.code(), NttOrder::NR.code()), (0, 1));
}

#[test]
fn sppark_encoding_matches_the_host_with_transposed_masks() {
    for (num_messages, message_length, mask_length, codeword_length) in
        [(1, 4, 2, 16), (3, 5, 2, 16), (4, 8, 0, 8), (2, 1, 3, 32)]
    {
        let data = elements(num_messages * message_length, 3);
        let messages: Vec<&[Fr]> = data.chunks(message_length).collect();
        let masks = elements(num_messages * mask_length, 4);
        let mut interleaved = Vec::new();
        for column in 0..mask_length {
            for row in 0..num_messages {
                interleaved.push(masks[row * mask_length + column]);
            }
        }
        let encoded =
            interleaved_encode_sppark(&software_sppark, &messages, &masks, codeword_length)
                .unwrap();
        assert_eq!(encoded, RSFr.interleaved_encode(&messages, &interleaved, codeword_length));
    }
}

#[test]
fn sppark_encodings_are_checked() {
    let data = elements(8, 3);
    let messages: Vec<&[Fr]> = vec![&data[..4], &data[4..]];
    let uneven: Vec<&[Fr]> = vec![&data[..4], &data[..4], &data[..3], &data[..2]];
    let encode = |messages: &[&[Fr]], masks: &[Fr], codeword_length: usize| {
        interleaved_encode_sppark(&failing_sppark, messages, masks, codeword_length)
    };
    assert!(encode(&[], &[], 3).unwrap().is_empty());
    assert_eq!(
        encode(&messages, &[], 12).unwrap_err().message(),
        "sppark interleaved_encode requires power-of-two codeword_length, got 12"
    );
    assert_eq!(
        encode(&uneven, &[], 8).unwrap_err().message(),
        "messages must be uniform length; saw 4 and 3"
    );
    assert_eq!(
        encode(&messages, &data[..2], 4).unwrap_err().message(),
        "masked message length 5 exceeds codeword length 4"
    );
    assert_eq!(
        encode(&messages, &[], 8).unwrap_err().message(),
        "sppark NTT failed with status 5"
    );
}

#[test]
fn sppark_encoding_stops_at_the_first_message_that_fails() {
    let data = elements(8, 3);
    let messages: Vec<&[Fr]> = data.chunks(2).collect();
    let launched = Cell::new(0);
    // The second message and all after it fail, each with a message of its own.
    let kernel = |launch: SpparkLaunch| {
        let row = launched.get();
        launched.set(row + 1);
        assert_eq!(launch.values[..4], data[2 * row].limbs);
        if row == 0 {
            software_sppark(launch)
        } else {
            let error_buffer = format!("row {row}\0").into_bytes();
            NttReply { status: 7, error_buffer, values: Vec::new() }
        }
    };
    let error = interleaved_encode_sppark(&kernel, &messages, &[], 4).unwrap_err();
    assert_eq!(error.message(), "row 1");
    assert_eq!(launched.get(), 2);
}

#[test]
fn sppark_preflight_transforms_eight_zeros() {
    let kernel = |launch: SpparkLaunch| {
        assert_eq!(launch.values, vec![0; 32]);
        assert_eq!((launch.lg_domain_size, launch.ntt_order), (3, 0));
        software_sppark(launch)
    };
    assert!(preflight_sppark(&kernel).is_ok());
    assert!(matches!(preflight_sppark(&failing_sppark), Err(Error::Device { status: 5, .. })));
}

#[test]
fn sppark_is_for_small_batches_of_large_codewords() {
    let mut settings = SpparkSettings::new();
    assert!(should_use_sppark(&mut settings, &missing, 131072, 8));
    assert!(should_use_sppark(&mut settings, &missing, 524288, 31));
    assert!(!should_use_sppark(&mut settings, &missing, 524288, 32));
    assert!(!should_use_sppark(&mut settings, &missing, 65536, 8));
    let env = |setting: Setting| match setting {
        Setting::SpparkMinCodeword => EnvVar::Value(" 16 ".to_string()),
        Setting::SpparkMaxBatch => EnvVar::Value("nonsense".to_string()),
        _ => EnvVar::Missing,
    };
    let mut settings = SpparkSettings::new();
    assert!(should_use_sppark(&mut settings, &env, 16, 31));
    assert!(!should_use_sppark(&mut settings, &env, 15, 31));
    // What was read stands.
    assert!(should_use_sppark(&mut settings, &missing, 16, 31));
}

#[test]
fn hybrid_encodes_on_the_host_what_is_not_for_sppark() {
    let never = |_: SpparkLaunch| -> NttReply { panic!("nothing is to be launched") };
    let data = elements(12, 3);
    let messages: Vec<&[Fr]> = data.chunks(4).collect();
    let masks = elements(6, 4);
    // Here the masks stand row by row.
    let encoded = interleaved_encode_hybrid(
        &mut SpparkSettings::new(),
        &missing,
        &never,
        &messages,
        &masks,
        16,
    )
    .unwrap();
    assert_eq!(encoded.len(), 48);
    assert_eq!(encoded, RSFr.interleaved_encode(&messages, &masks, 16));
    // A wide batch stays on the host however large its codewords are.
    let wide: Vec<&[Fr]> = vec![&data[..2]; 32];
    let small = |setting: Setting| match setting {
        Setting::SpparkMinCodeword => EnvVar::Value("2".to_string()),
        _ => EnvVar::Missing,
    };
    let encoded =
        interleaved_encode_hybrid(&mut SpparkSettings::new(), &small, &never, &wide, &[], 4)
            .unwrap();
    assert_eq!(encoded, RSFr.interleaved_encode(&wide, &[], 4));
    let nothing =
        interleaved_encode_hybrid(&mut SpparkSettings::new(), &missing, &never, &[], &[], 3);
    assert!(nothing.unwrap().is_empty());
    let refused = interleaved_encode_hybrid(
        &mut SpparkSettings::new(),
        &missing,
        &never,
        &messages,
        &masks,
        4,
    )
    .unwrap_err();
    assert_eq!(
        refused.message(),
        "a batch of 3 messages and 6 masks does not fit codewords of length 4"
    );
    assert!(matches!(refused, Error::BatchDoesNotFit { messages: 3, masks: 6, codeword: 4 }));
}

#[test]
fn hybrid_uses_sppark_for_what_is_for_it() {
    let data = elements(4, 3);
    let messages: Vec<&[Fr]> = vec![&data];
    let env = |setting: Setting| match setting {
        Setting::SpparkMinCodeword => EnvVar::Value("8".to_string()),
        _ => EnvVar::Missing,
    };
    let launches = Cell::new(0);
    let kernel = |launch: SpparkLaunch| {
        launches.set(launches.get() + 1);
        software_sppark(launch)
    };
    let mut settings = SpparkSettings::new();
    let encoded =
        interleaved_encode_hybrid(&mut settings, &env, &kernel, &messages, &[], 8).unwrap();
    assert_eq!(encoded, RSFr.interleaved_encode(&messages, &[], 8));
    assert_eq!(launches.get(), 1);
}

#[test]
fn icicle_matches_cpu_reference() {
    for log_msg in 1..=4 {
        for log_extra in 0..=2 {
            for (num_messages, log_mask) in
                (1..=4_usize).flat_map(|m| (0..=2).map(move |l| (m, l)))
            {
                let message_length = 1_usize << log_msg;
                let mask_length = 1_usize << log_mask;
                let codeword_length =
                    (message_length + mask_length).next_power_of_two() << log_extra;
                let data = elements(num_messages * message_length, 5);
                let messages: Vec<&[Fr]> = data.chunks(message_length).collect();
                let masks = elements(num_messages * mask_length, 6);
                let coset_size = (message_length + mask_length).next_power_of_two();
                let num_cosets = codeword_length / coset_size;

                let cpu_out = transform_buffer(
                    build_interleaved_buffer(
                        &messages,
                        &masks,
                        codeword_length,
                        coset_size,
                        num_cosets,
                    ),
                    codeword_length,
                    num_cosets,
                );
                let mut domain_max = 0;
                let icicle_out = interleaved_encode_icicle(
                    &mut domain_max,
                    domain_ok,
                    software_icicle,
                    &messages,
                    &masks,
                    codeword_length,
                    coset_size,
                    num_cosets,
                )
                .expect("icicle NTT should succeed");
                assert_eq!(cpu_out.len(), icicle_out.len());
                assert_eq!(cpu_out, icicle_out);
                assert_eq!(domain_max, codeword_length as u64);
            }
        }
    }
}

#[test]
fn icicle_failures_are_reported() {
    let data = elements(4, 5);
    let messages: Vec<&[Fr]> = vec![&data];
    let mut domain_max = 0;
    let refuse = |_: u64| Err::<(), String>("Failed".to_string());
    let error = interleaved_encode_icicle(
        &mut domain_max,
        refuse,
        software_icicle,
        &messages,
        &[],
        8,
        4,
        2,
    )
    .unwrap_err();
    assert_eq!(error.message(), "icicle initialize_domain(8) failed: Failed");
    assert_eq!(domain_max, 0);
    let broken = |_: ColumnLaunch| Err::<Vec<Vec<u8>>, String>("Lost".to_string());
    let error = interleaved_encode_icicle(
        &mut domain_max,
        domain_ok,
        broken,
        &messages,
        &[],
        8,
        4,
        2,
    )
    .unwrap_err();
    assert_eq!(error.message(), "icicle NTT failed: Lost");
    assert_eq!(domain_max, 8);
    let nothing = interleaved_encode_icicle(
        &mut domain_max,
        refuse,
        software_icicle,
        &[],
        &[],
        64,
        4,
        2,
    );
    assert!(nothing.unwrap().is_empty());
}

#[test]
fn the_domain_is_set_up_only_when_it_has_to_grow() {
    let calls = Cell::new(0);
    let initialize = |_: u64| {
        calls.set(calls.get() + 1);
        Ok::<(), String>(())
    };
    let mut domain_max = 0;
    ensure_domain_covers(&mut domain_max, 64, initialize).unwrap();
    ensure_domain_covers(&mut domain_max, 32, initialize).unwrap();
    ensure_domain_covers(&mut domain_max, 64, initialize).unwrap();
    assert_eq!((calls.get(), domain_max), (1, 64));
    ensure_domain_covers(&mut domain_max, 128, initialize).unwrap();
    assert_eq!((calls.get(), domain_max), (2, 128));
}

#[test]
fn icicle_preflight_sets_up_a_small_domain() {
    let mut domain_max = 0;
    preflight_icicle(&mut domain_max, domain_ok).unwrap();
    assert_eq!(domain_max, 256);
    let mut domain_max = 0;
    let error =
        preflight_icicle(&mut domain_max, |_| Err::<(), String>("NoDevice".to_string()))
            .unwrap_err();
    assert_eq!(
        error.message(),
        "icicle preflight: initialize_domain(256): icicle initialize_domain(256) failed: NoDevice"
    );
}

#[test]
fn scalars_round_trip() {
    let values = elements(7, 8);
    let scalars = ark_to_icicle(&values);
    assert!(scalars.iter().all(|s| s.len() == 32));
    assert_eq!(icicle_to_ark(&scalars), values);
    let one = ark_to_icicle(&[lift(Ark::ONE)]);
    assert_eq!((one[0][0], one[0][1..].iter().all(|b| *b == 0)), (1, true));
    // Bytes that are not reduced are reduced.
    let modulus = Ark::MODULUS.to_bytes_le();
    assert_eq!(icicle_to_ark(&[modulus]), vec![Fr::zero()]);
}

#[test]
fn interleaved_buffer_repeats_its_block() {
    let data = elements(4, 9);
    let messages: Vec<&[Fr]> = vec![&data[..2], &data[2..]];
    let buffer = build_interleaved_buffer(&messages, &[], 8, 2, 4);
    assert_eq!(buffer[..4], [data[0], data[2], data[1], data[3]]);
    for block in buffer.chunks(4) {
        assert_eq!(block, &buffer[..4]);
    }
}
