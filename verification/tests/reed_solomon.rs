use ark_ff::{AdditiveGroup, FftField, Field, PrimeField};
use provekit_ntt::bits::{count_index_bits, is_power_of_two, reverse_index};
use provekit_ntt::cuda::{CudaState, NttLaunch, NttReply};
use provekit_ntt::cuda_encode::RSFrCuda;
use provekit_ntt::device::DeviceReply;
use provekit_ntt::error::Setting;
use provekit_ntt::field::{fr_to_bytes_le, Fr};
use provekit_ntt::layout::{build_interleaved_host_values, interleaved_layout, next_order_impl};
use provekit_ntt::reed_solomon::{
    interleaved_encode_impl, is_encodable, transform_buffer, RSFr,
};
use provekit_ntt::roots::{evaluation_points_impl, generator_impl, reverse_ordered_roots};
use provekit_ntt::settings::EnvVar;
use provekit_ntt::transform::{is_transform_shape, ntt_nr};

type Ark = ark_bn254::Fr;

fn lift(x: Ark) -> Fr {
    Fr { limbs: x.0 .0 }
}

fn ark(x: &Fr) -> Ark {
    Ark::new_unchecked(ark_ff::BigInt(x.limbs))
}

/// Elements that look random and fill all limbs.
fn elements(count: usize, seed: u64) -> Vec<Fr> {
    let mut x = Ark::from(seed) + Ark::from(0x9e37_79b9_7f4a_7c15_u64);
    let mut out = Vec::new();
    for i in 0..count {
        x = x * x + Ark::from(i as u64 + 3);
        out.push(lift(x));
    }
    out
}

fn evaluate(coefficients: &[Ark], point: Ark) -> Ark {
    let mut value = Ark::ZERO;
    for c in coefficients.iter().rev() {
        value = value * point + c;
    }
    value
}

/// The coefficients of one masked message whose masks are interleaved.
fn masked(messages: &[&[Fr]], masks: &[Fr], column: usize) -> Vec<Ark> {
    let mut coefficients: Vec<Ark> = messages[column].iter().map(ark).collect();
    for row in masks.chunks(messages.len()) {
        coefficients.push(ark(&row[column]));
    }
    coefficients
}

/// A transform on limbs by direct evaluation.
fn software_kernel(launch: NttLaunch) -> NttReply {
    let rows = if launch.num_roots == 0 { 1 } else { 2 * launch.num_roots };
    let width = launch.num_values / rows;
    let size = rows / launch.num_groups_start;
    let bits = rows.trailing_zeros();
    let input: Vec<Ark> = launch
        .values
        .chunks(4)
        .map(|l| Ark::new_unchecked(ark_ff::BigInt([l[0], l[1], l[2], l[3]])))
        .collect();
    let omega = Ark::get_root_of_unity(rows as u64).unwrap();
    let mut values = Vec::new();
    for row in 0..rows {
        let exponent = if bits == 0 { 0 } else { row.reverse_bits() >> (usize::BITS - bits) };
        let point = omega.pow([exponent as u64]);
        for column in 0..width {
            let start = row / size * size;
            let coefficients: Vec<Ark> =
                (0..size).map(|t| input[(start + t) * width + column]).collect();
            values.extend_from_slice(&evaluate(&coefficients, point).0 .0);
        }
    }
    NttReply { status: 0, error_buffer: vec![0; 16], values }
}

fn ready(_device: i32) -> DeviceReply {
    DeviceReply { status: 0, error_buffer: vec![0; 16] }
}

fn offload_all(setting: Setting) -> EnvVar {
    match setting {
        Setting::MinCodewordSize => EnvVar::Value("0".to_string()),
        Setting::GuardStride => EnvVar::Value("1".to_string()),
        _ => EnvVar::Missing,
    }
}

#[test]
fn interleaved_encode_matches_whir_reference() {
    for log_msg in 0..=4 {
        for log_extra in 0..=3 {
            for (num_messages, log_mask) in
                (1..=4_usize).flat_map(|m| (0..=3).map(move |l| (m, l)))
            {
                let message_length = 1_usize << log_msg;
                let mask_length = 1_usize << log_mask;
                let codeword_length =
                    (message_length + mask_length).next_power_of_two() << log_extra;
                let data = elements(num_messages * message_length, 7 + log_extra);
                let messages: Vec<&[Fr]> = data.chunks(message_length).collect();
                let masks = elements(num_messages * mask_length, 1000 + log_extra);

                let our_codeword = RSFr.interleaved_encode(&messages, &masks, codeword_length);
                let indices: Vec<usize> = (0..codeword_length).collect();
                let our_points = RSFr.evaluation_points(message_length, codeword_length, &indices);

                // The reference evaluates at the powers of the root in order.
                let omega = Ark::get_root_of_unity(codeword_length as u64).unwrap();
                let mut reference: Vec<_> = (0..codeword_length)
                    .map(|k| {
                        let point = omega.pow([k as u64]);
                        let row: Vec<Fr> = (0..num_messages)
                            .map(|m| lift(evaluate(&masked(&messages, &masks, m), point)))
                            .collect();
                        (point.into_bigint(), row)
                    })
                    .collect();
                reference.sort_by_key(|(k, _)| *k);
                let mut ours: Vec<_> = our_points
                    .iter()
                    .enumerate()
                    .map(|(i, pt)| {
                        let row = our_codeword[i * num_messages..(i + 1) * num_messages].to_vec();
                        (ark(pt).into_bigint(), row)
                    })
                    .collect();
                ours.sort_by_key(|(k, _)| *k);
                assert_eq!(ours, reference);
            }
        }
    }
}

#[test]
fn cuda_matches_cpu_next_order() {
    for size in (0..4000).chain([1 << 20, (1 << 20) - 1, (1 << 20) + 1]) {
        assert_eq!(RSFr.next_order(size), RSFrCuda.next_order(size));
    }
}

#[test]
fn next_order_is_the_smallest_power_up_to_the_largest() {
    assert_eq!(RSFr.next_order(0), Some(1));
    assert_eq!(RSFr.next_order(1), Some(1));
    assert_eq!(RSFr.next_order(2), Some(2));
    assert_eq!(RSFr.next_order(3), Some(4));
    assert_eq!(RSFr.next_order(1025), Some(2048));
    assert_eq!(RSFr.next_order(1 << 28), Some(1 << 28));
    assert_eq!(RSFr.next_order((1 << 28) + 1), None);
    assert_eq!(next_order_impl(1 << 63), None);
}

#[test]
fn cuda_matches_cpu_evaluation_points() {
    for log_msg in 0..=4 {
        for log_extra in 0..=3 {
            for log_mask in 0..=3 {
                let message_length = 1_usize << log_msg;
                let mask_length = 1_usize << log_mask;
                let codeword_length =
                    (message_length + mask_length).next_power_of_two() << log_extra;
                let indices: Vec<usize> = (0..codeword_length).collect();
                assert_eq!(
                    RSFr.evaluation_points(message_length, codeword_length, &indices),
                    RSFrCuda.evaluation_points(message_length, codeword_length, &indices),
                );
            }
        }
    }
}

#[test]
fn cuda_interleaved_encode_matches_cpu() {
    for log_msg in 0..=4 {
        for log_extra in 0..=3 {
            for num_messages in 1..=4 {
                for log_mask in 0..=3 {
                    let message_length = 1_usize << log_msg;
                    let mask_length = 1_usize << log_mask;
                    let codeword_length =
                        (message_length + mask_length).next_power_of_two() << log_extra;
                    let data = elements(num_messages * message_length, 11);
                    let messages: Vec<&[Fr]> = data.chunks(message_length).collect();
                    let masks = elements(num_messages * mask_length, 13);
                    let mut state = CudaState::new();
                    let encoded = RSFrCuda
                        .interleaved_encode(
                            &mut state,
                            &offload_all,
                            &ready,
                            software_kernel,
                            &messages,
                            &masks,
                            codeword_length,
                        )
                        .unwrap();
                    assert_eq!(
                        RSFr.interleaved_encode(&messages, &masks, codeword_length),
                        encoded
                    );
                }
            }
        }
    }
}

#[test]
fn empty_batch_encodes_to_nothing() {
    assert!(RSFr.interleaved_encode(&[], &[], 8).is_empty());
    let mut state = CudaState::new();
    let never = |_launch: NttLaunch| -> NttReply { panic!("nothing is to be launched") };
    let encoded = RSFrCuda
        .interleaved_encode(&mut state, &offload_all, &ready, never, &[], &[], 8)
        .unwrap();
    assert!(encoded.is_empty());
    assert!(state.preflight.is_none());
}

#[test]
fn constant_messages_encode_to_constants() {
    let five = lift(Ark::from(5_u64));
    let seven = lift(Ark::from(7_u64));
    let messages: Vec<&[Fr]> = vec![std::slice::from_ref(&five), std::slice::from_ref(&seven)];
    let encoded = RSFr.interleaved_encode(&messages, &[], 4);
    assert_eq!(encoded, vec![five, seven, five, seven, five, seven, five, seven]);
}

#[test]
fn linear_message_is_evaluated_at_the_points() {
    // The polynomial x has its evaluation points as values.
    let data = vec![Fr::zero(), lift(Ark::ONE)];
    let messages: Vec<&[Fr]> = vec![&data];
    let encoded = RSFr.interleaved_encode(&messages, &[], 8);
    let indices: Vec<usize> = (0..8).collect();
    assert_eq!(encoded, RSFr.evaluation_points(2, 8, &indices));
}

#[test]
fn evaluation_points_are_powers_in_reversed_order() {
    let omega = Ark::get_root_of_unity(8).unwrap();
    let points = evaluation_points_impl(8, &[0, 1, 2, 3, 4, 5, 6, 7, 9]);
    let exponents = [0_u64, 4, 2, 6, 1, 5, 3, 7, 4];
    for (point, exponent) in points.iter().zip(exponents) {
        assert_eq!(ark(point), omega.pow([exponent]));
    }
    assert!(evaluation_points_impl(5, &[]).is_empty());
    assert_eq!(evaluation_points_impl(1, &[0, 3]), vec![lift(Ark::ONE), lift(Ark::ONE)]);
}

#[test]
fn evaluation_points_are_distinct() {
    let indices: Vec<usize> = (0..256).collect();
    let points = evaluation_points_impl(256, &indices);
    for i in 0..points.len() {
        for j in 0..i {
            assert_ne!(points[i], points[j]);
        }
    }
}

#[test]
fn generator_has_the_order_of_the_codeword() {
    for log in 0..=12 {
        let n = 1_u64 << log;
        let g = ark(&generator_impl(n as usize));
        assert_eq!(g.pow([n]), Ark::ONE);
        if n > 1 {
            assert_eq!(g.pow([n / 2]), -Ark::ONE);
        }
        assert_eq!(RSFr.generator(n as usize), lift(Ark::get_root_of_unity(n).unwrap()));
        assert_eq!(RSFr.generator(n as usize), RSFrCuda.generator(n as usize));
    }
    assert_eq!(ark(&generator_impl(9)).pow([9_u64]), Ark::ONE);
}

#[test]
fn twiddle_factors_are_in_reversed_order() {
    let omega = Ark::get_root_of_unity(16).unwrap();
    let roots = reverse_ordered_roots(16);
    let exponents = [0_u64, 4, 2, 6, 1, 5, 3, 7];
    assert_eq!(roots.len(), 8);
    for (root, exponent) in roots.iter().zip(exponents) {
        assert_eq!(ark(root), omega.pow([exponent]));
    }
    assert!(reverse_ordered_roots(1).is_empty());
    assert!(reverse_ordered_roots(0).is_empty());
}

#[test]
fn transform_with_two_rows_is_one_butterfly() {
    let a = Ark::from(10_u64);
    let b = Ark::from(3_u64);
    let mut values = vec![lift(a), lift(b)];
    ntt_nr(&mut values, 2, 1);
    assert_eq!(values, vec![lift(a + b), lift(a - b)]);
}

#[test]
fn transform_of_single_rows_changes_nothing() {
    let values = elements(24, 3);
    assert_eq!(transform_buffer(values.clone(), 8, 8), values);
    assert_eq!(transform_buffer(values.clone(), 1, 1), values);
}

#[test]
fn transform_evaluates_each_group_and_column() {
    for (rows, groups, width) in [(16_usize, 1_usize, 1_usize), (16, 4, 3), (8, 2, 5), (32, 8, 2)] {
        let input = elements(rows * width, 21);
        let output = transform_buffer(input.clone(), rows, groups);
        let omega = Ark::get_root_of_unity(rows as u64).unwrap();
        let size = rows / groups;
        for row in 0..rows {
            let exponent = row.reverse_bits() >> (usize::BITS - rows.trailing_zeros());
            let point = omega.pow([exponent as u64]);
            for column in 0..width {
                let start = row / size * size;
                let coefficients: Vec<Ark> =
                    (0..size).map(|t| ark(&input[(start + t) * width + column])).collect();
                assert_eq!(ark(&output[row * width + column]), evaluate(&coefficients, point));
            }
        }
    }
}

#[test]
fn layout_takes_the_smallest_coset() {
    let layout = interleaved_layout(3, 5, 6, 32);
    assert_eq!(layout.coset_size, 8);
    assert_eq!(layout.num_cosets, 4);
    assert_eq!(layout.total_size, 96);
    assert_eq!(layout.chunk_size, 24);
    let tight = interleaved_layout(2, 4, 0, 4);
    assert_eq!((tight.coset_size, tight.num_cosets), (4, 1));
    let nothing = interleaved_layout(1, 0, 0, 8);
    assert_eq!((nothing.coset_size, nothing.num_cosets), (1, 8));
}

#[test]
fn buffer_interleaves_messages_masks_and_zeros() {
    let one = lift(Ark::from(1_u64));
    let two = lift(Ark::from(2_u64));
    let three = lift(Ark::from(3_u64));
    let four = lift(Ark::from(4_u64));
    let mask = lift(Ark::from(9_u64));
    let first = [one, two];
    let second = [three, four];
    let messages: Vec<&[Fr]> = vec![&first, &second];
    let zero = Fr::zero();
    let block = [one, three, two, four, mask, mask, zero, zero];
    let buffer = build_interleaved_host_values(&messages, &[mask, mask], 2, 16, 8, 2);
    assert_eq!(buffer[..8], block);
    assert_eq!(buffer[8..], block);
    let single = build_interleaved_host_values(&messages, &[mask, mask], 2, 10, 8, 1);
    assert_eq!(single[..8], block);
    assert_eq!(single[8..], [zero, zero]);
}

#[test]
fn encoder_hands_the_buffer_to_the_transform() {
    let data = elements(6, 5);
    let messages: Vec<&[Fr]> = data.chunks(3).collect();
    let masks = elements(2, 6);
    let seen = interleaved_encode_impl(&messages, &masks, 16, |values, length, cosets| {
        assert_eq!((values.len(), length, cosets), (32, 16, 4));
        values
    });
    assert_eq!(seen[0], data[0]);
    assert_eq!(seen[1], data[3]);
    assert_eq!(seen[6], masks[0]);
    assert_eq!(seen[7], masks[1]);
    assert_eq!(seen[8..16], seen[..8]);
}

#[test]
fn reversed_indices() {
    assert_eq!(reverse_index(0b0011, 4), 0b1100);
    assert_eq!(reverse_index(0b1_0001, 4), 0b1000);
    assert_eq!(reverse_index(5, 0), 0);
    for i in 0..64 {
        assert_eq!(reverse_index(reverse_index(i, 6), 6), i);
    }
    assert_eq!(count_index_bits(0), 0);
    assert_eq!(count_index_bits(1), 0);
    assert_eq!(count_index_bits(2), 1);
    assert_eq!(count_index_bits(5), 3);
    assert_eq!(count_index_bits(8), 3);
    assert!(is_power_of_two(1) && is_power_of_two(1 << 40));
    assert!(!is_power_of_two(0) && !is_power_of_two(12));
}

#[test]
fn reduced_elements_are_told_from_others() {
    assert!(Fr::zero().is_reduced());
    assert!(lift(-Ark::ONE).is_reduced());
    let modulus = Fr { limbs: Ark::MODULUS.0 };
    assert!(!modulus.is_reduced());
    let mut below = modulus;
    below.limbs[0] -= 1;
    assert!(below.is_reduced());
    let mut above = modulus;
    above.limbs[3] += 1;
    above.limbs[0] = 0;
    assert!(!above.is_reduced());
    assert!(!Fr { limbs: [u64::MAX; 4] }.is_reduced());
}

#[test]
fn bytes_hold_the_value() {
    let mut expected = vec![0_u8; 32];
    expected[0] = 0x34;
    expected[1] = 0x12;
    assert_eq!(fr_to_bytes_le(&lift(Ark::from(0x1234_u64))), expected);
}

/// A number divided by a small one.
fn divided(mut limbs: [u64; 4], by: u64) -> [u64; 4] {
    let mut rest = 0_u128;
    for limb in limbs.iter_mut().rev() {
        let part = (rest << 64) | *limb as u128;
        *limb = (part / by as u128) as u64;
        rest = part % by as u128;
    }
    assert_eq!(rest, 0);
    limbs
}

#[test]
fn roots_are_powers_of_the_group_generator() {
    let mut order = Ark::MODULUS.0;
    order[0] -= 1;
    for n in [1_u64, 2, 3, 8, 9, 36, 1 << 20, 1 << 28, 9 << 28] {
        let expected = Ark::from(5_u64).pow(divided(order, n));
        assert_eq!(ark(&generator_impl(n as usize)), expected);
    }
}

#[test]
fn batches_are_told_apart_by_whether_they_fit() {
    let data = elements(8, 5);
    let messages: Vec<&[Fr]> = vec![&data[..4], &data[4..]];
    let uneven: Vec<&[Fr]> = vec![&data[..4], &data[5..]];
    assert!(is_encodable(&[], &[], 0));
    assert!(is_encodable(&messages, &[], 4));
    assert!(is_encodable(&messages, &data, 8));
    assert!(!is_encodable(&messages, &data[..1], 4));
    assert!(!is_encodable(&uneven, &[], 8));
    assert!(!is_encodable(&messages, &[], 12));
    assert!(!is_encodable(&messages, &[], 2));
    assert!(!is_encodable(&messages, &[], 1 << 29));
}

#[test]
fn shapes_that_can_be_transformed() {
    assert!(is_transform_shape(24, 8, 2));
    assert!(is_transform_shape(0, 8, 8));
    assert!(!is_transform_shape(24, 8, 16));
    assert!(!is_transform_shape(24, 8, 3));
    assert!(!is_transform_shape(20, 8, 2));
    assert!(!is_transform_shape(24, 12, 2));
    assert!(!is_transform_shape(0, 0, 1));
    assert!(!is_transform_shape(0, 1 << 29, 1));
}

#[test]
fn masks_that_do_not_fill_a_row_are_laid_out_all_the_same() {
    let data = elements(4, 5);
    let messages: Vec<&[Fr]> = vec![&data[..2], &data[2..]];
    let masks = elements(3, 6);
    // The fourth row of each block holds the last mask and a zero.
    let mut full = masks.clone();
    full.push(Fr::zero());
    assert_eq!(
        RSFr.interleaved_encode(&messages, &masks, 16)[..2],
        RSFr.interleaved_encode(&messages, &masks[..2], 16)[..2]
            .iter()
            .zip([masks[2], Fr::zero()])
            .map(|(value, extra)| lift(ark(value) + ark(&extra)))
            .collect::<Vec<_>>()[..],
    );
    assert_eq!(
        RSFr.interleaved_encode(&messages, &masks, 16),
        RSFr.interleaved_encode(&messages, &full, 16)
    );
}
