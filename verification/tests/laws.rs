use uubed_core::encoders::mq64::{mq64_decode, mq64_encode, mq64_encode_with_levels};
use uubed_core::encoders::q64::{q64_decode, q64_encode};
use uubed_core::encoders::simhash::{pack_bits, simhash_q64};
use uubed_core::encoders::topk::{top_k_indices, top_k_q64};
use uubed_core::encoders::zorder::{z_order_q64, z_order_value};
use uubed_core::simd::topk_simd::find_max_indices_scalar;

/// A small generator of bytes, the same on every run.
fn noise(seed: u64, len: usize) -> Vec<u8> {
    let mut state = seed;
    (0..len)
        .map(|_| {
            state = state.wrapping_mul(6364136223846793005).wrapping_add(1442695040888963407);
            (state >> 56) as u8
        })
        .collect()
}

#[test]
fn round_trip_and_lengths() {
    for seed in 0..40u64 {
        let x = noise(seed, (seed * 13 % 300) as usize);
        let encoded = q64_encode(&x);
        assert_eq!(encoded.len(), 2 * x.len());
        assert_eq!(q64_decode(&encoded).unwrap(), x);
        assert_eq!(mq64_decode(&mq64_encode(&x)).unwrap(), x);
        for k in [0usize, 1, 7, 300] {
            assert_eq!(top_k_indices(&x, k).len(), k);
            assert_eq!(top_k_q64(&x, k).len(), 2 * k);
        }
        assert_eq!(z_order_q64(&x).len(), 8);
    }
}

#[test]
fn encoders_repeat_themselves() {
    let x = noise(77, 500);
    let bits: Vec<bool> = x.iter().map(|b| b % 2 == 1).collect();
    assert_eq!(simhash_q64(&bits), simhash_q64(&bits));
    assert_eq!(top_k_q64(&x, 20), top_k_q64(&x, 20));
    assert_eq!(z_order_q64(&x), z_order_q64(&x));
    assert_eq!(mq64_encode(&x), mq64_encode(&x));
}

#[test]
fn encoding_is_injective() {
    let a = noise(1, 20);
    for i in 0..a.len() {
        let mut b = a.clone();
        b[i] ^= 1;
        assert_ne!(q64_encode(&a), q64_encode(&b));
    }
    assert_ne!(q64_encode(&a), q64_encode(&a[..19]));
}

#[test]
fn decoding_reads_the_last_level_that_fits() {
    let x = noise(5, 90);
    for levels in [vec![10usize], vec![10, 50], vec![50, 10], vec![10, 500, 40, 200]] {
        let last = *levels.iter().filter(|&&l| l <= x.len()).last().unwrap();
        let decoded = mq64_decode(&mq64_encode_with_levels(&x, &levels)).unwrap();
        assert_eq!(decoded, x[..last]);
    }
}

#[test]
fn padding_laws() {
    for k in [0usize, 1, 5, 300] {
        assert_eq!(top_k_indices(&[], k), vec![255u8; k]);
    }
    for seed in 0..5u64 {
        assert_eq!(top_k_indices(&noise(seed, 50), 0), Vec::<u8>::new());
    }
    // Behind the indices of a short embedding stands the sentinel.
    assert_eq!(top_k_indices(&[9, 1, 5], 6), vec![0, 1, 2, 255, 255, 255]);
}

#[test]
fn what_is_selected_is_largest() {
    for seed in 0..30u64 {
        let x = noise(seed, (seed * 31 % 400) as usize);
        for k in [1usize, 3, 16, 17, 100] {
            let chosen = find_max_indices_scalar(&x, k);
            assert_eq!(chosen.len(), k.min(x.len()));
            assert!(chosen.windows(2).all(|w| w[0] < w[1]));
            for j in 0..x.len() {
                if !chosen.contains(&j) {
                    for &i in &chosen {
                        assert!(x[i] > x[j] || (x[i] == x[j] && i < j));
                    }
                }
            }
        }
    }
}

#[test]
fn packing_loses_no_bit() {
    for seed in 0..20u64 {
        let len = (seed * 5 % 70) as usize;
        let bits: Vec<bool> = noise(seed, len).iter().map(|b| b & 4 != 0).collect();
        let bytes = pack_bits(&bits);
        assert_eq!(bytes.len(), (len + 7) / 8);
        for (p, &bit) in bits.iter().enumerate() {
            assert_eq!(bytes[p / 8] >> (7 - p % 8) & 1 == 1, bit);
        }
        // The bits that fill up the last byte are unset.
        for p in len..bytes.len() * 8 {
            assert_eq!(bytes[p / 8] >> (7 - p % 8) & 1, 0);
        }
    }
}

#[test]
fn z_order_looks_at_top_bits_only() {
    for seed in 0..20u64 {
        let a = noise(seed, 16 + (seed % 5) as usize);
        let mut b: Vec<u8> = a.iter().map(|v| v & 0xC0 | 0x15).collect();
        b.extend_from_slice(&[1, 2, 3]);
        assert_eq!(z_order_value(&a), z_order_value(&b));
        assert_eq!(z_order_q64(&a), z_order_q64(&b));
    }
    assert_ne!(z_order_value(&[0x40]), z_order_value(&[0x40, 0x40]));
}
