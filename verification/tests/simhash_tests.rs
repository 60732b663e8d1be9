use rand::SeedableRng;
use rand_chacha::ChaCha8Rng;
use rand_distr::{Distribution, Normal};
use rayon::iter::{IntoParallelIterator, ParallelIterator};
use uubed_core::encoders::simhash;
use uubed_core::encoders::simhash_safe;

/// The sides of the fixed random hyperplanes that `embedding` lies on: one
/// bit for each plane, set when the centred embedding has a non-negative dot
/// product with the plane's normal.
fn signs(embedding: &[u8], planes: usize) -> Vec<bool> {
    let mut rng = ChaCha8Rng::seed_from_u64(42);
    let normal = Normal::new(0.0f32, 1.0f32).unwrap();
    let dims = embedding.len();
    let mut matrix: Vec<f32> = Vec::with_capacity(planes * dims);
    for _ in 0..planes * dims {
        matrix.push(normal.sample(&mut rng));
    }
    let centered: Vec<f32> = embedding.iter().map(|&b| (b as f32 - 128.0) / 128.0).collect();
    (0..planes)
        .map(|plane| {
            let row = &matrix[plane * dims..(plane + 1) * dims];
            let dot: f32 = row.iter().zip(&centered).map(|(a, b)| a * b).sum();
            dot >= 0.0
        })
        .collect()
}

fn simhash_q64(embedding: &[u8], planes: usize) -> String {
    simhash::simhash_q64(&signs(embedding, planes))
}

fn simhash(embedding: &[u8], planes: usize) -> Vec<u8> {
    simhash_safe::simhash(&signs(embedding, planes))
}

#[test]
fn test_simhash_deterministic() {
    let embedding = vec![100; 32];
    let hash1 = simhash_q64(&embedding, 64);
    let hash2 = simhash_q64(&embedding, 64);
    assert_eq!(hash1, hash2);
}

#[test]
fn test_simhash_locality() {
    let base = vec![100; 32];
    let mut similar = base.clone();
    similar[0] = 101; // Small change

    let different: Vec<u8> = base.iter().map(|&x| 255 - x).collect();

    let hash1 = simhash_q64(&base, 64);
    let hash2 = simhash_q64(&similar, 64);
    let hash3 = simhash_q64(&different, 64);

    // Count differences
    let diff_similar = hash1.chars().zip(hash2.chars()).filter(|(a, b)| a != b).count();

    let diff_different = hash1.chars().zip(hash3.chars()).filter(|(a, b)| a != b).count();

    assert!(diff_similar < diff_different);
}

#[test]
fn test_simhash_length() {
    let embedding = vec![0; 256];
    let hash = simhash_q64(&embedding, 64);
    assert_eq!(hash.len(), 16); // 64 bits = 8 bytes = 16 q64 chars
}

#[test]
fn test_deterministic() {
    let data = vec![10, 20, 30, 40, 50];
    let hash1 = simhash(&data, 64);
    let hash2 = simhash(&data, 64);
    assert_eq!(hash1, hash2);
}

#[test]
fn test_concurrent_access() {
    // Test parallel access with different embedding sizes
    let results: Vec<_> = (0..100)
        .into_par_iter()
        .map(|i| {
            let size = 10 + (i % 20);
            let embedding: Vec<u8> = (0..size).map(|j| (i + j) as u8).collect();
            simhash(&embedding, 64)
        })
        .collect();

    // Verify we got results for all
    assert_eq!(results.len(), 100);
}

#[test]
fn packs_most_significant_bit_first() {
    let bits = [true, false, false, false, false, false, false, true, true, true];
    assert_eq!(simhash_safe::simhash(&bits), vec![0b1000_0001, 0b1100_0000]);
    assert_eq!(simhash::pack_bits(&[]), Vec::<u8>::new());
    assert_eq!(simhash::pack_bits(&[false, true]), vec![0b0100_0000]);
    assert_eq!(simhash::pack_bits(&[true; 8]), vec![0xFF]);
    // 0x81 0xC0 in Q64
    assert_eq!(simhash::simhash_q64(&bits), "IRsw");
    assert_eq!(simhash_safe::simhash_q64_safe(&bits), "IRsw");
}

#[test]
fn buffer_variants_agree_with_text() {
    let bits: Vec<bool> = (0..37).map(|i| i % 3 == 0).collect();
    let text = simhash::simhash_q64(&bits);
    assert_eq!(text.len(), 10);
    let mut buffer = vec![b'#'; 12];
    assert_eq!(simhash::simhash_to_buffer(&bits, &mut buffer).unwrap(), 10);
    assert_eq!(&buffer[..10], text.as_bytes());
    assert_eq!(&buffer[10..], b"##");
    let mut second = vec![0u8; 10];
    assert_eq!(simhash::simhash_q64_to_buffer(&bits, &mut second), Ok(10));
    assert_eq!(second, text.as_bytes());
    let mut short = vec![b'#'; 9];
    let refused = simhash::simhash_to_buffer(&bits, &mut short).unwrap_err();
    assert_eq!(refused.message, "Output buffer too small: need 10 bytes, got 9");
    assert_eq!(short, vec![b'#'; 9]);
    assert_eq!(
        simhash::simhash_q64_to_buffer(&bits, &mut short),
        Err("Output buffer too small: need 10 bytes, got 9".to_string())
    );
}
