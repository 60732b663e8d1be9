use uubed_core::encoders::mq64::{
    find_last_segment, mq64_decode, mq64_encode, mq64_encode_with_levels, mq64_try_decode,
};
use uubed_core::encoders::q64::{
    build_reverse_lookup, classify_byte, q64_decode, q64_encode, q64_encode_to_buffer,
    q64_try_decode, q64_try_encode_to_buffer, validate_char, Q64Error,
};
use uubed_core::error::Q64ErrorKind;
use uubed_core::encoders::topk::{
    top_k_indices, top_k_indices_parallel, top_k_indices_small, top_k_q64,
};
use uubed_core::encoders::topk_optimized::{
    select_strategy, top_k_indices_heap, top_k_indices_optimized,
    top_k_indices_parallel_optimized, top_k_indices_small_optimized, top_k_q64_optimized,
    top_k_to_buffer, TopKStrategy,
};
use uubed_core::encoders::zorder::{
    u32_be_bytes, z_order_q64, z_order_q64_extended, z_order_q64_fast, z_order_to_buffer,
    z_order_value, z_order_extended_value, z_order_fast_value,
};

/// A small generator of bytes, the same on every run.
fn noise(seed: u64, len: usize) -> Vec<u8> {
    let mut state = seed;
    (0..len)
        .map(|_| {
            state = state.wrapping_mul(6364136223846793005).wrapping_add(1442695040888963407);
            (state >> 56) as u8
        })
        .collect()
}

/// The top-k list by the definition: indices ordered by value, larger first,
/// and by index, lower first; the first k of them in ascending order,
/// clamped, then padded.
fn reference_top_k(embedding: &[u8], k: usize) -> Vec<u8> {
    let mut order: Vec<usize> = (0..embedding.len()).collect();
    order.sort_by(|&a, &b| embedding[b].cmp(&embedding[a]).then(a.cmp(&b)));
    order.truncate(k);
    order.sort();
    let mut out: Vec<u8> = order.iter().map(|&i| i.min(255) as u8).collect();
    out.resize(k, 255);
    out
}

#[test]
fn q64_pins_the_alphabets() {
    assert_eq!(q64_encode(&[0x12, 0x34]), "BSj0");
    assert_eq!(q64_encode(&[0x00, 0x00, 0x00, 0x00]), "AQgwAQgw");
    assert_eq!(q64_encode(&[0xFF, 0xFF]), "Pfv_");
    assert_eq!(q64_encode(&[0x9A, 0xBC, 0xDE]), "Jar8Ne");
    assert_eq!(q64_decode("BSj0").unwrap(), vec![0x12, 0x34]);
}

#[test]
fn q64_round_trips_every_byte() {
    let all: Vec<u8> = (0..=255).collect();
    let encoded = q64_encode(&all);
    assert_eq!(encoded.len(), 512);
    assert_eq!(q64_decode(&encoded).unwrap(), all);
    for seed in 0..20 {
        let data = noise(seed, (seed * 7 % 90) as usize);
        assert_eq!(q64_decode(&q64_encode(&data)).unwrap(), data);
    }
}

#[test]
fn q64_decode_names_each_fault() {
    let odd: Q64Error = q64_decode("ABC").unwrap_err();
    assert_eq!(odd.message, "Q64 string length must be even");
    assert_eq!(odd.to_string(), "Q64 error: Q64 string length must be even");

    let invalid = q64_decode("AQ!w").unwrap_err();
    assert_eq!(invalid.message, "Invalid Q64 character '!' at position 2");

    let high = q64_decode("AQ\u{e9}w").unwrap_err();
    assert_eq!(high.message, "Invalid Q64 character '\u{e9}' at position 2");

    let foreign = q64_decode("A\u{4e2d}").unwrap_err();
    assert_eq!(foreign.message, "Non-ASCII character '\u{4e2d}' at position 1");

    let wrong = q64_decode("QA").unwrap_err();
    assert_eq!(wrong.message, "Character 'Q' from alphabet 1 at position 0 (expected alphabet 0)");

    // The first fault in reading order is the one reported.
    let first = q64_decode("AQg!AQ!w").unwrap_err();
    assert_eq!(first.message, "Invalid Q64 character '!' at position 3");
    let far = q64_decode("AQgwAQgwAQgA").unwrap_err();
    assert_eq!(far.message, "Character 'A' from alphabet 0 at position 11 (expected alphabet 3)");
}

#[test]
fn q64_try_decode_gives_the_kind() {
    assert_eq!(q64_try_decode("ABC"), Err(Q64ErrorKind::OddLength { length: 3 }));
    assert_eq!(q64_try_decode("A\u{4e2d}\u{e9}"), Err(Q64ErrorKind::OddLength { length: 3 }));
    assert_eq!(
        q64_try_decode("AQ!w"),
        Err(Q64ErrorKind::InvalidCharacter { character: '!', position: 2 })
    );
    assert_eq!(
        q64_try_decode("A\u{4e2d}"),
        Err(Q64ErrorKind::InvalidCharacter { character: '\u{4e2d}', position: 1 })
    );
    assert_eq!(
        q64_try_decode("QA"),
        Err(Q64ErrorKind::WrongPosition { character: 'Q', position: 0, expected_alphabet: 0 })
    );
    assert_eq!(
        q64_try_decode("AQgwAQgwAQgA"),
        Err(Q64ErrorKind::WrongPosition { character: 'A', position: 11, expected_alphabet: 3 })
    );
    assert_eq!(q64_try_decode(""), Ok(vec![]));
    assert_eq!(q64_try_decode("BSj0"), Ok(vec![0x12, 0x34]));
    for fault in [
        Q64ErrorKind::OddLength { length: 3 },
        Q64ErrorKind::InvalidCharacter { character: '!', position: 2 },
        Q64ErrorKind::WrongPosition { character: 'z', position: 6, expected_alphabet: 2 },
        Q64ErrorKind::BufferOverflow { required: 8, available: 2 },
    ] {
        let text = Q64Error::from_kind(&fault).message;
        let expected = match fault {
            Q64ErrorKind::OddLength { .. } => "Q64 string length must be even".to_string(),
            Q64ErrorKind::InvalidCharacter { .. } => {
                "Invalid Q64 character '!' at position 2".to_string()
            }
            Q64ErrorKind::WrongPosition { .. } => {
                "Character 'z' from alphabet 3 at position 6 (expected alphabet 2)".to_string()
            }
            Q64ErrorKind::BufferOverflow { .. } => {
                "Output buffer too small: need 8 bytes, got 2".to_string()
            }
        };
        assert_eq!(text, expected);
    }
}

#[test]
fn q64_is_position_safe() {
    let valid = q64_encode(&[0x12, 0x34, 0x56, 0x78]);
    let symbols = "ABCDEFGHIJKLMNOPQRSTUVWXYZabcdefghijklmnopqrstuvwxyz0123456789-_";
    for (p, _) in valid.char_indices() {
        for ch in symbols.chars() {
            let mut changed: Vec<char> = valid.chars().collect();
            changed[p] = ch;
            let changed: String = changed.into_iter().collect();
            let alphabet = match ch {
                'A'..='P' => 0,
                'Q'..='Z' | 'a'..='f' => 1,
                'g'..='v' => 2,
                _ => 3,
            };
            let result = q64_decode(&changed);
            if alphabet == p % 4 {
                assert!(result.is_ok());
            } else {
                assert_eq!(
                    q64_try_decode(&changed),
                    Err(Q64ErrorKind::WrongPosition {
                        character: ch,
                        position: p,
                        expected_alphabet: (p % 4) as u8
                    })
                );
                let text = format!(
                    "Character '{}' from alphabet {} at position {} (expected alphabet {})",
                    ch,
                    alphabet,
                    p,
                    p % 4
                );
                assert_eq!(result.unwrap_err().message, text);
            }
        }
    }
    // Reading a valid string from a shifted offset never succeeds.
    assert!(q64_decode(&valid[1..7]).is_err());
    assert!(q64_decode(&valid[2..]).is_err());
}

#[test]
fn reverse_lookup_knows_the_64_symbols() {
    let table = build_reverse_lookup();
    assert_eq!((0..=255u8).filter(|&c| table.get(c).is_some()).count(), 64);
    assert_eq!(table.get(b'A'), Some((0, 0)));
    assert_eq!(table.get(b'P'), Some((0, 15)));
    assert_eq!(table.get(b'Q'), Some((1, 0)));
    assert_eq!(table.get(b'f'), Some((1, 15)));
    assert_eq!(table.get(b'g'), Some((2, 0)));
    assert_eq!(table.get(b'w'), Some((3, 0)));
    assert_eq!(table.get(b'0'), Some((3, 4)));
    assert_eq!(table.get(b'-'), Some((3, 14)));
    assert_eq!(table.get(b'_'), Some((3, 15)));
    assert_eq!(table.get(b':'), None);
    assert_eq!(validate_char('j', 2, &table), Ok((2, 3)));
    assert_eq!(
        validate_char('j', 3, &table),
        Err(Q64ErrorKind::WrongPosition { character: 'j', position: 3, expected_alphabet: 3 })
    );
    for c in 0..=255u8 {
        assert_eq!(classify_byte(c), table.get(c));
    }
}

#[test]
fn buffer_encoding_leaves_the_rest_alone() {
    let mut buffer = vec![b'#'; 7];
    assert_eq!(q64_encode_to_buffer(&[0x12, 0x34], &mut buffer).unwrap(), 4);
    assert_eq!(buffer, b"BSj0###");
    let mut short = vec![b'#'; 3];
    let refused = q64_encode_to_buffer(&[0x12, 0x34], &mut short).unwrap_err();
    assert_eq!(refused.message, "Output buffer too small: need 4 bytes, got 3");
    assert_eq!(short, b"###");
    assert_eq!(
        q64_try_encode_to_buffer(&[0x12, 0x34], &mut short),
        Err(Q64ErrorKind::BufferOverflow { required: 4, available: 3 })
    );
    assert_eq!(short, b"###");
    let mut exact = vec![0u8; 4];
    assert_eq!(q64_try_encode_to_buffer(&[0x12, 0x34], &mut exact), Ok(4));
    assert_eq!(exact, b"BSj0");
}

#[test]
fn top_k_scenario() {
    let data = [10, 50, 30, 80, 20, 90, 40, 70];
    assert_eq!(top_k_indices(&data, 3), vec![3, 5, 7]);
    assert_eq!(top_k_indices(&[], 4), vec![255; 4]);
    assert_eq!(top_k_indices(&data, 0), Vec::<u8>::new());
    assert_eq!(top_k_q64(&data, 3), q64_encode(&[3, 5, 7]));
    assert_eq!(top_k_q64_optimized(&data, 3), "ATg1AX");
}

#[test]
fn ties_go_to_the_lowest_index() {
    let data = [5u8, 9, 5, 9, 5, 9, 5];
    assert_eq!(top_k_indices(&data, 2), vec![1, 3]);
    assert_eq!(top_k_indices(&data, 4), vec![0, 1, 3, 5]);
    assert_eq!(top_k_indices_small_optimized(&data, 4), vec![0, 1, 3, 5]);
    assert_eq!(top_k_indices_heap(&data, 4), vec![0, 1, 3, 5]);
    assert_eq!(top_k_indices_parallel(&data, 4), vec![0, 1, 3, 5]);
    assert_eq!(top_k_indices_parallel_optimized(&data, 4), vec![0, 1, 3, 5]);
    let flat = vec![7u8; 1000];
    let first: Vec<u8> = (0..20).collect();
    assert_eq!(top_k_indices(&flat, 20), first);
    assert_eq!(top_k_indices_optimized(&flat, 20), first);
    assert_eq!(top_k_indices_heap(&flat, 20), first);
}

#[test]
fn strategies_agree_across_the_thresholds() {
    for (seed, len) in [0usize, 1, 2, 7, 16, 17, 64, 255, 256, 257, 300, 512, 1000, 5000]
        .into_iter()
        .enumerate()
    {
        let data = noise(seed as u64 + 1, len);
        for k in [0usize, 1, 2, 4, 5, 16, 17, 63, 64, 65, 256, 300] {
            let expected = reference_top_k(&data, k);
            assert_eq!(top_k_indices(&data, k), expected, "len {} k {}", len, k);
            assert_eq!(top_k_indices_optimized(&data, k), expected, "len {} k {}", len, k);
            assert_eq!(top_k_indices_small(&data, k), expected, "len {} k {}", len, k);
            assert_eq!(top_k_indices_small_optimized(&data, k), expected, "len {} k {}", len, k);
            assert_eq!(top_k_indices_heap(&data, k), expected, "len {} k {}", len, k);
            assert_eq!(top_k_indices_parallel(&data, k), expected, "len {} k {}", len, k);
            assert_eq!(top_k_indices_parallel_optimized(&data, k), expected, "len {} k {}", len, k);
            assert_eq!(top_k_q64(&data, k).len(), 2 * k);
            assert_eq!(top_k_q64_optimized(&data, k), top_k_q64(&data, k));
        }
    }
}

#[test]
fn indices_past_255_are_clamped() {
    let mut data = vec![0u8; 600];
    data[10] = 9;
    data[255] = 9;
    data[256] = 9;
    data[599] = 9;
    assert_eq!(top_k_indices(&data, 4), vec![10, 255, 255, 255]);
    assert_eq!(top_k_indices_optimized(&data, 4), vec![10, 255, 255, 255]);
    assert_eq!(top_k_indices_optimized(&data, 17)[..5], [0, 1, 2, 3, 4]);
}

#[test]
fn strategy_follows_the_shape() {
    assert_eq!(select_strategy(100, 3), TopKStrategy::Selection);
    assert_eq!(select_strategy(100, 4), TopKStrategy::Selection);
    assert_eq!(select_strategy(100, 5), TopKStrategy::Heap);
    assert_eq!(select_strategy(100, 25), TopKStrategy::Heap);
    assert_eq!(select_strategy(100, 26), TopKStrategy::Selection);
    assert_eq!(select_strategy(100, 1000), TopKStrategy::Selection);
    assert_eq!(select_strategy(256, 64), TopKStrategy::Heap);
    assert_eq!(select_strategy(256, 65), TopKStrategy::Selection);
    assert_eq!(select_strategy(257, 1), TopKStrategy::Heap);
    assert_eq!(select_strategy(257, 16), TopKStrategy::Heap);
    assert_eq!(select_strategy(257, 17), TopKStrategy::ParallelChunks);
    assert_eq!(select_strategy(1_000_000, 100_000), TopKStrategy::ParallelChunks);
}

#[test]
fn top_k_buffer_matches_text() {
    let data = noise(3, 400);
    let text = top_k_q64_optimized(&data, 9);
    let mut buffer = vec![b'#'; 20];
    assert_eq!(top_k_to_buffer(&data, 9, &mut buffer).unwrap(), 18);
    assert_eq!(&buffer[..18], text.as_bytes());
    assert_eq!(&buffer[18..], b"##");
    let mut short = vec![b'#'; 17];
    let refused = top_k_to_buffer(&data, 9, &mut short).unwrap_err();
    assert_eq!(refused.message, "Output buffer too small: need 18 bytes, got 17");
    assert_eq!(short, vec![b'#'; 17]);
}

#[test]
fn z_order_scenario() {
    assert_eq!(z_order_q64(&[]), "AQgwAQgw");
    assert_eq!(z_order_value(&[]), 0);
    // Dimension d puts its top two bits at positions 2d and 2d + 1.
    assert_eq!(z_order_value(&[0b1100_0000]), 0b11);
    assert_eq!(z_order_value(&[0b0100_0000, 0b1000_0000]), 0b1001);
    assert_eq!(z_order_value(&[255, 192, 128, 64]), 0x6F);
    assert_eq!(z_order_value(&[255; 16]), u32::MAX);
    assert_eq!(z_order_value(&[255; 40]), u32::MAX);
    let mut last = vec![0u8; 16];
    last[15] = 0b1000_0000;
    assert_eq!(z_order_value(&last), 0x8000_0000);
    assert_eq!(z_order_value(&[0x3F; 16]), 0);
    assert_eq!(u32_be_bytes(0x1234_5678), [0x12, 0x34, 0x56, 0x78]);
    assert_eq!(z_order_q64(&[255, 192, 128, 64]), q64_encode(&[0, 0, 0, 0x6F]));
    assert_eq!(z_order_q64(&[255; 16]), "Pfv_Pfv_");
}

#[test]
fn z_order_extended_spreads_four_bits() {
    // Bit b of dimension d lands at position 8b + d.
    assert_eq!(z_order_extended_value(&[]), 0);
    assert_eq!(z_order_extended_value(&[0x10]), 1);
    assert_eq!(z_order_extended_value(&[0x20]), 1 << 8);
    assert_eq!(z_order_extended_value(&[0x80]), 1 << 24);
    assert_eq!(z_order_extended_value(&[0xF0]), 0x0101_0101);
    assert_eq!(z_order_extended_value(&[0, 0xF0]), 0x0202_0202);
    assert_eq!(z_order_extended_value(&[0xFF; 8]), u32::MAX);
    assert_eq!(z_order_extended_value(&[0xFF; 9]), u32::MAX);
    assert_eq!(z_order_extended_value(&[0x0F; 8]), 0);
    assert_eq!(z_order_extended_value(&[0xFF, 0xF0, 0x0F, 0x00]), 0x0303_0303);
    assert_eq!(z_order_q64_extended(&[0xF0]), q64_encode(&[1, 1, 1, 1]));
}

#[test]
fn z_order_fast_alternates_the_bits_of_a_pair() {
    assert_eq!(z_order_fast_value(&[]), 0);
    assert_eq!(z_order_fast_value(&[0x40]), 0b0001);
    assert_eq!(z_order_fast_value(&[0x80]), 0b0100);
    assert_eq!(z_order_fast_value(&[0, 0x40]), 0b0010);
    assert_eq!(z_order_fast_value(&[0, 0x80]), 0b1000);
    assert_eq!(z_order_fast_value(&[0, 0, 0xC0]), 0b0101_0000);
    assert_eq!(z_order_fast_value(&[255; 16]), u32::MAX);
    assert_eq!(z_order_fast_value(&[255; 15]), 0x5FFF_FFFF);
    assert_eq!(z_order_fast_value(&[255, 192, 128, 64]), 0x6F);
    // It is another code than the plain one.
    assert_eq!(z_order_value(&[0x80]), 0b0010);
    assert_eq!(z_order_q64_fast(&[0x80]), q64_encode(&[0, 0, 0, 4]));
}

#[test]
fn z_order_buffer() {
    let mut buffer = vec![b'#'; 10];
    assert_eq!(z_order_to_buffer(&[255, 192, 128, 64], &mut buffer).unwrap(), 8);
    assert_eq!(&buffer[..8], z_order_q64(&[255, 192, 128, 64]).as_bytes());
    assert_eq!(&buffer[8..], b"##");
    let mut short = vec![b'#'; 7];
    let refused = z_order_to_buffer(&[1, 2, 3], &mut short).unwrap_err();
    assert_eq!(refused.message, "Output buffer too small: need 8 bytes, got 7");
    assert_eq!(short, vec![b'#'; 7]);
}

#[test]
fn mq64_levels() {
    let data: Vec<u8> = (0..200u8).collect();
    let encoded = mq64_encode(&data);
    let parts: Vec<&str> = encoded.split(':').collect();
    assert_eq!(parts, vec![q64_encode(&data[..64]), q64_encode(&data[..128]), q64_encode(&data)]);
    assert_eq!(mq64_encode(&data[..64]), q64_encode(&data[..64]));
    assert_eq!(
        mq64_encode(&data[..65]),
        format!("{}:{}", q64_encode(&data[..64]), q64_encode(&data[..65]))
    );
    assert_eq!(mq64_encode(&[1, 2]), q64_encode(&[1, 2]));
    assert_eq!(mq64_encode(&[]), "");
    // Levels are taken in the order given; those past the end are skipped.
    assert_eq!(mq64_encode_with_levels(&[1, 2, 3], &[2, 9, 1, 3]), "ARgy:AR:ARgyAT");
    assert_eq!(mq64_encode_with_levels(&[1, 2, 3], &[9]), "");
    assert_eq!(mq64_encode_with_levels(&[1, 2, 3], &[]), "");
    assert_eq!(mq64_encode_with_levels(&[1, 2, 3], &[0, 1]), ":AR");
    assert_eq!(mq64_decode(":AR").unwrap(), vec![1]);
    assert_eq!(mq64_decode("ARgy:AR:ARgyAT").unwrap(), vec![1, 2, 3]);
    // Earlier segments are not looked at.
    assert_eq!(mq64_decode("!!!:AR").unwrap(), vec![1]);
    assert_eq!(mq64_decode("AR:").unwrap(), Vec::<u8>::new());
    assert_eq!(
        mq64_decode("AR:A!").unwrap_err().message,
        "Invalid Q64 character '!' at position 1"
    );
    assert_eq!(
        mq64_try_decode("AR:A!"),
        Err(Q64ErrorKind::InvalidCharacter { character: '!', position: 1 })
    );
    assert_eq!(mq64_try_decode("AR:ARg"), Err(Q64ErrorKind::OddLength { length: 3 }));
    assert_eq!(mq64_try_decode("!:ARgy"), Ok(vec![1, 2]));
    assert_eq!(find_last_segment(""), "");
    assert_eq!(find_last_segment("abc"), "abc");
    assert_eq!(find_last_segment("ab:c\u{e9}:"), "");
    assert_eq!(find_last_segment("\u{4e2d}:b:c\u{e9}"), "c\u{e9}");
}

#[test]
fn block_wise_encoding_is_plain_encoding() {
    for len in [0usize, 1, 16, 17, 40, 64, 100] {
        let data = noise(len as u64, len);
        let mut text = String::from(">");
        uubed_core::encoders::q64::q64_encode_simd(&data, &mut text);
        assert_eq!(text, format!(">{}", q64_encode(&data)));
        let mut plain = String::from(">");
        uubed_core::encoders::q64::q64_encode_scalar(&data, &mut plain);
        assert_eq!(plain, text);
    }
}
