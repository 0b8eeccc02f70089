use salad::sampler::{bit_mask, needed_bytes, sample_from_bytes};

#[test]
fn mask_values() {
    assert_eq!(bit_mask(0), 0);
    assert_eq!(bit_mask(1), 1);
    assert_eq!(bit_mask(2), 3);
    assert_eq!(bit_mask(5), 7);
    assert_eq!(bit_mask(255), 255);
    assert_eq!(bit_mask(256), 511);
    assert_eq!(bit_mask(u32::MAX), u32::MAX);
}

#[test]
fn needed_bytes_values() {
    assert_eq!(needed_bytes(0), 0);
    assert_eq!(needed_bytes(1), 1);
    assert_eq!(needed_bytes(255), 1);
    assert_eq!(needed_bytes(256), 2);
    assert_eq!(needed_bytes(65535), 2);
    assert_eq!(needed_bytes(65536), 3);
    assert_eq!(needed_bytes(16777215), 3);
    assert_eq!(needed_bytes(16777216), 4);
    assert_eq!(needed_bytes(u32::MAX), 4);
}

#[test]
fn sample_zero_bound_needs_no_entropy() {
    assert_eq!(sample_from_bytes(0, &[]), Some(0));
}

#[test]
fn sample_accepts_in_range_and_rejects_above() {
    assert_eq!(sample_from_bytes(2, &[0]), Some(0));
    assert_eq!(sample_from_bytes(2, &[1]), Some(1));
    assert_eq!(sample_from_bytes(2, &[2]), Some(2));
    assert_eq!(sample_from_bytes(2, &[3]), None);
    // The mask keeps only the low bits: 4 & 3 == 0.
    assert_eq!(sample_from_bytes(2, &[4]), Some(0));
}

#[test]
fn sample_reads_bytes_little_endian() {
    assert_eq!(sample_from_bytes(300, &[44, 1]), Some(300));
    assert_eq!(sample_from_bytes(300, &[255, 1]), None);
    // 812 = 44 + 3 * 256; masked with 511 this is 300 again.
    assert_eq!(sample_from_bytes(300, &[44, 3]), Some(300));
}

#[test]
fn sample_never_exceeds_bound() {
    for max in [0u32, 1, 2, 5, 9, 100, 255] {
        for b in 0..=255u8 {
            let bytes = [b];
            let used = &bytes[..needed_bytes(max)];
            if let Some(v) = sample_from_bytes(max, used) {
                assert!(v <= max);
            }
        }
    }
}

#[test]
fn sample_is_uniform_over_full_byte_range() {
    // With max = 2 the mask is 3: each byte value maps to its low two bits,
    // and 3 is rejected.  Over all 256 equally likely bytes each accepted
    // value must therefore be hit exactly as often as the others.
    let mut hits = [0u32; 3];
    let mut rejects = 0u32;
    for b in 0..=255u8 {
        match sample_from_bytes(2, &[b]) {
            Some(v) => hits[v as usize] += 1,
            None => rejects += 1,
        }
    }
    assert_eq!(hits, [64, 64, 64]);
    assert_eq!(rejects, 64);
}

#[test]
fn rejection_rate_is_at_most_half() {
    // The mask stays below twice the bound, so at least half of the masked
    // values are accepted.  Check exhaustively for one-byte bounds.
    for max in 1..=255u32 {
        let mut accepted = 0u32;
        for b in 0..=255u8 {
            if sample_from_bytes(max, &[b]).is_some() {
                accepted += 1;
            }
        }
        assert!(accepted >= 128);
    }
}
