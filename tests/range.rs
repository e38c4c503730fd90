use terrapin::{
    aligned_range, attestation_levels, generate_for_bytes, verify_bytes, RangeVerifier,
    Terrapin, VerifyError, BUFFER_CAPACITY,
};

const B: u64 = BUFFER_CAPACITY as u64;

#[test]
fn alignment_rounds_start_down_and_end_up() {
    let len = 5_242_880u64;
    assert_eq!(aligned_range(Some(3_145_728), Some(4_194_304), len), (2_097_152, 4_194_304));
    assert_eq!(aligned_range(Some(3_145_728), Some(4_194_305), len), (2_097_152, 5_242_880));
    assert_eq!(aligned_range(Some(3_145_728), None, len), (2_097_152, 5_242_880));
    assert_eq!(aligned_range(None, None, len), (0, len));
    assert_eq!(aligned_range(None, Some(0), len), (0, 0));
    assert_eq!(aligned_range(Some(10), Some(20), len), (0, B));
}

#[test]
fn passthrough_is_exactly_the_requested_bytes() {
    let data: Vec<u8> = (0..100u32).map(|i| i as u8).collect();
    let att = generate_for_bytes(&data, BUFFER_CAPACITY).unwrap();
    let (ok, out) = verify_bytes(&data, &att, Some(10), Some(20)).unwrap();
    assert!(ok);
    assert_eq!(out, (10u8..20).collect::<Vec<u8>>());
}

#[test]
fn passthrough_across_blocks_trims_first_and_last_only() {
    let data: Vec<u8> = (0..(2 * BUFFER_CAPACITY + 100)).map(|i| (i % 253) as u8).collect();
    let att = generate_for_bytes(&data, BUFFER_CAPACITY).unwrap();
    let start = B - 5;
    let end = 2 * B + 7;
    let (ok, out) = verify_bytes(&data, &att, Some(start), Some(end)).unwrap();
    assert!(ok);
    assert_eq!(out, data[start as usize..end as usize].to_vec());
}

#[test]
fn streaming_feed_reports_block_offsets() {
    let mut v = RangeVerifier::new(Some(10), Some(20), 100).unwrap();
    assert_eq!(v.remaining(), 100);
    assert_eq!(v.feed(&[0u8; 5]), (0, 0));
    assert_eq!(v.feed(&[0u8; 10]), (5, 10));
    assert_eq!(v.feed(&[0u8; 85]), (0, 5));
    assert_eq!(v.remaining(), 0);
}

#[test]
fn end_to_end_zero_filled() {
    let data = vec![0u8; 5_000_000];
    let mut t = Terrapin::new();
    t.add(&data).unwrap();
    let leaf = t.finalize();
    assert_eq!(leaf.len(), 96);
    assert_eq!(generate_for_bytes(&data, BUFFER_CAPACITY).unwrap(), leaf);
    assert_eq!(&leaf[0..32], &leaf[32..64]);
    assert_ne!(&leaf[32..64], &leaf[64..96]);

    let (ok, out) = verify_bytes(&data, &leaf, None, None).unwrap();
    assert!(ok);
    assert_eq!(out.len(), 5_000_000);

    let mut v = RangeVerifier::new(None, Some(2_097_152), 5_000_000).unwrap();
    assert_eq!(v.remaining(), 2_097_152);
    v.feed(&data[..BUFFER_CAPACITY]);
    assert_eq!(v.remaining(), 0);
    assert_eq!(v.finish(&leaf), Ok(true));
    // only the first digest is compared: the rest of the attestation is not read
    let mut short = leaf[..32].to_vec();
    let mut v = RangeVerifier::new(None, Some(2_097_152), 5_000_000).unwrap();
    v.feed(&data[..BUFFER_CAPACITY]);
    assert_eq!(v.finish(&short), Ok(true));
    short.truncate(0);
    let mut v = RangeVerifier::new(None, Some(2_097_152), 5_000_000).unwrap();
    v.feed(&data[..BUFFER_CAPACITY]);
    assert_eq!(v.finish(&short), Err(VerifyError::MalformedAttestation));
}

#[test]
fn tampering_is_detected() {
    let mut data: Vec<u8> = (0..(BUFFER_CAPACITY + 300)).map(|i| (i % 7) as u8).collect();
    let att = generate_for_bytes(&data, BUFFER_CAPACITY).unwrap();
    for pos in [0usize, 1234, BUFFER_CAPACITY - 1, BUFFER_CAPACITY, BUFFER_CAPACITY + 299] {
        data[pos] ^= 0x01;
        let (ok, _) = verify_bytes(&data, &att, None, None).unwrap();
        assert!(!ok);
        data[pos] ^= 0x01;
    }
    let (ok, _) = verify_bytes(&data, &att, None, None).unwrap();
    assert!(ok);
}

#[test]
fn malformed_attestations_are_errors() {
    let data = vec![1u8; 100];
    let att = generate_for_bytes(&data, BUFFER_CAPACITY).unwrap();
    assert_eq!(verify_bytes(&data, &att[..31], None, None), Err(VerifyError::MalformedAttestation));
    assert_eq!(verify_bytes(&data, &[], None, None), Err(VerifyError::MalformedAttestation));
    assert_eq!(
        VerifyError::MalformedAttestation.message(),
        "attestation is malformed or too short for the range"
    );
}

#[test]
fn reversed_range_is_invalid() {
    assert!(matches!(RangeVerifier::new(Some(3 * B), Some(10), 100), Err(VerifyError::InvalidRange)));
    assert_eq!(verify_bytes(&[1u8; 10], &[], Some(3 * B), None), Err(VerifyError::InvalidRange));
    assert_eq!(VerifyError::InvalidRange.message(), "range start lies past its end");
}

#[test]
fn empty_requested_range_succeeds() {
    let data = vec![5u8; 100];
    let att = generate_for_bytes(&data, BUFFER_CAPACITY).unwrap();
    assert_eq!(verify_bytes(&data, &att, None, Some(0)), Ok((true, vec![])));
}

#[test]
fn mismatching_attestation_fails() {
    let data = vec![5u8; 100];
    let other = generate_for_bytes(&[6u8; 100], BUFFER_CAPACITY).unwrap();
    assert_eq!(verify_bytes(&data, &other, None, None).unwrap().0, false);
}

#[test]
fn levels_end_in_one_root() {
    let small = generate_for_bytes(&[1u8; 10], BUFFER_CAPACITY).unwrap();
    let levels = attestation_levels(small.clone());
    assert_eq!(levels, vec![small]);

    assert_eq!(attestation_levels(vec![]), vec![Vec::<u8>::new()]);

    // three blocks of leaf digests: one level above the leaf
    let leaf = vec![9u8; 96];
    let levels = attestation_levels(leaf.clone());
    assert_eq!(levels.len(), 2);
    assert_eq!(levels[0].len(), 32);
    assert_eq!(levels[0], generate_for_bytes(&leaf, BUFFER_CAPACITY).unwrap());
    assert_eq!(levels[1], leaf);

    // 65,537 leaf digests need two levels above the leaf
    let leaf = vec![3u8; 32 * 65_537];
    let levels = attestation_levels(leaf.clone());
    assert_eq!(levels.len(), 3);
    assert_eq!(levels[0].len(), 32);
    assert_eq!(levels[1].len(), 64);
    assert_eq!(levels[2], leaf);
}
