use gitoid::rustcrypto::Sha256;
use gitoid::{Blob, GitOid};
use terrapin::{
    assemble_digests, block_digest, check_chunk_size, generate_for_bytes, BufferOverflowError,
    FinalizedError, Terrapin, BUFFER_CAPACITY,
};

#[test]
fn new_terrapin() {
    let terrapin = Terrapin::new();
    assert_eq!(terrapin.attestations_len(), 0);
    assert_eq!(terrapin.buffer_len(), 0);
    assert_eq!(terrapin.is_finalized(), false);
}

#[test]
fn add_data() {
    let mut terrapin = Terrapin::new();
    let data = vec![1, 2, 3, 4, 5];
    assert!(terrapin.add(&data).is_ok());
    assert_eq!(terrapin.buffer_len(), data.len());
}

#[test]
fn add_data_when_finalized() {
    let mut terrapin = Terrapin::new();
    terrapin.finalize();
    let data = vec![1, 2, 3, 4, 5];
    let x = terrapin.add(&data).is_err();
    assert!(x);
}

#[test]
fn finalize() {
    let mut terrapin = Terrapin::new();
    let data = vec![1, 2, 3, 4, 5];
    let data_gitoid = GitOid::<Sha256, Blob>::id_bytes(data.as_slice());
    let data_hash = data_gitoid.as_bytes();
    let result = terrapin.add(&data);
    assert!(result.is_ok(), "Adding data to terrapin failed");
    let attestation = terrapin.finalize();
    assert_eq!(attestation.len(), data_hash.len(), "Hash length mismatch");
    assert_eq!(
        &attestation[..data_hash.len()],
        data_hash,
        "Hashed data does not match original data"
    );
}

#[test]
fn finalize_when_already_finalized() {
    let mut terrapin = Terrapin::new();
    let attestation1 = terrapin.finalize();
    let attestation2 = terrapin.finalize();
    assert_eq!(attestation1, attestation2);
}

#[test]
fn generate_for_file_with_zero_chunk_size() {
    let data = b"hello world\n".to_vec();
    let result = generate_for_bytes(&data, 0);
    assert!(result.is_err());
    if let Err(e) = result {
        assert_eq!(e.message(), "chunk size cannot be zero");
    }
}

#[test]
fn finalize_twice_after_data_is_identical() {
    let mut terrapin = Terrapin::new();
    terrapin.add(&vec![7u8; 3_000_000]).unwrap();
    let first = terrapin.finalize();
    let second = terrapin.finalize();
    assert_eq!(first.len(), 64);
    assert_eq!(first, second);
}

#[test]
fn add_after_finalize_reports_error_and_keeps_digests() {
    let mut terrapin = Terrapin::new();
    terrapin.add(b"abc").unwrap();
    let before = terrapin.finalize();
    let err = terrapin.add(b"def").unwrap_err();
    assert_eq!(err, FinalizedError {});
    assert_eq!(err.message(), "terrapin attestor already finalized");
    assert_eq!(terrapin.finalize(), before);
}

#[test]
fn empty_stream_has_no_digests() {
    let mut terrapin = Terrapin::new();
    terrapin.add(&[]).unwrap();
    assert_eq!(terrapin.finalize(), Vec::<u8>::new());
    assert_eq!(generate_for_bytes(&[], BUFFER_CAPACITY).unwrap(), Vec::<u8>::new());
}

#[test]
fn full_block_is_hashed_at_once() {
    let mut terrapin = Terrapin::new();
    terrapin.add(&vec![1u8; BUFFER_CAPACITY]).unwrap();
    assert_eq!(terrapin.buffer_len(), 0);
    assert_eq!(terrapin.attestations_len(), 32);
    terrapin.add(&[2u8; 10]).unwrap();
    assert_eq!(terrapin.buffer_len(), 10);
    assert_eq!(terrapin.attestations_len(), 32);
}

#[test]
fn byte_bulk_and_chunked_generation_agree() {
    let data: Vec<u8> = (0..(BUFFER_CAPACITY + 1000)).map(|i| (i % 251) as u8).collect();

    let mut one_by_one = Terrapin::new();
    for b in &data {
        one_by_one.add(&[*b]).unwrap();
    }
    let a = one_by_one.finalize();

    let mut bulk = Terrapin::new();
    bulk.add(&data).unwrap();
    let b = bulk.finalize();

    let c = generate_for_bytes(&data, BUFFER_CAPACITY).unwrap();

    let digests: Vec<Vec<u8>> = data.chunks(BUFFER_CAPACITY).map(block_digest).collect();
    let d = assemble_digests(&digests);

    assert_eq!(a.len(), 64);
    assert_eq!(a, b);
    assert_eq!(a, c);
    assert_eq!(a, d);
}

#[test]
fn leaf_length_law() {
    for (len, blocks) in [(1usize, 1usize), (5, 1), (2 * 1024, 1), (70_000, 1)] {
        assert_eq!(generate_for_bytes(&vec![0u8; len], BUFFER_CAPACITY).unwrap().len(), blocks * 32);
    }
    assert_eq!(generate_for_bytes(&vec![0u8; 10], 3).unwrap().len(), 4 * 32);
    assert_eq!(generate_for_bytes(&vec![0u8; 9], 3).unwrap().len(), 3 * 32);
}

#[test]
fn same_bytes_hash_the_same() {
    let data = b"the same bytes".to_vec();
    let mut t1 = Terrapin::new();
    t1.add(&data).unwrap();
    let mut t2 = Terrapin::new();
    t2.add(&data).unwrap();
    assert_eq!(t1.finalize(), t2.finalize());
    assert_eq!(block_digest(&data), block_digest(&data));
}

#[test]
fn block_digest_is_gitoid_blob_sha256() {
    let data = b"hello".to_vec();
    let d = block_digest(&data);
    assert_eq!(d.len(), 32);
    assert_ne!(d, data);
    assert_eq!(d.as_slice(), GitOid::<Sha256, Blob>::id_bytes(data.as_slice()).as_bytes());
}

#[test]
fn generation_hashes_each_chunk_in_order() {
    let data = b"abcdefgh".to_vec();
    let r = generate_for_bytes(&data, 3).unwrap();
    let mut expected = block_digest(b"abc");
    expected.extend(block_digest(b"def"));
    expected.extend(block_digest(b"gh"));
    assert_eq!(r, expected);
}

#[test]
fn assemble_keeps_index_order() {
    let digests = vec![vec![1u8, 2], vec![], vec![3u8]];
    assert_eq!(assemble_digests(&digests), vec![1u8, 2, 3]);
}

#[test]
fn chunk_size_check() {
    assert!(check_chunk_size(0).is_err());
    assert!(check_chunk_size(1).is_ok());
    assert_eq!(BufferOverflowError.message(), "Buffer size exceeded 2MB unexpectedly");
}

#[test]
fn adding_nothing_changes_nothing() {
    let mut terrapin = Terrapin::new();
    terrapin.add(&[1u8, 2, 3]).unwrap();
    let (digests, pending) = (terrapin.attestations_len(), terrapin.buffer_len());
    terrapin.add(&[]).unwrap();
    assert_eq!(terrapin.attestations_len(), digests);
    assert_eq!(terrapin.buffer_len(), pending);
    assert_eq!(terrapin.finalize(), block_digest(&[1u8, 2, 3]));
}
