use bataille::rng::RngKeccak256;

const ABC_STATE: [u8; 32] = [
    0x4e, 0x03, 0x65, 0x7a, 0xea, 0x45, 0xa9, 0x4f, 0xc7, 0xd4, 0x7b, 0xa8, 0x26, 0xc8, 0xd6, 0x67,
    0xc0, 0xd1, 0xe6, 0xe3, 0x3a, 0x64, 0xa0, 0x36, 0xec, 0x44, 0xf5, 0x8f, 0xa1, 0x2d, 0x6c, 0x45,
];

const ABC_BLOCK_0: [u8; 32] = [
    0x60, 0x23, 0xf1, 0x44, 0x32, 0x62, 0x56, 0x00, 0x65, 0x51, 0x6b, 0x63, 0x01, 0x42, 0x3b, 0x59,
    0xcd, 0x1a, 0xd3, 0x70, 0xae, 0x3d, 0xa4, 0x69, 0x42, 0x1a, 0xe4, 0xf5, 0x83, 0x86, 0x50, 0xcf,
];

const ABC_BLOCK_1: [u8; 32] = [
    0xb5, 0xbb, 0x12, 0x81, 0x4f, 0xb8, 0xce, 0x37, 0x73, 0xb9, 0xe6, 0x6d, 0x18, 0x5b, 0x9f, 0xfd,
    0xf7, 0x53, 0xcc, 0xba, 0x4d, 0x2b, 0x9d, 0x0c, 0xf6, 0x28, 0x16, 0xe1, 0xc3, 0x03, 0x77, 0x54,
];

#[test]
fn seed_hashes_the_entropy() {
    let rng = RngKeccak256::seed(b"abc");
    assert_eq!(rng.state(), ABC_STATE);
    assert_eq!(rng.counter(), 0);
}

#[test]
fn seed_of_empty_entropy_is_the_digest_of_nothing() {
    let rng = RngKeccak256::seed(b"");
    let expected: [u8; 32] = [
        0xc5, 0xd2, 0x46, 0x01, 0x86, 0xf7, 0x23, 0x3c, 0x92, 0x7e, 0x7d, 0xb2, 0xdc, 0xc7, 0x03,
        0xc0, 0xe5, 0x00, 0xb6, 0x53, 0xca, 0x82, 0x27, 0x3b, 0x7b, 0xfa, 0xd8, 0x04, 0x5d, 0x85,
        0xa4, 0x70,
    ];
    assert_eq!(rng.state(), expected);
}

#[test]
fn rand256_hashes_state_and_counter() {
    let mut rng = RngKeccak256::seed(b"abc");
    assert_eq!(rng.rand256(), ABC_BLOCK_0);
    assert_eq!(rng.counter(), 1);
    assert_eq!(rng.rand256(), ABC_BLOCK_1);
    assert_eq!(rng.counter(), 2);
    assert_eq!(rng.state(), ABC_STATE);
}

#[test]
fn rand256_matches_a_digest_made_by_hand() {
    let mut rng = RngKeccak256::seed(b"some entropy");
    let state = alloy_primitives::keccak256(b"some entropy").0;
    for counter in 0u32..40 {
        let mut input = state.to_vec();
        input.extend_from_slice(&counter.to_be_bytes());
        assert_eq!(rng.rand256(), alloy_primitives::keccak256(&input).0);
    }
}

#[test]
fn same_entropy_gives_the_same_stream() {
    let mut first = RngKeccak256::seed(b"beacon signature");
    let mut second = RngKeccak256::seed(b"beacon signature");
    for _ in 0..200 {
        assert_eq!(first.rand256(), second.rand256());
    }
    assert_eq!(first.next_u32(), second.next_u32());
    assert_eq!(first.next_u64(), second.next_u64());
    assert_eq!(first.index_below(52), second.index_below(52));
    assert_eq!(first.counter(), second.counter());
}

#[test]
fn other_entropy_gives_another_stream() {
    let mut first = RngKeccak256::seed(b"one");
    let mut second = RngKeccak256::seed(b"two");
    assert_ne!(first.rand256(), second.rand256());
}

#[test]
fn blocks_of_one_stream_differ() {
    let mut rng = RngKeccak256::seed(b"abc");
    let a = rng.rand256();
    let b = rng.rand256();
    assert_ne!(a, b);
}

#[test]
fn next_u32_reads_four_bytes_least_significant_first() {
    let mut rng = RngKeccak256::seed(b"abc");
    assert_eq!(rng.next_u32(), 1156653920);
    assert_eq!(rng.counter(), 1);
    let mut again = RngKeccak256::seed(b"abc");
    assert_eq!(again.next_u32(), u32::from_le_bytes([0x60, 0x23, 0xf1, 0x44]));
}

#[test]
fn next_u64_reads_eight_bytes_least_significant_first() {
    let mut rng = RngKeccak256::seed(b"abc");
    assert_eq!(rng.next_u64(), 24314816041657184);
    assert_eq!(rng.next_u64(), 4021354168895847349);
    assert_eq!(rng.counter(), 2);
}

#[test]
fn fill_bytes_joins_blocks_and_cuts_the_last() {
    let mut rng = RngKeccak256::seed(b"abc");
    let mut dest = [0u8; 40];
    rng.fill_bytes(&mut dest);
    assert_eq!(&dest[..32], &ABC_BLOCK_0[..]);
    assert_eq!(&dest[32..], &ABC_BLOCK_1[..8]);
    assert_eq!(rng.counter(), 2);
}

#[test]
fn fill_bytes_of_whole_blocks() {
    let mut rng = RngKeccak256::seed(b"abc");
    let mut dest = [0u8; 64];
    rng.fill_bytes(&mut dest);
    assert_eq!(&dest[..32], &ABC_BLOCK_0[..]);
    assert_eq!(&dest[32..], &ABC_BLOCK_1[..]);
    assert_eq!(rng.counter(), 2);
}

#[test]
fn fill_bytes_of_nothing_uses_no_block() {
    let mut rng = RngKeccak256::seed(b"abc");
    let mut dest: [u8; 0] = [];
    rng.fill_bytes(&mut dest);
    assert_eq!(rng.counter(), 0);
    assert_eq!(rng.rand256(), ABC_BLOCK_0);
}

#[test]
fn fill_bytes_of_a_short_buffer() {
    let mut rng = RngKeccak256::seed(b"abc");
    let mut dest = [0u8; 5];
    rng.fill_bytes(&mut dest);
    assert_eq!(dest, [0x60, 0x23, 0xf1, 0x44, 0x32]);
    assert_eq!(rng.counter(), 1);
}

#[test]
fn try_fill_bytes_fills_and_succeeds() {
    let mut rng = RngKeccak256::seed(b"abc");
    let mut dest = [0u8; 33];
    assert!(rng.try_fill_bytes(&mut dest).is_ok());
    assert_eq!(&dest[..32], &ABC_BLOCK_0[..]);
    assert_eq!(dest[32], ABC_BLOCK_1[0]);
    assert_eq!(rng.counter(), 2);
}

#[test]
fn the_generator_serves_rand() {
    let mut rng = RngKeccak256::seed(b"abc");
    assert_eq!(rand::RngCore::next_u32(&mut rng), 1156653920);
    assert_eq!(rand::RngCore::next_u64(&mut rng), 4021354168895847349);
    let mut dest = [0u8; 4];
    rand::RngCore::fill_bytes(&mut rng, &mut dest);
    let mut third = RngKeccak256::seed(b"abc");
    third.rand256();
    third.rand256();
    assert_eq!(dest, third.rand256()[..4]);
    assert!(rand::RngCore::try_fill_bytes(&mut rng, &mut dest).is_ok());
    assert_eq!(rng.counter(), 4);
}

#[test]
fn index_below_follows_the_sampler() {
    let mut rng = RngKeccak256::seed(b"abc");
    assert_eq!(rng.index_below(52), 14);
    assert_eq!(rng.counter(), 1);
    assert_eq!(RngKeccak256::seed(b"abc").index_below(51), 13);
    assert_eq!(RngKeccak256::seed(b"sigA").index_below(52), 14);
    assert_eq!(RngKeccak256::seed(b"sigB").index_below(51), 20);
}

#[test]
fn index_below_skips_rejected_words() {
    let mut rng = RngKeccak256::seed(b"");
    assert_eq!(rng.index_below(52), 42);
    assert_eq!(rng.counter(), 2);
    let mut other = RngKeccak256::seed(b"seed0");
    assert_eq!(other.index_below(52), 19);
    assert_eq!(other.counter(), 3);
}

#[test]
fn index_below_stays_in_range() {
    for n in 1u32..60 {
        let mut rng = RngKeccak256::seed(&n.to_be_bytes());
        for _ in 0..20 {
            assert!(rng.index_below(n) < n);
        }
    }
}

#[test]
fn index_below_one_is_zero() {
    let mut rng = RngKeccak256::seed(b"x");
    assert_eq!(rng.index_below(1), 0);
    assert_eq!(rng.state(), RngKeccak256::seed(b"x").state());
}
