use block_validator::u256::Uint256;
use block_validator::types::{Hash256, AccountAddress, keccak256};
use block_validator::bloom::Bloom;
use block_validator::rules::{RuleSet, rule_set_for, calculate_difficulty, base_reward,
    block_reward, uncle_reward};
use block_validator::validator::{validate_gas_limit, nonce_within_boundary, ExecutionReport};
use block_validator::model::{Block, BlockHeader};
use block_validator::digests::{header_hash, ommers_digest, transactions_digest, receipts_digest};
use block_validator::processor::EthereumProcessor;

fn u(v: u64) -> Uint256 {
    Uint256::from_u64(v)
}

#[test]
fn test_calculate_difficulty() {
    let r = calculate_difficulty(RuleSet::Frontier, &u(17179869184), 0, &u(1), 1438269988);
    assert!(r.eq_val(&u(17171480576)));
    let r = calculate_difficulty(
        RuleSet::Frontier,
        &u(17171480576),
        1438269988,
        &u(2),
        1438270017,
    );
    assert!(r.eq_val(&u(17163096064)));
}

#[test]
fn test_difficulty_floor() {
    // A tiny parent difficulty clamps to the 125 000 floor.
    let r = calculate_difficulty(RuleSet::Frontier, &u(1000), 0, &u(1), 100);
    assert!(r.eq_val(&u(125000)));
    // The floor applies to the sum of base and bomb, not to the base
    // alone: base 1000 plus a bomb of 4 still clamps to the floor.
    let r = calculate_difficulty(RuleSet::Frontier, &u(1000), 0, &u(400_000), 100);
    assert!(r.eq_val(&u(125000)));
}

#[test]
fn test_homestead_retarget() {
    // delta 5 -> +parent/2048; delta 15 -> unchanged; delta 100 ->
    // -9*parent/2048; height 1 200 000 adds a bomb of 2^10.
    let p: u64 = 2048000;
    let bomb: u64 = 1024;
    let r = calculate_difficulty(RuleSet::Homestead, &u(p), 0, &u(1_200_000), 5);
    assert!(r.eq_val(&u(p + 1000 + bomb)));
    let r = calculate_difficulty(RuleSet::Homestead, &u(p), 0, &u(1_200_000), 15);
    assert!(r.eq_val(&u(p + bomb)));
    let r = calculate_difficulty(RuleSet::Homestead, &u(p), 0, &u(1_200_000), 100);
    assert!(r.eq_val(&u(p - 9000 + bomb)));
}

#[test]
fn test_gas_limit_cases() {
    // 5000 sits strictly inside its own band and meets the floor.
    assert!(validate_gas_limit(&u(5000), &u(5000)));
    assert!(!validate_gas_limit(&u(5000), &u(4999)));
    assert!(validate_gas_limit(&u(5_000_000), &u(5_000_000)));
    assert!(!validate_gas_limit(&u(5_000_000), &u(5_000_000 + 5_000_000 / 1024)));
}

#[test]
fn test_rule_set_selection() {
    assert_eq!(rule_set_for(&u(1_149_999)), RuleSet::Frontier);
    assert_eq!(rule_set_for(&u(1_150_000)), RuleSet::Homestead);
    assert_eq!(rule_set_for(&u(2_499_999)), RuleSet::Homestead);
    assert_eq!(rule_set_for(&u(2_500_000)), RuleSet::Eip150);
    assert_eq!(rule_set_for(&u(2_999_999)), RuleSet::Eip150);
    assert_eq!(rule_set_for(&u(3_000_000)), RuleSet::Eip160);
    assert_eq!(rule_set_for(&u(5_000_000)), RuleSet::Eip160);
    assert_eq!(rule_set_for(&u(5_000_001)), RuleSet::Ecip1017);
}

#[test]
fn test_keccak_empty() {
    let d = keccak256(&Vec::new());
    let expected: [u8; 32] = [
        0xc5, 0xd2, 0x46, 0x01, 0x86, 0xf7, 0x23, 0x3c, 0x92, 0x7e, 0x7d, 0xb2, 0xdc, 0xc7, 0x03,
        0xc0, 0xe5, 0x00, 0xb6, 0x53, 0xca, 0x82, 0x27, 0x3b, 0x7b, 0xfa, 0xd8, 0x04, 0x5d, 0x85,
        0xa4, 0x70,
    ];
    assert_eq!(d.as_slice(), &expected);
}

#[test]
fn test_bloom_insert_sets_three_bits() {
    // The Keccak-256 of the empty string starts c5 d2 46 01 86 f7, whose
    // three 16-bit windows give bit positions 1490, 1537 and 1783.
    let mut b = Bloom::new();
    b.insert_item(&Vec::new());
    for (i, byte) in b.b.iter().enumerate() {
        let expected: u8 = match i {
            186 => 1 << 2,  // bit 1490
            192 => 1 << 1,  // bit 1537
            222 => 1 << 7,  // bit 1783
            _ => 0,
        };
        assert_eq!(*byte, expected, "byte {}", i);
    }
}

#[test]
fn test_bloom_union() {
    let mut a = Bloom::new();
    a.set_bit(3);
    let mut b = Bloom::new();
    b.set_bit(9);
    let c = a.union(&b);
    assert_eq!(c.b[0], 1 << 3);
    assert_eq!(c.b[1], 1 << 1);
}

#[test]
fn test_u256_arithmetic() {
    let a = u(u64::MAX);
    let b = a.checked_add(&u(1));
    assert_eq!(b.l0, 0);
    assert_eq!(b.l1, 1);
    let c = b.checked_sub(&u(1));
    assert!(c.eq_val(&a));
    let d = u(1_000_000).mul_u64(1_000_000);
    assert!(d.eq_val(&u(1_000_000_000_000)));
    let q = d.div_u64(1024);
    assert!(q.eq_val(&u(976562500)));
    assert!(u(5).lt_val(&u(6)));
    assert!(!u(6).lt_val(&u(6)));
    let p = Uint256::pow2(70);
    assert_eq!(p.l1, 64);
    assert_eq!(p.l0, 0);
}

#[test]
fn test_rewards() {
    assert_eq!(base_reward(RuleSet::Frontier, &u(100)), 5_000_000_000_000_000_000);
    assert_eq!(base_reward(RuleSet::Ecip1017, &u(5_000_001)), 2_500_000_000_000_000_000);
    let r = block_reward(RuleSet::Homestead, &u(100), 2);
    let per_ommer = 5_000_000_000_000_000_000u64 / 32;
    assert!(r.eq_val(&u(5_000_000_000_000_000_000 + 2 * per_ommer)));
    let ur = uncle_reward(RuleSet::Homestead, &u(100), 1);
    assert!(ur.eq_val(&u(5_000_000_000_000_000_000 / 8 * 7)));
    let ur = uncle_reward(RuleSet::Homestead, &u(100), 9);
    assert!(ur.eq_val(&u(0)));
    let ur = uncle_reward(RuleSet::Ecip1017, &u(5_000_001), 1);
    assert!(ur.eq_val(&u(2_500_000_000_000_000_000 / 32)));
}

#[test]
fn test_nonce_boundary() {
    assert!(!nonce_within_boundary(0, &u(0)));
    assert!(nonce_within_boundary(u64::MAX, &u(1)));
    assert!(nonce_within_boundary(0, &u(17171480576)));
}

fn zero_hash() -> Hash256 {
    Hash256::new(vec![0u8; 32])
}

fn genesis_header() -> BlockHeader {
    BlockHeader {
        parent_hash: zero_hash(),
        ommers_hash: ommers_digest(&Vec::new()),
        beneficiary: AccountAddress::new(vec![0u8; 20]),
        state_root: zero_hash(),
        transactions_root: transactions_digest(&Vec::new()),
        receipts_root: receipts_digest(&Vec::new()),
        logs_bloom: Bloom::new(),
        difficulty: u(17179869184),
        number: u(0),
        gas_limit: u(5_000_000),
        gas_used: u(0),
        timestamp: 0,
        extra_data: Vec::new(),
        mix_hash: zero_hash(),
        nonce: 0,
    }
}

fn child_block(parent: &BlockHeader, state_root: Hash256) -> Block {
    let difficulty = calculate_difficulty(
        RuleSet::Frontier,
        &parent.difficulty,
        parent.timestamp,
        &u(1),
        1438269988,
    );
    Block {
        header: BlockHeader {
            parent_hash: header_hash(parent),
            ommers_hash: ommers_digest(&Vec::new()),
            beneficiary: AccountAddress::new(vec![0u8; 20]),
            state_root,
            transactions_root: transactions_digest(&Vec::new()),
            receipts_root: receipts_digest(&Vec::new()),
            logs_bloom: Bloom::new(),
            difficulty,
            number: u(1),
            gas_limit: u(5_000_000),
            gas_used: u(0),
            timestamp: 1438269988,
            extra_data: Vec::new(),
            mix_hash: Hash256::new(vec![1u8; 32]),
            nonce: 0,
        },
        transactions: Vec::new(),
        ommers: Vec::new(),
    }
}

#[test]
fn test_processor_accepts_valid_block() {
    let genesis = genesis_header();
    let mut processor = EthereumProcessor::new(genesis.duplicate());
    let final_root = Hash256::new(vec![0xABu8; 32]);
    let block = child_block(&genesis, final_root.duplicate());
    let report = ExecutionReport { outcomes: Vec::new(), final_root };
    let mix = Hash256::new(vec![1u8; 32]);
    assert!(processor.put(&block, &mix, &report));
    assert_eq!(processor.chain.entries.len(), 2);
    // Replaying the same block is refused: its hash is already a key.
    assert!(!processor.put(&block, &mix, &report));
}

#[test]
fn test_processor_rejects_unknown_parent() {
    let genesis = genesis_header();
    let mut processor = EthereumProcessor::new(genesis.duplicate());
    let final_root = Hash256::new(vec![0xABu8; 32]);
    let mut block = child_block(&genesis, final_root.duplicate());
    block.header.parent_hash = Hash256::new(vec![7u8; 32]);
    let report = ExecutionReport { outcomes: Vec::new(), final_root };
    let mix = Hash256::new(vec![1u8; 32]);
    assert!(!processor.put(&block, &mix, &report));
}

#[test]
fn test_processor_rejects_bad_number() {
    let genesis = genesis_header();
    let mut processor = EthereumProcessor::new(genesis.duplicate());
    let final_root = Hash256::new(vec![0xABu8; 32]);
    let mut block = child_block(&genesis, final_root.duplicate());
    block.header.number = u(0);
    let report = ExecutionReport { outcomes: Vec::new(), final_root };
    let mix = Hash256::new(vec![1u8; 32]);
    assert!(!processor.put(&block, &mix, &report));
}

#[test]
fn test_processor_rejects_equal_timestamp() {
    let genesis = genesis_header();
    let mut processor = EthereumProcessor::new(genesis.duplicate());
    let final_root = Hash256::new(vec![0xABu8; 32]);
    let mut block = child_block(&genesis, final_root.duplicate());
    block.header.timestamp = 0;
    let report = ExecutionReport { outcomes: Vec::new(), final_root };
    let mix = Hash256::new(vec![1u8; 32]);
    assert!(!processor.put(&block, &mix, &report));
}

#[test]
fn test_processor_rejects_perturbed_state_root() {
    let genesis = genesis_header();
    let mut processor = EthereumProcessor::new(genesis.duplicate());
    let final_root = Hash256::new(vec![0xABu8; 32]);
    let mut wrong = vec![0xABu8; 32];
    wrong[0] ^= 1;
    let block = child_block(&genesis, Hash256::new(wrong));
    let report = ExecutionReport { outcomes: Vec::new(), final_root };
    let mix = Hash256::new(vec![1u8; 32]);
    assert!(!processor.put(&block, &mix, &report));
}

#[test]
fn test_processor_rejects_wrong_mix_hash() {
    let genesis = genesis_header();
    let mut processor = EthereumProcessor::new(genesis.duplicate());
    let final_root = Hash256::new(vec![0xABu8; 32]);
    let block = child_block(&genesis, final_root.duplicate());
    let report = ExecutionReport { outcomes: Vec::new(), final_root };
    let mix = Hash256::new(vec![2u8; 32]);
    assert!(!processor.put(&block, &mix, &report));
}

#[test]
fn test_last_hashes_reverse_order() {
    let genesis = genesis_header();
    let processor = EthereumProcessor::new(genesis.duplicate());
    let hashes = processor.chain.last_hashes(256);
    assert_eq!(hashes.len(), 1);
    assert_eq!(hashes[0].b, header_hash(&genesis).b);
}
