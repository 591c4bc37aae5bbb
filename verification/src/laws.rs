use vstd::prelude::*;
use crate::u256::limb4;
use crate::rules::{RuleSet, spec_calculate_difficulty, MIN_DIFFICULTY};
use crate::validator::{EthereumValidator, spec_nonce_within_boundary, spec_block_bloom_bit,
    spec_gas_total, spec_receipt_view};
use crate::bloom::bloom_bit;
use crate::digests::receipts_digest_of;

verus! {

/// An accepted block's number is one greater than its parent's.
pub proof fn law_number_increments(v: EthereumValidator)
    requires
        v.wf(),
        v.spec_validate(),
    ensures
        v.current_block.header.number.val() == v.parent_header.number.val() + 1,
{
}

/// An accepted block's timestamp strictly exceeds its parent's.
pub proof fn law_timestamp_advances(v: EthereumValidator)
    requires
        v.wf(),
        v.spec_validate(),
    ensures
        v.current_block.header.timestamp > v.parent_header.timestamp,
{
}

/// An accepted block's gas limit drifts by less than a 1024th of its
/// parent's and never falls below 5000.
pub proof fn law_gas_limit_drift(v: EthereumValidator)
    requires
        v.wf(),
        v.spec_validate(),
    ensures
        v.current_block.header.gas_limit.val() - v.parent_header.gas_limit.val()
            < v.parent_header.gas_limit.val() / 1024,
        v.parent_header.gas_limit.val() - v.current_block.header.gas_limit.val()
            < v.parent_header.gas_limit.val() / 1024,
        v.current_block.header.gas_limit.val() >= 5000,
{
}

/// The retarget formula never falls below the difficulty floor, so an
/// accepted block's difficulty is at least 125 000.
pub proof fn law_difficulty_floor(v: EthereumValidator)
    requires
        v.wf(),
        v.spec_validate(),
    ensures
        v.current_block.header.difficulty.val() >= MIN_DIFFICULTY,
{
}

/// The retarget formula alone respects the floor, on every input.
pub proof fn law_retarget_floor(rs: RuleSet, parent_difficulty: int, delta: int, number: int)
    ensures
        spec_calculate_difficulty(rs, parent_difficulty, delta, number) >= MIN_DIFFICULTY,
{
}

/// An accepted block's mix hash is the one hashimoto computed, and its
/// nonce, taken as a 256-bit value, is at most 2^256 over its difficulty.
pub proof fn law_proof_of_work(v: EthereumValidator)
    requires
        v.wf(),
        v.spec_validate(),
    ensures
        v.pow_mix_hash@ == v.current_block.header.mix_hash@,
        spec_nonce_within_boundary(
            v.current_block.header.nonce,
            v.current_block.header.difficulty.val(),
        ),
{
}

/// An accepted block's header carries exactly what re-execution from the
/// parent's state produced: the post-reward state root, the receipts root
/// over the owed receipts, the union of the transactions' blooms, and the
/// summed gas.
pub proof fn law_state_reexecution(v: EthereumValidator)
    requires
        v.wf(),
        v.spec_validate(),
    ensures
        v.report.outcome_views().len() == v.current_block.transactions@.len(),
        v.current_block.header.state_root@ == v.report.final_root@,
        v.current_block.header.receipts_root@ == receipts_digest_of(
            Seq::new(
                v.report.outcome_views().len(),
                |i: int| spec_receipt_view(v.report.outcome_views()[i]),
            ),
        ),
        forall|k: int|
            0 <= k < 2048 ==> (#[trigger] bloom_bit(v.current_block.header.logs_bloom@, k))
                == spec_block_bloom_bit(v.report.outcome_views(), k),
        v.current_block.header.gas_used.val() == spec_gas_total(v.report.outcome_views()),
{
}

} // verus!
