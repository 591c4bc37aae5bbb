use vstd::prelude::*;
use crate::u256::{Uint256, limb4};
use crate::types::Hash256;
use crate::model::{Block, BlockHeader, TotalHeader};
use crate::chain::ChainIndex;
use crate::rules::{rule_set_for, spec_rule_set_for};
use crate::validator::{EthereumValidator, ExecutionReport, spec_block_accepted};
use crate::digests::header_hash_of;

verus! {

/// The Ethash epoch length: the DAG is rebuilt every this many blocks.
pub const EPOCH_LENGTH: u64 = 30_000;

/// The façade: owns the header chain and accepts blocks one at a time.
/// The world state, the virtual machine and the proof-of-work DAG are
/// external collaborators: their outputs come in with each block.
pub struct EthereumProcessor {
    pub chain: ChainIndex,
}

/// Exactly when `put` accepts: the parent is stored, the consensus
/// arithmetic stays inside 256 bits (parent difficulty and gas limit below
/// 2^254, height below the bomb-overflow region, cumulative difficulty
/// fits), the block passes all five checks under the rule set its height
/// selects, and its hash is not yet a key of the chain.
pub open spec fn spec_put_accepts(
    chain: ChainIndex,
    block: Block,
    pow_mix_hash: Hash256,
    report: ExecutionReport,
) -> bool {
    let ph = block.header.parent_hash@;
    &&& chain.spec_contains(ph)
    &&& {
        let p = chain.entries@[chain.spec_index_of(ph)].1;
        &&& p.header.difficulty.val() < limb4() / 4
        &&& p.header.gas_limit.val() < limb4() / 4
        &&& block.header.number.val() < 25_600_000
        &&& spec_block_accepted(
            block,
            p.header,
            spec_rule_set_for(block.header.number.val()),
            pow_mix_hash,
            report,
        )
        &&& p.total_difficulty.val() + block.header.difficulty.val() < limb4()
        &&& !chain.spec_contains(header_hash_of(block.header@))
    }
}

impl EthereumProcessor {
    pub open spec fn wf(self) -> bool {
        self.chain.wf()
    }

    /// A processor whose chain holds the given genesis entry.
    pub fn new(genesis: BlockHeader) -> (r: EthereumProcessor)
        requires
            genesis.wf(),
            genesis.number.val() == 0,
        ensures
            r.wf(),
            r.chain.entries@.len() == 1,
            r.chain.entries@[0].1.header == genesis,
            r.chain.entries@[0].1.total_difficulty.val() == genesis.difficulty.val(),
    {
        let total = TotalHeader::from_genesis(genesis);
        EthereumProcessor { chain: ChainIndex::new(total) }
    }

    /// The Ethash epoch of a height; the caller rebuilds its DAG when a
    /// block's epoch differs from the DAG's.
    pub fn epoch_of(number: &Uint256) -> (r: Uint256)
        ensures
            r.val() == number.val() / (EPOCH_LENGTH as int),
    {
        number.div_u64(EPOCH_LENGTH)
    }

    /// Accept or reject one block, given the proof-of-work mix hash that
    /// hashimoto returned for its partial hash and nonce, and the
    /// re-execution report of the virtual machine. Acceptance happens
    /// exactly on the condition `spec_put_accepts` states; it appends the
    /// block's header under its hash with its cumulative difficulty and
    /// keeps every earlier entry; a rejection changes nothing.
    ///
    /// A block is also rejected where the arithmetic of the consensus rules
    /// leaves 256 bits: a height at which the difficulty bomb overflows, or
    /// a cumulative difficulty past 2^256.
    pub fn put(&mut self, block: &Block, pow_mix_hash: &Hash256, report: &ExecutionReport) -> (r:
        bool)
        requires
            old(self).wf(),
            block.wf(),
            pow_mix_hash.wf(),
            report.wf(),
        ensures
            final(self).wf(),
            r == spec_put_accepts(old(self).chain, *block, *pow_mix_hash, *report),
            !r ==> *final(self) == *old(self),
            r ==> final(self).chain.entries@.len() == old(self).chain.entries@.len() + 1
                && final(self).chain.entries@.last().1.header@ == block.header@
                && final(self).chain.entries@.last().0@ == header_hash_of(block.header@),
            r ==> (forall|i: int|
                0 <= i < old(self).chain.entries@.len()
                    ==> #[trigger] final(self).chain.entries@[i] == old(self).chain.entries@[i]),
            r ==> old(self).chain.spec_contains(block.header.parent_hash@),
            r ==> {
                let p = old(self).chain.entries@[old(self).chain.spec_index_of(
                    block.header.parent_hash@,
                )].1;
                &&& spec_block_accepted(
                    *block,
                    p.header,
                    spec_rule_set_for(block.header.number.val()),
                    *pow_mix_hash,
                    *report,
                )
                &&& final(self).chain.entries@.last().1.total_difficulty.val()
                    == p.total_difficulty.val() + block.header.difficulty.val()
            },
    {
        let parent = match self.chain.fetch(&block.header.parent_hash) {
            Some(p) => p,
            None => {
                return false;
            },
        };
        let ghost p_snapshot = *parent;
        proof {
            parent.header.difficulty.lemma_val_bounds_pub();
            parent.header.gas_limit.lemma_val_bounds_pub();
            block.header.number.lemma_val_bounds_pub();
            crate::rules::lemma_limb4_quarter();
        }
        let bound = Uint256::pow2(254);
        if !parent.header.difficulty.lt_val(&bound) {
            return false;
        }
        if !parent.header.gas_limit.lt_val(&bound) {
            return false;
        }
        if !block.header.number.lt_val(&Uint256::from_u64(25_600_000)) {
            return false;
        }
        let rule_set = rule_set_for(&block.header.number);
        let validator = EthereumValidator::new(
            block,
            &parent.header,
            rule_set,
            pow_mix_hash,
            report,
        );
        let verdict = validator.validate();
        proof {
            assert(validator.spec_validate() == spec_block_accepted(
                *block,
                p_snapshot.header,
                spec_rule_set_for(block.header.number.val()),
                *pow_mix_hash,
                *report,
            ));
        }
        if !verdict {
            return false;
        }
        let (wide_sum, carry) = block.header.difficulty.add_wide(&parent.total_difficulty);
        proof {
            crate::rules::lemma_limb4_pos_pub();
            block.header.difficulty.lemma_val_bounds_pub();
            parent.total_difficulty.lemma_val_bounds_pub();
            wide_sum.lemma_val_bounds_pub();
            if carry != 0 {
                assert(carry * limb4() >= limb4()) by (nonlinear_arith)
                    requires
                        carry >= 1,
                        limb4() > 0,
                ;
            } else {
                assert(carry * limb4() == 0) by (nonlinear_arith)
                    requires
                        carry == 0,
                ;
            }
        }
        if carry != 0 {
            return false;
        }
        let parent_total = parent.total_difficulty;
        let total_difficulty = block.header.difficulty.checked_add(&parent_total);
        let total = TotalHeader { header: block.header.duplicate(), total_difficulty };
        proof {
            assert(total.header@ == block.header@);
            assert(header_hash_of(total.header@) == header_hash_of(block.header@));
            assert(total.header.parent_hash@ == block.header.parent_hash@);
            assert(total.header.number.val() == block.header.number.val());
            let j = self.chain.spec_index_of(block.header.parent_hash@);
            assert(self.chain.entries@[j].1 == p_snapshot);
            assert(self.chain.entries@[j].0@ == total.header.parent_hash@
                && self.chain.entries@[j].1.header.number.val() + 1
                == total.header.number.val());
        }
        self.chain.put(total)
    }
}

} // verus!
