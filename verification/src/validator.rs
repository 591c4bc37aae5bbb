use vstd::prelude::*;
use crate::u256::{Uint256, limb4};
use crate::types::{Hash256, keccak_of};
use crate::bloom::{Bloom, bloom_bit, bloom_pos};
use crate::model::{Block, BlockHeader, LogEntry, LogEntryView, SignedTransaction, TxReceipt,
    TxReceiptView};
use crate::rules::{RuleSet, spec_calculate_difficulty, calculate_difficulty};
use crate::digests::{header_hash_of, header_hash, ommers_digest_of, ommers_digest,
    transactions_digest_of, transactions_digest, receipts_digest_of, receipts_digest,
    tx_basic_valid_frontier_of, tx_basic_valid_frontier, tx_basic_valid_homestead_of,
    tx_basic_valid_homestead};

verus! {

/// What the virtual machine reports for one executed transaction: its logs,
/// the gas it really used, and the state root after it.
#[derive(Clone, Debug)]
pub struct TxOutcome {
    pub logs: Vec<LogEntry>,
    pub used_gas: Uint256,
    pub state_root: Hash256,
}

/// The ghost image of a transaction outcome.
pub ghost struct TxOutcomeView {
    pub logs: Seq<LogEntryView>,
    pub used_gas: int,
    pub state_root: Seq<u8>,
}

impl View for TxOutcome {
    type V = TxOutcomeView;

    open spec fn view(&self) -> TxOutcomeView {
        TxOutcomeView {
            logs: self.logs@.map_values(|l: LogEntry| l@),
            used_gas: self.used_gas.val(),
            state_root: self.state_root@,
        }
    }
}

impl TxOutcome {
    pub open spec fn wf(self) -> bool {
        &&& self.state_root.wf()
        &&& forall|i: int| 0 <= i < self.logs@.len() ==> self.logs@[i].wf()
    }
}

/// The virtual machine's report for a whole block: one outcome per
/// transaction in block order, and the state root after the miner and
/// ommer rewards were applied.
#[derive(Clone, Debug)]
pub struct ExecutionReport {
    pub outcomes: Vec<TxOutcome>,
    pub final_root: Hash256,
}

impl ExecutionReport {
    pub open spec fn wf(self) -> bool {
        &&& self.final_root.wf()
        &&& forall|i: int| 0 <= i < self.outcomes@.len() ==> self.outcomes@[i].wf()
    }

    pub open spec fn outcome_views(self) -> Seq<TxOutcomeView> {
        self.outcomes@.map_values(|o: TxOutcome| o@)
    }
}

/// Whether one inserted item selects filter bit `k`.
pub open spec fn spec_item_sets_bit(item: Seq<u8>, k: int) -> bool {
    ||| k == bloom_pos(keccak_of(item), 0)
    ||| k == bloom_pos(keccak_of(item), 1)
    ||| k == bloom_pos(keccak_of(item), 2)
}

/// Whether a log selects filter bit `k` through its address or a topic.
pub open spec fn spec_log_sets_bit(l: LogEntryView, k: int) -> bool {
    ||| spec_item_sets_bit(l.address, k)
    ||| exists|i: int| 0 <= i < l.topics.len() && spec_item_sets_bit(l.topics[i], k)
}

/// Whether any log of the sequence selects filter bit `k`.
pub open spec fn spec_logs_bloom_bit(logs: Seq<LogEntryView>, k: int) -> bool {
    exists|i: int| 0 <= i < logs.len() && spec_log_sets_bit(logs[i], k)
}

/// Byte `j` of the bloom of a log sequence, assembled from its eight bits.
pub open spec fn spec_bloom_byte(logs: Seq<LogEntryView>, j: int) -> u8 {
    ((if spec_logs_bloom_bit(logs, 8 * j) { 1int } else { 0int })
        + (if spec_logs_bloom_bit(logs, 8 * j + 1) { 2int } else { 0int })
        + (if spec_logs_bloom_bit(logs, 8 * j + 2) { 4int } else { 0int })
        + (if spec_logs_bloom_bit(logs, 8 * j + 3) { 8int } else { 0int })
        + (if spec_logs_bloom_bit(logs, 8 * j + 4) { 16int } else { 0int })
        + (if spec_logs_bloom_bit(logs, 8 * j + 5) { 32int } else { 0int })
        + (if spec_logs_bloom_bit(logs, 8 * j + 6) { 64int } else { 0int })
        + (if spec_logs_bloom_bit(logs, 8 * j + 7) { 128int } else { 0int })) as u8
}

/// The 256 bloom bytes of a log sequence.
pub open spec fn spec_bloom_bytes(logs: Seq<LogEntryView>) -> Seq<u8> {
    Seq::new(256, |j: int| spec_bloom_byte(logs, j))
}

/// The receipt that re-execution owes for one transaction outcome.
pub open spec fn spec_receipt_view(o: TxOutcomeView) -> TxReceiptView {
    TxReceiptView {
        state_root: o.state_root,
        used_gas: o.used_gas,
        logs_bloom: spec_bloom_bytes(o.logs),
        logs: o.logs,
    }
}

/// The gas the block's transactions used in total.
pub open spec fn spec_gas_total(os: Seq<TxOutcomeView>) -> int
    decreases os.len(),
{
    if os.len() == 0 {
        0
    } else {
        spec_gas_total(os.drop_last()) + os.last().used_gas
    }
}

/// Whether any transaction's logs select filter bit `k`.
pub open spec fn spec_block_bloom_bit(os: Seq<TxOutcomeView>, k: int) -> bool {
    exists|i: int| 0 <= i < os.len() && spec_logs_bloom_bit(os[i].logs, k)
}

/// A byte is determined by its eight bits.
proof fn lemma_u8_from_bits(x: u8, c0: u8, c1: u8, c2: u8, c3: u8, c4: u8, c5: u8, c6: u8, c7: u8)
    requires
        c0 <= 1 && c1 <= 1 && c2 <= 1 && c3 <= 1 && c4 <= 1 && c5 <= 1 && c6 <= 1 && c7 <= 1,
        (x & 1u8 != 0) == (c0 == 1),
        (x & 2u8 != 0) == (c1 == 1),
        (x & 4u8 != 0) == (c2 == 1),
        (x & 8u8 != 0) == (c3 == 1),
        (x & 16u8 != 0) == (c4 == 1),
        (x & 32u8 != 0) == (c5 == 1),
        (x & 64u8 != 0) == (c6 == 1),
        (x & 128u8 != 0) == (c7 == 1),
    ensures
        x == c0 + c1 * 2 + c2 * 4 + c3 * 8 + c4 * 16 + c5 * 32 + c6 * 64 + c7 * 128,
{
    assert(x == c0 + c1 * 2 + c2 * 4 + c3 * 8 + c4 * 16 + c5 * 32 + c6 * 64 + c7 * 128)
    by (bit_vector)
        requires
            c0 <= 1 && c1 <= 1 && c2 <= 1 && c3 <= 1 && c4 <= 1 && c5 <= 1 && c6 <= 1 && c7 <= 1,
            (x & 1u8 != 0) == (c0 == 1),
            (x & 2u8 != 0) == (c1 == 1),
            (x & 4u8 != 0) == (c2 == 1),
            (x & 8u8 != 0) == (c3 == 1),
            (x & 16u8 != 0) == (c4 == 1),
            (x & 32u8 != 0) == (c5 == 1),
            (x & 64u8 != 0) == (c6 == 1),
            (x & 128u8 != 0) == (c7 == 1),
    ;
}

/// The shift masks for bit offsets below eight.
proof fn lemma_shift_masks()
    ensures
        1u8 << 0u8 == 1u8 && 1u8 << 1u8 == 2u8 && 1u8 << 2u8 == 4u8 && 1u8 << 3u8 == 8u8,
        1u8 << 4u8 == 16u8 && 1u8 << 5u8 == 32u8 && 1u8 << 6u8 == 64u8 && 1u8 << 7u8 == 128u8,
{
    assert(1u8 << 0u8 == 1u8 && 1u8 << 1u8 == 2u8 && 1u8 << 2u8 == 4u8 && 1u8 << 3u8 == 8u8
        && 1u8 << 4u8 == 16u8 && 1u8 << 5u8 == 32u8 && 1u8 << 6u8 == 64u8 && 1u8 << 7u8 == 128u8)
    by (bit_vector);
}

/// A filter whose bits are exactly `spec_logs_bloom_bit` has exactly the
/// bytes `spec_bloom_bytes`.
proof fn lemma_bloom_bytes_determined(bits: Seq<u8>, logs: Seq<LogEntryView>)
    requires
        bits.len() == 256,
        forall|k: int| 0 <= k < 2048 ==> #[trigger] bloom_bit(bits, k) == spec_logs_bloom_bit(
            logs,
            k,
        ),
    ensures
        bits =~= spec_bloom_bytes(logs),
{
    assert forall|j: int| 0 <= j < 256 implies bits[j] == spec_bloom_bytes(logs)[j] by {
        lemma_shift_masks();
        let x = bits[j];
        assert((8 * j) / 8 == j && (8 * j) % 8 == 0);
        assert((8 * j + 1) / 8 == j && (8 * j + 1) % 8 == 1);
        assert((8 * j + 2) / 8 == j && (8 * j + 2) % 8 == 2);
        assert((8 * j + 3) / 8 == j && (8 * j + 3) % 8 == 3);
        assert((8 * j + 4) / 8 == j && (8 * j + 4) % 8 == 4);
        assert((8 * j + 5) / 8 == j && (8 * j + 5) % 8 == 5);
        assert((8 * j + 6) / 8 == j && (8 * j + 6) % 8 == 6);
        assert((8 * j + 7) / 8 == j && (8 * j + 7) % 8 == 7);
        assert(bloom_bit(bits, 8 * j) == (x & 1u8 != 0));
        assert(bloom_bit(bits, 8 * j + 1) == (x & 2u8 != 0));
        assert(bloom_bit(bits, 8 * j + 2) == (x & 4u8 != 0));
        assert(bloom_bit(bits, 8 * j + 3) == (x & 8u8 != 0));
        assert(bloom_bit(bits, 8 * j + 4) == (x & 16u8 != 0));
        assert(bloom_bit(bits, 8 * j + 5) == (x & 32u8 != 0));
        assert(bloom_bit(bits, 8 * j + 6) == (x & 64u8 != 0));
        assert(bloom_bit(bits, 8 * j + 7) == (x & 128u8 != 0));
        let c0: u8 = if spec_logs_bloom_bit(logs, 8 * j) { 1 } else { 0 };
        let c1: u8 = if spec_logs_bloom_bit(logs, 8 * j + 1) { 1 } else { 0 };
        let c2: u8 = if spec_logs_bloom_bit(logs, 8 * j + 2) { 1 } else { 0 };
        let c3: u8 = if spec_logs_bloom_bit(logs, 8 * j + 3) { 1 } else { 0 };
        let c4: u8 = if spec_logs_bloom_bit(logs, 8 * j + 4) { 1 } else { 0 };
        let c5: u8 = if spec_logs_bloom_bit(logs, 8 * j + 5) { 1 } else { 0 };
        let c6: u8 = if spec_logs_bloom_bit(logs, 8 * j + 6) { 1 } else { 0 };
        let c7: u8 = if spec_logs_bloom_bit(logs, 8 * j + 7) { 1 } else { 0 };
        assert((8 * j) % 8 == 0 && (8 * j + 1) % 8 == 1 && (8 * j + 2) % 8 == 2 && (8 * j + 3) % 8
            == 3 && (8 * j + 4) % 8 == 4 && (8 * j + 5) % 8 == 5 && (8 * j + 6) % 8 == 6 && (8 * j
            + 7) % 8 == 7);
        lemma_u8_from_bits(x, c0, c1, c2, c3, c4, c5, c6, c7);
    }
}

/// Insert one log into a bloom: its address, then each topic.
pub fn add_log_to_bloom(filter: &mut Bloom, log: &LogEntry)
    requires
        old(filter).wf(),
        log.wf(),
    ensures
        final(filter).wf(),
        forall|k: int|
            0 <= k < 2048 ==> (#[trigger] bloom_bit(final(filter)@, k)) == (bloom_bit(
                old(filter)@,
                k,
            ) || spec_log_sets_bit(log@, k)),
{
    filter.insert_item(&log.address.b);
    let mut i: usize = 0;
    while i < log.topics.len()
        invariant
            filter.wf(),
            log.wf(),
            i <= log.topics@.len(),
            forall|k: int|
                0 <= k < 2048 ==> (#[trigger] bloom_bit(filter@, k)) == (bloom_bit(
                    old(filter)@,
                    k,
                ) || spec_item_sets_bit(log@.address, k) || exists|t: int|
                    0 <= t < i && spec_item_sets_bit(log@.topics[t], k)),
        decreases log.topics@.len() - i,
    {
        let topic = &log.topics[i];
        proof {
            assert(topic@ == log@.topics[i as int]);
        }
        filter.insert_item(&topic.b);
        let ghost prev = i as int;
        i += 1;
        proof {
            assert forall|k: int|
                0 <= k < 2048 implies bloom_bit(filter@, k) == (bloom_bit(old(filter)@, k)
                    || spec_item_sets_bit(log@.address, k) || exists|t: int|
                    0 <= t < i && spec_item_sets_bit(log@.topics[t], k)) by {
                if bloom_bit(filter@, k) && !bloom_bit(old(filter)@, k) && !spec_item_sets_bit(
                    log@.address, k) {
                    if spec_item_sets_bit(log@.topics[prev], k) {
                        assert(exists|t: int| 0 <= t < i && spec_item_sets_bit(log@.topics[t], k));
                    }
                }
            }
        }
    }
}

/// The bloom of a log sequence: bit `k` is set exactly when some log
/// selects it, and the bytes are pinned by that.
pub fn bloom_for_logs(logs: &Vec<LogEntry>) -> (r: Bloom)
    requires
        forall|i: int| 0 <= i < logs@.len() ==> logs@[i].wf(),
    ensures
        r.wf(),
        forall|k: int|
            0 <= k < 2048 ==> (#[trigger] bloom_bit(r@, k)) == spec_logs_bloom_bit(
                logs@.map_values(|l: LogEntry| l@),
                k,
            ),
        r@ =~= spec_bloom_bytes(logs@.map_values(|l: LogEntry| l@)),
{
    let ghost lv = logs@.map_values(|l: LogEntry| l@);
    let mut filter = Bloom::new();
    let mut i: usize = 0;
    while i < logs.len()
        invariant
            filter.wf(),
            forall|t: int| 0 <= t < logs@.len() ==> logs@[t].wf(),
            lv == logs@.map_values(|l: LogEntry| l@),
            i <= logs@.len(),
            forall|k: int|
                0 <= k < 2048 ==> (#[trigger] bloom_bit(filter@, k)) == exists|t: int|
                    0 <= t < i && spec_log_sets_bit(lv[t], k),
        decreases logs@.len() - i,
    {
        let ghost oldbits = filter@;
        let log_i = &logs[i];
        add_log_to_bloom(&mut filter, log_i);
        let ghost prev = i as int;
        i += 1;
        proof {
            assert(logs@[prev]@ == lv[prev]);
            assert forall|k: int|
                0 <= k < 2048 implies bloom_bit(filter@, k) == exists|t: int|
                    0 <= t < i && spec_log_sets_bit(lv[t], k) by {
                assert(bloom_bit(filter@, k) == (bloom_bit(oldbits, k) || spec_log_sets_bit(
                    log_i@,
                    k,
                )));
                assert(log_i@ == lv[prev]);
                if bloom_bit(filter@, k) {
                    if spec_log_sets_bit(lv[prev], k) {
                        assert(0 <= prev < i && spec_log_sets_bit(lv[prev], k));
                    } else {
                        assert(bloom_bit(oldbits, k));
                        let t = choose|t: int| 0 <= t < prev && spec_log_sets_bit(lv[t], k);
                        assert(0 <= t < i && spec_log_sets_bit(lv[t], k));
                    }
                } else {
                    assert(!bloom_bit(oldbits, k) && !spec_log_sets_bit(lv[prev], k));
                    if exists|t: int| 0 <= t < i && spec_log_sets_bit(lv[t], k) {
                        let t = choose|t: int| 0 <= t < i && spec_log_sets_bit(lv[t], k);
                        if t < prev {
                            assert(bloom_bit(oldbits, k));
                        }
                        assert(false);
                    }
                }
            }
        }
    }
    proof {
        assert forall|k: int| 0 <= k < 2048 implies #[trigger] bloom_bit(filter@, k)
            == spec_logs_bloom_bit(lv, k) by {}
        lemma_bloom_bytes_determined(filter@, lv);
    }
    filter
}

/// The gas-limit drift rule: the new limit stays strictly inside a
/// 1/1024 band around the old one and never below the 5000 floor.
pub open spec fn spec_validate_gas_limit(last: int, this: int) -> bool {
    &&& this < last + last / 1024
    &&& this > last - last / 1024
    &&& this >= 5000
}

/// The gas-limit drift check. The size bound keeps the upper band inside
/// 256 bits; beyond it the comparison has no 256-bit result.
pub fn validate_gas_limit(last_gas_limit: &Uint256, this_gas_limit: &Uint256) -> (r: bool)
    requires
        last_gas_limit.val() + last_gas_limit.val() / 1024 < limb4(),
    ensures
        r == spec_validate_gas_limit(last_gas_limit.val(), this_gas_limit.val()),
{
    let band = last_gas_limit.div_u64(1024);
    let lower = last_gas_limit.checked_sub(&band);
    let upper = last_gas_limit.checked_add(&band);
    proof {
        vstd::arithmetic::div_mod::lemma_fundamental_div_mod(last_gas_limit.val(), 1024);
    }
    this_gas_limit.lt_val(&upper) && lower.lt_val(this_gas_limit) && Uint256::from_u64(5000).le_val(
        this_gas_limit,
    )
}

/// The boundary comparison of proof-of-work: the nonce, taken as a 256-bit
/// value, is at most 2^256 divided by the difficulty.
pub open spec fn spec_nonce_within_boundary(nonce: u64, difficulty: int) -> bool {
    &&& difficulty >= 1
    &&& nonce <= limb4() / difficulty
}

/// Whether the nonce clears the boundary, decided without forming the
/// 2^256-wide quotient: nonce <= 2^256/d exactly when nonce * d <= 2^256.
pub fn nonce_within_boundary(nonce: u64, difficulty: &Uint256) -> (r: bool)
    ensures
        r == spec_nonce_within_boundary(nonce, difficulty.val()),
{
    let zero = Uint256::zero();
    if difficulty.eq_val(&zero) {
        return false;
    }
    let (p, c) = difficulty.mul_u64_wide(nonce);
    proof {
        let d = difficulty.val();
        let n = nonce as int;
        crate::u256::lemma_limb4_pos();
        assert(d >= 1);
        vstd::arithmetic::div_mod::lemma_fundamental_div_mod(limb4(), d as int);
        p.lemma_val_bounds_pub();
        assert((p.val() + c * limb4() <= limb4()) == (n <= limb4() / d)) by (nonlinear_arith)
            requires
                d >= 1,
                n >= 0,
                p.val() + c * limb4() == d * n,
                0 <= p.val() < limb4(),
                c >= 0,
                limb4() == d * (limb4() / d) + limb4() % d,
                0 <= limb4() % d < d,
                limb4() > 0,
        ;
    }
    if c == 0 {
        proof {
            assert(c * limb4() == 0) by (nonlinear_arith)
                requires
                    c == 0,
            ;
        }
        true
    } else if c == 1 {
        proof {
            assert(c * limb4() == limb4()) by (nonlinear_arith)
                requires
                    c == 1,
            ;
        }
        p.eq_val(&zero)
    } else {
        proof {
            assert(c * limb4() >= 2 * limb4()) by (nonlinear_arith)
                requires
                    c >= 2,
                    limb4() > 0,
            ;
        }
        false
    }
}

/// Decides whether one block may extend its parent, given the
/// proof-of-work artifact and the re-execution report.
pub struct EthereumValidator<'a> {
    pub current_block: &'a Block,
    pub parent_header: &'a BlockHeader,
    pub rule_set: RuleSet,
    pub pow_mix_hash: &'a Hash256,
    pub report: &'a ExecutionReport,
}

impl<'a> EthereumValidator<'a> {
    /// The conditions the processor establishes before validating: sound
    /// inputs and the size bounds under which the retarget and drift
    /// arithmetic is defined.
    pub open spec fn wf(self) -> bool {
        &&& self.current_block.wf()
        &&& self.parent_header.wf()
        &&& self.pow_mix_hash.wf()
        &&& self.report.wf()
        &&& self.parent_header.difficulty.val() < limb4() / 4
        &&& self.parent_header.gas_limit.val() < limb4() / 4
        &&& self.current_block.header.number.val() < 25_600_000
        &&& self.rule_set == crate::rules::spec_rule_set_for(self.current_block.header.number.val())
    }

    pub fn new(
        current_block: &'a Block,
        parent_header: &'a BlockHeader,
        rule_set: RuleSet,
        pow_mix_hash: &'a Hash256,
        report: &'a ExecutionReport,
    ) -> (r: EthereumValidator<'a>)
        requires
            current_block.wf(),
            parent_header.wf(),
            pow_mix_hash.wf(),
            report.wf(),
            parent_header.difficulty.val() < limb4() / 4,
            parent_header.gas_limit.val() < limb4() / 4,
            current_block.header.number.val() < 25_600_000,
            rule_set == crate::rules::spec_rule_set_for(current_block.header.number.val()),
        ensures
            r.wf(),
            r.current_block == current_block,
            r.parent_header == parent_header,
            r.rule_set == rule_set,
            r.pow_mix_hash == pow_mix_hash,
            r.report == report,
    {
        EthereumValidator { current_block, parent_header, rule_set, pow_mix_hash, report }
    }

    /// Which transaction validity the rule set asks of every transaction.
    pub open spec fn spec_tx_valid(self, t: crate::model::SignedTransactionView) -> bool {
        if self.rule_set == RuleSet::Frontier {
            tx_basic_valid_frontier_of(t)
        } else {
            tx_basic_valid_homestead_of(t)
        }
    }

    /// The basic check: a parent is named and is the given parent by hash,
    /// the number steps by one, the ommers digest and transactions root
    /// match the block body, and every transaction is basically valid.
    pub open spec fn spec_validate_basic(self) -> bool {
        let h = self.current_block.header;
        &&& h.has_parent()
        &&& h.parent_hash@ == header_hash_of(self.parent_header@)
        &&& h.number.val() == self.parent_header.number.val() + 1
        &&& h.ommers_hash@ == ommers_digest_of(
            self.current_block.ommers@.map_values(|o: BlockHeader| o@),
        )
        &&& h.transactions_root@ == transactions_digest_of(
            self.current_block.transactions@.map_values(|t: SignedTransaction| t@),
        )
        &&& forall|i: int|
            0 <= i < self.current_block.transactions@.len() ==> self.spec_tx_valid(
                self.current_block.transactions@[i]@,
            )
    }

    pub fn validate_basic(&self) -> (r: bool)
        requires
            self.wf(),
        ensures
            r == self.spec_validate_basic(),
    {
        let h = &self.current_block.header;
        if h.number.eq_val(&Uint256::zero()) {
            return false;
        }
        let mut transactions_valid = true;
        let mut i: usize = 0;
        while i < self.current_block.transactions.len()
            invariant
                self.wf(),
                i <= self.current_block.transactions@.len(),
                transactions_valid == forall|t: int|
                    0 <= t < i ==> self.spec_tx_valid(self.current_block.transactions@[t]@),
            decreases self.current_block.transactions@.len() - i,
        {
            let tx = &self.current_block.transactions[i];
            let this_ok = if matches!(self.rule_set, RuleSet::Frontier) {
                tx_basic_valid_frontier(tx)
            } else {
                tx_basic_valid_homestead(tx)
            };
            transactions_valid = transactions_valid && this_ok;
            i += 1;
        }
        let parent_hash_ok = h.parent_hash.eq_bytes(&header_hash(self.parent_header));
        let number_ok = {
            proof {
                self.parent_header.number.lemma_val_bounds_pub();
            }
            if self.parent_header.number.val_fits_after_increment() {
                h.number.eq_val(&self.parent_header.number.checked_add(&Uint256::from_u64(1)))
            } else {
                false
            }
        };
        let ommers_ok = h.ommers_hash.eq_bytes(&ommers_digest(&self.current_block.ommers));
        let txroot_ok = h.transactions_root.eq_bytes(
            &transactions_digest(&self.current_block.transactions),
        );
        parent_hash_ok && number_ok && ommers_ok && txroot_ok && transactions_valid
    }

    /// The timestamp strictly advances and the difficulty equals the rule
    /// set's retarget of the parent's.
    pub open spec fn spec_validate_timestamp_and_difficulty(self) -> bool {
        let h = self.current_block.header;
        let p = self.parent_header;
        &&& h.timestamp > p.timestamp
        &&& h.difficulty.val() == spec_calculate_difficulty(
            self.rule_set,
            p.difficulty.val(),
            h.timestamp - p.timestamp,
            h.number.val(),
        )
    }

    pub fn validate_timestamp_and_difficulty(&self) -> (r: bool)
        requires
            self.wf(),
        ensures
            r == self.spec_validate_timestamp_and_difficulty(),
    {
        let h = &self.current_block.header;
        if h.timestamp <= self.parent_header.timestamp {
            return false;
        }
        let expected = calculate_difficulty(
            self.rule_set,
            &self.parent_header.difficulty,
            self.parent_header.timestamp,
            &h.number,
            h.timestamp,
        );
        h.difficulty.eq_val(&expected)
    }

    /// The proof-of-work check, given the mix hash that hashimoto computed
    /// from the partial header hash and nonce: the mix matches the header
    /// and the nonce clears the difficulty boundary.
    pub open spec fn spec_validate_consensus(self) -> bool {
        let h = self.current_block.header;
        &&& self.pow_mix_hash@ == h.mix_hash@
        &&& spec_nonce_within_boundary(h.nonce, h.difficulty.val())
    }

    pub fn validate_consensus(&self) -> (r: bool)
        requires
            self.wf(),
        ensures
            r == self.spec_validate_consensus(),
    {
        let h = &self.current_block.header;
        let mix_ok = self.pow_mix_hash.eq_bytes(&h.mix_hash);
        let boundary_ok = nonce_within_boundary(h.nonce, &h.difficulty);
        mix_ok && boundary_ok
    }

    pub open spec fn spec_validate_gas_limit(self) -> bool {
        spec_validate_gas_limit(
            self.parent_header.gas_limit.val(),
            self.current_block.header.gas_limit.val(),
        )
    }

    pub fn validate_gas_limit(&self) -> (r: bool)
        requires
            self.wf(),
        ensures
            r == self.spec_validate_gas_limit(),
    {
        proof {
            vstd::arithmetic::div_mod::lemma_fundamental_div_mod(
                self.parent_header.gas_limit.val(),
                1024,
            );
        }
        validate_gas_limit(&self.parent_header.gas_limit, &self.current_block.header.gas_limit)
    }

    /// The state check: one outcome per transaction; the post-reward root,
    /// the receipts root over the owed receipts, the block bloom and the
    /// summed gas all match the header.
    pub open spec fn spec_validate_state(self) -> bool {
        let h = self.current_block.header;
        let os = self.report.outcome_views();
        &&& os.len() == self.current_block.transactions@.len()
        &&& h.state_root@ == self.report.final_root@
        &&& h.receipts_root@ == receipts_digest_of(
            Seq::new(os.len(), |i: int| spec_receipt_view(os[i])),
        )
        &&& forall|k: int|
            0 <= k < 2048 ==> (#[trigger] bloom_bit(h.logs_bloom@, k)) == spec_block_bloom_bit(
                os,
                k,
            )
        &&& h.gas_used.val() == spec_gas_total(os)
    }

    pub fn validate_state(&self) -> (r: bool)
        requires
            self.wf(),
        ensures
            r == self.spec_validate_state(),
    {
        let h = &self.current_block.header;
        let ghost os = self.report.outcome_views();
        if self.report.outcomes.len() != self.current_block.transactions.len() {
            return false;
        }
        let mut receipts: Vec<TxReceipt> = Vec::new();
        let mut block_logs_bloom = Bloom::new();
        let mut block_used_gas = Uint256::zero();
        let mut overflowed = false;
        let mut i: usize = 0;
        while i < self.report.outcomes.len()
            invariant
                self.wf(),
                os == self.report.outcome_views(),
                i <= os.len(),
                receipts@.len() == i,
                forall|t: int| 0 <= t < i ==> #[trigger] receipts@[t].wf(),
                forall|t: int| 0 <= t < i ==> #[trigger] receipts@[t]@ == spec_receipt_view(os[t]),
                block_logs_bloom.wf(),
                forall|k: int|
                    0 <= k < 2048 ==> (#[trigger] bloom_bit(block_logs_bloom@, k))
                        == spec_block_bloom_bit(os.take(i as int), k),
                !overflowed ==> block_used_gas.val() == spec_gas_total(os.take(i as int)),
                overflowed ==> spec_gas_total(os.take(i as int)) >= limb4(),
                spec_gas_total(os.take(i as int)) >= block_used_gas.val(),
                spec_gas_total(os.take(i as int)) >= 0,
            decreases os.len() - i,
        {
            let outcome = &self.report.outcomes[i];
            proof {
                assert(outcome@ == os[i as int]);
            }
            let logs_bloom = bloom_for_logs(&outcome.logs);
            let receipt = TxReceipt {
                state_root: outcome.state_root.duplicate(),
                used_gas: outcome.used_gas,
                logs_bloom: logs_bloom.duplicate(),
                logs: crate::model::clone_logs(&outcome.logs),
            };
            proof {
                assert(receipt@.logs =~~= os[i as int].logs);
                assert(receipt@.logs_bloom =~= spec_bloom_bytes(os[i as int].logs));
                assert(receipt@ =~~= spec_receipt_view(os[i as int]));
            }
            let new_bloom = block_logs_bloom.union(&logs_bloom);
            block_logs_bloom = new_bloom;
            let (sum, carry) = block_used_gas.add_wide(&outcome.used_gas);
            proof {
                crate::rules::lemma_limb4_pos_pub();
                if carry != 0 {
                    assert(carry * limb4() >= limb4()) by (nonlinear_arith)
                        requires
                            carry >= 1,
                            limb4() > 0,
                    ;
                }
            }
            if carry != 0 {
                overflowed = true;
            }
            block_used_gas = sum;
            receipts.push(receipt);
            let ghost prev = i as int;
            i += 1;
            proof {
                assert(os.take(i as int).drop_last() =~~= os.take(prev));
                assert(os.take(i as int).last() == os[prev]);
                assert(spec_gas_total(os.take(i as int)) == spec_gas_total(os.take(prev))
                    + os[prev].used_gas);
                outcome.used_gas.lemma_val_bounds_pub();
                sum.lemma_val_bounds_pub();
                crate::rules::lemma_limb4_pos_pub();
                if carry == 0 {
                    assert(carry * limb4() == 0) by (nonlinear_arith)
                        requires
                            carry == 0,
                    ;
                    assert(sum.val() == block_used_gas.val());
                } else {
                    assert(carry * limb4() >= limb4()) by (nonlinear_arith)
                        requires
                            carry >= 1,
                            limb4() > 0,
                    ;
                }
                assert forall|k: int|
                    0 <= k < 2048 implies bloom_bit(block_logs_bloom@, k) == spec_block_bloom_bit(
                        os.take(i as int),
                        k,
                    ) by {
                    if bloom_bit(block_logs_bloom@, k) {
                        if spec_logs_bloom_bit(os[prev].logs, k) {
                            assert(os.take(i as int)[prev] == os[prev]);
                            assert(exists|t: int|
                                0 <= t < os.take(i as int).len() && spec_logs_bloom_bit(
                                    os.take(i as int)[t].logs,
                                    k,
                                ));
                        } else {
                            let t = choose|t: int|
                                0 <= t < prev && spec_logs_bloom_bit(os.take(prev)[t].logs, k);
                            assert(os.take(i as int)[t] == os[t]);
                        }
                    } else {
                        if spec_block_bloom_bit(os.take(i as int), k) {
                            let t = choose|t: int|
                                0 <= t < os.take(i as int).len() && spec_logs_bloom_bit(
                                    os.take(i as int)[t].logs,
                                    k,
                                );
                            if t < prev {
                                assert(os.take(prev)[t] == os[t]);
                                assert(spec_block_bloom_bit(os.take(prev), k));
                            }
                            assert(false);
                        }
                    }
                }
            }
        }
        proof {
            assert(os.take(os.len() as int) =~~= os);
        }
        let root_ok = h.state_root.eq_bytes(&self.report.final_root);
        let receipts_root = receipts_digest(&receipts);
        proof {
            assert(receipts@.map_values(|x: TxReceipt| x@) =~~= Seq::new(
                os.len(),
                |t: int| spec_receipt_view(os[t]),
            ));
        }
        let receipts_ok = h.receipts_root.eq_bytes(&receipts_root);
        let bloom_ok = h.logs_bloom.eq_bits(&block_logs_bloom);
        let gas_ok = if overflowed {
            proof {
                h.gas_used.lemma_val_bounds_pub();
            }
            false
        } else {
            h.gas_used.eq_val(&block_used_gas)
        };
        proof {
            if !overflowed {
            } else {
                assert(h.gas_used.val() < limb4());
            }
            lemma_bloom_eq_bits(h.logs_bloom@, block_logs_bloom@, os);
        }
        root_ok && receipts_ok && bloom_ok && gas_ok
    }

    /// All five rules hold of the block.
    pub open spec fn spec_validate(self) -> bool {
        &&& self.spec_validate_basic()
        &&& self.spec_validate_timestamp_and_difficulty()
        &&& self.spec_validate_consensus()
        &&& self.spec_validate_gas_limit()
        &&& self.spec_validate_state()
    }

    pub fn validate(&self) -> (r: bool)
        requires
            self.wf(),
        ensures
            r == self.spec_validate(),
    {
        let basic = self.validate_basic();
        let timestamp_and_difficulty = self.validate_timestamp_and_difficulty();
        let consensus = self.validate_consensus();
        let gas_limit = self.validate_gas_limit();
        let state = self.validate_state();
        basic && timestamp_and_difficulty && consensus && gas_limit && state
    }
}

/// The whole acceptance condition of one block against its parent, the
/// selected rule set, the proof-of-work mix hash, and the re-execution
/// report.
pub open spec fn spec_block_accepted(
    block: Block,
    parent: BlockHeader,
    rs: RuleSet,
    mix: Hash256,
    report: ExecutionReport,
) -> bool {
    (EthereumValidator {
        current_block: &block,
        parent_header: &parent,
        rule_set: rs,
        pow_mix_hash: &mix,
        report: &report,
    }).spec_validate()
}

/// Two well-formed filters agree byte for byte exactly when the header's
/// bytes are those that the bit pattern of the block bloom determines.
proof fn lemma_bloom_eq_bits(a: Seq<u8>, b: Seq<u8>, os: Seq<TxOutcomeView>)
    requires
        a.len() == 256,
        b.len() == 256,
        forall|k: int| 0 <= k < 2048 ==> #[trigger] bloom_bit(b, k) == spec_block_bloom_bit(os, k),
    ensures
        (a =~= b) == (forall|k: int|
            0 <= k < 2048 ==> #[trigger] bloom_bit(a, k) == spec_block_bloom_bit(os, k)),
{
    if a =~= b {
        assert forall|k: int| 0 <= k < 2048 implies #[trigger] bloom_bit(a, k)
            == spec_block_bloom_bit(os, k) by {
            assert(bloom_bit(a, k) == bloom_bit(b, k));
        }
    } else {
        if forall|k: int| 0 <= k < 2048 ==> #[trigger] bloom_bit(a, k) == spec_block_bloom_bit(
            os,
            k,
        ) {
            assert forall|j: int| 0 <= j < 256 implies a[j] == b[j] by {
                lemma_shift_masks();
                assert((8 * j) / 8 == j && (8 * j) % 8 == 0);
                assert((8 * j + 1) / 8 == j && (8 * j + 1) % 8 == 1);
                assert((8 * j + 2) / 8 == j && (8 * j + 2) % 8 == 2);
                assert((8 * j + 3) / 8 == j && (8 * j + 3) % 8 == 3);
                assert((8 * j + 4) / 8 == j && (8 * j + 4) % 8 == 4);
                assert((8 * j + 5) / 8 == j && (8 * j + 5) % 8 == 5);
                assert((8 * j + 6) / 8 == j && (8 * j + 6) % 8 == 6);
                assert((8 * j + 7) / 8 == j && (8 * j + 7) % 8 == 7);
                assert(bloom_bit(a, 8 * j) == bloom_bit(b, 8 * j));
                assert(bloom_bit(a, 8 * j + 1) == bloom_bit(b, 8 * j + 1));
                assert(bloom_bit(a, 8 * j + 2) == bloom_bit(b, 8 * j + 2));
                assert(bloom_bit(a, 8 * j + 3) == bloom_bit(b, 8 * j + 3));
                assert(bloom_bit(a, 8 * j + 4) == bloom_bit(b, 8 * j + 4));
                assert(bloom_bit(a, 8 * j + 5) == bloom_bit(b, 8 * j + 5));
                assert(bloom_bit(a, 8 * j + 6) == bloom_bit(b, 8 * j + 6));
                assert(bloom_bit(a, 8 * j + 7) == bloom_bit(b, 8 * j + 7));
                let x = a[j];
                let y = b[j];
                assert(x == y) by (bit_vector)
                    requires
                        (x & 1u8 != 0) == (y & 1u8 != 0),
                        (x & 2u8 != 0) == (y & 2u8 != 0),
                        (x & 4u8 != 0) == (y & 4u8 != 0),
                        (x & 8u8 != 0) == (y & 8u8 != 0),
                        (x & 16u8 != 0) == (y & 16u8 != 0),
                        (x & 32u8 != 0) == (y & 32u8 != 0),
                        (x & 64u8 != 0) == (y & 64u8 != 0),
                        (x & 128u8 != 0) == (y & 128u8 != 0),
                ;
            }
            assert(a =~= b);
        }
    }
}

} // verus!
