use vstd::prelude::*;
use crate::types::{Hash256, AccountAddress};
use crate::bloom::Bloom;
use crate::u256::Uint256;

verus! {

/// What a transaction does: create a contract, or call an address.
#[derive(Clone, Debug)]
pub enum TxAction {
    Create,
    Call(AccountAddress),
}

/// The ghost image of a transaction action.
pub ghost enum TxActionView {
    Create,
    Call(Seq<u8>),
}

impl View for TxAction {
    type V = TxActionView;

    open spec fn view(&self) -> TxActionView {
        match self {
            TxAction::Create => TxActionView::Create,
            TxAction::Call(a) => TxActionView::Call(a@),
        }
    }
}

impl TxAction {
    pub open spec fn wf(self) -> bool {
        match self {
            TxAction::Create => true,
            TxAction::Call(a) => a.wf(),
        }
    }
}

/// A signed transaction.
#[derive(Clone, Debug)]
pub struct SignedTransaction {
    pub nonce: Uint256,
    pub gas_price: Uint256,
    pub gas_limit: Uint256,
    pub action: TxAction,
    pub value: Uint256,
    pub input: Vec<u8>,
    pub sig_v: u64,
    pub sig_r: Hash256,
    pub sig_s: Hash256,
}

/// The ghost image of a transaction.
pub ghost struct SignedTransactionView {
    pub nonce: int,
    pub gas_price: int,
    pub gas_limit: int,
    pub action: TxActionView,
    pub value: int,
    pub input: Seq<u8>,
    pub sig_v: u64,
    pub sig_r: Seq<u8>,
    pub sig_s: Seq<u8>,
}

impl View for SignedTransaction {
    type V = SignedTransactionView;

    open spec fn view(&self) -> SignedTransactionView {
        SignedTransactionView {
            nonce: self.nonce.val(),
            gas_price: self.gas_price.val(),
            gas_limit: self.gas_limit.val(),
            action: self.action@,
            value: self.value.val(),
            input: self.input@,
            sig_v: self.sig_v,
            sig_r: self.sig_r@,
            sig_s: self.sig_s@,
        }
    }
}

impl SignedTransaction {
    pub open spec fn wf(self) -> bool {
        &&& self.action.wf()
        &&& self.sig_r.wf()
        &&& self.sig_s.wf()
    }
}

/// One log entry of a transaction.
#[derive(Clone, Debug)]
pub struct LogEntry {
    pub address: AccountAddress,
    pub topics: Vec<Hash256>,
    pub data: Vec<u8>,
}

/// The ghost image of a log entry.
pub ghost struct LogEntryView {
    pub address: Seq<u8>,
    pub topics: Seq<Seq<u8>>,
    pub data: Seq<u8>,
}

impl View for LogEntry {
    type V = LogEntryView;

    open spec fn view(&self) -> LogEntryView {
        LogEntryView {
            address: self.address@,
            topics: self.topics@.map_values(|t: Hash256| t@),
            data: self.data@,
        }
    }
}

impl LogEntry {
    pub open spec fn wf(self) -> bool {
        &&& self.address.wf()
        &&& forall|i: int| 0 <= i < self.topics@.len() ==> self.topics@[i].wf()
    }

    /// A copy with the same view.
    pub fn duplicate(&self) -> (r: LogEntry)
        ensures
            r@ == self@,
            self.wf() ==> r.wf(),
    {
        let mut topics: Vec<Hash256> = Vec::new();
        let mut i: usize = 0;
        while i < self.topics.len()
            invariant
                i <= self.topics@.len(),
                topics@.len() == i,
                forall|j: int| 0 <= j < i ==> #[trigger] topics@[j]@ == self.topics@[j]@,
                forall|j: int| 0 <= j < i ==> self.topics@[j].wf() ==> #[trigger] topics@[j].wf(),
            decreases self.topics@.len() - i,
        {
            topics.push(self.topics[i].duplicate());
            i += 1;
        }
        let r = LogEntry {
            address: AccountAddress { b: crate::types::clone_bytes(&self.address.b) },
            topics,
            data: crate::types::clone_bytes(&self.data),
        };
        proof {
            assert(r@.topics =~~= self@.topics);
            assert(r@ =~~= self@);
        }
        r
    }
}

/// A copy of a log list, view for view.
pub fn clone_logs(logs: &Vec<LogEntry>) -> (r: Vec<LogEntry>)
    ensures
        r@.len() == logs@.len(),
        forall|i: int| 0 <= i < logs@.len() ==> #[trigger] r@[i]@ == logs@[i]@,
        forall|i: int| 0 <= i < logs@.len() ==> logs@[i].wf() ==> #[trigger] r@[i].wf(),
        r@.map_values(|l: LogEntry| l@) =~~= logs@.map_values(|l: LogEntry| l@),
{
    let mut r: Vec<LogEntry> = Vec::new();
    let mut i: usize = 0;
    while i < logs.len()
        invariant
            i <= logs@.len(),
            r@.len() == i,
            forall|j: int| 0 <= j < i ==> #[trigger] r@[j]@ == logs@[j]@,
            forall|j: int| 0 <= j < i ==> logs@[j].wf() ==> #[trigger] r@[j].wf(),
        decreases logs@.len() - i,
    {
        r.push(logs[i].duplicate());
        i += 1;
    }
    proof {
        assert(r@.map_values(|l: LogEntry| l@) =~~= logs@.map_values(|l: LogEntry| l@));
    }
    r
}

/// A transaction receipt: post-state root, gas used by this transaction,
/// its logs and their bloom.
#[derive(Clone, Debug)]
pub struct TxReceipt {
    pub state_root: Hash256,
    pub used_gas: Uint256,
    pub logs_bloom: Bloom,
    pub logs: Vec<LogEntry>,
}

/// The ghost image of a receipt.
pub ghost struct TxReceiptView {
    pub state_root: Seq<u8>,
    pub used_gas: int,
    pub logs_bloom: Seq<u8>,
    pub logs: Seq<LogEntryView>,
}

impl View for TxReceipt {
    type V = TxReceiptView;

    open spec fn view(&self) -> TxReceiptView {
        TxReceiptView {
            state_root: self.state_root@,
            used_gas: self.used_gas.val(),
            logs_bloom: self.logs_bloom@,
            logs: self.logs@.map_values(|l: LogEntry| l@),
        }
    }
}

impl TxReceipt {
    pub open spec fn wf(self) -> bool {
        &&& self.state_root.wf()
        &&& self.logs_bloom.wf()
        &&& forall|i: int| 0 <= i < self.logs@.len() ==> self.logs@[i].wf()
    }
}

/// A block header.
#[derive(Clone, Debug)]
pub struct BlockHeader {
    pub parent_hash: Hash256,
    pub ommers_hash: Hash256,
    pub beneficiary: AccountAddress,
    pub state_root: Hash256,
    pub transactions_root: Hash256,
    pub receipts_root: Hash256,
    pub logs_bloom: Bloom,
    pub difficulty: Uint256,
    pub number: Uint256,
    pub gas_limit: Uint256,
    pub gas_used: Uint256,
    pub timestamp: u64,
    pub extra_data: Vec<u8>,
    pub mix_hash: Hash256,
    pub nonce: u64,
}

/// The ghost image of a header.
pub ghost struct BlockHeaderView {
    pub parent_hash: Seq<u8>,
    pub ommers_hash: Seq<u8>,
    pub beneficiary: Seq<u8>,
    pub state_root: Seq<u8>,
    pub transactions_root: Seq<u8>,
    pub receipts_root: Seq<u8>,
    pub logs_bloom: Seq<u8>,
    pub difficulty: int,
    pub number: int,
    pub gas_limit: int,
    pub gas_used: int,
    pub timestamp: u64,
    pub extra_data: Seq<u8>,
    pub mix_hash: Seq<u8>,
    pub nonce: u64,
}

impl View for BlockHeader {
    type V = BlockHeaderView;

    open spec fn view(&self) -> BlockHeaderView {
        BlockHeaderView {
            parent_hash: self.parent_hash@,
            ommers_hash: self.ommers_hash@,
            beneficiary: self.beneficiary@,
            state_root: self.state_root@,
            transactions_root: self.transactions_root@,
            receipts_root: self.receipts_root@,
            logs_bloom: self.logs_bloom@,
            difficulty: self.difficulty.val(),
            number: self.number.val(),
            gas_limit: self.gas_limit.val(),
            gas_used: self.gas_used.val(),
            timestamp: self.timestamp,
            extra_data: self.extra_data@,
            mix_hash: self.mix_hash@,
            nonce: self.nonce,
        }
    }
}

impl BlockHeader {
    /// Fixed-width fields have their widths; extra data fits the 32-byte cap.
    pub open spec fn wf(self) -> bool {
        &&& self.parent_hash.wf()
        &&& self.ommers_hash.wf()
        &&& self.beneficiary.wf()
        &&& self.state_root.wf()
        &&& self.transactions_root.wf()
        &&& self.receipts_root.wf()
        &&& self.logs_bloom.wf()
        &&& self.extra_data@.len() <= 32
        &&& self.mix_hash.wf()
    }

    /// A header names a parent unless it is the genesis header.
    pub open spec fn has_parent(self) -> bool {
        self.number.val() > 0
    }

    /// A copy with the same view.
    pub fn duplicate(&self) -> (r: BlockHeader)
        ensures
            r@ == self@,
            self.wf() ==> r.wf(),
    {
        let r = BlockHeader {
            parent_hash: self.parent_hash.duplicate(),
            ommers_hash: self.ommers_hash.duplicate(),
            beneficiary: self.beneficiary.duplicate(),
            state_root: self.state_root.duplicate(),
            transactions_root: self.transactions_root.duplicate(),
            receipts_root: self.receipts_root.duplicate(),
            logs_bloom: self.logs_bloom.duplicate(),
            difficulty: self.difficulty,
            number: self.number,
            gas_limit: self.gas_limit,
            gas_used: self.gas_used,
            timestamp: self.timestamp,
            extra_data: crate::types::clone_bytes(&self.extra_data),
            mix_hash: self.mix_hash.duplicate(),
            nonce: self.nonce,
        };
        proof {
            assert(r@ == self@);
        }
        r
    }
}

/// A block: header, transactions, ommer headers.
#[derive(Clone, Debug)]
pub struct Block {
    pub header: BlockHeader,
    pub transactions: Vec<SignedTransaction>,
    pub ommers: Vec<BlockHeader>,
}

impl Block {
    pub open spec fn wf(self) -> bool {
        &&& self.header.wf()
        &&& forall|i: int| 0 <= i < self.transactions@.len() ==> self.transactions@[i].wf()
        &&& forall|i: int| 0 <= i < self.ommers@.len() ==> self.ommers@[i].wf()
    }
}

/// A header with its cumulative difficulty: the sum of its own difficulty
/// and its parent's total; a genesis total is its own difficulty.
#[derive(Clone, Debug)]
pub struct TotalHeader {
    pub header: BlockHeader,
    pub total_difficulty: Uint256,
}

impl TotalHeader {
    pub open spec fn wf(self) -> bool {
        self.header.wf()
    }

    /// The genesis entry: cumulative difficulty equal to its own.
    pub fn from_genesis(header: BlockHeader) -> (r: TotalHeader)
        ensures
            r.header == header,
            r.total_difficulty.val() == header.difficulty.val(),
    {
        let total_difficulty = header.difficulty.clone();
        TotalHeader { header, total_difficulty }
    }

    /// A child entry: the child's difficulty plus the parent's total.
    pub fn from_parent(header: BlockHeader, parent: &TotalHeader) -> (r: TotalHeader)
        requires
            header.difficulty.val() + parent.total_difficulty.val() < crate::u256::limb4(),
        ensures
            r.header == header,
            r.total_difficulty.val() == header.difficulty.val()
                + parent.total_difficulty.val(),
    {
        let total_difficulty = header.difficulty.checked_add(&parent.total_difficulty);
        TotalHeader { header, total_difficulty }
    }
}

} // verus!
