use vstd::prelude::*;
use blockchain::chain::HeaderHash;
use crate::types::{Hash256, AccountAddress};
use crate::bloom::Bloom;
use crate::u256::Uint256;
use crate::model::{BlockHeader, BlockHeaderView, SignedTransaction, SignedTransactionView, TxAction, TxReceipt,
    TxReceiptView, LogEntry};

verus! {

#[verifier::external_type_specification]
#[verifier::external_body]
pub struct ExBlockHeader(block::Header);

#[verifier::external_type_specification]
#[verifier::external_body]
pub struct ExBigH256(bigint::H256);

#[verifier::external_type_specification]
#[verifier::external_body]
pub struct ExBigU256(bigint::U256);

#[verifier::external_type_specification]
#[verifier::external_body]
pub struct ExBigGas(bigint::Gas);

#[verifier::external_type_specification]
#[verifier::external_body]
pub struct ExBigAddress(bigint::Address);

#[verifier::external_type_specification]
#[verifier::external_body]
pub struct ExLogsBloom(bloom::LogsBloom);

#[verifier::external_type_specification]
#[verifier::external_body]
pub struct ExBlockTransaction(block::Transaction);

#[verifier::external_type_specification]
#[verifier::external_body]
pub struct ExBlockLog(block::Log);

#[verifier::external_type_specification]
#[verifier::external_body]
pub struct ExBlockReceipt(block::Receipt);

/// Relies on etcommon-bigint's H256: the same 32 bytes.
#[verifier::external_body]
fn ext_h256(x: &Hash256) -> bigint::H256
    requires
        x.wf(),
{
    bigint::H256::from_slice(x.b.as_slice())
}

/// Relies on etcommon-bigint's Address: the same 20 bytes.
#[verifier::external_body]
fn ext_addr(x: &AccountAddress) -> bigint::Address
    requires
        x.wf(),
{
    bigint::Address::from_slice(x.b.as_slice())
}

/// Relies on etcommon-bigint's U256: the same four little-endian limbs.
#[verifier::external_body]
fn ext_u256(x: &Uint256) -> bigint::U256 {
    bigint::U256([x.l0, x.l1, x.l2, x.l3])
}

/// Relies on etcommon-bigint's Gas: the same 256-bit value.
#[verifier::external_body]
fn ext_gas(x: &Uint256) -> bigint::Gas {
    bigint::Gas::from(bigint::U256([x.l0, x.l1, x.l2, x.l3]))
}

/// Relies on etcommon-bloom's LogsBloom: the same 2048 bits.
#[verifier::external_body]
fn ext_bloom(x: &Bloom) -> bloom::LogsBloom
    requires
        x.wf(),
{
    bloom::LogsBloom::from(bigint::H2048::from_slice(x.b.as_slice()))
}

/// Relies on etcommon-block's field layout: the same header, field for
/// field.
#[verifier::external_body]
fn ext_header(h: &BlockHeader) -> block::Header
    requires
        h.wf(),
{
    block::Header {
        parent_hash: ext_h256(&h.parent_hash), ommers_hash: ext_h256(&h.ommers_hash),
        beneficiary: ext_addr(&h.beneficiary), state_root: ext_h256(&h.state_root),
        transactions_root: ext_h256(&h.transactions_root),
        receipts_root: ext_h256(&h.receipts_root), logs_bloom: ext_bloom(&h.logs_bloom),
        difficulty: ext_u256(&h.difficulty), number: ext_u256(&h.number),
        gas_limit: ext_gas(&h.gas_limit), gas_used: ext_gas(&h.gas_used),
        timestamp: h.timestamp, extra_data: bigint::B256::new(h.extra_data.as_slice()),
        mix_hash: ext_h256(&h.mix_hash),
        nonce: bigint::H64::from_slice(&h.nonce.to_be_bytes()),
    }
}

/// Relies on etcommon-block's field layout: the same transaction, field
/// for field.
#[verifier::external_body]
fn ext_transaction(t: &SignedTransaction) -> block::Transaction
    requires
        t.wf(),
{
    block::Transaction {
        nonce: ext_u256(&t.nonce), gas_price: ext_gas(&t.gas_price),
        gas_limit: ext_gas(&t.gas_limit),
        action: match &t.action {
            TxAction::Create => block::TransactionAction::Create,
            TxAction::Call(a) => block::TransactionAction::Call(ext_addr(a)),
        },
        value: ext_u256(&t.value),
        signature: block::TransactionSignature {
            v: t.sig_v, r: ext_h256(&t.sig_r), s: ext_h256(&t.sig_s),
        },
        input: t.input.clone(),
    }
}

/// Relies on etcommon-block's field layout: the same receipt, its logs
/// converted one for one.
#[verifier::external_body]
fn ext_receipt(r: &TxReceipt) -> block::Receipt
    requires
        r.wf(),
{
    block::Receipt {
        state_root: ext_h256(&r.state_root), used_gas: ext_gas(&r.used_gas),
        logs_bloom: ext_bloom(&r.logs_bloom),
        logs: r.logs.iter().map(ext_log).collect(),
    }
}

/// Relies on etcommon-block's field layout: the same log, field for field.
#[verifier::external_body]
fn ext_log(l: &LogEntry) -> block::Log
    requires
        l.wf(),
{
    block::Log {
        address: ext_addr(&l.address),
        topics: l.topics.iter().map(|t: &Hash256| ext_h256(t)).collect(),
        data: l.data.clone(),
    }
}

/// The header hash: Keccak-256 of the RLP of the full header.
pub uninterp spec fn header_hash_of(h: BlockHeaderView) -> Seq<u8>;

/// The partial header hash: Keccak-256 of the RLP of the header with
/// mix hash and nonce elided.
pub uninterp spec fn partial_hash_of(h: BlockHeaderView) -> Seq<u8>;

/// The ommers digest: Keccak-256 of the RLP of the ommer header list.
pub uninterp spec fn ommers_digest_of(ommers: Seq<BlockHeaderView>) -> Seq<u8>;

/// The transactions trie root over the RLP of each transaction.
pub uninterp spec fn transactions_digest_of(txs: Seq<SignedTransactionView>) -> Seq<u8>;

/// The receipts trie root over the RLP of each receipt.
pub uninterp spec fn receipts_digest_of(receipts: Seq<TxReceiptView>) -> Seq<u8>;

/// Basic validity of a transaction under Frontier validation rules:
/// recoverable signature and value bounds, per etcommon-block.
pub uninterp spec fn tx_basic_valid_frontier_of(t: SignedTransactionView) -> bool;

/// Basic validity of a transaction under Homestead-and-later validation
/// rules, which additionally require a low signature `s`.
pub uninterp spec fn tx_basic_valid_homestead_of(t: SignedTransactionView) -> bool;

/// Relies on etcommon-block's HeaderHash::header_hash: Keccak-256 of the
/// header's RLP, a function of the header fields alone.
#[verifier::external_body]
pub fn header_hash(h: &BlockHeader) -> (r: Hash256)
    requires
        h.wf(),
    ensures
        r.wf(),
        r@ == header_hash_of(h@),
{
    Hash256 { b: ext_header(h).header_hash().as_ref().to_vec() }
}

/// Relies on etcommon-block's BlockHeader::partial_hash: Keccak-256 of the
/// 13-field RLP, a function of the header fields alone.
#[verifier::external_body]
pub fn partial_hash(h: &BlockHeader) -> (r: Hash256)
    requires
        h.wf(),
    ensures
        r.wf(),
        r@ == partial_hash_of(h@),
{
    Hash256 { b: ext_header(h).partial_hash().as_ref().to_vec() }
}

/// Relies on etcommon-block's ommers_hash, a function of the headers alone.
#[verifier::external_body]
pub fn ommers_digest(ommers: &Vec<BlockHeader>) -> (r: Hash256)
    requires
        forall|i: int| 0 <= i < ommers@.len() ==> ommers@[i].wf(),
    ensures
        r.wf(),
        r@ == ommers_digest_of(ommers@.map_values(|h: BlockHeader| h@)),
{
    let v: Vec<block::Header> = ommers.iter().map(ext_header).collect();
    Hash256 { b: block::ommers_hash(v.as_slice()).as_ref().to_vec() }
}

/// Relies on etcommon-block's transactions_root, a function of the
/// transactions alone.
#[verifier::external_body]
pub fn transactions_digest(txs: &Vec<SignedTransaction>) -> (r: Hash256)
    requires
        forall|i: int| 0 <= i < txs@.len() ==> txs@[i].wf(),
    ensures
        r.wf(),
        r@ == transactions_digest_of(txs@.map_values(|t: SignedTransaction| t@)),
{
    let v: Vec<block::Transaction> = txs.iter().map(ext_transaction).collect();
    Hash256 { b: block::transactions_root(v.as_slice()).as_ref().to_vec() }
}

/// Relies on etcommon-block's receipts_root, a function of the receipts
/// alone.
#[verifier::external_body]
pub fn receipts_digest(receipts: &Vec<TxReceipt>) -> (r: Hash256)
    requires
        forall|i: int| 0 <= i < receipts@.len() ==> receipts@[i].wf(),
    ensures
        r.wf(),
        r@ == receipts_digest_of(receipts@.map_values(|x: TxReceipt| x@)),
{
    let v: Vec<block::Receipt> = receipts.iter().map(ext_receipt).collect();
    Hash256 { b: block::receipts_root(v.as_slice()).as_ref().to_vec() }
}

/// Relies on etcommon-block's SignedTransaction::is_basic_valid with the classic
/// signature rules and Frontier validation rules, a function of the
/// transaction alone.
#[verifier::external_body]
pub fn tx_basic_valid_frontier(t: &SignedTransaction) -> (r: bool)
    requires
        t.wf(),
    ensures
        r == tx_basic_valid_frontier_of(t@),
{
    ext_transaction(t).is_basic_valid::<block::ClassicSignaturePatch, block::FrontierValidationPatch>()
}

/// Relies on etcommon-block's SignedTransaction::is_basic_valid with the classic
/// signature rules and Homestead validation rules, a function of the
/// transaction alone.
#[verifier::external_body]
pub fn tx_basic_valid_homestead(t: &SignedTransaction) -> (r: bool)
    requires
        t.wf(),
    ensures
        r == tx_basic_valid_homestead_of(t@),
{
    ext_transaction(t).is_basic_valid::<block::ClassicSignaturePatch, block::HomesteadValidationPatch>()
}

} // verus!
