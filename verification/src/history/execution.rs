//! Frames from which post-Merge execution RPC can be reconstructed.

use crate::frame::{BlockFrame, HeaderEnvelope, Material, ReceiptEnvelope, TransactionEnvelope};
use crate::history::job::{RawHistoryJobSpec, RawHistoryProfile};
use crate::primitives::{Address, BlockHash, Quantity, TransactionHash};
use vstd::prelude::*;

verus! {

/// What a canonical header says.
#[derive(Clone, Copy, Debug)]
pub struct DecodedHeader {
    pub trailing_bytes: usize,
    pub hash: BlockHash,
    pub number: u64,
    pub parent_hash: BlockHash,
    pub timestamp: u64,
    pub ommers_hash: BlockHash,
    pub transactions_root: BlockHash,
    pub receipts_root: BlockHash,
    pub withdrawals_root: Option<BlockHash>,
    pub gas_limit: u64,
    pub gas_used: u64,
    pub base_fee_per_gas: Option<u64>,
    pub blob_gas_used: Option<u64>,
    pub excess_blob_gas: Option<u64>,
}

/// What a canonical transaction says of itself, and who signed it.
#[derive(Clone, Copy, Debug)]
pub struct DecodedTransaction {
    pub hash: TransactionHash,
    pub signer: Option<Address>,
}

/// The header that alloy reads from the front of these bytes.
pub uninterp spec fn header_decoded(encoded: Seq<u8>) -> Option<DecodedHeader>;

/// The transaction that alloy reads from exactly these bytes.
pub uninterp spec fn transaction_decoded(encoded: Seq<u8>) -> Option<DecodedTransaction>;

/// Whether alloy reads a receipt from exactly these bytes.
pub uninterp spec fn receipt_decodes(encoded: Seq<u8>) -> bool;

/// Calls `alloy_consensus::Header::decode`, and on what it read `hash_slow`.
/// Claims that the fields, the hash and the number of bytes left over are a
/// function of the bytes, with none where they are no header.
#[verifier::external_body]
fn decode_header(encoded: &[u8]) -> (header: Option<DecodedHeader>)
    ensures
        header == header_decoded(encoded@),
{
    let mut input = encoded;
    let decoded = <alloy_consensus::Header as alloy_rlp::Decodable>::decode(&mut input).ok()?;
    Some(DecodedHeader {
        trailing_bytes: input.len(), hash: BlockHash(decoded.hash_slow().0), number: decoded.number,
        parent_hash: BlockHash(decoded.parent_hash.0), timestamp: decoded.timestamp,
        ommers_hash: BlockHash(decoded.ommers_hash.0),
        transactions_root: BlockHash(decoded.transactions_root.0),
        receipts_root: BlockHash(decoded.receipts_root.0),
        withdrawals_root: decoded.withdrawals_root.map(|root| BlockHash(root.0)),
        gas_limit: decoded.gas_limit, gas_used: decoded.gas_used,
        base_fee_per_gas: decoded.base_fee_per_gas, blob_gas_used: decoded.blob_gas_used,
        excess_blob_gas: decoded.excess_blob_gas,
    })
}

/// Calls `TxEnvelope::decode_2718_exact` of alloy, and on what it read
/// `tx_hash` and `recover_signer`. Claims that hash and signer are a function
/// of the bytes: nothing where they are no transaction, and no signer where
/// the signature gives none.
#[verifier::external_body]
fn decode_transaction(encoded: &[u8]) -> (transaction: Option<DecodedTransaction>)
    ensures
        transaction == transaction_decoded(encoded@),
{
    let decoded = <alloy_consensus::TxEnvelope as alloy_eips::eip2718::Decodable2718>::decode_2718_exact(
        encoded,
    ).ok()?;
    let signer = alloy_consensus::transaction::SignerRecoverable::recover_signer(&decoded).ok();
    Some(DecodedTransaction {
        hash: TransactionHash(decoded.tx_hash().0),
        signer: signer.map(|address| Address(address.into_array())),
    })
}

/// Calls `ReceiptEnvelope::decode_2718_exact` of alloy. Claims that its
/// success is a function of the bytes.
#[verifier::external_body]
fn decode_receipt(encoded: &[u8]) -> (valid: bool)
    ensures
        valid == receipt_decodes(encoded@),
{
    <alloy_consensus::ReceiptEnvelope as alloy_eips::eip2718::Decodable2718>::decode_2718_exact(
        encoded,
    ).is_ok()
}

/// The hash of an empty list of ommers.
pub open spec fn empty_ommers() -> Seq<u8> {
    seq![
        0x1du8, 0xccu8, 0x4du8, 0xe8u8, 0xdeu8, 0xc7u8, 0x5du8, 0x7au8, 0xabu8, 0x85u8, 0xb5u8,
        0x67u8, 0xb6u8, 0xccu8, 0xd4u8, 0x1au8, 0xd3u8, 0x12u8, 0x45u8, 0x1bu8, 0x94u8, 0x8au8,
        0x74u8, 0x13u8, 0xf0u8, 0xa1u8, 0x42u8, 0xfdu8, 0x40u8, 0xd4u8, 0x93u8, 0x47u8,
    ]
}

/// The hash of an empty list of ommers.
pub fn empty_ommers_hash() -> (hash: BlockHash)
    ensures
        hash.0@ == empty_ommers(),
{
    let bytes: [u8; 32] = [
        0x1d, 0xcc, 0x4d, 0xe8, 0xde, 0xc7, 0x5d, 0x7a, 0xab, 0x85, 0xb5, 0x67, 0xb6, 0xcc, 0xd4,
        0x1a, 0xd3, 0x12, 0x45, 0x1b, 0x94, 0x8a, 0x74, 0x13, 0xf0, 0xa1, 0x42, 0xfd, 0x40, 0xd4,
        0x93, 0x47,
    ];
    proof {
        assert(bytes@ =~= empty_ommers());
    }
    BlockHash(bytes)
}

/// The normalized fields of a block are those that its canonical header has,
/// which leaves no byte over and commits to no ommers.
pub open spec fn header_agrees(
    frame: BlockFrame,
    header: HeaderEnvelope,
    decoded: DecodedHeader,
) -> bool {
    &&& decoded.trailing_bytes == 0
    &&& decoded.hash == frame.block.hash
    &&& decoded.number == frame.block.number.0
    &&& decoded.parent_hash == frame.block.parent_hash
    &&& decoded.timestamp == frame.block.timestamp
    &&& decoded.ommers_hash.0@ == empty_ommers()
    &&& header.transactions_root == Some(decoded.transactions_root)
    &&& header.receipts_root == Some(decoded.receipts_root)
    &&& header.withdrawals_root == decoded.withdrawals_root
    &&& header.gas_limit == Some(decoded.gas_limit)
    &&& header.gas_used == Some(decoded.gas_used)
    &&& header.base_fee_per_gas == (match decoded.base_fee_per_gas {
        Some(fee) => Some(Quantity::spec_of(fee)),
        None => None,
    })
    &&& header.blob_gas_used == decoded.blob_gas_used
    &&& header.excess_blob_gas == decoded.excess_blob_gas
}

/// What is wrong with a header, given what its canonical form says.
pub open spec fn header_fault(
    frame: BlockFrame,
    header: HeaderEnvelope,
    decoded: Option<DecodedHeader>,
) -> Option<&'static str> {
    match decoded {
        None => Some("execution-RPC canonical header RLP is invalid"),
        Some(decoded) => if header_agrees(frame, header, decoded) {
            None
        } else {
            Some("execution-RPC canonical header conflicts with normalized fields")
        },
    }
}

/// Holds the normalized fields of a block against its canonical header.
pub fn check_header(
    frame: &BlockFrame,
    header: &HeaderEnvelope,
    decoded: Option<DecodedHeader>,
) -> (outcome: Result<(), &'static str>)
    ensures
        outcome == (match header_fault(*frame, *header, decoded) {
            Some(fault) => Err::<(), &'static str>(fault),
            None => Ok(()),
        }),
{
    let decoded: DecodedHeader = match decoded {
        Some(decoded) => decoded,
        None => {
            return Err("execution-RPC canonical header RLP is invalid");
        },
    };
    let base_fee: Option<Quantity> = match decoded.base_fee_per_gas {
        Some(fee) => Some(Quantity::of(fee)),
        None => None,
    };
    let empty = empty_ommers_hash();
    proof {
        if decoded.ommers_hash.0@ == empty_ommers() {
            crate::bytes::lemma_same_view_same_array(decoded.ommers_hash.0, empty.0);
        }
    }
    if decoded.trailing_bytes != 0 || decoded.hash != frame.block.hash || decoded.number
        != frame.block.number.0 || decoded.parent_hash != frame.block.parent_hash
        || decoded.timestamp != frame.block.timestamp || decoded.ommers_hash != empty
        || header.transactions_root != Some(decoded.transactions_root) || header.receipts_root
        != Some(decoded.receipts_root) || header.withdrawals_root != decoded.withdrawals_root
        || header.gas_limit != Some(decoded.gas_limit) || header.gas_used != Some(decoded.gas_used)
        || header.base_fee_per_gas != base_fee || header.blob_gas_used != decoded.blob_gas_used
        || header.excess_blob_gas != decoded.excess_blob_gas {
        return Err("execution-RPC canonical header conflicts with normalized fields");
    }
    Ok(())
}

/// Everything that a transaction and its receipt must carry at `index`.
pub open spec fn transaction_complete(
    index: int,
    transaction: TransactionEnvelope,
    receipt: ReceiptEnvelope,
) -> bool {
    &&& transaction.index == index
    &&& transaction.encoded is Some
    &&& transaction.from is Some
    &&& transaction.nonce is Some
    &&& receipt.transaction_hash == transaction.hash
    &&& receipt.transaction_index == index
    &&& receipt.encoded is Some
    &&& receipt.gas_used is Some
    &&& receipt.effective_gas_price is Some
}

/// What is wrong with a transaction and its receipt at `index`, given what
/// their canonical forms say.
pub open spec fn transaction_fault(
    index: int,
    transaction: TransactionEnvelope,
    receipt: ReceiptEnvelope,
    decoded: Option<DecodedTransaction>,
    receipt_valid: bool,
) -> Option<&'static str> {
    if index > u32::MAX {
        Some("execution-RPC transaction index exceeds u32")
    } else if !transaction_complete(index, transaction, receipt) {
        Some("execution-RPC transaction or receipt material is incomplete")
    } else {
        match decoded {
            None => Some("execution-RPC canonical transaction is invalid"),
            Some(decoded) => if decoded.hash != transaction.hash {
                Some("execution-RPC canonical transaction conflicts with normalized fields")
            } else if decoded.signer is None {
                Some("execution-RPC transaction signer recovery failed")
            } else if decoded.signer != transaction.from {
                Some("execution-RPC canonical transaction conflicts with normalized fields")
            } else if !receipt_valid {
                Some("execution-RPC canonical receipt is invalid")
            } else {
                None
            },
        }
    }
}

fn material_fault(
    index: usize,
    transaction: &TransactionEnvelope,
    receipt: &ReceiptEnvelope,
) -> (fault: Option<&'static str>)
    ensures
        fault == (if index > u32::MAX {
            Some("execution-RPC transaction index exceeds u32")
        } else if !transaction_complete(index as int, *transaction, *receipt) {
            Some("execution-RPC transaction or receipt material is incomplete")
        } else {
            None
        }),
{
    if index > u32::MAX as usize {
        return Some("execution-RPC transaction index exceeds u32");
    }
    let position: u32 = index as u32;
    if transaction.index != position || transaction.encoded.is_none() || transaction.from.is_none()
        || transaction.nonce.is_none() || receipt.transaction_hash != transaction.hash
        || receipt.transaction_index != position || receipt.encoded.is_none()
        || receipt.gas_used.is_none() || receipt.effective_gas_price.is_none() {
        return Some("execution-RPC transaction or receipt material is incomplete");
    }
    None
}

/// Holds a transaction and its receipt against their canonical forms.
pub fn check_transaction(
    index: usize,
    transaction: &TransactionEnvelope,
    receipt: &ReceiptEnvelope,
    decoded: Option<DecodedTransaction>,
    receipt_valid: bool,
) -> (outcome: Result<(), &'static str>)
    ensures
        outcome == (match transaction_fault(
            index as int,
            *transaction,
            *receipt,
            decoded,
            receipt_valid,
        ) {
            Some(fault) => Err::<(), &'static str>(fault),
            None => Ok(()),
        }),
{
    if let Some(fault) = material_fault(index, transaction, receipt) {
        return Err(fault);
    }
    let decoded: DecodedTransaction = match decoded {
        Some(decoded) => decoded,
        None => {
            return Err("execution-RPC canonical transaction is invalid");
        },
    };
    if decoded.hash != transaction.hash {
        return Err("execution-RPC canonical transaction conflicts with normalized fields");
    }
    if decoded.signer.is_none() {
        return Err("execution-RPC transaction signer recovery failed");
    }
    if decoded.signer != transaction.from {
        return Err("execution-RPC canonical transaction conflicts with normalized fields");
    }
    if !receipt_valid {
        return Err("execution-RPC canonical receipt is invalid");
    }
    Ok(())
}

/// What is wrong with the transaction and receipt at `index`.
pub open spec fn fault_at(
    transactions: Seq<TransactionEnvelope>,
    receipts: Seq<ReceiptEnvelope>,
    index: int,
) -> Option<&'static str> {
    let transaction = transactions[index];
    let receipt = receipts[index];
    transaction_fault(
        index,
        transaction,
        receipt,
        transaction_decoded(transaction.encoded->0@),
        receipt_decodes(receipt.encoded->0@),
    )
}

/// The first thing wrong with the transactions and receipts from `index` on.
pub open spec fn first_fault(
    transactions: Seq<TransactionEnvelope>,
    receipts: Seq<ReceiptEnvelope>,
    index: int,
) -> Option<&'static str>
    decreases transactions.len() - index,
{
    if index >= transactions.len() || index >= receipts.len() {
        None
    } else if fault_at(transactions, receipts, index) is Some {
        fault_at(transactions, receipts, index)
    } else {
        first_fault(transactions, receipts, index + 1)
    }
}

/// Holds every transaction and receipt against its canonical form, in order.
pub fn validate_execution_transactions(
    transactions: &Vec<TransactionEnvelope>,
    receipts: &Vec<ReceiptEnvelope>,
) -> (outcome: Result<(), &'static str>)
    ensures
        outcome == (match first_fault(transactions@, receipts@, 0) {
            Some(fault) => Err::<(), &'static str>(fault),
            None => Ok(()),
        }),
{
    let mut index: usize = 0;
    while index < transactions.len() && index < receipts.len()
        invariant
            first_fault(transactions@, receipts@, 0) == first_fault(
                transactions@,
                receipts@,
                index as int,
            ),
        decreases transactions@.len() - index,
    {
        let transaction: &TransactionEnvelope = &transactions[index];
        let receipt: &ReceiptEnvelope = &receipts[index];
        if let Some(fault) = material_fault(index, transaction, receipt) {
            return Err(fault);
        }
        if let Some(encoded) = &transaction.encoded {
            if let Some(encoded_receipt) = &receipt.encoded {
                let decoded = decode_transaction(encoded.as_slice());
                let receipt_valid = decode_receipt(encoded_receipt.as_slice());
                check_transaction(index, transaction, receipt, decoded, receipt_valid)?;
            }
        }
        index += 1;
    }
    Ok(())
}

/// Whether a header carries every field that execution RPC needs.
pub open spec fn header_complete(header: HeaderEnvelope) -> bool {
    &&& header.rlp is Some
    &&& header.transactions_root is Some
    &&& header.receipts_root is Some
    &&& header.gas_limit is Some
    &&& header.gas_used is Some
    &&& header.base_fee_per_gas is Some
    &&& header.size_bytes is Some
    &&& header.transaction_count is Some
}

/// What keeps execution RPC from being reconstructed from a frame.
pub open spec fn frame_fault(profile: RawHistoryProfile, frame: BlockFrame) -> Option<
    &'static str,
> {
    match profile {
        RawHistoryProfile::ProcessorReuse => None,
        RawHistoryProfile::PostMergeExecutionRpc { merge_block } => {
            if frame.block.number.0 < merge_block.0 {
                Some("execution-RPC frame precedes the configured Merge block")
            } else {
                match frame.header {
                    Material::Complete(header) => execution_fault(frame, header),
                    _ => Some("execution-RPC frame lacks a complete canonical header"),
                }
            }
        },
    }
}

/// What keeps execution RPC from being reconstructed from a frame with a
/// complete header.
pub open spec fn execution_fault(frame: BlockFrame, header: HeaderEnvelope) -> Option<
    &'static str,
> {
    if !header_complete(header) {
        Some("execution-RPC frame lacks required canonical header fields")
    } else if header_fault(frame, header, header_decoded(header.rlp->0@)) is Some {
        header_fault(frame, header, header_decoded(header.rlp->0@))
    } else if !(frame.transactions is Complete) {
        Some("execution-RPC frame lacks complete transactions")
    } else if !(frame.receipts is Complete) {
        Some("execution-RPC frame lacks complete receipts")
    } else {
        let transactions = frame.transactions->Complete_0@;
        let receipts = frame.receipts->Complete_0@;
        if transactions.len() != receipts.len() || header.transaction_count->0
            != transactions.len() {
            Some("execution-RPC transaction counts disagree")
        } else if first_fault(transactions, receipts, 0) is Some {
            first_fault(transactions, receipts, 0)
        } else if header.withdrawals_root is Some && !(frame.withdrawals is Complete) {
            Some("execution-RPC frame lacks withdrawals committed by its header")
        } else {
            None
        }
    }
}

impl RawHistoryJobSpec {
    /// Refuses a frame that does not hold what the job's profile promises.
    pub fn validate_frame_profile(&self, frame: &BlockFrame) -> (outcome: Result<
        (),
        &'static str,
    >)
        ensures
            outcome == (match frame_fault(self.profile, *frame) {
                Some(fault) => Err::<(), &'static str>(fault),
                None => Ok(()),
            }),
    {
        let merge_block = match self.profile {
            RawHistoryProfile::ProcessorReuse => {
                return Ok(());
            },
            RawHistoryProfile::PostMergeExecutionRpc { merge_block } => merge_block,
        };
        if frame.block.number.0 < merge_block.0 {
            return Err("execution-RPC frame precedes the configured Merge block");
        }
        match &frame.header {
            Material::Complete(header) => validate_execution(frame, header),
            _ => Err("execution-RPC frame lacks a complete canonical header"),
        }
    }
}

fn validate_execution(frame: &BlockFrame, header: &HeaderEnvelope) -> (outcome: Result<
    (),
    &'static str,
>)
    ensures
        outcome == (match execution_fault(*frame, *header) {
            Some(fault) => Err::<(), &'static str>(fault),
            None => Ok(()),
        }),
{
    if header.transactions_root.is_none() || header.receipts_root.is_none()
        || header.gas_limit.is_none() || header.gas_used.is_none()
        || header.base_fee_per_gas.is_none() || header.size_bytes.is_none() {
        return Err("execution-RPC frame lacks required canonical header fields");
    }
    let (rlp, count) = match (&header.rlp, header.transaction_count) {
        (Some(rlp), Some(count)) => (rlp, count),
        _ => {
            return Err("execution-RPC frame lacks required canonical header fields");
        },
    };
    check_header(frame, header, decode_header(rlp.as_slice()))?;
    let transactions = match &frame.transactions {
        Material::Complete(transactions) => transactions,
        _ => {
            return Err("execution-RPC frame lacks complete transactions");
        },
    };
    let receipts = match &frame.receipts {
        Material::Complete(receipts) => receipts,
        _ => {
            return Err("execution-RPC frame lacks complete receipts");
        },
    };
    if transactions.len() != receipts.len() || count as usize != transactions.len() {
        return Err("execution-RPC transaction counts disagree");
    }
    validate_execution_transactions(transactions, receipts)?;
    if header.withdrawals_root.is_some() && !frame.withdrawals.is_complete() {
        return Err("execution-RPC frame lacks withdrawals committed by its header");
    }
    Ok(())
}

} // verus!
