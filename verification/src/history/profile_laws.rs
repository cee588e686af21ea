//! When a frame is certified for the profile of a job.

use crate::bytes::{be64, lemma_array32, lemma_same_view_same_array};
use crate::frame::{BlockFrame, Material, ReceiptEnvelope, TransactionEnvelope};
use crate::history::execution::{
    fault_at, first_fault, frame_fault, header_decoded, receipt_decodes, transaction_decoded,
    DecodedTransaction,
};
use crate::history::job::RawHistoryProfile;
use crate::primitives::{BlockNumber, Quantity};
use vstd::prelude::*;

verus! {

proof fn lemma_no_fault(
    transactions: Seq<TransactionEnvelope>,
    receipts: Seq<ReceiptEnvelope>,
    index: int,
)
    requires
        0 <= index,
        transactions.len() == receipts.len(),
    ensures
        first_fault(transactions, receipts, index) is None <==> forall|i: int|
            index <= i < transactions.len() ==> fault_at(transactions, receipts, i) is None,
    decreases transactions.len() - index,
{
    if index < transactions.len() {
        lemma_no_fault(transactions, receipts, index + 1);
        if first_fault(transactions, receipts, index) is None {
            assert(fault_at(transactions, receipts, index) is None);
        }
    }
}

proof fn lemma_fee(quantity: Option<Quantity>, fee: Option<u64>)
    requires
        quantity is Some,
    ensures
        quantity == (match fee {
            Some(fee) => Some(Quantity::spec_of(fee)),
            None => None,
        }) <==> fee is Some && (quantity->0).0@ == Seq::new(24, |k: int| 0u8) + seq![
            (fee->0 >> 56) as u8,
            (fee->0 >> 48) as u8,
            (fee->0 >> 40) as u8,
            (fee->0 >> 32) as u8,
            (fee->0 >> 24) as u8,
            (fee->0 >> 16) as u8,
            (fee->0 >> 8) as u8,
            fee->0 as u8,
        ],
{
    if let Some(fee) = fee {
        let bytes: [u8; 32] = [
            0u8, 0u8, 0u8, 0u8, 0u8, 0u8, 0u8, 0u8, 0u8, 0u8, 0u8, 0u8, 0u8, 0u8, 0u8, 0u8, 0u8,
            0u8, 0u8, 0u8, 0u8, 0u8, 0u8, 0u8, (fee >> 56) as u8, (fee >> 48) as u8,
            (fee >> 40) as u8, (fee >> 32) as u8, (fee >> 24) as u8, (fee >> 16) as u8,
            (fee >> 8) as u8, fee as u8,
        ];
        assert(bytes@ =~= Seq::new(24, |k: int| 0u8) + be64(fee));
        lemma_array32(bytes);
        assert(Quantity::spec_of(fee).0@ =~= Seq::new(24, |k: int| 0u8) + be64(fee));
        if (quantity->0).0@ == Quantity::spec_of(fee).0@ {
            lemma_same_view_same_array((quantity->0).0, Quantity::spec_of(fee).0);
        }
    }
}

/// Under the profile of execution RPC a frame is certified exactly when it is
/// of the Merge or later, its header is complete and says what its canonical
/// form says, with no ommers, its transactions and receipts are complete and
/// as many as the header counts, every transaction is that which its own bytes
/// decode to, under its own hash and signed by its own sender, every receipt
/// is that of its transaction and its bytes decode, and withdrawals are there
/// if the header commits to any.
pub proof fn law_certified_frames_agree_with_their_canonical_bytes(
    merge_block: BlockNumber,
    frame: BlockFrame,
)
    ensures
        frame_fault(RawHistoryProfile::PostMergeExecutionRpc { merge_block }, frame) is None <==> {
            &&& merge_block.0 <= frame.block.number.0
            &&& frame.header matches Material::Complete(header) && {
                &&& header.rlp matches Some(rlp) && header_decoded(rlp@) matches Some(decoded) && {
                    &&& decoded.trailing_bytes == 0
                    &&& frame.block.hash == decoded.hash
                    &&& frame.block.number.0 == decoded.number
                    &&& frame.block.parent_hash == decoded.parent_hash
                    &&& frame.block.timestamp == decoded.timestamp
                    &&& decoded.ommers_hash.0@ == seq![
                        0x1du8, 0xccu8, 0x4du8, 0xe8u8, 0xdeu8, 0xc7u8, 0x5du8, 0x7au8, 0xabu8,
                        0x85u8, 0xb5u8, 0x67u8, 0xb6u8, 0xccu8, 0xd4u8, 0x1au8, 0xd3u8, 0x12u8,
                        0x45u8, 0x1bu8, 0x94u8, 0x8au8, 0x74u8, 0x13u8, 0xf0u8, 0xa1u8, 0x42u8,
                        0xfdu8, 0x40u8, 0xd4u8, 0x93u8, 0x47u8,
                    ]
                    &&& header.transactions_root == Some(decoded.transactions_root)
                    &&& header.receipts_root == Some(decoded.receipts_root)
                    &&& header.withdrawals_root == decoded.withdrawals_root
                    &&& header.gas_limit == Some(decoded.gas_limit)
                    &&& header.gas_used == Some(decoded.gas_used)
                    &&& header.base_fee_per_gas matches Some(quantity)
                        && decoded.base_fee_per_gas matches Some(fee) && quantity.0@ == Seq::new(
                        24,
                        |k: int| 0u8,
                    ) + seq![
                        (fee >> 56) as u8,
                        (fee >> 48) as u8,
                        (fee >> 40) as u8,
                        (fee >> 32) as u8,
                        (fee >> 24) as u8,
                        (fee >> 16) as u8,
                        (fee >> 8) as u8,
                        fee as u8,
                    ]
                    &&& header.blob_gas_used == decoded.blob_gas_used
                    &&& header.excess_blob_gas == decoded.excess_blob_gas
                }
                &&& header.size_bytes is Some
                &&& frame.transactions matches Material::Complete(transactions)
                    && frame.receipts matches Material::Complete(receipts) && {
                    &&& header.transaction_count matches Some(count) && count == transactions@.len()
                    &&& receipts@.len() == transactions@.len()
                    &&& forall|i: int|
                        #![trigger transactions@[i]]
                        #![trigger receipts@[i]]
                        0 <= i < transactions@.len() ==> {
                            &&& transactions@[i].index == i
                            &&& transactions@[i].nonce is Some
                            &&& transactions@[i].from is Some
                            &&& transactions@[i].encoded matches Some(bytes)
                                && transaction_decoded(bytes@) == Some(
                                DecodedTransaction {
                                    hash: transactions@[i].hash,
                                    signer: transactions@[i].from,
                                },
                            )
                            &&& receipts@[i].transaction_hash == transactions@[i].hash
                            &&& receipts@[i].transaction_index == i
                            &&& receipts@[i].gas_used is Some
                            &&& receipts@[i].effective_gas_price is Some
                            &&& receipts@[i].encoded matches Some(bytes) && receipt_decodes(bytes@)
                        }
                }
                &&& header.withdrawals_root is Some ==> frame.withdrawals is Complete
            }
        },
{
    if let Material::Complete(header) = frame.header {
        if header.rlp is Some && header_decoded(header.rlp->0@) is Some
            && header.base_fee_per_gas is Some {
            lemma_fee(
                header.base_fee_per_gas,
                header_decoded(header.rlp->0@)->0.base_fee_per_gas,
            );
        }
        if frame.transactions is Complete && frame.receipts is Complete {
            let transactions = frame.transactions->Complete_0@;
            let receipts = frame.receipts->Complete_0@;
            if transactions.len() == receipts.len() {
                lemma_no_fault(transactions, receipts, 0);
            }
            assert forall|i: int| 0 <= i < transactions.len() && i <= u32::MAX implies (
            fault_at(transactions, receipts, i) is None <==> {
                &&& transactions[i].index == i
                &&& transactions[i].nonce is Some
                &&& transactions[i].from is Some
                &&& transactions[i].encoded matches Some(bytes) && transaction_decoded(bytes@)
                    == Some(
                    DecodedTransaction { hash: transactions[i].hash, signer: transactions[i].from },
                )
                &&& receipts[i].transaction_hash == transactions[i].hash
                &&& receipts[i].transaction_index == i
                &&& receipts[i].gas_used is Some
                &&& receipts[i].effective_gas_price is Some
                &&& receipts[i].encoded matches Some(bytes) && receipt_decodes(bytes@)
            }) by {}
        }
    }
}

/// A job that asks for no profile of its own takes every frame.
pub proof fn law_plain_jobs_take_every_frame(frame: BlockFrame)
    ensures
        frame_fault(RawHistoryProfile::ProcessorReuse, frame) is None,
{
}

} // verus!
