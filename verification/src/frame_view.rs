//! Frames by value.

use crate::frame::{
    BlockFrame, Completeness, HeaderEnvelope, Log, Material, MissingReason, ObjectIdentity,
    Provenance, ReceiptEnvelope, TransactionEnvelope, Withdrawal,
};
use crate::primitives::{
    Address, BlockHash, BlockRange, BlockRef, ChainId, Finality, Quantity, TransactionHash,
    TrustModel,
};
use crate::request::{clone_list, FilterScope, SourceKind, TopicFilter};
use crate::text::{clone_texts, texts};
use vstd::prelude::*;

verus! {

/// The values of a list, each by its view.
pub open spec fn views<T: View>(values: Seq<T>) -> Seq<T::V> {
    values.map_values(|value: T| value@)
}

/// Optional bytes by value.
pub open spec fn bytes_view(bytes: Option<Vec<u8>>) -> Option<Seq<u8>> {
    match bytes {
        Some(bytes) => Some(bytes@),
        None => None,
    }
}

/// A header by value.
pub struct HeaderView {
    pub rlp: Option<Seq<u8>>,
    pub transactions_root: Option<BlockHash>,
    pub receipts_root: Option<BlockHash>,
    pub withdrawals_root: Option<BlockHash>,
    pub gas_limit: Option<u64>,
    pub gas_used: Option<u64>,
    pub base_fee_per_gas: Option<Quantity>,
    pub blob_gas_used: Option<u64>,
    pub excess_blob_gas: Option<u64>,
    pub size_bytes: Option<u64>,
    pub transaction_count: Option<u32>,
    pub consensus_size_bytes: Option<u64>,
}

impl View for HeaderEnvelope {
    type V = HeaderView;

    open spec fn view(&self) -> HeaderView {
        HeaderView {
            rlp: bytes_view(self.rlp),
            transactions_root: self.transactions_root,
            receipts_root: self.receipts_root,
            withdrawals_root: self.withdrawals_root,
            gas_limit: self.gas_limit,
            gas_used: self.gas_used,
            base_fee_per_gas: self.base_fee_per_gas,
            blob_gas_used: self.blob_gas_used,
            excess_blob_gas: self.excess_blob_gas,
            size_bytes: self.size_bytes,
            transaction_count: self.transaction_count,
            consensus_size_bytes: self.consensus_size_bytes,
        }
    }
}

/// A transaction by value.
pub struct TransactionView {
    pub hash: TransactionHash,
    pub transaction_type: u8,
    pub index: u32,
    pub encoded: Option<Seq<u8>>,
    pub from: Option<Address>,
    pub to: Option<Address>,
    pub nonce: Option<u64>,
    pub gas_limit: Option<u64>,
    pub value: Option<Quantity>,
    pub input: Option<Seq<u8>>,
    pub max_fee_per_gas: Option<Quantity>,
    pub max_priority_fee_per_gas: Option<Quantity>,
    pub max_fee_per_blob_gas: Option<Quantity>,
    pub blob_versioned_hashes: Seq<BlockHash>,
    pub size_bytes: Option<u32>,
}

impl View for TransactionEnvelope {
    type V = TransactionView;

    open spec fn view(&self) -> TransactionView {
        TransactionView {
            hash: self.hash,
            transaction_type: self.transaction_type,
            index: self.index,
            encoded: bytes_view(self.encoded),
            from: self.from,
            to: self.to,
            nonce: self.nonce,
            gas_limit: self.gas_limit,
            value: self.value,
            input: bytes_view(self.input),
            max_fee_per_gas: self.max_fee_per_gas,
            max_priority_fee_per_gas: self.max_priority_fee_per_gas,
            max_fee_per_blob_gas: self.max_fee_per_blob_gas,
            blob_versioned_hashes: self.blob_versioned_hashes@,
            size_bytes: self.size_bytes,
        }
    }
}

/// A log by value.
pub struct LogView {
    pub address: Address,
    pub topics: Seq<[u8; 32]>,
    pub data: Seq<u8>,
    pub transaction_hash: Option<TransactionHash>,
    pub transaction_index: u32,
    pub log_index: u32,
}

impl View for Log {
    type V = LogView;

    open spec fn view(&self) -> LogView {
        LogView {
            address: self.address,
            topics: self.topics@,
            data: self.data@,
            transaction_hash: self.transaction_hash,
            transaction_index: self.transaction_index,
            log_index: self.log_index,
        }
    }
}

impl Clone for Log {
    fn clone(&self) -> (copy: Log)
        ensures
            copy@ == self@,
    {
        Log {
            address: self.address,
            topics: clone_list(&self.topics),
            data: clone_list(&self.data),
            transaction_hash: self.transaction_hash,
            transaction_index: self.transaction_index,
            log_index: self.log_index,
        }
    }
}

/// A receipt by value.
pub struct ReceiptView {
    pub transaction_hash: TransactionHash,
    pub transaction_type: u8,
    pub transaction_index: u32,
    pub encoded: Option<Seq<u8>>,
    pub success: Option<bool>,
    pub gas_used: Option<u64>,
    pub effective_gas_price: Option<Quantity>,
    pub blob_gas_used: Option<u64>,
    pub blob_gas_price: Option<Quantity>,
    pub logs: Seq<LogView>,
}

impl View for ReceiptEnvelope {
    type V = ReceiptView;

    open spec fn view(&self) -> ReceiptView {
        ReceiptView {
            transaction_hash: self.transaction_hash,
            transaction_type: self.transaction_type,
            transaction_index: self.transaction_index,
            encoded: bytes_view(self.encoded),
            success: self.success,
            gas_used: self.gas_used,
            effective_gas_price: self.effective_gas_price,
            blob_gas_used: self.blob_gas_used,
            blob_gas_price: self.blob_gas_price,
            logs: views(self.logs@),
        }
    }
}

impl View for Withdrawal {
    type V = Withdrawal;

    open spec fn view(&self) -> Withdrawal {
        *self
    }
}

/// A topic filter by value.
pub struct TopicFilterView {
    pub position: u8,
    pub alternatives: Seq<[u8; 32]>,
}

impl View for TopicFilter {
    type V = TopicFilterView;

    open spec fn view(&self) -> TopicFilterView {
        TopicFilterView { position: self.position, alternatives: self.alternatives@ }
    }
}

/// A scope by value.
pub struct ScopeView {
    pub block_range: Option<BlockRange>,
    pub addresses: Seq<Address>,
    pub topics: Seq<TopicFilterView>,
    pub transaction_types: Seq<u8>,
    pub transaction_hashes: Seq<TransactionHash>,
    pub senders: Seq<Address>,
    pub recipients: Seq<Address>,
}

impl View for FilterScope {
    type V = ScopeView;

    open spec fn view(&self) -> ScopeView {
        ScopeView {
            block_range: self.block_range,
            addresses: self.addresses@,
            topics: views(self.topics@),
            transaction_types: self.transaction_types@,
            transaction_hashes: self.transaction_hashes@,
            senders: self.senders@,
            recipients: self.recipients@,
        }
    }
}

impl ScopeView {
    /// The scope that selects everything.
    pub open spec fn everything() -> ScopeView {
        ScopeView {
            block_range: None,
            addresses: Seq::empty(),
            topics: Seq::empty(),
            transaction_types: Seq::empty(),
            transaction_hashes: Seq::empty(),
            senders: Seq::empty(),
            recipients: Seq::empty(),
        }
    }
}

/// Scopes that are alike have the same value.
pub proof fn lemma_alike_scopes(left: FilterScope, right: FilterScope)
    requires
        left.alike(right),
    ensures
        left@ == right@,
{
    assert(views(left.topics@) =~= views(right.topics@)) by {
        assert forall|i: int| 0 <= i < left.topics@.len() implies views(left.topics@)[i] == views(
            right.topics@,
        )[i] by {
            assert(crate::request::topic_alike(left.topics@[i], right.topics@[i]));
        }
    }
}

/// A scope without any filter selects everything.
pub proof fn lemma_empty_scope(scope: FilterScope)
    requires
        scope.spec_empty(),
    ensures
        scope@ == ScopeView::everything(),
{
    assert(scope@.addresses =~= ScopeView::everything().addresses);
    assert(scope@.topics =~= ScopeView::everything().topics);
    assert(scope@.transaction_types =~= ScopeView::everything().transaction_types);
    assert(scope@.transaction_hashes =~= ScopeView::everything().transaction_hashes);
    assert(scope@.senders =~= ScopeView::everything().senders);
    assert(scope@.recipients =~= ScopeView::everything().recipients);
}

/// Material by value.
pub enum MaterialView<V> {
    Missing(MissingReason),
    Filtered { value: V, scope: ScopeView, completeness: Completeness },
    Complete(V),
}

/// A list of material by value.
pub open spec fn list_material<T: View>(material: Material<Vec<T>>) -> MaterialView<Seq<T::V>> {
    match material {
        Material::Missing(reason) => MaterialView::Missing(reason),
        Material::Filtered { value, scope, completeness } => MaterialView::Filtered {
            value: views(value@),
            scope: scope@,
            completeness,
        },
        Material::Complete(value) => MaterialView::Complete(views(value@)),
    }
}

/// One value of material by value.
pub open spec fn single_material<T: View>(material: Material<T>) -> MaterialView<T::V> {
    match material {
        Material::Missing(reason) => MaterialView::Missing(reason),
        Material::Filtered { value, scope, completeness } => MaterialView::Filtered {
            value: value@,
            scope: scope@,
            completeness,
        },
        Material::Complete(value) => MaterialView::Complete(value@),
    }
}

/// An object's identity by value.
pub struct ObjectIdentityView {
    pub locator: Seq<char>,
    pub version: Option<Seq<char>>,
    pub checksum: Option<BlockHash>,
    pub schema: Option<Seq<char>>,
}

/// Optional text by value.
pub open spec fn text_view(text: Option<String>) -> Option<Seq<char>> {
    match text {
        Some(text) => Some(text@),
        None => None,
    }
}

impl View for ObjectIdentity {
    type V = ObjectIdentityView;

    open spec fn view(&self) -> ObjectIdentityView {
        ObjectIdentityView {
            locator: self.locator@,
            version: text_view(self.version),
            checksum: self.checksum,
            schema: text_view(self.schema),
        }
    }
}

/// A provenance by value.
pub struct ProvenanceView {
    pub source_id: Seq<char>,
    pub source_kind: SourceKind,
    pub trust: TrustModel,
    pub range: Option<BlockRange>,
    pub object: Option<ObjectIdentityView>,
    pub observed_at_unix_ms: u64,
    pub projection: Seq<Seq<char>>,
}

impl View for Provenance {
    type V = ProvenanceView;

    open spec fn view(&self) -> ProvenanceView {
        ProvenanceView {
            source_id: self.source_id@,
            source_kind: self.source_kind,
            trust: self.trust,
            range: self.range,
            object: match self.object {
                Some(object) => Some(object@),
                None => None,
            },
            observed_at_unix_ms: self.observed_at_unix_ms,
            projection: texts(self.projection@),
        }
    }
}

fn clone_text(text: &Option<String>) -> (copy: Option<String>)
    ensures
        copy == *text,
{
    match text {
        Some(text) => Some(text.clone()),
        None => None,
    }
}

impl Clone for Provenance {
    fn clone(&self) -> (copy: Provenance)
        ensures
            copy@ == self@,
    {
        Provenance {
            source_id: self.source_id.clone(),
            source_kind: self.source_kind,
            trust: self.trust,
            range: self.range,
            object: match &self.object {
                Some(object) => Some(
                    ObjectIdentity {
                        locator: object.locator.clone(),
                        version: clone_text(&object.version),
                        checksum: object.checksum,
                        schema: clone_text(&object.schema),
                    },
                ),
                None => None,
            },
            observed_at_unix_ms: self.observed_at_unix_ms,
            projection: clone_texts(&self.projection),
        }
    }
}

/// Copies a list of provenances.
pub fn clone_provenance(values: &Vec<Provenance>) -> (copy: Vec<Provenance>)
    ensures
        views(copy@) == views(values@),
{
    let mut copy: Vec<Provenance> = Vec::new();
    let mut index: usize = 0;
    while index < values.len()
        invariant
            index <= values@.len(),
            copy@.len() == index,
            forall|i: int| 0 <= i < index ==> (#[trigger] copy@[i])@ == values@[i]@,
        decreases values@.len() - index,
    {
        copy.push(values[index].clone());
        index += 1;
    }
    assert(views(copy@) =~= views(values@));
    copy
}

/// A frame by value.
pub struct FrameView {
    pub chain_id: ChainId,
    pub block: BlockRef,
    pub finality: Finality,
    pub header: MaterialView<HeaderView>,
    pub transactions: MaterialView<Seq<TransactionView>>,
    pub receipts: MaterialView<Seq<ReceiptView>>,
    pub logs: MaterialView<Seq<LogView>>,
    pub withdrawals: MaterialView<Seq<Withdrawal>>,
    pub blob_sidecars: MaterialView<Seq<Seq<u8>>>,
    pub traces: MaterialView<Seq<Seq<u8>>>,
    pub state_diffs: MaterialView<Seq<Seq<u8>>>,
    pub provenance: Seq<ProvenanceView>,
}

impl View for BlockFrame {
    type V = FrameView;

    open spec fn view(&self) -> FrameView {
        FrameView {
            chain_id: self.chain_id,
            block: self.block,
            finality: self.finality,
            header: single_material(self.header),
            transactions: list_material(self.transactions),
            receipts: list_material(self.receipts),
            logs: list_material(self.logs),
            withdrawals: list_material(self.withdrawals),
            blob_sidecars: list_material(self.blob_sidecars),
            traces: list_material(self.traces),
            state_diffs: list_material(self.state_diffs),
            provenance: views(self.provenance@),
        }
    }
}

} // verus!
