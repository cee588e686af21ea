//! Joining the rows of the public tables into frames of headers, transactions
//! or logs.

use crate::bytes::{be32, push_u32};
use crate::frame::{
    BlockFrame, Completeness, HeaderEnvelope, Log, Material, MissingReason, Provenance,
    TransactionEnvelope,
};
use crate::frame_view::{
    clone_provenance, lemma_alike_scopes, views, FrameView, HeaderView, MaterialView, ScopeView,
};
use crate::order::Keyed;
use crate::primitives::{BlockNumber, BlockRange, BlockRef, ChainId, Finality};
use crate::request::{clone_list, FilterScope, FilterSet};
use crate::stable::{
    group_of, lemma_other_groups, stable_order, stable_sort, take_group, without_group,
};
use crate::xatu::error::{DataProblem, XatuError};
use crate::xatu::normalize::{block_filter_scope, block_scope, check_coverage, coverage_problem};
use crate::xatu::rows::{GenericBeaconBlockRow, GenericExecutionBlockRow};
use vstd::prelude::*;

verus! {

/// The view of a chain that is projected.
#[derive(Clone, Copy, Debug, PartialEq, Eq, Structural)]
pub enum GenericProjectionKind {
    Headers,
    Transactions,
    Logs,
}

impl Keyed for TransactionEnvelope {
    open spec fn key(&self) -> Seq<u8> {
        be32(self.index)
    }

    fn key_bytes(&self) -> (bytes: Vec<u8>) {
        let mut bytes: Vec<u8> = Vec::new();
        push_u32(&mut bytes, self.index);
        assert(bytes@ =~= be32(self.index));
        bytes
    }
}

impl Keyed for Log {
    open spec fn key(&self) -> Seq<u8> {
        be32(self.log_index)
    }

    fn key_bytes(&self) -> (bytes: Vec<u8>) {
        let mut bytes: Vec<u8> = Vec::new();
        push_u32(&mut bytes, self.log_index);
        assert(bytes@ =~= be32(self.log_index));
        bytes
    }
}

/// The first execution block of a number, from `from` on.
pub open spec fn generic_execution_at(blocks: Seq<GenericExecutionBlockRow>, number: u64, from: int) -> Option<int>
    decreases blocks.len() - from,
{
    if from < 0 || from >= blocks.len() {
        None
    } else if blocks[from].number == number {
        Some(from)
    } else {
        generic_execution_at(blocks, number, from + 1)
    }
}

fn find_execution(blocks: &Vec<GenericExecutionBlockRow>, number: u64) -> (at: Option<usize>)
    ensures
        match at {
            Some(at) => generic_execution_at(blocks@, number, 0) == Some(at as int) && at < blocks@.len(),
            None => generic_execution_at(blocks@, number, 0) is None,
        },
{
    let mut index: usize = 0;
    while index < blocks.len()
        invariant
            index <= blocks@.len(),
            generic_execution_at(blocks@, number, 0) == generic_execution_at(blocks@, number, index as int),
        decreases blocks@.len() - index,
    {
        if blocks[index].number == number {
            return Some(index);
        }
        index += 1;
    }
    None
}

/// The first beacon block of a number, from `from` on.
pub open spec fn generic_beacon_at(blocks: Seq<GenericBeaconBlockRow>, number: u64, from: int) -> Option<int>
    decreases blocks.len() - from,
{
    if from < 0 || from >= blocks.len() {
        None
    } else if blocks[from].number == number {
        Some(from)
    } else {
        generic_beacon_at(blocks, number, from + 1)
    }
}

fn find_beacon(blocks: &Vec<GenericBeaconBlockRow>, number: u64) -> (at: Option<usize>)
    ensures
        match at {
            Some(at) => generic_beacon_at(blocks@, number, 0) == Some(at as int) && at < blocks@.len(),
            None => generic_beacon_at(blocks@, number, 0) is None,
        },
{
    let mut index: usize = 0;
    while index < blocks.len()
        invariant
            index <= blocks@.len(),
            generic_beacon_at(blocks@, number, 0) == generic_beacon_at(blocks@, number, index as int),
        decreases blocks@.len() - index,
    {
        if blocks[index].number == number {
            return Some(index);
        }
        index += 1;
    }
    None
}

/// Two transactions next to each other have the same index.
pub open spec fn repeats_transaction(sorted: Seq<TransactionEnvelope>) -> bool {
    exists|i: int|
        0 <= i < sorted.len() - 1 && (#[trigger] sorted[i]).index == sorted[i + 1].index
}

fn repeated_transaction(sorted: &Vec<TransactionEnvelope>) -> (found: bool)
    ensures
        found == repeats_transaction(sorted@),
{
    if sorted.len() == 0 {
        return false;
    }
    let mut index: usize = 0;
    while index < sorted.len() - 1
        invariant
            0 < sorted@.len(),
            index <= sorted@.len() - 1,
            forall|i: int|
                0 <= i < index ==> (#[trigger] sorted@[i]).index != sorted@[i + 1].index,
        decreases sorted@.len() - index,
    {
        if sorted[index].index == sorted[index + 1].index {
            assert(sorted@[index as int].index == sorted@[index + 1].index);
            return true;
        }
        index += 1;
    }
    false
}

/// Two logs next to each other have the same index.
pub open spec fn repeats_log(sorted: Seq<Log>) -> bool {
    exists|i: int|
        0 <= i < sorted.len() - 1 && (#[trigger] sorted[i]).log_index == sorted[i + 1].log_index
}

fn repeated_log(sorted: &Vec<Log>) -> (found: bool)
    ensures
        found == repeats_log(sorted@),
{
    if sorted.len() == 0 {
        return false;
    }
    let mut index: usize = 0;
    while index < sorted.len() - 1
        invariant
            0 < sorted@.len(),
            index <= sorted@.len() - 1,
            forall|i: int|
                0 <= i < index ==> (#[trigger] sorted@[i]).log_index != sorted@[i + 1].log_index,
        decreases sorted@.len() - index,
    {
        if sorted[index].log_index == sorted[index + 1].log_index {
            assert(sorted@[index as int].log_index == sorted@[index + 1].log_index);
            return true;
        }
        index += 1;
    }
    false
}

/// The tables that frames are joined from.
#[derive(Debug)]
pub struct GenericTables {
    pub range: BlockRange,
    pub kind: GenericProjectionKind,
    pub include_header: bool,
    pub filters: FilterSet,
    pub execution_blocks: Vec<GenericExecutionBlockRow>,
    pub beacon_blocks: Vec<GenericBeaconBlockRow>,
    pub provenance: Vec<Provenance>,
}

impl GenericTables {
    pub open spec fn execution(self, number: u64) -> GenericExecutionBlockRow {
        self.execution_blocks@[generic_execution_at(self.execution_blocks@, number, 0)->0]
    }

    pub open spec fn beacon(self, number: u64) -> GenericBeaconBlockRow {
        self.beacon_blocks@[generic_beacon_at(self.beacon_blocks@, number, 0)->0]
    }

    /// Why a block cannot be joined.
    pub open spec fn block_problem(
        self,
        number: u64,
        transactions: Seq<(u64, TransactionEnvelope)>,
        logs: Seq<(u64, Log)>,
    ) -> Option<DataProblem> {
        if generic_execution_at(self.execution_blocks@, number, 0) is None {
            Some(DataProblem::MissingExecutionBlock(number))
        } else if generic_beacon_at(self.beacon_blocks@, number, 0) is None {
            Some(DataProblem::MissingBeaconBlock(number))
        } else if self.execution(number).hash != self.beacon(number).hash || self.execution(
            number,
        ).timestamp != self.beacon(number).timestamp {
            Some(DataProblem::BlockDisagreement(number))
        } else if self.kind is Transactions && repeats_transaction(
            stable_order(group_of(transactions, number)),
        ) {
            Some(DataProblem::DuplicateTransactionIndex(number))
        } else if self.kind is Logs && repeats_log(stable_order(group_of(logs, number))) {
            Some(DataProblem::DuplicateLogIndex(number))
        } else {
            None
        }
    }

    /// The scope of a block's filtered material.
    pub open spec fn scope_at(self, number: u64) -> ScopeView {
        ScopeView {
            block_range: Some(
                BlockRange { start: BlockNumber(number), end: BlockNumber(number) },
            ),
            senders: if self.filters.scope.senders@.len() == 0 {
                self.filters.senders@
            } else {
                self.filters.scope.senders@
            },
            recipients: if self.filters.scope.recipients@.len() == 0 {
                self.filters.recipients@
            } else {
                self.filters.scope.recipients@
            },
            ..self.filters.scope@
        }
    }

    /// The frame of a block that joins.
    pub open spec fn frame_at(
        self,
        number: u64,
        transactions: Seq<(u64, TransactionEnvelope)>,
        logs: Seq<(u64, Log)>,
    ) -> FrameView {
        let beacon = self.beacon(number);
        FrameView {
            chain_id: ChainId(1),
            block: BlockRef {
                number: BlockNumber(number),
                hash: beacon.hash,
                parent_hash: beacon.parent_hash,
                timestamp: beacon.timestamp,
            },
            finality: Finality::Finalized,
            header: if self.include_header {
                MaterialView::Filtered {
                    value: HeaderView {
                        rlp: None,
                        transactions_root: None,
                        receipts_root: None,
                        withdrawals_root: None,
                        gas_limit: None,
                        gas_used: None,
                        base_fee_per_gas: None,
                        blob_gas_used: None,
                        excess_blob_gas: None,
                        size_bytes: None,
                        transaction_count: Some(beacon.transaction_count),
                        consensus_size_bytes: None,
                    },
                    scope: block_scope(number),
                    completeness: Completeness::DatasetDeclared,
                }
            } else {
                MaterialView::Missing(MissingReason::NotRequested)
            },
            transactions: if self.kind is Transactions {
                MaterialView::Filtered {
                    value: views(stable_order(group_of(transactions, number))),
                    scope: self.scope_at(number),
                    completeness: Completeness::DatasetDeclared,
                }
            } else {
                MaterialView::Missing(MissingReason::NotRequested)
            },
            receipts: MaterialView::Missing(MissingReason::NotRequested),
            logs: if self.kind is Logs {
                MaterialView::Filtered {
                    value: views(stable_order(group_of(logs, number))),
                    scope: self.scope_at(number),
                    completeness: Completeness::DatasetDeclared,
                }
            } else {
                MaterialView::Missing(MissingReason::NotRequested)
            },
            withdrawals: MaterialView::Missing(MissingReason::NotRequested),
            blob_sidecars: MaterialView::Missing(MissingReason::NotRequested),
            traces: MaterialView::Missing(MissingReason::Unsupported),
            state_diffs: MaterialView::Missing(MissingReason::Unsupported),
            provenance: views(self.provenance@),
        }
    }

    /// The first problem of a block from a number on.
    pub open spec fn first_problem(
        self,
        number: int,
        transactions: Seq<(u64, TransactionEnvelope)>,
        logs: Seq<(u64, Log)>,
    ) -> Option<DataProblem>
        decreases self.range.end.0 + 1 - number,
    {
        if number > self.range.end.0 {
            None
        } else {
            match self.block_problem(number as u64, transactions, logs) {
                Some(problem) => Some(problem),
                None => self.first_problem(number + 1, transactions, logs),
            }
        }
    }

    /// The frames of all blocks of the range.
    pub open spec fn all_frames(
        self,
        transactions: Seq<(u64, TransactionEnvelope)>,
        logs: Seq<(u64, Log)>,
    ) -> Seq<FrameView> {
        Seq::new(
            (self.range.end.0 - self.range.start.0 + 1) as nat,
            |i: int| self.frame_at((self.range.start.0 + i) as u64, transactions, logs),
        )
    }

    /// What the tables join to.
    pub open spec fn is_joined(
        self,
        transactions: Seq<(u64, TransactionEnvelope)>,
        logs: Seq<(u64, Log)>,
        outcome: Result<Vec<BlockFrame>, XatuError>,
    ) -> bool {
        match coverage_problem(self.range, self.execution_blocks@.len(), self.beacon_blocks@.len()) {
            Some(problem) => outcome == Err::<Vec<BlockFrame>, XatuError>(problem),
            None => match self.first_problem(self.range.start.0 as int, transactions, logs) {
                Some(problem) => outcome == Err::<Vec<BlockFrame>, XatuError>(
                    XatuError::Data(problem),
                ),
                None => outcome matches Ok(frames) && views(frames@) == self.all_frames(
                    transactions,
                    logs,
                ),
            },
        }
    }

    fn filter_scope(&self, number: u64) -> (scope: FilterScope)
        ensures
            scope@ == self.scope_at(number),
    {
        let mut scope: FilterScope = self.filters.scope.clone();
        proof {
            lemma_alike_scopes(scope, self.filters.scope);
        }
        scope.block_range = Some(BlockRange::single(BlockNumber(number)));
        if scope.senders.len() == 0 {
            scope.senders = clone_list(&self.filters.senders);
        }
        if scope.recipients.len() == 0 {
            scope.recipients = clone_list(&self.filters.recipients);
        }
        scope
    }

    /// Joins one block, and takes its transactions and logs away.
    fn join_block(
        &self,
        number: u64,
        transactions: &mut Vec<(u64, TransactionEnvelope)>,
        logs: &mut Vec<(u64, Log)>,
    ) -> (outcome: Result<BlockFrame, DataProblem>)
        ensures
            final(transactions)@ == old(transactions)@ || final(transactions)@ == without_group(
                old(transactions)@,
                number,
            ),
            final(logs)@ == old(logs)@ || final(logs)@ == without_group(old(logs)@, number),
            match (outcome, self.block_problem(number, old(transactions)@, old(logs)@)) {
                (Ok(frame), None) => frame@ == self.frame_at(
                    number,
                    old(transactions)@,
                    old(logs)@,
                ),
                (Err(problem), Some(expected)) => problem == expected,
                _ => false,
            },
    {
        let execution: GenericExecutionBlockRow = match find_execution(
            &self.execution_blocks,
            number,
        ) {
            Some(at) => self.execution_blocks[at],
            None => {
                return Err(DataProblem::MissingExecutionBlock(number));
            },
        };
        let beacon: GenericBeaconBlockRow = match find_beacon(&self.beacon_blocks, number) {
            Some(at) => self.beacon_blocks[at],
            None => {
                return Err(DataProblem::MissingBeaconBlock(number));
            },
        };
        if execution.hash != beacon.hash || execution.timestamp != beacon.timestamp {
            return Err(DataProblem::BlockDisagreement(number));
        }
        let header: Material<HeaderEnvelope> = if self.include_header {
            Material::Filtered {
                value: HeaderEnvelope {
                    rlp: None,
                    transactions_root: None,
                    receipts_root: None,
                    withdrawals_root: None,
                    gas_limit: None,
                    gas_used: None,
                    base_fee_per_gas: None,
                    blob_gas_used: None,
                    excess_blob_gas: None,
                    size_bytes: None,
                    transaction_count: Some(beacon.transaction_count),
                    consensus_size_bytes: None,
                },
                scope: block_filter_scope(BlockNumber(number)),
                completeness: Completeness::DatasetDeclared,
            }
        } else {
            Material::Missing(MissingReason::NotRequested)
        };
        let mut taken: Material<Vec<TransactionEnvelope>> = Material::Missing(
            MissingReason::NotRequested,
        );
        let mut found: Material<Vec<Log>> = Material::Missing(MissingReason::NotRequested);
        match self.kind {
            GenericProjectionKind::Headers => {},
            GenericProjectionKind::Transactions => {
                let value: Vec<TransactionEnvelope> = stable_sort(take_group(transactions, number));
                if repeated_transaction(&value) {
                    return Err(DataProblem::DuplicateTransactionIndex(number));
                }
                taken = Material::Filtered {
                    value,
                    scope: self.filter_scope(number),
                    completeness: Completeness::DatasetDeclared,
                };
            },
            GenericProjectionKind::Logs => {
                let value: Vec<Log> = stable_sort(take_group(logs, number));
                if repeated_log(&value) {
                    return Err(DataProblem::DuplicateLogIndex(number));
                }
                found = Material::Filtered {
                    value,
                    scope: self.filter_scope(number),
                    completeness: Completeness::DatasetDeclared,
                };
            },
        }
        Ok(
            BlockFrame {
                chain_id: ChainId(1),
                block: BlockRef {
                    number: BlockNumber(number),
                    hash: beacon.hash,
                    parent_hash: beacon.parent_hash,
                    timestamp: beacon.timestamp,
                },
                finality: Finality::Finalized,
                header,
                transactions: taken,
                receipts: Material::Missing(MissingReason::NotRequested),
                logs: found,
                withdrawals: Material::Missing(MissingReason::NotRequested),
                blob_sidecars: Material::Missing(MissingReason::NotRequested),
                traces: Material::Missing(MissingReason::Unsupported),
                state_diffs: Material::Missing(MissingReason::Unsupported),
                provenance: clone_provenance(&self.provenance),
            },
        )
    }
}

/// Every group from a number on is as it was.
pub open spec fn groups_kept<T>(
    left: Seq<(u64, T)>,
    given: Seq<(u64, T)>,
    number: int,
) -> bool {
    forall|group: u64|
        group >= number ==> #[trigger] group_of(left, group) == group_of(given, group)
}

proof fn lemma_groups_kept<T>(
    left: Seq<(u64, T)>,
    after: Seq<(u64, T)>,
    given: Seq<(u64, T)>,
    number: u64,
)
    requires
        groups_kept(left, given, number as int),
        after == left || after == without_group(left, number),
    ensures
        groups_kept(after, given, number + 1),
{
    assert forall|group: u64| group >= number + 1 implies #[trigger] group_of(after, group)
        == group_of(given, group) by {
        lemma_other_groups(left, number, group);
        assert(group_of(left, group) == group_of(given, group));
    }
}

/// Joins the tables of a range into one frame for every block.
pub fn normalize_generic_frames(
    tables: &GenericTables,
    transactions: Vec<(u64, TransactionEnvelope)>,
    logs: Vec<(u64, Log)>,
) -> (outcome: Result<Vec<BlockFrame>, XatuError>)
    requires
        tables.range.wf(),
    ensures
        tables.is_joined(transactions@, logs@, outcome),
{
    check_coverage(tables.range, tables.execution_blocks.len(), tables.beacon_blocks.len())?;
    let ghost given = transactions@;
    let ghost given_logs = logs@;
    let mut left: Vec<(u64, TransactionEnvelope)> = transactions;
    let mut left_logs: Vec<(u64, Log)> = logs;
    let mut frames: Vec<BlockFrame> = Vec::new();
    let mut number: u64 = tables.range.start.0;
    let ghost start = tables.range.start.0 as int;
    loop
        invariant_except_break
            start <= number <= tables.range.end.0,
            frames@.len() == number - start,
            tables.first_problem(start, given, given_logs) == tables.first_problem(
                number as int,
                given,
                given_logs,
            ),
            groups_kept(left@, given, number as int),
            groups_kept(left_logs@, given_logs, number as int),
        invariant
            coverage_problem(
                tables.range,
                tables.execution_blocks@.len(),
                tables.beacon_blocks@.len(),
            ) is None,
            start == tables.range.start.0,
            given == transactions@,
            given_logs == logs@,
            forall|i: int|
                0 <= i < frames@.len() ==> (#[trigger] frames@[i])@ == tables.frame_at(
                    (start + i) as u64,
                    given,
                    given_logs,
                ),
        ensures
            frames@.len() == tables.range.end.0 - start + 1,
            tables.first_problem(start, given, given_logs) is None,
        decreases tables.range.end.0 - number,
    {
        let ghost before = left@;
        let ghost before_logs = left_logs@;
        proof {
            assert(group_of(before, number) == group_of(given, number));
            assert(group_of(before_logs, number) == group_of(given_logs, number));
        }
        match tables.join_block(number, &mut left, &mut left_logs) {
            Ok(frame) => {
                frames.push(frame);
                proof {
                    lemma_groups_kept(before, left@, given, number);
                    lemma_groups_kept(before_logs, left_logs@, given_logs, number);
                }
            },
            Err(problem) => {
                return Err(XatuError::Data(problem));
            },
        }
        if number == tables.range.end.0 {
            proof {
                assert(tables.first_problem(number + 1, given, given_logs) is None);
            }
            break ;
        }
        number = number + 1;
    }
    assert(views(frames@) =~= tables.all_frames(given, given_logs));
    Ok(frames)
}

} // verus!
