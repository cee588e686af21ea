//! Projections of headers, transactions or logs, object by object and table by
//! table.

use crate::frame::{BlockFrame, Log, TransactionEnvelope};
use crate::frame_view::views;
use crate::primitives::BlockRange;
use crate::request::{FilterSet, LogFieldSet, SourceBudget};
use crate::xatu::catalog::{CatalogObject, XatuCatalog, XatuTable};
use crate::xatu::columns::RowBatch;
use crate::xatu::dates::XatuDate;
use crate::xatu::error::{DataProblem, XatuError};
use crate::xatu::generic::{normalize_generic_frames, GenericProjectionKind, GenericTables};
use crate::xatu::projection::{
    block_days, charged_with, check_start, counts, is_days_problem, spans_days, start_problem,
    ObjectQueue, ProjectedFrames, XatuBlobsProjector,
};
use crate::xatu::reading::{
    generic_log_columns, log_columns, provenances, spec_provenances, ProjectionObjectMetrics,
};
use crate::xatu::rows::{
    gather, gather_unique, gathered, gathered_unique, GenericBeaconBlockRow, GenericBeaconBlocks,
    GenericExecutionBlockRow, GenericExecutionBlocks, GenericLogs, GenericTransactions,
};
use vstd::prelude::*;

verus! {

/// The table that a projection reads.
#[derive(Clone, Copy, Debug, PartialEq, Eq, Structural)]
pub enum GenericStage {
    ExecutionBlocks,
    BeaconBlocks,
    Transactions,
    Logs,
    Joined,
}

impl GenericStage {
    pub open spec fn spec_table(self) -> Option<XatuTable> {
        match self {
            GenericStage::ExecutionBlocks => Some(XatuTable::CanonicalExecutionBlock),
            GenericStage::BeaconBlocks => Some(XatuTable::CanonicalBeaconBlock),
            GenericStage::Transactions => Some(XatuTable::CanonicalExecutionTransaction),
            GenericStage::Logs => Some(XatuTable::CanonicalExecutionLogs),
            GenericStage::Joined => None,
        }
    }

    /// The columns of stages whose columns do not depend on a request.
    pub open spec fn fixed_columns(self) -> Seq<&'static str> {
        match self {
            GenericStage::ExecutionBlocks => seq![
                "block_date_time",
                "block_number",
                "block_hash",
            ],
            GenericStage::BeaconBlocks => seq![
                "slot_start_date_time",
                "execution_payload_block_hash",
                "execution_payload_block_number",
                "execution_payload_parent_hash",
                "execution_payload_transactions_count",
            ],
            GenericStage::Transactions => seq![
                "block_number",
                "transaction_index",
                "transaction_hash",
                "nonce",
                "from_address",
                "to_address",
                "value",
                "input",
                "gas_limit",
                "transaction_type",
            ],
            _ => Seq::empty(),
        }
    }

    pub fn columns(self) -> (columns: &'static [&'static str])
        ensures
            columns@ == self.fixed_columns(),
    {
        let columns: &'static [&'static str] = match self {
            GenericStage::ExecutionBlocks => &[
                "block_date_time",
                "block_number",
                "block_hash",
            ],
            GenericStage::BeaconBlocks => &[
                "slot_start_date_time",
                "execution_payload_block_hash",
                "execution_payload_block_number",
                "execution_payload_parent_hash",
                "execution_payload_transactions_count",
            ],
            GenericStage::Transactions => &[
                "block_number",
                "transaction_index",
                "transaction_hash",
                "nonce",
                "from_address",
                "to_address",
                "value",
                "input",
                "gas_limit",
                "transaction_type",
            ],
            _ => &[],
        };
        assert(columns@ =~= self.fixed_columns());
        columns
    }

    /// The stage after this one, for a kind of projection.
    pub open spec fn spec_next(self, kind: GenericProjectionKind) -> GenericStage {
        match (self, kind) {
            (GenericStage::ExecutionBlocks, _) => GenericStage::BeaconBlocks,
            (
                GenericStage::BeaconBlocks,
                GenericProjectionKind::Transactions,
            ) => GenericStage::Transactions,
            (GenericStage::BeaconBlocks, GenericProjectionKind::Logs) => GenericStage::Logs,
            _ => GenericStage::Joined,
        }
    }
}

/// A projection of headers, transactions or logs in progress.
#[derive(Debug)]
pub struct GenericRun {
    pub queue: ObjectQueue,
    pub stage: GenericStage,
    pub kind: GenericProjectionKind,
    pub filters: FilterSet,
    pub log_fields: LogFieldSet,
    pub include_header: bool,
    pub execution_blocks: Vec<GenericExecutionBlockRow>,
    pub beacon_blocks: Vec<GenericBeaconBlockRow>,
    pub transactions: Vec<(u64, TransactionEnvelope)>,
    pub logs: Vec<(u64, Log)>,
}

impl XatuBlobsProjector {
    /// Starts to project a view of a range. Execution blocks tell the days of
    /// the beacon tables, and these the parents of blocks.
    pub fn project_generic(
        &self,
        range: BlockRange,
        kind: GenericProjectionKind,
        filters: &FilterSet,
        log_fields: LogFieldSet,
        include_header: bool,
        budget: SourceBudget,
        batch_rows: usize,
    ) -> (outcome: Result<GenericRun, XatuError>)
        requires
            range.wf(),
        ensures
            match start_problem(budget, batch_rows) {
                Some(problem) => outcome == Err::<GenericRun, XatuError>(problem),
                None => match outcome {
                    Ok(run) => {
                        &&& self.catalog.chunks_resolve(XatuTable::CanonicalExecutionBlock, range)
                        &&& run.is_begun(self.catalog, range, kind, budget)
                        &&& run.filters.alike(*filters)
                        &&& run.log_fields == log_fields
                        &&& run.include_header == include_header
                    },
                    Err(error) => self.catalog.is_chunk_problem(
                        XatuTable::CanonicalExecutionBlock,
                        range,
                        error,
                    ),
                },
            },
    {
        check_start(budget, batch_rows)?;
        let objects: Vec<CatalogObject> = self.catalog.execution_objects(
            XatuTable::CanonicalExecutionBlock,
            range,
        )?;
        Ok(
            GenericRun {
                queue: ObjectQueue {
                    catalog: self.catalog.clone(),
                    range,
                    dates: None,
                    budget,
                    objects,
                    next: 0,
                    projected_bytes: 0,
                    charged: 0,
                    metrics: Vec::new(),
                },
                stage: GenericStage::ExecutionBlocks,
                kind,
                filters: filters.clone(),
                log_fields,
                include_header,
                execution_blocks: Vec::new(),
                beacon_blocks: Vec::new(),
                transactions: Vec::new(),
                logs: Vec::new(),
            },
        )
    }
}

impl GenericRun {
    /// Nothing has been read yet.
    pub open spec fn is_begun(
        self,
        catalog: XatuCatalog,
        range: BlockRange,
        kind: GenericProjectionKind,
        budget: SourceBudget,
    ) -> bool {
        &&& self.wf()
        &&& self.stage == GenericStage::ExecutionBlocks
        &&& self.kind == kind
        &&& self.queue.catalog == catalog
        &&& self.queue.range == range
        &&& self.queue.dates is None
        &&& self.queue.budget == budget
        &&& self.queue.next == 0
        &&& self.queue.projected_bytes == 0
        &&& self.queue.charged == 0
        &&& self.queue.metrics@.len() == 0
        &&& self.execution_blocks@.len() == 0
        &&& self.beacon_blocks@.len() == 0
        &&& self.transactions@.len() == 0
        &&& self.logs@.len() == 0
    }

    /// The objects are those of the stage's table, and their bytes are in
    /// budget.
    pub open spec fn wf(self) -> bool {
        &&& self.queue.range.wf()
        &&& self.queue.in_budget()
        &&& match self.stage.spec_table() {
            Some(table) => self.queue.wf() && self.queue.lists(table),
            None => true,
        }
        &&& self.stage is ExecutionBlocks || self.queue.dates is Some
    }

    pub open spec fn spec_columns(self) -> Seq<&'static str> {
        if self.stage is Logs {
            log_columns(self.log_fields, self.filters)
        } else {
            self.stage.fixed_columns()
        }
    }

    /// The columns that the stage reads.
    pub fn columns(&self) -> (columns: &'static [&'static str])
        ensures
            columns@ == self.spec_columns(),
    {
        match self.stage {
            GenericStage::Logs => generic_log_columns(self.log_fields, &self.filters),
            stage => stage.columns(),
        }
    }

    /// What a batch adds to the stage's table, and why it stops.
    pub open spec fn is_consumed(
        self,
        after: GenericRun,
        batch: RowBatch,
        outcome: Result<u64, XatuError>,
    ) -> bool {
        match self.stage {
            GenericStage::ExecutionBlocks => {
                let (rows, problem) = gathered_unique(
                    (GenericExecutionBlocks { range: self.queue.range }),
                    batch,
                    0,
                    views(self.execution_blocks@),
                );
                &&& after == (GenericRun { execution_blocks: after.execution_blocks, ..self })
                &&& views(after.execution_blocks@) == rows
                &&& counts(
                    batch,
                    outcome,
                    problem,
                    after.execution_blocks@.len() - self.execution_blocks@.len(),
                )
            },
            GenericStage::BeaconBlocks => {
                let (rows, problem) = gathered_unique(
                    (GenericBeaconBlocks { range: self.queue.range }),
                    batch,
                    0,
                    views(self.beacon_blocks@),
                );
                &&& after == (GenericRun { beacon_blocks: after.beacon_blocks, ..self })
                &&& views(after.beacon_blocks@) == rows
                &&& counts(
                    batch,
                    outcome,
                    problem,
                    after.beacon_blocks@.len() - self.beacon_blocks@.len(),
                )
            },
            GenericStage::Transactions => {
                let (rows, problem) = gathered(
                    (GenericTransactions { range: self.queue.range, filters: &self.filters }),
                    batch,
                    0,
                    views(self.transactions@),
                );
                &&& after == (GenericRun { transactions: after.transactions, ..self })
                &&& views(after.transactions@) == rows
                &&& counts(batch, outcome, problem, after.transactions@.len() - self.transactions@.len())
            },
            GenericStage::Logs => {
                let (rows, problem) = gathered(
                    (GenericLogs {
                        range: self.queue.range,
                        filters: &self.filters,
                        log_fields: self.log_fields,
                    }),
                    batch,
                    0,
                    views(self.logs@),
                );
                &&& after == (GenericRun { logs: after.logs, ..self })
                &&& views(after.logs@) == rows
                &&& counts(batch, outcome, problem, after.logs@.len() - self.logs@.len())
            },
            GenericStage::Joined => after == self && outcome == Ok::<u64, XatuError>(0),
        }
    }

    /// Adds the rows of a batch to the stage's table.
    pub fn consume(&mut self, batch: &RowBatch) -> (outcome: Result<u64, XatuError>)
        requires
            batch.wf(),
        ensures
            old(self).is_consumed(*final(self), *batch, outcome),
    {
        let outcome: Result<u64, DataProblem> = match self.stage {
            GenericStage::ExecutionBlocks => {
                let reader: GenericExecutionBlocks = GenericExecutionBlocks {
                    range: self.queue.range,
                };
                gather_unique(&reader, batch, &mut self.execution_blocks)
            },
            GenericStage::BeaconBlocks => {
                let reader: GenericBeaconBlocks = GenericBeaconBlocks { range: self.queue.range };
                gather_unique(&reader, batch, &mut self.beacon_blocks)
            },
            GenericStage::Transactions => {
                let reader: GenericTransactions = GenericTransactions {
                    range: self.queue.range,
                    filters: &self.filters,
                };
                gather(&reader, batch, &mut self.transactions)
            },
            GenericStage::Logs => {
                let reader: GenericLogs = GenericLogs {
                    range: self.queue.range,
                    filters: &self.filters,
                    log_fields: self.log_fields,
                };
                gather(&reader, batch, &mut self.logs)
            },
            GenericStage::Joined => Ok(0),
        };
        match outcome {
            Ok(selected) => Ok(selected),
            Err(problem) => Err(batch.row_error(problem)),
        }
    }

    /// All but the place of reading is as it was.
    pub open spec fn same_tables(self, other: GenericRun) -> bool {
        &&& self == (GenericRun { queue: self.queue, stage: self.stage, ..other })
        &&& self.queue.catalog == other.queue.catalog
        &&& self.queue.range == other.queue.range
        &&& self.queue.budget == other.queue.budget
        &&& self.queue.projected_bytes == other.queue.projected_bytes
    }

    /// The dates that the beacon tables are read for.
    pub open spec fn dates_known(self, after: GenericRun) -> bool {
        if self.stage is ExecutionBlocks {
            after.queue.dates matches Some(dates) && spans_days(self.execution_blocks@, dates)
        } else {
            after.queue.dates == self.queue.dates
        }
    }

    /// Records an object that was read. After the last one of a table, goes
    /// on to the next table.
    pub fn finish_object(&mut self, metrics: ProjectionObjectMetrics) -> (outcome: Result<
        (),
        XatuError,
    >)
        requires
            old(self).wf(),
            old(self).stage.spec_table() is Some,
        ensures
            final(self).same_tables(*old(self)),
            final(self).queue.metrics@ == old(self).queue.metrics@.push(
                charged_with(metrics, old(self).queue.charged),
            ),
            final(self).queue.charged == 0,
            outcome is Ok ==> final(self).wf(),
            if old(self).queue.next + 1 < old(self).queue.objects@.len() {
                &&& outcome is Ok
                &&& final(self).stage == old(self).stage
                &&& final(self).queue.dates == old(self).queue.dates
                &&& final(self).queue.objects == old(self).queue.objects
                &&& final(self).queue.next == old(self).queue.next + 1
            } else {
                match outcome {
                    Ok(()) => {
                        &&& final(self).stage == old(self).stage.spec_next(old(self).kind)
                        &&& old(self).dates_known(*final(self))
                        &&& final(self).stage.spec_table() matches Some(table) ==> {
                            final(self).queue.next == 0 && final(self).queue.locates(table)
                        }
                    },
                    Err(error) => {
                        ||| old(self).stage is ExecutionBlocks && is_days_problem(
                            old(self).execution_blocks@,
                            error,
                        )
                        ||| old(self).dates_known(*final(self)) && (
                        old(self).stage.spec_next(old(self).kind).spec_table() matches Some(table)
                            && final(self).queue.is_locate_problem(table, error))
                    },
                }
            },
    {
        if !self.queue.record(metrics) {
            return Ok(());
        }
        match self.stage {
            GenericStage::ExecutionBlocks => {
                let dates: (XatuDate, XatuDate) = block_days(&self.execution_blocks)?;
                self.queue.dates = Some(dates);
                self.queue.open_table(XatuTable::CanonicalBeaconBlock)?;
                self.stage = GenericStage::BeaconBlocks;
            },
            GenericStage::BeaconBlocks => {
                match self.kind {
                    GenericProjectionKind::Headers => {
                        self.stage = GenericStage::Joined;
                    },
                    GenericProjectionKind::Transactions => {
                        self.queue.open_table(XatuTable::CanonicalExecutionTransaction)?;
                        self.stage = GenericStage::Transactions;
                    },
                    GenericProjectionKind::Logs => {
                        self.queue.open_table(XatuTable::CanonicalExecutionLogs)?;
                        self.stage = GenericStage::Logs;
                    },
                }
            },
            _ => {
                self.stage = GenericStage::Joined;
            },
        }
        Ok(())
    }

    /// The tables as frames are joined from them.
    pub open spec fn joins(self, tables: GenericTables, now: u64) -> bool {
        &&& tables.range == self.queue.range
        &&& tables.kind == self.kind
        &&& tables.include_header == self.include_header
        &&& tables.filters == self.filters
        &&& tables.execution_blocks == self.execution_blocks
        &&& tables.beacon_blocks == self.beacon_blocks
        &&& views(tables.provenance@) == spec_provenances(
            self.queue.metrics@,
            self.queue.range,
            now,
        )
    }

    /// Joins the tables into frames, once all are read.
    pub fn join(self, now: u64) -> (outcome: Result<ProjectedFrames, XatuError>)
        requires
            self.wf(),
            self.stage is Joined,
        ensures
            exists|tables: GenericTables| #[trigger]
                self.joins(tables, now) && match outcome {
                    Ok(projected) => {
                        &&& tables.is_joined(
                            self.transactions@,
                            self.logs@,
                            Ok::<Vec<BlockFrame>, XatuError>(projected.frames),
                        )
                        &&& projected.range == self.queue.range
                        &&& projected.budget == self.queue.budget
                        &&& projected.objects == self.queue.metrics
                        &&& projected.in_budget()
                    },
                    Err(error) => tables.is_joined(
                        self.transactions@,
                        self.logs@,
                        Err::<Vec<BlockFrame>, XatuError>(error),
                    ),
                },
    {
        let provenance = provenances(&self.queue.metrics, self.queue.range, now);
        let tables: GenericTables = GenericTables {
            range: self.queue.range,
            kind: self.kind,
            include_header: self.include_header,
            filters: self.filters,
            execution_blocks: self.execution_blocks,
            beacon_blocks: self.beacon_blocks,
            provenance,
        };
        assert(self.joins(tables, now));
        match normalize_generic_frames(&tables, self.transactions, self.logs) {
            Ok(frames) => Ok(
                ProjectedFrames {
                    range: self.queue.range,
                    budget: self.queue.budget,
                    frames,
                    objects: self.queue.metrics,
                },
            ),
            Err(error) => Err(error),
        }
    }
}

} // verus!
