//! What reading the objects of a projection costs, selects and records.

use crate::frame::{ObjectIdentity, Provenance};
use crate::frame_view::{text_view, views, ObjectIdentityView, ProvenanceView};
use crate::primitives::{BlockRange, TrustModel};
use crate::request::{FilterSet, LogField, LogFieldSet, SourceBudget, SourceKind};
use crate::text::{clone_texts, joined, same_text, texts};
use crate::xatu::catalog::XatuTable;
use crate::xatu::error::{DataProblem, XatuError};
use crate::xatu::rows::needs_transaction_hash;
use crate::xatu::sizes::capped;
use vstd::prelude::*;

verus! {

/// What reading one object took.
#[derive(Debug)]
pub struct ProjectionObjectMetrics {
    pub table: XatuTable,
    pub partition: String,
    pub locator: String,
    pub e_tag: Option<String>,
    pub object_bytes: u64,
    pub projected_compressed_bytes: u64,
    pub logical_range_requests: u64,
    pub fetched_bytes: u64,
    pub selected_columns: Vec<String>,
    pub rows_scanned: u64,
    pub rows_selected: u64,
    pub batches: u64,
    pub peak_batch_memory_bytes: u64,
    pub elapsed_ms: u64,
}

/// What a projection took.
#[derive(Debug)]
pub struct ProjectionMetrics {
    pub objects: Vec<ProjectionObjectMetrics>,
    pub object_bytes: u64,
    pub projected_compressed_bytes: u64,
    pub logical_range_requests: u64,
    pub fetched_bytes: u64,
    pub rows_scanned: u64,
    pub rows_selected: u64,
    pub frames: u64,
    pub blob_transactions: u64,
    pub elapsed_ms: u64,
}

impl ProjectionObjectMetrics {
    /// Where material read from the object came from.
    pub open spec fn spec_provenance(self, range: BlockRange, now: u64) -> ProvenanceView {
        ProvenanceView {
            source_id: "xatu-public"@,
            source_kind: SourceKind::PublicDataset,
            trust: TrustModel::TrustedDataset,
            range: Some(range),
            object: Some(
                ObjectIdentityView {
                    locator: self.locator@,
                    version: text_view(self.e_tag),
                    checksum: None,
                    schema: Some("xatu."@ + self.table.spec_name()@ + ".v1"@),
                },
            ),
            observed_at_unix_ms: now,
            projection: texts(self.selected_columns@),
        }
    }

    pub fn provenance(&self, range: BlockRange, now: u64) -> (provenance: Provenance)
        ensures
            provenance@ == self.spec_provenance(range, now),
    {
        let mut schema: String = joined("xatu.", self.table.name());
        schema.append(".v1");
        Provenance {
            source_id: "xatu-public".to_owned(),
            source_kind: SourceKind::PublicDataset,
            trust: TrustModel::TrustedDataset,
            range: Some(range),
            object: Some(
                ObjectIdentity {
                    locator: self.locator.clone(),
                    version: match &self.e_tag {
                        Some(tag) => Some(tag.clone()),
                        None => None,
                    },
                    checksum: None,
                    schema: Some(schema),
                },
            ),
            observed_at_unix_ms: now,
            projection: clone_texts(&self.selected_columns),
        }
    }
}

/// The provenances of all objects, in order.
pub open spec fn spec_provenances(
    metrics: Seq<ProjectionObjectMetrics>,
    range: BlockRange,
    now: u64,
) -> Seq<ProvenanceView> {
    metrics.map_values(|metric: ProjectionObjectMetrics| metric.spec_provenance(range, now))
}

pub fn provenances(metrics: &Vec<ProjectionObjectMetrics>, range: BlockRange, now: u64) -> (list:
    Vec<Provenance>)
    ensures
        views(list@) == spec_provenances(metrics@, range, now),
{
    let mut list: Vec<Provenance> = Vec::new();
    let mut index: usize = 0;
    while index < metrics.len()
        invariant
            index <= metrics@.len(),
            list@.len() == index,
            forall|i: int|
                0 <= i < index ==> (#[trigger] list@[i])@ == metrics@[i].spec_provenance(
                    range,
                    now,
                ),
        decreases metrics@.len() - index,
    {
        list.push(metrics[index].provenance(range, now));
        index += 1;
    }
    assert(views(list@) =~= spec_provenances(metrics@, range, now));
    list
}

/// The sums over a projection's objects.
pub struct ObjectTotals {
    pub object_bytes: int,
    pub projected_compressed_bytes: int,
    pub logical_range_requests: int,
    pub fetched_bytes: int,
    pub rows_scanned: int,
    pub rows_selected: int,
}

pub open spec fn totals_of(metrics: Seq<ProjectionObjectMetrics>) -> ObjectTotals
    decreases metrics.len(),
{
    if metrics.len() == 0 {
        ObjectTotals {
            object_bytes: 0,
            projected_compressed_bytes: 0,
            logical_range_requests: 0,
            fetched_bytes: 0,
            rows_scanned: 0,
            rows_selected: 0,
        }
    } else {
        let before = totals_of(metrics.drop_last());
        let last = metrics.last();
        ObjectTotals {
            object_bytes: before.object_bytes + last.object_bytes,
            projected_compressed_bytes: before.projected_compressed_bytes
                + last.projected_compressed_bytes,
            logical_range_requests: before.logical_range_requests + last.logical_range_requests,
            fetched_bytes: before.fetched_bytes + last.fetched_bytes,
            rows_scanned: before.rows_scanned + last.rows_scanned,
            rows_selected: before.rows_selected + last.rows_selected,
        }
    }
}

impl ProjectionMetrics {
    /// The metrics sum up their objects, each number as far as it can be
    /// counted.
    pub open spec fn sums_up(self) -> bool {
        let totals = totals_of(self.objects@);
        &&& self.object_bytes == capped(totals.object_bytes)
        &&& self.projected_compressed_bytes == capped(totals.projected_compressed_bytes)
        &&& self.logical_range_requests == capped(totals.logical_range_requests)
        &&& self.fetched_bytes == capped(totals.fetched_bytes)
        &&& self.rows_scanned == capped(totals.rows_scanned)
        &&& self.rows_selected == capped(totals.rows_selected)
    }

    /// Sums up what reading objects took.
    pub fn summarize(
        objects: Vec<ProjectionObjectMetrics>,
        frames: u64,
        blob_transactions: u64,
        elapsed_ms: u64,
    ) -> (metrics: ProjectionMetrics)
        ensures
            metrics.objects == objects,
            metrics.sums_up(),
            metrics.frames == frames,
            metrics.blob_transactions == blob_transactions,
            metrics.elapsed_ms == elapsed_ms,
    {
        let mut object_bytes: u64 = 0;
        let mut projected_compressed_bytes: u64 = 0;
        let mut logical_range_requests: u64 = 0;
        let mut fetched_bytes: u64 = 0;
        let mut rows_scanned: u64 = 0;
        let mut rows_selected: u64 = 0;
        let mut index: usize = 0;
        while index < objects.len()
            invariant
                index <= objects@.len(),
                ({
                    let totals = totals_of(objects@.take(index as int));
                    &&& totals.object_bytes >= 0 && object_bytes == capped(totals.object_bytes)
                    &&& totals.projected_compressed_bytes >= 0 && projected_compressed_bytes
                        == capped(totals.projected_compressed_bytes)
                    &&& totals.logical_range_requests >= 0 && logical_range_requests == capped(
                        totals.logical_range_requests,
                    )
                    &&& totals.fetched_bytes >= 0 && fetched_bytes == capped(totals.fetched_bytes)
                    &&& totals.rows_scanned >= 0 && rows_scanned == capped(totals.rows_scanned)
                    &&& totals.rows_selected >= 0 && rows_selected == capped(totals.rows_selected)
                }),
            decreases objects@.len() - index,
        {
            proof {
                let longer = objects@.take(index + 1);
                assert(longer.drop_last() =~= objects@.take(index as int));
                assert(longer.last() == objects@[index as int]);
            }
            object_bytes = object_bytes.saturating_add(objects[index].object_bytes);
            projected_compressed_bytes = projected_compressed_bytes.saturating_add(
                objects[index].projected_compressed_bytes,
            );
            logical_range_requests = logical_range_requests.saturating_add(
                objects[index].logical_range_requests,
            );
            fetched_bytes = fetched_bytes.saturating_add(objects[index].fetched_bytes);
            rows_scanned = rows_scanned.saturating_add(objects[index].rows_scanned);
            rows_selected = rows_selected.saturating_add(objects[index].rows_selected);
            index += 1;
        }
        assert(objects@.take(index as int) =~= objects@);
        ProjectionMetrics {
            objects,
            object_bytes,
            projected_compressed_bytes,
            logical_range_requests,
            fetched_bytes,
            rows_scanned,
            rows_selected,
            frames,
            blob_transactions,
            elapsed_ms,
        }
    }
}

/// What has been read of one object so far.
#[derive(Clone, Copy, Debug, PartialEq, Eq, Structural)]
pub struct ObjectProgress {
    pub rows_scanned: u64,
    pub rows_selected: u64,
    pub batches: u64,
    pub peak_batch_memory_bytes: u64,
}

impl ObjectProgress {
    pub fn new() -> (progress: ObjectProgress)
        ensures
            progress == (ObjectProgress {
                rows_scanned: 0,
                rows_selected: 0,
                batches: 0,
                peak_batch_memory_bytes: 0,
            }),
    {
        ObjectProgress {
            rows_scanned: 0,
            rows_selected: 0,
            batches: 0,
            peak_batch_memory_bytes: 0,
        }
    }

    /// Counts one batch.
    pub fn note(&mut self, rows: u64, selected: u64, memory_bytes: u64)
        ensures
            *final(self) == (ObjectProgress {
                rows_scanned: capped(old(self).rows_scanned + rows),
                rows_selected: capped(old(self).rows_selected + selected),
                batches: capped(old(self).batches + 1),
                peak_batch_memory_bytes: if memory_bytes > old(self).peak_batch_memory_bytes {
                    memory_bytes
                } else {
                    old(self).peak_batch_memory_bytes
                },
            }),
    {
        self.rows_scanned = self.rows_scanned.saturating_add(rows);
        self.rows_selected = self.rows_selected.saturating_add(selected);
        self.batches = self.batches.saturating_add(1);
        if memory_bytes > self.peak_batch_memory_bytes {
            self.peak_batch_memory_bytes = memory_bytes;
        }
    }
}

/// The first field of a name, from `from` on.
pub open spec fn field_from(fields: Seq<String>, name: Seq<char>, from: int) -> Option<int>
    decreases fields.len() - from,
{
    if from < 0 || from >= fields.len() {
        None
    } else if fields[from]@ == name {
        Some(from)
    } else {
        field_from(fields, name, from + 1)
    }
}

/// The first column that no field has, from `from` on.
pub open spec fn first_unknown(
    fields: Seq<String>,
    columns: Seq<&'static str>,
    from: int,
) -> Option<&'static str>
    decreases columns.len() - from,
{
    if from < 0 || from >= columns.len() {
        None
    } else if field_from(fields, columns[from]@, 0) is None {
        Some(columns[from])
    } else {
        first_unknown(fields, columns, from + 1)
    }
}

fn find_field(fields: &Vec<String>, name: &str) -> (at: Option<usize>)
    ensures
        match at {
            Some(at) => field_from(fields@, name@, 0) == Some(at as int),
            None => field_from(fields@, name@, 0) is None,
        },
{
    let mut index: usize = 0;
    while index < fields.len()
        invariant
            index <= fields@.len(),
            field_from(fields@, name@, 0) == field_from(fields@, name@, index as int),
        decreases fields@.len() - index,
    {
        if same_text(fields[index].as_str(), name) {
            return Some(index);
        }
        index += 1;
    }
    None
}

/// Finds the columns to read among the fields of a schema.
pub fn selected_root_indices(fields: &Vec<String>, columns: &[&'static str]) -> (outcome: Result<
    Vec<usize>,
    XatuError,
>)
    ensures
        match first_unknown(fields@, columns@, 0) {
            Some(name) => outcome == Err::<Vec<usize>, XatuError>(
                XatuError::Data(DataProblem::MissingProjectedColumn(name)),
            ),
            None => {
                &&& outcome is Ok
                &&& outcome->Ok_0@.len() == columns@.len()
                &&& forall|i: int|
                    0 <= i < columns@.len() ==> field_from(fields@, #[trigger] columns@[i]@, 0)
                        == Some(outcome->Ok_0@[i] as int)
            },
        },
{
    let mut indices: Vec<usize> = Vec::new();
    let mut index: usize = 0;
    while index < columns.len()
        invariant
            index <= columns@.len(),
            indices@.len() == index,
            first_unknown(fields@, columns@, 0) == first_unknown(fields@, columns@, index as int),
            forall|i: int|
                0 <= i < index ==> field_from(fields@, #[trigger] columns@[i]@, 0) == Some(
                    indices@[i] as int,
                ),
        decreases columns@.len() - index,
    {
        match find_field(fields, columns[index]) {
            Some(at) => {
                indices.push(at);
            },
            None => {
                return Err(
                    XatuError::Data(DataProblem::MissingProjectedColumn(columns[index])),
                );
            },
        }
        index += 1;
    }
    Ok(indices)
}

/// One column chunk of an object: the root it belongs to, and its compressed
/// size.
#[derive(Clone, Copy, Debug, PartialEq, Eq, Structural)]
pub struct ColumnChunk {
    pub root: usize,
    pub compressed_size: i64,
}

/// Bytes of the chunks whose roots are read. A negative size counts nothing.
pub open spec fn chunk_bytes(chunks: Seq<ColumnChunk>, roots: Seq<usize>) -> int
    decreases chunks.len(),
{
    if chunks.len() == 0 {
        0
    } else {
        let last = chunks.last();
        chunk_bytes(chunks.drop_last(), roots) + if roots.contains(last.root)
            && last.compressed_size > 0 {
            last.compressed_size as int
        } else {
            0
        }
    }
}

fn holds_index(list: &Vec<usize>, value: usize) -> (found: bool)
    ensures
        found == list@.contains(value),
{
    let mut index: usize = 0;
    while index < list.len()
        invariant
            index <= list@.len(),
            forall|i: int| 0 <= i < index ==> #[trigger] list@[i] != value,
        decreases list@.len() - index,
    {
        if list[index] == value {
            assert(list@[index as int] == value);
            return true;
        }
        index += 1;
    }
    false
}

/// Counts the compressed bytes that reading the chosen columns takes.
pub fn projected_compressed_bytes(chunks: &Vec<ColumnChunk>, roots: &Vec<usize>) -> (bytes: u64)
    ensures
        bytes == capped(chunk_bytes(chunks@, roots@)),
{
    let mut bytes: u64 = 0;
    let mut index: usize = 0;
    while index < chunks.len()
        invariant
            index <= chunks@.len(),
            chunk_bytes(chunks@.take(index as int), roots@) >= 0,
            bytes == capped(chunk_bytes(chunks@.take(index as int), roots@)),
        decreases chunks@.len() - index,
    {
        proof {
            let longer = chunks@.take(index + 1);
            assert(longer.drop_last() =~= chunks@.take(index as int));
            assert(longer.last() == chunks@[index as int]);
        }
        let chunk: ColumnChunk = chunks[index];
        if chunk.compressed_size > 0 && holds_index(roots, chunk.root) {
            bytes = bytes.saturating_add(chunk.compressed_size as u64);
        }
        index += 1;
    }
    assert(chunks@.take(index as int) =~= chunks@);
    bytes
}

/// Counts bytes that are about to be read, up to the budget.
pub fn charge_bytes(used: u64, bytes: u64, budget: SourceBudget) -> (outcome: Result<u64, XatuError>)
    ensures
        outcome == if capped(used + bytes) > budget.max_input_bytes {
            Err::<u64, XatuError>(
                XatuError::Budget {
                    resource: "projected_input_bytes",
                    actual: capped(used + bytes),
                    limit: budget.max_input_bytes,
                },
            )
        } else {
            Ok(capped(used + bytes))
        },
{
    let next: u64 = used.saturating_add(bytes);
    if next > budget.max_input_bytes {
        return Err(
            XatuError::Budget {
                resource: "projected_input_bytes",
                actual: next,
                limit: budget.max_input_bytes,
            },
        );
    }
    Ok(next)
}

/// The first frame that is over a limit, from `from` on.
pub open spec fn first_oversized(sizes: Seq<u64>, limit: u64, from: int) -> Option<int>
    decreases sizes.len() - from,
{
    if from < 0 || from >= sizes.len() {
        None
    } else if sizes[from] > limit {
        Some(from)
    } else {
        first_oversized(sizes, limit, from + 1)
    }
}

/// Where no frame is over a limit, each is within it.
pub proof fn lemma_none_oversized(sizes: Seq<u64>, limit: u64, from: int)
    requires
        0 <= from,
        first_oversized(sizes, limit, from) is None,
    ensures
        forall|i: int| from <= i < sizes.len() ==> #[trigger] sizes[i] <= limit,
    decreases sizes.len() - from,
{
    if from < sizes.len() {
        lemma_none_oversized(sizes, limit, from + 1);
    }
}

/// Why frames of these sizes are over the budget.
pub open spec fn frame_budget_problem(sizes: Seq<u64>, budget: SourceBudget) -> Option<XatuError> {
    if sizes.len() > budget.max_frames {
        Some(
            XatuError::Budget {
                resource: "frames",
                actual: sizes.len() as u64,
                limit: budget.max_frames,
            },
        )
    } else {
        match first_oversized(sizes, budget.max_frame_bytes, 0) {
            Some(at) => Some(
                XatuError::Budget {
                    resource: "frame_bytes",
                    actual: sizes[at],
                    limit: budget.max_frame_bytes,
                },
            ),
            None => None,
        }
    }
}

/// Checks the number and the sizes of frames, given by what each takes.
pub fn validate_frame_budget(sizes: &Vec<u64>, budget: SourceBudget) -> (outcome: Result<
    (),
    XatuError,
>)
    ensures
        outcome == (match frame_budget_problem(sizes@, budget) {
            Some(problem) => Err::<(), XatuError>(problem),
            None => Ok(()),
        }),
{
    let count: u64 = sizes.len() as u64;
    if count > budget.max_frames {
        return Err(
            XatuError::Budget { resource: "frames", actual: count, limit: budget.max_frames },
        );
    }
    let mut index: usize = 0;
    while index < sizes.len()
        invariant
            index <= sizes@.len(),
            sizes@.len() <= budget.max_frames,
            first_oversized(sizes@, budget.max_frame_bytes, 0) == first_oversized(
                sizes@,
                budget.max_frame_bytes,
                index as int,
            ),
        decreases sizes@.len() - index,
    {
        if sizes[index] > budget.max_frame_bytes {
            return Err(
                XatuError::Budget {
                    resource: "frame_bytes",
                    actual: sizes[index],
                    limit: budget.max_frame_bytes,
                },
            );
        }
        index += 1;
    }
    Ok(())
}

/// The columns of logs, with the transaction's hash only where it is needed.
pub open spec fn log_columns(log_fields: LogFieldSet, filters: FilterSet) -> Seq<&'static str> {
    if needs_transaction_hash(log_fields, filters) {
        seq![
            "block_number",
            "transaction_index",
            "transaction_hash",
            "log_index",
            "address",
            "topic0",
            "topic1",
            "topic2",
            "topic3",
            "data",
        ]
    } else {
        seq![
            "block_number",
            "transaction_index",
            "log_index",
            "address",
            "topic0",
            "topic1",
            "topic2",
            "topic3",
            "data",
        ]
    }
}

pub fn generic_log_columns(log_fields: LogFieldSet, filters: &FilterSet) -> (columns: &'static [&'static str])
    ensures
        columns@ == log_columns(log_fields, *filters),
{
    let columns: &'static [&'static str] = if log_fields.contains(LogField::TransactionHash)
        || filters.scope.transaction_hashes.len() > 0 {
        &[
            "block_number",
            "transaction_index",
            "transaction_hash",
            "log_index",
            "address",
            "topic0",
            "topic1",
            "topic2",
            "topic3",
            "data",
        ]
    } else {
        &[
            "block_number",
            "transaction_index",
            "log_index",
            "address",
            "topic0",
            "topic1",
            "topic2",
            "topic3",
            "data",
        ]
    };
    assert(columns@ =~= log_columns(log_fields, *filters));
    columns
}

} // verus!
