//! What a restart does before the store becomes readable.

use crate::bytes::same_array;
use crate::history::catalog::{HistoryStore, RecoveryReport, ReservedSegment, StoredSegment};
use crate::history::error::{CatalogProblem, HistoryStoreError};
use crate::history::layout::{is_segment_id, SegmentError, SegmentId};
use crate::history::ownership::lemma_first_segment;
use crate::history::paths::{
    file_name, has_extension, index_name, partial_name, segment_file_kind, spec_file_name,
    SegmentFile,
};
use crate::history::pending::{lemma_reserved_prefix, lemma_retained_prefix};
use crate::history::retention::{rows_of_others, OfSegment};
use crate::history::rows::SegmentRecord;
use crate::history::segment::{
    parse_segment_file, read_segment_file, SegmentFacts, SegmentMetadata,
};
use crate::text::{same_text, texts};
use vstd::prelude::*;

verus! {

/// The temporary files of the first `count` reservations.
pub open spec fn temporary_names(reservations: Seq<ReservedSegment>, count: int) -> Seq<Seq<char>>
    decreases count,
{
    if count <= 0 {
        Seq::empty()
    } else {
        temporary_names(reservations, count - 1).push(
            reservations[count - 1].id@ + ".partial"@,
        ).push(reservations[count - 1].id@ + ".idxpartial"@)
    }
}

impl HistoryStore {
    /// Drops every reservation, counts them, and says which temporary files
    /// go with them.
    pub fn clear_reservations(&mut self) -> (cleared: (RecoveryReport, Vec<String>))
        requires
            old(self).consistent(),
        ensures
            final(self).consistent(),
            old(self).within_budget() ==> final(self).within_budget(),
            final(self).same_but_reservations(*old(self)),
            final(self).reservations@.len() == 0,
            cleared.0 == (RecoveryReport {
                removed_partial_files: 0,
                cleared_reservations: old(self).reservations@.len() as u64,
                completed_deletions: 0,
                quarantined_closed_files: 0,
                quarantined_corrupt_files: 0,
            }),
            texts(cleared.1@) == temporary_names(
                old(self).reservations@,
                old(self).reservations@.len() as int,
            ),
    {
        let mut names: Vec<String> = Vec::new();
        let count: u64 = self.reservations.len() as u64;
        let mut index: usize = 0;
        proof {
            assert(texts(names@) =~= temporary_names(self.reservations@, 0));
        }
        while index < self.reservations.len()
            invariant
                index <= self.reservations@.len(),
                *self == *old(self),
                texts(names@) == temporary_names(self.reservations@, index as int),
            decreases self.reservations@.len() - index,
        {
            let ghost before = texts(names@);
            let id: &str = self.reservations[index].id.as_str();
            names.push(partial_name(id));
            names.push(index_name(id));
            proof {
                assert(texts(names@) =~= before.push(
                    self.reservations@[index as int].id@ + ".partial"@,
                ).push(self.reservations@[index as int].id@ + ".idxpartial"@));
            }
            index += 1;
        }
        proof {
            lemma_retained_prefix(self.segments@, 0);
            lemma_reserved_prefix(self.reservations@, 0);
        }
        self.reservations = Vec::new();
        let mut report = RecoveryReport::default();
        report.cleared_reservations = count;
        (report, names)
    }
}

/// A file of the segment directory, with what it says of itself when it is
/// read as a segment.
#[derive(Debug)]
pub struct FoundFile {
    pub name: String,
    pub segment: Result<SegmentFacts, SegmentError>,
}

/// What a file says of itself.
pub open spec fn facts_of(file: Seq<u8>) -> Result<SegmentFacts, SegmentError> {
    match parse_segment_file(file) {
        Ok((facts, offset)) => Ok(facts),
        Err(error) => Err(error),
    }
}

/// Reads a file of the segment directory as a segment.
pub fn inspect_file(name: String, file: &[u8]) -> (found: FoundFile)
    ensures
        found.name == name,
        found.segment == facts_of(file@),
{
    match read_segment_file(file) {
        Ok((facts, _)) => FoundFile { name, segment: Ok(facts) },
        Err(error) => FoundFile { name, segment: Err(error) },
    }
}

/// What is wrong with a catalogued segment, given what its file says, if it is
/// there.
pub open spec fn catalogued_problem(
    record: SegmentRecord,
    found: Option<Result<SegmentFacts, SegmentError>>,
) -> Option<HistoryStoreError> {
    match (spec_file_name(record.relative_path@), found) {
        (None, _) => Some(
            HistoryStoreError::CatalogIntegrity(
                CatalogProblem::InvalidSegmentPath(record.relative_path),
            ),
        ),
        (Some(name), None) => Some(
            HistoryStoreError::CatalogIntegrity(CatalogProblem::MissingFile(record.metadata.id)),
        ),
        (Some(name), Some(Err(error))) => Some(
            HistoryStoreError::CatalogIntegrity(
                CatalogProblem::FailedValidation(record.metadata.id, error),
            ),
        ),
        (Some(name), Some(Ok(facts))) => if facts == record.metadata.facts() {
            None
        } else {
            Some(
                HistoryStoreError::CatalogIntegrity(
                    CatalogProblem::MetadataDiffers(record.metadata.id),
                ),
            )
        },
    }
}

/// A temporary file, by its name.
pub open spec fn is_partial(name: Seq<char>) -> bool {
    has_extension(name, ".partial"@) || has_extension(name, ".idxpartial"@)
}

/// Which of the first `count` files are temporary or bear one of `names`.
pub open spec fn temporary_files(
    files: Seq<FoundFile>,
    names: Seq<Seq<char>>,
    count: int,
) -> Seq<Seq<char>>
    decreases count,
{
    if count <= 0 {
        Seq::empty()
    } else {
        let before = temporary_files(files, names, count - 1);
        let name = files[count - 1].name@;
        if is_partial(name) || names.contains(name) {
            before.push(name)
        } else {
            before
        }
    }
}

/// The first row that is being deleted and whose path names no file, from
/// `from` on.
pub open spec fn first_bad_path(segments: Seq<StoredSegment>, from: int) -> Option<int>
    decreases segments.len() - from,
{
    if from < 0 || from >= segments.len() {
        None
    } else if segments[from].deleting && spec_file_name(
        segments[from].record.relative_path@,
    ) is None {
        Some(from)
    } else {
        first_bad_path(segments, from + 1)
    }
}

/// Of the first `count` rows, those that are not being deleted.
pub open spec fn kept_rows(segments: Seq<StoredSegment>, count: int) -> Seq<StoredSegment>
    decreases count,
{
    if count <= 0 {
        Seq::empty()
    } else if segments[count - 1].deleting {
        kept_rows(segments, count - 1)
    } else {
        kept_rows(segments, count - 1).push(segments[count - 1])
    }
}

/// The files of those of the first `count` rows that are being deleted.
pub open spec fn deleted_files(segments: Seq<StoredSegment>, count: int) -> Seq<Seq<char>>
    decreases count,
{
    if count <= 0 {
        Seq::empty()
    } else if segments[count - 1].deleting {
        deleted_files(segments, count - 1).push(
            spec_file_name(segments[count - 1].record.relative_path@)->0,
        )
    } else {
        deleted_files(segments, count - 1)
    }
}

/// The rows that are left when those of the first `count` segments that are
/// being deleted are gone.
pub open spec fn rows_left<T: OfSegment>(
    rows: Seq<T>,
    segments: Seq<StoredSegment>,
    count: int,
) -> Seq<T>
    decreases count,
{
    if count <= 0 {
        rows
    } else if segments[count - 1].deleting {
        rows_of_others(rows_left(rows, segments, count - 1), segments[count - 1].record.metadata.id@)
    } else {
        rows_left(rows, segments, count - 1)
    }
}

/// The first file of this name, from `from` on.
pub open spec fn first_file(files: Seq<FoundFile>, name: Seq<char>, from: int) -> Option<int>
    decreases files.len() - from,
{
    if from < 0 || from >= files.len() {
        None
    } else if files[from].name@ == name {
        Some(from)
    } else {
        first_file(files, name, from + 1)
    }
}

/// What the file of this name says, unless it is among those that were
/// removed.
pub open spec fn found_segment(
    files: Seq<FoundFile>,
    gone: Seq<Seq<char>>,
    name: Option<Seq<char>>,
) -> Option<Result<SegmentFacts, SegmentError>> {
    match name {
        None => None,
        Some(name) => if gone.contains(name) {
            None
        } else {
            match first_file(files, name, 0) {
                Some(at) => Some(files[at].segment),
                None => None,
            }
        },
    }
}

/// What is wrong with a row, given the directory.
pub open spec fn row_problem(
    row: StoredSegment,
    files: Seq<FoundFile>,
    gone: Seq<Seq<char>>,
) -> Option<HistoryStoreError> {
    catalogued_problem(
        row.record,
        found_segment(files, gone, spec_file_name(row.record.relative_path@)),
    )
}

/// The first row with which something is wrong, from `from` on.
pub open spec fn first_problem(
    rows: Seq<StoredSegment>,
    files: Seq<FoundFile>,
    gone: Seq<Seq<char>>,
    from: int,
) -> Option<int>
    decreases rows.len() - from,
{
    if from < 0 || from >= rows.len() {
        None
    } else if row_problem(rows[from], files, gone) is Some {
        Some(from)
    } else {
        first_problem(rows, files, gone, from + 1)
    }
}

/// Some row is the catalog's for the file of this name.
pub open spec fn is_catalogued(rows: Seq<StoredSegment>, name: Seq<char>) -> bool {
    exists|i: int|
        0 <= i < rows.len() && spec_file_name((#[trigger] rows[i]).record.relative_path@) == Some(
            name,
        )
}

/// A closed segment without a row, by its name.
pub open spec fn is_orphan(
    name: Seq<char>,
    rows: Seq<StoredSegment>,
    gone: Seq<Seq<char>>,
) -> bool {
    &&& !is_partial(name)
    &&& has_extension(name, ".idxraw"@)
    &&& !gone.contains(name)
    &&& !is_catalogued(rows, name)
}

/// Whether an orphan is readable under the name that it has.
pub open spec fn orphan_is_readable(file: FoundFile) -> bool {
    is_segment_id(file.name@.take(file.name@.len() - 7)) && file.segment is Ok
}

/// The orphans among the first `count` files, each with whether it is
/// readable.
pub open spec fn orphans(
    files: Seq<FoundFile>,
    rows: Seq<StoredSegment>,
    gone: Seq<Seq<char>>,
    count: int,
) -> Seq<(Seq<char>, bool)>
    decreases count,
{
    if count <= 0 {
        Seq::empty()
    } else {
        let before = orphans(files, rows, gone, count - 1);
        if is_orphan(files[count - 1].name@, rows, gone) {
            before.push((files[count - 1].name@, orphan_is_readable(files[count - 1])))
        } else {
            before
        }
    }
}

/// How many of the first `count` orphans are unreadable.
pub open spec fn corrupt_count(found: Seq<(Seq<char>, bool)>, count: int) -> int
    decreases count,
{
    if count <= 0 {
        0
    } else {
        corrupt_count(found, count - 1) + (if found[count - 1].1 {
            0int
        } else {
            1int
        })
    }
}

/// A closed file without a row, which is set aside.
#[derive(Debug)]
pub struct OrphanFile {
    pub name: String,
    pub readable: bool,
}

/// The names and findings of orphans.
pub open spec fn orphan_views(found: Seq<OrphanFile>) -> Seq<(Seq<char>, bool)> {
    found.map_values(|orphan: OrphanFile| (orphan.name@, orphan.readable))
}

/// What recovery found, and which files it asks to be removed or set aside.
#[derive(Debug)]
pub struct Recovery {
    pub report: RecoveryReport,
    /// Temporary files that are to be removed.
    pub temporary: Vec<String>,
    /// Files of completed deletions, which are to be removed if they exist.
    pub deleted: Vec<String>,
    /// Files that are to be moved to quarantine.
    pub orphans: Vec<OrphanFile>,
}

fn lists(names: &Vec<String>, name: &str) -> (listed: bool)
    ensures
        listed == texts(names@).contains(name@),
{
    let mut index: usize = 0;
    while index < names.len()
        invariant
            index <= names@.len(),
            forall|i: int| 0 <= i < index ==> (#[trigger] names@[i])@ != name@,
        decreases names@.len() - index,
    {
        if same_text(names[index].as_str(), name) {
            proof {
                assert(texts(names@)[index as int] == name@);
            }
            return true;
        }
        index += 1;
    }
    proof {
        assert forall|i: int| 0 <= i < texts(names@).len() implies texts(names@)[i] != name@ by {
            assert(texts(names@)[i] == names@[i]@);
        }
    }
    false
}

fn collect_temporary(files: &Vec<FoundFile>, names: &Vec<String>) -> (found: Vec<String>)
    ensures
        texts(found@) == temporary_files(files@, texts(names@), files@.len() as int),
{
    let mut found: Vec<String> = Vec::new();
    let mut index: usize = 0;
    assert(texts(found@) =~= Seq::empty());
    while index < files.len()
        invariant
            index <= files@.len(),
            texts(found@) == temporary_files(files@, texts(names@), index as int),
        decreases files@.len() - index,
    {
        let name: &str = files[index].name.as_str();
        let partial = matches!(segment_file_kind(name), SegmentFile::Partial);
        if partial || lists(names, name) {
            let ghost before = texts(found@);
            found.push(files[index].name.clone());
            assert(texts(found@) =~= before.push(name@));
        }
        index += 1;
    }
    found
}

fn find_file(files: &Vec<FoundFile>, name: &str) -> (at: Option<usize>)
    ensures
        match at {
            Some(at) => at < files@.len() && first_file(files@, name@, 0) == Some(at as int),
            None => first_file(files@, name@, 0) is None,
        },
{
    let mut index: usize = 0;
    while index < files.len()
        invariant
            index <= files@.len(),
            first_file(files@, name@, 0) == first_file(files@, name@, index as int),
        decreases files@.len() - index,
    {
        if same_text(files[index].name.as_str(), name) {
            return Some(index);
        }
        index += 1;
    }
    None
}

fn matches_facts(metadata: &SegmentMetadata, facts: &SegmentFacts) -> (same: bool)
    ensures
        same == (*facts == metadata.facts()),
{
    metadata.descriptor.same(&facts.descriptor) && metadata.compression == facts.compression
        && metadata.logical_bytes == facts.logical_bytes && metadata.physical_bytes
        == facts.physical_bytes && metadata.first_parent_hash == facts.first_parent_hash
        && metadata.last_hash == facts.last_hash && same_array(
        &metadata.ordered_hash_digest,
        &facts.ordered_hash_digest,
    ) && same_array(&metadata.records_checksum, &facts.records_checksum) && same_array(
        &metadata.content_checksum,
        &facts.content_checksum,
    )
}

/// Holds a catalogued segment against what its file says, if it is there.
pub fn validate_catalogued(
    record: &SegmentRecord,
    found: Option<Result<SegmentFacts, SegmentError>>,
) -> (outcome: Result<(), HistoryStoreError>)
    ensures
        outcome == (match catalogued_problem(*record, found) {
            Some(error) => Err::<(), HistoryStoreError>(error),
            None => Ok(()),
        }),
{
    file_name(&record.relative_path)?;
    match found {
        None => Err(
            HistoryStoreError::CatalogIntegrity(
                CatalogProblem::MissingFile(record.metadata.id.clone()),
            ),
        ),
        Some(Err(error)) => Err(
            HistoryStoreError::CatalogIntegrity(
                CatalogProblem::FailedValidation(record.metadata.id.clone(), error),
            ),
        ),
        Some(Ok(facts)) => if matches_facts(&record.metadata, &facts) {
            Ok(())
        } else {
            Err(
                HistoryStoreError::CatalogIntegrity(
                    CatalogProblem::MetadataDiffers(record.metadata.id.clone()),
                ),
            )
        },
    }
}

impl HistoryStore {
    /// This store is `before` with its reservations gone and with those of the
    /// first `count` segments forgotten that were being deleted.
    pub open spec fn recovered(self, before: HistoryStore, count: int) -> bool {
        &&& self.budget == before.budget
        &&& self.jobs@ == before.jobs@
        &&& self.reservations@.len() == 0
        &&& self.segments@ == kept_rows(before.segments@, count) + before.segments@.skip(count)
        &&& self.owners@ == rows_left(before.owners@, before.segments@, count)
        &&& self.block_locators@ == rows_left(before.block_locators@, before.segments@, count)
        &&& self.transaction_locators@ == rows_left(
            before.transaction_locators@,
            before.segments@,
            count,
        )
    }

    /// Forgets the segments whose deletion was interrupted and says which
    /// files went with them.
    fn complete_deletions(&mut self) -> (outcome: Result<Vec<String>, HistoryStoreError>)
        requires
            old(self).consistent(),
            old(self).reservations@.len() == 0,
        ensures
            final(self).consistent(),
            old(self).within_budget() ==> final(self).within_budget(),
            match first_bad_path(old(self).segments@, 0) {
                Some(at) => {
                    &&& outcome == Err::<Vec<String>, HistoryStoreError>(
                        HistoryStoreError::CatalogIntegrity(
                            CatalogProblem::InvalidDeletingPath(
                                old(self).segments@[at].record.relative_path,
                            ),
                        ),
                    )
                    &&& final(self).recovered(*old(self), at)
                },
                None => {
                    &&& outcome matches Ok(names) && texts(names@) == deleted_files(
                        old(self).segments@,
                        old(self).segments@.len() as int,
                    )
                    &&& final(self).recovered(*old(self), old(self).segments@.len() as int)
                },
            },
    {
        let ghost before = *self;
        let ghost rows = self.segments@;
        let ghost mut done: int = 0;
        let mut names: Vec<String> = Vec::new();
        let mut index: usize = 0;
        proof {
            assert(texts(names@) =~= deleted_files(rows, 0));
            assert(self.segments@ =~= kept_rows(rows, 0) + rows.skip(0));
        }
        while index < self.segments.len()
            invariant
                rows == before.segments@,
                before == *old(self),
                0 <= done <= rows.len(),
                index == kept_rows(rows, done).len(),
                self.consistent(),
                before.within_budget() ==> self.within_budget(),
                self.recovered(before, done),
                texts(names@) == deleted_files(rows, done),
                first_bad_path(rows, 0) == first_bad_path(rows, done),
            decreases rows.len() - done,
        {
            proof {
                assert(self.segments@.len() == index + (rows.len() - done));
                assert(self.segments@[index as int] == rows[done]);
            }
            if self.segments[index].deleting {
                let name: String = match file_name(&self.segments[index].record.relative_path) {
                    Ok(name) => name,
                    Err(_) => {
                        return Err(
                            HistoryStoreError::CatalogIntegrity(
                                CatalogProblem::InvalidDeletingPath(
                                    self.segments[index].record.relative_path.clone(),
                                ),
                            ),
                        );
                    },
                };
                let id: SegmentId = self.segments[index].record.metadata.id.clone();
                let ghost current = *self;
                proof {
                    lemma_first_segment(self.segments@, id@, 0);
                }
                self.finish_deletion(&id);
                let ghost listed = texts(names@);
                names.push(name);
                proof {
                    assert(texts(names@) =~= listed.push(name@));
                    assert(current.segments@.remove(index as int) =~= kept_rows(rows, done + 1)
                        + rows.skip(done + 1));
                    done = done + 1;
                }
            } else {
                proof {
                    assert(self.segments@ =~= kept_rows(rows, done + 1) + rows.skip(done + 1));
                    done = done + 1;
                }
                index += 1;
            }
        }
        proof {
            assert(done == rows.len());
        }
        Ok(names)
    }

    /// The first row that does not agree with its file, if there is one.
    fn disagreement(
        &self,
        files: &Vec<FoundFile>,
        temporary: &Vec<String>,
        deleted: &Vec<String>,
    ) -> (at: Option<usize>)
        ensures
            ({
                let gone = texts(temporary@) + texts(deleted@);
                match at {
                    Some(at) => at < self.segments@.len() && first_problem(
                        self.segments@,
                        files@,
                        gone,
                        0,
                    ) == Some(at as int),
                    None => first_problem(self.segments@, files@, gone, 0) is None,
                }
            }),
    {
        let ghost gone = texts(temporary@) + texts(deleted@);
        let mut index: usize = 0;
        while index < self.segments.len()
            invariant
                index <= self.segments@.len(),
                gone == texts(temporary@) + texts(deleted@),
                first_problem(self.segments@, files@, gone, 0) == first_problem(
                    self.segments@,
                    files@,
                    gone,
                    index as int,
                ),
            decreases self.segments@.len() - index,
        {
            let record: &SegmentRecord = &self.segments[index].record;
            let mut agrees = false;
            if let Ok(name) = file_name(&record.relative_path) {
                proof {
                    lemma_in_either(texts(temporary@), texts(deleted@), name@);
                }
                if !lists(temporary, name.as_str()) && !lists(deleted, name.as_str()) {
                    if let Some(at) = find_file(files, name.as_str()) {
                        if let Ok(facts) = &files[at].segment {
                            agrees = matches_facts(&record.metadata, facts);
                        }
                    }
                }
            }
            if !agrees {
                return Some(index);
            }
            index += 1;
        }
        None
    }

    /// Holds every row against its file and hands the files back.
    fn check_rows(
        &self,
        files: Vec<FoundFile>,
        temporary: &Vec<String>,
        deleted: &Vec<String>,
    ) -> (outcome: Result<Vec<FoundFile>, HistoryStoreError>)
        ensures
            ({
                let gone = texts(temporary@) + texts(deleted@);
                match first_problem(self.segments@, files@, gone, 0) {
                    Some(at) => outcome == Err::<Vec<FoundFile>, HistoryStoreError>(
                        row_problem(self.segments@[at], files@, gone)->0,
                    ),
                    None => outcome matches Ok(kept) && kept@ == files@,
                }
            }),
    {
        let ghost gone = texts(temporary@) + texts(deleted@);
        let at: usize = match self.disagreement(&files, temporary, deleted) {
            Some(at) => at,
            None => {
                return Ok(files);
            },
        };
        proof {
            lemma_first_problem(self.segments@, files@, gone, 0);
        }
        let record: &SegmentRecord = &self.segments[at].record;
        let name: String = file_name(&record.relative_path)?;
        proof {
            lemma_in_either(texts(temporary@), texts(deleted@), name@);
        }
        let removed = lists(temporary, name.as_str()) || lists(deleted, name.as_str());
        let mut found: Option<Result<SegmentFacts, SegmentError>> = None;
        let mut files: Vec<FoundFile> = files;
        if !removed {
            if let Some(place) = find_file(&files, name.as_str()) {
                found = Some(files.swap_remove(place).segment);
            }
        }
        validate_catalogued(record, found)?;
        Ok(files)
    }

    /// What recovery answers and makes of the tables, given the files of the
    /// segment directory.
    pub open spec fn recovery_answers(
        self,
        after: HistoryStore,
        files: Seq<FoundFile>,
        outcome: Result<Recovery, HistoryStoreError>,
    ) -> bool {
        let rows = self.segments@;
        let reserved = self.reservations@;
        let names = temporary_names(reserved, reserved.len() as int);
        let temporary = temporary_files(files, names, files.len() as int);
        let deleted = deleted_files(rows, rows.len() as int);
        let kept = kept_rows(rows, rows.len() as int);
        let gone = temporary + deleted;
        match first_bad_path(rows, 0) {
            Some(at) => {
                &&& after.recovered(self, at)
                &&& outcome == Err::<Recovery, HistoryStoreError>(
                    HistoryStoreError::CatalogIntegrity(
                        CatalogProblem::InvalidDeletingPath(rows[at].record.relative_path),
                    ),
                )
            },
            None => {
                &&& after.recovered(self, rows.len() as int)
                &&& match first_problem(kept, files, gone, 0) {
                    Some(at) => outcome == Err::<Recovery, HistoryStoreError>(
                        row_problem(kept[at], files, gone)->0,
                    ),
                    None => {
                        let aside = orphans(files, kept, gone, files.len() as int);
                        outcome matches Ok(recovery) && {
                            &&& texts(recovery.temporary@) == temporary
                            &&& texts(recovery.deleted@) == deleted
                            &&& orphan_views(recovery.orphans@) == aside
                            &&& recovery.report == (RecoveryReport {
                                removed_partial_files: temporary.len() as u64,
                                cleared_reservations: reserved.len() as u64,
                                completed_deletions: deleted.len() as u64,
                                quarantined_closed_files: aside.len() as u64,
                                quarantined_corrupt_files: corrupt_count(
                                    aside,
                                    aside.len() as int,
                                ) as u64,
                            })
                        }
                    },
                }
            },
        }
    }

    /// Brings the store back after a restart: drops reservations, completes
    /// interrupted deletions, holds every catalogued segment against its file
    /// and sets closed files without a row aside.
    pub fn recover(&mut self, files: Vec<FoundFile>) -> (outcome: Result<
        Recovery,
        HistoryStoreError,
    >)
        requires
            old(self).consistent(),
        ensures
            final(self).consistent(),
            old(self).within_budget() ==> final(self).within_budget(),
            old(self).recovery_answers(*final(self), files@, outcome),
    {
        let ghost before = *self;
        let (cleared, names) = self.clear_reservations();
        let temporary: Vec<String> = collect_temporary(&files, &names);
        let deleted: Vec<String> = self.complete_deletions()?;
        proof {
            assert(self.segments@ =~= kept_rows(before.segments@, before.segments@.len() as int));
        }
        let files: Vec<FoundFile> = self.check_rows(files, &temporary, &deleted)?;
        let (aside, corrupt) = self.collect_orphans(&files, &temporary, &deleted);
        Ok(
            Recovery {
                report: RecoveryReport {
                    removed_partial_files: temporary.len() as u64,
                    cleared_reservations: cleared.cleared_reservations,
                    completed_deletions: deleted.len() as u64,
                    quarantined_closed_files: aside.len() as u64,
                    quarantined_corrupt_files: corrupt,
                },
                temporary,
                deleted,
                orphans: aside,
            },
        )
    }

    fn names_file(&self, name: &str) -> (named: bool)
        ensures
            named == is_catalogued(self.segments@, name@),
    {
        let mut index: usize = 0;
        while index < self.segments.len()
            invariant
                index <= self.segments@.len(),
                forall|i: int|
                    0 <= i < index ==> spec_file_name(
                        (#[trigger] self.segments@[i]).record.relative_path@,
                    ) != Some(name@),
            decreases self.segments@.len() - index,
        {
            if let Ok(held) = file_name(&self.segments[index].record.relative_path) {
                if same_text(held.as_str(), name) {
                    return true;
                }
            }
            index += 1;
        }
        false
    }

    fn collect_orphans(
        &self,
        files: &Vec<FoundFile>,
        temporary: &Vec<String>,
        deleted: &Vec<String>,
    ) -> (found: (Vec<OrphanFile>, u64))
        ensures
            ({
                let aside = orphans(
                    files@,
                    self.segments@,
                    texts(temporary@) + texts(deleted@),
                    files@.len() as int,
                );
                &&& orphan_views(found.0@) == aside
                &&& found.1 == corrupt_count(aside, aside.len() as int)
            }),
    {
        let ghost gone = texts(temporary@) + texts(deleted@);
        let mut found: Vec<OrphanFile> = Vec::new();
        let mut corrupt: u64 = 0;
        let mut index: usize = 0;
        assert(orphan_views(found@) =~= Seq::empty());
        while index < files.len()
            invariant
                index <= files@.len(),
                gone == texts(temporary@) + texts(deleted@),
                found@.len() <= index,
                orphan_views(found@) == orphans(files@, self.segments@, gone, index as int),
                corrupt == corrupt_count(orphan_views(found@), found@.len() as int),
                corrupt <= index,
            decreases files@.len() - index,
        {
            let name: &str = files[index].name.as_str();
            if let SegmentFile::Closed(stem) = segment_file_kind(name) {
                proof {
                    lemma_in_either(texts(temporary@), texts(deleted@), name@);
                }
                if !lists(temporary, name) && !lists(deleted, name) && !self.names_file(name) {
                    proof {
                        reveal_strlit(".idxraw");
                        assert(stem@ =~= name@.take(name@.len() - 7));
                    }
                    let named = SegmentId::new(stem).is_ok();
                    let readable = named && files[index].segment.is_ok();
                    let ghost before = orphan_views(found@);
                    found.push(OrphanFile { name: files[index].name.clone(), readable });
                    proof {
                        let after = orphan_views(found@);
                        assert(after =~= before.push((name@, readable)));
                        assert(after.take(before.len() as int) =~= before);
                        lemma_corrupt_prefix(before, after, before.len() as int);
                    }
                    if !readable {
                        corrupt = corrupt + 1;
                    }
                }
            }
            index += 1;
        }
        (found, corrupt)
    }
}

/// Recovery leaves no row behind that is being deleted.
pub proof fn law_recovered_rows_are_closed(before: HistoryStore, after: HistoryStore)
    requires
        after.recovered(before, before.segments@.len() as int),
    ensures
        forall|i: int| 0 <= i < after.segments@.len() ==> !(#[trigger] after.segments@[i]).deleting,
{
    let count = before.segments@.len() as int;
    lemma_kept_rows_closed(before.segments@, count);
    assert(after.segments@ =~= kept_rows(before.segments@, count));
}

proof fn lemma_nothing_to_delete<T: OfSegment>(
    rows: Seq<T>,
    segments: Seq<StoredSegment>,
    count: int,
)
    requires
        0 <= count <= segments.len(),
        forall|i: int| 0 <= i < segments.len() ==> !(#[trigger] segments[i]).deleting,
    ensures
        kept_rows(segments, count) == segments.take(count),
        rows_left(rows, segments, count) == rows,
    decreases count,
{
    if count > 0 {
        lemma_nothing_to_delete(rows, segments, count - 1);
        assert(!segments[count - 1].deleting);
        assert(segments.take(count - 1).push(segments[count - 1]) =~= segments.take(count));
    } else {
        assert(segments.take(0) =~= Seq::empty());
    }
}

/// Recovering a store that has been recovered changes nothing.
pub proof fn law_recovering_again_changes_nothing(
    before: HistoryStore,
    after: HistoryStore,
    again: HistoryStore,
)
    requires
        after.recovered(before, before.segments@.len() as int),
        again.recovered(after, after.segments@.len() as int),
    ensures
        again.same_rows(after),
{
    let count = after.segments@.len() as int;
    law_recovered_rows_are_closed(before, after);
    lemma_nothing_to_delete(after.owners@, after.segments@, count);
    lemma_nothing_to_delete(after.block_locators@, after.segments@, count);
    lemma_nothing_to_delete(after.transaction_locators@, after.segments@, count);
    assert(again.segments@ =~= after.segments@);
    assert(again.reservations@ =~= after.reservations@);
}

proof fn lemma_kept_rows_closed(segments: Seq<StoredSegment>, count: int)
    requires
        0 <= count <= segments.len(),
    ensures
        forall|i: int|
            0 <= i < kept_rows(segments, count).len() ==> !(#[trigger] kept_rows(
                segments,
                count,
            )[i]).deleting,
    decreases count,
{
    if count > 0 {
        lemma_kept_rows_closed(segments, count - 1);
    }
}

proof fn lemma_first_problem(
    rows: Seq<StoredSegment>,
    files: Seq<FoundFile>,
    gone: Seq<Seq<char>>,
    from: int,
)
    requires
        0 <= from,
    ensures
        first_problem(rows, files, gone, from) matches Some(at) ==> from <= at < rows.len()
            && row_problem(rows[at], files, gone) is Some,
    decreases rows.len() - from,
{
    if from < rows.len() && row_problem(rows[from], files, gone) is None {
        lemma_first_problem(rows, files, gone, from + 1);
    }
}

/// A name is among two lists if it is in either.
pub proof fn lemma_in_either(left: Seq<Seq<char>>, right: Seq<Seq<char>>, name: Seq<char>)
    ensures
        (left + right).contains(name) <==> left.contains(name) || right.contains(name),
{
    let both = left + right;
    if left.contains(name) {
        let i = choose|i: int| 0 <= i < left.len() && left[i] == name;
        assert(both[i] == name);
    }
    if right.contains(name) {
        let i = choose|i: int| 0 <= i < right.len() && right[i] == name;
        assert(both[left.len() + i] == name);
    }
    if both.contains(name) {
        let i = choose|i: int| 0 <= i < both.len() && both[i] == name;
        if i < left.len() {
            assert(left[i] == name);
        } else {
            assert(right[i - left.len()] == name);
        }
    }
}

proof fn lemma_corrupt_prefix(before: Seq<(Seq<char>, bool)>, after: Seq<(Seq<char>, bool)>, count: int)
    requires
        0 <= count <= before.len() <= after.len(),
        after.take(before.len() as int) == before,
    ensures
        corrupt_count(before, count) == corrupt_count(after, count),
    decreases count,
{
    if count > 0 {
        lemma_corrupt_prefix(before, after, count - 1);
        assert(after.take(before.len() as int)[count - 1] == after[count - 1]);
    }
}

} // verus!
