//! What recovery leaves behind.

use crate::history::catalog::{HistoryStore, StoredSegment};
use crate::history::error::HistoryStoreError;
use crate::history::layout::SegmentError;
use crate::history::paths::{has_extension, spec_file_name};
use crate::history::recovery::{
    deleted_files, first_file, first_problem, is_catalogued, is_orphan, is_partial, kept_rows,
    law_recovered_rows_are_closed, lemma_in_either, orphan_is_readable, orphan_views, orphans,
    row_problem, temporary_files, temporary_names, FoundFile, Recovery,
};
use crate::history::segment::SegmentFacts;
use crate::text::texts;
use vstd::prelude::*;

verus! {

/// A file of this name is still in the segment directory when what recovery
/// asks for has been done.
pub open spec fn is_left(recovery: Recovery, name: Seq<char>) -> bool {
    &&& !texts(recovery.temporary@).contains(name)
    &&& !texts(recovery.deleted@).contains(name)
    &&& forall|i: int|
        0 <= i < recovery.orphans@.len() ==> (#[trigger] recovery.orphans@[i]).name@ != name
}

/// The row's file is left, and says of itself what the row says of it.
pub open spec fn file_agrees(recovery: Recovery, files: Seq<FoundFile>, row: StoredSegment) -> bool {
    match spec_file_name(row.record.relative_path@) {
        Some(name) => {
            &&& is_left(recovery, name)
            &&& match first_file(files, name, 0) {
                Some(at) => files[at].segment == (Ok::<SegmentFacts, SegmentError>(
                    row.record.metadata.facts(),
                )),
                None => false,
            }
        },
        None => false,
    }
}

proof fn lemma_temporary_listed(files: Seq<FoundFile>, names: Seq<Seq<char>>, count: int, at: int)
    requires
        0 <= at < count <= files.len(),
        is_partial(files[at].name@) || names.contains(files[at].name@),
    ensures
        temporary_files(files, names, count).contains(files[at].name@),
    decreases count,
{
    let listed = temporary_files(files, names, count);
    if at == count - 1 {
        assert(listed[listed.len() - 1] == files[at].name@);
    } else {
        lemma_temporary_listed(files, names, count - 1, at);
        let before = temporary_files(files, names, count - 1);
        let k = choose|k: int| 0 <= k < before.len() && before[k] == files[at].name@;
        assert(listed[k] == files[at].name@);
    }
}

proof fn lemma_orphan_listed(
    files: Seq<FoundFile>,
    rows: Seq<StoredSegment>,
    gone: Seq<Seq<char>>,
    count: int,
    at: int,
)
    requires
        0 <= at < count <= files.len(),
        is_orphan(files[at].name@, rows, gone),
    ensures
        orphans(files, rows, gone, count).contains(
            (files[at].name@, orphan_is_readable(files[at])),
        ),
    decreases count,
{
    let listed = orphans(files, rows, gone, count);
    let entry = (files[at].name@, orphan_is_readable(files[at]));
    if at == count - 1 {
        assert(listed[listed.len() - 1] == entry);
    } else {
        lemma_orphan_listed(files, rows, gone, count - 1, at);
        let before = orphans(files, rows, gone, count - 1);
        let k = choose|k: int| 0 <= k < before.len() && before[k] == entry;
        assert(listed[k] == entry);
    }
}

proof fn lemma_listed_orphan(
    files: Seq<FoundFile>,
    rows: Seq<StoredSegment>,
    gone: Seq<Seq<char>>,
    count: int,
    k: int,
)
    requires
        0 <= count <= files.len(),
        0 <= k < orphans(files, rows, gone, count).len(),
    ensures
        is_orphan(orphans(files, rows, gone, count)[k].0, rows, gone),
    decreases count,
{
    if count > 0 {
        let before = orphans(files, rows, gone, count - 1);
        if k < before.len() {
            lemma_listed_orphan(files, rows, gone, count - 1, k);
        }
    }
}

proof fn lemma_no_problem(
    rows: Seq<StoredSegment>,
    files: Seq<FoundFile>,
    gone: Seq<Seq<char>>,
    from: int,
)
    requires
        0 <= from,
        first_problem(rows, files, gone, from) is None,
    ensures
        forall|i: int|
            from <= i < rows.len() ==> row_problem(#[trigger] rows[i], files, gone) is None,
    decreases rows.len() - from,
{
    if from < rows.len() {
        lemma_no_problem(rows, files, gone, from + 1);
    }
}

/// After recovery no capacity is reserved, no deletion is under way, no
/// temporary file is left, every closed file that is left has a row, and every
/// row has its file, which opens and says of itself what the row says.
pub proof fn law_recovery_leaves_rows_and_files_in_step(
    before: HistoryStore,
    after: HistoryStore,
    files: Seq<FoundFile>,
    outcome: Result<Recovery, HistoryStoreError>,
)
    requires
        before.recovery_answers(after, files, outcome),
        outcome is Ok,
    ensures
        after.reservations@.len() == 0,
        forall|i: int| 0 <= i < after.segments@.len() ==> !(#[trigger] after.segments@[i]).deleting,
        forall|i: int|
            0 <= i < files.len() && is_left(outcome->Ok_0, (#[trigger] files[i]).name@) ==> {
                &&& !is_partial(files[i].name@)
                &&& !temporary_names(before.reservations@, before.reservations@.len() as int).contains(
                    files[i].name@,
                )
                &&& has_extension(files[i].name@, ".idxraw"@) ==> is_catalogued(
                    after.segments@,
                    files[i].name@,
                )
            },
        forall|i: int|
            0 <= i < after.segments@.len() ==> file_agrees(
                outcome->Ok_0,
                files,
                #[trigger] after.segments@[i],
            ),
{
    let recovery = outcome->Ok_0;
    let rows = before.segments@;
    let reserved = before.reservations@;
    let names = temporary_names(reserved, reserved.len() as int);
    let temporary = temporary_files(files, names, files.len() as int);
    let deleted = deleted_files(rows, rows.len() as int);
    let kept = kept_rows(rows, rows.len() as int);
    let gone = temporary + deleted;
    let aside = orphans(files, kept, gone, files.len() as int);
    law_recovered_rows_are_closed(before, after);
    assert(after.segments@ =~= kept);
    assert forall|i: int|
        0 <= i < files.len() && is_left(recovery, (#[trigger] files[i]).name@) implies {
        &&& !is_partial(files[i].name@)
        &&& !names.contains(files[i].name@)
        &&& has_extension(files[i].name@, ".idxraw"@) ==> is_catalogued(kept, files[i].name@)
    } by {
        let name = files[i].name@;
        if is_partial(name) || names.contains(name) {
            lemma_temporary_listed(files, names, files.len() as int, i);
        }
        if has_extension(name, ".idxraw"@) && !is_catalogued(kept, name) {
            lemma_in_either(temporary, deleted, name);
            assert(is_orphan(name, kept, gone));
            lemma_orphan_listed(files, kept, gone, files.len() as int, i);
            let k = choose|k: int|
                0 <= k < aside.len() && aside[k] == (name, orphan_is_readable(files[i]));
            assert(orphan_views(recovery.orphans@)[k].0 == recovery.orphans@[k].name@);
        }
    }
    lemma_no_problem(kept, files, gone, 0);
    assert forall|i: int| 0 <= i < kept.len() implies file_agrees(
        recovery,
        files,
        #[trigger] kept[i],
    ) by {
        assert(row_problem(kept[i], files, gone) is None);
        let name = spec_file_name(kept[i].record.relative_path@)->0;
        lemma_in_either(temporary, deleted, name);
        assert(is_catalogued(kept, name));
        assert forall|k: int| 0 <= k < recovery.orphans@.len() implies (
        #[trigger] recovery.orphans@[k]).name@ != name by {
            assert(orphan_views(recovery.orphans@)[k].0 == recovery.orphans@[k].name@);
            lemma_listed_orphan(files, kept, gone, files.len() as int, k);
        }
    }
}

} // verus!
