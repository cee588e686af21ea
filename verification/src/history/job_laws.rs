//! What canonical form and identity mean for raw-history requests.

use crate::bytes::lemma_same_view_same_array;
use crate::history::catalog::{first_job, HistoryStore};
use crate::history::error::HistoryStoreError;
use crate::history::job::{
    earliest, lemma_earliest_is_first, lemma_normal_material, normal_list, RawHistoryJobId,
    RawHistoryJobSpec, RawHistoryMaterialProfile,
};
use crate::history::lifecycle::RawHistoryJob;
use crate::history::ownership::lemma_first_job;
use crate::history::store_jobs::first_identity;
use crate::order::{has_key, lemma_ascending_unique, Keyed};
use crate::primitives::Address;
use crate::ranges::{all_wf, covers, law_canonical_ranges};
use crate::text::texts;
use vstd::prelude::*;

verus! {

/// Two lists name the same keys.
pub open spec fn same_keys<T: Keyed>(left: Seq<T>, right: Seq<T>) -> bool {
    forall|key: Seq<u8>| #[trigger] has_key(left, key) <==> has_key(right, key)
}

proof fn lemma_same_texts(
    left: Seq<String>,
    right: Seq<String>,
    left_normal: Seq<String>,
    right_normal: Seq<String>,
)
    requires
        same_keys(left, right),
        normal_list(left, left_normal),
        normal_list(right, right_normal),
    ensures
        texts(left_normal) == texts(right_normal),
{
    assert forall|key: Seq<u8>| #[trigger]
        has_key(left_normal, key) <==> has_key(right_normal, key) by {
        assert(has_key(left, key) <==> has_key(right, key));
    }
    lemma_ascending_unique(left_normal, right_normal);
    assert forall|i: int| 0 <= i < left_normal.len() implies texts(left_normal)[i] == texts(
        right_normal,
    )[i] by {
        assert(left_normal[i].key() == right_normal[i].key());
        vstd::utf8::encode_utf8_decode_utf8(left_normal[i]@);
        vstd::utf8::encode_utf8_decode_utf8(right_normal[i]@);
    }
    assert(texts(left_normal) =~= texts(right_normal));
}

proof fn lemma_same_addresses(
    left: Seq<Address>,
    right: Seq<Address>,
    left_normal: Seq<Address>,
    right_normal: Seq<Address>,
)
    requires
        same_keys(left, right),
        normal_list(left, left_normal),
        normal_list(right, right_normal),
    ensures
        left_normal == right_normal,
{
    assert forall|key: Seq<u8>| #[trigger]
        has_key(left_normal, key) <==> has_key(right_normal, key) by {
        assert(has_key(left, key) <==> has_key(right, key));
    }
    lemma_ascending_unique(left_normal, right_normal);
    assert forall|i: int| 0 <= i < left_normal.len() implies left_normal[i] == right_normal[i] by {
        assert(left_normal[i].key() == right_normal[i].key());
        lemma_same_view_same_array(left_normal[i].0, right_normal[i].0);
    }
    assert(left_normal =~= right_normal);
}

/// Two profiles ask for the same material, in whatever order and with
/// whatever repetition they list it.
pub open spec fn same_material(
    left: RawHistoryMaterialProfile,
    right: RawHistoryMaterialProfile,
) -> bool {
    &&& left.allow_filtered == right.allow_filtered
    &&& left.log_fields == right.log_fields
    &&& left.filters.scope == right.filters.scope
    &&& same_keys(left.projection.header_fields@, right.projection.header_fields@)
    &&& same_keys(left.projection.transaction_fields@, right.projection.transaction_fields@)
    &&& same_keys(left.projection.receipt_fields@, right.projection.receipt_fields@)
    &&& same_keys(left.projection.log_fields@, right.projection.log_fields@)
    &&& same_keys(left.filters.senders@, right.filters.senders@)
    &&& same_keys(left.filters.recipients@, right.filters.recipients@)
}

/// The canonical forms of two profiles that ask for the same material are
/// encoded alike, and so have the same identity.
pub proof fn law_same_material_same_identity(
    left: RawHistoryMaterialProfile,
    right: RawHistoryMaterialProfile,
    left_normal: RawHistoryMaterialProfile,
    right_normal: RawHistoryMaterialProfile,
)
    requires
        same_material(left, right),
        left.normal_form(left_normal),
        right.normal_form(right_normal),
    ensures
        left_normal.parts() == right_normal.parts(),
        left_normal.encoded() == right_normal.encoded(),
        left_normal.spec_shape_id() == right_normal.spec_shape_id(),
{
    lemma_same_texts(
        left.projection.header_fields@,
        right.projection.header_fields@,
        left_normal.projection.header_fields@,
        right_normal.projection.header_fields@,
    );
    lemma_same_texts(
        left.projection.transaction_fields@,
        right.projection.transaction_fields@,
        left_normal.projection.transaction_fields@,
        right_normal.projection.transaction_fields@,
    );
    lemma_same_texts(
        left.projection.receipt_fields@,
        right.projection.receipt_fields@,
        left_normal.projection.receipt_fields@,
        right_normal.projection.receipt_fields@,
    );
    lemma_same_texts(
        left.projection.log_fields@,
        right.projection.log_fields@,
        left_normal.projection.log_fields@,
        right_normal.projection.log_fields@,
    );
    lemma_same_addresses(
        left.filters.senders@,
        right.filters.senders@,
        left_normal.filters.senders@,
        right_normal.filters.senders@,
    );
    lemma_same_addresses(
        left.filters.recipients@,
        right.filters.recipients@,
        left_normal.filters.recipients@,
        right_normal.filters.recipients@,
    );
    assert(texts(left_normal.projection.header_fields@).len()
        == left_normal.projection.header_fields@.len());
    assert(texts(right_normal.projection.header_fields@).len()
        == right_normal.projection.header_fields@.len());
    assert(texts(left_normal.projection.transaction_fields@).len()
        == left_normal.projection.transaction_fields@.len());
    assert(texts(right_normal.projection.transaction_fields@).len()
        == right_normal.projection.transaction_fields@.len());
    assert(texts(left_normal.projection.receipt_fields@).len()
        == left_normal.projection.receipt_fields@.len());
    assert(texts(right_normal.projection.receipt_fields@).len()
        == right_normal.projection.receipt_fields@.len());
    assert(texts(left_normal.projection.log_fields@).len()
        == left_normal.projection.log_fields@.len());
    assert(texts(right_normal.projection.log_fields@).len()
        == right_normal.projection.log_fields@.len());
}

/// Two requests for the same heights and material have the same canonical
/// ranges and the same material identity, whatever order they list them in.
pub proof fn law_same_request_same_canonical_form(
    left: RawHistoryJobSpec,
    right: RawHistoryJobSpec,
    left_normal: RawHistoryJobSpec,
    right_normal: RawHistoryJobSpec,
)
    requires
        forall|height: int| #[trigger]
            covers(left.ranges@, height) <==> covers(right.ranges@, height),
        same_material(left.material, right.material),
        left.normal_form(left_normal),
        right.normal_form(right_normal),
    ensures
        left_normal.ranges@ == right_normal.ranges@,
        left_normal.material.parts() == right_normal.material.parts(),
        left_normal.material.encoded() == right_normal.material.encoded(),
        left_normal.material.spec_shape_id() == right_normal.material.spec_shape_id(),
{
    assert forall|height: int| #[trigger]
        covers(left_normal.ranges@, height) <==> covers(right_normal.ranges@, height) by {
        assert(covers(left.ranges@, height) <==> covers(right.ranges@, height));
    }
    law_canonical_ranges(left_normal.ranges@, right_normal.ranges@);
    law_same_material_same_identity(
        left.material,
        right.material,
        left_normal.material,
        right_normal.material,
    );
}

/// Two requests that differ only in the order and repetition of what they
/// list have the same identity in canonical form.
pub proof fn law_same_request_same_identity(
    left: RawHistoryJobSpec,
    right: RawHistoryJobSpec,
    left_normal: RawHistoryJobSpec,
    right_normal: RawHistoryJobSpec,
)
    requires
        forall|height: int| #[trigger]
            covers(left.ranges@, height) <==> covers(right.ranges@, height),
        same_material(left.material, right.material),
        left.chain_id == right.chain_id,
        left.profile == right.profile,
        left.required_capabilities == right.required_capabilities,
        left.verification == right.verification,
        left.minimum_trust == right.minimum_trust,
        left.source_policy_digest == right.source_policy_digest,
        left.retention == right.retention,
        left.segment == right.segment,
        left.indexes == right.indexes,
        left.normal_form(left_normal),
        right.normal_form(right_normal),
    ensures
        left_normal.spec_identity() == right_normal.spec_identity(),
{
    law_same_request_same_canonical_form(left, right, left_normal, right_normal);
}

/// Normalizing again changes nothing: the canonical form of an accepted
/// request is accepted, and is its own canonical form.
pub proof fn law_normalization_is_idempotent(
    given: RawHistoryJobSpec,
    normal: RawHistoryJobSpec,
    again: RawHistoryJobSpec,
)
    requires
        all_wf(given.ranges@),
        given.problem() is None,
        given.normal_form(normal),
        normal.ranges@.len() > 0,
        normal.normal_form(again),
    ensures
        normal.problem() is None,
        again.ranges@ == normal.ranges@,
        again.material.parts() == normal.material.parts(),
        again.material.encoded() == normal.material.encoded(),
        again.material.spec_shape_id() == normal.material.spec_shape_id(),
        again.spec_identity() == normal.spec_identity(),
{
    lemma_earliest_is_first(given.ranges@, normal.ranges@);
    assert(all_wf(normal.ranges@));
    lemma_earliest_is_first(normal.ranges@, normal.ranges@);
    assert(earliest(normal.ranges@) == earliest(given.ranges@));
    lemma_normal_material(given.material, normal.material);
    law_same_request_same_canonical_form(given, normal, normal, again);
}

proof fn lemma_first_identity(jobs: Seq<RawHistoryJob>, identity: [u8; 32], from: int)
    requires
        0 <= from,
    ensures
        match first_identity(jobs, identity, from) {
            Some(at) => {
                &&& from <= at < jobs.len()
                &&& jobs[at].identity == identity
                &&& forall|j: int| from <= j < at ==> (#[trigger] jobs[j]).identity != identity
            },
            None => forall|j: int|
                from <= j < jobs.len() ==> (#[trigger] jobs[j]).identity != identity,
        },
    decreases jobs.len() - from,
{
    if from < jobs.len() && jobs[from].identity != identity {
        lemma_first_identity(jobs, identity, from + 1);
    }
}

/// No two jobs have the same identity.
pub open spec fn unique_identities(jobs: Seq<RawHistoryJob>) -> bool {
    forall|i: int, j: int|
        #![trigger jobs[i], jobs[j]]
        0 <= i < j < jobs.len() ==> jobs[i].identity != jobs[j].identity
}

/// Creating a job never gives a second job the same identity.
pub proof fn law_identities_stay_unique(
    before: HistoryStore,
    after: HistoryStore,
    id: RawHistoryJobId,
    request: RawHistoryJobSpec,
    now: u64,
    outcome: Result<RawHistoryJob, HistoryStoreError>,
)
    requires
        unique_identities(before.jobs@),
        before.job_created(after, id, request, now, outcome),
    ensures
        unique_identities(after.jobs@),
{
    lemma_first_identity(before.jobs@, request.spec_identity(), 0);
    if after.jobs@.len() == before.jobs@.len() + 1 {
        assert forall|i: int, j: int|
            #![trigger after.jobs@[i], after.jobs@[j]]
            0 <= i < j < after.jobs@.len() implies after.jobs@[i].identity
            != after.jobs@[j].identity by {
            assert(after.jobs@.drop_last()[i] == before.jobs@[i]);
            if j < before.jobs@.len() {
                assert(after.jobs@.drop_last()[j] == before.jobs@[j]);
            }
        }
    }
}

/// Creating a job again changes nothing and names the same job, whether it is
/// asked for under the job's own name or under one that is free.
pub proof fn law_creating_again_changes_nothing(
    before: HistoryStore,
    after: HistoryStore,
    again: HistoryStore,
    id: RawHistoryJobId,
    alias: RawHistoryJobId,
    request: RawHistoryJobSpec,
    now: u64,
    later: u64,
    created: RawHistoryJob,
    outcome: Result<RawHistoryJob, HistoryStoreError>,
)
    requires
        before.wf(),
        after.wf(),
        unique_identities(before.jobs@),
        before.job_created(
            after,
            id,
            request,
            now,
            Ok::<RawHistoryJob, HistoryStoreError>(created),
        ),
        after.job_created(again, alias, request, later, outcome),
        alias@ == created.id@ || first_job(after.jobs@, alias@, 0) is None,
    ensures
        again.same_rows(after),
        outcome is Ok,
        outcome->Ok_0.alike(created),
{
    let identity = request.spec_identity();
    law_identities_stay_unique(
        before,
        after,
        id,
        request,
        now,
        Ok::<RawHistoryJob, HistoryStoreError>(created),
    );
    lemma_first_job(before.jobs@, id@, 0);
    lemma_first_identity(before.jobs@, identity, 0);
    lemma_first_identity(after.jobs@, identity, 0);
    lemma_first_job(after.jobs@, alias@, 0);
    let place = if first_job(before.jobs@, id@, 0) is Some {
        first_job(before.jobs@, id@, 0)->0
    } else if first_identity(before.jobs@, identity, 0) is Some {
        first_identity(before.jobs@, identity, 0)->0
    } else {
        before.jobs@.len() as int
    };
    if place < before.jobs@.len() {
        assert(after.jobs@[place] == before.jobs@[place]);
    } else {
        assert(after.jobs@[place] == after.jobs@.last());
    }
    assert(after.jobs@[place].id == created.id);
    assert(after.jobs@[place].identity == identity);
    if first_job(after.jobs@, alias@, 0) is Some {
        let at = first_job(after.jobs@, alias@, 0)->0;
        if at != place {
            assert(after.jobs@[at].id@ != after.jobs@[place].id@);
        }
    } else {
        let at = first_identity(after.jobs@, identity, 0)->0;
        if at != place {
            assert(after.jobs@[at].identity != after.jobs@[place].identity);
        }
    }
}

} // verus!
