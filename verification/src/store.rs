//! One project's embedding records and their nearest-neighbor index.
//!
//! The index is derived data: the store holds exactly one collection, the
//! one its index was built over, so no reader can ever observe the records
//! and the index out of sync. A refresh builds a new index from the new
//! records and swaps it in whole.

use vstd::prelude::*;

verus! {

use crate::index::EmbeddingRecord;
use crate::index::RecordModel;
use crate::index::Similarity;
use crate::index::VectorIndex;
use crate::index::beats_left_out;
use crate::index::result_models;
use crate::index::scores_match;
use crate::index::sorted_desc;
use crate::index::valid_records;
use crate::vector::valid_vector;

/// One project's name, ingested files, and embedding records with their
/// index.
pub struct ProjectStore {
    /// The owning project.
    pub project_id: i64,
    /// The project's name.
    pub name: String,
    /// The files considered ingested into this project.
    pub file_ids: Vec<i64>,
    /// The index over the project's records; derived data, replaced whole on
    /// refresh.
    pub index: VectorIndex,
}

impl ProjectStore {
    /// The structural invariant: the index is well formed (it caches the
    /// true squared norm of each of its records).
    pub closed spec fn wf(self) -> bool {
        self.index.wf()
    }

    /// The records the store currently serves: exactly the collection its
    /// index was built from.
    pub closed spec fn embeddings(self) -> Seq<RecordModel> {
        self.index@
    }

    /// A store over `records`, with its index built eagerly.
    pub fn new(
        name: String,
        project_id: i64,
        file_ids: Vec<i64>,
        records: Vec<EmbeddingRecord>,
    ) -> (s: Self)
        requires
            valid_records(records@),
        ensures
            s.wf(),
            s.embeddings() == records@.map_values(|r: EmbeddingRecord| r@),
            s.project_id == project_id,
            s.name == name,
            s.file_ids == file_ids,
    {
        ProjectStore { project_id, name, file_ids, index: VectorIndex::build(records) }
    }

    /// How many embedding records the store serves.
    pub fn len(&self) -> (n: usize)
        ensures
            n == self.embeddings().len(),
    {
        self.index.len()
    }

    /// The record at position `i` of the served collection.
    pub fn record_at(&self, i: usize) -> (r: &EmbeddingRecord)
        requires
            i < self.embeddings().len(),
        ensures
            r@ == self.embeddings()[i as int],
    {
        self.index.record_at(i)
    }

    /// Up to `k` records ordered by descending similarity to `target`, each
    /// with its exact similarity; see [`VectorIndex::query`].
    pub fn knn(&self, target: &Vec<i64>, k: usize) -> (r: Vec<(EmbeddingRecord, Similarity)>)
        requires
            self.wf(),
            valid_vector(target@),
        ensures
            r@.len() == vstd::math::min(k as int, self.embeddings().len() as int),
            scores_match(target@, r@),
            sorted_desc(r@),
            result_models(r@).to_multiset().subset_of(self.embeddings().to_multiset()),
            beats_left_out(target@, self.embeddings(), r@),
    {
        self.index.query(target, k)
    }

    /// Replaces the served records and rebuilds the index from exactly them,
    /// in one step: a reader of the store before the call sees the old
    /// collection with the old index, one after the call the new collection
    /// with the new index, and never a mix.
    pub fn refresh(&mut self, records: Vec<EmbeddingRecord>)
        requires
            old(self).wf(),
            valid_records(records@),
        ensures
            final(self).wf(),
            final(self).embeddings() == records@.map_values(|r: EmbeddingRecord| r@),
            final(self).project_id == old(self).project_id,
            final(self).name == old(self).name,
            final(self).file_ids == old(self).file_ids,
    {
        self.index = VectorIndex::build(records);
    }

    /// Marks a file as ingested into this project, once.
    pub fn add_file(&mut self, file_id: i64)
        requires
            old(self).wf(),
        ensures
            final(self).wf(),
            final(self).embeddings() == old(self).embeddings(),
            final(self).project_id == old(self).project_id,
            final(self).name == old(self).name,
            old(self).file_ids@.contains(file_id) ==> final(self).file_ids@ == old(
                self,
            ).file_ids@,
            !old(self).file_ids@.contains(file_id) ==> final(self).file_ids@ == old(
                self,
            ).file_ids@.push(file_id),
    {
        let mut i: usize = 0;
        while i < self.file_ids.len()
            invariant
                i <= self.file_ids@.len(),
                forall|j: int| 0 <= j < i ==> self.file_ids@[j] != file_id,
                old(self).wf(),
                *self == *old(self),
            decreases self.file_ids@.len() - i,
        {
            if self.file_ids[i] == file_id {
                return ;
            }
            i = i + 1;
        }
        self.file_ids.push(file_id);
    }
}

/// No stale results: a k-nearest-neighbor result drawn from a store's
/// current collection serves only records of that collection. In particular,
/// after a refresh every result is a member of the new record set, and
/// before it of the old one; never of neither.
pub proof fn lemma_knn_serves_current(
    models: Seq<RecordModel>,
    r: Seq<(EmbeddingRecord, Similarity)>,
)
    requires
        result_models(r).to_multiset().subset_of(models.to_multiset()),
    ensures
        forall|i: int| 0 <= i < r.len() ==> models.to_multiset().count((#[trigger] r[i]).0@) > 0,
{
    broadcast use vstd::seq_lib::group_to_multiset_ensures;

    assert forall|i: int| 0 <= i < r.len() implies models.to_multiset().count(
        (#[trigger] r[i]).0@,
    ) > 0 by {
        assert(result_models(r)[i] == r[i].0@);
        assert(result_models(r).contains(r[i].0@));
        assert(result_models(r).to_multiset().count(r[i].0@) > 0);
    }
}

} // verus!
