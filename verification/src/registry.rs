//! The process-wide registry of project stores.
//!
//! A [`ProjectManager`] maps project ids to [`ProjectStore`]s. It is
//! hydrated once at startup from durable storage and then mutated only
//! through explicit operations: add a project, refresh a project's records.
//! The registry itself is plain data; callers that serve concurrent requests
//! wrap it in a shared, internally synchronized handle, which serializes the
//! operations and so preserves every invariant stated here.

use vstd::prelude::*;

verus! {

use std::collections::HashMap;
use crate::errors::QueryError;
use crate::index::EmbeddingRecord;
use crate::index::RecordModel;
use crate::index::result_models;
use crate::index::valid_records;
use crate::store::ProjectStore;
use crate::vector::dot_s;
use crate::vector::norm_sq_s;
use crate::vector::sim_ge;
use crate::vector::valid_vector;

broadcast use vstd::std_specs::hash::group_hash_axioms;

/// Everything of one project that hydration loads from durable storage.
pub struct ProjectData {
    /// The project's id.
    pub id: i64,
    /// The project's name.
    pub name: String,
    /// The ids of the project's files.
    pub file_ids: Vec<i64>,
    /// All embedding records persisted for the project's files.
    pub records: Vec<EmbeddingRecord>,
}

/// The registry: project id to project store.
pub struct ProjectManager {
    projects: HashMap<i64, ProjectStore>,
}

impl View for ProjectManager {
    type V = Map<i64, ProjectStore>;

    closed spec fn view(&self) -> Map<i64, ProjectStore> {
        self.projects@
    }
}

impl ProjectManager {
    /// Every registered store is well formed.
    pub open spec fn wf(self) -> bool {
        forall|id: i64| #[trigger] self@.contains_key(id) ==> self@[id].wf()
    }

    /// An empty registry.
    pub fn new() -> (s: Self)
        ensures
            s.wf(),
            s@ == Map::<i64, ProjectStore>::empty(),
    {
        ProjectManager { projects: HashMap::new() }
    }

    /// Registers `store` under `id`, replacing any store already there.
    pub fn add_project(&mut self, id: i64, store: ProjectStore)
        requires
            old(self).wf(),
            store.wf(),
        ensures
            final(self).wf(),
            final(self)@ == old(self)@.insert(id, store),
    {
        self.projects.insert(id, store);
    }

    /// Registers a fresh project with no files and no embeddings. Its store
    /// is valid and queryable; every query returns empty results.
    pub fn add_blank_project(&mut self, id: i64, name: String)
        requires
            old(self).wf(),
        ensures
            final(self).wf(),
            final(self)@ == old(self)@.insert(id, final(self)@[id]),
            final(self)@.contains_key(id),
            final(self)@[id].wf(),
            final(self)@[id].embeddings() == Seq::<RecordModel>::empty(),
            final(self)@[id].project_id == id,
            final(self)@[id].name == name,
            final(self)@[id].file_ids@ == Seq::<i64>::empty(),
    {
        let store = ProjectStore::new(name, id, Vec::new(), Vec::new());
        proof {
            assert(Seq::<EmbeddingRecord>::empty().map_values(|r: EmbeddingRecord| r@)
                =~= Seq::<RecordModel>::empty());
        }
        self.projects.insert(id, store);
        proof {
            assert forall|id2: i64| #[trigger] self@.contains_key(id2) implies self@[id2].wf() by {
                if id2 != id {
                    assert(old(self)@.contains_key(id2));
                }
            }
        }
    }

    /// Looks a project's store up by id.
    pub fn get_project(&self, id: i64) -> (r: Option<&ProjectStore>)
        ensures
            match r {
                Some(store) => self@.contains_key(id) && *store == self@[id],
                None => !self@.contains_key(id),
            },
    {
        self.projects.get(&id)
    }

    /// Hydration: registers a store for every loaded project, built from
    /// exactly the records durable storage holds for it. A project with zero
    /// embeddings yields a valid store with an empty index. Projects already
    /// registered under other ids are left as they were.
    pub fn init_projects(&mut self, loaded: Vec<ProjectData>)
        requires
            old(self).wf(),
            forall|i: int, j: int|
                0 <= i < j < loaded@.len() ==> (#[trigger] loaded@[i]).id != (
                #[trigger] loaded@[j]).id,
            forall|i: int| 0 <= i < loaded@.len() ==> valid_records((#[trigger] loaded@[i]).records@),
        ensures
            final(self).wf(),
            forall|i: int|
                0 <= i < loaded@.len() ==> {
                    &&& final(self)@.contains_key((#[trigger] loaded@[i]).id)
                    &&& final(self)@[loaded@[i].id].embeddings() == loaded@[i].records@.map_values(
                        |r: EmbeddingRecord| r@,
                    )
                    &&& final(self)@[loaded@[i].id].project_id == loaded@[i].id
                    &&& final(self)@[loaded@[i].id].name == loaded@[i].name
                    &&& final(self)@[loaded@[i].id].file_ids == loaded@[i].file_ids
                },
            forall|id: i64|
                #[trigger] final(self)@.contains_key(id) ==> old(self)@.contains_key(id) || exists|
                    i: int,
                |
                    0 <= i < loaded@.len() && (#[trigger] loaded@[i]).id == id,
            forall|id: i64|
                #[trigger] old(self)@.contains_key(id) && (forall|i: int|
                    0 <= i < loaded@.len() ==> (#[trigger] loaded@[i]).id != id)
                    ==> final(self)@.contains_key(id) && final(self)@[id] == old(self)@[id],
    {
        let ghost loaded0 = loaded@;
        let ghost n = loaded@.len() as int;
        let mut rest = loaded;
        let ghost done: int = 0;
        while rest.len() > 0
            invariant
                self.wf(),
                0 <= done <= n,
                n == loaded0.len(),
                rest@ == loaded0.subrange(done, n),
                forall|i: int, j: int|
                    0 <= i < j < n ==> (#[trigger] loaded0[i]).id != (#[trigger] loaded0[j]).id,
                forall|i: int| 0 <= i < n ==> valid_records((#[trigger] loaded0[i]).records@),
                forall|i: int|
                    0 <= i < done ==> {
                        &&& self@.contains_key((#[trigger] loaded0[i]).id)
                        &&& self@[loaded0[i].id].embeddings() == loaded0[i].records@.map_values(
                            |r: EmbeddingRecord| r@,
                        )
                        &&& self@[loaded0[i].id].project_id == loaded0[i].id
                        &&& self@[loaded0[i].id].name == loaded0[i].name
                        &&& self@[loaded0[i].id].file_ids == loaded0[i].file_ids
                    },
                forall|id: i64|
                    #[trigger] self@.contains_key(id) ==> old(self)@.contains_key(id) || exists|
                        i: int,
                    |
                        0 <= i < done && (#[trigger] loaded0[i]).id == id,
                forall|id: i64|
                    #[trigger] old(self)@.contains_key(id) && (forall|i: int|
                        0 <= i < done ==> (#[trigger] loaded0[i]).id != id) ==> self@.contains_key(
                        id,
                    ) && self@[id] == old(self)@[id],
            decreases rest@.len(),
        {
            let pd = rest.remove(0);
            proof {
                assert(pd == loaded0[done]);
                assert(rest@ =~= loaded0.subrange(done + 1, n));
            }
            let ghost before = self@;
            let store = ProjectStore::new(pd.name, pd.id, pd.file_ids, pd.records);
            self.projects.insert(pd.id, store);
            proof {
                assert(self@ == before.insert(pd.id, store));
                assert forall|id2: i64| #[trigger] self@.contains_key(id2) implies self@[id2].wf()
                    && (before.contains_key(id2) || id2 == pd.id) by {
                    if id2 != pd.id {
                        assert(before.contains_key(id2));
                    }
                }
                done = done + 1;
            }
        }
        proof {
            assert(done == n);
        }
    }

    /// Re-reads are the caller's: given the records durable storage now
    /// holds for the project, replaces the store's collection and rebuilds
    /// its index. Fails only when the project id is not registered, and then
    /// changes nothing.
    pub fn refresh_project(&mut self, project_id: i64, records: Vec<EmbeddingRecord>) -> (r: Result<
        (),
        QueryError,
    >)
        requires
            old(self).wf(),
            valid_records(records@),
        ensures
            final(self).wf(),
            old(self)@.contains_key(project_id) ==> {
                &&& r == Ok::<(), QueryError>(())
                &&& final(self)@ == old(self)@.insert(project_id, final(self)@[project_id])
                &&& final(self)@[project_id].embeddings() == records@.map_values(
                    |r: EmbeddingRecord| r@,
                )
                &&& final(self)@[project_id].project_id == old(self)@[project_id].project_id
                &&& final(self)@[project_id].name == old(self)@[project_id].name
                &&& final(self)@[project_id].file_ids == old(self)@[project_id].file_ids
            },
            !old(self)@.contains_key(project_id) ==> r == Err::<(), QueryError>(
                QueryError::UnknownProject,
            ) && final(self)@ == old(self)@,
    {
        match self.projects.remove(&project_id) {
            None => {
                proof {
                    assert(old(self)@.remove(project_id) =~= old(self)@);
                }
                Err(QueryError::UnknownProject)
            },
            Some(mut store) => {
                proof {
                    assert(old(self)@.contains_key(project_id));
                    assert(store == old(self)@[project_id]);
                    assert(store.wf());
                }
                store.refresh(records);
                self.projects.insert(project_id, store);
                proof {
                    assert(old(self)@.remove(project_id).insert(project_id, store) =~= old(
                        self,
                    )@.insert(project_id, store));
                    assert forall|id2: i64| #[trigger] self@.contains_key(id2) implies
                        self@[id2].wf() by {
                        if id2 != project_id {
                            assert(old(self)@.contains_key(id2));
                        }
                    }
                }
                Ok(())
            },
        }
    }

    /// After a file's ingestion completes: replaces the project's records
    /// with what durable storage now holds, rebuilds the index, and marks
    /// the file as ingested. Fails only when the project id is not
    /// registered, and then changes nothing.
    pub fn update_embeddings(
        &mut self,
        project_id: i64,
        file_id: i64,
        records: Vec<EmbeddingRecord>,
    ) -> (r: Result<(), QueryError>)
        requires
            old(self).wf(),
            valid_records(records@),
        ensures
            final(self).wf(),
            old(self)@.contains_key(project_id) ==> {
                &&& r == Ok::<(), QueryError>(())
                &&& final(self)@ == old(self)@.insert(project_id, final(self)@[project_id])
                &&& final(self)@[project_id].embeddings() == records@.map_values(
                    |r: EmbeddingRecord| r@,
                )
                &&& final(self)@[project_id].project_id == old(self)@[project_id].project_id
                &&& final(self)@[project_id].name == old(self)@[project_id].name
                &&& (old(self)@[project_id].file_ids@.contains(file_id)
                    ==> final(self)@[project_id].file_ids@ == old(self)@[project_id].file_ids@)
                &&& (!old(self)@[project_id].file_ids@.contains(file_id)
                    ==> final(self)@[project_id].file_ids@ == old(
                    self,
                )@[project_id].file_ids@.push(file_id))
            },
            !old(self)@.contains_key(project_id) ==> r == Err::<(), QueryError>(
                QueryError::UnknownProject,
            ) && final(self)@ == old(self)@,
    {
        match self.projects.remove(&project_id) {
            None => {
                proof {
                    assert(old(self)@.remove(project_id) =~= old(self)@);
                }
                Err(QueryError::UnknownProject)
            },
            Some(mut store) => {
                proof {
                    assert(old(self)@.contains_key(project_id));
                    assert(store == old(self)@[project_id]);
                    assert(store.wf());
                }
                store.refresh(records);
                store.add_file(file_id);
                self.projects.insert(project_id, store);
                proof {
                    assert(old(self)@.remove(project_id).insert(project_id, store) =~= old(
                        self,
                    )@.insert(project_id, store));
                    assert forall|id2: i64| #[trigger] self@.contains_key(id2) implies
                        self@[id2].wf() by {
                        if id2 != project_id {
                            assert(old(self)@.contains_key(id2));
                        }
                    }
                }
                Ok(())
            },
        }
    }

    /// The single best match: looks the store up, asks for the one nearest
    /// neighbor of `query`, and returns it. Errs with `UnknownProject` when
    /// the id is not registered and with `NoEmbeddings` when the project has
    /// no records; otherwise the returned record is one of the project's
    /// records and no record of the project is more similar to the query.
    pub fn get_most_similiar_embedding(&self, project_id: i64, query: &Vec<i64>) -> (r: Result<
        EmbeddingRecord,
        QueryError,
    >)
        requires
            self.wf(),
            valid_vector(query@),
        ensures
            (r == Err::<EmbeddingRecord, QueryError>(QueryError::UnknownProject)) <==> !self@.contains_key(
                project_id,
            ),
            self@.contains_key(project_id) ==> ((r == Err::<EmbeddingRecord, QueryError>(
                QueryError::NoEmbeddings,
            )) <==> self@[project_id].embeddings().len() == 0),
            r matches Ok(rec) ==> {
                &&& self@.contains_key(project_id)
                &&& self@[project_id].embeddings().to_multiset().count(rec@) > 0
                &&& forall|m: RecordModel|
                    #[trigger] self@[project_id].embeddings().to_multiset().count(m) > 0 ==> sim_ge(
                        dot_s(query@, rec@.vector),
                        norm_sq_s(rec@.vector),
                        dot_s(query@, m.vector),
                        norm_sq_s(m.vector),
                    )
            },
    {
        broadcast use vstd::seq_lib::group_to_multiset_ensures;

        match self.projects.get(&project_id) {
            None => Err(QueryError::UnknownProject),
            Some(store) => {
                proof {
                    assert(self@.contains_key(project_id));
                    assert(*store == self@[project_id]);
                    assert(store.wf());
                }
                if store.len() == 0 {
                    Err(QueryError::NoEmbeddings)
                } else {
                    let mut results = store.knn(query, 1);
                    let ghost results0 = results@;
                    let pair = results.remove(0);
                    proof {
                        let models = store.embeddings();
                        assert(results0[0] == pair);
                        assert(result_models(results0)[0] == pair.0@);
                        assert(result_models(results0).contains(pair.0@));
                        assert(result_models(results0).to_multiset().count(pair.0@) > 0);
                        assert(models.to_multiset().count(pair.0@) > 0);
                        assert(pair.1.is_score_of(query@, pair.0.vector@));
                        assert forall|m: RecordModel|
                            #[trigger] models.to_multiset().count(m) > 0 implies sim_ge(
                            dot_s(query@, pair.0@.vector),
                            norm_sq_s(pair.0@.vector),
                            dot_s(query@, m.vector),
                            norm_sq_s(m.vector),
                        ) by {
                            if models.to_multiset().count(m) > result_models(
                                results0,
                            ).to_multiset().count(m) {
                                assert(results0[0] == pair);
                            } else {
                                assert(result_models(results0).to_multiset().count(m) > 0);
                                assert(result_models(results0).contains(m));
                                let w = choose|w: int|
                                    0 <= w < result_models(results0).len() && result_models(
                                        results0,
                                    )[w] == m;
                                assert(w == 0);
                                assert(m == pair.0@);
                                crate::vector::lemma_sim_ge_refl(
                                    dot_s(query@, m.vector),
                                    norm_sq_s(m.vector),
                                );
                            }
                        }
                    }
                    Ok(pair.0)
                }
            },
        }
    }
}

} // verus!
