//! Embedding records and the immutable nearest-neighbor index.
//!
//! A [`VectorIndex`] is built once over a fixed collection of
//! [`EmbeddingRecord`]s and answers k-nearest-neighbor queries under the
//! exact cosine-similarity order of [`crate::vector`]. There is no insert or
//! delete: any change of membership is a full rebuild.

use vstd::prelude::*;

verus! {

use crate::vector::DOT_BOUND;
use crate::vector::dot;
use crate::vector::dot_s;
use crate::vector::lemma_sim_ge_total;
use crate::vector::lemma_sim_ge_trans;
use crate::vector::norm_sq;
use crate::vector::norm_sq_s;
use crate::vector::sim_ge;
use crate::vector::sim_ge_exec;
use crate::vector::valid_vector;

broadcast use vstd::seq_lib::group_to_multiset_ensures;

/// One embedded chunk: the owning file, the chunk's byte range, and the
/// embedding vector of the chunk's text. Identity is the triple
/// `(file_id, start_byte, end_byte)`; a record is never mutated once made.
#[derive(Debug)]
pub struct EmbeddingRecord {
    pub file_id: i64,
    pub start_byte: i64,
    pub end_byte: i64,
    pub vector: Vec<i64>,
}

/// The mathematical content of an [`EmbeddingRecord`].
pub ghost struct RecordModel {
    pub file_id: int,
    pub start_byte: int,
    pub end_byte: int,
    pub vector: Seq<i64>,
}

impl View for EmbeddingRecord {
    type V = RecordModel;

    open spec fn view(&self) -> RecordModel {
        RecordModel {
            file_id: self.file_id as int,
            start_byte: self.start_byte as int,
            end_byte: self.end_byte as int,
            vector: self.vector@,
        }
    }
}

/// Every record in the sequence carries a vector the library accepts.
pub open spec fn valid_records(rs: Seq<EmbeddingRecord>) -> bool {
    forall|i: int| 0 <= i < rs.len() ==> valid_vector((#[trigger] rs[i]).vector@)
}

impl EmbeddingRecord {
    /// A record for the chunk `[start_byte, end_byte)` of file `file_id`,
    /// embedded as `vector`.
    pub fn new(file_id: i64, start_byte: i64, end_byte: i64, vector: Vec<i64>) -> (r: Self)
        ensures
            r@ == (RecordModel {
                file_id: file_id as int,
                start_byte: start_byte as int,
                end_byte: end_byte as int,
                vector: vector@,
            }),
    {
        EmbeddingRecord { file_id, start_byte, end_byte, vector }
    }

    /// An exact copy: same identity, same vector.
    pub fn duplicate(&self) -> (r: Self)
        ensures
            r@ == self@,
    {
        EmbeddingRecord {
            file_id: self.file_id,
            start_byte: self.start_byte,
            end_byte: self.end_byte,
            vector: clone_vector(&self.vector),
        }
    }
}

/// An exact copy of a vector of fixed-point components.
fn clone_vector(v: &Vec<i64>) -> (r: Vec<i64>)
    ensures
        r@ == v@,
{
    let r = v.clone();
    proof {
        assert forall|i: int| 0 <= i < v@.len() implies v@[i] == r@[i] by {
            assert(vstd::pervasive::cloned::<i64>(v@[i], r@[i]));
        }
        assert(v@ =~= r@);
    }
    r
}

/// The exact similarity of one record to one query: the dot product of the
/// two vectors and both squared norms. The cosine of the pair is
/// `dot / sqrt(record_norm_sq * query_norm_sq)`; the fields decide the
/// cosine order exactly, without computing the square roots.
#[derive(Clone, Copy, Debug, PartialEq, Eq, Structural)]
pub struct Similarity {
    pub dot: i64,
    pub record_norm_sq: i64,
    pub query_norm_sq: i64,
}

impl Similarity {
    /// Bounds that hold of every similarity of two valid vectors.
    pub open spec fn wf(self) -> bool {
        &&& -DOT_BOUND <= self.dot <= DOT_BOUND
        &&& 0 <= self.record_norm_sq <= DOT_BOUND
        &&& 0 <= self.query_norm_sq <= DOT_BOUND
    }

    /// This value is the similarity of record vector `v` to query `q`.
    pub open spec fn is_score_of(self, q: Seq<i64>, v: Seq<i64>) -> bool {
        &&& self.dot as int == dot_s(q, v)
        &&& self.record_norm_sq as int == norm_sq_s(v)
        &&& self.query_norm_sq as int == norm_sq_s(q)
    }

    /// The cosine order: `self` is at least as similar as `other`
    /// (both scored against the same query).
    pub open spec fn ge_spec(self, other: Similarity) -> bool {
        sim_ge(
            self.dot as int,
            self.record_norm_sq as int,
            other.dot as int,
            other.record_norm_sq as int,
        )
    }

    /// Decides the cosine order exactly.
    pub fn ge(&self, other: &Similarity) -> (r: bool)
        requires
            self.wf(),
            other.wf(),
        ensures
            r == self.ge_spec(*other),
    {
        sim_ge_exec(self.dot, self.record_norm_sq, other.dot, other.record_norm_sq)
    }

    /// Whether the cosine is exactly one, the maximum possible similarity:
    /// the dot product is positive and its square equals the product of the
    /// squared norms.
    pub fn is_max(&self) -> (r: bool)
        requires
            self.wf(),
        ensures
            r == (self.dot > 0 && (self.dot as int) * (self.dot as int) == (
            self.record_norm_sq as int) * (self.query_norm_sq as int)),
    {
        proof {
            let b = DOT_BOUND as int;
            assert(0 <= (self.dot as int) * (self.dot as int) <= b * b) by (nonlinear_arith)
                requires
                    -b <= self.dot as int <= b,
                    b > 0,
            ;
            assert(0 <= (self.record_norm_sq as int) * (self.query_norm_sq as int) <= b * b)
                by (nonlinear_arith)
                requires
                    0 <= self.record_norm_sq as int <= b,
                    0 <= self.query_norm_sq as int <= b,
            ;
            assert((DOT_BOUND as int) * (DOT_BOUND as int)
                <= 0x7fff_ffff_ffff_ffff_ffff_ffff_ffff_ffff) by (nonlinear_arith);
        }
        self.dot > 0 && (self.dot as i128) * (self.dot as i128) == (self.record_norm_sq as i128)
            * (self.query_norm_sq as i128)
    }

    /// Whether the cosine is exactly zero: the vectors are orthogonal.
    pub fn is_zero(&self) -> (r: bool)
        ensures
            r == (self.dot == 0),
    {
        self.dot == 0
    }
}

/// Every result pair carries the true similarity of its record to query `q`.
pub open spec fn scores_match(q: Seq<i64>, r: Seq<(EmbeddingRecord, Similarity)>) -> bool {
    forall|i: int|
        0 <= i < r.len() ==> (#[trigger] r[i]).1.is_score_of(q, r[i].0.vector@) && r[i].1.wf()
}

/// The result pairs are ordered by descending similarity.
pub open spec fn sorted_desc(r: Seq<(EmbeddingRecord, Similarity)>) -> bool {
    forall|i: int, j: int| 0 <= i <= j < r.len() ==> (#[trigger] r[i]).1.ge_spec((#[trigger] r[j]).1)
}

/// The records of a result sequence, as models.
pub open spec fn result_models(r: Seq<(EmbeddingRecord, Similarity)>) -> Seq<RecordModel> {
    r.map_values(|t: (EmbeddingRecord, Similarity)| t.0@)
}

/// Every record left out of the result scores no higher than any returned
/// record: the result is a true top-k selection from `models`.
pub open spec fn beats_left_out(
    q: Seq<i64>,
    models: Seq<RecordModel>,
    r: Seq<(EmbeddingRecord, Similarity)>,
) -> bool {
    forall|m: RecordModel, i: int|
        #![trigger models.to_multiset().count(m), r[i]]
        0 <= i < r.len() && models.to_multiset().count(m) > result_models(r).to_multiset().count(m)
            ==> sim_ge(
            r[i].1.dot as int,
            r[i].1.record_norm_sq as int,
            dot_s(q, m.vector),
            norm_sq_s(m.vector),
        )
}

/// An immutable spatial index over a fixed collection of embedding records.
/// Built once; queried many times; never updated in place.
///
/// Construction caches each record's squared norm; a query then ranks by
/// the exact cosine order. The search examines every record: cosine
/// similarity violates the triangle inequality, so a metric-space partition
/// (a vantage-point tree, say) could not prune candidates soundly.
pub struct VectorIndex {
    records: Vec<EmbeddingRecord>,
    norms: Vec<i64>,
}

impl View for VectorIndex {
    type V = Seq<RecordModel>;

    closed spec fn view(&self) -> Seq<RecordModel> {
        self.records@.map_values(|r: EmbeddingRecord| r@)
    }
}

impl VectorIndex {
    /// The structural invariant: one cached squared norm per record, each
    /// equal to the squared norm of that record's vector, and every vector
    /// within the library's bounds.
    pub closed spec fn wf(self) -> bool {
        &&& self.norms@.len() == self.records@.len()
        &&& valid_records(self.records@)
        &&& forall|i: int|
            0 <= i < self.records@.len() ==> (#[trigger] self.norms@[i]) as int == norm_sq_s(
                self.records@[i].vector@,
            )
    }

    /// Constructs the index over exactly `records`, caching each record's
    /// squared norm.
    pub fn build(records: Vec<EmbeddingRecord>) -> (idx: Self)
        requires
            valid_records(records@),
        ensures
            idx.wf(),
            idx@ == records@.map_values(|r: EmbeddingRecord| r@),
    {
        let mut norms: Vec<i64> = Vec::new();
        let mut i: usize = 0;
        while i < records.len()
            invariant
                valid_records(records@),
                i <= records@.len(),
                norms@.len() == i,
                forall|j: int|
                    0 <= j < i ==> (#[trigger] norms@[j]) as int == norm_sq_s(
                        records@[j].vector@,
                    ),
            decreases records@.len() - i,
        {
            let n = norm_sq(&records[i].vector);
            norms.push(n);
            i = i + 1;
        }
        VectorIndex { records, norms }
    }

    /// How many records the index was built over.
    pub fn len(&self) -> (n: usize)
        ensures
            n == self@.len(),
    {
        self.records.len()
    }

    /// The record at position `i` of the build collection.
    pub fn record_at(&self, i: usize) -> (r: &EmbeddingRecord)
        requires
            i < self@.len(),
        ensures
            r@ == self@[i as int],
    {
        &self.records[i]
    }

    /// Returns up to `k` records ordered by descending cosine similarity to
    /// `target`, each paired with its exact similarity. If `k` exceeds the
    /// collection size, all records are returned; an index over zero records
    /// returns an empty sequence. Every returned record is one of the stored
    /// records, and no stored record left out scores higher than any
    /// returned one.
    pub fn query(&self, target: &Vec<i64>, k: usize) -> (r: Vec<(EmbeddingRecord, Similarity)>)
        requires
            self.wf(),
            valid_vector(target@),
        ensures
            r@.len() == vstd::math::min(k as int, self@.len() as int),
            scores_match(target@, r@),
            sorted_desc(r@),
            result_models(r@).to_multiset().subset_of(self@.to_multiset()),
            beats_left_out(target@, self@, r@),
    {
        let qn = norm_sq(target);
        let mut rest: Vec<(EmbeddingRecord, Similarity)> = Vec::new();
        let mut i: usize = 0;
        while i < self.records.len()
            invariant
                self.wf(),
                valid_vector(target@),
                qn as int == norm_sq_s(target@),
                0 <= qn <= DOT_BOUND,
                i <= self.records@.len(),
                rest@.len() == i,
                forall|j: int| 0 <= j < i ==> (#[trigger] rest@[j]).0@ == self@[j],
                scores_match(target@, rest@),
            decreases self.records@.len() - i,
        {
            let rec = self.records[i].duplicate();
            let d = dot(target, &self.records[i].vector);
            let sim = Similarity { dot: d, record_norm_sq: self.norms[i], query_norm_sq: qn };
            proof {
                crate::vector::lemma_norm_sq_bounds(self.records@[i as int].vector@);
            }
            rest.push((rec, sim));
            i = i + 1;
        }
        proof {
            assert(result_models(rest@) =~= self@);
        }
        let ghost total = self@.to_multiset();
        let mut out: Vec<(EmbeddingRecord, Similarity)> = Vec::new();
        proof {
            assert(result_models(out@) =~= Seq::<RecordModel>::empty());
            assert(result_models(out@).to_multiset().add(result_models(rest@).to_multiset())
                =~= total);
        }
        while out.len() < k && rest.len() > 0
            invariant
                valid_vector(target@),
                total == self@.to_multiset(),
                scores_match(target@, out@),
                scores_match(target@, rest@),
                sorted_desc(out@),
                out@.len() + rest@.len() == self@.len(),
                out@.len() <= k,
                result_models(out@).to_multiset().add(result_models(rest@).to_multiset())
                    == total,
                forall|a: int, b: int|
                    0 <= a < out@.len() && 0 <= b < rest@.len() ==> (#[trigger] out@[a]).1.ge_spec(
                        (#[trigger] rest@[b]).1,
                    ),
            decreases rest@.len(),
        {
            let ghost out0 = out@;
            let ghost rest0 = rest@;
            let j = max_index(&rest);
            let pair = rest.remove(j);
            proof {
                let ghost m = pair.0@;
                assert(result_models(rest@) =~= result_models(rest0).remove(j as int));
                assert(result_models(rest0)[j as int] == m);
                assert(result_models(rest0).contains(m)) by {
                    assert(result_models(rest0)[j as int] == m);
                }
                assert(result_models(rest0).to_multiset().count(m) > 0);
            }
            out.push(pair);
            proof {
                let ghost m = pair.0@;
                assert(result_models(out@) =~= result_models(out0).push(m));
                assert(result_models(out@).to_multiset() =~= result_models(
                    out0,
                ).to_multiset().insert(m));
                assert(result_models(rest@).to_multiset() =~= result_models(
                    rest0,
                ).to_multiset().remove(m));
                assert(result_models(out@).to_multiset().add(result_models(rest@).to_multiset())
                    =~= total);
                // The new pair scores no higher than anything already chosen,
                // and at least as high as everything still unchosen.
                assert forall|a: int, b: int|
                    0 <= a < out@.len() && 0 <= b < rest@.len() implies (
                #[trigger] out@[a]).1.ge_spec((#[trigger] rest@[b]).1) by {
                    let b0: int = if b < j { b } else { b + 1 };
                    assert(rest@[b] == rest0[b0]);
                    if a < out0.len() {
                        assert(out@[a] == out0[a]);
                    } else {
                        assert(out@[a] == rest0[j as int]);
                    }
                }
                assert forall|a: int, b: int| 0 <= a <= b < out@.len() implies (
                #[trigger] out@[a]).1.ge_spec((#[trigger] out@[b]).1) by {
                    if b < out0.len() {
                        assert(out@[a] == out0[a] && out@[b] == out0[b]);
                    } else {
                        assert(out@[b] == rest0[j as int]);
                        if a < out0.len() {
                            assert(out@[a] == out0[a]);
                        } else {
                            crate::vector::lemma_sim_ge_refl(
                                out@[a].1.dot as int,
                                out@[a].1.record_norm_sq as int,
                            );
                        }
                    }
                }
                assert forall|t: int| 0 <= t < out@.len() implies (#[trigger] out@[t]).1.is_score_of(
                    target@,
                    out@[t].0.vector@,
                ) && out@[t].1.wf() by {
                    if t < out0.len() {
                        assert(out@[t] == out0[t]);
                    } else {
                        assert(out@[t] == rest0[j as int]);
                    }
                }
            }
        }
        proof {
            // Length: the loop stops either because k results were chosen or
            // because everything was chosen.
            assert(out@.len() == vstd::math::min(k as int, self@.len() as int));
            // Membership: the chosen multiset is within the stored one.
            assert forall|m: RecordModel|
                result_models(out@).to_multiset().count(m) <= #[trigger] total.count(m) by {
                assert(total.count(m) == result_models(out@).to_multiset().count(m)
                    + result_models(rest@).to_multiset().count(m));
            }
            assert(result_models(out@).to_multiset().subset_of(total));
            // Optimality: a record with a copy left out still sits in `rest`,
            // and everything chosen scores at least as high.
            assert forall|m: RecordModel, t: int|
                #![trigger self@.to_multiset().count(m), out@[t]]
                0 <= t < out@.len() && self@.to_multiset().count(m) > result_models(
                    out@,
                ).to_multiset().count(m) implies sim_ge(
                out@[t].1.dot as int,
                out@[t].1.record_norm_sq as int,
                dot_s(target@, m.vector),
                norm_sq_s(m.vector),
            ) by {
                assert(result_models(rest@).to_multiset().count(m) > 0);
                assert(result_models(rest@).contains(m));
                let b = choose|b: int|
                    0 <= b < result_models(rest@).len() && result_models(rest@)[b] == m;
                assert(rest@[b].0@ == m);
                assert(rest@[b].1.is_score_of(target@, rest@[b].0.vector@));
                assert(out@[t].1.ge_spec(rest@[b].1));
            }
        }
        out
    }
}

/// Self-similarity is maximal: when the query vector itself is stored as a
/// record (with positive squared norm) and a query returns at least one
/// result, the top result's cosine is exactly one — the maximum — since no
/// record can score above the stored copy of the query. The hypotheses are
/// the ensures of [`VectorIndex::query`].
pub proof fn lemma_self_query_top(
    models: Seq<RecordModel>,
    q: Seq<i64>,
    r: Seq<(EmbeddingRecord, Similarity)>,
    v: int,
)
    requires
        0 <= v < models.len(),
        models[v].vector == q,
        norm_sq_s(q) > 0,
        r.len() > 0,
        scores_match(q, r),
        sorted_desc(r),
        beats_left_out(q, models, r),
        result_models(r).to_multiset().subset_of(models.to_multiset()),
    ensures
        r[0].1.dot > 0,
        (r[0].1.dot as int) * (r[0].1.dot as int) == (r[0].1.record_norm_sq as int) * (
        r[0].1.query_norm_sq as int),
{
    broadcast use vstd::seq_lib::group_to_multiset_ensures;

    let nq = norm_sq_s(q);
    let m = models[v];
    let d0 = r[0].1.dot as int;
    let n0 = r[0].1.record_norm_sq as int;
    assert(r[0].1.is_score_of(q, r[0].0.vector@));
    assert(dot_s(q, m.vector) == nq && norm_sq_s(m.vector) == nq);
    // The top result scores at least as high as the stored copy of `q`.
    if models.to_multiset().count(m) > result_models(r).to_multiset().count(m) {
        // `beats_left_out` compares the top result against `m` directly.
        assert(sim_ge(d0, n0, nq, nq));
    } else {
        // Some returned record equals `m`; by sortedness the top result
        // scores at least as high as it does.
        assert(models.contains(m));
        assert(models.to_multiset().count(m) > 0);
        assert(result_models(r).to_multiset().count(m) > 0);
        assert(result_models(r).contains(m));
        let w = choose|w: int|
            0 <= w < result_models(r).len() && result_models(r)[w] == m;
        assert(r[w].0@ == m);
        assert(r[w].1.is_score_of(q, r[w].0.vector@));
        assert(r[0].1.ge_spec(r[w].1));
        assert(sim_ge(d0, n0, nq, nq));
    }
    // And, by Cauchy–Schwarz, no higher than cosine one.
    crate::vector::lemma_self_similarity_max(q, r[0].0.vector@);
    assert(sim_ge(nq, nq, d0, n0));
    // Equal both ways within the positive sign class pins the cosine at one.
    assert(crate::vector::sim_sign(nq, nq) == 1);
    assert(crate::vector::sim_sign(d0, n0) == 1);
    assert(d0 * d0 * nq >= nq * nq * n0);
    assert(nq * nq * n0 >= d0 * d0 * nq);
    assert(d0 * d0 == n0 * nq) by (nonlinear_arith)
        requires
            d0 * d0 * nq == nq * nq * n0,
            nq > 0,
    ;
    assert(r[0].1.query_norm_sq as int == nq);
}

/// Position of a pair whose similarity is at least every pair's in `rest`.
fn max_index(rest: &Vec<(EmbeddingRecord, Similarity)>) -> (j: usize)
    requires
        rest@.len() > 0,
        forall|i: int| 0 <= i < rest@.len() ==> (#[trigger] rest@[i]).1.wf(),
    ensures
        j < rest@.len(),
        forall|i: int| 0 <= i < rest@.len() ==> rest@[j as int].1.ge_spec((#[trigger] rest@[i]).1),
{
    let mut best: usize = 0;
    let mut i: usize = 1;
    proof {
        crate::vector::lemma_sim_ge_refl(rest@[0].1.dot as int, rest@[0].1.record_norm_sq as int);
    }
    while i < rest.len()
        invariant
            forall|t: int| 0 <= t < rest@.len() ==> (#[trigger] rest@[t]).1.wf(),
            1 <= i <= rest@.len(),
            best < i,
            forall|t: int| 0 <= t < i ==> rest@[best as int].1.ge_spec((#[trigger] rest@[t]).1),
        decreases rest@.len() - i,
    {
        if rest[i].1.ge(&rest[best].1) {
            proof {
                assert forall|t: int| 0 <= t < i + 1 implies rest@[i as int].1.ge_spec(
                    (#[trigger] rest@[t]).1,
                ) by {
                    if t < i {
                        lemma_sim_ge_trans(
                            rest@[i as int].1.dot as int,
                            rest@[i as int].1.record_norm_sq as int,
                            rest@[best as int].1.dot as int,
                            rest@[best as int].1.record_norm_sq as int,
                            rest@[t].1.dot as int,
                            rest@[t].1.record_norm_sq as int,
                        );
                    } else {
                        crate::vector::lemma_sim_ge_refl(
                            rest@[i as int].1.dot as int,
                            rest@[i as int].1.record_norm_sq as int,
                        );
                    }
                }
            }
            best = i;
        } else {
            proof {
                lemma_sim_ge_total(
                    rest@[i as int].1.dot as int,
                    rest@[i as int].1.record_norm_sq as int,
                    rest@[best as int].1.dot as int,
                    rest@[best as int].1.record_norm_sq as int,
                );
            }
        }
        i = i + 1;
    }
    best
}

} // verus!
