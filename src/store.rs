//! The store that keeps chunk texts, their embeddings and the similarity index
//! in lockstep.
use crate::chunker::string_texts;
use crate::errors::RagError;
use crate::index::{scores_of, SimilarityIndex};
use crate::ranking::{int_keys, int_scores, is_top_k, ranks_before, top_k};
use crate::vector::{all_finite, check_finite, dot, fixed_vec, lemma_dot_bound, quantize};
use vstd::prelude::*;

verus! {

/// Chunk texts and their embeddings (as binary32 bit patterns), with the
/// fixed-point form of each embedding in a similarity index under the chunk's
/// position as key.
pub struct RagStore {
    chunks: Vec<String>,
    embeddings: Vec<Vec<u32>>,
    index: SimilarityIndex,
}

/// The components of a sequence of embeddings.
pub open spec fn vectors(v: Seq<Vec<u32>>) -> Seq<Seq<u32>> {
    v.map_values(|e: Vec<u32>| e@)
}

/// An embedding the store accepts: the store's dimensionality, no NaN or infinity.
pub open spec fn acceptable(dimensions: nat, e: Seq<u32>) -> bool {
    e.len() == dimensions && all_finite(e)
}

/// The error `add` reports for an embedding, if any.
pub open spec fn embedding_error(dimensions: nat, e: Seq<u32>) -> Option<RagError> {
    if e.len() != dimensions {
        Some(RagError::DimensionMismatch)
    } else if !all_finite(e) {
        Some(RagError::DegenerateVector)
    } else {
        None
    }
}

/// The error a batch is refused with, if any: unequal counts or an empty batch,
/// then any embedding of another dimensionality, then any degenerate one.
pub open spec fn batch_error(dimensions: nat, chunk_count: nat, es: Seq<Seq<u32>>) -> Option<RagError> {
    if chunk_count != es.len() || es.len() == 0 {
        Some(RagError::InvalidInput)
    } else if exists|i: int| 0 <= i < es.len() && (#[trigger] es[i]).len() != dimensions {
        Some(RagError::DimensionMismatch)
    } else if exists|i: int| 0 <= i < es.len() && !all_finite(#[trigger] es[i]) {
        Some(RagError::DegenerateVector)
    } else {
        None
    }
}

/// A batch of chunks and embeddings that passed a store's checks and waits
/// for the cache to persist it. It is made only by `RagStore::begin_batch`
/// and consumed only by `RagStore::finish_batch`, so a batch reaches the
/// store after it was checked and after the cache answered, never before.
pub struct PendingBatch {
    chunks: Vec<String>,
    embeddings: Vec<Vec<u32>>,
    dimensions: usize,
}

impl PendingBatch {
    #[verifier::type_invariant]
    spec fn valid(&self) -> bool {
        batch_error(self.dimensions as nat, self.chunks@.len(), vectors(self.embeddings@)) is None
    }

    /// The chunk texts of the batch.
    pub closed spec fn spec_chunks(&self) -> Seq<Seq<char>> {
        string_texts(self.chunks@)
    }

    /// The embeddings of the batch.
    pub closed spec fn spec_embeddings(&self) -> Seq<Seq<u32>> {
        vectors(self.embeddings@)
    }

    /// The dimensionality the batch was checked against.
    pub closed spec fn spec_dimensions(&self) -> nat {
        self.dimensions as nat
    }

    /// The chunk texts, for the cache to persist.
    pub fn chunks(&self) -> (r: &Vec<String>)
        ensures
            string_texts(r@) == self.spec_chunks(),
    {
        &self.chunks
    }

    /// The embeddings, for the cache to persist.
    pub fn embeddings(&self) -> (r: &Vec<Vec<u32>>)
        ensures
            vectors(r@) == self.spec_embeddings(),
    {
        &self.embeddings
    }
}

impl RagStore {
    /// The chunk texts, by key.
    pub closed spec fn spec_chunks(&self) -> Seq<Seq<char>> {
        string_texts(self.chunks@)
    }

    /// The embeddings, by key.
    pub closed spec fn spec_embeddings(&self) -> Seq<Seq<u32>> {
        vectors(self.embeddings@)
    }

    /// The vectors of the similarity index, by key.
    pub closed spec fn spec_index(&self) -> Seq<Seq<i64>> {
        self.index.spec_vectors()
    }

    /// The dimensionality of every embedding in the store.
    pub closed spec fn spec_dimensions(&self) -> nat {
        self.index.spec_dimensions()
    }

    /// The lockstep invariant: as many chunks as embeddings as index entries,
    /// every embedding acceptable, and the index entry under key `k` the
    /// fixed-point form of embedding `k`.
    pub open spec fn wf(&self) -> bool {
        &&& self.spec_chunks().len() == self.spec_embeddings().len()
        &&& self.spec_embeddings().len() == self.spec_index().len()
        &&& forall|k: int| 0 <= k < self.spec_embeddings().len()
            ==> acceptable(self.spec_dimensions(), #[trigger] self.spec_embeddings()[k])
        &&& forall|k: int| 0 <= k < self.spec_index().len()
            ==> #[trigger] self.spec_index()[k] == fixed_vec(self.spec_embeddings()[k])
        &&& self.inner_wf()
    }

    /// The index holds vectors of the store's dimensionality within the fixed-point bound.
    pub closed spec fn inner_wf(&self) -> bool {
        self.index.wf()
    }

    /// The score of every stored embedding against a query embedding, by key.
    pub open spec fn spec_scores(&self, query: Seq<u32>) -> Seq<int> {
        scores_of(self.spec_index(), fixed_vec(query))
    }

    /// An empty store for embeddings of the given dimensionality.
    pub fn new(dimensions: usize) -> (r: RagStore)
        ensures
            r.wf(),
            r.spec_dimensions() == dimensions,
            r.spec_chunks() == Seq::<Seq<char>>::empty(),
            r.spec_embeddings() == Seq::<Seq<u32>>::empty(),
            r.spec_index() == Seq::<Seq<i64>>::empty(),
    {
        let r = RagStore { chunks: Vec::new(), embeddings: Vec::new(), index: SimilarityIndex::new(dimensions) };
        assert(r.spec_chunks() =~= Seq::<Seq<char>>::empty());
        assert(r.spec_embeddings() =~= Seq::<Seq<u32>>::empty());
        r
    }

    /// The dimensionality of every embedding in the store.
    pub fn dimensions(&self) -> (r: usize)
        ensures
            r == self.spec_dimensions(),
    {
        self.index.dimensions()
    }

    /// The number of chunks.
    pub fn len(&self) -> (r: usize)
        ensures
            r == self.spec_chunks().len(),
    {
        self.chunks.len()
    }

    /// The number of embeddings.
    pub fn embedding_count(&self) -> (r: usize)
        ensures
            r == self.spec_embeddings().len(),
    {
        self.embeddings.len()
    }

    /// The number of entries of the similarity index.
    pub fn index_count(&self) -> (r: usize)
        ensures
            r == self.spec_index().len(),
    {
        self.index.count()
    }

    /// The chunk text under a key, if any.
    pub fn chunk(&self, key: usize) -> (r: Option<&String>)
        ensures
            key < self.spec_chunks().len() ==> (r matches Some(c) && c@ == self.spec_chunks()[key as int]),
            key >= self.spec_chunks().len() ==> r is None,
    {
        if key < self.chunks.len() {
            Some(&self.chunks[key])
        } else {
            None
        }
    }

    /// The embedding under a key, if any.
    pub fn embedding(&self, key: usize) -> (r: Option<&Vec<u32>>)
        ensures
            key < self.spec_embeddings().len() ==> (r matches Some(e) && e@ == self.spec_embeddings()[key as int]),
            key >= self.spec_embeddings().len() ==> r is None,
    {
        if key < self.embeddings.len() {
            Some(&self.embeddings[key])
        } else {
            None
        }
    }

    /// The reason an embedding would be refused by `add`, if any.
    pub fn check_embedding(&self, embedding: &Vec<u32>) -> (r: Result<(), RagError>)
        ensures
            r == match embedding_error(self.spec_dimensions(), embedding@) {
                Some(e) => Err::<(), RagError>(e),
                None => Ok(()),
            },
    {
        if embedding.len() != self.index.dimensions() {
            return Err(RagError::DimensionMismatch);
        }
        if !check_finite(embedding) {
            return Err(RagError::DegenerateVector);
        }
        Ok(())
    }

    /// Appends a chunk and its embedding under the next key, and indexes the
    /// embedding under that key. An embedding of another dimensionality, or
    /// with a NaN or infinite component, is refused and the store is unchanged.
    pub fn add(&mut self, chunk: String, embedding: Vec<u32>) -> (r: Result<(), RagError>)
        requires
            old(self).wf(),
        ensures
            final(self).wf(),
            final(self).spec_dimensions() == old(self).spec_dimensions(),
            r == match embedding_error(old(self).spec_dimensions(), embedding@) {
                Some(e) => Err::<(), RagError>(e),
                None => Ok(()),
            },
            r is Ok ==> final(self).spec_chunks() == old(self).spec_chunks().push(chunk@),
            r is Ok ==> final(self).spec_embeddings() == old(self).spec_embeddings().push(embedding@),
            r is Err ==> *final(self) == *old(self),
    {
        match self.check_embedding(&embedding) {
            Err(e) => return Err(e),
            Ok(()) => {},
        }
        let q = quantize(&embedding);
        let key = self.chunks.len() as u64;
        let added = self.index.add(key, q);
        if added.is_err() {
            return Err(RagError::IndexFailure);
        }
        let ghost before = *self;
        self.chunks.push(chunk);
        self.embeddings.push(embedding);
        proof {
            assert(self.spec_chunks() =~= before.spec_chunks().push(chunk@));
            assert(self.spec_embeddings() =~= before.spec_embeddings().push(embedding@));
        }
        Ok(())
    }

    /// The reason a batch would be refused by `add_chunks_and_embeddings`, if any.
    pub fn check_batch(&self, chunks: &Vec<String>, embeddings: &Vec<Vec<u32>>) -> (r: Result<(), RagError>)
        ensures
            r == match batch_error(self.spec_dimensions(), chunks@.len(), vectors(embeddings@)) {
                Some(e) => Err::<(), RagError>(e),
                None => Ok(()),
            },
    {
        let ghost es = vectors(embeddings@);
        assert(es.len() == embeddings@.len());
        if chunks.len() != embeddings.len() || embeddings.len() == 0 {
            return Err(RagError::InvalidInput);
        }
        let dims = self.index.dimensions();
        let mut i: usize = 0;
        while i < embeddings.len()
            invariant
                es == vectors(embeddings@),
                es.len() == embeddings@.len(),
                chunks@.len() == embeddings@.len(),
                embeddings@.len() > 0,
                dims == self.spec_dimensions(),
                i <= embeddings@.len(),
                forall|j: int| 0 <= j < i ==> (#[trigger] es[j]).len() == dims,
            decreases embeddings@.len() - i,
        {
            assert(es[i as int] == embeddings@[i as int]@);
            if embeddings[i].len() != dims {
                return Err(RagError::DimensionMismatch);
            }
            i += 1;
        }
        let mut i: usize = 0;
        while i < embeddings.len()
            invariant
                es == vectors(embeddings@),
                es.len() == embeddings@.len(),
                chunks@.len() == embeddings@.len(),
                embeddings@.len() > 0,
                dims == self.spec_dimensions(),
                i <= embeddings@.len(),
                forall|j: int| 0 <= j < es.len() ==> (#[trigger] es[j]).len() == dims,
                forall|j: int| 0 <= j < i ==> all_finite(#[trigger] es[j]),
            decreases embeddings@.len() - i,
        {
            assert(es[i as int] == embeddings@[i as int]@);
            if !check_finite(&embeddings[i]) {
                return Err(RagError::DegenerateVector);
            }
            i += 1;
        }
        Ok(())
    }

    /// Adds a batch of chunks with their embeddings, all or nothing: the whole
    /// batch is checked before the store changes, and a refused batch leaves
    /// the store as it was.
    pub fn add_chunks_and_embeddings(&mut self, chunks: Vec<String>, embeddings: Vec<Vec<u32>>) -> (r: Result<(), RagError>)
        requires
            old(self).wf(),
        ensures
            final(self).wf(),
            final(self).spec_dimensions() == old(self).spec_dimensions(),
            r == match batch_error(old(self).spec_dimensions(), chunks@.len(), vectors(embeddings@)) {
                Some(e) => Err::<(), RagError>(e),
                None => Ok(()),
            },
            (exists|i: int| 0 <= i < embeddings@.len() && (#[trigger] embeddings@[i])@.len() != old(self).spec_dimensions())
                ==> r is Err,
            r is Ok ==> final(self).spec_chunks() == old(self).spec_chunks() + string_texts(chunks@),
            r is Ok ==> final(self).spec_embeddings() == old(self).spec_embeddings() + vectors(embeddings@),
            r is Err ==> *final(self) == *old(self),
    {
        let checked = self.check_batch(&chunks, &embeddings);
        if checked.is_err() {
            proof {
                let es = vectors(embeddings@);
                if exists|i: int| 0 <= i < embeddings@.len() && (#[trigger] embeddings@[i])@.len() != old(self).spec_dimensions() {
                    let i = choose|i: int| 0 <= i < embeddings@.len() && (#[trigger] embeddings@[i])@.len() != old(self).spec_dimensions();
                    assert(es[i].len() != old(self).spec_dimensions());
                }
            }
            return checked;
        }
        let ghost es = vectors(embeddings@);
        let ghost cs = string_texts(chunks@);
        let ghost start = *self;
        let mut i: usize = 0;
        while i < chunks.len()
            invariant
                self.wf(),
                start.wf(),
                self.spec_dimensions() == start.spec_dimensions(),
                start == *old(self),
                es == vectors(embeddings@),
                cs == string_texts(chunks@),
                chunks@.len() == embeddings@.len(),
                batch_error(start.spec_dimensions(), chunks@.len(), es) is None,
                i <= chunks@.len(),
                self.spec_chunks() == start.spec_chunks() + cs.take(i as int),
                self.spec_embeddings() == start.spec_embeddings() + es.take(i as int),
            decreases chunks@.len() - i,
        {
            let c = chunks[i].clone();
            let e = embeddings[i].clone();
            proof {
                assert(e@ =~= es[i as int]);
                assert(es[i as int].len() == start.spec_dimensions());
                if !all_finite(es[i as int]) {
                    assert(!all_finite(#[trigger] es[i as int]));
                }
            }
            let added = self.add(c, e);
            assert(added is Ok);
            proof {
                assert(cs.take(i + 1) =~= cs.take(i as int).push(cs[i as int]));
                assert(es.take(i + 1) =~= es.take(i as int).push(es[i as int]));
            }
            i += 1;
        }
        proof {
            assert(cs.take(i as int) =~= cs);
            assert(es.take(i as int) =~= es);
            assert forall|j: int| 0 <= j < embeddings@.len() implies (#[trigger] embeddings@[j])@.len() == start.spec_dimensions() by {
                assert(es[j] == embeddings@[j]@);
            }
        }
        Ok(())
    }

    /// Checks a batch before the cache persists it: the first step of adding a
    /// document's chunks. The store does not change.
    pub fn begin_batch(&self, chunks: Vec<String>, embeddings: Vec<Vec<u32>>) -> (r: Result<PendingBatch, RagError>)
        ensures
            match batch_error(self.spec_dimensions(), chunks@.len(), vectors(embeddings@)) {
                Some(e) => r == Err::<PendingBatch, RagError>(e),
                None => r matches Ok(p) && p.spec_chunks() == string_texts(chunks@)
                    && p.spec_embeddings() == vectors(embeddings@) && p.spec_dimensions() == self.spec_dimensions(),
            },
    {
        match self.check_batch(&chunks, &embeddings) {
            Err(e) => Err(e),
            Ok(()) => Ok(PendingBatch { chunks, embeddings, dimensions: self.index.dimensions() }),
        }
    }

    /// Finishes a checked batch once the cache has answered: a failed persist
    /// leaves the store as it was and is passed on; after a successful one the
    /// whole batch is added. A batch checked against another dimensionality
    /// is refused.
    pub fn finish_batch(&mut self, batch: PendingBatch, persisted: Result<(), RagError>) -> (r: Result<(), RagError>)
        requires
            old(self).wf(),
        ensures
            final(self).wf(),
            final(self).spec_dimensions() == old(self).spec_dimensions(),
            persisted is Err ==> r == persisted,
            persisted is Ok && batch.spec_dimensions() != old(self).spec_dimensions()
                ==> r == Err::<(), RagError>(RagError::DimensionMismatch),
            persisted is Ok && batch.spec_dimensions() == old(self).spec_dimensions() ==> r is Ok,
            r is Err ==> *final(self) == *old(self),
            r is Ok ==> final(self).spec_chunks() == old(self).spec_chunks() + batch.spec_chunks(),
            r is Ok ==> final(self).spec_embeddings() == old(self).spec_embeddings() + batch.spec_embeddings(),
    {
        proof {
            use_type_invariant(&batch);
        }
        if let Err(e) = persisted {
            return Err(e);
        }
        if batch.dimensions != self.index.dimensions() {
            return Err(RagError::DimensionMismatch);
        }
        let PendingBatch { chunks, embeddings, dimensions: _ } = batch;
        self.add_chunks_and_embeddings(chunks, embeddings)
    }

    /// The chunks whose embeddings score highest against a query embedding, at
    /// most `count` of them, best first, each with its score (the inner product
    /// of the fixed-point forms, scaled by `2^60`); equal scores go by lower
    /// key. A query of another dimensionality is refused.
    pub fn search(&self, query: &Vec<u32>, count: usize) -> (r: Result<Vec<(String, i128)>, RagError>)
        requires
            self.wf(),
        ensures
            r is Err <==> query@.len() != self.spec_dimensions(),
            r is Err ==> r == Err::<Vec<(String, i128)>, RagError>(RagError::DimensionMismatch),
            r matches Ok(v) ==> exists|keys: Seq<int>| #[trigger] is_top_k(self.spec_scores(query@), count as nat, keys)
                && v@.len() == keys.len()
                && forall|a: int| 0 <= a < keys.len() ==> (#[trigger] v@[a]).0@ == self.spec_chunks()[keys[a]]
                    && v@[a].1 as int == self.spec_scores(query@)[keys[a]],
    {
        if query.len() != self.index.dimensions() {
            return Err(RagError::DimensionMismatch);
        }
        let q = quantize(query);
        let scores = self.index.scores(&q);
        let ghost sc = self.spec_scores(query@);
        assert(int_scores(scores@) =~= sc);
        let keys = top_k(&scores, count);
        let ghost ks = int_keys(keys@);
        let mut out: Vec<(String, i128)> = Vec::with_capacity(keys.len());
        let mut a: usize = 0;
        while a < keys.len()
            invariant
                self.wf(),
                sc == self.spec_scores(query@),
                int_scores(scores@) == sc,
                ks == int_keys(keys@),
                is_top_k(sc, count as nat, ks),
                a <= keys@.len(),
                out@.len() == a,
                forall|b: int| 0 <= b < a ==> (#[trigger] out@[b]).0@ == self.spec_chunks()[ks[b]]
                    && out@[b].1 as int == sc[ks[b]],
            decreases keys@.len() - a,
        {
            let k = keys[a];
            assert(ks[a as int] == k as int);
            assert(self.spec_chunks()[k as int] == self.chunks@[k as int]@);
            let c = self.chunks[k].clone();
            out.push((c, scores[k]));
            a += 1;
        }
        Ok(out)
    }
}

/// A well-formed store has as many chunks as embeddings as index entries, and
/// the index entry under each key is the fixed-point form of that key's
/// embedding.
pub proof fn lemma_lockstep(store: &RagStore)
    requires
        store.wf(),
    ensures
        store.spec_chunks().len() == store.spec_embeddings().len(),
        store.spec_embeddings().len() == store.spec_index().len(),
        forall|k: int| 0 <= k < store.spec_index().len() ==> #[trigger] store.spec_index()[k] == fixed_vec(store.spec_embeddings()[k]),
{
}

/// Searching with the embedding stored under key `c` ranks `c` first, with its
/// squared fixed-point norm as score, when no stored vector has a larger
/// squared norm (as with normalized embeddings) and no earlier key holds the
/// same fixed-point vector.
pub proof fn lemma_self_retrieval(store: &RagStore, c: int)
    requires
        store.wf(),
        0 <= c < store.spec_embeddings().len(),
        forall|j: int| 0 <= j < store.spec_index().len()
            ==> dot(#[trigger] store.spec_index()[j], store.spec_index()[j]) <= dot(store.spec_index()[c], store.spec_index()[c]),
        forall|j: int| 0 <= j < c ==> #[trigger] store.spec_index()[j] != store.spec_index()[c],
    ensures
        ({
            let e = store.spec_embeddings()[c];
            &&& store.spec_scores(e)[c] == dot(fixed_vec(e), fixed_vec(e))
            &&& forall|keys: Seq<int>| #[trigger] is_top_k(store.spec_scores(e), 1, keys) ==> keys == seq![c]
        }),
{
    let e = store.spec_embeddings()[c];
    let x = fixed_vec(e);
    let sc = store.spec_scores(e);
    let vs = store.spec_index();
    assert(vs[c] == x);
    assert forall|j: int| 0 <= j < vs.len() && j != c implies ranks_before(sc, c, j) by {
        let y = vs[j];
        assert(y == fixed_vec(store.spec_embeddings()[j]));
        assert(acceptable(store.spec_dimensions(), store.spec_embeddings()[j]));
        assert(acceptable(store.spec_dimensions(), store.spec_embeddings()[c]));
        lemma_dot_bound(x, y, x.len());
        if sc[j] == sc[c] {
            assert forall|i: int| 0 <= i < x.len() implies #[trigger] x[i] == y[i] by {}
            assert(x =~= y);
            assert(j > c);
        }
    }
    assert forall|keys: Seq<int>| #[trigger] is_top_k(sc, 1, keys) implies keys == seq![c] by {
        assert(keys.len() == 1);
        let k0 = keys[0];
        if k0 != c {
            assert(!keys.contains(c)) by {
                if keys.contains(c) {
                    let a = choose|a: int| 0 <= a < keys.len() && keys[a] == c;
                    assert(a == 0);
                }
            }
            assert(ranks_before(sc, keys[0], c));
            assert(ranks_before(sc, c, k0));
        }
        assert(keys =~= seq![c]);
    }
}

} // verus!
