//! An exact similarity index: fixed-point vectors under sequential integer keys,
//! scored against a query by inner product.
use crate::errors::RagError;
use crate::vector::{dot, inner_product, within_limit};
use vstd::prelude::*;

verus! {

/// Vectors of one fixed dimensionality, the vector under key `k` at position `k`.
pub struct SimilarityIndex {
    dimensions: usize,
    vectors: Vec<Vec<i64>>,
}

/// The score of every stored vector against a query, by key.
pub open spec fn scores_of(vectors: Seq<Seq<i64>>, query: Seq<i64>) -> Seq<int> {
    Seq::new(vectors.len(), |k: int| dot(query, vectors[k]))
}

impl SimilarityIndex {
    /// The stored vectors, by key.
    pub closed spec fn spec_vectors(&self) -> Seq<Seq<i64>> {
        self.vectors@.map_values(|v: Vec<i64>| v@)
    }

    /// The dimensionality every stored vector and every query must have.
    pub closed spec fn spec_dimensions(&self) -> nat {
        self.dimensions as nat
    }

    /// Every stored vector has the index's dimensionality and is within the
    /// fixed-point saturation bound.
    pub open spec fn wf(&self) -> bool {
        forall|k: int|
            0 <= k < self.spec_vectors().len() ==> (#[trigger] self.spec_vectors()[k]).len()
                == self.spec_dimensions() && within_limit(self.spec_vectors()[k])
    }

    /// An empty index of the given dimensionality.
    pub fn new(dimensions: usize) -> (r: SimilarityIndex)
        ensures
            r.wf(),
            r.spec_dimensions() == dimensions,
            r.spec_vectors() == Seq::<Seq<i64>>::empty(),
    {
        let r = SimilarityIndex { dimensions, vectors: Vec::new() };
        assert(r.spec_vectors() =~= Seq::<Seq<i64>>::empty());
        r
    }

    /// The dimensionality of the index.
    pub fn dimensions(&self) -> (r: usize)
        ensures
            r == self.spec_dimensions(),
    {
        self.dimensions
    }

    /// The number of stored vectors.
    pub fn count(&self) -> (r: usize)
        ensures
            r == self.spec_vectors().len(),
    {
        self.vectors.len()
    }

    /// The vector stored under a key, if any.
    pub fn key_to_vector(&self, key: usize) -> (r: Option<&Vec<i64>>)
        ensures
            key < self.spec_vectors().len() ==> (r matches Some(v) && v@ == self.spec_vectors()[key as int]),
            key >= self.spec_vectors().len() ==> r is None,
    {
        if key < self.vectors.len() {
            Some(&self.vectors[key])
        } else {
            None
        }
    }

    /// Stores a vector under the next key. Keys are assigned in order from 0 and
    /// never reused: a key other than the current count, or a vector of another
    /// dimensionality, is refused and the index is left as it was.
    pub fn add(&mut self, key: u64, vector: Vec<i64>) -> (r: Result<(), RagError>)
        requires
            old(self).wf(),
            within_limit(vector@),
        ensures
            final(self).wf(),
            final(self).spec_dimensions() == old(self).spec_dimensions(),
            vector@.len() != old(self).spec_dimensions() ==> r == Err::<(), RagError>(RagError::DimensionMismatch),
            vector@.len() == old(self).spec_dimensions() && key != old(self).spec_vectors().len()
                ==> r == Err::<(), RagError>(RagError::IndexFailure),
            r is Ok <==> (vector@.len() == old(self).spec_dimensions() && key == old(self).spec_vectors().len()),
            r is Ok ==> final(self).spec_vectors() == old(self).spec_vectors().push(vector@),
            r is Err ==> *final(self) == *old(self),
    {
        if vector.len() != self.dimensions {
            return Err(RagError::DimensionMismatch);
        }
        if key != self.vectors.len() as u64 {
            return Err(RagError::IndexFailure);
        }
        self.vectors.push(vector);
        assert(self.spec_vectors() =~= old(self).spec_vectors().push(vector@));
        Ok(())
    }

    /// The score of every stored vector against a query, by key.
    pub fn scores(&self, query: &Vec<i64>) -> (r: Vec<i128>)
        requires
            self.wf(),
            query@.len() == self.spec_dimensions(),
            within_limit(query@),
        ensures
            r@.len() == self.spec_vectors().len(),
            forall|k: int| 0 <= k < r@.len() ==> r@[k] as int == #[trigger] scores_of(self.spec_vectors(), query@)[k],
    {
        let mut r: Vec<i128> = Vec::with_capacity(self.vectors.len());
        let mut k: usize = 0;
        while k < self.vectors.len()
            invariant
                self.wf(),
                query@.len() == self.spec_dimensions(),
                within_limit(query@),
                k <= self.spec_vectors().len(),
                r@.len() == k,
                forall|j: int| 0 <= j < k ==> r@[j] as int == #[trigger] scores_of(self.spec_vectors(), query@)[j],
            decreases self.spec_vectors().len() - k,
        {
            assert(self.spec_vectors()[k as int] == self.vectors@[k as int]@);
            let s = inner_product(query, &self.vectors[k]);
            r.push(s);
            k += 1;
        }
        r
    }
}

} // verus!
