//! The decisions of a retrieval: validating the request, choosing between the
//! cached embeddings and embedding the document, claiming a content hash so
//! that one request at a time embeds a given document, and ranking the chunks
//! for a query embedding. Embedding, persistence and waiting are done by the
//! caller between these steps.
use crate::chunker::{chunk_seq, chunk_text, is_blank, is_blank_text, lemma_no_chunks_iff_blank, string_texts};
use crate::errors::RagError;
use crate::hashing::{content_hash, content_hash_of};
use crate::ranking::is_top_k;
use crate::store::RagStore;
use vstd::prelude::*;
use vstd::string::StringSliceAdditionalSpecFns;

verus! {

/// Target chunk size, in characters, for documents that are not yet cached.
pub const CHUNK_SIZE: usize = 500;

/// Number of chunks a retrieval returns at most.
pub const TOP_K: usize = 5;

/// Checks a retrieval request and computes the document's content hash. An
/// empty or whitespace-only document or query is refused before any hashing.
pub fn begin_retrieval(document: &str, query: &str) -> (r: Result<String, RagError>)
    ensures
        r is Err <==> (is_blank(document@) || is_blank(query@)),
        r is Err ==> r == Err::<String, RagError>(RagError::InvalidInput),
        r matches Ok(h) ==> h@ == content_hash_of(document),
{
    if is_blank_text(document) || is_blank_text(query) {
        return Err(RagError::InvalidInput);
    }
    Ok(content_hash(document))
}

/// What a retrieval does once the cache has answered for its content hash.
pub enum CachePlan {
    /// The cache holds the document's chunks and embeddings: load them.
    Hit,
    /// The cache holds nothing for the document: embed these chunks.
    Miss(Vec<String>),
}

/// A retrieval embeds the document only when the cache holds no rows for it.
pub open spec fn must_embed(cached_rows: nat) -> bool {
    cached_rows == 0
}

/// Chooses between loading cached rows and embedding the document's chunks.
pub fn plan_after_lookup(document: &str, cached_rows: usize) -> (r: CachePlan)
    ensures
        must_embed(cached_rows as nat) <==> r is Miss,
        r matches CachePlan::Miss(cs) ==> string_texts(cs@) == chunk_seq(document@, CHUNK_SIZE as nat),
{
    if cached_rows > 0 {
        CachePlan::Hit
    } else {
        CachePlan::Miss(chunk_text(document, CHUNK_SIZE))
    }
}

/// A retrieval that embedded a document persisted one row per chunk, and a
/// document that passed `begin_retrieval` has at least one chunk; so a second
/// retrieval of the same text, whose content hash is the same, finds rows and
/// does not embed the document again.
pub proof fn lemma_cache_idempotence(d1: &str, d2: &str)
    requires
        !is_blank(d1@),
        d1.spec_bytes() == d2.spec_bytes(),
    ensures
        content_hash_of(d1) == content_hash_of(d2),
        chunk_seq(d1@, CHUNK_SIZE as nat).len() > 0,
        !must_embed(chunk_seq(d1@, CHUNK_SIZE as nat).len()),
{
    lemma_no_chunks_iff_blank(d1@, CHUNK_SIZE as nat);
}

/// The content hashes being embedded right now, one claim per hash.
pub struct HashClaims {
    in_flight: Vec<String>,
}

impl HashClaims {
    /// The claimed hashes.
    pub closed spec fn claimed(&self) -> Set<Seq<char>> {
        string_texts(self.in_flight@).to_set()
    }

    /// No claims.
    pub fn new() -> (r: HashClaims)
        ensures
            r.claimed() == Set::<Seq<char>>::empty(),
    {
        let r = HashClaims { in_flight: Vec::new() };
        assert(r.claimed() =~= Set::<Seq<char>>::empty());
        r
    }

    /// Whether a hash is claimed.
    pub fn is_claimed(&self, hash: &String) -> (r: bool)
        ensures
            r == self.claimed().contains(hash@),
    {
        let ghost views = string_texts(self.in_flight@);
        let mut i: usize = 0;
        while i < self.in_flight.len()
            invariant
                views == string_texts(self.in_flight@),
                i <= self.in_flight@.len(),
                forall|j: int| 0 <= j < i ==> (#[trigger] self.in_flight@[j])@ != hash@,
            decreases self.in_flight@.len() - i,
        {
            if self.in_flight[i].eq(hash) {
                assert(views[i as int] == hash@);
                return true;
            }
            i += 1;
        }
        proof {
            if views.contains(hash@) {
                let j = choose|j: int| 0 <= j < views.len() && views[j] == hash@;
                assert(self.in_flight@[j]@ == hash@);
            }
        }
        false
    }

    /// Claims a hash for the caller. Succeeds only when nobody holds it; the
    /// hash is claimed afterwards either way.
    pub fn try_claim(&mut self, hash: &String) -> (r: bool)
        ensures
            r == !old(self).claimed().contains(hash@),
            final(self).claimed() == old(self).claimed().insert(hash@),
    {
        if self.is_claimed(hash) {
            assert(self.claimed().insert(hash@) =~= self.claimed());
            return false;
        }
        let ghost before = string_texts(self.in_flight@);
        let h = hash.clone();
        self.in_flight.push(h);
        proof {
            let after = string_texts(self.in_flight@);
            assert(after =~= before.push(hash@));
            assert(after.to_set() =~= before.to_set().insert(hash@)) by {
                assert forall|x: Seq<char>| after.to_set().contains(x) <==> before.to_set().insert(hash@).contains(x) by {
                    if after.contains(x) {
                        let j = choose|j: int| 0 <= j < after.len() && after[j] == x;
                        if j < before.len() {
                            assert(before[j] == x);
                        }
                    }
                    if before.contains(x) {
                        let j = choose|j: int| 0 <= j < before.len() && before[j] == x;
                        assert(after[j] == x);
                    }
                    if x == hash@ {
                        assert(after[before.len() as int] == x);
                    }
                }
            }
        }
        true
    }

    /// Gives a hash up.
    pub fn release(&mut self, hash: &String)
        ensures
            final(self).claimed() == old(self).claimed().remove(hash@),
    {
        let ghost views = string_texts(self.in_flight@);
        let mut kept: Vec<String> = Vec::new();
        let mut i: usize = 0;
        while i < self.in_flight.len()
            invariant
                views == string_texts(self.in_flight@),
                i <= self.in_flight@.len(),
                forall|x: Seq<char>| #[trigger] string_texts(kept@).contains(x)
                    <==> (x != hash@ && views.take(i as int).contains(x)),
            decreases self.in_flight@.len() - i,
        {
            let ghost kv = string_texts(kept@);
            let ghost seen = views.take(i as int);
            let ghost seen2 = views.take(i + 1);
            assert(seen2 =~= seen.push(views[i as int]));
            if !self.in_flight[i].eq(hash) {
                let c = self.in_flight[i].clone();
                kept.push(c);
                proof {
                    let kv2 = string_texts(kept@);
                    assert(kv2 =~= kv.push(views[i as int]));
                    assert forall|x: Seq<char>| #[trigger] kv2.contains(x) <==> (x != hash@ && seen2.contains(x)) by {
                        if kv2.contains(x) {
                            let a = choose|a: int| 0 <= a < kv2.len() && kv2[a] == x;
                            if a < kv.len() {
                                assert(kv.contains(x));
                                let b = choose|b: int| 0 <= b < seen.len() && seen[b] == x;
                                assert(seen2[b] == x);
                            } else {
                                assert(seen2[i as int] == x);
                            }
                        }
                        if x != hash@ && seen2.contains(x) {
                            let b = choose|b: int| 0 <= b < seen2.len() && seen2[b] == x;
                            if b < i {
                                assert(seen[b] == x);
                                assert(kv.contains(x));
                                let a = choose|a: int| 0 <= a < kv.len() && kv[a] == x;
                                assert(kv2[a] == x);
                            } else {
                                assert(kv2[kv.len() as int] == x);
                            }
                        }
                    }
                }
            } else {
                proof {
                    assert(views[i as int] == hash@);
                    assert forall|x: Seq<char>| #[trigger] kv.contains(x) <==> (x != hash@ && seen2.contains(x)) by {
                        if x != hash@ && seen2.contains(x) {
                            let b = choose|b: int| 0 <= b < seen2.len() && seen2[b] == x;
                            assert(seen[b] == x);
                        }
                        if seen.contains(x) {
                            let b = choose|b: int| 0 <= b < seen.len() && seen[b] == x;
                            assert(seen2[b] == x);
                        }
                    }
                }
            }
            i += 1;
        }
        self.in_flight = kept;
        proof {
            let after = string_texts(self.in_flight@);
            assert(views.take(i as int) =~= views);
            assert(after.to_set() =~= views.to_set().remove(hash@));
        }
    }
}

/// The chunks that rank highest for a query embedding, at most `TOP_K`, best
/// first; the scores are dropped. A query of another dimensionality than the
/// store's is refused.
pub fn retrieve_relevant_chunks(query_embedding: &Vec<u32>, store: &RagStore) -> (r: Result<Vec<String>, RagError>)
    requires
        store.wf(),
    ensures
        r is Err <==> query_embedding@.len() != store.spec_dimensions(),
        r is Err ==> r == Err::<Vec<String>, RagError>(RagError::DimensionMismatch),
        r matches Ok(v) ==> exists|keys: Seq<int>| #[trigger] is_top_k(store.spec_scores(query_embedding@), TOP_K as nat, keys)
            && v@.len() == keys.len()
            && forall|a: int| 0 <= a < keys.len() ==> (#[trigger] v@[a])@ == store.spec_chunks()[keys[a]],
{
    let ranked = match store.search(query_embedding, TOP_K) {
        Ok(v) => v,
        Err(e) => return Err(e),
    };
    let ghost keys = choose|keys: Seq<int>| #[trigger] is_top_k(store.spec_scores(query_embedding@), TOP_K as nat, keys)
        && ranked@.len() == keys.len()
        && forall|a: int| 0 <= a < keys.len() ==> (#[trigger] ranked@[a]).0@ == store.spec_chunks()[keys[a]]
            && ranked@[a].1 as int == store.spec_scores(query_embedding@)[keys[a]];
    let mut out: Vec<String> = Vec::with_capacity(ranked.len());
    let mut i: usize = 0;
    while i < ranked.len()
        invariant
            i <= ranked@.len(),
            out@.len() == i,
            ranked@.len() == keys.len(),
            forall|a: int| 0 <= a < keys.len() ==> (#[trigger] ranked@[a]).0@ == store.spec_chunks()[keys[a]],
            forall|a: int| 0 <= a < i ==> (#[trigger] out@[a])@ == store.spec_chunks()[keys[a]],
        decreases ranked@.len() - i,
    {
        let c = ranked[i].0.clone();
        out.push(c);
        i += 1;
    }
    Ok(out)
}

} // verus!
