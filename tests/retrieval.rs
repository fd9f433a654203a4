use std::collections::HashMap;

use rag_core::chunker::chunk_text;
use rag_core::config::JwtConfig;
use rag_core::errors::{AppError, RagError};
use rag_core::hashing::{content_hash, to_hex};
use rag_core::retrieval::{
    begin_retrieval, plan_after_lookup, retrieve_relevant_chunks, CachePlan, HashClaims, CHUNK_SIZE, TOP_K,
};
use rag_core::store::RagStore;

/// An embedding model stand-in that counts its batches: each text becomes a
/// unit vector along the axis of its length modulo the dimension.
struct CountingEmbedder {
    calls: usize,
}

impl CountingEmbedder {
    fn embed(&mut self, texts: &[String]) -> Vec<Vec<u32>> {
        self.calls += 1;
        texts
            .iter()
            .map(|t| {
                let mut v = vec![0.0f32; 4];
                v[t.chars().count() % 4] = 1.0;
                v.iter().map(|x| x.to_bits()).collect()
            })
            .collect()
    }
}

type Cache = HashMap<String, (Vec<String>, Vec<Vec<u32>>)>;

/// Runs one retrieval against a cache, a store and an embedder.
fn retrieve(doc: &str, query: &str, cache: &mut Cache, store: &mut RagStore, model: &mut CountingEmbedder) -> Result<Vec<String>, RagError> {
    let hash = begin_retrieval(doc, query)?;
    let rows = cache.get(&hash).cloned();
    let count = rows.as_ref().map(|r| r.0.len()).unwrap_or(0);
    match plan_after_lookup(doc, count) {
        CachePlan::Hit => {
            let (chunks, embeddings) = rows.unwrap();
            store.add_chunks_and_embeddings(chunks, embeddings)?;
        }
        CachePlan::Miss(chunks) => {
            let embeddings = model.embed(&chunks);
            let batch = store.begin_batch(chunks, embeddings)?;
            cache.insert(hash.clone(), (batch.chunks().clone(), batch.embeddings().clone()));
            store.finish_batch(batch, Ok(()))?;
        }
    }
    let q = model.embed(&[query.to_string()]).remove(0);
    retrieve_relevant_chunks(&q, store)
}

#[test]
fn scenario_b_empty_document_is_invalid() {
    assert_eq!(begin_retrieval("", "what?"), Err(RagError::InvalidInput));
    assert_eq!(begin_retrieval("  \n\n ", "what?"), Err(RagError::InvalidInput));
    assert_eq!(begin_retrieval("text", " "), Err(RagError::InvalidInput));
}

#[test]
fn scenario_b_retrieve_fails_before_embedding() {
    let mut cache = Cache::new();
    let mut store = RagStore::new(4);
    let mut model = CountingEmbedder { calls: 0 };
    assert_eq!(retrieve("", "q", &mut cache, &mut store, &mut model), Err(RagError::InvalidInput));
    assert_eq!(model.calls, 0);
    assert!(cache.is_empty());
    assert_eq!(store.len(), 0);
}

#[test]
fn cache_idempotence_second_call_is_a_hit() {
    let mut cache = Cache::new();
    let mut store = RagStore::new(4);
    let mut model = CountingEmbedder { calls: 0 };
    let doc = "Intro text\n\nBody text";
    retrieve(doc, "intro", &mut cache, &mut store, &mut model).unwrap();
    assert_eq!(model.calls, 2);
    retrieve(doc, "body", &mut cache, &mut store, &mut model).unwrap();
    // only the query was embedded the second time
    assert_eq!(model.calls, 3);
    assert_eq!(cache.len(), 1);
}

#[test]
fn plan_depends_on_cached_rows() {
    assert!(matches!(plan_after_lookup("a\n\nb", 2), CachePlan::Hit));
    match plan_after_lookup("a\n\nb", 0) {
        CachePlan::Miss(chunks) => assert_eq!(chunks, chunk_text("a\n\nb", CHUNK_SIZE)),
        CachePlan::Hit => panic!("expected a miss"),
    }
}

#[test]
fn scenario_c_one_embedding_for_two_concurrent_requests() {
    let doc = "Intro text\n\nBody text";
    let mut cache = Cache::new();
    let mut store = RagStore::new(4);
    let mut model = CountingEmbedder { calls: 0 };
    let mut claims = HashClaims::new();
    let mut doc_batches = 0;

    // both requests hash and look up before either has persisted
    let h1 = begin_retrieval(doc, "intro").unwrap();
    let h2 = begin_retrieval(doc, "body").unwrap();
    assert_eq!(h1, h2);
    assert!(!cache.contains_key(&h1));
    assert!(!cache.contains_key(&h2));

    // the first claims the hash, the second must wait
    assert!(claims.try_claim(&h1));
    assert!(!claims.try_claim(&h2));

    // the winner embeds, persists, indexes and releases
    if let CachePlan::Miss(chunks) = plan_after_lookup(doc, 0) {
        let embeddings = model.embed(&chunks);
        doc_batches += 1;
        cache.insert(h1.clone(), (chunks.clone(), embeddings.clone()));
        store.add_chunks_and_embeddings(chunks, embeddings).unwrap();
    }
    claims.release(&h1);
    assert!(!claims.is_claimed(&h1));

    // the waiter looks up again and takes the hit path
    let rows = cache.get(&h2).cloned().unwrap();
    match plan_after_lookup(doc, rows.0.len()) {
        CachePlan::Hit => {}
        CachePlan::Miss(_) => panic!("expected a hit"),
    }

    let q1 = model.embed(&["intro".to_string()]).remove(0);
    let q2 = model.embed(&["body".to_string()]).remove(0);
    assert!(retrieve_relevant_chunks(&q1, &store).is_ok());
    assert!(retrieve_relevant_chunks(&q2, &store).is_ok());
    assert_eq!(doc_batches, 1);
    assert_eq!(model.calls, 3);
}

#[test]
fn claims_are_per_hash() {
    let mut claims = HashClaims::new();
    let a = "aa".to_string();
    let b = "bb".to_string();
    assert!(claims.try_claim(&a));
    assert!(claims.try_claim(&b));
    assert!(!claims.try_claim(&a));
    claims.release(&a);
    assert!(!claims.is_claimed(&a));
    assert!(claims.is_claimed(&b));
    assert!(claims.try_claim(&a));
}

#[test]
fn retrieval_returns_at_most_top_k() {
    let mut store = RagStore::new(1);
    for i in 0..8 {
        store.add(format!("c{}", i), vec![(i as f32 / 10.0).to_bits()]).unwrap();
    }
    let found = retrieve_relevant_chunks(&vec![1.0f32.to_bits()], &store).unwrap();
    assert_eq!(found.len(), TOP_K);
    assert_eq!(found, vec!["c7", "c6", "c5", "c4", "c3"]);
    assert_eq!(retrieve_relevant_chunks(&vec![], &store), Err(RagError::DimensionMismatch));
}

#[test]
fn content_hash_is_sha256_hex() {
    assert_eq!(content_hash("abc"), "ba7816bf8f01cfea414140de5dae2223b00361a396177a9cb410ff61f20015ad");
    assert_eq!(content_hash(""), "e3b0c44298fc1c149afbf4c8996fb92427ae41e4649b934ca495991b7852b855");
    assert_eq!(content_hash("abc"), content_hash("abc"));
    assert_ne!(content_hash("abc"), content_hash("abd"));
}

#[test]
fn hex_has_two_lowercase_digits_per_byte() {
    assert_eq!(to_hex(&[0x00, 0x0f, 0xa0, 0xff]), "000fa0ff");
    assert_eq!(to_hex(&[]), "");
}

#[test]
fn unicode_blank_document_is_invalid() {
    assert_eq!(begin_retrieval("\x0b", "q"), Err(RagError::InvalidInput));
    assert_eq!(begin_retrieval("\u{3000}\u{a0}\u{2028}", "q"), Err(RagError::InvalidInput));
    assert_eq!(begin_retrieval("text", "\u{85}"), Err(RagError::InvalidInput));
}

#[test]
fn begin_retrieval_returns_the_content_hash() {
    assert_eq!(begin_retrieval("abc", "q"), Ok(content_hash("abc")));
}

#[test]
fn errors_map_to_request_errors() {
    match AppError::from_rag(RagError::InvalidInput) {
        AppError::BadRequest(m) => assert_eq!(m, "invalid input"),
        other => panic!("unexpected {:?}", other),
    }
    match AppError::from_rag(RagError::DegenerateVector) {
        AppError::InternalServerError(m) => assert_eq!(m, "embedding contains NaN or Inf values"),
        other => panic!("unexpected {:?}", other),
    }
    assert_eq!(RagError::DimensionMismatch.message(), "embedding dimensions mismatch");
    assert_eq!(AppError::from_rag(RagError::AdapterFailure).message(), "failed to generate embeddings");
}

#[test]
fn jwt_config_keeps_its_values() {
    let c = JwtConfig::new("signing-key".to_string(), 86400);
    assert_eq!(c.secret, "signing-key");
    assert_eq!(c.expiration, 86400);
}
