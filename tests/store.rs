use rag_core::errors::RagError;
use rag_core::store::RagStore;

fn bits(v: &[f32]) -> Vec<u32> {
    v.iter().map(|x| x.to_bits()).collect()
}

fn sizes(s: &RagStore) -> (usize, usize, usize) {
    (s.len(), s.embedding_count(), s.index_count())
}

#[test]
fn scenario_a_search_finds_intro() {
    let mut store = RagStore::new(3);
    store.add("Intro text".to_string(), bits(&[0.6, 0.8, 0.0])).unwrap();
    store.add("Body text".to_string(), bits(&[0.0, 0.6, 0.8])).unwrap();
    let found = store.search(&bits(&[0.6, 0.8, 0.0]), 1).unwrap();
    assert_eq!(found.len(), 1);
    assert_eq!(found[0].0, "Intro text");
}

#[test]
fn self_retrieval_scores_the_squared_norm() {
    let mut store = RagStore::new(2);
    store.add("a".to_string(), bits(&[1.0, 0.0])).unwrap();
    store.add("b".to_string(), bits(&[0.0, 1.0])).unwrap();
    store.add("c".to_string(), bits(&[0.6, 0.8])).unwrap();
    let found = store.search(&bits(&[0.0, 1.0]), 1).unwrap();
    assert_eq!(found, vec![("b".to_string(), 1i128 << 60)]);
}

#[test]
fn search_orders_by_score_then_key() {
    let mut store = RagStore::new(2);
    store.add("low".to_string(), bits(&[0.0, 1.0])).unwrap();
    store.add("high".to_string(), bits(&[1.0, 0.0])).unwrap();
    store.add("high again".to_string(), bits(&[1.0, 0.0])).unwrap();
    let found = store.search(&bits(&[1.0, 0.0]), 5).unwrap();
    let names: Vec<&str> = found.iter().map(|(c, _)| c.as_str()).collect();
    assert_eq!(names, vec!["high", "high again", "low"]);
    assert_eq!(found[2].1, 0);
}

#[test]
fn search_on_empty_store_is_empty() {
    let store = RagStore::new(2);
    assert_eq!(store.search(&bits(&[1.0, 0.0]), 5), Ok(vec![]));
}

#[test]
fn search_refuses_other_dimension() {
    let store = RagStore::new(2);
    assert_eq!(store.search(&bits(&[1.0]), 5), Err(RagError::DimensionMismatch));
}

#[test]
fn scenario_d_nan_is_degenerate() {
    let mut store = RagStore::new(3);
    store.add("ok".to_string(), bits(&[0.1, 0.2, 0.3])).unwrap();
    let before = sizes(&store);
    let r = store.add("bad".to_string(), bits(&[0.1, f32::NAN, 0.3]));
    assert_eq!(r, Err(RagError::DegenerateVector));
    assert_eq!(sizes(&store), before);
    assert_eq!(before, (1, 1, 1));
}

#[test]
fn infinity_is_degenerate() {
    let mut store = RagStore::new(2);
    assert_eq!(store.add("x".to_string(), bits(&[f32::INFINITY, 0.0])), Err(RagError::DegenerateVector));
    assert_eq!(sizes(&store), (0, 0, 0));
}

#[test]
fn add_refuses_other_dimension() {
    let mut store = RagStore::new(3);
    assert_eq!(store.add("x".to_string(), bits(&[0.1, 0.2])), Err(RagError::DimensionMismatch));
    assert_eq!(sizes(&store), (0, 0, 0));
}

#[test]
fn lockstep_after_adds() {
    let mut store = RagStore::new(2);
    store.add("a".to_string(), bits(&[1.0, 0.0])).unwrap();
    store
        .add_chunks_and_embeddings(
            vec!["b".to_string(), "c".to_string()],
            vec![bits(&[0.0, 1.0]), bits(&[0.6, 0.8])],
        )
        .unwrap();
    assert_eq!(sizes(&store), (3, 3, 3));
    assert_eq!(store.chunk(2), Some(&"c".to_string()));
    assert_eq!(store.embedding(1), Some(&bits(&[0.0, 1.0])));
    assert_eq!(store.chunk(3), None);
    assert_eq!(store.dimensions(), 2);
}

#[test]
fn batch_with_wrong_dimension_changes_nothing() {
    let mut store = RagStore::new(2);
    store.add("a".to_string(), bits(&[1.0, 0.0])).unwrap();
    let r = store.add_chunks_and_embeddings(
        vec!["b".to_string(), "c".to_string()],
        vec![bits(&[0.0, 1.0]), bits(&[0.6, 0.8, 0.0])],
    );
    assert_eq!(r, Err(RagError::DimensionMismatch));
    assert_eq!(sizes(&store), (1, 1, 1));
}

#[test]
fn batch_with_degenerate_vector_changes_nothing() {
    let mut store = RagStore::new(2);
    let r = store.add_chunks_and_embeddings(
        vec!["b".to_string(), "c".to_string()],
        vec![bits(&[0.0, 1.0]), bits(&[f32::NAN, 0.8])],
    );
    assert_eq!(r, Err(RagError::DegenerateVector));
    assert_eq!(sizes(&store), (0, 0, 0));
}

#[test]
fn batch_with_unequal_counts_is_invalid() {
    let mut store = RagStore::new(2);
    let r = store.add_chunks_and_embeddings(vec!["b".to_string()], vec![]);
    assert_eq!(r, Err(RagError::InvalidInput));
    let r = store.add_chunks_and_embeddings(vec![], vec![]);
    assert_eq!(r, Err(RagError::InvalidInput));
    assert_eq!(store.check_batch(&vec!["b".to_string()], &vec![bits(&[1.0, 0.0])]), Ok(()));
    assert_eq!(sizes(&store), (0, 0, 0));
}

#[test]
fn failed_persist_leaves_store_unchanged() {
    let mut store = RagStore::new(2);
    store.add("a".to_string(), bits(&[1.0, 0.0])).unwrap();
    let batch = store.begin_batch(vec!["b".to_string()], vec![bits(&[0.0, 1.0])]).unwrap();
    assert_eq!(batch.chunks(), &vec!["b".to_string()]);
    assert_eq!(batch.embeddings(), &vec![bits(&[0.0, 1.0])]);
    let r = store.finish_batch(batch, Err(RagError::PersistenceFailure));
    assert_eq!(r, Err(RagError::PersistenceFailure));
    assert_eq!(sizes(&store), (1, 1, 1));
}

#[test]
fn persisted_batch_is_added_whole() {
    let mut store = RagStore::new(2);
    let batch = store
        .begin_batch(vec!["b".to_string(), "c".to_string()], vec![bits(&[0.0, 1.0]), bits(&[1.0, 0.0])])
        .unwrap();
    assert_eq!(store.finish_batch(batch, Ok(())), Ok(()));
    assert_eq!(sizes(&store), (2, 2, 2));
    assert_eq!(store.chunk(1), Some(&"c".to_string()));
}

#[test]
fn batch_is_checked_before_persisting() {
    let store = RagStore::new(2);
    let r = store.begin_batch(vec!["b".to_string()], vec![bits(&[0.0, f32::NAN])]);
    assert!(matches!(r, Err(RagError::DegenerateVector)));
    let r = store.begin_batch(vec!["b".to_string()], vec![bits(&[0.0])]);
    assert!(matches!(r, Err(RagError::DimensionMismatch)));
}

#[test]
fn batch_checked_for_another_store_is_refused() {
    let other = RagStore::new(3);
    let batch = other.begin_batch(vec!["b".to_string()], vec![bits(&[0.0, 1.0, 0.0])]).unwrap();
    let mut store = RagStore::new(2);
    assert_eq!(store.finish_batch(batch, Ok(())), Err(RagError::DimensionMismatch));
    assert_eq!(sizes(&store), (0, 0, 0));
}
