use rag_core::index::SimilarityIndex;
use rag_core::errors::RagError;
use rag_core::ranking::top_k;
use rag_core::vector::{check_finite, fixed_component, inner_product, is_finite, quantize};

const ONE: i64 = 1 << 30;

#[test]
fn one_is_two_to_the_thirty() {
    assert_eq!(fixed_component(1.0f32.to_bits()), ONE);
}

#[test]
fn negative_half() {
    assert_eq!(fixed_component((-0.5f32).to_bits()), -(ONE / 2));
}

#[test]
fn fraction_is_truncated() {
    // 0.1 is slightly above 0x0666_6666 / 2^30 as a binary32 value
    assert_eq!(fixed_component(0.1f32.to_bits()), 107374184);
    assert_eq!(fixed_component((-0.1f32).to_bits()), -107374184);
}

#[test]
fn large_values_saturate() {
    assert_eq!(fixed_component(2.0f32.to_bits()), 1 << 31);
    assert_eq!(fixed_component(1.0e30f32.to_bits()), 1 << 31);
    assert_eq!(fixed_component((-4.0f32).to_bits()), -(1 << 31));
}

#[test]
fn tiny_values_vanish() {
    assert_eq!(fixed_component(1.0e-20f32.to_bits()), 0);
    assert_eq!(fixed_component(f32::from_bits(1).to_bits()), 0);
    assert_eq!(fixed_component(0.0f32.to_bits()), 0);
    assert_eq!(fixed_component((-0.0f32).to_bits()), 0);
}

#[test]
fn nan_and_infinity_are_not_finite() {
    assert!(!is_finite(f32::NAN.to_bits()));
    assert!(!is_finite(f32::INFINITY.to_bits()));
    assert!(!is_finite(f32::NEG_INFINITY.to_bits()));
    assert!(is_finite(f32::MAX.to_bits()));
    assert!(is_finite(0.0f32.to_bits()));
    let v: Vec<u32> = [0.1f32, f32::NAN, 0.3].iter().map(|x| x.to_bits()).collect();
    assert!(!check_finite(&v));
    let w: Vec<u32> = [0.1f32, 0.2, 0.3].iter().map(|x| x.to_bits()).collect();
    assert!(check_finite(&w));
}

#[test]
fn quantize_maps_each_component() {
    let v: Vec<u32> = [1.0f32, -0.25, 0.0].iter().map(|x| x.to_bits()).collect();
    assert_eq!(quantize(&v), vec![ONE, -(ONE / 4), 0]);
}

#[test]
fn inner_product_is_exact() {
    let a = vec![ONE, -(ONE / 2), 3];
    let b = vec![ONE, ONE, 5];
    let expected: i128 = (ONE as i128) * (ONE as i128) - (ONE as i128) * (ONE as i128) / 2 + 15;
    assert_eq!(inner_product(&a, &b), expected);
    assert_eq!(inner_product(&vec![], &vec![]), 0);
}

#[test]
fn top_k_breaks_ties_by_lower_key() {
    assert_eq!(top_k(&vec![5, 7, 7, 1], 3), vec![1, 2, 0]);
    assert_eq!(top_k(&vec![5, 7, 7, 1], 10), vec![1, 2, 0, 3]);
    assert_eq!(top_k(&vec![], 3), Vec::<usize>::new());
    assert_eq!(top_k(&vec![4, 4], 0), Vec::<usize>::new());
}

#[test]
fn index_assigns_keys_in_order() {
    let mut index = SimilarityIndex::new(2);
    assert_eq!(index.add(0, vec![1, 2]), Ok(()));
    assert_eq!(index.add(2, vec![3, 4]), Err(RagError::IndexFailure));
    assert_eq!(index.add(1, vec![3]), Err(RagError::DimensionMismatch));
    assert_eq!(index.add(1, vec![3, 4]), Ok(()));
    assert_eq!(index.count(), 2);
    assert_eq!(index.dimensions(), 2);
    assert_eq!(index.key_to_vector(1), Some(&vec![3, 4]));
    assert_eq!(index.key_to_vector(2), None);
    assert_eq!(index.scores(&vec![1, 1]), vec![3, 7]);
}
