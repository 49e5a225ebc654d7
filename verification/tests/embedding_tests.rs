use note_index::embedding::accept_embedding;
use note_index::embedding::EmbeddingVector;
use note_index::errors::IndexError;
use note_index::EMBEDDING_DIM;

fn vector_of_dim(dim: usize, seed: u32) -> EmbeddingVector {
    let mut bits = Vec::new();
    for i in 0..dim {
        bits.push(seed.wrapping_add(i as u32));
    }
    EmbeddingVector::new(bits)
}

#[test]
fn accepts_single_vector_of_configured_dimension() {
    let raw = vec![vector_of_dim(EMBEDDING_DIM, 7)];
    let accepted = accept_embedding(raw, EMBEDDING_DIM).expect("a well-formed response passes");
    assert_eq!(accepted.len(), 1);
    assert_eq!(accepted[0].dimension(), EMBEDDING_DIM);
    assert_eq!(accepted[0].bits[0], 7);
}

#[test]
fn accepts_several_vectors_all_of_configured_dimension() {
    let raw = vec![
        vector_of_dim(EMBEDDING_DIM, 1),
        vector_of_dim(EMBEDDING_DIM, 2),
        vector_of_dim(EMBEDDING_DIM, 3),
    ];
    let accepted = accept_embedding(raw, EMBEDDING_DIM).expect("a well-formed response passes");
    assert_eq!(accepted.len(), 3);
    for v in &accepted {
        assert_eq!(v.dimension(), EMBEDDING_DIM);
    }
}

#[test]
fn rejects_response_without_vectors() {
    let raw: Vec<EmbeddingVector> = Vec::new();
    let err = accept_embedding(raw, EMBEDDING_DIM).unwrap_err();
    assert_eq!(err, IndexError::EmbeddingMalformedResponse);
}

#[test]
fn rejects_vector_of_mismatched_dimension() {
    let raw = vec![vector_of_dim(EMBEDDING_DIM - 1, 5)];
    let err = accept_embedding(raw, EMBEDDING_DIM).unwrap_err();
    assert_eq!(err, IndexError::EmbeddingMalformedResponse);
}

#[test]
fn rejects_response_with_one_bad_vector_among_good_ones() {
    let raw = vec![
        vector_of_dim(EMBEDDING_DIM, 1),
        vector_of_dim(EMBEDDING_DIM + 1, 2),
        vector_of_dim(EMBEDDING_DIM, 3),
    ];
    let err = accept_embedding(raw, EMBEDDING_DIM).unwrap_err();
    assert_eq!(err, IndexError::EmbeddingMalformedResponse);
}
