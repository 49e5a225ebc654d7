use note_index::embedding::EmbeddingVector;
use note_index::point::build_points;
use note_index::point::ids_of_points;
use note_index::point::plan_upsert;
use note_index::point::point_id;
use note_index::point::to_decimal;
use note_index::EMBEDDING_DIM;

fn vector_from_f32(values: &[f32]) -> EmbeddingVector {
    EmbeddingVector::new(values.iter().map(|v| v.to_bits()).collect())
}

#[test]
fn decimal_notation_is_exact() {
    assert_eq!(to_decimal(0), "0");
    assert_eq!(to_decimal(7), "7");
    assert_eq!(to_decimal(10), "10");
    assert_eq!(to_decimal(409), "409");
    assert_eq!(to_decimal(12345), "12345");
}

#[test]
fn point_id_joins_path_dash_index() {
    assert_eq!(point_id("/notes/a.json", 0), "/notes/a.json-0");
    assert_eq!(point_id("/notes/a.json", 12), "/notes/a.json-12");
    // A dash inside the path stays part of the path.
    assert_eq!(point_id("/notes/a-1.json", 2), "/notes/a-1.json-2");
}

#[test]
fn build_points_indexes_chunks_from_zero_and_keeps_them_all() {
    let path = String::from("/notes/b.json");
    let vectors = vec![
        vector_from_f32(&[1.0; 384]),
        vector_from_f32(&[2.0; 384]),
        vector_from_f32(&[3.0; 384]),
    ];
    let pts = build_points(&path, &vectors);
    assert_eq!(pts.len(), 3);
    assert_eq!(pts[0].id, "/notes/b.json-0");
    assert_eq!(pts[1].id, "/notes/b.json-1");
    assert_eq!(pts[2].id, "/notes/b.json-2");
    for (i, p) in pts.iter().enumerate() {
        assert_eq!(p.payload.index, i as u64);
        assert_eq!(p.payload.path, path);
        assert_eq!(p.vector.bits, vectors[i].bits);
    }
}

#[test]
fn single_file_scenario_yields_one_point_with_derived_id() {
    // Creating /notes/a.json with content "hello": the embedding service
    // answers with one 384-dimensional vector, and exactly one point with
    // the identifier "/notes/a.json-0" and that vector is upserted.
    let path = "/notes/a.json";
    let mut values = Vec::new();
    for i in 0..EMBEDDING_DIM {
        values.push(0.1 + 0.1 * (i as f32));
    }
    let raw = vec![vector_from_f32(&values)];
    let expected_bits: Vec<u32> = values.iter().map(|v| v.to_bits()).collect();
    let pts = plan_upsert(path, raw, EMBEDDING_DIM).expect("the response is well-formed");
    assert_eq!(pts.len(), 1);
    assert_eq!(pts[0].id, "/notes/a.json-0");
    assert_eq!(pts[0].vector.bits, expected_bits);
    assert_eq!(pts[0].payload.index, 0);
    assert_eq!(pts[0].payload.path, path);
}

#[test]
fn planning_the_same_content_twice_gives_identical_points() {
    let path = "/notes/c.json";
    let values = [0.25_f32; 384];
    let first = plan_upsert(path, vec![vector_from_f32(&values)], EMBEDDING_DIM).unwrap();
    let second = plan_upsert(path, vec![vector_from_f32(&values)], EMBEDDING_DIM).unwrap();
    assert_eq!(first.len(), second.len());
    for (a, b) in first.iter().zip(second.iter()) {
        assert_eq!(a.id, b.id);
        assert_eq!(a.vector.bits, b.vector.bits);
        assert_eq!(a.payload.index, b.payload.index);
        assert_eq!(a.payload.path, b.payload.path);
    }
}

#[test]
fn ids_of_points_lists_ids_in_order() {
    let path = String::from("/notes/d.json");
    let vectors = vec![vector_from_f32(&[0.5; 384]), vector_from_f32(&[0.75; 384])];
    let pts = build_points(&path, &vectors);
    let ids = ids_of_points(&pts);
    assert_eq!(ids, vec!["/notes/d.json-0", "/notes/d.json-1"]);
}
