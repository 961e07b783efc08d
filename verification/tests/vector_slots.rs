use grape_vector_db::vector_slots::{
    initial_centers, kmeans_check, point_name, pq_split, VectorIndexError, VectorSlots,
};

#[test]
fn the_first_vector_sets_the_dimension() {
    let mut v = VectorSlots::new();
    assert_eq!(v.get_dimension(), None);
    assert!(matches!(v.add_vector("a".to_string(), 3), Ok(0)));
    assert_eq!(v.get_dimension(), Some(3));
    match v.add_vector("b".to_string(), 4) {
        Err(VectorIndexError::DimensionMismatch { expected, actual }) => assert_eq!((expected, actual), (3, 4)),
        other => panic!("unexpected {:?}", other),
    }
    assert_eq!(v.len(), 1);
    assert_eq!(v.slot_count(), 1);
    let mut w = VectorSlots::with_dimension(2);
    assert!(w.add_vector("x".to_string(), 3).is_err());
    assert!(w.is_empty());
}

#[test]
fn an_id_added_again_moves_to_the_new_slot() {
    let mut v = VectorSlots::new();
    assert!(matches!(v.add_vector("a".to_string(), 2), Ok(0)));
    assert!(matches!(v.add_vector("b".to_string(), 2), Ok(1)));
    assert!(matches!(v.add_vector("a".to_string(), 2), Ok(2)));
    assert_eq!(v.len(), 2);
    assert_eq!(v.slot_count(), 3);
    assert_eq!(v.id_at(0), None);
    assert_eq!(v.id_at(2), Some("a".to_string()));
    assert_eq!(v.entries_by_id(), vec![("a".to_string(), 2), ("b".to_string(), 1)]);
}

#[test]
fn removal_packs_the_vectors_that_keep_an_id() {
    let mut v = VectorSlots::new();
    for id in ["c", "a", "b", "a", "d"] {
        assert!(v.add_vector(id.to_string(), 1).is_ok());
    }
    // slots: 0 c, 1 (old a), 2 b, 3 a, 4 d
    assert_eq!(v.remove_compacting("b"), Some(vec![0, 3, 4]));
    assert_eq!(v.slot_count(), 3);
    assert_eq!(v.entries_by_id(), vec![("a".to_string(), 1), ("c".to_string(), 0), ("d".to_string(), 2)]);
    assert_eq!(v.remove_compacting("zz"), None);
    assert_eq!(v.slot_count(), 3);
    assert_eq!(v.remove_compacting("a"), Some(vec![0, 2]));
    assert_eq!(v.entries_by_id(), vec![("c".to_string(), 0), ("d".to_string(), 1)]);
}

#[test]
fn tombstone_removal_keeps_the_slots() {
    let mut v = VectorSlots::new();
    assert!(v.add_vector("a".to_string(), 1).is_ok());
    assert!(v.add_vector("b".to_string(), 1).is_ok());
    assert!(v.remove("a"));
    assert!(!v.remove("a"));
    assert_eq!(v.slot_count(), 2);
    assert_eq!(v.id_at(0), None);
    assert_eq!(v.id_at(1), Some("b".to_string()));
    assert_eq!(v.len(), 1);
}

#[test]
fn hnsw_point_names_lead_back_to_ids() {
    let mut v = VectorSlots::new();
    assert!(v.add_vector("a".to_string(), 1).is_ok());
    assert!(v.add_vector("b".to_string(), 1).is_ok());
    assert_eq!(point_name(12), "vec_12");
    assert_eq!(v.id_for_point_name("vec_1"), Some("b".to_string()));
    assert_eq!(v.id_for_point_name("vec_7"), None);
}

#[test]
fn stats_count_four_bytes_per_number() {
    let mut v = VectorSlots::new();
    assert_eq!(v.stats("HNSW".to_string()).memory_usage, 0);
    assert!(v.add_vector("a".to_string(), 8).is_ok());
    assert!(v.add_vector("b".to_string(), 8).is_ok());
    let s = v.stats("HNSW".to_string());
    assert_eq!((s.vector_count, s.dimension, s.memory_usage), (2, 8, 64));
    assert_eq!(s.index_type, "HNSW");
    v.clear();
    assert_eq!((v.len(), v.slot_count(), v.get_dimension()), (0, 0, None));
}

#[test]
fn kmeans_needs_more_vectors_than_clusters() {
    assert!(kmeans_check(2, 3).is_ok());
    match kmeans_check(3, 3) {
        Err(VectorIndexError::IndexError(m)) => assert_eq!(m, "聚类数(3)不能大于等于向量数(3)"),
        other => panic!("unexpected {:?}", other),
    }
    assert_eq!(initial_centers(10, 3), vec![0, 3, 6]);
    assert_eq!(initial_centers(5, 4), vec![0, 1, 2, 3]);
}

#[test]
fn product_quantisation_splits_evenly() {
    assert!(matches!(pq_split(128, 8, 8), Ok((16, 256))));
    match pq_split(10, 3, 4) {
        Err(VectorIndexError::IndexError(m)) => assert_eq!(m, "向量维度(10)必须被子向量数(3)整除"),
        other => panic!("unexpected {:?}", other),
    }
}

#[test]
fn a_dimension_check_alone_sets_the_dimension() {
    let mut v = VectorSlots::new();
    assert!(v.check_dimension(5).is_ok());
    assert_eq!(v.get_dimension(), Some(5));
    assert_eq!(v.slot_count(), 0);
    assert!(matches!(v.check_dimension(4), Err(VectorIndexError::DimensionMismatch { expected: 5, actual: 4 })));
    assert!(v.check_dimension(5).is_ok());
}
