use grape_vector_db::filtering::{
    and_combine, child_path, element_path, nested_index_key, not_combine, sorted_unique, FilterConfig,
    TextSearchOptions,
};
use grape_vector_db::errors::VectorDbError;
use grape_vector_db::hybrid::{classify_query, query_type_key, QueryType};

fn strings(v: &[&str]) -> Vec<String> {
    v.iter().map(|s| s.to_string()).collect()
}

#[test]
fn test_filter_config() {
    let config = FilterConfig::default();
    assert!(config.enable_sql_syntax);
    assert!(config.enable_geospatial);
    assert!(config.enable_nested_fields);
    assert_eq!(config.max_complexity, 100);
}

#[test]
fn text_search_options_default_to_exact_case_insensitive() {
    let o = TextSearchOptions::default();
    assert!(!o.case_sensitive);
    assert!(!o.fuzzy);
    assert_eq!(o.max_distance, None);
}

#[test]
fn or_results_are_sorted_and_deduplicated() {
    let r = sorted_unique(strings(&["doc3", "doc1", "doc3", "doc2", "doc1"]));
    assert_eq!(r, strings(&["doc1", "doc2", "doc3"]));
    assert!(sorted_unique(Vec::new()).is_empty());
    let r = sorted_unique(strings(&["b", "a", "ab", "B", "é"]));
    let mut expected = strings(&["b", "a", "ab", "B", "é"]);
    expected.sort();
    expected.dedup();
    assert_eq!(r, expected);
}

#[test]
fn and_keeps_the_first_operand_then_intersects_in_order() {
    let first = and_combine(None, strings(&["d3", "d1", "d2"])).unwrap();
    assert_eq!(first, strings(&["d3", "d1", "d2"]));
    let second = and_combine(Some(first), strings(&["d2", "d3", "d9"])).unwrap();
    assert_eq!(second, strings(&["d3", "d2"]));
    let empty = and_combine(Some(second), Vec::new()).unwrap();
    assert!(empty.is_empty());
}

#[test]
fn not_takes_exactly_one_operand() {
    let all = strings(&["a", "b", "c"]);
    let r = not_combine(1, &all, &strings(&["b"])).unwrap();
    assert_eq!(r, strings(&["a", "c"]));
    match not_combine(2, &all, &strings(&["b"])) {
        Err(e) => {
            assert_eq!(e.message(), "错误: NOT operator requires exactly one operand");
            assert!(matches!(e, VectorDbError::Other(_)));
        }
        Ok(_) => panic!("two operands accepted"),
    }
    assert!(not_combine(0, &all, &Vec::new()).is_err());
}

#[test]
fn nested_keys_need_a_dot_and_equal_the_path() {
    assert_eq!(nested_index_key("metadata.category"), Some("metadata.category".to_string()));
    assert_eq!(nested_index_key("a.b.c"), Some("a.b.c".to_string()));
    assert_eq!(nested_index_key("plain"), None);
    assert_eq!(nested_index_key(""), None);
}

#[test]
fn index_paths_of_fields_and_elements() {
    assert_eq!(child_path("", "title"), "title");
    assert_eq!(child_path("meta", "tags"), "meta.tags");
    assert_eq!(element_path("meta.tags", 12), "meta.tags[12]");
    assert_eq!(element_path("", 0), "[0]");
}

#[test]
fn queries_are_classified_by_length_and_spaces() {
    assert_eq!(classify_query("how do I build a vector index"), QueryType::Semantic);
    assert_eq!(classify_query("rust"), QueryType::Keyword);
    assert_eq!(classify_query("a b"), QueryType::Keyword);
    assert_eq!(classify_query("verylongwordwithoutanyspace"), QueryType::Keyword);
    assert_eq!(classify_query("vector index"), QueryType::Mixed);
    assert_eq!(classify_query(""), QueryType::Keyword);
    // 向量检索 is 12 bytes in UTF-8 and has no space
    assert_eq!(classify_query("向量 检索 系统 设计"), QueryType::Semantic);
}

#[test]
fn fusion_weight_keys() {
    assert_eq!(query_type_key(QueryType::Semantic), "semantic");
    assert_eq!(query_type_key(QueryType::Keyword), "keyword");
    assert_eq!(query_type_key(QueryType::Mixed), "mixed");
}
