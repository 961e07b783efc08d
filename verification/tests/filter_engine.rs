use grape_vector_db::errors::VectorDbError;
use grape_vector_db::filter_documents::Document;
use grape_vector_db::filter_engine::{FilterEngine, FilterExpression, FilterValue};
use grape_vector_db::filter_index::FilterIndex;
use grape_vector_db::filtering::{
    ComparisonOperator, FilterConfig, LogicalOperator, NestedOperator, TextSearchOptions,
};

fn strings(v: &[&str]) -> Vec<String> {
    v.iter().map(|s| s.to_string()).collect()
}

fn text(s: &str) -> Document {
    Document::Text(s.to_string())
}

fn member(k: &str, d: Document) -> (String, Document) {
    (k.to_string(), d)
}

fn book(title: &str, category: &str, price: u64, active: bool) -> Document {
    Document::Object(vec![
        member("title", text(title)),
        member(
            "meta",
            Document::Object(vec![
                member("category", text(category)),
                member("tags", Document::Array(vec![text("a"), text("b")])),
            ]),
        ),
        member("price", Document::Number(price)),
        member("active", Document::Bool(active)),
        member("note", Document::Null),
    ])
}

fn engine() -> FilterEngine {
    let mut e = FilterEngine::new(FilterConfig::default());
    assert!(e.add_document("d1", &book("Rust Programming", "book", 7, true)).is_ok());
    assert!(e.add_document("d2", &book("rust cookbook", "e-book", 9, false)).is_ok());
    assert!(e.add_document("d3", &Document::Object(vec![member("other", text("x"))])).is_ok());
    e
}

fn cmp(field: &str, op: ComparisonOperator, v: FilterValue) -> FilterExpression {
    FilterExpression::Comparison { field: field.to_string(), operator: op, value: v }
}

fn s(v: &str) -> FilterValue {
    FilterValue::String(v.to_string())
}

fn nested(path: &str, op: NestedOperator, v: FilterValue) -> FilterExpression {
    FilterExpression::Nested { path: path.to_string(), operator: op, value: v }
}

fn logical(op: LogicalOperator, operands: Vec<FilterExpression>) -> FilterExpression {
    FilterExpression::Logical { operator: op, operands }
}

#[test]
fn test_filter_engine_creation() {
    let config = FilterConfig::default();
    let engine = FilterEngine::new(config);
    assert_eq!(engine.indexed_fields(), 0);
    assert_eq!(engine.total_documents(), 0);
    assert_eq!(engine.get_config().max_complexity, 100);
}

#[test]
fn documents_are_indexed_leaf_by_leaf_under_their_paths() {
    let mut x = FilterIndex::new();
    assert!(x.add_document("d1", &book("Rust Programming", "book", 7, true)).is_ok());
    assert_eq!(x.equal_ids("title", "Rust Programming"), strings(&["d1"]));
    assert_eq!(x.equal_ids("meta.category", "book"), strings(&["d1"]));
    assert_eq!(x.equal_ids("meta.tags[1]", "b"), strings(&["d1"]));
    assert_eq!(x.equal_ids("active", "true"), strings(&["d1"]));
    assert_eq!(x.numbers_at("price"), vec![(7u64, "d1".to_string())]);
    assert!(x.has_field("note"));
    assert!(!x.has_field("meta"));
    assert_eq!(x.indexed_fields(), 7);
    let mut y = FilterIndex::new();
    assert!(y.add_document("top", &text("Hello World")).is_ok());
    assert_eq!(y.equal_ids("", "Hello World"), strings(&["top"]));
    assert_eq!(y.text_search(&strings(&[""]), "world"), strings(&["top"]));
}

#[test]
fn comparisons_match_texts_exactly() {
    let e = engine();
    let r = e.execute_filter(&cmp("title", ComparisonOperator::Equal, s("rust cookbook"))).unwrap();
    assert_eq!(r, strings(&["d2"]));
    let none = e.execute_filter(&cmp("title", ComparisonOperator::NotEqual, s("rust cookbook"))).unwrap();
    assert!(none.is_empty());
    let bool_value = e.execute_filter(&cmp("active", ComparisonOperator::Equal, FilterValue::Boolean(true))).unwrap();
    assert!(bool_value.is_empty());
    let missing = e.execute_filter(&cmp("nope", ComparisonOperator::Equal, s("x"))).unwrap();
    assert!(missing.is_empty());
}

#[test]
fn nested_queries() {
    let e = engine();
    assert_eq!(e.execute_filter(&nested("meta.category", NestedOperator::Equal, s("book"))).unwrap(), strings(&["d1"]));
    assert_eq!(e.execute_filter(&nested("active", NestedOperator::Equal, FilterValue::Boolean(true))).unwrap(), Vec::<String>::new());
    assert_eq!(e.execute_filter(&nested("meta.category", NestedOperator::Contains, s("book"))).unwrap(), strings(&["d1", "d2"]));
    assert_eq!(e.execute_filter(&nested("meta.tags[0]", NestedOperator::Contains, s("a"))).unwrap(), strings(&["d1", "d2"]));
    assert!(e.execute_filter(&nested("meta.missing", NestedOperator::Contains, s("a"))).unwrap().is_empty());
    assert_eq!(e.execute_filter(&nested("x", NestedOperator::Exists, FilterValue::Null)).unwrap(), strings(&["d1", "d2", "d3"]));
    assert!(e.execute_filter(&nested("meta.category", NestedOperator::JsonPath, s("book"))).unwrap().is_empty());
}

#[test]
fn text_search_and_resolved_leaves() {
    let e = engine();
    let t = FilterExpression::TextSearch {
        fields: strings(&["title"]),
        query: "RUST programming".to_string(),
        options: TextSearchOptions::default(),
    };
    assert_eq!(e.execute_filter(&t).unwrap(), strings(&["d1", "d2"]));
    let r = FilterExpression::Resolved { ids: strings(&["z", "a", "z"]) };
    assert_eq!(e.execute_filter(&r).unwrap(), strings(&["z", "a", "z"]));
}

#[test]
fn and_or_not() {
    let e = engine();
    let rust = FilterExpression::TextSearch {
        fields: strings(&["title"]),
        query: "rust".to_string(),
        options: TextSearchOptions::default(),
    };
    let book = nested("meta.category", NestedOperator::Equal, s("book"));
    let and = logical(LogicalOperator::And, vec![rust, book]);
    assert_eq!(e.execute_filter(&and).unwrap(), strings(&["d1"]));
    let or = logical(
        LogicalOperator::Or,
        vec![
            FilterExpression::Resolved { ids: strings(&["d3", "d1"]) },
            FilterExpression::Resolved { ids: strings(&["d1"]) },
        ],
    );
    assert_eq!(e.execute_filter(&or).unwrap(), strings(&["d1", "d3"]));
    let not = logical(LogicalOperator::Not, vec![cmp("title", ComparisonOperator::Equal, s("rust cookbook"))]);
    assert_eq!(e.execute_filter(&not).unwrap(), strings(&["d1", "d3"]));
    let empty_and = logical(LogicalOperator::And, vec![]);
    assert!(e.execute_filter(&empty_and).unwrap().is_empty());
    assert_eq!(e.total_documents(), 3);
}

#[test]
fn not_needs_exactly_one_operand_wherever_it_stands() {
    let e = engine();
    let bad = logical(LogicalOperator::Not, vec![]);
    match e.execute_filter(&bad) {
        Err(VectorDbError::Other(m)) => assert_eq!(m, "NOT operator requires exactly one operand"),
        other => panic!("unexpected {:?}", other),
    }
    let inner = logical(
        LogicalOperator::Or,
        vec![FilterExpression::Resolved { ids: strings(&["d1"]) }, logical(LogicalOperator::Not, vec![])],
    );
    assert!(matches!(e.execute_filter(&inner), Err(VectorDbError::Other(_))));
}

#[test]
fn an_indexed_text_is_found_by_equality() {
    let mut e = FilterEngine::new(FilterConfig::default());
    assert!(e.add_document("new", &Document::Object(vec![member("k", text("v"))])).is_ok());
    let r = e.execute_filter(&cmp("k", ComparisonOperator::Equal, s("v"))).unwrap();
    assert!(r.contains(&"new".to_string()));
    assert_eq!(e.numbers_at("k"), Vec::new());
    assert!(e.has_field("k"));
}

#[test]
fn and_of_one_operand_and_or_in_either_order() {
    let e = engine();
    let rust = || FilterExpression::TextSearch {
        fields: strings(&["title"]),
        query: "rust".to_string(),
        options: TextSearchOptions::default(),
    };
    let alone = e.execute_filter(&rust()).unwrap();
    let and_one = e.execute_filter(&logical(LogicalOperator::And, vec![rust()])).unwrap();
    assert_eq!(alone, and_one);
    let a = || cmp("title", ComparisonOperator::Equal, s("rust cookbook"));
    let b = || FilterExpression::Resolved { ids: strings(&["d3", "d1", "d3"]) };
    let ab = e.execute_filter(&logical(LogicalOperator::Or, vec![a(), b()])).unwrap();
    let ba = e.execute_filter(&logical(LogicalOperator::Or, vec![b(), a()])).unwrap();
    assert_eq!(ab, ba);
    assert_eq!(ab, strings(&["d1", "d2", "d3"]));
    let not_a = e.execute_filter(&logical(LogicalOperator::Not, vec![a()])).unwrap();
    let a_ids = e.execute_filter(&a()).unwrap();
    for id in ["d1", "d2", "d3"] {
        let id = id.to_string();
        assert_eq!(not_a.contains(&id), !a_ids.contains(&id));
    }
}
