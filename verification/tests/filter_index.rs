use grape_vector_db::filter_index::{contains_text, split_words, FieldIndex, FilterIndex, IdLists};
use grape_vector_db::filtering::sorted_unique;

fn strings(v: &[&str]) -> Vec<String> {
    v.iter().map(|s| s.to_string()).collect()
}

#[test]
fn words_are_cut_as_split_whitespace_cuts_them() {
    let samples = ["  Hello\tWorld\n foo  ", "", "   ", "one", "a\u{3000}b\u{85}c", "x  y"];
    for s in samples.iter() {
        let expected: Vec<String> = s.split_whitespace().map(|w| w.to_string()).collect();
        assert_eq!(split_words(s), expected);
    }
    assert_eq!(split_words("  Hello\tWorld\n foo  "), strings(&["Hello", "World", "foo"]));
}

#[test]
fn substring_search_on_text() {
    assert!(contains_text("hello world", "lo w"));
    assert!(contains_text("abc", ""));
    assert!(contains_text("abc", "abc"));
    assert!(!contains_text("ab", "abc"));
    assert!(!contains_text("abc", "d"));
    assert!(contains_text("grüße", "üß"));
}

#[test]
fn id_lists_keep_documents_per_key_in_order() {
    let mut l = IdLists::new();
    l.push("a", "1");
    l.push("b", "2");
    l.push("a", "3");
    assert_eq!(l.get("a"), strings(&["1", "3"]));
    assert_eq!(l.get("b"), strings(&["2"]));
    assert!(l.get("c").is_empty());
    let mut acc = strings(&["0"]);
    l.append_all(&mut acc);
    assert_eq!(acc, strings(&["0", "1", "3", "2"]));
    let mut hits = Vec::new();
    l.append_with_substring("b", &mut hits);
    assert_eq!(hits, strings(&["2"]));
}

#[test]
fn a_text_is_indexed_by_value_and_by_lower_case_word() {
    let mut f = FieldIndex::new();
    f.index_text("d1", "Hello hello World");
    assert_eq!(f.values.get("Hello hello World"), strings(&["d1"]));
    assert_eq!(f.words.get("hello"), strings(&["d1", "d1"]));
    assert_eq!(f.words.get("world"), strings(&["d1"]));
    assert!(f.words.get("World").is_empty());
    f.index_bool("d2", true);
    assert_eq!(f.values.get("true"), strings(&["d2"]));
    assert!(f.values.get("false").is_empty());
}

fn sample_index() -> FilterIndex {
    let mut x = FilterIndex::new();
    x.index_text_leaf("d1", "title", "Rust Programming");
    x.index_text_leaf("d2", "title", "rust book");
    x.index_bool_leaf("d3", "active", true);
    x.touch_field("price");
    x
}

#[test]
fn filter_index_answers_equality_and_partial_matches() {
    let x = sample_index();
    assert_eq!(x.indexed_fields(), 3);
    assert_eq!(x.equal_ids("title", "rust book"), strings(&["d2"]));
    assert!(x.equal_ids("title", "Rust").is_empty());
    assert_eq!(x.equal_ids("active", "true"), strings(&["d3"]));
    assert_eq!(x.contains_ids("title", "o"), strings(&["d1", "d2"]));
    assert_eq!(x.contains_ids("title", "book"), strings(&["d2"]));
    assert!(x.contains_ids("missing", "x").is_empty());
}

#[test]
fn full_text_search_lowers_the_query_words() {
    let x = sample_index();
    assert_eq!(x.text_search(&strings(&["title"]), "RUST"), strings(&["d1", "d2"]));
    assert_eq!(x.text_search(&strings(&["title", "active"]), "book"), strings(&["d2"]));
    assert!(x.text_search(&strings(&["price"]), "rust").is_empty());
    assert!(x.text_search(&strings(&["title"]), "   ").is_empty());
}

#[test]
fn existence_and_all_documents() {
    let x = sample_index();
    assert_eq!(x.value_ids(), strings(&["d1", "d2", "d3"]));
    assert_eq!(x.all_ids(), strings(&["d1", "d2", "d3"]));
    let mut y = FilterIndex::new();
    y.touch_field("n");
    assert_eq!(y.indexed_fields(), 1);
    assert!(y.all_ids().is_empty());
    y.index_number_leaf("n9", "n", 4);
    assert_eq!(y.all_ids(), strings(&["n9"]));
    assert_eq!(y.numbers_at("n"), vec![(4u64, "n9".to_string())]);
    assert!(y.numbers_at("m").is_empty());
    assert!(y.has_field("n"));
    assert!(!y.has_field("m"));
}

#[test]
fn sorted_unique_depends_only_on_the_set_of_ids() {
    let a = sorted_unique(strings(&["b", "a", "c", "a"]));
    let b = sorted_unique(strings(&["c", "b", "a"]));
    assert_eq!(a, b);
    assert_eq!(a, strings(&["a", "b", "c"]));
}
