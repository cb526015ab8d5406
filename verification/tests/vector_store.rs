use rag_engine::html::{rewrite_pass, TagText};
use rag_engine::vector_store::{has_collection, ARTICLE_EMBEDDINGS, EMBEDDING_SIZE, TEST_COLLECTION};

#[test]
fn finds_existing_collection() {
    let existing = vec!["testing".to_string(), "article_embeddings".to_string()];
    assert!(has_collection(&existing, ARTICLE_EMBEDDINGS));
    assert!(has_collection(&existing, TEST_COLLECTION));
    assert!(!has_collection(&existing, "article"));
    assert!(!has_collection(&Vec::new(), ARTICLE_EMBEDDINGS));
    assert_eq!(EMBEDDING_SIZE, 384);
}

#[test]
fn absent_patterns_leave_text() {
    let out = rewrite_pass(
        "<p>kept</p>",
        &vec!["<script>gone</script>".to_string()],
        &vec![TagText { outer: "<div>x</div>".to_string(), inner: "x".to_string() }],
        &Vec::new(),
        &Vec::new(),
    );
    assert_eq!(out, "<p>kept</p>");
}

#[test]
fn replacements_apply_in_order() {
    let out = rewrite_pass(
        "ab",
        &vec!["a".to_string()],
        &vec![TagText { outer: "b".to_string(), inner: "a".to_string() }],
        &Vec::new(),
        &Vec::new(),
    );
    assert_eq!(out, "a");
}
