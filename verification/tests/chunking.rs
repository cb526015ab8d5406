use rag_engine::ids::Timestamp;
use rag_engine::article::Article;

fn article(title: &str, markdown: Option<&str>) -> Article {
    Article {
        id: 7,
        collection_id: 9,
        title: title.to_string(),
        slug: "slug".to_string(),
        html_content: None,
        markdown_content: markdown.map(|m| m.to_string()),
        version: 0,
        last_edited_by: None,
        helpscout_collection_id: "hc".to_string(),
        created_at: Timestamp { secs: 0, nanos: 0 },
        updated_at: Timestamp { secs: 0, nanos: 0 },
        helpscout_article_id: None,
        paragraph_description: None,
        bullet_points: None,
        keywords: None,
    }
}

fn contents(a: &Article, n: usize) -> Vec<String> {
    a.create_chunks(n).into_iter().map(|c| c.content).collect()
}

#[test]
fn chunks_group_words_by_size() {
    let a = article("Title", Some("a b c d e"));
    assert_eq!(contents(&a, 3), vec!["Title", "a b", "c d", "e"]);
}

#[test]
fn chunks_mark_title_and_article() {
    let a = article("Title", Some("one two"));
    let chunks = a.create_chunks(5);
    assert_eq!(chunks.len(), 3);
    assert!(chunks[0].is_title);
    assert!(!chunks[1].is_title);
    assert!(chunks.iter().all(|c| c.article_id == 7 && c.embedding_id.is_none()));
    assert_ne!(chunks[0].id, chunks[1].id);
}

#[test]
fn chunks_collapse_white_space() {
    let a = article("T", Some("  alpha\t\tbeta\n\ngamma\u{3000}delta  "));
    assert_eq!(contents(&a, 16), vec!["T", "alpha beta gamma", "delta"]);
}

#[test]
fn chunks_without_markdown_hold_only_title() {
    let a = article("Only", None);
    assert_eq!(contents(&a, 3), vec!["Only"]);
}

#[test]
fn chunks_of_blank_markdown_hold_only_title() {
    let a = article("Only", Some(" \n\t "));
    assert_eq!(contents(&a, 3), vec!["Only"]);
}

#[test]
fn chunk_size_zero_gives_empty_chunk_then_single_words() {
    let a = article("T", Some("x yy z"));
    assert_eq!(contents(&a, 0), vec!["T", "", "x", "yy", "z"]);
}

#[test]
fn chunk_ids_are_version_4_uuids() {
    let a = article("T", Some("one two three four"));
    for c in a.create_chunks(4) {
        let u = uuid::Uuid::from_u128(c.id);
        assert_eq!(u.get_version_num(), 4);
        assert_eq!(u.get_variant(), uuid::Variant::RFC4122);
    }
}

#[test]
fn chunk_size_one_gives_single_characters() {
    let a = article("T", Some("x yz"));
    assert_eq!(contents(&a, 1), vec!["T", "x", "y", "z"]);
}

#[test]
fn long_words_are_cut_to_the_chunk_size() {
    let word = "a".repeat(501);
    let a = article("T", Some(&word));
    let body: Vec<String> = contents(&a, 500).into_iter().skip(1).collect();
    assert_eq!(body, vec!["a".repeat(500), "a".to_string()]);
    let b = article("T", Some("abcdefg hi"));
    assert_eq!(contents(&b, 3), vec!["T", "abc", "def", "g", "hi"]);
}

#[test]
fn chunks_keep_every_character_in_order() {
    let text = "the quick brown fox jumps over the lazy dog again";
    let a = article("T", Some(text));
    for n in 1..30 {
        let body: Vec<String> = contents(&a, n).into_iter().skip(1).collect();
        let rejoined: String = body.iter().flat_map(|c| c.split_whitespace()).collect();
        let expected: String = text.split_whitespace().collect();
        assert_eq!(rejoined, expected);
        for c in body.iter() {
            let len = c.chars().count();
            assert!(len >= 1 && len <= n);
        }
    }
}

#[test]
fn chunks_of_500_characters_hold_at_most_500() {
    let text = "word ".repeat(400);
    let a = article("T", Some(&text));
    let body: Vec<String> = contents(&a, 500).into_iter().skip(1).collect();
    assert_eq!(body.len(), 4);
    assert_eq!(body[0].chars().count(), 499);
    assert!(body.iter().all(|c| c.chars().count() <= 500));
}

#[test]
fn new_article_starts_empty() {
    let a = Article::new(
        5,
        "hc".to_string(),
        Some("ha".to_string()),
        "Title".to_string(),
        "title".to_string(),
        Some("<p>x</p>".to_string()),
    );
    assert_eq!(a.collection_id, 5);
    assert_eq!(a.title, "Title");
    assert_eq!(a.version, 0);
    assert!(a.markdown_content.is_none());
    assert!(a.keywords.is_none());
    assert_eq!(uuid::Uuid::from_u128(a.id).get_version_num(), 4);
    let b = Article::new(5, "hc".to_string(), None, "T".to_string(), "t".to_string(), None);
    assert_ne!(a.id, b.id);
}

#[test]
fn ids_follow_articles() {
    let a = article("A", None);
    let mut b = article("B", None);
    b.id = 11;
    assert_eq!(Article::ids_from_articles(&[a, b]), vec![7, 11]);
}
