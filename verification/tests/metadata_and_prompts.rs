use rag_engine::ids::Timestamp;
use rag_engine::article::Article;
use rag_engine::metadata::parse_article_metadata;
use rag_engine::prompts::{
    article_metadata_block, article_metadata_prompt, collection_metadata_prompt,
    structured_metadata_prompt,
};

fn article(title: &str, markdown: Option<&str>) -> Article {
    Article {
        id: 1,
        collection_id: 2,
        title: title.to_string(),
        slug: "s".to_string(),
        html_content: None,
        markdown_content: markdown.map(|m| m.to_string()),
        version: 0,
        last_edited_by: None,
        helpscout_collection_id: "h".to_string(),
        created_at: Timestamp { secs: 0, nanos: 0 },
        updated_at: Timestamp { secs: 0, nanos: 0 },
        helpscout_article_id: None,
        paragraph_description: None,
        bullet_points: None,
        keywords: None,
    }
}

#[test]
fn metadata_sections_split_on_markers() {
    let reply = "intro\n1. Paragraph\n  A short text. \n2. Bullets\n- one\n- two\n3. Keywords\nreset, password\n";
    let (p, b, k) = parse_article_metadata(reply);
    assert_eq!(p, "A short text.");
    assert_eq!(b, "- one- two");
    assert_eq!(k, "reset, password");
}

#[test]
fn metadata_without_markers_is_empty() {
    let (p, b, k) = parse_article_metadata("no sections here\nat all");
    assert_eq!((p.as_str(), b.as_str(), k.as_str()), ("", "", ""));
}

#[test]
fn metadata_drops_carriage_returns_before_line_breaks() {
    let (p, b, k) = parse_article_metadata("1.\r\nfirst\r\nsecond\r\n3.\r\nkw");
    assert_eq!(p, "firstsecond");
    assert_eq!(b, "");
    assert_eq!(k, "kw");
}

#[test]
fn metadata_round_trip_of_expected_shape() {
    let reply = format!("1.\n{}\n2.\n{}\n3.\n{}", "  para  ", "bul", " key ");
    let (p, b, k) = parse_article_metadata(&reply);
    assert_eq!((p.as_str(), b.as_str(), k.as_str()), ("para", "bul", "key"));
}

#[test]
fn article_prompt_uses_markdown_or_title() {
    let with_md = article_metadata_prompt(&article("Title", Some("Body text")));
    assert!(with_md.starts_with("Read the following article and provide:\n\n            1. A paragraph description of the article\n"));
    assert!(with_md.ends_with("Article content:\nBody text"));
    let without = article_metadata_prompt(&article("Title", None));
    assert!(without.ends_with("Article content:\nTitle"));
}

#[test]
fn structured_prompt_ends_with_content() {
    let p = structured_metadata_prompt(&article("Title", Some("Body")));
    assert!(p.starts_with("Analyze the following article"));
    assert!(p.contains("[SUMMARY]") && p.contains("[FACTS]") && p.contains("[KEYWORDS]"));
    assert!(p.ends_with("Article content:\n        Body"));
}

#[test]
fn collection_prompt_joins_article_blocks() {
    let mut a = article("First", None);
    a.paragraph_description = Some("Desc".to_string());
    a.keywords = Some("k1".to_string());
    let b = article("Second", None);
    let block_a = article_metadata_block(&a);
    assert_eq!(
        block_a,
        "Article: First\n\n                    Description: Desc\n\n                    Bullet Points: \n\n                    Keywords: k1\n"
    );
    let prompt = collection_metadata_prompt(&vec![a, b]);
    let expected_tail = format!("Collection metadata:\n{}\n\n{}", block_a, "Article: Second\n\n                    Description: \n\n                    Bullet Points: \n\n                    Keywords: \n");
    assert!(prompt.starts_with("Based on the following metadata from articles in a collection"));
    assert!(prompt.ends_with(&expected_tail));
}

#[test]
fn collection_prompt_of_no_articles_is_head() {
    let prompt = collection_metadata_prompt(&Vec::new());
    assert!(prompt.ends_with("Collection metadata:\n"));
}
