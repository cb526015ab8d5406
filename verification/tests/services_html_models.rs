use std::sync::Arc;

use rag_engine::article::Article;
use rag_engine::collection::{Collection, CollectionItem};
use rag_engine::errors::{MetaDataError, SyncError};
use rag_engine::html::{clean_html, cleaning_pass, html_to_markdown, rewrite_pass, ImageTag, TagText};
use rag_engine::services::{AIDataService, MetadataGenerator};

#[test]
fn chunk_size_rounds_up() {
    let g = MetadataGenerator { concurrency_limit: 4 };
    assert_eq!(g.calculate_chunk_size(10), 3);
    assert_eq!(g.calculate_chunk_size(8), 2);
    assert_eq!(g.calculate_chunk_size(0), 0);
    assert_eq!(g.calculate_chunk_size(1), 1);
}

#[test]
fn chunk_ranges_cover_articles() {
    let g = MetadataGenerator { concurrency_limit: 4 };
    assert_eq!(g.chunk_ranges(10), vec![(0, 3), (3, 6), (6, 9), (9, 10)]);
    assert_eq!(g.chunk_ranges(3), vec![(0, 1), (1, 2), (2, 3)]);
    let g1 = MetadataGenerator { concurrency_limit: 1 };
    assert_eq!(g1.chunk_ranges(5), vec![(0, 5)]);
    let many = MetadataGenerator { concurrency_limit: 7 };
    for total in 1..50usize {
        let r = many.chunk_ranges(total);
        assert!(r.len() <= 7);
        assert_eq!(r[0].0, 0);
        assert_eq!(r[r.len() - 1].1, total);
    }
}

#[test]
fn ai_service_keeps_balancer_and_builds_prompt() {
    let balancer = Arc::new(42u32);
    let s = AIDataService::new(balancer.clone());
    assert_eq!(*s.ollama_balancer, 42);
    let a = Article::new(1, "h".to_string(), None, "T".to_string(), "t".to_string(), None);
    assert!(s.article_metadata_prompt(&a).ends_with("Article content:\n        T"));
}

#[test]
fn rewrite_pass_applies_each_kind() {
    let html = "<script>x()</script><div><p>Hi</p></div><img src=\"a.png\" alt=\"pic\"><pre>a\nb</pre>";
    let out = rewrite_pass(
        html,
        &vec!["<script>x()</script>".to_string()],
        &vec![TagText { outer: "<div><p>Hi</p></div>".to_string(), inner: "<p>Hi</p>".to_string() }],
        &vec![ImageTag {
            outer: "<img src=\"a.png\" alt=\"pic\">".to_string(),
            alt: "pic".to_string(),
            src: "a.png".to_string(),
        }],
        &vec![TagText { outer: "<pre>a\nb</pre>".to_string(), inner: "a\nb".to_string() }],
    );
    assert_eq!(out, "<p>Hi</p>![pic](a.png)<pre>a&#10;b</pre>");
}

#[test]
fn rewrite_pass_with_nothing_found_is_identity() {
    let out = rewrite_pass("<p>same</p>", &Vec::new(), &Vec::new(), &Vec::new(), &Vec::new());
    assert_eq!(out, "<p>same</p>");
}

#[test]
fn rewrite_replaces_every_occurrence() {
    let out = rewrite_pass("aXbXc", &vec!["X".to_string()], &Vec::new(), &Vec::new(), &Vec::new());
    assert_eq!(out, "abc");
    let empty = rewrite_pass("ab", &Vec::new(), &vec![TagText { outer: String::new(), inner: "-".to_string() }], &Vec::new(), &Vec::new());
    assert_eq!(empty, "ab".replace("", "-"));
}

#[test]
fn cleaning_unwraps_divs_and_drops_scripts() {
    assert_eq!(clean_html("  <div><p>Hi</p></div>  "), "<p>Hi</p>");
    assert_eq!(clean_html("<p>a</p><script>x</script>"), "<p>a</p>");
    assert_eq!(cleaning_pass("<p>plain</p>"), "<p>plain</p>");
}

#[test]
fn cleaning_turns_images_into_markdown() {
    assert_eq!(clean_html("<img alt=\"pic\" src=\"a.png\">"), "![pic](a.png)");
    // The parser writes attributes back in its own order, so an element whose
    // source text differs from that form is not found in the text.
    assert_eq!(clean_html("<img src=\"a.png\" alt=\"pic\">"), "<img src=\"a.png\" alt=\"pic\">");
}

#[test]
fn markdown_of_simple_html() {
    assert_eq!(html_to_markdown("<div><p>Hello</p></div>"), "Hello");
}

#[test]
fn fill_markdown_from_html() {
    let mut a = Article::new(1, "h".to_string(), None, "T".to_string(), "t".to_string(), Some("<p>Hello</p>".to_string()));
    a.fill_markdown();
    assert_eq!(a.markdown_content.as_deref(), Some("Hello"));
    let mut b = Article::new(1, "h".to_string(), None, "T".to_string(), "t".to_string(), None);
    b.fill_markdown();
    assert!(b.markdown_content.is_none());
    assert!(b.markdown_from_html().is_none());
}

#[test]
fn collection_from_item() {
    let item = CollectionItem {
        id: "hc-1".to_string(),
        site_id: "s".to_string(),
        number: 1,
        slug: "getting-started".to_string(),
        visibility: "public".to_string(),
        order: 1,
        name: "Getting started".to_string(),
        description: Some("Basics".to_string()),
        public_url: "u".to_string(),
        article_count: 3,
        published_article_count: 3,
        created_by: 1,
        updated_by: 1,
        created_at: "c".to_string(),
        updated_at: "u".to_string(),
    };
    let c = Collection::from(item);
    assert_eq!(c.name, "Getting started");
    assert_eq!(c.description.as_deref(), Some("Basics"));
    assert_eq!(c.slug, "getting-started");
    assert_eq!(c.helpscout_collection_id, "hc-1");
    assert!(c.keywords.is_none());
    assert_eq!(uuid::Uuid::from_u128(c.id).get_version_num(), 4);
}

#[test]
fn errors_from_anyhow() {
    let e: SyncError = anyhow::Error::msg("boom").into();
    assert!(matches!(e, SyncError::Other(_)));
    let m: MetaDataError = anyhow::Error::msg("bad").into();
    assert_eq!(m.0.to_string(), "bad");
}

#[test]
fn cleaning_removes_scripts_and_styles() {
    assert_eq!(clean_html("<p>a</p><script>x()</script><style>p{}</style>"), "<p>a</p>");
}

#[test]
fn cleaning_unwraps_divs_and_rewrites_images() {
    let r = clean_html("<div><p>x</p><img alt=\"cat\" src=\"a.png\"></div>");
    assert_eq!(r, "<p>x</p>![cat](a.png)");
    assert_eq!(clean_html(&r), r);
    assert_eq!(r, r.trim());
}

#[test]
fn markdown_renders_the_cleaned_html() {
    let html = "  <div><p>Hello</p></div><script>x</script>";
    assert_eq!(html_to_markdown(html), html2md::parse_html(&clean_html(html)));
}
