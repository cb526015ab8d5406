use rag_engine::search::{ranked_or_candidates, result_content};
use rag_engine::api::{
    article_endpoint, articles_endpoint, bearer_header, collection_endpoint, collections_endpoint,
    page_query, request_url,
};
use rag_engine::search::{
    distinct_first_rows, group_rows_by_article, keyword_terms, like_pattern, positions_of_id,
    title_rank_sql,
};
use rag_engine::text::i32_text;

#[test]
fn terms_are_lowercase_words() {
    assert_eq!(keyword_terms("  Reset  PASSWORD\tNow "), vec!["reset", "password", "now"]);
    assert_eq!(keyword_terms("ÉCOLE Straße"), vec!["école", "straße"]);
    assert!(keyword_terms("   ").is_empty());
}

#[test]
fn like_pattern_wraps_term() {
    assert_eq!(like_pattern("reset"), "%reset%");
    assert_eq!(like_pattern(""), "%%");
}

#[test]
fn rank_sql_sums_title_matches() {
    let terms = vec!["a".to_string(), "b".to_string()];
    assert_eq!(
        title_rank_sql(&terms),
        "CASE WHEN LOWER(title) LIKE '%a%' THEN 1 ELSE 0 END + CASE WHEN LOWER(title) LIKE '%b%' THEN 1 ELSE 0 END"
    );
    assert_eq!(title_rank_sql(&Vec::new()), "");
}

#[test]
fn rows_grouped_by_first_appearance() {
    let ids = vec![5u128, 3, 5, 9, 3, 5];
    let groups = group_rows_by_article(&ids);
    let flat: Vec<(u128, Vec<usize>)> = groups.into_iter().map(|g| (g.article_id, g.rows)).collect();
    assert_eq!(flat, vec![(5, vec![0, 2, 5]), (3, vec![1, 4]), (9, vec![3])]);
    assert!(group_rows_by_article(&Vec::new()).is_empty());
}

#[test]
fn every_row_is_grouped_once() {
    let ids = vec![1u128, 2, 1, 1, 4, 2, 7];
    let groups = group_rows_by_article(&ids);
    let mut seen: Vec<usize> = groups.iter().flat_map(|g| g.rows.clone()).collect();
    seen.sort();
    assert_eq!(seen, (0..ids.len()).collect::<Vec<_>>());
    for g in &groups {
        assert!(g.rows.iter().all(|&r| ids[r] == g.article_id));
    }
}

#[test]
fn distinct_rows_stop_at_limit() {
    let ids = vec![4u128, 4, 8, 2, 8, 6];
    assert_eq!(distinct_first_rows(&ids, 3), vec![0, 2, 3]);
    assert_eq!(distinct_first_rows(&ids, 10), vec![0, 2, 3, 5]);
    assert_eq!(distinct_first_rows(&ids, 0), Vec::<usize>::new());
}

#[test]
fn positions_of_one_id() {
    assert_eq!(positions_of_id(&vec![1u128, 2, 1], 1), vec![0, 2]);
    assert!(positions_of_id(&vec![1u128, 2, 1], 3).is_empty());
}

#[test]
fn endpoints_and_pages() {
    assert_eq!(page_query(None), "");
    assert_eq!(page_query(Some(3)), "&page=3");
    assert_eq!(page_query(Some(-12)), "&page=-12");
    assert_eq!(collections_endpoint(None), "/v1/collections?");
    assert_eq!(collections_endpoint(Some(2)), "/v1/collections?&page=2");
    assert_eq!(collection_endpoint("abc"), "/v1/collections/abc");
    assert_eq!(articles_endpoint("c1", Some(10)), "/v1/collections/c1/articles?&page=10");
    assert_eq!(article_endpoint("a9"), "/v1/articles/a9");
    assert_eq!(request_url("https://api.x", "/v1/articles/a9"), "https://api.x/v1/articles/a9");
    assert_eq!(bearer_header("k"), "Bearer k");
}

#[test]
fn decimal_text_of_extremes() {
    assert_eq!(i32_text(0), "0");
    assert_eq!(i32_text(i32::MAX), "2147483647");
    assert_eq!(i32_text(i32::MIN), "-2147483648");
    assert_eq!(i32_text(-7), "-7");
}

#[test]
fn pages_follow_until_the_last() {
    assert_eq!(rag_engine::api::next_page(1, 3), Some(2));
    assert_eq!(rag_engine::api::next_page(3, 3), None);
    assert_eq!(rag_engine::api::next_page(4, 3), None);
    assert_eq!(rag_engine::api::next_page(1, 0), None);
}

#[test]
fn search_results_fall_back_and_fill_content() {
    assert_eq!(ranked_or_candidates(vec![1, 2], vec![3]), vec![1, 2]);
    assert_eq!(ranked_or_candidates(Vec::new(), vec![3]), vec![3]);
    assert_eq!(result_content(Some("md".to_string())), "md");
    assert_eq!(result_content(None), "No content found");
}
