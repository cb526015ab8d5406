use vstd::prelude::*;

use crate::text;

verus! {

/// The page parameter of a listing request: `&page=` and the page number, or
/// nothing when no page is asked for.
pub open spec fn page_query_spec(page: Option<i32>) -> Seq<char> {
    match page {
        Some(p) => "&page="@ + text::decimal_text(p as int),
        None => Seq::empty(),
    }
}

/// The page parameter of a listing request.
pub fn page_query(page: Option<i32>) -> (q: String)
    ensures
        q@ == page_query_spec(page),
{
    match page {
        Some(p) => {
            let mut q = String::from_str("&page=");
            let digits = text::i32_text(p);
            q.append(digits.as_str());
            q
        },
        None => String::new(),
    }
}

/// The endpoint that lists collections.
pub fn collections_endpoint(page: Option<i32>) -> (e: String)
    ensures
        e@ == "/v1/collections?"@ + page_query_spec(page),
{
    let mut e = String::from_str("/v1/collections?");
    let q = page_query(page);
    e.append(q.as_str());
    e
}

/// The endpoint of one collection.
pub fn collection_endpoint(id: &str) -> (e: String)
    ensures
        e@ == "/v1/collections/"@ + id@,
{
    let mut e = String::from_str("/v1/collections/");
    e.append(id);
    e
}

/// The endpoint that lists the articles of a collection.
pub fn articles_endpoint(collection_id: &str, page: Option<i32>) -> (e: String)
    ensures
        e@ == "/v1/collections/"@ + collection_id@ + "/articles?"@ + page_query_spec(page),
{
    let mut e = String::from_str("/v1/collections/");
    e.append(collection_id);
    e.append("/articles?");
    let q = page_query(page);
    e.append(q.as_str());
    e
}

/// The endpoint of one article.
pub fn article_endpoint(id: &str) -> (e: String)
    ensures
        e@ == "/v1/articles/"@ + id@,
{
    let mut e = String::from_str("/v1/articles/");
    e.append(id);
    e
}

/// The address of an endpoint of the API at `base_url`.
pub fn request_url(base_url: &str, endpoint: &str) -> (url: String)
    ensures
        url@ == base_url@ + endpoint@,
{
    let mut url = String::from_str(base_url);
    url.append(endpoint);
    url
}

/// The value of the `Authorization` header for the API key `api_key`.
pub fn bearer_header(api_key: &str) -> (h: String)
    ensures
        h@ == "Bearer "@ + api_key@,
{
    let mut h = String::from_str("Bearer ");
    h.append(api_key);
    h
}

/// The page to fetch after `page` of a listing of `pages` pages: none once
/// the last page has been fetched.
pub fn next_page(page: i32, pages: i32) -> (next: Option<i32>)
    ensures
        page >= pages ==> next is None,
        page < pages ==> next == Some((page + 1) as i32),
{
    if page >= pages {
        None
    } else {
        Some(page + 1)
    }
}

} // verus!
