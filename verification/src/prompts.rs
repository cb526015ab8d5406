use vstd::prelude::*;

use crate::article::Article;
use crate::text;

verus! {

/// What a metadata prompt reads of an article: its markdown content, or its
/// title when it has none.
pub open spec fn content_or_title(a: Article) -> Seq<char> {
    match a.markdown_content {
        Some(m) => m@,
        None => a.title@,
    }
}

/// The opening of the metadata prompt for one article.
pub open spec fn article_prompt_head() -> Seq<char> {
    "Read the following article and provide:\n\n            1. A paragraph description of the article\n\n            2. 5-10 bullet points of important facts\n\n            3. 5-20 keywords or phrases about the article\n\n\n            Article content:\n"@
}

/// The prompt that asks a model for an article's paragraph description,
/// bullet points and keywords.
pub fn article_metadata_prompt(article: &Article) -> (prompt: String)
    ensures
        prompt@ == article_prompt_head() + content_or_title(*article),
{
    let mut prompt = String::from_str("Read the following article and provide:\n\n            1. A paragraph description of the article\n\n            2. 5-10 bullet points of important facts\n\n            3. 5-20 keywords or phrases about the article\n\n\n            Article content:\n");
    match &article.markdown_content {
        Some(m) => prompt.append(m.as_str()),
        None => prompt.append(article.title.as_str()),
    }
    prompt
}

/// The opening of the prompt that asks for a structured metadata reply.
pub open spec fn structured_prompt_head() -> Seq<char> {
    "Analyze the following article and provide a structured response EXACTLY as specified below. Follow these instructions precisely:\n        \n        1. Your response MUST contain these three sections in this order: [SUMMARY], [FACTS], and [KEYWORDS].\n        2. Each section MUST be preceded by its header in square brackets.\n        3. Do not include any text before [SUMMARY] or after [KEYWORDS].\n        4. If you cannot provide content for a section, use \"N/A\" as the content.\n        \n        [SUMMARY]\n        Provide a concise one-paragraph summary of the article's main points. If unable to summarize, write \"N/A\".\n        \n        [FACTS]\n        List 5-10 important facts from the article, each on a new line starting with a dash (-). If unable to extract facts, write \"N/A\".\n        \n        [KEYWORDS]\n        List relevant keywords or phrases, separated by commas, to improve search results. Use 1-2 words per term. If unable to provide keywords, write \"N/A\".\n        \n        Article content:\n        "@
}

/// The prompt that asks a model for an article's summary, facts and keywords
/// under the headers `[SUMMARY]`, `[FACTS]` and `[KEYWORDS]`.
pub fn structured_metadata_prompt(article: &Article) -> (prompt: String)
    ensures
        prompt@ == structured_prompt_head() + content_or_title(*article),
{
    let mut prompt = String::from_str("Analyze the following article and provide a structured response EXACTLY as specified below. Follow these instructions precisely:\n        \n        1. Your response MUST contain these three sections in this order: [SUMMARY], [FACTS], and [KEYWORDS].\n        2. Each section MUST be preceded by its header in square brackets.\n        3. Do not include any text before [SUMMARY] or after [KEYWORDS].\n        4. If you cannot provide content for a section, use \"N/A\" as the content.\n        \n        [SUMMARY]\n        Provide a concise one-paragraph summary of the article's main points. If unable to summarize, write \"N/A\".\n        \n        [FACTS]\n        List 5-10 important facts from the article, each on a new line starting with a dash (-). If unable to extract facts, write \"N/A\".\n        \n        [KEYWORDS]\n        List relevant keywords or phrases, separated by commas, to improve search results. Use 1-2 words per term. If unable to provide keywords, write \"N/A\".\n        \n        Article content:\n        ");
    match &article.markdown_content {
        Some(m) => prompt.append(m.as_str()),
        None => prompt.append(article.title.as_str()),
    }
    prompt
}

/// The text of an optional field, empty when it is absent.
pub open spec fn text_or_empty(o: Option<String>) -> Seq<char> {
    match o {
        Some(s) => s@,
        None => Seq::empty(),
    }
}

/// The block of collection metadata that describes one article.
pub open spec fn article_block(a: Article) -> Seq<char> {
    "Article: "@ + a.title@ + "\n\n                    Description: "@ + text_or_empty(
        a.paragraph_description,
    ) + "\n\n                    Bullet Points: "@ + text_or_empty(a.bullet_points)
        + "\n\n                    Keywords: "@ + text_or_empty(a.keywords) + "\n"@
}

/// The opening of the metadata prompt for a collection.
pub open spec fn collection_prompt_head() -> Seq<char> {
    "Based on the following metadata from articles in a collection, provide:\n\n            1. A paragraph description of the collection\n\n            2. 5-10 bullet points summarizing the collection\n\n            3. 5-20 keywords or phrases about the collection\n\n\n            Collection metadata:\n"@
}

/// The prompt that asks a model for a collection's paragraph description,
/// bullet points and keywords from the metadata of its articles: one block
/// per article, blocks separated by a blank line.
pub open spec fn collection_prompt_spec(articles: Seq<Article>) -> Seq<char> {
    collection_prompt_head() + text::join_with(
        articles.map_values(|a: Article| article_block(a)),
        "\n\n"@,
    )
}

fn push_optional(s: &mut String, o: &Option<String>)
    ensures
        final(s)@ == old(s)@ + text_or_empty(*o),
{
    match o {
        Some(t) => s.append(t.as_str()),
        None => {
            assert(old(s)@ + Seq::<char>::empty() == old(s)@);
        },
    }
}

/// The block of collection metadata that describes `a`.
pub fn article_metadata_block(a: &Article) -> (b: String)
    ensures
        b@ == article_block(*a),
{
    let mut b = String::from_str("Article: ");
    b.append(a.title.as_str());
    b.append("\n\n                    Description: ");
    push_optional(&mut b, &a.paragraph_description);
    b.append("\n\n                    Bullet Points: ");
    push_optional(&mut b, &a.bullet_points);
    b.append("\n\n                    Keywords: ");
    push_optional(&mut b, &a.keywords);
    b.append("\n");
    b
}

/// The metadata prompt for a collection whose articles are `articles`.
pub fn collection_metadata_prompt(articles: &Vec<Article>) -> (prompt: String)
    ensures
        prompt@ == collection_prompt_spec(articles@),
{
    let mut blocks: Vec<String> = Vec::new();
    let n = articles.len();
    let mut i: usize = 0;
    while i < n
        invariant
            n == articles@.len(),
            i <= n,
            text::texts_of(blocks@) == articles@.take(i as int).map_values(
                |a: Article| article_block(a),
            ),
        decreases n - i,
    {
        let b = article_metadata_block(&articles[i]);
        let ghost before = text::texts_of(blocks@);
        blocks.push(b);
        assert(text::texts_of(blocks@) =~= before.push(b@));
        assert(articles@.take(i + 1).map_values(|a: Article| article_block(a)) =~= articles@.take(
            i as int,
        ).map_values(|a: Article| article_block(a)).push(b@));
        i = i + 1;
    }
    assert(articles@.take(n as int) =~= articles@);
    let joined = text::join_strings(&blocks, "\n\n");
    let mut prompt = String::from_str("Based on the following metadata from articles in a collection, provide:\n\n            1. A paragraph description of the collection\n\n            2. 5-10 bullet points summarizing the collection\n\n            3. 5-20 keywords or phrases about the collection\n\n\n            Collection metadata:\n");
    prompt.append(joined.as_str());
    prompt
}

} // verus!
