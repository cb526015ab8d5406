use vstd::prelude::*;

use std::sync::Arc;

use crate::article::Article;
use crate::prompts;

verus! {

/// The service that asks a model, through a load balancer of model servers,
/// for the metadata of articles.
pub struct AIDataService<B> {
    pub ollama_balancer: Arc<B>,
}

impl<B> AIDataService<B> {
    /// A service that sends its requests through `ollama_balancer`.
    pub fn new(ollama_balancer: Arc<B>) -> (s: Self)
        ensures
            s.ollama_balancer == ollama_balancer,
    {
        Self { ollama_balancer }
    }

    /// The prompt this service sends to obtain the metadata of `article`.
    pub fn article_metadata_prompt(&self, article: &Article) -> (prompt: String)
        ensures
            prompt@ == prompts::structured_prompt_head() + prompts::content_or_title(*article),
    {
        prompts::structured_metadata_prompt(article)
    }
}

/// How bulk metadata generation shares its articles among concurrent
/// workers.
pub struct MetadataGenerator {
    pub concurrency_limit: usize,
}

/// The range of article places that the `k`-th chunk covers.
pub open spec fn chunk_range(total: int, size: int, k: int) -> (int, int) {
    (k * size, if (k + 1) * size <= total {
        (k + 1) * size
    } else {
        total
    })
}

impl MetadataGenerator {
    /// The number of articles each worker takes so that `total_articles` are
    /// shared among at most `concurrency_limit` workers: the quotient rounded
    /// up.
    pub fn calculate_chunk_size(&self, total_articles: usize) -> (size: usize)
        requires
            self.concurrency_limit > 0,
            total_articles + self.concurrency_limit <= usize::MAX,
        ensures
            size == (total_articles + self.concurrency_limit - 1) / (self.concurrency_limit as int),
    {
        (total_articles + self.concurrency_limit - 1) / self.concurrency_limit
    }

    /// The article ranges handed to the workers, as `chunks` of the chunk
    /// size cuts them: consecutive ranges of the chunk size, the last one
    /// possibly shorter, covering every article once; there are never more
    /// of them than the concurrency limit.
    pub fn chunk_ranges(&self, total_articles: usize) -> (ranges: Vec<(usize, usize)>)
        requires
            self.concurrency_limit > 0,
            total_articles > 0,
            total_articles + self.concurrency_limit <= usize::MAX,
        ensures
            ranges@.len() <= self.concurrency_limit,
            ranges@.len() > 0,
            ranges@[ranges@.len() - 1].1 == total_articles,
            forall|k: int|
                0 <= k < ranges@.len() ==> (#[trigger] ranges@[k]).0 as int == chunk_range(
                    total_articles as int,
                    (total_articles + self.concurrency_limit - 1) / (self.concurrency_limit as int),
                    k,
                ).0 && ranges@[k].1 as int == chunk_range(
                    total_articles as int,
                    (total_articles + self.concurrency_limit - 1) / (self.concurrency_limit as int),
                    k,
                ).1,
            forall|k: int| 0 <= k < ranges@.len() ==> (#[trigger] ranges@[k]).0 < ranges@[k].1,
            forall|k: int| 0 < k < ranges@.len() ==> (#[trigger] ranges@[k]).0 == ranges@[k - 1].1,
            ranges@[0].0 == 0,
    {
        let limit = self.concurrency_limit;
        let size = self.calculate_chunk_size(total_articles);
        proof {
            assert(size * limit >= total_articles && size > 0) by (nonlinear_arith)
                requires
                    size == (total_articles + limit - 1) / (limit as int),
                    limit > 0,
                    total_articles > 0,
            ;
        }
        let mut ranges: Vec<(usize, usize)> = Vec::new();
        let mut start: usize = 0;
        while start < total_articles
            invariant
                size > 0,
                limit == self.concurrency_limit,
                size == (total_articles + limit - 1) / (limit as int),
                size * limit >= total_articles,
                start <= total_articles,
                start < total_articles ==> start == ranges@.len() * size,
                ranges@.len() > 0 ==> ranges@[ranges@.len() - 1].1 == start,
                start == total_articles ==> ranges@.len() > 0,
                ranges@.len() <= limit,
                ranges@.len() == 0 ==> start == 0,
                forall|k: int|
                    0 <= k < ranges@.len() ==> (#[trigger] ranges@[k]).0 as int == chunk_range(
                        total_articles as int,
                        size as int,
                        k,
                    ).0 && ranges@[k].1 as int == chunk_range(total_articles as int, size as int, k).1,
                forall|k: int| 0 <= k < ranges@.len() ==> (#[trigger] ranges@[k]).0 < ranges@[k].1,
                forall|k: int|
                    0 < k < ranges@.len() ==> (#[trigger] ranges@[k]).0 == ranges@[k - 1].1,
                ranges@.len() > 0 ==> ranges@[0].0 == 0,
            decreases total_articles - start,
        {
            let ghost k = ranges@.len() as int;
            proof {
                assert(k < limit) by (nonlinear_arith)
                    requires
                        k * size < total_articles,
                        size * limit >= total_articles,
                        size > 0,
                ;
                assert((k + 1) * size == k * size + size) by (nonlinear_arith);
            }
            let end: usize = if total_articles - start > size {
                start + size
            } else {
                total_articles
            };
            ranges.push((start, end));
            start = end;
        }
        ranges
    }
}

} // verus!

verus! {

/// The chunk size is the smallest size with which `concurrency_limit` chunks
/// hold all the articles.
pub proof fn lemma_chunk_size_is_least(total: nat, limit: nat)
    requires
        limit > 0,
    ensures
        ((total + limit - 1) / (limit as int)) * limit >= total,
        (total + limit - 1) / (limit as int) > 0 ==> ((total + limit - 1) / (limit as int) - 1)
            * limit < total,
{
    let size = (total + limit - 1) / (limit as int);
    assert(size * limit >= total) by (nonlinear_arith)
        requires
            size == (total + limit - 1) / (limit as int),
            limit > 0,
    ;
    assert(size > 0 ==> (size - 1) * limit < total) by (nonlinear_arith)
        requires
            size == (total + limit - 1) / (limit as int),
            limit > 0,
    ;
}

} // verus!
