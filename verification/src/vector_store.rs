use vstd::prelude::*;

use crate::text;

verus! {

/// The vector collection that holds the article embeddings.
pub const ARTICLE_EMBEDDINGS: &'static str = "article_embeddings";

/// The vector collection used by tests of the vector store.
pub const TEST_COLLECTION: &'static str = "testing";

/// The size of an embedding vector.
pub const EMBEDDING_SIZE: u64 = 384;

/// Whether a collection called `name` is among the collections `existing`.
pub fn has_collection(existing: &Vec<String>, name: &str) -> (found: bool)
    ensures
        found <==> text::texts_of(existing@).contains(name@),
{
    let key = String::from_str(name);
    let n = existing.len();
    let mut i: usize = 0;
    while i < n
        invariant
            n == existing@.len(),
            i <= n,
            key@ == name@,
            forall|j: int| 0 <= j < i ==> existing@[j]@ != name@,
        decreases n - i,
    {
        if existing[i] == key {
            assert(text::texts_of(existing@)[i as int] == name@);
            return true;
        }
        i = i + 1;
    }
    proof {
        if text::texts_of(existing@).contains(name@) {
            let k = choose|k: int|
                0 <= k < text::texts_of(existing@).len() && text::texts_of(existing@)[k] == name@;
            assert(existing@[k]@ == name@);
        }
    }
    false
}

} // verus!
