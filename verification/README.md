# rag_engine

The logic of a help-documentation retrieval backend, verified with Verus.
Articles are fetched from a help-centre API, converted from HTML to
markdown, split into chunks for embedding, searched by keyword and vector
similarity, and enriched with metadata generated by a language model; sync
work runs through a job queue.

- `src/` is the verified library:
  - `text`: white space, words, lines, trimming, replacement and number
    reading and writing over character sequences.
  - `article`, `collection`: the article and collection models, chunking of
    articles into chunks of at most a given number of characters, and their constructors.
  - `html`: HTML cleaning passes repeated until they change nothing
    (elements found through `scraper`) and conversion to markdown (through
    `html2md`).
  - `metadata`, `prompts`: model prompts and the parsing of model replies
    into paragraph, bullet and keyword sections.
  - `jobs`: the job queue's bookkeeping: job records, status changes,
    worker outcomes and settings.
  - `search`: keyword terms, `ILIKE` patterns, title ranking SQL, grouping of
    result rows by article and de-duplication of collections.
  - `services`: the metadata service and the sharing of articles among
    concurrent workers.
  - `api`, `vector_store`: help-centre API endpoints and vector-store names.
  - `ids`, `errors`: identifiers, time, and error types.
- `tests/` runs the library on concrete values.
- `app/` is the server: HTTP routes, database access, the vector store,
  the model servers, the embedding service and the job workers.
