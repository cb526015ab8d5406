use vstd::prelude::*;

use crate::ids::{is_v4_uuid, new_uuid, now, Timestamp};
use crate::text;

verus! {

/// A help-centre article.
///
/// Identifiers are the 128-bit values of UUIDs; times are kept at the
/// precision of the system clock. The stored embeddings are kept by the
/// database layer.
#[derive(Debug, Clone)]
pub struct Article {
    pub id: u128,
    pub collection_id: u128,
    pub title: String,
    pub slug: String,
    pub html_content: Option<String>,
    pub markdown_content: Option<String>,
    pub version: i32,
    pub last_edited_by: Option<String>,
    pub helpscout_collection_id: String,
    pub created_at: Timestamp,
    pub updated_at: Timestamp,
    pub helpscout_article_id: Option<String>,
    pub paragraph_description: Option<String>,
    pub bullet_points: Option<String>,
    pub keywords: Option<String>,
}

/// A piece of an article that is embedded on its own.
#[derive(Debug, Clone)]
pub struct ArticleChunk {
    pub id: u128,
    pub article_id: u128,
    pub content: String,
    pub is_title: bool,
    pub embedding_id: Option<u128>,
}

/// The pieces of a word for chunks of at most `n` characters: with `n > 0`,
/// a word longer than `n` is cut into pieces of `n` characters, the last one
/// possibly shorter; otherwise the word is a piece of its own.
pub open spec fn word_pieces(w: Seq<char>, n: nat) -> Seq<Seq<char>>
    decreases w.len(),
{
    if n == 0 || w.len() <= n {
        seq![w]
    } else {
        seq![w.take(n as int)] + word_pieces(w.skip(n as int), n)
    }
}

/// The pieces of the words `ws`, in order.
pub open spec fn pieces_of(ws: Seq<Seq<char>>, n: nat) -> Seq<Seq<char>>
    decreases ws.len(),
{
    if ws.len() == 0 {
        Seq::empty()
    } else {
        pieces_of(ws.drop_last(), n) + word_pieces(ws.last(), n)
    }
}

/// The groups of pieces that become chunks: pieces are taken in order, and a
/// piece opens a new group when, joined to the current group with a space,
/// it would make the group longer than `n` characters. With `n == 0` the
/// first piece finds an empty group already full, so an empty group comes
/// first and every piece gets a group of its own.
pub open spec fn chunk_groups(ps: Seq<Seq<char>>, n: nat) -> Seq<Seq<Seq<char>>>
    decreases ps.len(),
{
    if ps.len() == 0 {
        Seq::empty()
    } else {
        let g = chunk_groups(ps.drop_last(), n);
        let p = ps.last();
        if g.len() == 0 {
            if n == 0 {
                seq![Seq::empty(), seq![p]]
            } else {
                seq![seq![p]]
            }
        } else if text::join_spaced(g.last()).len() + 1 + p.len() > n {
            g.push(seq![p])
        } else {
            g.drop_last().push(g.last().push(p))
        }
    }
}

/// The texts of the body chunks of a markdown text: the pieces of its words
/// in groups of at most `n` characters, each group joined with single
/// spaces.
pub open spec fn body_chunk_texts(markdown: Seq<char>, n: nat) -> Seq<Seq<char>> {
    chunk_groups(pieces_of(text::words(markdown), n), n).map_values(
        |g: Seq<Seq<char>>| text::join_spaced(g),
    )
}

/// The body-chunk texts of an optional markdown text (none without one).
pub open spec fn body_texts_of(markdown: Option<String>, n: nat) -> Seq<Seq<char>> {
    match markdown {
        Some(m) => body_chunk_texts(m@, n),
        None => Seq::empty(),
    }
}

} // verus!

verus! {

/// The pieces of `w` for chunks of at most `n` characters.
fn split_word(w: &Vec<char>, n: usize) -> (r: Vec<Vec<char>>)
    ensures
        text::seqs_of(r@) == word_pieces(w@, n as nat),
{
    let len = w.len();
    let mut r: Vec<Vec<char>> = Vec::new();
    if n == 0 || len <= n {
        r.push(text::slice_chars(w, 0, len));
        assert(w@.subrange(0, len as int) == w@);
        assert(text::seqs_of(r@) =~= seq![w@]);
        return r;
    }
    let mut start: usize = 0;
    assert(w@.skip(0) == w@);
    assert(text::seqs_of(r@) + word_pieces(w@, n as nat) =~= word_pieces(w@, n as nat));
    while len - start > n
        invariant
            n > 0,
            len == w@.len(),
            start <= len,
            text::seqs_of(r@) + word_pieces(w@.skip(start as int), n as nat) == word_pieces(
                w@,
                n as nat,
            ),
        decreases len - start,
    {
        let ghost rest = w@.skip(start as int);
        let ghost old_r = text::seqs_of(r@);
        r.push(text::slice_chars(w, start, start + n));
        assert(rest.take(n as int) == w@.subrange(start as int, start + n));
        assert(rest.skip(n as int) == w@.skip(start + n));
        assert(word_pieces(rest, n as nat) == seq![rest.take(n as int)] + word_pieces(
            rest.skip(n as int),
            n as nat,
        ));
        assert(text::seqs_of(r@) =~= old_r.push(rest.take(n as int)));
        assert(old_r + word_pieces(rest, n as nat) =~= text::seqs_of(r@) + word_pieces(
            rest.skip(n as int),
            n as nat,
        ));
        start = start + n;
    }
    let ghost rest = w@.skip(start as int);
    let ghost old_r = text::seqs_of(r@);
    r.push(text::slice_chars(w, start, len));
    assert(rest == w@.subrange(start as int, len as int));
    assert(word_pieces(rest, n as nat) == seq![rest]);
    assert(text::seqs_of(r@) =~= old_r + seq![rest]);
    r
}

/// The pieces of the words `ws` for chunks of at most `n` characters.
fn split_pieces(ws: &Vec<Vec<char>>, n: usize) -> (r: Vec<Vec<char>>)
    ensures
        text::seqs_of(r@) == pieces_of(text::seqs_of(ws@), n as nat),
{
    let mut r: Vec<Vec<char>> = Vec::new();
    let m = ws.len();
    let mut i: usize = 0;
    while i < m
        invariant
            m == ws@.len(),
            i <= m,
            text::seqs_of(r@) == pieces_of(text::seqs_of(ws@).take(i as int), n as nat),
        decreases m - i,
    {
        let ghost old_r = text::seqs_of(r@);
        let mut p = split_word(&ws[i], n);
        let ghost pv = text::seqs_of(p@);
        r.append(&mut p);
        let ghost t = text::seqs_of(ws@).take(i + 1);
        assert(t.drop_last() == text::seqs_of(ws@).take(i as int));
        assert(t.last() == ws@[i as int]@);
        assert(text::seqs_of(r@) =~= old_r + pv);
        i = i + 1;
    }
    assert(text::seqs_of(ws@).take(m as int) == text::seqs_of(ws@));
    r
}

proof fn lemma_join_spaced_nonempty(ws: Seq<Seq<char>>)
    requires
        ws.len() > 0,
        ws.last().len() > 0,
    ensures
        text::join_spaced(ws).len() > 0,
{
}

impl Article {
    /// Splits the article into chunks for embedding: first the title, then
    /// the words of the markdown content in chunks of at most `chunk_size`
    /// characters, the words of a chunk joined with single spaces; a word
    /// longer than `chunk_size` is cut into pieces of `chunk_size`
    /// characters. With `chunk_size` 0 an empty chunk comes first and then
    /// every word is a chunk of its own.
    /// Every chunk gets a fresh identifier.
    pub fn create_chunks(&self, chunk_size: usize) -> (chunks: Vec<ArticleChunk>)
        ensures
            chunks.len() == 1 + body_texts_of(self.markdown_content, chunk_size as nat).len(),
            chunks[0].article_id == self.id,
            chunks[0].content@ == self.title@,
            chunks[0].is_title,
            chunks[0].embedding_id is None,
            forall|j: int| 0 <= j < chunks.len() ==> is_v4_uuid(#[trigger] chunks[j].id),
            forall|j: int|
                1 <= j < chunks.len() ==> {
                    &&& (#[trigger] chunks[j]).article_id == self.id
                    &&& !chunks[j].is_title
                    &&& chunks[j].embedding_id is None
                    &&& chunks[j].content@ == body_texts_of(
                        self.markdown_content,
                        chunk_size as nat,
                    )[j - 1]
                    &&& chunk_size > 0 ==> 0 < chunks[j].content@.len() <= chunk_size
                },
    {
        let mut chunks: Vec<ArticleChunk> = Vec::new();
        let title_chunk = ArticleChunk {
            id: new_uuid(),
            article_id: self.id,
            content: self.title.clone(),
            is_title: true,
            embedding_id: None,
        };
        chunks.push(title_chunk);
        match &self.markdown_content {
            Some(content) => {
                let chars = text::chars_of(content.as_str());
                let ws = text::split_words(&chars);
                let ps = split_pieces(&ws, chunk_size);
                let ghost all = text::seqs_of(ps@);
                proof {
                    text::lemma_words_are_words(chars@);
                    lemma_pieces_of_words(text::words(content@), chunk_size as nat);
                }
                let n = ps.len();
                let mut current: Vec<char> = Vec::new();
                let mut i: usize = 0;
                while i < n
                    invariant
                        n == ps@.len(),
                        all == text::seqs_of(ps@),
                        all == pieces_of(text::words(content@), chunk_size as nat),
                        forall|k: int| 0 <= k < all.len() ==> text::is_word(#[trigger] all[k]),
                        i <= n,
                        chunks@.len() >= 1,
                        chunks[0].article_id == self.id,
                        chunks[0].content@ == self.title@,
                        chunks[0].is_title,
                        chunks[0].embedding_id is None,
                        forall|j: int| 0 <= j < chunks.len() ==> is_v4_uuid(#[trigger] chunks[j].id),
                        i == 0 ==> chunks@.len() == 1 && current@.len() == 0,
                        i > 0 ==> {
                            let g = chunk_groups(all.take(i as int), chunk_size as nat);
                            &&& g.len() >= 1
                            &&& chunks@.len() == g.len()
                            &&& current@ == text::join_spaced(g.last())
                            &&& current@.len() > 0
                            &&& forall|j: int|
                                1 <= j < chunks.len() ==> {
                                    &&& (#[trigger] chunks[j]).article_id == self.id
                                    &&& !chunks[j].is_title
                                    &&& chunks[j].embedding_id is None
                                    &&& chunks[j].content@ == text::join_spaced(g[j - 1])
                                }
                        },
                    decreases n - i,
                {
                    let ghost g = chunk_groups(all.take(i as int), chunk_size as nat);
                    let ghost w = all[i as int];
                    assert(all.take(i + 1).drop_last() == all.take(i as int));
                    assert(all.take(i + 1).last() == w);
                    let ghost g2 = chunk_groups(all.take(i + 1), chunk_size as nat);
                    assert(text::is_word(w));
                    let plen = ps[i].len();
                    let cur_len = current.len();
                    let full = chunk_size == 0 || cur_len > 0 && (cur_len >= chunk_size
                        || chunk_size - cur_len - 1 < plen);
                    if full {
                        let piece = ArticleChunk {
                            id: new_uuid(),
                            article_id: self.id,
                            content: text::string_from_chars(&current),
                            is_title: false,
                            embedding_id: None,
                        };
                        chunks.push(piece);
                        current = Vec::new();
                    }
                    if current.len() > 0 {
                        current.push(' ');
                    }
                    text::push_all(&mut current, &ps[i]);
                    proof {
                        if i == 0 {
                            assert(current@ == w);
                            if chunk_size == 0 {
                                assert(text::join_spaced(g2[0]) == Seq::<char>::empty());
                            }
                        } else {
                            assert(g.last().len() > 0);
                            if text::join_spaced(g.last()).len() + 1 + w.len() > chunk_size {
                                assert(g2 == g.push(seq![w]));
                                assert(current@ == w);
                                assert(text::join_spaced(seq![w]) == w);
                            } else {
                                assert(g2 == g.drop_last().push(g.last().push(w)));
                                assert(g.last().push(w).drop_last() == g.last());
                                assert(current@ == text::join_spaced(g.last().push(w)));
                            }
                        }
                    }
                    i = i + 1;
                }
                assert(all.take(n as int) == all);
                if current.len() > 0 {
                    let last_piece = ArticleChunk {
                        id: new_uuid(),
                        article_id: self.id,
                        content: text::string_from_chars(&current),
                        is_title: false,
                        embedding_id: None,
                    };
                    chunks.push(last_piece);
                }
                proof {
                    lemma_chunk_lengths(content@, chunk_size as nat);
                }
            },
            None => {},
        }
        chunks
    }
}

} // verus!

verus! {

/// The pieces of a word give the word back, one after the other.
pub proof fn lemma_word_pieces_rejoin(w: Seq<char>, n: nat)
    ensures
        text::flatten(word_pieces(w, n)) == w,
    decreases w.len(),
{
    reveal_with_fuel(text::flatten, 2);
    if n == 0 || w.len() <= n {
        assert(seq![w].drop_last() =~= Seq::<Seq<char>>::empty());
        assert(text::flatten(seq![w]) =~= w);
    } else {
        let rest = word_pieces(w.skip(n as int), n);
        lemma_word_pieces_rejoin(w.skip(n as int), n);
        lemma_flatten_prepend(w.take(n as int), rest);
        assert(w.take(n as int) + w.skip(n as int) =~= w);
    }
}

proof fn lemma_flatten_prepend(a: Seq<char>, ss: Seq<Seq<char>>)
    ensures
        text::flatten(seq![a] + ss) == a + text::flatten(ss),
    decreases ss.len(),
{
    if ss.len() == 0 {
        reveal_with_fuel(text::flatten, 2);
        assert(seq![a] + ss =~= seq![a]);
        assert(seq![a].drop_last() =~= Seq::<Seq<char>>::empty());
        assert(text::flatten(seq![a]) =~= a);
        assert(a + text::flatten(ss) =~= a);
    } else {
        lemma_flatten_prepend(a, ss.drop_last());
        assert((seq![a] + ss).drop_last() =~= seq![a] + ss.drop_last());
        assert((seq![a] + ss).last() == ss.last());
        assert(a + text::flatten(ss.drop_last()) + ss.last() =~= a + (text::flatten(ss.drop_last())
            + ss.last()));
    }
}

/// With a positive size, every piece of a non-empty word holds between one
/// and `n` characters; every piece of a word holds no white space.
proof fn lemma_word_pieces_shape(w: Seq<char>, n: nat)
    requires
        text::is_word(w),
    ensures
        forall|j: int| 0 <= j < word_pieces(w, n).len() ==> text::is_word(#[trigger] word_pieces(w, n)[j]),
        n > 0 ==> forall|j: int| 0 <= j < word_pieces(w, n).len() ==> (#[trigger] word_pieces(w, n)[j]).len() <= n,
    decreases w.len(),
{
    if n == 0 || w.len() <= n {
    } else {
        let a = w.take(n as int);
        let b = w.skip(n as int);
        assert forall|k: int| 0 <= k < b.len() implies !text::is_space(#[trigger] b[k]) by {
            assert(b[k] == w[k + n]);
        }
        assert forall|k: int| 0 <= k < a.len() implies !text::is_space(#[trigger] a[k]) by {
            assert(a[k] == w[k]);
        }
        lemma_word_pieces_shape(b, n);
        let r = word_pieces(b, n);
        assert forall|j: int| 0 <= j < word_pieces(w, n).len() implies text::is_word(
            #[trigger] word_pieces(w, n)[j],
        ) && (n > 0 ==> word_pieces(w, n)[j].len() <= n) by {
            if j > 0 {
                assert(word_pieces(w, n)[j] == r[j - 1]);
            }
        }
    }
}

proof fn lemma_pieces_of_words(ws: Seq<Seq<char>>, n: nat)
    requires
        forall|j: int| 0 <= j < ws.len() ==> text::is_word(#[trigger] ws[j]),
    ensures
        forall|j: int| 0 <= j < pieces_of(ws, n).len() ==> text::is_word(#[trigger] pieces_of(ws, n)[j]),
        n > 0 ==> forall|j: int| 0 <= j < pieces_of(ws, n).len() ==> (#[trigger] pieces_of(ws, n)[j]).len() <= n,
    decreases ws.len(),
{
    if ws.len() > 0 {
        let rest = ws.drop_last();
        assert forall|j: int| 0 <= j < rest.len() implies text::is_word(#[trigger] rest[j]) by {
            assert(rest[j] == ws[j]);
        }
        assert(text::is_word(ws[ws.len() - 1]));
        lemma_pieces_of_words(rest, n);
        lemma_word_pieces_shape(ws.last(), n);
        let a = pieces_of(rest, n);
        let b = word_pieces(ws.last(), n);
        assert forall|j: int| 0 <= j < pieces_of(ws, n).len() implies text::is_word(
            #[trigger] pieces_of(ws, n)[j],
        ) && (n > 0 ==> pieces_of(ws, n)[j].len() <= n) by {
            if j < a.len() {
                assert(pieces_of(ws, n)[j] == a[j]);
            } else {
                assert(pieces_of(ws, n)[j] == b[j - a.len()]);
            }
        }
    }
}

/// With chunk size 0, or when no word is longer than the chunk size, the
/// pieces are the words themselves.
pub proof fn lemma_pieces_of_short_words(ws: Seq<Seq<char>>, n: nat)
    requires
        forall|j: int| 0 <= j < ws.len() ==> n == 0 || (#[trigger] ws[j]).len() <= n,
    ensures
        pieces_of(ws, n) == ws,
    decreases ws.len(),
{
    if ws.len() > 0 {
        let rest = ws.drop_last();
        assert forall|j: int| 0 <= j < rest.len() implies n == 0 || (#[trigger] rest[j]).len() <= n by {
            assert(rest[j] == ws[j]);
        }
        lemma_pieces_of_short_words(rest, n);
        assert(n == 0 || ws[ws.len() - 1].len() <= n);
        assert(pieces_of(ws, n) =~= rest.push(ws.last()));
    }
}

/// The chunk groups hold the pieces in order: one after the other they give
/// back the whole list.
pub proof fn lemma_chunk_groups_flatten(ps: Seq<Seq<char>>, n: nat)
    ensures
        text::flatten(chunk_groups(ps, n)) == ps,
    decreases ps.len(),
{
    if ps.len() > 0 {
        let rest = ps.drop_last();
        let w = ps.last();
        let g = chunk_groups(rest, n);
        lemma_chunk_groups_flatten(rest, n);
        assert(ps == rest.push(w));
        if g.len() == 0 {
            assert(rest.len() == 0) by {
                if rest.len() > 0 {
                    lemma_chunk_groups_nonempty(rest, n);
                }
            }
            if n == 0 {
                let h = seq![Seq::<Seq<char>>::empty(), seq![w]];
                reveal_with_fuel(text::flatten, 3);
                assert(h.drop_last() == seq![Seq::<Seq<char>>::empty()]);
                assert(seq![Seq::<Seq<char>>::empty()].drop_last() =~= Seq::empty());
                assert(text::flatten(h) =~= seq![w]);
            } else {
                reveal_with_fuel(text::flatten, 2);
                assert(seq![seq![w]].drop_last() =~= Seq::empty());
                assert(text::flatten(seq![seq![w]]) =~= seq![w]);
            }
            assert(ps =~= seq![w]);
        } else if text::join_spaced(g.last()).len() + 1 + w.len() > n {
            assert(g.push(seq![w]).drop_last() == g);
            assert(text::flatten(g.push(seq![w])) == text::flatten(g) + seq![w]);
        } else {
            let h = g.drop_last().push(g.last().push(w));
            assert(h.drop_last() == g.drop_last());
            assert(text::flatten(h) == text::flatten(g.drop_last()) + g.last().push(w));
            assert(text::flatten(g) == text::flatten(g.drop_last()) + g.last());
            assert(text::flatten(h) =~= text::flatten(g) + seq![w]);
        }
    }
}

proof fn lemma_chunk_groups_nonempty(ps: Seq<Seq<char>>, n: nat)
    requires
        ps.len() > 0,
    ensures
        chunk_groups(ps, n).len() > 0,
{
}

/// Each chunk group holds at least one piece, and, with a positive size and
/// pieces of at most `n` characters, joins to at most `n` characters.
pub proof fn lemma_chunk_groups_sizes(ps: Seq<Seq<char>>, n: nat)
    requires
        n > 0,
        forall|j: int| 0 <= j < ps.len() ==> (#[trigger] ps[j]).len() <= n,
    ensures
        forall|j: int|
            0 <= j < chunk_groups(ps, n).len() ==> (#[trigger] chunk_groups(ps, n)[j]).len() >= 1
                && text::join_spaced(chunk_groups(ps, n)[j]).len() <= n,
    decreases ps.len(),
{
    if ps.len() > 0 {
        let rest = ps.drop_last();
        let w = ps.last();
        assert forall|j: int| 0 <= j < rest.len() implies (#[trigger] rest[j]).len() <= n by {
            assert(rest[j] == ps[j]);
        }
        assert(w.len() <= n);
        lemma_chunk_groups_sizes(rest, n);
        let g = chunk_groups(rest, n);
        let h = chunk_groups(ps, n);
        if g.len() == 0 {
            assert(h == seq![seq![w]]);
            assert(text::join_spaced(seq![w]) == w);
        } else if text::join_spaced(g.last()).len() + 1 + w.len() > n {
            assert forall|j: int| 0 <= j < h.len() implies (#[trigger] h[j]).len() >= 1
                && text::join_spaced(h[j]).len() <= n by {
                if j < g.len() {
                    assert(h[j] == g[j]);
                } else {
                    assert(h[j] == seq![w]);
                    assert(text::join_spaced(seq![w]) == w);
                }
            }
        } else {
            let last = g.last().push(w);
            assert(g.last().len() >= 1);
            assert(last.drop_last() == g.last());
            assert(text::join_spaced(last) == text::join_spaced(g.last()) + seq![' '] + w);
            assert forall|j: int| 0 <= j < h.len() implies (#[trigger] h[j]).len() >= 1
                && text::join_spaced(h[j]).len() <= n by {
                if j < g.len() - 1 {
                    assert(h[j] == g[j]);
                } else {
                    assert(h[j] == last);
                }
            }
        }
    }
}

/// With chunk size 0, an empty chunk comes first and then every piece is a
/// chunk of its own.
pub proof fn lemma_chunk_groups_zero(ps: Seq<Seq<char>>)
    requires
        ps.len() > 0,
        forall|j: int| 0 <= j < ps.len() ==> (#[trigger] ps[j]).len() > 0,
    ensures
        chunk_groups(ps, 0) =~= seq![Seq::<Seq<char>>::empty()] + Seq::new(
            ps.len(),
            |j: int| seq![ps[j]],
        ),
    decreases ps.len(),
{
    let rest = ps.drop_last();
    let w = ps.last();
    assert(ps[ps.len() - 1].len() > 0);
    if rest.len() > 0 {
        assert forall|j: int| 0 <= j < rest.len() implies (#[trigger] rest[j]).len() > 0 by {
            assert(rest[j] == ps[j]);
        }
        lemma_chunk_groups_zero(rest);
        let g = chunk_groups(rest, 0);
        let tail = Seq::new(rest.len(), |j: int| seq![rest[j]]);
        assert(g == seq![Seq::<Seq<char>>::empty()] + tail);
        assert(chunk_groups(ps, 0) == g.push(seq![w]));
        let full = Seq::new(ps.len(), |j: int| seq![ps[j]]);
        assert(full =~= tail.push(seq![w]));
        assert(g.push(seq![w]) =~= seq![Seq::<Seq<char>>::empty()] + full);
    } else {
        assert(chunk_groups(rest, 0) =~= Seq::empty());
        assert(chunk_groups(ps, 0) == seq![Seq::<Seq<char>>::empty(), seq![w]]);
    }
}

/// With a positive chunk size, every body chunk holds between one and `n`
/// characters.
pub proof fn lemma_chunk_lengths(markdown: Seq<char>, n: nat)
    ensures
        forall|j: int|
            n > 0 && 0 <= j < body_chunk_texts(markdown, n).len() ==> 0 < (
            #[trigger] body_chunk_texts(markdown, n)[j]).len() <= n,
{
    let ws = text::words(markdown);
    text::lemma_words_are_words(markdown);
    lemma_pieces_of_words(ws, n);
    let ps = pieces_of(ws, n);
    let g = chunk_groups(ps, n);
    assert forall|j: int| n > 0 && 0 <= j < g.len() implies 0 < text::join_spaced(
        #[trigger] g[j],
    ).len() <= n by {
        lemma_groups_hold_words(ps, n, j);
        lemma_groups_nonempty_each(ps, n, j);
        assert(text::is_word(g[j].last()));
        lemma_join_spaced_nonempty(g[j]);
        lemma_chunk_groups_sizes(ps, n);
    }
}

/// Chunks are packed greedily: with a positive size, a chunk is closed only
/// when the first piece of the next chunk, joined to it with a space, would
/// make it longer than `n` characters.
pub proof fn lemma_chunk_groups_greedy(ps: Seq<Seq<char>>, n: nat)
    requires
        n > 0,
    ensures
        forall|j: int|
            0 <= j < chunk_groups(ps, n).len() - 1 ==> text::join_spaced(
                #[trigger] chunk_groups(ps, n)[j],
            ).len() + 1 + chunk_groups(ps, n)[j + 1][0].len() > n,
    decreases ps.len(),
{
    if ps.len() > 0 {
        let rest = ps.drop_last();
        let w = ps.last();
        let g = chunk_groups(rest, n);
        let h = chunk_groups(ps, n);
        lemma_chunk_groups_greedy(rest, n);
        if g.len() == 0 {
        } else if text::join_spaced(g.last()).len() + 1 + w.len() > n {
            assert forall|j: int| 0 <= j < h.len() - 1 implies text::join_spaced(#[trigger] h[j]).len()
                + 1 + h[j + 1][0].len() > n by {
                assert(h[j] == g[j]);
                if j < g.len() - 1 {
                    assert(h[j + 1] == g[j + 1]);
                } else {
                    assert(h[j + 1] == seq![w]);
                }
            }
        } else {
            lemma_groups_nonempty_each(rest, n, g.len() - 1);
            assert forall|j: int| 0 <= j < h.len() - 1 implies text::join_spaced(#[trigger] h[j]).len()
                + 1 + h[j + 1][0].len() > n by {
                assert(h[j] == g[j]);
                if j < g.len() - 2 {
                    assert(h[j + 1] == g[j + 1]);
                } else {
                    assert(h[j + 1] == g.last().push(w));
                    assert(h[j + 1][0] == g[j + 1][0]);
                }
            }
        }
    }
}

/// The body chunks of a markdown text are packed greedily: with a positive
/// chunk size, every chunk but the last is followed by a chunk whose first
/// word would not have fitted in it (its length plus a space plus that word
/// is more than `n` characters).
pub proof fn lemma_chunks_are_greedy(markdown: Seq<char>, n: nat)
    requires
        n > 0,
    ensures
        forall|j: int|
            0 <= j < body_chunk_texts(markdown, n).len() - 1 ==> (#[trigger] body_chunk_texts(
                markdown,
                n,
            )[j]).len() + 1 + text::words(body_chunk_texts(markdown, n)[j + 1])[0].len() > n,
{
    let ws = text::words(markdown);
    text::lemma_words_are_words(markdown);
    lemma_pieces_of_words(ws, n);
    let ps = pieces_of(ws, n);
    let g = chunk_groups(ps, n);
    let texts = body_chunk_texts(markdown, n);
    lemma_chunk_groups_greedy(ps, n);
    assert forall|j: int| 0 <= j < texts.len() - 1 implies (#[trigger] texts[j]).len() + 1
        + text::words(texts[j + 1])[0].len() > n by {
        assert(texts[j] == text::join_spaced(g[j]));
        assert(texts[j + 1] == text::join_spaced(g[j + 1]));
        lemma_groups_hold_words(ps, n, j + 1);
        text::lemma_words_of_joined(g[j + 1]);
        assert(text::join_spaced(g[j]).len() + 1 + g[j + 1][0].len() > n);
    }
}

proof fn lemma_groups_nonempty_each(ps: Seq<Seq<char>>, n: nat, j: int)
    requires
        n > 0,
        0 <= j < chunk_groups(ps, n).len(),
    ensures
        chunk_groups(ps, n)[j].len() > 0,
    decreases ps.len(),
{
    let rest = ps.drop_last();
    let g = chunk_groups(rest, n);
    let h = chunk_groups(ps, n);
    if g.len() == 0 {
    } else if text::join_spaced(g.last()).len() + 1 + ps.last().len() > n {
        if j < g.len() {
            lemma_groups_nonempty_each(rest, n, j);
            assert(h[j] == g[j]);
        }
    } else {
        if j < g.len() - 1 {
            lemma_groups_nonempty_each(rest, n, j);
            assert(h[j] == g[j]);
        }
    }
}

/// Chunking loses, adds and reorders no piece of a word: the words of the
/// body chunks, one chunk after the other, are the pieces of the words of
/// the markdown content (the words themselves when none is longer than the
/// chunk size, see `lemma_pieces_of_short_words`; a long word's pieces give
/// it back, see `lemma_word_pieces_rejoin`).
pub proof fn lemma_chunks_keep_words(markdown: Seq<char>, n: nat)
    ensures
        text::flatten(body_chunk_texts(markdown, n).map_values(|t: Seq<char>| text::words(t)))
            == pieces_of(text::words(markdown), n),
{
    let ws = text::words(markdown);
    text::lemma_words_are_words(markdown);
    lemma_pieces_of_words(ws, n);
    let ps = pieces_of(ws, n);
    let g = chunk_groups(ps, n);
    lemma_chunk_groups_flatten(ps, n);
    let texts = body_chunk_texts(markdown, n);
    let back = texts.map_values(|t: Seq<char>| text::words(t));
    assert forall|j: int| 0 <= j < g.len() implies back[j] == g[j] by {
        assert forall|k: int| 0 <= k < g[j].len() implies text::is_word(#[trigger] g[j][k]) by {
            lemma_groups_hold_words(ps, n, j);
        }
        text::lemma_words_of_joined(g[j]);
    }
    assert(back =~= g);
}

proof fn lemma_groups_hold_words(ps: Seq<Seq<char>>, n: nat, j: int)
    requires
        forall|k: int| 0 <= k < ps.len() ==> text::is_word(#[trigger] ps[k]),
        0 <= j < chunk_groups(ps, n).len(),
    ensures
        forall|k: int|
            0 <= k < chunk_groups(ps, n)[j].len() ==> text::is_word(#[trigger] chunk_groups(ps, n)[j][k]),
    decreases ps.len(),
{
    let rest = ps.drop_last();
    let w = ps.last();
    let g = chunk_groups(rest, n);
    let h = chunk_groups(ps, n);
    assert(text::is_word(ps[ps.len() - 1]));
    assert forall|k: int| 0 <= k < rest.len() implies text::is_word(#[trigger] rest[k]) by {
        assert(rest[k] == ps[k]);
    }
    if g.len() == 0 {
    } else if text::join_spaced(g.last()).len() + 1 + w.len() > n {
        if j < g.len() {
            lemma_groups_hold_words(rest, n, j);
            assert(h[j] == g[j]);
        }
    } else {
        if j < g.len() - 1 {
            lemma_groups_hold_words(rest, n, j);
            assert(h[j] == g[j]);
        } else {
            lemma_groups_hold_words(rest, n, g.len() - 1);
            assert forall|k: int| 0 <= k < h[j].len() implies text::is_word(#[trigger] h[j][k]) by {
                if k < g.last().len() {
                    assert(h[j][k] == g.last()[k]);
                }
            }
        }
    }
}

} // verus!


verus! {

impl Article {
    /// A new article of a collection, with a fresh version-4 UUID, stamped with
    /// the current time, at version 0, with no markdown content, editor or
    /// metadata yet.
    pub fn new(
        collection_id: u128,
        helpscout_collection_id: String,
        helpscout_article_id: Option<String>,
        title: String,
        slug: String,
        html_content: Option<String>,
    ) -> (a: Self)
        ensures
            is_v4_uuid(a.id),
            a.collection_id == collection_id,
            a.helpscout_collection_id == helpscout_collection_id,
            a.helpscout_article_id == helpscout_article_id,
            a.title == title,
            a.slug == slug,
            a.html_content == html_content,
            a.markdown_content is None,
            a.version == 0,
            a.last_edited_by is None,
            a.paragraph_description is None,
            a.bullet_points is None,
            a.keywords is None,
    {
        let id = new_uuid();
        let created_at = now();
        let updated_at = now();
        Article {
            id,
            collection_id,
            title,
            slug,
            html_content,
            markdown_content: None,
            version: 0,
            last_edited_by: None,
            helpscout_collection_id,
            created_at,
            updated_at,
            helpscout_article_id,
            paragraph_description: None,
            bullet_points: None,
            keywords: None,
        }
    }

    /// The identifiers of `articles`, in order.
    pub fn ids_from_articles(articles: &[Article]) -> (ids: Vec<u128>)
        ensures
            ids@ == articles@.map_values(|a: Article| a.id),
    {
        let mut ids: Vec<u128> = Vec::new();
        let n = articles.len();
        let mut i: usize = 0;
        while i < n
            invariant
                n == articles@.len(),
                i <= n,
                ids@ == articles@.take(i as int).map_values(|a: Article| a.id),
            decreases n - i,
        {
            ids.push(articles[i].id);
            assert(articles@.take(i + 1).map_values(|a: Article| a.id) =~= articles@.take(
                i as int,
            ).map_values(|a: Article| a.id).push(articles@[i as int].id));
            i = i + 1;
        }
        assert(articles@.take(n as int) =~= articles@);
        ids
    }
}

} // verus!

verus! {

/// Whether `md` is the markdown that `html_to_markdown` gives for `html`:
/// `html2md`'s rendering of the cleaned HTML.
pub open spec fn is_markdown_of(html: Seq<char>, md: Seq<char>) -> bool {
    md == crate::html::markdown_of(crate::html::cleaned_text(html))
}

/// Whether `a` and `b` agree on every field but the markdown content.
pub open spec fn same_except_markdown(a: Article, b: Article) -> bool {
    &&& a.id == b.id
    &&& a.collection_id == b.collection_id
    &&& a.title == b.title
    &&& a.slug == b.slug
    &&& a.html_content == b.html_content
    &&& a.version == b.version
    &&& a.last_edited_by == b.last_edited_by
    &&& a.helpscout_collection_id == b.helpscout_collection_id
    &&& a.created_at == b.created_at
    &&& a.updated_at == b.updated_at
    &&& a.helpscout_article_id == b.helpscout_article_id
    &&& a.paragraph_description == b.paragraph_description
    &&& a.bullet_points == b.bullet_points
    &&& a.keywords == b.keywords
}

impl Article {
    /// The markdown form of the article's HTML content, or none when the
    /// article has no HTML content. The rendering is `html2md`'s, which may
    /// not return on some inputs (see `html::render_markdown`).
    pub fn markdown_from_html(&self) -> (md: Option<String>)
        ensures
            self.html_content is None ==> md is None,
            self.html_content matches Some(h) ==> md matches Some(m) && is_markdown_of(h@, m@),
    {
        match &self.html_content {
            Some(h) => Some(crate::html::html_to_markdown(h.as_str())),
            None => None,
        }
    }

    /// Fills in the markdown content from the HTML content, when there is
    /// HTML content; leaves the article as it is otherwise. The rendering is
    /// `html2md`'s, which may not return on some inputs (see
    /// `html::render_markdown`).
    pub fn fill_markdown(&mut self)
        ensures
            old(self).html_content is None ==> *final(self) == *old(self),
            old(self).html_content matches Some(h) ==> final(self).markdown_content matches Some(m)
                && is_markdown_of(h@, m@),
            same_except_markdown(*final(self), *old(self)),
    {
        match self.markdown_from_html() {
            Some(md) => {
                self.markdown_content = Some(md);
            },
            None => {},
        }
    }
}

} // verus!
