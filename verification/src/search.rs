use vstd::prelude::*;

use crate::text;

verus! {

/// The search terms of a query: its words, each in lowercase.
pub open spec fn keyword_terms_spec(query: Seq<char>) -> Seq<Seq<char>> {
    text::words(query).map_values(|w: Seq<char>| text::lowercase(w))
}

/// The search terms of a query: its words, each in lowercase.
pub fn keyword_terms(query: &str) -> (terms: Vec<String>)
    ensures
        text::texts_of(terms@) == keyword_terms_spec(query@),
{
    let chars = text::chars_of(query);
    let ws = text::split_words(&chars);
    let mut terms: Vec<String> = Vec::new();
    let n = ws.len();
    let mut i: usize = 0;
    while i < n
        invariant
            n == ws@.len(),
            i <= n,
            text::seqs_of(ws@) == text::words(query@),
            text::texts_of(terms@) == keyword_terms_spec(query@).take(i as int),
        decreases n - i,
    {
        let w = text::string_from_chars(&ws[i]);
        let lower = text::to_lowercase(w.as_str());
        let ghost before = text::texts_of(terms@);
        terms.push(lower);
        assert(text::texts_of(terms@) =~= before.push(lower@));
        assert(keyword_terms_spec(query@).take(i + 1) =~= keyword_terms_spec(query@).take(
            i as int,
        ).push(lower@));
        i = i + 1;
    }
    assert(keyword_terms_spec(query@).take(n as int) =~= keyword_terms_spec(query@));
    terms
}

/// The `ILIKE` pattern that finds `term` anywhere in a text.
pub fn like_pattern(term: &str) -> (p: String)
    ensures
        p@ == seq!['%'] + term@ + seq!['%'],
{
    let mut p = String::from_str("%");
    p.append(term);
    p.append("%");
    proof {
        reveal_strlit("%");
    }
    p
}

/// The ranking expression of one term: 1 when the lowercased title holds it.
pub open spec fn title_match_case(term: Seq<char>) -> Seq<char> {
    "CASE WHEN LOWER(title) LIKE '%"@ + term + "%' THEN 1 ELSE 0 END"@
}

/// The ranking expression of a keyword search: the number of terms that the
/// lowercased title holds, as an SQL sum of one case expression per term.
pub open spec fn title_rank_sql_spec(terms: Seq<Seq<char>>) -> Seq<char> {
    text::join_with(terms.map_values(|t: Seq<char>| title_match_case(t)), " + "@)
}

/// The ranking expression of a keyword search over `terms`.
pub fn title_rank_sql(terms: &Vec<String>) -> (sql: String)
    ensures
        sql@ == title_rank_sql_spec(text::texts_of(terms@)),
{
    let mut cases: Vec<String> = Vec::new();
    let n = terms.len();
    let mut i: usize = 0;
    while i < n
        invariant
            n == terms@.len(),
            i <= n,
            text::texts_of(cases@) == text::texts_of(terms@).take(i as int).map_values(
                |t: Seq<char>| title_match_case(t),
            ),
        decreases n - i,
    {
        let mut c = String::from_str("CASE WHEN LOWER(title) LIKE '%");
        c.append(terms[i].as_str());
        c.append("%' THEN 1 ELSE 0 END");
        let ghost before = text::texts_of(cases@);
        cases.push(c);
        assert(text::texts_of(cases@) =~= before.push(c@));
        assert(text::texts_of(terms@).take(i + 1).map_values(|t: Seq<char>| title_match_case(t))
            =~= text::texts_of(terms@).take(i as int).map_values(
            |t: Seq<char>| title_match_case(t),
        ).push(c@));
        i = i + 1;
    }
    assert(text::texts_of(terms@).take(n as int) =~= text::texts_of(terms@));
    text::join_strings(&cases, " + ")
}

} // verus!

verus! {

/// The places where an id occurs for the first time, in order.
pub open spec fn first_positions(ids: Seq<u128>) -> Seq<int>
    decreases ids.len(),
{
    if ids.len() == 0 {
        Seq::empty()
    } else {
        let p = first_positions(ids.drop_last());
        if ids.drop_last().contains(ids.last()) {
            p
        } else {
            p.push(ids.len() - 1)
        }
    }
}

/// The distinct ids, in the order they first occur.
pub open spec fn distinct_ids(ids: Seq<u128>) -> Seq<u128> {
    first_positions(ids).map_values(|p: int| ids[p])
}

/// The places where `key` occurs, in order.
pub open spec fn positions_of(ids: Seq<u128>, key: u128) -> Seq<int>
    decreases ids.len(),
{
    if ids.len() == 0 {
        Seq::empty()
    } else {
        let p = positions_of(ids.drop_last(), key);
        if ids.last() == key {
            p.push(ids.len() - 1)
        } else {
            p
        }
    }
}

proof fn lemma_first_positions(ids: Seq<u128>)
    ensures
        forall|j: int|
            0 <= j < first_positions(ids).len() ==> 0 <= #[trigger] first_positions(ids)[j]
                < ids.len(),
        forall|x: u128| ids.contains(x) <==> distinct_ids(ids).contains(x),
        forall|j: int, k: int|
            0 <= j < k < first_positions(ids).len() ==> #[trigger] first_positions(ids)[j]
                < #[trigger] first_positions(ids)[k],
    decreases ids.len(),
{
    if ids.len() > 0 {
        let rest = ids.drop_last();
        lemma_first_positions(rest);
        let p = first_positions(rest);
        let x = ids.last();
        assert forall|j: int| 0 <= j < p.len() implies ids[p[j]] == rest[p[j]] by {}
        assert(distinct_ids(rest) =~= p.map_values(|q: int| ids[q]));
        assert forall|y: u128| ids.contains(y) <==> distinct_ids(ids).contains(y) by {
            if ids.contains(y) {
                let k = choose|k: int| 0 <= k < ids.len() && ids[k] == y;
                if k < rest.len() {
                    assert(rest[k] == y);
                    assert(rest.contains(y));
                    let m = choose|m: int| 0 <= m < distinct_ids(rest).len() && distinct_ids(rest)[m] == y;
                    assert(distinct_ids(ids)[m] == y);
                } else {
                    if rest.contains(y) {
                        let m = choose|m: int| 0 <= m < distinct_ids(rest).len() && distinct_ids(rest)[m] == y;
                        assert(distinct_ids(ids)[m] == y);
                    } else {
                        assert(distinct_ids(ids)[distinct_ids(ids).len() - 1] == y);
                    }
                }
            }
            if distinct_ids(ids).contains(y) {
                let m = choose|m: int| 0 <= m < distinct_ids(ids).len() && distinct_ids(ids)[m] == y;
                assert(ids[first_positions(ids)[m]] == y);
            }
        }
    }
}

/// The places where an id occurs for the first time, in order.
pub fn first_positions_of(ids: &Vec<u128>) -> (r: Vec<usize>)
    ensures
        r@.len() == first_positions(ids@).len(),
        forall|j: int| 0 <= j < r@.len() ==> r@[j] as int == first_positions(ids@)[j],
{
    let mut r: Vec<usize> = Vec::new();
    let mut seen: Vec<u128> = Vec::new();
    let n = ids.len();
    let mut i: usize = 0;
    while i < n
        invariant
            n == ids@.len(),
            i <= n,
            r@.len() == first_positions(ids@.take(i as int)).len(),
            forall|j: int|
                0 <= j < r@.len() ==> r@[j] as int == first_positions(ids@.take(i as int))[j],
            seen@ == distinct_ids(ids@.take(i as int)),
        decreases n - i,
    {
        let x = ids[i];
        let ghost pre = ids@.take(i as int);
        let ghost cur = ids@.take(i + 1);
        assert(cur.drop_last() == pre);
        proof {
            lemma_first_positions(pre);
            lemma_first_positions(cur);
        }
        let mut found = false;
        let m = seen.len();
        let mut k: usize = 0;
        while k < m
            invariant
                m == seen@.len(),
                k <= m,
                !found ==> forall|j: int| 0 <= j < k ==> seen@[j] != x,
                found ==> seen@.contains(x),
            decreases m - k,
        {
            if seen[k] == x {
                found = true;
            }
            k = k + 1;
        }
        assert(found <==> pre.contains(x));
        let ghost old_r = r@;
        assert forall|j: int| 0 <= j < first_positions(pre).len() implies pre[first_positions(
            pre,
        )[j]] == cur[first_positions(pre)[j]] by {}
        if !found {
            r.push(i);
            seen.push(x);
            assert(distinct_ids(cur) =~= distinct_ids(pre).push(x));
        } else {
            assert(distinct_ids(cur) =~= distinct_ids(pre));
        }
        i = i + 1;
    }
    assert(ids@.take(n as int) == ids@);
    r
}

} // verus!

verus! {

/// The places where `key` occurs in `ids`, in order.
pub fn positions_of_id(ids: &Vec<u128>, key: u128) -> (r: Vec<usize>)
    ensures
        r@.len() == positions_of(ids@, key).len(),
        forall|j: int| 0 <= j < r@.len() ==> r@[j] as int == positions_of(ids@, key)[j],
{
    let mut r: Vec<usize> = Vec::new();
    let n = ids.len();
    let mut i: usize = 0;
    while i < n
        invariant
            n == ids@.len(),
            i <= n,
            r@.len() == positions_of(ids@.take(i as int), key).len(),
            forall|j: int|
                0 <= j < r@.len() ==> r@[j] as int == positions_of(ids@.take(i as int), key)[j],
        decreases n - i,
    {
        assert(ids@.take(i + 1).drop_last() == ids@.take(i as int));
        if ids[i] == key {
            r.push(i);
        }
        i = i + 1;
    }
    assert(ids@.take(n as int) == ids@);
    r
}

/// The result rows of one article: its id and the places of its rows.
#[derive(Debug, Clone)]
pub struct ArticleRows {
    pub article_id: u128,
    pub rows: Vec<usize>,
}

/// Groups search result rows by article: one group per distinct article id,
/// in the order the ids first occur, each holding the places of all rows of
/// that article in order.
pub fn group_rows_by_article(ids: &Vec<u128>) -> (groups: Vec<ArticleRows>)
    ensures
        groups@.len() == distinct_ids(ids@).len(),
        forall|g: int|
            0 <= g < groups@.len() ==> {
                &&& (#[trigger] groups@[g]).article_id == distinct_ids(ids@)[g]
                &&& groups@[g].rows@.len() == positions_of(ids@, groups@[g].article_id).len()
                &&& forall|j: int|
                    0 <= j < groups@[g].rows@.len() ==> groups@[g].rows@[j] as int == positions_of(
                        ids@,
                        groups@[g].article_id,
                    )[j]
            },
{
    proof {
        lemma_first_positions(ids@);
    }
    let firsts = first_positions_of(ids);
    let mut groups: Vec<ArticleRows> = Vec::new();
    let m = firsts.len();
    let mut g: usize = 0;
    while g < m
        invariant
            m == firsts@.len(),
            m == first_positions(ids@).len(),
            g <= m,
            forall|j: int| 0 <= j < m ==> firsts@[j] as int == first_positions(ids@)[j],
            forall|j: int| 0 <= j < m ==> 0 <= #[trigger] first_positions(ids@)[j] < ids@.len(),
            groups@.len() == g,
            forall|h: int|
                0 <= h < g ==> {
                    &&& (#[trigger] groups@[h]).article_id == distinct_ids(ids@)[h]
                    &&& groups@[h].rows@.len() == positions_of(ids@, groups@[h].article_id).len()
                    &&& forall|j: int|
                        0 <= j < groups@[h].rows@.len() ==> groups@[h].rows@[j] as int
                            == positions_of(ids@, groups@[h].article_id)[j]
                },
        decreases m - g,
    {
        let p = firsts[g];
        let key = ids[p];
        let rows = positions_of_id(ids, key);
        groups.push(ArticleRows { article_id: key, rows });
        g = g + 1;
    }
    groups
}

/// The places of the first rows of at most `limit` distinct ids, in the order
/// the ids first occur.
pub fn distinct_first_rows(ids: &Vec<u128>, limit: usize) -> (r: Vec<usize>)
    ensures
        r@.len() == if first_positions(ids@).len() < limit {
            first_positions(ids@).len()
        } else {
            limit as nat
        },
        forall|j: int| 0 <= j < r@.len() ==> r@[j] as int == first_positions(ids@)[j],
{
    let firsts = first_positions_of(ids);
    let mut r: Vec<usize> = Vec::new();
    let m = firsts.len();
    let mut j: usize = 0;
    while j < m && j < limit
        invariant
            m == firsts@.len(),
            m == first_positions(ids@).len(),
            forall|k: int| 0 <= k < m ==> firsts@[k] as int == first_positions(ids@)[k],
            j <= m,
            j <= limit,
            r@.len() == j,
            forall|k: int| 0 <= k < j ==> r@[k] as int == first_positions(ids@)[k],
        decreases m - j,
    {
        r.push(firsts[j]);
        j = j + 1;
    }
    r
}

} // verus!

verus! {

/// The distinct ids hold every id that occurs, each exactly once.
pub proof fn lemma_distinct_ids(ids: Seq<u128>)
    ensures
        distinct_ids(ids).no_duplicates(),
        forall|x: u128| ids.contains(x) <==> distinct_ids(ids).contains(x),
    decreases ids.len(),
{
    lemma_first_positions(ids);
    if ids.len() > 0 {
        let rest = ids.drop_last();
        lemma_distinct_ids(rest);
        lemma_first_positions(rest);
        let p = first_positions(rest);
        assert forall|j: int| 0 <= j < p.len() implies ids[p[j]] == rest[p[j]] by {}
        assert(distinct_ids(rest) =~= p.map_values(|q: int| ids[q]));
        if !rest.contains(ids.last()) {
            assert(distinct_ids(ids) =~= distinct_ids(rest).push(ids.last()));
        } else {
            assert(distinct_ids(ids) =~= distinct_ids(rest));
        }
    }
}

/// A row's place is among the places of its id, and those places hold only
/// that id: grouping rows by id loses and misplaces no row.
pub proof fn lemma_positions_of(ids: Seq<u128>, key: u128)
    ensures
        forall|i: int| 0 <= i < ids.len() ==> (ids[i] == key <==> positions_of(ids, key).contains(i)),
        forall|j: int|
            0 <= j < positions_of(ids, key).len() ==> 0 <= #[trigger] positions_of(ids, key)[j]
                < ids.len() && ids[positions_of(ids, key)[j]] == key,
    decreases ids.len(),
{
    if ids.len() > 0 {
        let rest = ids.drop_last();
        lemma_positions_of(rest, key);
        let p = positions_of(rest, key);
        assert forall|i: int| 0 <= i < ids.len() implies (ids[i] == key <==> positions_of(
            ids,
            key,
        ).contains(i)) by {
            if i < rest.len() {
                assert(ids[i] == rest[i]);
                if p.contains(i) {
                    let m = choose|m: int| 0 <= m < p.len() && p[m] == i;
                    assert(positions_of(ids, key)[m] == i);
                }
                if positions_of(ids, key).contains(i) {
                    let m = choose|m: int|
                        0 <= m < positions_of(ids, key).len() && positions_of(ids, key)[m] == i;
                    if m < p.len() {
                        assert(p[m] == i);
                    }
                }
            } else {
                if ids[i] == key {
                    assert(positions_of(ids, key)[p.len() as int] == i);
                }
                if positions_of(ids, key).contains(i) {
                    let m = choose|m: int|
                        0 <= m < positions_of(ids, key).len() && positions_of(ids, key)[m] == i;
                    if m < p.len() {
                        assert(p[m] == i);
                    }
                }
            }
        }
    }
}

/// The content a search result shows for an article: its markdown, or
/// `No content found` when it has none.
pub fn result_content(markdown: Option<String>) -> (c: String)
    ensures
        markdown matches Some(m) ==> c@ == m@,
        markdown is None ==> c@ == "No content found"@,
{
    match markdown {
        Some(m) => m,
        None => String::from_str("No content found"),
    }
}

/// The articles a search returns: those the keyword ranking kept, or, when it
/// kept none, the candidates of the vector search.
pub fn ranked_or_candidates<T>(ranked: Vec<T>, candidates: Vec<T>) -> (r: Vec<T>)
    ensures
        ranked@.len() > 0 ==> r@ == ranked@,
        ranked@.len() == 0 ==> r@ == candidates@,
{
    if ranked.len() > 0 {
        ranked
    } else {
        candidates
    }
}

} // verus!
