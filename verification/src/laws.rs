//! Laws the library keeps, stated over the same models the contracts use.

use vstd::prelude::*;

use crate::query::{
    is_wildcard, result_rows, result_rows_aux, rows_for_ctx, rows_for_doc, search_rows,
    search_rows_upto, shape_for, shape_matches, QueryShape,
};
use crate::store::{ingest_result, CtxRow, LineRow, StoreModel};
use crate::text::{content_words, lower_of, trim_of};
use crate::windows::{
    line_windows, positions_of, positions_upto, rotation, window_at, windows_for_word,
    windows_for_words,
};
use vstd::arithmetic::div_mod::lemma_small_mod;
use vstd::seq_lib::lemma_multiset_commutative;

verus! {

/// Ingestion is idempotent: ingesting a document a second time, with the
/// same lines and stop words, leaves the store exactly as the first
/// ingestion left it.
pub proof fn lemma_ingest_idempotent(
    s: StoreModel,
    name: Seq<char>,
    raws: Seq<Seq<char>>,
    stops: Seq<Seq<char>>,
)
    ensures
        ingest_result(ingest_result(s, name, raws, stops), name, raws, stops) == ingest_result(
            s,
            name,
            raws,
            stops,
        ),
{
    let once = ingest_result(s, name, raws, stops);
    if !s.docs.contains(name) {
        assert(once.docs == s.docs.push(name));
        assert(once.docs[s.docs.len() as int] == name);
        assert(once.docs.contains(name));
    }
}

/// A filter that keeps every element returns the sequence unchanged.
proof fn lemma_filter_keeps_all<A>(s: Seq<A>, pred: spec_fn(A) -> bool)
    requires
        forall|i: int| 0 <= i < s.len() ==> pred(#[trigger] s[i]),
    ensures
        s.filter(pred) == s,
    decreases s.len(),
{
    reveal(Seq::filter);
    if s.len() > 0 {
        assert(forall|i: int|
            0 <= i < s.drop_last().len() ==> pred(#[trigger] s.drop_last()[i]));
        lemma_filter_keeps_all(s.drop_last(), pred);
        assert(pred(s.last()));
        assert(s.drop_last().push(s.last()) =~= s);
    }
}

/// In a line of pairwise distinct tokens, a token's only occurrence below
/// `j` is its own position.
proof fn lemma_positions_distinct(tokens: Seq<Seq<char>>, i: int, j: int)
    requires
        forall|p: int, q: int| 0 <= p < q < tokens.len() ==> tokens[p] != tokens[q],
        0 <= i < tokens.len(),
        0 <= j <= tokens.len(),
    ensures
        positions_upto(tokens, tokens[i], j) == if j <= i {
            Seq::<int>::empty()
        } else {
            seq![i]
        },
    decreases j,
{
    if j > 0 {
        lemma_positions_distinct(tokens, i, j - 1);
        if tokens[j - 1] == tokens[i] {
            assert(j - 1 == i);
            assert(Seq::<int>::empty().push(i) =~= seq![i]);
        }
    }
}

/// With pairwise distinct tokens and the first `k` of them as content
/// words, the emitted windows are exactly one per token, in token order.
proof fn lemma_windows_prefix(tokens: Seq<Seq<char>>, k: int)
    requires
        forall|p: int, q: int| 0 <= p < q < tokens.len() ==> tokens[p] != tokens[q],
        0 <= k <= tokens.len(),
    ensures
        windows_for_words(tokens, tokens.take(k)) == Seq::new(
            k as nat,
            |i: int| window_at(tokens, i),
        ),
    decreases k,
{
    if k == 0 {
        assert(tokens.take(0) =~= Seq::<Seq<char>>::empty());
        assert(windows_for_words(tokens, tokens.take(0)) =~= Seq::new(
            0,
            |i: int| window_at(tokens, i),
        ));
    } else {
        lemma_windows_prefix(tokens, k - 1);
        let cws = tokens.take(k);
        assert(cws.drop_last() =~= tokens.take(k - 1));
        assert(cws.last() == tokens[k - 1]);
        lemma_positions_distinct(tokens, k - 1, tokens.len() as int);
        assert(positions_of(tokens, tokens[k - 1]) == seq![k - 1]);
        assert(windows_for_word(tokens, tokens[k - 1]) =~= seq![window_at(tokens, k - 1)]);
        assert(windows_for_words(tokens, cws) =~= Seq::new(
            (k - 1) as nat,
            |i: int| window_at(tokens, i),
        ) + seq![window_at(tokens, k - 1)]);
        assert(windows_for_words(tokens, cws) =~= Seq::new(k as nat, |i: int| window_at(tokens, i)));
    }
}

/// A line of L pairwise distinct tokens, none a stop word, yields exactly L
/// windows, one anchored on each token in order, and each rotated context is
/// a distinct rotation of the line.
pub proof fn lemma_window_count(tokens: Seq<Seq<char>>, stops: Seq<Seq<char>>)
    requires
        forall|p: int, q: int| 0 <= p < q < tokens.len() ==> tokens[p] != tokens[q],
        forall|i: int| 0 <= i < tokens.len() ==> !stops.contains(lower_of(#[trigger] tokens[i])),
    ensures
        line_windows(tokens, stops).len() == tokens.len(),
        forall|i: int|
            0 <= i < tokens.len() ==> #[trigger] line_windows(tokens, stops)[i] == window_at(
                tokens,
                i,
            ),
        forall|p: int, q: int|
            0 <= p < q < tokens.len() ==> rotation(tokens, p) != rotation(tokens, q),
{
    let pred = |t: Seq<char>| !stops.contains(lower_of(t));
    lemma_filter_keeps_all(tokens, pred);
    assert(content_words(tokens, stops) == tokens);
    assert(tokens.take(tokens.len() as int) =~= tokens);
    lemma_windows_prefix(tokens, tokens.len() as int);
    assert(line_windows(tokens, stops) == Seq::new(tokens.len(), |i: int| window_at(tokens, i)));
    assert forall|p: int, q: int|
        0 <= p < q < tokens.len() implies rotation(tokens, p) != rotation(tokens, q) by {
        let l = tokens.len() as int;
        lemma_small_mod(p as nat, l as nat);
        lemma_small_mod(q as nat, l as nat);
        assert(rotation(tokens, p)[0] == tokens[p]);
        assert(rotation(tokens, q)[0] == tokens[q]);
    }
}

/// Every row a filtered retrieval returns, the unfiltered retrieval returns
/// at least as often.
proof fn lemma_result_rows_aux_subset(lines: Seq<LineRow>, ctxs: Seq<CtxRow>, q: QueryShape)
    ensures
        result_rows_aux(lines, ctxs, q).to_multiset().subset_of(
            result_rows_aux(lines, ctxs, QueryShape::All).to_multiset(),
        ),
    decreases ctxs.len(),
{
    broadcast use vstd::multiset::group_multiset_axioms;
    broadcast use vstd::seq_lib::group_to_multiset_ensures;

    if ctxs.len() > 0 {
        lemma_result_rows_aux_subset(lines, ctxs.drop_last(), q);
        let c = ctxs.last();
        let rest_q = result_rows_aux(lines, ctxs.drop_last(), q);
        let rest_all = result_rows_aux(lines, ctxs.drop_last(), QueryShape::All);
        let tail = rows_for_ctx(lines, c);
        lemma_multiset_commutative(rest_all, tail);
        if shape_matches(q, c) {
            lemma_multiset_commutative(rest_q, tail);
        } else {
            assert(result_rows_aux(lines, ctxs, q) == rest_q + Seq::<
                (Seq<char>, Seq<char>),
            >::empty());
            assert(rest_q + Seq::<(Seq<char>, Seq<char>)>::empty() =~= rest_q);
        }
    }
}

/// One retrieval of a document against the first `k` words is unchanged
/// when every word and the document name trim alike.
proof fn lemma_rows_for_doc_trim(
    s: StoreModel,
    ws1: Seq<Seq<char>>,
    ds1: Seq<Seq<char>>,
    ws2: Seq<Seq<char>>,
    ds2: Seq<Seq<char>>,
    d1: Seq<char>,
    d2: Seq<char>,
    k: int,
)
    requires
        ws1.len() == ws2.len(),
        is_wildcard(ws1) == is_wildcard(ws2),
        is_wildcard(ds1) == is_wildcard(ds2),
        forall|i: int| 0 <= i < ws1.len() ==> trim_of(#[trigger] ws2[i]) == trim_of(ws1[i]),
        trim_of(d2) == trim_of(d1),
        0 <= k <= ws1.len(),
    ensures
        rows_for_doc(s, ws2, ds2, d2, k) == rows_for_doc(s, ws1, ds1, d1, k),
    decreases k,
{
    if k > 0 {
        lemma_rows_for_doc_trim(s, ws1, ds1, ws2, ds2, d1, d2, k - 1);
        assert(trim_of(ws2[k - 1]) == trim_of(ws1[k - 1]));
        assert(shape_for(ws2, ds2, ws2[k - 1], d2) == shape_for(ws1, ds1, ws1[k - 1], d1));
    }
}

/// Searching reads caller-supplied words and document names only through
/// their trimmed forms (and, for words, the lowercase of the trim): two
/// queries whose sides are wildcarded alike and whose elements trim alike
/// return exactly the same rows. With `lemma_trim_of_padded` this gives the
/// promise of the query contract: extra surrounding whitespace on any word
/// or document name never changes the result.
pub proof fn lemma_search_rows_trim_invariant(
    s: StoreModel,
    ws1: Seq<Seq<char>>,
    ds1: Seq<Seq<char>>,
    ws2: Seq<Seq<char>>,
    ds2: Seq<Seq<char>>,
)
    requires
        ws1.len() == ws2.len(),
        ds1.len() == ds2.len(),
        is_wildcard(ws1) == is_wildcard(ws2),
        is_wildcard(ds1) == is_wildcard(ds2),
        forall|i: int| 0 <= i < ws1.len() ==> trim_of(#[trigger] ws2[i]) == trim_of(ws1[i]),
        forall|i: int| 0 <= i < ds1.len() ==> trim_of(#[trigger] ds2[i]) == trim_of(ds1[i]),
    ensures
        search_rows(s, ws2, ds2) == search_rows(s, ws1, ds1),
{
    lemma_search_rows_upto_trim(s, ws1, ds1, ws2, ds2, ds1.len() as int);
}

/// The induction behind `lemma_search_rows_trim_invariant`, over the first
/// `k` documents.
proof fn lemma_search_rows_upto_trim(
    s: StoreModel,
    ws1: Seq<Seq<char>>,
    ds1: Seq<Seq<char>>,
    ws2: Seq<Seq<char>>,
    ds2: Seq<Seq<char>>,
    k: int,
)
    requires
        ws1.len() == ws2.len(),
        ds1.len() == ds2.len(),
        is_wildcard(ws1) == is_wildcard(ws2),
        is_wildcard(ds1) == is_wildcard(ds2),
        forall|i: int| 0 <= i < ws1.len() ==> trim_of(#[trigger] ws2[i]) == trim_of(ws1[i]),
        forall|i: int| 0 <= i < ds1.len() ==> trim_of(#[trigger] ds2[i]) == trim_of(ds1[i]),
        0 <= k <= ds1.len(),
    ensures
        search_rows_upto(s, ws2, ds2, k) == search_rows_upto(s, ws1, ds1, k),
    decreases k,
{
    if k > 0 {
        lemma_search_rows_upto_trim(s, ws1, ds1, ws2, ds2, k - 1);
        lemma_rows_for_doc_trim(
            s,
            ws1,
            ds1,
            ws2,
            ds2,
            ds1[k - 1],
            ds2[k - 1],
            ws1.len() as int,
        );
    }
}

/// The wildcard query dominates every single-word query: over any store, the
/// rows of searching one word against all documents form a sub-multiset of
/// the rows of the all-wildcard search.
pub proof fn lemma_wildcard_superset(s: StoreModel, w: Seq<char>)
    ensures
        search_rows(s, seq![w], seq![Seq::<char>::empty()]).to_multiset().subset_of(
            search_rows(s, seq![Seq::<char>::empty()], seq![Seq::<char>::empty()]).to_multiset(),
        ),
{
    broadcast use vstd::multiset::group_multiset_axioms;

    let wild = seq![Seq::<char>::empty()];
    let ws = seq![w];
    assert(is_wildcard(wild));
    let by_w = search_rows(s, ws, wild);
    let all = search_rows(s, wild, wild);
    assert(rows_for_doc(s, ws, wild, wild[0], 0) =~= Seq::<(Seq<char>, Seq<char>)>::empty());
    assert(rows_for_doc(s, wild, wild, wild[0], 0) =~= Seq::<(Seq<char>, Seq<char>)>::empty());
    assert(search_rows_upto(s, ws, wild, 0) =~= Seq::<(Seq<char>, Seq<char>)>::empty());
    assert(search_rows_upto(s, wild, wild, 0) =~= Seq::<(Seq<char>, Seq<char>)>::empty());
    assert(by_w == search_rows_upto(s, ws, wild, 1));
    assert(by_w =~= rows_for_doc(s, ws, wild, wild[0], 1));
    assert(by_w =~= result_rows(s, shape_for(ws, wild, w, wild[0])));
    assert(all == search_rows_upto(s, wild, wild, 1));
    assert(all =~= rows_for_doc(s, wild, wild, wild[0], 1));
    assert(shape_for(wild, wild, wild[0], wild[0]) == QueryShape::All);
    assert(all =~= result_rows(s, QueryShape::All));
    lemma_result_rows_aux_subset(s.lines, s.ctxs, shape_for(ws, wild, w, wild[0]));
}

} // verus!
