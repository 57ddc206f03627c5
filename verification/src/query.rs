//! The query engine.
//!
//! A search takes a sequence of words and a sequence of document names, each
//! either a genuine list or the single-element wildcard `""` meaning "match
//! anything". One of four predicate shapes is chosen from the wildcards; for
//! every (document, word) pair of the two lists the matching (line content,
//! context content) pairs are retrieved — duplicates in the lists duplicate
//! rows — and the concatenation is sorted ascending by case-insensitive
//! comparison of the context field. Word comparisons are case-insensitive
//! against the stored lowercase anchor; caller-supplied words and names are
//! trimmed first. Searching never changes the store.

use vstd::prelude::*;

use crate::store::{store_of, CtxRow, LineRow, Store, StoreError, StoreModel};
use crate::text::{lower_of, lowercase, trim, trim_of, views_of};
use vstd::multiset::lemma_multiset_empty_len;
use vstd::relations::sorted_by;
use vstd::seq_lib::lemma_multiset_commutative;

verus! {

/// The predicate shape of one retrieval, chosen from the wildcards.
pub ghost enum QueryShape {
    /// Both sides wildcarded: every joined pair.
    All,
    /// Only the word given: filter by the lowercase anchor word.
    ByWord(Seq<char>),
    /// Only the document given: filter by the owning document.
    ByDoc(Seq<char>),
    /// Both given: filter by anchor word and document.
    ByWordDoc(Seq<char>, Seq<char>),
}

/// Whether a context row passes the shape's filter.
pub open spec fn shape_matches(q: QueryShape, c: CtxRow) -> bool {
    match q {
        QueryShape::All => true,
        QueryShape::ByWord(w) => c.word == w,
        QueryShape::ByDoc(d) => c.doc == d,
        QueryShape::ByWordDoc(w, d) => c.word == w && c.doc == d,
    }
}

/// The joined pairs one context row yields: one `(line content, context
/// content)` pair for every line row holding its position and document.
pub open spec fn rows_for_ctx(lines: Seq<LineRow>, c: CtxRow) -> Seq<(Seq<char>, Seq<char>)> {
    lines.filter(|l: LineRow| l.pos == c.line && l.doc == c.doc).map_values(
        |l: LineRow| (l.content, c.content),
    )
}

/// The joined pairs of every context row passing the filter, in row order.
pub open spec fn result_rows_aux(
    lines: Seq<LineRow>,
    ctxs: Seq<CtxRow>,
    q: QueryShape,
) -> Seq<(Seq<char>, Seq<char>)>
    decreases ctxs.len(),
{
    if ctxs.len() == 0 {
        Seq::<(Seq<char>, Seq<char>)>::empty()
    } else {
        result_rows_aux(lines, ctxs.drop_last(), q) + (if shape_matches(q, ctxs.last()) {
            rows_for_ctx(lines, ctxs.last())
        } else {
            Seq::<(Seq<char>, Seq<char>)>::empty()
        })
    }
}

/// The pairs one retrieval returns from the store under the given shape.
pub open spec fn result_rows(s: StoreModel, q: QueryShape) -> Seq<(Seq<char>, Seq<char>)> {
    result_rows_aux(s.lines, s.ctxs, q)
}

/// The views of a sequence of string pairs.
pub open spec fn pair_views(ps: Seq<(String, String)>) -> Seq<(Seq<char>, Seq<char>)> {
    ps.map_values(|p: (String, String)| (p.0@, p.1@))
}

/// Relies on rusqlite `prepare`/`query_map`/`collect` running a SELECT that
/// joins every context row to the line rows holding its position and
/// document: the result holds exactly the joined pairs, in an order SQLite
/// does not promise; no row changes (the connection is taken immutably).
#[verifier::external_body]
fn exec_query_all(conn: &rusqlite::Connection) -> (r: Result<
    Vec<(String, String)>,
    rusqlite::Error,
>)
    ensures
        r matches Ok(v) ==> pair_views(v@).to_multiset() == result_rows(
            store_of(*conn),
            QueryShape::All,
        ).to_multiset(),
{
    let mut stmt = conn.prepare(
        "SELECT lines.content, contexts.content
         FROM contexts, lines
         WHERE contexts.line = lines.position
         AND contexts.file_name = lines.file_name",
    )?;
    let rows = stmt.query_map((), |row| Ok((row.get(0)?, row.get(1)?)))?;
    rows.collect()
}

/// Relies on the same SELECT join as `exec_query_all` restricted to context
/// rows whose anchor word equals the parameter exactly.
#[verifier::external_body]
fn exec_query_by_word(conn: &rusqlite::Connection, word: &str) -> (r: Result<
    Vec<(String, String)>,
    rusqlite::Error,
>)
    ensures
        r matches Ok(v) ==> pair_views(v@).to_multiset() == result_rows(
            store_of(*conn),
            QueryShape::ByWord(word@),
        ).to_multiset(),
{
    let mut stmt = conn.prepare(
        "SELECT lines.content, contexts.content
         FROM contexts, lines
         WHERE contexts.line = lines.position
         AND contexts.file_name = lines.file_name
         AND contexts.word = (?1)",
    )?;
    let rows = stmt.query_map((word,), |row| Ok((row.get(0)?, row.get(1)?)))?;
    rows.collect()
}

/// Relies on the same SELECT join as `exec_query_all` restricted to context
/// rows whose owning document equals the parameter exactly.
#[verifier::external_body]
fn exec_query_by_doc(conn: &rusqlite::Connection, doc: &str) -> (r: Result<
    Vec<(String, String)>,
    rusqlite::Error,
>)
    ensures
        r matches Ok(v) ==> pair_views(v@).to_multiset() == result_rows(
            store_of(*conn),
            QueryShape::ByDoc(doc@),
        ).to_multiset(),
{
    let mut stmt = conn.prepare(
        "SELECT lines.content, contexts.content
         FROM contexts, lines
         WHERE contexts.line = lines.position
         AND contexts.file_name = lines.file_name
         AND contexts.file_name = (?1)
         AND lines.file_name = (?1)",
    )?;
    let rows = stmt.query_map((doc,), |row| Ok((row.get(0)?, row.get(1)?)))?;
    rows.collect()
}

/// Relies on the same SELECT join as `exec_query_all` restricted to context
/// rows whose anchor word and owning document equal the parameters exactly.
#[verifier::external_body]
fn exec_query_by_word_doc(conn: &rusqlite::Connection, word: &str, doc: &str) -> (r: Result<
    Vec<(String, String)>,
    rusqlite::Error,
>)
    ensures
        r matches Ok(v) ==> pair_views(v@).to_multiset() == result_rows(
            store_of(*conn),
            QueryShape::ByWordDoc(word@, doc@),
        ).to_multiset(),
{
    let mut stmt = conn.prepare(
        "SELECT lines.content, contexts.content
         FROM contexts, lines
         WHERE contexts.line = lines.position
         AND contexts.file_name = (?1)
         AND lines.file_name = (?1)
         AND contexts.word = (?2)",
    )?;
    let rows = stmt.query_map((doc, word), |row| Ok((row.get(0)?, row.get(1)?)))?;
    rows.collect()
}

/// Lexicographic order on character sequences by code point.
pub open spec fn lex_le(a: Seq<char>, b: Seq<char>) -> bool
    decreases a.len(),
{
    if a.len() == 0 {
        true
    } else if b.len() == 0 {
        false
    } else if (a[0] as u32) == (b[0] as u32) {
        lex_le(a.drop_first(), b.drop_first())
    } else {
        (a[0] as u32) < (b[0] as u32)
    }
}

/// The result order: case-insensitive lexicographic comparison of the
/// context field; ties (equal lowercase contexts) have no further order.
pub open spec fn row_le(a: (Seq<char>, Seq<char>), b: (Seq<char>, Seq<char>)) -> bool {
    lex_le(lower_of(a.1), lower_of(b.1))
}

/// The result order as a relation, for `sorted_by`.
pub open spec fn row_order() -> spec_fn((Seq<char>, Seq<char>), (Seq<char>, Seq<char>)) -> bool {
    |a: (Seq<char>, Seq<char>), b: (Seq<char>, Seq<char>)| row_le(a, b)
}

/// Any two character sequences compare in at least one direction.
pub proof fn lemma_lex_le_total(a: Seq<char>, b: Seq<char>)
    ensures
        lex_le(a, b) || lex_le(b, a),
    decreases a.len(),
{
    if a.len() > 0 && b.len() > 0 && (a[0] as u32) == (b[0] as u32) {
        lemma_lex_le_total(a.drop_first(), b.drop_first());
    }
}

/// The lexicographic order is transitive.
pub proof fn lemma_lex_le_trans(a: Seq<char>, b: Seq<char>, c: Seq<char>)
    requires
        lex_le(a, b),
        lex_le(b, c),
    ensures
        lex_le(a, c),
    decreases a.len(),
{
    if a.len() > 0 && b.len() > 0 && c.len() > 0 && (a[0] as u32) == (b[0] as u32) && (
    b[0] as u32) == (c[0] as u32) {
        lemma_lex_le_trans(a.drop_first(), b.drop_first(), c.drop_first());
    }
}

/// Compares two strings lexicographically by code point.
fn str_le(a: &str, b: &str) -> (r: bool)
    ensures
        r == lex_le(a@, b@),
{
    let an = a.unicode_len();
    let bn = b.unicode_len();
    let mut i: usize = 0;
    proof {
        assert(a@.skip(0) =~= a@);
        assert(b@.skip(0) =~= b@);
    }
    while i < an && i < bn
        invariant
            an == a@.len(),
            bn == b@.len(),
            i <= an,
            i <= bn,
            lex_le(a@, b@) == lex_le(a@.skip(i as int), b@.skip(i as int)),
        decreases an - i,
    {
        let ca = a.get_char(i) as u32;
        let cb = b.get_char(i) as u32;
        proof {
            assert(a@.skip(i as int)[0] == a@[i as int]);
            assert(b@.skip(i as int)[0] == b@[i as int]);
        }
        if ca != cb {
            return ca < cb;
        }
        proof {
            assert(a@.skip(i as int).drop_first() =~= a@.skip(i + 1));
            assert(b@.skip(i as int).drop_first() =~= b@.skip(i + 1));
        }
        i = i + 1;
    }
    proof {
        if i == an {
            assert(a@.skip(i as int) =~= Seq::<char>::empty());
        } else {
            assert(i == bn);
            assert(b@.skip(i as int) =~= Seq::<char>::empty());
            assert(a@.skip(i as int).len() > 0);
        }
    }
    an <= bn
}

/// Compares two result rows in the result order.
fn row_le_exec(a: &(String, String), b: &(String, String)) -> (r: bool)
    ensures
        r == row_le((a.0@, a.1@), (b.0@, b.1@)),
{
    let la = lowercase(a.1.as_str());
    let lb = lowercase(b.1.as_str());
    str_le(la.as_str(), lb.as_str())
}

/// Sorts result rows ascending in the result order, keeping the multiset of
/// rows exactly.
fn sort_rows(rows: Vec<(String, String)>) -> (r: Vec<(String, String)>)
    ensures
        pair_views(r@).to_multiset() == pair_views(rows@).to_multiset(),
        sorted_by(pair_views(r@), row_order()),
{
    broadcast use vstd::seq_lib::group_to_multiset_ensures;
    broadcast use vstd::multiset::group_multiset_axioms;

    let ghost full = pair_views(rows@);
    let mut input = rows;
    let mut out: Vec<(String, String)> = Vec::new();
    proof {
        assert(pair_views(out@) =~= Seq::<(Seq<char>, Seq<char>)>::empty());
        assert(pair_views(out@).to_multiset().add(pair_views(input@).to_multiset())
            =~= full.to_multiset());
    }
    while input.len() > 0
        invariant
            full == pair_views(rows@),
            sorted_by(pair_views(out@), row_order()),
            pair_views(out@).to_multiset().add(pair_views(input@).to_multiset())
                == full.to_multiset(),
        decreases input@.len(),
    {
        let ghost in_prev = pair_views(input@);
        let popped = input.pop();
        let x = popped.unwrap();
        let ghost xv = (x.0@, x.1@);
        proof {
            assert(in_prev.drop_last() =~= pair_views(input@));
            assert(in_prev =~= pair_views(input@).push(xv));
            vstd::seq_lib::to_multiset_build(pair_views(input@), xv);
            assert(in_prev.to_multiset() == pair_views(input@).to_multiset().insert(xv));
        }
        let mut j: usize = 0;
        while j < out.len() && row_le_exec(&out[j], &x)
            invariant
                j <= out@.len(),
                xv == (x.0@, x.1@),
                forall|k: int| 0 <= k < j ==> row_le(pair_views(out@)[k], xv),
            decreases out@.len() - j,
        {
            proof {
                assert(pair_views(out@)[j as int] == (out@[j as int].0@, out@[j as int].1@));
            }
            j = j + 1;
        }
        let ghost out_prev = pair_views(out@);
        proof {
            if j < out@.len() {
                assert(pair_views(out@)[j as int] == (out@[j as int].0@, out@[j as int].1@));
                lemma_lex_le_total(lower_of(out_prev[j as int].1), lower_of(xv.1));
            }
        }
        out.insert(j, x);
        proof {
            assert(pair_views(out@) =~= out_prev.insert(j as int, xv));
            vstd::seq_lib::to_multiset_insert(out_prev, j as int, xv);
            assert(pair_views(out@).to_multiset() == out_prev.to_multiset().insert(xv));
            assert(pair_views(out@).to_multiset().add(pair_views(input@).to_multiset())
                =~= full.to_multiset());
            assert forall|p: int, q: int|
                0 <= p < q < pair_views(out@).len() implies #[trigger] row_order()(
                pair_views(out@)[p],
                pair_views(out@)[q],
            ) by {
                let now = pair_views(out@);
                if q < j {
                    assert(now[p] == out_prev[p] && now[q] == out_prev[q]);
                } else if p < j && q == j {
                    assert(now[p] == out_prev[p] && now[q] == xv);
                } else if p < j && q > j {
                    assert(now[p] == out_prev[p] && now[q] == out_prev[q - 1]);
                } else if p == j {
                    assert(now[p] == xv && now[q] == out_prev[q - 1]);
                    if j < out_prev.len() {
                        assert(row_le(xv, out_prev[j as int]));
                        if q - 1 > j {
                            assert(row_order()(out_prev[j as int], out_prev[q - 1]));
                            assert(row_le(out_prev[j as int], out_prev[q - 1]));
                            lemma_lex_le_trans(
                                lower_of(xv.1),
                                lower_of(out_prev[j as int].1),
                                lower_of(out_prev[q - 1].1),
                            );
                        }
                    }
                } else {
                    assert(now[p] == out_prev[p - 1] && now[q] == out_prev[q - 1]);
                }
            }
            assert(sorted_by(pair_views(out@), row_order()));
        }
    }
    proof {
        assert(pair_views(input@) =~= Seq::<(Seq<char>, Seq<char>)>::empty());
        lemma_multiset_empty_len(pair_views(input@).to_multiset());
        assert(pair_views(out@).to_multiset() =~= full.to_multiset());
    }
    out
}

/// Whether a caller-supplied list is the wildcard: a single empty string.
pub open spec fn is_wildcard(xs: Seq<Seq<char>>) -> bool {
    xs.len() == 1 && xs[0] == Seq::<char>::empty()
}

/// The shape one (word, document) pair retrieves with, given which sides of
/// the whole query are wildcarded: a wildcarded side constrains nothing; a
/// specific word is trimmed and lowercased (the stored anchor is lowercase),
/// a specific document name is trimmed.
pub open spec fn shape_for(
    ws: Seq<Seq<char>>,
    ds: Seq<Seq<char>>,
    w: Seq<char>,
    d: Seq<char>,
) -> QueryShape {
    if is_wildcard(ws) && is_wildcard(ds) {
        QueryShape::All
    } else if is_wildcard(ds) {
        QueryShape::ByWord(lower_of(trim_of(w)))
    } else if is_wildcard(ws) {
        QueryShape::ByDoc(trim_of(d))
    } else {
        QueryShape::ByWordDoc(lower_of(trim_of(w)), trim_of(d))
    }
}

/// The rows document `d` contributes: one retrieval per word of the first
/// `k` words, concatenated in word order.
pub open spec fn rows_for_doc(
    s: StoreModel,
    ws: Seq<Seq<char>>,
    ds: Seq<Seq<char>>,
    d: Seq<char>,
    k: int,
) -> Seq<(Seq<char>, Seq<char>)>
    decreases k,
{
    if k <= 0 {
        Seq::<(Seq<char>, Seq<char>)>::empty()
    } else {
        rows_for_doc(s, ws, ds, d, k - 1) + result_rows(s, shape_for(ws, ds, ws[k - 1], d))
    }
}

/// The unsorted search result over the first `k` documents: every
/// (document, word) pair of the cross product retrieves once, documents
/// outermost, so repeated words or documents duplicate rows.
pub open spec fn search_rows_upto(
    s: StoreModel,
    ws: Seq<Seq<char>>,
    ds: Seq<Seq<char>>,
    k: int,
) -> Seq<(Seq<char>, Seq<char>)>
    decreases k,
{
    if k <= 0 {
        Seq::<(Seq<char>, Seq<char>)>::empty()
    } else {
        search_rows_upto(s, ws, ds, k - 1) + rows_for_doc(s, ws, ds, ds[k - 1], ws.len() as int)
    }
}

/// The unsorted search result: the concatenation over the whole cross
/// product of the two lists.
pub open spec fn search_rows(s: StoreModel, ws: Seq<Seq<char>>, ds: Seq<Seq<char>>) -> Seq<
    (Seq<char>, Seq<char>),
> {
    search_rows_upto(s, ws, ds, ds.len() as int)
}

impl Store {
    /// Answers one query: for every (document, word) pair of the two lists
    /// the matching (line content, context content) pairs are retrieved —
    /// a list is the wildcard when it is exactly `[""]`, and then constrains
    /// nothing — and the concatenation comes back sorted ascending by
    /// case-insensitive comparison of the context field. Nothing matching is
    /// an empty result, not an error; an empty word or document list asks
    /// for nothing and always succeeds; the store is never changed.
    pub fn search(&self, words: &Vec<String>, documents: &Vec<String>) -> (r: Result<
        Vec<(String, String)>,
        StoreError,
    >)
        ensures
            r matches Ok(v) ==> pair_views(v@).to_multiset() == search_rows(
                self@,
                views_of(words@),
                views_of(documents@),
            ).to_multiset() && sorted_by(pair_views(v@), row_order()),
            words@.len() == 0 || documents@.len() == 0 ==> r is Ok,
    {
        let ghost s = store_of(self.conn);
        let ghost wsv = views_of(words@);
        let ghost dsv = views_of(documents@);
        let wild_words = words.len() == 1 && words[0].as_str().is_empty();
        let wild_docs = documents.len() == 1 && documents[0].as_str().is_empty();
        proof {
            if words@.len() == 1 && words@[0]@.len() == 0 {
                assert(words@[0]@ =~= Seq::<char>::empty());
            }
            if documents@.len() == 1 && documents@[0]@.len() == 0 {
                assert(documents@[0]@ =~= Seq::<char>::empty());
            }
            assert(wild_words == is_wildcard(wsv));
            assert(wild_docs == is_wildcard(dsv));
        }
        let mut acc: Vec<(String, String)> = Vec::new();
        let mut di: usize = 0;
        proof {
            assert(pair_views(acc@) =~= Seq::<(Seq<char>, Seq<char>)>::empty());
        }
        while di < documents.len()
            invariant
                s == store_of(self.conn),
                wsv == views_of(words@),
                dsv == views_of(documents@),
                wild_words == is_wildcard(wsv),
                wild_docs == is_wildcard(dsv),
                di <= documents@.len(),
                pair_views(acc@).to_multiset() == search_rows_upto(
                    s,
                    wsv,
                    dsv,
                    di as int,
                ).to_multiset(),
            decreases documents@.len() - di,
        {
            let ghost doc_base = search_rows_upto(s, wsv, dsv, di as int);
            let mut wi: usize = 0;
            proof {
                assert(rows_for_doc(s, wsv, dsv, dsv[di as int], 0) =~= Seq::<
                    (Seq<char>, Seq<char>),
                >::empty());
                assert(doc_base + rows_for_doc(s, wsv, dsv, dsv[di as int], 0) =~= doc_base);
            }
            while wi < words.len()
                invariant
                    s == store_of(self.conn),
                    wsv == views_of(words@),
                    dsv == views_of(documents@),
                    wild_words == is_wildcard(wsv),
                    wild_docs == is_wildcard(dsv),
                    di < documents@.len(),
                    wi <= words@.len(),
                    doc_base == search_rows_upto(s, wsv, dsv, di as int),
                    pair_views(acc@).to_multiset() == (doc_base + rows_for_doc(
                        s,
                        wsv,
                        dsv,
                        dsv[di as int],
                        wi as int,
                    )).to_multiset(),
                decreases words@.len() - wi,
            {
                let ghost shape = shape_for(wsv, dsv, wsv[wi as int], dsv[di as int]);
                let fetched = if wild_words && wild_docs {
                    exec_query_all(&self.conn)
                } else if wild_docs {
                    let tw = trim(words[wi].as_str());
                    let lw = lowercase(tw);
                    exec_query_by_word(&self.conn, lw.as_str())
                } else if wild_words {
                    let td = trim(documents[di].as_str());
                    exec_query_by_doc(&self.conn, td)
                } else {
                    let tw = trim(words[wi].as_str());
                    let lw = lowercase(tw);
                    let td = trim(documents[di].as_str());
                    exec_query_by_word_doc(&self.conn, lw.as_str(), td)
                };
                let mut rows = match fetched {
                    Ok(v) => v,
                    Err(e) => {
                        return Err(StoreError::Storage(e));
                    },
                };
                let ghost these = result_rows(s, shape);
                let ghost fetched_views = pair_views(rows@);
                let ghost before = pair_views(acc@);
                proof {
                    assert(wsv[wi as int] == words@[wi as int]@);
                    assert(dsv[di as int] == documents@[di as int]@);
                    assert(fetched_views.to_multiset() == these.to_multiset());
                }
                acc.append(&mut rows);
                proof {
                    assert(pair_views(acc@) =~= before + fetched_views);
                    lemma_multiset_commutative(before, fetched_views);
                    let prev = doc_base + rows_for_doc(s, wsv, dsv, dsv[di as int], wi as int);
                    lemma_multiset_commutative(prev, these);
                    assert(pair_views(acc@).to_multiset() == (prev + these).to_multiset());
                    assert(rows_for_doc(s, wsv, dsv, dsv[di as int], wi + 1) == rows_for_doc(
                        s,
                        wsv,
                        dsv,
                        dsv[di as int],
                        wi as int,
                    ) + these);
                    assert(prev + these =~= doc_base + rows_for_doc(
                        s,
                        wsv,
                        dsv,
                        dsv[di as int],
                        wi + 1,
                    ));
                }
                wi = wi + 1;
            }
            proof {
                assert(search_rows_upto(s, wsv, dsv, di + 1) == doc_base + rows_for_doc(
                    s,
                    wsv,
                    dsv,
                    dsv[di as int],
                    wsv.len() as int,
                ));
            }
            di = di + 1;
        }
        proof {
            assert(search_rows(s, wsv, dsv) == search_rows_upto(s, wsv, dsv, dsv.len() as int));
        }
        let sorted = sort_rows(acc);
        Ok(sorted)
    }
}

} // verus!
