//! Context-window construction.
//!
//! For each content word of a line, every occurrence of that word in the
//! line's token sequence yields one window: the line's tokens read
//! cyclically from the occurrence, joined with single spaces, together with
//! the lowercase anchor word. Windows are emitted in content-word order,
//! occurrences in left-to-right order, and duplicates in the content-word
//! sequence are processed independently.

use vstd::prelude::*;

use crate::text::{content_words, lower_of, lowercase, views_of};
use vstd::arithmetic::div_mod::{lemma_mod_self_0, lemma_mod_sub_multiples_vanish, lemma_small_mod};

verus! {

/// One context window: the lowercase anchor word and the rotated line.
pub struct Window {
    pub word: String,
    pub content: String,
}

/// The mathematical value of a window.
pub ghost struct WindowModel {
    pub word: Seq<char>,
    pub content: Seq<char>,
}

impl View for Window {
    type V = WindowModel;

    open spec fn view(&self) -> WindowModel {
        WindowModel { word: self.word@, content: self.content@ }
    }
}

/// The views of a sequence of windows.
pub open spec fn window_views(ws: Seq<Window>) -> Seq<WindowModel> {
    ws.map_values(|w: Window| w@)
}

/// The cyclic rotation of `tokens` starting at `p`: element `i` is
/// `tokens[(p + i) mod L]`, so the whole line reappears, wrapped around.
pub open spec fn rotation(tokens: Seq<Seq<char>>, p: int) -> Seq<Seq<char>>
    recommends
        0 <= p < tokens.len(),
{
    Seq::new(tokens.len(), |i: int| tokens[(p + i) % (tokens.len() as int)])
}

/// The tokens joined with single separating spaces.
pub open spec fn join_spaces(ts: Seq<Seq<char>>) -> Seq<char>
    decreases ts.len(),
{
    if ts.len() == 0 {
        Seq::<char>::empty()
    } else if ts.len() == 1 {
        ts[0]
    } else {
        join_spaces(ts.drop_last()) + seq![' '] + ts.last()
    }
}

/// The window anchored at position `p` of the line.
pub open spec fn window_at(tokens: Seq<Seq<char>>, p: int) -> WindowModel {
    WindowModel { word: lower_of(tokens[p]), content: join_spaces(rotation(tokens, p)) }
}

/// The positions below `j` at which the line's token equals `w`, in order.
pub open spec fn positions_upto(tokens: Seq<Seq<char>>, w: Seq<char>, j: int) -> Seq<int>
    decreases j,
{
    if j <= 0 {
        Seq::<int>::empty()
    } else {
        let rest = positions_upto(tokens, w, j - 1);
        if tokens[j - 1] == w {
            rest.push(j - 1)
        } else {
            rest
        }
    }
}

/// Every position at which the line's token equals `w`, in order.
pub open spec fn positions_of(tokens: Seq<Seq<char>>, w: Seq<char>) -> Seq<int> {
    positions_upto(tokens, w, tokens.len() as int)
}

/// The windows one content word contributes: one per occurrence, in order.
pub open spec fn windows_for_word(tokens: Seq<Seq<char>>, w: Seq<char>) -> Seq<WindowModel> {
    positions_of(tokens, w).map_values(|p: int| window_at(tokens, p))
}

/// The windows a whole content-word sequence contributes, in its order.
pub open spec fn windows_for_words(tokens: Seq<Seq<char>>, cws: Seq<Seq<char>>) -> Seq<
    WindowModel,
>
    decreases cws.len(),
{
    if cws.len() == 0 {
        Seq::<WindowModel>::empty()
    } else {
        windows_for_words(tokens, cws.drop_last()) + windows_for_word(tokens, cws.last())
    }
}

/// The windows of one line, given its tokens and the stop words.
pub open spec fn line_windows(tokens: Seq<Seq<char>>, stops: Seq<Seq<char>>) -> Seq<WindowModel> {
    windows_for_words(tokens, content_words(tokens, stops))
}

/// Builds the rotated context string for the occurrence at position `p`.
fn build_rotation(tokens: &Vec<String>, p: usize) -> (r: String)
    requires
        p < tokens@.len(),
    ensures
        r@ == join_spaces(rotation(views_of(tokens@), p as int)),
{
    let ghost tv = views_of(tokens@);
    let ghost rot = rotation(tv, p as int);
    let l = tokens.len();
    let mut content = String::new();
    let mut idx = p;
    let mut k: usize = 0;
    proof {
        assert(rot.take(0) =~= Seq::<Seq<char>>::empty());
        lemma_small_mod(p as nat, l as nat);
    }
    while k < l
        invariant
            l == tv.len(),
            tv == views_of(tokens@),
            rot == rotation(tv, p as int),
            p < l,
            k <= l,
            idx < l,
            idx as int == (p + k) % (l as int),
            content@ == join_spaces(rot.take(k as int)),
        decreases l - k,
    {
        if k > 0 {
            content.append(" ");
        }
        content.append(tokens[idx].as_str());
        proof {
            reveal_strlit(" ");
            assert(" "@ =~= seq![' ']);
            let next = rot.take(k + 1);
            assert(next.drop_last() =~= rot.take(k as int));
            assert(next.last() == rot[k as int]);
            assert(rot[k as int] == tv[idx as int]);
            if k == 0 {
                assert(content@ =~= join_spaces(next));
            } else {
                assert(content@ =~= join_spaces(rot.take(k as int)) + seq![' '] + tv[idx as int]);
                assert(content@ =~= join_spaces(next));
            }
            if p + k < l {
                lemma_small_mod((p + k) as nat, l as nat);
            } else {
                lemma_mod_sub_multiples_vanish(p + k, l as int);
                lemma_small_mod((p + k - l) as nat, l as nat);
            }
            if p + k + 1 < l {
                lemma_small_mod((p + k + 1) as nat, l as nat);
            } else if p + k + 1 == l {
                lemma_mod_self_0(l as int);
            } else {
                lemma_mod_sub_multiples_vanish(p + k + 1, l as int);
                lemma_small_mod((p + k + 1 - l) as nat, l as nat);
            }
        }
        idx = idx + 1;
        if idx == l {
            idx = 0;
        }
        k = k + 1;
    }
    proof {
        assert(rot.take(l as int) =~= rot);
    }
    content
}

/// Builds every context window of one line: for each content word, in
/// order, one window per occurrence of that word among the line's tokens.
pub fn build_windows(tokens: &Vec<String>, words: &Vec<String>) -> (r: Vec<Window>)
    ensures
        window_views(r@) == windows_for_words(views_of(tokens@), views_of(words@)),
{
    let ghost tv = views_of(tokens@);
    let ghost wv = views_of(words@);
    let mut out: Vec<Window> = Vec::new();
    let mut i: usize = 0;
    proof {
        assert(wv.take(0) =~= Seq::<Seq<char>>::empty());
        assert(window_views(out@) =~= Seq::<WindowModel>::empty());
    }
    while i < words.len()
        invariant
            tv == views_of(tokens@),
            wv == views_of(words@),
            i <= words@.len(),
            window_views(out@) == windows_for_words(tv, wv.take(i as int)),
        decreases words@.len() - i,
    {
        let w = &words[i];
        let ghost base = windows_for_words(tv, wv.take(i as int));
        let mut j: usize = 0;
        proof {
            assert(positions_upto(tv, w@, 0).map_values(|p: int| window_at(tv, p)) =~= Seq::<
                WindowModel,
            >::empty());
            assert(window_views(out@) =~= base + positions_upto(tv, w@, 0).map_values(
                |p: int| window_at(tv, p),
            ));
        }
        while j < tokens.len()
            invariant
                tv == views_of(tokens@),
                j <= tokens@.len(),
                window_views(out@) == base + positions_upto(tv, w@, j as int).map_values(
                    |p: int| window_at(tv, p),
                ),
            decreases tokens@.len() - j,
        {
            let ghost prev = positions_upto(tv, w@, j as int);
            if tokens[j] == *w {
                let anchor = lowercase(w.as_str());
                let content = build_rotation(tokens, j);
                let win = Window { word: anchor, content };
                let ghost before = out@;
                proof {
                    assert(tv[j as int] == w@);
                    assert(win@ == window_at(tv, j as int));
                }
                out.push(win);
                proof {
                    assert(positions_upto(tv, w@, j + 1) == prev.push(j as int));
                    assert(window_views(out@) =~= window_views(before).push(win@));
                    assert(positions_upto(tv, w@, j + 1).map_values(|p: int| window_at(tv, p))
                        =~= prev.map_values(|p: int| window_at(tv, p)).push(
                        window_at(tv, j as int),
                    ));
                    assert(window_views(out@) =~= base + positions_upto(tv, w@, j + 1).map_values(
                        |p: int| window_at(tv, p),
                    ));
                }
            } else {
                proof {
                    assert(tv[j as int] == tokens@[j as int]@);
                    assert(tv[j as int] != w@);
                    assert(positions_upto(tv, w@, j + 1) == prev);
                }
            }
            j = j + 1;
        }
        proof {
            let next = wv.take(i + 1);
            assert(next.drop_last() =~= wv.take(i as int));
            assert(next.last() == wv[i as int]);
            assert(wv[i as int] == w@);
            assert(windows_for_words(tv, next) == base + windows_for_word(tv, w@));
        }
        i = i + 1;
    }
    proof {
        assert(wv.take(words@.len() as int) =~= wv);
    }
    out
}

} // verus!
