//! Tokenization, normalization and stop-word filtering.
//!
//! A raw line is normalized by keeping only alphanumeric characters and
//! spaces; the normalized line is split on spaces into tokens; the tokens
//! whose lowercase form is in the stop-word list are removed, leaving the
//! line's content words.

use vstd::prelude::*;

verus! {

/// Whether a character counts as alphanumeric, exactly as
/// `char::is_alphanumeric` decides it (a Unicode property table).
pub uninterp spec fn is_alnum(c: char) -> bool;

/// The lowercase form of a character sequence, exactly as
/// `str::to_lowercase` computes it (a Unicode mapping that depends on the
/// characters alone).
pub uninterp spec fn lower_of(s: Seq<char>) -> Seq<char>;

/// Whether a character counts as whitespace, exactly as
/// `char::is_whitespace` decides it (a Unicode property table).
pub uninterp spec fn is_ws(c: char) -> bool;

/// The number of whitespace characters at the front of the sequence.
pub open spec fn leading_ws(s: Seq<char>) -> int
    decreases s.len(),
{
    if s.len() == 0 || !is_ws(s[0]) {
        0
    } else {
        1 + leading_ws(s.drop_first())
    }
}

/// The number of whitespace characters at the back of the sequence.
pub open spec fn trailing_ws(s: Seq<char>) -> int
    decreases s.len(),
{
    if s.len() == 0 || !is_ws(s.last()) {
        0
    } else {
        1 + trailing_ws(s.drop_last())
    }
}

/// The sequence with its leading and trailing whitespace removed, as
/// `str::trim` computes it.
pub open spec fn trim_of(s: Seq<char>) -> Seq<char> {
    if leading_ws(s) == s.len() {
        Seq::<char>::empty()
    } else {
        s.subrange(leading_ws(s), s.len() - trailing_ws(s))
    }
}

/// Relies on `char::is_alphanumeric`: the result depends on the character
/// alone.
#[verifier::external_body]
fn is_alphanumeric_char(c: char) -> (r: bool)
    ensures
        r == is_alnum(c),
{
    c.is_alphanumeric()
}

/// Relies on `str::to_lowercase`: the result depends on the characters
/// alone, and an empty string stays empty.
#[verifier::external_body]
pub fn lowercase(s: &str) -> (r: String)
    ensures
        r@ == lower_of(s@),
        s@.len() == 0 ==> r@.len() == 0,
{
    s.to_lowercase()
}

/// Relies on `char::is_whitespace`: the result depends on the character
/// alone.
#[verifier::external_body]
fn is_whitespace_char(c: char) -> (r: bool)
    ensures
        r == is_ws(c),
{
    c.is_whitespace()
}

/// Everything below the leading count is whitespace, and the character at
/// it, when there is one, is not.
pub proof fn lemma_leading_ws_props(s: Seq<char>)
    ensures
        0 <= leading_ws(s) <= s.len(),
        forall|k: int| 0 <= k < leading_ws(s) ==> is_ws(#[trigger] s[k]),
        leading_ws(s) < s.len() ==> !is_ws(s[leading_ws(s)]),
    decreases s.len(),
{
    if s.len() > 0 && is_ws(s[0]) {
        lemma_leading_ws_props(s.drop_first());
        assert forall|k: int| 0 <= k < leading_ws(s) implies is_ws(#[trigger] s[k]) by {
            if k > 0 {
                assert(s.drop_first()[k - 1] == s[k]);
            }
        }
        if leading_ws(s) < s.len() {
            assert(s.drop_first()[leading_ws(s) - 1] == s[leading_ws(s)]);
        }
    }
}

/// Everything from the back up to the trailing count is whitespace, and the
/// character just before it, when there is one, is not.
pub proof fn lemma_trailing_ws_props(s: Seq<char>)
    ensures
        0 <= trailing_ws(s) <= s.len(),
        forall|k: int| s.len() - trailing_ws(s) <= k < s.len() ==> is_ws(#[trigger] s[k]),
        trailing_ws(s) < s.len() ==> !is_ws(s[s.len() - trailing_ws(s) - 1]),
    decreases s.len(),
{
    if s.len() > 0 && is_ws(s.last()) {
        lemma_trailing_ws_props(s.drop_last());
        assert forall|k: int| s.len() - trailing_ws(s) <= k < s.len() implies is_ws(
            #[trigger] s[k],
        ) by {
            if k < s.len() - 1 {
                assert(s.drop_last()[k] == s[k]);
            }
        }
        if trailing_ws(s) < s.len() {
            assert(s.drop_last()[s.len() - trailing_ws(s) - 1] == s[s.len() - trailing_ws(s) - 1]);
        }
    }
}

/// A position below which everything is whitespace and which is either the
/// end or a non-whitespace character is exactly the leading count.
pub proof fn lemma_leading_ws_is(s: Seq<char>, j: int)
    requires
        0 <= j <= s.len(),
        forall|k: int| 0 <= k < j ==> is_ws(#[trigger] s[k]),
        j == s.len() || !is_ws(s[j]),
    ensures
        leading_ws(s) == j,
    decreases s.len(),
{
    if j == 0 {
        if s.len() > 0 {
            assert(!is_ws(s[0]));
        }
    } else {
        assert(is_ws(s[0]));
        assert(forall|k: int| 0 <= k < j - 1 ==> #[trigger] s.drop_first()[k] == s[k + 1]);
        if j < s.len() {
            assert(s.drop_first()[j - 1] == s[j]);
        }
        lemma_leading_ws_is(s.drop_first(), j - 1);
    }
}

/// A position from which everything to the end is whitespace and which is
/// either the start or preceded by a non-whitespace character marks exactly
/// the trailing count.
pub proof fn lemma_trailing_ws_is(s: Seq<char>, e: int)
    requires
        0 <= e <= s.len(),
        forall|k: int| e <= k < s.len() ==> is_ws(#[trigger] s[k]),
        e == 0 || !is_ws(s[e - 1]),
    ensures
        trailing_ws(s) == s.len() - e,
    decreases s.len(),
{
    if e == s.len() {
        if s.len() > 0 {
            assert(!is_ws(s.last()));
        }
    } else {
        assert(is_ws(s.last()));
        assert(forall|k: int| 0 <= k < s.len() - 1 ==> #[trigger] s.drop_last()[k] == s[k]);
        lemma_trailing_ws_is(s.drop_last(), e);
    }
}

/// Surrounding whitespace never survives a trim: padding a sequence with
/// whitespace on either side leaves its trim exactly as it was.
pub proof fn lemma_trim_of_padded(a: Seq<char>, s: Seq<char>, b: Seq<char>)
    requires
        forall|k: int| 0 <= k < a.len() ==> is_ws(#[trigger] a[k]),
        forall|k: int| 0 <= k < b.len() ==> is_ws(#[trigger] b[k]),
    ensures
        trim_of(a + s + b) == trim_of(s),
{
    let p = a + s + b;
    let n = p.len() as int;
    lemma_leading_ws_props(s);
    lemma_trailing_ws_props(s);
    assert(forall|i: int| 0 <= i < s.len() ==> p[a.len() + i] == #[trigger] s[i]);
    assert(forall|i: int| 0 <= i < a.len() ==> p[i] == #[trigger] a[i]);
    assert(forall|i: int| 0 <= i < b.len() ==> p[a.len() + s.len() + i] == #[trigger] b[i]);
    if leading_ws(s) == s.len() {
        // the padded sequence is whitespace throughout, so both trims are empty
        assert forall|k: int| 0 <= k < n implies is_ws(#[trigger] p[k]) by {
            if k < a.len() {
                assert(p[k] == a[k]);
            } else if k < a.len() + s.len() {
                assert(p[k] == s[k - a.len()]);
            } else {
                assert(p[k] == b[k - a.len() - s.len()]);
            }
        }
        lemma_leading_ws_is(p, n);
    } else {
        let lead = leading_ws(s);
        let tail = trailing_ws(s);
        // the trailing run cannot cover the non-whitespace character at `lead`
        if s.len() - tail <= lead {
            assert(is_ws(s[lead]));
        }
        assert(lead + tail < s.len());
        let j = a.len() + lead;
        assert forall|k: int| 0 <= k < j implies is_ws(#[trigger] p[k]) by {
            if k < a.len() {
                assert(p[k] == a[k]);
            } else {
                assert(p[k] == s[k - a.len()]);
            }
        }
        assert(p[j] == s[lead]);
        lemma_leading_ws_is(p, j);
        let e = a.len() + s.len() - tail;
        assert forall|k: int| e <= k < n implies is_ws(#[trigger] p[k]) by {
            if k < a.len() + s.len() {
                assert(p[k] == s[k - a.len()]);
            } else {
                assert(p[k] == b[k - a.len() - s.len()]);
            }
        }
        assert(p[e - 1] == s[s.len() - tail - 1]);
        lemma_trailing_ws_is(p, e);
        assert(trim_of(p) =~= trim_of(s));
    }
}

/// Trims leading and trailing whitespace, as `str::trim` does.
pub fn trim(s: &str) -> (r: &str)
    ensures
        r@ == trim_of(s@),
{
    let n = s.unicode_len();
    let mut start: usize = 0;
    while start < n && is_whitespace_char(s.get_char(start))
        invariant
            n == s@.len(),
            start <= n,
            forall|k: int| 0 <= k < start ==> is_ws(#[trigger] s@[k]),
        decreases n - start,
    {
        start = start + 1;
    }
    proof {
        lemma_leading_ws_is(s@, start as int);
    }
    if start == n {
        let empty = "";
        proof {
            reveal_strlit("");
            assert(empty@ =~= Seq::<char>::empty());
        }
        return empty;
    }
    let mut end: usize = n;
    while end > start && is_whitespace_char(s.get_char(end - 1))
        invariant
            n == s@.len(),
            start < n,
            !is_ws(s@[start as int]),
            start <= end <= n,
            forall|k: int| end <= k < n ==> is_ws(#[trigger] s@[k]),
        decreases end,
    {
        end = end - 1;
    }
    proof {
        if end == start {
            assert(is_ws(s@[start as int]));
        }
        assert(end > start);
        assert(!is_ws(s@[end - 1]));
        lemma_trailing_ws_is(s@, end as int);
        assert(trim_of(s@) == s@.subrange(start as int, end as int));
    }
    s.substring_char(start, end)
}

/// Relies on `String: FromIterator<char>`: collecting characters yields the
/// string of exactly those characters, so the result's view is the vector's.
#[verifier::external_body]
fn string_from_chars(v: &Vec<char>) -> (r: String)
    ensures
        r@ == v@,
{
    v.iter().collect()
}

/// A character survives normalization when it is alphanumeric or a space.
pub open spec fn keeps_char(c: char) -> bool {
    is_alnum(c) || c == ' '
}

/// The normalized form of a raw line: every character that is neither
/// alphanumeric nor a space is removed; case is preserved.
pub open spec fn normalize(s: Seq<char>) -> Seq<char> {
    s.filter(|c: char| keeps_char(c))
}

/// Normalizes one raw line: keeps only alphanumeric characters and spaces.
pub fn normalize_line(line: &str) -> (r: String)
    ensures
        r@ == normalize(line@),
{
    let n = line.unicode_len();
    let mut kept: Vec<char> = Vec::new();
    let mut i: usize = 0;
    proof {
        reveal(Seq::filter);
        assert(line@.take(0) =~= Seq::<char>::empty());
    }
    while i < n
        invariant
            n == line@.len(),
            i <= n,
            kept@ == normalize(line@.take(i as int)),
        decreases n - i,
    {
        let c = line.get_char(i);
        if is_alphanumeric_char(c) || c == ' ' {
            kept.push(c);
        }
        proof {
            reveal(Seq::filter);
            assert(line@.take(i + 1).drop_last() =~= line@.take(i as int));
            assert(line@.take(i + 1).last() == line@[i as int]);
        }
        i = i + 1;
    }
    proof {
        assert(line@.take(n as int) =~= line@);
    }
    string_from_chars(&kept)
}

/// The views of a sequence of strings.
pub open spec fn views_of(ss: Seq<String>) -> Seq<Seq<char>> {
    ss.map_values(|s: String| s@)
}

/// One step of splitting on spaces: the accumulator holds the finished
/// tokens and the token currently being read.
pub open spec fn split_step(acc: (Seq<Seq<char>>, Seq<char>), c: char) -> (Seq<Seq<char>>, Seq<
    char,
>) {
    if c == ' ' {
        if acc.1.len() > 0 {
            (acc.0.push(acc.1), Seq::<char>::empty())
        } else {
            acc
        }
    } else {
        (acc.0, acc.1.push(c))
    }
}

/// The state after splitting the whole sequence on spaces, left to right.
pub open spec fn split_state(s: Seq<char>) -> (Seq<Seq<char>>, Seq<char>)
    decreases s.len(),
{
    if s.len() == 0 {
        (Seq::<Seq<char>>::empty(), Seq::<char>::empty())
    } else {
        split_step(split_state(s.drop_last()), s.last())
    }
}

/// The tokens of a line: the maximal runs of non-space characters, in order.
pub open spec fn tokens_of(s: Seq<char>) -> Seq<Seq<char>> {
    let st = split_state(s);
    if st.1.len() > 0 {
        st.0.push(st.1)
    } else {
        st.0
    }
}

/// Splits a line on spaces into its tokens, dropping empty runs.
pub fn split_tokens(line: &str) -> (r: Vec<String>)
    ensures
        views_of(r@) == tokens_of(line@),
{
    let n = line.unicode_len();
    let mut out: Vec<String> = Vec::new();
    let mut cur: Vec<char> = Vec::new();
    let mut i: usize = 0;
    proof {
        assert(line@.take(0) =~= Seq::<char>::empty());
        assert(views_of(out@) =~= Seq::<Seq<char>>::empty());
    }
    while i < n
        invariant
            n == line@.len(),
            i <= n,
            (views_of(out@), cur@) == split_state(line@.take(i as int)),
        decreases n - i,
    {
        let c = line.get_char(i);
        let ghost prev = split_state(line@.take(i as int));
        if c == ' ' {
            if cur.len() > 0 {
                let token = string_from_chars(&cur);
                out.push(token);
                cur.clear();
                proof {
                    assert(views_of(out@) =~= prev.0.push(token@));
                }
            }
        } else {
            cur.push(c);
        }
        proof {
            assert(line@.take(i + 1).drop_last() =~= line@.take(i as int));
            assert(line@.take(i + 1).last() == line@[i as int]);
        }
        i = i + 1;
    }
    proof {
        assert(line@.take(n as int) =~= line@);
    }
    if cur.len() > 0 {
        let token = string_from_chars(&cur);
        out.push(token);
        proof {
            assert(views_of(out@) =~= split_state(line@).0.push(token@));
        }
    }
    out
}

/// The content words of a token sequence: the ordered subsequence of tokens
/// whose lowercase form is not a stop word. Repeated tokens stay repeated.
pub open spec fn content_words(tokens: Seq<Seq<char>>, stops: Seq<Seq<char>>) -> Seq<Seq<char>> {
    tokens.filter(|t: Seq<char>| !stops.contains(lower_of(t)))
}

/// Whether one of the strings in `v` has view `x`.
fn contains_string(v: &Vec<String>, s: &String) -> (r: bool)
    ensures
        r == views_of(v@).contains(s@),
{
    let mut j: usize = 0;
    while j < v.len()
        invariant
            j <= v.len(),
            forall|k: int| 0 <= k < j ==> v@[k]@ != s@,
        decreases v.len() - j,
    {
        if v[j] == *s {
            proof {
                assert(views_of(v@)[j as int] == s@);
            }
            return true;
        }
        j = j + 1;
    }
    proof {
        assert forall|k: int| 0 <= k < views_of(v@).len() implies views_of(v@)[k] != s@ by {
            assert(v@[k]@ != s@);
        }
    }
    false
}

/// Removes from `string` every token whose lowercase form appears in
/// `stop_words`; the surviving tokens keep their order and multiplicity.
/// With an empty stop-word list the tokens come back unchanged.
pub fn remove_stop_words(string: &Vec<String>, stop_words: &Vec<String>) -> (r: Vec<String>)
    ensures
        views_of(r@) == content_words(views_of(string@), views_of(stop_words@)),
{
    let ghost stops = views_of(stop_words@);
    let ghost pred = |t: Seq<char>| !stops.contains(lower_of(t));
    let mut out: Vec<String> = Vec::new();
    let mut i: usize = 0;
    proof {
        reveal(Seq::filter);
        assert(views_of(string@).take(0) =~= Seq::<Seq<char>>::empty());
        assert(views_of(out@) =~= Seq::<Seq<char>>::empty());
    }
    while i < string.len()
        invariant
            i <= string.len(),
            stops == views_of(stop_words@),
            pred == (|t: Seq<char>| !stops.contains(lower_of(t))),
            views_of(out@) == views_of(string@).take(i as int).filter(pred),
        decreases string.len() - i,
    {
        let ghost seen = views_of(string@).take(i as int);
        let word = &string[i];
        let lw = lowercase(word.as_str());
        let is_stop = contains_string(stop_words, &lw);
        if !is_stop {
            let kept = word.clone();
            out.push(kept);
        }
        proof {
            reveal(Seq::filter);
            let next = views_of(string@).take(i + 1);
            assert(next.drop_last() =~= seen);
            assert(next.last() == string@[i as int]@);
            if !pred(string@[i as int]@) {
                assert(views_of(out@) =~= next.filter(pred));
            } else {
                assert(views_of(out@) =~= seen.filter(pred).push(string@[i as int]@));
            }
        }
        i = i + 1;
    }
    proof {
        assert(views_of(string@).take(string@.len() as int) =~= views_of(string@));
    }
    out
}

} // verus!
