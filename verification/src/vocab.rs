//! The vocabulary: a token-to-index mapping with per-token document
//! frequency, built by counting each token at most once per document,
//! ranked by document frequency, and capped to a configured size.

use vstd::prelude::*;

use crate::sanitize::{str_eq, str_views};

verus! {

/// One counted token: its text and the number of documents it appears in.
pub struct TokenEntry {
    pub token: String,
    pub doc_freq: usize,
}

impl TokenEntry {
    pub open spec fn view(&self) -> (Seq<char>, nat) {
        (self.token@, self.doc_freq as nat)
    }

    pub fn duplicate(&self) -> (r: TokenEntry)
        ensures
            r.view() == self.view(),
    {
        TokenEntry { token: self.token.clone(), doc_freq: self.doc_freq }
    }
}

/// The mathematical content of a list of entries.
pub open spec fn entry_views(es: Seq<TokenEntry>) -> Seq<(Seq<char>, nat)> {
    es.map_values(|e: TokenEntry| e.view())
}

/// The position of the first entry holding token `t`, or -1.
pub open spec fn index_of_token(m: Seq<(Seq<char>, nat)>, t: Seq<char>) -> int
    decreases m.len(),
{
    if m.len() == 0 {
        -1
    } else if m[0].0 == t {
        0
    } else {
        let r = index_of_token(m.drop_first(), t);
        if r < 0 {
            -1
        } else {
            r + 1
        }
    }
}

pub open spec fn has_token(m: Seq<(Seq<char>, nat)>, t: Seq<char>) -> bool {
    index_of_token(m, t) >= 0
}

/// The document frequency recorded for `t`; 0 when `t` is absent.
pub open spec fn freq_of(m: Seq<(Seq<char>, nat)>, t: Seq<char>) -> nat {
    if has_token(m, t) {
        m[index_of_token(m, t)].1
    } else {
        0
    }
}

/// No two entries share a token.
pub open spec fn distinct_tokens(m: Seq<(Seq<char>, nat)>) -> bool {
    forall|i: int, j: int| 0 <= i < j < m.len() ==> m[i].0 != m[j].0
}

pub proof fn lemma_index_of_token(m: Seq<(Seq<char>, nat)>, t: Seq<char>)
    ensures
        index_of_token(m, t) >= 0 ==> index_of_token(m, t) < m.len() && m[index_of_token(m, t)].0
            == t,
        forall|j: int| 0 <= j < index_of_token(m, t) ==> m[j].0 != t,
        !has_token(m, t) ==> forall|j: int| 0 <= j < m.len() ==> m[j].0 != t,
    decreases m.len(),
{
    if m.len() > 0 {
        lemma_index_of_token(m.drop_first(), t);
        if m[0].0 != t {
            assert forall|j: int| 0 <= j < index_of_token(m, t) implies m[j].0 != t by {
                if j > 0 {
                    assert(m.drop_first()[j - 1] == m[j]);
                }
            }
            if !has_token(m, t) {
                assert forall|j: int| 0 <= j < m.len() implies m[j].0 != t by {
                    if j > 0 {
                        assert(m.drop_first()[j - 1] == m[j]);
                    }
                }
            }
        }
    }
}

/// If some entry holds `t`, a first one does.
pub proof fn lemma_has_token_witness(m: Seq<(Seq<char>, nat)>, t: Seq<char>, i: int)
    requires
        0 <= i < m.len(),
        m[i].0 == t,
    ensures
        has_token(m, t),
{
    lemma_index_of_token(m, t);
}

/// The first entry holding `t` gets one more document counted.
pub open spec fn bump_token(m: Seq<(Seq<char>, nat)>, t: Seq<char>) -> Seq<(Seq<char>, nat)> {
    let i = index_of_token(m, t);
    m.update(i, (t, (m[i].1 + 1) as nat))
}

/// The counts after the first `j` tokens of one document have been folded
/// in: a token counts only at its first occurrence within the document.
pub open spec fn count_tokens(
    m: Seq<(Seq<char>, nat)>,
    toks: Seq<Seq<char>>,
    j: int,
) -> Seq<(Seq<char>, nat)>
    decreases j,
{
    if j <= 0 {
        m
    } else {
        let prev = count_tokens(m, toks, j - 1);
        let t = toks[j - 1];
        if toks.subrange(0, j - 1).contains(t) {
            prev
        } else if has_token(prev, t) {
            bump_token(prev, t)
        } else {
            prev + seq![(t, 1nat)]
        }
    }
}

pub open spec fn count_line_spec(
    m: Seq<(Seq<char>, nat)>,
    toks: Seq<Seq<char>>,
) -> Seq<(Seq<char>, nat)> {
    count_tokens(m, toks, toks.len() as int)
}

/// The counts over the first `k` documents.
pub open spec fn count_corpus(docs: Seq<Seq<Seq<char>>>, k: int) -> Seq<(Seq<char>, nat)>
    decreases k,
{
    if k <= 0 {
        Seq::empty()
    } else {
        count_line_spec(count_corpus(docs, k - 1), docs[k - 1])
    }
}

/// The raw token counts of a whole corpus, keyed by token, in order of first
/// appearance, each token counted at most once per document.
pub open spec fn corpus_counts(docs: Seq<Seq<Seq<char>>>) -> Seq<(Seq<char>, nat)> {
    count_corpus(docs, docs.len() as int)
}

/// The number of documents among the first `k` that contain `t`.
pub open spec fn doc_frequency(docs: Seq<Seq<Seq<char>>>, t: Seq<char>, k: int) -> nat
    decreases k,
{
    if k <= 0 {
        0
    } else {
        doc_frequency(docs, t, k - 1) + (if docs[k - 1].contains(t) {
            1nat
        } else {
            0nat
        })
    }
}

/// Entry positions depend only on the token fields.
pub proof fn lemma_index_same_tokens(
    m1: Seq<(Seq<char>, nat)>,
    m2: Seq<(Seq<char>, nat)>,
    t: Seq<char>,
)
    requires
        m1.len() == m2.len(),
        forall|x: int| 0 <= x < m1.len() ==> m1[x].0 == m2[x].0,
    ensures
        index_of_token(m1, t) == index_of_token(m2, t),
    decreases m1.len(),
{
    if m1.len() > 0 {
        assert forall|x: int| 0 <= x < m1.len() - 1 implies m1.drop_first()[x].0
            == m2.drop_first()[x].0 by {}
        lemma_index_same_tokens(m1.drop_first(), m2.drop_first(), t);
    }
}

pub proof fn lemma_index_of_first(m: Seq<(Seq<char>, nat)>, t: Seq<char>, i: int)
    requires
        0 <= i < m.len(),
        m[i].0 == t,
        forall|j: int| 0 <= j < i ==> m[j].0 != t,
    ensures
        index_of_token(m, t) == i,
    decreases m.len(),
{
    if i > 0 {
        assert forall|j: int| 0 <= j < i - 1 implies m.drop_first()[j].0 != t by {}
        lemma_index_of_first(m.drop_first(), t, i - 1);
    }
}

pub proof fn lemma_index_append(m: Seq<(Seq<char>, nat)>, e: (Seq<char>, nat), t: Seq<char>)
    ensures
        has_token(m, t) ==> index_of_token(m + seq![e], t) == index_of_token(m, t),
        !has_token(m, t) && e.0 == t ==> index_of_token(m + seq![e], t) == m.len(),
        !has_token(m, t) && e.0 != t ==> !has_token(m + seq![e], t),
    decreases m.len(),
{
    lemma_index_of_token(m, t);
    if has_token(m, t) {
        lemma_index_of_first(m + seq![e], t, index_of_token(m, t));
    } else if e.0 == t {
        lemma_index_of_first(m + seq![e], t, m.len() as int);
    } else {
        lemma_index_of_token(m + seq![e], t);
        if has_token(m + seq![e], t) {
            let i = index_of_token(m + seq![e], t);
            assert((m + seq![e])[i].0 == t);
            if i < m.len() {
                lemma_has_token_witness(m, t, i);
            }
        }
    }
}

/// What one bump does to every token's recorded count.
pub proof fn lemma_bump(m: Seq<(Seq<char>, nat)>, t: Seq<char>, t0: Seq<char>)
    requires
        has_token(m, t),
    ensures
        bump_token(m, t).len() == m.len(),
        forall|x: int| 0 <= x < m.len() ==> bump_token(m, t)[x].0 == m[x].0,
        has_token(bump_token(m, t), t0) == has_token(m, t0),
        t0 == t ==> freq_of(bump_token(m, t), t0) == freq_of(m, t0) + 1,
        t0 != t ==> freq_of(bump_token(m, t), t0) == freq_of(m, t0),
{
    lemma_index_of_token(m, t);
    let i = index_of_token(m, t);
    let b = bump_token(m, t);
    assert(b[i].0 == t);
    assert forall|x: int| 0 <= x < m.len() implies b[x].0 == m[x].0 by {}
    lemma_index_same_tokens(m, b, t0);
    lemma_index_of_token(m, t0);
    lemma_index_of_token(b, t0);
}

/// Counting a document changes exactly the tokens that occur in it, each by
/// one, and brings in exactly the new ones.
pub proof fn lemma_count_tokens(
    m: Seq<(Seq<char>, nat)>,
    toks: Seq<Seq<char>>,
    j: int,
    t0: Seq<char>,
)
    requires
        0 <= j <= toks.len(),
    ensures
        has_token(count_tokens(m, toks, j), t0) == (has_token(m, t0) || toks.subrange(
            0,
            j,
        ).contains(t0)),
        freq_of(count_tokens(m, toks, j), t0) == freq_of(m, t0) + (if toks.subrange(0, j).contains(
            t0,
        ) {
            1nat
        } else {
            0nat
        }),
    decreases j,
{
    if j > 0 {
        lemma_count_tokens(m, toks, j - 1, t0);
        let prev = count_tokens(m, toks, j - 1);
        let t = toks[j - 1];
        let pre = toks.subrange(0, j - 1);
        let cur = toks.subrange(0, j);
        assert(cur.drop_last() =~= pre);
        assert(cur.last() == t);
        assert(cur.contains(t0) == (pre.contains(t0) || t0 == t)) by {
            if cur.contains(t0) {
                let w = choose|w: int| 0 <= w < cur.len() && cur[w] == t0;
                if w < j - 1 {
                    assert(pre[w] == t0);
                }
            }
            if pre.contains(t0) {
                let w = choose|w: int| 0 <= w < pre.len() && pre[w] == t0;
                assert(cur[w] == t0);
            }
            if t0 == t {
                assert(cur[j - 1] == t0);
            }
        }
        if pre.contains(t) {
            // the token was already counted for this document
        } else if has_token(prev, t) {
            lemma_bump(prev, t, t0);
        } else {
            lemma_index_append(prev, (t, 1nat), t0);
            lemma_index_of_token(prev, t0);
            lemma_index_of_token(prev + seq![(t, 1nat)], t0);
        }
    } else {
        assert(!toks.subrange(0, 0).contains(t0));
    }
}

/// Counting keeps entries' tokens distinct.
pub proof fn lemma_count_tokens_distinct(m: Seq<(Seq<char>, nat)>, toks: Seq<Seq<char>>, j: int)
    requires
        0 <= j <= toks.len(),
        distinct_tokens(m),
    ensures
        distinct_tokens(count_tokens(m, toks, j)),
    decreases j,
{
    if j > 0 {
        lemma_count_tokens_distinct(m, toks, j - 1);
        let prev = count_tokens(m, toks, j - 1);
        let t = toks[j - 1];
        if toks.subrange(0, j - 1).contains(t) {
        } else if has_token(prev, t) {
            lemma_bump(prev, t, t);
            let b = bump_token(prev, t);
            assert forall|x: int, y: int| 0 <= x < y < b.len() implies b[x].0 != b[y].0 by {
                assert(b[x].0 == prev[x].0 && b[y].0 == prev[y].0);
            }
        } else {
            lemma_index_of_token(prev, t);
            let a = prev + seq![(t, 1nat)];
            assert forall|x: int, y: int| 0 <= x < y < a.len() implies a[x].0 != a[y].0 by {
                if y < prev.len() {
                    assert(a[x].0 == prev[x].0 && a[y].0 == prev[y].0);
                } else {
                    assert(a[y].0 == t && a[x].0 == prev[x].0);
                }
            }
        }
    }
}

/// Over a whole corpus the recorded count of every token equals its document
/// frequency: the number of documents containing it, never more than `k`.
pub proof fn lemma_corpus_counts(docs: Seq<Seq<Seq<char>>>, k: int, t0: Seq<char>)
    requires
        0 <= k <= docs.len(),
    ensures
        has_token(count_corpus(docs, k), t0) == (exists|d: int|
            0 <= d < k && (#[trigger] docs[d]).contains(t0)),
        freq_of(count_corpus(docs, k), t0) == doc_frequency(docs, t0, k),
        doc_frequency(docs, t0, k) <= k,
    decreases k,
{
    if k > 0 {
        lemma_corpus_counts(docs, k - 1, t0);
        let toks = docs[k - 1];
        assert(toks.subrange(0, toks.len() as int) =~= toks);
        lemma_count_tokens(count_corpus(docs, k - 1), toks, toks.len() as int, t0);
        if has_token(count_corpus(docs, k), t0) && !toks.contains(t0) {
            let d = choose|d: int| 0 <= d < k - 1 && (#[trigger] docs[d]).contains(t0);
            assert(0 <= d < k && docs[d].contains(t0));
        }
    }
}

pub proof fn lemma_corpus_counts_distinct(docs: Seq<Seq<Seq<char>>>, k: int)
    requires
        0 <= k <= docs.len(),
    ensures
        distinct_tokens(count_corpus(docs, k)),
    decreases k,
{
    if k > 0 {
        lemma_corpus_counts_distinct(docs, k - 1);
        let toks = docs[k - 1];
        assert(toks.subrange(0, toks.len() as int) =~= toks);
        lemma_count_tokens_distinct(count_corpus(docs, k - 1), toks, toks.len() as int);
    }
}

/// With distinct tokens, every entry stands at its token's first position.
pub proof fn lemma_distinct_positions(m: Seq<(Seq<char>, nat)>)
    requires
        distinct_tokens(m),
    ensures
        forall|x: int| 0 <= x < m.len() ==> index_of_token(m, (#[trigger] m[x]).0) == x,
{
    assert forall|x: int| 0 <= x < m.len() implies index_of_token(m, (#[trigger] m[x]).0)
        == x by {
        lemma_index_of_first(m, m[x].0, x);
    }
}

/// The first entry whose token reads `t`, if any.
pub fn find_token(m: &Vec<TokenEntry>, t: &str) -> (r: Option<usize>)
    ensures
        match r {
            Some(i) => 0 <= i < m@.len() && index_of_token(entry_views(m@), t@) == i,
            None => !has_token(entry_views(m@), t@),
        },
{
    let n = m.len();
    for i in 0..n
        invariant
            n == m@.len(),
            forall|j: int| 0 <= j < i ==> entry_views(m@)[j].0 != t@,
    {
        if str_eq(m[i].token.as_str(), t) {
            proof {
                assert(entry_views(m@)[i as int].0 == t@);
                lemma_index_of_first(entry_views(m@), t@, i as int);
            }
            return Some(i);
        }
        assert(entry_views(m@)[i as int].0 != t@);
    }
    proof {
        lemma_index_of_token(entry_views(m@), t@);
        if has_token(entry_views(m@), t@) {
            let i = index_of_token(entry_views(m@), t@);
            assert(entry_views(m@)[i].0 == t@);
        }
    }
    None
}

/// Folds one document's tokens into the counts, counting each distinct token
/// of the document once.
pub fn count_line(m: &mut Vec<TokenEntry>, toks: &Vec<String>)
    requires
        forall|x: int| 0 <= x < old(m)@.len() ==> (#[trigger] old(m)@[x]).doc_freq < usize::MAX,
    ensures
        entry_views(final(m)@) == count_line_spec(entry_views(old(m)@), str_views(toks@)),
{
    let ghost m0 = entry_views(old(m)@);
    let ghost tv = str_views(toks@);
    let n = toks.len();
    for j in 0..n
        invariant
            n == toks@.len(),
            tv == str_views(toks@),
            m0 == entry_views(old(m)@),
            forall|x: int| 0 <= x < m0.len() ==> (#[trigger] m0[x]).1 < usize::MAX,
            entry_views(m@) =~= count_tokens(m0, tv, j as int),
    {
        let ghost prev = entry_views(m@);
        let t = &toks[j];
        let mut seen = false;
        for p in 0..j
            invariant
                n == toks@.len(),
                tv == str_views(toks@),
                j < n,
                seen ==> tv.subrange(0, j as int).contains(tv[j as int]),
                !seen ==> forall|q: int| 0 <= q < p ==> tv[q] != tv[j as int],
        {
            if str_eq(toks[p].as_str(), toks[j].as_str()) {
                proof {
                    assert(tv[p as int] == toks@[p as int]@);
                    assert(tv[j as int] == toks@[j as int]@);
                    assert(tv.subrange(0, j as int)[p as int] == tv[j as int]);
                }
                seen = true;
            } else {
                proof {
                    assert(tv[p as int] == toks@[p as int]@);
                    assert(tv[j as int] == toks@[j as int]@);
                }
            }
        }
        proof {
            if !seen {
                let ghost tj = tv[j as int];
                assert forall|q: int| 0 <= q < j implies tv.subrange(0, j as int)[q] != tj by {}
                assert(!tv.subrange(0, j as int).contains(tv[j as int]));
            }
        }
        if !seen {
            match find_token(m, t.as_str()) {
                Some(i) => {
                    proof {
                        lemma_index_of_token(prev, tv[j as int]);
                        lemma_count_tokens(m0, tv, j as int, tv[j as int]);
                        lemma_index_of_token(m0, tv[j as int]);
                        assert(prev[i as int].0 == tv[j as int]);
                        assert(prev[i as int].1 == freq_of(prev, tv[j as int]));
                        assert(freq_of(prev, tv[j as int]) == freq_of(m0, tv[j as int]));
                        assert(entry_views(m@)[i as int].1 == prev[i as int].1);
                        assert(m@[i as int].doc_freq < usize::MAX);
                    }
                    let ghost pre_vec = m@;
                    m[i].doc_freq = m[i].doc_freq + 1;
                    proof {
                        assert(m@[i as int].token@ == prev[i as int].0);
                        assert(entry_views(m@) =~= bump_token(prev, tv[j as int]));
                    }
                },
                None => {
                    m.push(TokenEntry { token: t.clone(), doc_freq: 1 });
                    proof {
                        assert(entry_views(m@) =~= prev + seq![(tv[j as int], 1nat)]);
                    }
                },
            }
        }
        proof {
            assert(entry_views(m@) =~= count_tokens(m0, tv, j + 1 as int));
        }
    }
    proof {
        assert(count_tokens(m0, tv, n as int) == count_line_spec(m0, tv));
    }
}

/// `e` placed into a run-sorted list: it moves left past entries with a
/// strictly smaller count, so equal counts keep their earlier order.
pub open spec fn insert_ranked(
    sorted: Seq<(Seq<char>, nat)>,
    e: (Seq<char>, nat),
) -> Seq<(Seq<char>, nat)>
    decreases sorted.len(),
{
    if sorted.len() == 0 {
        seq![e]
    } else if sorted.last().1 < e.1 {
        insert_ranked(sorted.drop_last(), e) + seq![sorted.last()]
    } else {
        sorted + seq![e]
    }
}

/// The entries ordered by document frequency, highest first, ties kept in
/// their original order: a stable ranking.
pub open spec fn ranked(m: Seq<(Seq<char>, nat)>) -> Seq<(Seq<char>, nat)>
    decreases m.len(),
{
    if m.len() == 0 {
        Seq::empty()
    } else {
        insert_ranked(ranked(m.drop_last()), m.last())
    }
}

/// Inserting splits the list at one point.
pub proof fn lemma_insert_ranked_shape(s: Seq<(Seq<char>, nat)>, e: (Seq<char>, nat))
    ensures
        exists|k: int|
            0 <= k <= s.len() && insert_ranked(s, e) =~= s.subrange(0, k) + seq![e] + s.subrange(
                k,
                s.len() as int,
            ),
    decreases s.len(),
{
    if s.len() == 0 {
        assert(insert_ranked(s, e) =~= s.subrange(0, 0) + seq![e] + s.subrange(0, 0));
    } else if s.last().1 < e.1 {
        lemma_insert_ranked_shape(s.drop_last(), e);
        let k = choose|k: int|
            0 <= k <= s.len() - 1 && insert_ranked(s.drop_last(), e) =~= s.drop_last().subrange(
                0,
                k,
            ) + seq![e] + s.drop_last().subrange(k, s.len() - 1);
        assert(s.drop_last().subrange(0, k) =~= s.subrange(0, k));
        assert((s.drop_last().subrange(0, k) + seq![e] + s.drop_last().subrange(k, s.len() - 1))
            + seq![s.last()] =~= s.subrange(0, k) + seq![e] + s.subrange(k, s.len() as int));
        assert(insert_ranked(s, e) =~= s.subrange(0, k) + seq![e] + s.subrange(k, s.len() as int));
    } else {
        assert(s.subrange(0, s.len() as int) =~= s);
        assert(s.subrange(s.len() as int, s.len() as int) =~= Seq::<(Seq<char>, nat)>::empty());
        assert(insert_ranked(s, e) =~= s.subrange(0, s.len() as int) + seq![e] + s.subrange(
            s.len() as int,
            s.len() as int,
        ));
    }
}

/// Ranking permutes the entries: same length, same members, tokens stay
/// distinct.
pub proof fn lemma_ranked_props(m: Seq<(Seq<char>, nat)>)
    requires
        distinct_tokens(m),
    ensures
        ranked(m).len() == m.len(),
        forall|p: int| 0 <= p < m.len() ==> m.contains(#[trigger] ranked(m)[p]),
        forall|q: int| 0 <= q < m.len() ==> ranked(m).contains(#[trigger] m[q]),
        distinct_tokens(ranked(m)),
    decreases m.len(),
{
    if m.len() > 0 {
        let dl = m.drop_last();
        assert(distinct_tokens(dl)) by {
            assert forall|i: int, j: int| 0 <= i < j < dl.len() implies dl[i].0 != dl[j].0 by {
                assert(dl[i] == m[i] && dl[j] == m[j]);
            }
        }
        lemma_ranked_props(dl);
        let r0 = ranked(dl);
        let e = m.last();
        lemma_insert_ranked_shape(r0, e);
        let k = choose|k: int|
            0 <= k <= r0.len() && insert_ranked(r0, e) =~= r0.subrange(0, k) + seq![e]
                + r0.subrange(k, r0.len() as int);
        let r = ranked(m);
        assert(r.len() == m.len());
        assert forall|p: int| 0 <= p < m.len() implies m.contains(#[trigger] r[p]) by {
            if p < k {
                assert(r[p] == r0[p]);
                let q = choose|q: int| 0 <= q < dl.len() && dl[q] == r0[p];
                assert(m[q] == r0[p]);
            } else if p == k {
                assert(r[p] == e);
                assert(m[m.len() - 1] == e);
            } else {
                assert(r[p] == r0[p - 1]);
                let q = choose|q: int| 0 <= q < dl.len() && dl[q] == r0[p - 1];
                assert(m[q] == r0[p - 1]);
            }
        }
        assert forall|q: int| 0 <= q < m.len() implies r.contains(#[trigger] m[q]) by {
            if q < m.len() - 1 {
                assert(dl[q] == m[q]);
                assert(r0.contains(m[q]));
                let p = choose|p: int| 0 <= p < r0.len() && r0[p] == m[q];
                if p < k {
                    assert(r[p] == m[q]);
                } else {
                    assert(r[p + 1] == m[q]);
                }
            } else {
                assert(r[k] == m[q]);
            }
        }
        // every entry of r0 carries a token from dl, so e's token is fresh
        assert forall|p: int| 0 <= p < r0.len() implies r0[p].0 != e.0 by {
            let q = choose|q: int| 0 <= q < dl.len() && dl[q] == r0[p];
            assert(m[q].0 != m[m.len() - 1].0);
        }
        assert forall|i: int, j: int| 0 <= i < j < r.len() implies r[i].0 != r[j].0 by {
            if i < k && j < k {
                assert(r[i] == r0[i] && r[j] == r0[j]);
            } else if i < k && j == k {
                assert(r[i] == r0[i] && r[j] == e);
            } else if i < k && j > k {
                assert(r[i] == r0[i] && r[j] == r0[j - 1]);
            } else if i == k {
                assert(r[i] == e && r[j] == r0[j - 1]);
            } else {
                assert(r[i] == r0[i - 1] && r[j] == r0[j - 1]);
            }
        }
    }
}

/// Frequencies never increase along the list.
pub open spec fn sorted_by_freq(m: Seq<(Seq<char>, nat)>) -> bool {
    forall|i: int, j: int| 0 <= i <= j < m.len() ==> m[i].1 >= m[j].1
}

proof fn lemma_insert_ranked_sorted(s: Seq<(Seq<char>, nat)>, e: (Seq<char>, nat))
    requires
        sorted_by_freq(s),
    ensures
        sorted_by_freq(insert_ranked(s, e)),
    decreases s.len(),
{
    if s.len() == 0 {
    } else if s.last().1 < e.1 {
        let dl = s.drop_last();
        assert(sorted_by_freq(dl)) by {
            assert forall|i: int, j: int| 0 <= i <= j < dl.len() implies dl[i].1 >= dl[j].1 by {
                assert(dl[i] == s[i] && dl[j] == s[j]);
            }
        }
        lemma_insert_ranked_sorted(dl, e);
        lemma_insert_ranked_shape(dl, e);
        let k = choose|k: int|
            0 <= k <= dl.len() && insert_ranked(dl, e) =~= dl.subrange(0, k) + seq![e]
                + dl.subrange(k, dl.len() as int);
        let r = insert_ranked(s, e);
        assert forall|i: int, j: int| 0 <= i <= j < r.len() implies r[i].1 >= r[j].1 by {
            if j < r.len() - 1 {
                assert(r[i] == insert_ranked(dl, e)[i] && r[j] == insert_ranked(dl, e)[j]);
            } else if i < r.len() - 1 {
                assert(r[j] == s.last());
                assert(r[i] == insert_ranked(dl, e)[i]);
                // every entry ahead of the moved last one outranks it
                if i < k {
                    assert(insert_ranked(dl, e)[i] == dl[i]);
                    assert(dl[i] == s[i]);
                } else if i == k {
                    assert(insert_ranked(dl, e)[i] == e);
                } else {
                    assert(insert_ranked(dl, e)[i] == dl[i - 1]);
                    assert(dl[i - 1] == s[i - 1]);
                }
            }
        }
    } else {
        let r = insert_ranked(s, e);
        assert forall|i: int, j: int| 0 <= i <= j < r.len() implies r[i].1 >= r[j].1 by {
            if j < s.len() {
                assert(r[i] == s[i] && r[j] == s[j]);
            } else if i < s.len() {
                assert(r[i] == s[i] && r[j] == e);
                assert(s[i].1 >= s[s.len() - 1].1);
            }
        }
    }
}

/// The ranking really ranks: along the ranked list, document frequencies
/// never increase, so a positive cap keeps tokens of maximal document
/// frequency.
pub proof fn lemma_ranked_sorted(m: Seq<(Seq<char>, nat)>)
    ensures
        sorted_by_freq(ranked(m)),
    decreases m.len(),
{
    if m.len() > 0 {
        lemma_ranked_sorted(m.drop_last());
        lemma_insert_ranked_sorted(ranked(m.drop_last()), m.last());
    }
}

/// The sentinel text standing for tokens outside the vocabulary.
pub open spec fn unknown_token() -> Seq<char> {
    "UNK"@
}

/// Reserved keys never enter a vocabulary: the empty token, the sentinel's
/// own name and, where asked, a lone space.
pub open spec fn is_reserved(t: Seq<char>, drop_space: bool) -> bool {
    t == Seq::<char>::empty() || t == unknown_token() || (drop_space && t == seq![' '])
}

/// The counts with reserved keys removed, order kept.
pub open spec fn clean_counts(m: Seq<(Seq<char>, nat)>, drop_space: bool) -> Seq<(Seq<char>, nat)>
    decreases m.len(),
{
    if m.len() == 0 {
        Seq::empty()
    } else {
        let rest = clean_counts(m.drop_last(), drop_space);
        if is_reserved(m.last().0, drop_space) {
            rest
        } else {
            rest + seq![m.last()]
        }
    }
}

pub proof fn lemma_clean_props(m: Seq<(Seq<char>, nat)>, drop_space: bool)
    requires
        distinct_tokens(m),
    ensures
        forall|p: int|
            0 <= p < clean_counts(m, drop_space).len() ==> m.contains(
                #[trigger] clean_counts(m, drop_space)[p],
            ),
        forall|p: int|
            0 <= p < clean_counts(m, drop_space).len() ==> !is_reserved(
                (#[trigger] clean_counts(m, drop_space)[p]).0,
                drop_space,
            ),
        distinct_tokens(clean_counts(m, drop_space)),
        clean_counts(m, drop_space).len() <= m.len(),
    decreases m.len(),
{
    if m.len() > 0 {
        let dl = m.drop_last();
        assert(distinct_tokens(dl)) by {
            assert forall|i: int, j: int| 0 <= i < j < dl.len() implies dl[i].0 != dl[j].0 by {
                assert(dl[i] == m[i] && dl[j] == m[j]);
            }
        }
        lemma_clean_props(dl, drop_space);
        let rest = clean_counts(dl, drop_space);
        assert forall|p: int| 0 <= p < rest.len() implies m.contains(#[trigger] rest[p]) by {
            let q = choose|q: int| 0 <= q < dl.len() && dl[q] == rest[p];
            assert(m[q] == rest[p]);
        }
        if !is_reserved(m.last().0, drop_space) {
            let c = clean_counts(m, drop_space);
            assert(m.contains(m.last())) by {
                assert(m[m.len() - 1] == m.last());
            }
            assert forall|p: int| 0 <= p < rest.len() implies rest[p].0 != m.last().0 by {
                let q = choose|q: int| 0 <= q < dl.len() && dl[q] == rest[p];
                assert(m[q].0 != m[m.len() - 1].0);
            }
            assert forall|i: int, j: int| 0 <= i < j < c.len() implies c[i].0 != c[j].0 by {
                if j < rest.len() {
                    assert(c[i] == rest[i] && c[j] == rest[j]);
                } else {
                    assert(c[i] == rest[i] && c[j] == m.last());
                }
            }
        }
    }
}

/// The first `max` entries, when a positive cap cuts the list short.
pub open spec fn capped(m: Seq<(Seq<char>, nat)>, max_tokens: int) -> Seq<(Seq<char>, nat)> {
    if max_tokens > 0 && m.len() > max_tokens {
        m.subrange(0, max_tokens)
    } else {
        m
    }
}

/// The entries of `m` whose token stands in `kept`, order of `m` kept.
pub open spec fn keep_listed(
    m: Seq<(Seq<char>, nat)>,
    kept: Seq<(Seq<char>, nat)>,
) -> Seq<(Seq<char>, nat)>
    decreases m.len(),
{
    if m.len() == 0 {
        Seq::empty()
    } else {
        let rest = keep_listed(m.drop_last(), kept);
        if has_token(kept, m.last().0) {
            rest + seq![m.last()]
        } else {
            rest
        }
    }
}

pub proof fn lemma_keep_listed_props(m: Seq<(Seq<char>, nat)>, kept: Seq<(Seq<char>, nat)>)
    requires
        distinct_tokens(m),
    ensures
        forall|p: int|
            0 <= p < keep_listed(m, kept).len() ==> m.contains(#[trigger] keep_listed(m, kept)[p]),
        distinct_tokens(keep_listed(m, kept)),
        keep_listed(m, kept).len() <= m.len(),
        forall|p: int|
            0 <= p < keep_listed(m, kept).len() ==> has_token(
                kept,
                (#[trigger] keep_listed(m, kept)[p]).0,
            ),
    decreases m.len(),
{
    if m.len() > 0 {
        let dl = m.drop_last();
        assert(distinct_tokens(dl)) by {
            assert forall|i: int, j: int| 0 <= i < j < dl.len() implies dl[i].0 != dl[j].0 by {
                assert(dl[i] == m[i] && dl[j] == m[j]);
            }
        }
        lemma_keep_listed_props(dl, kept);
        let rest = keep_listed(dl, kept);
        assert forall|p: int| 0 <= p < rest.len() implies m.contains(#[trigger] rest[p]) by {
            let q = choose|q: int| 0 <= q < dl.len() && dl[q] == rest[p];
            assert(m[q] == rest[p]);
        }
        if has_token(kept, m.last().0) {
            let c = keep_listed(m, kept);
            assert(m.contains(m.last())) by {
                assert(m[m.len() - 1] == m.last());
            }
            assert forall|p: int| 0 <= p < rest.len() implies rest[p].0 != m.last().0 by {
                let q = choose|q: int| 0 <= q < dl.len() && dl[q] == rest[p];
                assert(m[q].0 != m[m.len() - 1].0);
            }
            assert forall|i: int, j: int| 0 <= i < j < c.len() implies c[i].0 != c[j].0 by {
                if j < rest.len() {
                    assert(c[i] == rest[i] && c[j] == rest[j]);
                } else {
                    assert(c[i] == rest[i] && c[j] == m.last());
                }
            }
        }
    }
}

/// Cleaning keeps exactly the non-reserved tokens.
pub proof fn lemma_clean_has_token(m: Seq<(Seq<char>, nat)>, drop_space: bool, t: Seq<char>)
    requires
        distinct_tokens(m),
    ensures
        has_token(clean_counts(m, drop_space), t) == (has_token(m, t) && !is_reserved(
            t,
            drop_space,
        )),
    decreases m.len(),
{
    lemma_index_of_token(m, t);
    let c = clean_counts(m, drop_space);
    lemma_index_of_token(c, t);
    if m.len() == 0 {
    } else {
        let dl = m.drop_last();
        assert(distinct_tokens(dl)) by {
            assert forall|i: int, j: int| 0 <= i < j < dl.len() implies dl[i].0 != dl[j].0 by {
                assert(dl[i] == m[i] && dl[j] == m[j]);
            }
        }
        lemma_clean_has_token(dl, drop_space, t);
        let rest = clean_counts(dl, drop_space);
        if has_token(c, t) {
            let i = index_of_token(c, t);
            assert(c[i].0 == t);
            if is_reserved(m.last().0, drop_space) || i < rest.len() {
                assert(rest[i] == c[i]);
                lemma_has_token_witness(rest, t, i);
                assert(has_token(dl, t));
                let q = index_of_token(dl, t);
                lemma_index_of_token(dl, t);
                assert(m[q].0 == t);
                lemma_has_token_witness(m, t, q);
            } else {
                assert(c[i] == m.last());
                lemma_has_token_witness(m, t, m.len() - 1);
            }
        }
        if has_token(m, t) && !is_reserved(t, drop_space) {
            let q = index_of_token(m, t);
            if q < m.len() - 1 {
                assert(dl[q].0 == t);
                lemma_has_token_witness(dl, t, q);
                let i = index_of_token(rest, t);
                lemma_index_of_token(rest, t);
                if is_reserved(m.last().0, drop_space) {
                    lemma_has_token_witness(c, t, i);
                } else {
                    assert(c[i] == rest[i]);
                    lemma_has_token_witness(c, t, i);
                }
            } else {
                assert(m.last().0 == t);
                assert(!is_reserved(m.last().0, drop_space));
                assert(c[rest.len() as int] == m.last());
                lemma_has_token_witness(c, t, rest.len() as int);
            }
        }
    }
}

/// Distinct tokens that all stand in another distinct list cannot outnumber
/// it.
pub proof fn lemma_distinct_tokens_injection(c: Seq<(Seq<char>, nat)>, kept: Seq<(Seq<char>, nat)>)
    requires
        distinct_tokens(c),
        distinct_tokens(kept),
        forall|p: int| 0 <= p < c.len() ==> has_token(kept, (#[trigger] c[p]).0),
    ensures
        c.len() <= kept.len(),
    decreases c.len(),
{
    if c.len() > 0 {
        let t = c.last().0;
        assert(has_token(kept, c[c.len() - 1].0));
        lemma_index_of_token(kept, t);
        let i = index_of_token(kept, t);
        let kept2 = kept.subrange(0, i) + kept.subrange(i + 1, kept.len() as int);
        assert(kept2.len() == kept.len() - 1);
        assert(distinct_tokens(kept2)) by {
            assert forall|x: int, y: int| 0 <= x < y < kept2.len() implies kept2[x].0
                != kept2[y].0 by {
                let x0 = if x < i {
                    x
                } else {
                    x + 1
                };
                let y0 = if y < i {
                    y
                } else {
                    y + 1
                };
                assert(kept2[x] == kept[x0] && kept2[y] == kept[y0]);
            }
        }
        let dl = c.drop_last();
        assert(distinct_tokens(dl)) by {
            assert forall|x: int, y: int| 0 <= x < y < dl.len() implies dl[x].0 != dl[y].0 by {
                assert(dl[x] == c[x] && dl[y] == c[y]);
            }
        }
        assert forall|p: int| 0 <= p < dl.len() implies has_token(kept2, (#[trigger] dl[p]).0) by {
            let tp = dl[p].0;
            assert(c[p].0 == tp);
            assert(has_token(kept, tp));
            lemma_index_of_token(kept, tp);
            let j = index_of_token(kept, tp);
            assert(kept[j].0 == tp);
            assert(tp != t);
            assert(j != i);
            if j < i {
                assert(kept2[j] == kept[j]);
                lemma_has_token_witness(kept2, tp, j);
            } else {
                assert(kept2[j - 1] == kept[j]);
                lemma_has_token_witness(kept2, tp, j - 1);
            }
        }
        lemma_distinct_tokens_injection(dl, kept2);
    }
}

/// Putting the sentinel in front changes membership for no other token.
pub proof fn lemma_sentinel_prepend_has_token(kept: Seq<(Seq<char>, nat)>, t: Seq<char>)
    requires
        t != unknown_token(),
    ensures
        has_token(seq![(unknown_token(), 0nat)] + kept, t) == has_token(kept, t),
{
    let v = seq![(unknown_token(), 0nat)] + kept;
    lemma_index_of_token(v, t);
    lemma_index_of_token(kept, t);
    if has_token(v, t) {
        let i = index_of_token(v, t);
        assert(v[i].0 == t);
        assert(i != 0);
        assert(kept[i - 1].0 == t);
        lemma_has_token_witness(kept, t, i - 1);
    }
    if has_token(kept, t) {
        let j = index_of_token(kept, t);
        assert(v[j + 1].0 == t);
        lemma_has_token_witness(v, t, j + 1);
    }
}

/// A vocabulary built with a positive cap holds at most `max_tokens` tokens
/// besides the sentinel slot.
pub proof fn lemma_vocabulary_size_cap(counts: Seq<(Seq<char>, nat)>, max_tokens: int)
    requires
        distinct_tokens(counts),
        max_tokens > 0,
    ensures
        bag_vocabulary(counts, max_tokens).len() <= max_tokens + 1,
        simple_vocabulary(counts, max_tokens).len() <= max_tokens + 1,
{
    lemma_clean_props(counts, true);
    lemma_ranked_props(clean_counts(counts, true));
    lemma_clean_props(counts, false);
    let cf = clean_counts(counts, false);
    lemma_ranked_props(cf);
    let kept = capped(ranked(cf), max_tokens);
    assert(distinct_tokens(kept)) by {
        assert forall|x: int, y: int| 0 <= x < y < kept.len() implies kept[x].0 != kept[y].0 by {
            assert(kept[x] == ranked(cf)[x] && kept[y] == ranked(cf)[y]);
        }
    }
    lemma_keep_listed_props(cf, kept);
    lemma_distinct_tokens_injection(keep_listed(cf, kept), kept);
}

/// With no cap, a built vocabulary holds exactly the distinct non-reserved
/// tokens that occur somewhere in the corpus, each once.
pub proof fn lemma_vocabulary_no_cap(docs: Seq<Seq<Seq<char>>>, max_tokens: int, t: Seq<char>)
    requires
        max_tokens <= 0,
        t != unknown_token(),
    ensures
        has_token(bag_vocabulary(corpus_counts(docs), max_tokens), t) == ((exists|d: int|
            0 <= d < docs.len() && (#[trigger] docs[d]).contains(t)) && !is_reserved(t, true)),
        has_token(simple_vocabulary(corpus_counts(docs), max_tokens), t) == ((exists|d: int|
            0 <= d < docs.len() && (#[trigger] docs[d]).contains(t)) && !is_reserved(t, false)),
{
    let counts = corpus_counts(docs);
    lemma_corpus_counts_distinct(docs, docs.len() as int);
    lemma_corpus_counts(docs, docs.len() as int, t);
    lemma_clean_has_token(counts, true, t);
    lemma_clean_has_token(counts, false, t);
    lemma_sentinel_prepend_has_token(clean_counts(counts, true), t);
    lemma_sentinel_prepend_has_token(clean_counts(counts, false), t);
}

/// An entry of the corpus counts records its token's document frequency.
proof fn lemma_member_freq(docs: Seq<Seq<Seq<char>>>, e: (Seq<char>, nat))
    requires
        corpus_counts(docs).contains(e),
    ensures
        e.1 == doc_frequency(docs, e.0, docs.len() as int),
        e.1 <= docs.len(),
{
    let counts = corpus_counts(docs);
    lemma_corpus_counts_distinct(docs, docs.len() as int);
    lemma_distinct_positions(counts);
    let q = choose|q: int| 0 <= q < counts.len() && counts[q] == e;
    assert(index_of_token(counts, counts[q].0) == q);
    lemma_corpus_counts(docs, docs.len() as int, e.0);
}

/// Every entry of a built bag-of-words vocabulary besides the sentinel
/// records exactly the number of corpus documents its token occurs in —
/// occurrences within one document count once — and never more than the
/// number of documents.
pub proof fn lemma_bag_doc_frequency(docs: Seq<Seq<Seq<char>>>, max_tokens: int, j: int)
    requires
        1 <= j < bag_vocabulary(corpus_counts(docs), max_tokens).len(),
    ensures
        bag_vocabulary(corpus_counts(docs), max_tokens)[j].1 == doc_frequency(
            docs,
            bag_vocabulary(corpus_counts(docs), max_tokens)[j].0,
            docs.len() as int,
        ),
        bag_vocabulary(corpus_counts(docs), max_tokens)[j].1 <= docs.len(),
{
    let counts = corpus_counts(docs);
    lemma_corpus_counts_distinct(docs, docs.len() as int);
    lemma_clean_props(counts, true);
    let cleaned = clean_counts(counts, true);
    let v = bag_vocabulary(counts, max_tokens);
    let e = v[j];
    if max_tokens > 0 {
        lemma_ranked_props(cleaned);
        assert(e == capped(ranked(cleaned), max_tokens)[j - 1]);
        assert(capped(ranked(cleaned), max_tokens)[j - 1] == ranked(cleaned)[j - 1]);
        assert(cleaned.contains(e));
    } else {
        assert(e == cleaned[j - 1]);
        assert(cleaned.contains(e)) by {
            assert(cleaned[j - 1] == e);
        }
    }
    let q = choose|q: int| 0 <= q < cleaned.len() && cleaned[q] == e;
    assert(counts.contains(e));
    lemma_member_freq(docs, e);
}

/// The same, for the index-ordered vocabulary.
pub proof fn lemma_simple_doc_frequency(docs: Seq<Seq<Seq<char>>>, max_tokens: int, j: int)
    requires
        1 <= j < simple_vocabulary(corpus_counts(docs), max_tokens).len(),
    ensures
        simple_vocabulary(corpus_counts(docs), max_tokens)[j].1 == doc_frequency(
            docs,
            simple_vocabulary(corpus_counts(docs), max_tokens)[j].0,
            docs.len() as int,
        ),
        simple_vocabulary(corpus_counts(docs), max_tokens)[j].1 <= docs.len(),
{
    let counts = corpus_counts(docs);
    lemma_corpus_counts_distinct(docs, docs.len() as int);
    lemma_clean_props(counts, false);
    let cleaned = clean_counts(counts, false);
    let v = simple_vocabulary(counts, max_tokens);
    let e = v[j];
    if max_tokens > 0 {
        lemma_ranked_props(cleaned);
        lemma_keep_listed_props(cleaned, capped(ranked(cleaned), max_tokens));
        assert(e == keep_listed(cleaned, capped(ranked(cleaned), max_tokens))[j - 1]);
        assert(cleaned.contains(e));
    } else {
        assert(e == cleaned[j - 1]);
        assert(cleaned.contains(e)) by {
            assert(cleaned[j - 1] == e);
        }
    }
    let q = choose|q: int| 0 <= q < cleaned.len() && cleaned[q] == e;
    assert(counts.contains(e));
    lemma_member_freq(docs, e);
}

/// Stable insertion sort by document frequency, highest first.
pub fn sort_ranked(m: &Vec<TokenEntry>) -> (r: Vec<TokenEntry>)
    ensures
        entry_views(r@) == ranked(entry_views(m@)),
{
    let n = m.len();
    let mut r: Vec<TokenEntry> = Vec::new();
    for i in 0..n
        invariant
            n == m@.len(),
            entry_views(r@) =~= ranked(entry_views(m@).subrange(0, i as int)),
    {
        let e = m[i].duplicate();
        let ghost s = entry_views(r@);
        let ghost ev = e.view();
        let mut pos: usize = r.len();
        proof {
            assert(s.subrange(0, pos as int) =~= s);
            assert(s.subrange(pos as int, s.len() as int) =~= Seq::<(Seq<char>, nat)>::empty());
            assert(insert_ranked(s, ev) =~= insert_ranked(s.subrange(0, pos as int), ev)
                + s.subrange(pos as int, s.len() as int));
        }
        while pos > 0 && r[pos - 1].doc_freq < e.doc_freq
            invariant
                pos <= r@.len(),
                s == entry_views(r@),
                ev == e.view(),
                insert_ranked(s, ev) == insert_ranked(s.subrange(0, pos as int), ev) + s.subrange(
                    pos as int,
                    s.len() as int,
                ),
            decreases pos,
        {
            proof {
                let pre = s.subrange(0, pos as int);
                assert(pre.last() == s[pos - 1]);
                assert(s[pos - 1].1 == r@[pos - 1].doc_freq as nat);
                assert(pre.drop_last() =~= s.subrange(0, pos - 1 as int));
                assert(insert_ranked(pre, ev) == insert_ranked(s.subrange(0, pos - 1 as int), ev)
                    + seq![s[pos - 1]]);
                assert((insert_ranked(s.subrange(0, pos - 1 as int), ev) + seq![s[pos - 1]])
                    + s.subrange(pos as int, s.len() as int) =~= insert_ranked(
                    s.subrange(0, pos - 1 as int),
                    ev,
                ) + s.subrange(pos - 1 as int, s.len() as int));
            }
            pos = pos - 1;
        }
        proof {
            let pre = s.subrange(0, pos as int);
            if pos > 0 {
                assert(pre.last() == s[pos - 1]);
                assert(s[pos - 1].1 == r@[pos - 1].doc_freq as nat);
                assert(!(pre.last().1 < ev.1));
            }
            assert(insert_ranked(pre, ev) == pre + seq![ev]);
        }
        r.insert(pos, e);
        proof {
            assert(entry_views(r@) =~= s.subrange(0, pos as int) + seq![ev] + s.subrange(
                pos as int,
                s.len() as int,
            ));
            assert(entry_views(r@) =~= insert_ranked(s, ev));
            assert(entry_views(m@).subrange(0, i + 1 as int).drop_last() =~= entry_views(
                m@,
            ).subrange(0, i as int));
            assert(entry_views(m@).subrange(0, i + 1 as int).last() == ev);
            assert(entry_views(r@) =~= ranked(entry_views(m@).subrange(0, i + 1 as int)));
        }
    }
    proof {
        assert(entry_views(m@).subrange(0, n as int) =~= entry_views(m@));
    }
    r
}

/// Whether a token text is one of the reserved keys.
pub fn reserved_check(t: &str, drop_space: bool) -> (r: bool)
    ensures
        r == is_reserved(t@, drop_space),
{
    let n = t.unicode_len();
    if n == 0 {
        proof {
            assert(t@ =~= Seq::<char>::empty());
        }
        return true;
    }
    if str_eq(t, "UNK") {
        return true;
    }
    if drop_space && n == 1 && t.get_char(0) == ' ' {
        proof {
            assert(t@ =~= seq![' ']);
        }
        return true;
    }
    proof {
        assert(t@.len() > 0);
        assert(t@ != Seq::<char>::empty());
        if drop_space && t@ == seq![' '] {
            assert(t@.len() == 1 && t@[0] == ' ');
        }
    }
    false
}

/// The entries with reserved keys dropped.
pub fn clean_entries(m: &Vec<TokenEntry>, drop_space: bool) -> (r: Vec<TokenEntry>)
    ensures
        entry_views(r@) == clean_counts(entry_views(m@), drop_space),
{
    let n = m.len();
    let mut r: Vec<TokenEntry> = Vec::new();
    for i in 0..n
        invariant
            n == m@.len(),
            entry_views(r@) =~= clean_counts(entry_views(m@).subrange(0, i as int), drop_space),
    {
        proof {
            assert(entry_views(m@).subrange(0, i + 1 as int).drop_last() =~= entry_views(
                m@,
            ).subrange(0, i as int));
            assert(entry_views(m@).subrange(0, i + 1 as int).last() == entry_views(m@)[i as int]);
        }
        let ghost prev = entry_views(r@);
        if !reserved_check(m[i].token.as_str(), drop_space) {
            r.push(m[i].duplicate());
            proof {
                assert(entry_views(r@) =~= prev + seq![entry_views(m@)[i as int]]);
            }
        }
        proof {
            assert(entry_views(r@) =~= clean_counts(
                entry_views(m@).subrange(0, i + 1 as int),
                drop_space,
            ));
        }
    }
    proof {
        assert(entry_views(m@).subrange(0, n as int) =~= entry_views(m@));
    }
    r
}

/// The entries of `m` whose token stands in `kept`.
pub fn keep_listed_entries(m: &Vec<TokenEntry>, kept: &Vec<TokenEntry>) -> (r: Vec<TokenEntry>)
    ensures
        entry_views(r@) == keep_listed(entry_views(m@), entry_views(kept@)),
{
    let n = m.len();
    let mut r: Vec<TokenEntry> = Vec::new();
    for i in 0..n
        invariant
            n == m@.len(),
            entry_views(r@) =~= keep_listed(
                entry_views(m@).subrange(0, i as int),
                entry_views(kept@),
            ),
    {
        proof {
            assert(entry_views(m@).subrange(0, i + 1 as int).drop_last() =~= entry_views(
                m@,
            ).subrange(0, i as int));
            assert(entry_views(m@).subrange(0, i + 1 as int).last() == entry_views(m@)[i as int]);
        }
        let ghost prev = entry_views(r@);
        if find_token(kept, m[i].token.as_str()).is_some() {
            r.push(m[i].duplicate());
            proof {
                assert(entry_views(r@) =~= prev + seq![entry_views(m@)[i as int]]);
            }
        }
        proof {
            assert(entry_views(r@) =~= keep_listed(
                entry_views(m@).subrange(0, i + 1 as int),
                entry_views(kept@),
            ));
        }
    }
    proof {
        assert(entry_views(m@).subrange(0, n as int) =~= entry_views(m@));
    }
    r
}

/// The finished bag-of-words vocabulary: reserved keys dropped, entries
/// ranked by document frequency with first-seen order breaking ties, capped
/// to `max_tokens` when that is positive, and the sentinel put at index 0.
pub open spec fn bag_vocabulary(
    counts: Seq<(Seq<char>, nat)>,
    max_tokens: int,
) -> Seq<(Seq<char>, nat)> {
    let cleaned = clean_counts(counts, true);
    let kept = if max_tokens > 0 {
        capped(ranked(cleaned), max_tokens)
    } else {
        cleaned
    };
    seq![(unknown_token(), 0nat)] + kept
}

/// The finished index-ordered vocabulary: reserved keys dropped, the top
/// `max_tokens` entries by document frequency selected when the cap is
/// positive, the kept entries left in first-seen order, and the sentinel put
/// at index 0.
pub open spec fn simple_vocabulary(
    counts: Seq<(Seq<char>, nat)>,
    max_tokens: int,
) -> Seq<(Seq<char>, nat)> {
    let cleaned = clean_counts(counts, false);
    let kept = if max_tokens > 0 {
        keep_listed(cleaned, capped(ranked(cleaned), max_tokens))
    } else {
        cleaned
    };
    seq![(unknown_token(), 0nat)] + kept
}

/// The token-to-index mapping of a built tokenizer. The position of an entry
/// is its index; index 0 always holds the unknown-token sentinel with
/// document frequency 0, and no token repeats.
pub struct Vocabulary {
    entries: Vec<TokenEntry>,
}

impl View for Vocabulary {
    type V = Seq<(Seq<char>, nat)>;

    closed spec fn view(&self) -> Seq<(Seq<char>, nat)> {
        entry_views(self.entries@)
    }
}

impl Vocabulary {
    pub open spec fn wf(&self) -> bool {
        &&& distinct_tokens(self@)
        &&& self@.len() >= 1 ==> self@[0] == (unknown_token(), 0nat)
    }

    /// The state before any corpus has been seen.
    pub fn new_unbuilt() -> (r: Vocabulary)
        ensures
            r@ == Seq::<(Seq<char>, nat)>::empty(),
            r.wf(),
    {
        let r = Vocabulary { entries: Vec::new() };
        proof {
            assert(r@ =~= Seq::<(Seq<char>, nat)>::empty());
        }
        r
    }

    pub fn size(&self) -> (r: usize)
        ensures
            r == self@.len(),
    {
        self.entries.len()
    }

    pub fn is_built(&self) -> (r: bool)
        ensures
            r == (self@.len() >= 1),
    {
        self.entries.len() > 0
    }

    /// The index of a token, if it is in the vocabulary.
    pub fn lookup(&self, t: &str) -> (r: Option<usize>)
        ensures
            match r {
                Some(i) => 0 <= i < self@.len() && index_of_token(self@, t@) == i,
                None => !has_token(self@, t@),
            },
    {
        find_token(&self.entries, t)
    }

    pub fn token_at(&self, i: usize) -> (r: String)
        requires
            i < self@.len(),
        ensures
            r@ == self@[i as int].0,
    {
        self.entries[i].token.clone()
    }

    pub fn freq_at(&self, i: usize) -> (r: usize)
        requires
            i < self@.len(),
        ensures
            r as nat == self@[i as int].1,
    {
        self.entries[i].doc_freq
    }

    /// All tokens, ordered by their index.
    pub fn token_strings(&self) -> (r: Vec<String>)
        ensures
            r@.len() == self@.len(),
            forall|i: int| 0 <= i < r@.len() ==> str_views(r@)[i] == self@[i].0,
    {
        let n = self.entries.len();
        let mut r: Vec<String> = Vec::new();
        for i in 0..n
            invariant
                n == self.entries@.len(),
                r@.len() == i,
                forall|j: int| 0 <= j < i ==> str_views(r@)[j] == entry_views(self.entries@)[j].0,
        {
            let ghost prev = r@;
            let t = self.entries[i].token.clone();
            proof {
                assert(t@ == self.entries@[i as int].token@);
            }
            r.push(t);
            proof {
                assert forall|j: int| 0 <= j < i + 1 implies str_views(r@)[j] == entry_views(
                    self.entries@,
                )[j].0 by {
                    if j < i {
                        assert(r@[j] == prev[j]);
                        assert(str_views(prev)[j] == prev[j]@);
                        assert(str_views(r@)[j] == r@[j]@);
                    } else {
                        assert(r@[i as int] == t);
                        assert(str_views(r@)[j] == r@[i as int]@);
                        assert(entry_views(self.entries@)[j].0 == self.entries@[i as int].token@);
                    }
                }
            }
        }
        r
    }

    /// Builds the ranked, capped, densely re-indexed vocabulary.
    pub fn build_bag(counts: &Vec<TokenEntry>, max_tokens: i32) -> (r: Vocabulary)
        requires
            distinct_tokens(entry_views(counts@)),
        ensures
            r@ == bag_vocabulary(entry_views(counts@), max_tokens as int),
            r.wf(),
    {
        let ghost cv = entry_views(counts@);
        proof {
            lemma_clean_props(cv, true);
        }
        let cleaned = clean_entries(counts, true);
        let ghost cleaned_v = entry_views(cleaned@);
        let kept: Vec<TokenEntry> = if max_tokens > 0 {
            let mut sorted = sort_ranked(&cleaned);
            proof {
                lemma_ranked_props(cleaned_v);
            }
            if sorted.len() > max_tokens as usize {
                sorted.truncate(max_tokens as usize);
                proof {
                    assert(entry_views(sorted@) =~= ranked(cleaned_v).subrange(
                        0,
                        max_tokens as int,
                    ));
                }
            }
            sorted
        } else {
            cleaned
        };
        let ghost kept_v = entry_views(kept@);
        proof {
            // every kept entry comes from the cleaned counts
            assert forall|p: int| 0 <= p < kept_v.len() implies cleaned_v.contains(
                #[trigger] kept_v[p],
            ) by {
                if max_tokens > 0 {
                    assert(kept_v[p] == ranked(cleaned_v)[p]);
                } else {
                    assert(cleaned_v[p] == kept_v[p]);
                }
            }
            assert(distinct_tokens(kept_v)) by {
                if max_tokens > 0 {
                    assert forall|i: int, j: int| 0 <= i < j < kept_v.len() implies kept_v[i].0
                        != kept_v[j].0 by {
                        assert(kept_v[i] == ranked(cleaned_v)[i]);
                        assert(kept_v[j] == ranked(cleaned_v)[j]);
                    }
                }
            }
        }
        let mut entries: Vec<TokenEntry> = Vec::new();
        entries.push(TokenEntry { token: String::from_str("UNK"), doc_freq: 0 });
        let mut kept_m = kept;
        entries.append(&mut kept_m);
        let r = Vocabulary { entries };
        proof {
            assert(r@ =~= seq![(unknown_token(), 0nat)] + kept_v);
            assert forall|p: int| 0 <= p < kept_v.len() implies kept_v[p].0 != unknown_token() by {
                let q = choose|q: int| 0 <= q < cleaned_v.len() && cleaned_v[q] == kept_v[p];
                assert(!is_reserved(cleaned_v[q].0, true));
            }
            assert forall|i: int, j: int| 0 <= i < j < r@.len() implies r@[i].0 != r@[j].0 by {
                if i > 0 {
                    assert(r@[i] == kept_v[i - 1] && r@[j] == kept_v[j - 1]);
                } else {
                    assert(r@[j] == kept_v[j - 1]);
                }
            }
        }
        r
    }

    /// Builds the index-ordered vocabulary: ranking selects which tokens
    /// stay, first-seen order decides their indices.
    pub fn build_simple(counts: &Vec<TokenEntry>, max_tokens: i32) -> (r: Vocabulary)
        requires
            distinct_tokens(entry_views(counts@)),
        ensures
            r@ == simple_vocabulary(entry_views(counts@), max_tokens as int),
            r.wf(),
    {
        let ghost cv = entry_views(counts@);
        proof {
            lemma_clean_props(cv, false);
        }
        let cleaned = clean_entries(counts, false);
        let ghost cleaned_v = entry_views(cleaned@);
        let kept: Vec<TokenEntry> = if max_tokens > 0 {
            let mut sorted = sort_ranked(&cleaned);
            proof {
                lemma_ranked_props(cleaned_v);
            }
            if sorted.len() > max_tokens as usize {
                sorted.truncate(max_tokens as usize);
                proof {
                    assert(entry_views(sorted@) =~= ranked(cleaned_v).subrange(
                        0,
                        max_tokens as int,
                    ));
                }
            }
            proof {
                lemma_keep_listed_props(cleaned_v, entry_views(sorted@));
            }
            keep_listed_entries(&cleaned, &sorted)
        } else {
            cleaned
        };
        let ghost kept_v = entry_views(kept@);
        proof {
            assert forall|p: int| 0 <= p < kept_v.len() implies cleaned_v.contains(
                #[trigger] kept_v[p],
            ) by {
                if max_tokens <= 0 {
                    assert(cleaned_v[p] == kept_v[p]);
                }
            }
            assert(distinct_tokens(kept_v));
        }
        let mut entries: Vec<TokenEntry> = Vec::new();
        entries.push(TokenEntry { token: String::from_str("UNK"), doc_freq: 0 });
        let mut kept_m = kept;
        entries.append(&mut kept_m);
        let r = Vocabulary { entries };
        proof {
            assert(r@ =~= seq![(unknown_token(), 0nat)] + kept_v);
            assert forall|p: int| 0 <= p < kept_v.len() implies kept_v[p].0 != unknown_token() by {
                let q = choose|q: int| 0 <= q < cleaned_v.len() && cleaned_v[q] == kept_v[p];
                assert(!is_reserved(cleaned_v[q].0, false));
            }
            assert forall|i: int, j: int| 0 <= i < j < r@.len() implies r@[i].0 != r@[j].0 by {
                if i > 0 {
                    assert(r@[i] == kept_v[i - 1] && r@[j] == kept_v[j - 1]);
                } else {
                    assert(r@[j] == kept_v[j - 1]);
                }
            }
        }
        r
    }
}

} // verus!
