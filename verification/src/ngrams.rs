//! Stop-word filtering and n-gram expansion of a tokenized line.

use vstd::prelude::*;

use crate::sanitize::{str_eq, str_views};

verus! {

/// The kind of n-grams a tokenizer emits.
#[derive(Debug, Clone, Copy, PartialEq, Eq, Structural)]
pub enum Ngrams {
    /// Single words only.
    Unigram,
    /// Adjacent word pairs only.
    Bigram,
    /// Word pairs first, then single words.
    Both,
}

/// The tokens with every stop word removed, order kept.
pub open spec fn filter_stops_spec(ts: Seq<Seq<char>>, stops: Seq<Seq<char>>) -> Seq<Seq<char>>
    decreases ts.len(),
{
    if ts.len() == 0 {
        Seq::empty()
    } else {
        let rest = filter_stops_spec(ts.drop_last(), stops);
        if stops.contains(ts.last()) {
            rest
        } else {
            rest + seq![ts.last()]
        }
    }
}

/// Adjacent tokens joined pairwise with one space; fewer than two tokens
/// give no pairs.
pub open spec fn bigrams_spec(ts: Seq<Seq<char>>) -> Seq<Seq<char>> {
    if ts.len() < 2 {
        Seq::empty()
    } else {
        Seq::new((ts.len() - 1) as nat, |i: int| ts[i] + seq![' '] + ts[i + 1])
    }
}

/// The tokens a line contributes under the given n-gram mode.
pub open spec fn expand_ngrams_spec(ts: Seq<Seq<char>>, ng: Ngrams) -> Seq<Seq<char>> {
    match ng {
        Ngrams::Unigram => ts,
        Ngrams::Bigram => bigrams_spec(ts),
        Ngrams::Both => bigrams_spec(ts) + ts,
    }
}

/// With no stop words configured, filtering changes nothing.
pub proof fn lemma_filter_stops_empty(ts: Seq<Seq<char>>)
    ensures
        filter_stops_spec(ts, Seq::<Seq<char>>::empty()) == ts,
    decreases ts.len(),
{
    if ts.len() > 0 {
        lemma_filter_stops_empty(ts.drop_last());
        assert(filter_stops_spec(ts, Seq::<Seq<char>>::empty()) =~= ts.drop_last() + seq![
            ts.last(),
        ]);
        assert(ts.drop_last() + seq![ts.last()] =~= ts);
    } else {
        assert(filter_stops_spec(ts, Seq::<Seq<char>>::empty()) =~= ts);
    }
}

/// Whether one of the strings in `v` reads `t`.
pub fn contains_str(v: &Vec<String>, t: &str) -> (r: bool)
    ensures
        r == str_views(v@).contains(t@),
{
    let n = v.len();
    for i in 0..n
        invariant
            n == v@.len(),
            forall|j: int| 0 <= j < i ==> str_views(v@)[j] != t@,
    {
        if str_eq(v[i].as_str(), t) {
            assert(str_views(v@)[i as int] == t@);
            return true;
        }
    }
    false
}

pub fn filter_stops(ts: &Vec<String>, stops: &Vec<String>) -> (r: Vec<String>)
    ensures
        str_views(r@) == filter_stops_spec(str_views(ts@), str_views(stops@)),
{
    let n = ts.len();
    let mut r: Vec<String> = Vec::new();
    for i in 0..n
        invariant
            n == ts@.len(),
            str_views(r@) =~= filter_stops_spec(
                str_views(ts@).subrange(0, i as int),
                str_views(stops@),
            ),
    {
        proof {
            assert(str_views(ts@).subrange(0, i + 1 as int).drop_last() =~= str_views(
                ts@,
            ).subrange(0, i as int));
            assert(str_views(ts@).subrange(0, i + 1 as int).last() == str_views(ts@)[i as int]);
        }
        let ghost prev = r@;
        if !contains_str(stops, ts[i].as_str()) {
            r.push(ts[i].clone());
            proof {
                assert(str_views(r@) =~= str_views(prev) + seq![str_views(ts@)[i as int]]);
            }
        }
    }
    proof {
        assert(str_views(ts@).subrange(0, n as int) =~= str_views(ts@));
    }
    r
}

/// One joined pair: the left token, a space, the right token.
pub fn join_pair(a: &String, b: &String) -> (r: String)
    ensures
        r@ == a@ + seq![' '] + b@,
{
    let mut r = a.clone();
    r.append(" ");
    r.append(b.as_str());
    proof {
        reveal_strlit(" ");
        assert(r@ =~= a@ + seq![' '] + b@);
    }
    r
}

pub fn compute_bigrams_vec(ts: &Vec<String>) -> (r: Vec<String>)
    ensures
        str_views(r@) == bigrams_spec(str_views(ts@)),
{
    let n = ts.len();
    let mut r: Vec<String> = Vec::new();
    if n < 2 {
        return r;
    }
    for i in 0..n - 1
        invariant
            n == ts@.len(),
            n >= 2,
            str_views(r@) =~= bigrams_spec(str_views(ts@)).subrange(0, i as int),
    {
        let ghost prev = r@;
        r.push(join_pair(&ts[i], &ts[i + 1]));
        proof {
            assert(str_views(r@) =~= str_views(prev) + seq![
                str_views(ts@)[i as int] + seq![' '] + str_views(ts@)[i + 1],
            ]);
            assert(str_views(r@) =~= bigrams_spec(str_views(ts@)).subrange(0, i + 1 as int));
        }
    }
    proof {
        assert(bigrams_spec(str_views(ts@)).subrange(0, n - 1 as int) =~= bigrams_spec(
            str_views(ts@),
        ));
    }
    r
}

pub fn expand_ngrams(ts: Vec<String>, ng: Ngrams) -> (r: Vec<String>)
    ensures
        str_views(r@) == expand_ngrams_spec(str_views(ts@), ng),
{
    match ng {
        Ngrams::Unigram => ts,
        Ngrams::Bigram => compute_bigrams_vec(&ts),
        Ngrams::Both => {
            let mut r = compute_bigrams_vec(&ts);
            let ghost bi = r@;
            let n = ts.len();
            for i in 0..n
                invariant
                    n == ts@.len(),
                    str_views(r@) =~= str_views(bi) + str_views(ts@).subrange(0, i as int),
            {
                let ghost prev = r@;
                r.push(ts[i].clone());
                proof {
                    assert(str_views(r@) =~= str_views(prev) + seq![str_views(ts@)[i as int]]);
                    assert(str_views(r@) =~= str_views(bi) + str_views(ts@).subrange(
                        0,
                        i + 1 as int,
                    ));
                }
            }
            proof {
                assert(str_views(ts@).subrange(0, n as int) =~= str_views(ts@));
            }
            r
        },
    }
}

} // verus!
