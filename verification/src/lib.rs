//! Text feature extraction: tokenizers that build a bounded vocabulary from a
//! corpus by document frequency, and a vectorizer that re-encodes text against
//! that vocabulary as fixed-width count vectors.

use vstd::prelude::*;

pub mod bag_of_words;
pub mod csv_parser;
pub mod csv_text;
pub mod frequency;
pub mod frequencybuilder;
pub mod math;
pub mod ngrams;
pub mod sanitize;
pub mod simple_tokenizer;
pub mod tokenizers;
pub mod vocab;

verus! {

/// Consumes a vector of rows and chains the rows into one flat vector,
/// order kept.
pub fn flatten<T>(v: Vec<Vec<T>>) -> (r: Vec<T>)
    ensures
        r@ == v@.map_values(|x: Vec<T>| x@).flatten(),
{
    let mut v = v;
    let ghost full = v@.map_values(|x: Vec<T>| x@);
    let mut r: Vec<T> = Vec::new();
    while v.len() > 0
        invariant
            r@ + v@.map_values(|x: Vec<T>| x@).flatten() == full.flatten(),
        decreases v@.len(),
    {
        let ghost pre = v@.map_values(|x: Vec<T>| x@);
        let mut row = v.remove(0);
        proof {
            assert(pre.drop_first() =~= v@.map_values(|x: Vec<T>| x@));
            assert(pre.first() == row@);
        }
        r.append(&mut row);
    }
    proof {
        assert(v@.map_values(|x: Vec<T>| x@).len() == 0);
        assert(r@ + v@.map_values(|x: Vec<T>| x@).flatten() =~= r@);
    }
    r
}

} // verus!
