//! A builder that accumulates vectorizer options and produces one
//! `FrequencyVectorizer`.

use vstd::prelude::*;

use crate::bag_of_words::BagOfWords;
use crate::frequency::FrequencyVectorizer;
use crate::math::Norm;
use crate::ngrams::Ngrams;
use crate::tokenizers::{Tokenize, Tokenizer};

verus! {

/// The options a frequency vectorizer is assembled from.
pub struct FrequencyVectorizerBuilder {
    /// Most features to keep; non-positive keeps all.
    pub max_features: i32,
    /// Lowercase all text.
    pub use_lowercase: bool,
    /// Ask the consumer to reweight counts with TF-IDF.
    pub use_tfidf: bool,
    /// The normalization the consumer is meant to apply.
    pub norm: Option<Norm>,
    /// Stop words to filter.
    pub stop_words: Option<Vec<String>>,
    /// The n-gram mode.
    pub ngrams: Ngrams,
    /// The tokenizer the vectorizer will own.
    pub tokenizer: Tokenizer,
}

impl FrequencyVectorizerBuilder {
    /// Starts from the documented defaults: TF-IDF off, no normalization,
    /// no stop words, unigrams, and a bag-of-words tokenizer carrying the
    /// same cap and case folding.
    pub fn new(max_features: i32, use_lowercase: bool) -> (r: Self)
        ensures
            r.max_features == max_features,
            r.use_lowercase == use_lowercase,
            r.use_tfidf == false,
            r.norm is None,
            r.stop_words is None,
            r.ngrams == Ngrams::Unigram,
            r.tokenizer matches Tokenizer::Bag(t) && t.max_tokens == max_features
                && t.use_lowercase == use_lowercase && t.vocab@ == Seq::<(
                Seq<char>,
                nat,
            )>::empty(),
            r.tokenizer.wf(),
    {
        FrequencyVectorizerBuilder {
            max_features,
            use_lowercase,
            use_tfidf: false,
            norm: None,
            stop_words: None,
            ngrams: Ngrams::Unigram,
            tokenizer: Tokenizer::Bag(BagOfWords::new(max_features, use_lowercase, None)),
        }
    }

    /// Turns TF-IDF reweighting on or off.
    pub fn with_tfidf(self, tfidf: bool) -> (r: Self)
        ensures
            r.use_tfidf == tfidf,
            r.max_features == self.max_features,
            r.use_lowercase == self.use_lowercase,
            r.norm == self.norm,
            r.stop_words == self.stop_words,
            r.ngrams == self.ngrams,
            r.tokenizer == self.tokenizer,
    {
        let mut b = self;
        b.use_tfidf = tfidf;
        b
    }

    /// Chooses L1 or L2 normalization; unset means none.
    pub fn with_norm(self, norm: Norm) -> (r: Self)
        ensures
            r.norm == Some(norm),
            r.max_features == self.max_features,
            r.use_lowercase == self.use_lowercase,
            r.use_tfidf == self.use_tfidf,
            r.stop_words == self.stop_words,
            r.ngrams == self.ngrams,
            r.tokenizer == self.tokenizer,
    {
        let mut b = self;
        b.norm = Some(norm);
        b
    }

    /// Sets the stop words to filter; unset means none.
    pub fn with_stop_words(self, stop_words: Vec<String>) -> (r: Self)
        ensures
            r.stop_words == Some(stop_words),
            r.max_features == self.max_features,
            r.use_lowercase == self.use_lowercase,
            r.use_tfidf == self.use_tfidf,
            r.norm == self.norm,
            r.ngrams == self.ngrams,
            r.tokenizer == self.tokenizer,
    {
        let mut b = self;
        b.stop_words = Some(stop_words);
        b
    }

    /// Sets the n-gram mode; the default is unigrams.
    pub fn with_ngram_type(self, ngrams: Ngrams) -> (r: Self)
        ensures
            r.ngrams == ngrams,
            r.max_features == self.max_features,
            r.use_lowercase == self.use_lowercase,
            r.use_tfidf == self.use_tfidf,
            r.norm == self.norm,
            r.stop_words == self.stop_words,
            r.tokenizer == self.tokenizer,
    {
        let mut b = self;
        b.ngrams = ngrams;
        b
    }

    /// Replaces the tokenizer the vectorizer will own.
    pub fn with_tokenizer(self, tokenizer: Tokenizer) -> (r: Self)
        ensures
            r.tokenizer == tokenizer,
            r.max_features == self.max_features,
            r.use_lowercase == self.use_lowercase,
            r.use_tfidf == self.use_tfidf,
            r.norm == self.norm,
            r.stop_words == self.stop_words,
            r.ngrams == self.ngrams,
    {
        let mut b = self;
        b.tokenizer = tokenizer;
        b
    }

    /// Consumes the builder and produces the vectorizer.
    pub fn build(self) -> (r: FrequencyVectorizer)
        ensures
            r.max_features == self.max_features,
            r.use_lowercase == self.use_lowercase,
            r.use_tfidf == self.use_tfidf,
            r.norm == self.norm,
            r.stop_words == self.stop_words,
            r.ngrams == self.ngrams,
            r.tokenizer == self.tokenizer,
    {
        FrequencyVectorizer::new(self)
    }
}

} // verus!
