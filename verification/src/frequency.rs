//! The frequency vectorizer: owns one tokenizer, pushes its configuration
//! into it, and turns documents into per-vocabulary-slot count vectors.
//! Scaling the counts (normalization, TF-IDF) is floating-point work done by
//! the consumer, fed by the counts, document count and document frequencies
//! this type exposes.

use vstd::prelude::*;

use crate::math::Norm;
use crate::ngrams::Ngrams;
use crate::sanitize::str_views;
use crate::tokenizers::{Tokenize, Tokenizer, stop_views};
use crate::frequencybuilder::FrequencyVectorizerBuilder;

verus! {

/// Configuration and owned tokenizer of the frequency vectorizer.
pub struct FrequencyVectorizer {
    /// Most features to keep; non-positive keeps all.
    pub max_features: i32,
    /// Lowercase all text.
    pub use_lowercase: bool,
    /// Whether the consumer is meant to reweight counts with TF-IDF.
    pub use_tfidf: bool,
    /// The normalization the consumer is meant to apply, if any.
    pub norm: Option<Norm>,
    /// Stop words handed to the tokenizer on the next vocabulary build.
    pub stop_words: Option<Vec<String>>,
    /// The n-gram mode handed to the tokenizer.
    pub ngrams: Ngrams,
    /// The owned tokenizer.
    pub tokenizer: Tokenizer,
}

impl Default for FrequencyVectorizer {
    /// Ten thousand features, lowercasing on, TF-IDF off, no normalization,
    /// no stop words, unigrams, a bag-of-words tokenizer with the same cap.
    fn default() -> (r: Self)
        ensures
            r.max_features == 10000,
            r.use_lowercase == true,
            r.use_tfidf == false,
            r.norm is None,
            r.stop_words is None,
            r.ngrams == Ngrams::Unigram,
            r.tokenizer matches Tokenizer::Bag(t) && t.max_tokens == 10000 && t.use_lowercase
                == true && t.vocab@ == Seq::<(Seq<char>, nat)>::empty(),
            r.tokenizer.wf(),
    {
        FrequencyVectorizer {
            max_features: 10000,
            use_lowercase: true,
            use_tfidf: false,
            norm: None,
            stop_words: None,
            ngrams: Ngrams::Unigram,
            tokenizer: Tokenizer::Bag(crate::bag_of_words::BagOfWords::new(10000, true, None)),
        }
    }
}

impl FrequencyVectorizer {
    /// Assembles a vectorizer from a finished builder.
    pub fn new(builder: FrequencyVectorizerBuilder) -> (r: Self)
        ensures
            r.max_features == builder.max_features,
            r.use_lowercase == builder.use_lowercase,
            r.use_tfidf == builder.use_tfidf,
            r.norm == builder.norm,
            r.stop_words == builder.stop_words,
            r.ngrams == builder.ngrams,
            r.tokenizer == builder.tokenizer,
    {
        FrequencyVectorizer {
            max_features: builder.max_features,
            use_lowercase: builder.use_lowercase,
            use_tfidf: builder.use_tfidf,
            norm: builder.norm,
            stop_words: builder.stop_words,
            ngrams: builder.ngrams,
            tokenizer: builder.tokenizer,
        }
    }

    /// Pushes the configured stop words, cap, n-gram mode and case folding
    /// into the owned tokenizer and builds the vocabulary. The stop-word
    /// list moves into the tokenizer. Required before `vectorize_counts`.
    pub fn gen_tokens(&mut self, data: &Vec<String>)
        requires
            old(self).tokenizer.wf(),
        ensures
            final(self).tokenizer.wf(),
            final(self).max_features == old(self).max_features,
            final(self).use_lowercase == old(self).use_lowercase,
            final(self).use_tfidf == old(self).use_tfidf,
            final(self).norm == old(self).norm,
            final(self).ngrams == old(self).ngrams,
            final(self).stop_words is None,
            final(self).tokenizer.spec_stop_words() == stop_views(old(self).stop_words),
            final(self).tokenizer.spec_max_tokens() == if old(self).max_features > 0 {
                old(self).max_features as int
            } else {
                old(self).tokenizer.spec_max_tokens()
            },
            final(self).tokenizer.spec_ngrams() == old(self).ngrams,
            final(self).tokenizer.spec_use_lowercase() == old(self).use_lowercase,
            final(self).tokenizer.spec_doc_count() == data@.len(),
            final(self).tokenizer.spec_vocab() == final(self).tokenizer.spec_built_vocab(
                str_views(data@),
            ),
    {
        let sw = self.stop_words.take();
        self.tokenizer.set_stop_words(sw);
        self.tokenizer.set_max_tokens(self.max_features);
        self.tokenizer.set_ngrams(self.ngrams);
        self.tokenizer.set_use_lowercase(self.use_lowercase);
        self.tokenizer.create_tokens(data);
    }

    /// What `vectorize_counts` promises of its result: one count vector per
    /// document, each pinned to the tokenizer's encoding of that document;
    /// no value exactly when the vocabulary is unbuilt and there was input
    /// to encode.
    pub open spec fn vectorize_counts_post(
        &self,
        input_data: Seq<String>,
        r: Option<Vec<Vec<usize>>>,
    ) -> bool {
        match r {
            Option::Some(vs) => vs@.len() == input_data.len() && (forall|i: int|
                0 <= i < vs@.len() ==> (#[trigger] vs@[i])@.map_values(|x: usize| x as nat)
                    == self.tokenizer.spec_encode(str_views(input_data)[i])) && (input_data.len()
                > 0 ==> self.tokenizer.spec_vocab().len() > 0),
            Option::None => self.tokenizer.spec_vocab().len() == 0 && input_data.len() > 0,
        }
    }

    /// Encodes every document as a count vector over the vocabulary: one
    /// vector per document, one slot per vocabulary index. No value when the
    /// vocabulary was never built and there is input to encode.
    pub fn vectorize_counts(&self, input_data: &Vec<String>) -> (r: Option<Vec<Vec<usize>>>)
        requires
            self.tokenizer.wf(),
        ensures
            self.vectorize_counts_post(input_data@, r),
    {
        let n = input_data.len();
        let mut out: Vec<Vec<usize>> = Vec::new();
        for i in 0..n
            invariant
                n == input_data@.len(),
                self.tokenizer.wf(),
                out@.len() == i,
                i > 0 ==> self.tokenizer.spec_vocab().len() > 0,
                forall|j: int|
                    0 <= j < i ==> (#[trigger] out@[j])@.map_values(|x: usize| x as nat)
                        == self.tokenizer.spec_encode(str_views(input_data@)[j]),
        {
            match self.tokenizer.encode(input_data[i].as_str()) {
                Option::Some(v) => {
                    out.push(v);
                },
                Option::None => {
                    return None;
                },
            }
        }
        Some(out)
    }

    /// The vocabulary tokens, ordered by index.
    pub fn get_tokens(&self) -> (r: Vec<String>)
        requires
            self.tokenizer.wf(),
        ensures
            r@.len() == self.tokenizer.spec_vocab().len(),
            forall|i: int|
                0 <= i < r@.len() ==> str_views(r@)[i] == self.tokenizer.spec_vocab()[i].0,
    {
        self.tokenizer.get_tokens()
    }

    /// How many documents the vocabulary was built from.
    pub fn get_doc_count(&self) -> (r: usize)
        requires
            self.tokenizer.wf(),
        ensures
            r == self.tokenizer.spec_doc_count(),
    {
        self.tokenizer.get_doc_count()
    }

    /// Document frequency per vocabulary index, for consumers that reweight
    /// counts.
    pub fn get_doc_frequencies(&self) -> (r: Vec<usize>)
        requires
            self.tokenizer.wf(),
        ensures
            r@.len() == self.tokenizer.spec_vocab().len(),
            forall|i: int|
                0 <= i < r@.len() ==> r@[i] as nat == self.tokenizer.spec_vocab()[i].1,
    {
        let ghost vocab = self.tokenizer.spec_vocab();
        let toks = self.tokenizer.get_tokens();
        let n = toks.len();
        let mut r: Vec<usize> = Vec::new();
        let mut i: usize = 0;
        while i < n
            invariant
                n == vocab.len(),
                vocab == self.tokenizer.spec_vocab(),
                self.tokenizer.wf(),
                i <= n,
                r@.len() == i,
                forall|j: int| 0 <= j < i ==> r@[j] as nat == vocab[j].1,
            decreases n - i,
        {
            let t = self.tokenizer.get_token_from_idx(i);
            let f = match self.tokenizer.get_term_frequency(t.as_str()) {
                Option::Some(f) => {
                    proof {
                        // tokens are unique, so the frequency looked up by
                        // text is the one recorded at index i
                        assert(crate::vocab::distinct_tokens(vocab));
                        crate::vocab::lemma_distinct_positions(vocab);
                        crate::vocab::lemma_index_of_token(vocab, t@);
                    }
                    f
                },
                Option::None => {
                    proof {
                        // the token at index i is in the vocabulary, so the
                        // lookup cannot miss
                        crate::vocab::lemma_has_token_witness(vocab, t@, i as int);
                        assert(false);
                    }
                    0
                },
            };
            r.push(f);
            i = i + 1;
        }
        r
    }
}

/// The counts a result carries, document by document.
pub open spec fn count_views(vs: Seq<Vec<usize>>) -> Seq<Seq<nat>> {
    vs.map_values(|row: Vec<usize>| row@.map_values(|x: usize| x as nat))
}

/// Vectorizing depends on the vectorizer's state and the input alone: two
/// results for the same state and input either both fail or carry the same
/// counts. A second call with identical input and an unchanged vocabulary
/// therefore yields identical output.
pub proof fn lemma_vectorize_counts_deterministic(
    v: &FrequencyVectorizer,
    input_data: Seq<String>,
    r1: Option<Vec<Vec<usize>>>,
    r2: Option<Vec<Vec<usize>>>,
)
    requires
        v.vectorize_counts_post(input_data, r1),
        v.vectorize_counts_post(input_data, r2),
    ensures
        match (r1, r2) {
            (Option::Some(a), Option::Some(b)) => count_views(a@) == count_views(b@),
            (Option::None, Option::None) => true,
            _ => false,
        },
{
    match (r1, r2) {
        (Option::Some(a), Option::Some(b)) => {
            assert(count_views(a@) =~~= count_views(b@));
        },
        (Option::Some(a), Option::None) => {
            assert(input_data.len() > 0);
        },
        (Option::None, Option::Some(b)) => {
            assert(input_data.len() > 0);
        },
        (Option::None, Option::None) => {},
    }
}

} // verus!
