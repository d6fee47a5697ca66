//! The bag-of-words tokenizer: builds a vocabulary ranked by document
//! frequency with densely reassigned indices, and encodes a line as a
//! count vector over that vocabulary. Index order is lost in the counts, so
//! decoding is unsupported.

use vstd::prelude::*;

use rayon::iter::IntoParallelRefIterator;
use rayon::iter::ParallelIterator;

use crate::ngrams::{Ngrams, expand_ngrams, expand_ngrams_spec, filter_stops, filter_stops_spec,
    lemma_filter_stops_empty};
use crate::sanitize::{chars_of, sanitize_bag_chars, sanitize_bag_spec, split_line, split_spaces,
    str_views, string_from_chars};
use crate::tokenizers::{Tokenize, count_slots, count_vector, stop_views};
use crate::vocab::{TokenEntry, Vocabulary, bag_vocabulary, corpus_counts, count_corpus,
    count_line, entry_views, freq_of, lemma_corpus_counts, lemma_corpus_counts_distinct,
    lemma_distinct_positions, lemma_index_of_token};

verus! {

/// The tokens one line contributes: sanitize, split on spaces, drop stop
/// words, expand n-grams.
pub open spec fn bag_line_tokens(
    line: Seq<char>,
    lower: bool,
    stops: Seq<Seq<char>>,
    ng: Ngrams,
) -> Seq<Seq<char>> {
    expand_ngrams_spec(filter_stops_spec(split_spaces(sanitize_bag_spec(line, lower)), stops), ng)
}

/// Every document of the corpus put through the same pipeline.
pub open spec fn bag_corpus_tokens(
    docs: Seq<Seq<char>>,
    lower: bool,
    stops: Seq<Seq<char>>,
    ng: Ngrams,
) -> Seq<Seq<Seq<char>>> {
    docs.map_values(|d: Seq<char>| bag_line_tokens(d, lower, stops, ng))
}

/// Building with a positive cap keeps at most `max_tokens` tokens besides
/// the sentinel slot.
pub proof fn lemma_bag_vocabulary_cap(t: &BagOfWords, docs: Seq<Seq<char>>)
    requires
        t.max_tokens > 0,
    ensures
        t.spec_built_vocab(docs).len() <= t.max_tokens + 1,
{
    let toks = bag_corpus_tokens(docs, t.use_lowercase, stop_views(t.stop_words), t.ngrams);
    crate::vocab::lemma_corpus_counts_distinct(toks, toks.len() as int);
    crate::vocab::lemma_vocabulary_size_cap(corpus_counts(toks), t.max_tokens as int);
}

/// Every entry of a built vocabulary besides the sentinel records exactly
/// the number of documents whose token sequence holds its token — repeats
/// within one document count once — and never more than the corpus size.
pub proof fn lemma_bag_vocabulary_doc_frequency(t: &BagOfWords, docs: Seq<Seq<char>>, j: int)
    requires
        1 <= j < t.spec_built_vocab(docs).len(),
    ensures
        ({
            let toks = bag_corpus_tokens(docs, t.use_lowercase, stop_views(t.stop_words), t.ngrams);
            t.spec_built_vocab(docs)[j].1 == crate::vocab::doc_frequency(
                toks,
                t.spec_built_vocab(docs)[j].0,
                docs.len() as int,
            ) && t.spec_built_vocab(docs)[j].1 <= docs.len()
        }),
{
    let toks = bag_corpus_tokens(docs, t.use_lowercase, stop_views(t.stop_words), t.ngrams);
    crate::vocab::lemma_bag_doc_frequency(toks, t.max_tokens as int, j);
}

/// A vocabulary token of an encoded line is never routed to the unknown
/// slot: its count stands at its own index, which is not 0.
pub proof fn lemma_bag_encode_kept_token(t: &BagOfWords, line: Seq<char>, i: int)
    requires
        t.wf(),
        t.vocab@.len() >= 1,
        0 <= i < t.spec_line_tokens(line).len(),
        crate::vocab::has_token(t.vocab@, t.spec_line_tokens(line)[i]),
        t.spec_line_tokens(line)[i] != crate::vocab::unknown_token(),
    ensures
        crate::tokenizers::slot_of(t.vocab@, t.spec_line_tokens(line)[i]) != 0,
        t.spec_encode(line)[crate::tokenizers::slot_of(t.vocab@, t.spec_line_tokens(line)[i])]
            >= 1,
{
    crate::tokenizers::lemma_encode_kept_token(t.vocab@, t.spec_line_tokens(line), i);
}

/// One sanitized line as a fresh string.
pub fn sanitize_bag_string(line: &str, lower: bool) -> (r: String)
    ensures
        r@ == sanitize_bag_spec(line@, lower),
{
    let chars = sanitize_bag_chars(line, lower);
    string_from_chars(&chars)
}

/// Relies on rayon's `par_iter().map(..).collect()`: it applies the mapped
/// function to every element and collects the results in order. The closure
/// only calls the verified sanitizer.
#[verifier::external_body]
fn sanitize_lines_par(data: &Vec<String>, lower: bool) -> (r: Vec<String>)
    ensures
        r@.len() == data@.len(),
        forall|i: int|
            0 <= i < data@.len() ==> str_views(r@)[i] == sanitize_bag_spec(
                str_views(data@)[i],
                lower,
            ),
{
    data.par_iter().map(|x| sanitize_bag_string(x.as_str(), lower)).collect()
}

/// Splits one sanitized line and applies stop-word removal and n-gram
/// expansion.
fn bag_process_line(sanitized: &String, stop_words: &Option<Vec<String>>, ng: Ngrams) -> (r: Vec<
    String,
>)
    ensures
        str_views(r@) == expand_ngrams_spec(
            filter_stops_spec(split_spaces(sanitized@), stop_views(*stop_words)),
            ng,
        ),
{
    let chars = chars_of(sanitized.as_str());
    let pieces = split_line(&chars);
    let filtered = match stop_words {
        Option::Some(sw) => filter_stops(&pieces, sw),
        Option::None => {
            proof {
                lemma_filter_stops_empty(str_views(pieces@));
            }
            pieces
        },
    };
    expand_ngrams(filtered, ng)
}

/// Configuration and state of the bag-of-words tokenizer.
pub struct BagOfWords {
    /// Most tokens the vocabulary may keep; non-positive keeps all.
    pub max_tokens: i32,
    /// Lowercase every line before tokenizing.
    pub use_lowercase: bool,
    /// Tokens dropped before n-gram expansion.
    pub stop_words: Option<Vec<String>>,
    /// The n-gram mode.
    pub ngrams: Ngrams,
    /// How many documents the vocabulary was built from.
    pub num_documents: usize,
    /// The built vocabulary.
    pub vocab: Vocabulary,
}

impl BagOfWords {
    /// A fresh tokenizer with the given cap, case folding and stop words;
    /// unigram mode, no corpus seen yet.
    pub fn new(max_tokens: i32, use_lowercase: bool, stop_words: Option<Vec<String>>) -> (r: Self)
        ensures
            r.max_tokens == max_tokens,
            r.use_lowercase == use_lowercase,
            r.stop_words == stop_words,
            r.ngrams == Ngrams::Unigram,
            r.num_documents == 0,
            r.vocab@ == Seq::<(Seq<char>, nat)>::empty(),
            r.wf(),
    {
        BagOfWords {
            max_tokens,
            use_lowercase,
            stop_words,
            ngrams: Ngrams::Unigram,
            num_documents: 0,
            vocab: Vocabulary::new_unbuilt(),
        }
    }
}

impl Default for BagOfWords {
    /// Ten tokens, lowercasing on, no stop words, unigrams.
    fn default() -> (r: Self)
        ensures
            r.max_tokens == 10,
            r.use_lowercase == true,
            r.stop_words is None,
            r.ngrams == Ngrams::Unigram,
            r.num_documents == 0,
            r.vocab@ == Seq::<(Seq<char>, nat)>::empty(),
            r.wf(),
    {
        BagOfWords::new(10, true, None)
    }
}

impl Tokenize for BagOfWords {
    open spec fn spec_max_tokens(&self) -> int {
        self.max_tokens as int
    }

    open spec fn spec_use_lowercase(&self) -> bool {
        self.use_lowercase
    }

    open spec fn spec_stop_words(&self) -> Seq<Seq<char>> {
        stop_views(self.stop_words)
    }

    open spec fn spec_ngrams(&self) -> Ngrams {
        self.ngrams
    }

    open spec fn spec_vocab(&self) -> Seq<(Seq<char>, nat)> {
        self.vocab@
    }

    open spec fn spec_doc_count(&self) -> nat {
        self.num_documents as nat
    }

    open spec fn wf(&self) -> bool {
        self.vocab.wf()
    }

    open spec fn spec_sanitize(&self, line: Seq<char>) -> Seq<char> {
        sanitize_bag_spec(line, self.use_lowercase)
    }

    open spec fn spec_line_tokens(&self, line: Seq<char>) -> Seq<Seq<char>> {
        bag_line_tokens(line, self.use_lowercase, stop_views(self.stop_words), self.ngrams)
    }

    open spec fn spec_built_vocab(&self, docs: Seq<Seq<char>>) -> Seq<(Seq<char>, nat)> {
        bag_vocabulary(
            corpus_counts(
                bag_corpus_tokens(
                    docs,
                    self.use_lowercase,
                    stop_views(self.stop_words),
                    self.ngrams,
                ),
            ),
            self.max_tokens as int,
        )
    }

    open spec fn spec_encode(&self, line: Seq<char>) -> Seq<nat> {
        count_vector(self.vocab@, self.spec_line_tokens(line))
    }

    /// Counts carry no order, so nothing can be decoded.
    open spec fn spec_decode(&self, input: Seq<usize>) -> Option<Seq<char>> {
        Option::None
    }

    fn create_tokens(&mut self, data: &Vec<String>) {
        let ghost docs = bag_corpus_tokens(
            str_views(data@),
            old(self).use_lowercase,
            stop_views(old(self).stop_words),
            old(self).ngrams,
        );
        let sanitized = sanitize_lines_par(data, self.use_lowercase);
        let n = data.len();
        let mut counts: Vec<TokenEntry> = Vec::new();
        for k in 0..n
            invariant
                n == data@.len(),
                sanitized@.len() == n,
                forall|i: int|
                    0 <= i < n ==> str_views(sanitized@)[i] == sanitize_bag_spec(
                        str_views(data@)[i],
                        old(self).use_lowercase,
                    ),
                *self == *old(self),
                docs == bag_corpus_tokens(
                    str_views(data@),
                    old(self).use_lowercase,
                    stop_views(old(self).stop_words),
                    old(self).ngrams,
                ),
                docs.len() == n,
                entry_views(counts@) =~= count_corpus(docs, k as int),
        {
            proof {
                lemma_corpus_counts_distinct(docs, k as int);
                lemma_distinct_positions(entry_views(counts@));
                assert forall|x: int| 0 <= x < counts@.len() implies (#[trigger] counts@[x]).doc_freq
                    < usize::MAX by {
                    let t = entry_views(counts@)[x].0;
                    lemma_corpus_counts(docs, k as int, t);
                    assert(entry_views(counts@)[x].1 == freq_of(entry_views(counts@), t));
                }
            }
            let toks = bag_process_line(&sanitized[k], &self.stop_words, self.ngrams);
            proof {
                assert(str_views(sanitized@)[k as int] == sanitized@[k as int]@);
                assert(docs[k as int] == bag_line_tokens(
                    str_views(data@)[k as int],
                    old(self).use_lowercase,
                    stop_views(old(self).stop_words),
                    old(self).ngrams,
                ));
                assert(docs[k as int] == str_views(toks@));
            }
            count_line(&mut counts, &toks);
            proof {
                assert(entry_views(counts@) =~= count_corpus(docs, k + 1 as int));
            }
        }
        proof {
            lemma_corpus_counts_distinct(docs, n as int);
            assert(count_corpus(docs, n as int) == corpus_counts(docs));
        }
        self.vocab = Vocabulary::build_bag(&counts, self.max_tokens);
        self.num_documents = data.len();
    }

    fn encode(&self, input: &str) -> (r: Option<Vec<usize>>) {
        if !self.vocab.is_built() {
            return None;
        }
        let sanitized = sanitize_bag_string(input, self.use_lowercase);
        let toks = bag_process_line(&sanitized, &self.stop_words, self.ngrams);
        let counts = count_slots(&self.vocab, &toks);
        Some(counts)
    }

    fn decode(&self, input: &[usize]) -> (r: Option<String>) {
        None
    }

    fn sanitize_line(&self, line: String) -> (r: String) {
        sanitize_bag_string(line.as_str(), self.use_lowercase)
    }

    fn set_max_tokens(&mut self, max_tokens: i32) {
        if max_tokens > 0 {
            self.max_tokens = max_tokens;
        }
    }

    fn set_use_lowercase(&mut self, use_lowercase: bool) {
        self.use_lowercase = use_lowercase;
    }

    fn set_stop_words(&mut self, stop_words: Option<Vec<String>>) {
        self.stop_words = stop_words;
    }

    fn set_ngrams(&mut self, ngrams: Ngrams) {
        self.ngrams = ngrams;
    }

    fn get_tokens(&self) -> (r: Vec<String>) {
        self.vocab.token_strings()
    }

    fn get_term_frequency(&self, token: &str) -> (r: Option<usize>) {
        match self.vocab.lookup(token) {
            Option::Some(i) => {
                proof {
                    lemma_index_of_token(self.vocab@, token@);
                }
                Some(self.vocab.freq_at(i))
            },
            Option::None => None,
        }
    }

    fn get_doc_count(&self) -> (r: usize) {
        self.num_documents
    }

    fn get_token_from_idx(&self, idx: usize) -> (r: String) {
        self.vocab.token_at(idx)
    }
}

} // verus!
