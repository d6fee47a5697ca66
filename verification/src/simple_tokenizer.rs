//! The word-splitting tokenizer: contractions break apart at the
//! apostrophe, tokens keep their first-seen indices, a line encodes as the
//! sequence of its tokens' indices, and decoding reads the tokens back by
//! index.

use vstd::prelude::*;

use crate::ngrams::{Ngrams, compute_bigrams_vec, expand_ngrams, expand_ngrams_spec, filter_stops,
    filter_stops_spec, lemma_filter_stops_empty, bigrams_spec};
use crate::sanitize::{chars_of, join_spaces, sanitize_simple_spec, sanitize_simple_vec,
    split_line, split_spaces, str_views, string_from_chars, trim_chars, trim_spec};
use crate::tokenizers::{Tokenize, decoded_tokens, index_vector, slot_of, stop_views};
use crate::vocab::{TokenEntry, Vocabulary, corpus_counts, count_corpus, count_line, entry_views,
    freq_of, has_token, lemma_corpus_counts, lemma_corpus_counts_distinct,
    lemma_distinct_positions, lemma_index_of_token, simple_vocabulary, unknown_token};

verus! {

/// The tokens one line contributes: trim, sanitize, split on spaces, drop
/// stop words, expand n-grams.
pub open spec fn simple_line_tokens(
    line: Seq<char>,
    lower: bool,
    stops: Seq<Seq<char>>,
    ng: Ngrams,
) -> Seq<Seq<char>> {
    expand_ngrams_spec(
        filter_stops_spec(split_spaces(sanitize_simple_spec(trim_spec(line), lower)), stops),
        ng,
    )
}

/// Every document of the corpus put through the same pipeline.
pub open spec fn simple_corpus_tokens(
    docs: Seq<Seq<char>>,
    lower: bool,
    stops: Seq<Seq<char>>,
    ng: Ngrams,
) -> Seq<Seq<Seq<char>>> {
    docs.map_values(|d: Seq<char>| simple_line_tokens(d, lower, stops, ng))
}

/// Round trip of the index-ordered tokenizer: in unigram mode with no stop
/// words, decoding an encoding of a line yields text whose space-split is
/// exactly the line's sanitized token sequence, provided every one of those
/// tokens stands in the vocabulary.
pub proof fn lemma_simple_round_trip(
    vocab: Seq<(Seq<char>, nat)>,
    line: Seq<char>,
    lower: bool,
    idx: Seq<usize>,
)
    requires
        crate::vocab::distinct_tokens(vocab),
        vocab.len() >= 1,
        vocab[0] == (unknown_token(), 0nat),
        idx.map_values(|x: usize| x as nat) == index_vector(
            vocab,
            simple_line_tokens(line, lower, Seq::empty(), Ngrams::Unigram),
        ),
        forall|i: int|
            0 <= i < simple_line_tokens(line, lower, Seq::empty(), Ngrams::Unigram).len()
                ==> crate::vocab::has_token(
                vocab,
                #[trigger] simple_line_tokens(line, lower, Seq::empty(), Ngrams::Unigram)[i],
            ),
    ensures
        decoded_tokens(vocab, idx) == simple_line_tokens(line, lower, Seq::empty(), Ngrams::Unigram),
        split_spaces(join_spaces(decoded_tokens(vocab, idx))) == simple_line_tokens(
            line,
            lower,
            Seq::empty(),
            Ngrams::Unigram,
        ),
{
    let s0 = sanitize_simple_spec(trim_spec(line), lower);
    let tl = simple_line_tokens(line, lower, Seq::empty(), Ngrams::Unigram);
    lemma_filter_stops_empty(split_spaces(s0));
    assert(tl == split_spaces(s0));
    assert(idx.map_values(|x: usize| x as nat).len() == idx.len());
    assert(index_vector(vocab, tl).len() == tl.len());
    assert(idx.len() == tl.len());
    assert forall|i: int| 0 <= i < tl.len() implies decoded_tokens(vocab, idx)[i] == tl[i] by {
        assert(idx.map_values(|x: usize| x as nat)[i] == idx[i] as nat);
        assert(index_vector(vocab, tl)[i] == slot_of(vocab, tl[i]) as nat);
        assert(idx[i] as nat == slot_of(vocab, tl[i]) as nat);
        crate::tokenizers::lemma_slot_in_range(vocab, tl[i]);
        assert(idx[i] < vocab.len());
        assert(vocab[idx[i] as int].0 == tl[i]);
    }
    assert(decoded_tokens(vocab, idx) =~~= tl);
    crate::sanitize::lemma_split_spaces_len(s0);
    crate::sanitize::lemma_split_tokens_space_free(s0);
    crate::sanitize::lemma_split_join(tl);
}

/// The round trip at the tokenizer: in unigram mode with no stop words, an
/// encoding of a line decodes to text whose space-split is exactly the
/// line's sanitized tokens, provided every token stands in the vocabulary.
pub proof fn lemma_simple_tokenizer_round_trip(t: &SimpleTokenizer, line: Seq<char>, idx: Seq<
    usize,
>)
    requires
        t.wf(),
        t.vocab@.len() >= 1,
        t.ngrams == Ngrams::Unigram,
        t.stop_words is None,
        idx.map_values(|x: usize| x as nat) == t.spec_encode(line),
        forall|i: int|
            0 <= i < t.spec_line_tokens(line).len() ==> has_token(
                t.vocab@,
                #[trigger] t.spec_line_tokens(line)[i],
            ),
    ensures
        t.spec_decode(idx) matches Option::Some(s) && split_spaces(s) == t.spec_line_tokens(line),
{
    lemma_simple_round_trip(t.vocab@, line, t.use_lowercase, idx);
}

/// Building with a positive cap keeps at most `max_tokens` tokens besides
/// the sentinel slot.
pub proof fn lemma_simple_vocabulary_cap(t: &SimpleTokenizer, docs: Seq<Seq<char>>)
    requires
        t.max_tokens > 0,
    ensures
        t.spec_built_vocab(docs).len() <= t.max_tokens + 1,
{
    let toks = simple_corpus_tokens(docs, t.use_lowercase, stop_views(t.stop_words), t.ngrams);
    lemma_corpus_counts_distinct(toks, toks.len() as int);
    crate::vocab::lemma_vocabulary_size_cap(corpus_counts(toks), t.max_tokens as int);
}

/// Every entry of a built vocabulary besides the sentinel records exactly
/// the number of documents whose token sequence holds its token, never
/// more than the corpus size.
pub proof fn lemma_simple_vocabulary_doc_frequency(t: &SimpleTokenizer, docs: Seq<Seq<char>>, j: int)
    requires
        1 <= j < t.spec_built_vocab(docs).len(),
    ensures
        ({
            let toks = simple_corpus_tokens(
                docs,
                t.use_lowercase,
                stop_views(t.stop_words),
                t.ngrams,
            );
            t.spec_built_vocab(docs)[j].1 == crate::vocab::doc_frequency(
                toks,
                t.spec_built_vocab(docs)[j].0,
                docs.len() as int,
            ) && t.spec_built_vocab(docs)[j].1 <= docs.len()
        }),
{
    let toks = simple_corpus_tokens(docs, t.use_lowercase, stop_views(t.stop_words), t.ngrams);
    crate::vocab::lemma_simple_doc_frequency(toks, t.max_tokens as int, j);
}

/// Trims and tokenizes one line.
fn simple_process_line(line: &str, lower: bool, stop_words: &Option<Vec<String>>, ng: Ngrams) -> (r:
    Vec<String>)
    ensures
        str_views(r@) == simple_line_tokens(line@, lower, stop_views(*stop_words), ng),
{
    let chars = chars_of(line);
    let trimmed = trim_chars(&chars);
    let sanitized = sanitize_simple_vec(&trimmed, lower);
    let pieces = split_line(&sanitized);
    let filtered = match stop_words {
        Option::Some(sw) => filter_stops(&pieces, sw),
        Option::None => {
            proof {
                lemma_filter_stops_empty(str_views(pieces@));
            }
            pieces
        },
    };
    expand_ngrams(filtered, ng)
}

/// Configuration and state of the word-splitting tokenizer.
pub struct SimpleTokenizer {
    /// Most tokens the vocabulary may keep; non-positive keeps all.
    pub max_tokens: i32,
    /// Lowercase every line before tokenizing.
    pub use_lowercase: bool,
    /// Tokens dropped before n-gram expansion.
    pub stop_words: Option<Vec<String>>,
    /// The n-gram mode.
    pub ngrams: Ngrams,
    /// How many documents the vocabulary was built from.
    pub num_documents: usize,
    /// The built vocabulary.
    pub vocab: Vocabulary,
}

impl SimpleTokenizer {
    /// A fresh tokenizer with the given cap, case folding and stop words;
    /// unigram mode, no corpus seen yet.
    pub fn new(max_tokens: i32, use_lowercase: bool, stop_words: Option<Vec<String>>) -> (r: Self)
        ensures
            r.max_tokens == max_tokens,
            r.use_lowercase == use_lowercase,
            r.stop_words == stop_words,
            r.ngrams == Ngrams::Unigram,
            r.num_documents == 0,
            r.vocab@ == Seq::<(Seq<char>, nat)>::empty(),
            r.wf(),
    {
        SimpleTokenizer {
            max_tokens,
            use_lowercase,
            stop_words,
            ngrams: Ngrams::Unigram,
            num_documents: 0,
            vocab: Vocabulary::new_unbuilt(),
        }
    }

    /// Adjacent tokens joined pairwise with one space.
    pub fn compute_bigrams(line: &Vec<String>) -> (r: Vec<String>)
        ensures
            str_views(r@) == bigrams_spec(str_views(line@)),
    {
        compute_bigrams_vec(line)
    }

    /// The pairs first, then the single tokens.
    pub fn compute_both_ngrams(line: Vec<String>) -> (r: Vec<String>)
        ensures
            str_views(r@) == bigrams_spec(str_views(line@)) + str_views(line@),
    {
        expand_ngrams(line, Ngrams::Both)
    }

    /// The document frequency recorded for a token; no value for a token
    /// outside the vocabulary.
    pub fn term_frequency(&self, token: &str) -> (r: Option<usize>)
        requires
            self.wf(),
        ensures
            match r {
                Option::Some(f) => has_token(self.vocab@, token@) && f as nat == freq_of(
                    self.vocab@,
                    token@,
                ),
                Option::None => !has_token(self.vocab@, token@),
            },
    {
        match self.vocab.lookup(token) {
            Option::Some(i) => {
                proof {
                    lemma_index_of_token(self.vocab@, token@);
                }
                Some(self.vocab.freq_at(i))
            },
            Option::None => None,
        }
    }
}

impl Default for SimpleTokenizer {
    /// Ten tokens, lowercasing on, no stop words, unigrams.
    fn default() -> (r: Self)
        ensures
            r.max_tokens == 10,
            r.use_lowercase == true,
            r.stop_words is None,
            r.ngrams == Ngrams::Unigram,
            r.num_documents == 0,
            r.vocab@ == Seq::<(Seq<char>, nat)>::empty(),
            r.wf(),
    {
        SimpleTokenizer::new(10, true, None)
    }
}

impl Tokenize for SimpleTokenizer {
    open spec fn spec_max_tokens(&self) -> int {
        self.max_tokens as int
    }

    open spec fn spec_use_lowercase(&self) -> bool {
        self.use_lowercase
    }

    open spec fn spec_stop_words(&self) -> Seq<Seq<char>> {
        stop_views(self.stop_words)
    }

    open spec fn spec_ngrams(&self) -> Ngrams {
        self.ngrams
    }

    open spec fn spec_vocab(&self) -> Seq<(Seq<char>, nat)> {
        self.vocab@
    }

    open spec fn spec_doc_count(&self) -> nat {
        self.num_documents as nat
    }

    open spec fn wf(&self) -> bool {
        self.vocab.wf()
    }

    open spec fn spec_sanitize(&self, line: Seq<char>) -> Seq<char> {
        sanitize_simple_spec(line, self.use_lowercase)
    }

    open spec fn spec_line_tokens(&self, line: Seq<char>) -> Seq<Seq<char>> {
        simple_line_tokens(line, self.use_lowercase, stop_views(self.stop_words), self.ngrams)
    }

    open spec fn spec_built_vocab(&self, docs: Seq<Seq<char>>) -> Seq<(Seq<char>, nat)> {
        simple_vocabulary(
            corpus_counts(
                simple_corpus_tokens(
                    docs,
                    self.use_lowercase,
                    stop_views(self.stop_words),
                    self.ngrams,
                ),
            ),
            self.max_tokens as int,
        )
    }

    open spec fn spec_encode(&self, line: Seq<char>) -> Seq<nat> {
        index_vector(self.vocab@, self.spec_line_tokens(line))
    }

    /// Decoding reads each index's token back, the sentinel text standing
    /// in for indices outside the vocabulary, joined with single spaces.
    open spec fn spec_decode(&self, input: Seq<usize>) -> Option<Seq<char>> {
        if self.vocab@.len() == 0 {
            Option::None
        } else {
            Option::Some(join_spaces(decoded_tokens(self.vocab@, input)))
        }
    }

    fn create_tokens(&mut self, data: &Vec<String>) {
        let ghost docs = simple_corpus_tokens(
            str_views(data@),
            old(self).use_lowercase,
            stop_views(old(self).stop_words),
            old(self).ngrams,
        );
        let n = data.len();
        let mut counts: Vec<TokenEntry> = Vec::new();
        for k in 0..n
            invariant
                n == data@.len(),
                *self == *old(self),
                docs == simple_corpus_tokens(
                    str_views(data@),
                    old(self).use_lowercase,
                    stop_views(old(self).stop_words),
                    old(self).ngrams,
                ),
                docs.len() == n,
                entry_views(counts@) =~= count_corpus(docs, k as int),
        {
            proof {
                lemma_corpus_counts_distinct(docs, k as int);
                lemma_distinct_positions(entry_views(counts@));
                assert forall|x: int| 0 <= x < counts@.len() implies (#[trigger] counts@[x]).doc_freq
                    < usize::MAX by {
                    let t = entry_views(counts@)[x].0;
                    lemma_corpus_counts(docs, k as int, t);
                    assert(entry_views(counts@)[x].1 == freq_of(entry_views(counts@), t));
                }
            }
            let toks = simple_process_line(
                data[k].as_str(),
                self.use_lowercase,
                &self.stop_words,
                self.ngrams,
            );
            proof {
                assert(str_views(data@)[k as int] == data@[k as int]@);
                assert(docs[k as int] == str_views(toks@));
            }
            count_line(&mut counts, &toks);
            proof {
                assert(entry_views(counts@) =~= count_corpus(docs, k + 1 as int));
            }
        }
        proof {
            lemma_corpus_counts_distinct(docs, n as int);
            assert(count_corpus(docs, n as int) == corpus_counts(docs));
        }
        self.vocab = Vocabulary::build_simple(&counts, self.max_tokens);
        self.num_documents = data.len();
    }

    fn encode(&self, input: &str) -> (r: Option<Vec<usize>>) {
        if !self.vocab.is_built() {
            return None;
        }
        let toks = simple_process_line(input, self.use_lowercase, &self.stop_words, self.ngrams);
        let ghost tv = str_views(toks@);
        let m = toks.len();
        let mut out: Vec<usize> = Vec::new();
        for j in 0..m
            invariant
                m == toks@.len(),
                tv == str_views(toks@),
                self.vocab@.len() >= 1,
                out@.len() == j,
                forall|q: int|
                    0 <= q < j ==> out@[q] as nat == slot_of(self.vocab@, tv[q]) as nat,
        {
            let slot: usize = match self.vocab.lookup(toks[j].as_str()) {
                Option::Some(i) => i,
                Option::None => 0,
            };
            out.push(slot);
        }
        proof {
            assert(out@.map_values(|x: usize| x as nat) =~= index_vector(self.vocab@, tv));
            assert(index_vector(self.vocab@, tv) == self.spec_encode(input@));
        }
        Some(out)
    }

    fn decode(&self, input: &[usize]) -> (r: Option<String>) {
        if !self.vocab.is_built() {
            return None;
        }
        let ghost dec = decoded_tokens(self.vocab@, input@);
        let n = input.len();
        let mut out = String::new();
        for i in 0..n
            invariant
                n == input@.len(),
                self.vocab@.len() >= 1,
                dec == decoded_tokens(self.vocab@, input@),
                out@ =~= join_spaces(dec.subrange(0, i as int)),
        {
            if i > 0 {
                out.append(" ");
                proof {
                    reveal_strlit(" ");
                }
            }
            let idx = input[i];
            let token: String = if idx < self.vocab.size() {
                self.vocab.token_at(idx)
            } else {
                let u = String::from_str("UNK");
                proof {
                    assert(u@ == unknown_token());
                }
                u
            };
            proof {
                assert(token@ == dec[i as int]);
            }
            out.append(token.as_str());
            proof {
                assert(dec.subrange(0, i + 1 as int).drop_last() =~= dec.subrange(0, i as int));
                assert(dec.subrange(0, i + 1 as int).last() == dec[i as int]);
                if i == 0 {
                    assert(out@ =~= dec[0]);
                    assert(join_spaces(dec.subrange(0, 1)) == dec.subrange(0, 1)[0]);
                }
                assert(out@ =~= join_spaces(dec.subrange(0, i + 1 as int)));
            }
        }
        proof {
            assert(dec.subrange(0, n as int) =~= dec);
        }
        Some(out)
    }

    fn sanitize_line(&self, line: String) -> (r: String) {
        let chars = chars_of(line.as_str());
        let sanitized = sanitize_simple_vec(&chars, self.use_lowercase);
        string_from_chars(&sanitized)
    }

    fn set_max_tokens(&mut self, max_tokens: i32) {
        if max_tokens > 0 {
            self.max_tokens = max_tokens;
        }
    }

    fn set_use_lowercase(&mut self, use_lowercase: bool) {
        self.use_lowercase = use_lowercase;
    }

    fn set_stop_words(&mut self, stop_words: Option<Vec<String>>) {
        self.stop_words = stop_words;
    }

    fn set_ngrams(&mut self, ngrams: Ngrams) {
        self.ngrams = ngrams;
    }

    fn get_tokens(&self) -> (r: Vec<String>) {
        self.vocab.token_strings()
    }

    fn get_term_frequency(&self, token: &str) -> (r: Option<usize>) {
        self.term_frequency(token)
    }

    fn get_doc_count(&self) -> (r: usize) {
        self.num_documents
    }

    fn get_token_from_idx(&self, idx: usize) -> (r: String) {
        self.vocab.token_at(idx)
    }
}

} // verus!
