//! The tokenizer capability: building a vocabulary from a corpus and
//! encoding or decoding text against it. Implementations differ in how they
//! sanitize, how they index, and whether decoding is supported.

use vstd::prelude::*;

use crate::ngrams::Ngrams;
use crate::sanitize::str_views;
use crate::vocab::{freq_of, has_token, index_of_token};

verus! {

/// The stop-word list a configuration carries; none means no filtering.
pub open spec fn stop_views(o: Option<Vec<String>>) -> Seq<Seq<char>> {
    match o {
        Option::None => Seq::empty(),
        Option::Some(v) => str_views(v@),
    }
}

/// The vocabulary slot a token lands in: its own index when it is known,
/// the unknown slot otherwise.
pub open spec fn slot_of(vocab: Seq<(Seq<char>, nat)>, t: Seq<char>) -> int {
    if has_token(vocab, t) {
        index_of_token(vocab, t)
    } else {
        0
    }
}

/// Occurrence counts per vocabulary slot over one token sequence.
pub open spec fn count_vector(vocab: Seq<(Seq<char>, nat)>, toks: Seq<Seq<char>>) -> Seq<nat>
    decreases toks.len(),
{
    if toks.len() == 0 {
        Seq::new(vocab.len(), |i: int| 0nat)
    } else {
        let prev = count_vector(vocab, toks.drop_last());
        let s = slot_of(vocab, toks.last());
        prev.update(s, (prev[s] + 1) as nat)
    }
}

/// Index sequence encoding: each token replaced by its slot.
pub open spec fn index_vector(vocab: Seq<(Seq<char>, nat)>, toks: Seq<Seq<char>>) -> Seq<nat> {
    toks.map_values(|t: Seq<char>| slot_of(vocab, t) as nat)
}

/// The token each index stands for; out-of-range indices read as the
/// sentinel.
pub open spec fn decoded_tokens(vocab: Seq<(Seq<char>, nat)>, idxs: Seq<usize>) -> Seq<Seq<char>> {
    idxs.map_values(
        |i: usize|
            if i < vocab.len() {
                vocab[i as int].0
            } else {
                crate::vocab::unknown_token()
            },
    )
}

pub proof fn lemma_count_vector_len(vocab: Seq<(Seq<char>, nat)>, toks: Seq<Seq<char>>)
    requires
        vocab.len() >= 1,
    ensures
        count_vector(vocab, toks).len() == vocab.len(),
    decreases toks.len(),
{
    if toks.len() > 0 {
        lemma_count_vector_len(vocab, toks.drop_last());
        lemma_slot_in_range(vocab, toks.last());
    }
}

/// A slot is always a valid index of a non-empty vocabulary.
pub proof fn lemma_slot_in_range(vocab: Seq<(Seq<char>, nat)>, t: Seq<char>)
    requires
        vocab.len() >= 1,
    ensures
        0 <= slot_of(vocab, t) < vocab.len(),
        has_token(vocab, t) ==> vocab[slot_of(vocab, t)].0 == t,
{
    crate::vocab::lemma_index_of_token(vocab, t);
}

proof fn lemma_count_vector_at_least(vocab: Seq<(Seq<char>, nat)>, toks: Seq<Seq<char>>, i: int)
    requires
        vocab.len() >= 1,
        0 <= i < toks.len(),
    ensures
        count_vector(vocab, toks)[slot_of(vocab, toks[i])] >= 1,
    decreases toks.len(),
{
    lemma_count_vector_len(vocab, toks.drop_last());
    lemma_slot_in_range(vocab, toks.last());
    lemma_slot_in_range(vocab, toks[i]);
    if i < toks.len() - 1 {
        lemma_count_vector_at_least(vocab, toks.drop_last(), i);
        assert(toks.drop_last()[i] == toks[i]);
    }
}

/// A token of the vocabulary is never routed to the unknown slot: encoding
/// a line that holds it counts it at its own index, which is not 0.
pub proof fn lemma_encode_kept_token(vocab: Seq<(Seq<char>, nat)>, toks: Seq<Seq<char>>, i: int)
    requires
        crate::vocab::distinct_tokens(vocab),
        vocab.len() >= 1,
        vocab[0] == (crate::vocab::unknown_token(), 0nat),
        0 <= i < toks.len(),
        has_token(vocab, toks[i]),
        toks[i] != crate::vocab::unknown_token(),
    ensures
        slot_of(vocab, toks[i]) != 0,
        count_vector(vocab, toks)[slot_of(vocab, toks[i])] >= 1,
{
    crate::vocab::lemma_index_of_token(vocab, toks[i]);
    lemma_count_vector_at_least(vocab, toks, i);
}

/// Counts, per vocabulary slot, how often each token of the line occurs,
/// unknown tokens landing in slot 0.
pub fn count_slots(vocab: &crate::vocab::Vocabulary, toks: &Vec<String>) -> (r: Vec<usize>)
    requires
        vocab@.len() >= 1,
    ensures
        r@.map_values(|c: usize| c as nat) == count_vector(vocab@, str_views(toks@)),
{
    let n_v = vocab.size();
    let mut counts: Vec<usize> = Vec::new();
    for i in 0..n_v
        invariant
            n_v == vocab@.len(),
            counts@.len() == i,
            forall|s: int| 0 <= s < i ==> counts@[s] == 0,
    {
        counts.push(0);
    }
    proof {
        assert(counts@.map_values(|c: usize| c as nat) =~= count_vector(
            vocab@,
            str_views(toks@).subrange(0, 0),
        ));
    }
    let m = toks.len();
    for j in 0..m
        invariant
            n_v == vocab@.len(),
            vocab@.len() >= 1,
            m == toks@.len(),
            counts@.len() == vocab@.len(),
            counts@.map_values(|c: usize| c as nat) =~= count_vector(
                vocab@,
                str_views(toks@).subrange(0, j as int),
            ),
            forall|s: int| 0 <= s < counts@.len() ==> counts@[s] <= j,
    {
        let ghost tv = str_views(toks@);
        let slot: usize = match vocab.lookup(toks[j].as_str()) {
            Option::Some(i) => {
                proof {
                    assert(has_token(vocab@, tv[j as int]));
                    assert(slot_of(vocab@, tv[j as int]) == i);
                }
                i
            },
            Option::None => {
                proof {
                    assert(slot_of(vocab@, tv[j as int]) == 0);
                }
                0
            },
        };
        let ghost prev = counts@;
        counts[slot] = counts[slot] + 1;
        proof {
            assert(tv.subrange(0, j + 1 as int).drop_last() =~= tv.subrange(0, j as int));
            assert(tv.subrange(0, j + 1 as int).last() == tv[j as int]);
            assert(counts@.map_values(|c: usize| c as nat) =~= count_vector(
                vocab@,
                tv.subrange(0, j as int),
            ).update(slot as int, (prev[slot as int] + 1) as nat));
            assert(counts@.map_values(|c: usize| c as nat) =~= count_vector(
                vocab@,
                tv.subrange(0, j + 1 as int),
            ));
        }
    }
    proof {
        assert(str_views(toks@).subrange(0, m as int) =~= str_views(toks@));
    }
    counts
}

/// What a tokenizer does: build a vocabulary from a corpus, encode and
/// decode text against it, take configuration, and answer questions about
/// the vocabulary. Each implementation pins the pipeline down in its own
/// spec functions; the contracts here hold for every implementation.
pub trait Tokenize: Sized {
    spec fn spec_max_tokens(&self) -> int;

    spec fn spec_use_lowercase(&self) -> bool;

    spec fn spec_stop_words(&self) -> Seq<Seq<char>>;

    spec fn spec_ngrams(&self) -> Ngrams;

    /// The built vocabulary: token and document frequency by index. Empty
    /// until the first corpus is processed.
    spec fn spec_vocab(&self) -> Seq<(Seq<char>, nat)>;

    spec fn spec_doc_count(&self) -> nat;

    spec fn wf(&self) -> bool;

    /// The sanitized form of one line under this tokenizer's rules.
    spec fn spec_sanitize(&self, line: Seq<char>) -> Seq<char>;

    /// The tokens one line contributes, after sanitizing, splitting,
    /// stop-word removal and n-gram expansion.
    spec fn spec_line_tokens(&self, line: Seq<char>) -> Seq<Seq<char>>;

    /// The vocabulary that building on `docs` produces under the current
    /// configuration.
    spec fn spec_built_vocab(&self, docs: Seq<Seq<char>>) -> Seq<(Seq<char>, nat)>;

    /// The numeric encoding of one line against the built vocabulary.
    spec fn spec_encode(&self, line: Seq<char>) -> Seq<nat>;

    /// The text decode must produce, where the implementation supports
    /// decoding at all.
    spec fn spec_decode(&self, input: Seq<usize>) -> Option<Seq<char>>;

    /// Builds the vocabulary from the corpus, one document per line, and
    /// records the document count. Configuration is left untouched.
    fn create_tokens(&mut self, data: &Vec<String>)
        requires
            old(self).wf(),
        ensures
            final(self).wf(),
            final(self).spec_vocab() == old(self).spec_built_vocab(str_views(data@)),
            final(self).spec_vocab() == final(self).spec_built_vocab(str_views(data@)),
            final(self).spec_doc_count() == data@.len(),
            final(self).spec_max_tokens() == old(self).spec_max_tokens(),
            final(self).spec_use_lowercase() == old(self).spec_use_lowercase(),
            final(self).spec_stop_words() == old(self).spec_stop_words(),
            final(self).spec_ngrams() == old(self).spec_ngrams(),
    ;

    /// Encodes one line; no value before the vocabulary is built.
    fn encode(&self, input: &str) -> (r: Option<Vec<usize>>)
        requires
            self.wf(),
        ensures
            match r {
                Option::Some(v) => self.spec_vocab().len() > 0 && v@.map_values(
                    |x: usize| x as nat,
                ) == self.spec_encode(input@),
                Option::None => self.spec_vocab().len() == 0,
            },
    ;

    /// Decodes an index sequence back to text, where supported.
    fn decode(&self, input: &[usize]) -> (r: Option<String>)
        requires
            self.wf(),
        ensures
            match r {
                Option::Some(s) => self.spec_decode(input@) matches Option::Some(v) && s@ == v,
                Option::None => self.spec_decode(input@) is None,
            },
    ;

    /// The sanitizer alone, on one line.
    fn sanitize_line(&self, line: String) -> (r: String)
        ensures
            r@ == self.spec_sanitize(line@),
    ;

    /// Sets the vocabulary size cap; a non-positive value is ignored.
    fn set_max_tokens(&mut self, max_tokens: i32)
        requires
            old(self).wf(),
        ensures
            final(self).wf(),
            final(self).spec_max_tokens() == if max_tokens > 0 {
                max_tokens as int
            } else {
                old(self).spec_max_tokens()
            },
            final(self).spec_use_lowercase() == old(self).spec_use_lowercase(),
            final(self).spec_stop_words() == old(self).spec_stop_words(),
            final(self).spec_ngrams() == old(self).spec_ngrams(),
            final(self).spec_vocab() == old(self).spec_vocab(),
            final(self).spec_doc_count() == old(self).spec_doc_count(),
    ;

    fn set_use_lowercase(&mut self, use_lowercase: bool)
        requires
            old(self).wf(),
        ensures
            final(self).wf(),
            final(self).spec_use_lowercase() == use_lowercase,
            final(self).spec_max_tokens() == old(self).spec_max_tokens(),
            final(self).spec_stop_words() == old(self).spec_stop_words(),
            final(self).spec_ngrams() == old(self).spec_ngrams(),
            final(self).spec_vocab() == old(self).spec_vocab(),
            final(self).spec_doc_count() == old(self).spec_doc_count(),
    ;

    fn set_stop_words(&mut self, stop_words: Option<Vec<String>>)
        requires
            old(self).wf(),
        ensures
            final(self).wf(),
            final(self).spec_stop_words() == stop_views(stop_words),
            final(self).spec_max_tokens() == old(self).spec_max_tokens(),
            final(self).spec_use_lowercase() == old(self).spec_use_lowercase(),
            final(self).spec_ngrams() == old(self).spec_ngrams(),
            final(self).spec_vocab() == old(self).spec_vocab(),
            final(self).spec_doc_count() == old(self).spec_doc_count(),
    ;

    fn set_ngrams(&mut self, ngrams: Ngrams)
        requires
            old(self).wf(),
        ensures
            final(self).wf(),
            final(self).spec_ngrams() == ngrams,
            final(self).spec_max_tokens() == old(self).spec_max_tokens(),
            final(self).spec_use_lowercase() == old(self).spec_use_lowercase(),
            final(self).spec_stop_words() == old(self).spec_stop_words(),
            final(self).spec_vocab() == old(self).spec_vocab(),
            final(self).spec_doc_count() == old(self).spec_doc_count(),
    ;

    /// The vocabulary tokens, ordered by index.
    fn get_tokens(&self) -> (r: Vec<String>)
        requires
            self.wf(),
        ensures
            r@.len() == self.spec_vocab().len(),
            forall|i: int| 0 <= i < r@.len() ==> str_views(r@)[i] == self.spec_vocab()[i].0,
    ;

    /// The document frequency recorded for a token; no value for a token
    /// outside the vocabulary, which is different from a frequency of zero.
    fn get_term_frequency(&self, token: &str) -> (r: Option<usize>)
        requires
            self.wf(),
        ensures
            match r {
                Option::Some(f) => has_token(self.spec_vocab(), token@) && f as nat == freq_of(
                    self.spec_vocab(),
                    token@,
                ),
                Option::None => !has_token(self.spec_vocab(), token@),
            },
    ;

    /// How many documents the vocabulary was built from.
    fn get_doc_count(&self) -> (r: usize)
        requires
            self.wf(),
        ensures
            r == self.spec_doc_count(),
    ;

    /// The token at a vocabulary index: the reverse lookup.
    fn get_token_from_idx(&self, idx: usize) -> (r: String)
        requires
            self.wf(),
            idx < self.spec_vocab().len(),
        ensures
            r@ == self.spec_vocab()[idx as int].0,
    ;
}

/// The closed set of tokenizer implementations a vectorizer can own;
/// selected by configuration.
pub enum Tokenizer {
    Bag(crate::bag_of_words::BagOfWords),
    Simple(crate::simple_tokenizer::SimpleTokenizer),
}

impl Tokenize for Tokenizer {
    open spec fn spec_max_tokens(&self) -> int {
        match self {
            Tokenizer::Bag(t) => t.spec_max_tokens(),
            Tokenizer::Simple(t) => t.spec_max_tokens(),
        }
    }

    open spec fn spec_use_lowercase(&self) -> bool {
        match self {
            Tokenizer::Bag(t) => t.spec_use_lowercase(),
            Tokenizer::Simple(t) => t.spec_use_lowercase(),
        }
    }

    open spec fn spec_stop_words(&self) -> Seq<Seq<char>> {
        match self {
            Tokenizer::Bag(t) => t.spec_stop_words(),
            Tokenizer::Simple(t) => t.spec_stop_words(),
        }
    }

    open spec fn spec_ngrams(&self) -> Ngrams {
        match self {
            Tokenizer::Bag(t) => t.spec_ngrams(),
            Tokenizer::Simple(t) => t.spec_ngrams(),
        }
    }

    open spec fn spec_vocab(&self) -> Seq<(Seq<char>, nat)> {
        match self {
            Tokenizer::Bag(t) => t.spec_vocab(),
            Tokenizer::Simple(t) => t.spec_vocab(),
        }
    }

    open spec fn spec_doc_count(&self) -> nat {
        match self {
            Tokenizer::Bag(t) => t.spec_doc_count(),
            Tokenizer::Simple(t) => t.spec_doc_count(),
        }
    }

    open spec fn wf(&self) -> bool {
        match self {
            Tokenizer::Bag(t) => t.wf(),
            Tokenizer::Simple(t) => t.wf(),
        }
    }

    open spec fn spec_sanitize(&self, line: Seq<char>) -> Seq<char> {
        match self {
            Tokenizer::Bag(t) => t.spec_sanitize(line),
            Tokenizer::Simple(t) => t.spec_sanitize(line),
        }
    }

    open spec fn spec_line_tokens(&self, line: Seq<char>) -> Seq<Seq<char>> {
        match self {
            Tokenizer::Bag(t) => t.spec_line_tokens(line),
            Tokenizer::Simple(t) => t.spec_line_tokens(line),
        }
    }

    open spec fn spec_built_vocab(&self, docs: Seq<Seq<char>>) -> Seq<(Seq<char>, nat)> {
        match self {
            Tokenizer::Bag(t) => t.spec_built_vocab(docs),
            Tokenizer::Simple(t) => t.spec_built_vocab(docs),
        }
    }

    open spec fn spec_encode(&self, line: Seq<char>) -> Seq<nat> {
        match self {
            Tokenizer::Bag(t) => t.spec_encode(line),
            Tokenizer::Simple(t) => t.spec_encode(line),
        }
    }

    open spec fn spec_decode(&self, input: Seq<usize>) -> Option<Seq<char>> {
        match self {
            Tokenizer::Bag(t) => t.spec_decode(input),
            Tokenizer::Simple(t) => t.spec_decode(input),
        }
    }

    fn create_tokens(&mut self, data: &Vec<String>) {
        match self {
            Tokenizer::Bag(t) => t.create_tokens(data),
            Tokenizer::Simple(t) => t.create_tokens(data),
        }
    }

    fn encode(&self, input: &str) -> (r: Option<Vec<usize>>) {
        match self {
            Tokenizer::Bag(t) => t.encode(input),
            Tokenizer::Simple(t) => t.encode(input),
        }
    }

    fn decode(&self, input: &[usize]) -> (r: Option<String>) {
        match self {
            Tokenizer::Bag(t) => t.decode(input),
            Tokenizer::Simple(t) => t.decode(input),
        }
    }

    fn sanitize_line(&self, line: String) -> (r: String) {
        match self {
            Tokenizer::Bag(t) => t.sanitize_line(line),
            Tokenizer::Simple(t) => t.sanitize_line(line),
        }
    }

    fn set_max_tokens(&mut self, max_tokens: i32) {
        match self {
            Tokenizer::Bag(t) => t.set_max_tokens(max_tokens),
            Tokenizer::Simple(t) => t.set_max_tokens(max_tokens),
        }
    }

    fn set_use_lowercase(&mut self, use_lowercase: bool) {
        match self {
            Tokenizer::Bag(t) => t.set_use_lowercase(use_lowercase),
            Tokenizer::Simple(t) => t.set_use_lowercase(use_lowercase),
        }
    }

    fn set_stop_words(&mut self, stop_words: Option<Vec<String>>) {
        match self {
            Tokenizer::Bag(t) => t.set_stop_words(stop_words),
            Tokenizer::Simple(t) => t.set_stop_words(stop_words),
        }
    }

    fn set_ngrams(&mut self, ngrams: Ngrams) {
        match self {
            Tokenizer::Bag(t) => t.set_ngrams(ngrams),
            Tokenizer::Simple(t) => t.set_ngrams(ngrams),
        }
    }

    fn get_tokens(&self) -> (r: Vec<String>) {
        match self {
            Tokenizer::Bag(t) => t.get_tokens(),
            Tokenizer::Simple(t) => t.get_tokens(),
        }
    }

    fn get_term_frequency(&self, token: &str) -> (r: Option<usize>) {
        match self {
            Tokenizer::Bag(t) => t.get_term_frequency(token),
            Tokenizer::Simple(t) => t.get_term_frequency(token),
        }
    }

    fn get_doc_count(&self) -> (r: usize) {
        match self {
            Tokenizer::Bag(t) => t.get_doc_count(),
            Tokenizer::Simple(t) => t.get_doc_count(),
        }
    }

    fn get_token_from_idx(&self, idx: usize) -> (r: String) {
        match self {
            Tokenizer::Bag(t) => t.get_token_from_idx(idx),
            Tokenizer::Simple(t) => t.get_token_from_idx(idx),
        }
    }
}

} // verus!
