use rustml::bag_of_words::BagOfWords;
use rustml::frequency::FrequencyVectorizer;
use rustml::frequencybuilder::FrequencyVectorizerBuilder;
use rustml::math::Norm;
use rustml::ngrams::Ngrams;
use rustml::simple_tokenizer::SimpleTokenizer;
use rustml::tokenizers::Tokenizer;

// The count matrix of the three-line corpus under the default bag-of-words
// tokenizer: indices are ranked by document frequency with first-seen
// tie-break, so bob=1, beep=2, boop=3, i'm=4, a=5, hello=6, my=7, name=8,
// is=9, bot=10, and slot 0 is the sentinel.
#[test]
fn vectorize_counts_test() {
    let test_data = vec![
        String::from("Hello, my name is bob!"),
        String::from("Beep boop I'm a bot"),
        String::from("Beep boop I'm a bob!"),
    ];
    let mut vectorizer = FrequencyVectorizer::default();
    vectorizer.gen_tokens(&test_data);
    let test = vectorizer.vectorize_counts(&test_data);

    assert_eq!(
        test.unwrap(),
        vec![
            vec![0, 1, 0, 0, 0, 0, 1, 1, 1, 1, 0],
            vec![0, 0, 1, 1, 1, 1, 0, 0, 0, 0, 1],
            vec![0, 1, 1, 1, 1, 1, 0, 0, 0, 0, 0],
        ]
    );
}

// Vectorizing twice with the same input and unchanged vocabulary yields
// identical output.
#[test]
fn vectorize_idempotent_test() {
    let corpus = vec![
        String::from("Hello, my name is bob!"),
        String::from("Beep boop I'm a bot"),
    ];
    let mut vectorizer = FrequencyVectorizer::default();
    vectorizer.gen_tokens(&corpus);
    let first = vectorizer.vectorize_counts(&corpus);
    let second = vectorizer.vectorize_counts(&corpus);
    assert!(first.is_some());
    assert_eq!(first, second);
}

// A never-seen word counts exactly at the unknown slot, touching no other
// index.
#[test]
fn unknown_word_counts_at_zero_test() {
    let corpus = vec![String::from("hello world")];
    let mut vectorizer = FrequencyVectorizer::default();
    vectorizer.gen_tokens(&corpus);
    assert_eq!(vectorizer.get_tokens(), vec!["UNK", "hello", "world"]);
    let out = vectorizer.vectorize_counts(&vec![String::from("hello zorp")]);
    assert_eq!(out.unwrap(), vec![vec![1, 1, 0]]);
}

// Vectorizing before the vocabulary exists gives no value, not a crash.
#[test]
fn vectorize_before_gen_tokens_test() {
    let vectorizer = FrequencyVectorizer::default();
    let out = vectorizer.vectorize_counts(&vec![String::from("hello")]);
    assert_eq!(out, None);
}

// The builder accumulates every option and hands it to the vectorizer.
#[test]
fn builder_options_test() {
    let builder = FrequencyVectorizerBuilder::new(50, true)
        .with_tfidf(true)
        .with_norm(Norm::L2)
        .with_stop_words(vec![String::from("is")])
        .with_ngram_type(Ngrams::Bigram);
    let vectorizer = builder.build();
    assert_eq!(vectorizer.max_features, 50);
    assert!(vectorizer.use_lowercase);
    assert!(vectorizer.use_tfidf);
    assert_eq!(vectorizer.norm, Some(Norm::L2));
    assert_eq!(vectorizer.stop_words, Some(vec![String::from("is")]));
    assert_eq!(vectorizer.ngrams, Ngrams::Bigram);
}

// gen_tokens pushes the stop words into the tokenizer: they never reach the
// vocabulary, and the vectorizer's own copy moves out.
#[test]
fn gen_tokens_moves_stop_words_test() {
    let builder = FrequencyVectorizerBuilder::new(100, true)
        .with_stop_words(vec![String::from("a")]);
    let mut vectorizer = builder.build();
    vectorizer.gen_tokens(&vec![String::from("a b")]);
    assert_eq!(vectorizer.get_tokens(), vec!["UNK", "b"]);
    assert_eq!(vectorizer.stop_words, None);
}

// A replacement tokenizer is used as given.
#[test]
fn builder_with_tokenizer_test() {
    let builder = FrequencyVectorizerBuilder::new(100, true)
        .with_tokenizer(Tokenizer::Simple(SimpleTokenizer::new(100, true, None)));
    let mut vectorizer = builder.build();
    vectorizer.gen_tokens(&vec![String::from("Hello, my name is bob!")]);
    assert_eq!(
        vectorizer.get_tokens(),
        vec!["UNK", "hello", "my", "name", "is", "bob"]
    );
}

// The cap travels from the vectorizer into the tokenizer on gen_tokens.
#[test]
fn gen_tokens_applies_cap_test() {
    let builder = FrequencyVectorizerBuilder::new(100, true)
        .with_tokenizer(Tokenizer::Bag(BagOfWords::new(3, true, None)));
    let mut vectorizer = builder.build();
    vectorizer.gen_tokens(&vec![String::from("a b"), String::from("b c")]);
    // max_features of the vectorizer, 100, overrides the tokenizer's own 3
    assert_eq!(vectorizer.get_tokens(), vec!["UNK", "b", "a", "c"]);
    assert_eq!(vectorizer.get_doc_count(), 2);
    assert_eq!(vectorizer.get_doc_frequencies(), vec![0, 2, 1, 1]);
}
