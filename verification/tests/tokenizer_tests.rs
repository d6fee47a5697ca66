use rustml::bag_of_words::BagOfWords;
use rustml::ngrams::Ngrams;
use rustml::simple_tokenizer::SimpleTokenizer;
use rustml::tokenizers::Tokenize;

// Document frequency, not corpus frequency: "beep" repeats inside one
// document but counts once for it.
#[test]
fn bag_of_words_doc_count_test() {
    let mut st = BagOfWords::new(100, true, None);
    st.create_tokens(&vec![
        String::from("Hello, my name is bob!"),
        String::from("Beep beep I'm a bot"),
        String::from("Beep boop I'm a bob!"),
    ]);

    assert_eq!(st.get_term_frequency("beep"), Some(2));
    assert_eq!(st.get_term_frequency("bob"), Some(2));
}

#[test]
fn bigram_test() {
    let mut st = BagOfWords::new(100, true, None);
    st.set_ngrams(Ngrams::Bigram);
    st.create_tokens(&vec![String::from("Hello, my name is bob!")]);
    let mut test_data = vec!["UNK", "hello my", "my name", "name is", "is bob"];
    test_data.sort_unstable();

    let mut st_tokens = st.get_tokens();
    st_tokens.sort_unstable();

    assert_eq!(st_tokens, test_data);
}

#[test]
fn bothgram_test() {
    let mut st = BagOfWords::new(100, true, None);
    st.set_ngrams(Ngrams::Both);
    st.create_tokens(&vec![String::from("Hello, my name is bob!")]);
    let mut test_data = vec![
        "UNK", "hello my", "my name", "name is", "is bob", "hello", "my", "name", "is", "bob",
    ];
    test_data.sort_unstable();

    let mut st_tokens = st.get_tokens();
    st_tokens.sort_unstable();

    assert_eq!(st_tokens, test_data);
}

#[test]
fn encode_test() {
    let mut st = SimpleTokenizer::new(100, true, None);
    st.create_tokens(&vec![
        String::from("Hello, my name is bob!"),
        String::from("Beep boop I'm a bot"),
        String::from("Beep boop I'm a bob!"),
    ]);
    let mut tokens = st.get_tokens();
    tokens.sort_unstable();
    let test_data: Vec<String> = vec![String::from("Hello, I'm Bloop!")];
    let test_data = st.encode(&test_data[0]);
    println!("{:?}", tokens);
    assert_eq!(test_data, Some(vec![1, 8, 9, 0]));
}

#[test]
fn decode_test() {
    let mut st = SimpleTokenizer::new(100, true, None);
    st.create_tokens(&vec![
        String::from("Hello, my name is bob!"),
        String::from("Beep boop I'm a bot"),
        String::from("Beep boop I'm a bob!"),
    ]);
    let test_data: Vec<String> = vec![String::from("Hello, I'm Bloop!")];
    let test_data = st.encode(&test_data[0]);

    assert_eq!(
        st.decode(&test_data.unwrap()).unwrap(),
        String::from("hello i m UNK")
    )
}

// Document frequency again, on the word-splitting tokenizer.
#[test]
fn simple_tokenizer_doc_count_test() {
    let mut st = SimpleTokenizer::new(100, true, None);
    st.create_tokens(&vec![
        String::from("Hello, my name is bob!"),
        String::from("Beep beep I'm a bot"),
        String::from("Beep boop I'm a bob!"),
    ]);

    assert_eq!(st.term_frequency("beep"), Some(2));
    assert_eq!(st.term_frequency("bob"), Some(2));
}

#[test]
fn ngram_test() {
    let mut st = SimpleTokenizer::new(100, true, None);
    st.set_ngrams(Ngrams::Bigram);
    st.create_tokens(&vec![String::from("Hello, my name is bob!")]);
    let mut test_data = vec!["UNK", "hello my", "my name", "name is", "is bob"];
    test_data.sort_unstable();

    let mut st_tokens = st.get_tokens();
    st_tokens.sort_unstable();

    assert_eq!(st_tokens, test_data);
}

// The bag-of-words vocabulary of the three-line corpus holds exactly the
// ten distinct sanitized tokens plus the sentinel, and counts documents.
#[test]
fn unigram_vocabulary_scenario_test() {
    let mut st = BagOfWords::new(100, true, None);
    st.create_tokens(&vec![
        String::from("Hello, my name is bob!"),
        String::from("Beep boop I'm a bot"),
        String::from("Beep boop I'm a bob!"),
    ]);
    let mut tokens = st.get_tokens();
    tokens.sort_unstable();
    let mut expected = vec![
        "UNK", "hello", "my", "name", "is", "bob", "beep", "boop", "i'm", "a", "bot",
    ];
    expected.sort_unstable();
    assert_eq!(tokens, expected);
    assert_eq!(st.get_term_frequency("beep"), Some(2));
    assert_eq!(st.get_term_frequency("bob"), Some(2));
    assert_eq!(st.get_doc_count(), 3);
}

// The apostrophe splits contractions for the word-splitting tokenizer but
// not for the bag-of-words one.
#[test]
fn sanitize_line_test() {
    let bag = BagOfWords::new(100, true, None);
    assert_eq!(bag.sanitize_line(String::from("Don't!")), "don't");
    let simple = SimpleTokenizer::new(100, true, None);
    assert_eq!(simple.sanitize_line(String::from("Don't!")), "don t");
}

// A literal `<br ` marker reads as a space.
#[test]
fn break_marker_test() {
    let mut st = SimpleTokenizer::new(100, true, None);
    st.create_tokens(&vec![String::from("a<br b")]);
    let mut tokens = st.get_tokens();
    tokens.sort_unstable();
    assert_eq!(tokens, vec!["UNK", "a", "b"]);
}

// With a cap of one, the highest document frequency wins and ties break by
// first appearance.
#[test]
fn truncation_rank_test() {
    let mut st = BagOfWords::new(1, true, None);
    st.create_tokens(&vec![String::from("a b"), String::from("b c")]);
    assert_eq!(st.get_tokens(), vec!["UNK", "b"]);
}

// The bag-of-words ranking reassigns dense indices: highest frequency
// first, ties in first-seen order.
#[test]
fn rank_order_test() {
    let mut st = BagOfWords::new(100, true, None);
    st.create_tokens(&vec![String::from("a b"), String::from("b c")]);
    assert_eq!(st.get_tokens(), vec!["UNK", "b", "a", "c"]);
    assert_eq!(st.get_token_from_idx(1), "b");
}

// The word-splitting tokenizer selects by frequency but keeps first-seen
// index order for what stays.
#[test]
fn simple_truncation_keeps_order_test() {
    let mut st = SimpleTokenizer::new(2, true, None);
    st.create_tokens(&vec![String::from("a b"), String::from("b c")]);
    assert_eq!(st.get_tokens(), vec!["UNK", "a", "b"]);
    assert_eq!(st.encode("c a"), Some(vec![0, 1]));
}

fn stop_words() -> Vec<String> {
    vec![
        String::from("i"),
        String::from("m"),
        String::from("my"),
        String::from("is"),
        String::from("a"),
    ]
}

#[test]
fn bag_of_words_create_tokens_test() {
    let mut st = BagOfWords::new(100, true, Some(stop_words()));
    st.create_tokens(&vec![
        String::from("Hello,  my name is bob!"),
        String::from("Beep boop I'm a bot"),
        String::from("Beep boop I'm a bob!"),
    ]);
    let tokens = st.get_tokens();
    let test_data = vec!["UNK", "hello", "name", "bob", "i'm", "beep", "boop", "bot"];
    println!("{:?}", tokens);
    let tmp = tokens
        .iter()
        .filter(|&x| !test_data.contains(&&x[..]))
        .collect::<Vec<&String>>()
        .len();
    assert_eq!(tmp, 0);
}

#[test]
fn simple_tokenizer_create_tokens_test() {
    let mut st = SimpleTokenizer::new(100, true, Some(stop_words()));
    st.create_tokens(&vec![
        String::from("Hello, my name is bob!"),
        String::from("Beep boop I'm a bot"),
        String::from("Beep boop I'm a bob!"),
    ]);
    let mut tokens = st.get_tokens();
    tokens.sort_unstable();
    let mut test_data = vec!["UNK", "beep", "bob", "boop", "bot", "hello", "name"];
    test_data.sort_unstable();
    assert_eq!(tokens, test_data);
}

// Stop words leave before n-grams form.
#[test]
fn bothgram_with_stop_test() {
    let mut st = BagOfWords::new(100, true, Some(stop_words()));
    st.set_ngrams(Ngrams::Both);
    st.create_tokens(&vec![String::from("Hello, my name is bob!")]);
    let mut test_data = vec!["UNK", "bob", "hello", "hello name", "name", "name bob"];
    test_data.sort_unstable();

    let mut st_tokens = st.get_tokens();
    st_tokens.sort_unstable();

    assert_eq!(st_tokens, test_data);
}

// An empty corpus still yields the sentinel slot and a document count of 0.
#[test]
fn empty_corpus_test() {
    let mut st = BagOfWords::new(100, true, None);
    st.create_tokens(&vec![]);
    assert_eq!(st.get_tokens(), vec!["UNK"]);
    assert_eq!(st.get_doc_count(), 0);
    assert_eq!(st.encode("anything"), Some(vec![1]));
}

// A document of only punctuation reduces to nothing and adds no token.
#[test]
fn punctuation_only_document_test() {
    let mut st = BagOfWords::new(100, true, None);
    st.create_tokens(&vec![String::from("!!! ???"), String::from("a")]);
    let mut tokens = st.get_tokens();
    tokens.sort_unstable();
    assert_eq!(tokens, vec!["UNK", "a"]);
    assert_eq!(st.get_doc_count(), 2);
}

// A doubled space yields an empty piece, which never becomes a token.
#[test]
fn double_space_test() {
    let mut st = BagOfWords::new(100, true, None);
    st.create_tokens(&vec![String::from("Hello,  my name is bob!")]);
    let mut tokens = st.get_tokens();
    tokens.sort_unstable();
    let mut expected = vec!["UNK", "hello", "my", "name", "is", "bob"];
    expected.sort_unstable();
    assert_eq!(tokens, expected);
}

// The sentinel's name is reserved: a corpus token spelled exactly like it
// is dropped rather than shadowing the unknown slot. Lowercasing makes the
// collision disappear.
#[test]
fn sentinel_name_reserved_test() {
    let mut st = BagOfWords::new(100, false, None);
    st.create_tokens(&vec![String::from("UNK x")]);
    let mut tokens = st.get_tokens();
    tokens.sort_unstable();
    assert_eq!(tokens, vec!["UNK", "x"]);

    let mut st = BagOfWords::new(100, true, None);
    st.create_tokens(&vec![String::from("UNK x")]);
    let mut tokens = st.get_tokens();
    tokens.sort_unstable();
    assert_eq!(tokens, vec!["UNK", "unk", "x"]);
}

// Only ASCII characters carry word meaning; anything else is punctuation
// and is stripped or spaced off.
#[test]
fn non_ascii_is_punctuation_test() {
    let mut st = BagOfWords::new(100, true, None);
    st.create_tokens(&vec![String::from("caf\u{e9} bien")]);
    let mut tokens = st.get_tokens();
    tokens.sort_unstable();
    assert_eq!(tokens, vec!["UNK", "bien", "caf"]);
}

// A non-positive cap is ignored by the setter.
#[test]
fn set_max_tokens_ignores_nonpositive_test() {
    let mut st = BagOfWords::new(7, true, None);
    st.set_max_tokens(-3);
    assert_eq!(st.max_tokens, 7);
    st.set_max_tokens(0);
    assert_eq!(st.max_tokens, 7);
    st.set_max_tokens(5);
    assert_eq!(st.max_tokens, 5);
}

// Looking up a token that never entered the vocabulary is an absent value,
// not a zero.
#[test]
fn unknown_token_frequency_test() {
    let mut st = BagOfWords::new(100, true, None);
    st.create_tokens(&vec![String::from("a b")]);
    assert_eq!(st.get_term_frequency("zebra"), None);
    assert_eq!(st.get_term_frequency("a"), Some(1));
}

// Decoding an index outside the vocabulary reads as the sentinel.
#[test]
fn decode_unknown_index_test() {
    let mut st = SimpleTokenizer::new(100, true, None);
    st.create_tokens(&vec![String::from("a b")]);
    assert_eq!(st.decode(&[1, 99]).unwrap(), "a UNK");
}

// Before any corpus is processed, encode and decode give no value.
#[test]
fn unbuilt_tokenizer_test() {
    let st = SimpleTokenizer::new(100, true, None);
    assert_eq!(st.encode("a"), None);
    assert_eq!(st.decode(&[1]), None);
    let bag = BagOfWords::new(100, true, None);
    assert_eq!(bag.encode("a"), None);
}

// The bag-of-words decode is never supported.
#[test]
fn bag_decode_unsupported_test() {
    let mut st = BagOfWords::new(100, true, None);
    st.create_tokens(&vec![String::from("a b")]);
    assert_eq!(st.decode(&[1]), None);
}
