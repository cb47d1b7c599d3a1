use wingbeat::inference::tokenizer::{
    AnyTokenizer, BPETokenizer, SimpleTokenizer, Token, Tokenizer, TokenizerFactory,
};

fn special(vocab_of: &dyn Fn(&str) -> Option<u32>, reverse_of: &dyn Fn(u32) -> Option<String>) {
    for (id, text) in ["<pad>", "<unk>", "<sos>", "<eos>"].iter().enumerate() {
        assert_eq!(vocab_of(text), Some(id as u32));
        assert_eq!(reverse_of(id as u32), Some(text.to_string()));
    }
}

fn flat(tokens: &[Token]) -> Vec<(u32, String, usize, usize)> {
    tokens.iter().map(|t| (t.id, t.text.clone(), t.start, t.end)).collect()
}

#[test]
fn a_new_simple_tokenizer_knows_the_special_tokens() {
    let tokenizer = SimpleTokenizer::new();
    assert_eq!(tokenizer.vocab_size, 4);
    assert_eq!(tokenizer.vocab_size(), 4);
    assert_eq!(tokenizer.vocab.len(), 4);
    assert_eq!(tokenizer.reverse_vocab.len(), 4);
    special(&|text| tokenizer.vocab.get(text).copied(), &|id| {
        tokenizer.reverse_vocab.get(&id).cloned()
    });
}

#[test]
fn words_enter_the_vocabulary_by_falling_count() {
    let mut tokenizer = SimpleTokenizer::new();
    tokenizer.build_from_text("b a c a b a d", 100);
    // a stands three times, b twice, c and d once, c before d
    assert_eq!(tokenizer.vocab.get("a"), Some(&4));
    assert_eq!(tokenizer.vocab.get("b"), Some(&5));
    assert_eq!(tokenizer.vocab.get("c"), Some(&6));
    assert_eq!(tokenizer.vocab.get("d"), Some(&7));
    assert_eq!(tokenizer.reverse_vocab.get(&4), Some(&"a".to_string()));
    assert_eq!(tokenizer.reverse_vocab.get(&7), Some(&"d".to_string()));
    assert_eq!(tokenizer.vocab_size, 8);
    assert_eq!(tokenizer.vocab.len(), 8);
}

#[test]
fn equally_frequent_words_enter_in_the_order_of_the_text() {
    let mut tokenizer = SimpleTokenizer::new();
    tokenizer.build_from_text("zeta alpha mid zeta alpha", 100);
    assert_eq!(tokenizer.vocab.get("zeta"), Some(&4));
    assert_eq!(tokenizer.vocab.get("alpha"), Some(&5));
    assert_eq!(tokenizer.vocab.get("mid"), Some(&6));
}

#[test]
fn the_limit_stops_the_vocabulary() {
    let mut tokenizer = SimpleTokenizer::new();
    tokenizer.build_from_text("a a a b b c", 6);
    assert_eq!(tokenizer.vocab_size, 6);
    assert_eq!(tokenizer.vocab.get("a"), Some(&4));
    assert_eq!(tokenizer.vocab.get("b"), Some(&5));
    assert_eq!(tokenizer.vocab.get("c"), None);

    // a limit at or under the count adds nothing
    for limit in [0usize, 3, 6] {
        tokenizer.build_from_text("x y z", limit);
        assert_eq!(tokenizer.vocab_size, 6);
        assert_eq!(tokenizer.vocab.get("x"), None);
    }
}

#[test]
fn a_known_word_gets_the_new_number() {
    let mut tokenizer = SimpleTokenizer::new();
    tokenizer.build_from_text("<pad> <pad> w", 100);
    assert_eq!(tokenizer.vocab.get("<pad>"), Some(&4));
    assert_eq!(tokenizer.vocab.get("w"), Some(&5));
    assert_eq!(tokenizer.reverse_vocab.get(&0), Some(&"<pad>".to_string()));
    assert_eq!(tokenizer.reverse_vocab.get(&4), Some(&"<pad>".to_string()));
    assert_eq!(tokenizer.vocab_size, 6);
    assert_eq!(tokenizer.vocab.len(), 5);
}

#[test]
fn a_text_without_words_adds_nothing() {
    let mut tokenizer = SimpleTokenizer::new();
    tokenizer.build_from_text("  \n\t ", 100);
    assert_eq!(tokenizer.vocab_size, 4);
}

#[test]
fn simple_encoding_counts_one_separator_after_each_word() {
    let mut tokenizer = SimpleTokenizer::new();
    tokenizer.build_from_text("hello world", 100);
    let tokens = tokenizer.encode("  hello   wörld hello ").unwrap();
    assert_eq!(
        flat(&tokens),
        vec![
            (4, "hello".to_string(), 0, 5),
            (1, "wörld".to_string(), 6, 12),
            (4, "hello".to_string(), 13, 18),
        ]
    );
    assert!(tokenizer.encode("").unwrap().is_empty());
}

#[test]
fn simple_decoding_joins_with_spaces() {
    let tokenizer = SimpleTokenizer::new();
    let tokens = tokenizer.encode("to be  or not").unwrap();
    assert_eq!(tokenizer.decode(&tokens), Ok("to be or not".to_string()));
    assert_eq!(tokenizer.decode(&[]), Ok(String::new()));
    assert_eq!(tokenizer.decode(&tokens[..1]), Ok("to".to_string()));
}

#[test]
fn a_new_bpe_tokenizer_knows_the_special_tokens() {
    let tokenizer = BPETokenizer::new();
    assert_eq!(tokenizer.vocab_size, 4);
    assert!(tokenizer.merges.is_empty());
    special(&|text| tokenizer.vocab.get(text).copied(), &|id| {
        tokenizer.reverse_vocab.get(&id).cloned()
    });
}

#[test]
fn training_adds_characters_in_the_order_of_the_text() {
    let mut tokenizer = BPETokenizer::new();
    tokenizer.train("ab  ba\tcé a", 10);
    assert_eq!(tokenizer.vocab.get("a"), Some(&4));
    assert_eq!(tokenizer.vocab.get("b"), Some(&5));
    assert_eq!(tokenizer.vocab.get("c"), Some(&6));
    assert_eq!(tokenizer.vocab.get("é"), Some(&7));
    assert_eq!(tokenizer.vocab.get(" "), None);
    assert_eq!(tokenizer.reverse_vocab.get(&7), Some(&"é".to_string()));
    assert_eq!(tokenizer.vocab_size, 8);
    assert!(tokenizer.merges.is_empty());
    // training again on known characters changes nothing
    tokenizer.train("abc", 0);
    assert_eq!(tokenizer.vocab_size, 8);
}

#[test]
fn bpe_encoding_counts_the_bytes_of_each_character() {
    let mut tokenizer = BPETokenizer::new();
    tokenizer.train("aé", 0);
    let tokens = tokenizer.encode("a é€a").unwrap();
    assert_eq!(
        flat(&tokens),
        vec![
            (4, "a".to_string(), 0, 1),
            (1, " ".to_string(), 1, 2),
            (5, "é".to_string(), 2, 4),
            (1, "€".to_string(), 4, 7),
            (4, "a".to_string(), 7, 8),
        ]
    );
    assert_eq!(tokenizer.decode(&tokens), Ok("a é€a".to_string()));
    assert!(tokenizer.encode("").unwrap().is_empty());
    assert_eq!(tokenizer.decode(&[]), Ok(String::new()));
}

#[test]
fn the_factory_makes_tokenizers_by_name() {
    assert!(matches!(TokenizerFactory::create_tokenizer("bpe"), AnyTokenizer::Bpe(_)));
    assert!(matches!(TokenizerFactory::create_tokenizer("simple"), AnyTokenizer::Simple(_)));
    assert!(matches!(TokenizerFactory::create_tokenizer(""), AnyTokenizer::Simple(_)));
    assert!(matches!(TokenizerFactory::create_tokenizer("BPE"), AnyTokenizer::Simple(_)));

    let bpe = TokenizerFactory::create_tokenizer("bpe");
    assert_eq!(bpe.vocab_size(), 4);
    assert_eq!(bpe.encode("ab").unwrap().len(), 2);
    let simple = TokenizerFactory::create_tokenizer("anything");
    assert_eq!(simple.vocab_size(), 4);
    let tokens = simple.encode("ab cd").unwrap();
    assert_eq!(tokens.len(), 2);
    assert_eq!(tokens[0].id, 1);
    assert_eq!(simple.decode(&tokens), Ok("ab cd".to_string()));
    let marked = simple.encode("<sos> x <eos>").unwrap();
    assert_eq!(marked.iter().map(|t| t.id).collect::<Vec<u32>>(), vec![2, 1, 3]);
}
