use tokenz::{PatternError, Tokenizer};

#[test]
fn empty_text_gives_no_tokens() {
    let tokenizer = Tokenizer::english();
    assert!(tokenizer.tokenize("").is_empty());
    assert!(tokenizer.tokenize(" \r\n\t ").is_empty());
}

#[test]
fn pure_punctuation_splits_per_char() {
    let tokenizer = Tokenizer::english();
    assert_eq!(tokenizer.tokenize(".?-+*"), vec![".", "?", "-", "+", "*"]);
}

#[test]
fn punctuation_tokens_rejoined_split_the_same() {
    let tokenizer = Tokenizer::english();
    let first = tokenizer.tokenize("!,.?");
    let joined: String = first.iter().map(|t| t.as_str()).collect();
    assert_eq!(joined, "!,.?");
    assert_eq!(tokenizer.tokenize(&joined), first);
}

#[test]
fn contraction_tail_is_split() {
    let tokenizer = Tokenizer::english();
    assert_eq!(tokenizer.tokenize("I'm"), vec!["I", "'m"]);
    assert_eq!(tokenizer.tokenize("don't 50%"), vec!["don", "'t", "50", "%"]);
}

#[test]
fn currency_prefix_comes_after_middle() {
    let tokenizer = Tokenizer::english();
    assert_eq!(tokenizer.find_prefix("$2"), 1);
    assert_eq!(tokenizer.find_prefix("2$"), 0);
    assert_eq!(tokenizer.tokenize("$2"), vec!["2", "$"]);
    assert_eq!(tokenizer.tokenize("$"), vec!["$"]);
}

#[test]
fn suffix_lengths() {
    let tokenizer = Tokenizer::english();
    assert_eq!(tokenizer.find_suffix("I'm"), 2);
    assert_eq!(tokenizer.find_suffix("50%"), 1);
    assert_eq!(tokenizer.find_suffix("word"), 0);
}

#[test]
fn urls_are_kept_whole() {
    let tokenizer = Tokenizer::english();
    assert_eq!(
        tokenizer.tokenize("see http://a.b/c, ok"),
        vec!["see", "http://a.b/c,", "ok"]
    );
    assert_eq!(tokenizer.tokenize("httpx://a.b"), vec!["httpx://a", ".", "b"]);
}

#[test]
fn infix_segments_get_affixes() {
    let tokenizer = Tokenizer::english();
    assert_eq!(
        tokenizer.tokenize("$5,it's"),
        vec!["5", "$", ",", "it", "'s"]
    );
}

#[test]
fn overlapping_prefix_and_suffix() {
    let tokenizer = Tokenizer::new(&[], &[], &["ab"], &["bc"]).unwrap();
    assert_eq!(tokenizer.tokenize("abc"), vec!["ab", "c"]);
    assert_eq!(tokenizer.tokenize("abxbc"), vec!["x", "ab", "bc"]);
}

#[test]
fn longest_infix_wins() {
    let tokenizer = Tokenizer::new(&[], &["-", "--"], &[], &[]).unwrap();
    assert_eq!(tokenizer.tokenize("a--b-c"), vec!["a", "--", "b", "-", "c"]);
}

#[test]
fn empty_literal_is_refused() {
    assert_eq!(
        Tokenizer::new(&[""], &[""], &[], &[]).err(),
        Some(PatternError::EmptyException)
    );
    assert_eq!(
        Tokenizer::new(&["x"], &["-", ""], &[""], &[]).err(),
        Some(PatternError::EmptyInfix)
    );
    assert_eq!(
        Tokenizer::new(&[], &[], &[""], &[""]).err(),
        Some(PatternError::EmptyPrefix)
    );
    assert_eq!(
        Tokenizer::new(&[], &[], &[], &["%", ""]).err(),
        Some(PatternError::EmptySuffix)
    );
    assert!(Tokenizer::new(&[], &[], &[], &[]).is_ok());
}

#[test]
fn tokens_borrow_from_input() {
    let tokenizer = Tokenizer::english();
    let text = String::from("a,b");
    let mut tokens = tokenizer.tokenize(&text);
    tokens[0].as_mut_str().push('x');
    assert_eq!(tokens, vec!["ax", ",", "b"]);
    assert_eq!(text, "a,b");
}

#[test]
fn joined_tokens_are_text_without_whitespace() {
    let tokenizer = Tokenizer::english();
    let text = "Hello,  world! It's 50% off-the-shelf\tat https://x.org.";
    let joined: String = tokenizer
        .tokenize(text)
        .iter()
        .map(|t| t.as_str())
        .collect();
    let visible: String = text.chars().filter(|c| !c.is_whitespace()).collect();
    assert_eq!(joined, visible);
}

#[test]
fn custom_exception_rule() {
    let tokenizer = Tokenizer::new(&["#"], &["."], &[], &[]).unwrap();
    assert_eq!(tokenizer.tokenize("#a.b c.d"), vec!["#a.b", "c", ".", "d"]);
}
