use std::str::SplitWhitespace;

use tokenz::Token;

struct WhitespaceIterator<'a> {
    splitter_iter: SplitWhitespace<'a>,
}

impl<'a> WhitespaceIterator<'a> {
    fn new(input: &'a str) -> Self {
        WhitespaceIterator {
            splitter_iter: input.split_whitespace(),
        }
    }
}

impl<'a> Iterator for WhitespaceIterator<'a> {
    type Item = Token<'a>;

    fn next(&mut self) -> Option<Token<'a>> {
        match self.splitter_iter.next() {
            Some(term) => {
                if term == "foo" {
                    Some(Token::from("bar")) // this just tests that we can completely replace a term.
                } else {
                    Some(Token::from(term))
                }
            }
            None => None,
        }
    }
}

#[derive(Default)]
struct WhitespaceTokenizer;

impl WhitespaceTokenizer {
    fn tokenize<'a>(&self, input: &'a str) -> WhitespaceIterator<'a> {
        WhitespaceIterator::new(input)
    }
}

#[test]
fn test_tokenizer() {
    let tokenizer = WhitespaceTokenizer::default();
    let s = "Hello, World!";
    let tokens: Vec<Token> = tokenizer.tokenize(s).collect();
    assert_eq!(tokens.len(), 2);
}

#[test]
fn test_tokenizer_modify_term() {
    let tokenizer = WhitespaceTokenizer::default();
    let s = "foo bar";
    let tokens: Vec<Token> = tokenizer.tokenize(s).collect();
    assert_eq!(tokens.len(), 2);
    assert_eq!(tokens[0].as_str(), "bar");
}

#[test]
fn test_whitespace_tokenizer() {
    let s = "Hello, World!";
    let tokenizer = tokenz::WhitespaceTokenizer::default();
    let tokens: Vec<Token> = tokenizer.tokenize(s);
    assert_eq!(tokens.len(), 2);
}

#[test]
fn whitespace_tokenizer_terms() {
    let tokenizer = tokenz::WhitespaceTokenizer::new();
    let tokens = tokenizer.tokenize("  Hello,\tWorld!\u{3000}x\u{a0}\r\n");
    assert_eq!(tokens, vec!["Hello,", "World!", "x"]);
    assert!(tokenizer.tokenize("").is_empty());
    assert!(tokenizer.tokenize(" \t\n ").is_empty());
}

#[test]
fn whitespace_iterator_walks_candidates() {
    let mut it = tokenz::WhitespaceIterator::new(" a  bc d ");
    assert_eq!(it.next().unwrap(), "a");
    assert_eq!(it.next().unwrap(), "bc");
    assert_eq!(it.next().unwrap(), "d");
    assert!(it.next().is_none());
    assert!(it.next().is_none());
}
