use tokenz::Token;

#[test]
fn test_token_change_case() {
    let s = "Hello";
    let mut token = Token::from(s);
    assert_eq!(token.as_str(), s);
    token.as_mut_str().make_ascii_lowercase();
    assert_ne!(token.as_str(), s);
    assert_eq!(token.as_str(), "hello");
}

#[test]
fn test_token_display() {
    let s = "Hello";
    let token = Token::from(s);
    assert_eq!(token.to_string(), "Hello");
}

#[test]
fn test_token_comp_token() {
    let token1 = Token::from("foo");
    let token2 = Token::from("foo");
    let token3 = Token::from("bar");
    assert_eq!(token1 == token2, true);
    assert_eq!(token1 == token3, false);
    assert_eq!(token1 != token3, true);
}

#[test]
fn test_token_comp_string() {
    let token = Token::from("foo");
    assert_eq!(token == String::from("foo"), true);
    assert_eq!(token == String::from("bar"), false);
    assert_eq!(token != String::from("bar"), true);
}

#[test]
fn test_token_comp_string_slice() {
    let token = Token::from("foo");
    assert_eq!(token == "foo", true);
    assert_eq!(token == "bar", false);
    assert_eq!(token != "bar", true);
}

#[test]
fn test_token() {
    let s = "Hello";
    let mut token = Token::from(s);
    assert_eq!(token.term(), s);
    token.as_mut_str().make_ascii_lowercase();
    assert_ne!(token.term(), s);
    assert_eq!(token.term(), "hello");
}

#[test]
fn token_new_keeps_offset() {
    let token = Token::new("word", Some(3));
    assert_eq!(token.as_str(), "word");
    assert_eq!(token.offset, Some(3));
    assert_eq!(Token::from("word").offset, None);
}

#[test]
fn edit_leaves_source_text_alone() {
    let source = String::from("Hello World");
    let mut token = Token::from(&source[0..5]);
    token.as_mut_str().push_str("!!");
    assert_eq!(source, "Hello World");
    assert_eq!(token.as_str(), "Hello!!");
    token.as_mut_str().make_ascii_uppercase();
    assert_eq!(token.as_str(), "HELLO!!");
    assert_eq!(token.into_string(), String::from("HELLO!!"));
}

#[test]
fn into_string_of_borrowed_token() {
    let token = Token::from("Hello");
    assert_eq!(token.into_string(), String::from("Hello"));
}

#[test]
fn tokens_compare_case_and_whitespace() {
    assert!(Token::from("Foo") != Token::from("foo"));
    assert!(Token::from("foo ") != Token::from("foo"));
    let mut edited = Token::from("FOO");
    edited.as_mut_str().make_ascii_lowercase();
    assert!(edited == Token::from("foo"));
}
