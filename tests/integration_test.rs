use tokenz::Tokenizer;

#[test]
fn test_english_tokenize() {
    let tokenizer = Tokenizer::english();
    let s = String::from("HeÌllo,, World!-huh?\r\nğŸ˜ƒ my website is https://epwalsh.com");
    let tokens = tokenizer.tokenize(&s);
    assert_eq!(
        tokens,
        vec![
            "HeÌllo",
            ",",
            ",",
            "World",
            "!",
            "-",
            "huh",
            "?",
            "ğŸ˜ƒ",
            "my",
            "website",
            "is",
            "https://epwalsh.com",
        ]
    );
}
