use semfilter::tokenizer::{Separators, Token, Tokenizer, WHITESPACES};

fn token(position: usize, separator: bool, word: &str) -> Token {
    Token { position, separator, word: String::from(word) }
}

fn tokenizer_for(separators: Vec<&str>) -> Tokenizer {
    let separators = Separators::new(separators).unwrap();
    Tokenizer::new(separators).unwrap()
}

#[test]
fn valid_separator() {
    assert!(Separators::new(vec![WHITESPACES]).is_ok());
    assert!(Separators::new(vec![" "]).is_ok());
    assert!(Separators::new(vec![","]).is_ok());
    assert!(Separators::new(vec![";"]).is_ok());
    assert!(Separators::new(vec!["|"]).is_ok());
}

#[test]
fn valid_separators() {
    assert!(Separators::new(vec![" ", ","]).is_ok());
}

#[test]
fn invalid_separator() {
    assert!(Separators::new(vec!["0"]).is_err());
    assert!(Separators::new(vec!["A"]).is_err());
}

#[test]
fn valid_and_invalid_separators() {
    assert!(Separators::new(vec![" ", "A"]).is_err());
    assert!(Separators::new(vec!["A", " "]).is_err());
}

#[test]
fn comprise() {
    let separators = Separators::new(vec![" "]).unwrap();
    assert!(separators.comprise(' '));
    assert!(!separators.comprise('a'));
}

#[test]
fn comprise_any() {
    let separators = Separators::new(vec![" ", ","]).unwrap();
    assert_eq!(separators.comprise_any("abc def"), " ");
    assert_eq!(separators.comprise_any("abc,def"), ",");
    assert_eq!(separators.comprise_any("abcdef"), "");
}

#[test]
fn value_only() {
    let tokens = tokenizer_for(vec![" "]).tokens("test");
    assert_eq!(&tokens, &[token(0, false, "test")]);
}

#[test]
fn separator_only() {
    let tokens = tokenizer_for(vec![" "]).tokens(" ");
    assert_eq!(&tokens, &[token(0, true, " ")]);
}

#[test]
fn separators_only() {
    let tokens = tokenizer_for(vec![" "]).tokens("  ");
    assert_eq!(&tokens, &[token(0, true, " "), token(1, true, " ")]);
}

#[test]
fn value_separator_value() {
    let tokens = tokenizer_for(vec![" "]).tokens("a b");
    assert_eq!(&tokens, &[token(0, false, "a"), token(1, true, " "), token(2, false, "b")]);
}

#[test]
fn value_separator_separator_value() {
    let tokens = tokenizer_for(vec![" "]).tokens("a  b");
    assert_eq!(
        &tokens,
        &[token(0, false, "a"), token(1, true, " "), token(2, true, " "), token(3, false, "b")]
    );
}

#[test]
fn separator_value_separator() {
    let tokens = tokenizer_for(vec![" "]).tokens(" a ");
    assert_eq!(&tokens, &[token(0, true, " "), token(1, false, "a"), token(2, true, " ")]);
}

#[test]
fn separator_separator_value_separator_separator() {
    let tokens = tokenizer_for(vec![" "]).tokens("  a  ");
    assert_eq!(
        &tokens,
        &[
            token(0, true, " "),
            token(1, true, " "),
            token(2, false, "a"),
            token(3, true, " "),
            token(4, true, " ")
        ]
    );
}

#[test]
fn line() {
    let tokens = tokenizer_for(vec![" "]).tokens("this is a simple line");
    assert_eq!(
        &tokens,
        &[
            token(0, false, "this"),
            token(1, true, " "),
            token(2, false, "is"),
            token(3, true, " "),
            token(4, false, "a"),
            token(5, true, " "),
            token(6, false, "simple"),
            token(7, true, " "),
            token(8, false, "line")
        ]
    );
}

#[test]
fn value_comma_value() {
    let tokens = tokenizer_for(vec![","]).tokens("a,b");
    assert_eq!(&tokens, &[token(0, false, "a"), token(1, true, ","), token(2, false, "b")]);
}

#[test]
fn value_whitespace_value() {
    let tokens = tokenizer_for(vec![WHITESPACES]).tokens("a b");
    assert_eq!(&tokens, &[token(0, false, "a"), token(1, true, " "), token(2, false, "b")]);
}

#[test]
fn value_comma_or_space_value() {
    let tokens = tokenizer_for(vec![",", " "]).tokens("a,b c");
    assert_eq!(
        &tokens,
        &[
            token(0, false, "a"),
            token(1, true, ","),
            token(2, false, "b"),
            token(3, true, " "),
            token(4, false, "c")
        ]
    );
}

#[test]
fn invalid_separator_is_reported() {
    let error = Separators::new(vec![" ", "ab", "0"]).err().unwrap();
    assert_eq!(error.separator, "ab");
}

#[test]
fn whitespace_class_covers_tabs_and_unicode_spaces() {
    let tokens = tokenizer_for(vec![WHITESPACES]).tokens("a\tb\u{3000}c");
    assert_eq!(
        &tokens,
        &[
            token(0, false, "a"),
            token(1, true, "\t"),
            token(2, false, "b"),
            token(3, true, "\u{3000}"),
            token(4, false, "c")
        ]
    );
}

#[test]
fn empty_line_has_no_tokens() {
    let tokens = tokenizer_for(vec![" "]).tokens("");
    assert!(tokens.is_empty());
}

#[test]
fn tokens_rebuild_the_line() {
    let line = "lorem, ipsum;(dolor) {sit} amet";
    let tokens = tokenizer_for(vec![WHITESPACES, ",", ";", "(", ")", "{", "}"]).tokens(line);
    let joined: String = tokens.iter().map(|t| t.word.as_str()).collect();
    assert_eq!(joined, line);
}

#[test]
fn separator_tokens_are_exactly_the_separator_characters() {
    let separators = Separators::new(vec![",", ";", ",", ";"]).unwrap();
    let line = "a,b;;c d";
    let tokens = Tokenizer::new(separators).unwrap().tokens(line);
    for c in line.chars() {
        let forms_separator = tokens.iter().any(|t| t.separator && t.word == c.to_string());
        assert_eq!(forms_separator, c == ',' || c == ';', "{}", c);
    }
    assert_eq!(tokens.len(), 6);
}
