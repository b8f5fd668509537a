use proplogic::lexer::{tokenize, Lexer, Token};

#[test]
fn symbols_and_identifiers_are_tokenized() {
    let tokens = tokenize("p & q | !r => (s)");
    assert_eq!(tokens.len(), 10);
    assert!(matches!(tokens[0], Token::Identifier(ref name) if name == "p"));
    assert!(matches!(tokens[1], Token::And));
    assert!(matches!(tokens[2], Token::Identifier(ref name) if name == "q"));
    assert!(matches!(tokens[3], Token::Or));
    assert!(matches!(tokens[4], Token::Not));
    assert!(matches!(tokens[5], Token::Identifier(ref name) if name == "r"));
    assert!(matches!(tokens[6], Token::Implies));
    assert!(matches!(tokens[7], Token::LeftParen));
    assert!(matches!(tokens[8], Token::Identifier(ref name) if name == "s"));
    assert!(matches!(tokens[9], Token::RightParen));
}

#[test]
fn literal_words_become_literal_tokens() {
    let tokens = tokenize("true false");
    assert_eq!(tokens.len(), 2);
    assert!(matches!(tokens[0], Token::True));
    assert!(matches!(tokens[1], Token::False));
}

#[test]
fn a_longer_run_is_one_identifier() {
    let tokens = tokenize("truefalse");
    assert_eq!(tokens.len(), 1);
    assert!(matches!(tokens[0], Token::Identifier(ref name) if name == "truefalse"));
}

#[test]
fn unreadable_characters_become_error_tokens() {
    let tokens = tokenize("p $ q");
    assert_eq!(tokens.len(), 3);
    assert!(matches!(tokens[1], Token::Error));
    // A bare '=' is unreadable: only the two-character '=>' is a token.
    let tokens = tokenize("=");
    assert_eq!(tokens.len(), 1);
    assert!(matches!(tokens[0], Token::Error));
    // The tokenizer keeps producing tokens after an error, one per occurrence.
    let tokens = tokenize("##p");
    assert_eq!(tokens.len(), 3);
    assert!(matches!(tokens[0], Token::Error));
    assert!(matches!(tokens[1], Token::Error));
    assert!(matches!(tokens[2], Token::Identifier(ref name) if name == "p"));
}

#[test]
fn whitespace_is_skipped() {
    let tokens = tokenize(" \t\n p \n\t ");
    assert_eq!(tokens.len(), 1);
    assert!(matches!(tokens[0], Token::Identifier(ref name) if name == "p"));
    assert!(tokenize("   ").is_empty());
    assert!(tokenize("").is_empty());
}

#[test]
fn implies_is_one_two_character_token() {
    let tokens = tokenize("p=>q");
    assert_eq!(tokens.len(), 3);
    assert!(matches!(tokens[1], Token::Implies));
}

#[test]
fn lexer_hands_tokens_out_in_order() {
    let mut lexer = Lexer::new("p&q");
    assert!(matches!(lexer.next(), Some(Token::Identifier(ref name)) if name == "p"));
    assert!(matches!(lexer.next(), Some(Token::And)));
    assert!(matches!(lexer.next(), Some(Token::Identifier(ref name)) if name == "q"));
    assert!(lexer.next().is_none());
    assert!(lexer.next().is_none());
}
