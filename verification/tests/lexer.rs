use antbyte::token::Keyword;
use antbyte::token::Token;

#[test]
fn tokenize_symbols_and_words() {
    let tokens = Token::tokenize("fn and = (a, b) => c { c = -or(-a, -b); } # note").unwrap();
    assert_eq!(tokens[0], Token::Keyword(Keyword::Fn));
    assert_eq!(tokens[1], Token::Ident("and".to_string()));
    assert_eq!(tokens[2], Token::Assign);
    assert_eq!(tokens[3], Token::ParenthesisLeft);
    assert_eq!(tokens[8], Token::Arrow);
    assert_eq!(tokens[13], Token::Invert(true));
    assert_eq!(tokens.len(), 24);
}
