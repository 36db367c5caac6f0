use kaleidoscope::lexer::{keyword_or_identifier, opening, symbol, Lexer, LexicalError, Opening};
use kaleidoscope::token::{BinaryOp, Number, Token};

fn number(token: Result<Token, LexicalError>) -> f64 {
    match token {
        Ok(Token::Number(value)) => value.text().parse::<f64>().unwrap(),
        other => panic!("expected a number, found {:?}", other),
    }
}

#[test]
fn test_identifier_token() {
    let mut lex = Lexer::new(" def hello");
    assert_eq!(lex.get_token(), Ok(Token::Def));
    assert_eq!(lex.get_token(), Ok(Token::Identity("hello".to_string())));
    assert_eq!(lex.get_token(), Ok(Token::EOF));
}

#[test]
fn test_number_token() {
    let mut lex = Lexer::new("2 34. 51.23 .1");
    assert_eq!(number(lex.get_token()), 2.);
    assert_eq!(number(lex.get_token()), 34.);
    assert_eq!(number(lex.get_token()), 51.23);
    assert_eq!(number(lex.get_token()), 0.1);
    assert_eq!(lex.get_token(), Ok(Token::EOF));
}

#[test]
fn test_call_function_tokens() {
    let mut lex = Lexer::new("hello(49, 8.200)");
    assert_eq!(lex.get_token(), Ok(Token::Identity("hello".to_string())));
    assert_eq!(lex.get_token(), Ok(Token::LParen));
    assert_eq!(number(lex.get_token()), 49.);
    assert_eq!(lex.get_token(), Ok(Token::Comma));
    assert_eq!(number(lex.get_token()), 8.200);
    assert_eq!(lex.get_token(), Ok(Token::RParen));
    assert_eq!(lex.get_token(), Ok(Token::EOF));
}

#[test]
fn test_unknown_token() {
    let mut lex = Lexer::new("?");
    assert_eq!(lex.get_token(), Ok(Token::Unknown('?')));
}

#[test]
fn test_comment_token() {
    let mut lex = Lexer::new("#this is a comment\n 3.1");
    assert_eq!(
        lex.get_token(),
        Ok(Token::Comment("this is a comment".to_string()))
    );
    assert_eq!(number(lex.get_token()), 3.1);
    assert_eq!(lex.get_token(), Ok(Token::EOF));
}

#[test]
fn test_get_all_tokens() {
    let mut lex = Lexer::new("4.9");
    let tokens = lex.get_all_tokens().unwrap();
    assert_eq!(tokens.len(), 1);
    assert_eq!(number(Ok(tokens[0].clone())), 4.9);
}

#[test]
fn test_lexer_as_iterator() {
    let mut lex = Lexer::new("4.9");
    assert_eq!(lex.next().map(number), Some(4.9));
    assert_eq!(lex.next(), Some(Ok(Token::EOF)));
}

#[test]
fn test_operator_tokenization() {
    let mut lex = Lexer::new("-4.9 + 8 * 200 / 90");
    assert_eq!(lex.next(), Some(Ok(Token::BinOp(BinaryOp::Sub))));
    assert_eq!(lex.next().map(number), Some(4.9));
    assert_eq!(lex.next(), Some(Ok(Token::BinOp(BinaryOp::Add))));
    assert_eq!(lex.next().map(number), Some(8.));
    assert_eq!(lex.next(), Some(Ok(Token::BinOp(BinaryOp::Mul))));
    assert_eq!(lex.next().map(number), Some(200.));
    assert_eq!(lex.next(), Some(Ok(Token::BinOp(BinaryOp::Div))));
    assert_eq!(lex.next().map(number), Some(90.));
    assert_eq!(lex.next(), Some(Ok(Token::EOF)));
}

#[test]
fn tokenizing_twice_gives_the_same_tokens() {
    let text = "def f(x) x + 1 # note\nextern g(y); ? 2.5";
    let first = Lexer::new(text).get_all_tokens();
    let second = Lexer::new(text).get_all_tokens();
    assert!(first.is_ok());
    assert_eq!(first, second);
}

#[test]
fn tokenizing_goes_on_behind_an_unknown_character() {
    let mut lex = Lexer::new("? def @x");
    assert_eq!(lex.get_token(), Ok(Token::Unknown('?')));
    assert_eq!(lex.get_token(), Ok(Token::Def));
    assert_eq!(lex.get_token(), Ok(Token::Unknown('@')));
    assert_eq!(lex.get_token(), Ok(Token::Identity("x".to_string())));
    assert_eq!(lex.get_token(), Ok(Token::EOF));
    assert_eq!(
        Lexer::new("a ? b").get_all_tokens(),
        Ok(vec![
            Token::Identity("a".to_string()),
            Token::Unknown('?'),
            Token::Identity("b".to_string())
        ])
    );
}

#[test]
fn keywords_and_identifiers() {
    assert_eq!(
        Lexer::new("def extern if then else let define _x x_1 été").get_all_tokens(),
        Ok(vec![
            Token::Def,
            Token::Extern,
            Token::If,
            Token::Then,
            Token::Else,
            Token::Let,
            Token::Identity("define".to_string()),
            Token::Unknown('_'),
            Token::Identity("x".to_string()),
            Token::Identity("x_1".to_string()),
            Token::Identity("été".to_string()),
        ])
    );
}

#[test]
fn punctuation() {
    assert_eq!(
        Lexer::new("= ; ( ) , + - * /").get_all_tokens(),
        Ok(vec![
            Token::Assign,
            Token::Delimeter,
            Token::LParen,
            Token::RParen,
            Token::Comma,
            Token::BinOp(BinaryOp::Add),
            Token::BinOp(BinaryOp::Sub),
            Token::BinOp(BinaryOp::Mul),
            Token::BinOp(BinaryOp::Div),
        ])
    );
}

#[test]
fn malformed_numerals_are_errors_that_can_be_passed() {
    let mut lex = Lexer::new("1.2.3 x . 4");
    assert_eq!(
        lex.get_token(),
        Err(LexicalError::NumericFormat("1.2.3".to_string()))
    );
    assert_eq!(lex.get_token(), Ok(Token::Identity("x".to_string())));
    assert_eq!(
        lex.get_token(),
        Err(LexicalError::NumericFormat(".".to_string()))
    );
    assert_eq!(number(lex.get_token()), 4.);
    assert_eq!(lex.get_token(), Ok(Token::EOF));
    assert_eq!(
        Lexer::new("1 2..").get_all_tokens(),
        Err(LexicalError::NumericFormat("2..".to_string()))
    );
    assert_eq!(
        LexicalError::NumericFormat("2..".to_string()).message(),
        "malformed number 2.."
    );
}

#[test]
fn get_all_tokens_stops_behind_the_numeral_it_refuses() {
    let mut lex = Lexer::new("a 1.2.3 b");
    assert!(lex.get_all_tokens().is_err());
    assert_eq!(
        lex.get_all_tokens(),
        Ok(vec![Token::Identity("b".to_string())])
    );
    assert_eq!(lex.next(), None);
    assert_eq!(lex.get_all_tokens(), Ok(vec![]));
}

#[test]
fn comments_run_to_the_end_of_the_line() {
    assert_eq!(
        Lexer::new("x # one\r\ny #two").get_all_tokens(),
        Ok(vec![
            Token::Identity("x".to_string()),
            Token::Comment(" one".to_string()),
            Token::Identity("y".to_string()),
            Token::Comment("two".to_string()),
        ])
    );
    assert_eq!(
        Lexer::new("#").get_all_tokens(),
        Ok(vec![Token::Comment("".to_string())])
    );
}

#[test]
fn the_iterator_ends_behind_eof() {
    let mut lex = Lexer::new("  ");
    assert_eq!(lex.next(), Some(Ok(Token::EOF)));
    assert_eq!(lex.next(), None);
    assert_eq!(lex.get_token(), Ok(Token::EOF));
}

#[test]
fn numbers_keep_their_text() {
    assert_eq!(Number::new("8.200".to_string()).unwrap().text(), "8.200");
    assert_eq!(Number::new("34.".to_string()).unwrap().text(), "34.");
    assert_eq!(Number::new(".1".to_string()).unwrap().text(), ".1");
    for bad in ["", ".", "1.2.3", "1e5", "-1", "1 ", "x"] {
        assert_eq!(Number::new(bad.to_string()), Err(bad.to_string()), "{:?}", bad);
        assert!(bad.parse::<f64>().is_err() || bad == "1e5" || bad == "-1");
    }
    for good in ["0", "007", "1.", ".5", "3.14"] {
        let number = Number::new(good.to_string()).unwrap();
        assert!(number.text().parse::<f64>().is_ok());
    }
}

#[test]
fn token_kinds_have_names() {
    assert_eq!(Token::EOF.kind_name(), "end of input");
    assert_eq!(Token::Identity("x".to_string()).kind_name(), "identifier");
    assert_eq!(Token::BinOp(BinaryOp::Shift).kind_name(), "operator");
    assert_eq!(Token::Extern.kind_name(), "'extern'");
}

#[test]
fn peeking_does_not_consume() {
    let mut lex = Lexer::new("def x");
    assert_eq!(lex.peek_token(), Ok(Token::Def));
    assert_eq!(lex.peek_token(), Ok(Token::Def));
    assert_eq!(lex.get_token(), Ok(Token::Def));
    assert_eq!(lex.peek_token(), Ok(Token::Identity("x".to_string())));
    assert_eq!(lex.get_token(), Ok(Token::Identity("x".to_string())));
    assert_eq!(lex.peek_token(), Ok(Token::EOF));
    assert_eq!(lex.next(), Some(Ok(Token::EOF)));
    assert_eq!(lex.peek_token(), Ok(Token::EOF));
}

#[test]
fn what_a_character_opens() {
    assert_eq!(opening('x', true), Opening::Word);
    assert_eq!(opening('7', false), Opening::Numeral);
    assert_eq!(opening('.', false), Opening::Numeral);
    assert_eq!(opening('#', false), Opening::Comment);
    assert_eq!(opening('?', false), Opening::Symbol);
    assert_eq!(symbol('?'), Token::Unknown('?'));
    assert_eq!(symbol('('), Token::LParen);
    assert_eq!(keyword_or_identifier("let".to_string()), Token::Let);
    assert_eq!(
        keyword_or_identifier("lets".to_string()),
        Token::Identity("lets".to_string())
    );
}
