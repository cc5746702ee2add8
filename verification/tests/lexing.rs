use calculator::errors::CalculatorError;
use calculator::lexer::{is_valid_literal, Lexer, Token};

fn tokens(line: &str) -> Result<Vec<Token>, CalculatorError> {
    let text = String::from(line);
    let mut lexer = Lexer::new(&text);
    lexer.tokenize()
}

fn number(text: &str) -> Token {
    Token::Number(String::from(text))
}

fn identifier(text: &str) -> Token {
    Token::Identifier(String::from(text))
}

#[test]
fn empty_line_is_one_eof() {
    assert_eq!(tokens("").unwrap(), vec![Token::Eof]);
    assert_eq!(tokens("  \t ").unwrap(), vec![Token::Eof]);
}

#[test]
fn single_character_tokens() {
    assert_eq!(
        tokens("+-*/()").unwrap(),
        vec![
            Token::Plus,
            Token::Minus,
            Token::Star,
            Token::Slash,
            Token::LParen,
            Token::RParen,
            Token::Eof
        ]
    );
}

#[test]
fn two_character_operators_before_one_character_ones() {
    assert_eq!(
        tokens("== = >= > <= < != ! && & || |").unwrap(),
        vec![
            Token::EqComparison,
            Token::Eq,
            Token::GreaterEq,
            Token::Greater,
            Token::LessEq,
            Token::Less,
            Token::Different,
            Token::LogicalNot,
            Token::LogicalAnd,
            Token::BinaryAnd,
            Token::LogicalOr,
            Token::BinaryOr,
            Token::Eof
        ]
    );
    assert_eq!(tokens("===").unwrap(), vec![Token::EqComparison, Token::Eq, Token::Eof]);
    assert_eq!(tokens("= =").unwrap(), vec![Token::Eq, Token::Eq, Token::Eof]);
}

#[test]
fn numbers_keep_their_text() {
    assert_eq!(
        tokens("12.5+3 .5 7.").unwrap(),
        vec![number("12.5"), Token::Plus, number("3"), number(".5"), number("7."), Token::Eof]
    );
}

#[test]
fn malformed_numbers_are_errors() {
    assert!(matches!(tokens("1.2.3"), Err(CalculatorError::InvalidNumberFormat)));
    assert!(matches!(tokens("."), Err(CalculatorError::InvalidNumberFormat)));
    assert!(matches!(tokens("2 + .."), Err(CalculatorError::InvalidNumberFormat)));
}

#[test]
fn identifiers_are_read_whole() {
    assert_eq!(
        tokens("abc _x1 x_2y").unwrap(),
        vec![identifier("abc"), identifier("_x1"), identifier("x_2y"), Token::Eof]
    );
    assert_eq!(tokens("2x").unwrap(), vec![number("2"), identifier("x"), Token::Eof]);
    assert_eq!(tokens("\u{e9}t\u{e9} ").unwrap(), vec![identifier("\u{e9}t\u{e9}"), Token::Eof]);
}

#[test]
fn first_invalid_character_is_reported() {
    assert!(matches!(tokens("3 $ 4 #"), Err(CalculatorError::InvalidCharacter('$'))));
    assert!(matches!(tokens("~"), Err(CalculatorError::InvalidCharacter('~'))));
    assert!(matches!(tokens("a,b"), Err(CalculatorError::InvalidCharacter(','))));
}

#[test]
fn cursor_moves_by_characters() {
    let text = String::from("\u{e9} +");
    let mut lexer = Lexer::new(&text);
    assert_eq!(lexer.peek_char(), Some('\u{e9}'));
    assert_eq!(lexer.next_char(), Some('\u{e9}'));
    lexer.skip_whitespace();
    assert_eq!(lexer.peek_char(), Some('+'));
    assert_eq!(lexer.next_char(), Some('+'));
    assert_eq!(lexer.peek_char(), None);
    assert_eq!(lexer.next_char(), None);
    lexer.skip_whitespace();
    assert_eq!(lexer.next_char(), None);
}

#[test]
fn tokens_one_by_one() {
    let text = String::from("a1 >= 2");
    let mut lexer = Lexer::new(&text);
    assert_eq!(lexer.next_token().unwrap(), identifier("a1"));
    assert_eq!(lexer.next_token().unwrap(), Token::GreaterEq);
    assert_eq!(lexer.next_token().unwrap(), number("2"));
    assert_eq!(lexer.next_token().unwrap(), Token::Eof);
    assert_eq!(lexer.next_token().unwrap(), Token::Eof);
}

#[test]
fn rest_of_a_token_after_its_first_character() {
    let text = String::from("bc1 23.5x");
    let mut lexer = Lexer::new(&text);
    assert_eq!(lexer.identifier('a').unwrap(), identifier("abc1"));
    assert!(matches!(lexer.identifier('$'), Err(CalculatorError::InvalidCharacter('$'))));
    lexer.skip_whitespace();
    assert_eq!(lexer.lex_number('1').unwrap(), number("123.5"));
    assert_eq!(lexer.peek_char(), Some('x'));
    assert!(matches!(lexer.lex_number('.'), Err(CalculatorError::InvalidNumberFormat)));
}

#[test]
fn literal_validity_is_that_of_the_float_parser() {
    for text in ["0", "12", "1.5", ".5", "5.", "007", "", ".", "..", "1.2.3", "1..", "1e5", "-1", "1 "] {
        let digits_and_dots = text.chars().all(|c| c.is_ascii_digit() || c == '.');
        let expected = digits_and_dots && text.parse::<f64>().is_ok();
        assert_eq!(is_valid_literal(text), expected, "{:?}", text);
    }
}

#[test]
fn token_equality_and_clone() {
    assert_eq!(number("1"), number("1").clone());
    assert_ne!(number("1"), number("1.0"));
    assert_ne!(number("1"), identifier("1"));
    assert_ne!(Token::Plus, Token::Minus);
    assert_eq!(identifier("ab").clone(), identifier("ab"));
}

#[test]
fn whitespace_of_any_script_is_skipped() {
    assert_eq!(
        tokens("\u{a0}1\u{2003}+\t2\n").unwrap(),
        vec![number("1"), Token::Plus, number("2"), Token::Eof]
    );
}
