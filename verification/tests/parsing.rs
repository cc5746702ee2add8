use calculator::ast::AstNode;
use calculator::errors::CalculatorError;
use calculator::lexer::{Lexer, Token};
use calculator::parser::Parser;

fn parser(line: &str) -> Parser {
    let text = String::from(line);
    let mut lexer = Lexer::new(&text);
    Parser::new(lexer.tokenize().unwrap())
}

fn parse(line: &str) -> Result<AstNode, CalculatorError> {
    parser(line).parse_input()
}

fn show(node: &AstNode) -> String {
    match node {
        AstNode::Number(text) => text.clone(),
        AstNode::ReadIdentifier(name) => name.clone(),
        AstNode::UnaryExpr { op, node } => format!("({:?} {})", op, show(node)),
        AstNode::BinaryOp { op, lhs, rhs } => format!("({} {:?} {})", show(lhs), op, show(rhs)),
        AstNode::AssignIdentifier { name, node_value } => {
            format!("({} := {})", name, show(node_value))
        }
    }
}

fn flatten(node: &AstNode, out: &mut Vec<Token>) {
    match node {
        AstNode::Number(text) => out.push(Token::Number(text.clone())),
        AstNode::ReadIdentifier(name) => out.push(Token::Identifier(name.clone())),
        AstNode::UnaryExpr { op, node } => {
            out.push(op.clone());
            flatten(node, out);
        }
        AstNode::BinaryOp { op, lhs, rhs } => {
            flatten(lhs, out);
            out.push(op.clone());
            flatten(rhs, out);
        }
        AstNode::AssignIdentifier { name, node_value } => {
            out.push(Token::Identifier(name.clone()));
            out.push(Token::Eq);
            flatten(node_value, out);
        }
    }
}

#[test]
fn levels_bind_from_product_to_conjunction() {
    assert_eq!(
        show(&parse("1 + 2 * 3 > 4 == 5 && 6").unwrap()),
        "((((1 Plus (2 Star 3)) Greater 4) EqComparison 5) LogicalAnd 6)"
    );
}

#[test]
fn each_level_folds_to_the_left() {
    assert_eq!(show(&parse("1 - 2 + 3").unwrap()), "((1 Minus 2) Plus 3)");
    assert_eq!(show(&parse("8 / 4 * 2").unwrap()), "((8 Slash 4) Star 2)");
    assert_eq!(show(&parse("1 < 2 >= 3").unwrap()), "((1 Less 2) GreaterEq 3)");
    assert_eq!(show(&parse("1 != 2 == 3").unwrap()), "((1 Different 2) EqComparison 3)");
    assert_eq!(show(&parse("1 && 2 && 3").unwrap()), "((1 LogicalAnd 2) LogicalAnd 3)");
}

#[test]
fn parentheses_hold_any_expression() {
    assert_eq!(show(&parse("(1 + 2) * 3").unwrap()), "((1 Plus 2) Star 3)");
    assert_eq!(show(&parse("2 * (1 && 0)").unwrap()), "(2 Star (1 LogicalAnd 0))");
    assert_eq!(show(&parse("((7))").unwrap()), "7");
}

#[test]
fn unary_signs_wrap_a_factor() {
    assert_eq!(show(&parse("-a * 2").unwrap()), "((Minus a) Star 2)");
    assert_eq!(show(&parse("- + 1").unwrap()), "(Minus (Plus 1))");
    assert_eq!(show(&parse("2 - -3").unwrap()), "(2 Minus (Minus 3))");
}

#[test]
fn statements_that_start_with_an_identifier() {
    assert_eq!(show(&parse("x").unwrap()), "x");
    assert_eq!(show(&parse("x = 1 + 2").unwrap()), "(x := (1 Plus 2))");
    assert_eq!(show(&parse("x + 1").unwrap()), "(x Plus 1)");
    assert_eq!(show(&parse("x * 3 + 2").unwrap()), "(x Star (3 Plus 2))");
    assert_eq!(show(&parse("x == y").unwrap()), "(x EqComparison y)");
}

#[test]
fn single_number_is_an_input() {
    assert_eq!(show(&parse("5").unwrap()), "5");
}

#[test]
fn missing_closing_parenthesis() {
    match parse("(1 + 2") {
        Err(CalculatorError::UnexpectedToken { expected, got }) => {
            assert_eq!(expected, Some(Token::RParen));
            assert_eq!(got, Token::Eof);
        }
        other => panic!("{:?}", other),
    }
}

#[test]
fn token_that_starts_no_factor() {
    match parse("1 + * 2") {
        Err(CalculatorError::UnexpectedToken { expected, got }) => {
            assert_eq!(expected, None);
            assert_eq!(got, Token::Star);
        }
        other => panic!("{:?}", other),
    }
    match parse("") {
        Err(CalculatorError::UnexpectedToken { expected, got }) => {
            assert_eq!(expected, None);
            assert_eq!(got, Token::Eof);
        }
        other => panic!("{:?}", other),
    }
    assert!(matches!(parse("2 *"), Err(CalculatorError::UnexpectedToken { expected: None, .. })));
}

#[test]
fn tokens_behind_the_statement_are_an_error() {
    match parse("2 3") {
        Err(CalculatorError::UnexpectedToken { expected, got }) => {
            assert_eq!(expected, Some(Token::Eof));
            assert_eq!(got, Token::Number(String::from("3")));
        }
        other => panic!("{:?}", other),
    }
    assert!(matches!(
        parse("(1))"),
        Err(CalculatorError::UnexpectedToken { expected: Some(Token::Eof), got: Token::RParen })
    ));
    assert!(matches!(
        parse("1 || 2"),
        Err(CalculatorError::UnexpectedToken { expected: Some(Token::Eof), got: Token::LogicalOr })
    ));
}

#[test]
fn identifier_followed_by_no_operator() {
    match parse("x 5") {
        Err(CalculatorError::UnexpectedToken { expected, got }) => {
            assert_eq!(expected, None);
            assert_eq!(got, Token::Number(String::from("5")));
        }
        other => panic!("{:?}", other),
    }
    assert!(matches!(
        parse("x || y"),
        Err(CalculatorError::UnexpectedToken { expected: None, got: Token::LogicalOr })
    ));
}

#[test]
fn productions_stop_at_what_they_cannot_take() {
    assert_eq!(show(&parser("1 * 2 + 3").parse_term().unwrap()), "(1 Star 2)");
    assert_eq!(show(&parser("1 + 2 > 3").parse_expression().unwrap()), "(1 Plus 2)");
    assert_eq!(show(&parser("1 > 2 == 3").parse_comparison().unwrap()), "(1 Greater 2)");
    assert_eq!(show(&parser("1 == 2 && 3").parse_equalities().unwrap()), "(1 EqComparison 2)");
    assert_eq!(show(&parser("1 && 2 )").parse_logical_and().unwrap()), "(1 LogicalAnd 2)");
}

#[test]
fn tree_accounts_for_every_token() {
    for line in ["1 + 2 * (3 - -x) >= 4 && (y == 2)", "x = (1 + 2) * 3", "x / (2)", "pi", "((1))"] {
        let text = String::from(line);
        let mut lexer = Lexer::new(&text);
        let tokens = lexer.tokenize().unwrap();
        let mut expected: Vec<Token> = Vec::new();
        for token in tokens.iter() {
            if !matches!(token, Token::LParen | Token::RParen | Token::Eof) {
                expected.push(token.clone());
            }
        }
        let tree = Parser::new(tokens).parse_input().unwrap();
        let mut flat = Vec::new();
        flatten(&tree, &mut flat);
        assert_eq!(flat, expected, "{}", line);
    }
}
