use calculator::ast::AstNode;
use calculator::errors::CalculatorError;
use calculator::evaluator::{apply_binary, apply_unary, Evaluator, Operation};
use calculator::lexer::{Lexer, Token};
use calculator::output::Value;
use calculator::parser::Parser;
use calculator::session::run_line;

fn unit(op: Operation) -> u64 {
    match op {
        Operation::Parse(text) => text.parse::<f64>().unwrap().to_bits(),
        Operation::Add(a, b) => (f64::from_bits(a) + f64::from_bits(b)).to_bits(),
        Operation::Sub(a, b) => (f64::from_bits(a) - f64::from_bits(b)).to_bits(),
        Operation::Mul(a, b) => (f64::from_bits(a) * f64::from_bits(b)).to_bits(),
        Operation::Div(a, b) => (f64::from_bits(a) / f64::from_bits(b)).to_bits(),
    }
}

fn run(evaluator: &mut Evaluator, line: &str) -> Result<Value, CalculatorError> {
    let text = String::from(line);
    let mut lexer = Lexer::new(&text);
    let tokens = lexer.tokenize()?;
    let mut parser = Parser::new(tokens);
    let node = parser.parse_input()?;
    evaluator.evaluate(&node, &unit)
}

fn number(line: &str) -> f64 {
    let mut evaluator = Evaluator::new();
    f64::from_bits(run(&mut evaluator, line).unwrap().as_number().unwrap())
}

fn boolean(line: &str) -> bool {
    let mut evaluator = Evaluator::new();
    match run(&mut evaluator, line).unwrap() {
        Value::Boolean(b) => b,
        Value::Number(_) => panic!("a number"),
    }
}

#[test]
fn test_boolean_operators_tokenizing() {
    let operation = String::from("3 == 3");

    let mut lexer = Lexer::new(&operation);

    println!("Tokens genrated: {:#?}", lexer.tokenize().unwrap());
}

#[test]
fn test_parse() {
    let operation = String::from("3 == 3");

    let mut lexer = Lexer::new(&operation);
    let tokens = lexer.tokenize().unwrap();
    let mut parser = Parser::new(tokens);
    println!("Ast: {:#?}", parser.parse_input().unwrap())
}

#[test]
fn test_evaulate() {
    {
        let operation = String::from("12.5 + 3 * (4.2 / 2) - (7 / 2) + 6.0 / 3 * 2");

        let mut evaluator = Evaluator::new();

        let mut lexer = Lexer::new(&operation);
        let mut parser = Parser::new(lexer.tokenize().unwrap());

        let result_node = parser.parse_expression().unwrap();

        let result = evaluator.evaluate(&result_node, &unit).unwrap();

        assert_eq!(f64::from_bits(result.as_number().unwrap()), 19.3);
    }

    {
        let operation = String::from("-5 + 3");
        let mut evaluator = Evaluator::new();

        let mut lexer = Lexer::new(&operation);
        let tokens = lexer.tokenize();
        let mut parser = Parser::new(tokens.unwrap());

        let result_node = parser.parse_expression().unwrap();

        let result = evaluator.evaluate(&result_node, &unit).unwrap();

        assert_eq!(f64::from_bits(result.as_number().unwrap()), -2.0);
    }
}

#[test]
fn precedence_of_product_over_sum() {
    assert_eq!(number("2 + 3 * 4"), 14.0);
    assert_eq!(number("(2 + 3) * 4"), 20.0);
}

#[test]
fn subtraction_associates_to_the_left() {
    assert_eq!(number("10 - 2 - 3"), 5.0);
    assert_eq!(number("16 / 4 / 2"), 2.0);
}

#[test]
fn division_by_zero_is_an_error() {
    let mut evaluator = Evaluator::new();
    assert!(matches!(run(&mut evaluator, "1 / 0"), Err(CalculatorError::DivisionByZero)));
    assert!(matches!(run(&mut evaluator, "1 / -0"), Err(CalculatorError::DivisionByZero)));
    assert!(matches!(run(&mut evaluator, "(1 > 0) / 0"), Err(CalculatorError::DivisionByZero)));
    assert!(matches!(run(&mut evaluator, "1 / (1 > 0)"), Err(CalculatorError::TypeError(_))));
    assert_eq!(f64::from_bits(run(&mut evaluator, "1 / 4").unwrap().as_number().unwrap()), 0.25);
}

#[test]
fn assignment_is_read_back() {
    let mut evaluator = Evaluator::new();
    let assigned = run(&mut evaluator, "x = 5").unwrap();
    assert_eq!(f64::from_bits(assigned.as_number().unwrap()), 5.0);
    let sum = run(&mut evaluator, "x + 1").unwrap();
    assert_eq!(f64::from_bits(sum.as_number().unwrap()), 6.0);
    run(&mut evaluator, "x = 7").unwrap();
    let read = run(&mut evaluator, "x").unwrap();
    assert_eq!(f64::from_bits(read.as_number().unwrap()), 7.0);
}

#[test]
fn undefined_variable_is_an_error() {
    let mut evaluator = Evaluator::new();
    match run(&mut evaluator, "y + 1") {
        Err(CalculatorError::VariableNotDefined(name)) => assert_eq!(name, "y"),
        other => panic!("{:?}", other),
    }
    match run(&mut evaluator, "X") {
        Err(CalculatorError::VariableNotDefined(name)) => assert_eq!(name, "X"),
        other => panic!("{:?}", other),
    }
}

#[test]
fn pi_is_predefined() {
    assert_eq!(number("pi"), std::f64::consts::PI);
    assert!((number("pi") - 3.14159265358979).abs() < 1e-12);
    assert_eq!(number("pi * 2"), std::f64::consts::PI * 2.0);
}

#[test]
fn comparisons_give_booleans() {
    assert!(boolean("3 > 2"));
    assert!(!boolean("3 > 2 && 1 < 0"));
    assert!(boolean("3 >= 3"));
    assert!(!boolean("3 < 3"));
    assert!(boolean("2 <= 3"));
    assert!(boolean("1 && 2"));
    assert!(!boolean("1 && 0"));
}

#[test]
fn equality_goes_by_truth_and_difference_by_number() {
    assert!(boolean("3 == 4"));
    assert!(!boolean("3 == 0"));
    assert!(boolean("3 != 4"));
    assert!(!boolean("3 != 3"));
    let mut evaluator = Evaluator::new();
    assert!(matches!(run(&mut evaluator, "(1 > 0) != 1"), Err(CalculatorError::TypeError(_))));
}

#[test]
fn negation_of_a_variable() {
    let mut evaluator = Evaluator::new();
    run(&mut evaluator, "x = 5").unwrap();
    let negated = run(&mut evaluator, "-x").unwrap();
    assert_eq!(f64::from_bits(negated.as_number().unwrap()), -5.0);
    let kept = run(&mut evaluator, "+x").unwrap();
    assert_eq!(f64::from_bits(kept.as_number().unwrap()), 5.0);
    assert_eq!(number("--3"), 3.0);
}

#[test]
fn negation_of_a_boolean_is_a_type_error() {
    let mut evaluator = Evaluator::new();
    match run(&mut evaluator, "-(3 > 2)") {
        Err(CalculatorError::TypeError(message)) => assert_eq!(message, "Expected number"),
        other => panic!("{:?}", other),
    }
    assert!(matches!(run(&mut evaluator, "(3 > 2) + 1"), Err(CalculatorError::TypeError(_))));
}

#[test]
fn unknown_glyph_is_rejected() {
    let text = String::from("3 $ 4");
    let mut lexer = Lexer::new(&text);
    assert!(matches!(lexer.tokenize(), Err(CalculatorError::InvalidCharacter('$'))));
}

#[test]
fn identifier_with_operator_reads_and_does_not_assign() {
    let mut evaluator = Evaluator::new();
    run(&mut evaluator, "x = 5").unwrap();
    let product = run(&mut evaluator, "x * 3 + 2").unwrap();
    assert_eq!(f64::from_bits(product.as_number().unwrap()), 25.0);
    let read = run(&mut evaluator, "x").unwrap();
    assert_eq!(f64::from_bits(read.as_number().unwrap()), 5.0);
}

#[test]
fn failed_line_leaves_the_variables() {
    let mut evaluator = Evaluator::new();
    run(&mut evaluator, "x = 5").unwrap();
    assert!(run(&mut evaluator, "x = 1 / 0").is_err());
    let read = run(&mut evaluator, "x").unwrap();
    assert_eq!(f64::from_bits(read.as_number().unwrap()), 5.0);
}

#[test]
fn both_operands_are_evaluated() {
    let mut evaluator = Evaluator::new();
    assert!(matches!(
        run(&mut evaluator, "0 && missing"),
        Err(CalculatorError::VariableNotDefined(_))
    ));
}

#[test]
fn operators_without_a_meaning_are_errors() {
    let mut evaluator = Evaluator::new();
    let one = || Box::new(AstNode::Number(String::from("1")));
    let unknown = AstNode::BinaryOp { op: Token::LogicalOr, lhs: one(), rhs: one() };
    assert!(matches!(
        evaluator.evaluate(&unknown, &unit),
        Err(CalculatorError::EvaluationUnknownOperator)
    ));
    let unary = AstNode::UnaryExpr { op: Token::Star, node: one() };
    assert!(matches!(evaluator.evaluate(&unary, &unit), Err(CalculatorError::InvalidTokenUnary)));
    let literal = AstNode::Number(String::from("1.2.3"));
    assert!(matches!(
        evaluator.evaluate(&literal, &unit),
        Err(CalculatorError::InvalidNumberFormat)
    ));
}

#[test]
fn nested_assignment_binds_before_a_later_failure() {
    let mut evaluator = Evaluator::new();
    let assign = AstNode::AssignIdentifier {
        name: String::from("z"),
        node_value: Box::new(AstNode::Number(String::from("2"))),
    };
    let node = AstNode::BinaryOp {
        op: Token::Plus,
        lhs: Box::new(assign),
        rhs: Box::new(AstNode::ReadIdentifier(String::from("missing"))),
    };
    assert!(evaluator.evaluate(&node, &unit).is_err());
    let z = evaluator.lookup(&String::from("z")).unwrap();
    assert_eq!(f64::from_bits(z.as_number().unwrap()), 2.0);
    assert!(evaluator.lookup(&String::from("missing")).is_none());
}

#[test]
fn value_coercions() {
    assert_eq!(Value::Number(2.5f64.to_bits()).as_number().unwrap(), 2.5f64.to_bits());
    assert!(matches!(Value::Boolean(true).as_number(), Err(CalculatorError::TypeError(_))));
    assert!(Value::Boolean(true).as_bool().unwrap());
    assert!(!Value::Boolean(false).as_bool().unwrap());
    assert!(Value::Number(2.5f64.to_bits()).as_bool().unwrap());
    assert!(!Value::Number(0.0f64.to_bits()).as_bool().unwrap());
    assert!(!Value::Number((-0.0f64).to_bits()).as_bool().unwrap());
    assert!(Value::Number(f64::NAN.to_bits()).as_bool().unwrap());
}

#[test]
fn line_by_line_in_one_session() {
    let mut evaluator = Evaluator::new();
    let lines = ["r = 2", "area = pi * r * r", "(area > 12.5) && area < 12.6", "r"];
    let mut last = None;
    for line in lines {
        last = Some(run_line(&mut evaluator, &String::from(line), &unit).unwrap());
    }
    assert_eq!(f64::from_bits(last.unwrap().as_number().unwrap()), 2.0);
    let area = evaluator.lookup(&String::from("area")).unwrap();
    assert_eq!(f64::from_bits(area.as_number().unwrap()), std::f64::consts::PI * 2.0 * 2.0);
    assert!(matches!(
        run_line(&mut evaluator, &String::from("(area > 12.5) && area < 12.6"), &unit),
        Ok(Value::Boolean(true))
    ));
    assert!(matches!(
        run_line(&mut evaluator, &String::from("area > 12.5 && area < 12.6"), &unit),
        Err(CalculatorError::TypeError(_))
    ));
}

#[test]
fn line_fails_at_its_first_failing_stage() {
    let mut evaluator = Evaluator::new();
    assert!(matches!(
        run_line(&mut evaluator, &String::from("1 / 0 $"), &unit),
        Err(CalculatorError::InvalidCharacter('$'))
    ));
    assert!(matches!(
        run_line(&mut evaluator, &String::from("1.2.3 +"), &unit),
        Err(CalculatorError::InvalidNumberFormat)
    ));
    assert!(matches!(
        run_line(&mut evaluator, &String::from("(1 / 0"), &unit),
        Err(CalculatorError::UnexpectedToken { expected: Some(Token::RParen), got: Token::Eof })
    ));
    assert!(matches!(
        run_line(&mut evaluator, &String::from("1 / 0"), &unit),
        Err(CalculatorError::DivisionByZero)
    ));
    assert!(matches!(
        run_line(&mut evaluator, &String::from(""), &unit),
        Err(CalculatorError::UnexpectedToken { expected: None, got: Token::Eof })
    ));
}

#[test]
fn variables_are_overwritten_and_case_sensitive() {
    let mut evaluator = Evaluator::new();
    evaluator.bind(String::from("a"), Value::Number(1.0f64.to_bits()));
    evaluator.bind(String::from("A"), Value::Boolean(true));
    evaluator.bind(String::from("a"), Value::Number(3.0f64.to_bits()));
    let a = evaluator.lookup(&String::from("a")).unwrap();
    assert_eq!(f64::from_bits(a.as_number().unwrap()), 3.0);
    assert!(matches!(evaluator.lookup(&String::from("A")), Some(Value::Boolean(true))));
    assert!(evaluator.lookup(&String::from("b")).is_none());
    let pi = run(&mut evaluator, "pi = 3").unwrap();
    assert_eq!(f64::from_bits(pi.as_number().unwrap()), 3.0);
    assert_eq!(f64::from_bits(run(&mut evaluator, "pi").unwrap().as_number().unwrap()), 3.0);
}

#[test]
fn arithmetic_is_that_of_the_doubles() {
    assert_eq!(number("0.1 + 0.2"), 0.1 + 0.2);
    assert_eq!(number("1 / 3"), 1.0 / 3.0);
    assert_eq!(number("7 - 10"), -3.0);
    assert_eq!(number("1.5 * 4"), 6.0);
    assert_eq!(number("5."), 5.0);
    assert_eq!(number(".5"), 0.5);
}

#[test]
fn operators_on_values() {
    let two = Value::Number(2.0f64.to_bits());
    let three = Value::Number(3.0f64.to_bits());
    let yes = Value::Boolean(true);
    let as_float = |r: Result<Value, CalculatorError>| f64::from_bits(r.unwrap().as_number().unwrap());
    assert_eq!(as_float(apply_binary(&Token::Plus, two, three, &unit)), 5.0);
    assert_eq!(as_float(apply_binary(&Token::Minus, two, three, &unit)), -1.0);
    assert_eq!(as_float(apply_binary(&Token::Star, two, three, &unit)), 6.0);
    assert_eq!(as_float(apply_binary(&Token::Slash, three, two, &unit)), 1.5);
    assert_eq!(as_float(apply_unary(&Token::Minus, two, &unit)), -2.0);
    assert_eq!(as_float(apply_unary(&Token::Plus, two, &unit)), 2.0);
    assert!(matches!(apply_unary(&Token::Plus, yes, &unit), Ok(Value::Boolean(true))));
    assert!(matches!(apply_unary(&Token::Minus, yes, &unit), Err(CalculatorError::TypeError(_))));
    assert!(matches!(
        apply_unary(&Token::LogicalNot, yes, &unit),
        Err(CalculatorError::InvalidTokenUnary)
    ));
    assert!(matches!(apply_binary(&Token::Less, two, three, &unit), Ok(Value::Boolean(true))));
    assert!(matches!(apply_binary(&Token::LessEq, three, two, &unit), Ok(Value::Boolean(false))));
    assert!(matches!(apply_binary(&Token::GreaterEq, two, two, &unit), Ok(Value::Boolean(true))));
    assert!(matches!(apply_binary(&Token::Greater, two, two, &unit), Ok(Value::Boolean(false))));
    assert!(matches!(apply_binary(&Token::LogicalAnd, yes, two, &unit), Ok(Value::Boolean(true))));
    assert!(matches!(apply_binary(&Token::EqComparison, yes, two, &unit), Ok(Value::Boolean(true))));
    assert!(matches!(
        apply_binary(&Token::Different, yes, two, &unit),
        Err(CalculatorError::TypeError(_))
    ));
    assert!(matches!(
        apply_binary(&Token::Plus, two, yes, &unit),
        Err(CalculatorError::TypeError(_))
    ));
    assert!(matches!(
        apply_binary(&Token::BinaryAnd, two, two, &unit),
        Err(CalculatorError::EvaluationUnknownOperator)
    ));
    let nan = Value::Number(f64::NAN.to_bits());
    assert!(matches!(apply_binary(&Token::Different, nan, nan, &unit), Ok(Value::Boolean(true))));
    assert!(matches!(apply_binary(&Token::LessEq, nan, nan, &unit), Ok(Value::Boolean(false))));
}
