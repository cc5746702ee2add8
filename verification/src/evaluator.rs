//! The meaning of an expression, and the evaluator that computes it over
//! its variables.

use vstd::prelude::*;
use vstd::string::StringExecFns;
use crate::ast::{AstNode, AstView, assignment_free, literals_valid};
use crate::errors::{CalculatorError, ErrorView};
use crate::lexer::{Token, TokenView, is_valid_literal, valid_literal};
use crate::number::{
    NEGATIVE_ONE_BITS, PI_BITS, equal, is_zero, less, number_equal, number_is_zero, number_less,
};
use crate::output::{Value, not_a_number, number_in, truth};
use crate::parse_laws::lemma_input_assigns_at_root_only;
use crate::parser::input_tree;

verus! {

/// What the evaluator asks of the floating-point unit: the double nearest
/// to a decimal literal, or one rounded operation on two doubles. Doubles
/// are given and taken as their bits.
#[derive(Debug)]
pub enum Operation {
    Parse(String),
    Add(u64, u64),
    Sub(u64, u64),
    Mul(u64, u64),
    Div(u64, u64),
}

/// The mathematical content of an [`Operation`].
pub enum OperationView {
    Parse(Seq<char>),
    Add(u64, u64),
    Sub(u64, u64),
    Mul(u64, u64),
    Div(u64, u64),
}

impl View for Operation {
    type V = OperationView;

    open spec fn view(&self) -> OperationView {
        match *self {
            Operation::Parse(text) => OperationView::Parse(text@),
            Operation::Add(a, b) => OperationView::Add(a, b),
            Operation::Sub(a, b) => OperationView::Sub(a, b),
            Operation::Mul(a, b) => OperationView::Mul(a, b),
            Operation::Div(a, b) => OperationView::Div(a, b),
        }
    }
}

/// The operations that the evaluator may ask for: a literal to be read is a
/// valid one.
pub open spec fn askable(op: OperationView) -> bool {
    match op {
        OperationView::Parse(text) => valid_literal(text),
        _ => true,
    }
}

/// A floating-point arithmetic: the answer to every operation.
pub type Arithmetic = spec_fn(OperationView) -> u64;

/// The variables with their values.
pub type Bindings = Map<Seq<char>, Value>;

/// Whether a unit accepts every operation that the evaluator may ask for.
pub open spec fn serves<U: Fn(Operation) -> u64>(unit: &U) -> bool {
    forall|op: Operation| askable(op@) ==> #[trigger] call_requires(*unit, (op,))
}

/// Whether every answer of a unit is that of `model`.
pub open spec fn computes<U: Fn(Operation) -> u64>(unit: &U, model: Arithmetic) -> bool {
    forall|op: Operation, bits: u64| #[trigger]
        call_ensures(*unit, (op,), bits) ==> bits == model(op@)
}

/// What a unary operator makes of the value of its operand.
pub open spec fn unary_result(op: TokenView, value: Value, model: Arithmetic) -> Result<
    Value,
    ErrorView,
> {
    match op {
        TokenView::Plus => Ok(value),
        TokenView::Minus => match number_in(value) {
            Ok(n) => Ok(Value::Number(model(OperationView::Mul(n, NEGATIVE_ONE_BITS)))),
            Err(e) => Err(e),
        },
        _ => Err(ErrorView::InvalidTokenUnary),
    }
}

/// The two numbers of a pair of values, or the error of the first that is
/// none.
pub open spec fn numbers_in(left: Value, right: Value) -> Result<(u64, u64), ErrorView> {
    match (number_in(left), number_in(right)) {
        (Ok(a), Ok(b)) => Ok((a, b)),
        _ => Err(not_a_number()),
    }
}

/// What a binary operator makes of the values of its operands.
pub open spec fn binary_result(op: TokenView, left: Value, right: Value, model: Arithmetic)
    -> Result<Value, ErrorView> {
    match op {
        TokenView::Plus | TokenView::Minus | TokenView::Star => match numbers_in(left, right) {
            Ok((a, b)) => Ok(
                Value::Number(
                    model(
                        match op {
                            TokenView::Plus => OperationView::Add(a, b),
                            TokenView::Minus => OperationView::Sub(a, b),
                            _ => OperationView::Mul(a, b),
                        },
                    ),
                ),
            ),
            Err(e) => Err(e),
        },
        TokenView::Slash => match number_in(right) {
            Err(e) => Err(e),
            Ok(b) => if is_zero(b) {
                Err(ErrorView::DivisionByZero)
            } else {
                match number_in(left) {
                    Err(e) => Err(e),
                    Ok(a) => Ok(Value::Number(model(OperationView::Div(a, b)))),
                }
            },
        },
        TokenView::Greater | TokenView::GreaterEq | TokenView::Less | TokenView::LessEq
        | TokenView::Different => match numbers_in(left, right) {
            Ok((a, b)) => Ok(
                Value::Boolean(
                    match op {
                        TokenView::Greater => less(b, a),
                        TokenView::GreaterEq => less(b, a) || equal(a, b),
                        TokenView::Less => less(a, b),
                        TokenView::LessEq => less(a, b) || equal(a, b),
                        _ => !equal(a, b),
                    },
                ),
            ),
            Err(e) => Err(e),
        },
        TokenView::LogicalAnd => Ok(Value::Boolean(truth(left) && truth(right))),
        TokenView::EqComparison => Ok(Value::Boolean(truth(left) == truth(right))),
        _ => Err(ErrorView::EvaluationUnknownOperator),
    }
}

/// The result of an expression and the bindings that its evaluation leaves,
/// under the bindings `env` and the arithmetic `model`. Operands are
/// evaluated from left to right, and both of them always.
pub open spec fn eval(node: AstView, env: Bindings, model: Arithmetic) -> (
    Result<Value, ErrorView>,
    Bindings,
)
    decreases node,
{
    match node {
        AstView::Number(text) => if valid_literal(text) {
            (Ok(Value::Number(model(OperationView::Parse(text)))), env)
        } else {
            (Err(ErrorView::InvalidNumberFormat), env)
        },
        AstView::UnaryExpr { op, node } => {
            let (inner, after) = eval(*node, env, model);
            match inner {
                Ok(value) => (unary_result(op, value, model), after),
                Err(e) => (Err(e), after),
            }
        },
        AstView::BinaryOp { op, lhs, rhs } => {
            let (left, between) = eval(*lhs, env, model);
            match left {
                Err(e) => (Err(e), between),
                Ok(l) => {
                    let (right, after) = eval(*rhs, between, model);
                    match right {
                        Err(e) => (Err(e), after),
                        Ok(r) => (binary_result(op, l, r, model), after),
                    }
                },
            }
        },
        AstView::AssignIdentifier { name, node_value } => {
            let (inner, after) = eval(*node_value, env, model);
            match inner {
                Ok(value) => (Ok(value), after.insert(name, value)),
                Err(e) => (Err(e), after),
            }
        },
        AstView::ReadIdentifier(name) => if env.contains_key(name) {
            (Ok(env[name]), env)
        } else {
            (Err(ErrorView::VariableNotDefined(name)), env)
        },
    }
}

/// The content of what an evaluating function gave.
pub open spec fn result_view(r: Result<Value, CalculatorError>) -> Result<Value, ErrorView> {
    match r {
        Ok(value) => Ok(value),
        Err(e) => Err(e@),
    }
}

/// The bindings that a list of assignments leaves, the latest of a name
/// last.
pub open spec fn bindings_of(entries: Seq<(Seq<char>, Value)>) -> Bindings
    decreases entries.len(),
{
    if entries.len() == 0 {
        Map::empty()
    } else {
        bindings_of(entries.drop_last()).insert(entries.last().0, entries.last().1)
    }
}

/// Whether the entry at `i` is the latest assignment to `name`.
pub open spec fn latest_at(entries: Seq<(Seq<char>, Value)>, name: Seq<char>, i: int) -> bool {
    &&& 0 <= i < entries.len()
    &&& entries[i].0 == name
    &&& forall|j: int| i < j < entries.len() ==> (#[trigger] entries[j]).0 != name
}

proof fn lemma_latest_is_bound(entries: Seq<(Seq<char>, Value)>, name: Seq<char>, i: int)
    requires
        latest_at(entries, name, i),
    ensures
        bindings_of(entries).contains_key(name),
        bindings_of(entries)[name] == entries[i].1,
    decreases entries.len(),
{
    if i < entries.len() - 1 {
        assert(entries.last().0 != name);
        lemma_latest_is_bound(entries.drop_last(), name, i);
    }
}

proof fn lemma_unassigned_is_unbound(entries: Seq<(Seq<char>, Value)>, name: Seq<char>)
    requires
        forall|j: int| 0 <= j < entries.len() ==> (#[trigger] entries[j]).0 != name,
    ensures
        !bindings_of(entries).contains_key(name),
    decreases entries.len(),
{
    if entries.len() > 0 {
        assert(entries.last().0 != name);
        lemma_unassigned_is_unbound(entries.drop_last(), name);
    }
}

proof fn lemma_overwrite_is_insert(
    entries: Seq<(Seq<char>, Value)>,
    name: Seq<char>,
    i: int,
    value: Value,
)
    requires
        latest_at(entries, name, i),
    ensures
        bindings_of(entries.update(i, (name, value))) == bindings_of(entries).insert(name, value),
    decreases entries.len(),
{
    let changed = entries.update(i, (name, value));
    if i == entries.len() - 1 {
        assert(changed.drop_last() =~= entries.drop_last());
        assert(bindings_of(changed) =~= bindings_of(entries).insert(name, value));
    } else {
        assert(entries.last().0 != name);
        lemma_overwrite_is_insert(entries.drop_last(), name, i, value);
        assert(changed.drop_last() =~= entries.drop_last().update(i, (name, value)));
        assert(changed.last() == entries.last());
        assert(bindings_of(changed) =~= bindings_of(entries).insert(name, value));
    }
}

/// Applies a unary operator to the value of its operand.
pub fn apply_unary<U: Fn(Operation) -> u64>(op: &Token, value: Value, unit: &U) -> (r: Result<
    Value,
    CalculatorError,
>)
    requires
        serves(unit),
    ensures
        forall|model: Arithmetic| #[trigger]
            computes(unit, model) ==> result_view(r) == unary_result(op@, value, model),
{
    match op {
        Token::Plus => Ok(value),
        Token::Minus => match value.as_number() {
            Ok(n) => Ok(Value::Number(unit(Operation::Mul(n, NEGATIVE_ONE_BITS)))),
            Err(e) => Err(e),
        },
        _ => Err(CalculatorError::InvalidTokenUnary),
    }
}

/// The numbers of two values, or the error of the first that is none.
fn both_numbers(left: Value, right: Value) -> (r: Result<(u64, u64), CalculatorError>)
    ensures
        match numbers_in(left, right) {
            Ok(pair) => r is Ok && r->Ok_0 == pair,
            Err(e) => r is Err && r->Err_0@ == e,
        },
{
    let a = match left.as_number() {
        Ok(a) => a,
        Err(e) => {
            return Err(e);
        },
    };
    match right.as_number() {
        Ok(b) => Ok((a, b)),
        Err(e) => Err(e),
    }
}

/// Applies a binary operator to the values of its operands.
pub fn apply_binary<U: Fn(Operation) -> u64>(
    op: &Token,
    left: Value,
    right: Value,
    unit: &U,
) -> (r: Result<Value, CalculatorError>)
    requires
        serves(unit),
    ensures
        forall|model: Arithmetic| #[trigger]
            computes(unit, model) ==> result_view(r) == binary_result(op@, left, right, model),
{
    match op {
        Token::LogicalAnd => {
            let l = truth_of(left);
            let r = truth_of(right);
            Ok(Value::Boolean(l && r))
        },
        Token::EqComparison => Ok(Value::Boolean(truth_of(left) == truth_of(right))),
        Token::Slash => {
            let b = match right.as_number() {
                Ok(b) => b,
                Err(e) => {
                    return Err(e);
                },
            };
            if number_is_zero(b) {
                return Err(CalculatorError::DivisionByZero);
            }
            match left.as_number() {
                Ok(a) => Ok(Value::Number(unit(Operation::Div(a, b)))),
                Err(e) => Err(e),
            }
        },
        Token::Plus | Token::Minus | Token::Star => match both_numbers(left, right) {
            Ok((a, b)) => Ok(
                Value::Number(
                    unit(
                        match op {
                            Token::Plus => Operation::Add(a, b),
                            Token::Minus => Operation::Sub(a, b),
                            _ => Operation::Mul(a, b),
                        },
                    ),
                ),
            ),
            Err(e) => Err(e),
        },
        Token::Greater | Token::GreaterEq | Token::Less | Token::LessEq
        | Token::Different => match both_numbers(left, right) {
            Ok((a, b)) => Ok(
                Value::Boolean(
                    match op {
                        Token::Greater => number_less(b, a),
                        Token::GreaterEq => number_less(b, a) || number_equal(a, b),
                        Token::Less => number_less(a, b),
                        Token::LessEq => number_less(a, b) || number_equal(a, b),
                        _ => !number_equal(a, b),
                    },
                ),
            ),
            Err(e) => Err(e),
        },
        _ => Err(CalculatorError::EvaluationUnknownOperator),
    }
}

/// The truth of a value.
fn truth_of(value: Value) -> (r: bool)
    ensures
        r == truth(value),
{
    match value.as_bool() {
        Ok(b) => b,
        Err(_) => false,
    }
}

/// An evaluator with its variables.
pub struct Evaluator {
    variables: Vec<(String, Value)>,
}

impl Evaluator {
    /// The variables with their values, in the order of their first
    /// assignments.
    pub closed spec fn entries(&self) -> Seq<(Seq<char>, Value)> {
        Seq::new(self.variables@.len(), |i: int| (self.variables@[i].0@, self.variables@[i].1))
    }

    /// The variables with their values.
    pub open spec fn env(&self) -> Bindings {
        bindings_of(self.entries())
    }

    /// An evaluator that knows `pi` and nothing else.
    pub fn new() -> (r: Self)
        ensures
            r.env() == Map::<Seq<char>, Value>::empty().insert("pi"@, Value::Number(PI_BITS)),
    {
        let mut variables: Vec<(String, Value)> = Vec::new();
        variables.push((String::from_str("pi"), Value::Number(PI_BITS)));
        let r = Self { variables };
        proof {
            assert(r.entries().drop_last() =~= Seq::empty());
            assert(bindings_of(r.entries().drop_last()) == Map::<Seq<char>, Value>::empty());
        }
        r
    }

    /// The place of the latest assignment to a variable, if it has one.
    fn position(&self, name: &String) -> (r: Option<usize>)
        ensures
            match r {
                Some(i) => latest_at(self.entries(), name@, i as int),
                None => forall|j: int|
                    0 <= j < self.entries().len() ==> (#[trigger] self.entries()[j]).0 != name@,
            },
    {
        let mut i = self.variables.len();
        while i > 0
            invariant
                i <= self.variables.len(),
                forall|j: int|
                    i <= j < self.entries().len() ==> (#[trigger] self.entries()[j]).0 != name@,
            decreases i,
        {
            i = i - 1;
            if self.variables[i].0 == *name {
                return Some(i);
            }
        }
        None
    }

    /// The value of a variable, if it has one.
    pub fn lookup(&self, name: &String) -> (r: Option<Value>)
        ensures
            r == if self.env().contains_key(name@) {
                Some(self.env()[name@])
            } else {
                None::<Value>
            },
    {
        match self.position(name) {
            Some(i) => {
                proof {
                    lemma_latest_is_bound(self.entries(), name@, i as int);
                }
                Some(self.variables[i].1)
            },
            None => {
                proof {
                    lemma_unassigned_is_unbound(self.entries(), name@);
                }
                None
            },
        }
    }

    /// Gives a variable a value, its first or a new one.
    pub fn bind(&mut self, name: String, value: Value)
        ensures
            final(self).env() == old(self).env().insert(name@, value),
    {
        match self.position(&name) {
            Some(i) => {
                proof {
                    lemma_overwrite_is_insert(self.entries(), name@, i as int, value);
                }
                self.variables.set(i, (name, value));
                proof {
                    assert(self.entries() =~= old(self).entries().update(
                        i as int,
                        (name@, value),
                    ));
                }
            },
            None => {
                self.variables.push((name, value));
                proof {
                    assert(self.entries().drop_last() =~= old(self).entries());
                }
            },
        }
    }

    /// Evaluates an expression, asking `unit` for the arithmetic.
    pub fn evaluate<U: Fn(Operation) -> u64>(&mut self, node: &AstNode, unit: &U) -> (r: Result<
        Value,
        CalculatorError,
    >)
        requires
            serves(unit),
        ensures
            forall|model: Arithmetic| #[trigger]
                computes(unit, model) ==> (result_view(r), final(self).env()) == eval(
                    node@,
                    old(self).env(),
                    model,
                ),
            old(self).env().dom().subset_of(final(self).env().dom()),
        decreases node,
    {
        match node {
            AstNode::Number(text) => {
                if !is_valid_literal(text.as_str()) {
                    return Err(CalculatorError::InvalidNumberFormat);
                }
                Ok(Value::Number(unit(Operation::Parse(text.clone()))))
            },
            AstNode::BinaryOp { op, lhs, rhs } => {
                let left = match self.evaluate(lhs, unit) {
                    Ok(left) => left,
                    Err(e) => {
                        return Err(e);
                    },
                };
                let right = match self.evaluate(rhs, unit) {
                    Ok(right) => right,
                    Err(e) => {
                        return Err(e);
                    },
                };
                apply_binary(op, left, right, unit)
            },
            AstNode::AssignIdentifier { name, node_value } => {
                let value = match self.evaluate(node_value, unit) {
                    Ok(value) => value,
                    Err(e) => {
                        return Err(e);
                    },
                };
                self.bind(name.clone(), value);
                Ok(value)
            },
            AstNode::ReadIdentifier(name) => match self.lookup(name) {
                Some(value) => Ok(value),
                None => Err(CalculatorError::VariableNotDefined(name.clone())),
            },
            AstNode::UnaryExpr { op, node } => {
                let value = match self.evaluate(node, unit) {
                    Ok(value) => value,
                    Err(e) => {
                        return Err(e);
                    },
                };
                apply_unary(op, value, unit)
            },
        }
    }
}

/// Evaluation never unbinds a variable.
pub proof fn lemma_eval_keeps_variables(node: AstView, env: Bindings, model: Arithmetic)
    ensures
        env.dom().subset_of(eval(node, env, model).1.dom()),
    decreases node,
{
    match node {
        AstView::UnaryExpr { op, node } => {
            lemma_eval_keeps_variables(*node, env, model);
        },
        AstView::BinaryOp { op, lhs, rhs } => {
            lemma_eval_keeps_variables(*lhs, env, model);
            let (left, between) = eval(*lhs, env, model);
            if left is Ok {
                lemma_eval_keeps_variables(*rhs, between, model);
            }
        },
        AstView::AssignIdentifier { name, node_value } => {
            lemma_eval_keeps_variables(*node_value, env, model);
        },
        _ => {},
    }
}

/// An expression that assigns no variable leaves the bindings as they were.
pub proof fn lemma_eval_without_assignment(node: AstView, env: Bindings, model: Arithmetic)
    requires
        assignment_free(node),
    ensures
        eval(node, env, model).1 == env,
    decreases node,
{
    match node {
        AstView::UnaryExpr { op, node } => {
            lemma_eval_without_assignment(*node, env, model);
        },
        AstView::BinaryOp { op, lhs, rhs } => {
            lemma_eval_without_assignment(*lhs, env, model);
            lemma_eval_without_assignment(*rhs, env, model);
        },
        _ => {},
    }
}

/// The evaluation of a parsed input changes nothing but the variable that
/// the input assigns, which gets the input's value; an input that fails, or
/// assigns nothing, leaves the bindings as they were.
pub proof fn lemma_input_changes_assigned_variable_only(
    t: Seq<TokenView>,
    env: Bindings,
    model: Arithmetic,
)
    requires
        input_tree(t) is Ok,
    ensures
        ({
            let tree = input_tree(t)->Ok_0;
            let (result, after) = eval(tree, env, model);
            after == match (tree, result) {
                (AstView::AssignIdentifier { name, node_value }, Ok(value)) => env.insert(
                    name,
                    value,
                ),
                _ => env,
            }
        }),
{
    lemma_input_assigns_at_root_only(t);
    match input_tree(t)->Ok_0 {
        AstView::AssignIdentifier { name, node_value } => {
            lemma_eval_without_assignment(*node_value, env, model);
        },
        tree => {
            lemma_eval_without_assignment(tree, env, model);
        },
    }
}

/// An expression whose numbers hold valid literals never fails for the form
/// of a number.
pub proof fn lemma_eval_accepts_valid_literals(node: AstView, env: Bindings, model: Arithmetic)
    requires
        literals_valid(node),
    ensures
        eval(node, env, model).0 != Err::<Value, ErrorView>(ErrorView::InvalidNumberFormat),
    decreases node,
{
    match node {
        AstView::UnaryExpr { op, node } => {
            lemma_eval_accepts_valid_literals(*node, env, model);
        },
        AstView::BinaryOp { op, lhs, rhs } => {
            lemma_eval_accepts_valid_literals(*lhs, env, model);
            lemma_eval_accepts_valid_literals(*rhs, eval(*lhs, env, model).1, model);
        },
        AstView::AssignIdentifier { name, node_value } => {
            lemma_eval_accepts_valid_literals(*node_value, env, model);
        },
        _ => {},
    }
}

} // verus!
