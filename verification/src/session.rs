//! One line of input, from text to value.

use vstd::prelude::*;
use crate::errors::{CalculatorError, ErrorView};
use crate::evaluator::{
    Arithmetic, Bindings, Evaluator, Operation, computes, eval, lemma_eval_accepts_valid_literals,
    lemma_input_changes_assigned_variable_only, result_view, serves,
};
use crate::lexer::{Lexer, TokenView, lemma_tokens_well_formed, tokens_from};
use crate::output::Value;
use crate::parse_laws::lemma_input_literals_valid;
use crate::parser::{Parser, input_tree};

verus! {

/// The result of a line and the bindings that it leaves: the line is split
/// into tokens, the tokens are parsed as one input, and the tree is
/// evaluated. The first stage that fails gives the error.
pub open spec fn line_result(line: Seq<char>, env: Bindings, model: Arithmetic) -> (
    Result<Value, ErrorView>,
    Bindings,
) {
    match tokens_from(line, 0) {
        Err(e) => (Err(e), env),
        Ok(tokens) => match input_tree(tokens) {
            Err(e) => (Err(e), env),
            Ok(tree) => eval(tree, env, model),
        },
    }
}

/// Evaluates one line of input in the bindings of `evaluator`.
pub fn run_line<U: Fn(Operation) -> u64>(evaluator: &mut Evaluator, line: &String, unit: &U) -> (r:
    Result<Value, CalculatorError>)
    requires
        serves(unit),
    ensures
        forall|model: Arithmetic| #[trigger]
            computes(unit, model) ==> (result_view(r), final(evaluator).env()) == line_result(
                line@,
                old(evaluator).env(),
                model,
            ),
        old(evaluator).env().dom().subset_of(final(evaluator).env().dom()),
{
    let mut lexer = Lexer::new(line);
    let tokens = match lexer.tokenize() {
        Ok(tokens) => tokens,
        Err(e) => {
            return Err(e);
        },
    };
    let mut parser = Parser::new(tokens);
    let node = match parser.parse_input() {
        Ok(node) => node,
        Err(e) => {
            return Err(e);
        },
    };
    evaluator.evaluate(&node, unit)
}

/// A line that fails leaves every variable as it was.
pub proof fn lemma_failed_line_keeps_bindings(line: Seq<char>, env: Bindings, model: Arithmetic)
    requires
        line_result(line, env, model).0 is Err,
    ensures
        line_result(line, env, model).1 == env,
{
    if tokens_from(line, 0) is Ok && input_tree(tokens_from(line, 0)->Ok_0) is Ok {
        lemma_input_changes_assigned_variable_only(tokens_from(line, 0)->Ok_0, env, model);
    }
}

/// Only the lexer rejects a line for the form of a number: what it lets
/// pass, the evaluator takes.
pub proof fn lemma_number_format_is_settled_by_lexer(
    line: Seq<char>,
    env: Bindings,
    model: Arithmetic,
)
    requires
        line_result(line, env, model).0 == Err::<Value, ErrorView>(ErrorView::InvalidNumberFormat),
    ensures
        tokens_from(line, 0) == Err::<Seq<TokenView>, ErrorView>(
            ErrorView::InvalidNumberFormat,
        ),
{
    if tokens_from(line, 0) is Ok {
        let tokens = tokens_from(line, 0)->Ok_0;
        lemma_tokens_well_formed(line, 0);
        lemma_input_literals_valid(tokens);
        if input_tree(tokens) is Ok {
            lemma_eval_accepts_valid_literals(input_tree(tokens)->Ok_0, env, model);
        }
    }
}

} // verus!
