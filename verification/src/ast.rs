//! Expression trees.

use vstd::prelude::*;
use crate::lexer::{Token, TokenView, valid_literal};

verus! {

/// An expression tree. A `Number` holds the text of its literal.
#[derive(Debug)]
pub enum AstNode {
    Number(String),
    UnaryExpr { op: Token, node: Box<AstNode> },
    BinaryOp { op: Token, lhs: Box<AstNode>, rhs: Box<AstNode> },
    AssignIdentifier { name: String, node_value: Box<AstNode> },
    ReadIdentifier(String),
}

/// The mathematical content of an [`AstNode`].
pub enum AstView {
    Number(Seq<char>),
    UnaryExpr { op: TokenView, node: Box<AstView> },
    BinaryOp { op: TokenView, lhs: Box<AstView>, rhs: Box<AstView> },
    AssignIdentifier { name: Seq<char>, node_value: Box<AstView> },
    ReadIdentifier(Seq<char>),
}

impl View for AstNode {
    type V = AstView;

    open spec fn view(&self) -> AstView
        decreases self,
    {
        match self {
            AstNode::Number(text) => AstView::Number(text@),
            AstNode::UnaryExpr { op, node } => AstView::UnaryExpr {
                op: op@,
                node: Box::new((**node).view()),
            },
            AstNode::BinaryOp { op, lhs, rhs } => AstView::BinaryOp {
                op: op@,
                lhs: Box::new((**lhs).view()),
                rhs: Box::new((**rhs).view()),
            },
            AstNode::AssignIdentifier { name, node_value } => AstView::AssignIdentifier {
                name: name@,
                node_value: Box::new((**node_value).view()),
            },
            AstNode::ReadIdentifier(name) => AstView::ReadIdentifier(name@),
        }
    }
}

/// The tokens of an expression in the order in which they were written,
/// parentheses left out.
pub open spec fn flatten(ast: AstView) -> Seq<TokenView>
    decreases ast,
{
    match ast {
        AstView::Number(text) => seq![TokenView::Number(text)],
        AstView::UnaryExpr { op, node } => seq![op] + flatten(*node),
        AstView::BinaryOp { op, lhs, rhs } => flatten(*lhs) + seq![op] + flatten(*rhs),
        AstView::AssignIdentifier { name, node_value } => seq![
            TokenView::Identifier(name),
            TokenView::Eq,
        ] + flatten(*node_value),
        AstView::ReadIdentifier(name) => seq![TokenView::Identifier(name)],
    }
}

/// Whether an expression assigns no variable.
pub open spec fn assignment_free(ast: AstView) -> bool
    decreases ast,
{
    match ast {
        AstView::Number(_) => true,
        AstView::UnaryExpr { op, node } => assignment_free(*node),
        AstView::BinaryOp { op, lhs, rhs } => assignment_free(*lhs) && assignment_free(*rhs),
        AstView::AssignIdentifier { name, node_value } => false,
        AstView::ReadIdentifier(_) => true,
    }
}

/// Whether every number of an expression holds a valid literal.
pub open spec fn literals_valid(ast: AstView) -> bool
    decreases ast,
{
    match ast {
        AstView::Number(text) => valid_literal(text),
        AstView::UnaryExpr { op, node } => literals_valid(*node),
        AstView::BinaryOp { op, lhs, rhs } => literals_valid(*lhs) && literals_valid(*rhs),
        AstView::AssignIdentifier { name, node_value } => literals_valid(*node_value),
        AstView::ReadIdentifier(_) => true,
    }
}

} // verus!
