//! The grammar, and the parser that reads a token sequence by it.

use vstd::prelude::*;
use crate::ast::{AstNode, AstView};
use crate::errors::{CalculatorError, ErrorView};
use crate::lexer::{Token, TokenView, token_views};

verus! {

/// The binding levels of the grammar, weakest last: 0 is a factor, then
/// `* /`, `+ -`, the four orderings, `== !=`, and `&&`.
pub open spec fn top_level() -> nat {
    5
}

/// The binding level of a binary operator; 0 for every other token.
pub open spec fn operator_level(token: TokenView) -> nat {
    match token {
        TokenView::Star | TokenView::Slash => 1,
        TokenView::Plus | TokenView::Minus => 2,
        TokenView::Greater | TokenView::GreaterEq | TokenView::Less | TokenView::LessEq => 3,
        TokenView::EqComparison | TokenView::Different => 4,
        TokenView::LogicalAnd => 5,
        _ => 0,
    }
}

/// Whether `token` is a binary operator of binding level `level`.
pub open spec fn is_level_operator(token: TokenView, level: nat) -> bool {
    level >= 1 && operator_level(token) == level
}

/// Whether `token` is a binary operator of any level.
pub open spec fn is_binary_operator(token: TokenView) -> bool {
    operator_level(token) >= 1
}

/// The token at `pos`; behind the last token the input reads as `Eof`.
pub open spec fn token_or_eof(t: Seq<TokenView>, pos: nat) -> TokenView {
    if pos < t.len() {
        t[pos as int]
    } else {
        TokenView::Eof
    }
}

/// The number of tokens from `pos` on.
pub open spec fn tokens_left(t: Seq<TokenView>, pos: nat) -> nat {
    if pos <= t.len() {
        (t.len() - pos) as nat
    } else {
        0
    }
}

/// A parsed expression with the number of tokens that it took, or an error.
pub type Parsed = Result<(AstView, nat), ErrorView>;

/// `parsed` with `by` more tokens taken before it.
pub open spec fn shifted(parsed: Parsed, by: nat) -> Parsed {
    match parsed {
        Ok((tree, n)) => Ok((tree, by + n)),
        Err(e) => Err(e),
    }
}

/// `factor := NUMBER | IDENTIFIER | '(' logical_and ')' | ('+'|'-') factor`,
/// read at `pos`.
pub open spec fn factor_at(t: Seq<TokenView>, pos: nat) -> Parsed
    decreases tokens_left(t, pos), 0nat, 0nat,
{
    match token_or_eof(t, pos) {
        TokenView::Number(text) => Ok((AstView::Number(text), 1)),
        TokenView::Identifier(name) => Ok((AstView::ReadIdentifier(name), 1)),
        TokenView::LParen => match level_at(t, pos + 1, top_level()) {
            Err(e) => Err(e),
            Ok((inner, n)) => {
                let closing = token_or_eof(t, pos + 1 + n);
                if closing == TokenView::RParen {
                    Ok((inner, n + 2))
                } else {
                    Err(
                        ErrorView::UnexpectedToken {
                            expected: Some(TokenView::RParen),
                            got: closing,
                        },
                    )
                }
            },
        },
        TokenView::Plus => match factor_at(t, pos + 1) {
            Err(e) => Err(e),
            Ok((inner, n)) => Ok(
                (AstView::UnaryExpr { op: TokenView::Plus, node: Box::new(inner) }, n + 1),
            ),
        },
        TokenView::Minus => match factor_at(t, pos + 1) {
            Err(e) => Err(e),
            Ok((inner, n)) => Ok(
                (AstView::UnaryExpr { op: TokenView::Minus, node: Box::new(inner) }, n + 1),
            ),
        },
        other => Err(ErrorView::UnexpectedToken { expected: None, got: other }),
    }
}

/// The expression of binding level `level` read at `pos`: one operand of the
/// next stronger level, then the operators of this level with their right
/// operands, folded to the left.
pub open spec fn level_at(t: Seq<TokenView>, pos: nat, level: nat) -> Parsed
    decreases tokens_left(t, pos), level, 1nat,
{
    if level == 0 {
        factor_at(t, pos)
    } else {
        match level_at(t, pos, (level - 1) as nat) {
            Err(e) => Err(e),
            Ok((first, n)) => shifted(fold_at(t, pos + n, level, first), n),
        }
    }
}

/// The operators of `level` from `pos` on, each with its right operand,
/// folded onto `left`.
pub open spec fn fold_at(t: Seq<TokenView>, pos: nat, level: nat, left: AstView) -> Parsed
    decreases tokens_left(t, pos), level, 0nat,
{
    if pos < t.len() && is_level_operator(t[pos as int], level) {
        match level_at(t, pos + 1, (level - 1) as nat) {
            Err(e) => Err(e),
            Ok((right, n)) => {
                let joined = AstView::BinaryOp {
                    op: t[pos as int],
                    lhs: Box::new(left),
                    rhs: Box::new(right),
                };
                shifted(fold_at(t, pos + 1 + n, level, joined), 1 + n)
            },
        }
    } else {
        Ok((left, 0))
    }
}

/// `input`, read at the first token, without the test for the end:
/// a lone identifier, an assignment, an identifier with an operator and a
/// right side, or an expression of the weakest level.
pub open spec fn statement_at(t: Seq<TokenView>) -> Parsed {
    match token_or_eof(t, 0) {
        TokenView::Identifier(name) => {
            let second = token_or_eof(t, 1);
            if t.len() == 2 {
                Ok((AstView::ReadIdentifier(name), 1))
            } else if second == TokenView::Eq {
                match level_at(t, 2, top_level()) {
                    Err(e) => Err(e),
                    Ok((value, n)) => Ok(
                        (AstView::AssignIdentifier { name, node_value: Box::new(value) }, n + 2),
                    ),
                }
            } else if is_binary_operator(second) {
                match level_at(t, 2, top_level()) {
                    Err(e) => Err(e),
                    Ok((right, n)) => Ok(
                        (
                            AstView::BinaryOp {
                                op: second,
                                lhs: Box::new(AstView::ReadIdentifier(name)),
                                rhs: Box::new(right),
                            },
                            n + 2,
                        ),
                    ),
                }
            } else {
                Err(ErrorView::UnexpectedToken { expected: None, got: second })
            }
        },
        _ => level_at(t, 0, top_level()),
    }
}

/// The tree of a whole input: that of its statement, which must be followed
/// by `Eof`.
pub open spec fn input_tree(t: Seq<TokenView>) -> Result<AstView, ErrorView> {
    match statement_at(t) {
        Err(e) => Err(e),
        Ok((tree, n)) => {
            let following = token_or_eof(t, n);
            if following == TokenView::Eof {
                Ok(tree)
            } else {
                Err(ErrorView::UnexpectedToken { expected: Some(TokenView::Eof), got: following })
            }
        },
    }
}

/// Whether what a parsing function gave, and the number of tokens that it
/// took, are what the grammar says.
pub open spec fn agrees(r: Result<AstNode, CalculatorError>, taken: int, expected: Parsed) -> bool {
    match expected {
        Ok((tree, n)) => r is Ok && r->Ok_0@ == tree && taken == n,
        Err(e) => r is Err && r->Err_0@ == e,
    }
}

/// The binding level of a binary operator; 0 for every other token.
fn level_of(token: &Token) -> (r: u8)
    ensures
        r == operator_level(token@),
{
    match token {
        Token::Star | Token::Slash => 1,
        Token::Plus | Token::Minus => 2,
        Token::Greater | Token::GreaterEq | Token::Less | Token::LessEq => 3,
        Token::EqComparison | Token::Different => 4,
        Token::LogicalAnd => 5,
        _ => 0,
    }
}

/// A cursor over a token sequence.
pub struct Parser {
    tokens: Vec<Token>,
    current_token: usize,
}

impl Parser {
    /// The tokens that are being read.
    pub closed spec fn tokens_view(&self) -> Seq<TokenView> {
        token_views(self.tokens@)
    }

    /// The number of tokens read so far.
    pub closed spec fn pos(&self) -> nat {
        self.current_token as nat
    }

    /// The cursor stands on a token, and the last token is `Eof`.
    pub open spec fn wf(&self) -> bool {
        &&& self.pos() < self.tokens_view().len()
        &&& self.tokens_view().last() == TokenView::Eof
    }

    pub fn new(tokens: Vec<Token>) -> (r: Self)
        ensures
            r.tokens_view() == token_views(tokens@),
            r.pos() == 0,
    {
        Self { tokens, current_token: 0 }
    }

    fn peek_token(&self) -> (r: &Token)
        requires
            self.pos() < self.tokens_view().len(),
        ensures
            r@ == self.tokens_view()[self.pos() as int],
    {
        &self.tokens[self.current_token]
    }

    fn consume_token(&mut self, expected: Token) -> (r: Result<(), CalculatorError>)
        requires
            old(self).pos() < old(self).tokens_view().len(),
        ensures
            final(self).tokens_view() == old(self).tokens_view(),
            old(self).tokens_view()[old(self).pos() as int] == expected@ ==> r is Ok && final(self).pos() == old(self).pos() + 1,
            old(self).tokens_view()[old(self).pos() as int] != expected@ ==> r is Err
                && r->Err_0@ == (ErrorView::UnexpectedToken {
                expected: Some(expected@),
                got: old(self).tokens_view()[old(self).pos() as int],
            }) && final(self).pos() == old(self).pos(),
    {
        let token = self.tokens[self.current_token].clone();
        if token != expected {
            return Err(CalculatorError::UnexpectedToken { expected: Some(expected), got: token });
        }
        self.next_token();
        Ok(())
    }

    fn next_token(&mut self) -> (r: Token)
        requires
            old(self).pos() < old(self).tokens_view().len(),
        ensures
            final(self).tokens_view() == old(self).tokens_view(),
            final(self).pos() == old(self).pos() + 1,
            r@ == old(self).tokens_view()[old(self).pos() as int],
    {
        let token = self.tokens[self.current_token].clone();
        assert(self.current_token < self.tokens.len());
        self.current_token += 1;
        token
    }

    fn parse_factor(&mut self) -> (r: Result<AstNode, CalculatorError>)
        requires
            old(self).wf(),
        ensures
            final(self).tokens_view() == old(self).tokens_view(),
            agrees(
                r,
                final(self).pos() - old(self).pos(),
                factor_at(old(self).tokens_view(), old(self).pos()),
            ),
            r is Ok ==> final(self).wf(),
        decreases tokens_left(old(self).tokens_view(), old(self).pos()), 0nat, 0nat,
    {
        match self.next_token() {
            Token::Number(text) => Ok(AstNode::Number(text)),
            Token::LParen => {
                let inner = match self.parse_level(5) {
                    Ok(inner) => inner,
                    Err(e) => {
                        return Err(e);
                    },
                };
                match self.consume_token(Token::RParen) {
                    Ok(()) => Ok(inner),
                    Err(e) => Err(e),
                }
            },
            Token::Plus => match self.parse_factor() {
                Ok(inner) => Ok(AstNode::UnaryExpr { op: Token::Plus, node: Box::new(inner) }),
                Err(e) => Err(e),
            },
            Token::Minus => match self.parse_factor() {
                Ok(inner) => Ok(AstNode::UnaryExpr { op: Token::Minus, node: Box::new(inner) }),
                Err(e) => Err(e),
            },
            Token::Identifier(name) => Ok(AstNode::ReadIdentifier(name)),
            other => Err(CalculatorError::UnexpectedToken { expected: None, got: other }),
        }
    }

    /// Parses an expression of binding level `level`.
    fn parse_level(&mut self, level: u8) -> (r: Result<AstNode, CalculatorError>)
        requires
            old(self).wf(),
            level <= 5,
        ensures
            final(self).tokens_view() == old(self).tokens_view(),
            agrees(
                r,
                final(self).pos() - old(self).pos(),
                level_at(old(self).tokens_view(), old(self).pos(), level as nat),
            ),
            r is Ok ==> final(self).wf(),
        decreases tokens_left(old(self).tokens_view(), old(self).pos()), level, 1nat,
    {
        if level == 0 {
            return self.parse_factor();
        }
        let ghost t = self.tokens_view();
        let ghost start = self.pos();
        let mut node = match self.parse_level(level - 1) {
            Ok(node) => node,
            Err(e) => {
                return Err(e);
            },
        };
        loop
            invariant
                self.wf(),
                self.tokens_view() == t,
                t == old(self).tokens_view(),
                start == old(self).pos(),
                1 <= level <= 5,
                start <= self.pos(),
                level_at(t, start, level as nat) == shifted(
                    fold_at(t, self.pos(), level as nat, node@),
                    (self.pos() - start) as nat,
                ),
            decreases tokens_left(t, self.pos()),
        {
            if level_of(self.peek_token()) != level {
                return Ok(node);
            }
            let op = self.next_token();
            let right = match self.parse_level(level - 1) {
                Ok(right) => right,
                Err(e) => {
                    return Err(e);
                },
            };
            node = AstNode::BinaryOp { op, lhs: Box::new(node), rhs: Box::new(right) };
        }
    }

    /// `term := factor ( ('*'|'/') factor )*`
    pub fn parse_term(&mut self) -> (r: Result<AstNode, CalculatorError>)
        requires
            old(self).wf(),
        ensures
            final(self).tokens_view() == old(self).tokens_view(),
            agrees(
                r,
                final(self).pos() - old(self).pos(),
                level_at(old(self).tokens_view(), old(self).pos(), 1),
            ),
            r is Ok ==> final(self).wf(),
    {
        self.parse_level(1)
    }

    /// `expression := term ( ('+'|'-') term )*`
    pub fn parse_expression(&mut self) -> (r: Result<AstNode, CalculatorError>)
        requires
            old(self).wf(),
        ensures
            final(self).tokens_view() == old(self).tokens_view(),
            agrees(
                r,
                final(self).pos() - old(self).pos(),
                level_at(old(self).tokens_view(), old(self).pos(), 2),
            ),
            r is Ok ==> final(self).wf(),
    {
        self.parse_level(2)
    }

    /// `comparison := expression ( ('>'|'>='|'<'|'<=') expression )*`
    pub fn parse_comparison(&mut self) -> (r: Result<AstNode, CalculatorError>)
        requires
            old(self).wf(),
        ensures
            final(self).tokens_view() == old(self).tokens_view(),
            agrees(
                r,
                final(self).pos() - old(self).pos(),
                level_at(old(self).tokens_view(), old(self).pos(), 3),
            ),
            r is Ok ==> final(self).wf(),
    {
        self.parse_level(3)
    }

    /// `equality := comparison ( ('=='|'!=') comparison )*`
    pub fn parse_equalities(&mut self) -> (r: Result<AstNode, CalculatorError>)
        requires
            old(self).wf(),
        ensures
            final(self).tokens_view() == old(self).tokens_view(),
            agrees(
                r,
                final(self).pos() - old(self).pos(),
                level_at(old(self).tokens_view(), old(self).pos(), 4),
            ),
            r is Ok ==> final(self).wf(),
    {
        self.parse_level(4)
    }

    /// `logical_and := equality ( '&&' equality )*`
    pub fn parse_logical_and(&mut self) -> (r: Result<AstNode, CalculatorError>)
        requires
            old(self).wf(),
        ensures
            final(self).tokens_view() == old(self).tokens_view(),
            agrees(
                r,
                final(self).pos() - old(self).pos(),
                level_at(old(self).tokens_view(), old(self).pos(), 5),
            ),
            r is Ok ==> final(self).wf(),
    {
        self.parse_level(5)
    }

    /// Parses a whole input from its first token. Whatever follows the
    /// statement, other than the closing `Eof`, is an error.
    pub fn parse_input(&mut self) -> (r: Result<AstNode, CalculatorError>)
        requires
            old(self).wf(),
            old(self).pos() == 0,
        ensures
            final(self).tokens_view() == old(self).tokens_view(),
            match input_tree(old(self).tokens_view()) {
                Ok(tree) => r is Ok && r->Ok_0@ == tree,
                Err(e) => r is Err && r->Err_0@ == e,
            },
            r is Ok ==> final(self).wf() && final(self).tokens_view()[final(self).pos() as int]
                == TokenView::Eof,
    {
        let node = match self.parse_statement() {
            Ok(node) => node,
            Err(e) => {
                return Err(e);
            },
        };
        if !matches!(self.peek_token(), Token::Eof) {
            let got = self.next_token();
            return Err(CalculatorError::UnexpectedToken { expected: Some(Token::Eof), got });
        }
        Ok(node)
    }

    /// Parses the statement of an input, without the test for the end.
    fn parse_statement(&mut self) -> (r: Result<AstNode, CalculatorError>)
        requires
            old(self).wf(),
            old(self).pos() == 0,
        ensures
            final(self).tokens_view() == old(self).tokens_view(),
            agrees(r, final(self).pos() as int, statement_at(old(self).tokens_view())),
            r is Ok ==> final(self).wf(),
    {
        if !matches!(self.peek_token(), Token::Identifier(..)) {
            return self.parse_level(5);
        }
        let first = self.next_token();
        let name = match first {
            Token::Identifier(name) => name,
            _ => {
                return Err(CalculatorError::UnexpectedToken { expected: None, got: first });
            },
        };
        if self.tokens.len() == 2 {
            return Ok(AstNode::ReadIdentifier(name));
        }
        if matches!(self.peek_token(), Token::Eq) {
            self.next_token();
            return match self.parse_level(5) {
                Ok(value) => Ok(AstNode::AssignIdentifier { name, node_value: Box::new(value) }),
                Err(e) => Err(e),
            };
        }
        if level_of(self.peek_token()) == 0 {
            let got = self.next_token();
            return Err(CalculatorError::UnexpectedToken { expected: None, got });
        }
        let op = self.next_token();
        let left = AstNode::ReadIdentifier(name);
        assert(left@ == AstView::ReadIdentifier(name@));
        match self.parse_level(5) {
            Ok(right) => Ok(AstNode::BinaryOp { op, lhs: Box::new(left), rhs: Box::new(right) }),
            Err(e) => Err(e),
        }
    }
}

} // verus!
