//! What holds of every tree that the grammar gives: it accounts for the
//! tokens that it took, it assigns at its root or nowhere, and its numbers
//! are those of the tokens.

use vstd::prelude::*;
use crate::ast::{AstView, assignment_free, flatten, literals_valid};
use crate::lexer::{TokenView, ends_in_eof, literal_valid};
use crate::parser::{
    Parsed, factor_at, fold_at, input_tree, is_level_operator, level_at, statement_at,
    token_or_eof, tokens_left, top_level,
};

verus! {

pub open spec fn is_paren(token: TokenView) -> bool {
    token == TokenView::LParen || token == TokenView::RParen
}

/// A token sequence with its parentheses left out.
pub open spec fn without_parens(tokens: Seq<TokenView>) -> Seq<TokenView>
    decreases tokens.len(),
{
    if tokens.len() == 0 {
        Seq::empty()
    } else if is_paren(tokens.last()) {
        without_parens(tokens.drop_last())
    } else {
        without_parens(tokens.drop_last()).push(tokens.last())
    }
}

/// The `n` tokens from `from` on, parentheses left out.
pub open spec fn span(t: Seq<TokenView>, from: nat, n: nat) -> Seq<TokenView> {
    without_parens(t.subrange(from as int, (from + n) as int))
}

/// Whether none of the `n` tokens from `from` on is `Eof`.
pub open spec fn eof_free(t: Seq<TokenView>, from: nat, n: nat) -> bool {
    forall|i: int| from <= i < from + n ==> #[trigger] t[i] != TokenView::Eof
}

proof fn lemma_without_parens_add(a: Seq<TokenView>, b: Seq<TokenView>)
    ensures
        without_parens(a + b) == without_parens(a) + without_parens(b),
    decreases b.len(),
{
    if b.len() == 0 {
        assert(a + b =~= a);
        assert(without_parens(a) + without_parens(b) =~= without_parens(a));
    } else {
        lemma_without_parens_add(a, b.drop_last());
        assert((a + b).drop_last() =~= a + b.drop_last());
        assert((a + b).last() == b.last());
        if !is_paren(b.last()) {
            assert((without_parens(a) + without_parens(b.drop_last())).push(b.last())
                =~= without_parens(a) + without_parens(b.drop_last()).push(b.last()));
        }
    }
}

proof fn lemma_span_split(t: Seq<TokenView>, from: nat, n: nat, m: nat)
    requires
        from + n + m <= t.len(),
    ensures
        span(t, from, n + m) == span(t, from, n) + span(t, from + n, m),
{
    let a = from as int;
    let b = a + n;
    let c = b + m;
    assert(t.subrange(a, c) =~= t.subrange(a, b) + t.subrange(b, c));
    lemma_without_parens_add(t.subrange(a, b), t.subrange(b, c));
}

proof fn lemma_span_one(t: Seq<TokenView>, from: nat)
    requires
        from < t.len(),
    ensures
        span(t, from, 1) == if is_paren(t[from as int]) {
            Seq::<TokenView>::empty()
        } else {
            seq![t[from as int]]
        },
        span(t, from, 0) == Seq::<TokenView>::empty(),
{
    let one = t.subrange(from as int, from as int + 1);
    assert(one.drop_last() =~= Seq::<TokenView>::empty());
    assert(one.last() == t[from as int]);
    assert(without_parens(one.drop_last()) =~= Seq::<TokenView>::empty());
    assert(Seq::<TokenView>::empty().push(t[from as int]) =~= seq![t[from as int]]);
    assert(t.subrange(from as int, from as int + 0) =~= Seq::<TokenView>::empty());
}

/// What the grammar promises of a tree that took `n` tokens at `pos`: the
/// tokens exist, none is `Eof`, and the tree's tokens, in order, are these
/// tokens without their parentheses, behind those of `before`.
pub open spec fn accounts_for(
    parsed: Parsed,
    t: Seq<TokenView>,
    pos: nat,
    before: Seq<TokenView>,
) -> bool {
    match parsed {
        Ok((tree, n)) => pos + n <= t.len() && eof_free(t, pos, n) && flatten(tree) == before
            + span(t, pos, n),
        Err(_) => true,
    }
}

/// A factor takes at least one token and accounts for what it takes.
pub proof fn lemma_factor_accounts(t: Seq<TokenView>, pos: nat)
    ensures
        accounts_for(factor_at(t, pos), t, pos, Seq::empty()),
        factor_at(t, pos) is Ok ==> factor_at(t, pos)->Ok_0.1 >= 1,
    decreases tokens_left(t, pos), 0nat, 0nat,
{
    let nothing = Seq::<TokenView>::empty();
    if pos < t.len() {
        lemma_span_one(t, pos);
        match t[pos as int] {
            TokenView::Number(text) => {
                assert(nothing + span(t, pos, 1) =~= seq![t[pos as int]]);
            },
            TokenView::Identifier(name) => {
                assert(nothing + span(t, pos, 1) =~= seq![t[pos as int]]);
            },
            TokenView::LParen => {
                lemma_level_accounts(t, pos + 1, top_level());
                match level_at(t, pos + 1, top_level()) {
                    Ok((inner, n)) => {
                        if token_or_eof(t, pos + 1 + n) == TokenView::RParen {
                            lemma_span_one(t, pos + 1 + n);
                            lemma_span_split(t, pos, 1, n);
                            lemma_span_split(t, pos, 1 + n, 1);
                            assert(nothing + span(t, pos, n + 2) =~= nothing + span(
                                t,
                                pos + 1,
                                n,
                            ));
                        }
                    },
                    Err(_) => {},
                }
            },
            TokenView::Plus => {
                lemma_factor_accounts(t, pos + 1);
                match factor_at(t, pos + 1) {
                    Ok((inner, n)) => {
                        lemma_span_split(t, pos, 1, n);
                        assert(nothing + span(t, pos, n + 1) =~= seq![TokenView::Plus] + (nothing
                            + span(t, pos + 1, n)));
                    },
                    Err(_) => {},
                }
            },
            TokenView::Minus => {
                lemma_factor_accounts(t, pos + 1);
                match factor_at(t, pos + 1) {
                    Ok((inner, n)) => {
                        lemma_span_split(t, pos, 1, n);
                        assert(nothing + span(t, pos, n + 1) =~= seq![TokenView::Minus] + (nothing
                            + span(t, pos + 1, n)));
                    },
                    Err(_) => {},
                }
            },
            _ => {},
        }
    }
}

/// An expression of any level takes at least one token and accounts for
/// what it takes.
pub proof fn lemma_level_accounts(t: Seq<TokenView>, pos: nat, level: nat)
    ensures
        accounts_for(level_at(t, pos, level), t, pos, Seq::empty()),
        level_at(t, pos, level) is Ok ==> level_at(t, pos, level)->Ok_0.1 >= 1,
    decreases tokens_left(t, pos), level, 1nat,
{
    if level == 0 {
        lemma_factor_accounts(t, pos);
    } else {
        lemma_level_accounts(t, pos, (level - 1) as nat);
        match level_at(t, pos, (level - 1) as nat) {
            Ok((first, n)) => {
                lemma_fold_accounts(t, pos + n, level, first);
                match fold_at(t, pos + n, level, first) {
                    Ok((whole, m)) => {
                        lemma_span_split(t, pos, n, m);
                        assert(Seq::<TokenView>::empty() + span(t, pos, n + m) =~= (Seq::<
                            TokenView,
                        >::empty() + span(t, pos, n)) + span(t, pos + n, m));
                    },
                    Err(_) => {},
                }
            },
            Err(_) => {},
        }
    }
}

/// A run of operators and right operands accounts for what it takes, behind
/// the tokens of the left operand.
pub proof fn lemma_fold_accounts(t: Seq<TokenView>, pos: nat, level: nat, left: AstView)
    requires
        pos <= t.len(),
    ensures
        accounts_for(fold_at(t, pos, level, left), t, pos, flatten(left)),
    decreases tokens_left(t, pos), level, 0nat,
{
    if pos < t.len() && is_level_operator(t[pos as int], level) {
        lemma_level_accounts(t, pos + 1, (level - 1) as nat);
        match level_at(t, pos + 1, (level - 1) as nat) {
            Ok((right, n)) => {
                let joined = AstView::BinaryOp {
                    op: t[pos as int],
                    lhs: Box::new(left),
                    rhs: Box::new(right),
                };
                lemma_fold_accounts(t, pos + 1 + n, level, joined);
                match fold_at(t, pos + 1 + n, level, joined) {
                    Ok((whole, m)) => {
                        lemma_span_one(t, pos);
                        lemma_span_split(t, pos, 1, n);
                        lemma_span_split(t, pos, 1 + n, m);
                        assert(flatten(joined) =~= flatten(left) + span(t, pos, 1 + n));
                        assert(flatten(left) + span(t, pos, 1 + n + m) =~= flatten(joined) + span(
                            t,
                            pos + 1 + n,
                            m,
                        ));
                    },
                    Err(_) => {},
                }
            },
            Err(_) => {},
        }
    } else {
        assert(t.subrange(pos as int, pos as int + 0) =~= Seq::<TokenView>::empty());
        assert(flatten(left) + span(t, pos, 0) =~= flatten(left));
    }
}

/// Where a token sequence that ends in its only `Eof` parses as a whole
/// input, the tokens of the tree, in order, are those of the input without
/// the parentheses and the closing `Eof`: every token is accounted for.
pub proof fn lemma_parse_accounts_for_tokens(t: Seq<TokenView>)
    requires
        ends_in_eof(t),
    ensures
        input_tree(t) is Ok ==> flatten(input_tree(t)->Ok_0) == without_parens(t.drop_last()),
{
    if input_tree(t) is Ok {
        let (tree, n) = statement_at(t)->Ok_0;
        let nothing = Seq::<TokenView>::empty();
        assert(accounts_for(statement_at(t), t, 0, nothing)) by {
            match t[0] {
                TokenView::Identifier(name) => {
                    lemma_span_one(t, 0);
                    if t.len() == 2 {
                        assert(nothing + span(t, 0, 1) =~= seq![t[0]]);
                    } else {
                        lemma_span_one(t, 1);
                        lemma_level_accounts(t, 2, top_level());
                        let k = level_at(t, 2, top_level())->Ok_0.1;
                        let right = level_at(t, 2, top_level())->Ok_0.0;
                        lemma_span_split(t, 0, 1, 1);
                        lemma_span_split(t, 0, 2, k);
                        assert(flatten(AstView::ReadIdentifier(name)) =~= seq![t[0]]);
                        assert(flatten(tree) =~= seq![t[0], t[1]] + flatten(right));
                        assert(nothing + span(t, 0, k + 2) =~= seq![t[0], t[1]] + (nothing + span(
                            t,
                            2,
                            k,
                        )));
                    }
                },
                _ => {
                    lemma_level_accounts(t, 0, top_level());
                },
            }
        }
        assert(n == t.len() - 1);
        assert(t.subrange(0, n as int) =~= t.drop_last());
        assert(nothing + span(t, 0, n) =~= span(t, 0, n));
    }
}

/// Whether a parsed expression, if there is one, assigns no variable.
pub open spec fn parsed_assignment_free(parsed: Parsed) -> bool {
    parsed is Ok ==> assignment_free(parsed->Ok_0.0)
}

/// No factor holds an assignment.
pub proof fn lemma_factor_assignment_free(t: Seq<TokenView>, pos: nat)
    ensures
        parsed_assignment_free(factor_at(t, pos)),
    decreases tokens_left(t, pos), 0nat, 0nat,
{
    if pos < t.len() {
        match t[pos as int] {
            TokenView::LParen => {
                lemma_level_assignment_free(t, pos + 1, top_level());
            },
            TokenView::Plus => {
                lemma_factor_assignment_free(t, pos + 1);
            },
            TokenView::Minus => {
                lemma_factor_assignment_free(t, pos + 1);
            },
            _ => {},
        }
    }
}

/// No expression of any level holds an assignment.
pub proof fn lemma_level_assignment_free(t: Seq<TokenView>, pos: nat, level: nat)
    ensures
        parsed_assignment_free(level_at(t, pos, level)),
    decreases tokens_left(t, pos), level, 1nat,
{
    if level == 0 {
        lemma_factor_assignment_free(t, pos);
    } else {
        lemma_level_assignment_free(t, pos, (level - 1) as nat);
        match level_at(t, pos, (level - 1) as nat) {
            Ok((first, n)) => {
                lemma_fold_assignment_free(t, pos + n, level, first);
            },
            Err(_) => {},
        }
    }
}

/// Operators and right operands add no assignment to a left operand that
/// holds none.
pub proof fn lemma_fold_assignment_free(t: Seq<TokenView>, pos: nat, level: nat, left: AstView)
    requires
        assignment_free(left),
    ensures
        parsed_assignment_free(fold_at(t, pos, level, left)),
    decreases tokens_left(t, pos), level, 0nat,
{
    if pos < t.len() && is_level_operator(t[pos as int], level) {
        lemma_level_assignment_free(t, pos + 1, (level - 1) as nat);
        match level_at(t, pos + 1, (level - 1) as nat) {
            Ok((right, n)) => {
                let joined = AstView::BinaryOp {
                    op: t[pos as int],
                    lhs: Box::new(left),
                    rhs: Box::new(right),
                };
                lemma_fold_assignment_free(t, pos + 1 + n, level, joined);
            },
            Err(_) => {},
        }
    }
}

/// The tree of an input holds an assignment at its root or nowhere.
pub proof fn lemma_input_assigns_at_root_only(t: Seq<TokenView>)
    ensures
        input_tree(t) is Ok ==> match input_tree(t)->Ok_0 {
            AstView::AssignIdentifier { name, node_value } => assignment_free(*node_value),
            tree => assignment_free(tree),
        },
{
    lemma_level_assignment_free(t, 0, top_level());
    lemma_level_assignment_free(t, 2, top_level());
    if input_tree(t) is Ok {
        match token_or_eof(t, 0) {
            TokenView::Identifier(name) => {
                assert(assignment_free(AstView::ReadIdentifier(name)));
            },
            _ => {},
        }
    }
}

/// Whether every number among the tokens holds a valid literal.
pub open spec fn tokens_valid(t: Seq<TokenView>) -> bool {
    forall|i: int| 0 <= i < t.len() ==> literal_valid(#[trigger] t[i])
}

/// Whether every number of a parsed expression holds a valid literal, or
/// else the error is an unexpected token.
pub open spec fn parsed_literals_valid(parsed: Parsed) -> bool {
    match parsed {
        Ok((tree, _)) => literals_valid(tree),
        Err(e) => e is UnexpectedToken,
    }
}

/// The numbers of a factor hold the literals of number tokens, and a factor
/// fails with an unexpected token only.
pub proof fn lemma_factor_literals_valid(t: Seq<TokenView>, pos: nat)
    requires
        tokens_valid(t),
    ensures
        parsed_literals_valid(factor_at(t, pos)),
    decreases tokens_left(t, pos), 0nat, 0nat,
{
    if pos < t.len() {
        match t[pos as int] {
            TokenView::LParen => {
                lemma_level_literals_valid(t, pos + 1, top_level());
            },
            TokenView::Plus => {
                lemma_factor_literals_valid(t, pos + 1);
            },
            TokenView::Minus => {
                lemma_factor_literals_valid(t, pos + 1);
            },
            _ => {},
        }
    }
}

/// The numbers of an expression of any level hold the literals of number
/// tokens, and it fails with an unexpected token only.
pub proof fn lemma_level_literals_valid(t: Seq<TokenView>, pos: nat, level: nat)
    requires
        tokens_valid(t),
    ensures
        parsed_literals_valid(level_at(t, pos, level)),
    decreases tokens_left(t, pos), level, 1nat,
{
    if level == 0 {
        lemma_factor_literals_valid(t, pos);
    } else {
        lemma_level_literals_valid(t, pos, (level - 1) as nat);
        match level_at(t, pos, (level - 1) as nat) {
            Ok((first, n)) => {
                lemma_fold_literals_valid(t, pos + n, level, first);
            },
            Err(_) => {},
        }
    }
}

/// Operators and right operands add only the literals of number tokens,
/// and fail with an unexpected token only.
pub proof fn lemma_fold_literals_valid(t: Seq<TokenView>, pos: nat, level: nat, left: AstView)
    requires
        tokens_valid(t),
        literals_valid(left),
    ensures
        parsed_literals_valid(fold_at(t, pos, level, left)),
    decreases tokens_left(t, pos), level, 0nat,
{
    if pos < t.len() && is_level_operator(t[pos as int], level) {
        lemma_level_literals_valid(t, pos + 1, (level - 1) as nat);
        match level_at(t, pos + 1, (level - 1) as nat) {
            Ok((right, n)) => {
                let joined = AstView::BinaryOp {
                    op: t[pos as int],
                    lhs: Box::new(left),
                    rhs: Box::new(right),
                };
                lemma_fold_literals_valid(t, pos + 1 + n, level, joined);
            },
            Err(_) => {},
        }
    }
}

/// The numbers of the tree of an input hold the literals of number tokens,
/// and an input that has no tree fails with an unexpected token.
pub proof fn lemma_input_literals_valid(t: Seq<TokenView>)
    requires
        tokens_valid(t),
    ensures
        match input_tree(t) {
            Ok(tree) => literals_valid(tree),
            Err(e) => e is UnexpectedToken,
        },
{
    lemma_level_literals_valid(t, 0, top_level());
    lemma_level_literals_valid(t, 2, top_level());
    match token_or_eof(t, 0) {
        TokenView::Identifier(name) => {
            assert(literals_valid(AstView::ReadIdentifier(name)));
        },
        _ => {},
    }
}

} // verus!
