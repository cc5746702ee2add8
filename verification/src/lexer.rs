//! Tokens, and the lexer that reads them from a line of text.

use vstd::prelude::*;
use vstd::std_specs::cmp::PartialEqSpecImpl;
use crate::errors::{CalculatorError, ErrorView};

verus! {

/// A lexical unit. A `Number` holds the text of its literal, which is a
/// valid decimal literal whenever the token comes from the lexer.
#[derive(Debug)]
pub enum Token {
    Number(String),
    Plus,
    Minus,
    Star,
    Slash,
    Eof,
    RParen,
    LParen,
    Identifier(String),
    Eq,
    Greater,
    GreaterEq,
    Less,
    LessEq,
    EqComparison,
    Different,
    LogicalAnd,
    LogicalOr,
    LogicalNot,
    BinaryAnd,
    BinaryOr,
    BinaryNot,
}

/// The mathematical content of a [`Token`].
pub enum TokenView {
    Number(Seq<char>),
    Plus,
    Minus,
    Star,
    Slash,
    Eof,
    RParen,
    LParen,
    Identifier(Seq<char>),
    Eq,
    Greater,
    GreaterEq,
    Less,
    LessEq,
    EqComparison,
    Different,
    LogicalAnd,
    LogicalOr,
    LogicalNot,
    BinaryAnd,
    BinaryOr,
    BinaryNot,
}

impl View for Token {
    type V = TokenView;

    open spec fn view(&self) -> TokenView {
        match *self {
            Token::Number(text) => TokenView::Number(text@),
            Token::Plus => TokenView::Plus,
            Token::Minus => TokenView::Minus,
            Token::Star => TokenView::Star,
            Token::Slash => TokenView::Slash,
            Token::Eof => TokenView::Eof,
            Token::RParen => TokenView::RParen,
            Token::LParen => TokenView::LParen,
            Token::Identifier(name) => TokenView::Identifier(name@),
            Token::Eq => TokenView::Eq,
            Token::Greater => TokenView::Greater,
            Token::GreaterEq => TokenView::GreaterEq,
            Token::Less => TokenView::Less,
            Token::LessEq => TokenView::LessEq,
            Token::EqComparison => TokenView::EqComparison,
            Token::Different => TokenView::Different,
            Token::LogicalAnd => TokenView::LogicalAnd,
            Token::LogicalOr => TokenView::LogicalOr,
            Token::LogicalNot => TokenView::LogicalNot,
            Token::BinaryAnd => TokenView::BinaryAnd,
            Token::BinaryOr => TokenView::BinaryOr,
            Token::BinaryNot => TokenView::BinaryNot,
        }
    }
}

impl Clone for Token {
    fn clone(&self) -> (r: Token)
        ensures
            r@ == self@,
    {
        match self {
            Token::Number(text) => Token::Number(text.clone()),
            Token::Plus => Token::Plus,
            Token::Minus => Token::Minus,
            Token::Star => Token::Star,
            Token::Slash => Token::Slash,
            Token::Eof => Token::Eof,
            Token::RParen => Token::RParen,
            Token::LParen => Token::LParen,
            Token::Identifier(name) => Token::Identifier(name.clone()),
            Token::Eq => Token::Eq,
            Token::Greater => Token::Greater,
            Token::GreaterEq => Token::GreaterEq,
            Token::Less => Token::Less,
            Token::LessEq => Token::LessEq,
            Token::EqComparison => Token::EqComparison,
            Token::Different => Token::Different,
            Token::LogicalAnd => Token::LogicalAnd,
            Token::LogicalOr => Token::LogicalOr,
            Token::LogicalNot => Token::LogicalNot,
            Token::BinaryAnd => Token::BinaryAnd,
            Token::BinaryOr => Token::BinaryOr,
            Token::BinaryNot => Token::BinaryNot,
        }
    }
}

impl PartialEq for Token {
    fn eq(&self, other: &Token) -> (r: bool) {
        match self {
            Token::Number(a) => match other {
                Token::Number(b) => *a == *b,
                _ => false,
            },
            Token::Plus => matches!(other, Token::Plus),
            Token::Minus => matches!(other, Token::Minus),
            Token::Star => matches!(other, Token::Star),
            Token::Slash => matches!(other, Token::Slash),
            Token::Eof => matches!(other, Token::Eof),
            Token::RParen => matches!(other, Token::RParen),
            Token::LParen => matches!(other, Token::LParen),
            Token::Identifier(a) => match other {
                Token::Identifier(b) => *a == *b,
                _ => false,
            },
            Token::Eq => matches!(other, Token::Eq),
            Token::Greater => matches!(other, Token::Greater),
            Token::GreaterEq => matches!(other, Token::GreaterEq),
            Token::Less => matches!(other, Token::Less),
            Token::LessEq => matches!(other, Token::LessEq),
            Token::EqComparison => matches!(other, Token::EqComparison),
            Token::Different => matches!(other, Token::Different),
            Token::LogicalAnd => matches!(other, Token::LogicalAnd),
            Token::LogicalOr => matches!(other, Token::LogicalOr),
            Token::LogicalNot => matches!(other, Token::LogicalNot),
            Token::BinaryAnd => matches!(other, Token::BinaryAnd),
            Token::BinaryOr => matches!(other, Token::BinaryOr),
            Token::BinaryNot => matches!(other, Token::BinaryNot),
        }
    }
}

impl PartialEqSpecImpl for Token {
    open spec fn obeys_eq_spec() -> bool {
        true
    }

    open spec fn eq_spec(&self, other: &Token) -> bool {
        self@ == other@
    }
}

/// The views of a sequence of tokens, in order.
pub open spec fn token_views(tokens: Seq<Token>) -> Seq<TokenView> {
    Seq::new(tokens.len(), |i: int| tokens[i]@)
}

/// Whether `char::is_whitespace` holds of a character.
pub uninterp spec fn char_is_whitespace(c: char) -> bool;

/// Whether `char::is_alphanumeric` holds of a character.
pub uninterp spec fn char_is_alphanumeric(c: char) -> bool;

/// Calls `char::is_whitespace`, which consults the Unicode `White_Space`
/// property; the contract only names its answer.
#[verifier::external_body]
fn is_whitespace(c: char) -> (r: bool)
    ensures
        r == char_is_whitespace(c),
{
    c.is_whitespace()
}

/// Calls `char::is_alphanumeric`, which consults the Unicode `Alphabetic`
/// and numeric categories; the contract only names its answer.
#[verifier::external_body]
fn is_alphanumeric(c: char) -> (r: bool)
    ensures
        r == char_is_alphanumeric(c),
{
    c.is_alphanumeric()
}

/// Calls `String::push`, which appends one character to the string.
#[verifier::external_body]
fn push_char(text: &mut String, c: char)
    ensures
        final(text)@ == old(text)@.push(c),
{
    text.push(c)
}

/// The kinds of characters of which the lexer reads a whole run at once.
pub enum CharClass {
    Whitespace,
    NumberPart,
    IdentifierPart,
}

pub open spec fn is_number_char(c: char) -> bool {
    ('0' <= c && c <= '9') || c == '.'
}

pub open spec fn is_identifier_char(c: char) -> bool {
    char_is_alphanumeric(c) || c == '_'
}

pub open spec fn in_class(c: char, class: CharClass) -> bool {
    match class {
        CharClass::Whitespace => char_is_whitespace(c),
        CharClass::NumberPart => is_number_char(c),
        CharClass::IdentifierPart => is_identifier_char(c),
    }
}

/// The length of the longest run of characters of `class` that starts at `pos`.
pub open spec fn run_len(s: Seq<char>, pos: nat, class: CharClass) -> nat
    decreases s.len() - pos,
{
    if pos < s.len() && in_class(s[pos as int], class) {
        1 + run_len(s, pos + 1, class)
    } else {
        0
    }
}

/// A run never leaves the text.
pub proof fn lemma_run_len_bounded(s: Seq<char>, pos: nat, class: CharClass)
    requires
        pos <= s.len(),
    ensures
        pos + run_len(s, pos, class) <= s.len(),
        forall|i: int| pos <= i < pos + run_len(s, pos, class) ==> in_class(#[trigger] s[i], class),
        pos + run_len(s, pos, class) < s.len() ==> !in_class(
            s[(pos + run_len(s, pos, class)) as int],
            class,
        ),
    decreases s.len() - pos,
{
    if pos < s.len() && in_class(s[pos as int], class) {
        lemma_run_len_bounded(s, pos + 1, class);
    }
}

/// The number of decimal points in a text.
pub open spec fn dot_count(s: Seq<char>) -> nat
    decreases s.len(),
{
    if s.len() == 0 {
        0
    } else {
        dot_count(s.drop_last()) + if s.last() == '.' {
            1nat
        } else {
            0nat
        }
    }
}

/// The decimal literals that denote a number: digits with at most one decimal
/// point, and at least one digit.
pub open spec fn valid_literal(s: Seq<char>) -> bool {
    &&& forall|i: int| 0 <= i < s.len() ==> is_number_char(#[trigger] s[i])
    &&& dot_count(s) <= 1
    &&& dot_count(s) < s.len()
}

/// Whether the character after position `p` exists and is `c`.
pub open spec fn followed_by(s: Seq<char>, p: nat, c: char) -> bool {
    p + 1 < s.len() && s[(p + 1) as int] == c
}

/// What a one- or two-character operator at `p` gives: `double` and two
/// characters if `second` follows, else `single` and one character.
pub open spec fn operator_at(
    s: Seq<char>,
    p: nat,
    second: char,
    double: TokenView,
    single: TokenView,
) -> (TokenView, nat) {
    if followed_by(s, p, second) {
        (double, p + 2)
    } else {
        (single, p + 1)
    }
}

/// The token that starts at or after `pos`, leading whitespace skipped, with
/// the position behind it; or the error that the text at that place gives.
pub open spec fn token_at(s: Seq<char>, pos: nat) -> Result<(TokenView, nat), ErrorView> {
    let p = pos + run_len(s, pos, CharClass::Whitespace);
    if p >= s.len() {
        Ok((TokenView::Eof, p))
    } else {
        let c = s[p as int];
        if c == '+' {
            Ok((TokenView::Plus, p + 1))
        } else if c == '-' {
            Ok((TokenView::Minus, p + 1))
        } else if c == '*' {
            Ok((TokenView::Star, p + 1))
        } else if c == '/' {
            Ok((TokenView::Slash, p + 1))
        } else if c == '(' {
            Ok((TokenView::LParen, p + 1))
        } else if c == ')' {
            Ok((TokenView::RParen, p + 1))
        } else if c == '=' {
            Ok(operator_at(s, p, '=', TokenView::EqComparison, TokenView::Eq))
        } else if c == '>' {
            Ok(operator_at(s, p, '=', TokenView::GreaterEq, TokenView::Greater))
        } else if c == '<' {
            Ok(operator_at(s, p, '=', TokenView::LessEq, TokenView::Less))
        } else if c == '!' {
            Ok(operator_at(s, p, '=', TokenView::Different, TokenView::LogicalNot))
        } else if c == '&' {
            Ok(operator_at(s, p, '&', TokenView::LogicalAnd, TokenView::BinaryAnd))
        } else if c == '|' {
            Ok(operator_at(s, p, '|', TokenView::LogicalOr, TokenView::BinaryOr))
        } else if is_number_char(c) {
            let end = p + 1 + run_len(s, p + 1, CharClass::NumberPart);
            let literal = s.subrange(p as int, end as int);
            if valid_literal(literal) {
                Ok((TokenView::Number(literal), end))
            } else {
                Err(ErrorView::InvalidNumberFormat)
            }
        } else if is_identifier_char(c) {
            let end = p + 1 + run_len(s, p + 1, CharClass::IdentifierPart);
            Ok((TokenView::Identifier(s.subrange(p as int, end as int)), end))
        } else {
            Err(ErrorView::InvalidCharacter(c))
        }
    }
}

/// What is left of the text from `pos` on.
pub open spec fn remaining(s: Seq<char>, pos: nat) -> nat {
    if pos <= s.len() {
        (s.len() - pos) as nat
    } else {
        0
    }
}

/// The tokens of the text from `pos` on, up to and including the one `Eof`
/// that ends them; or the first error.
pub open spec fn tokens_from(s: Seq<char>, pos: nat) -> Result<Seq<TokenView>, ErrorView>
    decreases remaining(s, pos),
{
    match token_at(s, pos) {
        Err(e) => Err(e),
        Ok((token, next)) => if token == TokenView::Eof {
            Ok(seq![TokenView::Eof])
        } else {
            match tokens_from(s, next) {
                Ok(rest) => Ok(seq![token] + rest),
                Err(e) => Err(e),
            }
        },
    }
}

/// Whether a text is a valid decimal literal.
pub fn is_valid_literal(text: &str) -> (r: bool)
    ensures
        r == valid_literal(text@),
{
    let n = text.unicode_len();
    let mut dots: usize = 0;
    let mut clean = true;
    let mut i: usize = 0;
    while i < n
        invariant
            n == text@.len(),
            i <= n,
            dots == dot_count(text@.take(i as int)),
            dots <= i,
            clean == forall|j: int| 0 <= j < i ==> is_number_char(#[trigger] text@[j]),
        decreases n - i,
    {
        let c = text.get_char(i);
        proof {
            assert(text@.take(i + 1).drop_last() =~= text@.take(i as int));
        }
        if c == '.' {
            dots = dots + 1;
        }
        if !(('0' <= c && c <= '9') || c == '.') {
            clean = false;
        }
        i = i + 1;
    }
    proof {
        assert(text@.take(n as int) =~= text@);
    }
    clean && dots <= 1 && dots < n
}

/// A cursor over a line of text, counted in characters.
pub struct Lexer<'a> {
    input: &'a String,
    current_pos: usize,
}

impl<'a> Lexer<'a> {
    /// The text that is being read.
    pub closed spec fn text(&self) -> Seq<char> {
        self.input@
    }

    /// The number of characters read so far.
    pub closed spec fn pos(&self) -> nat {
        self.current_pos as nat
    }

    #[verifier::type_invariant]
    spec fn within_text(&self) -> bool {
        self.current_pos <= self.input@.len()
    }

    pub fn new(input: &'a String) -> (r: Self)
        ensures
            r.text() == input@,
            r.pos() == 0,
    {
        Self { input, current_pos: 0 }
    }

    /// The character under the cursor, if the text has not ended.
    pub fn peek_char(&self) -> (r: Option<char>)
        ensures
            r == if self.pos() < self.text().len() {
                Some(self.text()[self.pos() as int])
            } else {
                None::<char>
            },
    {
        let text = self.input.as_str();
        if self.current_pos < text.unicode_len() {
            Some(text.get_char(self.current_pos))
        } else {
            None
        }
    }

    /// Reads the character under the cursor and moves past it; at the end of
    /// the text nothing moves.
    pub fn next_char(&mut self) -> (r: Option<char>)
        ensures
            final(self).text() == old(self).text(),
            old(self).pos() < old(self).text().len() ==> r == Some(
                old(self).text()[old(self).pos() as int],
            ) && final(self).pos() == old(self).pos() + 1,
            old(self).pos() >= old(self).text().len() ==> r.is_none() && final(self).pos() == old(self).pos(),
    {
        let text = self.input.as_str();
        if self.current_pos < text.unicode_len() {
            let c = text.get_char(self.current_pos);
            self.current_pos += 1;
            Some(c)
        } else {
            None
        }
    }

    /// Moves the cursor past the run of characters of `class` under it.
    fn skip_run(&mut self, class: CharClass)
        ensures
            final(self).text() == old(self).text(),
            final(self).pos() == old(self).pos() + run_len(old(self).text(), old(self).pos(), class),
            final(self).pos() <= final(self).text().len(),
    {
        proof {
            use_type_invariant(&*self);
        }
        loop
            invariant
                self.text() == old(self).text(),
                old(self).pos() <= self.pos() <= self.text().len(),
                self.pos() + run_len(self.text(), self.pos(), class) == old(self).pos() + run_len(
                    old(self).text(),
                    old(self).pos(),
                    class,
                ),
            ensures
                run_len(self.text(), self.pos(), class) == 0,
            decreases self.text().len() - self.pos(),
        {
            let member = match self.peek_char() {
                None => false,
                Some(c) => match class {
                    CharClass::Whitespace => is_whitespace(c),
                    CharClass::NumberPart => ('0' <= c && c <= '9') || c == '.',
                    CharClass::IdentifierPart => is_alphanumeric(c) || c == '_',
                },
            };
            if !member {
                break;
            }
            self.next_char();
        }
    }

    /// Moves the cursor to the next character that is not whitespace.
    pub fn skip_whitespace(&mut self)
        ensures
            final(self).text() == old(self).text(),
            final(self).pos() == old(self).pos() + run_len(
                old(self).text(),
                old(self).pos(),
                CharClass::Whitespace,
            ),
    {
        self.skip_run(CharClass::Whitespace);
    }

    /// Reads the rest of an operator whose first character has been read:
    /// `double` if `second` is under the cursor, which is then read too, else
    /// `single`.
    fn operator(&mut self, second: char, double: Token, single: Token) -> (r: Token)
        ensures
            final(self).text() == old(self).text(),
            old(self).pos() < old(self).text().len() && old(self).text()[old(self).pos() as int]
                == second ==> r == double && final(self).pos() == old(self).pos() + 1,
            !(old(self).pos() < old(self).text().len() && old(self).text()[old(self).pos() as int]
                == second) ==> r == single && final(self).pos() == old(self).pos(),
    {
        let found = match self.peek_char() {
            Some(c) => c == second,
            None => false,
        };
        if found {
            self.next_char();
            double
        } else {
            single
        }
    }

    /// Reads the run of characters of `class` under the cursor and appends it
    /// to `text`.
    fn take_run(&mut self, class: CharClass, text: &mut String)
        ensures
            final(self).text() == old(self).text(),
            final(self).pos() == old(self).pos() + run_len(old(self).text(), old(self).pos(), class),
            final(self).pos() <= final(self).text().len(),
            final(text)@ == old(text)@ + old(self).text().subrange(
                old(self).pos() as int,
                final(self).pos() as int,
            ),
    {
        let start = self.current_pos;
        self.skip_run(class);
        text.append(self.input.as_str().substring_char(start, self.current_pos));
    }

    /// Reads the token that starts at or after the cursor.
    pub fn next_token(&mut self) -> (r: Result<Token, CalculatorError>)
        ensures
            final(self).text() == old(self).text(),
            match token_at(old(self).text(), old(self).pos()) {
                Ok((token, next)) => r is Ok && r->Ok_0@ == token && final(self).pos() == next,
                Err(e) => r is Err && r->Err_0@ == e,
            },
    {
        proof {
            use_type_invariant(&*self);
        }
        self.skip_whitespace();
        proof {
            lemma_run_len_bounded(old(self).text(), old(self).pos(), CharClass::Whitespace);
        }
        let c = match self.next_char() {
            Some(c) => c,
            None => {
                return Ok(Token::Eof);
            },
        };
        if c == '+' {
            Ok(Token::Plus)
        } else if c == '-' {
            Ok(Token::Minus)
        } else if c == '*' {
            Ok(Token::Star)
        } else if c == '/' {
            Ok(Token::Slash)
        } else if c == '(' {
            Ok(Token::LParen)
        } else if c == ')' {
            Ok(Token::RParen)
        } else if c == '=' {
            Ok(self.operator('=', Token::EqComparison, Token::Eq))
        } else if c == '>' {
            Ok(self.operator('=', Token::GreaterEq, Token::Greater))
        } else if c == '<' {
            Ok(self.operator('=', Token::LessEq, Token::Less))
        } else if c == '!' {
            Ok(self.operator('=', Token::Different, Token::LogicalNot))
        } else if c == '&' {
            Ok(self.operator('&', Token::LogicalAnd, Token::BinaryAnd))
        } else if c == '|' {
            Ok(self.operator('|', Token::LogicalOr, Token::BinaryOr))
        } else if ('0' <= c && c <= '9') || c == '.' {
            let ghost start = self.pos();
            let r = self.lex_number(c);
            proof {
                lemma_run_len_bounded(self.text(), start, CharClass::NumberPart);
                assert(seq![c] + self.text().subrange(start as int, self.pos() as int)
                    =~= self.text().subrange(start - 1, self.pos() as int));
            }
            r
        } else {
            let ghost start = self.pos();
            let r = self.identifier(c);
            proof {
                lemma_run_len_bounded(self.text(), start, CharClass::IdentifierPart);
                assert(seq![c] + self.text().subrange(start as int, self.pos() as int)
                    =~= self.text().subrange(start - 1, self.pos() as int));
            }
            r
        }
    }

    /// Reads the rest of an identifier whose first character, `initial_char`,
    /// has been read; a character that cannot start one is an error.
    pub fn identifier(&mut self, initial_char: char) -> (r: Result<Token, CalculatorError>)
        ensures
            final(self).text() == old(self).text(),
            !is_identifier_char(initial_char) ==> r is Err && r->Err_0@
                == ErrorView::InvalidCharacter(initial_char) && final(self).pos() == old(self).pos(),
            is_identifier_char(initial_char) ==> r is Ok && final(self).pos() == old(self).pos()
                + run_len(old(self).text(), old(self).pos(), CharClass::IdentifierPart) && r->Ok_0@
                == TokenView::Identifier(
                seq![initial_char] + old(self).text().subrange(
                    old(self).pos() as int,
                    final(self).pos() as int,
                ),
            ),
    {
        if !is_alphanumeric(initial_char) && initial_char != '_' {
            return Err(CalculatorError::InvalidCharacter(initial_char));
        }
        let mut name = String::new();
        push_char(&mut name, initial_char);
        self.take_run(CharClass::IdentifierPart, &mut name);
        Ok(Token::Identifier(name))
    }

    /// Reads the rest of a numeric literal whose first character,
    /// `initial_char`, has been read, and checks the literal as a whole.
    pub fn lex_number(&mut self, initial_char: char) -> (r: Result<Token, CalculatorError>)
        ensures
            final(self).text() == old(self).text(),
            final(self).pos() == old(self).pos() + run_len(
                old(self).text(),
                old(self).pos(),
                CharClass::NumberPart,
            ),
            ({
                let literal = seq![initial_char] + old(self).text().subrange(
                    old(self).pos() as int,
                    final(self).pos() as int,
                );
                if valid_literal(literal) {
                    r is Ok && r->Ok_0@ == TokenView::Number(literal)
                } else {
                    r is Err && r->Err_0@ == ErrorView::InvalidNumberFormat
                }
            }),
    {
        let mut literal = String::new();
        push_char(&mut literal, initial_char);
        self.take_run(CharClass::NumberPart, &mut literal);
        if is_valid_literal(literal.as_str()) {
            Ok(Token::Number(literal))
        } else {
            Err(CalculatorError::InvalidNumberFormat)
        }
    }

    /// Reads every token from the cursor to the end of the text. The result
    /// ends in `Eof`, which occurs nowhere else in it.
    pub fn tokenize(&mut self) -> (r: Result<Vec<Token>, CalculatorError>)
        ensures
            final(self).text() == old(self).text(),
            match tokens_from(old(self).text(), old(self).pos()) {
                Ok(tokens) => r is Ok && token_views(r->Ok_0@) == tokens,
                Err(e) => r is Err && r->Err_0@ == e,
            },
            r is Ok ==> ends_in_eof(token_views(r->Ok_0@)),
    {
        let mut tokens: Vec<Token> = Vec::new();
        loop
            invariant
                self.text() == old(self).text(),
                forall|i: int| 0 <= i < tokens@.len() ==> tokens@[i]@ != TokenView::Eof,
                match tokens_from(self.text(), self.pos()) {
                    Ok(rest) => tokens_from(old(self).text(), old(self).pos()) == Ok::<
                        Seq<TokenView>,
                        ErrorView,
                    >(token_views(tokens@) + rest),
                    Err(e) => tokens_from(old(self).text(), old(self).pos()) == Err::<
                        Seq<TokenView>,
                        ErrorView,
                    >(e),
                },
            decreases remaining(self.text(), self.pos()),
        {
            let ghost before = token_views(tokens@);
            let ghost at = self.pos();
            let token = match self.next_token() {
                Ok(token) => token,
                Err(e) => {
                    return Err(e);
                },
            };
            let done = matches!(token, Token::Eof);
            tokens.push(token);
            proof {
                assert(token_views(tokens@) =~= before.push(token@));
                if !done {
                    let rest = tokens_from(self.text(), self.pos());
                    if rest is Ok {
                        assert(before + (seq![token@] + rest->Ok_0) =~= token_views(tokens@)
                            + rest->Ok_0);
                    }
                } else {
                    assert(before + seq![TokenView::Eof] =~= token_views(tokens@));
                }
            }
            if done {
                return Ok(tokens);
            }
        }
    }
}

/// Whether a token sequence ends in `Eof` and holds no other `Eof`.
pub open spec fn ends_in_eof(tokens: Seq<TokenView>) -> bool {
    &&& tokens.len() > 0
    &&& tokens.last() == TokenView::Eof
    &&& forall|i: int| 0 <= i < tokens.len() - 1 ==> tokens[i] != TokenView::Eof
}

/// Whether a token, if it is a number, holds a valid literal.
pub open spec fn literal_valid(token: TokenView) -> bool {
    match token {
        TokenView::Number(text) => valid_literal(text),
        _ => true,
    }
}

/// The tokens of a text end in their only `Eof`, and every number among
/// them holds a valid literal.
pub proof fn lemma_tokens_well_formed(s: Seq<char>, pos: nat)
    ensures
        tokens_from(s, pos) is Ok ==> ends_in_eof(tokens_from(s, pos)->Ok_0) && forall|i: int|
            0 <= i < tokens_from(s, pos)->Ok_0.len() ==> literal_valid(
                #[trigger] tokens_from(s, pos)->Ok_0[i],
            ),
    decreases remaining(s, pos),
{
    if tokens_from(s, pos) is Ok {
        let (token, next) = token_at(s, pos)->Ok_0;
        if token != TokenView::Eof {
            lemma_tokens_well_formed(s, next);
        }
    }
}

} // verus!
