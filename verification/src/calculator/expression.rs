//! Expressions: how the tokens of a line nest.
//!
//! An expression is a sum or difference of terms, taken from left to right;
//! a term is a product or quotient of factors, taken from left to right; a
//! factor is a number, a memory, or an expression in parentheses.

use crate::calculator::token::{Token, TokenView};
use vstd::prelude::*;

verus! {

/// One of the four operations.
#[derive(Clone, Copy, Debug, PartialEq, Eq, Structural)]
pub enum Operator {
    Add,
    Subtract,
    Multiply,
    Divide,
}

/// An expression as a tree.
#[derive(Debug, PartialEq, Eq)]
pub enum Expr {
    /// The number or the memory at this place among the tokens.
    Operand(usize),
    /// An expression in parentheses.
    Group(Box<Expr>),
    /// Two expressions joined by an operation.
    Binary(Operator, Box<Expr>, Box<Expr>),
}

/// The operation that a token stands for between two terms, if any.
pub open spec fn additive_operator(token: TokenView) -> Option<Operator> {
    match token {
        TokenView::Plus => Some(Operator::Add),
        TokenView::Minus => Some(Operator::Subtract),
        _ => None,
    }
}

/// The operation that a token stands for between two factors, if any.
pub open spec fn multiplicative_operator(token: TokenView) -> Option<Operator> {
    match token {
        TokenView::Asterisk => Some(Operator::Multiply),
        TokenView::Slash => Some(Operator::Divide),
        _ => None,
    }
}

/// The factor that begins at `at`, and where it ends; nothing if none
/// begins there.
pub open spec fn spec_primary(tokens: Seq<TokenView>, at: int) -> Option<(Expr, int)>
    decreases tokens.len() - at, 0int,
{
    if at < 0 || at >= tokens.len() {
        None
    } else {
        match tokens[at] {
            TokenView::LParen => match spec_additive(tokens, at + 1) {
                Some((inner, next)) => if 0 <= next < tokens.len() && tokens[next] is RParen {
                    Some((Expr::Group(Box::new(inner)), next + 1))
                } else {
                    None
                },
                None => None,
            },
            TokenView::Number(_) => Some((Expr::Operand(at as usize), at + 1)),
            TokenView::MemoryRef(_) => Some((Expr::Operand(at as usize), at + 1)),
            _ => None,
        }
    }
}

/// The term whose first factors make up `left` and which goes on at `at`,
/// and where it ends; nothing if an operation there is not followed by a
/// factor.
pub open spec fn spec_factors(tokens: Seq<TokenView>, left: Expr, at: int) -> Option<(Expr, int)>
    decreases tokens.len() - at, 1int,
{
    if 0 <= at < tokens.len() && multiplicative_operator(tokens[at]) is Some {
        match spec_primary(tokens, at + 1) {
            Some((right, next)) => if at + 1 < next <= tokens.len() {
                spec_factors(
                    tokens,
                    Expr::Binary(
                        multiplicative_operator(tokens[at])->0,
                        Box::new(left),
                        Box::new(right),
                    ),
                    next,
                )
            } else {
                None
            },
            None => None,
        }
    } else {
        Some((left, at))
    }
}

/// The term that begins at `at`, and where it ends; nothing if none begins
/// there.
pub open spec fn spec_multiplicative(tokens: Seq<TokenView>, at: int) -> Option<(Expr, int)>
    decreases tokens.len() - at, 2int,
{
    match spec_primary(tokens, at) {
        Some((first, next)) => if at < next <= tokens.len() {
            spec_factors(tokens, first, next)
        } else {
            None
        },
        None => None,
    }
}

/// The expression whose first terms make up `left` and which goes on at
/// `at`, and where it ends; nothing if an operation there is not followed by
/// a term.
pub open spec fn spec_terms(tokens: Seq<TokenView>, left: Expr, at: int) -> Option<(Expr, int)>
    decreases tokens.len() - at, 3int,
{
    if 0 <= at < tokens.len() && additive_operator(tokens[at]) is Some {
        match spec_multiplicative(tokens, at + 1) {
            Some((right, next)) => if at + 1 < next <= tokens.len() {
                spec_terms(
                    tokens,
                    Expr::Binary(
                        additive_operator(tokens[at])->0,
                        Box::new(left),
                        Box::new(right),
                    ),
                    next,
                )
            } else {
                None
            },
            None => None,
        }
    } else {
        Some((left, at))
    }
}

/// The expression that begins at `at`, and where it ends; nothing if none
/// begins there.
pub open spec fn spec_additive(tokens: Seq<TokenView>, at: int) -> Option<(Expr, int)>
    decreases tokens.len() - at, 4int,
{
    match spec_multiplicative(tokens, at) {
        Some((first, next)) => if at < next <= tokens.len() {
            spec_terms(tokens, first, next)
        } else {
            None
        },
        None => None,
    }
}

/// The expression that the tokens make up as a whole; nothing if they make
/// up none, or if something is left over after it.
pub open spec fn spec_parse(tokens: Seq<TokenView>) -> Option<Expr> {
    match spec_additive(tokens, 0) {
        Some((expr, next)) => if next == tokens.len() {
            Some(expr)
        } else {
            None
        },
        None => None,
    }
}

/// Whether what an exec parser found at `at` is what the spec says is there:
/// the same tree ending at the same place, which lies after `at` and within
/// the tokens, or nothing both times.
pub open spec fn agrees(
    found: Option<(Expr, usize)>,
    wanted: Option<(Expr, int)>,
    at: int,
    len: int,
) -> bool {
    match found {
        Some((expr, next)) => wanted == Some((expr, next as int)) && at < next <= len,
        None => wanted is None,
    }
}

/// Reads the factor that begins at `at`.
pub fn parse_primary(tokens: &Vec<Token>, at: usize) -> (found: Option<(Expr, usize)>)
    ensures
        agrees(found, spec_primary(tokens.deep_view(), at as int), at as int, tokens.len() as int),
    decreases tokens.len() - at, 0int,
{
    if at >= tokens.len() {
        return None;
    }
    assert(tokens.deep_view()[at as int] == tokens[at as int]@);
    match &tokens[at] {
        Token::LParen => match parse_additive(tokens, at + 1) {
            Some((inner, next)) => {
                if next < tokens.len() {
                    assert(tokens.deep_view()[next as int] == tokens[next as int]@);
                    match &tokens[next] {
                        Token::RParen => Some((Expr::Group(Box::new(inner)), next + 1)),
                        _ => None,
                    }
                } else {
                    None
                }
            },
            None => None,
        },
        Token::Number(_) => Some((Expr::Operand(at), at + 1)),
        Token::MemoryRef(_) => Some((Expr::Operand(at), at + 1)),
        _ => None,
    }
}

/// The operation that a token stands for between two factors, if any.
pub fn token_multiplies(token: &Token) -> (operator: Option<Operator>)
    ensures
        operator == multiplicative_operator(token@),
{
    match token {
        Token::Asterisk => Some(Operator::Multiply),
        Token::Slash => Some(Operator::Divide),
        _ => None,
    }
}

/// The operation that a token stands for between two terms, if any.
pub fn token_adds(token: &Token) -> (operator: Option<Operator>)
    ensures
        operator == additive_operator(token@),
{
    match token {
        Token::Plus => Some(Operator::Add),
        Token::Minus => Some(Operator::Subtract),
        _ => None,
    }
}

/// Reads the term that begins at `at`.
pub fn parse_multiplicative(tokens: &Vec<Token>, at: usize) -> (found: Option<(Expr, usize)>)
    ensures
        agrees(
            found,
            spec_multiplicative(tokens.deep_view(), at as int),
            at as int,
            tokens.len() as int,
        ),
    decreases tokens.len() - at, 2int,
{
    let ghost all = tokens.deep_view();
    let (mut result, mut index) = match parse_primary(tokens, at) {
        Some(first) => first,
        None => {
            return None;
        },
    };
    let ghost wanted = spec_multiplicative(all, at as int);
    assert(wanted == spec_factors(all, result, index as int));
    loop
        invariant_except_break
            wanted == spec_factors(all, result, index as int),
        invariant
            all == tokens.deep_view(),
            wanted == spec_multiplicative(all, at as int),
            at < index <= tokens.len(),
        ensures
            wanted == Some((result, index as int)),
        decreases tokens.len() - index,
    {
        if index >= tokens.len() {
            break ;
        }
        assert(all[index as int] == tokens[index as int]@);
        let operator = match token_multiplies(&tokens[index]) {
            Some(operator) => operator,
            None => {
                break ;
            },
        };
        match parse_primary(tokens, index + 1) {
            Some((right, next)) => {
                result = Expr::Binary(operator, Box::new(result), Box::new(right));
                index = next;
            },
            None => {
                return None;
            },
        }
    }
    Some((result, index))
}

/// Reads the expression that begins at `at`.
pub fn parse_additive(tokens: &Vec<Token>, at: usize) -> (found: Option<(Expr, usize)>)
    ensures
        agrees(found, spec_additive(tokens.deep_view(), at as int), at as int, tokens.len() as int),
    decreases tokens.len() - at, 4int,
{
    let ghost all = tokens.deep_view();
    let (mut result, mut index) = match parse_multiplicative(tokens, at) {
        Some(first) => first,
        None => {
            return None;
        },
    };
    let ghost wanted = spec_additive(all, at as int);
    assert(wanted == spec_terms(all, result, index as int));
    loop
        invariant_except_break
            wanted == spec_terms(all, result, index as int),
        invariant
            all == tokens.deep_view(),
            wanted == spec_additive(all, at as int),
            at < index <= tokens.len(),
        ensures
            wanted == Some((result, index as int)),
        decreases tokens.len() - index,
    {
        if index >= tokens.len() {
            break ;
        }
        assert(all[index as int] == tokens[index as int]@);
        let operator = match token_adds(&tokens[index]) {
            Some(operator) => operator,
            None => {
                break ;
            },
        };
        match parse_multiplicative(tokens, index + 1) {
            Some((right, next)) => {
                result = Expr::Binary(operator, Box::new(result), Box::new(right));
                index = next;
            },
            None => {
                return None;
            },
        }
    }
    Some((result, index))
}

/// Reads the tokens as one expression. Nothing comes out if they do not
/// make up an expression, or if something is left over after it.
pub fn parse_expression(tokens: &Vec<Token>) -> (found: Option<Expr>)
    ensures
        found == spec_parse(tokens.deep_view()),
{
    match parse_additive(tokens, 0) {
        Some((expr, next)) => if next == tokens.len() {
            Some(expr)
        } else {
            None
        },
        None => None,
    }
}

/// The token that stands for an operation.
pub open spec fn operator_token(operator: Operator) -> TokenView {
    match operator {
        Operator::Add => TokenView::Plus,
        Operator::Subtract => TokenView::Minus,
        Operator::Multiply => TokenView::Asterisk,
        Operator::Divide => TokenView::Slash,
    }
}

/// An expression tree written out again as tokens.
pub open spec fn rendered(expr: Expr, tokens: Seq<TokenView>) -> Seq<TokenView>
    decreases expr,
{
    match expr {
        Expr::Operand(at) => seq![tokens[at as int]],
        Expr::Group(inner) => seq![TokenView::LParen] + rendered(*inner, tokens)
            + seq![TokenView::RParen],
        Expr::Binary(operator, left, right) => rendered(*left, tokens) + seq![
            operator_token(operator),
        ] + rendered(*right, tokens),
    }
}

/// Whether a tree is a factor: an operand, or a sum in parentheses.
pub open spec fn is_factor(expr: Expr) -> bool
    decreases expr, 0int,
{
    match expr {
        Expr::Operand(_) => true,
        Expr::Group(inner) => is_sum(*inner),
        Expr::Binary(_, _, _) => false,
    }
}

/// Whether a tree is a term: factors multiplied and divided, grouped from
/// the left.
pub open spec fn is_term(expr: Expr) -> bool
    decreases expr, 1int,
{
    match expr {
        Expr::Binary(operator, left, right) => (operator is Multiply || operator is Divide)
            && is_term(*left) && is_factor(*right),
        _ => is_factor(expr),
    }
}

/// Whether a tree is a sum: terms added and subtracted, grouped from the
/// left.
pub open spec fn is_sum(expr: Expr) -> bool
    decreases expr, 2int,
{
    match expr {
        Expr::Binary(operator, left, right) => if operator is Add || operator is Subtract {
            is_sum(*left) && is_term(*right)
        } else {
            is_term(expr)
        },
        _ => is_term(expr),
    }
}

/// A factor that the parser reads is the tokens it was read from, and a
/// factor in shape.
pub proof fn lemma_primary_reads(tokens: Seq<TokenView>, at: int)
    requires
        tokens.len() <= usize::MAX,
        spec_primary(tokens, at) is Some,
    ensures
        ({
            let (expr, next) = spec_primary(tokens, at)->0;
            &&& 0 <= at < next <= tokens.len()
            &&& rendered(expr, tokens) =~= tokens.subrange(at, next)
            &&& is_factor(expr)
        }),
    decreases tokens.len() - at, 0int,
{
    if tokens[at] is LParen {
        lemma_additive_reads(tokens, at + 1);
        let (inner, close) = spec_additive(tokens, at + 1)->0;
        assert(seq![TokenView::LParen] + rendered(inner, tokens) + seq![TokenView::RParen]
            =~= tokens.subrange(at, close + 1));
    }
}

/// A term that the parser reads on from its first factors is the tokens it
/// was read from, and a term in shape.
pub proof fn lemma_factors_read(tokens: Seq<TokenView>, left: Expr, start: int, at: int)
    requires
        tokens.len() <= usize::MAX,
        0 <= start < at <= tokens.len(),
        rendered(left, tokens) =~= tokens.subrange(start, at),
        is_term(left),
        spec_factors(tokens, left, at) is Some,
    ensures
        ({
            let (expr, next) = spec_factors(tokens, left, at)->0;
            &&& at <= next <= tokens.len()
            &&& rendered(expr, tokens) =~= tokens.subrange(start, next)
            &&& is_term(expr)
        }),
    decreases tokens.len() - at, 1int,
{
    if at < tokens.len() && multiplicative_operator(tokens[at]) is Some {
        lemma_primary_reads(tokens, at + 1);
        let (right, next) = spec_primary(tokens, at + 1)->0;
        let operator = multiplicative_operator(tokens[at])->0;
        let joined = Expr::Binary(operator, Box::new(left), Box::new(right));
        assert(operator_token(operator) == tokens[at]);
        assert(rendered(joined, tokens) =~= tokens.subrange(start, next));
        lemma_factors_read(tokens, joined, start, next);
    }
}

/// A term that the parser reads is the tokens it was read from, and a term
/// in shape.
pub proof fn lemma_multiplicative_reads(tokens: Seq<TokenView>, at: int)
    requires
        tokens.len() <= usize::MAX,
        spec_multiplicative(tokens, at) is Some,
    ensures
        ({
            let (expr, next) = spec_multiplicative(tokens, at)->0;
            &&& 0 <= at < next <= tokens.len()
            &&& rendered(expr, tokens) =~= tokens.subrange(at, next)
            &&& is_term(expr)
        }),
    decreases tokens.len() - at, 2int,
{
    lemma_primary_reads(tokens, at);
    let (first, next) = spec_primary(tokens, at)->0;
    lemma_factors_read(tokens, first, at, next);
}

/// A sum that the parser reads on from its first terms is the tokens it was
/// read from, and a sum in shape.
pub proof fn lemma_terms_read(tokens: Seq<TokenView>, left: Expr, start: int, at: int)
    requires
        tokens.len() <= usize::MAX,
        0 <= start < at <= tokens.len(),
        rendered(left, tokens) =~= tokens.subrange(start, at),
        is_sum(left),
        spec_terms(tokens, left, at) is Some,
    ensures
        ({
            let (expr, next) = spec_terms(tokens, left, at)->0;
            &&& at <= next <= tokens.len()
            &&& rendered(expr, tokens) =~= tokens.subrange(start, next)
            &&& is_sum(expr)
        }),
    decreases tokens.len() - at, 3int,
{
    if at < tokens.len() && additive_operator(tokens[at]) is Some {
        lemma_multiplicative_reads(tokens, at + 1);
        let (right, next) = spec_multiplicative(tokens, at + 1)->0;
        let operator = additive_operator(tokens[at])->0;
        let joined = Expr::Binary(operator, Box::new(left), Box::new(right));
        assert(operator_token(operator) == tokens[at]);
        assert(rendered(joined, tokens) =~= tokens.subrange(start, next));
        lemma_terms_read(tokens, joined, start, next);
    }
}

/// A sum that the parser reads is the tokens it was read from, and a sum in
/// shape.
pub proof fn lemma_additive_reads(tokens: Seq<TokenView>, at: int)
    requires
        tokens.len() <= usize::MAX,
        spec_additive(tokens, at) is Some,
    ensures
        ({
            let (expr, next) = spec_additive(tokens, at)->0;
            &&& 0 <= at < next <= tokens.len()
            &&& rendered(expr, tokens) =~= tokens.subrange(at, next)
            &&& is_sum(expr)
        }),
    decreases tokens.len() - at, 4int,
{
    lemma_multiplicative_reads(tokens, at);
    let (first, next) = spec_multiplicative(tokens, at)->0;
    lemma_terms_read(tokens, first, at, next);
}

/// What the parser makes of a line is the line: written out again, the tree
/// gives the tokens back, all of them and in their order. And it is a sum
/// in shape: operations of the same rank group from the left, products and
/// quotients bind tighter than sums and differences, and parentheses hold a
/// sum of their own.
pub proof fn lemma_parse_reads(tokens: Seq<TokenView>)
    requires
        tokens.len() <= usize::MAX,
        spec_parse(tokens) is Some,
    ensures
        rendered(spec_parse(tokens)->0, tokens) =~= tokens,
        is_sum(spec_parse(tokens)->0),
{
    lemma_additive_reads(tokens, 0);
    assert(tokens.subrange(0, tokens.len() as int) =~= tokens);
}

/// What a line asks for.
#[derive(Debug, PartialEq, Eq)]
pub enum Statement {
    /// Add the last result to the memory of this name.
    AddToMemory(String),
    /// Take the last result away from the memory of this name.
    SubtractFromMemory(String),
    /// Work out this expression.
    Evaluate(Expr),
}

/// The mathematical value of a `Statement`.
pub enum StatementView {
    AddToMemory(Seq<char>),
    SubtractFromMemory(Seq<char>),
    Evaluate(Expr),
}

impl View for Statement {
    type V = StatementView;

    open spec fn view(&self) -> StatementView {
        match self {
            Statement::AddToMemory(name) => StatementView::AddToMemory(name@),
            Statement::SubtractFromMemory(name) => StatementView::SubtractFromMemory(name@),
            Statement::Evaluate(expr) => StatementView::Evaluate(*expr),
        }
    }
}

impl DeepView for Statement {
    type V = StatementView;

    open spec fn deep_view(&self) -> StatementView {
        self@
    }
}

/// What the tokens of a line ask for. A memory command in the first place
/// decides, whatever follows it; any other line is an expression as a
/// whole, or nothing.
pub open spec fn spec_statement(tokens: Seq<TokenView>) -> Option<StatementView> {
    if tokens.len() == 0 {
        None
    } else {
        match tokens[0] {
            TokenView::MemoryPlus(name) => Some(StatementView::AddToMemory(name)),
            TokenView::MemoryMinus(name) => Some(StatementView::SubtractFromMemory(name)),
            _ => match spec_parse(tokens) {
                Some(expr) => Some(StatementView::Evaluate(expr)),
                None => None,
            },
        }
    }
}

/// Reads the tokens of a line as a statement.
pub fn read_statement(tokens: &Vec<Token>) -> (statement: Option<Statement>)
    ensures
        statement.deep_view() == spec_statement(tokens.deep_view()),
{
    if tokens.len() == 0 {
        return None;
    }
    assert(tokens.deep_view()[0] == tokens[0]@);
    match &tokens[0] {
        Token::MemoryPlus(name) => Some(Statement::AddToMemory(name.clone())),
        Token::MemoryMinus(name) => Some(Statement::SubtractFromMemory(name.clone())),
        _ => match parse_expression(tokens) {
            Some(expr) => Some(Statement::Evaluate(expr)),
            None => None,
        },
    }
}

} // verus!
