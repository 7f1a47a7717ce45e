//! Recursive-descent parser with precedence climbing (Pratt parsing).
//!
//! The parser drains the lexer up front into a token vector and then walks
//! it with a cursor.  Every parsing function is specified against a
//! spec-level parser (`sp_parse_*`) over the token models.  The spec parser
//! is fuel-indexed: each recursion level consumes one unit of fuel, and the
//! executable parser supplies a fuel budget that grows linearly with the
//! input, so that nesting beyond the budget is reported as a parse error
//! (`ParseError::TooDeep`) instead of exhausting the call stack.
//!
//! Error policy: `parse_program` never itself fails.  A parse failure
//! inside one statement is recorded as that statement's entry in the
//! program, and the parser resynchronizes and keeps parsing the following
//! statements.  A lexing failure cuts the token stream short and stands as
//! a statement entry of its own (`ParseError::Lex`): it replaces the entry
//! of the statement it interrupted, or, where it fell on a statement
//! boundary, follows the statements parsed before it, which are kept.
//!
//! A parsing function returns with the cursor on the last token of what it
//! parsed; the climbing loop inspects the token after the cursor.

use vstd::prelude::*;
use crate::ast::{
    BlockStatement, ExprM, Expression, Identifier, IfExpression, Infix, Literal, Precedence,
    Prefix, Statement, StmtM, block_model, expr_model, exprs_model, stmt_model,
};
use crate::lexer::{LexError, Lexer, TokM, Token, spec_token_at, token_model};

verus! {

/// A parsing failure, attached to the statement that produced it.
#[derive(Debug, Clone, Copy, PartialEq, Eq, Structural)]
pub enum ParseError {
    /// An identifier was required (a function parameter, or after `let`).
    MissingIdentifier,
    /// An integer literal was required.
    MissingInt,
    /// A boolean literal was required.
    MissingBool,
    /// `let` was not followed by an identifier.
    MissingLetIdentifier,
    /// The identifier of a `let` was not followed by `=`.
    MissingAssign,
    /// A block was required but no `{` was found.
    MissingBlock,
    /// `fn` was not followed by `(`.
    MissingFunctionParen,
    /// A function's parameter list was not followed by a `{` body.
    MissingFunctionBody,
    /// No expression can start with the token at the cursor.
    UnhandledExpressionStart,
    /// A grouped expression was not closed by `)`.
    MissingClosingParen,
    /// The token at an operator position is not a valid infix operator.
    InvalidInfixOperator,
    /// An operator position held a token that cannot continue an expression.
    InvalidExpression,
    /// The input is nested more deeply than the parser's fuel budget.
    TooDeep,
    /// The lexer failed while reading this statement's tokens, cutting the
    /// token stream short.
    Lex(LexError),
}

/// The diagnostic text of a parse failure.
pub open spec fn parse_message_model(e: ParseError) -> Seq<char> {
    match e {
        ParseError::MissingIdentifier => "Failed to parse identifier"@,
        ParseError::MissingInt => "Failed to parse int"@,
        ParseError::MissingBool => "Failed to parse bool expression!"@,
        ParseError::MissingLetIdentifier => "Missing identifier in let statement"@,
        ParseError::MissingAssign => "Missing assign token after identifier in let statement"@,
        ParseError::MissingBlock => "Failed to parse block statement!"@,
        ParseError::MissingFunctionParen => "Failed to parse function expression!"@,
        ParseError::MissingFunctionBody => "Failed to parse function body!"@,
        ParseError::UnhandledExpressionStart => "Expression type is unhandled yet!"@,
        ParseError::MissingClosingParen => "Failed to parse grouped expression!"@,
        ParseError::InvalidInfixOperator => "No valid infix operator"@,
        ParseError::InvalidExpression => "Invalid expression!"@,
        ParseError::TooDeep => "Expression is nested too deeply!"@,
        ParseError::Lex(le) => crate::lexer::lex_message_model(le),
    }
}

impl ParseError {
    /// The diagnostic text of this failure.
    pub fn message(&self) -> (r: String)
        ensures
            r@ == parse_message_model(*self),
    {
        match self {
            ParseError::MissingIdentifier => "Failed to parse identifier".to_owned(),
            ParseError::MissingInt => "Failed to parse int".to_owned(),
            ParseError::MissingBool => "Failed to parse bool expression!".to_owned(),
            ParseError::MissingLetIdentifier => "Missing identifier in let statement".to_owned(),
            ParseError::MissingAssign => "Missing assign token after identifier in let statement"
                .to_owned(),
            ParseError::MissingBlock => "Failed to parse block statement!".to_owned(),
            ParseError::MissingFunctionParen => "Failed to parse function expression!".to_owned(),
            ParseError::MissingFunctionBody => "Failed to parse function body!".to_owned(),
            ParseError::UnhandledExpressionStart => "Expression type is unhandled yet!".to_owned(),
            ParseError::MissingClosingParen => "Failed to parse grouped expression!".to_owned(),
            ParseError::InvalidInfixOperator => "No valid infix operator".to_owned(),
            ParseError::InvalidExpression => "Invalid expression!".to_owned(),
            ParseError::TooDeep => "Expression is nested too deeply!".to_owned(),
            ParseError::Lex(le) => le.message(),
        }
    }
}

/// A per-statement parse result.
pub type Program = Vec<Result<Statement, ParseError>>;

/// Model of a program: the models of its per-statement results.
pub open spec fn program_model(p: Seq<Result<Statement, ParseError>>) -> Seq<
    Result<StmtM, ParseError>,
> {
    p.map_values(
        |r: Result<Statement, ParseError>|
            match r {
                Ok(s) => Ok(stmt_model(s)),
                Err(e) => Err(e),
            },
    )
}

/// A lexing failure standing as a statement entry: the token stream ends
/// where the failure stood, so the statement it interrupted is the last one
/// parsed.  Where that truncated statement failed, the failure becomes its
/// entry; where the failure fell on a statement boundary, it stands as its
/// own final entry, after the statements parsed before it.
pub open spec fn sp_with_lex_failure(
    parsed: Seq<Result<StmtM, ParseError>>,
    e: LexError,
) -> Seq<Result<StmtM, ParseError>> {
    if parsed.len() > 0 && parsed.last() is Err {
        parsed.update(parsed.len() - 1, Err(ParseError::Lex(e)))
    } else {
        parsed.push(Err(ParseError::Lex(e)))
    }
}

/// `word_end`, `digits_end` and `quote_pos` never move backwards.
proof fn lemma_scan_bounds(s: Seq<u8>, i: int)
    ensures
        crate::lexer::word_end(s, i) >= i,
        crate::lexer::digits_end(s, i) >= i,
        crate::lexer::quote_pos(s, i) >= (if i <= s.len() {
            i
        } else {
            s.len() as int
        }),
        crate::lexer::skip_ws_from(s, i) >= i,
        i <= s.len() ==> crate::lexer::word_end(s, i) <= s.len(),
        i <= s.len() ==> crate::lexer::digits_end(s, i) <= s.len(),
        i <= s.len() ==> crate::lexer::skip_ws_from(s, i) <= s.len(),
        crate::lexer::quote_pos(s, i) <= s.len(),
    decreases s.len() - i,
{
    if 0 <= i < s.len() {
        lemma_scan_bounds(s, i + 1)
    }
}

/// A non-end-of-input token occupies at least one byte: the cursor after it
/// stands strictly beyond the start.
proof fn lemma_token_progress(s: Seq<u8>, p: int)
    requires
        0 <= p <= s.len(),
    ensures
        ({
            let (r, p2) = spec_token_at(s, p);
            p <= p2 <= s.len() && ((r matches Ok(t) && !(t is Eof)) ==> p2 > p)
        }),
{
    let i = crate::lexer::skip_ws_from(s, p);
    lemma_scan_bounds(s, p);
    if i < s.len() {
        lemma_scan_bounds(s, i);
        lemma_scan_bounds(s, i + 1);
    }
}

/// The token models of the whole input, or its first lexing failure.
pub open spec fn spec_tokens(s: Seq<u8>, p: int) -> Result<Seq<TokM>, LexError>
    decreases s.len() - p,
        via spec_tokens_dec
{
    if 0 <= p <= s.len() {
        let (r, p2) = spec_token_at(s, p);
        match r {
            Err(e) => Err(e),
            Ok(t) => if t is Eof {
                Ok(seq![TokM::Eof])
            } else {
                match spec_tokens(s, p2) {
                    Err(e) => Err(e),
                    Ok(rest) => Ok(seq![t] + rest),
                }
            },
        }
    } else {
        Ok(seq![TokM::Eof])
    }
}

#[via_fn]
proof fn spec_tokens_dec(s: Seq<u8>, p: int) {
    if 0 <= p <= s.len() {
        lemma_token_progress(s, p);
    }
}

/// The token models of the input up to its first lexing failure, if any,
/// always ended by the end-of-input marker; without a failure this is the
/// whole token stream.
pub open spec fn spec_token_prefix(s: Seq<u8>, p: int) -> Seq<TokM>
    decreases s.len() - p,
        via spec_token_prefix_dec
{
    if 0 <= p <= s.len() {
        let (r, p2) = spec_token_at(s, p);
        match r {
            Err(_) => seq![TokM::Eof],
            Ok(t) => if t is Eof {
                seq![TokM::Eof]
            } else {
                seq![t] + spec_token_prefix(s, p2)
            },
        }
    } else {
        seq![TokM::Eof]
    }
}

#[via_fn]
proof fn spec_token_prefix_dec(s: Seq<u8>, p: int) {
    if 0 <= p <= s.len() {
        lemma_token_progress(s, p);
    }
}

/// The binding strength of the token at an operator position.
pub open spec fn tok_prec(t: TokM) -> Precedence {
    match t {
        TokM::Equal => Precedence::Equals,
        TokM::NotEqual => Precedence::Equals,
        TokM::Lt => Precedence::LessGreater,
        TokM::Gt => Precedence::LessGreater,
        TokM::Plus => Precedence::Sum,
        TokM::Minus => Precedence::Sum,
        TokM::Slash => Precedence::Product,
        TokM::Asterisk => Precedence::Product,
        TokM::Lparen => Precedence::Call,
        _ => Precedence::Lowest,
    }
}

/// The infix operator denoted by a token, if any.
pub open spec fn tok_infix(t: TokM) -> Option<Infix> {
    match t {
        TokM::Plus => Some(Infix::Plus),
        TokM::Minus => Some(Infix::Minus),
        TokM::Slash => Some(Infix::Divide),
        TokM::Asterisk => Some(Infix::Product),
        TokM::Equal => Some(Infix::Equal),
        TokM::NotEqual => Some(Infix::NotEqual),
        TokM::Lt => Some(Infix::LessThan),
        TokM::Gt => Some(Infix::GreaterThan),
        _ => None,
    }
}

/// The cursor one token further, stopping on the final token.
pub open spec fn sp_advance(toks: Seq<TokM>, p: int) -> int {
    if p + 1 < toks.len() {
        p + 1
    } else {
        toks.len() - 1
    }
}

/// The token after the cursor (the final token repeats itself).
pub open spec fn sp_peek(toks: Seq<TokM>, p: int) -> TokM {
    toks[sp_advance(toks, p)]
}

/// Parses the identifier at the cursor; does not advance.
pub open spec fn sp_parse_ident(toks: Seq<TokM>, p: int) -> Result<Seq<char>, ParseError> {
    match toks[p] {
        TokM::Ident(name) => Ok(name),
        _ => Err(ParseError::MissingIdentifier),
    }
}

/// Parses one expression at binding strength `prec`: a prefix head, then
/// the precedence-climbing loop.
#[verifier::opaque]
pub open spec fn sp_parse_expression(toks: Seq<TokM>, p: int, prec: Precedence, fuel: nat) -> (
    Result<ExprM, ParseError>,
    int,
)
    decreases fuel, 3int,
{
    if fuel == 0 {
        (Err(ParseError::TooDeep), p)
    } else {
        let (head, p1) = sp_parse_head(toks, p, (fuel - 1) as nat);
        match head {
            Err(e) => (Err(e), p1),
            Ok(h) => sp_infix_loop(toks, p1, h, prec, (fuel - 1) as nat),
        }
    }
}

/// Parses the prefix head of an expression: the handler keyed by the token
/// at the cursor.
#[verifier::opaque]
pub open spec fn sp_parse_head(toks: Seq<TokM>, p: int, fuel: nat) -> (
    Result<ExprM, ParseError>,
    int,
)
    decreases fuel, 2int,
{
    match toks[p] {
        TokM::Ident(name) => (Ok(ExprM::Ident(name)), p),
        TokM::Int(n) => (Ok(ExprM::IntLit(n)), p),
        TokM::Bool(b) => (Ok(ExprM::BoolLit(b)), p),
        TokM::Str(s) => (Ok(ExprM::StrLit(s)), p),
        TokM::Lparen => sp_parse_grouped(toks, p, fuel),
        TokM::Plus => sp_parse_prefix(toks, p, Prefix::Plus, fuel),
        TokM::Minus => sp_parse_prefix(toks, p, Prefix::Minus, fuel),
        TokM::Bang => sp_parse_prefix(toks, p, Prefix::Not, fuel),
        TokM::If => sp_parse_if(toks, p, fuel),
        TokM::Function => sp_parse_function(toks, p, fuel),
        _ => (Err(ParseError::UnhandledExpressionStart), p),
    }
}

/// Parses a parenthesized expression; the cursor ends on the `)`.
#[verifier::opaque]
pub open spec fn sp_parse_grouped(toks: Seq<TokM>, p: int, fuel: nat) -> (
    Result<ExprM, ParseError>,
    int,
)
    decreases fuel, 1int,
{
    if fuel == 0 {
        (Err(ParseError::TooDeep), p)
    } else {
        let p1 = sp_advance(toks, p);
        let (inner, p2) = sp_parse_expression(toks, p1, Precedence::Lowest, (fuel - 1) as nat);
        match inner {
            Err(e) => (Err(e), p2),
            Ok(e) => if sp_peek(toks, p2) is Rparen {
                (Ok(e), sp_advance(toks, p2))
            } else {
                (Err(ParseError::MissingClosingParen), p2)
            },
        }
    }
}

/// Parses a unary operator application; the operand binds at `Prefix`
/// strength.
#[verifier::opaque]
pub open spec fn sp_parse_prefix(toks: Seq<TokM>, p: int, op: Prefix, fuel: nat) -> (
    Result<ExprM, ParseError>,
    int,
)
    decreases fuel, 1int,
{
    if fuel == 0 {
        (Err(ParseError::TooDeep), p)
    } else {
        let p1 = sp_advance(toks, p);
        let (inner, p2) = sp_parse_expression(toks, p1, Precedence::Prefix, (fuel - 1) as nat);
        match inner {
            Err(e) => (Err(e), p2),
            Ok(e) => (Ok(ExprM::Prefix(op, Box::new(e))), p2),
        }
    }
}

/// The precedence-climbing loop: while the token after the cursor binds
/// more strongly than `prec`, extend `left` with an infix or call node.
#[verifier::opaque]
pub open spec fn sp_infix_loop(toks: Seq<TokM>, p: int, left: ExprM, prec: Precedence, fuel: nat)
    -> (Result<ExprM, ParseError>, int)
    decreases fuel, 2int,
{
    let pk = sp_peek(toks, p);
    if !(pk is Semicolon) && prec.rank() < tok_prec(pk).rank() {
        if fuel == 0 {
            (Err(ParseError::TooDeep), p)
        } else {
            if pk is Lparen {
                let (called, p1) = sp_parse_call(toks, sp_advance(toks, p), left, (fuel - 1) as nat);
                match called {
                    Err(e) => (Err(e), p1),
                    Ok(c) => sp_infix_loop(toks, p1, c, prec, (fuel - 1) as nat),
                }
            } else if tok_infix(pk) is Some {
                let (extended, p1) = sp_parse_infix(
                    toks,
                    sp_advance(toks, p),
                    left,
                    (fuel - 1) as nat,
                );
                match extended {
                    Err(e) => (Err(e), p1),
                    Ok(x) => sp_infix_loop(toks, p1, x, prec, (fuel - 1) as nat),
                }
            } else {
                (Err(ParseError::InvalidExpression), p)
            }
        }
    } else {
        (Ok(left), p)
    }
}

/// Parses the right operand of the infix operator at the cursor; the right
/// operand binds at the operator's own strength, making operators
/// left-associative.
#[verifier::opaque]
pub open spec fn sp_parse_infix(toks: Seq<TokM>, p: int, left: ExprM, fuel: nat) -> (
    Result<ExprM, ParseError>,
    int,
)
    decreases fuel, 1int,
{
    if fuel == 0 {
        (Err(ParseError::TooDeep), p)
    } else {
        match tok_infix(toks[p]) {
            None => (Err(ParseError::InvalidInfixOperator), p),
            Some(op) => {
                let cur_prec = tok_prec(toks[p]);
                let p1 = sp_advance(toks, p);
                let (right, p2) = sp_parse_expression(toks, p1, cur_prec, (fuel - 1) as nat);
                match right {
                    Err(e) => (Err(e), p2),
                    Ok(r) => (Ok(ExprM::Infix(op, Box::new(left), Box::new(r))), p2),
                }
            },
        }
    }
}

/// Parses the arguments of a call; the cursor starts on the first token
/// after `(` and ends on the closing `)`.
#[verifier::opaque]
pub open spec fn sp_parse_call_args(toks: Seq<TokM>, p: int, fuel: nat) -> (
    Result<Seq<ExprM>, ParseError>,
    int,
)
    decreases fuel, 1int,
{
    if toks[p] is Rparen {
        (Ok(Seq::empty()), p)
    } else if fuel == 0 {
        (Err(ParseError::TooDeep), p)
    } else {
        let (arg, p1) = sp_parse_expression(toks, p, Precedence::Lowest, (fuel - 1) as nat);
        match arg {
            Err(e) => (Err(e), p1),
            Ok(a) => {
                let p2 = sp_advance(toks, p1);
                let p3 = if toks[p2] is Comma {
                    sp_advance(toks, p2)
                } else {
                    p2
                };
                let (rest, p4) = sp_parse_call_args(toks, p3, (fuel - 1) as nat);
                match rest {
                    Err(e) => (Err(e), p4),
                    Ok(args) => (Ok(seq![a] + args), p4),
                }
            },
        }
    }
}

/// Parses a call expression: the cursor stands on the `(` that follows the
/// callee, and ends on the closing `)`.
#[verifier::opaque]
pub open spec fn sp_parse_call(toks: Seq<TokM>, p: int, callee: ExprM, fuel: nat) -> (
    Result<ExprM, ParseError>,
    int,
)
    decreases fuel, 2int,
{
    if fuel == 0 {
        (Err(ParseError::TooDeep), p)
    } else {
        let p1 = sp_advance(toks, p);
        let (args, p2) = sp_parse_call_args(toks, p1, (fuel - 1) as nat);
        match args {
            Err(e) => (Err(e), p2),
            Ok(a) => (Ok(ExprM::Call { target: Box::new(callee), args: a }), p2),
        }
    }
}

/// Parses a block: `{` statement* `}`; the cursor ends on the token that
/// closed the block (`}`, or a terminating `;`).
#[verifier::opaque]
pub open spec fn sp_parse_block(toks: Seq<TokM>, p: int, fuel: nat) -> (
    Result<Seq<StmtM>, ParseError>,
    int,
)
    decreases fuel, 2int,
{
    if !(toks[p] is LSquirly) {
        (Err(ParseError::MissingBlock), p)
    } else {
        sp_block_items(toks, sp_advance(toks, p), fuel)
    }
}

/// The statements of a block, until `}` or `;`.
#[verifier::opaque]
pub open spec fn sp_block_items(toks: Seq<TokM>, p: int, fuel: nat) -> (
    Result<Seq<StmtM>, ParseError>,
    int,
)
    decreases fuel, 1int,
{
    if toks[p] is RSquirly || toks[p] is Semicolon {
        (Ok(Seq::empty()), p)
    } else if fuel == 0 {
        (Err(ParseError::TooDeep), p)
    } else {
        let (st, p1) = sp_parse_statement(toks, p, (fuel - 1) as nat);
        match st {
            Err(e) => (Err(e), p1),
            Ok(s) => {
                let (rest, p2) = sp_block_items(toks, sp_advance(toks, p1), (fuel - 1) as nat);
                match rest {
                    Err(e) => (Err(e), p2),
                    Ok(ss) => (Ok(seq![s] + ss), p2),
                }
            },
        }
    }
}

/// Parses an `if` expression: `if (` cond `)` block, optionally followed by
/// `else` and a block; a missing `else` is the empty alternative block.
#[verifier::opaque]
pub open spec fn sp_parse_if(toks: Seq<TokM>, p: int, fuel: nat) -> (
    Result<ExprM, ParseError>,
    int,
)
    decreases fuel, 1int,
{
    if fuel == 0 {
        (Err(ParseError::TooDeep), p)
    } else {
        let p1 = sp_advance(toks, p);
        let (cond, p2) = sp_parse_expression(toks, p1, Precedence::Lowest, (fuel - 1) as nat);
        match cond {
            Err(e) => (Err(e), p2),
            Ok(c) => {
                let p3 = if toks[p2] is Rparen {
                    sp_advance(toks, p2)
                } else {
                    p2
                };
                let (cons, p4) = sp_parse_block(toks, p3, (fuel - 1) as nat);
                match cons {
                    Err(e) => (Err(e), p4),
                    Ok(cb) => {
                        let p5 = sp_advance(toks, p4);
                        if toks[p5] is Else {
                            let (alt, p6) = sp_parse_block(
                                toks,
                                sp_advance(toks, p5),
                                (fuel - 1) as nat,
                            );
                            match alt {
                                Err(e) => (Err(e), p6),
                                Ok(ab) => (
                                    Ok(
                                        ExprM::If {
                                            cond: Box::new(c),
                                            cons: cb,
                                            alt: ab,
                                        },
                                    ),
                                    p6,
                                ),
                            }
                        } else {
                            (
                                Ok(
                                    ExprM::If {
                                        cond: Box::new(c),
                                        cons: cb,
                                        alt: Seq::empty(),
                                    },
                                ),
                                p5,
                            )
                        }
                    },
                }
            },
        }
    }
}

/// The comma-separated parameter names of a function literal; the cursor
/// starts on the first token after `(` and ends one past the closing `)`.
#[verifier::opaque]
pub open spec fn sp_parse_params(toks: Seq<TokM>, p: int, fuel: nat) -> (
    Result<Seq<Seq<char>>, ParseError>,
    int,
)
    decreases fuel, 1int,
{
    if toks[p] is Rparen {
        (Ok(Seq::empty()), sp_advance(toks, p))
    } else if fuel == 0 {
        (Err(ParseError::TooDeep), p)
    } else {
        match sp_parse_ident(toks, p) {
            Err(e) => (Err(e), p),
            Ok(name) => {
                let p1 = sp_advance(toks, p);
                let p2 = if toks[p1] is Comma {
                    sp_advance(toks, p1)
                } else {
                    p1
                };
                let (rest, p3) = sp_parse_params(toks, p2, (fuel - 1) as nat);
                match rest {
                    Err(e) => (Err(e), p3),
                    Ok(names) => (Ok(seq![name] + names), p3),
                }
            },
        }
    }
}

/// Parses a function literal: `fn (` params `)` block; the cursor ends on
/// the `}` that closes the body.
#[verifier::opaque]
pub open spec fn sp_parse_function(toks: Seq<TokM>, p: int, fuel: nat) -> (
    Result<ExprM, ParseError>,
    int,
)
    decreases fuel, 1int,
{
    if fuel == 0 {
        (Err(ParseError::TooDeep), p)
    } else {
        let p1 = sp_advance(toks, p);
        if !(toks[p1] is Lparen) {
            (Err(ParseError::MissingFunctionParen), p1)
        } else {
            let (params, p2) = sp_parse_params(toks, sp_advance(toks, p1), (fuel - 1) as nat);
            match params {
                Err(e) => (Err(e), p2),
                Ok(ps) => if !(toks[p2] is LSquirly) {
                    (Err(ParseError::MissingFunctionBody), p2)
                } else {
                    let (body, p3) = sp_parse_block(toks, p2, (fuel - 1) as nat);
                    match body {
                        Err(e) => (Err(e), p3),
                        Ok(b) => (Ok(ExprM::Func { params: ps, body: b }), p3),
                    }
                },
            }
        }
    }
}

/// Parses a `let` statement: `let`, an identifier, `=`, then a value
/// expression.
#[verifier::opaque]
pub open spec fn sp_parse_let(toks: Seq<TokM>, p: int, fuel: nat) -> (
    Result<StmtM, ParseError>,
    int,
)
    decreases fuel, 1int,
{
    if fuel == 0 {
        (Err(ParseError::TooDeep), p)
    } else {
        let p1 = sp_advance(toks, p);
        match toks[p1] {
            TokM::Ident(name) => {
                let p2 = sp_advance(toks, p1);
                if !(toks[p2] is Assign) {
                    (Err(ParseError::MissingAssign), p2)
                } else {
                    let p3 = sp_advance(toks, p2);
                    let (value, p4) = sp_parse_expression(
                        toks,
                        p3,
                        Precedence::Lowest,
                        (fuel - 1) as nat,
                    );
                    match value {
                        Err(e) => (Err(e), p4),
                        Ok(v) => (Ok(StmtM::Let(name, v)), p4),
                    }
                }
            },
            _ => (Err(ParseError::MissingLetIdentifier), p1),
        }
    }
}

/// Parses a `return` statement.
#[verifier::opaque]
pub open spec fn sp_parse_return(toks: Seq<TokM>, p: int, fuel: nat) -> (
    Result<StmtM, ParseError>,
    int,
)
    decreases fuel, 1int,
{
    if fuel == 0 {
        (Err(ParseError::TooDeep), p)
    } else {
        let p1 = sp_advance(toks, p);
        let (value, p2) = sp_parse_expression(toks, p1, Precedence::Lowest, (fuel - 1) as nat);
        match value {
            Err(e) => (Err(e), p2),
            Ok(v) => (Ok(StmtM::Return(v)), p2),
        }
    }
}

/// Parses one statement, then consumes a trailing `;` (or stops before the
/// end of the input) so that the next statement can follow.
#[verifier::opaque]
pub open spec fn sp_parse_statement(toks: Seq<TokM>, p: int, fuel: nat) -> (
    Result<StmtM, ParseError>,
    int,
)
    decreases fuel, 2int,
{
    if fuel == 0 {
        (Err(ParseError::TooDeep), p)
    } else {
        let (st, p1) = sp_statement_core(toks, p, (fuel - 1) as nat);
        let pk = sp_peek(toks, p1);
        if pk is Semicolon || pk is Eof {
            (st, sp_advance(toks, p1))
        } else {
            (st, p1)
        }
    }
}

/// The statement dispatch: `let`, `return`, or an expression statement.
#[verifier::opaque]
pub open spec fn sp_statement_core(toks: Seq<TokM>, p: int, fuel: nat) -> (
    Result<StmtM, ParseError>,
    int,
)
    decreases fuel, 4int,
{
    match toks[p] {
        TokM::Let => sp_parse_let(toks, p, fuel),
        TokM::Return => sp_parse_return(toks, p, fuel),
        _ => {
            let (e, p1) = sp_parse_expression(toks, p, Precedence::Lowest, fuel);
            match e {
                Err(err) => (Err(err), p1),
                Ok(ex) => (Ok(StmtM::Expr(ex)), p1),
            }
        },
    }
}

/// Parses statements until the end of the input, recording each statement's
/// success or failure and resynchronizing after a failure.
#[verifier::opaque]
pub open spec fn sp_parse_program(toks: Seq<TokM>, p: int, fuel: nat) -> Seq<
    Result<StmtM, ParseError>,
>
    decreases fuel, 3int,
{
    if 0 <= p < toks.len() && !(toks[p] is Eof) {
        if fuel == 0 {
            seq![Err(ParseError::TooDeep)]
        } else {
            let (st, p1) = sp_parse_statement(toks, p, (fuel - 1) as nat);
            seq![st] + sp_parse_program(toks, sp_advance(toks, p1), (fuel - 1) as nat)
        }
    } else {
        Seq::empty()
    }
}

/// The parser's fuel budget for an input of `n` tokens.
pub open spec fn parse_fuel(n: nat) -> nat {
    if n > 0x1000_0000_0000 {
        0xffff_ffff_ffff_ffff
    } else {
        8 * n + 32
    }
}

/// Whether an executable expression-parsing step agrees with the spec-level
/// step `s`, the cursor standing at `p` afterwards.
pub open spec fn expr_step_matches(
    r: Result<Expression, ParseError>,
    s: (Result<ExprM, ParseError>, int),
    p: int,
) -> bool {
    &&& p == s.1
    &&& match (r, s.0) {
        (Ok(e), Ok(m)) => expr_model(e) == m,
        (Err(a), Err(b)) => a == b,
        _ => false,
    }
}

/// The statement-level analogue of `expr_step_matches`.
pub open spec fn stmt_step_matches(
    r: Result<Statement, ParseError>,
    s: (Result<StmtM, ParseError>, int),
    p: int,
) -> bool {
    &&& p == s.1
    &&& match (r, s.0) {
        (Ok(e), Ok(m)) => stmt_model(e) == m,
        (Err(a), Err(b)) => a == b,
        _ => false,
    }
}

/// The block-level analogue of `expr_step_matches`.
pub open spec fn block_step_matches(
    r: Result<BlockStatement, ParseError>,
    s: (Result<Seq<StmtM>, ParseError>, int),
    p: int,
) -> bool {
    &&& p == s.1
    &&& match (r, s.0) {
        (Ok(b), Ok(m)) => block_model(b@) == m,
        (Err(a), Err(b)) => a == b,
        _ => false,
    }
}

/// The parser: the token vector, a cursor into it, and the lexing failure
/// that cut the token stream short, if any.
pub struct Parser {
    tokens: Vec<Token>,
    pos: usize,
    lex_failure: Option<LexError>,
}

impl Parser {
    /// The models of the tokens being parsed.
    pub closed spec fn toks(&self) -> Seq<TokM> {
        self.tokens@.map_values(|t: Token| token_model(t))
    }

    /// The cursor.
    pub closed spec fn cursor(&self) -> int {
        self.pos as int
    }

    /// The lexing failure found while draining the lexer, if any.
    pub closed spec fn lex_err(&self) -> Option<LexError> {
        self.lex_failure
    }

    /// There is at least one token, and the cursor is on one of them.
    pub closed spec fn wf(&self) -> bool {
        self.tokens@.len() >= 1 && (self.pos as int) < self.tokens@.len()
    }

    /// A parser over the tokens of `lexer`, up to its first lexing failure;
    /// the failure, if any, is recorded, and stands as a statement entry of
    /// `parse_program`'s result.
    pub fn new(lexer: Lexer) -> (p: Parser)
        requires
            lexer.wf(),
        ensures
            p.wf(),
            p.cursor() == 0,
            p.toks() == spec_token_prefix(lexer.bytes(), lexer.pos()),
            match spec_tokens(lexer.bytes(), lexer.pos()) {
                Ok(ts) => p.lex_err() is None && p.toks() == ts,
                Err(e) => p.lex_err() == Some(e),
            },
    {
        let mut lexer = lexer;
        let ghost s = lexer.bytes();
        let ghost p0 = lexer.pos();
        let mut tokens: Vec<Token> = Vec::new();
        let mut failure: Option<LexError> = None;
        loop
            invariant_except_break
                failure is None,
                spec_token_prefix(s, p0) == tokens@.map_values(|t: Token| token_model(t))
                    + spec_token_prefix(s, lexer.pos()),
                match spec_tokens(s, lexer.pos()) {
                    Ok(rest) => spec_tokens(s, p0) == Ok::<Seq<TokM>, LexError>(
                        tokens@.map_values(|t: Token| token_model(t)) + rest,
                    ),
                    Err(e) => spec_tokens(s, p0) == Err::<Seq<TokM>, LexError>(e),
                },
            invariant
                lexer.wf(),
                lexer.bytes() == s,
            ensures
                tokens@.map_values(|t: Token| token_model(t)) == spec_token_prefix(s, p0),
                tokens@.len() >= 1,
                match spec_tokens(s, p0) {
                    Ok(ts) => failure is None && tokens@.map_values(|t: Token| token_model(t))
                        == ts,
                    Err(e) => failure == Some(e),
                },
            decreases s.len() - lexer.pos(),
        {
            let ghost pcur = lexer.pos();
            proof {
                lexer.lemma_wf_bounds();
                lemma_token_progress(s, pcur);
            }
            match lexer.next_token() {
                Err(e) => {
                    failure = Some(e);
                    let ghost before = tokens@;
                    tokens.push(Token::Eof);
                    proof {
                        let ts = tokens@.map_values(|tk: Token| token_model(tk));
                        let bs = before.map_values(|tk: Token| token_model(tk));
                        assert(ts =~= bs + seq![TokM::Eof]);
                    }
                    break;
                },
                Ok(t) => {
                    let is_eof = matches!(t, Token::Eof);
                    let ghost before = tokens@;
                    tokens.push(t);
                    proof {
                        assert(tokens@.map_values(|tk: Token| token_model(tk)) =~= before.map_values(
                            |tk: Token| token_model(tk),
                        ).push(token_model(tokens@.last())));
                    }
                    if is_eof {
                        proof {
                            let ts = tokens@.map_values(|tk: Token| token_model(tk));
                            let bs = before.map_values(|tk: Token| token_model(tk));
                            assert(ts =~= bs + seq![TokM::Eof]);
                        }
                        break;
                    }
                    proof {
                        let ts = tokens@.map_values(|tk: Token| token_model(tk));
                        let bs = before.map_values(|tk: Token| token_model(tk));
                        let t_m = token_model(tokens@.last());
                        if spec_tokens(s, lexer.pos()) is Ok {
                            let rest = spec_tokens(s, lexer.pos())->Ok_0;
                            assert(bs + (seq![t_m] + rest) =~= ts + rest);
                        }
                        let prest = spec_token_prefix(s, lexer.pos());
                        assert(bs + (seq![t_m] + prest) =~= ts + prest);
                    }
                },
            }
        }
        Parser { tokens, pos: 0, lex_failure: failure }
    }

    /// The token under the cursor.
    fn cur(&self) -> (t: &Token)
        requires
            self.wf(),
        ensures
            token_model(*t) == self.toks()[self.cursor()],
    {
        &self.tokens[self.pos]
    }

    /// The token after the cursor (the final token repeats itself).
    fn peek(&self) -> (t: &Token)
        requires
            self.wf(),
        ensures
            token_model(*t) == sp_peek(self.toks(), self.cursor()),
    {
        if self.pos < self.tokens.len() - 1 {
            &self.tokens[self.pos + 1]
        } else {
            &self.tokens[self.tokens.len() - 1]
        }
    }

    /// Moves the cursor one token further, stopping on the final token.
    fn next_token(&mut self)
        requires
            old(self).wf(),
        ensures
            final(self).wf(),
            final(self).toks() == old(self).toks(),
            final(self).lex_err() == old(self).lex_err(),
            final(self).cursor() == sp_advance(old(self).toks(), old(self).cursor()),
    {
        if self.pos < self.tokens.len() - 1 {
            self.pos = self.pos + 1;
        }
    }

    /// The binding strength of a token at an operator position.
    fn get_precedence(token: &Token) -> (r: Precedence)
        ensures
            r == tok_prec(token_model(*token)),
    {
        match token {
            Token::Equal => Precedence::Equals,
            Token::NotEqual => Precedence::Equals,
            Token::Lt => Precedence::LessGreater,
            Token::Gt => Precedence::LessGreater,
            Token::Plus => Precedence::Sum,
            Token::Minus => Precedence::Sum,
            Token::Slash => Precedence::Product,
            Token::Asterisk => Precedence::Product,
            Token::Lparen => Precedence::Call,
            _ => Precedence::Lowest,
        }
    }

    /// Parses the identifier at the cursor; does not advance.
    fn parse_ident(&mut self) -> (r: Result<Identifier, ParseError>)
        requires
            old(self).wf(),
        ensures
            final(self).wf(),
            final(self).toks() == old(self).toks(),
            final(self).lex_err() == old(self).lex_err(),
            final(self).cursor() == old(self).cursor(),
            match (r, sp_parse_ident(old(self).toks(), old(self).cursor())) {
                (Ok(id), Ok(m)) => id@ == m,
                (Err(a), Err(b)) => a == b,
                _ => false,
            },
    {
        match self.cur() {
            Token::Ident(name) => Ok(Identifier(name.clone())),
            _ => Err(ParseError::MissingIdentifier),
        }
    }

    /// An identifier as an expression.
    fn parse_ident_expr(&mut self) -> (r: Result<Expression, ParseError>)
        requires
            old(self).wf(),
        ensures
            final(self).wf(),
            final(self).toks() == old(self).toks(),
            final(self).lex_err() == old(self).lex_err(),
            final(self).cursor() == old(self).cursor(),
            match (r, sp_parse_ident(old(self).toks(), old(self).cursor())) {
                (Ok(e), Ok(m)) => expr_model(e) == ExprM::Ident(m),
                (Err(a), Err(b)) => a == b,
                _ => false,
            },
    {
        match self.parse_ident() {
            Ok(id) => Ok(Expression::Identifier(id)),
            Err(e) => Err(e),
        }
    }

    /// An integer literal as an expression.
    fn parse_int_expr(&mut self) -> (r: Result<Expression, ParseError>)
        requires
            old(self).wf(),
        ensures
            final(self).wf(),
            final(self).toks() == old(self).toks(),
            final(self).lex_err() == old(self).lex_err(),
            final(self).cursor() == old(self).cursor(),
            match old(self).toks()[old(self).cursor()] {
                TokM::Int(n) => r matches Ok(e) && expr_model(e) == ExprM::IntLit(n),
                _ => r == Err::<Expression, ParseError>(ParseError::MissingInt),
            },
    {
        match self.cur() {
            Token::Int(num) => Ok(Expression::Literal(Literal::Int(*num))),
            _ => Err(ParseError::MissingInt),
        }
    }

    /// A boolean literal as an expression.
    fn parse_bool_expr(&mut self) -> (r: Result<Expression, ParseError>)
        requires
            old(self).wf(),
        ensures
            final(self).wf(),
            final(self).toks() == old(self).toks(),
            final(self).lex_err() == old(self).lex_err(),
            final(self).cursor() == old(self).cursor(),
            match old(self).toks()[old(self).cursor()] {
                TokM::Bool(b) => r matches Ok(e) && expr_model(e) == ExprM::BoolLit(b),
                _ => r == Err::<Expression, ParseError>(ParseError::MissingBool),
            },
    {
        match self.cur() {
            Token::Bool(value) => Ok(Expression::Literal(Literal::Bool(*value))),
            _ => Err(ParseError::MissingBool),
        }
    }

    /// A string literal as an expression.
    fn parse_string_expr(&mut self) -> (r: Result<Expression, ParseError>)
        requires
            old(self).wf(),
        ensures
            final(self).wf(),
            final(self).toks() == old(self).toks(),
            final(self).lex_err() == old(self).lex_err(),
            final(self).cursor() == old(self).cursor(),
            match old(self).toks()[old(self).cursor()] {
                TokM::Str(s) => r matches Ok(e) && expr_model(e) == ExprM::StrLit(s),
                _ => r == Err::<Expression, ParseError>(ParseError::UnhandledExpressionStart),
            },
    {
        match self.cur() {
            Token::Str(s) => Ok(Expression::Literal(Literal::Str(s.clone()))),
            _ => Err(ParseError::UnhandledExpressionStart),
        }
    }

    /// Parses a parenthesized expression; the cursor ends on the `)`.
    #[verifier::loop_isolation(false)]
    fn parse_grouped_expr(&mut self, fuel: u64) -> (r: Result<Expression, ParseError>)
        requires
            old(self).wf(),
        ensures
            final(self).wf(),
            final(self).toks() == old(self).toks(),
            final(self).lex_err() == old(self).lex_err(),
            expr_step_matches(
                r,
                sp_parse_grouped(old(self).toks(), old(self).cursor(), fuel as nat),
                final(self).cursor(),
            ),
        decreases fuel, 1int,
    {
        reveal(sp_parse_grouped);
        reveal(sp_parse_expression);
        if fuel == 0 {
            return Err(ParseError::TooDeep);
        }
        self.next_token();
        let inner = match self.parse_expression(Precedence::Lowest, fuel - 1) {
            Ok(e) => e,
            Err(e) => {
                return Err(e);
            },
        };
        if matches!(self.peek(), Token::Rparen) {
            self.next_token();
            Ok(inner)
        } else {
            Err(ParseError::MissingClosingParen)
        }
    }

    /// Parses a unary operator application.
    #[verifier::loop_isolation(false)]
    fn parse_prefix_expr(&mut self, fuel: u64) -> (r: Result<Expression, ParseError>)
        requires
            old(self).wf(),
        ensures
            final(self).wf(),
            final(self).toks() == old(self).toks(),
            final(self).lex_err() == old(self).lex_err(),
            match old(self).toks()[old(self).cursor()] {
                TokM::Plus => expr_step_matches(
                    r,
                    sp_parse_prefix(old(self).toks(), old(self).cursor(), Prefix::Plus, fuel as nat),
                    final(self).cursor(),
                ),
                TokM::Minus => expr_step_matches(
                    r,
                    sp_parse_prefix(
                        old(self).toks(),
                        old(self).cursor(),
                        Prefix::Minus,
                        fuel as nat,
                    ),
                    final(self).cursor(),
                ),
                TokM::Bang => expr_step_matches(
                    r,
                    sp_parse_prefix(old(self).toks(), old(self).cursor(), Prefix::Not, fuel as nat),
                    final(self).cursor(),
                ),
                _ => r is Err,
            },
        decreases fuel, 1int,
    {
        reveal(sp_parse_prefix);
        reveal(sp_parse_expression);
        let op = if matches!(self.cur(), Token::Plus) {
            Prefix::Plus
        } else if matches!(self.cur(), Token::Minus) {
            Prefix::Minus
        } else if matches!(self.cur(), Token::Bang) {
            Prefix::Not
        } else {
            return Err(ParseError::UnhandledExpressionStart);
        };
        if fuel == 0 {
            return Err(ParseError::TooDeep);
        }
        self.next_token();
        match self.parse_expression(Precedence::Prefix, fuel - 1) {
            Ok(e) => Ok(Expression::Prefix(op, Box::new(e))),
            Err(e) => Err(e),
        }
    }

    /// Parses the right operand of the infix operator at the cursor and
    /// joins it with `left`; the right operand binds at the operator's own
    /// strength, which makes the operators left-associative.
    #[verifier::loop_isolation(false)]
    fn parse_infix_expr(&mut self, left: Expression, fuel: u64) -> (r: Result<
        Expression,
        ParseError,
    >)
        requires
            old(self).wf(),
        ensures
            final(self).wf(),
            final(self).toks() == old(self).toks(),
            final(self).lex_err() == old(self).lex_err(),
            expr_step_matches(
                r,
                sp_parse_infix(old(self).toks(), old(self).cursor(), expr_model(left), fuel as nat),
                final(self).cursor(),
            ),
        decreases fuel, 1int,
    {
        reveal(sp_parse_infix);
        reveal(sp_parse_expression);
        if fuel == 0 {
            return Err(ParseError::TooDeep);
        }
        let op = if matches!(self.cur(), Token::Plus) {
            Infix::Plus
        } else if matches!(self.cur(), Token::Minus) {
            Infix::Minus
        } else if matches!(self.cur(), Token::Slash) {
            Infix::Divide
        } else if matches!(self.cur(), Token::Asterisk) {
            Infix::Product
        } else if matches!(self.cur(), Token::Equal) {
            Infix::Equal
        } else if matches!(self.cur(), Token::NotEqual) {
            Infix::NotEqual
        } else if matches!(self.cur(), Token::Lt) {
            Infix::LessThan
        } else if matches!(self.cur(), Token::Gt) {
            Infix::GreaterThan
        } else {
            return Err(ParseError::InvalidInfixOperator);
        };
        let cur_prec = Self::get_precedence(self.cur());
        self.next_token();
        match self.parse_expression(cur_prec, fuel - 1) {
            Ok(right) => Ok(Expression::Infix(op, Box::new(left), Box::new(right))),
            Err(e) => Err(e),
        }
    }

    /// Parses the comma-separated arguments of a call, up to the closing
    /// `)`.
    #[verifier::loop_isolation(false)]
    fn parse_call_args(&mut self, fuel: u64) -> (r: Result<Vec<Expression>, ParseError>)
        requires
            old(self).wf(),
        ensures
            final(self).wf(),
            final(self).toks() == old(self).toks(),
            final(self).lex_err() == old(self).lex_err(),
            ({
                let s = sp_parse_call_args(old(self).toks(), old(self).cursor(), fuel as nat);
                final(self).cursor() == s.1 && match (r, s.0) {
                    (Ok(v), Ok(m)) => exprs_model(v@) == m,
                    (Err(a), Err(b)) => a == b,
                    _ => false,
                }
            }),
        decreases fuel, 2int,
    {
        reveal(sp_parse_call_args);
        reveal(sp_parse_expression);
        let mut args: Vec<Expression> = Vec::new();
        let mut lf: u64 = fuel;
        let ghost centry = sp_parse_call_args(old(self).toks(), old(self).cursor(), fuel as nat);
        loop
            invariant
                self.wf(),
                self.toks() == old(self).toks(),
                self.lex_err() == old(self).lex_err(),
                lf <= fuel,
                ({
                    let s = sp_parse_call_args(self.toks(), self.cursor(), lf as nat);
                    s.1 == centry.1 && match s.0 {
                        Ok(rest) => centry.0 == Ok::<Seq<ExprM>, ParseError>(
                            exprs_model(args@) + rest,
                        ),
                        Err(e) => centry.0 == Err::<Seq<ExprM>, ParseError>(e),
                    }
                }),
            decreases lf,
        {
        reveal(sp_parse_call_args);
        reveal(sp_parse_expression);
            if matches!(self.cur(), Token::Rparen) {
                proof {
                    assert(exprs_model(args@) + Seq::<ExprM>::empty() =~= exprs_model(args@));
                }
                return Ok(args);
            }
            if lf == 0 {
                return Err(ParseError::TooDeep);
            }
            let ghost args_before = args@;
            let a = match self.parse_expression(Precedence::Lowest, lf - 1) {
                Ok(a) => a,
                Err(e) => {
                    return Err(e);
                },
            };
            args.push(a);
            self.next_token();
            if matches!(self.cur(), Token::Comma) {
                self.next_token();
            }
            proof {
                let am = expr_model(args@.last());
                assert(exprs_model(args@) =~= exprs_model(args_before) + seq![am]);
                let s = sp_parse_call_args(self.toks(), self.cursor(), (lf - 1) as nat);
                if s.0 is Ok {
                    let rest = s.0->Ok_0;
                    assert(exprs_model(args_before) + (seq![am] + rest) =~= exprs_model(args@)
                        + rest);
                }
            }
            lf = lf - 1;
        }
    }

    /// Parses a call expression: the cursor stands on the `(` after the
    /// callee and ends on the closing `)`.
    #[verifier::loop_isolation(false)]
    fn parse_call_expr(&mut self, function: Expression, fuel: u64) -> (r: Result<
        Expression,
        ParseError,
    >)
        requires
            old(self).wf(),
        ensures
            final(self).wf(),
            final(self).toks() == old(self).toks(),
            final(self).lex_err() == old(self).lex_err(),
            expr_step_matches(
                r,
                sp_parse_call(
                    old(self).toks(),
                    old(self).cursor(),
                    expr_model(function),
                    fuel as nat,
                ),
                final(self).cursor(),
            ),
        decreases fuel, 3int,
    {
        reveal(sp_parse_call);
        reveal(sp_parse_call_args);
        if fuel == 0 {
            return Err(ParseError::TooDeep);
        }
        self.next_token();
        match self.parse_call_args(fuel - 1) {
            Ok(args) => Ok(Expression::Call { function: Box::new(function), args }),
            Err(e) => Err(e),
        }
    }

    /// Parses a block: `{` statement* `}`.
    #[verifier::loop_isolation(false)]
    #[verifier::spinoff_prover]
    #[verifier::rlimit(100)]
    fn parse_block_statement(&mut self, fuel: u64) -> (r: Result<BlockStatement, ParseError>)
        requires
            old(self).wf(),
        ensures
            final(self).wf(),
            final(self).toks() == old(self).toks(),
            final(self).lex_err() == old(self).lex_err(),
            block_step_matches(
                r,
                sp_parse_block(old(self).toks(), old(self).cursor(), fuel as nat),
                final(self).cursor(),
            ),
        decreases fuel, 3int,
    {
        reveal(sp_parse_block);
        reveal(sp_block_items);
        reveal(sp_parse_statement);
        if !matches!(self.cur(), Token::LSquirly) {
            return Err(ParseError::MissingBlock);
        }
        self.next_token();
        let mut block: Vec<Statement> = Vec::new();
        let mut lf: u64 = fuel;
        let ghost centry = sp_block_items(self.toks(), self.cursor(), fuel as nat);
        loop
            invariant
                self.wf(),
                self.toks() == old(self).toks(),
                self.lex_err() == old(self).lex_err(),
                lf <= fuel,
                ({
                    let s = sp_block_items(self.toks(), self.cursor(), lf as nat);
                    s.1 == centry.1 && match s.0 {
                        Ok(rest) => centry.0 == Ok::<Seq<StmtM>, ParseError>(
                            block_model(block@) + rest,
                        ),
                        Err(e) => centry.0 == Err::<Seq<StmtM>, ParseError>(e),
                    }
                }),
            decreases lf,
        {
        reveal(sp_block_items);
        reveal(sp_parse_statement);
            if matches!(self.cur(), Token::RSquirly) || matches!(self.cur(), Token::Semicolon) {
                proof {
                    assert(block_model(block@) + Seq::<StmtM>::empty() =~= block_model(block@));
                }
                return Ok(block);
            }
            if lf == 0 {
                return Err(ParseError::TooDeep);
            }
            let ghost block_before = block@;
            let st = match self.parse_statement(lf - 1) {
                Ok(s) => s,
                Err(e) => {
                    return Err(e);
                },
            };
            block.push(st);
            self.next_token();
            proof {
                let sm = stmt_model(block@.last());
                assert(block_model(block@) =~= block_model(block_before) + seq![sm]);
                let s = sp_block_items(self.toks(), self.cursor(), (lf - 1) as nat);
                if s.0 is Ok {
                    let rest = s.0->Ok_0;
                    assert(block_model(block_before) + (seq![sm] + rest) =~= block_model(block@)
                        + rest);
                }
            }
            lf = lf - 1;
        }
    }

    /// Parses an `if` expression; a missing `else` yields an empty
    /// alternative block.
    #[verifier::loop_isolation(false)]
    #[verifier::spinoff_prover]
    #[verifier::rlimit(60)]
    fn parse_if_expr(&mut self, fuel: u64) -> (r: Result<Expression, ParseError>)
        requires
            old(self).wf(),
        ensures
            final(self).wf(),
            final(self).toks() == old(self).toks(),
            final(self).lex_err() == old(self).lex_err(),
            expr_step_matches(
                r,
                sp_parse_if(old(self).toks(), old(self).cursor(), fuel as nat),
                final(self).cursor(),
            ),
        decreases fuel, 2int,
    {
        reveal(sp_parse_if);
        reveal(sp_parse_expression);
        reveal(sp_parse_block);
        if fuel == 0 {
            return Err(ParseError::TooDeep);
        }
        self.next_token();
        let condition = match self.parse_expression(Precedence::Lowest, fuel - 1) {
            Ok(c) => c,
            Err(e) => {
                return Err(e);
            },
        };
        if matches!(self.cur(), Token::Rparen) {
            self.next_token();
        }
        let consequence = match self.parse_block_statement(fuel - 1) {
            Ok(b) => b,
            Err(e) => {
                return Err(e);
            },
        };
        self.next_token();
        if matches!(self.cur(), Token::Else) {
            self.next_token();
            let alternative = match self.parse_block_statement(fuel - 1) {
                Ok(b) => b,
                Err(e) => {
                    return Err(e);
                },
            };
            Ok(
                Expression::If(
                    IfExpression {
                        condition: Box::new(condition),
                        consequence,
                        alternative,
                    },
                ),
            )
        } else {
            let alternative: BlockStatement = Vec::new();
            proof {
                assert(block_model(alternative@) =~= Seq::<StmtM>::empty());
            }
            Ok(
                Expression::If(
                    IfExpression {
                        condition: Box::new(condition),
                        consequence,
                        alternative,
                    },
                ),
            )
        }
    }

    /// Parses the comma-separated parameter names of a function literal;
    /// the cursor ends one past the closing `)`.
    #[verifier::loop_isolation(false)]
    fn parse_function_parameters(&mut self, fuel: u64) -> (r: Result<Vec<Identifier>, ParseError>)
        requires
            old(self).wf(),
        ensures
            final(self).wf(),
            final(self).toks() == old(self).toks(),
            final(self).lex_err() == old(self).lex_err(),
            ({
                let s = sp_parse_params(old(self).toks(), old(self).cursor(), fuel as nat);
                final(self).cursor() == s.1 && match (r, s.0) {
                    (Ok(v), Ok(m)) => v@.map_values(|p: Identifier| p@) == m,
                    (Err(a), Err(b)) => a == b,
                    _ => false,
                }
            }),
        decreases fuel, 2int,
    {
        reveal(sp_parse_params);
        let mut params: Vec<Identifier> = Vec::new();
        let mut lf: u64 = fuel;
        let ghost centry = sp_parse_params(old(self).toks(), old(self).cursor(), fuel as nat);
        loop
            invariant
                self.wf(),
                self.toks() == old(self).toks(),
                self.lex_err() == old(self).lex_err(),
                lf <= fuel,
                ({
                    let s = sp_parse_params(self.toks(), self.cursor(), lf as nat);
                    s.1 == centry.1 && match s.0 {
                        Ok(rest) => centry.0 == Ok::<Seq<Seq<char>>, ParseError>(
                            params@.map_values(|p: Identifier| p@) + rest,
                        ),
                        Err(e) => centry.0 == Err::<Seq<Seq<char>>, ParseError>(e),
                    }
                }),
            decreases lf,
        {
        reveal(sp_parse_params);
            if matches!(self.cur(), Token::Rparen) {
                self.next_token();
                proof {
                    assert(params@.map_values(|p: Identifier| p@) + Seq::<Seq<char>>::empty()
                        =~= params@.map_values(|p: Identifier| p@));
                }
                return Ok(params);
            }
            if lf == 0 {
                return Err(ParseError::TooDeep);
            }
            let ghost params_before = params@;
            let name = match self.parse_ident() {
                Ok(n) => n,
                Err(e) => {
                    return Err(e);
                },
            };
            params.push(name);
            self.next_token();
            if matches!(self.cur(), Token::Comma) {
                self.next_token();
            }
            proof {
                let nm = params@.last()@;
                assert(params@.map_values(|p: Identifier| p@) =~= params_before.map_values(
                    |p: Identifier| p@,
                ) + seq![nm]);
                let s = sp_parse_params(self.toks(), self.cursor(), (lf - 1) as nat);
                if s.0 is Ok {
                    let rest = s.0->Ok_0;
                    assert(params_before.map_values(|p: Identifier| p@) + (seq![nm] + rest)
                        =~= params@.map_values(|p: Identifier| p@) + rest);
                }
            }
            lf = lf - 1;
        }
    }

    /// Parses a function literal: `fn (` params `)` block.
    #[verifier::loop_isolation(false)]
    fn parse_function_expr(&mut self, fuel: u64) -> (r: Result<Expression, ParseError>)
        requires
            old(self).wf(),
        ensures
            final(self).wf(),
            final(self).toks() == old(self).toks(),
            final(self).lex_err() == old(self).lex_err(),
            expr_step_matches(
                r,
                sp_parse_function(old(self).toks(), old(self).cursor(), fuel as nat),
                final(self).cursor(),
            ),
        decreases fuel, 2int,
    {
        reveal(sp_parse_function);
        reveal(sp_parse_params);
        reveal(sp_parse_block);
        if fuel == 0 {
            return Err(ParseError::TooDeep);
        }
        self.next_token();
        if !matches!(self.cur(), Token::Lparen) {
            return Err(ParseError::MissingFunctionParen);
        }
        self.next_token();
        let params = match self.parse_function_parameters(fuel - 1) {
            Ok(ps) => ps,
            Err(e) => {
                return Err(e);
            },
        };
        if !matches!(self.cur(), Token::LSquirly) {
            return Err(ParseError::MissingFunctionBody);
        }
        let body = match self.parse_block_statement(fuel - 1) {
            Ok(b) => b,
            Err(e) => {
                return Err(e);
            },
        };
        Ok(Expression::Function { params, body })
    }

    /// Parses one expression, then repeatedly extends it while the token
    /// after the cursor binds more strongly than `precedence`.
    #[verifier::loop_isolation(false)]
    #[verifier::spinoff_prover]
    #[verifier::rlimit(60)]
    fn parse_expression(&mut self, precedence: Precedence, fuel: u64) -> (r: Result<
        Expression,
        ParseError,
    >)
        requires
            old(self).wf(),
        ensures
            final(self).wf(),
            final(self).toks() == old(self).toks(),
            final(self).lex_err() == old(self).lex_err(),
            expr_step_matches(
                r,
                sp_parse_expression(old(self).toks(), old(self).cursor(), precedence, fuel as nat),
                final(self).cursor(),
            ),
        decreases fuel, 4int,
    {
        reveal(sp_parse_expression);
        reveal(sp_parse_head);
        reveal(sp_infix_loop);
        reveal(sp_parse_grouped);
        reveal(sp_parse_prefix);
        reveal(sp_parse_if);
        reveal(sp_parse_function);
        if fuel == 0 {
            return Err(ParseError::TooDeep);
        }
        let head = if matches!(self.cur(), Token::Ident(_)) {
            self.parse_ident_expr()
        } else if matches!(self.cur(), Token::Int(_)) {
            self.parse_int_expr()
        } else if matches!(self.cur(), Token::Bool(_)) {
            self.parse_bool_expr()
        } else if matches!(self.cur(), Token::Str(_)) {
            self.parse_string_expr()
        } else if matches!(self.cur(), Token::Lparen) {
            self.parse_grouped_expr(fuel - 1)
        } else if matches!(self.cur(), Token::Plus) || matches!(self.cur(), Token::Minus)
            || matches!(self.cur(), Token::Bang) {
            self.parse_prefix_expr(fuel - 1)
        } else if matches!(self.cur(), Token::If) {
            self.parse_if_expr(fuel - 1)
        } else if matches!(self.cur(), Token::Function) {
            self.parse_function_expr(fuel - 1)
        } else {
            return Err(ParseError::UnhandledExpressionStart);
        };
        let mut left = match head {
            Ok(h) => h,
            Err(e) => {
                return Err(e);
            },
        };
        let mut lf: u64 = fuel - 1;
        let ghost centry = sp_infix_loop(
            self.toks(),
            self.cursor(),
            expr_model(left),
            precedence,
            lf as nat,
        );
        loop
            invariant
                self.wf(),
                self.toks() == old(self).toks(),
                self.lex_err() == old(self).lex_err(),
                lf <= fuel - 1,
                sp_infix_loop(self.toks(), self.cursor(), expr_model(left), precedence, lf as nat)
                    == centry,
            decreases lf,
        {
        reveal(sp_infix_loop);
        reveal(sp_parse_call);
        reveal(sp_parse_infix);
            let semi = matches!(self.peek(), Token::Semicolon);
            let pk_prec = Self::get_precedence(self.peek());
            if !(!semi && precedence.lt(&pk_prec)) {
                return Ok(left);
            }
            if lf == 0 {
                return Err(ParseError::TooDeep);
            }
            if matches!(self.peek(), Token::Lparen) {
                self.next_token();
                let called = match self.parse_call_expr(left, lf - 1) {
                    Ok(c) => c,
                    Err(e) => {
                        return Err(e);
                    },
                };
                left = called;
            } else {
                self.next_token();
                let extended = match self.parse_infix_expr(left, lf - 1) {
                    Ok(x) => x,
                    Err(e) => {
                        return Err(e);
                    },
                };
                left = extended;
            }
            lf = lf - 1;
        }
    }

    /// Parses an expression in statement position.
    #[verifier::loop_isolation(false)]
    fn parse_expression_statement(&mut self, fuel: u64) -> (r: Result<Statement, ParseError>)
        requires
            old(self).wf(),
        ensures
            final(self).wf(),
            final(self).toks() == old(self).toks(),
            final(self).lex_err() == old(self).lex_err(),
            ({
                let s = sp_parse_expression(
                    old(self).toks(),
                    old(self).cursor(),
                    Precedence::Lowest,
                    fuel as nat,
                );
                final(self).cursor() == s.1 && match (r, s.0) {
                    (Ok(st), Ok(m)) => stmt_model(st) == StmtM::Expr(m),
                    (Err(a), Err(b)) => a == b,
                    _ => false,
                }
            }),
        decreases fuel, 5int,
    {
        match self.parse_expression(Precedence::Lowest, fuel) {
            Ok(e) => Ok(Statement::Expression(e)),
            Err(e) => Err(e),
        }
    }

    /// Parses a `let` statement: `let`, an identifier, `=`, then a value
    /// expression.
    #[verifier::loop_isolation(false)]
    fn parse_let_statement(&mut self, fuel: u64) -> (r: Result<Statement, ParseError>)
        requires
            old(self).wf(),
        ensures
            final(self).wf(),
            final(self).toks() == old(self).toks(),
            final(self).lex_err() == old(self).lex_err(),
            stmt_step_matches(
                r,
                sp_parse_let(old(self).toks(), old(self).cursor(), fuel as nat),
                final(self).cursor(),
            ),
        decreases fuel, 2int,
    {
        reveal(sp_parse_let);
        reveal(sp_parse_expression);
        if fuel == 0 {
            return Err(ParseError::TooDeep);
        }
        self.next_token();
        let name = match self.parse_ident() {
            Ok(n) => n,
            Err(_) => {
                return Err(ParseError::MissingLetIdentifier);
            },
        };
        self.next_token();
        if !matches!(self.cur(), Token::Assign) {
            return Err(ParseError::MissingAssign);
        }
        self.next_token();
        match self.parse_expression(Precedence::Lowest, fuel - 1) {
            Ok(value) => Ok(Statement::Let(name, value)),
            Err(e) => Err(e),
        }
    }

    /// Parses a `return` statement.
    #[verifier::loop_isolation(false)]
    fn parse_return_statement(&mut self, fuel: u64) -> (r: Result<Statement, ParseError>)
        requires
            old(self).wf(),
        ensures
            final(self).wf(),
            final(self).toks() == old(self).toks(),
            final(self).lex_err() == old(self).lex_err(),
            stmt_step_matches(
                r,
                sp_parse_return(old(self).toks(), old(self).cursor(), fuel as nat),
                final(self).cursor(),
            ),
        decreases fuel, 2int,
    {
        reveal(sp_parse_return);
        reveal(sp_parse_expression);
        if fuel == 0 {
            return Err(ParseError::TooDeep);
        }
        self.next_token();
        match self.parse_expression(Precedence::Lowest, fuel - 1) {
            Ok(value) => Ok(Statement::Return(value)),
            Err(e) => Err(e),
        }
    }

    /// Dispatches on the token at the cursor to parse one statement.
    #[verifier::spinoff_prover]
    #[verifier::rlimit(100)]
    fn parse_statement_body(&mut self, fuel: u64) -> (r: Result<Statement, ParseError>)
        requires
            old(self).wf(),
            fuel >= 1,
        ensures
            final(self).wf(),
            final(self).toks() == old(self).toks(),
            final(self).lex_err() == old(self).lex_err(),
            stmt_step_matches(
                r,
                sp_statement_core(old(self).toks(), old(self).cursor(), (fuel - 1) as nat),
                final(self).cursor(),
            ),
        decreases fuel, 6int,
    {
        reveal(sp_statement_core);
        reveal(sp_parse_let);
        reveal(sp_parse_return);
        reveal(sp_parse_expression);
        if matches!(self.cur(), Token::Let) {
            self.parse_let_statement(fuel - 1)
        } else if matches!(self.cur(), Token::Return) {
            self.parse_return_statement(fuel - 1)
        } else {
            self.parse_expression_statement(fuel - 1)
        }
    }

    /// Parses one statement and consumes its trailing `;`, if present.
    #[verifier::spinoff_prover]
    #[verifier::rlimit(100)]
    fn parse_statement(&mut self, fuel: u64) -> (r: Result<Statement, ParseError>)
        requires
            old(self).wf(),
        ensures
            final(self).wf(),
            final(self).toks() == old(self).toks(),
            final(self).lex_err() == old(self).lex_err(),
            stmt_step_matches(
                r,
                sp_parse_statement(old(self).toks(), old(self).cursor(), fuel as nat),
                final(self).cursor(),
            ),
        decreases fuel, 7int,
    {
        reveal(sp_parse_statement);
        reveal(sp_statement_core);
        if fuel == 0 {
            return Err(ParseError::TooDeep);
        }
        let statement = self.parse_statement_body(fuel);
        if matches!(self.peek(), Token::Semicolon) || matches!(self.peek(), Token::Eof) {
            self.next_token();
        }
        statement
    }

    /// Parses statements until the end of the input, never itself failing:
    /// one entry per statement, in source order, each the parsed statement
    /// or its own parse failure, parsing resynchronizing at statement
    /// boundaries after a failure.  A lexing failure stands as a statement
    /// entry too (`ParseError::Lex`), the statements parsed before it kept:
    /// see `sp_with_lex_failure`.
    #[verifier::spinoff_prover]
    #[verifier::rlimit(100)]
    pub fn parse_program(&mut self) -> (r: Program)
        requires
            old(self).wf(),
        ensures
            final(self).wf(),
            program_model(r@) == ({
                let parsed = sp_parse_program(
                    old(self).toks(),
                    old(self).cursor(),
                    parse_fuel(old(self).toks().len()),
                );
                match old(self).lex_err() {
                    None => parsed,
                    Some(e) => sp_with_lex_failure(parsed, e),
                }
            }),
    {
        reveal(sp_parse_program);
        reveal(sp_parse_statement);
        let n = self.tokens.len();
        let fuel0: u64 = if (n as u64) > 0x1000_0000_0000u64 {
            0xffff_ffff_ffff_ffff
        } else {
            8 * (n as u64) + 32
        };
        let mut program: Program = Vec::new();
        let mut lf: u64 = fuel0;
        let ghost centry = sp_parse_program(self.toks(), self.cursor(), fuel0 as nat);
        loop
            invariant_except_break
                lf <= fuel0,
                ({
                    let s = sp_parse_program(self.toks(), self.cursor(), lf as nat);
                    centry == program_model(program@) + s
                }),
            invariant
                self.wf(),
                self.toks() == old(self).toks(),
                self.lex_err() == old(self).lex_err(),
            ensures
                program_model(program@) == centry,
            decreases lf,
        {
        reveal(sp_parse_program);
        reveal(sp_parse_statement);
            if matches!(self.cur(), Token::Eof) {
                proof {
                    assert(program_model(program@) + Seq::<Result<StmtM, ParseError>>::empty()
                        =~= program_model(program@));
                }
                break;
            }
            let ghost program_before = program@;
            if lf == 0 {
                program.push(Err(ParseError::TooDeep));
                proof {
                    assert(program_model(program@) =~= program_model(program_before) + seq![
                        Err::<StmtM, ParseError>(ParseError::TooDeep),
                    ]);
                }
                break;
            }
            let st = self.parse_statement(lf - 1);
            program.push(st);
            self.next_token();
            proof {
                let sm = program_model(program@).last();
                assert(program_model(program@) =~= program_model(program_before) + seq![sm]);
                let s = sp_parse_program(self.toks(), self.cursor(), (lf - 1) as nat);
                assert(program_model(program_before) + (seq![sm] + s) =~= program_model(program@)
                    + s);
            }
            lf = lf - 1;
        }
        if let Some(e) = self.lex_failure {
            let ghost parsed = program@;
            if program.len() > 0 {
                let last_is_err = program[program.len() - 1].is_err();
                if last_is_err {
                    program.pop();
                }
            }
            program.push(Err(ParseError::Lex(e)));
            proof {
                let pm = program_model(parsed);
                if parsed.len() > 0 && parsed.last() is Err {
                    assert(pm.last() is Err);
                    assert(program_model(program@) =~= pm.update(
                        pm.len() - 1,
                        Err(ParseError::Lex(e)),
                    ));
                } else {
                    if parsed.len() > 0 {
                        assert(!(pm.last() is Err));
                    }
                    assert(program_model(program@) =~= pm.push(Err(ParseError::Lex(e))));
                }
            }
        }
        program
    }
}

} // verus!
