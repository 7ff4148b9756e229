//! What the parser produces from a token sequence, stated as spec functions.
//!
//! A parse state is a position in the token sequence (past the end reads as
//! `Eof`) and the errors recorded so far. Each function takes a state and
//! gives its result and the state after. Where a function continues from the
//! state that another one left, it checks that the position moved forward;
//! the parser always moves forward (`lemma_expression_forward` and the lemmas
//! beside it), so those checks never end a parse early.
use crate::ast::{ExprV, StmtV};
use crate::token::{literal, TokenV};
use vstd::prelude::*;

verus! {

/// The model of a parse error: its message and the token where it arose.
pub struct ParseErrorV {
    pub message: Seq<char>,
    pub token: TokenV,
}

/// A parse state.
pub struct PState {
    pub pos: nat,
    pub errors: Seq<ParseErrorV>,
}

/// How tightly an operator binds, from the loosest to the tightest.
#[derive(Debug, PartialEq, Eq, Clone, Copy)]
pub enum Precedence {
    Lowest,
    Equals,
    LessGreater,
    Sum,
    Product,
    Prefix,
    Call,
}

impl Precedence {
    /// The rank of a precedence: 0 for `Lowest` up to 6 for `Call`.
    pub open spec fn rank(self) -> u8 {
        match self {
            Precedence::Lowest => 0,
            Precedence::Equals => 1,
            Precedence::LessGreater => 2,
            Precedence::Sum => 3,
            Precedence::Product => 4,
            Precedence::Prefix => 5,
            Precedence::Call => 6,
        }
    }

    /// The rank of the precedence (see [`Precedence::rank`]).
    pub fn level(&self) -> (r: u8)
        ensures
            r == self.rank(),
    {
        match self {
            Precedence::Lowest => 0,
            Precedence::Equals => 1,
            Precedence::LessGreater => 2,
            Precedence::Sum => 3,
            Precedence::Product => 4,
            Precedence::Prefix => 5,
            Precedence::Call => 6,
        }
    }
}

/// The binding power of a token in infix position.
pub open spec fn prec_of(t: TokenV) -> Precedence {
    match t {
        TokenV::Lparen => Precedence::Call,
        TokenV::Eq | TokenV::NotEq => Precedence::Equals,
        TokenV::LessThan | TokenV::GreaterThan => Precedence::LessGreater,
        TokenV::Plus | TokenV::Minus => Precedence::Sum,
        TokenV::Asterisk | TokenV::Slash => Precedence::Product,
        _ => Precedence::Lowest,
    }
}

/// The token at `p`; `Eof` past the end.
pub open spec fn tok(ts: Seq<TokenV>, p: int) -> TokenV {
    if 0 <= p < ts.len() {
        ts[p]
    } else {
        TokenV::Eof
    }
}

pub open spec fn cur(ts: Seq<TokenV>, st: PState) -> TokenV {
    tok(ts, st.pos as int)
}

pub open spec fn peek(ts: Seq<TokenV>, st: PState) -> TokenV {
    tok(ts, st.pos + 1int)
}

/// One token further, but not past the end.
pub open spec fn adv(ts: Seq<TokenV>, st: PState) -> PState {
    PState { pos: if st.pos < ts.len() { st.pos + 1 } else { st.pos }, errors: st.errors }
}

/// How many tokens are left from the current one on.
pub open spec fn rem(ts: Seq<TokenV>, st: PState) -> nat {
    if st.pos <= ts.len() {
        (ts.len() - st.pos) as nat
    } else {
        0
    }
}

pub open spec fn with_error(st: PState, message: Seq<char>, token: TokenV) -> PState {
    PState { pos: st.pos, errors: st.errors.push(ParseErrorV { message, token }) }
}

pub open spec fn push_opt(s: Seq<ExprV>, e: Option<Box<ExprV>>) -> Seq<ExprV> {
    match e {
        Some(b) => s.push(*b),
        None => s,
    }
}

/// An expression whose operators bind more tightly than `prec`.
pub open spec fn p_expression(ts: Seq<TokenV>, st: PState, prec: Precedence) -> (Option<Box<ExprV>>, PState)
    decreases rem(ts, st), 20int,
{
    let (left, st1) = match cur(ts, st) {
        TokenV::Ident(n) => (Some(Box::new(ExprV::Identifier(n))), st),
        TokenV::Int(v) => (Some(Box::new(ExprV::IntegerLiteral(v))), st),
        TokenV::True => (Some(Box::new(ExprV::BooleanLiteral(true))), st),
        TokenV::False => (Some(Box::new(ExprV::BooleanLiteral(false))), st),
        TokenV::Bang | TokenV::Minus => p_prefix(ts, st),
        TokenV::Lparen => p_grouped(ts, st),
        TokenV::If => p_if(ts, st),
        TokenV::Function => p_function(ts, st),
        _ => (None, st),
    };
    if left is None || rem(ts, st1) > rem(ts, st) {
        (left, st1)
    } else {
        p_infix_loop(ts, left, prec, st1)
    }
}

/// Folds infix operators and calls into `left` while the next one binds more
/// tightly than `prec`.
pub open spec fn p_infix_loop(ts: Seq<TokenV>, left: Option<Box<ExprV>>, prec: Precedence, st: PState) -> (
    Option<Box<ExprV>>,
    PState,
)
    decreases rem(ts, st), 19int,
{
    let pk = peek(ts, st);
    if pk is Semicolon || prec.rank() >= prec_of(pk).rank() || st.pos + 1 >= ts.len() {
        (left, st)
    } else {
        let (left1, st1) = if pk is Lparen {
            p_call(ts, left, st)
        } else {
            p_infix(ts, left, adv(ts, st))
        };
        if rem(ts, st1) >= rem(ts, st) {
            (left1, st1)
        } else {
            p_infix_loop(ts, left1, prec, st1)
        }
    }
}

/// An infix operator (the current token) and its right operand. Without a
/// right operand, an error is recorded and `left` comes back alone.
pub open spec fn p_infix(ts: Seq<TokenV>, left: Option<Box<ExprV>>, st: PState) -> (
    Option<Box<ExprV>>,
    PState,
)
    decreases rem(ts, st), 18int,
{
    if st.pos >= ts.len() {
        (left, st)
    } else {
        let t = cur(ts, st);
        let (right, st1) = p_expression(ts, adv(ts, st), prec_of(t));
        if right is None {
            (left, with_error(st1, "Expected expression after infix operator"@, cur(ts, st1)))
        } else {
            (Some(Box::new(ExprV::Infix { left, operator: literal(t), right })), st1)
        }
    }
}

/// A call of `left`: the current token is the callee's last, the next one `(`.
pub open spec fn p_call(ts: Seq<TokenV>, left: Option<Box<ExprV>>, st: PState) -> (
    Option<Box<ExprV>>,
    PState,
)
    decreases rem(ts, st), 18int,
{
    if st.pos >= ts.len() {
        (left, st)
    } else {
        let (args, st1) = p_call_args(ts, adv(ts, st));
        (Some(Box::new(ExprV::Call { function: left, arguments: args })), st1)
    }
}

/// The arguments of a call, from its `(` (the current token) to its `)`.
pub open spec fn p_call_args(ts: Seq<TokenV>, st: PState) -> (Seq<ExprV>, PState)
    decreases rem(ts, st), 17int,
{
    if st.pos >= ts.len() {
        (Seq::empty(), st)
    } else if peek(ts, st) is Rparen {
        (Seq::empty(), adv(ts, st))
    } else {
        let (e, st1) = p_expression(ts, adv(ts, st), Precedence::Lowest);
        let args = push_opt(Seq::empty(), e);
        if rem(ts, st1) > rem(ts, st) {
            (args, st1)
        } else {
            p_args_rest(ts, args, st1)
        }
    }
}

/// Further `, argument` pairs after `args`, then the closing `)`.
pub open spec fn p_args_rest(ts: Seq<TokenV>, args: Seq<ExprV>, st: PState) -> (Seq<ExprV>, PState)
    decreases rem(ts, st), 16int,
{
    if peek(ts, st) is Comma && st.pos + 1 < ts.len() {
        let (e, st1) = p_expression(ts, adv(ts, adv(ts, st)), Precedence::Lowest);
        let args1 = push_opt(args, e);
        if rem(ts, st1) >= rem(ts, st) {
            (args1, st1)
        } else {
            p_args_rest(ts, args1, st1)
        }
    } else if peek(ts, st) is Rparen {
        (args, adv(ts, st))
    } else {
        (args, st)
    }
}

/// A prefix operator (the current token) and its operand.
pub open spec fn p_prefix(ts: Seq<TokenV>, st: PState) -> (Option<Box<ExprV>>, PState)
    decreases rem(ts, st), 18int,
{
    if st.pos >= ts.len() {
        (None, st)
    } else {
        let t = cur(ts, st);
        let (right, st1) = p_expression(ts, adv(ts, st), Precedence::Prefix);
        let st2 = if right is None {
            with_error(st1, "Expected expression after prefix operator"@, cur(ts, st1))
        } else {
            st1
        };
        (Some(Box::new(ExprV::Prefix { operator: literal(t), right })), st2)
    }
}

/// An expression in parentheses; the current token is `(`.
pub open spec fn p_grouped(ts: Seq<TokenV>, st: PState) -> (Option<Box<ExprV>>, PState)
    decreases rem(ts, st), 18int,
{
    if st.pos >= ts.len() {
        (None, st)
    } else {
        let (e, st1) = p_expression(ts, adv(ts, st), Precedence::Lowest);
        if peek(ts, st1) is Rparen {
            (e, adv(ts, st1))
        } else {
            (e, st1)
        }
    }
}

/// An `if` expression; the current token is `if`.
pub open spec fn p_if(ts: Seq<TokenV>, st: PState) -> (Option<Box<ExprV>>, PState)
    decreases rem(ts, st), 18int,
{
    if st.pos >= ts.len() || !(peek(ts, st) is Lparen) {
        (None, st)
    } else {
        let (condition, st1) = p_expression(ts, adv(ts, st), Precedence::Lowest);
        if !(cur(ts, st1) is Rparen) || rem(ts, st1) > rem(ts, st) {
            (None, st1)
        } else {
            let st2 = adv(ts, st1);
            if !(cur(ts, st2) is Lbrace) {
                (None, st2)
            } else {
                let (consequence, st3) = p_block(ts, st2);
                if peek(ts, st3) is Else && rem(ts, st3) < rem(ts, st) {
                    let st4 = adv(ts, st3);
                    if peek(ts, st4) is Lbrace {
                        let (alternative, st5) = p_block(ts, adv(ts, st4));
                        (
                            Some(Box::new(ExprV::If { condition, consequence: Some(consequence), alternative: Some(alternative) })),
                            st5,
                        )
                    } else {
                        (
                            Some(Box::new(ExprV::If { condition, consequence: Some(consequence), alternative: None })),
                            st4,
                        )
                    }
                } else {
                    (
                        Some(Box::new(ExprV::If { condition, consequence: Some(consequence), alternative: None })),
                        st3,
                    )
                }
            }
        }
    }
}

/// Further `, name` pairs of a parameter list after `params`.
pub open spec fn p_params_rest(ts: Seq<TokenV>, params: Seq<ExprV>, st: PState) -> (Seq<ExprV>, PState)
    decreases rem(ts, st),
{
    if peek(ts, st) is Comma && st.pos + 1 < ts.len() {
        let st1 = adv(ts, adv(ts, st));
        p_params_rest(ts, params.push(ExprV::Identifier(literal(cur(ts, st1)))), st1)
    } else {
        (params, st)
    }
}

/// The parameters of a function literal; the current token is `(`. A list
/// that does not end in `)` gives no parameters.
pub open spec fn p_params(ts: Seq<TokenV>, st: PState) -> (Seq<ExprV>, PState) {
    if peek(ts, st) is Rparen {
        (Seq::empty(), adv(ts, st))
    } else {
        let st1 = adv(ts, st);
        let (params, st2) = p_params_rest(
            ts,
            seq![ExprV::Identifier(literal(cur(ts, st1)))],
            st1,
        );
        let st3 = adv(ts, st2);
        if cur(ts, st3) is Rparen {
            (params, st3)
        } else {
            (Seq::empty(), st3)
        }
    }
}

/// A function literal; the current token is `fn`. Without a body in braces
/// the body is empty.
pub open spec fn p_function(ts: Seq<TokenV>, st: PState) -> (Option<Box<ExprV>>, PState)
    decreases rem(ts, st), 18int,
{
    let st1 = adv(ts, st);
    if !(cur(ts, st1) is Lparen) || st.pos >= ts.len() {
        (None, st1)
    } else {
        let (parameters, st2) = p_params(ts, st1);
        if !(peek(ts, st2) is Lbrace) || rem(ts, st2) >= rem(ts, st) {
            (Some(Box::new(ExprV::Function { parameters, body: Some(Seq::empty()) })), st2)
        } else {
            let (body, st3) = p_block(ts, adv(ts, st2));
            (Some(Box::new(ExprV::Function { parameters, body: Some(body) })), st3)
        }
    }
}

/// The statements of a block from its `{` (the current token) up to its `}`
/// or the end of input.
pub open spec fn p_block(ts: Seq<TokenV>, st: PState) -> (Seq<StmtV>, PState)
    decreases rem(ts, st), 17int,
{
    if st.pos >= ts.len() {
        (Seq::empty(), st)
    } else {
        p_block_rest(ts, Seq::empty(), adv(ts, st))
    }
}

/// Further statements of a block after `stmts`.
pub open spec fn p_block_rest(ts: Seq<TokenV>, stmts: Seq<StmtV>, st: PState) -> (Seq<StmtV>, PState)
    decreases rem(ts, st), 24int,
{
    if cur(ts, st) is Rbrace || cur(ts, st) is Eof {
        (stmts, st)
    } else {
        let (r, st1) = p_statement(ts, st);
        let (stmts1, st2) = match r {
            Ok(s) => (stmts.push(s), adv(ts, st1)),
            Err(e) => (stmts, adv(ts, PState { pos: st1.pos, errors: st1.errors.push(e) })),
        };
        if rem(ts, st2) >= rem(ts, st) {
            (stmts1, st2)
        } else {
            p_block_rest(ts, stmts1, st2)
        }
    }
}

/// Skips to the next `;`, or to the end of input.
pub open spec fn skip_to_semicolon(ts: Seq<TokenV>, st: PState) -> PState
    decreases rem(ts, st),
{
    if cur(ts, st) is Semicolon || st.pos + 1 >= ts.len() {
        st
    } else {
        skip_to_semicolon(ts, adv(ts, st))
    }
}

/// A `let` statement; the current token is `let`.
pub open spec fn p_let(ts: Seq<TokenV>, st: PState) -> (Result<StmtV, ParseErrorV>, PState)
    decreases rem(ts, st), 21int,
{
    let st1 = adv(ts, st);
    match cur(ts, st1) {
        TokenV::Ident(name) => if !(peek(ts, st1) is Assign) {
            (
                Err(ParseErrorV { message: "Expected '=' after variable name"@, token: cur(ts, st1) }),
                st1,
            )
        } else if st.pos >= ts.len() {
            (Err(ParseErrorV { message: "Expected '=' after variable name"@, token: cur(ts, st1) }), st1)
        } else {
            let (value, st2) = p_expression(ts, adv(ts, adv(ts, st1)), Precedence::Lowest);
            (
                Ok(StmtV::Let { name: Some(Box::new(ExprV::Identifier(name))), value }),
                skip_to_semicolon(ts, st2),
            )
        },
        _ => (Err(ParseErrorV { message: "Expected identifier after 'let'"@, token: cur(ts, st1) }), st1),
    }
}

/// A `return` statement; the current token is `return`.
pub open spec fn p_return(ts: Seq<TokenV>, st: PState) -> (Result<StmtV, ParseErrorV>, PState)
    decreases rem(ts, st), 21int,
{
    if st.pos >= ts.len() {
        (Ok(StmtV::Return { value: None }), st)
    } else {
        let (value, st1) = p_expression(ts, adv(ts, st), Precedence::Lowest);
        let st2 = if peek(ts, st1) is Semicolon {
            adv(ts, st1)
        } else {
            st1
        };
        (Ok(StmtV::Return { value }), st2)
    }
}

/// An expression statement, with an optional `;` after it.
pub open spec fn p_expr_stmt(ts: Seq<TokenV>, st: PState) -> (Result<StmtV, ParseErrorV>, PState)
    decreases rem(ts, st), 21int,
{
    let (expression, st1) = p_expression(ts, st, Precedence::Lowest);
    let st2 = if peek(ts, st1) is Semicolon {
        adv(ts, st1)
    } else {
        st1
    };
    (Ok(StmtV::Expr { expression }), st2)
}

/// A statement.
pub open spec fn p_statement(ts: Seq<TokenV>, st: PState) -> (Result<StmtV, ParseErrorV>, PState)
    decreases rem(ts, st), 22int,
{
    match cur(ts, st) {
        TokenV::Let => p_let(ts, st),
        TokenV::Return => p_return(ts, st),
        _ => p_expr_stmt(ts, st),
    }
}

/// Further statements of a program after `stmts`, up to the end of input.
pub open spec fn p_program_rest(ts: Seq<TokenV>, stmts: Seq<StmtV>, st: PState) -> (Seq<StmtV>, PState)
    decreases rem(ts, st), 23int,
{
    if cur(ts, st) is Eof {
        (stmts, st)
    } else {
        let (r, st1) = p_statement(ts, st);
        let (stmts1, st2) = match r {
            Ok(s) => (stmts.push(s), adv(ts, st1)),
            Err(e) => (stmts, adv(ts, PState { pos: st1.pos, errors: st1.errors.push(e) })),
        };
        if rem(ts, st2) >= rem(ts, st) {
            (stmts1, st2)
        } else {
            p_program_rest(ts, stmts1, st2)
        }
    }
}

/// A whole program: its statements and the parse errors, in order.
pub open spec fn parse(ts: Seq<TokenV>) -> (Seq<StmtV>, Seq<ParseErrorV>) {
    let (stmts, st) = p_program_rest(ts, Seq::empty(), PState { pos: 0, errors: Seq::empty() });
    (stmts, st.errors)
}


/// From a state within the tokens, `st1` lies at or after `st` and still
/// within the tokens.
pub open spec fn moves_forward(ts: Seq<TokenV>, st: PState, st1: PState) -> bool {
    st.pos <= ts.len() ==> st.pos <= st1.pos <= ts.len()
}

// The lemmas below show that every parse function moves forward. So each
// progress check of this module (`rem(ts, st1) > rem(ts, st)` and the like)
// compares a state with one that a sub-parse moved forward from it, or from
// a token after it, and never ends a parse early; the loop lemmas state it.

pub proof fn lemma_expression_forward(ts: Seq<TokenV>, st: PState, prec: Precedence)
    ensures
        moves_forward(ts, st, p_expression(ts, st, prec).1),
    decreases rem(ts, st), 20int,
{
    let (left, st1) = match cur(ts, st) {
        TokenV::Ident(n) => (Some(Box::new(ExprV::Identifier(n))), st),
        TokenV::Int(v) => (Some(Box::new(ExprV::IntegerLiteral(v))), st),
        TokenV::True => (Some(Box::new(ExprV::BooleanLiteral(true))), st),
        TokenV::False => (Some(Box::new(ExprV::BooleanLiteral(false))), st),
        TokenV::Bang | TokenV::Minus => {
            lemma_prefix_forward(ts, st);
            p_prefix(ts, st)
        },
        TokenV::Lparen => {
            lemma_grouped_forward(ts, st);
            p_grouped(ts, st)
        },
        TokenV::If => {
            lemma_if_forward(ts, st);
            p_if(ts, st)
        },
        TokenV::Function => {
            lemma_function_forward(ts, st);
            p_function(ts, st)
        },
        _ => (None, st),
    };
    if !(left is None || rem(ts, st1) > rem(ts, st)) {
        lemma_infix_loop_forward(ts, left, prec, st1);
    }
}

/// Each step of the infix loop moves strictly forward.
pub proof fn lemma_infix_loop_forward(
    ts: Seq<TokenV>,
    left: Option<Box<ExprV>>,
    prec: Precedence,
    st: PState,
)
    ensures
        moves_forward(ts, st, p_infix_loop(ts, left, prec, st).1),
        ({
            let pk = peek(ts, st);
            st.pos <= ts.len() && !(pk is Semicolon || prec.rank() >= prec_of(pk).rank() || st.pos
                + 1 >= ts.len()) ==> rem(
                ts,
                (if pk is Lparen {
                    p_call(ts, left, st)
                } else {
                    p_infix(ts, left, adv(ts, st))
                }).1,
            ) < rem(ts, st)
        }),
    decreases rem(ts, st), 19int,
{
    let pk = peek(ts, st);
    if !(pk is Semicolon || prec.rank() >= prec_of(pk).rank() || st.pos + 1 >= ts.len()) {
        let (left1, st1) = if pk is Lparen {
            lemma_call_forward(ts, left, st);
            p_call(ts, left, st)
        } else {
            lemma_infix_forward(ts, left, adv(ts, st));
            p_infix(ts, left, adv(ts, st))
        };
        if rem(ts, st1) < rem(ts, st) {
            lemma_infix_loop_forward(ts, left1, prec, st1);
        }
    }
}

pub proof fn lemma_infix_forward(ts: Seq<TokenV>, left: Option<Box<ExprV>>, st: PState)
    ensures
        moves_forward(ts, st, p_infix(ts, left, st).1),
    decreases rem(ts, st), 18int,
{
    if st.pos < ts.len() {
        lemma_expression_forward(ts, adv(ts, st), prec_of(cur(ts, st)));
    }
}

/// A call moves at least past its `(`.
pub proof fn lemma_call_forward(ts: Seq<TokenV>, left: Option<Box<ExprV>>, st: PState)
    ensures
        moves_forward(ts, st, p_call(ts, left, st).1),
        st.pos < ts.len() ==> p_call(ts, left, st).1.pos > st.pos,
    decreases rem(ts, st), 18int,
{
    if st.pos < ts.len() {
        lemma_call_args_forward(ts, adv(ts, st));
    }
}

pub proof fn lemma_call_args_forward(ts: Seq<TokenV>, st: PState)
    ensures
        moves_forward(ts, st, p_call_args(ts, st).1),
    decreases rem(ts, st), 17int,
{
    if st.pos < ts.len() && !(peek(ts, st) is Rparen) {
        lemma_expression_forward(ts, adv(ts, st), Precedence::Lowest);
        let (e, st1) = p_expression(ts, adv(ts, st), Precedence::Lowest);
        if rem(ts, st1) <= rem(ts, st) {
            lemma_args_rest_forward(ts, push_opt(Seq::empty(), e), st1);
        }
    }
}

/// Each further argument moves strictly forward.
pub proof fn lemma_args_rest_forward(ts: Seq<TokenV>, args: Seq<ExprV>, st: PState)
    ensures
        moves_forward(ts, st, p_args_rest(ts, args, st).1),
        st.pos <= ts.len() && peek(ts, st) is Comma && st.pos + 1 < ts.len() ==> rem(
            ts,
            p_expression(ts, adv(ts, adv(ts, st)), Precedence::Lowest).1,
        ) < rem(ts, st),
    decreases rem(ts, st), 16int,
{
    if peek(ts, st) is Comma && st.pos + 1 < ts.len() {
        lemma_expression_forward(ts, adv(ts, adv(ts, st)), Precedence::Lowest);
        let (e, st1) = p_expression(ts, adv(ts, adv(ts, st)), Precedence::Lowest);
        if rem(ts, st1) < rem(ts, st) {
            lemma_args_rest_forward(ts, push_opt(args, e), st1);
        }
    }
}

pub proof fn lemma_prefix_forward(ts: Seq<TokenV>, st: PState)
    ensures
        moves_forward(ts, st, p_prefix(ts, st).1),
    decreases rem(ts, st), 18int,
{
    if st.pos < ts.len() {
        lemma_expression_forward(ts, adv(ts, st), Precedence::Prefix);
    }
}

pub proof fn lemma_grouped_forward(ts: Seq<TokenV>, st: PState)
    ensures
        moves_forward(ts, st, p_grouped(ts, st).1),
    decreases rem(ts, st), 18int,
{
    if st.pos < ts.len() {
        lemma_expression_forward(ts, adv(ts, st), Precedence::Lowest);
    }
}

/// The checks of `p_if` on the condition and on the consequence never fire.
pub proof fn lemma_if_forward(ts: Seq<TokenV>, st: PState)
    ensures
        moves_forward(ts, st, p_if(ts, st).1),
        st.pos < ts.len() ==> rem(ts, p_expression(ts, adv(ts, st), Precedence::Lowest).1) < rem(
            ts,
            st,
        ),
        st.pos < ts.len() ==> rem(
            ts,
            p_block(ts, adv(ts, p_expression(ts, adv(ts, st), Precedence::Lowest).1)).1,
        ) < rem(ts, st),
    decreases rem(ts, st), 18int,
{
    if st.pos < ts.len() {
        lemma_expression_forward(ts, adv(ts, st), Precedence::Lowest);
        let (condition, st1) = p_expression(ts, adv(ts, st), Precedence::Lowest);
        let st2 = adv(ts, st1);
        lemma_block_forward(ts, st2);
        if peek(ts, st) is Lparen && cur(ts, st1) is Rparen && cur(ts, st2) is Lbrace {
            let (consequence, st3) = p_block(ts, st2);
            let st4 = adv(ts, st3);
            if peek(ts, st3) is Else && peek(ts, st4) is Lbrace {
                lemma_block_forward(ts, adv(ts, st4));
            }
        }
    }
}

pub proof fn lemma_params_rest_forward(ts: Seq<TokenV>, params: Seq<ExprV>, st: PState)
    ensures
        moves_forward(ts, st, p_params_rest(ts, params, st).1),
    decreases rem(ts, st),
{
    if peek(ts, st) is Comma && st.pos + 1 < ts.len() {
        let st1 = adv(ts, adv(ts, st));
        lemma_params_rest_forward(ts, params.push(ExprV::Identifier(literal(cur(ts, st1)))), st1);
    }
}

pub proof fn lemma_params_forward(ts: Seq<TokenV>, st: PState)
    ensures
        moves_forward(ts, st, p_params(ts, st).1),
{
    let st1 = adv(ts, st);
    lemma_params_rest_forward(ts, seq![ExprV::Identifier(literal(cur(ts, st1)))], st1);
}

/// The check of `p_function` on its parameter list never fires.
pub proof fn lemma_function_forward(ts: Seq<TokenV>, st: PState)
    ensures
        moves_forward(ts, st, p_function(ts, st).1),
        st.pos < ts.len() ==> rem(ts, p_params(ts, adv(ts, st)).1) < rem(ts, st),
    decreases rem(ts, st), 18int,
{
    let st1 = adv(ts, st);
    lemma_params_forward(ts, st1);
    if st.pos < ts.len() && cur(ts, st1) is Lparen {
        let (parameters, st2) = p_params(ts, st1);
        if peek(ts, st2) is Lbrace && rem(ts, st2) < rem(ts, st) {
            lemma_block_forward(ts, adv(ts, st2));
        }
    }
}

pub proof fn lemma_block_forward(ts: Seq<TokenV>, st: PState)
    ensures
        moves_forward(ts, st, p_block(ts, st).1),
    decreases rem(ts, st), 17int,
{
    if st.pos < ts.len() {
        lemma_block_rest_forward(ts, Seq::empty(), adv(ts, st));
    }
}

/// Each statement of a block moves strictly forward.
pub proof fn lemma_block_rest_forward(ts: Seq<TokenV>, stmts: Seq<StmtV>, st: PState)
    ensures
        moves_forward(ts, st, p_block_rest(ts, stmts, st).1),
        st.pos <= ts.len() && !(cur(ts, st) is Rbrace || cur(ts, st) is Eof) ==> rem(
            ts,
            adv(ts, p_statement(ts, st).1),
        ) < rem(ts, st),
    decreases rem(ts, st), 24int,
{
    if !(cur(ts, st) is Rbrace || cur(ts, st) is Eof) {
        lemma_statement_forward(ts, st);
        let (r, st1) = p_statement(ts, st);
        let (stmts1, st2) = match r {
            Ok(s) => (stmts.push(s), adv(ts, st1)),
            Err(e) => (stmts, adv(ts, PState { pos: st1.pos, errors: st1.errors.push(e) })),
        };
        if rem(ts, st2) < rem(ts, st) {
            lemma_block_rest_forward(ts, stmts1, st2);
        }
    }
}

pub proof fn lemma_skip_forward(ts: Seq<TokenV>, st: PState)
    ensures
        moves_forward(ts, st, skip_to_semicolon(ts, st)),
    decreases rem(ts, st),
{
    if !(cur(ts, st) is Semicolon || st.pos + 1 >= ts.len()) {
        lemma_skip_forward(ts, adv(ts, st));
    }
}

pub proof fn lemma_let_forward(ts: Seq<TokenV>, st: PState)
    ensures
        moves_forward(ts, st, p_let(ts, st).1),
    decreases rem(ts, st), 21int,
{
    let st1 = adv(ts, st);
    if cur(ts, st1) is Ident && peek(ts, st1) is Assign && st.pos < ts.len() {
        lemma_expression_forward(ts, adv(ts, adv(ts, st1)), Precedence::Lowest);
        lemma_skip_forward(ts, p_expression(ts, adv(ts, adv(ts, st1)), Precedence::Lowest).1);
    }
}

pub proof fn lemma_return_forward(ts: Seq<TokenV>, st: PState)
    ensures
        moves_forward(ts, st, p_return(ts, st).1),
    decreases rem(ts, st), 21int,
{
    if st.pos < ts.len() {
        lemma_expression_forward(ts, adv(ts, st), Precedence::Lowest);
    }
}

pub proof fn lemma_expr_stmt_forward(ts: Seq<TokenV>, st: PState)
    ensures
        moves_forward(ts, st, p_expr_stmt(ts, st).1),
    decreases rem(ts, st), 21int,
{
    lemma_expression_forward(ts, st, Precedence::Lowest);
}

pub proof fn lemma_statement_forward(ts: Seq<TokenV>, st: PState)
    ensures
        moves_forward(ts, st, p_statement(ts, st).1),
    decreases rem(ts, st), 22int,
{
    match cur(ts, st) {
        TokenV::Let => lemma_let_forward(ts, st),
        TokenV::Return => lemma_return_forward(ts, st),
        _ => lemma_expr_stmt_forward(ts, st),
    }
}

/// Each statement of a program moves strictly forward.
pub proof fn lemma_program_rest_forward(ts: Seq<TokenV>, stmts: Seq<StmtV>, st: PState)
    ensures
        moves_forward(ts, st, p_program_rest(ts, stmts, st).1),
        st.pos <= ts.len() && !(cur(ts, st) is Eof) ==> rem(ts, adv(ts, p_statement(ts, st).1))
            < rem(ts, st),
    decreases rem(ts, st), 23int,
{
    if !(cur(ts, st) is Eof) {
        lemma_statement_forward(ts, st);
        let (r, st1) = p_statement(ts, st);
        let (stmts1, st2) = match r {
            Ok(s) => (stmts.push(s), adv(ts, st1)),
            Err(e) => (stmts, adv(ts, PState { pos: st1.pos, errors: st1.errors.push(e) })),
        };
        if rem(ts, st2) < rem(ts, st) {
            lemma_program_rest_forward(ts, stmts1, st2);
        }
    }
}

/// An identifier or an integer literal token.
pub open spec fn is_operand(t: TokenV) -> bool {
    t is Ident || t is Int
}

/// A binary operator token: `+ - * / < > == !=`.
pub open spec fn is_binary(t: TokenV) -> bool {
    1 <= prec_of(t).rank() <= 4
}

/// The expression that an operand token stands for.
pub open spec fn operand_v(t: TokenV) -> ExprV {
    match t {
        TokenV::Ident(n) => ExprV::Identifier(n),
        TokenV::Int(v) => ExprV::IntegerLiteral(v),
        _ => ExprV::BooleanLiteral(false),
    }
}

pub open spec fn infix_v(l: ExprV, op: TokenV, r: ExprV) -> ExprV {
    ExprV::Infix { left: Some(Box::new(l)), operator: literal(op), right: Some(Box::new(r)) }
}

pub open spec fn at(p: nat) -> PState {
    PState { pos: p, errors: Seq::empty() }
}

/// `a o1 b o2 c` parses as `(a o1 b) o2 c` when `o1` binds at least as tightly
/// as `o2` (so operators of one precedence associate to the left), and as
/// `a o1 (b o2 c)` when `o2` binds more tightly; no error is recorded.
pub proof fn lemma_binary_precedence(a: TokenV, o1: TokenV, b: TokenV, o2: TokenV, c: TokenV)
    requires
        is_operand(a),
        is_operand(b),
        is_operand(c),
        is_binary(o1),
        is_binary(o2),
    ensures
        ({
            let ts = seq![a, o1, b, o2, c, TokenV::Eof];
            let (av, bv, cv) = (operand_v(a), operand_v(b), operand_v(c));
            let e = if prec_of(o1).rank() >= prec_of(o2).rank() {
                infix_v(infix_v(av, o1, bv), o2, cv)
            } else {
                infix_v(av, o1, infix_v(bv, o2, cv))
            };
            parse(ts) == (seq![StmtV::Expr { expression: Some(Box::new(e)) }], Seq::<ParseErrorV>::empty())
        }),
{
    let ts = seq![a, o1, b, o2, c, TokenV::Eof];
    let (av, bv, cv) = (operand_v(a), operand_v(b), operand_v(c));
    let (first, second) = (prec_of(o1), prec_of(o2));
    assert(p_infix_loop(ts, Some(Box::new(cv)), second, at(4)) == (Some(Box::new(cv)), at(4)));
    assert(p_expression(ts, at(4), second) == (Some(Box::new(cv)), at(4)));
    let bc = infix_v(bv, o2, cv);
    assert(p_infix(ts, Some(Box::new(bv)), at(3)) == (Some(Box::new(bc)), at(4)));
    let e = if first.rank() >= second.rank() {
        let ab = infix_v(av, o1, bv);
        assert(p_infix_loop(ts, Some(Box::new(bv)), first, at(2)) == (Some(Box::new(bv)), at(2)));
        assert(p_expression(ts, at(2), first) == (Some(Box::new(bv)), at(2)));
        assert(p_infix(ts, Some(Box::new(av)), at(1)) == (Some(Box::new(ab)), at(2)));
        let abc = infix_v(ab, o2, cv);
        assert(p_infix(ts, Some(Box::new(ab)), at(3)) == (Some(Box::new(abc)), at(4)));
        assert(p_infix_loop(ts, Some(Box::new(abc)), Precedence::Lowest, at(4)) == (Some(Box::new(abc)), at(4)));
        assert(p_infix_loop(ts, Some(Box::new(ab)), Precedence::Lowest, at(2)) == (Some(Box::new(abc)), at(4)));
        assert(p_infix_loop(ts, Some(Box::new(av)), Precedence::Lowest, at(0)) == (Some(Box::new(abc)), at(4)));
        abc
    } else {
        assert(p_infix_loop(ts, Some(Box::new(bc)), first, at(4)) == (Some(Box::new(bc)), at(4)));
        assert(p_infix_loop(ts, Some(Box::new(bv)), first, at(2)) == (Some(Box::new(bc)), at(4)));
        assert(p_expression(ts, at(2), first) == (Some(Box::new(bc)), at(4)));
        let abc = infix_v(av, o1, bc);
        assert(p_infix(ts, Some(Box::new(av)), at(1)) == (Some(Box::new(abc)), at(4)));
        assert(p_infix_loop(ts, Some(Box::new(abc)), Precedence::Lowest, at(4)) == (Some(Box::new(abc)), at(4)));
        assert(p_infix_loop(ts, Some(Box::new(av)), Precedence::Lowest, at(0)) == (Some(Box::new(abc)), at(4)));
        abc
    };
    assert(p_expression(ts, at(0), Precedence::Lowest) == (Some(Box::new(e)), at(4)));
    let st = StmtV::Expr { expression: Some(Box::new(e)) };
    assert(p_expr_stmt(ts, at(0)) == (Ok::<StmtV, ParseErrorV>(st), at(4)));
    assert(p_statement(ts, at(0)) == (Ok::<StmtV, ParseErrorV>(st), at(4)));
    assert(p_program_rest(ts, seq![st], at(5)) == (seq![st], at(5)));
    assert(Seq::<StmtV>::empty().push(st) == seq![st]);
    assert(p_program_rest(ts, Seq::empty(), at(0)) == (seq![st], at(5)));
}


/// A prefix operator binds more tightly than any binary operator:
/// `p a o b` parses as `(p a) o b`; no error is recorded.
pub proof fn lemma_prefix_binds_tightest(p: TokenV, a: TokenV, o: TokenV, b: TokenV)
    requires
        p is Bang || p is Minus,
        is_operand(a),
        is_operand(b),
        is_binary(o),
    ensures
        ({
            let ts = seq![p, a, o, b, TokenV::Eof];
            let pa = ExprV::Prefix { operator: literal(p), right: Some(Box::new(operand_v(a))) };
            parse(ts) == (
                seq![StmtV::Expr { expression: Some(Box::new(infix_v(pa, o, operand_v(b)))) }],
                Seq::<ParseErrorV>::empty(),
            )
        }),
{
    let ts = seq![p, a, o, b, TokenV::Eof];
    let (av, bv) = (operand_v(a), operand_v(b));
    let pa = ExprV::Prefix { operator: literal(p), right: Some(Box::new(av)) };
    let e = infix_v(pa, o, bv);
    assert(p_infix_loop(ts, Some(Box::new(av)), Precedence::Prefix, at(1)) == (Some(Box::new(av)), at(1)));
    assert(p_expression(ts, at(1), Precedence::Prefix) == (Some(Box::new(av)), at(1)));
    assert(p_prefix(ts, at(0)) == (Some(Box::new(pa)), at(1)));
    assert(p_infix_loop(ts, Some(Box::new(bv)), prec_of(o), at(3)) == (Some(Box::new(bv)), at(3)));
    assert(p_expression(ts, at(3), prec_of(o)) == (Some(Box::new(bv)), at(3)));
    assert(p_infix(ts, Some(Box::new(pa)), at(2)) == (Some(Box::new(e)), at(3)));
    assert(p_infix_loop(ts, Some(Box::new(e)), Precedence::Lowest, at(3)) == (Some(Box::new(e)), at(3)));
    assert(p_infix_loop(ts, Some(Box::new(pa)), Precedence::Lowest, at(1)) == (Some(Box::new(e)), at(3)));
    assert(p_expression(ts, at(0), Precedence::Lowest) == (Some(Box::new(e)), at(3)));
    let st = StmtV::Expr { expression: Some(Box::new(e)) };
    assert(p_expr_stmt(ts, at(0)) == (Ok::<StmtV, ParseErrorV>(st), at(3)));
    assert(p_statement(ts, at(0)) == (Ok::<StmtV, ParseErrorV>(st), at(3)));
    assert(p_program_rest(ts, seq![st], at(4)) == (seq![st], at(4)));
    assert(Seq::<StmtV>::empty().push(st) == seq![st]);
    assert(p_program_rest(ts, Seq::empty(), at(0)) == (seq![st], at(4)));
}


/// The tokens `xs[0] ops[0] xs[1] ops[1] ... xs[n]` followed by `Eof`.
pub open spec fn chain(xs: Seq<TokenV>, ops: Seq<TokenV>) -> Seq<TokenV> {
    Seq::new(
        (2 * ops.len() + 2) as nat,
        |i: int|
            if i == 2 * ops.len() + 1 {
                TokenV::Eof
            } else if i % 2 == 0 {
                xs[i / 2]
            } else {
                ops[i / 2]
            },
    )
}

/// The left-nested tree `((xs[0] ops[0] xs[1]) ops[1] xs[2]) ...` of the first
/// `k + 1` operands.
pub open spec fn left_nested(xs: Seq<TokenV>, ops: Seq<TokenV>, k: int) -> ExprV
    decreases k,
{
    if k <= 0 {
        operand_v(xs[0])
    } else {
        infix_v(left_nested(xs, ops, k - 1), ops[k - 1], operand_v(xs[k]))
    }
}

proof fn lemma_chain_operand(xs: Seq<TokenV>, ops: Seq<TokenV>, k: int)
    requires
        xs.len() == ops.len() + 1,
        0 <= k < ops.len(),
        forall|i: int| 0 <= i < xs.len() ==> is_operand(#[trigger] xs[i]),
        forall|i: int| 0 <= i < ops.len() ==> #[trigger] prec_of(ops[i]) == prec_of(ops[0]),
        is_binary(ops[0]),
    ensures
        p_expression(chain(xs, ops), at((2 * k + 2) as nat), prec_of(ops[k])) == (
            Some(Box::new(operand_v(xs[k + 1]))),
            at((2 * k + 2) as nat),
        ),
{
    let ts = chain(xs, ops);
    let st = at((2 * k + 2) as nat);
    assert(cur(ts, st) == xs[k + 1]) by {
        assert((2 * k + 2) / 2 == k + 1);
    }
    if k + 1 < ops.len() {
        assert(peek(ts, st) == ops[k + 1]) by {
            assert((2 * k + 3) / 2 == k + 1);
            assert((2 * k + 3) % 2 == 1);
        }
    } else {
        assert(peek(ts, st) == TokenV::Eof);
    }
    assert(p_infix_loop(ts, Some(Box::new(operand_v(xs[k + 1]))), prec_of(ops[k]), st) == (
        Some(Box::new(operand_v(xs[k + 1]))),
        st,
    ));
}

proof fn lemma_chain_loop(xs: Seq<TokenV>, ops: Seq<TokenV>, k: int)
    requires
        xs.len() == ops.len() + 1,
        0 <= k <= ops.len(),
        forall|i: int| 0 <= i < xs.len() ==> is_operand(#[trigger] xs[i]),
        forall|i: int| 0 <= i < ops.len() ==> #[trigger] prec_of(ops[i]) == prec_of(ops[0]),
        ops.len() > 0 ==> is_binary(ops[0]),
    ensures
        p_infix_loop(
            chain(xs, ops),
            Some(Box::new(left_nested(xs, ops, k))),
            Precedence::Lowest,
            at((2 * k) as nat),
        ) == (Some(Box::new(left_nested(xs, ops, ops.len() as int))), at((2 * ops.len()) as nat)),
    decreases ops.len() - k,
{
    let ts = chain(xs, ops);
    let st = at((2 * k) as nat);
    if k == ops.len() {
        assert(peek(ts, st) == TokenV::Eof);
    } else {
        assert(peek(ts, st) == ops[k]) by {
            assert((2 * k + 1) / 2 == k);
            assert((2 * k + 1) % 2 == 1);
        }
        assert(cur(ts, at((2 * k + 1) as nat)) == ops[k]) by {
            assert((2 * k + 1) / 2 == k);
            assert((2 * k + 1) % 2 == 1);
        }
        lemma_chain_operand(xs, ops, k);
        assert(p_infix(ts, Some(Box::new(left_nested(xs, ops, k))), at((2 * k + 1) as nat)) == (
            Some(Box::new(left_nested(xs, ops, k + 1))),
            at((2 * k + 2) as nat),
        ));
        lemma_chain_loop(xs, ops, k + 1);
    }
}

/// Binary operators of one precedence associate to the left, however long
/// the chain: `x0 o0 x1 o1 ... xn` parses as `((x0 o0 x1) o1 x2) ...`, with
/// no error recorded.
pub proof fn lemma_equal_precedence_associates_left(xs: Seq<TokenV>, ops: Seq<TokenV>)
    requires
        xs.len() == ops.len() + 1,
        forall|i: int| 0 <= i < xs.len() ==> is_operand(#[trigger] xs[i]),
        forall|i: int| 0 <= i < ops.len() ==> is_binary(#[trigger] ops[i]),
        forall|i: int| 0 <= i < ops.len() ==> #[trigger] prec_of(ops[i]) == prec_of(ops[0]),
    ensures
        parse(chain(xs, ops)) == (
            seq![StmtV::Expr { expression: Some(Box::new(left_nested(xs, ops, ops.len() as int))) }],
            Seq::<ParseErrorV>::empty(),
        ),
{
    let ts = chain(xs, ops);
    let n = ops.len();
    if n > 0 {
        assert(is_binary(ops[0]));
    }
    assert(cur(ts, at(0)) == xs[0]);
    lemma_chain_loop(xs, ops, 0);
    let e = left_nested(xs, ops, n as int);
    assert(p_expression(ts, at(0), Precedence::Lowest) == (Some(Box::new(e)), at((2 * n) as nat)));
    assert(peek(ts, at((2 * n) as nat)) == TokenV::Eof);
    let st = StmtV::Expr { expression: Some(Box::new(e)) };
    assert(p_expr_stmt(ts, at(0)) == (Ok::<StmtV, ParseErrorV>(st), at((2 * n) as nat)));
    assert(p_statement(ts, at(0)) == (Ok::<StmtV, ParseErrorV>(st), at((2 * n) as nat)));
    assert(cur(ts, at((2 * n + 1) as nat)) == TokenV::Eof);
    assert(p_program_rest(ts, seq![st], at((2 * n + 1) as nat)) == (
        seq![st],
        at((2 * n + 1) as nat),
    ));
    assert(Seq::<StmtV>::empty().push(st) == seq![st]);
    assert(p_program_rest(ts, Seq::empty(), at(0)) == (seq![st], at((2 * n + 1) as nat)));
}

} // verus!
