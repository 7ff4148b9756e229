//! The parser: a Pratt parser from tokens to a [`Program`], recording parse
//! errors as it goes (see [`crate::grammar`] for what it produces).
use crate::ast::{
    exprs_v, lemma_exprs_v_push, lemma_stmts_v_push, opt_expr_v, stmt_v, stmts_v, BlockStatement,
    ExpressionType, Program, StatementType, StmtV,
};
use crate::grammar::{
    adv, cur, p_args_rest, p_block, p_block_rest, p_call, p_call_args, p_expr_stmt, p_expression,
    p_function, p_grouped, p_if, p_infix, p_infix_loop, p_let, p_params, p_params_rest, p_prefix,
    p_program_rest, p_return, p_statement, parse, peek, prec_of, push_opt, rem,
    skip_to_semicolon, ParseErrorV, PState, Precedence,
};
use crate::lexer::{lemma_lex_step_progress, lex_step, tokens_from, Lexer};
use crate::text::string_of;
use crate::token::{Token, TokenV};
use vstd::prelude::*;

verus! {

/// A parse error: its message and the token where it arose.
#[derive(Debug)]
pub struct ParseError {
    pub message: String,
    pub token: Token,
}

impl View for ParseError {
    type V = ParseErrorV;

    open spec fn view(&self) -> ParseErrorV {
        ParseErrorV { message: self.message@, token: self.token@ }
    }
}

pub open spec fn errors_v(s: Seq<ParseError>) -> Seq<ParseErrorV> {
    s.map_values(|e: ParseError| e@)
}

pub open spec fn tokens_v(s: Seq<Token>) -> Seq<TokenV> {
    s.map_values(|t: Token| t@)
}

pub open spec fn stmt_result_v(r: Result<StatementType, ParseError>) -> Result<StmtV, ParseErrorV> {
    match r {
        Ok(s) => Ok(stmt_v(s)),
        Err(e) => Err(e@),
    }
}

/// The statements and the parse errors of a source text.
pub open spec fn parse_source(s: Seq<char>) -> (Seq<StmtV>, Seq<ParseErrorV>) {
    parse(tokens_from(s, 0))
}


/// The precedence of a token in infix position (see [`prec_of`]).
fn precedence(t: &Token) -> (r: Precedence)
    ensures
        r == prec_of(t@),
{
    match t {
        Token::Lparen => Precedence::Call,
        Token::Eq | Token::NotEq => Precedence::Equals,
        Token::LessThan | Token::GreaterThan => Precedence::LessGreater,
        Token::Plus | Token::Minus => Precedence::Sum,
        Token::Asterisk | Token::Slash => Precedence::Product,
        _ => Precedence::Lowest,
    }
}

/// A parser over the tokens of one source text.
pub struct Parser {
    tokens: Vec<Token>,
    position: usize,
    pub errors: Vec<ParseError>,
}

impl Parser {
    /// The tokens being parsed.
    pub closed spec fn token_seq(&self) -> Seq<TokenV> {
        tokens_v(self.tokens@)
    }

    /// The parse state: the position, and the errors so far.
    pub closed spec fn state(&self) -> PState {
        PState { pos: self.position as nat, errors: errors_v(self.errors@) }
    }

    pub closed spec fn wf(&self) -> bool {
        self.position <= self.tokens.len()
    }

    /// A parser over the tokens that `lexer` gives from where it stands.
    pub fn new(lexer: Lexer) -> (r: Parser)
        requires
            lexer.pos() <= lexer.source().len(),
        ensures
            r.wf(),
            r.token_seq() == tokens_from(lexer.source(), lexer.pos()),
            r.state() == (PState { pos: 0, errors: Seq::empty() }),
    {
        let mut lexer = lexer;
        let ghost src = lexer.source();
        let ghost start = lexer.pos();
        let mut tokens: Vec<Token> = Vec::new();
        let mut done = false;
        while !done
            invariant
                lexer.source() == src,
                lexer.pos() <= src.len(),
                !done ==> tokens_v(tokens@) + tokens_from(src, lexer.pos()) == tokens_from(src, start),
                done ==> tokens_v(tokens@) == tokens_from(src, start),
            decreases src.len() - lexer.pos() + if done {
                0int
            } else {
                1int
            },
        {
            let before = lexer.position();
            proof {
                lemma_lex_step_progress(src, before as int);
            }
            let t = lexer.next_token();
            let after = lexer.position();
            let ghost rest = tokens_from(src, before as int);
            proof {
                assert(tokens_v(tokens@.push(t)) =~= tokens_v(tokens@).push(t@));
            }
            if matches!(t, Token::Eof) && after >= lexer.source_len() {
                tokens.push(t);
                done = true;
                proof {
                    assert(rest == seq![tokens_v(tokens@).last()]);
                    assert(tokens_v(tokens@) =~= tokens_v(tokens@.drop_last()) + rest);
                }
            } else {
                tokens.push(t);
                proof {
                    assert(rest == seq![tokens_v(tokens@).last()] + tokens_from(src, after as int));
                    assert(tokens_v(tokens@) + tokens_from(src, after as int) =~= tokens_v(
                        tokens@.drop_last(),
                    ) + rest);
                }
            }
        }
        let errors: Vec<ParseError> = Vec::new();
        let r = Parser { tokens, position: 0, errors };
        assert(errors_v(r.errors@) =~= Seq::<ParseErrorV>::empty());
        r
    }

    fn cur_token(&self) -> (t: Token)
        requires
            self.wf(),
        ensures
            t@ == cur(self.token_seq(), self.state()),
    {
        if self.position < self.tokens.len() {
            self.tokens[self.position].duplicate()
        } else {
            Token::Eof
        }
    }

    fn peek_token(&self) -> (t: Token)
        requires
            self.wf(),
        ensures
            t@ == peek(self.token_seq(), self.state()),
    {
        if self.position < self.tokens.len() && self.position + 1 < self.tokens.len() {
            self.tokens[self.position + 1].duplicate()
        } else {
            Token::Eof
        }
    }

    /// Whether a token follows the current one.
    fn has_next(&self) -> (r: bool)
        requires
            self.wf(),
        ensures
            r == (self.state().pos + 1 < self.token_seq().len()),
    {
        self.position < self.tokens.len() && self.position + 1 < self.tokens.len()
    }

    /// Moves one token further, but not past the end.
    pub fn next_token(&mut self)
        requires
            old(self).wf(),
        ensures
            final(self).wf(),
            final(self).token_seq() == old(self).token_seq(),
            final(self).state() == adv(old(self).token_seq(), old(self).state()),
    {
        if self.position < self.tokens.len() {
            self.position = self.position + 1;
        }
    }

    fn record(&mut self, e: ParseError)
        requires
            old(self).wf(),
        ensures
            final(self).wf(),
            final(self).token_seq() == old(self).token_seq(),
            final(self).state() == (PState {
                pos: old(self).state().pos,
                errors: old(self).state().errors.push(e@),
            }),
    {
        self.errors.push(e);
        assert(errors_v(self.errors@) =~= errors_v(old(self).errors@).push(e@));
    }

    /// Parses the whole program from the current token on (see [`parse`]).
    pub fn parse_program(&mut self) -> (r: Program)
        requires
            old(self).wf(),
        ensures
            final(self).wf(),
            final(self).token_seq() == old(self).token_seq(),
            (r@, final(self).state()) == p_program_rest(
                old(self).token_seq(),
                Seq::empty(),
                old(self).state(),
            ),
    {
        let ghost ts = self.token_seq();
        let mut statements: Vec<StatementType> = Vec::new();
        assert(stmts_v(statements@) =~= Seq::<StmtV>::empty());
        while !matches!(self.cur_token(), Token::Eof)
            invariant
                self.wf(),
                self.token_seq() == ts,
                ts == old(self).token_seq(),
                p_program_rest(ts, stmts_v(statements@), self.state()) == p_program_rest(
                    ts,
                    Seq::empty(),
                    old(self).state(),
                ),
            decreases rem(ts, self.state()),
        {
            let ghost st = self.state();
            let r = self.parse_statement();
            match r {
                Ok(s) => {
                    proof {
                        lemma_stmts_v_push(statements@, s);
                    }
                    statements.push(s);
                },
                Err(e) => {
                    self.record(e);
                },
            }
            self.next_token();
        }
        Program::program(statements)
    }

    fn parse_statement(&mut self) -> (r: Result<StatementType, ParseError>)
        requires
            old(self).wf(),
        ensures
            final(self).wf(),
            final(self).token_seq() == old(self).token_seq(),
            final(self).state().pos >= old(self).state().pos,
            (stmt_result_v(r), final(self).state()) == p_statement(
                old(self).token_seq(),
                old(self).state(),
            ),
        decreases rem(old(self).token_seq(), old(self).state()), 22int,
    {
        let ghost ts = self.token_seq();
        let ghost st = self.state();
        let t = self.cur_token();
        if matches!(t, Token::Let) {
            assert(st.pos < ts.len());
            assert(p_statement(ts, st) == p_let(ts, st));
            self.parse_let_statement()
        } else if matches!(t, Token::Return) {
            assert(st.pos < ts.len());
            assert(p_statement(ts, st) == p_return(ts, st));
            self.parse_return_statement()
        } else {
            assert(p_statement(ts, st) == p_expr_stmt(ts, st));
            self.parse_expression_statement()
        }
    }

    fn skip_to_semicolon(&mut self)
        requires
            old(self).wf(),
        ensures
            final(self).wf(),
            final(self).token_seq() == old(self).token_seq(),
            final(self).state().pos >= old(self).state().pos,
            final(self).state() == skip_to_semicolon(old(self).token_seq(), old(self).state()),
    {
        let ghost ts = self.token_seq();
        while !matches!(self.cur_token(), Token::Semicolon) && self.has_next()
            invariant
                self.wf(),
                self.token_seq() == ts,
                ts == old(self).token_seq(),
                self.state().pos >= old(self).state().pos,
                skip_to_semicolon(ts, self.state()) == skip_to_semicolon(ts, old(self).state()),
            decreases rem(ts, self.state()),
        {
            self.next_token();
        }
    }

    fn parse_let_statement(&mut self) -> (r: Result<StatementType, ParseError>)
        requires
            old(self).wf(),
            old(self).state().pos < old(self).token_seq().len(),
        ensures
            final(self).wf(),
            final(self).token_seq() == old(self).token_seq(),
            final(self).state().pos >= old(self).state().pos,
            (stmt_result_v(r), final(self).state()) == p_let(
                old(self).token_seq(),
                old(self).state(),
            ),
        decreases rem(old(self).token_seq(), old(self).state()), 21int,
    {
        self.next_token();
        let t = self.cur_token();
        match t {
            Token::Ident(name) => {
                if !matches!(self.peek_token(), Token::Assign) {
                    return Err(
                        ParseError {
                            message: string_of("Expected '=' after variable name"),
                            token: self.cur_token(),
                        },
                    );
                }
                self.next_token();
                self.next_token();
                let value = self.parse_expression(Precedence::Lowest);
                self.skip_to_semicolon();
                Ok(StatementType::let_stmt(name, value))
            },
            _ => Err(
                ParseError { message: string_of("Expected identifier after 'let'"), token: t },
            ),
        }
    }

    fn parse_return_statement(&mut self) -> (r: Result<StatementType, ParseError>)
        requires
            old(self).wf(),
            old(self).state().pos < old(self).token_seq().len(),
        ensures
            final(self).wf(),
            final(self).token_seq() == old(self).token_seq(),
            final(self).state().pos >= old(self).state().pos,
            (stmt_result_v(r), final(self).state()) == p_return(
                old(self).token_seq(),
                old(self).state(),
            ),
        decreases rem(old(self).token_seq(), old(self).state()), 21int,
    {
        self.next_token();
        let return_value = self.parse_expression(Precedence::Lowest);
        if matches!(self.peek_token(), Token::Semicolon) {
            self.next_token();
        }
        Ok(StatementType::return_stmt(return_value))
    }

    fn parse_expression_statement(&mut self) -> (r: Result<StatementType, ParseError>)
        requires
            old(self).wf(),
        ensures
            final(self).wf(),
            final(self).token_seq() == old(self).token_seq(),
            final(self).state().pos >= old(self).state().pos,
            (stmt_result_v(r), final(self).state()) == p_expr_stmt(
                old(self).token_seq(),
                old(self).state(),
            ),
        decreases rem(old(self).token_seq(), old(self).state()), 21int,
    {
        let expression = self.parse_expression(Precedence::Lowest);
        if matches!(self.peek_token(), Token::Semicolon) {
            self.next_token();
        }
        Ok(StatementType::expr_stmt(expression))
    }

    /// Whether the infix loop goes on: the next token binds more tightly than
    /// `prec` and is not `;`.
    fn infix_continues(&self, prec: Precedence) -> (r: bool)
        requires
            self.wf(),
        ensures
            r == !(peek(self.token_seq(), self.state()) is Semicolon || prec.rank() >= prec_of(
                peek(self.token_seq(), self.state()),
            ).rank() || self.state().pos + 1 >= self.token_seq().len()),
    {
        let pk = self.peek_token();
        !matches!(pk, Token::Semicolon) && prec.level() < precedence(&pk).level() && self.has_next()
    }

    fn parse_expression(&mut self, prec: Precedence) -> (r: Option<Box<ExpressionType>>)
        requires
            old(self).wf(),
        ensures
            final(self).wf(),
            final(self).token_seq() == old(self).token_seq(),
            final(self).state().pos >= old(self).state().pos,
            (opt_expr_v(r), final(self).state()) == p_expression(
                old(self).token_seq(),
                old(self).state(),
                prec,
            ),
        decreases rem(old(self).token_seq(), old(self).state()), 20int,
    {
        let ghost ts = self.token_seq();
        let left = match self.cur_token() {
            Token::Ident(n) => ExpressionType::identifier(n).boxed(),
            Token::Int(v) => ExpressionType::integer_literal(v).boxed(),
            Token::True => ExpressionType::boolean_literal(true).boxed(),
            Token::False => ExpressionType::boolean_literal(false).boxed(),
            Token::Bang | Token::Minus => self.parse_prefix_expression(),
            Token::Lparen => self.parse_grouped_expression(),
            Token::If => self.parse_if_expression(),
            Token::Function => self.parse_function_literal(),
            _ => None,
        };
        if left.is_none() {
            return left;
        }
        let mut left = left;
        let mut go = self.infix_continues(prec);
        while go
            invariant
                self.wf(),
                self.token_seq() == ts,
                ts == old(self).token_seq(),
                self.state().pos >= old(self).state().pos,
                go == !(peek(ts, self.state()) is Semicolon || prec.rank() >= prec_of(
                    peek(ts, self.state()),
                ).rank() || self.state().pos + 1 >= ts.len()),
                p_infix_loop(ts, opt_expr_v(left), prec, self.state()) == p_expression(
                    ts,
                    old(self).state(),
                    prec,
                ),
            decreases rem(ts, self.state()),
        {
            if matches!(self.peek_token(), Token::Lparen) {
                left = self.parse_call_expression(left);
            } else {
                self.next_token();
                left = self.parse_infix_expression(left);
            }
            go = self.infix_continues(prec);
        }
        left
    }

    fn parse_infix_expression(&mut self, left: Option<Box<ExpressionType>>) -> (r: Option<
        Box<ExpressionType>,
    >)
        requires
            old(self).wf(),
            old(self).state().pos < old(self).token_seq().len(),
        ensures
            final(self).wf(),
            final(self).token_seq() == old(self).token_seq(),
            final(self).state().pos >= old(self).state().pos,
            (opt_expr_v(r), final(self).state()) == p_infix(
                old(self).token_seq(),
                opt_expr_v(left),
                old(self).state(),
            ),
        decreases rem(old(self).token_seq(), old(self).state()), 18int,
    {
        let t = self.cur_token();
        let operator = t.to_literal();
        let prec = precedence(&t);
        self.next_token();
        let right = self.parse_expression(prec);
        if right.is_none() {
            let e = ParseError {
                message: string_of("Expected expression after infix operator"),
                token: self.cur_token(),
            };
            self.record(e);
            return left;
        }
        ExpressionType::infix(left, operator, right).boxed()
    }

    fn parse_call_expression(&mut self, function: Option<Box<ExpressionType>>) -> (r: Option<
        Box<ExpressionType>,
    >)
        requires
            old(self).wf(),
            old(self).state().pos + 1 < old(self).token_seq().len(),
        ensures
            final(self).wf(),
            final(self).token_seq() == old(self).token_seq(),
            final(self).state().pos > old(self).state().pos,
            (opt_expr_v(r), final(self).state()) == p_call(
                old(self).token_seq(),
                opt_expr_v(function),
                old(self).state(),
            ),
        decreases rem(old(self).token_seq(), old(self).state()), 18int,
    {
        self.next_token();
        let arguments = self.parse_call_arguments();
        ExpressionType::call(function, arguments).boxed()
    }

    #[verifier::rlimit(40)]
    fn parse_call_arguments(&mut self) -> (r: Vec<ExpressionType>)
        requires
            old(self).wf(),
            old(self).state().pos < old(self).token_seq().len(),
        ensures
            final(self).wf(),
            final(self).token_seq() == old(self).token_seq(),
            final(self).state().pos >= old(self).state().pos,
            (exprs_v(r@), final(self).state()) == p_call_args(
                old(self).token_seq(),
                old(self).state(),
            ),
        decreases rem(old(self).token_seq(), old(self).state()), 17int,
    {
        let ghost ts = self.token_seq();
        let mut args: Vec<ExpressionType> = Vec::new();
        assert(exprs_v(args@) =~= Seq::empty());
        if matches!(self.peek_token(), Token::Rparen) {
            self.next_token();
            return args;
        }
        self.next_token();
        let e = self.parse_expression(Precedence::Lowest);
        match e {
            Some(b) => {
                proof {
                    lemma_exprs_v_push(args@, *b);
                }
                args.push(*b);
            },
            None => {},
        }
        while matches!(self.peek_token(), Token::Comma) && self.has_next()
            invariant
                self.wf(),
                self.token_seq() == ts,
                ts == old(self).token_seq(),
                self.state().pos > old(self).state().pos,
                p_args_rest(ts, exprs_v(args@), self.state()) == p_call_args(
                    ts,
                    old(self).state(),
                ),
            decreases rem(ts, self.state()),
        {
            self.next_token();
            self.next_token();
            let e = self.parse_expression(Precedence::Lowest);
            match e {
                Some(b) => {
                    proof {
                        lemma_exprs_v_push(args@, *b);
                    }
                    args.push(*b);
                },
                None => {},
            }
        }
        if matches!(self.peek_token(), Token::Rparen) {
            self.next_token();
        }
        args
    }

    fn parse_prefix_expression(&mut self) -> (r: Option<Box<ExpressionType>>)
        requires
            old(self).wf(),
            old(self).state().pos < old(self).token_seq().len(),
        ensures
            final(self).wf(),
            final(self).token_seq() == old(self).token_seq(),
            final(self).state().pos >= old(self).state().pos,
            (opt_expr_v(r), final(self).state()) == p_prefix(
                old(self).token_seq(),
                old(self).state(),
            ),
        decreases rem(old(self).token_seq(), old(self).state()), 18int,
    {
        let t = self.cur_token();
        let operator = t.to_literal();
        self.next_token();
        let right = self.parse_expression(Precedence::Prefix);
        if right.is_none() {
            let e = ParseError {
                message: string_of("Expected expression after prefix operator"),
                token: self.cur_token(),
            };
            self.record(e);
        }
        ExpressionType::prefix(operator, right).boxed()
    }

    fn parse_grouped_expression(&mut self) -> (r: Option<Box<ExpressionType>>)
        requires
            old(self).wf(),
            old(self).state().pos < old(self).token_seq().len(),
        ensures
            final(self).wf(),
            final(self).token_seq() == old(self).token_seq(),
            final(self).state().pos >= old(self).state().pos,
            (opt_expr_v(r), final(self).state()) == p_grouped(
                old(self).token_seq(),
                old(self).state(),
            ),
        decreases rem(old(self).token_seq(), old(self).state()), 18int,
    {
        self.next_token();
        let e = self.parse_expression(Precedence::Lowest);
        if matches!(self.peek_token(), Token::Rparen) {
            self.next_token();
        }
        e
    }

    fn parse_if_expression(&mut self) -> (r: Option<Box<ExpressionType>>)
        requires
            old(self).wf(),
            old(self).state().pos < old(self).token_seq().len(),
        ensures
            final(self).wf(),
            final(self).token_seq() == old(self).token_seq(),
            final(self).state().pos >= old(self).state().pos,
            (opt_expr_v(r), final(self).state()) == p_if(old(self).token_seq(), old(self).state()),
        decreases rem(old(self).token_seq(), old(self).state()), 18int,
    {
        if !matches!(self.peek_token(), Token::Lparen) {
            return None;
        }
        self.next_token();
        let condition = self.parse_expression(Precedence::Lowest);
        if !matches!(self.cur_token(), Token::Rparen) {
            return None;
        }
        self.next_token();
        if !matches!(self.cur_token(), Token::Lbrace) {
            return None;
        }
        let consequence = self.parse_block_statement();
        let alternative = if matches!(self.peek_token(), Token::Else) {
            self.next_token();
            if matches!(self.peek_token(), Token::Lbrace) {
                self.next_token();
                Some(self.parse_block_statement())
            } else {
                None
            }
        } else {
            None
        };
        ExpressionType::if_expr(condition, Some(consequence), alternative).boxed()
    }

    fn parse_fn_params(&mut self) -> (r: Vec<ExpressionType>)
        requires
            old(self).wf(),
        ensures
            final(self).wf(),
            final(self).token_seq() == old(self).token_seq(),
            final(self).state().pos >= old(self).state().pos,
            (exprs_v(r@), final(self).state()) == p_params(old(self).token_seq(), old(self).state()),
    {
        let ghost ts = self.token_seq();
        let mut params: Vec<ExpressionType> = Vec::new();
        assert(exprs_v(params@) =~= Seq::empty());
        if matches!(self.peek_token(), Token::Rparen) {
            self.next_token();
            return params;
        }
        self.next_token();
        let first = ExpressionType::Identifier(self.cur_token().to_literal());
        proof {
            lemma_exprs_v_push(params@, first);
        }
        params.push(first);
        let ghost st1 = self.state();
        assert(exprs_v(params@) =~= seq![first@]);
        while matches!(self.peek_token(), Token::Comma) && self.has_next()
            invariant
                self.wf(),
                self.token_seq() == ts,
                ts == old(self).token_seq(),
                self.state().pos >= old(self).state().pos,
                p_params_rest(ts, exprs_v(params@), self.state()) == p_params_rest(
                    ts,
                    seq![first@],
                    st1,
                ),
            decreases rem(ts, self.state()),
        {
            self.next_token();
            self.next_token();
            let p = ExpressionType::Identifier(self.cur_token().to_literal());
            proof {
                lemma_exprs_v_push(params@, p);
            }
            params.push(p);
        }
        self.next_token();
        if !matches!(self.cur_token(), Token::Rparen) {
            let none: Vec<ExpressionType> = Vec::new();
            assert(exprs_v(none@) =~= Seq::empty());
            return none;
        }
        params
    }

    fn parse_function_literal(&mut self) -> (r: Option<Box<ExpressionType>>)
        requires
            old(self).wf(),
            old(self).state().pos < old(self).token_seq().len(),
        ensures
            final(self).wf(),
            final(self).token_seq() == old(self).token_seq(),
            final(self).state().pos >= old(self).state().pos,
            (opt_expr_v(r), final(self).state()) == p_function(
                old(self).token_seq(),
                old(self).state(),
            ),
        decreases rem(old(self).token_seq(), old(self).state()), 18int,
    {
        self.next_token();
        if !matches!(self.cur_token(), Token::Lparen) {
            return None;
        }
        let parameters = self.parse_fn_params();
        if !matches!(self.peek_token(), Token::Lbrace) {
            return ExpressionType::function(parameters, Some(BlockStatement::empty())).boxed();
        }
        self.next_token();
        let body = self.parse_block_statement();
        ExpressionType::function(parameters, Some(body)).boxed()
    }

    fn parse_block_statement(&mut self) -> (r: BlockStatement)
        requires
            old(self).wf(),
            old(self).state().pos < old(self).token_seq().len(),
        ensures
            final(self).wf(),
            final(self).token_seq() == old(self).token_seq(),
            final(self).state().pos >= old(self).state().pos,
            (r@, final(self).state()) == p_block(old(self).token_seq(), old(self).state()),
        decreases rem(old(self).token_seq(), old(self).state()), 17int,
    {
        let ghost ts = self.token_seq();
        self.next_token();
        let mut statements: Vec<StatementType> = Vec::new();
        assert(stmts_v(statements@) =~= Seq::<StmtV>::empty());
        while !matches!(self.cur_token(), Token::Rbrace) && !matches!(self.cur_token(), Token::Eof)
            invariant
                self.wf(),
                self.token_seq() == ts,
                ts == old(self).token_seq(),
                self.state().pos > old(self).state().pos,
                p_block_rest(ts, stmts_v(statements@), self.state()) == p_block(
                    ts,
                    old(self).state(),
                ),
            decreases rem(ts, self.state()),
        {
            let r = self.parse_statement();
            match r {
                Ok(s) => {
                    proof {
                        lemma_stmts_v_push(statements@, s);
                    }
                    statements.push(s);
                },
                Err(e) => {
                    self.record(e);
                },
            }
            self.next_token();
        }
        BlockStatement::block(statements)
    }
}

} // verus!
