//! The abstract syntax tree, its mathematical model, and its printed form.
use crate::text::{decimal, push_decimal, push_str};
use vstd::prelude::*;

verus! {

/// An expression.
#[derive(Debug, PartialEq)]
pub enum ExpressionType {
    Identifier(String),
    IntegerLiteral(i64),
    BooleanLiteral(bool),
    Prefix { operator: String, right: Option<Box<ExpressionType>> },
    Infix {
        left: Option<Box<ExpressionType>>,
        operator: String,
        right: Option<Box<ExpressionType>>,
    },
    If {
        condition: Option<Box<ExpressionType>>,
        consequence: Option<BlockStatement>,
        alternative: Option<BlockStatement>,
    },
    Function { parameters: Vec<ExpressionType>, body: Option<BlockStatement> },
    Call { function: Option<Box<ExpressionType>>, arguments: Vec<ExpressionType> },
}

/// A statement.
#[derive(Debug, PartialEq)]
pub enum StatementType {
    Let { name: Option<Box<ExpressionType>>, value: Option<Box<ExpressionType>> },
    Return { return_value: Option<Box<ExpressionType>> },
    Expr { expression: Option<Box<ExpressionType>> },
}

/// A brace-delimited sequence of statements.
#[derive(Debug, PartialEq)]
pub struct BlockStatement {
    pub statements: Vec<StatementType>,
}

/// A whole program: its top-level statements.
#[derive(Debug, PartialEq)]
pub struct Program {
    pub statements: Vec<StatementType>,
}

/// Any node of the tree.
#[derive(Debug, PartialEq)]
pub enum Node {
    Program(Program),
    Block(BlockStatement),
    Statement(StatementType),
    Expression(ExpressionType),
}

/// The model of an expression: names and operators as character sequences,
/// lists as sequences.
pub enum ExprV {
    Identifier(Seq<char>),
    IntegerLiteral(i64),
    BooleanLiteral(bool),
    Prefix { operator: Seq<char>, right: Option<Box<ExprV>> },
    Infix { left: Option<Box<ExprV>>, operator: Seq<char>, right: Option<Box<ExprV>> },
    If {
        condition: Option<Box<ExprV>>,
        consequence: Option<Seq<StmtV>>,
        alternative: Option<Seq<StmtV>>,
    },
    Function { parameters: Seq<ExprV>, body: Option<Seq<StmtV>> },
    Call { function: Option<Box<ExprV>>, arguments: Seq<ExprV> },
}

/// The model of a statement.
pub enum StmtV {
    Let { name: Option<Box<ExprV>>, value: Option<Box<ExprV>> },
    Return { value: Option<Box<ExprV>> },
    Expr { expression: Option<Box<ExprV>> },
}

/// The model of a node; blocks and programs are sequences of statements.
pub enum NodeV {
    Program(Seq<StmtV>),
    Block(Seq<StmtV>),
    Statement(StmtV),
    Expression(ExprV),
}

pub open spec fn expr_v(e: ExpressionType) -> ExprV
    decreases e,
{
    match e {
        ExpressionType::Identifier(s) => ExprV::Identifier(s@),
        ExpressionType::IntegerLiteral(v) => ExprV::IntegerLiteral(v),
        ExpressionType::BooleanLiteral(b) => ExprV::BooleanLiteral(b),
        ExpressionType::Prefix { operator, right } => ExprV::Prefix {
            operator: operator@,
            right: opt_expr_v(right),
        },
        ExpressionType::Infix { left, operator, right } => ExprV::Infix {
            left: opt_expr_v(left),
            operator: operator@,
            right: opt_expr_v(right),
        },
        ExpressionType::If { condition, consequence, alternative } => ExprV::If {
            condition: opt_expr_v(condition),
            consequence: opt_block_v(consequence),
            alternative: opt_block_v(alternative),
        },
        ExpressionType::Function { parameters, body } => ExprV::Function {
            parameters: exprs_v(parameters@),
            body: opt_block_v(body),
        },
        ExpressionType::Call { function, arguments } => ExprV::Call {
            function: opt_expr_v(function),
            arguments: exprs_v(arguments@),
        },
    }
}

pub open spec fn opt_expr_v(e: Option<Box<ExpressionType>>) -> Option<Box<ExprV>>
    decreases e,
{
    match e {
        Some(b) => Some(Box::new(expr_v(*b))),
        None => None,
    }
}

pub open spec fn opt_block_v(b: Option<BlockStatement>) -> Option<Seq<StmtV>>
    decreases b,
{
    match b {
        Some(b) => Some(stmts_v(b.statements@)),
        None => None,
    }
}

pub open spec fn exprs_v(s: Seq<ExpressionType>) -> Seq<ExprV>
    decreases s,
{
    if s.len() == 0 {
        Seq::empty()
    } else {
        exprs_v(s.drop_last()).push(expr_v(s.last()))
    }
}

pub open spec fn stmt_v(s: StatementType) -> StmtV
    decreases s,
{
    match s {
        StatementType::Let { name, value } => StmtV::Let {
            name: opt_expr_v(name),
            value: opt_expr_v(value),
        },
        StatementType::Return { return_value } => StmtV::Return { value: opt_expr_v(return_value) },
        StatementType::Expr { expression } => StmtV::Expr { expression: opt_expr_v(expression) },
    }
}

pub open spec fn stmts_v(s: Seq<StatementType>) -> Seq<StmtV>
    decreases s,
{
    if s.len() == 0 {
        Seq::empty()
    } else {
        stmts_v(s.drop_last()).push(stmt_v(s.last()))
    }
}


impl View for ExpressionType {
    type V = ExprV;

    open spec fn view(&self) -> ExprV {
        expr_v(*self)
    }
}

impl View for StatementType {
    type V = StmtV;

    open spec fn view(&self) -> StmtV {
        stmt_v(*self)
    }
}

impl View for BlockStatement {
    type V = Seq<StmtV>;

    open spec fn view(&self) -> Seq<StmtV> {
        stmts_v(self.statements@)
    }
}

impl View for Program {
    type V = Seq<StmtV>;

    open spec fn view(&self) -> Seq<StmtV> {
        stmts_v(self.statements@)
    }
}

impl View for Node {
    type V = NodeV;

    open spec fn view(&self) -> NodeV {
        match self {
            Node::Program(p) => NodeV::Program(p@),
            Node::Block(b) => NodeV::Block(b@),
            Node::Statement(s) => NodeV::Statement(s@),
            Node::Expression(e) => NodeV::Expression(e@),
        }
    }
}

pub proof fn lemma_exprs_v(s: Seq<ExpressionType>)
    ensures
        exprs_v(s).len() == s.len(),
        forall|i: int| 0 <= i < s.len() ==> #[trigger] exprs_v(s)[i] == expr_v(s[i]),
    decreases s.len(),
{
    if s.len() > 0 {
        lemma_exprs_v(s.drop_last());
    }
}

pub proof fn lemma_stmts_v(s: Seq<StatementType>)
    ensures
        stmts_v(s).len() == s.len(),
        forall|i: int| 0 <= i < s.len() ==> #[trigger] stmts_v(s)[i] == stmt_v(s[i]),
    decreases s.len(),
{
    if s.len() > 0 {
        lemma_stmts_v(s.drop_last());
    }
}

pub proof fn lemma_exprs_v_push(s: Seq<ExpressionType>, x: ExpressionType)
    ensures
        exprs_v(s.push(x)) == exprs_v(s).push(expr_v(x)),
{
    assert(s.push(x).drop_last() =~= s);
}

pub proof fn lemma_stmts_v_push(s: Seq<StatementType>, x: StatementType)
    ensures
        stmts_v(s.push(x)) == stmts_v(s).push(stmt_v(x)),
{
    assert(s.push(x).drop_last() =~= s);
}


impl ExpressionType {
    /// An identifier.
    pub fn identifier(name: String) -> (r: ExpressionType)
        ensures
            r@ == ExprV::Identifier(name@),
    {
        ExpressionType::Identifier(name)
    }

    /// An integer literal.
    pub fn integer_literal(value: i64) -> (r: ExpressionType)
        ensures
            r@ == ExprV::IntegerLiteral(value),
    {
        ExpressionType::IntegerLiteral(value)
    }

    /// A boolean literal.
    pub fn boolean_literal(value: bool) -> (r: ExpressionType)
        ensures
            r@ == ExprV::BooleanLiteral(value),
    {
        ExpressionType::BooleanLiteral(value)
    }

    /// A prefix operator applied to `right`.
    pub fn prefix(operator: String, right: Option<Box<ExpressionType>>) -> (r: ExpressionType)
        ensures
            r@ == (ExprV::Prefix { operator: operator@, right: opt_expr_v(right) }),
    {
        ExpressionType::Prefix { operator, right }
    }

    /// An infix operator applied to `left` and `right`.
    pub fn infix(
        left: Option<Box<ExpressionType>>,
        operator: String,
        right: Option<Box<ExpressionType>>,
    ) -> (r: ExpressionType)
        ensures
            r@ == (ExprV::Infix {
                left: opt_expr_v(left),
                operator: operator@,
                right: opt_expr_v(right),
            }),
    {
        ExpressionType::Infix { left, operator, right }
    }

    /// An `if` expression.
    pub fn if_expr(
        condition: Option<Box<ExpressionType>>,
        consequence: Option<BlockStatement>,
        alternative: Option<BlockStatement>,
    ) -> (r: ExpressionType)
        ensures
            r@ == (ExprV::If {
                condition: opt_expr_v(condition),
                consequence: opt_block_v(consequence),
                alternative: opt_block_v(alternative),
            }),
    {
        ExpressionType::If { condition, consequence, alternative }
    }

    /// A function literal.
    pub fn function(parameters: Vec<ExpressionType>, body: Option<BlockStatement>) -> (r:
        ExpressionType)
        ensures
            r@ == (ExprV::Function { parameters: exprs_v(parameters@), body: opt_block_v(body) }),
    {
        ExpressionType::Function { parameters, body }
    }

    /// A call of `function` with `arguments`.
    pub fn call(function: Option<Box<ExpressionType>>, arguments: Vec<ExpressionType>) -> (r:
        ExpressionType)
        ensures
            r@ == (ExprV::Call { function: opt_expr_v(function), arguments: exprs_v(arguments@) }),
    {
        ExpressionType::Call { function, arguments }
    }

    /// The expression, boxed, as an optional child.
    pub fn boxed(self) -> (r: Option<Box<ExpressionType>>)
        ensures
            opt_expr_v(r) == Some(Box::new(self@)),
    {
        Some(Box::new(self))
    }
}

impl StatementType {
    /// `let name = value`.
    pub fn let_stmt(name: String, value: Option<Box<ExpressionType>>) -> (r: StatementType)
        ensures
            r@ == (StmtV::Let {
                name: Some(Box::new(ExprV::Identifier(name@))),
                value: opt_expr_v(value),
            }),
    {
        let n = ExpressionType::identifier(name).boxed();
        StatementType::Let { name: n, value }
    }

    /// `return value`.
    pub fn return_stmt(return_value: Option<Box<ExpressionType>>) -> (r: StatementType)
        ensures
            r@ == (StmtV::Return { value: opt_expr_v(return_value) }),
    {
        StatementType::Return { return_value }
    }

    /// An expression used as a statement.
    pub fn expr_stmt(expression: Option<Box<ExpressionType>>) -> (r: StatementType)
        ensures
            r@ == (StmtV::Expr { expression: opt_expr_v(expression) }),
    {
        StatementType::Expr { expression }
    }
}

impl BlockStatement {
    /// A block of `statements`.
    pub fn block(statements: Vec<StatementType>) -> (r: BlockStatement)
        ensures
            r@ == stmts_v(statements@),
    {
        BlockStatement { statements }
    }

    /// An empty block.
    pub fn empty() -> (r: BlockStatement)
        ensures
            r@ == Seq::<StmtV>::empty(),
    {
        let r = BlockStatement { statements: Vec::new() };
        assert(stmts_v(r.statements@) =~= Seq::empty());
        r
    }
}

impl Program {
    /// A program of `statements`.
    pub fn program(statements: Vec<StatementType>) -> (r: Program)
        ensures
            r@ == stmts_v(statements@),
    {
        Program { statements }
    }
}

pub open spec fn opt_expr_string(e: Option<Box<ExprV>>) -> Seq<char>
    decreases e,
{
    match e {
        Some(b) => expr_string(*b),
        None => Seq::empty(),
    }
}

pub open spec fn opt_block_string(b: Option<Seq<StmtV>>) -> Seq<char>
    decreases b,
{
    match b {
        Some(s) => block_string(s),
        None => Seq::empty(),
    }
}

/// The printed form of an expression: every prefix and infix application
/// is wrapped in parentheses.
pub open spec fn expr_string(e: ExprV) -> Seq<char>
    decreases e,
{
    match e {
        ExprV::Identifier(s) => s,
        ExprV::IntegerLiteral(v) => decimal(v),
        ExprV::BooleanLiteral(b) => if b {
            "true"@
        } else {
            "false"@
        },
        ExprV::Prefix { operator, right } => "("@ + operator + opt_expr_string(right) + ")"@,
        ExprV::Infix { left, operator, right } => "("@ + opt_expr_string(left) + " "@ + operator
            + " "@ + opt_expr_string(right) + ")"@,
        ExprV::If { condition, consequence, alternative } => "if "@ + opt_expr_string(condition)
            + " "@ + opt_block_string(consequence) + " else "@ + opt_block_string(alternative),
        ExprV::Function { parameters, body } => "fn("@ + exprs_string(parameters) + ") {"@
            + opt_block_string(body) + "}"@,
        ExprV::Call { function, arguments } => opt_expr_string(function) + "("@ + exprs_string(
            arguments,
        ) + ")"@,
    }
}

/// Expressions printed one after another, separated by `, `.
pub open spec fn exprs_string(s: Seq<ExprV>) -> Seq<char>
    decreases s,
{
    if s.len() == 0 {
        Seq::empty()
    } else if s.len() == 1 {
        expr_string(s[0])
    } else {
        exprs_string(s.drop_last()) + ", "@ + expr_string(s.last())
    }
}

/// The printed form of a statement.
pub open spec fn stmt_string(s: StmtV) -> Seq<char>
    decreases s,
{
    match s {
        StmtV::Let { name, value } => "let "@ + opt_expr_string(name) + " = "@ + opt_expr_string(
            value,
        ),
        StmtV::Return { value } => "return "@ + opt_expr_string(value),
        StmtV::Expr { expression } => opt_expr_string(expression),
    }
}

/// A block printed: its statements on separate lines.
pub open spec fn block_string(s: Seq<StmtV>) -> Seq<char>
    decreases s,
{
    if s.len() == 0 {
        Seq::empty()
    } else if s.len() == 1 {
        stmt_string(s[0])
    } else {
        block_string(s.drop_last()) + "\n"@ + stmt_string(s.last())
    }
}

/// A program printed: its statements one after another.
pub open spec fn program_string(s: Seq<StmtV>) -> Seq<char>
    decreases s,
{
    if s.len() == 0 {
        Seq::empty()
    } else {
        program_string(s.drop_last()) + stmt_string(s.last())
    }
}

/// The printed form of any node.
pub open spec fn node_string(n: NodeV) -> Seq<char> {
    match n {
        NodeV::Program(s) => program_string(s),
        NodeV::Block(s) => block_string(s),
        NodeV::Statement(s) => stmt_string(s),
        NodeV::Expression(e) => expr_string(e),
    }
}

/// The literal text of a leaf node; empty for every other node.
pub open spec fn node_token_literal(n: NodeV) -> Seq<char> {
    match n {
        NodeV::Expression(ExprV::IntegerLiteral(v)) => decimal(v),
        NodeV::Expression(ExprV::Identifier(s)) => s,
        NodeV::Expression(ExprV::BooleanLiteral(b)) => if b {
            "true"@
        } else {
            "false"@
        },
        _ => Seq::empty(),
    }
}

fn dup_opt_expr(e: &Option<Box<ExpressionType>>) -> (r: Option<Box<ExpressionType>>)
    ensures
        opt_expr_v(r) == opt_expr_v(*e),
    decreases e,
{
    match e {
        Some(b) => Some(Box::new(b.duplicate())),
        None => None,
    }
}

fn dup_opt_block(b: &Option<BlockStatement>) -> (r: Option<BlockStatement>)
    ensures
        opt_block_v(r) == opt_block_v(*b),
    decreases b,
{
    match b {
        Some(b) => Some(b.duplicate()),
        None => None,
    }
}

pub(crate) fn dup_exprs(v: &Vec<ExpressionType>) -> (r: Vec<ExpressionType>)
    ensures
        exprs_v(r@) == exprs_v(v@),
    decreases v,
{
    let mut out: Vec<ExpressionType> = Vec::new();
    let mut i: usize = 0;
    while i < v.len()
        invariant
            i <= v.len(),
            exprs_v(out@) == exprs_v(v@.take(i as int)),
        decreases v.len() - i,
    {
        let e = v[i].duplicate();
        proof {
            assert(out@.push(e).drop_last() =~= out@);
            assert(v@.take(i + 1).drop_last() =~= v@.take(i as int));
        }
        out.push(e);
        i = i + 1;
    }
    assert(v@.take(i as int) =~= v@);
    out
}

fn dup_stmts(v: &Vec<StatementType>) -> (r: Vec<StatementType>)
    ensures
        stmts_v(r@) == stmts_v(v@),
    decreases v,
{
    let mut out: Vec<StatementType> = Vec::new();
    let mut i: usize = 0;
    while i < v.len()
        invariant
            i <= v.len(),
            stmts_v(out@) == stmts_v(v@.take(i as int)),
        decreases v.len() - i,
    {
        let e = v[i].duplicate();
        proof {
            assert(out@.push(e).drop_last() =~= out@);
            assert(v@.take(i + 1).drop_last() =~= v@.take(i as int));
        }
        out.push(e);
        i = i + 1;
    }
    assert(v@.take(i as int) =~= v@);
    out
}

/// Appends the printed forms of `v`, separated by `sep`, to `out`.
pub(crate) fn write_exprs(v: &Vec<ExpressionType>, out: &mut String)
    ensures
        final(out)@ == old(out)@ + exprs_string(exprs_v(v@)),
    decreases v,
{
    proof {
        lemma_exprs_v(v@);
    }
    let ghost vs = exprs_v(v@);
    let mut i: usize = 0;
    while i < v.len()
        invariant
            i <= v.len(),
            vs == exprs_v(v@),
            vs.len() == v@.len(),
            forall|j: int| 0 <= j < v@.len() ==> #[trigger] vs[j] == expr_v(v@[j]),
            out@ == old(out)@ + exprs_string(vs.take(i as int)),
        decreases v.len() - i,
    {
        let ghost before = out@;
        if i > 0 {
            push_str(out, ", ");
        }
        v[i].write(out);
        proof {
            assert(vs.take(i + 1).drop_last() =~= vs.take(i as int));
            if i == 0 {
                assert(out@ =~= old(out)@ + exprs_string(vs.take(i + 1)));
            } else {
                assert(out@ =~= old(out)@ + exprs_string(vs.take(i + 1)));
            }
        }
        i = i + 1;
    }
    assert(vs.take(i as int) =~= vs);
}

/// Appends the statements of a block, one per line, to `out`.
fn write_block(v: &Vec<StatementType>, out: &mut String)
    ensures
        final(out)@ == old(out)@ + block_string(stmts_v(v@)),
    decreases v,
{
    proof {
        lemma_stmts_v(v@);
    }
    let ghost vs = stmts_v(v@);
    let mut i: usize = 0;
    while i < v.len()
        invariant
            i <= v.len(),
            vs == stmts_v(v@),
            vs.len() == v@.len(),
            forall|j: int| 0 <= j < v@.len() ==> #[trigger] vs[j] == stmt_v(v@[j]),
            out@ == old(out)@ + block_string(vs.take(i as int)),
        decreases v.len() - i,
    {
        if i > 0 {
            push_str(out, "\n");
        }
        v[i].write(out);
        proof {
            assert(vs.take(i + 1).drop_last() =~= vs.take(i as int));
            assert(out@ =~= old(out)@ + block_string(vs.take(i + 1)));
        }
        i = i + 1;
    }
    assert(vs.take(i as int) =~= vs);
}

fn write_opt_expr(e: &Option<Box<ExpressionType>>, out: &mut String)
    ensures
        final(out)@ == old(out)@ + opt_expr_string(opt_expr_v(*e)),
    decreases e,
{
    match e {
        Some(b) => b.write(out),
        None => {
            assert(out@ =~= old(out)@ + opt_expr_string(opt_expr_v(*e)));
        },
    }
}

pub(crate) fn write_opt_block(b: &Option<BlockStatement>, out: &mut String)
    ensures
        final(out)@ == old(out)@ + opt_block_string(opt_block_v(*b)),
    decreases b,
{
    match b {
        Some(b) => write_block(&b.statements, out),
        None => {
            assert(out@ =~= old(out)@ + opt_block_string(opt_block_v(*b)));
        },
    }
}

impl ExpressionType {
    /// A copy of the expression.
    pub fn duplicate(&self) -> (r: ExpressionType)
        ensures
            r@ == self@,
        decreases self,
    {
        match self {
            ExpressionType::Identifier(s) => ExpressionType::Identifier(s.clone()),
            ExpressionType::IntegerLiteral(v) => ExpressionType::IntegerLiteral(*v),
            ExpressionType::BooleanLiteral(b) => ExpressionType::BooleanLiteral(*b),
            ExpressionType::Prefix { operator, right } => ExpressionType::Prefix {
                operator: operator.clone(),
                right: dup_opt_expr(right),
            },
            ExpressionType::Infix { left, operator, right } => ExpressionType::Infix {
                left: dup_opt_expr(left),
                operator: operator.clone(),
                right: dup_opt_expr(right),
            },
            ExpressionType::If { condition, consequence, alternative } => ExpressionType::If {
                condition: dup_opt_expr(condition),
                consequence: dup_opt_block(consequence),
                alternative: dup_opt_block(alternative),
            },
            ExpressionType::Function { parameters, body } => ExpressionType::Function {
                parameters: dup_exprs(parameters),
                body: dup_opt_block(body),
            },
            ExpressionType::Call { function, arguments } => ExpressionType::Call {
                function: dup_opt_expr(function),
                arguments: dup_exprs(arguments),
            },
        }
    }

    fn write(&self, out: &mut String)
        ensures
            final(out)@ == old(out)@ + expr_string(self@),
        decreases self,
    {
        match self {
            ExpressionType::Identifier(s) => push_str(out, s.as_str()),
            ExpressionType::IntegerLiteral(v) => push_decimal(out, *v),
            ExpressionType::BooleanLiteral(b) => {
                if *b {
                    push_str(out, "true");
                } else {
                    push_str(out, "false");
                }
            },
            ExpressionType::Prefix { operator, right } => {
                push_str(out, "(");
                push_str(out, operator.as_str());
                write_opt_expr(right, out);
                push_str(out, ")");
            },
            ExpressionType::Infix { left, operator, right } => {
                push_str(out, "(");
                write_opt_expr(left, out);
                push_str(out, " ");
                push_str(out, operator.as_str());
                push_str(out, " ");
                write_opt_expr(right, out);
                push_str(out, ")");
            },
            ExpressionType::If { condition, consequence, alternative } => {
                push_str(out, "if ");
                write_opt_expr(condition, out);
                push_str(out, " ");
                write_opt_block(consequence, out);
                push_str(out, " else ");
                write_opt_block(alternative, out);
            },
            ExpressionType::Function { parameters, body } => {
                push_str(out, "fn(");
                write_exprs(parameters, out);
                push_str(out, ") {");
                write_opt_block(body, out);
                push_str(out, "}");
            },
            ExpressionType::Call { function, arguments } => {
                write_opt_expr(function, out);
                push_str(out, "(");
                write_exprs(arguments, out);
                push_str(out, ")");
            },
        }
        assert(out@ =~= old(out)@ + expr_string(self@));
    }

    /// The printed form of the expression (see [`expr_string`]).
    pub fn string(&self) -> (r: String)
        ensures
            r@ == expr_string(self@),
    {
        let mut out = String::new();
        self.write(&mut out);
        assert(out@ =~= expr_string(self@));
        out
    }
}

impl StatementType {
    /// A copy of the statement.
    pub fn duplicate(&self) -> (r: StatementType)
        ensures
            r@ == self@,
        decreases self,
    {
        match self {
            StatementType::Let { name, value } => StatementType::Let {
                name: dup_opt_expr(name),
                value: dup_opt_expr(value),
            },
            StatementType::Return { return_value } => StatementType::Return {
                return_value: dup_opt_expr(return_value),
            },
            StatementType::Expr { expression } => StatementType::Expr {
                expression: dup_opt_expr(expression),
            },
        }
    }

    fn write(&self, out: &mut String)
        ensures
            final(out)@ == old(out)@ + stmt_string(self@),
        decreases self,
    {
        match self {
            StatementType::Let { name, value } => {
                push_str(out, "let ");
                write_opt_expr(name, out);
                push_str(out, " = ");
                write_opt_expr(value, out);
            },
            StatementType::Return { return_value } => {
                push_str(out, "return ");
                write_opt_expr(return_value, out);
            },
            StatementType::Expr { expression } => {
                write_opt_expr(expression, out);
            },
        }
        assert(out@ =~= old(out)@ + stmt_string(self@));
    }
}

impl BlockStatement {
    /// A copy of the block.
    pub fn duplicate(&self) -> (r: BlockStatement)
        ensures
            r@ == self@,
        decreases self,
    {
        BlockStatement { statements: dup_stmts(&self.statements) }
    }
}

impl Program {
    /// A program without statements.
    pub fn new() -> (r: Program)
        ensures
            r@ == Seq::<StmtV>::empty(),
    {
        Program { statements: Vec::new() }
    }
}

impl Node {
    /// The printed form of the node (see [`node_string`]).
    pub fn string(&self) -> (r: String)
        ensures
            r@ == node_string(self@),
    {
        let mut out = String::new();
        match self {
            Node::Program(p) => {
                proof {
                    lemma_stmts_v(p.statements@);
                }
                let ghost vs = p@;
                let mut i: usize = 0;
                while i < p.statements.len()
                    invariant
                        i <= p.statements.len(),
                        vs == p@,
                        vs.len() == p.statements@.len(),
                        forall|j: int|
                            0 <= j < p.statements@.len() ==> #[trigger] vs[j] == stmt_v(
                                p.statements@[j],
                            ),
                        out@ == program_string(vs.take(i as int)),
                    decreases p.statements.len() - i,
                {
                    p.statements[i].write(&mut out);
                    proof {
                        assert(vs.take(i + 1).drop_last() =~= vs.take(i as int));
                    }
                    i = i + 1;
                }
                assert(vs.take(i as int) =~= vs);
            },
            Node::Block(b) => write_block(&b.statements, &mut out),
            Node::Statement(s) => s.write(&mut out),
            Node::Expression(e) => e.write(&mut out),
        }
        assert(out@ =~= node_string(self@));
        out
    }

    /// The literal text of a leaf node (see [`node_token_literal`]).
    pub fn token_literal(&self) -> (r: String)
        ensures
            r@ == node_token_literal(self@),
    {
        let mut out = String::new();
        match self {
            Node::Expression(ExpressionType::IntegerLiteral(v)) => push_decimal(&mut out, *v),
            Node::Expression(ExpressionType::Identifier(s)) => push_str(&mut out, s.as_str()),
            Node::Expression(ExpressionType::BooleanLiteral(b)) => {
                if *b {
                    push_str(&mut out, "true");
                } else {
                    push_str(&mut out, "false");
                }
            },
            _ => {},
        }
        assert(out@ =~= node_token_literal(self@));
        out
    }
}


/// The printed form of every prefix and infix application is wrapped in
/// parentheses around its operands and operator.
pub proof fn lemma_operators_print_parenthesized(
    left: Option<Box<ExprV>>,
    operator: Seq<char>,
    right: Option<Box<ExprV>>,
)
    ensures
        expr_string(ExprV::Infix { left, operator, right }) == "("@ + opt_expr_string(left) + " "@
            + operator + " "@ + opt_expr_string(right) + ")"@,
        expr_string(ExprV::Prefix { operator, right }) == "("@ + operator + opt_expr_string(right)
            + ")"@,
{
}

} // verus!
