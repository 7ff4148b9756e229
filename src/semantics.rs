//! What evaluation produces, stated as spec functions.
//!
//! Each function takes the scope to evaluate in, the environment before, and
//! a bound on how deeply evaluation may nest; each gives the value and the
//! environment after.
use crate::ast::{ExprV, NodeV, StmtV};
use crate::environment::{add_scope, bind, lookup, ScopeV};
use crate::object::{type_name_of, ObjectV};
use vstd::prelude::*;

verus! {


/// How deeply evaluation may nest before it stops with an error.
pub const MAX_DEPTH: u64 = 3000;

/// The value and the environment that an evaluation step leaves.
pub type Outcome = (ObjectV, Seq<ScopeV>);

pub open spec fn error(msg: Seq<char>) -> ObjectV {
    ObjectV::Error(msg)
}

/// The error of an evaluation that nests more deeply than allowed.
pub open spec fn too_deep() -> ObjectV {
    error("evaluation nested too deeply"@)
}

/// Everything but `false` and `Null` counts as true.
pub open spec fn truthy(o: ObjectV) -> bool {
    match o {
        ObjectV::Boolean(b) => b,
        ObjectV::Null => false,
        _ => true,
    }
}

/// Two's-complement negation (the negation of `i64::MIN` is itself).
pub open spec fn negate(v: i64) -> i64 {
    if v == i64::MIN {
        v
    } else {
        (-v) as i64
    }
}

pub open spec fn magnitude(v: i64) -> nat {
    if v < 0 {
        (-(v as int)) as nat
    } else {
        v as nat
    }
}

/// Division rounding toward zero; `i64::MIN / -1` wraps to `i64::MIN`.
pub open spec fn divide(a: i64, b: i64) -> i64
    recommends
        b != 0,
{
    let q = magnitude(a) / magnitude(b);
    if a == i64::MIN && b == -1 {
        i64::MIN
    } else if (a < 0) == (b < 0) {
        q as i64
    } else {
        (-(q as int)) as i64
    }
}

/// A prefix operator applied to a value.
pub open spec fn prefix_op(op: Seq<char>, r: ObjectV) -> ObjectV {
    if op == "!"@ {
        match r {
            ObjectV::Boolean(b) => ObjectV::Boolean(!b),
            ObjectV::Null => ObjectV::Boolean(true),
            _ => ObjectV::Boolean(false),
        }
    } else if op == "-"@ {
        match r {
            ObjectV::Integer(v) => ObjectV::Integer(negate(v)),
            _ => error("unknown operator: -"@ + type_name_of(r)),
        }
    } else {
        error("unknown operator: "@ + op + type_name_of(r))
    }
}

/// An infix operator applied to two integers; `+ - *` wrap on overflow.
pub open spec fn integer_op(op: Seq<char>, a: i64, b: i64) -> ObjectV {
    if op == "+"@ {
        ObjectV::Integer(a.wrapping_add(b))
    } else if op == "-"@ {
        ObjectV::Integer(a.wrapping_sub(b))
    } else if op == "*"@ {
        ObjectV::Integer(a.wrapping_mul(b))
    } else if op == "/"@ {
        if b == 0 {
            error("division by zero"@)
        } else {
            ObjectV::Integer(divide(a, b))
        }
    } else if op == "<"@ {
        ObjectV::Boolean(a < b)
    } else if op == ">"@ {
        ObjectV::Boolean(a > b)
    } else if op == "=="@ {
        ObjectV::Boolean(a == b)
    } else if op == "!="@ {
        ObjectV::Boolean(a != b)
    } else {
        error("unknown operator: INTEGER "@ + op + " INTEGER"@)
    }
}

/// An infix operator applied to two values.
pub open spec fn infix_op(op: Seq<char>, l: ObjectV, r: ObjectV) -> ObjectV {
    match (l, r) {
        (ObjectV::Integer(a), ObjectV::Integer(b)) => integer_op(op, a, b),
        (ObjectV::Boolean(a), ObjectV::Boolean(b)) => if op == "=="@ {
            ObjectV::Boolean(a == b)
        } else if op == "!="@ {
            ObjectV::Boolean(a != b)
        } else {
            error("unknown operator: BOOLEAN "@ + op + " BOOLEAN"@)
        },
        _ => if type_name_of(l) != type_name_of(r) {
            error("type mismatch: "@ + type_name_of(l) + " "@ + op + " "@ + type_name_of(r))
        } else {
            error("unknown operator: "@ + type_name_of(l) + " "@ + op + " "@ + type_name_of(r))
        },
    }
}

/// The value inside a `ReturnValue`; any other value as it is.
pub open spec fn unwrap_return(o: ObjectV) -> ObjectV {
    match o {
        ObjectV::ReturnValue(b) => *b,
        _ => o,
    }
}

/// Evaluation of an expression.
pub open spec fn eval_expr(e: ExprV, s: usize, env: Seq<ScopeV>, fuel: nat) -> Outcome
    decreases fuel, 1int,
{
    if fuel == 0 {
        (too_deep(), env)
    } else {
        let f = (fuel - 1) as nat;
        match e {
            ExprV::Identifier(name) => (
                match lookup(env, s as int, name) {
                    Some(v) => v,
                    None => error("identifier not found: "@ + name),
                },
                env,
            ),
            ExprV::IntegerLiteral(v) => (ObjectV::Integer(v), env),
            ExprV::BooleanLiteral(b) => (ObjectV::Boolean(b), env),
            ExprV::Prefix { operator, right } => {
                let (r, env1) = eval_opt_expr(right, s, env, f);
                if r is Error {
                    (r, env1)
                } else {
                    (prefix_op(operator, r), env1)
                }
            },
            ExprV::Infix { left, operator, right } => {
                let (l, env1) = eval_opt_expr(left, s, env, f);
                if l is Error {
                    (l, env1)
                } else {
                    let (r, env2) = eval_opt_expr(right, s, env1, f);
                    if r is Error {
                        (r, env2)
                    } else {
                        (infix_op(operator, l, r), env2)
                    }
                }
            },
            ExprV::If { condition, consequence, alternative } => {
                let (c, env1) = eval_opt_expr(condition, s, env, f);
                if c is Error {
                    (c, env1)
                } else if truthy(c) {
                    match consequence {
                        Some(b) => eval_block_from(b, 0, ObjectV::Null, s, env1, f),
                        None => (ObjectV::Null, env1),
                    }
                } else {
                    match alternative {
                        Some(b) => eval_block_from(b, 0, ObjectV::Null, s, env1, f),
                        None => (ObjectV::Null, env1),
                    }
                }
            },
            ExprV::Function { parameters, body } => (
                ObjectV::Function { parameters, body, env: s },
                env,
            ),
            ExprV::Call { function, arguments } => match function {
                None => (ObjectV::Null, env),
                Some(fe) => {
                    let (fv, env1) = eval_expr(*fe, s, env, f);
                    if fv is Error {
                        (fv, env1)
                    } else {
                        let (args, env2) = eval_args(arguments, 0, Seq::empty(), s, env1, f);
                        if args.len() == 1 && args[0] is Error {
                            (args[0], env2)
                        } else {
                            apply(fv, args, env2, f)
                        }
                    }
                },
            },
        }
    }
}

/// Evaluation of an expression that may be absent (absent gives `Null`).
pub open spec fn eval_opt_expr(e: Option<Box<ExprV>>, s: usize, env: Seq<ScopeV>, fuel: nat) -> Outcome
    decreases fuel, 2int,
{
    match e {
        Some(b) => eval_expr(*b, s, env, fuel),
        None => (ObjectV::Null, env),
    }
}

/// Evaluation of call arguments from the `i`-th on, left to right, after the
/// values `acc`; the first error is returned alone.
#[verifier::opaque]
pub open spec fn eval_args(
    args: Seq<ExprV>,
    i: int,
    acc: Seq<ObjectV>,
    s: usize,
    env: Seq<ScopeV>,
    fuel: nat,
) -> (Seq<ObjectV>, Seq<ScopeV>)
    decreases fuel, args.len() - i + 2,
{
    if i < 0 || i >= args.len() {
        (acc, env)
    } else {
        let (v, env1) = eval_expr(args[i], s, env, fuel);
        if v is Error {
            (seq![v], env1)
        } else {
            eval_args(args, i + 1, acc.push(v), s, env1, fuel)
        }
    }
}

/// Evaluation of a statement.
pub open spec fn eval_stmt(st: StmtV, s: usize, env: Seq<ScopeV>, fuel: nat) -> Outcome
    decreases fuel, 1int,
{
    if fuel == 0 {
        (too_deep(), env)
    } else {
        let f = (fuel - 1) as nat;
        match st {
            StmtV::Expr { expression } => eval_opt_expr(expression, s, env, f),
            StmtV::Return { value } => match value {
                None => (ObjectV::ReturnValue(Box::new(ObjectV::Null)), env),
                Some(b) => {
                    let (v, env1) = eval_expr(*b, s, env, f);
                    if v is Error {
                        (v, env1)
                    } else {
                        (ObjectV::ReturnValue(Box::new(v)), env1)
                    }
                },
            },
            StmtV::Let { name, value } => match name {
                None => (ObjectV::Null, env),
                Some(n) => match *n {
                    ExprV::Identifier(id) => match value {
                        None => (ObjectV::Null, bind(env, s as int, id, ObjectV::Null)),
                        Some(b) => {
                            let (v, env1) = eval_expr(*b, s, env, f);
                            if v is Error {
                                (v, env1)
                            } else {
                                (v, bind(env1, s as int, id, v))
                            }
                        },
                    },
                    _ => (error("let statement name must be an identifier"@), env),
                },
            },
        }
    }
}

/// Evaluation of the statements of a block from the `i`-th on, in the same
/// scope, after a statement that gave `acc`. A `ReturnValue` around a value
/// other than `Null`, or an error, ends the block and is its value.
#[verifier::opaque]
pub open spec fn eval_block_from(
    stmts: Seq<StmtV>,
    i: int,
    acc: ObjectV,
    s: usize,
    env: Seq<ScopeV>,
    fuel: nat,
) -> Outcome
    decreases fuel, stmts.len() - i + 2,
{
    if i < 0 || i >= stmts.len() {
        (acc, env)
    } else {
        let (r, env1) = eval_stmt(stmts[i], s, env, fuel);
        match r {
            ObjectV::ReturnValue(inner) => if *inner is Null {
                eval_block_from(stmts, i + 1, r, s, env1, fuel)
            } else {
                (r, env1)
            },
            ObjectV::Error(_) => (r, env1),
            _ => eval_block_from(stmts, i + 1, r, s, env1, fuel),
        }
    }
}

/// Binding the parameters of a function from the `i`-th on to the arguments,
/// in scope `s`; `false` when a parameter is not an identifier.
#[verifier::opaque]
pub open spec fn bind_params(
    params: Seq<ExprV>,
    args: Seq<ObjectV>,
    i: int,
    s: usize,
    env: Seq<ScopeV>,
) -> (bool, Seq<ScopeV>)
    decreases params.len() - i,
{
    if i < 0 || i >= params.len() || i >= args.len() {
        (true, env)
    } else {
        match params[i] {
            ExprV::Identifier(name) => bind_params(
                params,
                args,
                i + 1,
                s,
                bind(env, s as int, name, args[i]),
            ),
            _ => (false, env),
        }
    }
}

/// `env` with the new scope of a call of a function value that refers to
/// scope `fenv`: enclosed by `fenv`, or by no scope when `fenv` is not a scope
/// of `env` (a function value that did not come from this environment).
pub open spec fn call_scope(env: Seq<ScopeV>, fenv: usize) -> Seq<ScopeV> {
    add_scope(env, if fenv < env.len() { Some(fenv) } else { None })
}

/// Application of a function value to argument values: the body runs in a new
/// scope enclosed by the function's own scope, and a `ReturnValue` is
/// unwrapped once.
pub open spec fn apply(f: ObjectV, args: Seq<ObjectV>, env: Seq<ScopeV>, fuel: nat) -> Outcome
    decreases fuel, 0int,
{
    if fuel == 0 {
        (too_deep(), env)
    } else {
        match f {
            ObjectV::Function { parameters, body, env: fenv } => if env.len() >= usize::MAX {
                (error("too many scopes"@), env)
            } else {
                let sc = env.len() as usize;
                let (ok, env1) = bind_params(parameters, args, 0, sc, call_scope(env, fenv));
                if !ok {
                    (error("function parameter must be an identifier"@), env1)
                } else {
                    match body {
                        Some(b) => {
                            let (r, env2) = eval_block_from(b, 0, ObjectV::Null, sc, env1, (fuel - 1) as nat);
                            (unwrap_return(r), env2)
                        },
                        None => (ObjectV::Null, env1),
                    }
                }
            },
            _ => (error("not a function: "@ + type_name_of(f)), env),
        }
    }
}

/// Evaluation of the statements of a program from the `i`-th on, after a
/// statement that gave `acc`: a `ReturnValue` is unwrapped and ends the
/// program, as does an error.
#[verifier::opaque]
pub open spec fn eval_program_from(
    stmts: Seq<StmtV>,
    i: int,
    acc: ObjectV,
    s: usize,
    env: Seq<ScopeV>,
    fuel: nat,
) -> Outcome
    decreases stmts.len() - i,
{
    if i < 0 || i >= stmts.len() {
        (acc, env)
    } else {
        let (r, env1) = eval_stmt(stmts[i], s, env, fuel);
        match r {
            ObjectV::ReturnValue(inner) => (*inner, env1),
            ObjectV::Error(_) => (r, env1),
            _ => eval_program_from(stmts, i + 1, r, s, env1, fuel),
        }
    }
}

/// Evaluation of a program: `Null` when it is empty.
pub open spec fn eval_program(stmts: Seq<StmtV>, s: usize, env: Seq<ScopeV>, fuel: nat) -> Outcome {
    eval_program_from(stmts, 0, ObjectV::Null, s, env, fuel)
}

/// Evaluation of any node in the global scope.
pub open spec fn eval_node(n: NodeV, env: Seq<ScopeV>) -> Outcome {
    match n {
        NodeV::Program(s) => eval_program(s, 0, env, MAX_DEPTH as nat),
        NodeV::Block(s) => eval_block_from(s, 0, ObjectV::Null, 0, env, MAX_DEPTH as nat),
        NodeV::Statement(st) => eval_stmt(st, 0, env, MAX_DEPTH as nat),
        NodeV::Expression(e) => eval_expr(e, 0, env, MAX_DEPTH as nat),
    }
}



/// One step of [`eval_block_from`].
pub proof fn lemma_block_step(stmts: Seq<StmtV>, i: int, acc: ObjectV, s: usize, env: Seq<ScopeV>, fuel: nat)
    requires
        0 <= i < stmts.len(),
    ensures
        eval_block_from(stmts, i, acc, s, env, fuel) == ({
            let (r, env1) = eval_stmt(stmts[i], s, env, fuel);
            match r {
                ObjectV::ReturnValue(inner) => if *inner is Null {
                    eval_block_from(stmts, i + 1, r, s, env1, fuel)
                } else {
                    (r, env1)
                },
                ObjectV::Error(_) => (r, env1),
                _ => eval_block_from(stmts, i + 1, r, s, env1, fuel),
            }
        }),
{
    reveal(eval_block_from);
}

/// The end of [`eval_block_from`].
pub proof fn lemma_block_end(stmts: Seq<StmtV>, i: int, acc: ObjectV, s: usize, env: Seq<ScopeV>, fuel: nat)
    requires
        i == stmts.len(),
    ensures
        eval_block_from(stmts, i, acc, s, env, fuel) == (acc, env),
{
    reveal(eval_block_from);
}

/// One step of [`eval_program_from`].
pub proof fn lemma_program_step(stmts: Seq<StmtV>, i: int, acc: ObjectV, s: usize, env: Seq<ScopeV>, fuel: nat)
    requires
        0 <= i < stmts.len(),
    ensures
        eval_program_from(stmts, i, acc, s, env, fuel) == ({
            let (r, env1) = eval_stmt(stmts[i], s, env, fuel);
            match r {
                ObjectV::ReturnValue(inner) => (*inner, env1),
                ObjectV::Error(_) => (r, env1),
                _ => eval_program_from(stmts, i + 1, r, s, env1, fuel),
            }
        }),
{
    reveal(eval_program_from);
}

/// The end of [`eval_program_from`].
pub proof fn lemma_program_end(stmts: Seq<StmtV>, i: int, acc: ObjectV, s: usize, env: Seq<ScopeV>, fuel: nat)
    requires
        i == stmts.len(),
    ensures
        eval_program_from(stmts, i, acc, s, env, fuel) == (acc, env),
{
    reveal(eval_program_from);
}

/// One step of [`eval_args`].
pub proof fn lemma_args_step(args: Seq<ExprV>, i: int, acc: Seq<ObjectV>, s: usize, env: Seq<ScopeV>, fuel: nat)
    requires
        0 <= i < args.len(),
    ensures
        eval_args(args, i, acc, s, env, fuel) == ({
            let (v, env1) = eval_expr(args[i], s, env, fuel);
            if v is Error {
                (seq![v], env1)
            } else {
                eval_args(args, i + 1, acc.push(v), s, env1, fuel)
            }
        }),
{
    reveal(eval_args);
}

/// The end of [`eval_args`].
pub proof fn lemma_args_end(args: Seq<ExprV>, i: int, acc: Seq<ObjectV>, s: usize, env: Seq<ScopeV>, fuel: nat)
    requires
        i == args.len(),
    ensures
        eval_args(args, i, acc, s, env, fuel) == (acc, env),
{
    reveal(eval_args);
}

/// One step of [`bind_params`].
pub proof fn lemma_bind_step(params: Seq<ExprV>, args: Seq<ObjectV>, i: int, s: usize, env: Seq<ScopeV>)
    requires
        0 <= i,
    ensures
        bind_params(params, args, i, s, env) == (if i >= params.len() || i >= args.len() {
            (true, env)
        } else {
            match params[i] {
                ExprV::Identifier(name) => bind_params(
                    params,
                    args,
                    i + 1,
                    s,
                    bind(env, s as int, name, args[i]),
                ),
                _ => (false, env),
            }
        }),
{
    reveal(bind_params);
}


/// Evaluation depends on nothing but the node and the environment before it:
/// the same node in equal environments gives the same value and the same
/// environment after.
pub proof fn lemma_evaluation_is_deterministic(
    n1: NodeV,
    n2: NodeV,
    env1: Seq<ScopeV>,
    env2: Seq<ScopeV>,
)
    requires
        n1 == n2,
        env1 == env2,
    ensures
        eval_node(n1, env1) == eval_node(n2, env2),
{
}

/// A function literal evaluates to a function value that refers to the scope
/// it was evaluated in, and leaves the environment as it was.
pub proof fn lemma_function_literal_captures_scope(
    parameters: Seq<ExprV>,
    body: Option<Seq<StmtV>>,
    s: usize,
    env: Seq<ScopeV>,
    fuel: nat,
)
    requires
        fuel > 0,
    ensures
        eval_expr(ExprV::Function { parameters, body }, s, env, fuel) == (
            ObjectV::Function { parameters, body, env: s },
            env,
        ),
{
}

/// Whether, evaluating the statements of a program from the `i`-th on, one
/// gives a `ReturnValue` wrapped around another `ReturnValue` before the
/// program stops (as `return if (c) { return 1; };` does).
pub open spec fn nested_return_from(
    stmts: Seq<StmtV>,
    i: int,
    s: usize,
    env: Seq<ScopeV>,
    fuel: nat,
) -> bool
    decreases stmts.len() - i,
{
    if i < 0 || i >= stmts.len() {
        false
    } else {
        let (r, env1) = eval_stmt(stmts[i], s, env, fuel);
        match r {
            ObjectV::ReturnValue(inner) => *inner is ReturnValue,
            ObjectV::Error(_) => false,
            _ => nested_return_from(stmts, i + 1, s, env1, fuel),
        }
    }
}

proof fn lemma_program_from_unwraps(
    stmts: Seq<StmtV>,
    i: int,
    acc: ObjectV,
    s: usize,
    env: Seq<ScopeV>,
    fuel: nat,
)
    requires
        0 <= i <= stmts.len(),
        !(acc is ReturnValue),
    ensures
        eval_program_from(stmts, i, acc, s, env, fuel).0 is ReturnValue <==> nested_return_from(
            stmts,
            i,
            s,
            env,
            fuel,
        ),
    decreases stmts.len() - i,
{
    if i == stmts.len() {
        lemma_program_end(stmts, i, acc, s, env, fuel);
    } else {
        lemma_program_step(stmts, i, acc, s, env, fuel);
        let (r, env1) = eval_stmt(stmts[i], s, env, fuel);
        match r {
            ObjectV::ReturnValue(_) => {},
            ObjectV::Error(_) => {},
            _ => {
                lemma_program_from_unwraps(stmts, i + 1, r, s, env1, fuel);
            },
        }
    }
}

/// The value of a program is a `ReturnValue` exactly when one of its
/// statements evaluated to a `ReturnValue` wrapped around another one: the
/// program unwraps the `ReturnValue` of a `return` once, so in every other
/// case no `ReturnValue` comes out of a program.
pub proof fn lemma_program_unwraps_return(stmts: Seq<StmtV>, s: usize, env: Seq<ScopeV>, fuel: nat)
    ensures
        eval_program(stmts, s, env, fuel).0 is ReturnValue <==> nested_return_from(
            stmts,
            0,
            s,
            env,
            fuel,
        ),
{
    lemma_program_from_unwraps(stmts, 0, ObjectV::Null, s, env, fuel);
}

} // verus!
