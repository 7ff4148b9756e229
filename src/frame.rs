//! What evaluation leaves alone: evaluating in a scope changes no other scope
//! that existed before, and a function call changes none of them at all, so
//! a call leaves its caller's scopes as they were.
use crate::ast::{ExprV, StmtV};
use crate::environment::{bind, ScopeV};
use crate::object::ObjectV;
use crate::semantics::{
    apply, bind_params, call_scope, eval_args, eval_block_from, eval_expr, eval_opt_expr,
    eval_stmt, lemma_args_end, lemma_args_step, lemma_bind_step, lemma_block_end,
    lemma_block_step, unwrap_return,
};
use crate::calls::lemma_apply_unfold;
use vstd::prelude::*;

verus! {

/// `after` keeps every scope of `before` but scope `s`, and adds scopes only
/// at the end.
pub open spec fn keeps_others(before: Seq<ScopeV>, after: Seq<ScopeV>, s: int) -> bool {
    &&& before.len() <= after.len()
    &&& forall|i: int| 0 <= i < before.len() && i != s ==> #[trigger] after[i] == before[i]
}

proof fn lemma_keeps_trans(a: Seq<ScopeV>, b: Seq<ScopeV>, c: Seq<ScopeV>, s: int, t: int)
    requires
        keeps_others(a, b, s),
        keeps_others(b, c, t),
        t == s || t < 0 || t >= a.len(),
    ensures
        keeps_others(a, c, s),
{
    assert forall|i: int| 0 <= i < a.len() && i != s implies #[trigger] c[i] == a[i] by {
        assert(b[i] == a[i]);
        assert(c[i] == b[i]);
    }
}

pub proof fn lemma_expr_keeps(e: ExprV, s: usize, env: Seq<ScopeV>, fuel: nat)
    ensures
        keeps_others(env, eval_expr(e, s, env, fuel).1, s as int),
    decreases fuel, 1int,
{
    if fuel > 0 {
        let f = (fuel - 1) as nat;
        match e {
            ExprV::Prefix { operator, right } => {
                lemma_opt_keeps(right, s, env, f);
            },
            ExprV::Infix { left, operator, right } => {
                lemma_opt_keeps(left, s, env, f);
                let (l, env1) = eval_opt_expr(left, s, env, f);
                lemma_opt_keeps(right, s, env1, f);
                lemma_keeps_trans(env, env1, eval_opt_expr(right, s, env1, f).1, s as int, s as int);
            },
            ExprV::If { condition, consequence, alternative } => {
                lemma_opt_keeps(condition, s, env, f);
                let (c, env1) = eval_opt_expr(condition, s, env, f);
                match consequence {
                    Some(b) => {
                        lemma_block_keeps(b, 0, ObjectV::Null, s, env1, f);
                        lemma_keeps_trans(
                            env,
                            env1,
                            eval_block_from(b, 0, ObjectV::Null, s, env1, f).1,
                            s as int,
                            s as int,
                        );
                    },
                    None => {},
                }
                match alternative {
                    Some(b) => {
                        lemma_block_keeps(b, 0, ObjectV::Null, s, env1, f);
                        lemma_keeps_trans(
                            env,
                            env1,
                            eval_block_from(b, 0, ObjectV::Null, s, env1, f).1,
                            s as int,
                            s as int,
                        );
                    },
                    None => {},
                }
            },
            ExprV::Call { function, arguments } => match function {
                None => {},
                Some(fe) => {
                    lemma_expr_keeps(*fe, s, env, f);
                    let (fv, env1) = eval_expr(*fe, s, env, f);
                    lemma_args_keeps(arguments, 0, Seq::empty(), s, env1, f);
                    let (args, env2) = eval_args(arguments, 0, Seq::empty(), s, env1, f);
                    lemma_keeps_trans(env, env1, env2, s as int, s as int);
                    lemma_apply_keeps(fv, args, env2, f);
                    lemma_keeps_trans(env, env2, apply(fv, args, env2, f).1, s as int, -1);
                },
            },
            _ => {},
        }
    }
}

pub proof fn lemma_opt_keeps(e: Option<Box<ExprV>>, s: usize, env: Seq<ScopeV>, fuel: nat)
    ensures
        keeps_others(env, eval_opt_expr(e, s, env, fuel).1, s as int),
    decreases fuel, 2int,
{
    match e {
        Some(b) => lemma_expr_keeps(*b, s, env, fuel),
        None => {},
    }
}

pub proof fn lemma_args_keeps(
    args: Seq<ExprV>,
    i: int,
    acc: Seq<ObjectV>,
    s: usize,
    env: Seq<ScopeV>,
    fuel: nat,
)
    requires
        0 <= i <= args.len(),
    ensures
        keeps_others(env, eval_args(args, i, acc, s, env, fuel).1, s as int),
    decreases fuel, args.len() - i + 2,
{
    if i < args.len() {
        lemma_args_step(args, i, acc, s, env, fuel);
        lemma_expr_keeps(args[i], s, env, fuel);
        let (v, env1) = eval_expr(args[i], s, env, fuel);
        if !(v is Error) {
            lemma_args_keeps(args, i + 1, acc.push(v), s, env1, fuel);
            lemma_keeps_trans(
                env,
                env1,
                eval_args(args, i + 1, acc.push(v), s, env1, fuel).1,
                s as int,
                s as int,
            );
        }
    } else {
        lemma_args_end(args, i, acc, s, env, fuel);
    }
}

pub proof fn lemma_stmt_keeps(st: StmtV, s: usize, env: Seq<ScopeV>, fuel: nat)
    ensures
        keeps_others(env, eval_stmt(st, s, env, fuel).1, s as int),
    decreases fuel, 1int,
{
    if fuel > 0 {
        let f = (fuel - 1) as nat;
        match st {
            StmtV::Expr { expression } => lemma_opt_keeps(expression, s, env, f),
            StmtV::Return { value } => match value {
                Some(b) => lemma_expr_keeps(*b, s, env, f),
                None => {},
            },
            StmtV::Let { name, value } => match name {
                Some(n) => match *n {
                    ExprV::Identifier(id) => match value {
                        Some(b) => {
                            lemma_expr_keeps(*b, s, env, f);
                            let (v, env1) = eval_expr(*b, s, env, f);
                            assert(keeps_others(env1, bind(env1, s as int, id, v), s as int));
                            lemma_keeps_trans(env, env1, bind(env1, s as int, id, v), s as int, s as int);
                        },
                        None => {
                            assert(keeps_others(env, bind(env, s as int, id, ObjectV::Null), s as int));
                        },
                    },
                    _ => {},
                },
                None => {},
            },
        }
    }
}

pub proof fn lemma_block_keeps(
    stmts: Seq<StmtV>,
    i: int,
    acc: ObjectV,
    s: usize,
    env: Seq<ScopeV>,
    fuel: nat,
)
    requires
        0 <= i <= stmts.len(),
    ensures
        keeps_others(env, eval_block_from(stmts, i, acc, s, env, fuel).1, s as int),
    decreases fuel, stmts.len() - i + 2,
{
    if i < stmts.len() {
        lemma_block_step(stmts, i, acc, s, env, fuel);
        lemma_stmt_keeps(stmts[i], s, env, fuel);
        let (r, env1) = eval_stmt(stmts[i], s, env, fuel);
        lemma_block_keeps(stmts, i + 1, r, s, env1, fuel);
        lemma_keeps_trans(
            env,
            env1,
            eval_block_from(stmts, i + 1, r, s, env1, fuel).1,
            s as int,
            s as int,
        );
    } else {
        lemma_block_end(stmts, i, acc, s, env, fuel);
    }
}

proof fn lemma_bind_keeps(params: Seq<ExprV>, args: Seq<ObjectV>, i: int, s: usize, env: Seq<ScopeV>)
    requires
        0 <= i,
    ensures
        keeps_others(env, bind_params(params, args, i, s, env).1, s as int),
    decreases params.len() - i,
{
    lemma_bind_step(params, args, i, s, env);
    if i < params.len() && i < args.len() {
        match params[i] {
            ExprV::Identifier(name) => {
                let env1 = bind(env, s as int, name, args[i]);
                assert(keeps_others(env, env1, s as int));
                lemma_bind_keeps(params, args, i + 1, s, env1);
                lemma_keeps_trans(
                    env,
                    env1,
                    bind_params(params, args, i + 1, s, env1).1,
                    s as int,
                    s as int,
                );
            },
            _ => {},
        }
    }
}

/// A function call changes none of the scopes that existed before it: its
/// bindings go to the new scope of the call. Its value is that of the body
/// with one `ReturnValue` unwrapped, so a `return` in the body is seen by this
/// call alone.
pub proof fn lemma_apply_keeps(f: ObjectV, args: Seq<ObjectV>, env: Seq<ScopeV>, fuel: nat)
    ensures
        keeps_others(env, apply(f, args, env, fuel).1, -1),
        fuel > 0 && env.len() < usize::MAX ==> (f matches ObjectV::Function { parameters, body: Some(b), env: fenv } ==> {
            let sc = env.len() as usize;
            let bound = bind_params(parameters, args, 0, sc, call_scope(env, fenv));
            bound.0 ==> apply(f, args, env, fuel).0 == unwrap_return(
                eval_block_from(b, 0, ObjectV::Null, sc, bound.1, (fuel - 1) as nat).0,
            )
        }),
    decreases fuel, 0int,
{
    if fuel > 0 {
        match f {
            ObjectV::Function { parameters, body, env: fenv } => {
                if env.len() < usize::MAX {
                    lemma_apply_unfold(parameters, body, fenv, args, env, fuel);
                    let sc = env.len() as usize;
                    let env0 = call_scope(env, fenv);
                    assert(keeps_others(env, env0, -1));
                    lemma_bind_keeps(parameters, args, 0, sc, env0);
                    let (ok, env1) = bind_params(parameters, args, 0, sc, env0);
                    lemma_keeps_trans(env, env0, env1, -1, sc as int);
                    if ok {
                        match body {
                            Some(b) => {
                                let fl = (fuel - 1) as nat;
                                let (r, env2) = eval_block_from(b, 0, ObjectV::Null, sc, env1, fl);
                                assert(apply(f, args, env, fuel).1 == env2);
                                lemma_block_keeps(b, 0, ObjectV::Null, sc, env1, fl);
                                lemma_keeps_trans(env, env1, env2, -1, sc as int);
                            },
                            None => {
                                assert(apply(f, args, env, fuel) == (ObjectV::Null, env1));
                            },
                        }
                    } else {
                        assert(apply(f, args, env, fuel).1 == env1);
                    }
                } else {
                    assert(apply(f, args, env, fuel).1 == env);
                }
            },
            _ => {
                assert(apply(f, args, env, fuel).1 == env);
            },
        }
    } else {
        assert(apply(f, args, env, fuel).1 == env);
    }
}

} // verus!
