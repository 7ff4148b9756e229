//! How a call of a function value unfolds.
use crate::ast::{ExprV, StmtV};
use crate::environment::ScopeV;
use crate::object::ObjectV;
use crate::semantics::{apply, bind_params, call_scope, error, eval_block_from, unwrap_return};
use vstd::prelude::*;

verus! {

/// One step of [`apply`] on a function value.
pub proof fn lemma_apply_unfold(
    parameters: Seq<ExprV>,
    body: Option<Seq<StmtV>>,
    fenv: usize,
    args: Seq<ObjectV>,
    env: Seq<ScopeV>,
    fuel: nat,
)
    requires
        fuel > 0,
        env.len() < usize::MAX,
    ensures
        ({
            let sc = env.len() as usize;
            let bound = bind_params(parameters, args, 0, sc, call_scope(env, fenv));
            apply(ObjectV::Function { parameters, body, env: fenv }, args, env, fuel) == if !bound.0 {
                (error("function parameter must be an identifier"@), bound.1)
            } else if body is Some {
                (
                    unwrap_return(
                        eval_block_from(body->0, 0, ObjectV::Null, sc, bound.1, (fuel - 1) as nat).0,
                    ),
                    eval_block_from(body->0, 0, ObjectV::Null, sc, bound.1, (fuel - 1) as nat).1,
                )
            } else {
                (ObjectV::Null, bound.1)
            }
        }),
{
    let sc = env.len() as usize;
    let bound = bind_params(parameters, args, 0, sc, call_scope(env, fenv));
    match body {
        Some(b) => {
            let fv = ObjectV::Function { parameters, body: Some(b), env: fenv };
            if bound.0 {
                let res = eval_block_from(b, 0, ObjectV::Null, sc, bound.1, (fuel - 1) as nat);
                assert(apply(fv, args, env, fuel) == (unwrap_return(res.0), res.1));
            } else {
                assert(apply(fv, args, env, fuel) == (
                    error("function parameter must be an identifier"@),
                    bound.1,
                ));
            }
        },
        None => {},
    }
}

} // verus!
