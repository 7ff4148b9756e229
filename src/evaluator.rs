//! The evaluator: reduces syntax trees to values in an environment, as the
//! spec functions of [`crate::semantics`] state.
use crate::ast::{
    lemma_exprs_v, lemma_stmts_v, opt_expr_v, stmts_v, ExpressionType, Node, Program,
    StatementType,
};
use crate::environment::Environment;
use crate::object::{Object, ObjectV};
use crate::semantics::{
    apply, bind_params, call_scope, divide, error, eval_args, eval_block_from, eval_expr, eval_node,
    eval_opt_expr, eval_program, eval_program_from, eval_stmt, infix_op, integer_op,
    lemma_args_end, lemma_args_step, lemma_bind_step, lemma_block_end, lemma_block_step,
    lemma_program_end, lemma_program_step, magnitude, prefix_op, MAX_DEPTH,
};
use crate::text::{push_str, same_text, string_of};
use vstd::prelude::*;

verus! {

/// The evaluator. It holds no state: all state is in the [`Environment`].
pub struct Evaluator {}

/// The model of a list of values.
pub open spec fn objects_v(s: Seq<Object>) -> Seq<ObjectV> {
    s.map_values(|o: Object| o@)
}

fn error_of(msg: &str) -> (r: Object)
    ensures
        r@ == error(msg@),
{
    Object::Error(string_of(msg))
}

/// An error whose message is `a` + `b`.
fn error2(a: &str, b: &str) -> (r: Object)
    ensures
        r@ == error(a@ + b@),
{
    let mut m = String::new();
    push_str(&mut m, a);
    push_str(&mut m, b);
    assert(m@ =~= a@ + b@);
    Object::Error(m)
}

/// An error whose message is `a` + `b` + `c`.
fn error3(a: &str, b: &str, c: &str) -> (r: Object)
    ensures
        r@ == error(a@ + b@ + c@),
{
    let mut m = String::new();
    push_str(&mut m, a);
    push_str(&mut m, b);
    push_str(&mut m, c);
    assert(m@ =~= a@ + b@ + c@);
    Object::Error(m)
}

/// An error whose message is `a` + `b` + " " + `op` + " " + `c`.
fn error_infix(a: &str, b: &str, op: &str, c: &str) -> (r: Object)
    ensures
        r@ == error(a@ + b@ + " "@ + op@ + " "@ + c@),
{
    let mut m = String::new();
    push_str(&mut m, a);
    push_str(&mut m, b);
    push_str(&mut m, " ");
    push_str(&mut m, op);
    push_str(&mut m, " ");
    push_str(&mut m, c);
    assert(m@ =~= a@ + b@ + " "@ + op@ + " "@ + c@);
    Object::Error(m)
}

fn divide_exec(a: i64, b: i64) -> (r: i64)
    requires
        b != 0,
    ensures
        r == divide(a, b),
{
    if a == i64::MIN && b == -1 {
        return i64::MIN;
    }
    let ma: u64 = if a == i64::MIN {
        9223372036854775808u64
    } else if a < 0 {
        (-a) as u64
    } else {
        a as u64
    };
    let mb: u64 = if b == i64::MIN {
        9223372036854775808u64
    } else if b < 0 {
        (-b) as u64
    } else {
        b as u64
    };
    assert(ma == magnitude(a) && mb == magnitude(b));
    let q = ma / mb;
    assert(q <= ma) by (nonlinear_arith)
        requires
            q == ma / mb,
            mb >= 1,
    ;
    if (a < 0) == (b < 0) {
        assert(q < 9223372036854775808u64) by {
            if a == i64::MIN {
                assert(b < 0 && b != -1);
                assert(mb >= 2);
                assert(q <= ma / 2) by (nonlinear_arith)
                    requires
                        q == ma / mb,
                        mb >= 2,
                ;
            }
        }
        q as i64
    } else {
        (0i128 - (q as i128)) as i64
    }
}

/// Whether `op` is the operator `want`.
fn is_op(op: &String, want: &str) -> (r: bool)
    ensures
        r == (op@ == want@),
{
    same_text(op.as_str(), want)
}

impl Evaluator {
    /// An evaluator.
    pub fn new() -> (r: Evaluator)
        ensures
            r == (Evaluator {}),
    {
        Evaluator {}
    }

    /// Evaluates `node` in the global scope of `env` (see [`eval_node`]).
    pub fn eval(&self, node: &Node, env: &mut Environment) -> (r: Object)
        ensures
            (r@, final(env)@) == eval_node(node@, old(env)@),
    {
        match node {
            Node::Program(p) => self.eval_program(p, env),
            Node::Block(b) => self.eval_block_statement(&b.statements, 0, env, MAX_DEPTH),
            Node::Statement(st) => self.eval_statement(st, 0, env, MAX_DEPTH),
            Node::Expression(e) => self.eval_expression(e, 0, env, MAX_DEPTH),
        }
    }

    /// Evaluates a program in the global scope of `env` (see [`eval_program`]).
    pub fn eval_program(&self, program: &Program, env: &mut Environment) -> (r: Object)
        ensures
            (r@, final(env)@) == eval_program(program@, 0, old(env)@, MAX_DEPTH as nat),
    {
        let stmts = &program.statements;
        let ghost sv = program@;
        proof {
            lemma_stmts_v(stmts@);
        }
        let mut acc = Object::Null;
        let mut i: usize = 0;
        assert(acc@ == ObjectV::Null);
        while i < stmts.len()
            invariant
                i <= stmts.len(),
                sv == program@,
                sv == stmts_v(stmts@),
                sv.len() == stmts@.len(),
                forall|j: int| 0 <= j < stmts@.len() ==> #[trigger] sv[j] == stmts@[j]@,
                eval_program_from(sv, i as int, acc@, 0, env@, MAX_DEPTH as nat) == eval_program(
                    sv,
                    0,
                    old(env)@,
                    MAX_DEPTH as nat,
                ),
            decreases stmts.len() - i,
        {
            let ghost env0 = env@;
            let r = self.eval_statement(&stmts[i], 0, env, MAX_DEPTH);
            proof {
                assert(sv[i as int] == stmts@[i as int]@);
                lemma_program_step(sv, i as int, acc@, 0, env0, MAX_DEPTH as nat);
            }
            let ghost rv = r@;
            match r {
                Object::ReturnValue(inner) => {
                    assert(rv == ObjectV::ReturnValue(Box::new((*inner)@)));
                    return *inner;
                },
                Object::Error(_) => {
                    return r;
                },
                _ => {},
            }
            acc = r;
            i = i + 1;
        }
        proof {
            lemma_program_end(sv, i as int, acc@, 0, env@, MAX_DEPTH as nat);
        }
        acc
    }

    fn eval_opt_expression(
        &self,
        e: &Option<Box<ExpressionType>>,
        s: usize,
        env: &mut Environment,
        fuel: u64,
    ) -> (r: Object)
        ensures
            (r@, final(env)@) == eval_opt_expr(opt_expr_v(*e), s, old(env)@, fuel as nat),
        decreases fuel, 2int,
    {
        match e {
            Some(b) => self.eval_expression(b, s, env, fuel),
            None => Object::Null,
        }
    }

    fn eval_prefix_expression(&self, operator: &String, right: Object) -> (r: Object)
        ensures
            r@ == prefix_op(operator@, right@),
    {
        if is_op(operator, "!") {
            match right {
                Object::Boolean(b) => Object::Boolean(!b),
                Object::Null => Object::Boolean(true),
                _ => Object::Boolean(false),
            }
        } else if is_op(operator, "-") {
            match right {
                Object::Integer(v) => Object::Integer(
                    if v == i64::MIN {
                        v
                    } else {
                        -v
                    },
                ),
                _ => error2("unknown operator: -", right.type_label()),
            }
        } else {
            error3("unknown operator: ", operator.as_str(), right.type_label())
        }
    }

    fn eval_integer_infix_expression(&self, operator: &String, a: i64, b: i64) -> (r: Object)
        ensures
            r@ == integer_op(operator@, a, b),
    {
        if is_op(operator, "+") {
            Object::Integer(a.wrapping_add(b))
        } else if is_op(operator, "-") {
            Object::Integer(a.wrapping_sub(b))
        } else if is_op(operator, "*") {
            Object::Integer(a.wrapping_mul(b))
        } else if is_op(operator, "/") {
            if b == 0 {
                error_of("division by zero")
            } else {
                Object::Integer(divide_exec(a, b))
            }
        } else if is_op(operator, "<") {
            Object::Boolean(a < b)
        } else if is_op(operator, ">") {
            Object::Boolean(a > b)
        } else if is_op(operator, "==") {
            Object::Boolean(a == b)
        } else if is_op(operator, "!=") {
            Object::Boolean(a != b)
        } else {
            error3("unknown operator: INTEGER ", operator.as_str(), " INTEGER")
        }
    }

    fn eval_infix_expression(&self, operator: &String, left: Object, right: Object) -> (r: Object)
        ensures
            r@ == infix_op(operator@, left@, right@),
    {
        match (&left, &right) {
            (Object::Integer(a), Object::Integer(b)) => {
                self.eval_integer_infix_expression(operator, *a, *b)
            },
            (Object::Boolean(a), Object::Boolean(b)) => {
                if is_op(operator, "==") {
                    Object::Boolean(*a == *b)
                } else if is_op(operator, "!=") {
                    Object::Boolean(*a != *b)
                } else {
                    error3("unknown operator: BOOLEAN ", operator.as_str(), " BOOLEAN")
                }
            },
            _ => {
                let lt = left.type_label();
                let rt = right.type_label();
                if !same_text(lt, rt) {
                    error_infix("type mismatch: ", lt, operator.as_str(), rt)
                } else {
                    error_infix("unknown operator: ", lt, operator.as_str(), rt)
                }
            },
        }
    }

    fn eval_expression(&self, e: &ExpressionType, s: usize, env: &mut Environment, fuel: u64) -> (r:
        Object)
        ensures
            (r@, final(env)@) == eval_expr(e@, s, old(env)@, fuel as nat),
        decreases fuel, 1int,
    {
        if fuel == 0 {
            return error_of("evaluation nested too deeply");
        }
        let f = fuel - 1;
        match e {
            ExpressionType::Identifier(name) => match env.get(s, name.as_str()) {
                Some(v) => v,
                None => error2("identifier not found: ", name.as_str()),
            },
            ExpressionType::IntegerLiteral(v) => Object::Integer(*v),
            ExpressionType::BooleanLiteral(b) => Object::Boolean(*b),
            ExpressionType::Prefix { operator, right } => {
                let r = self.eval_opt_expression(right, s, env, f);
                if r.is_error() {
                    r
                } else {
                    self.eval_prefix_expression(operator, r)
                }
            },
            ExpressionType::Infix { left, operator, right } => {
                let l = self.eval_opt_expression(left, s, env, f);
                if l.is_error() {
                    return l;
                }
                let r = self.eval_opt_expression(right, s, env, f);
                if r.is_error() {
                    return r;
                }
                self.eval_infix_expression(operator, l, r)
            },
            ExpressionType::If { condition, consequence, alternative } => {
                let c = self.eval_opt_expression(condition, s, env, f);
                if c.is_error() {
                    return c;
                }
                let truth = match c {
                    Object::Boolean(b) => b,
                    Object::Null => false,
                    _ => true,
                };
                if truth {
                    match consequence {
                        Some(b) => self.eval_block_statement(&b.statements, s, env, f),
                        None => Object::Null,
                    }
                } else {
                    match alternative {
                        Some(b) => self.eval_block_statement(&b.statements, s, env, f),
                        None => Object::Null,
                    }
                }
            },
            ExpressionType::Function { parameters, body } => Object::Function {
                parameters: crate::ast::dup_exprs(parameters),
                body: match body {
                    Some(b) => Some(b.duplicate()),
                    None => None,
                },
                env: s,
            },
            ExpressionType::Call { function, arguments } => match function {
                None => Object::Null,
                Some(fe) => {
                    let fv = self.eval_expression(fe, s, env, f);
                    if fv.is_error() {
                        return fv;
                    }
                    let args = self.eval_expressions(arguments, s, env, f);
                    if args.len() == 1 && args[0].is_error() {
                        return args[0].duplicate();
                    }
                    self.apply_function(&fv, &args, env, f)
                },
            },
        }
    }

    fn eval_expressions(
        &self,
        args: &Vec<ExpressionType>,
        s: usize,
        env: &mut Environment,
        fuel: u64,
    ) -> (r: Vec<Object>)
        ensures
            (objects_v(r@), final(env)@) == eval_args(
                crate::ast::exprs_v(args@),
                0,
                Seq::empty(),
                s,
                old(env)@,
                fuel as nat,
            ),
        decreases fuel, 2int,
    {
        let ghost av = crate::ast::exprs_v(args@);
        proof {
            lemma_exprs_v(args@);
        }
        let mut out: Vec<Object> = Vec::new();
        let mut i: usize = 0;
        assert(objects_v(out@) =~= Seq::<ObjectV>::empty());
        while i < args.len()
            invariant
                i <= args.len(),
                av == crate::ast::exprs_v(args@),
                av.len() == args@.len(),
                forall|j: int| 0 <= j < args@.len() ==> #[trigger] av[j] == args@[j]@,
                eval_args(av, i as int, objects_v(out@), s, env@, fuel as nat) == eval_args(
                    av,
                    0,
                    Seq::empty(),
                    s,
                    old(env)@,
                    fuel as nat,
                ),
            decreases args.len() - i,
        {
            let ghost env0 = env@;
            let v = self.eval_expression(&args[i], s, env, fuel);
            proof {
                assert(av[i as int] == args@[i as int]@);
                lemma_args_step(av, i as int, objects_v(out@), s, env0, fuel as nat);
            }
            if v.is_error() {
                let mut single: Vec<Object> = Vec::new();
                single.push(v);
                assert(objects_v(single@) =~= seq![single@[0]@]);
                return single;
            }
            proof {
                assert(objects_v(out@.push(v)) =~= objects_v(out@).push(v@));
            }
            out.push(v);
            i = i + 1;
        }
        proof {
            lemma_args_end(av, i as int, objects_v(out@), s, env@, fuel as nat);
        }
        out
    }

    fn eval_statement(&self, st: &StatementType, s: usize, env: &mut Environment, fuel: u64) -> (r:
        Object)
        ensures
            (r@, final(env)@) == eval_stmt(st@, s, old(env)@, fuel as nat),
        decreases fuel, 1int,
    {
        if fuel == 0 {
            return error_of("evaluation nested too deeply");
        }
        let f = fuel - 1;
        match st {
            StatementType::Expr { expression } => self.eval_opt_expression(expression, s, env, f),
            StatementType::Return { return_value } => match return_value {
                None => {
                    let null = Object::Null;
                    assert(null@ == ObjectV::Null);
                    let r = Object::ReturnValue(Box::new(null));
                    assert(r@ == ObjectV::ReturnValue(Box::new(ObjectV::Null)));
                    r
                },
                Some(b) => {
                    let v = self.eval_expression(b, s, env, f);
                    if v.is_error() {
                        v
                    } else {
                        Object::ReturnValue(Box::new(v))
                    }
                },
            },
            StatementType::Let { name, value } => match name {
                None => Object::Null,
                Some(n) => match &**n {
                    ExpressionType::Identifier(id) => match value {
                        None => {
                            env.set(s, id.as_str(), Object::Null);
                            Object::Null
                        },
                        Some(b) => {
                            let v = self.eval_expression(b, s, env, f);
                            if v.is_error() {
                                return v;
                            }
                            env.set(s, id.as_str(), v.duplicate());
                            v
                        },
                    },
                    _ => error_of("let statement name must be an identifier"),
                },
            },
        }
    }

    fn eval_block_statement(
        &self,
        stmts: &Vec<StatementType>,
        s: usize,
        env: &mut Environment,
        fuel: u64,
    ) -> (r: Object)
        ensures
            (r@, final(env)@) == eval_block_from(stmts_v(stmts@), 0, ObjectV::Null, s, old(env)@, fuel as nat),
        decreases fuel, 2int,
    {
        let ghost sv = stmts_v(stmts@);
        proof {
            lemma_stmts_v(stmts@);
        }
        let mut acc = Object::Null;
        let mut i: usize = 0;
        assert(acc@ == ObjectV::Null);
        while i < stmts.len()
            invariant
                i <= stmts.len(),
                sv == stmts_v(stmts@),
                sv.len() == stmts@.len(),
                forall|j: int| 0 <= j < stmts@.len() ==> #[trigger] sv[j] == stmts@[j]@,
                eval_block_from(sv, i as int, acc@, s, env@, fuel as nat) == eval_block_from(
                    sv,
                    0,
                    ObjectV::Null,
                    s,
                    old(env)@,
                    fuel as nat,
                ),
            decreases stmts.len() - i,
        {
            let ghost env0 = env@;
            let r = self.eval_statement(&stmts[i], s, env, fuel);
            proof {
                assert(sv[i as int] == stmts@[i as int]@);
                lemma_block_step(sv, i as int, acc@, s, env0, fuel as nat);
            }
            match &r {
                Object::ReturnValue(inner) => {
                    assert(r@ == ObjectV::ReturnValue(Box::new((**inner)@)));
                    match &**inner {
                        Object::Null => {},
                        _ => {
                            assert(!((**inner)@ is Null));
                            return r;
                        },
                    }
                },
                Object::Error(_) => {
                    return r;
                },
                _ => {},
            }
            acc = r;
            i = i + 1;
        }
        proof {
            lemma_block_end(sv, i as int, acc@, s, env@, fuel as nat);
        }
        acc
    }

    fn apply_function(&self, f: &Object, args: &Vec<Object>, env: &mut Environment, fuel: u64) -> (r:
        Object)
        ensures
            (r@, final(env)@) == apply(f@, objects_v(args@), old(env)@, fuel as nat),
        decreases fuel, 0int,
    {
        if fuel == 0 {
            return error_of("evaluation nested too deeply");
        }
        match f {
            Object::Function { parameters, body, env: fenv } => {
                if env.len() == usize::MAX {
                    return error_of("too many scopes");
                }
                let outer = if *fenv < env.len() {
                    Some(*fenv)
                } else {
                    None
                };
                let sc = env.push_scope(outer);
                let ghost fv = f@;
                assert(fv == ObjectV::Function {
                    parameters: crate::ast::exprs_v(parameters@),
                    body: crate::ast::opt_block_v(*body),
                    env: *fenv,
                });
                let ghost pv = crate::ast::exprs_v(parameters@);
                let ghost av = objects_v(args@);
                proof {
                    lemma_exprs_v(parameters@);
                }
                let mut i: usize = 0;
                while i < parameters.len() && i < args.len()
                    invariant
                        pv == crate::ast::exprs_v(parameters@),
                        pv.len() == parameters@.len(),
                        forall|j: int| 0 <= j < parameters@.len() ==> #[trigger] pv[j] == parameters@[j]@,
                        av == objects_v(args@),
                        av.len() == args@.len(),
                        fuel > 0,
                        fv == f@,
                        fv == (ObjectV::Function {
                            parameters: pv,
                            body: crate::ast::opt_block_v(*body),
                            env: *fenv,
                        }),
                        sc == old(env)@.len(),
                        old(env)@.len() < usize::MAX,
                        bind_params(pv, av, i as int, sc, env@) == bind_params(
                            pv,
                            av,
                            0,
                            sc,
                            call_scope(old(env)@, *fenv),
                        ),
                    decreases parameters.len() - i,
                {
                    proof {
                        assert(pv[i as int] == parameters@[i as int]@);
                        lemma_bind_step(pv, av, i as int, sc, env@);
                    }
                    match &parameters[i] {
                        ExpressionType::Identifier(name) => {
                            env.set(sc, name.as_str(), args[i].duplicate());
                        },
                        _ => {
                            assert(!(pv[i as int] is Identifier));
                            let r = error_of("function parameter must be an identifier");
                            assert(bind_params(pv, av, 0, sc, call_scope(old(env)@, *fenv)) == (false, env@));
                            assert(apply(fv, av, old(env)@, fuel as nat) == (r@, env@));
                            return r;
                        },
                    }
                    i = i + 1;
                }
                proof {
                    lemma_bind_step(pv, av, i as int, sc, env@);
                }
                match body {
                    Some(b) => {
                        let r = self.eval_block_statement(&b.statements, sc, env, fuel - 1);
                        match r {
                            Object::ReturnValue(inner) => *inner,
                            _ => r,
                        }
                    },
                    None => Object::Null,
                }
            },
            _ => error2("not a function: ", f.type_label()),
        }
    }
}

} // verus!
