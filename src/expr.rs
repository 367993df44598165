use vstd::prelude::*;

use crate::environment::{call_name_spec, Environment};
use crate::host::Host;
use crate::runtime::{result_model, EnvModel, RuntimeError};
use crate::value::{same_value, assoc_get, items_model, model, AsonValue, ValueModel};

verus! {

/// An expression form, built while parsing and evaluated at once: a
/// literal, a symbol, or a call whose callee comes after its arguments.
#[derive(Debug)]
pub enum AsonExpr {
    Value(AsonValue),
    Symbol(String),
    ExprS(Vec<AsonExpr>, String),
    Empty,
}

/// An expression as a mathematical object.
pub enum ExprModel {
    Value(ValueModel),
    Symbol(Seq<char>),
    Call(Seq<ExprModel>, Seq<char>),
    Empty,
}

pub open spec fn expr_model(e: AsonExpr) -> ExprModel
    decreases e, 0int,
{
    match e {
        AsonExpr::Value(v) => ExprModel::Value(model(v)),
        AsonExpr::Symbol(s) => ExprModel::Symbol(s@),
        AsonExpr::ExprS(ps, callee) => ExprModel::Call(exprs_model(ps@), callee@),
        AsonExpr::Empty => ExprModel::Empty,
    }
}

pub open spec fn exprs_model(s: Seq<AsonExpr>) -> Seq<ExprModel>
    decreases s, 1int,
{
    if s.len() == 0 {
        Seq::empty()
    } else {
        exprs_model(s.drop_last()).push(expr_model(s.last()))
    }
}

pub proof fn lemma_exprs_model(s: Seq<AsonExpr>)
    ensures
        exprs_model(s).len() == s.len(),
        forall|i: int| 0 <= i < s.len() ==> #[trigger] exprs_model(s)[i] == expr_model(s[i]),
    decreases s.len(),
{
    if s.len() > 0 {
        lemma_exprs_model(s.drop_last());
    }
}

/// The value of an expression and the environment after it, arguments
/// evaluated left to right, each fully before the next; `None` where the
/// host decides (a file read).
pub open spec fn eval_spec(e: ExprModel, env: EnvModel) -> Option<(Result<ValueModel, RuntimeError>, EnvModel)>
    decreases e, 0int,
{
    match e {
        ExprModel::Value(v) => Some((Ok(v), env)),
        ExprModel::Symbol(s) => Some(
            (
                match assoc_get(env, s) {
                    Some(v) => Ok(v),
                    None => Err(RuntimeError::UndefinedSymbol),
                },
                env,
            ),
        ),
        ExprModel::Empty => Some((Ok(ValueModel::Null), env)),
        ExprModel::Call(ps, callee) => match eval_args_spec(ps, env) {
            None => None,
            Some((Err(err), env2)) => Some((Err(err), env2)),
            Some((Ok(vals), env2)) => call_name_spec(callee, vals, env2),
        },
    }
}

/// The values of argument expressions, left to right; the first error stops.
pub open spec fn eval_args_spec(ps: Seq<ExprModel>, env: EnvModel) -> Option<
    (Result<Seq<ValueModel>, RuntimeError>, EnvModel),
>
    decreases ps, 1int,
{
    if ps.len() == 0 {
        Some((Ok(Seq::empty()), env))
    } else {
        match eval_args_spec(ps.drop_last(), env) {
            None => None,
            Some((Err(err), env2)) => Some((Err(err), env2)),
            Some((Ok(vs), env2)) => match eval_spec(ps.last(), env2) {
                None => None,
                Some((Err(err), env3)) => Some((Err(err), env3)),
                Some((Ok(v), env3)) => Some((Ok(vs.push(v)), env3)),
            },
        }
    }
}

/// Once argument evaluation has failed or left the host to decide, the
/// further arguments change nothing.
pub proof fn lemma_args_stop(ps: Seq<ExprModel>, env: EnvModel, n: int)
    requires
        0 <= n <= ps.len(),
        eval_args_spec(ps.subrange(0, n), env) is None || eval_args_spec(
            ps.subrange(0, n),
            env,
        )->Some_0.0 is Err,
    ensures
        eval_args_spec(ps, env) == eval_args_spec(ps.subrange(0, n), env),
    decreases ps.len() - n,
{
    if n < ps.len() {
        assert(ps.subrange(0, n + 1).drop_last() =~= ps.subrange(0, n));
        lemma_args_stop(ps, env, n + 1);
    } else {
        assert(ps.subrange(0, n) =~= ps);
    }
}

pub open spec fn eval_post(e: ExprModel, env0: EnvModel, env1: EnvModel, r: Result<AsonValue, RuntimeError>) -> bool {
    match eval_spec(e, env0) {
        Some((res, env2)) => result_model(r) == res && env1 == env2,
        None => true,
    }
}

impl AsonExpr {
    /// Evaluates the expression against the environment.
    pub fn eval<H: Host>(&self, env: &mut Environment, host: &mut H) -> (r: Result<AsonValue, RuntimeError>)
        ensures
            eval_post(expr_model(*self), old(env)@, final(env)@, r),
            match *self {
                AsonExpr::Value(v) => r is Ok && same_value(r->Ok_0, v) && *final(env) == *old(env),
                AsonExpr::Symbol(x) => *final(env) == *old(env) && match old(env).binding(x@) {
                    Some(v) => r is Ok && same_value(r->Ok_0, v),
                    None => r == Err::<AsonValue, RuntimeError>(RuntimeError::UndefinedSymbol),
                },
                _ => true,
            },
        decreases self, 1int,
    {
        match self {
            AsonExpr::Value(v) => Ok(v.deep_clone()),
            AsonExpr::Symbol(s) => match env.lookup(s.as_str()) {
                Some(v) => Ok(v.deep_clone()),
                None => Err(RuntimeError::UndefinedSymbol),
            },
            AsonExpr::ExprS(params, callee) => self.eval_expr_s(params, callee, env, host),
            AsonExpr::Empty => Ok(AsonValue::Null),
        }
    }

    /// Evaluates a call: every argument first, left to right, then the
    /// callee.
    fn eval_expr_s<H: Host>(&self, params: &Vec<AsonExpr>, callee: &String, env: &mut Environment, host: &mut H) -> (r: Result<
        AsonValue,
        RuntimeError,
    >)
        requires
            *self == AsonExpr::ExprS(*params, *callee),
        ensures
            eval_post(expr_model(*self), old(env)@, final(env)@, r),
        decreases self, 0int,
    {
        let ghost ps = exprs_model(params@);
        let ghost env0 = env@;
        proof {
            lemma_exprs_model(params@);
            assert(ps.subrange(0, 0) =~= Seq::<ExprModel>::empty());
        }
        let mut args: Vec<AsonValue> = Vec::new();
        let ghost mut known = true;
        let mut i: usize = 0;
        while i < params.len()
            invariant
                *self == AsonExpr::ExprS(*params, *callee),
                i <= params@.len(),
                ps == exprs_model(params@),
                ps.len() == params@.len(),
                forall|j: int| 0 <= j < ps.len() ==> #[trigger] ps[j] == expr_model(params@[j]),
                env0 == old(env)@,
                known ==> eval_args_spec(ps.subrange(0, i as int), env0) == Some::<(Result<Seq<ValueModel>, RuntimeError>, EnvModel)>(
                    (Ok(items_model(args@)), env@),
                ),
                !known ==> eval_args_spec(ps.subrange(0, i as int), env0) is None,
            decreases params@.len() - i,
        {
            let ghost sub = ps.subrange(0, i + 1);
            let ghost env_before = env@;
            proof {
                assert(sub.drop_last() =~= ps.subrange(0, i as int));
                assert(sub.last() == expr_model(params@[i as int]));
                assert(decreases_to!(*self => self->ExprS_0));
                assert(decreases_to!(self->ExprS_0 => self->ExprS_0@));
                assert(decreases_to!(params@ => params@[i as int]));
            }
            let result = params[i].eval(env, host);
            match result {
                Ok(v) => {
                    proof {
                        if known {
                            match eval_spec(expr_model(params@[i as int]), env_before) {
                                None => {
                                    known = false;
                                },
                                Some(_) => {},
                            }
                        }
                    }
                    let ghost old_args = args@;
                    args.push(v);
                    proof {
                        assert(args@.drop_last() =~= old_args);
                    }
                },
                Err(e) => {
                    proof {
                        if known {
                            lemma_args_stop(ps, env0, i + 1);
                        } else {
                            lemma_args_stop(ps, env0, i as int);
                        }
                        assert(ps.subrange(0, ps.len() as int) =~= ps);
                    }
                    return Err(e);
                },
            }
            i = i + 1;
        }
        proof {
            assert(ps.subrange(0, i as int) =~= ps);
        }
        env.call_fn(callee.as_str(), args, host)
    }
}

} // verus!
