//! Big-step semantics: a direct recursive evaluator that maps an expression
//! to its value and a statement to its final environment, with no observable
//! intermediate state.
//!
//! Expression evaluation always ends, so its meaning is a plain recursive
//! function. Statement evaluation may not (a loop can run forever), so its
//! meaning `eval_stm` is indexed by the number of loop iterations it is
//! allowed; `big_eval` is the fuel-independent result on programs for which
//! some allowance suffices. The executable evaluator asks for such an
//! allowance to exist — that is `big_halts` — because a function that Verus
//! accepts must end on every input.
use crate::small_step::combine;
use crate::syntax::{Exp, Expression, Statement, Stm};
use crate::{Env, Environment, EvalError, Value};
use vstd::prelude::*;

verus! {

/// The value of an expression under an environment, in one recursive
/// descent: left operand first, then right operand, then the combination.
pub open spec fn eval_exp(e: Exp, env: Env) -> Result<Value, EvalError>
    decreases e,
{
    match e {
        Exp::Lit(v) => Ok(v),
        Exp::Add(l, r) | Exp::Multiply(l, r) | Exp::LessThan(l, r) => match eval_exp(*l, env) {
            Ok(a) => match eval_exp(*r, env) {
                Ok(b) => combine(e, a, b),
                Err(er) => Err(er),
            },
            Err(er) => Err(er),
        },
        Exp::Variable(x) => if env.contains_key(x) {
            Ok(env[x])
        } else {
            Err(EvalError::UnboundVariable)
        },
    }
}

/// The final environment of a statement, given an allowance of `fuel` loop
/// iterations in all: `None` says the allowance ran out, `Some(r)` the
/// evaluation ended with result `r`.
pub open spec fn eval_stm(s: Stm, env: Env, fuel: nat) -> Option<Result<Env, EvalError>>
    decreases fuel, s,
{
    match s {
        Stm::DoNothing => Some(Ok(env)),
        Stm::Assign(x, e) => match eval_exp(e, env) {
            Ok(v) => Some(Ok(env.insert(x, v))),
            Err(er) => Some(Err(er)),
        },
        Stm::If(c, t, f) => match eval_exp(c, env) {
            Ok(Value::Boolean(true)) => eval_stm(*t, env, fuel),
            Ok(Value::Boolean(false)) => eval_stm(*f, env, fuel),
            Ok(Value::Number(_)) => Some(Err(EvalError::TypeMismatch)),
            Err(er) => Some(Err(er)),
        },
        Stm::Sequence(a, b) => match eval_stm(*a, env, fuel) {
            Some(Ok(mid)) => eval_stm(*b, mid, fuel),
            other => other,
        },
        Stm::While(c, body) => match eval_exp(c, env) {
            Ok(Value::Boolean(true)) => match eval_stm(*body, env, fuel) {
                Some(Ok(mid)) => if fuel == 0 {
                    None
                } else {
                    eval_stm(s, mid, (fuel - 1) as nat)
                },
                other => other,
            },
            Ok(Value::Boolean(false)) => Some(Ok(env)),
            Ok(Value::Number(_)) => Some(Err(EvalError::TypeMismatch)),
            Err(er) => Some(Err(er)),
        },
    }
}

/// Whether some allowance of loop iterations lets the big-step evaluation of
/// `(s, env)` end.
pub open spec fn big_halts(s: Stm, env: Env) -> bool {
    exists|fuel: nat| eval_stm(s, env, fuel) is Some
}

/// The result big-step evaluation of `(s, env)` ends with, where it ends at
/// all. By `lemma_eval_stm_monotone` every sufficient allowance gives the
/// same result, so the choice does not matter.
pub open spec fn big_eval(s: Stm, env: Env) -> Result<Env, EvalError> {
    eval_stm(s, env, choose|fuel: nat| eval_stm(s, env, fuel) is Some)->Some_0
}

/// An allowance that lets an evaluation end is not spent: any larger one
/// gives the same result.
pub proof fn lemma_eval_stm_monotone(s: Stm, env: Env, f1: nat, f2: nat)
    requires
        f1 <= f2,
        eval_stm(s, env, f1) is Some,
    ensures
        eval_stm(s, env, f2) == eval_stm(s, env, f1),
    decreases f1, s,
{
    match s {
        Stm::DoNothing => {},
        Stm::Assign(_, _) => {},
        Stm::If(c, t, f) => match eval_exp(c, env) {
            Ok(Value::Boolean(true)) => lemma_eval_stm_monotone(*t, env, f1, f2),
            Ok(Value::Boolean(false)) => lemma_eval_stm_monotone(*f, env, f1, f2),
            _ => {},
        },
        Stm::Sequence(a, b) => {
            lemma_eval_stm_monotone(*a, env, f1, f2);
            match eval_stm(*a, env, f1) {
                Some(Ok(mid)) => lemma_eval_stm_monotone(*b, mid, f1, f2),
                _ => {},
            }
        },
        Stm::While(c, body) => match eval_exp(c, env) {
            Ok(Value::Boolean(true)) => {
                lemma_eval_stm_monotone(*body, env, f1, f2);
                match eval_stm(*body, env, f1) {
                    Some(Ok(mid)) => {
                        lemma_eval_stm_monotone(s, mid, (f1 - 1) as nat, (f2 - 1) as nat);
                    },
                    _ => {},
                }
            },
            _ => {},
        },
    }
}

/// Where one allowance is seen to suffice, the evaluation halts and
/// `big_eval` is its result.
pub proof fn lemma_big_eval(s: Stm, env: Env, fuel: nat)
    requires
        eval_stm(s, env, fuel) is Some,
    ensures
        big_halts(s, env),
        Some(big_eval(s, env)) == eval_stm(s, env, fuel),
{
    assert(big_halts(s, env));
    let picked = choose|f: nat| eval_stm(s, env, f) is Some;
    if picked <= fuel {
        lemma_eval_stm_monotone(s, env, picked, fuel);
    } else {
        lemma_eval_stm_monotone(s, env, fuel, picked);
    }
}

/// The model of an executable statement evaluation result.
pub open spec fn env_res(r: Result<Environment, EvalError>) -> Result<Env, EvalError> {
    match r {
        Ok(e) => Ok(e@),
        Err(er) => Err(er),
    }
}

impl Expression {
    /// The value of this expression under `environment`, computed in one
    /// recursive descent, exactly as `eval_exp` describes.
    pub fn evaluate(&self, environment: &Environment) -> (r: Result<Value, EvalError>)
        ensures
            r == eval_exp(self@, environment@),
        decreases *self,
    {
        match self {
            Expression::Lit(v) => Ok(*v),
            Expression::Add(a) => match (&*a.left).evaluate(environment) {
                Ok(Value::Number(x)) => match (&*a.right).evaluate(environment) {
                    Ok(Value::Number(y)) => Ok(Value::Number(x.wrapping_add(y))),
                    Ok(Value::Boolean(_)) => Err(EvalError::TypeMismatch),
                    Err(er) => Err(er),
                },
                Ok(Value::Boolean(_)) => match (&*a.right).evaluate(environment) {
                    Ok(_) => Err(EvalError::TypeMismatch),
                    Err(er) => Err(er),
                },
                Err(er) => Err(er),
            },
            Expression::Multiply(m) => match (&*m.left).evaluate(environment) {
                Ok(Value::Number(x)) => match (&*m.right).evaluate(environment) {
                    Ok(Value::Number(y)) => Ok(Value::Number(x.wrapping_mul(y))),
                    Ok(Value::Boolean(_)) => Err(EvalError::TypeMismatch),
                    Err(er) => Err(er),
                },
                Ok(Value::Boolean(_)) => match (&*m.right).evaluate(environment) {
                    Ok(_) => Err(EvalError::TypeMismatch),
                    Err(er) => Err(er),
                },
                Err(er) => Err(er),
            },
            Expression::LessThan(l) => match (&*l.left).evaluate(environment) {
                Ok(Value::Number(x)) => match (&*l.right).evaluate(environment) {
                    Ok(Value::Number(y)) => Ok(Value::Boolean(x < y)),
                    Ok(Value::Boolean(_)) => Err(EvalError::TypeMismatch),
                    Err(er) => Err(er),
                },
                Ok(Value::Boolean(_)) => match (&*l.right).evaluate(environment) {
                    Ok(_) => Err(EvalError::TypeMismatch),
                    Err(er) => Err(er),
                },
                Err(er) => Err(er),
            },
            Expression::Variable(x) => environment.lookup(&x.name),
        }
    }
}

impl Statement {
    /// The final environment of this statement started from `environment`,
    /// computed in one recursive descent, exactly as `big_eval` describes.
    ///
    /// An executable function must end on every input, so the one thing asked
    /// of the caller is that the evaluation ends at all; a diverging program
    /// has no big-step result to compute.
    pub fn evaluate(&self, environment: &Environment) -> (r: Result<Environment, EvalError>)
        requires
            big_halts(self@, environment@),
        ensures
            env_res(r) == big_eval(self@, environment@),
    {
        let ghost fuel = choose|f: nat| eval_stm(self@, environment@, f) is Some;
        let r = self.evaluate_at(environment, Ghost(fuel));
        proof {
            lemma_big_eval(self@, environment@, fuel);
        }
        r
    }

    /// The recursive descent itself, measured by the allowance of loop
    /// iterations that the caller has seen to suffice.
    fn evaluate_at(&self, environment: &Environment, fuel: Ghost<nat>) -> (r: Result<
        Environment,
        EvalError,
    >)
        requires
            eval_stm(self@, environment@, fuel@) is Some,
        ensures
            Some(env_res(r)) == eval_stm(self@, environment@, fuel@),
        decreases fuel@, *self,
    {
        match self {
            Statement::DoNothing(_) => Ok(environment.clone()),
            Statement::Assign(a) => match (&*a.expression).evaluate(environment) {
                Ok(v) => Ok(environment.update(&a.name, v)),
                Err(er) => Err(er),
            },
            Statement::If(i) => match (&*i.condition).evaluate(environment) {
                Ok(Value::Boolean(true)) => (&*i.consequence).evaluate_at(environment, fuel),
                Ok(Value::Boolean(false)) => (&*i.alternative).evaluate_at(environment, fuel),
                Ok(Value::Number(_)) => Err(EvalError::TypeMismatch),
                Err(er) => Err(er),
            },
            Statement::Sequence(s) => match (&*s.first).evaluate_at(environment, fuel) {
                Ok(mid) => (&*s.second).evaluate_at(&mid, fuel),
                Err(er) => Err(er),
            },
            Statement::While(w) => match (&*w.condition).evaluate(environment) {
                Ok(Value::Boolean(true)) => match (&*w.body).evaluate_at(environment, fuel) {
                    Ok(mid) => self.evaluate_at(&mid, Ghost((fuel@ - 1) as nat)),
                    Err(er) => Err(er),
                },
                Ok(Value::Boolean(false)) => Ok(environment.clone()),
                Ok(Value::Number(_)) => Err(EvalError::TypeMismatch),
                Err(er) => Err(er),
            },
        }
    }
}

} // verus!
