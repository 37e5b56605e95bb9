//! The counting program `x = start; while (x < limit) { x = x + 2 }`, worked
//! through both semantics: it always halts, and `x` ends at the first value
//! of the chain `start, start + 2, start + 4, ...` that is not below
//! `limit` — at `limit` itself when the distance is even, else one past it.
use crate::agreement::lemma_agreement;
use crate::big_step::{big_eval, big_halts, eval_exp, eval_stm, lemma_big_eval};
use crate::small_step::{halts, machine_outcome};
use crate::syntax::{Exp, Stm};
use crate::{Env, EvalError, Value};
use vstd::prelude::*;

verus! {

/// The loop `while (x < limit) { x = x + 2 }`.
pub open spec fn counting_loop(x: Seq<char>, limit: i64) -> Stm {
    Stm::While(
        Exp::LessThan(Box::new(Exp::Variable(x)), Box::new(Exp::Lit(Value::Number(limit)))),
        Box::new(
            Stm::Assign(
                x,
                Exp::Add(Box::new(Exp::Variable(x)), Box::new(Exp::Lit(Value::Number(2)))),
            ),
        ),
    )
}

/// The program `x = start; while (x < limit) { x = x + 2 }`.
pub open spec fn counting_program(x: Seq<char>, start: i64, limit: i64) -> Stm {
    Stm::Sequence(
        Box::new(Stm::Assign(x, Exp::Lit(Value::Number(start)))),
        Box::new(counting_loop(x, limit)),
    )
}

/// The first value of the chain `v, v + 2, v + 4, ...` that is not below
/// `limit`.
pub open spec fn stepped_past(v: int, limit: int) -> int
    decreases (if limit > v {
        limit - v
    } else {
        0
    }),
{
    if v >= limit {
        v
    } else {
        stepped_past(v + 2, limit)
    }
}

/// How many loop iterations the chain from `v` takes.
pub open spec fn iterations(v: int, limit: int) -> nat
    decreases (if limit > v {
        limit - v
    } else {
        0
    }),
{
    if v >= limit {
        0
    } else {
        1 + iterations(v + 2, limit)
    }
}

/// Where the chain ends, concretely: never below `limit`, never two or more
/// past it, and always at the parity of its start.
pub proof fn lemma_stepped_past_bounds(v: int, limit: int)
    requires
        v < limit,
    ensures
        limit <= stepped_past(v, limit) < limit + 2,
        (stepped_past(v, limit) - v) % 2 == 0,
    decreases limit - v,
{
    if v + 2 < limit {
        lemma_stepped_past_bounds(v + 2, limit);
        let sp = stepped_past(v, limit);
        assert(sp == stepped_past(v + 2, limit));
        assert((sp - (v + 2)) % 2 == 0);
        assert(sp - v == (sp - (v + 2)) + 2);
        assert(((sp - (v + 2)) + 2) % 2 == (sp - (v + 2)) % 2) by (nonlinear_arith);
    } else {
        assert(stepped_past(v + 2, limit) == v + 2);
    }
}

/// One allowance per iteration lets the loop's big-step evaluation end, with
/// `x` driven to the end of the chain.
proof fn lemma_counting_loop_evaluates(x: Seq<char>, limit: i64, v: i64, env: Env)
    requires
        env.contains_key(x),
        env[x] == Value::Number(v),
        limit <= i64::MAX - 1,
    ensures
        eval_stm(counting_loop(x, limit), env, iterations(v as int, limit as int)) == Some(
            Ok::<Env, EvalError>(
                env.insert(x, Value::Number(stepped_past(v as int, limit as int) as i64)),
            ),
        ),
    decreases (if limit > v {
        limit - v
    } else {
        0
    }),
{
    let cond = Exp::LessThan(Box::new(Exp::Variable(x)), Box::new(Exp::Lit(Value::Number(limit))));
    assert(eval_exp(Exp::Variable(x), env) == Ok::<Value, EvalError>(Value::Number(v)));
    assert(eval_exp(Exp::Lit(Value::Number(limit)), env) == Ok::<Value, EvalError>(Value::Number(
        limit,
    )));
    assert(eval_exp(cond, env) == Ok::<Value, EvalError>(Value::Boolean(v < limit)));
    if v < limit {
        lemma_stepped_past_bounds(v as int, limit as int);
        let v2: i64 = (v + 2) as i64;
        let body = Stm::Assign(
            x,
            Exp::Add(Box::new(Exp::Variable(x)), Box::new(Exp::Lit(Value::Number(2)))),
        );
        assert(v.wrapping_add(2) == v2);
        assert(eval_exp(Exp::Lit(Value::Number(2)), env) == Ok::<Value, EvalError>(Value::Number(
            2,
        )));
        assert(eval_exp(
            Exp::Add(Box::new(Exp::Variable(x)), Box::new(Exp::Lit(Value::Number(2)))),
            env,
        ) == Ok::<Value, EvalError>(Value::Number(v2)));
        let mid = env.insert(x, Value::Number(v2));
        let fuel = iterations(v as int, limit as int);
        assert(eval_stm(body, env, fuel) == Some(Ok::<Env, EvalError>(mid)));
        lemma_counting_loop_evaluates(x, limit, v2, mid);
        let sp = Value::Number(stepped_past(v as int, limit as int) as i64);
        assert(stepped_past(v as int, limit as int) == stepped_past(v2 as int, limit as int));
        assert(iterations(v2 as int, limit as int) == (fuel - 1) as nat);
        assert(mid.insert(x, sp) =~= env.insert(x, sp));
    } else {
        assert(env.insert(x, Value::Number(v)) =~= env);
    }
}

/// The counting program halts under both strategies from any starting
/// environment, and `x` ends at `stepped_past(start, limit)`: at `limit`
/// itself when `limit - start` is even and nonnegative, else at the first
/// value past it with `start`'s parity (`lemma_stepped_past_bounds`).
pub proof fn lemma_counting_program(x: Seq<char>, start: i64, limit: i64, env: Env)
    requires
        limit <= i64::MAX - 1,
    ensures
        big_halts(counting_program(x, start, limit), env),
        big_eval(counting_program(x, start, limit), env) == Ok::<Env, EvalError>(
            env.insert(x, Value::Number(stepped_past(start as int, limit as int) as i64)),
        ),
        halts(counting_program(x, start, limit), env),
        machine_outcome(counting_program(x, start, limit), env) == big_eval(
            counting_program(x, start, limit),
            env,
        ),
{
    let prog = counting_program(x, start, limit);
    let env1 = env.insert(x, Value::Number(start));
    let fuel = iterations(start as int, limit as int);
    let sp = Value::Number(stepped_past(start as int, limit as int) as i64);
    assert(eval_stm(Stm::Assign(x, Exp::Lit(Value::Number(start))), env, fuel) == Some(Ok::<
        Env,
        EvalError,
    >(env1)));
    lemma_counting_loop_evaluates(x, limit, start, env1);
    assert(env1.insert(x, sp) =~= env.insert(x, sp));
    assert(eval_stm(prog, env, fuel) == Some(Ok::<Env, EvalError>(env.insert(x, sp))));
    lemma_big_eval(prog, env, fuel);
    lemma_agreement(prog, env);
}

} // verus!
