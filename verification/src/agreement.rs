//! Agreement of the two strategies: on every program whose big-step
//! evaluation ends, the small-step machine ends too, with the same result.
//!
//! The proof simulates the recursive descent of `eval_stm` by machine
//! transitions. Each congruence lemma lifts a run of a subterm into a run of
//! its context — stepping an assignment's expression, a conditional's
//! condition, a sequence's first half — and the main induction stitches those
//! runs together, one loop iteration at a time.
use crate::big_step::{big_eval, big_halts, eval_exp, eval_stm, lemma_big_eval,
    lemma_eval_stm_monotone};
use crate::small_step::{combine, exp_reducible, exp_step, halted_at, halts, halts_with,
    lemma_outcome, lemma_state_err_persists, machine_outcome, rebuild, state_at, stm_reducible,
    stm_step};
use crate::syntax::{Exp, Stm};
use crate::{Env, EvalError, Value};
use vstd::prelude::*;

verus! {

/// The expression the small-step relation holds after `i` steps from `e`, or
/// the error of the first step that failed.
pub open spec fn exp_state_at(e: Exp, env: Env, i: nat) -> Result<Exp, EvalError>
    decreases i,
{
    if i == 0 {
        Ok(e)
    } else {
        match exp_state_at(e, env, (i - 1) as nat) {
            Ok(e2) => exp_step(e2, env),
            Err(er) => Err(er),
        }
    }
}

/// Whether the expression run from `e` reaches, after `n` steps, a reducible
/// expression whose one step fails with `er`.
pub open spec fn exp_stuck_at(e: Exp, env: Env, n: nat, er: EvalError) -> bool {
    match exp_state_at(e, env, n) {
        Ok(e2) => exp_reducible(e2) && exp_step(e2, env) == Err::<Exp, EvalError>(er),
        Err(_) => false,
    }
}

/// Whether `e` is a binary operator node, the shape `rebuild` preserves.
pub open spec fn is_binary(e: Exp) -> bool {
    e is Add || e is Multiply || e is LessThan
}

/// Runs of the step relation compose: `i` steps and then `j` more are `i + j`
/// steps.
proof fn lemma_exp_state_compose(e: Exp, env: Env, i: nat, j: nat, m: Exp)
    requires
        exp_state_at(e, env, i) == Ok::<Exp, EvalError>(m),
    ensures
        exp_state_at(e, env, i + j) == exp_state_at(m, env, j),
    decreases j,
{
    if j > 0 {
        lemma_exp_state_compose(e, env, i, (j - 1) as nat, m);
    }
}

/// A state reached by a successful run is reducible at every earlier point:
/// in particular, a run that goes on from a state shows that state reducible.
proof fn lemma_exp_state_reducible(e: Exp, env: Env, n: nat)
    requires
        n > 0,
        exp_state_at(e, env, n) is Ok,
    ensures
        exp_state_at(e, env, (n - 1) as nat) is Ok,
        exp_reducible(exp_state_at(e, env, (n - 1) as nat)->Ok_0),
{
    let prev = exp_state_at(e, env, (n - 1) as nat);
    if prev is Ok && !exp_reducible(prev->Ok_0) {
        assert(exp_step(prev->Ok_0, env) == Err::<Exp, EvalError>(EvalError::NotReducible));
    }
}

/// Stepping the left operand: a run of `l` lifts to a run of the binary node
/// `rebuild(op, l, r)`, with `r` carried over unchanged.
proof fn lemma_cong_left(op: Exp, l: Exp, r: Exp, env: Env, n: nat, l2: Exp)
    requires
        is_binary(op),
        exp_state_at(l, env, n) == Ok::<Exp, EvalError>(l2),
    ensures
        exp_state_at(rebuild(op, l, r), env, n) == Ok::<Exp, EvalError>(rebuild(op, l2, r)),
    decreases n,
{
    if n > 0 {
        lemma_exp_state_reducible(l, env, n);
        let mid = exp_state_at(l, env, (n - 1) as nat)->Ok_0;
        lemma_cong_left(op, l, r, env, (n - 1) as nat, mid);
    }
}

/// Stepping the right operand once the left is a literal: a run of `r` lifts
/// to a run of the binary node `rebuild(op, l, r)`.
proof fn lemma_cong_right(op: Exp, l: Exp, r: Exp, env: Env, n: nat, r2: Exp)
    requires
        is_binary(op),
        l is Lit,
        exp_state_at(r, env, n) == Ok::<Exp, EvalError>(r2),
    ensures
        exp_state_at(rebuild(op, l, r), env, n) == Ok::<Exp, EvalError>(rebuild(op, l, r2)),
    decreases n,
{
    if n > 0 {
        lemma_exp_state_reducible(r, env, n);
        let mid = exp_state_at(r, env, (n - 1) as nat)->Ok_0;
        lemma_cong_right(op, l, r, env, (n - 1) as nat, mid);
    }
}

/// Machine runs compose: `i` transitions and then `j` more are `i + j`
/// transitions.
proof fn lemma_state_compose(s: Stm, env: Env, i: nat, j: nat, m: (Stm, Env))
    requires
        state_at(s, env, i) == Ok::<(Stm, Env), EvalError>(m),
    ensures
        state_at(s, env, i + j) == state_at(m.0, m.1, j),
    decreases j,
{
    if j > 0 {
        lemma_state_compose(s, env, i, (j - 1) as nat, m);
    }
}

/// A machine run that goes on from a state shows that state reducible.
proof fn lemma_state_reducible(s: Stm, env: Env, n: nat)
    requires
        n > 0,
        state_at(s, env, n) is Ok,
    ensures
        state_at(s, env, (n - 1) as nat) is Ok,
        stm_reducible(state_at(s, env, (n - 1) as nat)->Ok_0.0),
{
    let prev = state_at(s, env, (n - 1) as nat);
    if prev is Ok && !stm_reducible(prev->Ok_0.0) {
        assert(stm_step(prev->Ok_0.0, prev->Ok_0.1) == Err::<(Stm, Env), EvalError>(
            EvalError::NotReducible,
        ));
    }
}

/// A run ending in `r` after a prefix of `k` transitions is a run ending in
/// `r`.
proof fn lemma_halted_compose(s: Stm, env: Env, k: nat, m: (Stm, Env), n: nat, r: Result<
    Env,
    EvalError,
>)
    requires
        state_at(s, env, k) == Ok::<(Stm, Env), EvalError>(m),
        halted_at(m.0, m.1, n, r),
    ensures
        halted_at(s, env, k + n, r),
{
    lemma_state_compose(s, env, k, n, m);
}

/// Stepping an assignment's expression: a run of the expression lifts to a
/// run of the assignment, with the environment unchanged.
proof fn lemma_assign_cong(x: Seq<char>, e: Exp, env: Env, n: nat, e2: Exp)
    requires
        exp_state_at(e, env, n) == Ok::<Exp, EvalError>(e2),
    ensures
        state_at(Stm::Assign(x, e), env, n) == Ok::<(Stm, Env), EvalError>(
            (Stm::Assign(x, e2), env),
        ),
    decreases n,
{
    if n > 0 {
        lemma_exp_state_reducible(e, env, n);
        lemma_assign_cong(x, e, env, (n - 1) as nat, exp_state_at(e, env, (n - 1) as nat)->Ok_0);
    }
}

/// Stepping a conditional's condition: a run of the condition lifts to a run
/// of the conditional, with both branches and the environment unchanged.
proof fn lemma_if_cong(c: Exp, t: Stm, f: Stm, env: Env, n: nat, c2: Exp)
    requires
        exp_state_at(c, env, n) == Ok::<Exp, EvalError>(c2),
    ensures
        state_at(Stm::If(c, Box::new(t), Box::new(f)), env, n) == Ok::<(Stm, Env), EvalError>(
            (Stm::If(c2, Box::new(t), Box::new(f)), env),
        ),
    decreases n,
{
    if n > 0 {
        lemma_exp_state_reducible(c, env, n);
        lemma_if_cong(c, t, f, env, (n - 1) as nat, exp_state_at(c, env, (n - 1) as nat)->Ok_0);
    }
}

/// Stepping a sequence's first half: a run of the first half lifts to a run
/// of the sequence, carrying the environment along.
proof fn lemma_seq_cong(a: Stm, b: Stm, env: Env, n: nat, p: (Stm, Env))
    requires
        state_at(a, env, n) == Ok::<(Stm, Env), EvalError>(p),
    ensures
        state_at(Stm::Sequence(Box::new(a), Box::new(b)), env, n) == Ok::<
            (Stm, Env),
            EvalError,
        >((Stm::Sequence(Box::new(p.0), Box::new(b)), p.1)),
    decreases n,
{
    if n > 0 {
        lemma_state_reducible(a, env, n);
        lemma_seq_cong(a, b, env, (n - 1) as nat, state_at(a, env, (n - 1) as nat)->Ok_0);
    }
}

/// The big-step value of an expression is what its small-step run reaches:
/// an `Ok(v)` evaluation reaches the literal `v`, an `Err(er)` evaluation
/// gets stuck on `er`.
proof fn lemma_exp_eval_by_steps(e: Exp, env: Env)
    ensures
        match eval_exp(e, env) {
            Ok(v) => exists|n: nat|
                exp_state_at(e, env, n) == Ok::<Exp, EvalError>(Exp::Lit(v)),
            Err(er) => exists|n: nat| exp_stuck_at(e, env, n, er),
        },
    decreases e,
{
    match e {
        Exp::Lit(v) => {
            assert(exp_state_at(e, env, 0) == Ok::<Exp, EvalError>(Exp::Lit(v)));
        },
        Exp::Variable(x) => {
            if env.contains_key(x) {
                assert(exp_state_at(e, env, 1) == Ok::<Exp, EvalError>(Exp::Lit(env[x])));
            } else {
                assert(exp_stuck_at(e, env, 0, EvalError::UnboundVariable));
            }
        },
        Exp::Add(l, r) | Exp::Multiply(l, r) | Exp::LessThan(l, r) => {
            assert(rebuild(e, *l, *r) == e);
            lemma_exp_eval_by_steps(*l, env);
            match eval_exp(*l, env) {
                Err(er) => {
                    let nl = choose|n: nat| exp_stuck_at(*l, env, n, er);
                    lemma_cong_left(e, *l, *r, env, nl, exp_state_at(*l, env, nl)->Ok_0);
                    assert(exp_stuck_at(e, env, nl, er));
                },
                Ok(a) => {
                    let nl = choose|n: nat|
                        exp_state_at(*l, env, n) == Ok::<Exp, EvalError>(Exp::Lit(a));
                    lemma_cong_left(e, *l, *r, env, nl, Exp::Lit(a));
                    let e_mid = rebuild(e, Exp::Lit(a), *r);
                    lemma_exp_eval_by_steps(*r, env);
                    match eval_exp(*r, env) {
                        Err(er) => {
                            let nr = choose|n: nat| exp_stuck_at(*r, env, n, er);
                            lemma_cong_right(e, Exp::Lit(a), *r, env, nr, exp_state_at(
                                *r,
                                env,
                                nr,
                            )->Ok_0);
                            lemma_exp_state_compose(e, env, nl, nr, e_mid);
                            assert(exp_stuck_at(e, env, nl + nr, er));
                        },
                        Ok(b) => {
                            let nr = choose|n: nat|
                                exp_state_at(*r, env, n) == Ok::<Exp, EvalError>(Exp::Lit(b));
                            lemma_cong_right(e, Exp::Lit(a), *r, env, nr, Exp::Lit(b));
                            lemma_exp_state_compose(e, env, nl, nr, e_mid);
                            let e_low = rebuild(e, Exp::Lit(a), Exp::Lit(b));
                            assert(exp_state_at(e, env, nl + nr) == Ok::<Exp, EvalError>(e_low));
                            match combine(e, a, b) {
                                Ok(v) => {
                                    assert(exp_step(e_low, env) == Ok::<Exp, EvalError>(
                                        Exp::Lit(v),
                                    ));
                                    lemma_exp_state_compose(e, env, nl + nr, 1, e_low);
                                    assert(exp_state_at(e_low, env, 1) == Ok::<Exp, EvalError>(
                                        Exp::Lit(v),
                                    ));
                                    assert(exp_state_at(e, env, nl + nr + 1) == Ok::<
                                        Exp,
                                        EvalError,
                                    >(Exp::Lit(v)));
                                },
                                Err(er) => {
                                    assert(exp_stuck_at(e, env, nl + nr, er));
                                },
                            }
                        },
                    }
                },
            }
        },
    }
}

} // verus!

verus! {

/// Big-step soundness with respect to the machine: wherever an allowance of
/// loop iterations lets `eval_stm` end with a result, the machine's run from
/// the same state ends with that same result.
proof fn lemma_big_implies_machine(s: Stm, env: Env, fuel: nat)
    requires
        eval_stm(s, env, fuel) is Some,
    ensures
        halts_with(s, env, eval_stm(s, env, fuel)->Some_0),
    decreases fuel, s,
{
    match s {
        Stm::DoNothing => {
            assert(halted_at(s, env, 0, Ok(env)));
        },
        Stm::Assign(x, e) => {
            lemma_exp_eval_by_steps(e, env);
            match eval_exp(e, env) {
                Ok(v) => {
                    let n = choose|n: nat|
                        exp_state_at(e, env, n) == Ok::<Exp, EvalError>(Exp::Lit(v));
                    lemma_assign_cong(x, e, env, n, Exp::Lit(v));
                    lemma_state_compose(s, env, n, 1, (Stm::Assign(x, Exp::Lit(v)), env));
                    assert(halted_at(s, env, n + 1, Ok(env.insert(x, v))));
                },
                Err(er) => {
                    let n = choose|n: nat| exp_stuck_at(e, env, n, er);
                    lemma_assign_cong(x, e, env, n, exp_state_at(e, env, n)->Ok_0);
                    assert(halted_at(s, env, n, Err(er)));
                },
            }
        },
        Stm::If(c, t, f) => {
            lemma_exp_eval_by_steps(c, env);
            match eval_exp(c, env) {
                Ok(Value::Boolean(bv)) => {
                    let cv = Exp::Lit(Value::Boolean(bv));
                    let n = choose|n: nat| exp_state_at(c, env, n) == Ok::<Exp, EvalError>(cv);
                    lemma_if_cong(c, *t, *f, env, n, cv);
                    let taken = if bv { *t } else { *f };
                    lemma_state_compose(s, env, n, 1, (Stm::If(cv, t, f), env));
                    assert(state_at(s, env, n + 1) == Ok::<(Stm, Env), EvalError>((taken, env)));
                    lemma_big_implies_machine(taken, env, fuel);
                    let res = eval_stm(taken, env, fuel)->Some_0;
                    let m = choose|m: nat| halted_at(taken, env, m, res);
                    lemma_halted_compose(s, env, n + 1, (taken, env), m, res);
                    assert(halted_at(s, env, n + 1 + m, res));
                },
                Ok(Value::Number(nv)) => {
                    let cv = Exp::Lit(Value::Number(nv));
                    let n = choose|n: nat| exp_state_at(c, env, n) == Ok::<Exp, EvalError>(cv);
                    lemma_if_cong(c, *t, *f, env, n, cv);
                    assert(halted_at(s, env, n, Err(EvalError::TypeMismatch)));
                },
                Err(er) => {
                    let n = choose|n: nat| exp_stuck_at(c, env, n, er);
                    lemma_if_cong(c, *t, *f, env, n, exp_state_at(c, env, n)->Ok_0);
                    assert(halted_at(s, env, n, Err(er)));
                },
            }
        },
        Stm::Sequence(a, b) => {
            lemma_big_implies_machine(*a, env, fuel);
            let resa = eval_stm(*a, env, fuel)->Some_0;
            let na = choose|n: nat| halted_at(*a, env, n, resa);
            let pa = state_at(*a, env, na)->Ok_0;
            lemma_seq_cong(*a, *b, env, na, pa);
            match resa {
                Ok(mid) => {
                    lemma_state_compose(s, env, na, 1, (Stm::Sequence(Box::new(pa.0), b), mid));
                    assert(state_at(s, env, na + 1) == Ok::<(Stm, Env), EvalError>((*b, mid)));
                    lemma_big_implies_machine(*b, mid, fuel);
                    let resb = eval_stm(*b, mid, fuel)->Some_0;
                    let nb = choose|m: nat| halted_at(*b, mid, m, resb);
                    lemma_halted_compose(s, env, na + 1, (*b, mid), nb, resb);
                    assert(halted_at(s, env, na + 1 + nb, resb));
                },
                Err(er) => {
                    assert(halted_at(s, env, na, Err(er)));
                },
            }
        },
        Stm::While(c, body) => {
            let once = Stm::Sequence(body, Box::new(s));
            let unrolled = Stm::If(c, Box::new(once), Box::new(Stm::DoNothing));
            assert(state_at(s, env, 1) == Ok::<(Stm, Env), EvalError>((unrolled, env)));
            lemma_exp_eval_by_steps(c, env);
            match eval_exp(c, env) {
                Ok(Value::Boolean(true)) => {
                    let cv = Exp::Lit(Value::Boolean(true));
                    let n = choose|n: nat| exp_state_at(c, env, n) == Ok::<Exp, EvalError>(cv);
                    lemma_if_cong(c, once, Stm::DoNothing, env, n, cv);
                    lemma_state_compose(s, env, 1, n, (unrolled, env));
                    lemma_state_compose(s, env, 1 + n, 1, (
                        Stm::If(cv, Box::new(once), Box::new(Stm::DoNothing)),
                        env,
                    ));
                    assert(state_at(s, env, 1 + n + 1) == Ok::<(Stm, Env), EvalError>(
                        (once, env),
                    ));
                    lemma_big_implies_machine(*body, env, fuel);
                    let resb = eval_stm(*body, env, fuel)->Some_0;
                    let nb = choose|m: nat| halted_at(*body, env, m, resb);
                    let pb = state_at(*body, env, nb)->Ok_0;
                    lemma_seq_cong(*body, s, env, nb, pb);
                    match resb {
                        Ok(mid) => {
                            lemma_state_compose(s, env, 1 + n + 1, nb, (once, env));
                            lemma_state_compose(s, env, 1 + n + 1 + nb, 1, (
                                Stm::Sequence(Box::new(pb.0), Box::new(s)),
                                mid,
                            ));
                            assert(state_at(s, env, 1 + n + 1 + nb + 1) == Ok::<
                                (Stm, Env),
                                EvalError,
                            >((s, mid)));
                            lemma_big_implies_machine(s, mid, (fuel - 1) as nat);
                            let resw = eval_stm(s, mid, (fuel - 1) as nat)->Some_0;
                            let nw = choose|m: nat| halted_at(s, mid, m, resw);
                            lemma_halted_compose(s, env, 1 + n + 1 + nb + 1, (s, mid), nw, resw);
                            assert(halted_at(s, env, 1 + n + 1 + nb + 1 + nw, resw));
                        },
                        Err(er) => {
                            lemma_halted_compose(s, env, 1 + n + 1, (once, env), nb, Err(er));
                            assert(halted_at(s, env, 1 + n + 1 + nb, Err(er)));
                        },
                    }
                },
                Ok(Value::Boolean(false)) => {
                    let cv = Exp::Lit(Value::Boolean(false));
                    let n = choose|n: nat| exp_state_at(c, env, n) == Ok::<Exp, EvalError>(cv);
                    lemma_if_cong(c, once, Stm::DoNothing, env, n, cv);
                    lemma_state_compose(s, env, 1, n, (unrolled, env));
                    lemma_state_compose(s, env, 1 + n, 1, (
                        Stm::If(cv, Box::new(once), Box::new(Stm::DoNothing)),
                        env,
                    ));
                    assert(state_at(s, env, 1 + n + 1) == Ok::<(Stm, Env), EvalError>(
                        (Stm::DoNothing, env),
                    ));
                    assert(halted_at(s, env, 1 + n + 1, Ok(env)));
                },
                Ok(Value::Number(nv)) => {
                    let cv = Exp::Lit(Value::Number(nv));
                    let n = choose|n: nat| exp_state_at(c, env, n) == Ok::<Exp, EvalError>(cv);
                    lemma_if_cong(c, once, Stm::DoNothing, env, n, cv);
                    lemma_state_compose(s, env, 1, n, (unrolled, env));
                    assert(halted_at(s, env, 1 + n, Err(EvalError::TypeMismatch)));
                },
                Err(er) => {
                    let n = choose|n: nat| exp_stuck_at(c, env, n, er);
                    lemma_if_cong(c, once, Stm::DoNothing, env, n, exp_state_at(c, env, n)->Ok_0);
                    lemma_state_compose(s, env, 1, n, (unrolled, env));
                    assert(halted_at(s, env, 1 + n, Err(er)));
                },
            }
        },
    }
}

/// Agreement of the two strategies: on every program whose big-step
/// evaluation ends, the small-step machine halts too, and the machine's
/// outcome — its terminal environment, or the error it gets stuck on — equals
/// the big-step result.
pub proof fn lemma_agreement(s: Stm, env: Env)
    requires
        big_halts(s, env),
    ensures
        halts(s, env),
        machine_outcome(s, env) == big_eval(s, env),
{
    let fuel = choose|f: nat| eval_stm(s, env, f) is Some;
    lemma_big_eval(s, env, fuel);
    lemma_big_implies_machine(s, env, fuel);
    let r = eval_stm(s, env, fuel)->Some_0;
    let n = choose|n: nat| halted_at(s, env, n, r);
    lemma_outcome(s, env, n, r);
}

} // verus!

verus! {

/// One expression step preserves the big-step value: a successful step keeps
/// it, a failing step is exactly how evaluation fails.
proof fn lemma_exp_step_preserves_eval(e: Exp, env: Env)
    requires
        exp_reducible(e),
    ensures
        match exp_step(e, env) {
            Ok(e2) => eval_exp(e2, env) == eval_exp(e, env),
            Err(er) => eval_exp(e, env) == Err::<Value, EvalError>(er),
        },
    decreases e,
{
    match e {
        Exp::Lit(_) => {},
        Exp::Variable(_) => {},
        Exp::Add(l, r) | Exp::Multiply(l, r) | Exp::LessThan(l, r) => {
            if exp_reducible(*l) {
                lemma_exp_step_preserves_eval(*l, env);
            } else if exp_reducible(*r) {
                lemma_exp_step_preserves_eval(*r, env);
            }
        },
    }
}

/// One statement transition preserves the big-step result: after a successful
/// transition some allowance recovers the same result, and a failing
/// transition is exactly how evaluation fails.
proof fn lemma_stm_step_preserves_eval(s: Stm, env: Env, fuel: nat)
    requires
        stm_reducible(s),
    ensures
        match stm_step(s, env) {
            Ok(p) => eval_stm(p.0, p.1, fuel) is Some ==> exists|f2: nat|
                eval_stm(s, env, f2) == eval_stm(p.0, p.1, fuel),
            Err(er) => exists|f2: nat|
                eval_stm(s, env, f2) == Some(Err::<Env, EvalError>(er)),
        },
    decreases s,
{
    match s {
        Stm::DoNothing => {},
        Stm::Assign(x, e) => {
            if exp_reducible(e) {
                lemma_exp_step_preserves_eval(e, env);
                match exp_step(e, env) {
                    Ok(e2) => {
                        assert(eval_stm(Stm::Assign(x, e2), env, fuel) is Some ==> eval_stm(
                            s,
                            env,
                            fuel,
                        ) == eval_stm(Stm::Assign(x, e2), env, fuel));
                    },
                    Err(er) => {
                        assert(eval_stm(s, env, fuel) == Some(Err::<Env, EvalError>(er)));
                    },
                }
            } else {
                assert(eval_stm(s, env, fuel) == Some(Ok::<Env, EvalError>(
                    env.insert(x, e->Lit_0),
                )));
            }
        },
        Stm::If(c, t, f) => {
            if exp_reducible(c) {
                lemma_exp_step_preserves_eval(c, env);
                match exp_step(c, env) {
                    Ok(c2) => {
                        assert(eval_stm(Stm::If(c2, t, f), env, fuel) is Some ==> eval_stm(
                            s,
                            env,
                            fuel,
                        ) == eval_stm(Stm::If(c2, t, f), env, fuel));
                    },
                    Err(er) => {
                        assert(eval_stm(s, env, fuel) == Some(Err::<Env, EvalError>(er)));
                    },
                }
            }
        },
        Stm::Sequence(a, b) => {
            if *a is DoNothing {
                assert(eval_stm(s, env, fuel) == eval_stm(*b, env, fuel));
            } else {
                lemma_stm_step_preserves_eval(*a, env, fuel);
                match stm_step(*a, env) {
                    Ok(p) => {
                        let s2 = Stm::Sequence(Box::new(p.0), b);
                        if eval_stm(s2, p.1, fuel) is Some {
                            let fa = choose|f2: nat|
                                eval_stm(*a, env, f2) == eval_stm(p.0, p.1, fuel);
                            let big = if fa > fuel { fa } else { fuel };
                            lemma_eval_stm_monotone(*a, env, fa, big);
                            match eval_stm(p.0, p.1, fuel) {
                                Some(Ok(mid)) => {
                                    assert(eval_stm(*b, mid, fuel) is Some);
                                    lemma_eval_stm_monotone(*b, mid, fuel, big);
                                    assert(eval_stm(s, env, big) == eval_stm(s2, p.1, fuel));
                                },
                                _ => {
                                    assert(eval_stm(s, env, big) == eval_stm(s2, p.1, fuel));
                                },
                            }
                        }
                    },
                    Err(er) => {
                        let fa = choose|f2: nat|
                            eval_stm(*a, env, f2) == Some(Err::<Env, EvalError>(er));
                        assert(eval_stm(s, env, fa) == Some(Err::<Env, EvalError>(er)));
                    },
                }
            }
        },
        Stm::While(c, body) => {
            let once = Stm::Sequence(body, Box::new(s));
            let unrolled = Stm::If(c, Box::new(once), Box::new(Stm::DoNothing));
            if eval_stm(unrolled, env, fuel) is Some {
                match eval_exp(c, env) {
                    Ok(Value::Boolean(true)) => {
                        assert(eval_stm(unrolled, env, fuel) == eval_stm(once, env, fuel));
                        match eval_stm(*body, env, fuel) {
                            Some(Ok(mid)) => {
                                assert(eval_stm(once, env, fuel) == eval_stm(s, mid, fuel));
                                lemma_eval_stm_monotone(*body, env, fuel, fuel + 1);
                                assert(eval_stm(s, env, fuel + 1) == eval_stm(s, mid, fuel));
                            },
                            _ => {
                                assert(eval_stm(once, env, fuel) == eval_stm(*body, env, fuel));
                                assert(eval_stm(s, env, fuel) == eval_stm(*body, env, fuel));
                            },
                        }
                    },
                    Ok(Value::Boolean(false)) => {
                        assert(eval_stm(unrolled, env, fuel) == eval_stm(
                            Stm::DoNothing,
                            env,
                            fuel,
                        ));
                        assert(eval_stm(Stm::DoNothing, env, fuel) == Some(Ok::<Env, EvalError>(
                            env,
                        )));
                        assert(eval_stm(s, env, fuel) == Some(Ok::<Env, EvalError>(env)));
                    },
                    _ => {
                        assert(eval_stm(s, env, fuel) == eval_stm(unrolled, env, fuel));
                    },
                }
            }
        },
    }
}

/// Machine soundness with respect to big-step evaluation: wherever the
/// machine's run ends with a result, some allowance of loop iterations lets
/// `eval_stm` end with that same result.
proof fn lemma_machine_implies_big(s: Stm, env: Env, n: nat, r: Result<Env, EvalError>)
    requires
        halted_at(s, env, n, r),
    ensures
        exists|fuel: nat| eval_stm(s, env, fuel) == Some(r),
    decreases n,
{
    if n == 0 {
        match r {
            Ok(fin) => {
                assert(eval_stm(s, env, 0) == Some(Ok::<Env, EvalError>(fin)));
            },
            Err(er) => {
                lemma_stm_step_preserves_eval(s, env, 0);
            },
        }
    } else {
        if state_at(s, env, 1) is Err {
            lemma_state_err_persists(s, env, 1, n);
        }
        assert(state_at(s, env, 0) == Ok::<(Stm, Env), EvalError>((s, env)));
        let p = state_at(s, env, 1)->Ok_0;
        assert(stm_step(s, env) == Ok::<(Stm, Env), EvalError>(p));
        lemma_state_compose(s, env, 1, (n - 1) as nat, p);
        assert(halted_at(p.0, p.1, (n - 1) as nat, r));
        lemma_machine_implies_big(p.0, p.1, (n - 1) as nat, r);
        let fuel = choose|fuel: nat| eval_stm(p.0, p.1, fuel) == Some(r);
        lemma_stm_step_preserves_eval(s, env, fuel);
    }
}

/// Agreement, the other way round: on every program whose machine run ends,
/// big-step evaluation ends too, with the machine's outcome.
pub proof fn lemma_agreement_converse(s: Stm, env: Env)
    requires
        halts(s, env),
    ensures
        big_halts(s, env),
        big_eval(s, env) == machine_outcome(s, env),
{
    let (n, r) = choose|n: nat, r: Result<Env, EvalError>| halted_at(s, env, n, r);
    lemma_outcome(s, env, n, r);
    lemma_machine_implies_big(s, env, n, r);
    let fuel = choose|fuel: nat| eval_stm(s, env, fuel) == Some(r);
    lemma_big_eval(s, env, fuel);
}

} // verus!
