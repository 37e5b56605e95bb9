//! Small-step semantics: one-step rewriting of expressions and statements,
//! the iterated step relation, and the machine that drives a statement to its
//! fixed point.
//!
//! The spec functions `exp_step` and `stm_step` are the single source of
//! truth: each executable `reduce` is proved to return exactly what they
//! describe, so reduction is a function of the current state and every run of
//! a program produces one trace.
use crate::syntax::{Add, Assign, DoNothing, Exp, Expression, If, LessThan, Multiply, Sequence,
    Statement, Stm, While};
use crate::{Env, Environment, EvalError, Value};
use std::rc::Rc;
use vstd::prelude::*;

verus! {

/// Whether an expression admits a further rewrite step: every node but a
/// literal does.
pub open spec fn exp_reducible(e: Exp) -> bool {
    !(e is Lit)
}

/// Whether a statement admits a further rewrite step: every node but
/// `DoNothing` does.
pub open spec fn stm_reducible(s: Stm) -> bool {
    !(s is DoNothing)
}

/// The value of the two operands combined, where both operands are literal
/// values of the kind the operator expects.
pub open spec fn combine(e: Exp, a: Value, b: Value) -> Result<Value, EvalError> {
    match (a, b) {
        (Value::Number(x), Value::Number(y)) => match e {
            Exp::Add(_, _) => Ok(Value::Number(x.wrapping_add(y))),
            Exp::Multiply(_, _) => Ok(Value::Number(x.wrapping_mul(y))),
            _ => Ok(Value::Boolean(x < y)),
        },
        _ => Err(EvalError::TypeMismatch),
    }
}

/// One rewrite step of an expression.
///
/// Reduction order is leftmost-innermost: a reducible left operand is stepped
/// first, then a reducible right operand, and only a node whose operands are
/// both literals collapses. A variable steps to the value the environment
/// binds, and stepping a literal is the caller's contract violation
/// `NotReducible`.
pub open spec fn exp_step(e: Exp, env: Env) -> Result<Exp, EvalError>
    decreases e,
{
    match e {
        Exp::Lit(_) => Err(EvalError::NotReducible),
        Exp::Add(l, r) | Exp::Multiply(l, r) | Exp::LessThan(l, r) => if exp_reducible(*l) {
            match exp_step(*l, env) {
                Ok(l2) => Ok(rebuild(e, l2, *r)),
                Err(er) => Err(er),
            }
        } else if exp_reducible(*r) {
            match exp_step(*r, env) {
                Ok(r2) => Ok(rebuild(e, *l, r2)),
                Err(er) => Err(er),
            }
        } else {
            match combine(e, l->Lit_0, r->Lit_0) {
                Ok(v) => Ok(Exp::Lit(v)),
                Err(er) => Err(er),
            }
        },
        Exp::Variable(x) => if env.contains_key(x) {
            Ok(Exp::Lit(env[x]))
        } else {
            Err(EvalError::UnboundVariable)
        },
    }
}

/// The binary node of `e`'s operator with operands `l` and `r`.
pub open spec fn rebuild(e: Exp, l: Exp, r: Exp) -> Exp {
    match e {
        Exp::Add(_, _) => Exp::Add(Box::new(l), Box::new(r)),
        Exp::Multiply(_, _) => Exp::Multiply(Box::new(l), Box::new(r)),
        _ => Exp::LessThan(Box::new(l), Box::new(r)),
    }
}

/// The model of an executable expression reduction result.
pub open spec fn exp_res(r: Result<Expression, EvalError>) -> Result<Exp, EvalError> {
    match r {
        Ok(e) => Ok(e@),
        Err(er) => Err(er),
    }
}

/// One rewrite step of a statement, the transition relation of the machine.
///
/// `While` never steps its own condition: it rewrites in one step into the
/// `If`/`Sequence` combination that unrolls it once, which keeps each step
/// non-recursive however many iterations the loop will run.
pub open spec fn stm_step(s: Stm, env: Env) -> Result<(Stm, Env), EvalError>
    decreases s,
{
    match s {
        Stm::DoNothing => Err(EvalError::NotReducible),
        Stm::Assign(x, e) => if exp_reducible(e) {
            match exp_step(e, env) {
                Ok(e2) => Ok((Stm::Assign(x, e2), env)),
                Err(er) => Err(er),
            }
        } else {
            Ok((Stm::DoNothing, env.insert(x, e->Lit_0)))
        },
        Stm::If(c, t, f) => if exp_reducible(c) {
            match exp_step(c, env) {
                Ok(c2) => Ok((Stm::If(c2, t, f), env)),
                Err(er) => Err(er),
            }
        } else {
            match c {
                Exp::Lit(Value::Boolean(true)) => Ok(((*t), env)),
                Exp::Lit(Value::Boolean(false)) => Ok(((*f), env)),
                _ => Err(EvalError::TypeMismatch),
            }
        },
        Stm::Sequence(a, b) => if *a is DoNothing {
            Ok(((*b), env))
        } else {
            match stm_step(*a, env) {
                Ok(p) => Ok((Stm::Sequence(Box::new(p.0), b), p.1)),
                Err(er) => Err(er),
            }
        },
        Stm::While(c, body) => Ok(
            (
                Stm::If(
                    c,
                    Box::new(Stm::Sequence(body, Box::new(Stm::While(c, body)))),
                    Box::new(Stm::DoNothing),
                ),
                env,
            ),
        ),
    }
}

/// The model of an executable statement reduction result.
pub open spec fn stm_res(r: Result<(Statement, Environment), EvalError>) -> Result<
    (Stm, Env),
    EvalError,
> {
    match r {
        Ok(p) => Ok((p.0@, p.1@)),
        Err(er) => Err(er),
    }
}

/// The state the machine holds after `i` transitions from `(s, env)`, or the
/// error of the first transition that failed.
pub open spec fn state_at(s: Stm, env: Env, i: nat) -> Result<(Stm, Env), EvalError>
    decreases i,
{
    if i == 0 {
        Ok((s, env))
    } else {
        match state_at(s, env, (i - 1) as nat) {
            Ok(p) => stm_step(p.0, p.1),
            Err(er) => Err(er),
        }
    }
}

/// Whether the run from `(s, env)` ends after exactly `n` transitions with
/// result `r`: with `Ok(fin)` where the `n`-th state is terminal and carries
/// the environment `fin`, with `Err(er)` where the `n`-th state is reducible
/// but its one step fails with `er`.
pub open spec fn halted_at(s: Stm, env: Env, n: nat, r: Result<Env, EvalError>) -> bool {
    match state_at(s, env, n) {
        Ok(p) => match r {
            Ok(fin) => p.0 is DoNothing && p.1 == fin,
            Err(er) => !(p.0 is DoNothing) && stm_step(p.0, p.1) == Err::<(Stm, Env), EvalError>(
                er,
            ),
        },
        Err(_) => false,
    }
}

/// Whether the run from `(s, env)` ends at all. A program such as
/// `while (true) { ... }` never halts: its machine steps forever.
pub open spec fn halts(s: Stm, env: Env) -> bool {
    exists|n: nat, r: Result<Env, EvalError>| halted_at(s, env, n, r)
}

/// Whether the run from `(s, env)` ends with result `r` after some number of
/// transitions.
pub open spec fn halts_with(s: Stm, env: Env, r: Result<Env, EvalError>) -> bool {
    exists|n: nat| halted_at(s, env, n, r)
}

/// The result the run from `(s, env)` ends with, where it ends at all.
pub open spec fn machine_outcome(s: Stm, env: Env) -> Result<Env, EvalError> {
    choose|r: Result<Env, EvalError>| halts_with(s, env, r)
}

/// Once the iterated step relation has failed it stays failed.
pub(crate) proof fn lemma_state_err_persists(s: Stm, env: Env, i: nat, j: nat)
    requires
        i <= j,
        state_at(s, env, i) is Err,
    ensures
        state_at(s, env, j) is Err,
    decreases j,
{
    if j > i {
        lemma_state_err_persists(s, env, i, (j - 1) as nat);
    }
}

/// A run ends at most once: the transition count and the result are unique.
/// With `lemma_step_deterministic` this is the determinism of the machine:
/// from one starting state, every run passes through the same states and ends
/// the same way.
pub proof fn lemma_halting_unique(
    s: Stm,
    env: Env,
    n1: nat,
    r1: Result<Env, EvalError>,
    n2: nat,
    r2: Result<Env, EvalError>,
)
    requires
        halted_at(s, env, n1, r1),
        halted_at(s, env, n2, r2),
    ensures
        n1 == n2,
        r1 == r2,
{
    if n1 < n2 {
        assert(state_at(s, env, n1 + 1) is Err);
        lemma_state_err_persists(s, env, n1 + 1, n2);
    } else if n2 < n1 {
        assert(state_at(s, env, n2 + 1) is Err);
        lemma_state_err_persists(s, env, n2 + 1, n1);
    }
}

/// Terminal terms do not reduce: stepping an irreducible expression (a
/// literal) or an irreducible statement (`DoNothing`) fails with
/// `NotReducible`, and never silently hands the term back.
pub proof fn lemma_terminal_not_reducible(e: Exp, s: Stm, env: Env)
    requires
        !exp_reducible(e),
        !stm_reducible(s),
    ensures
        exp_step(e, env) == Err::<Exp, EvalError>(EvalError::NotReducible),
        stm_step(s, env) == Err::<(Stm, Env), EvalError>(EvalError::NotReducible),
{
}

/// Reduction is a function, not a relation: from a given state exactly one
/// next state exists, the one `stm_step` gives.
pub proof fn lemma_step_deterministic(s: Stm, env: Env, a: Result<(Stm, Env), EvalError>, b: Result<
    (Stm, Env),
    EvalError,
>)
    requires
        a == stm_step(s, env),
        b == stm_step(s, env),
    ensures
        a == b,
{
}

/// Where a run is seen to end with result `r`, the machine halts and its
/// outcome is `r`.
pub proof fn lemma_outcome(s: Stm, env: Env, n: nat, r: Result<Env, EvalError>)
    requires
        halted_at(s, env, n, r),
    ensures
        halts(s, env),
        machine_outcome(s, env) == r,
{
    assert(halts(s, env));
    let picked = machine_outcome(s, env);
    assert(halts_with(s, env, picked)) by {
        assert(halts_with(s, env, r));
    }
    let m = choose|m: nat| halted_at(s, env, m, picked);
    lemma_halting_unique(s, env, n, r, m, picked);
}

impl Expression {
    /// Whether this node admits a further rewrite step.
    pub fn is_reducible(&self) -> (r: bool)
        ensures
            r == exp_reducible(self@),
    {
        match self {
            Expression::Lit(_) => false,
            _ => true,
        }
    }

    /// The literal value this node carries, where it is one.
    pub fn as_value(&self) -> (r: Option<Value>)
        ensures
            r == if self@ is Lit {
                Some(self@->Lit_0)
            } else {
                None::<Value>
            },
    {
        match self {
            Expression::Lit(v) => Some(*v),
            _ => None,
        }
    }

    /// One rewrite step of this expression under `environment`, exactly as
    /// `exp_step` describes. Only the rebuilt spine is new: the unchanged
    /// operand of a stepped binary node is shared by reference.
    pub fn reduce(&self, environment: &Environment) -> (r: Result<Expression, EvalError>)
        ensures
            exp_res(r) == exp_step(self@, environment@),
        decreases *self,
    {
        match self {
            Expression::Lit(_) => Err(EvalError::NotReducible),
            Expression::Add(a) => {
                if (&*a.left).is_reducible() {
                    match (&*a.left).reduce(environment) {
                        Ok(l2) => Ok(
                            Expression::Add(Add { left: Rc::new(l2), right: a.right.clone() }),
                        ),
                        Err(er) => Err(er),
                    }
                } else if (&*a.right).is_reducible() {
                    match (&*a.right).reduce(environment) {
                        Ok(r2) => Ok(
                            Expression::Add(Add { left: a.left.clone(), right: Rc::new(r2) }),
                        ),
                        Err(er) => Err(er),
                    }
                } else {
                    match ((&*a.left).as_value(), (&*a.right).as_value()) {
                        (Some(Value::Number(x)), Some(Value::Number(y))) => Ok(
                            Expression::Lit(Value::Number(x.wrapping_add(y))),
                        ),
                        _ => Err(EvalError::TypeMismatch),
                    }
                }
            },
            Expression::Multiply(m) => {
                if (&*m.left).is_reducible() {
                    match (&*m.left).reduce(environment) {
                        Ok(l2) => Ok(
                            Expression::Multiply(
                                Multiply { left: Rc::new(l2), right: m.right.clone() },
                            ),
                        ),
                        Err(er) => Err(er),
                    }
                } else if (&*m.right).is_reducible() {
                    match (&*m.right).reduce(environment) {
                        Ok(r2) => Ok(
                            Expression::Multiply(
                                Multiply { left: m.left.clone(), right: Rc::new(r2) },
                            ),
                        ),
                        Err(er) => Err(er),
                    }
                } else {
                    match ((&*m.left).as_value(), (&*m.right).as_value()) {
                        (Some(Value::Number(x)), Some(Value::Number(y))) => Ok(
                            Expression::Lit(Value::Number(x.wrapping_mul(y))),
                        ),
                        _ => Err(EvalError::TypeMismatch),
                    }
                }
            },
            Expression::LessThan(l) => {
                if (&*l.left).is_reducible() {
                    match (&*l.left).reduce(environment) {
                        Ok(l2) => Ok(
                            Expression::LessThan(
                                LessThan { left: Rc::new(l2), right: l.right.clone() },
                            ),
                        ),
                        Err(er) => Err(er),
                    }
                } else if (&*l.right).is_reducible() {
                    match (&*l.right).reduce(environment) {
                        Ok(r2) => Ok(
                            Expression::LessThan(
                                LessThan { left: l.left.clone(), right: Rc::new(r2) },
                            ),
                        ),
                        Err(er) => Err(er),
                    }
                } else {
                    match ((&*l.left).as_value(), (&*l.right).as_value()) {
                        (Some(Value::Number(x)), Some(Value::Number(y))) => Ok(
                            Expression::Lit(Value::Boolean(x < y)),
                        ),
                        _ => Err(EvalError::TypeMismatch),
                    }
                }
            },
            Expression::Variable(x) => match environment.lookup(&x.name) {
                Ok(v) => Ok(Expression::Lit(v)),
                Err(er) => Err(er),
            },
        }
    }
}

impl Statement {
    /// Whether this node admits a further rewrite step.
    pub fn is_reducible(&self) -> (r: bool)
        ensures
            r == stm_reducible(self@),
    {
        match self {
            Statement::DoNothing(_) => false,
            _ => true,
        }
    }

    /// Whether this node is syntactically `DoNothing`: the purely structural
    /// check by which a `Sequence` knows its first half is done.
    pub fn does_nothing(&self) -> (r: bool)
        ensures
            r == (self@ is DoNothing),
    {
        match self {
            Statement::DoNothing(_) => true,
            _ => false,
        }
    }

    /// One rewrite step of this statement under `environment`, exactly as
    /// `stm_step` describes. The statement and environment handed back share
    /// every unchanged subtree with the input by reference.
    pub fn reduce(&self, environment: &Environment) -> (r: Result<
        (Statement, Environment),
        EvalError,
    >)
        ensures
            stm_res(r) == stm_step(self@, environment@),
        decreases *self,
    {
        match self {
            Statement::DoNothing(_) => Err(EvalError::NotReducible),
            Statement::Assign(a) => {
                if (&*a.expression).is_reducible() {
                    match (&*a.expression).reduce(environment) {
                        Ok(e2) => Ok(
                            (
                                Statement::Assign(
                                    Assign { name: a.name.clone(), expression: Rc::new(e2) },
                                ),
                                environment.clone(),
                            ),
                        ),
                        Err(er) => Err(er),
                    }
                } else {
                    match (&*a.expression).as_value() {
                        Some(v) => Ok(
                            (Statement::DoNothing(DoNothing), environment.update(&a.name, v)),
                        ),
                        None => Err(EvalError::TypeMismatch),
                    }
                }
            },
            Statement::If(i) => {
                if (&*i.condition).is_reducible() {
                    match (&*i.condition).reduce(environment) {
                        Ok(c2) => Ok(
                            (
                                Statement::If(
                                    If {
                                        condition: Rc::new(c2),
                                        consequence: i.consequence.clone(),
                                        alternative: i.alternative.clone(),
                                    },
                                ),
                                environment.clone(),
                            ),
                        ),
                        Err(er) => Err(er),
                    }
                } else {
                    match (&*i.condition).as_value() {
                        Some(Value::Boolean(true)) => Ok(
                            ((*i.consequence).clone(), environment.clone()),
                        ),
                        Some(Value::Boolean(false)) => Ok(
                            ((*i.alternative).clone(), environment.clone()),
                        ),
                        _ => Err(EvalError::TypeMismatch),
                    }
                }
            },
            Statement::Sequence(s) => {
                if (&*s.first).does_nothing() {
                    Ok(((*s.second).clone(), environment.clone()))
                } else {
                    match (&*s.first).reduce(environment) {
                        Ok(p) => Ok(
                            (
                                Statement::Sequence(
                                    Sequence { first: Rc::new(p.0), second: s.second.clone() },
                                ),
                                p.1,
                            ),
                        ),
                        Err(er) => Err(er),
                    }
                }
            },
            Statement::While(w) => {
                let unrolled = While::from(w);
                let once = Statement::Sequence(
                    Sequence { first: w.body.clone(), second: Rc::new(unrolled) },
                );
                proof {
                    assert(once@ == Stm::Sequence(
                        Box::new(w.body@),
                        Box::new(Stm::While(w.condition@, Box::new(w.body@))),
                    ));
                }
                let ghost once_m = once@;
                let cond2 = w.condition.clone();
                let cons2 = Rc::new(once);
                let alt2 = Rc::new(Statement::DoNothing(DoNothing));
                proof {
                    assert(cond2@ == w.condition@);
                    assert(cons2@ == once_m);
                    assert(alt2@ == Stm::DoNothing);
                }
                let chosen = Statement::If(
                    If { condition: cond2, consequence: cons2, alternative: alt2 },
                );
                proof {
                    assert(chosen@ == Stm::If(
                        w.condition@,
                        Box::new(once_m),
                        Box::new(Stm::DoNothing),
                    ));
                }
                Ok((chosen, environment.clone()))
            },
        }
    }
}

} // verus!

verus! {

/// The small-step machine: a current statement and a current environment,
/// driven one transition at a time until the statement is `DoNothing`.
pub struct Machine {
    pub statement: Statement,
    pub environment: Environment,
}

impl Machine {
    /// A machine at the initial state of `statement`: the whole program and
    /// the empty environment.
    pub fn new(statement: Statement) -> (r: Machine)
        ensures
            r.statement == statement,
            r.environment@ == Map::<Seq<char>, Value>::empty(),
    {
        Machine { statement, environment: Environment::empty() }
    }

    /// Performs exactly one transition, or reports why none applies. On an
    /// error the machine is left unchanged.
    pub fn step(&mut self) -> (r: Result<(), EvalError>)
        ensures
            match stm_step(old(self).statement@, old(self).environment@) {
                Ok(p) => r == Ok::<(), EvalError>(()) && final(self).statement@ == p.0
                    && final(self).environment@ == p.1,
                Err(er) => r == Err::<(), EvalError>(er) && final(self).statement@ == old(self).statement@
                    && final(self).environment@ == old(self).environment@,
            },
    {
        match self.statement.reduce(&self.environment) {
            Ok(p) => {
                self.statement = p.0;
                self.environment = p.1;
                Ok(())
            },
            Err(er) => Err(er),
        }
    }

    /// Drives the machine to its fixed point and hands back every state it
    /// passed through, the terminal state included, in order.
    ///
    /// The machine itself has no timeout, so a program that never reaches
    /// `DoNothing` would step forever: halting is asked of the caller. Where
    /// the run gets stuck on a malformed program, the machine is left at the
    /// stuck state and the result says why.
    pub fn run(&mut self) -> (r: Result<Vec<(Statement, Environment)>, EvalError>)
        requires
            halts(old(self).statement@, old(self).environment@),
        ensures
            match r {
                Ok(trace) => {
                    &&& trace@.len() >= 1
                    &&& forall|k: int|
                        0 <= k < trace@.len() ==> state_at(
                            old(self).statement@,
                            old(self).environment@,
                            k as nat,
                        ) == Ok::<(Stm, Env), EvalError>((trace@[k].0@, trace@[k].1@))
                    &&& halted_at(
                        old(self).statement@,
                        old(self).environment@,
                        (trace@.len() - 1) as nat,
                        Ok(final(self).environment@),
                    )
                    &&& machine_outcome(old(self).statement@, old(self).environment@) == Ok::<
                        Env,
                        EvalError,
                    >(final(self).environment@)
                    &&& final(self).statement@ is DoNothing
                    &&& trace@.last().0@ == final(self).statement@
                    &&& trace@.last().1@ == final(self).environment@
                },
                Err(er) => {
                    &&& machine_outcome(old(self).statement@, old(self).environment@) == Err::<
                        Env,
                        EvalError,
                    >(er)
                    &&& stm_step(final(self).statement@, final(self).environment@) == Err::<
                        (Stm, Env),
                        EvalError,
                    >(er)
                },
            },
    {
        let ghost s0 = self.statement@;
        let ghost e0 = self.environment@;
        let ghost (n_end, r_end) = choose|n: nat, rr: Result<Env, EvalError>|
            halted_at(s0, e0, n, rr);
        let mut trace: Vec<(Statement, Environment)> = Vec::new();
        while self.statement.is_reducible()
            invariant
                s0 == old(self).statement@,
                e0 == old(self).environment@,
                halted_at(s0, e0, n_end, r_end),
                trace@.len() <= n_end,
                state_at(s0, e0, trace@.len() as nat) == Ok::<(Stm, Env), EvalError>(
                    (self.statement@, self.environment@),
                ),
                forall|k: int|
                    0 <= k < trace@.len() ==> state_at(s0, e0, k as nat) == Ok::<
                        (Stm, Env),
                        EvalError,
                    >((trace@[k].0@, trace@[k].1@)),
            decreases n_end - trace@.len(),
        {
            let state = (self.statement.clone(), self.environment.clone());
            trace.push(state);
            match self.statement.reduce(&self.environment) {
                Ok(p) => {
                    self.statement = p.0;
                    self.environment = p.1;
                },
                Err(er) => {
                    proof {
                        lemma_outcome(s0, e0, (trace@.len() - 1) as nat, Err(er));
                    }
                    return Err(er);
                },
            }
        }
        let state = (self.statement.clone(), self.environment.clone());
        trace.push(state);
        proof {
            lemma_outcome(s0, e0, (trace@.len() - 1) as nat, Ok(self.environment@));
        }
        Ok(trace)
    }
}

} // verus!
