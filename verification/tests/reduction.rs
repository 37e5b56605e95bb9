use simple_semantics::small_step::Machine;
use simple_semantics::syntax::{Add, Assign, DoNothing, Expression, If, LessThan, Multiply,
    Sequence, Statement, Variable, While};
use simple_semantics::{Environment, EvalError, Printable, Value};
use std::rc::Rc;

fn num(n: i64) -> Expression {
    Expression::Lit(Value::Number(n))
}

fn boolean(b: bool) -> Expression {
    Expression::Lit(Value::Boolean(b))
}

#[test]
fn reducing_a_literal_fails() {
    let env = Environment::empty();
    assert!(matches!(num(5).reduce(&env), Err(EvalError::NotReducible)));
    assert!(matches!(boolean(true).reduce(&env), Err(EvalError::NotReducible)));
}

#[test]
fn reducing_do_nothing_fails() {
    let env = Environment::empty();
    assert!(matches!(DoNothing::new().reduce(&env), Err(EvalError::NotReducible)));
}

#[test]
fn literals_are_irreducible_and_everything_else_reduces() {
    assert!(!num(5).is_reducible());
    assert!(!boolean(false).is_reducible());
    assert!(Variable::new("x").is_reducible());
    assert!(Add::new(num(1), num(2)).is_reducible());
    assert!(!DoNothing::new().is_reducible());
    assert!(Assign::new("x", num(1)).is_reducible());
}

#[test]
fn variable_reduces_to_its_binding() {
    let env = Environment::empty().update(&"x".to_string(), Value::Number(7));
    let reduced = Variable::new("x").reduce(&env).unwrap();
    assert_eq!(reduced.as_value(), Some(Value::Number(7)));
}

#[test]
fn unbound_variable_reduction_fails() {
    let env = Environment::empty();
    assert!(matches!(Variable::new("z").reduce(&env), Err(EvalError::UnboundVariable)));
    assert!(matches!(Variable::new("z").evaluate(&env), Err(EvalError::UnboundVariable)));
}

#[test]
fn reduction_is_leftmost_innermost() {
    let env = Environment::empty();
    let mut expression = Add::new(Multiply::new(num(1), num(2)), Multiply::new(num(3), num(4)));
    let mut seen = vec![expression.to_s()];
    while expression.is_reducible() {
        expression = expression.reduce(&env).unwrap();
        seen.push(expression.to_s());
    }
    assert_eq!(seen, vec!["1 * 2 + 3 * 4", "2 + 3 * 4", "2 + 12", "14"]);
}

#[test]
fn mismatched_operands_fail() {
    let env = Environment::empty();
    assert!(matches!(Add::new(boolean(true), num(1)).reduce(&env), Err(EvalError::TypeMismatch)));
    assert!(matches!(
        Add::new(boolean(true), num(1)).evaluate(&env),
        Err(EvalError::TypeMismatch)
    ));
    assert!(matches!(
        LessThan::new(num(1), boolean(false)).reduce(&env),
        Err(EvalError::TypeMismatch)
    ));
    assert!(matches!(
        Multiply::new(boolean(true), boolean(false)).evaluate(&env),
        Err(EvalError::TypeMismatch)
    ));
}

#[test]
fn branching_on_a_number_fails() {
    let env = Environment::empty();
    let program = If::new(num(1), DoNothing::new(), DoNothing::new());
    assert!(matches!(program.reduce(&env), Err(EvalError::TypeMismatch)));
}

#[test]
fn reduction_shares_the_unchanged_sibling() {
    let left = Rc::new(Add::new(num(3), num(5)));
    let right = Rc::new(Multiply::new(num(2), num(4)));
    let outer = Expression::Add(simple_semantics::syntax::Add {
        left: left.clone(),
        right: right.clone(),
    });
    let reduced = outer.reduce(&Environment::empty()).unwrap();
    match &reduced {
        Expression::Add(a) => {
            assert_eq!(a.left.to_s(), "8");
            assert!(Rc::ptr_eq(&a.right, &right));
        },
        _ => panic!("one step of an addition must stay an addition"),
    }
}

#[test]
fn while_unrolls_sharing_condition_and_body() {
    let condition = Rc::new(LessThan::new(Variable::new("x"), num(5)));
    let body = Rc::new(Assign::new("x", Add::new(Variable::new("x"), num(2))));
    let looped = Statement::While(simple_semantics::syntax::While {
        condition: condition.clone(),
        body: body.clone(),
    });
    let env = Environment::empty().update(&"x".to_string(), Value::Number(0));
    let (unrolled, _) = looped.reduce(&env).unwrap();
    match &unrolled {
        Statement::If(i) => {
            assert!(Rc::ptr_eq(&i.condition, &condition));
            match &*i.consequence {
                Statement::Sequence(s) => {
                    assert!(Rc::ptr_eq(&s.first, &body));
                    assert_eq!(s.second.to_s(), "while (x < 5) { x = x + 2 }");
                },
                _ => panic!("the unrolled loop must begin with a sequence"),
            }
            assert!(i.alternative.does_nothing());
        },
        _ => panic!("a while statement must unroll into a conditional"),
    }
}

#[test]
fn sequence_hands_off_once_first_half_is_done() {
    let env = Environment::empty();
    let program = Sequence::new(DoNothing::new(), Assign::new("x", num(1)));
    let (next, _) = program.reduce(&env).unwrap();
    assert_eq!(next.to_s(), "x = 1");
}

#[test]
fn machine_steps_one_transition_at_a_time() {
    let mut machine = Machine::new(Assign::new("x", Add::new(num(3), num(5))));
    assert_eq!(machine.step(), Ok(()));
    assert_eq!(machine.statement.to_s(), "x = 8");
    assert_eq!(machine.step(), Ok(()));
    assert!(machine.statement.does_nothing());
    assert_eq!(machine.step(), Err(EvalError::NotReducible));
}

#[test]
fn update_is_persistent() {
    let base = Environment::empty().update(&"x".to_string(), Value::Number(1));
    let derived = base.update(&"x".to_string(), Value::Number(2));
    assert_eq!(base.lookup(&"x".to_string()), Ok(Value::Number(1)));
    assert_eq!(derived.lookup(&"x".to_string()), Ok(Value::Number(2)));
}

#[test]
fn while_from_shares_both_subtrees() {
    let w = simple_semantics::syntax::While {
        condition: Rc::new(boolean(true)),
        body: Rc::new(DoNothing::new()),
    };
    let copy = While::from(&w);
    match &copy {
        Statement::While(w2) => {
            assert!(Rc::ptr_eq(&w2.condition, &w.condition));
            assert!(Rc::ptr_eq(&w2.body, &w.body));
        },
        _ => panic!("While::from must build a while statement"),
    }
}

#[test]
fn operators_evaluate_exactly() {
    let env = Environment::empty();
    assert_eq!(Add::new(num(3), num(5)).evaluate(&env), Ok(Value::Number(8)));
    assert_eq!(Multiply::new(num(3), num(5)).evaluate(&env), Ok(Value::Number(15)));
    assert_eq!(LessThan::new(num(3), num(5)).evaluate(&env), Ok(Value::Boolean(true)));
    assert_eq!(LessThan::new(num(5), num(5)).evaluate(&env), Ok(Value::Boolean(false)));
    assert_eq!(Multiply::new(num(i64::MAX), num(2)).evaluate(&env), Ok(Value::Number(-2)));
}
