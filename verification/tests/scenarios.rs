use simple_semantics::small_step::Machine;
use simple_semantics::syntax::{Add, Assign, Expression, If, LessThan, Sequence, Variable, While};
use simple_semantics::{Environment, EvalError, Printable, Value};

fn num(n: i64) -> Expression {
    Expression::Lit(Value::Number(n))
}

fn boolean(b: bool) -> Expression {
    Expression::Lit(Value::Boolean(b))
}

fn lookup(env: &Environment, name: &str) -> Result<Value, EvalError> {
    env.lookup(&name.to_string())
}

#[test]
fn assignment_big_step() {
    let program = Assign::new("x", Add::new(num(3), num(5)));
    let result = program.evaluate(&Environment::empty()).unwrap();
    assert_eq!(lookup(&result, "x"), Ok(Value::Number(8)));
}

#[test]
fn assignment_small_step() {
    let program = Assign::new("x", Add::new(num(3), num(5)));
    let mut machine = Machine::new(program);
    let trace = machine.run().unwrap();
    assert_eq!(lookup(&machine.environment, "x"), Ok(Value::Number(8)));
    assert!(machine.statement.does_nothing());
    let rendered: Vec<String> = trace.iter().map(|(s, _)| s.to_s()).collect();
    assert_eq!(rendered, vec!["x = 3 + 5", "x = 8", "do-nothing"]);
}

#[test]
fn conditional_false_takes_alternative() {
    let program = If::new(boolean(false), Assign::new("x", num(1)), Assign::new("y", num(2)));
    let result = program.evaluate(&Environment::empty()).unwrap();
    assert_eq!(lookup(&result, "y"), Ok(Value::Number(2)));
    assert_eq!(lookup(&result, "x"), Err(EvalError::UnboundVariable));

    let mut machine = Machine::new(If::new(
        boolean(false),
        Assign::new("x", num(1)),
        Assign::new("y", num(2)),
    ));
    machine.run().unwrap();
    assert_eq!(lookup(&machine.environment, "y"), Ok(Value::Number(2)));
    assert_eq!(lookup(&machine.environment, "x"), Err(EvalError::UnboundVariable));
}

#[test]
fn conditional_true_takes_consequence() {
    let program = If::new(boolean(true), Assign::new("x", num(1)), Assign::new("y", num(2)));
    let result = program.evaluate(&Environment::empty()).unwrap();
    assert_eq!(lookup(&result, "x"), Ok(Value::Number(1)));
    assert_eq!(lookup(&result, "y"), Err(EvalError::UnboundVariable));
}

fn counting_program(limit: i64) -> simple_semantics::syntax::Statement {
    Sequence::new(
        Assign::new("x", num(0)),
        While::new(
            LessThan::new(Variable::new("x"), num(limit)),
            Assign::new("x", Add::new(Variable::new("x"), num(2))),
        ),
    )
}

#[test]
fn loop_to_five_overshoots_to_six() {
    let result = counting_program(5).evaluate(&Environment::empty()).unwrap();
    assert_eq!(lookup(&result, "x"), Ok(Value::Number(6)));

    let mut machine = Machine::new(counting_program(5));
    machine.run().unwrap();
    assert!(machine.statement.does_nothing());
    assert_eq!(lookup(&machine.environment, "x"), Ok(Value::Number(6)));
}

#[test]
fn loop_to_even_limit_lands_on_it() {
    let result = counting_program(10).evaluate(&Environment::empty()).unwrap();
    assert_eq!(lookup(&result, "x"), Ok(Value::Number(10)));

    let mut machine = Machine::new(counting_program(10));
    machine.run().unwrap();
    assert_eq!(lookup(&machine.environment, "x"), Ok(Value::Number(10)));
}

#[test]
fn strategies_agree_on_final_environment() {
    let programs = [
        counting_program(5),
        Assign::new("x", Add::new(num(3), num(5))),
        If::new(
            LessThan::new(num(2), num(3)),
            Assign::new("a", num(7)),
            Assign::new("b", num(9)),
        ),
        Sequence::new(Assign::new("x", num(1)), Assign::new("y", Variable::new("x"))),
    ];
    for program in programs {
        let big = program.evaluate(&Environment::empty()).unwrap();
        let mut machine = Machine::new(program);
        machine.run().unwrap();
        assert_eq!(big.to_s(), machine.environment.to_s());
    }
}

#[test]
fn repeated_runs_produce_identical_traces() {
    let program = counting_program(4);
    let mut first = Machine::new(program.clone());
    let trace1 = first.run().unwrap();
    let mut second = Machine::new(program);
    let trace2 = second.run().unwrap();
    assert_eq!(trace1.len(), trace2.len());
    for ((s1, e1), (s2, e2)) in trace1.iter().zip(trace2.iter()) {
        assert_eq!(s1.to_s(), s2.to_s());
        assert_eq!(e1.to_s(), e2.to_s());
    }
}

#[test]
fn stuck_program_reports_its_error_and_state() {
    let program = Sequence::new(
        Assign::new("x", num(1)),
        Assign::new("y", Variable::new("missing")),
    );
    let mut machine = Machine::new(program);
    assert!(matches!(machine.run(), Err(EvalError::UnboundVariable)));
    assert_eq!(machine.statement.to_s(), "y = missing");
}

#[test]
fn addition_wraps_on_overflow() {
    let program = Assign::new("x", Add::new(num(i64::MAX), num(1)));
    let result = program.evaluate(&Environment::empty()).unwrap();
    assert_eq!(lookup(&result, "x"), Ok(Value::Number(i64::MIN)));

    let mut machine = Machine::new(Assign::new("x", Add::new(num(i64::MAX), num(1))));
    machine.run().unwrap();
    assert_eq!(lookup(&machine.environment, "x"), Ok(Value::Number(i64::MIN)));
}
