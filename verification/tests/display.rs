use simple_semantics::syntax::{Add, Assign, DoNothing, Expression, If, LessThan, Multiply,
    Sequence, Variable, While};
use simple_semantics::{Environment, Printable, Value};

fn num(n: i64) -> Expression {
    Expression::Lit(Value::Number(n))
}

#[test]
fn numbers_render_in_decimal() {
    assert_eq!(Value::Number(0).to_s(), "0");
    assert_eq!(Value::Number(42).to_s(), "42");
    assert_eq!(Value::Number(-5).to_s(), "-5");
    assert_eq!(Value::Number(1000000007).to_s(), "1000000007");
    assert_eq!(Value::Number(i64::MAX).to_s(), "9223372036854775807");
    assert_eq!(Value::Number(i64::MIN).to_s(), "-9223372036854775808");
}

#[test]
fn booleans_render_as_words() {
    assert_eq!(Value::Boolean(true).to_s(), "true");
    assert_eq!(Value::Boolean(false).to_s(), "false");
}

#[test]
fn inspect_wraps_in_brackets() {
    assert_eq!(Value::Number(8).inspect(), "«8»");
    assert_eq!(num(8).inspect(), "«8»");
    assert_eq!(DoNothing::new().inspect(), "«do-nothing»");
}

#[test]
fn expressions_render_as_source() {
    assert_eq!(Add::new(num(3), num(5)).to_s(), "3 + 5");
    assert_eq!(Multiply::new(num(2), Variable::new("y")).to_s(), "2 * y");
    assert_eq!(LessThan::new(Variable::new("x"), num(5)).to_s(), "x < 5");
}

#[test]
fn statements_render_as_source() {
    assert_eq!(Assign::new("x", Add::new(num(3), num(5))).to_s(), "x = 3 + 5");
    assert_eq!(
        If::new(
            Expression::Lit(Value::Boolean(true)),
            Assign::new("x", num(1)),
            DoNothing::new()
        )
        .to_s(),
        "if (true) { x = 1 } else { do-nothing }"
    );
    assert_eq!(
        Sequence::new(Assign::new("x", num(1)), Assign::new("y", num(2))).to_s(),
        "x = 1; y = 2"
    );
    assert_eq!(
        While::new(
            LessThan::new(Variable::new("x"), num(5)),
            Assign::new("x", Add::new(Variable::new("x"), num(2)))
        )
        .to_s(),
        "while (x < 5) { x = x + 2 }"
    );
}

#[test]
fn environments_render_their_bindings() {
    let empty = Environment::empty();
    assert_eq!(empty.to_s(), "{  }");
    let one = empty.update(&"x".to_string(), Value::Number(8));
    assert_eq!(one.to_s(), "{ x=8 }");
    let two = one.update(&"y".to_string(), Value::Boolean(true));
    assert_eq!(two.to_s(), "{ x=8, y=true }");
    let replaced = two.update(&"x".to_string(), Value::Number(9));
    assert_eq!(replaced.to_s(), "{ x=9, y=true }");
    assert_eq!(two.to_s(), "{ x=8, y=true }");
}
