//! The syntax trees of the language and their mathematical models.
//!
//! Every executable tree node is immutable after construction and holds its
//! subtrees behind `Rc`, so a rewrite step rebuilds only the spine it changes
//! and shares every untouched sibling by reference. The model of a tree is a
//! plain recursive datatype over character sequences, which the semantics and
//! all contracts speak of.
use crate::Value;
use std::rc::Rc;
use vstd::prelude::*;

verus! {

/// The model of an expression tree.
pub enum Exp {
    Lit(Value),
    Add(Box<Exp>, Box<Exp>),
    Multiply(Box<Exp>, Box<Exp>),
    LessThan(Box<Exp>, Box<Exp>),
    Variable(Seq<char>),
}

/// The model of a statement tree.
pub enum Stm {
    DoNothing,
    Assign(Seq<char>, Exp),
    If(Exp, Box<Stm>, Box<Stm>),
    Sequence(Box<Stm>, Box<Stm>),
    While(Exp, Box<Stm>),
}

/// Addition of two subexpressions.
pub struct Add {
    pub left: Rc<Expression>,
    pub right: Rc<Expression>,
}

/// Multiplication of two subexpressions.
pub struct Multiply {
    pub left: Rc<Expression>,
    pub right: Rc<Expression>,
}

/// Numeric comparison of two subexpressions, producing a boolean.
pub struct LessThan {
    pub left: Rc<Expression>,
    pub right: Rc<Expression>,
}

/// A reference to a variable, reduced by environment lookup.
pub struct Variable {
    pub name: String,
}

/// An expression tree: a literal value is terminal, every other node is
/// reducible.
pub enum Expression {
    Lit(Value),
    Add(Add),
    Multiply(Multiply),
    LessThan(LessThan),
    Variable(Variable),
}

/// The terminal statement: it signals that the computation is finished.
pub struct DoNothing;

/// Binds a name to the value of an expression.
pub struct Assign {
    pub name: String,
    pub expression: Rc<Expression>,
}

/// Branches on a boolean condition.
pub struct If {
    pub condition: Rc<Expression>,
    pub consequence: Rc<Statement>,
    pub alternative: Rc<Statement>,
}

/// Runs the first statement to completion, then the second.
pub struct Sequence {
    pub first: Rc<Statement>,
    pub second: Rc<Statement>,
}

/// Repeats a body while a condition holds. Under small-step semantics it
/// rewrites into an `If`/`Sequence` combination rather than recursing.
pub struct While {
    pub condition: Rc<Expression>,
    pub body: Rc<Statement>,
}

/// A statement tree: `DoNothing` is terminal, every other node is reducible.
pub enum Statement {
    DoNothing(DoNothing),
    Assign(Assign),
    If(If),
    Sequence(Sequence),
    While(While),
}

impl Expression {
    /// The model of this tree.
    pub open spec fn model(self) -> Exp
        decreases self,
    {
        match self {
            Expression::Lit(v) => Exp::Lit(v),
            Expression::Add(a) => Exp::Add(
                Box::new((*a.left).model()),
                Box::new((*a.right).model()),
            ),
            Expression::Multiply(m) => Exp::Multiply(
                Box::new((*m.left).model()),
                Box::new((*m.right).model()),
            ),
            Expression::LessThan(l) => Exp::LessThan(
                Box::new((*l.left).model()),
                Box::new((*l.right).model()),
            ),
            Expression::Variable(x) => Exp::Variable(x.name@),
        }
    }
}

impl View for Expression {
    type V = Exp;

    open spec fn view(&self) -> Exp {
        self.model()
    }
}

impl Statement {
    /// The model of this tree.
    pub open spec fn model(self) -> Stm
        decreases self,
    {
        match self {
            Statement::DoNothing(_) => Stm::DoNothing,
            Statement::Assign(a) => Stm::Assign(a.name@, (*a.expression).model()),
            Statement::If(i) => Stm::If(
                (*i.condition).model(),
                Box::new((*i.consequence).model()),
                Box::new((*i.alternative).model()),
            ),
            Statement::Sequence(s) => Stm::Sequence(
                Box::new((*s.first).model()),
                Box::new((*s.second).model()),
            ),
            Statement::While(w) => Stm::While((*w.condition).model(), Box::new((*w.body).model())),
        }
    }
}

impl View for Statement {
    type V = Stm;

    open spec fn view(&self) -> Stm {
        self.model()
    }
}

impl Clone for Add {
    /// A copy that shares both subtrees by reference.
    fn clone(&self) -> (r: Self)
        ensures
            r == *self,
    {
        Add { left: self.left.clone(), right: self.right.clone() }
    }
}

impl Clone for Multiply {
    /// A copy that shares both subtrees by reference.
    fn clone(&self) -> (r: Self)
        ensures
            r == *self,
    {
        Multiply { left: self.left.clone(), right: self.right.clone() }
    }
}

impl Clone for LessThan {
    /// A copy that shares both subtrees by reference.
    fn clone(&self) -> (r: Self)
        ensures
            r == *self,
    {
        LessThan { left: self.left.clone(), right: self.right.clone() }
    }
}

impl Clone for Variable {
    fn clone(&self) -> (r: Self)
        ensures
            r == *self,
    {
        Variable { name: self.name.clone() }
    }
}

impl Clone for Expression {
    /// A copy of the outermost node that shares every subtree by reference.
    fn clone(&self) -> (r: Self)
        ensures
            r == *self,
    {
        match self {
            Expression::Lit(v) => Expression::Lit(*v),
            Expression::Add(a) => Expression::Add(a.clone()),
            Expression::Multiply(m) => Expression::Multiply(m.clone()),
            Expression::LessThan(l) => Expression::LessThan(l.clone()),
            Expression::Variable(x) => Expression::Variable(x.clone()),
        }
    }
}

impl Clone for DoNothing {
    fn clone(&self) -> (r: Self)
        ensures
            r == *self,
    {
        DoNothing
    }
}

impl Clone for Assign {
    /// A copy that shares the expression subtree by reference.
    fn clone(&self) -> (r: Self)
        ensures
            r == *self,
    {
        Assign { name: self.name.clone(), expression: self.expression.clone() }
    }
}

impl Clone for If {
    /// A copy that shares the condition and both branches by reference.
    fn clone(&self) -> (r: Self)
        ensures
            r == *self,
    {
        If {
            condition: self.condition.clone(),
            consequence: self.consequence.clone(),
            alternative: self.alternative.clone(),
        }
    }
}

impl Clone for Sequence {
    /// A copy that shares both halves by reference.
    fn clone(&self) -> (r: Self)
        ensures
            r == *self,
    {
        Sequence { first: self.first.clone(), second: self.second.clone() }
    }
}

impl Clone for While {
    /// A copy that shares the condition and the body by reference.
    fn clone(&self) -> (r: Self)
        ensures
            r == *self,
    {
        While { condition: self.condition.clone(), body: self.body.clone() }
    }
}

impl Clone for Statement {
    /// A copy of the outermost node that shares every subtree by reference.
    fn clone(&self) -> (r: Self)
        ensures
            r == *self,
    {
        match self {
            Statement::DoNothing(_) => Statement::DoNothing(DoNothing),
            Statement::Assign(a) => Statement::Assign(a.clone()),
            Statement::If(i) => Statement::If(i.clone()),
            Statement::Sequence(s) => Statement::Sequence(s.clone()),
            Statement::While(w) => Statement::While(w.clone()),
        }
    }
}

impl Add {
    /// The expression that adds `left` to `right`.
    pub fn new(left: Expression, right: Expression) -> (r: Expression)
        ensures
            r@ == Exp::Add(Box::new(left@), Box::new(right@)),
    {
        Expression::Add(Add { left: Rc::new(left), right: Rc::new(right) })
    }
}

impl Multiply {
    /// The expression that multiplies `left` by `right`.
    pub fn new(left: Expression, right: Expression) -> (r: Expression)
        ensures
            r@ == Exp::Multiply(Box::new(left@), Box::new(right@)),
    {
        Expression::Multiply(Multiply { left: Rc::new(left), right: Rc::new(right) })
    }
}

impl LessThan {
    /// The expression that compares `left` to `right`.
    pub fn new(left: Expression, right: Expression) -> (r: Expression)
        ensures
            r@ == Exp::LessThan(Box::new(left@), Box::new(right@)),
    {
        Expression::LessThan(LessThan { left: Rc::new(left), right: Rc::new(right) })
    }
}

impl Variable {
    /// The expression that reads the variable called `name`.
    pub fn new(name: &str) -> (r: Expression)
        ensures
            r@ == Exp::Variable(name@),
    {
        Expression::Variable(Variable { name: name.to_owned() })
    }
}

impl DoNothing {
    /// The terminal statement.
    pub fn new() -> (r: Statement)
        ensures
            r@ == Stm::DoNothing,
    {
        Statement::DoNothing(DoNothing)
    }
}

impl Assign {
    /// The statement that binds `name` to the value of `expression`.
    pub fn new(name: &str, expression: Expression) -> (r: Statement)
        ensures
            r@ == Stm::Assign(name@, expression@),
    {
        Statement::Assign(Assign { name: name.to_owned(), expression: Rc::new(expression) })
    }
}

impl If {
    /// The statement that runs `consequence` when `condition` is true and
    /// `alternative` when it is false.
    pub fn new(condition: Expression, consequence: Statement, alternative: Statement) -> (r:
        Statement)
        ensures
            r@ == Stm::If(condition@, Box::new(consequence@), Box::new(alternative@)),
    {
        Statement::If(
            If {
                condition: Rc::new(condition),
                consequence: Rc::new(consequence),
                alternative: Rc::new(alternative),
            },
        )
    }
}

impl Sequence {
    /// The statement that runs `first` to completion, then `second`.
    pub fn new(first: Statement, second: Statement) -> (r: Statement)
        ensures
            r@ == Stm::Sequence(Box::new(first@), Box::new(second@)),
    {
        Statement::Sequence(Sequence { first: Rc::new(first), second: Rc::new(second) })
    }
}

impl While {
    /// The statement that repeats `body` while `condition` holds.
    pub fn new(condition: Expression, body: Statement) -> (r: Statement)
        ensures
            r@ == Stm::While(condition@, Box::new(body@)),
    {
        Statement::While(While { condition: Rc::new(condition), body: Rc::new(body) })
    }

    /// A fresh `While` node that shares this one's condition and body by
    /// reference.
    pub fn from(other: &While) -> (r: Statement)
        ensures
            r@ == Stm::While(other.condition@, Box::new(other.body@)),
    {
        Statement::While(While { condition: other.condition.clone(), body: other.body.clone() })
    }
}

} // verus!
