//! Textual rendering of expression and statement trees, specified over their
//! models. The format is for trace and debug display only, not a parseable
//! serialization.
use crate::syntax::{Exp, Expression, Statement, Stm};
use crate::{render_value, Printable};
use vstd::prelude::*;

verus! {

/// The literal syntax of an expression.
pub open spec fn render_exp(e: Exp) -> Seq<char>
    decreases e,
{
    match e {
        Exp::Lit(v) => render_value(v),
        Exp::Add(l, r) => render_exp(*l) + " + "@ + render_exp(*r),
        Exp::Multiply(l, r) => render_exp(*l) + " * "@ + render_exp(*r),
        Exp::LessThan(l, r) => render_exp(*l) + " < "@ + render_exp(*r),
        Exp::Variable(x) => x,
    }
}

/// The literal syntax of a statement.
pub open spec fn render_stm(s: Stm) -> Seq<char>
    decreases s,
{
    match s {
        Stm::DoNothing => "do-nothing"@,
        Stm::Assign(x, e) => x + " = "@ + render_exp(e),
        Stm::If(c, t, f) => "if ("@ + render_exp(c) + ") { "@ + render_stm(*t) + " } else { "@
            + render_stm(*f) + " }"@,
        Stm::Sequence(a, b) => render_stm(*a) + "; "@ + render_stm(*b),
        Stm::While(c, b) => "while ("@ + render_exp(c) + ") { "@ + render_stm(*b) + " }"@,
    }
}

impl Expression {
    /// The literal syntax of this expression, built by recursive descent.
    fn render_string(&self) -> (s: String)
        ensures
            s@ == render_exp(self@),
        decreases *self,
    {
        match self {
            Expression::Lit(v) => v.to_s(),
            Expression::Add(a) => {
                let mut s = (&*a.left).render_string();
                s.append(" + ");
                let right = (&*a.right).render_string();
                s.append(right.as_str());
                s
            },
            Expression::Multiply(m) => {
                let mut s = (&*m.left).render_string();
                s.append(" * ");
                let right = (&*m.right).render_string();
                s.append(right.as_str());
                s
            },
            Expression::LessThan(l) => {
                let mut s = (&*l.left).render_string();
                s.append(" < ");
                let right = (&*l.right).render_string();
                s.append(right.as_str());
                s
            },
            Expression::Variable(x) => x.name.clone(),
        }
    }
}

impl Printable for Expression {
    open spec fn rendered(&self) -> Seq<char> {
        render_exp(self@)
    }

    fn to_s(&self) -> (s: String)
        ensures
            s@ == self.rendered(),
    {
        self.render_string()
    }
}

impl Statement {
    /// The literal syntax of this statement, built by recursive descent.
    fn render_string(&self) -> (s: String)
        ensures
            s@ == render_stm(self@),
        decreases *self,
    {
        match self {
            Statement::DoNothing(_) => String::from_str("do-nothing"),
            Statement::Assign(a) => {
                let mut s = a.name.clone();
                s.append(" = ");
                let e = (&*a.expression).render_string();
                s.append(e.as_str());
                s
            },
            Statement::If(i) => {
                let mut s = String::from_str("if (");
                let c = (&*i.condition).render_string();
                s.append(c.as_str());
                s.append(") { ");
                let t = (&*i.consequence).render_string();
                s.append(t.as_str());
                s.append(" } else { ");
                let f = (&*i.alternative).render_string();
                s.append(f.as_str());
                s.append(" }");
                s
            },
            Statement::Sequence(q) => {
                let mut s = (&*q.first).render_string();
                s.append("; ");
                let b = (&*q.second).render_string();
                s.append(b.as_str());
                s
            },
            Statement::While(w) => {
                let mut s = String::from_str("while (");
                let c = (&*w.condition).render_string();
                s.append(c.as_str());
                s.append(") { ");
                let b = (&*w.body).render_string();
                s.append(b.as_str());
                s.append(" }");
                s
            },
        }
    }
}

impl Printable for Statement {
    open spec fn rendered(&self) -> Seq<char> {
        render_stm(self@)
    }

    fn to_s(&self) -> (s: String)
        ensures
            s@ == self.rendered(),
    {
        self.render_string()
    }
}

} // verus!
