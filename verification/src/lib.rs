//! Operational semantics of a small imperative language: numbers, booleans,
//! arithmetic and comparison expressions, variables, assignment, sequencing,
//! conditionals and loops, evaluated under two strategies.
//!
//! The small-step strategy rewrites a (statement, environment) pair one
//! indivisible step at a time until the statement is `DoNothing`; the big-step
//! strategy computes the final environment in one recursive descent. Both are
//! specified against the same mathematical step relation, and a proved
//! agreement theorem says they produce the same result on every halting
//! program.
use vstd::prelude::*;

pub mod agreement;
pub mod big_step;
pub mod counting;
pub mod render;
pub mod small_step;
pub mod syntax;

verus! {

/// A closed, irreducible result of evaluation.
///
/// Numbers are 64-bit two's-complement integers; addition and multiplication
/// wrap on overflow. No operation mixes a number with a boolean: doing so is a
/// `TypeMismatch`.
#[derive(Clone, Copy, PartialEq, Eq, Structural, Debug)]
pub enum Value {
    Number(i64),
    Boolean(bool),
}

/// Why an evaluation cannot go on.
///
/// All three are unrecoverable for the program under evaluation: they mark a
/// malformed program or a driver contract violation, not a transient fault.
#[derive(Clone, Copy, PartialEq, Eq, Structural, Debug)]
pub enum EvalError {
    /// A variable was read that the environment does not bind.
    UnboundVariable,
    /// An operator met a value of the wrong kind, or a condition was not a
    /// boolean.
    TypeMismatch,
    /// `reduce` was invoked on a terminal term (a literal or `DoNothing`).
    NotReducible,
}

/// The model of an environment: a finite map from variable name to value.
pub type Env = Map<Seq<char>, Value>;

/// The textual-rendering capability every term carries, used solely for trace
/// and debug output. It has no side effects and never fails.
pub trait Printable {
    /// The characters `to_s` hands back.
    spec fn rendered(&self) -> Seq<char>;

    /// The literal syntax of the term.
    fn to_s(&self) -> (s: String)
        ensures
            s@ == self.rendered(),
    ;

    /// The rendering wrapped in distinguishing brackets.
    fn inspect(&self) -> (s: String)
        ensures
            s@ == "«"@ + self.rendered() + "»"@,
    {
        let mut out = String::from_str("«");
        out.append(self.to_s().as_str());
        out.append("»");
        out
    }
}

/// The decimal digit character for `d`.
pub open spec fn dec_digit(d: nat) -> char
    recommends
        d < 10,
{
    if d == 0 {
        '0'
    } else if d == 1 {
        '1'
    } else if d == 2 {
        '2'
    } else if d == 3 {
        '3'
    } else if d == 4 {
        '4'
    } else if d == 5 {
        '5'
    } else if d == 6 {
        '6'
    } else if d == 7 {
        '7'
    } else if d == 8 {
        '8'
    } else {
        '9'
    }
}

/// The decimal digits of `n`, most significant first, without a sign.
pub open spec fn dec_rep(n: nat) -> Seq<char>
    decreases n,
{
    if n < 10 {
        seq![dec_digit(n)]
    } else {
        dec_rep(n / 10).push(dec_digit(n % 10))
    }
}

/// The decimal rendering of an integer, a minus sign first where it is
/// negative.
pub open spec fn render_int(n: int) -> Seq<char> {
    if n < 0 {
        seq!['-'] + dec_rep((-n) as nat)
    } else {
        dec_rep(n as nat)
    }
}

/// The literal syntax of a value.
pub open spec fn render_value(v: Value) -> Seq<char> {
    match v {
        Value::Number(n) => render_int(n as int),
        Value::Boolean(b) => if b {
            "true"@
        } else {
            "false"@
        },
    }
}

/// The decimal string of `d`, a single digit.
fn digit_string(d: u64) -> (s: String)
    requires
        d < 10,
    ensures
        s@ == seq![dec_digit(d as nat)],
{
    let text = match d {
        0 => "0",
        1 => "1",
        2 => "2",
        3 => "3",
        4 => "4",
        5 => "5",
        6 => "6",
        7 => "7",
        8 => "8",
        _ => "9",
    };
    proof {
        reveal_strlit("0");
        reveal_strlit("1");
        reveal_strlit("2");
        reveal_strlit("3");
        reveal_strlit("4");
        reveal_strlit("5");
        reveal_strlit("6");
        reveal_strlit("7");
        reveal_strlit("8");
        reveal_strlit("9");
        assert(text@ =~= seq![dec_digit(d as nat)]);
    }
    String::from_str(text)
}

/// The decimal string of `n`, without a sign.
fn dec_string(n: u64) -> (s: String)
    ensures
        s@ == dec_rep(n as nat),
    decreases n,
{
    if n < 10 {
        digit_string(n)
    } else {
        let mut s = dec_string(n / 10);
        let low = digit_string(n % 10);
        s.append(low.as_str());
        proof {
            assert(s@ =~= dec_rep(n as nat));
        }
        s
    }
}

/// The decimal string of `n`, a minus sign first where it is negative.
fn int_string(n: i64) -> (s: String)
    ensures
        s@ == render_int(n as int),
{
    if n >= 0 {
        dec_string(n as u64)
    } else {
        let mag: u64 = if n == i64::MIN {
            9223372036854775808u64
        } else {
            (-n) as u64
        };
        proof {
            assert(mag as nat == (-(n as int)) as nat);
        }
        let mut s = String::from_str("-");
        let digits = dec_string(mag);
        s.append(digits.as_str());
        proof {
            reveal_strlit("-");
            assert(s@ =~= render_int(n as int));
        }
        s
    }
}

impl Printable for Value {
    open spec fn rendered(&self) -> Seq<char> {
        render_value(*self)
    }

    fn to_s(&self) -> (s: String)
        ensures
            s@ == self.rendered(),
    {
        match self {
            Value::Number(n) => int_string(*n),
            Value::Boolean(b) => if *b {
                String::from_str("true")
            } else {
                String::from_str("false")
            },
        }
    }
}

/// The mapping a sequence of bindings denotes: later entries override earlier
/// ones, and names are compared by their character sequences.
pub open spec fn env_map(s: Seq<(String, Value)>) -> Map<Seq<char>, Value>
    decreases s.len(),
{
    if s.len() == 0 {
        Map::empty()
    } else {
        env_map(s.drop_last()).insert(s.last().0@, s.last().1)
    }
}

/// A persistent mapping from variable names to values.
///
/// `update` returns a new environment and never alters the receiver, so one
/// environment may be shared by several terms across rewrite steps. The view
/// is the finite map from name (as a character sequence) to bound value.
pub struct Environment {
    bindings: Vec<(String, Value)>,
}

impl View for Environment {
    type V = Map<Seq<char>, Value>;

    closed spec fn view(&self) -> Map<Seq<char>, Value> {
        env_map(self.bindings@)
    }
}

impl Environment {
    /// Every name is bound at most once.
    #[verifier::type_invariant]
    spec fn wf(&self) -> bool {
        forall|i: int, j: int|
            0 <= i < j < self.bindings@.len() ==> self.bindings@[i].0@ != self.bindings@[j].0@
    }

    /// The environment with no bindings, the initial state of every program.
    pub fn empty() -> (r: Environment)
        ensures
            r@ == Map::<Seq<char>, Value>::empty(),
    {
        Environment { bindings: Vec::new() }
    }

    /// The value bound to `name`, or `UnboundVariable` if there is none.
    pub fn lookup(&self, name: &String) -> (r: Result<Value, EvalError>)
        ensures
            r == if self@.contains_key(name@) {
                Ok::<Value, EvalError>(self@[name@])
            } else {
                Err::<Value, EvalError>(EvalError::UnboundVariable)
            },
    {
        proof {
            use_type_invariant(self);
        }
        let n = self.bindings.len();
        let mut i: usize = 0;
        while i < n
            invariant
                i <= n,
                n == self.bindings@.len(),
                self.wf(),
                forall|k: int| 0 <= k < i ==> self.bindings@[k].0@ != name@,
            decreases n - i,
        {
            if self.bindings[i].0 == *name {
                proof {
                    lemma_env_map_found(self.bindings@, i as int);
                }
                return Ok(self.bindings[i].1);
            }
            i = i + 1;
        }
        proof {
            lemma_env_map_absent(self.bindings@, name@);
        }
        Err(EvalError::UnboundVariable)
    }

    /// A new environment equal to this one except that `key` is bound to
    /// `value`. The receiver is unaffected.
    pub fn update(&self, key: &String, value: Value) -> (r: Environment)
        ensures
            r@ == self@.insert(key@, value),
    {
        proof {
            use_type_invariant(self);
        }
        let n = self.bindings.len();
        let mut out: Vec<(String, Value)> = Vec::new();
        let mut i: usize = 0;
        while i < n
            invariant
                i <= n,
                n == self.bindings@.len(),
                out@ == self.bindings@.take(i as int),
            decreases n - i,
        {
            let pair = (self.bindings[i].0.clone(), self.bindings[i].1);
            proof {
                assert(self.bindings@.take(i + 1) == self.bindings@.take(i as int).push(
                    self.bindings@[i as int],
                ));
            }
            out.push(pair);
            i = i + 1;
        }
        proof {
            assert(out@ == self.bindings@);
        }
        let mut j: usize = 0;
        while j < n
            invariant
                j <= n,
                n == self.bindings@.len(),
                out@ == self.bindings@,
                self.wf(),
                forall|k: int| 0 <= k < j ==> self.bindings@[k].0@ != key@,
            decreases n - j,
        {
            if out[j].0 == *key {
                out.set(j, (key.clone(), value));
                proof {
                    lemma_env_map_replace(self.bindings@, j as int, (*key, value));
                }
                return Environment { bindings: out };
            }
            j = j + 1;
        }
        out.push((key.clone(), value));
        proof {
            assert(out@.drop_last() == self.bindings@);
            lemma_env_map_absent(self.bindings@, key@);
        }
        Environment { bindings: out }
    }
}

/// The `name=value` list an environment renders as, in binding order.
pub open spec fn render_bindings(s: Seq<(String, Value)>) -> Seq<char>
    decreases s.len(),
{
    if s.len() == 0 {
        Seq::empty()
    } else if s.len() == 1 {
        s[0].0@ + "="@ + render_value(s[0].1)
    } else {
        render_bindings(s.drop_last()) + ", "@ + s.last().0@ + "="@ + render_value(s.last().1)
    }
}

impl Printable for Environment {
    /// The bindings listed as `name=value`, comma-separated and braced, in a
    /// stable order. The order carries no meaning: the view of the
    /// environment is the map alone.
    closed spec fn rendered(&self) -> Seq<char> {
        "{ "@ + render_bindings(self.bindings@) + " }"@
    }

    fn to_s(&self) -> (s: String)
        ensures
            s@ == self.rendered(),
    {
        let mut out = String::from_str("{ ");
        let n = self.bindings.len();
        let mut i: usize = 0;
        while i < n
            invariant
                i <= n,
                n == self.bindings@.len(),
                out@ == "{ "@ + render_bindings(self.bindings@.take(i as int)),
            decreases n - i,
        {
            if i > 0 {
                out.append(", ");
            }
            out.append(self.bindings[i].0.as_str());
            out.append("=");
            let vs = self.bindings[i].1.to_s();
            out.append(vs.as_str());
            proof {
                assert(self.bindings@.take(i + 1).drop_last() =~= self.bindings@.take(i as int));
                assert(self.bindings@.take(i + 1).last() == self.bindings@[i as int]);
                assert(out@ =~= "{ "@ + render_bindings(self.bindings@.take(i + 1)));
            }
            i = i + 1;
        }
        out.append(" }");
        proof {
            assert(self.bindings@.take(n as int) == self.bindings@);
            assert(out@ =~= "{ "@ + render_bindings(self.bindings@) + " }"@);
        }
        out
    }
}

impl Clone for Environment {
    /// A copy that denotes the same mapping.
    fn clone(&self) -> (r: Self)
        ensures
            r@ == self@,
    {
        proof {
            use_type_invariant(self);
        }
        let n = self.bindings.len();
        let mut out: Vec<(String, Value)> = Vec::new();
        let mut i: usize = 0;
        while i < n
            invariant
                i <= n,
                n == self.bindings@.len(),
                out@ == self.bindings@.take(i as int),
            decreases n - i,
        {
            let pair = (self.bindings[i].0.clone(), self.bindings[i].1);
            proof {
                assert(self.bindings@.take(i + 1) == self.bindings@.take(i as int).push(
                    self.bindings@[i as int],
                ));
            }
            out.push(pair);
            i = i + 1;
        }
        proof {
            assert(out@ == self.bindings@);
        }
        Environment { bindings: out }
    }
}

/// Where no entry of `s` carries the name `key`, the denoted map does not
/// bind `key`.
proof fn lemma_env_map_absent(s: Seq<(String, Value)>, key: Seq<char>)
    requires
        forall|k: int| 0 <= k < s.len() ==> s[k].0@ != key,
    ensures
        !env_map(s).contains_key(key),
    decreases s.len(),
{
    if s.len() > 0 {
        lemma_env_map_absent(s.drop_last(), key);
    }
}

/// Where names are unique and entry `i` carries a name, the denoted map binds
/// that name to entry `i`'s value.
proof fn lemma_env_map_found(s: Seq<(String, Value)>, i: int)
    requires
        0 <= i < s.len(),
        forall|k: int, l: int| 0 <= k < l < s.len() ==> s[k].0@ != s[l].0@,
    ensures
        env_map(s).contains_key(s[i].0@),
        env_map(s)[s[i].0@] == s[i].1,
    decreases s.len(),
{
    if i < s.len() - 1 {
        lemma_env_map_found(s.drop_last(), i);
    }
}

/// Replacing the one entry that carries a name with a new binding of the same
/// name denotes insertion into the map.
proof fn lemma_env_map_replace(s: Seq<(String, Value)>, i: int, p: (String, Value))
    requires
        0 <= i < s.len(),
        forall|k: int, l: int| 0 <= k < l < s.len() ==> s[k].0@ != s[l].0@,
        p.0@ == s[i].0@,
    ensures
        env_map(s.update(i, p)) == env_map(s).insert(p.0@, p.1),
    decreases s.len(),
{
    if i == s.len() - 1 {
        assert(s.update(i, p).drop_last() == s.drop_last());
        assert(env_map(s.update(i, p)) =~= env_map(s).insert(p.0@, p.1));
    } else {
        lemma_env_map_replace(s.drop_last(), i, p);
        assert(s.update(i, p).drop_last() == s.drop_last().update(i, p));
        lemma_env_map_found(s, i);
        assert(env_map(s.update(i, p)) =~= env_map(s).insert(p.0@, p.1));
    }
}

} // verus!
