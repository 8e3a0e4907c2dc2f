//! Terms: the tree values that facts, rules and goals are made of.
//!
//! `Value` is the executable tree. `Term` is its mathematical model, over
//! sequences of characters and unbounded integers; every contract of the
//! crate is stated over `Term`.

use vstd::prelude::*;

verus! {

/// The mathematical model of a term.
pub enum Term {
    /// A string literal.
    Atom(Seq<char>),
    /// An integer literal.
    Integer(int),
    /// A variable, identified by its name.
    Variable(Seq<char>),
    /// A fact or a goal: a functor applied to arguments.
    Compound(Seq<char>, Seq<Term>),
    /// A list of fixed length.
    List(Seq<Term>),
    /// A rule: the functor and parameters of its head, and its body.
    Rule(Seq<char>, Seq<Term>, Box<Term>),
    /// `lhs = rhs`
    Equals(Box<Term>, Box<Term>),
    /// `lhs, rhs`
    And(Box<Term>, Box<Term>),
    /// `lhs > rhs`
    GreaterThan(Box<Term>, Box<Term>),
    /// `lhs < rhs`
    LessThan(Box<Term>, Box<Term>),
    /// `lhs >= rhs`
    GreaterOrEqual(Box<Term>, Box<Term>),
    /// `lhs <= rhs`
    LessOrEqual(Box<Term>, Box<Term>),
}

/// A term as the engine stores it.
#[derive(Debug)]
pub enum Value {
    CompoundTerm(String, Vec<Value>),
    Predicate(String, Vec<Value>, Box<Value>),
    List(Vec<Value>),
    Str(String),
    Int(usize),
    Variable(String),
    Eq(Box<Value>, Box<Value>),
    And(Box<Value>, Box<Value>),
    GreaterThan(Box<Value>, Box<Value>),
    LessThan(Box<Value>, Box<Value>),
    GreaterThanEqual(Box<Value>, Box<Value>),
    LessThanEqual(Box<Value>, Box<Value>),
}

impl Value {
    /// The terms that a sequence of values stands for, one for one.
    pub open spec fn models(values: Seq<Value>) -> Seq<Term>
        decreases values,
    {
        Seq::new(
            values.len(),
            |i: int|
                if 0 <= i < values.len() {
                    values[i].model()
                } else {
                    arbitrary()
                },
        )
    }

    /// The term that this value stands for.
    pub open spec fn model(self) -> Term
        decreases self,
    {
        match self {
            Value::CompoundTerm(name, args) => Term::Compound(name@, Value::models(args@)),
            Value::Predicate(name, params, body) => Term::Rule(
                name@,
                Value::models(params@),
                Box::new(body.model()),
            ),
            Value::List(items) => Term::List(Value::models(items@)),
            Value::Str(text) => Term::Atom(text@),
            Value::Int(n) => Term::Integer(n as int),
            Value::Variable(name) => Term::Variable(name@),
            Value::Eq(l, r) => Term::Equals(Box::new(l.model()), Box::new(r.model())),
            Value::And(l, r) => Term::And(Box::new(l.model()), Box::new(r.model())),
            Value::GreaterThan(l, r) => Term::GreaterThan(
                Box::new(l.model()),
                Box::new(r.model()),
            ),
            Value::LessThan(l, r) => Term::LessThan(Box::new(l.model()), Box::new(r.model())),
            Value::GreaterThanEqual(l, r) => Term::GreaterOrEqual(
                Box::new(l.model()),
                Box::new(r.model()),
            ),
            Value::LessThanEqual(l, r) => Term::LessOrEqual(
                Box::new(l.model()),
                Box::new(r.model()),
            ),
        }
    }

    /// Structural equality: whether two values stand for the same term.
    pub fn same(&self, other: &Value) -> (r: bool)
        ensures
            r == (self@ == other@),
        decreases self,
    {
        match (self, other) {
            (Value::CompoundTerm(f, a), Value::CompoundTerm(g, b)) => *f == *g && Value::same_all(
                a,
                b,
            ),
            (Value::Predicate(f, a, x), Value::Predicate(g, b, y)) => *f == *g && Value::same_all(
                a,
                b,
            ) && x.same(y),
            (Value::List(a), Value::List(b)) => Value::same_all(a, b),
            (Value::Str(a), Value::Str(b)) => *a == *b,
            (Value::Int(a), Value::Int(b)) => *a == *b,
            (Value::Variable(a), Value::Variable(b)) => *a == *b,
            (Value::Eq(a, b), Value::Eq(c, d)) => a.same(c) && b.same(d),
            (Value::And(a, b), Value::And(c, d)) => a.same(c) && b.same(d),
            (Value::GreaterThan(a, b), Value::GreaterThan(c, d)) => a.same(c) && b.same(d),
            (Value::LessThan(a, b), Value::LessThan(c, d)) => a.same(c) && b.same(d),
            (Value::GreaterThanEqual(a, b), Value::GreaterThanEqual(c, d)) => a.same(c) && b.same(
                d,
            ),
            (Value::LessThanEqual(a, b), Value::LessThanEqual(c, d)) => a.same(c) && b.same(d),
            _ => false,
        }
    }

    /// Whether two vectors of values stand for the same sequence of terms.
    pub fn same_all(a: &Vec<Value>, b: &Vec<Value>) -> (r: bool)
        ensures
            r == (Value::models(a@) == Value::models(b@)),
        decreases a,
    {
        if a.len() != b.len() {
            return false;
        }
        let mut i: usize = 0;
        while i < a.len()
            invariant
                a.len() == b.len(),
                i <= a.len(),
                forall|j: int| 0 <= j < i ==> a@[j]@ == b@[j]@,
            decreases a.len() - i,
        {
            if !a[i].same(&b[i]) {
                assert(Value::models(a@)[i as int] != Value::models(b@)[i as int]);
                return false;
            }
            i += 1;
        }
        assert(Value::models(a@) =~= Value::models(b@));
        true
    }

    /// A copy of a vector of values, element by element.
    pub fn clone_all(values: &Vec<Value>) -> (r: Vec<Value>)
        ensures
            Value::models(r@) == Value::models(values@),
        decreases values,
    {
        let mut out: Vec<Value> = Vec::new();
        let mut i: usize = 0;
        while i < values.len()
            invariant
                i <= values.len(),
                out.len() == i,
                forall|j: int| 0 <= j < i ==> out@[j]@ == values@[j]@,
            decreases values.len() - i,
        {
            out.push(values[i].clone());
            i += 1;
        }
        assert(Value::models(out@) =~= Value::models(values@));
        out
    }
}

impl View for Value {
    type V = Term;

    open spec fn view(&self) -> Term {
        self.model()
    }
}

impl Clone for Value {
    fn clone(&self) -> (r: Value)
        ensures
            r@ == self@,
        decreases self,
    {
        match self {
            Value::CompoundTerm(name, args) => Value::CompoundTerm(
                name.clone(),
                Value::clone_all(args),
            ),
            Value::Predicate(name, params, body) => Value::Predicate(
                name.clone(),
                Value::clone_all(params),
                Box::new((**body).clone()),
            ),
            Value::List(items) => Value::List(Value::clone_all(items)),
            Value::Str(text) => Value::Str(text.clone()),
            Value::Int(n) => Value::Int(*n),
            Value::Variable(name) => Value::Variable(name.clone()),
            Value::Eq(l, r) => Value::Eq(Box::new((**l).clone()), Box::new((**r).clone())),
            Value::And(l, r) => Value::And(Box::new((**l).clone()), Box::new((**r).clone())),
            Value::GreaterThan(l, r) => Value::GreaterThan(
                Box::new((**l).clone()),
                Box::new((**r).clone()),
            ),
            Value::LessThan(l, r) => Value::LessThan(
                Box::new((**l).clone()),
                Box::new((**r).clone()),
            ),
            Value::GreaterThanEqual(l, r) => Value::GreaterThanEqual(
                Box::new((**l).clone()),
                Box::new((**r).clone()),
            ),
            Value::LessThanEqual(l, r) => Value::LessThanEqual(
                Box::new((**l).clone()),
                Box::new((**r).clone()),
            ),
        }
    }
}

impl PartialEq for Value {
    fn eq(&self, other: &Value) -> (r: bool) {
        self.same(other)
    }
}

impl vstd::std_specs::cmp::PartialEqSpecImpl for Value {
    open spec fn obeys_eq_spec() -> bool {
        true
    }

    open spec fn eq_spec(&self, other: &Value) -> bool {
        self@ == other@
    }
}

} // verus!
