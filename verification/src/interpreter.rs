//! The engine: a knowledge base, and unification and resolution against it.

use crate::bindings::{Bindings, Env};
use crate::error::QueryError;
use crate::semantics;
use crate::semantics::{
    closed, closed_each, collect_vars, collect_vars_from, instantiate, substitute,
    substitute_each, Operand, Relation, Run,
};
use crate::term::{Term, Value};
use vstd::prelude::*;

verus! {

/// How many rule bodies may be nested in one query, unless the knowledge base
/// is made with another limit.
pub const DEFAULT_DEPTH_LIMIT: usize = 256;

/// A knowledge base: facts and rules, in the order in which they are tried.
#[derive(Debug)]
pub struct DB {
    facts: Vec<Value>,
    depth_limit: usize,
}

impl View for DB {
    type V = Seq<Term>;

    closed spec fn view(&self) -> Seq<Term> {
        Value::models(self.facts@)
    }
}

impl DB {
    /// How many rule bodies may be nested in one query.
    pub closed spec fn depth_limit(&self) -> nat {
        self.depth_limit as nat
    }

    /// The knowledge base of `facts`, with the default depth limit.
    pub fn new(facts: Vec<Value>) -> (db: DB)
        ensures
            db@ == Value::models(facts@),
            db.depth_limit() == DEFAULT_DEPTH_LIMIT,
    {
        DB { facts, depth_limit: DEFAULT_DEPTH_LIMIT }
    }

    /// The knowledge base of `facts`, in which a query may nest `depth_limit`
    /// rule bodies.
    pub fn with_depth_limit(facts: Vec<Value>, depth_limit: usize) -> (db: DB)
        ensures
            db@ == Value::models(facts@),
            db.depth_limit() == depth_limit,
    {
        DB { facts, depth_limit }
    }

    /// `value` with every variable that `map` binds replaced by its value.
    pub fn substitute(value: &Value, map: &Bindings) -> (r: Value)
        ensures
            r@ == substitute(value@, map@),
        decreases value,
    {
        match value {
            Value::CompoundTerm(name, args) => Value::CompoundTerm(
                name.clone(),
                DB::substitute_each(args, map),
            ),
            Value::Predicate(name, params, body) => Value::Predicate(
                name.clone(),
                DB::substitute_each(params, map),
                Box::new(DB::substitute(body, map)),
            ),
            Value::List(items) => Value::List(DB::substitute_each(items, map)),
            Value::Str(_) => value.clone(),
            Value::Int(_) => value.clone(),
            Value::Variable(name) => match map.get(name) {
                Some(bound) => bound.clone(),
                None => value.clone(),
            },
            Value::Eq(l, r) => Value::Eq(
                Box::new(DB::substitute(l, map)),
                Box::new(DB::substitute(r, map)),
            ),
            Value::And(l, r) => Value::And(
                Box::new(DB::substitute(l, map)),
                Box::new(DB::substitute(r, map)),
            ),
            Value::GreaterThan(l, r) => Value::GreaterThan(
                Box::new(DB::substitute(l, map)),
                Box::new(DB::substitute(r, map)),
            ),
            Value::LessThan(l, r) => Value::LessThan(
                Box::new(DB::substitute(l, map)),
                Box::new(DB::substitute(r, map)),
            ),
            Value::GreaterThanEqual(l, r) => Value::GreaterThanEqual(
                Box::new(DB::substitute(l, map)),
                Box::new(DB::substitute(r, map)),
            ),
            Value::LessThanEqual(l, r) => Value::LessThanEqual(
                Box::new(DB::substitute(l, map)),
                Box::new(DB::substitute(r, map)),
            ),
        }
    }

    fn substitute_each(values: &Vec<Value>, map: &Bindings) -> (r: Vec<Value>)
        ensures
            Value::models(r@) == substitute_each(Value::models(values@), map@),
        decreases values,
    {
        let mut out: Vec<Value> = Vec::new();
        let mut i: usize = 0;
        while i < values.len()
            invariant
                i <= values.len(),
                out.len() == i,
                forall|j: int| 0 <= j < i ==> out@[j]@ == substitute(values@[j]@, map@),
            decreases values.len() - i,
        {
            out.push(DB::substitute(&values[i], map));
            i += 1;
        }
        assert(Value::models(out@) =~= substitute_each(Value::models(values@), map@));
        out
    }

    /// Whether `map` binds every variable of `value`.
    pub fn is_closed(value: &Value, map: &Bindings) -> (b: bool)
        ensures
            b == closed(value@, map@),
        decreases value,
    {
        match value {
            Value::CompoundTerm(_, args) => DB::is_closed_each(args, map),
            Value::Predicate(_, params, body) => DB::is_closed_each(params, map) && DB::is_closed(
                body,
                map,
            ),
            Value::List(items) => DB::is_closed_each(items, map),
            Value::Str(_) => true,
            Value::Int(_) => true,
            Value::Variable(name) => map.contains_key(name),
            Value::Eq(l, r)
            | Value::And(l, r)
            | Value::GreaterThan(l, r)
            | Value::LessThan(l, r)
            | Value::GreaterThanEqual(l, r)
            | Value::LessThanEqual(l, r) => DB::is_closed(l, map) && DB::is_closed(r, map),
        }
    }

    fn is_closed_each(values: &Vec<Value>, map: &Bindings) -> (b: bool)
        ensures
            b == closed_each(Value::models(values@), map@),
        decreases values,
    {
        let mut i: usize = 0;
        while i < values.len()
            invariant
                i <= values.len(),
                forall|j: int| 0 <= j < i ==> closed(values@[j]@, map@),
            decreases values.len() - i,
        {
            if !DB::is_closed(&values[i], map) {
                assert(Value::models(values@)[i as int] == values@[i as int]@);
                return false;
            }
            i += 1;
        }
        assert forall|j: int| 0 <= j < Value::models(values@).len() implies closed(
            #[trigger] Value::models(values@)[j],
            map@,
        ) by {
            assert(Value::models(values@)[j] == values@[j]@);
        }
        true
    }

    /// `value` with every variable replaced by what `map` binds it to; an
    /// error if `map` does not bind one of them.
    pub fn instantiate(value: &Value, map: &Bindings) -> (r: Result<Value, QueryError>)
        ensures
            match r {
                Ok(v) => instantiate(value@, map@) == Ok::<Term, QueryError>(v@),
                Err(e) => instantiate(value@, map@) == Err::<Term, QueryError>(e),
            },
    {
        if DB::is_closed(value, map) {
            Ok(DB::substitute(value, map))
        } else {
            Err(QueryError::UnboundVariableReference)
        }
    }

    /// Records in `out` the variables of `query` with their values: a
    /// variable with what `env` binds it to, the left variable of an equality
    /// with the equality's right side.
    pub fn get_vars(query: &Value, env: &Bindings, out: &mut Bindings) -> (r: Result<(), QueryError>)
        ensures
            (Run { outcome: r, env: final(out)@ }) == collect_vars(query@, env@, old(out)@),
        decreases query,
    {
        match query {
            Value::CompoundTerm(_, values) => DB::get_vars_each(values, env, out),
            Value::Predicate(_, _, _) => Err(QueryError::UnsupportedGoalShape),
            Value::List(values) => DB::get_vars_each(values, env, out),
            Value::Str(_) => Ok(()),
            Value::Int(_) => Ok(()),
            Value::Variable(name) => match env.get(name) {
                Some(bound) => {
                    out.insert(name.clone(), bound.clone());
                    Ok(())
                },
                None => Err(QueryError::UnboundVariableReference),
            },
            Value::Eq(left, right) => match &**left {
                Value::Variable(name) => {
                    assert(left@ == Term::Variable(name@));
                    out.insert(name.clone(), (**right).clone());
                    Ok(())
                },
                _ => {
                    assert(!(left@ is Variable));
                    Err(QueryError::InvalidEqualityShape)
                },
            },
            Value::And(left, right)
            | Value::GreaterThan(left, right)
            | Value::LessThan(left, right)
            | Value::GreaterThanEqual(left, right)
            | Value::LessThanEqual(left, right) => {
                match DB::get_vars(left, env, out) {
                    Ok(_) => DB::get_vars(right, env, out),
                    Err(e) => Err(e),
                }
            },
        }
    }

    fn get_vars_each(values: &Vec<Value>, env: &Bindings, out: &mut Bindings) -> (r: Result<(), QueryError>)
        ensures
            (Run { outcome: r, env: final(out)@ }) == collect_vars_from(
                Value::models(values@),
                0,
                env@,
                old(out)@,
            ),
        decreases values,
    {
        let ghost start = out@;
        let ghost terms = Value::models(values@);
        let mut i: usize = 0;
        while i < values.len()
            invariant
                i <= values.len(),
                terms == Value::models(values@),
                start == old(out)@,
                collect_vars_from(terms, i as nat, env@, out@) == collect_vars_from(
                    terms,
                    0,
                    env@,
                    start,
                ),
            decreases values.len() - i,
        {
            assert(terms[i as int] == values@[i as int]@);
            match DB::get_vars(&values[i], env, out) {
                Ok(_) => {},
                Err(e) => {
                    return Err(e);
                },
            }
            i += 1;
        }
        Ok(())
    }

    fn unify_variable(name: &String, other: &Value, map: &mut Bindings) -> (r: bool)
        ensures
            (Run { outcome: Ok::<bool, QueryError>(r), env: final(map)@ })
                == semantics::unify_variable(name@, other@, old(map)@),
    {
        match map.get(name) {
            Some(bound) => bound.same(other),
            None => {
                map.insert(name.clone(), other.clone());
                true
            },
        }
    }

    fn unify_variables(a: &String, b: &String, map: &mut Bindings) -> (r: bool)
        ensures
            (Run { outcome: Ok::<bool, QueryError>(r), env: final(map)@ })
                == semantics::unify_variables(a@, b@, old(map)@),
    {
        if *a == *b {
            return true;
        }
        match map.get(a) {
            Some(x) => match map.get(b) {
                Some(y) => x.same(y),
                None => {
                    let value = x.clone();
                    map.insert(b.clone(), value);
                    true
                },
            },
            None => match map.get(b) {
                Some(y) => {
                    let value = y.clone();
                    map.insert(a.clone(), value);
                    true
                },
                None => {
                    map.insert(a.clone(), Value::Variable(b.clone()));
                    true
                },
            },
        }
    }

    /// Hands the bindings that `scope` has for the variables among `args` to
    /// `map`, each substituted once more in `scope`.
    fn export(args: &Vec<Value>, scope: &Bindings, map: &mut Bindings)
        ensures
            final(map)@ == old(map)@.union_prefer_right(
                semantics::exported(Value::models(args@), scope@),
            ),
    {
        let ghost start = map@;
        let ghost terms = Value::models(args@);
        let mut i: usize = 0;
        while i < args.len()
            invariant
                i <= args.len(),
                terms == Value::models(args@),
                map@ == start.union_prefer_right(semantics::exported(terms.take(i as int), scope@)),
            decreases args.len() - i,
        {
            assert(terms[i as int] == args@[i as int]@);
            assert(terms.take(i + 1) =~= terms.take(i as int).push(terms[i as int]));
            match &args[i] {
                Value::Variable(name) => {
                    match scope.get(name) {
                        Some(bound) => {
                            let value = DB::substitute(bound, scope);
                            map.insert(name.clone(), value);
                        },
                        None => {},
                    }
                },
                _ => {},
            }
            proof {
                let done = semantics::exported(terms.take(i as int), scope@);
                let next = semantics::exported(terms.take(i + 1), scope@);
                assert forall|x: Seq<char>| next.contains_key(x) <==> (done.contains_key(x) || (
                terms[i as int] == Term::Variable(x) && scope@.contains_key(x))) by {
                    if terms.take(i + 1).contains(Term::Variable(x)) {
                        let j = terms.take(i + 1).index_of(Term::Variable(x));
                        if j < i {
                            assert(terms.take(i as int)[j] == Term::Variable(x));
                        }
                    }
                    if terms.take(i as int).contains(Term::Variable(x)) {
                        let j = terms.take(i as int).index_of(Term::Variable(x));
                        assert(terms.take(i + 1)[j] == Term::Variable(x));
                    }
                    if terms[i as int] == Term::Variable(x) {
                        assert(terms.take(i + 1)[i as int] == Term::Variable(x));
                    }
                }
                assert(map@ =~= start.union_prefer_right(next));
            }
            i += 1;
        }
        assert(terms.take(args.len() as int) =~= terms);
    }

    fn unify_at(&self, query: &Value, fact: &Value, map: &mut Bindings, depth: usize) -> (r: Result<bool, QueryError>)
        ensures
            (Run { outcome: r, env: final(map)@ }) == semantics::unify(
                self@,
                depth as nat,
                query@,
                fact@,
                old(map)@,
            ),
        decreases depth, 0nat, query, 0nat,
    {
        match (query, fact) {
            (Value::Variable(a), Value::Variable(b)) => Ok(DB::unify_variables(a, b, map)),
            (Value::Variable(a), _) => Ok(DB::unify_variable(a, fact, map)),
            (_, Value::Variable(b)) => Ok(DB::unify_variable(b, query, map)),
            (Value::Str(a), Value::Str(b)) => Ok(*a == *b),
            (Value::Int(a), Value::Int(b)) => Ok(*a == *b),
            (Value::CompoundTerm(f, args), Value::CompoundTerm(g, others)) => {
                if *f == *g && args.len() == others.len() {
                    self.unify_args(args, others, map, depth)
                } else {
                    Ok(false)
                }
            },
            (Value::List(items), Value::List(others)) => {
                if items.len() == others.len() {
                    self.unify_args(items, others, map, depth)
                } else {
                    Ok(false)
                }
            },
            (Value::CompoundTerm(f, args), Value::Predicate(g, params, body)) => {
                if *f == *g && args.len() == params.len() {
                    match self.unify_args(args, params, map, depth) {
                        Ok(true) => {},
                        head => {
                            return head;
                        },
                    }
                    if depth == 0 {
                        return Err(QueryError::DepthLimitExceeded);
                    }
                    let mut scope = map.clone();
                    match self.resolve(body, &mut scope, depth - 1) {
                        Err(e) => Err(e),
                        Ok(answers) => {
                            if answers.len() == 0 {
                                Ok(false)
                            } else {
                                DB::export(args, &scope, map);
                                Ok(true)
                            }
                        },
                    }
                } else {
                    Ok(false)
                }
            },
            _ => Ok(false),
        }
    }

    fn unify_args(&self, patterns: &Vec<Value>, targets: &Vec<Value>, map: &mut Bindings, depth: usize) -> (r: Result<bool, QueryError>)
        requires
            patterns.len() == targets.len(),
        ensures
            (Run { outcome: r, env: final(map)@ }) == semantics::unify_args(
                self@,
                depth as nat,
                Value::models(patterns@),
                Value::models(targets@),
                0,
                old(map)@,
            ),
        decreases depth, 0nat, patterns, 0nat,
    {
        let ghost start = map@;
        let ghost ps = Value::models(patterns@);
        let ghost ts = Value::models(targets@);
        let mut i: usize = 0;
        while i < patterns.len()
            invariant
                patterns.len() == targets.len(),
                i <= patterns.len(),
                ps == Value::models(patterns@),
                ts == Value::models(targets@),
                start == old(map)@,
                semantics::unify_args(self@, depth as nat, ps, ts, i as nat, map@)
                    == semantics::unify_args(self@, depth as nat, ps, ts, 0, start),
            decreases patterns.len() - i,
        {
            assert(ps[i as int] == patterns@[i as int]@);
            assert(ts[i as int] == targets@[i as int]@);
            match self.unify_at(&patterns[i], &targets[i], map, depth) {
                Ok(true) => {},
                other => {
                    return other;
                },
            }
            i += 1;
        }
        Ok(true)
    }

    fn resolve(&self, goal: &Value, env: &mut Bindings, depth: usize) -> (r: Result<Vec<Bindings>, QueryError>)
        ensures
            (Run { outcome: answers_view(r), env: final(env)@ }) == semantics::resolve(
                self@,
                depth as nat,
                goal@,
                old(env)@,
            ),
        decreases depth, 2nat, goal, 0nat,
    {
        match goal {
            Value::CompoundTerm(_, _) => {
                let mut answers: Vec<Bindings> = Vec::new();
                let mut i: usize = 0;
                while i < self.facts.len()
                    invariant
                        i <= self.facts.len(),
                        goal is CompoundTerm,
                        env@ == old(env)@,
                        prepend(
                            Bindings::views(answers@),
                            semantics::scan(self@, depth as nat, goal@, env@, i as nat),
                        ) == semantics::scan(self@, depth as nat, goal@, env@, 0),
                    decreases self.facts.len() - i,
                {
                    assert(self@[i as int] == self.facts@[i as int]@);
                    let ghost before = Bindings::views(answers@);
                    let mut attempt = env.clone();
                    match self.unify_at(goal, &self.facts[i], &mut attempt, depth) {
                        Err(e) => {
                            return Err(e);
                        },
                        Ok(false) => {},
                        Ok(true) => match DB::answer(goal, &attempt) {
                            Err(e) => {
                                return Err(e);
                            },
                            Ok(found) => {
                                answers.push(found);
                                proof {
                                    let rest = semantics::scan(
                                        self@,
                                        depth as nat,
                                        goal@,
                                        env@,
                                        (i + 1) as nat,
                                    );
                                    assert(Bindings::views(answers@) =~= before.push(found@));
                                    if rest is Ok {
                                        assert(before.push(found@) + rest->Ok_0 =~= before + (
                                        seq![found@] + rest->Ok_0));
                                    }
                                }
                            },
                        },
                    }
                    i += 1;
                }
                proof {
                    let all = semantics::scan(self@, depth as nat, goal@, env@, 0);
                    assert(all is Ok);
                    assert(Bindings::views(answers@) + Seq::<Env>::empty() =~= Bindings::views(
                        answers@,
                    ));
                }
                if answers.len() > 0 {
                    env.extend(&answers[0]);
                }
                Ok(answers)
            },
            Value::And(l, r) => {
                let mut first = match self.resolve(l, env, depth) {
                    Err(e) => {
                        return Err(e);
                    },
                    Ok(found) => found,
                };
                if first.len() == 0 {
                    return Ok(first);
                }
                let mut second = match self.resolve(r, env, depth) {
                    Err(e) => {
                        return Err(e);
                    },
                    Ok(found) => found,
                };
                if second.len() == 0 {
                    return Ok(second);
                }
                let ghost a = Bindings::views(first@);
                let ghost b = Bindings::views(second@);
                first.append(&mut second);
                assert(Bindings::views(first@) =~= a + b);
                Ok(first)
            },
            Value::Eq(l, r) => DB::equate(l, r, env),
            Value::LessThan(l, r) => DB::compare(Relation::Less, l, r, env),
            Value::LessThanEqual(l, r) => DB::compare(Relation::LessOrEqual, l, r, env),
            Value::GreaterThan(l, r) => DB::compare(Relation::Greater, l, r, env),
            Value::GreaterThanEqual(l, r) => DB::compare(Relation::GreaterOrEqual, l, r, env),
            _ => Err(QueryError::UnsupportedGoalShape),
        }
    }

    fn equate(l: &Value, r: &Value, env: &mut Bindings) -> (out: Result<Vec<Bindings>, QueryError>)
        ensures
            (Run { outcome: answers_view(out), env: final(env)@ }) == semantics::equate(
                l@,
                r@,
                old(env)@,
            ),
    {
        match l {
            Value::Variable(name) => {
                let value = DB::substitute(r, env);
                let conflict = match env.get(name) {
                    Some(bound) => !bound.same(&value),
                    None => false,
                };
                if conflict {
                    Ok(DB::no_answers())
                } else {
                    let mut found = Bindings::new();
                    found.insert(name.clone(), value.clone());
                    env.insert(name.clone(), value);
                    let mut answers: Vec<Bindings> = Vec::new();
                    answers.push(found);
                    assert(Bindings::views(answers@) =~= seq![found@]);
                    Ok(answers)
                }
            },
            _ => Err(QueryError::InvalidEqualityShape),
        }
    }

    fn operand(term: &Value, env: &Bindings) -> (side: Side)
        ensures
            side@ == semantics::operand(term@, env@),
    {
        match term {
            Value::Int(n) => Side::Known(*n),
            Value::Variable(name) => match env.get(name) {
                Some(bound) => match bound {
                    Value::Int(n) => Side::Known(*n),
                    _ => Side::Invalid,
                },
                None => Side::Free(name.clone()),
            },
            _ => Side::Invalid,
        }
    }

    fn add_operand_binding(term: &Value, env: &Bindings, out: &mut Bindings)
        ensures
            final(out)@ == old(out)@.union_prefer_right(
                semantics::operand_binding(term@, env@),
            ),
    {
        let ghost before = out@;
        match term {
            Value::Variable(name) => match env.get(name) {
                Some(bound) => {
                    out.insert(name.clone(), bound.clone());
                },
                None => {},
            },
            _ => {},
        }
        assert(out@ =~= before.union_prefer_right(semantics::operand_binding(term@, env@)));
    }

    fn comparison_answer(l: &Value, r: &Value, env: &Bindings) -> (out: Vec<Bindings>)
        ensures
            Bindings::views(out@) == seq![semantics::comparison_answer(l@, r@, env@)],
    {
        let mut found = Bindings::new();
        DB::add_operand_binding(l, env, &mut found);
        DB::add_operand_binding(r, env, &mut found);
        assert(found@ =~= semantics::comparison_answer(l@, r@, env@));
        let mut answers: Vec<Bindings> = Vec::new();
        answers.push(found);
        assert(Bindings::views(answers@) =~= seq![found@]);
        answers
    }

    fn holds(relation: Relation, a: usize, b: usize) -> (r: bool)
        ensures
            r == semantics::holds(relation, a as int, b as int),
    {
        match relation {
            Relation::Less => a < b,
            Relation::LessOrEqual => a <= b,
            Relation::Greater => a > b,
            Relation::GreaterOrEqual => a >= b,
        }
    }

    fn left_witness(relation: Relation, b: usize) -> (w: Option<usize>)
        ensures
            match w {
                Some(n) => n == semantics::left_witness(relation, b as int),
                None => !(0 <= semantics::left_witness(relation, b as int)
                    <= semantics::max_integer()),
            },
    {
        match relation {
            Relation::Less => b.checked_sub(1),
            Relation::LessOrEqual => Some(b),
            Relation::Greater => b.checked_add(1),
            Relation::GreaterOrEqual => Some(b),
        }
    }

    fn right_witness(relation: Relation, a: usize) -> (w: Option<usize>)
        ensures
            match w {
                Some(n) => n == semantics::right_witness(relation, a as int),
                None => !(0 <= semantics::right_witness(relation, a as int)
                    <= semantics::max_integer()),
            },
    {
        match relation {
            Relation::Less => a.checked_add(1),
            Relation::LessOrEqual => Some(a),
            Relation::Greater => a.checked_sub(1),
            Relation::GreaterOrEqual => Some(a),
        }
    }

    fn no_answers() -> (out: Vec<Bindings>)
        ensures
            Bindings::views(out@) == Seq::<Env>::empty(),
    {
        let out: Vec<Bindings> = Vec::new();
        assert(Bindings::views(out@) =~= Seq::<Env>::empty());
        out
    }

    fn compare(relation: Relation, l: &Value, r: &Value, env: &mut Bindings) -> (out: Result<Vec<Bindings>, QueryError>)
        ensures
            (Run { outcome: answers_view(out), env: final(env)@ }) == semantics::compare(
                relation,
                l@,
                r@,
                old(env)@,
            ),
    {
        let left = DB::operand(l, env);
        let right = DB::operand(r, env);
        match (left, right) {
            (Side::Invalid, _) => Err(QueryError::TypeMismatchInComparison),
            (_, Side::Invalid) => Err(QueryError::TypeMismatchInComparison),
            (Side::Free(_), Side::Free(_)) => Err(QueryError::UnboundVariableReference),
            (Side::Known(a), Side::Known(b)) => {
                if DB::holds(relation, a, b) {
                    Ok(DB::comparison_answer(l, r, env))
                } else {
                    Ok(DB::no_answers())
                }
            },
            (Side::Free(x), Side::Known(b)) => match DB::left_witness(relation, b) {
                Some(w) => {
                    env.insert(x, Value::Int(w));
                    Ok(DB::comparison_answer(l, r, env))
                },
                None => Ok(DB::no_answers()),
            },
            (Side::Known(a), Side::Free(y)) => match DB::right_witness(relation, a) {
                Some(w) => {
                    env.insert(y, Value::Int(w));
                    Ok(DB::comparison_answer(l, r, env))
                },
                None => Ok(DB::no_answers()),
            },
        }
    }

    fn instantiate_all(vars: &Bindings, env: &Bindings) -> (r: Result<Bindings, QueryError>)
        ensures
            match r {
                Ok(found) => semantics::instantiate_all(vars@, env@) == Ok::<Env, QueryError>(
                    found@,
                ),
                Err(e) => semantics::instantiate_all(vars@, env@) == Err::<Env, QueryError>(e),
            },
    {
        let n = vars.len();
        let mut out = Bindings::new();
        let mut i: usize = 0;
        while i < n
            invariant
                n == vars.keys().len(),
                vars@.dom() == vars.keys().to_set(),
                i <= n,
                out@.dom() == vars.keys().take(i as int).to_set(),
                forall|x: Seq<char>| #[trigger]
                    out@.contains_key(x) ==> vars@.contains_key(x) && closed(vars@[x], env@)
                        && out@[x] == substitute(vars@[x], env@),
            decreases n - i,
        {
            let name = vars.key_at(i);
            let value = vars.value_at(i);
            if !DB::is_closed(value, env) {
                return Err(QueryError::UnboundVariableReference);
            }
            let ghost before = out@;
            out.insert(name.clone(), DB::substitute(value, env));
            proof {
                let k = vars.keys()[i as int];
                assert(vars.keys().take(i + 1) =~= vars.keys().take(i as int).push(k));
                vars.keys().take(i as int).lemma_push_to_set_commute(k);
                assert(out@.dom() =~= before.dom().insert(k));
            }
            i += 1;
        }
        proof {
            assert(vars.keys().take(n as int) =~= vars.keys());
            assert(out@ =~= vars@.map_values(|t: Term| substitute(t, env@)));
        }
        Ok(out)
    }

    fn answer(goal: &Value, env: &Bindings) -> (r: Result<Bindings, QueryError>)
        ensures
            match r {
                Ok(found) => semantics::answer(goal@, env@) == Ok::<Env, QueryError>(found@),
                Err(e) => semantics::answer(goal@, env@) == Err::<Env, QueryError>(e),
            },
    {
        let mut vars = Bindings::new();
        match DB::get_vars(goal, env, &mut vars) {
            Err(e) => Err(e),
            Ok(_) => DB::instantiate_all(&vars, env),
        }
    }

    /// Unifies `query` with `fact` in `map`. Failure and errors leave in `map`
    /// the bindings made up to that point.
    pub fn unify(&self, query: &Value, fact: &Value, map: &mut Bindings) -> (r: Result<bool, QueryError>)
        ensures
            (Run { outcome: r, env: final(map)@ }) == semantics::unify(
                self@,
                self.depth_limit(),
                query@,
                fact@,
                old(map)@,
            ),
    {
        self.unify_at(query, fact, map, self.depth_limit)
    }

    /// Resolves the goal `query_node` in `env`, and returns its answers in the
    /// order in which the knowledge base gave them. `env` is left as a
    /// following conjunct would find it.
    pub fn query(&self, query_node: &Value, env: &mut Bindings) -> (r: Result<Vec<Bindings>, QueryError>)
        ensures
            (Run { outcome: answers_view(r), env: final(env)@ }) == semantics::resolve(
                self@,
                self.depth_limit(),
                query_node@,
                old(env)@,
            ),
    {
        self.resolve(query_node, env, self.depth_limit)
    }
}

/// One side of a comparison, as the engine sees it.
enum Side {
    Known(usize),
    Free(String),
    Invalid,
}

impl View for Side {
    type V = Operand;

    closed spec fn view(&self) -> Operand {
        match self {
            Side::Known(n) => Operand::Known(*n as int),
            Side::Free(name) => Operand::Free(name@),
            Side::Invalid => Operand::Invalid,
        }
    }
}

/// The answers of a query as sequences of environments.
pub open spec fn answers_view(r: Result<Vec<Bindings>, QueryError>) -> Result<Seq<Env>, QueryError> {
    match r {
        Ok(found) => Ok(Bindings::views(found@)),
        Err(e) => Err(e),
    }
}

/// `rest` with the answers `found` put in front of it.
spec fn prepend(found: Seq<Env>, rest: Result<Seq<Env>, QueryError>) -> Result<Seq<Env>, QueryError> {
    match rest {
        Ok(more) => Ok(found + more),
        Err(e) => Err(e),
    }
}

} // verus!
