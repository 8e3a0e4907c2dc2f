//! What unification and resolution mean, as functions on terms and maps.
//!
//! Everything here is specification: the executable engine is proved to
//! compute exactly these functions.

use crate::bindings::Env;
use crate::error::QueryError;
use crate::term::Term;
use vstd::prelude::*;

verus! {

/// What a step of the engine yields: its outcome, and the environment that it
/// leaves behind. The environment is given for every outcome, since a failed
/// or abandoned step does not undo the bindings it made.
pub struct Run<T> {
    pub outcome: Result<T, QueryError>,
    pub env: Env,
}

/// The four order relations between integers.
#[derive(Debug, Clone, Copy, PartialEq, Eq, Structural)]
pub enum Relation {
    Less,
    LessOrEqual,
    Greater,
    GreaterOrEqual,
}

/// The largest integer that a term of the engine can hold.
pub open spec fn max_integer() -> int {
    usize::MAX as int
}

// ---------------------------------------------------------------------------
// Substitution
// ---------------------------------------------------------------------------
/// `term` with every variable that `env` binds replaced by what it is bound
/// to. The replacement is not itself substituted, and unbound variables stay.
pub open spec fn substitute(term: Term, env: Env) -> Term
    decreases term,
{
    match term {
        Term::Atom(_) => term,
        Term::Integer(_) => term,
        Term::Variable(x) => if env.contains_key(x) {
            env[x]
        } else {
            term
        },
        Term::Compound(f, args) => Term::Compound(f, substitute_each(args, env)),
        Term::List(items) => Term::List(substitute_each(items, env)),
        Term::Rule(f, params, body) => Term::Rule(
            f,
            substitute_each(params, env),
            Box::new(substitute(*body, env)),
        ),
        Term::Equals(l, r) => Term::Equals(
            Box::new(substitute(*l, env)),
            Box::new(substitute(*r, env)),
        ),
        Term::And(l, r) => Term::And(Box::new(substitute(*l, env)), Box::new(substitute(*r, env))),
        Term::GreaterThan(l, r) => Term::GreaterThan(
            Box::new(substitute(*l, env)),
            Box::new(substitute(*r, env)),
        ),
        Term::LessThan(l, r) => Term::LessThan(
            Box::new(substitute(*l, env)),
            Box::new(substitute(*r, env)),
        ),
        Term::GreaterOrEqual(l, r) => Term::GreaterOrEqual(
            Box::new(substitute(*l, env)),
            Box::new(substitute(*r, env)),
        ),
        Term::LessOrEqual(l, r) => Term::LessOrEqual(
            Box::new(substitute(*l, env)),
            Box::new(substitute(*r, env)),
        ),
    }
}

/// `substitute`, applied to each term of a sequence.
pub open spec fn substitute_each(terms: Seq<Term>, env: Env) -> Seq<Term>
    decreases terms,
{
    Seq::new(
        terms.len(),
        |i: int|
            if 0 <= i < terms.len() {
                substitute(terms[i], env)
            } else {
                arbitrary()
            },
    )
}

/// Whether `env` binds every variable that occurs in `term`.
pub open spec fn closed(term: Term, env: Env) -> bool
    decreases term,
{
    match term {
        Term::Atom(_) => true,
        Term::Integer(_) => true,
        Term::Variable(x) => env.contains_key(x),
        Term::Compound(_, args) => closed_each(args, env),
        Term::List(items) => closed_each(items, env),
        Term::Rule(_, params, body) => closed_each(params, env) && closed(*body, env),
        Term::Equals(l, r)
        | Term::And(l, r)
        | Term::GreaterThan(l, r)
        | Term::LessThan(l, r)
        | Term::GreaterOrEqual(l, r)
        | Term::LessOrEqual(l, r) => closed(*l, env) && closed(*r, env),
    }
}

/// Whether `env` binds every variable that occurs in a term of `terms`.
pub open spec fn closed_each(terms: Seq<Term>, env: Env) -> bool
    decreases terms,
{
    forall|i: int| 0 <= i < terms.len() ==> closed(#[trigger] terms[i], env)
}

/// Strict substitution: `substitute(term, env)` where `env` binds every
/// variable of `term`, and an error where one is unbound.
pub open spec fn instantiate(term: Term, env: Env) -> Result<Term, QueryError> {
    if closed(term, env) {
        Ok(substitute(term, env))
    } else {
        Err(QueryError::UnboundVariableReference)
    }
}

// ---------------------------------------------------------------------------
// Variable collection
// ---------------------------------------------------------------------------
/// Walks `term` from left to right and records in `out` each variable with
/// what `env` binds it to. An equality records its left variable with its raw
/// right side instead, and is not walked further. The walk stops at the first
/// variable that `env` does not bind, at the first equality whose left side is
/// no variable, and at the first rule.
pub open spec fn collect_vars(term: Term, env: Env, out: Env) -> Run<()>
    decreases term, 0nat,
{
    match term {
        Term::Atom(_) => Run { outcome: Ok(()), env: out },
        Term::Integer(_) => Run { outcome: Ok(()), env: out },
        Term::Variable(x) => if env.contains_key(x) {
            Run { outcome: Ok(()), env: out.insert(x, env[x]) }
        } else {
            Run { outcome: Err(QueryError::UnboundVariableReference), env: out }
        },
        Term::Compound(_, args) => collect_vars_from(args, 0, env, out),
        Term::List(items) => collect_vars_from(items, 0, env, out),
        Term::Rule(_, _, _) => Run { outcome: Err(QueryError::UnsupportedGoalShape), env: out },
        Term::Equals(l, r) => match *l {
            Term::Variable(x) => Run { outcome: Ok(()), env: out.insert(x, *r) },
            _ => Run { outcome: Err(QueryError::InvalidEqualityShape), env: out },
        },
        Term::And(l, r)
        | Term::GreaterThan(l, r)
        | Term::LessThan(l, r)
        | Term::GreaterOrEqual(l, r)
        | Term::LessOrEqual(l, r) => {
            let first = collect_vars(*l, env, out);
            if first.outcome is Ok {
                collect_vars(*r, env, first.env)
            } else {
                first
            }
        },
    }
}

/// `collect_vars` on the terms of `terms` from position `i` on, in order.
pub open spec fn collect_vars_from(terms: Seq<Term>, i: nat, env: Env, out: Env) -> Run<()>
    decreases terms, terms.len() - i,
{
    if i >= terms.len() {
        Run { outcome: Ok(()), env: out }
    } else {
        let first = collect_vars(terms[i as int], env, out);
        if first.outcome is Ok {
            collect_vars_from(terms, i + 1, env, first.env)
        } else {
            first
        }
    }
}

// ---------------------------------------------------------------------------
// Unification
// ---------------------------------------------------------------------------
/// Unifying the variable `x` with a term that is not a variable: where `x` is
/// bound, the two must be the same term; where it is not, `x` is bound to
/// `other` as it stands.
pub open spec fn unify_variable(x: Seq<char>, other: Term, env: Env) -> Run<bool> {
    if env.contains_key(x) {
        Run { outcome: Ok(env[x] == other), env }
    } else {
        Run { outcome: Ok(true), env: env.insert(x, other) }
    }
}

/// Unifying the variable `a` with the variable `b`. A variable unifies with
/// itself and nothing is bound. Otherwise, where both are bound, their values
/// must be the same term; where one is bound, the other is bound to its value;
/// where neither is, `a` is bound to the variable `b`.
pub open spec fn unify_variables(a: Seq<char>, b: Seq<char>, env: Env) -> Run<bool> {
    if a == b {
        Run { outcome: Ok(true), env }
    } else if env.contains_key(a) && env.contains_key(b) {
        Run { outcome: Ok(env[a] == env[b]), env }
    } else if env.contains_key(a) {
        Run { outcome: Ok(true), env: env.insert(b, env[a]) }
    } else if env.contains_key(b) {
        Run { outcome: Ok(true), env: env.insert(a, env[b]) }
    } else {
        Run { outcome: Ok(true), env: env.insert(a, Term::Variable(b)) }
    }
}

/// What a successful rule body hands back to the goal that called the rule:
/// for each argument of the goal that is a variable and that `scope` binds,
/// its value in `scope`, substituted once more in `scope`.
pub open spec fn exported(args: Seq<Term>, scope: Env) -> Env {
    Map::new(
        |x: Seq<char>| args.contains(Term::Variable(x)) && scope.contains_key(x),
        |x: Seq<char>| substitute(scope[x], scope),
    )
}

/// Unifies `pattern` with `target` in `env`, with `depth` nested rule bodies
/// still allowed.
///
/// - Two variables, or a variable and another term: see `unify_variables` and
///   `unify_variable`.
/// - Two atoms, or two integers: they must be equal.
/// - Two compounds with the same functor and as many arguments, or two lists of
///   the same length: the arguments must unify from left to right, each in the
///   environment that the one before left.
/// - A compound against a rule with the same functor and as many parameters:
///   the arguments must unify with the parameters, and the body must then have
///   at least one answer in a copy of the environment. The copy's bindings for
///   the goal's own variables are handed back (see `exported`).
/// - Every other pair does not unify.
pub open spec fn unify(kb: Seq<Term>, depth: nat, pattern: Term, target: Term, env: Env) -> Run<
    bool,
>
    decreases depth, 0nat, pattern, 0nat,
{
    match (pattern, target) {
        (Term::Variable(a), Term::Variable(b)) => unify_variables(a, b, env),
        (Term::Variable(a), _) => unify_variable(a, target, env),
        (_, Term::Variable(b)) => unify_variable(b, pattern, env),
        (Term::Atom(a), Term::Atom(b)) => Run { outcome: Ok(a == b), env },
        (Term::Integer(a), Term::Integer(b)) => Run { outcome: Ok(a == b), env },
        (Term::Compound(f, args), Term::Compound(g, others)) => if f == g && args.len()
            == others.len() {
            unify_args(kb, depth, args, others, 0, env)
        } else {
            Run { outcome: Ok(false), env }
        },
        (Term::List(items), Term::List(others)) => if items.len() == others.len() {
            unify_args(kb, depth, items, others, 0, env)
        } else {
            Run { outcome: Ok(false), env }
        },
        (Term::Compound(f, args), Term::Rule(g, params, body)) => if f == g && args.len()
            == params.len() {
            let head = unify_args(kb, depth, args, params, 0, env);
            if head.outcome != Ok::<bool, QueryError>(true) {
                head
            } else if depth == 0 {
                Run { outcome: Err(QueryError::DepthLimitExceeded), env: head.env }
            } else {
                let inner = resolve(kb, (depth - 1) as nat, *body, head.env);
                match inner.outcome {
                    Err(e) => Run { outcome: Err(e), env: head.env },
                    Ok(answers) => if answers.len() == 0 {
                        Run { outcome: Ok(false), env: head.env }
                    } else {
                        Run {
                            outcome: Ok(true),
                            env: head.env.union_prefer_right(exported(args, inner.env)),
                        }
                    },
                }
            }
        } else {
            Run { outcome: Ok(false), env }
        },
        _ => Run { outcome: Ok(false), env },
    }
}

/// Unifies `patterns[i..]` with `targets[i..]` pairwise, from left to right,
/// and stops at the first pair that does not unify.
pub open spec fn unify_args(
    kb: Seq<Term>,
    depth: nat,
    patterns: Seq<Term>,
    targets: Seq<Term>,
    i: nat,
    env: Env,
) -> Run<bool>
    decreases depth, 0nat, patterns, patterns.len() - i,
{
    if i >= patterns.len() {
        Run { outcome: Ok(true), env }
    } else {
        let first = unify(kb, depth, patterns[i as int], targets[i as int], env);
        if first.outcome == Ok::<bool, QueryError>(true) {
            unify_args(kb, depth, patterns, targets, i + 1, first.env)
        } else {
            first
        }
    }
}

// ---------------------------------------------------------------------------
// Resolution
// ---------------------------------------------------------------------------
/// One side of a comparison, as the comparison sees it.
pub enum Operand {
    /// An integer, or a variable bound to one.
    Known(int),
    /// A variable that is not bound.
    Free(Seq<char>),
    /// Anything else.
    Invalid,
}

/// How a comparison sees `term` in `env`.
pub open spec fn operand(term: Term, env: Env) -> Operand {
    match term {
        Term::Integer(n) => Operand::Known(n),
        Term::Variable(x) => if env.contains_key(x) {
            match env[x] {
                Term::Integer(n) => Operand::Known(n),
                _ => Operand::Invalid,
            }
        } else {
            Operand::Free(x)
        },
        _ => Operand::Invalid,
    }
}

/// Whether `a` stands in `relation` to `b`.
pub open spec fn holds(relation: Relation, a: int, b: int) -> bool {
    match relation {
        Relation::Less => a < b,
        Relation::LessOrEqual => a <= b,
        Relation::Greater => a > b,
        Relation::GreaterOrEqual => a >= b,
    }
}

/// The integer chosen for an unbound left side, so that it stands in
/// `relation` to `b`: the nearest one.
pub open spec fn left_witness(relation: Relation, b: int) -> int {
    match relation {
        Relation::Less => b - 1,
        Relation::LessOrEqual => b,
        Relation::Greater => b + 1,
        Relation::GreaterOrEqual => b,
    }
}

/// The integer chosen for an unbound right side, so that `a` stands in
/// `relation` to it: the nearest one.
pub open spec fn right_witness(relation: Relation, a: int) -> int {
    match relation {
        Relation::Less => a + 1,
        Relation::LessOrEqual => a,
        Relation::Greater => a - 1,
        Relation::GreaterOrEqual => a,
    }
}

/// The binding that one side of a comparison contributes to its answer.
pub open spec fn operand_binding(term: Term, env: Env) -> Env {
    match term {
        Term::Variable(x) => if env.contains_key(x) {
            Map::<Seq<char>, Term>::empty().insert(x, env[x])
        } else {
            Map::empty()
        },
        _ => Map::empty(),
    }
}

/// The answer of a comparison that holds in `env`: its variables with their
/// values.
pub open spec fn comparison_answer(l: Term, r: Term, env: Env) -> Env {
    operand_binding(l, env).union_prefer_right(operand_binding(r, env))
}

/// Resolves the comparison `l relation r`.
///
/// Both sides known: one answer where the relation holds, none where it does
/// not. One side an unbound variable: it is bound to the nearest integer that
/// makes the comparison hold, if there is one between 0 and `max_integer()`;
/// if there is none, the comparison has no answer. Two unbound variables, or a
/// side that is no integer: an error.
pub open spec fn compare(relation: Relation, l: Term, r: Term, env: Env) -> Run<Seq<Env>> {
    match (operand(l, env), operand(r, env)) {
        (Operand::Invalid, _) => Run { outcome: Err(QueryError::TypeMismatchInComparison), env },
        (_, Operand::Invalid) => Run { outcome: Err(QueryError::TypeMismatchInComparison), env },
        (Operand::Free(_), Operand::Free(_)) => Run {
            outcome: Err(QueryError::UnboundVariableReference),
            env,
        },
        (Operand::Known(a), Operand::Known(b)) => if holds(relation, a, b) {
            Run { outcome: Ok(seq![comparison_answer(l, r, env)]), env }
        } else {
            Run { outcome: Ok(Seq::empty()), env }
        },
        (Operand::Free(x), Operand::Known(b)) => {
            let w = left_witness(relation, b);
            if 0 <= w <= max_integer() {
                let bound = env.insert(x, Term::Integer(w));
                Run { outcome: Ok(seq![comparison_answer(l, r, bound)]), env: bound }
            } else {
                Run { outcome: Ok(Seq::empty()), env }
            }
        },
        (Operand::Known(a), Operand::Free(y)) => {
            let w = right_witness(relation, a);
            if 0 <= w <= max_integer() {
                let bound = env.insert(y, Term::Integer(w));
                Run { outcome: Ok(seq![comparison_answer(l, r, bound)]), env: bound }
            } else {
                Run { outcome: Ok(Seq::empty()), env }
            }
        },
    }
}

/// Resolves the equality `l = r`. The left side must be a variable. The right
/// side is substituted in `env`; an unbound variable is bound to the result,
/// and a bound one must already have it as its value.
pub open spec fn equate(l: Term, r: Term, env: Env) -> Run<Seq<Env>> {
    match l {
        Term::Variable(x) => {
            let value = substitute(r, env);
            if env.contains_key(x) && env[x] != value {
                Run { outcome: Ok(Seq::empty()), env }
            } else {
                Run {
                    outcome: Ok(seq![Map::<Seq<char>, Term>::empty().insert(x, value)]),
                    env: env.insert(x, value),
                }
            }
        },
        _ => Run { outcome: Err(QueryError::InvalidEqualityShape), env },
    }
}

/// The answer that a compound goal gives once it has unified in `env`: each of
/// its variables with its value in `env`, substituted once more in `env`.
pub open spec fn answer(goal: Term, env: Env) -> Result<Env, QueryError> {
    let collected = collect_vars(goal, env, Map::empty());
    match collected.outcome {
        Err(e) => Err(e),
        Ok(_) => instantiate_all(collected.env, env),
    }
}

/// `instantiate`, applied to each value of `vars`.
pub open spec fn instantiate_all(vars: Env, env: Env) -> Result<Env, QueryError> {
    if forall|x: Seq<char>| vars.contains_key(x) ==> closed(#[trigger] vars[x], env) {
        Ok(vars.map_values(|t: Term| substitute(t, env)))
    } else {
        Err(QueryError::UnboundVariableReference)
    }
}

/// The answers of `goal` against the items `kb[i..]`, in order: one for each
/// item that `goal` unifies with in a copy of `env`.
pub open spec fn scan(kb: Seq<Term>, depth: nat, goal: Term, env: Env, i: nat) -> Result<
    Seq<Env>,
    QueryError,
>
    decreases depth, 1nat, goal, kb.len() - i,
{
    if i >= kb.len() {
        Ok(Seq::empty())
    } else {
        let attempt = unify(kb, depth, goal, kb[i as int], env);
        match attempt.outcome {
            Err(e) => Err(e),
            Ok(false) => scan(kb, depth, goal, env, i + 1),
            Ok(true) => match answer(goal, attempt.env) {
                Err(e) => Err(e),
                Ok(found) => match scan(kb, depth, goal, env, i + 1) {
                    Err(e) => Err(e),
                    Ok(rest) => Ok(seq![found] + rest),
                },
            },
        }
    }
}

/// Resolves `goal` against `kb` in `env`, with `depth` nested rule bodies
/// still allowed. The outcome is the sequence of answers, empty where the goal
/// cannot be satisfied; the environment left behind is the one in which a
/// following conjunct is resolved.
///
/// - A compound goal is tried against every item of `kb` in order, each time
///   in a copy of `env`. Each item that it unifies with gives one answer. The
///   bindings of the first answer are added to `env`.
/// - A conjunction resolves its left side, then its right side in the
///   environment that the left side left. If either has no answer, neither has
///   the conjunction; else its answers are those of the left side followed by
///   those of the right side.
/// - An equality and a comparison: see `equate` and `compare`.
/// - Any other term is no goal.
pub open spec fn resolve(kb: Seq<Term>, depth: nat, goal: Term, env: Env) -> Run<Seq<Env>>
    decreases depth, 2nat, goal, 0nat,
{
    match goal {
        Term::Compound(_, _) => match scan(kb, depth, goal, env, 0) {
            Err(e) => Run { outcome: Err(e), env },
            Ok(answers) => Run {
                outcome: Ok(answers),
                env: if answers.len() > 0 {
                    env.union_prefer_right(answers[0])
                } else {
                    env
                },
            },
        },
        Term::And(l, r) => {
            let left = resolve(kb, depth, *l, env);
            match left.outcome {
                Err(_) => left,
                Ok(first) => if first.len() == 0 {
                    left
                } else {
                    let right = resolve(kb, depth, *r, left.env);
                    match right.outcome {
                        Err(_) => right,
                        Ok(second) => if second.len() == 0 {
                            right
                        } else {
                            Run { outcome: Ok(first + second), env: right.env }
                        },
                    }
                },
            }
        },
        Term::Equals(l, r) => equate(*l, *r, env),
        Term::LessThan(l, r) => compare(Relation::Less, *l, *r, env),
        Term::LessOrEqual(l, r) => compare(Relation::LessOrEqual, *l, *r, env),
        Term::GreaterThan(l, r) => compare(Relation::Greater, *l, *r, env),
        Term::GreaterOrEqual(l, r) => compare(Relation::GreaterOrEqual, *l, *r, env),
        _ => Run { outcome: Err(QueryError::UnsupportedGoalShape), env },
    }
}

} // verus!
