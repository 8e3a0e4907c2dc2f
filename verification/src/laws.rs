//! Laws of unification, proved of its definition.

use crate::bindings::Env;
use crate::error::QueryError;
use crate::semantics::{unify, unify_args, Run};
use crate::term::Term;
use vstd::prelude::*;

verus! {

/// Whether `term` is ground data: built of atoms, integers, compounds and
/// lists alone, so without variables, rules and connectives.
pub open spec fn ground(term: Term) -> bool
    decreases term,
{
    match term {
        Term::Atom(_) => true,
        Term::Integer(_) => true,
        Term::Compound(_, args) => ground_each(args),
        Term::List(items) => ground_each(items),
        _ => false,
    }
}

/// Whether every term of `terms` is ground data.
pub open spec fn ground_each(terms: Seq<Term>) -> bool
    decreases terms,
{
    forall|i: int| 0 <= i < terms.len() ==> ground(#[trigger] terms[i])
}

/// Two terms that are ground data unify if and only if they are the same
/// term, and unifying them binds nothing: in any environment, against any
/// knowledge base, at any depth.
pub proof fn lemma_ground_terms_unify_iff_equal(
    kb: Seq<Term>,
    depth: nat,
    a: Term,
    b: Term,
    env: Env,
)
    requires
        ground(a),
        ground(b),
    ensures
        unify(kb, depth, a, b, env) == (Run { outcome: Ok::<bool, QueryError>(a == b), env }),
    decreases a, 0nat,
{
    match (a, b) {
        (Term::Compound(f, args), Term::Compound(g, others)) => {
            if f == g && args.len() == others.len() {
                lemma_ground_arguments(kb, depth, args, others, 0, env);
                if args.skip(0) == others.skip(0) {
                    assert(args =~= args.skip(0));
                    assert(others =~= others.skip(0));
                } else if args == others {
                    assert(false);
                }
            }
        },
        (Term::List(items), Term::List(others)) => {
            if items.len() == others.len() {
                lemma_ground_arguments(kb, depth, items, others, 0, env);
                if items.skip(0) == others.skip(0) {
                    assert(items =~= items.skip(0));
                    assert(others =~= others.skip(0));
                } else if items == others {
                    assert(false);
                }
            }
        },
        _ => {},
    }
}

/// Two sequences of ground data of one length unify from position `i` on if
/// and only if they are the same from there on, and nothing is bound.
pub proof fn lemma_ground_arguments(
    kb: Seq<Term>,
    depth: nat,
    patterns: Seq<Term>,
    targets: Seq<Term>,
    i: nat,
    env: Env,
)
    requires
        ground_each(patterns),
        ground_each(targets),
        patterns.len() == targets.len(),
        i <= patterns.len(),
    ensures
        unify_args(kb, depth, patterns, targets, i, env) == (Run {
            outcome: Ok::<bool, QueryError>(patterns.skip(i as int) == targets.skip(i as int)),
            env,
        }),
    decreases patterns, patterns.len() - i,
{
    if i < patterns.len() {
        lemma_ground_terms_unify_iff_equal(kb, depth, patterns[i as int], targets[i as int], env);
        assert(patterns.skip(i as int)[0] == patterns[i as int]);
        assert(targets.skip(i as int)[0] == targets[i as int]);
        if patterns[i as int] == targets[i as int] {
            lemma_ground_arguments(kb, depth, patterns, targets, i + 1, env);
            assert(patterns.skip(i as int).skip(1) =~= patterns.skip(i as int + 1));
            assert(targets.skip(i as int).skip(1) =~= targets.skip(i as int + 1));
            if patterns.skip(i as int + 1) == targets.skip(i as int + 1) {
                assert(patterns.skip(i as int) =~= targets.skip(i as int)) by {
                    assert forall|k: int| 0 <= k < patterns.len() - i implies patterns.skip(
                        i as int,
                    )[k] == targets.skip(i as int)[k] by {
                        if k > 0 {
                            assert(patterns.skip(i as int + 1)[k - 1] == targets.skip(i as int + 1)[k - 1]);
                        }
                    }
                }
            }
        }
    } else {
        assert(patterns.skip(i as int) =~= targets.skip(i as int));
    }
}

/// Compounds whose functors differ, or whose arities differ, do not unify,
/// whatever their arguments, and nothing is bound.
pub proof fn lemma_functor_and_arity_discriminate(
    kb: Seq<Term>,
    depth: nat,
    f: Seq<char>,
    args: Seq<Term>,
    g: Seq<char>,
    others: Seq<Term>,
    env: Env,
)
    requires
        f != g || args.len() != others.len(),
    ensures
        unify(kb, depth, Term::Compound(f, args), Term::Compound(g, others), env) == (Run {
            outcome: Ok::<bool, QueryError>(false),
            env,
        }),
{
}

/// Lists of different lengths do not unify, whatever they hold, and nothing
/// is bound.
pub proof fn lemma_list_arity_is_strict(
    kb: Seq<Term>,
    depth: nat,
    items: Seq<Term>,
    others: Seq<Term>,
    env: Env,
)
    requires
        items.len() != others.len(),
    ensures
        unify(kb, depth, Term::List(items), Term::List(others), env) == (Run {
            outcome: Ok::<bool, QueryError>(false),
            env,
        }),
{
}

/// A bound variable unifies with a term that is no variable if and only if
/// that term is its value, and the environment stays as it is.
pub proof fn lemma_binding_is_idempotent(
    kb: Seq<Term>,
    depth: nat,
    x: Seq<char>,
    w: Term,
    env: Env,
)
    requires
        env.contains_key(x),
        !(w is Variable),
    ensures
        unify(kb, depth, Term::Variable(x), w, env) == (Run {
            outcome: Ok::<bool, QueryError>(w == env[x]),
            env,
        }),
{
}

/// A goal that holds one unbound variable in both of its argument positions
/// unifies with a fact of two ground arguments if and only if the two are the
/// same term. Either way the variable is left bound to the first.
pub proof fn lemma_repeated_variable_needs_identical_arguments(
    kb: Seq<Term>,
    depth: nat,
    f: Seq<char>,
    x: Seq<char>,
    t: Term,
    u: Term,
)
    requires
        ground(t),
        ground(u),
    ensures
        unify(
            kb,
            depth,
            Term::Compound(f, seq![Term::Variable(x), Term::Variable(x)]),
            Term::Compound(f, seq![t, u]),
            Map::empty(),
        ) == (Run {
            outcome: Ok::<bool, QueryError>(t == u),
            env: Map::<Seq<char>, Term>::empty().insert(x, t),
        }),
{
    let goal = seq![Term::Variable(x), Term::Variable(x)];
    let fact = seq![t, u];
    let empty = Map::<Seq<char>, Term>::empty();
    let bound = empty.insert(x, t);
    assert(unify(kb, depth, goal[0], fact[0], empty) == (Run {
        outcome: Ok::<bool, QueryError>(true),
        env: bound,
    }));
    assert(unify(kb, depth, goal[1], fact[1], bound) == (Run {
        outcome: Ok::<bool, QueryError>(t == u),
        env: bound,
    }));
    assert(unify_args(kb, depth, goal, fact, 2, bound) == (Run {
        outcome: Ok::<bool, QueryError>(true),
        env: bound,
    }));
    assert(unify_args(kb, depth, goal, fact, 1, bound) == (Run {
        outcome: Ok::<bool, QueryError>(t == u),
        env: bound,
    }));
    assert(unify_args(kb, depth, goal, fact, 0, empty) == (Run {
        outcome: Ok::<bool, QueryError>(t == u),
        env: bound,
    }));
}

} // verus!
