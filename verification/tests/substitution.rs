use minilog::bindings::Bindings;
use minilog::error::QueryError;
use minilog::interpreter::DB;
use minilog::term::Value;

fn s(text: &str) -> String {
    text.to_string()
}

fn var(name: &str) -> Value {
    Value::Variable(s(name))
}

fn env_of(pairs: Vec<(&str, Value)>) -> Bindings {
    let mut env = Bindings::new();
    for (name, value) in pairs {
        env.insert(s(name), value);
    }
    env
}

#[test]
fn instantiate_replaces_every_variable() {
    let env = env_of(vec![("x", Value::Int(1)), ("y", Value::Str(s("a")))]);
    let term = Value::CompoundTerm(
        s("f"),
        vec![var("x"), Value::List(vec![var("y"), Value::Int(3)]), Value::Str(s("k"))],
    );
    let expected = Value::CompoundTerm(
        s("f"),
        vec![Value::Int(1), Value::List(vec![Value::Str(s("a")), Value::Int(3)]), Value::Str(s("k"))],
    );
    assert_eq!(DB::instantiate(&term, &env), Ok(expected));
}

#[test]
fn instantiate_rebuilds_connectives() {
    let env = env_of(vec![("x", Value::Int(1))]);
    let term = Value::And(
        Box::new(Value::LessThan(Box::new(var("x")), Box::new(Value::Int(2)))),
        Box::new(Value::Eq(Box::new(var("x")), Box::new(var("x")))),
    );
    let expected = Value::And(
        Box::new(Value::LessThan(Box::new(Value::Int(1)), Box::new(Value::Int(2)))),
        Box::new(Value::Eq(Box::new(Value::Int(1)), Box::new(Value::Int(1)))),
    );
    assert_eq!(DB::instantiate(&term, &env), Ok(expected));
}

#[test]
fn instantiate_does_not_substitute_the_replacement() {
    let env = env_of(vec![("x", var("y")), ("y", Value::Int(2))]);
    assert_eq!(DB::instantiate(&var("x"), &env), Ok(var("y")));
}

#[test]
fn instantiate_fails_on_an_unbound_variable() {
    let env = env_of(vec![("x", Value::Int(1))]);
    let term = Value::List(vec![var("x"), var("missing")]);
    assert_eq!(DB::instantiate(&term, &env), Err(QueryError::UnboundVariableReference));
    assert!(!DB::is_closed(&term, &env));
    assert!(DB::is_closed(&var("x"), &env));
}

#[test]
fn substitute_leaves_unbound_variables() {
    let env = env_of(vec![("x", Value::Int(1))]);
    let term = Value::List(vec![var("x"), var("missing")]);
    assert_eq!(DB::substitute(&term, &env), Value::List(vec![Value::Int(1), var("missing")]));
}

#[test]
fn get_vars_records_variables_with_their_values() {
    let env = env_of(vec![("x", Value::Int(1)), ("y", Value::Int(2)), ("z", Value::Int(3))]);
    let goal = Value::CompoundTerm(s("f"), vec![var("x"), Value::List(vec![var("y")]), Value::Int(9)]);
    let mut out = Bindings::new();
    assert_eq!(DB::get_vars(&goal, &env, &mut out), Ok(()));
    assert_eq!(out.len(), 2);
    assert_eq!(out.get(&s("x")), Some(&Value::Int(1)));
    assert_eq!(out.get(&s("y")), Some(&Value::Int(2)));
}

#[test]
fn get_vars_records_the_raw_right_side_of_an_equality() {
    let env = env_of(vec![("x", Value::Int(1)), ("y", Value::Int(2))]);
    let goal = Value::Eq(Box::new(var("x")), Box::new(var("y")));
    let mut out = Bindings::new();
    assert_eq!(DB::get_vars(&goal, &env, &mut out), Ok(()));
    assert_eq!(out.len(), 1);
    assert_eq!(out.get(&s("x")), Some(&var("y")));
}

#[test]
fn get_vars_stops_at_the_first_error() {
    let env = env_of(vec![("x", Value::Int(1))]);
    let mut out = Bindings::new();
    let goal = Value::And(Box::new(var("x")), Box::new(var("missing")));
    assert_eq!(DB::get_vars(&goal, &env, &mut out), Err(QueryError::UnboundVariableReference));
    assert_eq!(out.get(&s("x")), Some(&Value::Int(1)));

    let mut out = Bindings::new();
    let goal = Value::Eq(Box::new(Value::Int(1)), Box::new(Value::Int(1)));
    assert_eq!(DB::get_vars(&goal, &env, &mut out), Err(QueryError::InvalidEqualityShape));

    let mut out = Bindings::new();
    let goal = Value::Predicate(s("r"), vec![], Box::new(Value::Int(1)));
    assert_eq!(DB::get_vars(&goal, &env, &mut out), Err(QueryError::UnsupportedGoalShape));
    assert!(out.is_empty());
}
