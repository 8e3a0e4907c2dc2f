use minilog::bindings::Bindings;
use minilog::term::Value;

fn s(text: &str) -> String {
    text.to_string()
}

#[test]
fn new_environment_binds_nothing() {
    let env = Bindings::new();
    assert!(env.is_empty());
    assert_eq!(env.len(), 0);
    assert_eq!(env.get(&s("x")), None);
    assert!(!env.contains_key(&s("x")));
}

#[test]
fn insert_binds_and_rebinds() {
    let mut env = Bindings::new();
    env.insert(s("x"), Value::Int(1));
    env.insert(s("y"), Value::Int(2));
    assert_eq!(env.len(), 2);
    assert_eq!(env.get(&s("x")), Some(&Value::Int(1)));
    env.insert(s("x"), Value::Int(3));
    assert_eq!(env.len(), 2);
    assert_eq!(env.get(&s("x")), Some(&Value::Int(3)));
    assert_eq!(env.get(&s("y")), Some(&Value::Int(2)));
    assert_eq!(env.key_at(0), &s("x"));
    assert_eq!(env.value_at(1), &Value::Int(2));
    assert!(!env.is_empty());
}

#[test]
fn extend_prefers_the_other_environment() {
    let mut env = Bindings::new();
    env.insert(s("x"), Value::Int(1));
    env.insert(s("y"), Value::Int(2));
    let mut other = Bindings::new();
    other.insert(s("y"), Value::Int(20));
    other.insert(s("z"), Value::Int(30));
    env.extend(&other);
    assert_eq!(env.len(), 3);
    assert_eq!(env.get(&s("x")), Some(&Value::Int(1)));
    assert_eq!(env.get(&s("y")), Some(&Value::Int(20)));
    assert_eq!(env.get(&s("z")), Some(&Value::Int(30)));
}

#[test]
fn clone_is_independent() {
    let mut env = Bindings::new();
    env.insert(s("x"), Value::List(vec![Value::Int(1), Value::Str(s("a"))]));
    let copy = env.clone();
    env.insert(s("x"), Value::Int(0));
    assert_eq!(copy.get(&s("x")), Some(&Value::List(vec![Value::Int(1), Value::Str(s("a"))])));
    assert_eq!(copy.len(), 1);
}

#[test]
fn values_compare_by_structure() {
    let a = Value::CompoundTerm(s("f"), vec![Value::Int(1), Value::Variable(s("x"))]);
    let b = Value::CompoundTerm(s("f"), vec![Value::Int(1), Value::Variable(s("x"))]);
    let c = Value::CompoundTerm(s("f"), vec![Value::Int(1), Value::Variable(s("y"))]);
    assert!(a == b);
    assert!(a != c);
    assert!(a.same(&a.clone()));
    assert!(Value::Str(s("1")) != Value::Int(1));
    assert!(
        Value::LessThan(Box::new(Value::Int(1)), Box::new(Value::Int(2)))
            != Value::GreaterThan(Box::new(Value::Int(1)), Box::new(Value::Int(2)))
    );
}
