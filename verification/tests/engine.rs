use minilog::bindings::Bindings;
use minilog::error::QueryError;
use minilog::interpreter::DB;
use minilog::term::Value;

fn s(text: &str) -> String {
    text.to_string()
}

fn var(name: &str) -> Value {
    Value::Variable(s(name))
}

fn atom(text: &str) -> Value {
    Value::Str(s(text))
}

fn call(name: &str, args: Vec<Value>) -> Value {
    Value::CompoundTerm(s(name), args)
}

fn rule(name: &str, params: Vec<Value>, body: Value) -> Value {
    Value::Predicate(s(name), params, Box::new(body))
}

#[test]
fn conjunction_threads_bindings_through_both_comparisons() {
    let body = Value::And(
        Box::new(Value::GreaterThan(Box::new(var("x")), Box::new(Value::Int(2)))),
        Box::new(Value::LessThan(Box::new(var("x")), Box::new(Value::Int(10)))),
    );
    let db = DB::new(vec![rule("p", vec![var("x")], body)]);
    let mut env = Bindings::new();
    let answers = db.query(&call("p", vec![var("y")]), &mut env).unwrap();
    assert_eq!(answers.len(), 1);
    assert_eq!(answers[0].len(), 1);
    assert_eq!(answers[0].get(&s("y")), Some(&Value::Int(3)));
    assert_eq!(env.get(&s("y")), Some(&Value::Int(3)));
}

#[test]
fn rule_expands_into_the_fact_it_names() {
    let db = DB::new(vec![
        call("person", vec![atom("jack"), Value::Int(30), atom("student")]),
        rule(
            "student",
            vec![var("n"), var("a")],
            call("person", vec![var("n"), var("a"), atom("student")]),
        ),
    ]);
    let mut env = Bindings::new();
    let answers = db.query(&call("student", vec![var("n"), Value::Int(30)]), &mut env).unwrap();
    assert_eq!(answers.len(), 1);
    assert_eq!(answers[0].len(), 1);
    assert_eq!(answers[0].get(&s("n")), Some(&atom("jack")));
}

#[test]
fn equality_in_a_rule_body_binds_the_query_variable() {
    let db = DB::new(vec![rule(
        "q",
        vec![var("n")],
        Value::Eq(Box::new(var("n")), Box::new(atom("marcelle"))),
    )]);
    let mut env = Bindings::new();
    let answers = db.query(&call("q", vec![var("x")]), &mut env).unwrap();
    assert_eq!(answers.len(), 1);
    assert_eq!(answers[0].len(), 1);
    assert_eq!(answers[0].get(&s("x")), Some(&atom("marcelle")));
}

#[test]
fn repeated_variable_needs_identical_arguments() {
    let facts = vec![
        call("user", vec![atom("marcelle"), Value::Int(26)]),
        call("user", vec![atom("jack"), Value::Int(30)]),
    ];
    let goal = call("user", vec![var("name"), var("name")]);
    let db = DB::new(facts);
    let mut env = Bindings::new();
    let answers = db.query(&goal, &mut env).unwrap();
    assert!(answers.is_empty());
    assert!(env.is_empty());

    let db = DB::new(vec![
        call("user", vec![atom("marcelle"), Value::Int(26)]),
        call("user", vec![atom("jack"), Value::Int(30)]),
        call("user", vec![Value::Int(30), Value::Int(30)]),
    ]);
    let mut env = Bindings::new();
    let answers = db.query(&goal, &mut env).unwrap();
    assert_eq!(answers.len(), 1);
    assert_eq!(answers[0].get(&s("name")), Some(&Value::Int(30)));
}

#[test]
fn literal_goal_is_unsupported() {
    let db = DB::new(vec![]);
    let mut env = Bindings::new();
    assert_eq!(db.query(&Value::Int(1), &mut env).err(), Some(QueryError::UnsupportedGoalShape));
}

fn cmp(make: fn(Box<Value>, Box<Value>) -> Value, l: Value, r: Value) -> Value {
    make(Box::new(l), Box::new(r))
}

fn one_answer(goal: &Value, name: &str, env: &mut Bindings) -> Value {
    let db = DB::new(vec![]);
    let answers = db.query(goal, env).unwrap();
    assert_eq!(answers.len(), 1);
    answers[0].get(&s(name)).unwrap().clone()
}

#[test]
fn comparison_chooses_the_nearest_witness() {
    let mut env = Bindings::new();
    assert_eq!(one_answer(&cmp(Value::LessThan, var("x"), Value::Int(10)), "x", &mut env), Value::Int(9));
    assert_eq!(env.get(&s("x")), Some(&Value::Int(9)));
    let mut env = Bindings::new();
    assert_eq!(one_answer(&cmp(Value::LessThan, Value::Int(10), var("x")), "x", &mut env), Value::Int(11));
    let mut env = Bindings::new();
    assert_eq!(one_answer(&cmp(Value::GreaterThan, var("x"), Value::Int(10)), "x", &mut env), Value::Int(11));
    let mut env = Bindings::new();
    assert_eq!(one_answer(&cmp(Value::GreaterThan, Value::Int(10), var("x")), "x", &mut env), Value::Int(9));
    let mut env = Bindings::new();
    assert_eq!(one_answer(&cmp(Value::LessThanEqual, var("x"), Value::Int(10)), "x", &mut env), Value::Int(10));
    let mut env = Bindings::new();
    assert_eq!(one_answer(&cmp(Value::LessThanEqual, Value::Int(10), var("x")), "x", &mut env), Value::Int(10));
    let mut env = Bindings::new();
    assert_eq!(one_answer(&cmp(Value::GreaterThanEqual, var("x"), Value::Int(10)), "x", &mut env), Value::Int(10));
    let mut env = Bindings::new();
    assert_eq!(one_answer(&cmp(Value::GreaterThanEqual, Value::Int(10), var("x")), "x", &mut env), Value::Int(10));
}

#[test]
fn comparison_without_a_witness_has_no_answer() {
    let db = DB::new(vec![]);
    let mut env = Bindings::new();
    assert!(db.query(&cmp(Value::LessThan, var("x"), Value::Int(0)), &mut env).unwrap().is_empty());
    assert!(db.query(&cmp(Value::GreaterThan, Value::Int(0), var("x")), &mut env).unwrap().is_empty());
    let max = Value::Int(usize::MAX);
    assert!(db.query(&cmp(Value::GreaterThan, var("x"), max.clone()), &mut env).unwrap().is_empty());
    assert!(db.query(&cmp(Value::LessThan, max, var("x")), &mut env).unwrap().is_empty());
    assert!(env.is_empty());
}

#[test]
fn comparison_of_known_integers_checks_the_relation() {
    let db = DB::new(vec![]);
    let mut env = Bindings::new();
    env.insert(s("x"), Value::Int(3));
    let holds = db.query(&cmp(Value::LessThan, var("x"), Value::Int(10)), &mut env).unwrap();
    assert_eq!(holds.len(), 1);
    assert_eq!(holds[0].len(), 1);
    assert_eq!(holds[0].get(&s("x")), Some(&Value::Int(3)));
    assert!(db.query(&cmp(Value::LessThan, var("x"), Value::Int(3)), &mut env).unwrap().is_empty());
    assert_eq!(db.query(&cmp(Value::LessThanEqual, var("x"), Value::Int(3)), &mut env).unwrap().len(), 1);
    assert!(db.query(&cmp(Value::GreaterThan, var("x"), Value::Int(3)), &mut env).unwrap().is_empty());
    assert_eq!(db.query(&cmp(Value::GreaterThanEqual, var("x"), Value::Int(3)), &mut env).unwrap().len(), 1);
    let plain = db.query(&cmp(Value::LessThan, Value::Int(1), Value::Int(2)), &mut env).unwrap();
    assert_eq!(plain.len(), 1);
    assert!(plain[0].is_empty());
    assert_eq!(env.len(), 1);
}

#[test]
fn comparing_two_unbound_variables_is_an_error() {
    let db = DB::new(vec![]);
    let mut env = Bindings::new();
    assert_eq!(
        db.query(&cmp(Value::LessThan, var("x"), var("y")), &mut env).err(),
        Some(QueryError::UnboundVariableReference)
    );
}

#[test]
fn comparing_a_non_integer_is_an_error() {
    let db = DB::new(vec![]);
    let mut env = Bindings::new();
    env.insert(s("x"), atom("three"));
    assert_eq!(
        db.query(&cmp(Value::LessThan, var("x"), Value::Int(4)), &mut env).err(),
        Some(QueryError::TypeMismatchInComparison)
    );
    assert_eq!(
        db.query(&cmp(Value::GreaterThan, Value::Int(4), atom("a")), &mut env).err(),
        Some(QueryError::TypeMismatchInComparison)
    );
    assert_eq!(
        db.query(&cmp(Value::GreaterThan, var("free"), atom("a")), &mut env).err(),
        Some(QueryError::TypeMismatchInComparison)
    );
}

#[test]
fn equality_needs_a_variable_on_the_left() {
    let db = DB::new(vec![]);
    let mut env = Bindings::new();
    assert_eq!(
        db.query(&cmp(Value::Eq, Value::Int(1), Value::Int(1)), &mut env).err(),
        Some(QueryError::InvalidEqualityShape)
    );
}

#[test]
fn equality_substitutes_its_right_side() {
    let db = DB::new(vec![]);
    let mut env = Bindings::new();
    env.insert(s("y"), Value::Int(2));
    let rhs = Value::List(vec![var("y"), var("z")]);
    let answers = db.query(&cmp(Value::Eq, var("x"), rhs), &mut env).unwrap();
    let value = Value::List(vec![Value::Int(2), var("z")]);
    assert_eq!(answers.len(), 1);
    assert_eq!(answers[0].len(), 1);
    assert_eq!(answers[0].get(&s("x")), Some(&value));
    assert_eq!(env.get(&s("x")), Some(&value));
}

#[test]
fn equality_on_a_bound_variable_checks_its_value() {
    let db = DB::new(vec![]);
    let mut env = Bindings::new();
    env.insert(s("x"), atom("jack"));
    assert!(db.query(&cmp(Value::Eq, var("x"), atom("marcelle")), &mut env).unwrap().is_empty());
    assert_eq!(env.get(&s("x")), Some(&atom("jack")));
    assert_eq!(db.query(&cmp(Value::Eq, var("x"), atom("jack")), &mut env).unwrap().len(), 1);
}

#[test]
fn conjunction_fails_when_either_side_fails() {
    let db = DB::new(vec![call("p", vec![Value::Int(1)])]);
    let yes = call("p", vec![var("x")]);
    let no = call("q", vec![var("y")]);
    let mut env = Bindings::new();
    assert!(db.query(&cmp(Value::And, no.clone(), yes.clone()), &mut env).unwrap().is_empty());
    assert!(env.is_empty());
    assert!(db.query(&cmp(Value::And, yes.clone(), no), &mut env).unwrap().is_empty());
    assert_eq!(env.get(&s("x")), Some(&Value::Int(1)));
}

#[test]
fn conjunction_concatenates_the_answers_of_its_sides() {
    let db = DB::new(vec![
        call("p", vec![Value::Int(1)]),
        call("p", vec![Value::Int(2)]),
        call("q", vec![Value::Int(1), atom("a")]),
    ]);
    let goal = cmp(Value::And, call("p", vec![var("x")]), call("q", vec![var("x"), var("y")]));
    let mut env = Bindings::new();
    let answers = db.query(&goal, &mut env).unwrap();
    assert_eq!(answers.len(), 3);
    assert_eq!(answers[0].get(&s("x")), Some(&Value::Int(1)));
    assert_eq!(answers[1].get(&s("x")), Some(&Value::Int(2)));
    assert_eq!(answers[2].get(&s("x")), Some(&Value::Int(1)));
    assert_eq!(answers[2].get(&s("y")), Some(&atom("a")));
    assert_eq!(env.get(&s("x")), Some(&Value::Int(1)));
    assert_eq!(env.get(&s("y")), Some(&atom("a")));
}

#[test]
fn compound_goal_answers_once_for_each_matching_item() {
    let db = DB::new(vec![
        call("user", vec![atom("marcelle"), Value::Int(26)]),
        call("other", vec![atom("x")]),
        call("user", vec![atom("jack"), Value::Int(30)]),
    ]);
    let mut env = Bindings::new();
    let answers = db.query(&call("user", vec![var("n"), var("a")]), &mut env).unwrap();
    assert_eq!(answers.len(), 2);
    assert_eq!(answers[0].get(&s("n")), Some(&atom("marcelle")));
    assert_eq!(answers[0].get(&s("a")), Some(&Value::Int(26)));
    assert_eq!(answers[1].get(&s("n")), Some(&atom("jack")));
    assert_eq!(answers[1].get(&s("a")), Some(&Value::Int(30)));
    assert_eq!(env.len(), 2);
    assert_eq!(env.get(&s("n")), Some(&atom("marcelle")));
}

#[test]
fn rule_with_a_bound_argument_checks_the_equality() {
    let db = DB::new(vec![rule(
        "q",
        vec![var("n")],
        Value::Eq(Box::new(var("n")), Box::new(atom("marcelle"))),
    )]);
    let mut env = Bindings::new();
    assert!(db.query(&call("q", vec![atom("jack")]), &mut env).unwrap().is_empty());
    assert_eq!(db.query(&call("q", vec![atom("marcelle")]), &mut env).unwrap().len(), 1);
}

#[test]
fn answer_with_an_unbound_variable_is_an_error() {
    let db = DB::new(vec![call("likes", vec![var("anyone"), atom("pizza")])]);
    let mut env = Bindings::new();
    assert_eq!(
        db.query(&call("likes", vec![var("who"), var("what")]), &mut env).err(),
        Some(QueryError::UnboundVariableReference)
    );
    let mut env = Bindings::new();
    let answers = db.query(&call("likes", vec![atom("bob"), var("what")]), &mut env).unwrap();
    assert_eq!(answers.len(), 1);
    assert_eq!(answers[0].len(), 1);
    assert_eq!(answers[0].get(&s("what")), Some(&atom("pizza")));
}

#[test]
fn unsupported_goals_are_errors() {
    let db = DB::new(vec![]);
    let mut env = Bindings::new();
    for goal in [
        atom("a"),
        var("x"),
        Value::List(vec![]),
        rule("r", vec![], Value::Int(1)),
    ] {
        assert_eq!(db.query(&goal, &mut env).err(), Some(QueryError::UnsupportedGoalShape));
    }
}
