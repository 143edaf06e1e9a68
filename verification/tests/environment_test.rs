use lib::environment::Environment;

fn s(x: &str) -> String {
    x.to_string()
}

#[test]
fn environment_new_holds_defaults() {
    let env: Environment<i32> = Environment::new(vec![(s("a"), 1), (s("b"), 2)]);
    assert_eq!(env.get(&s("a")), Some(1));
    assert_eq!(env.get(&s("b")), Some(2));
    assert_eq!(env.get(&s("c")), None);
    assert!(env.contains(&s("a")));
    assert!(!env.contains(&s("c")));
}

#[test]
fn environment_later_default_wins() {
    let env: Environment<i32> = Environment::new(vec![(s("a"), 1), (s("a"), 5)]);
    assert_eq!(env.get(&s("a")), Some(5));
    assert_eq!(env.innermost().len(), 1);
}

#[test]
fn environment_get_after_insert() {
    let mut env: Environment<i32> = Environment::new(vec![]);
    assert!(env.insert(&s("x"), 7));
    assert_eq!(env.get(&s("x")), Some(7));
    // a second declaration in the same scope is refused and changes nothing
    assert!(!env.insert(&s("x"), 8));
    assert_eq!(env.get(&s("x")), Some(7));
}

#[test]
fn environment_insert_keeps_others() {
    let mut env: Environment<i32> = Environment::new(vec![(s("y"), 3)]);
    assert!(env.insert(&s("x"), 7));
    assert_eq!(env.get(&s("y")), Some(3));
}

#[test]
fn environment_get_after_update() {
    let mut env: Environment<i32> = Environment::new(vec![(s("x"), 1), (s("y"), 2)]);
    assert!(env.update(&s("x"), 10));
    assert_eq!(env.get(&s("x")), Some(10));
    assert_eq!(env.get(&s("y")), Some(2));
}

#[test]
fn environment_update_undeclared() {
    let mut env: Environment<i32> = Environment::new(vec![(s("x"), 1)]);
    assert!(!env.update(&s("z"), 10));
    assert_eq!(env.get(&s("z")), None);
    assert_eq!(env.get(&s("x")), Some(1));
}

#[test]
fn environment_shadowing() {
    let mut env: Environment<i32> = Environment::new(vec![(s("x"), 1)]);
    env.add_scope();
    assert_eq!(env.get(&s("x")), Some(1));
    assert!(env.insert(&s("x"), 2));
    assert_eq!(env.get(&s("x")), Some(2));
    assert_eq!(env.get_innermost(&s("x")), Some(2));
    env.remove_scope();
    assert_eq!(env.get(&s("x")), Some(1));
}

#[test]
fn environment_update_outer_from_inner() {
    let mut env: Environment<i32> = Environment::new(vec![(s("x"), 1)]);
    env.add_scope();
    assert_eq!(env.get_innermost(&s("x")), None);
    assert!(env.update(&s("x"), 5));
    env.remove_scope();
    assert_eq!(env.get(&s("x")), Some(5));
}

#[test]
fn environment_scope_vars() {
    let mut env: Environment<i32> = Environment::new(vec![]);
    env.add_scope_vars(vec![(s("p"), 1), (s("q"), 2), (s("p"), 3)]);
    assert_eq!(env.get(&s("p")), Some(3));
    assert_eq!(env.get(&s("q")), Some(2));
    let names: Vec<String> = env.innermost().iter().map(|e| e.0.clone()).collect();
    assert_eq!(names, vec![s("p"), s("q")]);
    env.remove_scope();
    assert_eq!(env.get(&s("p")), None);
}

#[test]
fn environment_remove_last_scope() {
    let mut env: Environment<i32> = Environment::new(vec![(s("x"), 1)]);
    env.remove_scope();
    assert_eq!(env.get(&s("x")), None);
    env.remove_scope();
    assert_eq!(env.get(&s("x")), None);
}
