use zawa::environment::Environment;
use zawa::expr::LiteralValue;

fn name(text: &str) -> String {
    String::from(text)
}

fn text(value: &str) -> LiteralValue {
    LiteralValue::StringValue(String::from(value))
}

#[test]
fn a_new_arena_holds_the_empty_root() {
    let scopes = Environment::new();
    assert_eq!(scopes.len(), 1);
    assert_eq!(scopes.get(0, &name("a")), None);
}

#[test]
fn define_writes_into_the_given_scope() {
    let mut scopes = Environment::new();
    scopes.define(0, name("a"), text("outer"));
    let inner = scopes.child(0);
    assert_eq!(inner, 1);
    assert_eq!(scopes.get(inner, &name("a")), Some(text("outer")));
    scopes.define(inner, name("a"), text("inner"));
    assert_eq!(scopes.get(inner, &name("a")), Some(text("inner")));
    assert_eq!(scopes.get(0, &name("a")), Some(text("outer")));
    scopes.define(inner, name("a"), text("again"));
    assert_eq!(scopes.get(inner, &name("a")), Some(text("again")));
    scopes.define(inner, name("b"), LiteralValue::Null);
    assert_eq!(scopes.get(inner, &name("b")), Some(LiteralValue::Null));
    assert_eq!(scopes.get(0, &name("b")), None);
}

#[test]
fn assign_writes_to_the_nearest_binding() {
    let mut scopes = Environment::new();
    scopes.define(0, name("a"), text("zero"));
    let one = scopes.child(0);
    let two = scopes.child(one);
    let side = scopes.child(0);
    assert!(scopes.assign(two, &name("a"), text("changed")));
    assert_eq!(scopes.get(0, &name("a")), Some(text("changed")));
    assert_eq!(scopes.get(side, &name("a")), Some(text("changed")));
    scopes.define(one, name("a"), text("one"));
    assert!(scopes.assign(two, &name("a"), text("nearer")));
    assert_eq!(scopes.get(two, &name("a")), Some(text("nearer")));
    assert_eq!(scopes.get(one, &name("a")), Some(text("nearer")));
    assert_eq!(scopes.get(0, &name("a")), Some(text("changed")));
    assert_eq!(scopes.get(side, &name("a")), Some(text("changed")));
}

#[test]
fn assign_never_adds_a_binding() {
    let mut scopes = Environment::new();
    let inner = scopes.child(0);
    assert!(!scopes.assign(inner, &name("a"), text("x")));
    assert_eq!(scopes.get(inner, &name("a")), None);
    assert_eq!(scopes.get(0, &name("a")), None);
    scopes.define(inner, name("a"), text("inner"));
    assert!(!scopes.assign(0, &name("a"), text("x")));
    assert_eq!(scopes.get(inner, &name("a")), Some(text("inner")));
}

#[test]
fn a_scope_that_is_not_there_binds_nothing() {
    let mut scopes = Environment::new();
    scopes.define(7, name("a"), text("x"));
    assert_eq!(scopes.len(), 1);
    assert_eq!(scopes.get(7, &name("a")), None);
    assert!(!scopes.assign(7, &name("a"), text("x")));
    let odd = scopes.child(9);
    scopes.define(0, name("a"), text("root"));
    assert_eq!(scopes.get(odd, &name("a")), None);
}
