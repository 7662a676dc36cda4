use rusty_scheme::env::{Environment, Store};
use rusty_scheme::error::SchemeError;
use rusty_scheme::value::Value;

#[test]
fn define_overwrites_in_one_scope() {
    let mut env = Environment::new();
    env.define("x".to_string(), Value::Integer(1));
    env.define("x".to_string(), Value::Integer(2));
    assert_eq!(env.bindings.len(), 1);
    assert!(matches!(env.lookup_local(&"x".to_string()), Some(Value::Integer(2))));
    assert!(env.lookup_local(&"y".to_string()).is_none());
}

#[test]
fn lookup_follows_the_parent_chain() {
    let mut st = Store::new();
    st.define(0, "x".to_string(), Value::Integer(1));
    let child = st.new_scope(0);
    assert!(matches!(st.lookup(child, &"x".to_string()), Some(Value::Integer(1))));
    st.define(child, "x".to_string(), Value::Integer(5));
    assert!(matches!(st.lookup(child, &"x".to_string()), Some(Value::Integer(5))));
    assert!(matches!(st.lookup(0, &"x".to_string()), Some(Value::Integer(1))));
    let env = Environment::new_child(child);
    assert!(matches!(env.lookup(&st, &"x".to_string()), Some(Value::Integer(5))));
}

#[test]
fn set_changes_the_nearest_binding_or_fails() {
    let mut st = Store::new();
    st.define(0, "x".to_string(), Value::Integer(1));
    let child = st.new_scope(0);
    assert!(Environment::set(&mut st, child, &"x".to_string(), Value::Integer(9)).is_ok());
    assert!(matches!(st.lookup(0, &"x".to_string()), Some(Value::Integer(9))));
    assert!(st.scopes[child].bindings.is_empty());
    match Environment::set(&mut st, child, &"y".to_string(), Value::Nil) {
        Err(SchemeError::UndefinedVariable(n)) => assert_eq!(n, "y"),
        other => panic!("expected an undefined variable, got {:?}", other),
    }
}

#[test]
fn type_labels_and_faults() {
    assert_eq!(Value::Integer(1).kind_name(), "integer");
    assert_eq!(Value::Table(0).kind_name(), "map");
    assert_eq!(Value::Nil.kind_name(), "nil");
    match Value::type_error("array", &Value::Bool(true)) {
        SchemeError::Type { expected, found } => {
            assert_eq!(expected, "array");
            assert_eq!(found, "boolean");
        },
        other => panic!("expected a type fault, got {:?}", other),
    }
}
