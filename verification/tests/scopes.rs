use h4::scopes::{Scopes, Value};

fn chars(s: &str) -> Vec<char> {
    s.chars().collect()
}

fn plain_text(v: &Value) -> String {
    match v {
        Value::Plain(t) => t.iter().collect(),
        Value::Builtin(_) => panic!("expected a literal value"),
        Value::Script(_) => panic!("expected a literal value"),
    }
}

#[test]
fn let_then_get() {
    let mut s = Scopes::new();
    s.let_variable(&chars("a"), Value::Plain(chars("1")));
    let v = s.get_variable(&chars("a")).expect("bound");
    assert_eq!(plain_text(&v), "1");
    assert!(s.get_variable(&chars("b")).is_none());
}

#[test]
fn let_in_pushed_scope_shadows_until_pop() {
    let mut s = Scopes::new();
    s.let_variable(&chars("a"), Value::Plain(chars("outer")));
    s.push_scope();
    s.let_variable(&chars("a"), Value::Plain(chars("inner")));
    assert_eq!(plain_text(&s.get_variable(&chars("a")).unwrap()), "inner");
    s.pop_scope().expect("not the global scope");
    assert_eq!(plain_text(&s.get_variable(&chars("a")).unwrap()), "outer");
}

#[test]
fn let_in_pushed_scope_vanishes_after_pop() {
    let mut s = Scopes::new();
    s.push_scope();
    s.let_variable(&chars("only_inner"), Value::Plain(chars("x")));
    assert!(s.get_variable(&chars("only_inner")).is_some());
    s.pop_scope().expect("not the global scope");
    assert!(s.get_variable(&chars("only_inner")).is_none());
}

#[test]
fn set_in_pushed_scope_mutates_outer_slot() {
    let mut s = Scopes::new();
    s.let_variable(&chars("a"), Value::Plain(chars("old")));
    s.push_scope();
    let hit = s.set_variable(&chars("a"), Value::Plain(chars("new")));
    assert!(hit.is_some());
    s.pop_scope().expect("not the global scope");
    assert_eq!(plain_text(&s.get_variable(&chars("a")).unwrap()), "new");
}

#[test]
fn set_of_unbound_name_reports_not_found() {
    let mut s = Scopes::new();
    assert!(s.set_variable(&chars("nope"), Value::Plain(chars("x"))).is_none());
    assert!(s.get_variable(&chars("nope")).is_none());
}

#[test]
fn popping_the_global_scope_fails() {
    let mut s = Scopes::new();
    assert!(s.pop_scope().is_err());
    // the store is still usable
    s.let_variable(&chars("a"), Value::Plain(chars("1")));
    assert!(s.get_variable(&chars("a")).is_some());
}

#[test]
fn rebinding_in_same_frame_replaces() {
    let mut s = Scopes::new();
    s.let_variable(&chars("a"), Value::Plain(chars("1")));
    s.let_variable(&chars("a"), Value::Plain(chars("2")));
    assert_eq!(plain_text(&s.get_variable(&chars("a")).unwrap()), "2");
}

#[test]
fn values_carry_their_kind() {
    let mut s = Scopes::new();
    s.let_variable(&chars("v"), Value::Script(7));
    match s.get_variable(&chars("v")).unwrap() {
        Value::Script(h) => assert_eq!(h, 7),
        _ => panic!("expected a script value"),
    }
}
