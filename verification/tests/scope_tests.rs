use hamster_wheel::Scope;
use hamster_wheel::Var;
use hamster_wheel::VarType;

fn string_value(s: &str) -> VarType {
    VarType::Value(Var::new(s.to_string()))
}

fn as_text(v: &VarType) -> String {
    match v {
        VarType::Value(var) => var.data.clone(),
        _ => panic!("expected a scalar string"),
    }
}

#[test]
fn lookup_finds_local_binding() {
    let mut scope = Scope::new();
    scope.insert(String::from("x"), string_value("a"));
    let found = scope.lookup(&String::from("x")).ok().unwrap();
    assert_eq!(as_text(found), "a");
}

#[test]
fn lookup_walks_to_parent() {
    let mut parent = Scope::new();
    parent.insert(String::from("x"), string_value("outer"));
    let child = Scope::with_parent(&parent);
    let found = child.lookup(&String::from("x")).ok().unwrap();
    assert_eq!(as_text(found), "outer");
}

#[test]
fn child_binding_shadows_parent() {
    let mut parent = Scope::new();
    parent.insert(String::from("x"), string_value("outer"));
    let mut child = Scope::with_parent(&parent);
    child.insert(String::from("x"), string_value("inner"));
    assert_eq!(as_text(child.lookup(&String::from("x")).ok().unwrap()), "inner");
    assert_eq!(as_text(parent.lookup(&String::from("x")).ok().unwrap()), "outer");
}

#[test]
fn insert_returns_replaced_value() {
    let mut scope = Scope::new();
    assert!(scope.insert(String::from("x"), string_value("first")).is_none());
    let prior = scope.insert(String::from("x"), string_value("second")).unwrap();
    assert_eq!(as_text(&prior), "first");
    assert_eq!(as_text(scope.lookup(&String::from("x")).ok().unwrap()), "second");
}

#[test]
fn missing_name_reports_undeclared() {
    let scope = Scope::new();
    let err = scope.lookup(&String::from("ghost_name")).err().unwrap();
    assert_eq!(err.message(), "Attempted to use undeclared variable ghost_name");
}

#[test]
fn set_parent_links_lookup() {
    let mut parent = Scope::new();
    parent.insert(String::from("y"), string_value("linked"));
    let mut scope = Scope::new();
    scope.set_parent(&parent);
    assert_eq!(as_text(scope.lookup(&String::from("y")).ok().unwrap()), "linked");
}
