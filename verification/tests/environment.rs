use rjlox::environment::Environment;
use rjlox::error::Fault;
use rjlox::scanner::{Literal, Token, TokenType};

fn name(lexeme: &str) -> Token {
    Token { token: TokenType::Identifier, lexeme: lexeme.to_string(), literal: Literal::Nil, line: 2, column: 5 }
}

fn number(value: f64) -> Literal {
    Literal::Double(value.to_bits())
}

#[test]
fn a_new_environment_has_one_empty_root() {
    let scopes = Environment::new();
    assert_eq!(scopes.len(), 1);
    assert_eq!(scopes.reach(0, 0), Some(0));
    assert_eq!(scopes.reach(0, 1), None);
    assert!(!scopes.binds(0, "a"));
    assert_eq!(scopes.find(0, "a"), None);
}

#[test]
fn define_binds_and_overwrites_in_the_scope_itself() {
    let mut scopes = Environment::new();
    scopes.define(0, "a", number(1.0));
    assert_eq!(scopes.get(0, &name("a")), Ok(number(1.0)));
    scopes.define(0, "a", Literal::Boolean(true));
    assert_eq!(scopes.get(0, &name("a")), Ok(Literal::Boolean(true)));
    assert!(scopes.binds(0, "a"));
}

#[test]
fn get_walks_the_chain_and_fails_where_nothing_binds() {
    let mut scopes = Environment::new();
    let middle = scopes.nested(0);
    let inner = scopes.nested(middle);
    assert_eq!((middle, inner, scopes.len()), (1, 2, 3));
    scopes.define(0, "a", number(1.0));
    scopes.define(middle, "b", number(2.0));
    assert_eq!(scopes.get(inner, &name("a")), Ok(number(1.0)));
    assert_eq!(scopes.get(inner, &name("b")), Ok(number(2.0)));
    assert_eq!(scopes.get(0, &name("b")).unwrap_err().kind, Fault::UndefinedVariable);
    let error = scopes.get(inner, &name("c")).unwrap_err();
    assert_eq!(error.kind, Fault::UndefinedVariable);
    assert_eq!((error.lexeme.as_str(), error.line, error.column), ("c", 2, 5));
    assert_eq!(error.message(), "Undefined variable 'c'.");
    assert_eq!(scopes.get(7, &name("a")).unwrap_err().kind, Fault::UndefinedVariable);
    assert_eq!(scopes.find(inner, "a"), Some(0));
    assert_eq!(scopes.find(inner, "b"), Some(middle));
}

#[test]
fn get_at_hops_exactly_and_looks_at_one_scope() {
    let mut scopes = Environment::new();
    let middle = scopes.nested(0);
    let inner = scopes.nested(middle);
    scopes.define(0, "a", number(1.0));
    scopes.define(middle, "a", number(2.0));
    scopes.define(inner, "a", number(3.0));
    assert_eq!(scopes.get_at(inner, 0, "a"), Ok(number(3.0)));
    assert_eq!(scopes.get_at(inner, 1, "a"), Ok(number(2.0)));
    assert_eq!(scopes.get_at(inner, 2, "a"), Ok(number(1.0)));
    scopes.define(0, "g", number(9.0));
    let error = scopes.get_at(inner, 1, "g").unwrap_err();
    assert_eq!(error.kind, Fault::UndefinedVariableAt(1));
    assert_eq!(error.message(), "Undefined variable 'g' at distance 1.");
    assert_eq!(scopes.read_at(inner, 2, "g"), Some(number(9.0)));
    assert_eq!(scopes.read_at(inner, 1, "g"), None);
    assert_eq!(scopes.read_at(inner, 3, "g"), None);
    assert_eq!(scopes.ancestor(inner, 2), 0);
    assert_eq!(scopes.ancestor(inner, 1), middle);
    assert_eq!(scopes.ancestor(inner, 0), inner);
    assert_eq!(scopes.reach(inner, 3), None);
}

#[test]
fn a_resolved_distance_reads_what_the_walk_reads() {
    let mut scopes = Environment::new();
    let mut scope = 0;
    scopes.define(0, "deep", Literal::String("found".to_string()));
    for depth in 1..40 {
        scope = scopes.nested(scope);
        scopes.define(scope, "other", number(depth as f64));
        assert_eq!(scopes.get_at(scope, depth, "deep"), scopes.get(scope, &name("deep")));
        assert_eq!(scopes.get_at(scope, 0, "other"), scopes.get(scope, &name("other")));
    }
}

#[test]
fn assign_overwrites_the_nearest_binding() {
    let mut scopes = Environment::new();
    let inner = scopes.nested(0);
    scopes.define(0, "a", number(1.0));
    assert_eq!(scopes.assign(inner, &name("a"), number(5.0)), Ok(number(5.0)));
    assert_eq!(scopes.get(0, &name("a")), Ok(number(5.0)));
    assert!(!scopes.binds(inner, "a"));
    scopes.define(inner, "a", number(2.0));
    assert_eq!(scopes.assign(inner, &name("a"), number(6.0)), Ok(number(6.0)));
    assert_eq!(scopes.get(inner, &name("a")), Ok(number(6.0)));
    assert_eq!(scopes.get(0, &name("a")), Ok(number(5.0)));
    let error = scopes.assign(inner, &name("b"), Literal::Nil).unwrap_err();
    assert_eq!(error.kind, Fault::UndefinedVariable);
    assert_eq!(error.message(), "Undefined variable 'b'.");
    assert_eq!(scopes.find(inner, "b"), None);
}

#[test]
fn assign_at_binds_by_hops() {
    let mut scopes = Environment::new();
    let inner = scopes.nested(0);
    scopes.define(0, "a", number(1.0));
    scopes.define(inner, "a", number(2.0));
    assert_eq!(scopes.assign_at(inner, 1, &name("a"), number(7.0)), Ok(number(7.0)));
    assert_eq!(scopes.get_at(inner, 1, "a"), Ok(number(7.0)));
    assert_eq!(scopes.get_at(inner, 0, "a"), Ok(number(2.0)));
    assert_eq!(scopes.assign_at(inner, 0, &name("fresh"), Literal::Nil), Ok(Literal::Nil));
    assert!(scopes.binds(inner, "fresh"));
}

#[test]
fn shadowing_holds_while_the_inner_scope_is_used() {
    let mut scopes = Environment::new();
    scopes.define(0, "a", number(1.0));
    scopes.define(0, "b", number(10.0));
    let inner = scopes.nested(0);
    scopes.define(inner, "a", number(2.0));
    assert_eq!(scopes.get(inner, &name("a")), Ok(number(2.0)));
    assert_eq!(scopes.get(inner, &name("b")), Ok(number(10.0)));
    assert_eq!(scopes.get(0, &name("a")), Ok(number(1.0)));
}

#[test]
fn scopes_nested_in_one_scope_share_it() {
    let mut scopes = Environment::new();
    let shared = scopes.nested(0);
    scopes.define(shared, "v", number(1.0));
    let first = scopes.nested(shared);
    let second = scopes.nested(shared);
    assert_eq!(scopes.assign(first, &name("v"), number(2.0)), Ok(number(2.0)));
    assert_eq!(scopes.get(second, &name("v")), Ok(number(2.0)));
    assert_eq!(scopes.get(first, &name("v")), Ok(number(2.0)));
}
