use rjlox::error::Fault;
use rjlox::lox_callable::{Heap, LoxCallable, LoxClass, LoxFunction, LoxInstance, NativeFunction};
use rjlox::scanner::{Literal, Token, TokenType};
use rjlox::stmt::Stmt;
use vstd::hash_map::StringHashMap;

fn name(lexeme: &str) -> Token {
    Token { token: TokenType::Identifier, lexeme: lexeme.to_string(), literal: Literal::Nil, line: 4, column: 2 }
}

fn table(entries: &[(&str, usize)]) -> StringHashMap<usize> {
    let mut methods = StringHashMap::new();
    for (method, function) in entries {
        methods.insert(method.to_string(), *function);
    }
    methods
}

#[test]
fn native_function_keeps_name_and_arity() {
    let native = NativeFunction::new("clock", 3);
    assert_eq!(native.name(), "clock");
    assert_eq!(native.arity(), 3);
}

#[test]
fn function_arity_is_its_parameter_count() {
    let (n, body) = (name("f"), Vec::<Stmt>::new());
    let none: Vec<Token> = Vec::new();
    let two = vec![name("a"), name("b")];
    assert_eq!(LoxFunction::new(&n, &none, &body, 0, false).arity(), 0);
    assert_eq!(LoxFunction::new(&n, &two, &body, 0, false).arity(), 2);
}

#[test]
fn bind_makes_a_scope_that_holds_this() {
    let (n, params, body) = (name("m"), vec![name("a")], Vec::<Stmt>::new());
    let mut heap = Heap::new();
    let closure = heap.nested(0);
    let method = LoxFunction::new(&n, &params, &body, closure, true);
    let function = heap.add_function(method);
    let bound = heap.bind(function, 5);
    assert_eq!(bound, 1);
    let made = heap.function(bound).unwrap();
    assert_eq!(made.closure, 2);
    assert!(made.is_initializer);
    assert_eq!(made.arity(), 1);
    assert_eq!(made.name.lexeme, "m");
    assert_eq!(heap.scopes().get_at(made.closure, 0, "this"), Ok(Literal::LoxInstance(5)));
    assert_eq!(heap.scopes().ancestor(made.closure, 1), closure);
    assert_eq!(heap.function(function).unwrap().closure, closure);
    assert!(heap.function(2).is_none());
}

#[test]
fn find_method_prefers_the_most_derived_definition() {
    let classes = vec![
        LoxClass::new("A", None, table(&[("m", 10), ("only_a", 11)])),
        LoxClass::new("B", Some(0), table(&[("m", 20)])),
        LoxClass::new("C", Some(1), table(&[])),
        LoxClass::new("Loop", Some(3), table(&[])),
    ];
    assert_eq!(LoxClass::find_method(&classes, 0, "m"), Some(10));
    assert_eq!(LoxClass::find_method(&classes, 1, "m"), Some(20));
    assert_eq!(LoxClass::find_method(&classes, 2, "m"), Some(20));
    assert_eq!(LoxClass::find_method(&classes, 2, "only_a"), Some(11));
    assert_eq!(LoxClass::find_method(&classes, 2, "none"), None);
    assert_eq!(LoxClass::find_method(&classes, 3, "m"), None);
    assert_eq!(LoxClass::find_method(&classes, 9, "m"), None);
}

#[test]
fn arity_of_callables() {
    let (n, body) = (name("init"), Vec::<Stmt>::new());
    let params = vec![name("a"), name("b"), name("c")];
    let mut heap = Heap::new();
    let native = heap.add_native(NativeFunction::new("now", 0));
    let init = heap.add_function(LoxFunction::new(&n, &params, &body, 0, true));
    let base = heap.add_class(LoxClass::new("Base", None, table(&[("init", init)])));
    let derived = heap.add_class(LoxClass::new("Derived", Some(base), table(&[])));
    let plain = heap.add_class(LoxClass::new("Plain", None, table(&[("other", init)])));
    assert_eq!(LoxCallable::NativeFunction(native).arity(&heap), Some(0));
    assert_eq!(LoxCallable::LoxFunction(init).arity(&heap), Some(3));
    assert_eq!(LoxCallable::LoxClass(base).arity(&heap), Some(3));
    assert_eq!(LoxCallable::LoxClass(derived).arity(&heap), Some(3));
    assert_eq!(LoxCallable::LoxClass(plain).arity(&heap), Some(0));
    assert_eq!(LoxCallable::LoxClass(9).arity(&heap), None);
    assert_eq!(LoxCallable::LoxFunction(9).arity(&heap), None);
    assert_eq!(LoxCallable::NativeFunction(9).arity(&heap), None);
    assert_eq!(heap.find_method(derived, "init"), Some(init));
    assert_eq!(heap.find_method(plain, "init"), None);
    assert!(heap.is_class(plain));
    assert!(!heap.is_class(3));
}

#[test]
fn instance_reads_fields_before_methods() {
    let (n, params, body) = (name("m"), Vec::<Token>::new(), Vec::<Stmt>::new());
    let mut heap = Heap::new();
    let method = heap.add_function(LoxFunction::new(&n, &params, &body, 0, false));
    let class = heap.add_class(LoxClass::new("A", None, table(&[("m", method)])));
    let object = heap.instantiate(class);
    assert!(heap.is_instance(object));
    assert!(!heap.is_instance(object + 1));

    let got = LoxInstance::get(&mut heap, object, &name("m")).unwrap();
    assert_eq!(got, Literal::Callable(LoxCallable::LoxFunction(1)));
    let bound = heap.function(1).unwrap();
    assert_eq!(heap.scopes().get_at(bound.closure, 0, "this"), Ok(Literal::LoxInstance(object)));

    let again = LoxInstance::get(&mut heap, object, &name("m")).unwrap();
    assert_eq!(again, Literal::Callable(LoxCallable::LoxFunction(2)));

    heap.set_field(object, &name("m"), Literal::Boolean(true));
    assert_eq!(LoxInstance::get(&mut heap, object, &name("m")), Ok(Literal::Boolean(true)));
    assert!(heap.function(3).is_none());

    let error = LoxInstance::get(&mut heap, object, &name("missing")).unwrap_err();
    assert_eq!(error.kind, Fault::UndefinedProperty);
    assert_eq!(error.message(), "[line 4:2] Undefined property 'missing'.");
}

#[test]
fn set_adds_and_overwrites_fields() {
    let mut heap = Heap::new();
    let class = heap.add_class(LoxClass::new("A", None, table(&[])));
    let first = heap.instantiate(class);
    let second = heap.instantiate(class);
    heap.set_field(first, &name("x"), Literal::Double(1f64.to_bits()));
    heap.set_field(first, &name("x"), Literal::Double(2f64.to_bits()));
    assert_eq!(LoxInstance::get(&mut heap, first, &name("x")), Ok(Literal::Double(2f64.to_bits())));
    assert_eq!(LoxInstance::get(&mut heap, second, &name("x")).unwrap_err().kind, Fault::UndefinedProperty);
    let mut alone = LoxInstance::new(class);
    alone.set(&name("y"), Literal::Nil);
}

#[test]
fn values_are_written_by_kind() {
    let (n, params, body) = (name("work"), Vec::<Token>::new(), Vec::<Stmt>::new());
    let mut heap = Heap::new();
    let native = heap.add_native(NativeFunction::new("now", 0));
    let function = heap.add_function(LoxFunction::new(&n, &params, &body, 0, false));
    let class = heap.add_class(LoxClass::new("Thing", None, table(&[])));
    let object = heap.instantiate(class);
    assert_eq!(heap.display(&Literal::Callable(LoxCallable::NativeFunction(native))), "<native fn now>");
    assert_eq!(heap.display(&Literal::Callable(LoxCallable::LoxFunction(function))), "<fn work>");
    assert_eq!(heap.display(&Literal::Callable(LoxCallable::LoxClass(class))), "<class Thing>");
    assert_eq!(heap.display(&Literal::LoxInstance(object)), "<class Thing> instance");
    assert_eq!(heap.display(&Literal::String("as is".to_string())), "as is");
    assert_eq!(heap.display(&Literal::Boolean(true)), "true");
    assert_eq!(heap.display(&Literal::Boolean(false)), "false");
    assert_eq!(heap.display(&Literal::Nil), "nil");
    assert_eq!(heap.display(&Literal::Double(1f64.to_bits())), "");
}

#[test]
fn heap_scopes_are_assigned_by_walk_and_by_hops() {
    let mut heap = Heap::new();
    let inner = heap.nested(0);
    heap.define(0, "a", Literal::Nil);
    assert_eq!(heap.assign(inner, &name("a"), Literal::Boolean(true)), Ok(Literal::Boolean(true)));
    assert_eq!(heap.assign(inner, &name("b"), Literal::Nil).unwrap_err().kind, Fault::UndefinedVariable);
    assert_eq!(heap.assign_at(inner, 1, &name("a"), Literal::Boolean(false)), Ok(Literal::Boolean(false)));
    assert_eq!(heap.scopes().get(inner, &name("a")), Ok(Literal::Boolean(false)));
    let error = heap.assign_at(inner, 2, &name("a"), Literal::Nil).unwrap_err();
    assert_eq!(error.kind, Fault::UndefinedVariableAt(2));
    assert_eq!(error.message(), "Undefined variable 'a' at distance 2.");
}
