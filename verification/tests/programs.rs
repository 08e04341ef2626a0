use rjlox::error::{Defect, Diagnostic, Fault, RuntimeError};
use rjlox::interpreter::{Interpreter, Request, Status};
use rjlox::parser::Parser;
use rjlox::resolver::Resolver;
use rjlox::scanner::{Literal, Scanner, Token, TokenType};
use rjlox::stmt::Stmt;

fn number_text(value: f64) -> String {
    if value.fract() == 0.0 {
        format!("{}", value as i64)
    } else {
        format!("{}", value)
    }
}

fn answer(request: &Request, output: &mut Vec<String>) -> Result<Literal, String> {
    match request {
        Request::Print(text) => {
            output.push(text.clone());
            Ok(Literal::Nil)
        }
        Request::Binary(op, a, b) => {
            let (x, y) = (f64::from_bits(*a), f64::from_bits(*b));
            Ok(match op {
                TokenType::Plus => Literal::Double((x + y).to_bits()),
                TokenType::Minus => Literal::Double((x - y).to_bits()),
                TokenType::Star => Literal::Double((x * y).to_bits()),
                TokenType::Slash => Literal::Double((x / y).to_bits()),
                TokenType::Greater => Literal::Boolean(x > y),
                TokenType::GreaterEqual => Literal::Boolean(x >= y),
                TokenType::Less => Literal::Boolean(x < y),
                TokenType::LessEqual => Literal::Boolean(x <= y),
                _ => Literal::Nil,
            })
        }
        Request::Negate(a) => Ok(Literal::Double((-f64::from_bits(*a)).to_bits())),
        Request::Text(a) => Ok(Literal::String(number_text(f64::from_bits(*a)))),
        Request::Native(index, _) => {
            if *index == 0 {
                Ok(Literal::Double(1234.5f64.to_bits()))
            } else {
                Err("no such native function".to_string())
            }
        }
    }
}

fn drive(machine: &mut Interpreter) -> (Vec<String>, Result<Option<Literal>, RuntimeError>) {
    let mut output = Vec::new();
    loop {
        match machine.step() {
            Status::Running => {}
            Status::Waiting => {
                let reply = answer(machine.request().unwrap(), &mut output);
                machine.resume(reply);
            }
            Status::Finished => {
                return (output, machine.outcome().unwrap().clone());
            }
        }
    }
}

fn tokens_of(source: &str) -> Vec<Token> {
    let mut scanner = Scanner::new(source);
    let mut tokens = Vec::new();
    for scanned in scanner.scan_tokens() {
        let mut token = scanned.clone().expect("the text scans");
        if token.token == TokenType::Number {
            token.literal = Literal::Double(token.lexeme.parse::<f64>().unwrap_or(0.0).to_bits());
        }
        tokens.push(token);
    }
    tokens
}

fn parse(source: &str) -> Vec<Stmt> {
    Parser::new(tokens_of(source)).parse().expect("the text parses")
}

fn defects(source: &str) -> Vec<Diagnostic> {
    let program = parse(source);
    match Resolver::new().resolve(&program) {
        Ok(()) => Vec::new(),
        Err(found) => found,
    }
}

fn run(source: &str) -> (Vec<String>, Result<Option<Literal>, RuntimeError>) {
    let program = parse(source);
    let mut resolver = Resolver::new();
    assert!(resolver.resolve(&program).is_ok());
    let mut machine = Interpreter::new();
    machine.adopt(resolver.resolutions());
    machine.interpret(&program);
    drive(&mut machine)
}

fn prints(source: &str) -> Vec<String> {
    let (output, result) = run(source);
    assert_eq!(result, Ok(None));
    output
}

fn fails(source: &str) -> (Vec<String>, RuntimeError) {
    let (output, result) = run(source);
    (output, result.expect_err("the program fails"))
}

#[test]
fn block_shadows_and_restores() {
    assert_eq!(prints("var a=1; { var a=2; print a; } print a;"), vec!["2", "1"]);
}

#[test]
fn counter_closure_keeps_its_variable() {
    let source = "fun counter(){ var i=0; fun inc(){ i=i+1; return i; } return inc; } \
                  var c=counter(); print c(); print c();";
    assert_eq!(prints(source), vec!["1", "2"]);
}

#[test]
fn super_method_is_bound_to_the_same_instance() {
    let source = "class A{ greet(){return \"A\";} } \
                  class B<A{ greet(){return super.greet()+\"B\";} } print B().greet();";
    assert_eq!(prints(source), vec!["AB"]);
}

#[test]
fn number_plus_string_concatenates() {
    assert_eq!(prints("print 1 + \"x\";"), vec!["1x"]);
}

#[test]
fn bare_return_gives_nil() {
    assert_eq!(prints("fun f(){ return; } print f();"), vec!["nil"]);
}

#[test]
fn reading_a_local_in_its_own_initializer_is_a_defect() {
    let found = defects("{ var a = a; }");
    assert_eq!(found.len(), 1);
    assert_eq!(found[0].kind, Defect::OwnInitializer);
    assert_eq!(
        found[0].message(),
        "[line 1:11] Error at 'a': Can't read local variable in its own initializer."
    );
}

#[test]
fn arithmetic_and_comparison() {
    assert_eq!(prints("print 1 + 2 * 3 - 4 / 2;"), vec!["5"]);
    assert_eq!(prints("print 7 / 2;"), vec!["3.5"]);
    assert_eq!(prints("print -3 + 1;"), vec!["-2"]);
    assert_eq!(prints("print 1 < 2; print 2 <= 2; print 3 > 4; print 4 >= 5;"), vec![
        "true", "true", "false", "false"
    ]);
}

#[test]
fn truthiness_of_values() {
    assert_eq!(prints("print !nil; print !false; print !0; print !\"\"; print !true;"), vec![
        "true", "true", "false", "false", "false"
    ]);
}

#[test]
fn logical_operators_short_circuit() {
    let source = "fun loud(v){ print v; return v; } \
                  print loud(false) and loud(1); print loud(nil) or loud(\"x\"); \
                  print loud(2) or loud(3); print loud(4) and loud(5);";
    assert_eq!(prints(source), vec![
        "false", "false", "nil", "x", "x", "2", "2", "4", "5", "5"
    ]);
}

#[test]
fn equality_of_values() {
    let source = "print nil == nil; print nil == false; print 1 == 1; print 1 == \"1\"; \
                  print \"a\" == \"a\"; print \"a\" != \"b\"; print true == true; \
                  class A{} var x = A(); var y = A(); print x == y; print x == x; \
                  fun f(){} var g = f; print f == g; print A == A;";
    assert_eq!(prints(source), vec![
        "true", "false", "true", "false", "true", "true", "true", "false", "true", "true",
        "true"
    ]);
}

#[test]
fn strings_concatenate_with_any_value() {
    let source = "print \"a\" + \"b\"; print \"n=\" + 1.5; print 2 + \"!\"; \
                  print \"v:\" + nil; print true + \"?\"; class A{} print \"\" + A + A();";
    assert_eq!(prints(source), vec!["ab", "n=1.5", "2!", "v:nil", "true?", "<class A><class A> instance"]);
}

#[test]
fn display_forms() {
    let source = "fun f(){} class A{} print f; print A; print A(); print clock; \
                  print nil; print true; print \"text\"; print 3; print 2.25;";
    assert_eq!(prints(source), vec![
        "<fn f>", "<class A>", "<class A> instance", "<native fn clock>", "nil", "true", "text",
        "3", "2.25"
    ]);
}

#[test]
fn while_and_for_loops() {
    assert_eq!(prints("var i = 0; while (i < 3) { print i; i = i + 1; }"), vec!["0", "1", "2"]);
    assert_eq!(prints("for (var i = 0; i < 3; i = i + 1) print i;"), vec!["0", "1", "2"]);
    assert_eq!(prints("var s = 0; for (var i = 1; i <= 4; i = i + 1) { s = s + i; } print s;"), vec!["10"]);
}

#[test]
fn if_and_else() {
    assert_eq!(prints("if (1 < 2) print \"y\"; else print \"n\";"), vec!["y"]);
    assert_eq!(prints("if (nil) print \"y\"; else print \"n\";"), vec!["n"]);
    assert_eq!(prints("if (false) print \"y\"; print \"after\";"), vec!["after"]);
}

#[test]
fn return_unwinds_blocks_and_loops() {
    let source = "fun find(){ var i = 0; while (true) { { if (i == 3) { return i; } } i = i + 1; } } \
                  print find(); print \"after\";";
    assert_eq!(prints(source), vec!["3", "after"]);
}

#[test]
fn recursion() {
    let source = "fun fib(n){ if (n < 2) return n; return fib(n-1) + fib(n-2); } print fib(10);";
    assert_eq!(prints(source), vec!["55"]);
}

#[test]
fn two_closures_share_one_variable() {
    let source = "var get; var set; { var shared = 1; fun g(){ return shared; } \
                  fun s(v){ shared = v; } get = g; set = s; } \
                  print get(); set(7); print get();";
    assert_eq!(prints(source), vec!["1", "7"]);
}

#[test]
fn closure_sees_the_binding_it_was_resolved_to() {
    let source = "var a = \"global\"; { fun show(){ print a; } show(); var a = \"block\"; show(); }";
    assert_eq!(prints(source), vec!["global", "global"]);
}

#[test]
fn fields_and_methods() {
    let source = "class P{ init(x){ this.x = x; } get(){ return this.x; } } \
                  var p = P(4); print p.x; print p.get(); p.x = 5; print p.get(); \
                  p.y = \"new\"; print p.y; var m = p.get; p.x = 6; print m();";
    assert_eq!(prints(source), vec!["4", "4", "5", "new", "6"]);
}

#[test]
fn field_shadows_method() {
    let source = "class A{ f(){ return \"method\"; } } var a = A(); print a.f(); \
                  fun g(){ return \"field\"; } a.f = g; print a.f();";
    assert_eq!(prints(source), vec!["method", "field"]);
}

#[test]
fn constructor_gives_the_instance_whatever_init_returns() {
    let source = "class A{ init(){ this.v = 1; return; } } var a = A(); print a.v; \
                  print a.init() == a;";
    assert_eq!(prints(source), vec!["1", "true"]);
}

#[test]
fn class_takes_as_many_arguments_as_init() {
    let (_, error) = fails("class A{ init(a, b){} } A(1);");
    assert_eq!(error.kind, Fault::WrongArity(2, 1));
    assert_eq!(error.message(), "[line 1:28] Expected 2 arguments but got 1.");
    let (_, error) = fails("class B{} B(1);");
    assert_eq!(error.kind, Fault::WrongArity(0, 1));
    assert_eq!(prints("class C{ init(a){ print a; } } class D < C{} D(9);"), vec!["9"]);
}

#[test]
fn overriding_dispatches_to_the_most_derived() {
    let source = "class A{ who(){ return \"A\"; } call(){ return this.who(); } } \
                  class B < A{ who(){ return \"B\"; } } class C < B{} \
                  print C().call(); print A().call(); print C().who();";
    assert_eq!(prints(source), vec!["B", "A", "B"]);
}

#[test]
fn super_goes_to_the_immediate_superclass() {
    let source = "class A{ m(){ return \"A\"; } } class B < A{ m(){ return \"B\" + super.m(); } } \
                  class C < B{ m(){ return \"C\" + super.m(); } } print C().m();";
    assert_eq!(prints(source), vec!["CBA"]);
}

#[test]
fn native_clock_is_called_through_the_host() {
    assert_eq!(prints("print clock();"), vec!["1234.5"]);
    let (_, error) = fails("clock(1);");
    assert_eq!(error.kind, Fault::WrongArity(0, 1));
}

#[test]
fn runtime_errors() {
    let (_, error) = fails("print x;");
    assert_eq!(error.kind, Fault::UndefinedVariable);
    assert_eq!(error.message(), "Undefined variable 'x'.");
    let (_, error) = fails("x = 1;");
    assert_eq!(error.kind, Fault::UndefinedVariable);
    let (_, error) = fails("print -\"a\";");
    assert_eq!(error.kind, Fault::OperandNotNumber);
    assert_eq!(error.message(), "[line 1:7] Operand must be a number.");
    let (_, error) = fails("print 1 < \"a\";");
    assert_eq!(error.kind, Fault::OperandsNotNumbers);
    assert_eq!(error.message(), "[line 1:9] Operands must be numbers.");
    let (_, error) = fails("print nil + 1;");
    assert_eq!(error.kind, Fault::OperandsNotAddable);
    assert_eq!(error.message(), "[line 1:11] Operands must be two numbers or two strings.");
    let (_, error) = fails("\"text\"();");
    assert_eq!(error.kind, Fault::NotCallable);
    assert_eq!(error.message(), "[line 1:8] Can only call functions and classes.");
    let (_, error) = fails("fun f(a){} f();");
    assert_eq!(error.kind, Fault::WrongArity(1, 0));
    let (_, error) = fails("var a = 1; print a.b;");
    assert_eq!(error.kind, Fault::NoProperties);
    assert_eq!(error.message(), "[line 1:20] Only instances have properties.");
    let (_, error) = fails("var a = 1; a.b = 2;");
    assert_eq!(error.kind, Fault::NoFields);
    assert_eq!(error.message(), "[line 1:14] Only instances have fields.");
    let (_, error) = fails("class A{} print A().missing;");
    assert_eq!(error.kind, Fault::UndefinedProperty);
    assert_eq!(error.message(), "[line 1:21] Undefined property 'missing'.");
    let (_, error) = fails("var x = 1; class A < x{}");
    assert_eq!(error.kind, Fault::SuperclassNotClass);
    assert_eq!(error.message(), "[line 1:18] Superclass must be a class.");
}

#[test]
fn a_runtime_error_stops_the_run_at_once() {
    let (output, error) = fails("print 1; { print 2; print missing; print 3; } print 4;");
    assert_eq!(output, vec!["1", "2"]);
    assert_eq!(error.kind, Fault::UndefinedVariable);
}

#[test]
fn every_defect_is_reported() {
    let found = defects("return 1; { var a = 1; var a = 2; } print this; \
                         class A < A{} class B{ init(){ return 1; } m(){ super.m(); } } \
                         fun f(){ super.x; }");
    let kinds: Vec<Defect> = found.iter().map(|d| d.kind).collect();
    assert_eq!(kinds, vec![
        Defect::TopLevelReturn,
        Defect::AlreadyDeclared,
        Defect::ThisOutsideClass,
        Defect::InheritsItself,
        Defect::InitializerReturn,
        Defect::SuperWithoutSuperclass,
        Defect::SuperOutsideClass,
    ]);
}

#[test]
fn resolving_twice_gives_the_same_distances() {
    let program = parse("var a = 1; { var b = a; { fun f(c){ return a + b + c; } print f(b); } }");
    let mut first = Resolver::new();
    assert!(first.resolve(&program).is_ok());
    let once = first.resolutions().clone();
    assert!(first.resolve(&program).is_ok());
    let twice = first.resolutions().clone();
    assert_eq!(twice.len(), 2 * once.len());
    assert_eq!(&twice[..once.len()], &once[..]);
    assert_eq!(&twice[once.len()..], &once[..]);
    let mut machine = Interpreter::new();
    machine.adopt(&twice);
    machine.interpret(&program);
    let (output, result) = drive(&mut machine);
    assert_eq!(result, Ok(None));
    assert_eq!(output, vec!["3"]);
}
