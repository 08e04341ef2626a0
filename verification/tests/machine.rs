use rjlox::error::{Fault, RuntimeError};
use rjlox::expr::Expr;
use rjlox::interpreter::{Control, Frame, Interpreter, Request, Status};
use rjlox::lox_callable::LoxCallable;
use rjlox::scanner::{Literal, Token, TokenType};
use rjlox::stmt::Stmt;

fn token(kind: TokenType, lexeme: &str) -> Token {
    Token { token: kind, lexeme: lexeme.to_string(), literal: Literal::Nil, line: 1, column: 1 }
}

fn name(lexeme: &str) -> Token {
    token(TokenType::Identifier, lexeme)
}

fn number(value: f64) -> Literal {
    Literal::Double(value.to_bits())
}

fn text(value: &str) -> Literal {
    Literal::String(value.to_string())
}

fn settle(machine: &mut Interpreter) -> Status {
    loop {
        match machine.step() {
            Status::Running => {}
            other => return other,
        }
    }
}

fn result(machine: &Interpreter) -> Result<Option<Literal>, RuntimeError> {
    machine.outcome().expect("the run has ended").clone()
}

#[test]
fn a_new_machine_is_at_rest_and_knows_clock() {
    let mut machine = Interpreter::new();
    assert_eq!(machine.globals, 0);
    assert_eq!(machine.environment(), 0);
    assert_eq!(machine.status(), Status::Finished);
    assert_eq!(result(&machine), Ok(None));
    assert!(machine.request().is_none());
    assert_eq!(machine.step(), Status::Finished);
    assert_eq!(
        machine.lookup_variable(0, &name("clock")),
        Ok(Literal::Callable(LoxCallable::NativeFunction(0)))
    );
    assert_eq!(LoxCallable::NativeFunction(0).arity(machine.heap()), Some(0));
}

#[test]
fn truthiness_and_equality() {
    assert!(!Interpreter::is_truthy(&Literal::Nil));
    assert!(!Interpreter::is_truthy(&Literal::Boolean(false)));
    assert!(Interpreter::is_truthy(&Literal::Boolean(true)));
    assert!(Interpreter::is_truthy(&number(0.0)));
    assert!(Interpreter::is_truthy(&text("")));
    assert!(Interpreter::is_truthy(&Literal::LoxInstance(0)));
    assert!(Interpreter::is_equal(&Literal::Nil, &Literal::Nil));
    assert!(!Interpreter::is_equal(&Literal::Nil, &Literal::Boolean(false)));
    assert!(!Interpreter::is_equal(&number(0.0), &Literal::Nil));
    assert!(Interpreter::is_equal(&number(2.0), &number(2.0)));
    assert!(!Interpreter::is_equal(&number(f64::NAN), &number(f64::NAN)));
    assert!(Interpreter::is_equal(&text("a"), &text("a")));
    assert!(!Interpreter::is_equal(&text("1"), &number(1.0)));
    assert!(!Interpreter::is_equal(&Literal::LoxInstance(1), &Literal::LoxInstance(2)));
    assert!(Interpreter::is_equal(&Literal::LoxInstance(2), &Literal::LoxInstance(2)));
    assert!(!Interpreter::is_equal(
        &Literal::Callable(LoxCallable::LoxFunction(1)),
        &Literal::Callable(LoxCallable::LoxClass(1))
    ));
}

#[test]
fn a_literal_evaluates_to_itself() {
    let expr = Expr::Grouping(Box::new(Expr::Literal(text("v"))));
    let mut machine = Interpreter::new();
    machine.evaluate(&expr);
    assert_eq!(machine.status(), Status::Running);
    assert_eq!(settle(&mut machine), Status::Finished);
    assert_eq!(result(&machine), Ok(Some(text("v"))));
}

#[test]
fn the_host_is_asked_for_arithmetic() {
    let plus = token(TokenType::Plus, "+");
    let expr = Expr::Binary(
        Box::new(Expr::Literal(number(1.0))),
        plus,
        Box::new(Expr::Literal(number(2.0))),
    );
    let mut machine = Interpreter::new();
    machine.evaluate(&expr);
    assert_eq!(settle(&mut machine), Status::Waiting);
    match machine.request() {
        Some(Request::Binary(TokenType::Plus, a, b)) => {
            assert_eq!((*a, *b), (1f64.to_bits(), 2f64.to_bits()));
        }
        other => panic!("unexpected request {:?}", other),
    }
    assert_eq!(machine.step(), Status::Waiting);
    assert!(machine.outcome().is_none());
    machine.resume(Ok(number(3.0)));
    assert_eq!(settle(&mut machine), Status::Finished);
    assert_eq!(result(&machine), Ok(Some(number(3.0))));
    machine.resume(Ok(Literal::Nil));
    assert_eq!(result(&machine), Ok(Some(number(3.0))));
}

#[test]
fn a_text_request_takes_only_a_string() {
    let program = vec![Stmt::Print(Expr::Literal(number(1.5)))];
    let mut machine = Interpreter::new();
    machine.interpret(&program);
    assert_eq!(settle(&mut machine), Status::Waiting);
    assert!(matches!(machine.request(), Some(Request::Text(_))));
    machine.resume(Ok(number(1.5)));
    assert_eq!(machine.status(), Status::Waiting);
    assert!(matches!(machine.request(), Some(Request::Text(_))));
    machine.resume(Ok(text("1.5")));
    assert_eq!(settle(&mut machine), Status::Waiting);
    match machine.request() {
        Some(Request::Print(line)) => assert_eq!(line, "1.5"),
        other => panic!("unexpected request {:?}", other),
    }
    machine.resume(Ok(Literal::Nil));
    assert_eq!(settle(&mut machine), Status::Finished);
    assert_eq!(result(&machine), Ok(None));
}

#[test]
fn a_failing_host_ends_the_run() {
    let paren = token(TokenType::RightParen, ")");
    let program = vec![
        Stmt::Block(vec![Stmt::Expression(Expr::Call(
            Box::new(Expr::Variable(0, name("clock"))),
            paren,
            Vec::new(),
        ))]),
    ];
    let mut machine = Interpreter::new();
    machine.interpret(&program);
    assert_eq!(settle(&mut machine), Status::Waiting);
    match machine.request() {
        Some(Request::Native(index, arguments)) => {
            assert_eq!(*index, 0);
            assert!(arguments.is_empty());
        }
        other => panic!("unexpected request {:?}", other),
    }
    assert_ne!(machine.environment(), 0);
    machine.resume(Err("the clock is broken".to_string()));
    assert_eq!(machine.status(), Status::Finished);
    let error = result(&machine).unwrap_err();
    assert_eq!(error.kind, Fault::Native);
    assert_eq!(error.message(), "the clock is broken");
    assert_eq!(machine.environment(), 0);
}

#[test]
fn resolved_sites_are_read_by_distance() {
    let mut machine = Interpreter::new();
    machine.resolve(7, 0);
    let error = machine.lookup_variable(7, &name("clock")).unwrap();
    assert_eq!(error, Literal::Callable(LoxCallable::NativeFunction(0)));
    machine.resolve(7, 1);
    let error = machine.lookup_variable(7, &name("clock")).unwrap_err();
    assert_eq!(error.kind, Fault::UndefinedVariableAt(1));
    machine.adopt(&vec![(7, 3), (8, 0), (7, 0)]);
    assert!(machine.lookup_variable(7, &name("clock")).is_ok());
    assert!(machine.lookup_variable(8, &name("clock")).is_ok());
    assert_eq!(machine.lookup_variable(8, &name("x")).unwrap_err().kind, Fault::UndefinedVariableAt(0));
    assert_eq!(machine.lookup_variable(9, &name("x")).unwrap_err().kind, Fault::UndefinedVariable);
}

#[test]
fn loading_a_program_abandons_the_running_one() {
    let first = vec![Stmt::Block(vec![Stmt::Print(Expr::Literal(text("never")))])];
    let second = vec![Stmt::Var(name("a"), None)];
    let mut machine = Interpreter::new();
    machine.interpret(&first);
    assert_eq!(settle(&mut machine), Status::Waiting);
    assert_ne!(machine.environment(), 0);
    machine.interpret(&second);
    assert_eq!(machine.environment(), 0);
    assert_eq!(settle(&mut machine), Status::Finished);
    assert_eq!(result(&machine), Ok(None));
    assert_eq!(machine.lookup_variable(0, &name("a")), Ok(Literal::Nil));
}

#[test]
fn rules_can_be_applied_one_by_one() {
    let minus = token(TokenType::Minus, "-");
    let bang = token(TokenType::Bang, "!");
    let equal = token(TokenType::EqualEqual, "==");
    let plus = token(TokenType::Plus, "+");
    let paren = token(TokenType::RightParen, ")");
    let field = name("f");
    let mut machine = Interpreter::new();

    machine.eval_unary(&bang, Literal::Nil);
    assert_eq!(settle(&mut machine), Status::Finished);
    assert_eq!(result(&machine), Ok(Some(Literal::Boolean(true))));

    machine.eval_unary(&minus, number(2.0));
    assert!(matches!(machine.request(), Some(Request::Negate(_))));
    machine.resume(Ok(number(-2.0)));
    assert_eq!(settle(&mut machine), Status::Finished);
    assert_eq!(result(&machine), Ok(Some(number(-2.0))));

    machine.eval_unary(&minus, text("a"));
    assert_eq!(result(&machine).unwrap_err().kind, Fault::OperandNotNumber);

    machine.eval_binary(&equal, text("a"), text("a"));
    assert_eq!(settle(&mut machine), Status::Finished);
    assert_eq!(result(&machine), Ok(Some(Literal::Boolean(true))));

    machine.add(&plus, text("a"), Literal::Boolean(false));
    assert_eq!(settle(&mut machine), Status::Finished);
    assert_eq!(result(&machine), Ok(Some(text("afalse"))));

    machine.add(&plus, number(1.0), text("b"));
    assert!(matches!(machine.request(), Some(Request::Text(_))));
    machine.resume(Ok(text("1")));
    assert_eq!(settle(&mut machine), Status::Finished);
    assert_eq!(result(&machine), Ok(Some(text("1b"))));

    machine.add(&plus, Literal::Nil, Literal::Nil);
    assert_eq!(result(&machine).unwrap_err().kind, Fault::OperandsNotAddable);

    machine.eval_call(&paren, number(1.0), Vec::new());
    assert_eq!(result(&machine).unwrap_err().kind, Fault::NotCallable);

    machine.eval_call(&paren, Literal::Callable(LoxCallable::NativeFunction(0)), vec![Literal::Nil]);
    assert_eq!(result(&machine).unwrap_err().kind, Fault::WrongArity(0, 1));

    machine.eval_get(&field, Literal::LoxInstance(0));
    assert_eq!(result(&machine).unwrap_err().kind, Fault::NoProperties);

    machine.eval_set(&field, 0, Literal::Nil);
    assert_eq!(result(&machine).unwrap_err().kind, Fault::NoFields);

    machine.print(text("line"));
    match machine.request() {
        Some(Request::Print(line)) => assert_eq!(line, "line"),
        other => panic!("unexpected request {:?}", other),
    }
    machine.resume(Ok(Literal::Nil));
    assert_eq!(settle(&mut machine), Status::Finished);

    machine.deliver(Frame::Return, number(4.0));
    assert_eq!(settle(&mut machine), Status::Finished);
    assert_eq!(result(&machine), Ok(Some(number(4.0))));

    machine.complete(Frame::Call(None), None);
    assert_eq!(settle(&mut machine), Status::Finished);
    assert_eq!(result(&machine), Ok(Some(Literal::Nil)));

    machine.fail(RuntimeError::new(Fault::NotCallable, &paren));
    assert_eq!(result(&machine).unwrap_err().kind, Fault::NotCallable);
    let _ = Control::Done(None);
}

#[test]
fn a_block_runs_in_its_own_scope() {
    let block = vec![Stmt::Var(name("inside"), Some(Expr::Literal(number(1.0))))];
    let declare = Stmt::Var(name("outside"), None);
    let mut machine = Interpreter::new();
    machine.execute(&declare);
    assert_eq!(settle(&mut machine), Status::Finished);
    let scope = machine.heap().scopes().len();
    let whole = Stmt::Block(block);
    machine.execute(&whole);
    assert_eq!(machine.environment(), scope);
    assert_eq!(settle(&mut machine), Status::Finished);
    assert_eq!(machine.environment(), 0);
    assert_eq!(machine.lookup_variable(0, &name("outside")), Ok(Literal::Nil));
    assert_eq!(machine.lookup_variable(0, &name("inside")).unwrap_err().kind, Fault::UndefinedVariable);
    assert_eq!(machine.heap().scopes().get(scope, &name("inside")), Ok(number(1.0)));
}

#[test]
fn running_takes_no_more_steps_than_its_budget() {
    let program = vec![
        Stmt::Var(name("a"), Some(Expr::Literal(number(1.0)))),
        Stmt::Var(name("b"), Some(Expr::Literal(number(2.0)))),
    ];
    let mut whole = Interpreter::new();
    whole.interpret(&program);
    let mut steps = 0;
    while whole.step() == Status::Running {
        steps += 1;
    }
    assert!(steps > 4);

    let mut machine = Interpreter::new();
    machine.interpret(&program);
    assert_eq!(machine.run(0), Status::Running);
    assert_eq!(machine.run(steps), Status::Running);
    assert_eq!(machine.lookup_variable(0, &name("b")), Ok(number(2.0)));
    assert_eq!(machine.run(1), Status::Finished);
    assert_eq!(machine.run(5), Status::Finished);
    assert_eq!(result(&machine), Ok(None));

    let mut waiting = Interpreter::new();
    let print = vec![Stmt::Print(Expr::Literal(text("x")))];
    waiting.interpret(&print);
    assert_eq!(waiting.run(usize::MAX), Status::Waiting);
    assert_eq!(waiting.run(usize::MAX), Status::Waiting);
    waiting.resume(Ok(Literal::Nil));
    assert_eq!(waiting.run(usize::MAX), Status::Finished);
}
