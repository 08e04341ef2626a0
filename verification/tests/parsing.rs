use rjlox::expr::{vec_to_string, Expr};
use rjlox::parser::Parser;
use rjlox::scanner::{Literal, Scanner, Token, TokenType};
use rjlox::stmt::Stmt;

fn tokens_of(source: &str) -> Vec<Token> {
    let mut scanner = Scanner::new(source);
    let mut tokens = Vec::new();
    for scanned in scanner.scan_tokens() {
        let mut token = scanned.clone().expect("the text scans");
        if token.token == TokenType::Number {
            token.literal = Literal::Double(token.lexeme.parse::<f64>().unwrap_or(0.0).to_bits());
        }
        tokens.push(token);
    }
    tokens
}

fn number_text(bits: u64) -> String {
    let value = f64::from_bits(bits);
    if value.fract() == 0.0 {
        format!("{}", value as i64)
    } else {
        format!("{}", value)
    }
}

fn exprs(items: &[Expr]) -> String {
    let texts: Vec<String> = items.iter().map(show).collect();
    vec_to_string(&texts)
}

fn stmts(items: &[Stmt]) -> String {
    let texts: Vec<String> = items.iter().map(show_stmt).collect();
    vec_to_string(&texts)
}

fn show(e: &Expr) -> String {
    match e {
        Expr::Assign(_, name, value) => format!("(= {} {})", name.lexeme, show(value)),
        Expr::Binary(left, op, right) => format!("({} {} {})", op.lexeme, show(left), show(right)),
        Expr::Call(callee, _, arguments) => format!("(call {} ({}))", show(callee), exprs(arguments)),
        Expr::Get(obj, name) => format!("(. {} {})", show(obj), name.lexeme),
        Expr::SetField(obj, name, val) => format!("(.= {} {} {})", show(obj), name.lexeme, show(val)),
        Expr::Super(_, keyword, method) => format!("({} {})", keyword.lexeme, method.lexeme),
        Expr::This(_, keyword) => keyword.lexeme.clone(),
        Expr::Grouping(inner) => format!("(group {})", show(inner)),
        Expr::Literal(Literal::Double(bits)) => number_text(*bits),
        Expr::Literal(Literal::String(s)) => format!("\"{}\"", s),
        Expr::Literal(Literal::Boolean(b)) => format!("{}", b),
        Expr::Literal(_) => "nil".to_string(),
        Expr::Logical(left, op, right) => format!("({} {} {})", op.lexeme, show(left), show(right)),
        Expr::Unary(op, inner) => format!("({} {})", op.lexeme, show(inner)),
        Expr::Variable(_, ident) => ident.lexeme.clone(),
    }
}

fn show_stmt(s: &Stmt) -> String {
    match s {
        Stmt::Block(statements) => format!("(block {})", stmts(statements)),
        Stmt::Class(name, parent, methods) => match parent {
            Some(parent) => format!("(class {} < {} ({}))", name.lexeme, show(parent), stmts(methods)),
            None => format!("(class {} ({}))", name.lexeme, stmts(methods)),
        },
        Stmt::Expression(e) => show(e),
        Stmt::Function(name, params, body) => {
            let names: Vec<String> = params.iter().map(|p| p.lexeme.clone()).collect();
            format!("(fun {} ({}) ({}))", name.lexeme, vec_to_string(&names), stmts(body))
        }
        Stmt::If(cond, then_branch, Some(else_branch)) => format!(
            "(if {} (then {}) (else {}))",
            show(cond),
            show_stmt(then_branch),
            show_stmt(else_branch)
        ),
        Stmt::If(cond, then_branch, None) => {
            format!("(if {} (then {}))", show(cond), show_stmt(then_branch))
        }
        Stmt::Print(e) => format!("(print {})", show(e)),
        Stmt::Return(_, value) => format!("(return {})", show(value)),
        Stmt::Var(token, Some(e)) => format!("(var {} {})", token.lexeme, show(e)),
        Stmt::Var(token, None) => format!("(var {} nil)", token.lexeme),
        Stmt::While(cond, body) => format!("(while {} (body {}))", show(cond), show_stmt(body)),
    }
}

fn expression(source: &str) -> String {
    show(&Parser::new(tokens_of(source)).parse_expr().expect("an expression"))
}

fn program(source: &str) -> String {
    stmts(&Parser::new(tokens_of(source)).parse().expect("a program"))
}

fn errors(source: &str) -> Vec<String> {
    let text = Parser::new(tokens_of(source)).parse().expect_err("syntax errors");
    text.split('\n').map(|line| line.to_string()).collect()
}

fn sites(e: &Expr, into: &mut Vec<usize>) {
    match e {
        Expr::Assign(site, _, value) => {
            into.push(*site);
            sites(value, into);
        }
        Expr::Binary(left, _, right) | Expr::Logical(left, _, right) => {
            sites(left, into);
            sites(right, into);
        }
        Expr::Call(callee, _, arguments) => {
            sites(callee, into);
            for argument in arguments {
                sites(argument, into);
            }
        }
        Expr::Get(obj, _) => sites(obj, into),
        Expr::SetField(obj, _, val) => {
            sites(obj, into);
            sites(val, into);
        }
        Expr::Super(site, _, _) | Expr::This(site, _) | Expr::Variable(site, _) => into.push(*site),
        Expr::Grouping(inner) | Expr::Unary(_, inner) => sites(inner, into),
        Expr::Literal(_) => {}
    }
}

#[test]
fn joins_with_single_spaces() {
    let items = vec!["a".to_string(), "bc".to_string(), "".to_string(), "d".to_string()];
    assert_eq!(vec_to_string(&items), "a bc  d");
    assert_eq!(vec_to_string(&items[..1]), "a");
    assert_eq!(vec_to_string(&[]), "");
}

#[test]
fn binary_operators_group_by_precedence() {
    assert_eq!(expression("1 + 2 * 3"), "(+ 1 (* 2 3))");
    assert_eq!(expression("1 * 2 + 3"), "(+ (* 1 2) 3)");
    assert_eq!(expression("1 - 2 - 3"), "(- (- 1 2) 3)");
    assert_eq!(expression("1 < 2 == 3 >= 4"), "(== (< 1 2) (>= 3 4))");
    assert_eq!(expression("a or b and c"), "(or a (and b c))");
    assert_eq!(expression("!-a"), "(! (- a))");
    assert_eq!(expression("-(1 + 2) / 3"), "(/ (- (group (+ 1 2))) 3)");
}

#[test]
fn primaries() {
    assert_eq!(expression("true"), "true");
    assert_eq!(expression("false"), "false");
    assert_eq!(expression("nil"), "nil");
    assert_eq!(expression("12.5"), "12.5");
    assert_eq!(expression("\"text\""), "\"text\"");
    assert_eq!(expression("this"), "this");
    assert_eq!(expression("super.go"), "(super go)");
    assert_eq!(expression("name"), "name");
}

#[test]
fn calls_and_properties_chain() {
    assert_eq!(expression("f(1, g(2))(3).x.y(4)"), "(call (. (. (call (call f (1 (call g (2)))) (3)) x) y) (4))");
    assert_eq!(expression("f()"), "(call f ())");
}

#[test]
fn assignment_is_right_associative() {
    assert_eq!(expression("a = b = 3"), "(= a (= b 3))");
    assert_eq!(expression("a.b.c = 1 + 2"), "(.= (. a b) c (+ 1 2))");
}

#[test]
fn statements() {
    assert_eq!(program("var a; var b = 1; print a + b; a;"), "(var a nil) (var b 1) (print (+ a b)) a");
    assert_eq!(program("{ var a = 1; { print a; } }"), "(block (var a 1) (block (print a)))");
    assert_eq!(program("if (a) b; else c;"), "(if a (then b) (else c))");
    assert_eq!(program("if (a) if (b) c; else d;"), "(if a (then (if b (then c) (else d))))");
    assert_eq!(program("while (a < 3) a = a + 1;"), "(while (< a 3) (body (= a (+ a 1))))");
    assert_eq!(program("fun f(a, b) { return a + b; } fun g() { return; }"), "(fun f (a b) ((return (+ a b)))) (fun g () ((return nil)))");
    assert_eq!(
        program("class A { m() { return this; } } class B < A { init(x) { super.init(x); } }"),
        "(class A ((fun m () ((return this))))) (class B < A ((fun init (x) ((call (super init) (x))))))"
    );
}

#[test]
fn for_becomes_while() {
    assert_eq!(
        program("for (var i = 0; i < 3; i = i + 1) print i;"),
        "(block (var i 0) (while (< i 3) (body (block (print i) (= i (+ i 1))))))"
    );
    assert_eq!(program("for (;;) print 1;"), "(while true (body (print 1)))");
    assert_eq!(program("for (i = 0; ; ) {}"), "(block (= i 0) (while true (body (block ))))");
    assert_eq!(program("for (; i < 2; i = i + 1) f();"), "(while (< i 2) (body (block (call f ()) (= i (+ i 1)))))");
}

#[test]
fn every_site_has_its_own_number() {
    let parsed = Parser::new(tokens_of("a = a + b * a(this, super.m, c = d).e"))
        .parse_expr()
        .expect("an expression");
    let mut found = Vec::new();
    sites(&parsed, &mut found);
    assert_eq!(found.len(), 8);
    let mut sorted = found.clone();
    sorted.sort();
    sorted.dedup();
    assert_eq!(sorted.len(), found.len());
}

#[test]
fn syntax_errors_name_the_place() {
    assert_eq!(errors("print 1"), vec![
        "[line 1:7] Error at end: Expect ';' after value. Last valid lexeme was '1' at [line 1:7]."
    ]);
    assert_eq!(errors("print ;"), vec!["[line 1:7] Error at ';': Expect expression."]);
    assert_eq!(errors("1 = 2;"), vec!["[line 1:3] Error at '=': Invalid assignment target."]);
    assert_eq!(errors("var 1;"), vec![
        "[line 1:5] Error at '1': Expect variable name. Last valid lexeme was 'var' at [line 1:1]."
    ]);
    assert_eq!(errors("fun (){}"), vec![
        "[line 1:5] Error at '(': Expect function name. Last valid lexeme was 'fun' at [line 1:1]."
    ]);
    assert_eq!(errors("class A { 1 }"), vec![
        "[line 1:11] Error at '1': Expect method name. Last valid lexeme was '{' at [line 1:9]."
    ]);
    assert_eq!(errors("super;"), vec![
        "[line 1:6] Error at ';': Expect '.' after 'super'. Last valid lexeme was 'super' at [line 1:1]."
    ]);
}

#[test]
fn parsing_goes_on_after_an_error() {
    assert_eq!(errors("print ; var 2; print 3; + ;"), vec![
        "[line 1:7] Error at ';': Expect expression.",
        "[line 1:13] Error at '2': Expect variable name. Last valid lexeme was 'var' at [line 1:9].",
        "[line 1:25] Error at '+': Expect expression.",
    ]);
    assert_eq!(errors("{ print ; print 1; "), vec![
        "[line 1:9] Error at ';': Expect expression.",
        "[line 1:19] Error at end: Expect '}' after block. Last valid lexeme was ';' at [line 1:18].",
    ]);
}

#[test]
fn too_many_arguments_or_parameters() {
    let arguments = vec!["1"; 256].join(", ");
    let found = errors(&format!("f({});", arguments));
    assert_eq!(found.len(), 1);
    assert!(found[0].ends_with("Error at '1': Can't have more than 255 arguments."));
    let parameters: Vec<String> = (0..256).map(|i| format!("p{}", i)).collect();
    let found = errors(&format!("fun f({}) {{}}", parameters.join(", ")));
    assert_eq!(found.len(), 1);
    assert!(found[0].ends_with("Error at 'p255': Can't have more than 255 parameters."));
    let fine = vec!["1"; 255].join(", ");
    assert!(Parser::new(tokens_of(&format!("f({});", fine))).parse().is_ok());
}

#[test]
fn error_text_at_a_token_and_at_the_end() {
    let token = Token {
        token: TokenType::Identifier,
        lexeme: "name".to_string(),
        literal: Literal::Nil,
        line: 3,
        column: 14,
    };
    assert_eq!(
        Parser::error::<()>(&token, "Message."),
        Err("[line 3:14] Error at 'name': Message.".to_string())
    );
    let end = Token { token: TokenType::Eof, lexeme: String::new(), ..token };
    assert_eq!(
        Parser::error::<()>(&end, "Message."),
        Err("[line 3:14] Error at end: Message.".to_string())
    );
}

#[test]
fn empty_program() {
    assert_eq!(Parser::new(tokens_of("")).parse(), Ok(Vec::new()));
    assert_eq!(Parser::new(tokens_of("// nothing\n")).parse(), Ok(Vec::new()));
}

fn stmt_sites(s: &Stmt, into: &mut Vec<usize>) {
    match s {
        Stmt::Block(items) => {
            for item in items {
                stmt_sites(item, into);
            }
        }
        Stmt::Class(_, parent, methods) => {
            if let Some(parent) = parent {
                sites(parent, into);
            }
            for method in methods {
                stmt_sites(method, into);
            }
        }
        Stmt::Expression(e) | Stmt::Print(e) | Stmt::Return(_, e) => sites(e, into),
        Stmt::Function(_, _, body) => {
            for item in body {
                stmt_sites(item, into);
            }
        }
        Stmt::If(cond, then_branch, else_branch) => {
            sites(cond, into);
            stmt_sites(then_branch, into);
            if let Some(branch) = else_branch {
                stmt_sites(branch, into);
            }
        }
        Stmt::Var(_, initializer) => {
            if let Some(e) = initializer {
                sites(e, into);
            }
        }
        Stmt::While(cond, body) => {
            sites(cond, into);
            stmt_sites(body, into);
        }
    }
}

#[test]
fn every_site_of_a_program_has_its_own_number() {
    let source = "class A { m(a) { return this.x + a; } } \
                  class B < A { m(a) { return super.m(a) + a; } } \
                  for (var i = 0; i < 3; i = i + 1) { print B().m(i); } \
                  fun f(a) { if (a) { a = a; } else { while (a) a; } return f; } \
                  var a = f; a = a(a);";
    let parsed = Parser::new(tokens_of(source)).parse().expect("a program");
    let mut found = Vec::new();
    for statement in &parsed {
        stmt_sites(statement, &mut found);
    }
    assert_eq!(found.len(), 21);
    let mut sorted = found.clone();
    sorted.sort();
    sorted.dedup();
    assert_eq!(sorted.len(), found.len());
    assert_eq!(sorted, (0..found.len()).collect::<Vec<usize>>());
}
