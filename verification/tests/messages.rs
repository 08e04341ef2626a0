use rjlox::error::{error_message, position, Defect, Diagnostic, Fault, RuntimeError};
use rjlox::scanner::{Literal, Token, TokenType};
use rjlox::text::{accepts, concatenate, is_digit, join_with, number_text, same_text, CharClass};

fn token(kind: TokenType, lexeme: &str, line: usize, column: usize) -> Token {
    Token { token: kind, lexeme: lexeme.to_string(), literal: Literal::Nil, line, column }
}

#[test]
fn numbers_are_written_in_decimal() {
    assert_eq!(number_text(0), "0");
    assert_eq!(number_text(7), "7");
    assert_eq!(number_text(10), "10");
    assert_eq!(number_text(1234567890), "1234567890");
    assert_eq!(number_text(usize::MAX), usize::MAX.to_string());
    for n in [9usize, 11, 99, 100, 101, 909, 65535, 4294967296] {
        assert_eq!(number_text(n), n.to_string());
    }
}

#[test]
fn texts_are_joined_and_compared() {
    assert_eq!(concatenate("ab", "cd"), "abcd");
    assert_eq!(concatenate("", ""), "");
    let items = vec!["x".to_string(), "y".to_string(), "z".to_string()];
    assert_eq!(join_with(&items, ", "), "x, y, z");
    assert_eq!(join_with(&items[..1], ", "), "x");
    assert_eq!(join_with(&[], ", "), "");
    assert!(same_text("init", "init"));
    assert!(!same_text("init", "Init"));
    assert!(!same_text("init", "ini"));
}

#[test]
fn character_classes() {
    for c in "0123456789".chars() {
        assert!(is_digit(c));
        assert!(accepts(CharClass::Digit, c));
        assert!(accepts(CharClass::Word, c));
    }
    for c in "/:a ٣".chars() {
        assert!(!is_digit(c));
    }
    for c in "azAZ_é9".chars() {
        assert!(accepts(CharClass::Word, c));
    }
    for c in " -.\"\n(".chars() {
        assert!(!accepts(CharClass::Word, c));
    }
    assert!(accepts(CharClass::Quoted, '\n'));
    assert!(!accepts(CharClass::Quoted, '"'));
    assert!(accepts(CharClass::Line, '"'));
    assert!(!accepts(CharClass::Line, '\n'));
}

#[test]
fn positions_and_static_errors() {
    assert_eq!(position(12, 3), "[line 12:3] ");
    let name = token(TokenType::Identifier, "x", 2, 9);
    assert_eq!(error_message(&name, "Bad."), "[line 2:9] Error at 'x': Bad.");
    let end = token(TokenType::Eof, "", 5, 0);
    assert_eq!(error_message(&end, "Bad."), "[line 5:0] Error at end: Bad.");
}

#[test]
fn every_defect_has_its_sentence() {
    let at = token(TokenType::Identifier, "n", 1, 2);
    let expect = [
        (Defect::AlreadyDeclared, "Already a variable with this name in this scope."),
        (Defect::OwnInitializer, "Can't read local variable in its own initializer."),
        (Defect::TopLevelReturn, "Can't return from top-level code."),
        (Defect::InitializerReturn, "Can't return a value from an initializer."),
        (Defect::ThisOutsideClass, "Can't use 'this' outside of a class."),
        (Defect::SuperOutsideClass, "Can't use 'super' outside of a class."),
        (Defect::SuperWithoutSuperclass, "Can't use 'super' in a class with no superclass."),
        (Defect::InheritsItself, "A class can't inherit from itself."),
    ];
    for (kind, sentence) in expect {
        assert_eq!(kind.sentence(), sentence);
        let diagnostic = Diagnostic::new(kind, &at);
        assert_eq!(diagnostic.token, at);
        assert_eq!(diagnostic.message(), format!("[line 1:2] Error at 'n': {}", sentence));
    }
}

#[test]
fn every_fault_has_its_message() {
    let at = token(TokenType::Identifier, "n", 3, 4);
    let expect = [
        (Fault::UndefinedVariable, "Undefined variable 'n'."),
        (Fault::UndefinedVariableAt(12), "Undefined variable 'n' at distance 12."),
        (Fault::UndefinedProperty, "[line 3:4] Undefined property 'n'."),
        (Fault::OperandNotNumber, "[line 3:4] Operand must be a number."),
        (Fault::OperandsNotNumbers, "[line 3:4] Operands must be numbers."),
        (Fault::OperandsNotAddable, "[line 3:4] Operands must be two numbers or two strings."),
        (Fault::NotCallable, "[line 3:4] Can only call functions and classes."),
        (Fault::WrongArity(2, 10), "[line 3:4] Expected 2 arguments but got 10."),
        (Fault::NoProperties, "[line 3:4] Only instances have properties."),
        (Fault::NoFields, "[line 3:4] Only instances have fields."),
        (Fault::SuperclassNotClass, "[line 3:4] Superclass must be a class."),
        (Fault::Native, "n"),
    ];
    for (kind, message) in expect {
        let error = RuntimeError::new(kind, &at);
        assert_eq!((error.kind, error.line, error.column), (kind, 3, 4));
        assert_eq!(error.message(), message);
        assert_eq!(error.clone(), error);
    }
}
