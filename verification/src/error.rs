use vstd::prelude::*;
use vstd::string::*;
use crate::scanner::{Token, TokenType};
use crate::text::{decimal, number_text};

verus! {

/// The position prefix of a message: `[line L:C] `.
pub open spec fn position_text(line: usize, column: usize) -> Seq<char> {
    "[line "@ + decimal(line as nat) + ":"@ + decimal(column as nat) + "] "@
}

/// Writes [`position_text`].
pub fn position(line: usize, column: usize) -> (s: String)
    ensures
        s@ == position_text(line, column),
{
    let mut s = String::from_str("[line ");
    s.append(number_text(line).as_str());
    s.append(":");
    s.append(number_text(column).as_str());
    s.append("] ");
    s
}

/// The text of a static error reported at `token`: the position, then
/// `Error at end: ` for the end-of-input token and `Error at 'lexeme': `
/// for any other, then `message`.
pub open spec fn error_text(token: Token, message: Seq<char>) -> Seq<char> {
    if token.token == TokenType::Eof {
        position_text(token.line, token.column) + "Error at end: "@ + message
    } else {
        position_text(token.line, token.column) + "Error at '"@ + token.lexeme@ + "': "@ + message
    }
}

/// Writes [`error_text`].
pub fn error_message(token: &Token, message: &str) -> (s: String)
    ensures
        s@ == error_text(*token, message@),
{
    let mut s = position(token.line, token.column);
    if token.token == TokenType::Eof {
        s.append("Error at end: ");
    } else {
        s.append("Error at '");
        s.append(token.lexeme.as_str());
        s.append("': ");
    }
    s.append(message);
    s
}

/// What the resolver can find wrong with a program.
#[derive(Debug, Clone, Copy, PartialEq, Eq, Structural)]
pub enum Defect {
    /// A second declaration of one name in one local scope.
    AlreadyDeclared,
    /// A local variable read in its own initializer.
    OwnInitializer,
    /// `return` outside any function.
    TopLevelReturn,
    /// `return` with a value inside an initializer.
    InitializerReturn,
    /// `this` outside any class.
    ThisOutsideClass,
    /// `super` outside any class.
    SuperOutsideClass,
    /// `super` in a class that has no superclass.
    SuperWithoutSuperclass,
    /// A class named as its own superclass.
    InheritsItself,
}

impl Defect {
    /// The sentence that describes the defect.
    pub open spec fn text(self) -> Seq<char> {
        match self {
            Defect::AlreadyDeclared => "Already a variable with this name in this scope."@,
            Defect::OwnInitializer => "Can't read local variable in its own initializer."@,
            Defect::TopLevelReturn => "Can't return from top-level code."@,
            Defect::InitializerReturn => "Can't return a value from an initializer."@,
            Defect::ThisOutsideClass => "Can't use 'this' outside of a class."@,
            Defect::SuperOutsideClass => "Can't use 'super' outside of a class."@,
            Defect::SuperWithoutSuperclass => "Can't use 'super' in a class with no superclass."@,
            Defect::InheritsItself => "A class can't inherit from itself."@,
        }
    }

    /// Gives [`Defect::text`].
    pub fn sentence(self) -> (s: &'static str)
        ensures
            s@ == self.text(),
    {
        match self {
            Defect::AlreadyDeclared => "Already a variable with this name in this scope.",
            Defect::OwnInitializer => "Can't read local variable in its own initializer.",
            Defect::TopLevelReturn => "Can't return from top-level code.",
            Defect::InitializerReturn => "Can't return a value from an initializer.",
            Defect::ThisOutsideClass => "Can't use 'this' outside of a class.",
            Defect::SuperOutsideClass => "Can't use 'super' outside of a class.",
            Defect::SuperWithoutSuperclass => "Can't use 'super' in a class with no superclass.",
            Defect::InheritsItself => "A class can't inherit from itself.",
        }
    }
}

/// One static defect and the token at which it was found.
#[derive(Debug, Clone, PartialEq)]
pub struct Diagnostic {
    pub kind: Defect,
    pub token: Token,
}

impl Diagnostic {
    /// The defect `kind` found at `token`.
    pub fn new(kind: Defect, token: &Token) -> (d: Diagnostic)
        ensures
            d == (Diagnostic { kind, token: *token }),
    {
        Diagnostic { kind, token: token.clone() }
    }

    /// The diagnostic as one line of text.
    pub fn message(&self) -> (s: String)
        ensures
            s@ == error_text(self.token, self.kind.text()),
    {
        error_message(&self.token, self.kind.sentence())
    }
}

/// Why evaluation stopped.
#[derive(Debug, Clone, Copy, PartialEq, Eq, Structural)]
pub enum Fault {
    /// No scope of the chain binds the name.
    UndefinedVariable,
    /// The scope that many hops up does not bind the name, or the chain is shorter.
    UndefinedVariableAt(usize),
    /// Neither a field nor a method of that name.
    UndefinedProperty,
    /// Unary minus on something that is no number.
    OperandNotNumber,
    /// Arithmetic or comparison on something that is no number.
    OperandsNotNumbers,
    /// `+` on operands that are neither two numbers nor hold a string.
    OperandsNotAddable,
    /// A call of something that is no function and no class.
    NotCallable,
    /// A call with the wrong number of arguments: expected, then given.
    WrongArity(usize, usize),
    /// A property read on something that is no instance.
    NoProperties,
    /// A field written on something that is no instance.
    NoFields,
    /// A superclass expression whose value is no class.
    SuperclassNotClass,
    /// The host reported the failure of a native function.
    Native,
}

/// A runtime error: what went wrong, and the text, line and column of the
/// token at which it did. For [`Fault::Native`] the text is the host's message.
#[derive(Debug, PartialEq)]
pub struct RuntimeError {
    pub kind: Fault,
    pub lexeme: String,
    pub line: usize,
    pub column: usize,
}

impl Clone for RuntimeError {
    fn clone(&self) -> (r: Self)
        ensures
            r == *self,
    {
        RuntimeError {
            kind: self.kind,
            lexeme: self.lexeme.clone(),
            line: self.line,
            column: self.column,
        }
    }
}

impl RuntimeError {
    /// The error `kind` at `token`.
    pub fn new(kind: Fault, token: &Token) -> (e: RuntimeError)
        ensures
            e == (RuntimeError {
                kind,
                lexeme: token.lexeme,
                line: token.line,
                column: token.column,
            }),
    {
        RuntimeError { kind, lexeme: token.lexeme.clone(), line: token.line, column: token.column }
    }

    /// The text of the error.
    pub open spec fn text(&self) -> Seq<char> {
        let at = position_text(self.line, self.column);
        match self.kind {
            Fault::UndefinedVariable => "Undefined variable '"@ + self.lexeme@ + "'."@,
            Fault::UndefinedVariableAt(distance) => "Undefined variable '"@ + self.lexeme@
                + "' at distance "@ + decimal(distance as nat) + "."@,
            Fault::UndefinedProperty => at + "Undefined property '"@ + self.lexeme@ + "'."@,
            Fault::OperandNotNumber => at + "Operand must be a number."@,
            Fault::OperandsNotNumbers => at + "Operands must be numbers."@,
            Fault::OperandsNotAddable => at + "Operands must be two numbers or two strings."@,
            Fault::NotCallable => at + "Can only call functions and classes."@,
            Fault::WrongArity(expected, given) => at + "Expected "@ + decimal(expected as nat)
                + " arguments but got "@ + decimal(given as nat) + "."@,
            Fault::NoProperties => at + "Only instances have properties."@,
            Fault::NoFields => at + "Only instances have fields."@,
            Fault::SuperclassNotClass => at + "Superclass must be a class."@,
            Fault::Native => self.lexeme@,
        }
    }

    /// Writes [`RuntimeError::text`].
    pub fn message(&self) -> (s: String)
        ensures
            s@ == self.text(),
    {
        let mut s = position(self.line, self.column);
        match self.kind {
            Fault::UndefinedVariable => {
                s = String::from_str("Undefined variable '");
                s.append(self.lexeme.as_str());
                s.append("'.");
            },
            Fault::UndefinedVariableAt(distance) => {
                s = String::from_str("Undefined variable '");
                s.append(self.lexeme.as_str());
                s.append("' at distance ");
                s.append(number_text(distance).as_str());
                s.append(".");
            },
            Fault::UndefinedProperty => {
                s.append("Undefined property '");
                s.append(self.lexeme.as_str());
                s.append("'.");
            },
            Fault::OperandNotNumber => {
                s.append("Operand must be a number.");
            },
            Fault::OperandsNotNumbers => {
                s.append("Operands must be numbers.");
            },
            Fault::OperandsNotAddable => {
                s.append("Operands must be two numbers or two strings.");
            },
            Fault::NotCallable => {
                s.append("Can only call functions and classes.");
            },
            Fault::WrongArity(expected, given) => {
                s.append("Expected ");
                s.append(number_text(expected).as_str());
                s.append(" arguments but got ");
                s.append(number_text(given).as_str());
                s.append(".");
            },
            Fault::NoProperties => {
                s.append("Only instances have properties.");
            },
            Fault::NoFields => {
                s.append("Only instances have fields.");
            },
            Fault::SuperclassNotClass => {
                s.append("Superclass must be a class.");
            },
            Fault::Native => {
                s = self.lexeme.clone();
            },
        }
        s
    }
}

} // verus!
