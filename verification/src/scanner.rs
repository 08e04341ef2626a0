use vstd::prelude::*;
use vstd::std_specs::cmp::PartialEqSpecImpl;
use vstd::string::*;
use vstd::utf8::encode_utf8;
use itertools::structs::PeekNth;
use std::str::Chars;
use crate::lookahead::{
    characters, peek, peek_at, pending, run, skip_through, take, take_if_eq, take_while_ref,
};
use crate::lox_callable::LoxCallable;
use crate::text::{
    alphabetic, digit_char, is_alphabetic, is_digit, same_text, string_of, CharClass,
};

verus! {

/// The kind of a token.
#[derive(Debug, Copy, Clone, PartialEq, Eq, Structural)]
pub enum TokenType {
    // Single-character tokens.
    LeftParen,
    RightParen,
    LeftBrace,
    RightBrace,
    Comma,
    Dot,
    Minus,
    Plus,
    Semicolon,
    Slash,
    Star,
    // One or two character tokens.
    Bang,
    BangEqual,
    Equal,
    EqualEqual,
    Greater,
    GreaterEqual,
    Less,
    LessEqual,
    // Literals.
    Identifier,
    String,
    Number,
    // Keywords.
    And,
    Class,
    Else,
    False,
    Fun,
    For,
    If,
    Nil,
    Or,
    Print,
    Return,
    Super,
    This,
    True,
    Var,
    While,
    Eof,
}

/// True when `bits`, read as an IEEE-754 double, is a NaN.
pub open spec fn is_nan(bits: u64) -> bool {
    (bits & 0x7ff0_0000_0000_0000u64) == 0x7ff0_0000_0000_0000u64 && (bits
        & 0x000f_ffff_ffff_ffffu64) != 0
}

/// True when `bits`, read as an IEEE-754 double, is positive or negative zero.
pub open spec fn is_zero(bits: u64) -> bool {
    (bits & 0x7fff_ffff_ffff_ffffu64) == 0
}

/// Equality of two doubles given by their bits: a NaN equals nothing, the two
/// zeros equal each other, and any other two doubles are equal when their bits are.
pub open spec fn number_equal(a: u64, b: u64) -> bool {
    !is_nan(a) && !is_nan(b) && (a == b || (is_zero(a) && is_zero(b)))
}

/// Decides [`number_equal`].
pub fn numbers_equal(a: u64, b: u64) -> (r: bool)
    ensures
        r == number_equal(a, b),
{
    let a_nan = (a & 0x7ff0_0000_0000_0000u64) == 0x7ff0_0000_0000_0000u64 && (a
        & 0x000f_ffff_ffff_ffffu64) != 0;
    let b_nan = (b & 0x7ff0_0000_0000_0000u64) == 0x7ff0_0000_0000_0000u64 && (b
        & 0x000f_ffff_ffff_ffffu64) != 0;
    let a_zero = (a & 0x7fff_ffff_ffff_ffffu64) == 0;
    let b_zero = (b & 0x7fff_ffff_ffff_ffffu64) == 0;
    !a_nan && !b_nan && (a == b || (a_zero && b_zero))
}

/// A value of the language. A number is held as the bits of its IEEE-754 double;
/// callables and instances are held by their identity.
#[derive(Debug, Hash)]
pub enum Literal {
    Double(u64),
    String(String),
    Boolean(bool),
    Callable(LoxCallable),
    LoxInstance(usize),
    Nil,
}

impl Literal {
    /// Value equality: numbers, strings and booleans by value, callables and
    /// instances by identity, `Nil` with `Nil`, and never across variants.
    pub open spec fn equals(&self, other: &Literal) -> bool {
        match (*self, *other) {
            (Literal::Double(a), Literal::Double(b)) => number_equal(a, b),
            (Literal::String(a), Literal::String(b)) => a@ == b@,
            (Literal::Boolean(a), Literal::Boolean(b)) => a == b,
            (Literal::Callable(a), Literal::Callable(b)) => a == b,
            (Literal::LoxInstance(a), Literal::LoxInstance(b)) => a == b,
            (Literal::Nil, Literal::Nil) => true,
            _ => false,
        }
    }
}

impl Clone for Literal {
    fn clone(&self) -> (r: Self)
        ensures
            r == *self,
    {
        match self {
            Literal::Double(bits) => Literal::Double(*bits),
            Literal::String(s) => Literal::String(s.clone()),
            Literal::Boolean(b) => Literal::Boolean(*b),
            Literal::Callable(c) => Literal::Callable(*c),
            Literal::LoxInstance(i) => Literal::LoxInstance(*i),
            Literal::Nil => Literal::Nil,
        }
    }
}

impl PartialEq for Literal {
    fn eq(&self, other: &Self) -> (r: bool) {
        match self {
            Literal::Double(a) => match other {
                Literal::Double(b) => numbers_equal(*a, *b),
                _ => false,
            },
            Literal::String(a) => match other {
                Literal::String(b) => *a == *b,
                _ => false,
            },
            Literal::Boolean(a) => match other {
                Literal::Boolean(b) => *a == *b,
                _ => false,
            },
            Literal::Callable(a) => match other {
                Literal::Callable(b) => *a == *b,
                _ => false,
            },
            Literal::LoxInstance(a) => match other {
                Literal::LoxInstance(b) => *a == *b,
                _ => false,
            },
            Literal::Nil => match other {
                Literal::Nil => true,
                _ => false,
            },
        }
    }
}

impl PartialEqSpecImpl for Literal {
    open spec fn obeys_eq_spec() -> bool {
        true
    }

    open spec fn eq_spec(&self, other: &Self) -> bool {
        self.equals(other)
    }
}

/// A token: its kind, its text, its literal payload and where it stands.
#[derive(Debug, PartialEq)]
pub struct Token {
    pub token: TokenType,
    pub lexeme: String,
    pub literal: Literal,
    pub line: usize,
    pub column: usize,
}

impl Clone for Token {
    fn clone(&self) -> (r: Self)
        ensures
            r == *self,
    {
        Token {
            token: self.token,
            lexeme: self.lexeme.clone(),
            literal: self.literal.clone(),
            line: self.line,
            column: self.column,
        }
    }
}


/// Equality of values: nil equals nil; nil equals no other value, and no other
/// value equals nil; and two instances are equal only where they are the same
/// instance, whatever their fields hold.
pub proof fn lemma_equality(value: Literal, first: usize, second: usize)
    ensures
        Literal::Nil.equals(&Literal::Nil),
        !(value is Nil) ==> !Literal::Nil.equals(&value) && !value.equals(&Literal::Nil),
        first != second ==> !Literal::LoxInstance(first).equals(&Literal::LoxInstance(second)),
        Literal::LoxInstance(first).equals(&Literal::LoxInstance(first)),
{
}


/// A token as the contracts see it.
pub ghost struct Lexeme {
    pub kind: TokenType,
    pub text: Seq<char>,
    pub line: int,
    pub column: int,
}

/// What one step of scanning can put out.
pub ghost enum Scanned {
    /// A token.
    Token(Lexeme),
    /// A string that the text ends in the middle of: the line and column of
    /// the opening quote.
    Unterminated(int, int),
    /// A character that starts no token: its line and column.
    Unexpected(int, int),
}

/// Where scanning stands: the text that is left, the line, and the column of
/// the character last taken.
pub ghost struct Cursor {
    pub rest: Seq<char>,
    pub line: int,
    pub current: int,
}

/// The kind of a word: a keyword's own kind, and `Identifier` for any other.
pub open spec fn word_kind(text: Seq<char>) -> TokenType {
    if text == "and"@ {
        TokenType::And
    } else if text == "class"@ {
        TokenType::Class
    } else if text == "else"@ {
        TokenType::Else
    } else if text == "false"@ {
        TokenType::False
    } else if text == "for"@ {
        TokenType::For
    } else if text == "fun"@ {
        TokenType::Fun
    } else if text == "if"@ {
        TokenType::If
    } else if text == "nil"@ {
        TokenType::Nil
    } else if text == "or"@ {
        TokenType::Or
    } else if text == "print"@ {
        TokenType::Print
    } else if text == "return"@ {
        TokenType::Return
    } else if text == "super"@ {
        TokenType::Super
    } else if text == "this"@ {
        TokenType::This
    } else if text == "true"@ {
        TokenType::True
    } else if text == "var"@ {
        TokenType::Var
    } else if text == "while"@ {
        TokenType::While
    } else {
        TokenType::Identifier
    }
}

/// The token that a character makes by itself, if it makes one.
pub open spec fn single(c: char) -> Option<TokenType> {
    if c == '(' {
        Some(TokenType::LeftParen)
    } else if c == ')' {
        Some(TokenType::RightParen)
    } else if c == '{' {
        Some(TokenType::LeftBrace)
    } else if c == '}' {
        Some(TokenType::RightBrace)
    } else if c == ',' {
        Some(TokenType::Comma)
    } else if c == '.' {
        Some(TokenType::Dot)
    } else if c == '-' {
        Some(TokenType::Minus)
    } else if c == '+' {
        Some(TokenType::Plus)
    } else if c == ';' {
        Some(TokenType::Semicolon)
    } else if c == '*' {
        Some(TokenType::Star)
    } else {
        None
    }
}

/// The tokens that a character makes alone and followed by `=`, if it is one
/// of `!`, `=`, `<`, `>`.
pub open spec fn paired(c: char) -> Option<(TokenType, TokenType)> {
    if c == '!' {
        Some((TokenType::Bang, TokenType::BangEqual))
    } else if c == '=' {
        Some((TokenType::Equal, TokenType::EqualEqual))
    } else if c == '<' {
        Some((TokenType::Less, TokenType::LessEqual))
    } else if c == '>' {
        Some((TokenType::Greater, TokenType::GreaterEqual))
    } else {
        None
    }
}

/// The line and column after the characters of a string's body, from the
/// line and column of its opening quote: a line feed starts a new line at
/// column 0, any other character is one column further.
pub open spec fn walked(body: Seq<char>, line: int, column: int) -> (int, int)
    decreases body.len(),
{
    if body.len() == 0 {
        (line, column)
    } else {
        let before = walked(body.drop_last(), line, column);
        if body.last() == '\n' {
            (before.0 + 1, 0)
        } else {
            (before.0, before.1 + 1)
        }
    }
}

/// One step of scanning a text that has not ended: the first character is
/// taken, and with it as much as belongs to the same token, comment or
/// string; the step puts out a token, an error, or, for blank space and
/// comments, nothing. The column moves on by one for each character taken,
/// but over a word by one for each byte of the word in UTF-8.
pub open spec fn scan_one(c: Cursor) -> (Cursor, Option<Scanned>) {
    let first = c.rest[0];
    let tail = c.rest.drop_first();
    let column = c.current + 1;
    let plain = Cursor { rest: tail, line: c.line, current: column };
    if single(first).is_some() {
        (
            plain,
            Some(
                Scanned::Token(
                    Lexeme {
                        kind: single(first).unwrap(),
                        text: seq![first],
                        line: c.line,
                        column,
                    },
                ),
            ),
        )
    } else if paired(first).is_some() {
        if tail.len() > 0 && tail[0] == '=' {
            (
                Cursor { rest: tail.drop_first(), line: c.line, current: column + 1 },
                Some(
                    Scanned::Token(
                        Lexeme {
                            kind: paired(first).unwrap().1,
                            text: seq![first, '='],
                            line: c.line,
                            column,
                        },
                    ),
                ),
            )
        } else {
            (
                plain,
                Some(
                    Scanned::Token(
                        Lexeme {
                            kind: paired(first).unwrap().0,
                            text: seq![first],
                            line: c.line,
                            column,
                        },
                    ),
                ),
            )
        }
    } else if first == '/' {
        if tail.len() > 0 && tail[0] == '/' {
            let comment = tail.drop_first();
            let length = run(comment, CharClass::Line);
            (
                Cursor {
                    rest: if length < comment.len() {
                        comment.skip(length as int + 1)
                    } else {
                        Seq::empty()
                    },
                    line: c.line + 1,
                    current: 0,
                },
                None,
            )
        } else {
            (
                plain,
                Some(
                    Scanned::Token(
                        Lexeme { kind: TokenType::Slash, text: seq![first], line: c.line, column },
                    ),
                ),
            )
        }
    } else if first == ' ' || first == '\t' || first == '\r' {
        (plain, None)
    } else if first == '\n' {
        (Cursor { rest: tail, line: c.line + 1, current: 0 }, None)
    } else if first == '"' {
        let length = run(tail, CharClass::Quoted);
        let body = tail.take(length as int);
        if length < tail.len() {
            let end = walked(body, c.line, column);
            (
                Cursor { rest: tail.skip(length as int + 1), line: end.0, current: end.1 + 1 },
                Some(
                    Scanned::Token(
                        Lexeme { kind: TokenType::String, text: body, line: c.line, column },
                    ),
                ),
            )
        } else {
            (
                Cursor { rest: Seq::empty(), line: c.line, current: column },
                Some(Scanned::Unterminated(c.line, column)),
            )
        }
    } else if digit_char(first) {
        let whole = run(tail, CharClass::Digit);
        let after = tail.skip(whole as int);
        let length = if after.len() >= 2 && after[0] == '.' && digit_char(after[1]) {
            whole + 1 + run(after.drop_first(), CharClass::Digit)
        } else {
            whole
        };
        (
            Cursor { rest: tail.skip(length as int), line: c.line, current: column + length },
            Some(
                Scanned::Token(
                    Lexeme {
                        kind: TokenType::Number,
                        text: c.rest.take(length as int + 1),
                        line: c.line,
                        column,
                    },
                ),
            ),
        )
    } else if alphabetic(first) || first == '_' {
        let length = run(tail, CharClass::Word);
        (
            Cursor {
                rest: tail.skip(length as int),
                line: c.line,
                current: column + encode_utf8(c.rest.take(length as int + 1)).len() - 1,
            },
            Some(
                Scanned::Token(
                    Lexeme {
                        kind: word_kind(c.rest.take(length as int + 1)),
                        text: c.rest.take(length as int + 1),
                        line: c.line,
                        column,
                    },
                ),
            ),
        )
    } else {
        (plain, Some(Scanned::Unexpected(c.line, column)))
    }
}

/// What scanning the rest of a text puts out, in order: what each step puts
/// out, and at the end of the text the end-of-input token.
pub open spec fn scan_from(c: Cursor) -> Seq<Scanned>
    decreases c.rest.len(),
{
    if c.rest.len() == 0 {
        seq![
            Scanned::Token(
                Lexeme { kind: TokenType::Eof, text: Seq::empty(), line: c.line, column: c.current },
            ),
        ]
    } else {
        let step = scan_one(c);
        let out = match step.1 {
            Some(s) => seq![s],
            None => Seq::empty(),
        };
        if step.0.rest.len() < c.rest.len() {
            out + scan_from(step.0)
        } else {
            out
        }
    }
}

/// Whether what the scanner holds for one step is what the step puts out: a
/// token with that kind, text and place, whose payload is its text where it
/// is a string and nil where it is anything else; or the message of the error.
pub open spec fn shows(held: Result<Token, String>, scanned: Scanned) -> bool {
    match scanned {
        Scanned::Token(lexeme) => {
            &&& held matches Ok(token)
            &&& token.token == lexeme.kind
            &&& token.lexeme@ == lexeme.text
            &&& token.line == lexeme.line
            &&& token.column == lexeme.column
            &&& if lexeme.kind == TokenType::String {
                token.literal matches Literal::String(s) && s@ == lexeme.text
            } else {
                token.literal is Nil
            }
        },
        Scanned::Unterminated(line, column) => {
            &&& held matches Err(message)
            &&& message@ == crate::error::position_text(line as usize, column as usize)
                + "Error: Unterminated string."@
        },
        Scanned::Unexpected(line, column) => {
            &&& held matches Err(message)
            &&& message@ == crate::error::position_text(line as usize, column as usize)
                + "Error: Unexpected character."@
        },
    }
}

/// Whether the scanner holds, item for item, what scanning put out.
pub open spec fn shows_all(held: Seq<Result<Token, String>>, scanned: Seq<Scanned>) -> bool {
    &&& held.len() == scanned.len()
    &&& forall|i: int| 0 <= i < held.len() ==> shows(#[trigger] held[i], scanned[i])
}


/// The scanner as the contracts see it: where it stands, and what it has put
/// out so far.
pub ghost struct ScannerView {
    pub cursor: Cursor,
    pub tokens: Seq<Result<Token, String>>,
}

/// The scanner: it turns a text into tokens, and keeps going after an error.
/// A number token carries its text only: what number the text stands for is
/// for the host to say.
pub struct Scanner<'a> {
    chars: PeekNth<Chars<'a>>,
    tokens: Vec<Result<Token, String>>,
    current: usize,
    line: usize,
}

impl<'a> View for Scanner<'a> {
    type V = ScannerView;

    closed spec fn view(&self) -> ScannerView {
        ScannerView {
            cursor: Cursor {
                rest: pending(self.chars),
                line: self.line as int,
                current: self.current as int,
            },
            tokens: self.tokens@,
        }
    }
}

/// The kind and the text of the token that `c` makes by itself.
fn single_token(c: char) -> (r: Option<(TokenType, &'static str)>)
    ensures
        match r {
            Some((kind, text)) => single(c) == Some(kind) && text@ == seq![c],
            None => single(c).is_none(),
        },
{
    proof {
        reveal_strlit("(");
        reveal_strlit(")");
        reveal_strlit("{");
        reveal_strlit("}");
        reveal_strlit(",");
        reveal_strlit(".");
        reveal_strlit("-");
        reveal_strlit("+");
        reveal_strlit(";");
        reveal_strlit("*");
    }
    let r = if c == '(' {
        Some((TokenType::LeftParen, "("))
    } else if c == ')' {
        Some((TokenType::RightParen, ")"))
    } else if c == '{' {
        Some((TokenType::LeftBrace, "{"))
    } else if c == '}' {
        Some((TokenType::RightBrace, "}"))
    } else if c == ',' {
        Some((TokenType::Comma, ","))
    } else if c == '.' {
        Some((TokenType::Dot, "."))
    } else if c == '-' {
        Some((TokenType::Minus, "-"))
    } else if c == '+' {
        Some((TokenType::Plus, "+"))
    } else if c == ';' {
        Some((TokenType::Semicolon, ";"))
    } else if c == '*' {
        Some((TokenType::Star, "*"))
    } else {
        None
    };
    assert(r matches Some((kind, text)) ==> text@ =~= seq![c]);
    r
}

/// The kinds and texts of the tokens that `c` makes alone and followed by `=`.
fn paired_token(c: char) -> (r: Option<(TokenType, &'static str, TokenType, &'static str)>)
    ensures
        match r {
            Some((alone, text, followed, both)) => paired(c) == Some((alone, followed)) && text@
                == seq![c] && both@ == seq![c, '='],
            None => paired(c).is_none(),
        },
{
    proof {
        reveal_strlit("!");
        reveal_strlit("!=");
        reveal_strlit("=");
        reveal_strlit("==");
        reveal_strlit("<");
        reveal_strlit("<=");
        reveal_strlit(">");
        reveal_strlit(">=");
    }
    let r = if c == '!' {
        Some((TokenType::Bang, "!", TokenType::BangEqual, "!="))
    } else if c == '=' {
        Some((TokenType::Equal, "=", TokenType::EqualEqual, "=="))
    } else if c == '<' {
        Some((TokenType::Less, "<", TokenType::LessEqual, "<="))
    } else if c == '>' {
        Some((TokenType::Greater, ">", TokenType::GreaterEqual, ">="))
    } else {
        None
    };
    assert(r matches Some((alone, text, followed, both)) ==> text@ =~= seq![c] && both@
        =~= seq![c, '=']);
    r
}

/// Decides [`word_kind`].
pub fn keyword(text: &str) -> (kind: TokenType)
    ensures
        kind == word_kind(text@),
{
    if same_text(text, "and") {
        TokenType::And
    } else if same_text(text, "class") {
        TokenType::Class
    } else if same_text(text, "else") {
        TokenType::Else
    } else if same_text(text, "false") {
        TokenType::False
    } else if same_text(text, "for") {
        TokenType::For
    } else if same_text(text, "fun") {
        TokenType::Fun
    } else if same_text(text, "if") {
        TokenType::If
    } else if same_text(text, "nil") {
        TokenType::Nil
    } else if same_text(text, "or") {
        TokenType::Or
    } else if same_text(text, "print") {
        TokenType::Print
    } else if same_text(text, "return") {
        TokenType::Return
    } else if same_text(text, "super") {
        TokenType::Super
    } else if same_text(text, "this") {
        TokenType::This
    } else if same_text(text, "true") {
        TokenType::True
    } else if same_text(text, "var") {
        TokenType::Var
    } else if same_text(text, "while") {
        TokenType::While
    } else {
        TokenType::Identifier
    }
}

impl<'a> Scanner<'a> {
    /// The counters cannot overflow on the text that is left.
    pub open spec fn wf(&self) -> bool {
        &&& self@.cursor.current + 4 * self@.cursor.rest.len() < usize::MAX
        &&& self@.cursor.line + self@.cursor.rest.len() <= usize::MAX
    }

    /// A scanner at the start of `source`: line 1, before the first column.
    pub fn new(source: &'a str) -> (r: Scanner<'a>)
        requires
            4 * source@.len() < usize::MAX - 1,
        ensures
            r.wf(),
            r@ == (ScannerView {
                cursor: Cursor { rest: source@, line: 1, current: 0 },
                tokens: Seq::empty(),
            }),
    {
        Scanner { chars: characters(source), tokens: Vec::new(), current: 0, line: 1 }
    }

    /// The tokens and errors put out so far.
    pub fn tokens(&self) -> (r: &Vec<Result<Token, String>>)
        ensures
            r@ == self@.tokens,
    {
        &self.tokens
    }

    fn munch(&mut self, expected: char) -> (r: bool)
        requires
            old(self).wf(),
        ensures
            final(self).wf(),
            r == (old(self)@.cursor.rest.len() > 0 && old(self)@.cursor.rest[0] == expected),
            final(self)@ == if r {
                ScannerView {
                    cursor: Cursor {
                        rest: old(self)@.cursor.rest.drop_first(),
                        current: old(self)@.cursor.current + 1,
                        ..old(self)@.cursor
                    },
                    ..old(self)@
                }
            } else {
                old(self)@
            },
    {
        let r = take_if_eq(&mut self.chars, expected).is_some();
        if r {
            self.current += 1;
        }
        r
    }

    fn advance(&mut self) -> (r: Option<char>)
        requires
            old(self).wf(),
            old(self)@.cursor.rest.len() > 0,
        ensures
            final(self).wf(),
            r == Some(old(self)@.cursor.rest[0]),
            final(self)@ == (ScannerView {
                cursor: Cursor {
                    rest: old(self)@.cursor.rest.drop_first(),
                    current: old(self)@.cursor.current + 1,
                    ..old(self)@.cursor
                },
                ..old(self)@
            }),
    {
        self.current += 1;
        take(&mut self.chars)
    }

    fn put(&mut self, token: TokenType, lexeme: String, literal: Literal, column: usize)
        ensures
            final(self)@ == (ScannerView {
                tokens: old(self)@.tokens.push(
                    Ok(Token { token, lexeme, literal, line: old(self).line, column }),
                ),
                ..old(self)@
            }),
    {
        self.tokens.push(Ok(Token { token, lexeme, literal, line: self.line, column }));
    }

    fn add_token(&mut self, token: TokenType, lexeme: String)
        ensures
            final(self)@.cursor == old(self)@.cursor,
            final(self)@.tokens.len() == old(self)@.tokens.len() + 1,
            final(self)@.tokens.drop_last() == old(self)@.tokens,
            final(self)@.tokens.last() == Ok::<Token, String>(
                Token {
                    token,
                    lexeme,
                    literal: Literal::Nil,
                    line: old(self)@.cursor.line as usize,
                    column: old(self)@.cursor.current as usize,
                },
            ),
    {
        let column = self.current;
        self.put(token, lexeme, Literal::Nil, column);
        assert(self@.tokens.drop_last() =~= old(self)@.tokens);
    }

    fn add_munched_token(&mut self, token: TokenType, lexeme: String)
        requires
            old(self)@.cursor.current >= 1,
        ensures
            final(self)@.cursor == old(self)@.cursor,
            final(self)@.tokens.len() == old(self)@.tokens.len() + 1,
            final(self)@.tokens.drop_last() == old(self)@.tokens,
            final(self)@.tokens.last() == Ok::<Token, String>(
                Token {
                    token,
                    lexeme,
                    literal: Literal::Nil,
                    line: old(self)@.cursor.line as usize,
                    column: (old(self)@.cursor.current - 1) as usize,
                },
            ),
    {
        let column = self.current - 1;
        self.put(token, lexeme, Literal::Nil, column);
        assert(self@.tokens.drop_last() =~= old(self)@.tokens);
    }

    fn add_numeric_token(&mut self, token: TokenType, lexeme: String)
        ensures
            final(self)@.cursor == old(self)@.cursor,
            final(self)@.tokens.len() == old(self)@.tokens.len() + 1,
            final(self)@.tokens.drop_last() == old(self)@.tokens,
            final(self)@.tokens.last() == Ok::<Token, String>(
                Token {
                    token,
                    lexeme,
                    literal: Literal::Nil,
                    line: old(self)@.cursor.line as usize,
                    column: old(self)@.cursor.current as usize,
                },
            ),
    {
        self.add_token(token, lexeme);
    }

    fn add_string_token(&mut self, token: TokenType, lexeme: &str)
        ensures
            final(self)@.cursor == old(self)@.cursor,
            final(self)@.tokens.len() == old(self)@.tokens.len() + 1,
            final(self)@.tokens.drop_last() == old(self)@.tokens,
            final(self)@.tokens.last() matches Ok(t) && t.token == token && t.lexeme@ == lexeme@
                && t.line == old(self)@.cursor.line && t.column == old(self)@.cursor.current && (
            t.literal matches Literal::String(s) && s@ == lexeme@),
    {
        let column = self.current;
        self.put(
            token,
            String::from_str(lexeme),
            Literal::String(String::from_str(lexeme)),
            column,
        );
        assert(self@.tokens.drop_last() =~= old(self)@.tokens);
    }

    fn add_error(&mut self, message: &str)
        ensures
            final(self)@.cursor == old(self)@.cursor,
            final(self)@.tokens.len() == old(self)@.tokens.len() + 1,
            final(self)@.tokens.drop_last() == old(self)@.tokens,
            final(self)@.tokens.last() matches Err(text) && text@ == crate::error::position_text(
                old(self)@.cursor.line as usize,
                old(self)@.cursor.current as usize,
            ) + message@,
    {
        let mut text = crate::error::position(self.line, self.current);
        text.append(message);
        self.tokens.push(Err(text));
        assert(self@.tokens.drop_last() =~= old(self)@.tokens);
    }
}


/// A text takes at least one byte and at most four for each of its characters
/// in UTF-8.
pub proof fn lemma_utf8_len(text: Seq<char>)
    ensures
        text.len() <= encode_utf8(text).len() <= 4 * text.len(),
    decreases text.len(),
{
    if text.len() > 0 {
        lemma_utf8_len(text.drop_first());
    }
}

/// A run is no longer than the text it is a run of.
pub proof fn lemma_run_bound(text: Seq<char>, class: CharClass)
    ensures
        run(text, class) <= text.len(),
    decreases text.len(),
{
    if text.len() > 0 && class.holds(text[0]) {
        lemma_run_bound(text.drop_first(), class);
    }
}

/// Walking the body of a string moves on by at most one line and one column
/// for each character.
pub proof fn lemma_walked_bound(body: Seq<char>, line: int, column: int)
    requires
        0 <= column,
    ensures
        line <= walked(body, line, column).0 <= line + body.len(),
        0 <= walked(body, line, column).1 <= column + body.len(),
    decreases body.len(),
{
    if body.len() > 0 {
        lemma_walked_bound(body.drop_last(), line, column);
    }
}

/// Every step of scanning takes at least one character.
pub proof fn lemma_scan_one_advances(c: Cursor)
    requires
        c.rest.len() > 0,
    ensures
        scan_one(c).0.rest.len() < c.rest.len(),
{
    let tail = c.rest.drop_first();
    lemma_run_bound(tail, CharClass::Quoted);
    lemma_run_bound(tail, CharClass::Digit);
    lemma_run_bound(tail, CharClass::Word);
    if tail.len() > 0 {
        lemma_run_bound(tail.drop_first(), CharClass::Line);
    }
    let whole = run(tail, CharClass::Digit);
    let after = tail.skip(whole as int);
    if after.len() > 0 {
        lemma_run_bound(after.drop_first(), CharClass::Digit);
    }
}

/// Scanning ends with the end-of-input token: whatever the text, what is put
/// out is not empty, and its last item is the token of kind `Eof`.
pub proof fn lemma_scan_ends_with_eof(c: Cursor)
    ensures
        scan_from(c).len() > 0,
        scan_from(c).last() matches Scanned::Token(lexeme) && lexeme.kind == TokenType::Eof,
    decreases c.rest.len(),
{
    if c.rest.len() > 0 {
        lemma_scan_one_advances(c);
        lemma_scan_ends_with_eof(scan_one(c).0);
    }
}

impl<'a> Scanner<'a> {
    fn scan_string(&mut self)
        requires
            old(self).wf(),
            old(self)@.cursor.current >= 1,
        ensures
            final(self).wf(),
            ({
                let tail = old(self)@.cursor.rest;
                let line = old(self)@.cursor.line;
                let column = old(self)@.cursor.current;
                let length = run(tail, CharClass::Quoted);
                let body = tail.take(length as int);
                if length < tail.len() {
                    let end = walked(body, line, column);
                    &&& final(self)@.cursor == (Cursor {
                        rest: tail.skip(length as int + 1),
                        line: end.0,
                        current: end.1 + 1,
                    })
                    &&& final(self)@.tokens.len() == old(self)@.tokens.len() + 1
                    &&& final(self)@.tokens.drop_last() == old(self)@.tokens
                    &&& shows(
                        final(self)@.tokens.last(),
                        Scanned::Token(
                            Lexeme { kind: TokenType::String, text: body, line, column },
                        ),
                    )
                } else {
                    &&& final(self)@.cursor == (Cursor { rest: Seq::empty(), line, current: column })
                    &&& final(self)@.tokens.len() == old(self)@.tokens.len() + 1
                    &&& final(self)@.tokens.drop_last() == old(self)@.tokens
                    &&& shows(final(self)@.tokens.last(), Scanned::Unterminated(line, column))
                }
            }),
    {
        let ghost tail = self@.cursor.rest;
        let ghost line = self@.cursor.line;
        let ghost column = self@.cursor.current;
        proof {
            lemma_run_bound(tail, CharClass::Quoted);
        }
        let body = take_while_ref(&mut self.chars, CharClass::Quoted);
        if peek(&mut self.chars).is_none() {
            self.add_error("Error: Unterminated string.");
            assert(self@.cursor.rest =~= Seq::empty());
        } else {
            let text = string_of(&body);
            self.add_string_token(TokenType::String, text.as_str());
            let mut lines: usize = 0;
            let mut count: usize = self.current;
            let mut i: usize = 0;
            while i < body.len()
                invariant
                    i <= body.len(),
                    column + body@.len() < usize::MAX,
                    line + body@.len() <= usize::MAX,
                    0 <= column,
                    0 <= line,
                    walked(body@.take(i as int), line, column) == (line + lines, count as int),
                    lines <= i,
                decreases body.len() - i,
            {
                proof {
                    lemma_walked_bound(body@.take(i as int), line, column);
                    assert(body@.take(i + 1).drop_last() =~= body@.take(i as int));
                }
                if body[i] == '\n' {
                    lines += 1;
                    count = 0;
                } else {
                    count += 1;
                }
                i += 1;
            }
            assert(body@.take(i as int) =~= body@);
            proof {
                lemma_walked_bound(body@, line, column);
            }
            self.line += lines;
            self.current = count;
            self.advance();
            assert(self@.cursor.rest =~= tail.skip(run(tail, CharClass::Quoted) as int + 1));
        }
    }

    fn scan_number(&mut self, first: char)
        requires
            old(self).wf(),
            old(self)@.cursor.current >= 1,
            digit_char(first),
        ensures
            final(self).wf(),
            ({
                let tail = old(self)@.cursor.rest;
                let line = old(self)@.cursor.line;
                let column = old(self)@.cursor.current;
                let whole = run(tail, CharClass::Digit);
                let after = tail.skip(whole as int);
                let length = if after.len() >= 2 && after[0] == '.' && digit_char(after[1]) {
                    whole + 1 + run(after.drop_first(), CharClass::Digit)
                } else {
                    whole
                };
                &&& final(self)@.cursor == (Cursor {
                    rest: tail.skip(length as int),
                    line,
                    current: column + length,
                })
                &&& final(self)@.tokens.len() == old(self)@.tokens.len() + 1
                &&& final(self)@.tokens.drop_last() == old(self)@.tokens
                &&& shows(
                    final(self)@.tokens.last(),
                    Scanned::Token(
                        Lexeme {
                            kind: TokenType::Number,
                            text: seq![first] + tail.take(length as int),
                            line,
                            column,
                        },
                    ),
                )
            }),
    {
        let ghost tail = self@.cursor.rest;
        let ghost whole = run(tail, CharClass::Digit);
        let ghost after = tail.skip(whole as int);
        proof {
            lemma_run_bound(tail, CharClass::Digit);
            if after.len() > 0 {
                lemma_run_bound(after.drop_first(), CharClass::Digit);
            }
        }
        let mut digits: Vec<char> = Vec::new();
        digits.push(first);
        let mut more = take_while_ref(&mut self.chars, CharClass::Digit);
        digits.append(&mut more);
        let dot = peek(&mut self.chars);
        let next = peek_at(&mut self.chars, 1);
        let fraction = match dot {
            Some(d) => d == '.' && match next {
                Some(n) => is_digit(n),
                None => false,
            },
            None => false,
        };
        if fraction {
            take(&mut self.chars);
            digits.push('.');
            let mut rest = take_while_ref(&mut self.chars, CharClass::Digit);
            digits.append(&mut rest);
            let ghost length = whole + 1 + run(after.drop_first(), CharClass::Digit);
            assert(digits@ =~= seq![first] + tail.take(length as int));
            assert(pending(self.chars) =~= tail.skip(length as int));
        } else {
            assert(digits@ =~= seq![first] + tail.take(whole as int));
        }
        let count = digits.len() - 1;
        self.add_numeric_token(TokenType::Number, string_of(&digits));
        self.current += count;
    }

    fn scan_word(&mut self, first: char)
        requires
            old(self).wf(),
            old(self)@.cursor.current >= 1,
            old(self)@.cursor.current + 4 * old(self)@.cursor.rest.len() + 3 < usize::MAX,
        ensures
            final(self).wf(),
            ({
                let tail = old(self)@.cursor.rest;
                let line = old(self)@.cursor.line;
                let column = old(self)@.cursor.current;
                let length = run(tail, CharClass::Word);
                let text = seq![first] + tail.take(length as int);
                &&& final(self)@.cursor == (Cursor {
                    rest: tail.skip(length as int),
                    line,
                    current: column + encode_utf8(text).len() - 1,
                })
                &&& final(self)@.tokens.len() == old(self)@.tokens.len() + 1
                &&& final(self)@.tokens.drop_last() == old(self)@.tokens
                &&& shows(
                    final(self)@.tokens.last(),
                    Scanned::Token(Lexeme { kind: word_kind(text), text, line, column }),
                )
            }),
    {
        proof {
            lemma_run_bound(self@.cursor.rest, CharClass::Word);
        }
        let mut word: Vec<char> = Vec::new();
        word.push(first);
        let mut more = take_while_ref(&mut self.chars, CharClass::Word);
        word.append(&mut more);
        let text = string_of(&word);
        proof {
            lemma_utf8_len(text@);
        }
        let count = text.as_str().len() - 1;
        let kind = keyword(text.as_str());
        self.add_token(kind, text);
        self.current += count;
    }

    fn scan_comment(&mut self)
        requires
            old(self).wf(),
            old(self)@.cursor.line + old(self)@.cursor.rest.len() + 2 <= usize::MAX,
        ensures
            final(self).wf(),
            final(self)@.tokens == old(self)@.tokens,
            ({
                let comment = old(self)@.cursor.rest;
                let length = run(comment, CharClass::Line);
                final(self)@.cursor == (Cursor {
                    rest: if length < comment.len() {
                        comment.skip(length as int + 1)
                    } else {
                        Seq::empty()
                    },
                    line: old(self)@.cursor.line + 1,
                    current: 0,
                })
            }),
    {
        proof {
            lemma_run_bound(self@.cursor.rest, CharClass::Line);
        }
        skip_through(&mut self.chars, CharClass::Line);
        self.line += 1;
        self.current = 0;
    }

    fn scan_token(&mut self)
        requires
            old(self).wf(),
            old(self)@.cursor.rest.len() > 0,
        ensures
            final(self).wf(),
            final(self)@.cursor == scan_one(old(self)@.cursor).0,
            final(self)@.cursor.rest.len() < old(self)@.cursor.rest.len(),
            match scan_one(old(self)@.cursor).1 {
                Some(s) => {
                    &&& final(self)@.tokens.len() == old(self)@.tokens.len() + 1
                    &&& final(self)@.tokens.drop_last() == old(self)@.tokens
                    &&& shows(final(self)@.tokens.last(), s)
                },
                None => final(self)@.tokens == old(self)@.tokens,
            },
    {
        let ghost start = self@.cursor;
        proof {
            lemma_scan_one_advances(start);
        }
        let c = match self.advance() {
            Some(c) => c,
            None => {
                return ;
            },
        };
        match single_token(c) {
            Some((kind, text)) => {
                self.add_token(kind, String::from_str(text));
                return ;
            },
            None => {},
        }
        match paired_token(c) {
            Some((alone, text, followed, both)) => {
                if self.munch('=') {
                    self.add_munched_token(followed, String::from_str(both));
                } else {
                    self.add_token(alone, String::from_str(text));
                }
                return ;
            },
            None => {},
        }
        if c == '/' {
            if self.munch('/') {
                self.scan_comment();
            } else {
                proof {
                    reveal_strlit("/");
                }
                self.add_token(TokenType::Slash, String::from_str("/"));
                assert("/"@ =~= seq![c]);
            }
        } else if c == ' ' || c == '\t' || c == '\r' {
        } else if c == '\n' {
            self.line += 1;
            self.current = 0;
        } else if c == '"' {
            self.scan_string();
        } else if is_digit(c) {
            proof {
                let tail = start.rest.drop_first();
                lemma_run_bound(tail, CharClass::Digit);
                let after = tail.skip(run(tail, CharClass::Digit) as int);
                if after.len() > 0 {
                    lemma_run_bound(after.drop_first(), CharClass::Digit);
                }
            }
            self.scan_number(c);
            assert(seq![c] + start.rest.drop_first().take(
                (self@.cursor.current - start.current - 1) as int,
            ) =~= start.rest.take((self@.cursor.current - start.current) as int));
        } else if is_alphabetic(c) || c == '_' {
            proof {
                lemma_run_bound(start.rest.drop_first(), CharClass::Word);
            }
            self.scan_word(c);
            assert(seq![c] + start.rest.drop_first().take(
                run(start.rest.drop_first(), CharClass::Word) as int,
            ) =~= start.rest.take(run(start.rest.drop_first(), CharClass::Word) as int + 1));
        } else {
            self.add_error("Error: Unexpected character.");
        }
    }

    /// Scans the rest of the text, and gives all that was put out: what was
    /// there before, and then, item for item, what [`scan_from`] has.
    pub fn scan_tokens(&mut self) -> (r: &Vec<Result<Token, String>>)
        requires
            old(self).wf(),
        ensures
            final(self).wf(),
            r@ == final(self)@.tokens,
            final(self)@.cursor.rest.len() == 0,
            final(self)@.tokens.len() >= old(self)@.tokens.len(),
            final(self)@.tokens.take(old(self)@.tokens.len() as int) == old(self)@.tokens,
            shows_all(
                final(self)@.tokens.skip(old(self)@.tokens.len() as int),
                scan_from(old(self)@.cursor),
            ),
    {
        let ghost before = self@.tokens;
        let ghost start = self@.cursor;
        let ghost mut done: Seq<Scanned> = Seq::empty();
        assert(self@.tokens.skip(before.len() as int) =~= Seq::empty());
        assert(self@.tokens.take(before.len() as int) =~= before);
        while peek(&mut self.chars).is_some()
            invariant
                self.wf(),
                self@.tokens.len() >= before.len(),
                self@.tokens.take(before.len() as int) == before,
                shows_all(self@.tokens.skip(before.len() as int), done),
                scan_from(start) == done + scan_from(self@.cursor),
            decreases self@.cursor.rest.len(),
        {
            let ghost held = self@.tokens;
            let ghost here = self@.cursor;
            self.scan_token();
            proof {
                let step = scan_one(here);
                let out = match step.1 {
                    Some(s) => seq![s],
                    None => Seq::empty(),
                };
                assert(scan_from(here) == out + scan_from(step.0));
                assert(done + (out + scan_from(step.0)) =~= (done + out) + scan_from(step.0));
                match step.1 {
                    Some(s) => {
                        assert(self@.tokens == held.push(self@.tokens.last()));
                        assert(self@.tokens.skip(before.len() as int) =~= held.skip(
                            before.len() as int,
                        ).push(self@.tokens.last()));
                        assert(self@.tokens.take(before.len() as int) =~= held.take(
                            before.len() as int,
                        ));
                    },
                    None => {},
                }
                done = done + out;
            }
        }
        let ghost held = self@.tokens;
        self.add_token(TokenType::Eof, String::new());
        proof {
            assert(self@.tokens == held.push(self@.tokens.last()));
            assert(self@.tokens.skip(before.len() as int) =~= held.skip(before.len() as int).push(
                self@.tokens.last(),
            ));
            assert(self@.tokens.take(before.len() as int) =~= held.take(before.len() as int));
            assert(scan_from(start) =~= done + scan_from(self@.cursor));
        }
        &self.tokens
    }
}

} // verus!
