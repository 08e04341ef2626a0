//! The grammar of the language, as functions from the state of the parser to
//! what parsing gives.
//!
//! ```text
//! program        → declaration* EOF ;
//! declaration    → classDecl | funDecl | varDecl | statement ;
//! classDecl      → "class" IDENTIFIER ( "<" IDENTIFIER )? "{" function* "}" ;
//! funDecl        → "fun" function ;
//! function       → IDENTIFIER "(" parameters? ")" block ;
//! parameters     → IDENTIFIER ( "," IDENTIFIER )* ;
//! varDecl        → "var" IDENTIFIER ( "=" expression )? ";" ;
//! statement      → exprStmt | forStmt | ifStmt | printStmt | returnStmt
//!                | whileStmt | block ;
//! returnStmt     → "return" expression? ";" ;
//! forStmt        → "for" "(" ( varDecl | exprStmt | ";" )
//!                  expression? ";" expression? ")" statement ;
//! whileStmt      → "while" "(" expression ")" statement ;
//! ifStmt         → "if" "(" expression ")" statement ( "else" statement )? ;
//! block          → "{" declaration* "}" ;
//! exprStmt       → expression ";" ;
//! printStmt      → "print" expression ";" ;
//! expression     → assignment ;
//! assignment     → ( call "." )? IDENTIFIER "=" assignment | logic_or ;
//! logic_or       → logic_and ( "or" logic_and )* ;
//! logic_and      → equality ( "and" equality )* ;
//! equality       → comparison ( ( "!=" | "==" ) comparison )* ;
//! comparison     → term ( ( ">" | ">=" | "<" | "<=" ) term )* ;
//! term           → factor ( ( "-" | "+" ) factor )* ;
//! factor         → unary ( ( "/" | "*" ) unary )* ;
//! unary          → ( "!" | "-" ) unary | call ;
//! call           → primary ( "(" arguments? ")" | "." IDENTIFIER )* ;
//! arguments      → expression ( "," expression )* ;
//! primary        → "true" | "false" | "nil" | "this" | NUMBER | STRING
//!                | IDENTIFIER | "(" expression ")" | "super" "." IDENTIFIER ;
//! ```
use vstd::prelude::*;
use crate::error::error_text;
use crate::expr::ExprView;
use crate::parser::{Parsed, ParserView};
use crate::scanner::{Literal, Token, TokenType};
use crate::stmt::StmtView;
use crate::text::decimal;

verus! {

impl ParserView {
    /// The next token.
    pub open spec fn next(self) -> Token {
        self.upcoming[0]
    }

    /// Whether the next token is of the kind `kind`, and not the end of input.
    pub open spec fn checks(self, kind: TokenType) -> bool {
        self.upcoming.len() > 0 && !self.at_end() && self.next().token == kind
    }

    /// The parser after it has taken the next token.
    pub open spec fn taken(self) -> ParserView {
        ParserView { upcoming: self.upcoming.drop_first(), prev: Some(self.next()), ..self }
    }

    /// The parser after it has numbered a site.
    pub open spec fn numbered(self) -> ParserView {
        ParserView { sites: (self.sites + 1) as usize, ..self }
    }

    /// The parser after it has recorded an error.
    pub open spec fn erred(self, text: Seq<char>) -> ParserView {
        ParserView { errors: self.errors.push(text), ..self }
    }

    /// What an error says of the token taken last.
    pub open spec fn last_valid(self) -> Seq<char> {
        " Last valid lexeme was '"@ + self.prev.unwrap().lexeme@ + "' at [line "@ + decimal(
            self.prev.unwrap().line as nat,
        ) + ":"@ + decimal(self.prev.unwrap().column as nat) + "]."@
    }

    /// Taking a token that must be of the kind `kind`: where the next token is
    /// not, the error names it, says `message`, and names the token taken last.
    pub open spec fn consumes(self, kind: TokenType, message: Seq<char>) -> Parsed<Token> {
        if self.checks(kind) {
            Parsed::ok(self.taken(), self.next())
        } else {
            Parsed::err(self, error_text(self.next(), message + self.last_valid()))
        }
    }
}

/// Whether a statement may start with a token of this kind.
pub open spec fn starts_statement(kind: TokenType) -> bool {
    kind == TokenType::Class || kind == TokenType::Fun || kind == TokenType::Var || kind
        == TokenType::For || kind == TokenType::If || kind == TokenType::While || kind
        == TokenType::Print || kind == TokenType::Return
}

/// Skipping after an error, once a token has been taken: up to the end of
/// input, past a semicolon, or up to a token that may start a statement.
pub open spec fn skipped(p: ParserView) -> ParserView
    decreases p.upcoming.len(),
{
    if p.upcoming.len() == 0 || p.at_end() || p.prev.unwrap().token == TokenType::Semicolon
        || starts_statement(p.next().token) {
        p
    } else {
        skipped(p.taken())
    }
}

/// Skipping after an error: one token is taken in any case.
pub open spec fn synchronized(p: ParserView) -> ParserView {
    skipped(p.taken())
}

/// Whether the next token is an operator of a level of binary expressions:
/// 5 for factors, 6 for terms, 7 for comparisons, 8 for equalities, 9 for
/// `and`, 10 for `or`.
pub open spec fn at_operator(p: ParserView, level: nat) -> bool {
    if level == 5 {
        p.checks(TokenType::Slash) || p.checks(TokenType::Star)
    } else if level == 6 {
        p.checks(TokenType::Minus) || p.checks(TokenType::Plus)
    } else if level == 7 {
        p.checks(TokenType::Greater) || p.checks(TokenType::GreaterEqual) || p.checks(
            TokenType::Less,
        ) || p.checks(TokenType::LessEqual)
    } else if level == 8 {
        p.checks(TokenType::BangEqual) || p.checks(TokenType::EqualEqual)
    } else if level == 9 {
        p.checks(TokenType::And)
    } else {
        p.checks(TokenType::Or)
    }
}

/// The expression that an operator of a level makes of its operands.
pub open spec fn combined(level: nat, left: ExprView, op: Token, right: ExprView) -> ExprView {
    if level >= 9 {
        ExprView::Logical(Box::new(left), op, Box::new(right))
    } else {
        ExprView::Binary(Box::new(left), op, Box::new(right))
    }
}

/// The rest of `super.method`, after `super`, the keyword `keyword`, has been
/// taken and its site numbered `site`.
pub open spec fn super_access(p: ParserView, site: usize, keyword: Token) -> Parsed<ExprView> {
    let dot = p.consumes(TokenType::Dot, "Expect '.' after 'super'."@);
    match dot.result {
        Err(e) => Parsed::err(dot.state, e),
        Ok(_) => {
            let method = dot.state.consumes(
                TokenType::Identifier,
                "Expect superclass method name."@,
            );
            match method.result {
                Err(e) => Parsed::err(method.state, e),
                Ok(name) => Parsed::ok(method.state, ExprView::Super(site, keyword, name)),
            }
        },
    }
}

/// The rest of a parenthesized expression, after its opening parenthesis.
pub open spec fn grouping(p: ParserView) -> Parsed<ExprView>
    decreases p.upcoming.len(), 25nat,
{
    let inner = expression(p);
    match inner.result {
        Err(e) => Parsed::err(inner.state, e),
        Ok(expr) => {
            let close = inner.state.consumes(
                TokenType::RightParen,
                "Expect ')' after expression."@,
            );
            match close.result {
                Err(e) => Parsed::err(close.state, e),
                Ok(_) => Parsed::ok(close.state, ExprView::Grouping(Box::new(expr))),
            }
        },
    }
}

/// `primary`.
pub open spec fn primary(p: ParserView) -> Parsed<ExprView>
    decreases p.upcoming.len(), 1nat,
{
    if p.checks(TokenType::False) {
        Parsed::ok(p.taken(), ExprView::Literal(Literal::Boolean(false)))
    } else if p.checks(TokenType::True) {
        Parsed::ok(p.taken(), ExprView::Literal(Literal::Boolean(true)))
    } else if p.checks(TokenType::Nil) {
        Parsed::ok(p.taken(), ExprView::Literal(Literal::Nil))
    } else if p.checks(TokenType::Number) || p.checks(TokenType::String) {
        Parsed::ok(p.taken(), ExprView::Literal(p.next().literal))
    } else if p.checks(TokenType::Super) {
        super_access(p.taken().numbered(), p.sites, p.next())
    } else if p.checks(TokenType::This) {
        Parsed::ok(p.taken().numbered(), ExprView::This(p.sites, p.next()))
    } else if p.checks(TokenType::Identifier) {
        Parsed::ok(p.taken().numbered(), ExprView::Variable(p.sites, p.next()))
    } else if p.checks(TokenType::LeftParen) {
        grouping(p.taken())
    } else {
        Parsed::err(p, error_text(p.next(), "Expect expression."@))
    }
}

/// `arguments`, from one argument on, after the arguments `sofar`.
pub open spec fn arguments(p: ParserView, sofar: Seq<ExprView>) -> Parsed<Seq<ExprView>>
    decreases p.upcoming.len(), 23nat,
{
    if sofar.len() >= 255 {
        Parsed::err(p, error_text(p.next(), "Can't have more than 255 arguments."@))
    } else {
        let argument = expression(p);
        match argument.result {
            Err(e) => Parsed::err(argument.state, e),
            Ok(expr) => if argument.state.checks(TokenType::Comma)
                && argument.state.upcoming.len() <= p.upcoming.len() {
                arguments(argument.state.taken(), sofar.push(expr))
            } else {
                Parsed::ok(argument.state, sofar.push(expr))
            },
        }
    }
}

/// The rest of a call of `callee`, after its opening parenthesis.
pub open spec fn finish_call(p: ParserView, callee: ExprView) -> Parsed<ExprView>
    decreases p.upcoming.len(), 24nat,
{
    let given = if p.checks(TokenType::RightParen) {
        Parsed::ok(p, Seq::<ExprView>::empty())
    } else {
        arguments(p, Seq::empty())
    };
    match given.result {
        Err(e) => Parsed::err(given.state, e),
        Ok(list) => {
            let paren = given.state.consumes(TokenType::RightParen, "Expect ')' after arguments."@);
            match paren.result {
                Err(e) => Parsed::err(paren.state, e),
                Ok(token) => Parsed::ok(
                    paren.state,
                    ExprView::Call(Box::new(callee), token, list),
                ),
            }
        },
    }
}

/// What follows a primary in a `call`: calls and property reads, applied to `expr`.
pub open spec fn postfix(p: ParserView, expr: ExprView) -> Parsed<ExprView>
    decreases p.upcoming.len(), 2nat,
{
    if p.checks(TokenType::LeftParen) {
        let call = finish_call(p.taken(), expr);
        match call.result {
            Err(e) => Parsed::err(call.state, e),
            Ok(made) => if call.state.upcoming.len() < p.upcoming.len() {
                postfix(call.state, made)
            } else {
                Parsed::ok(call.state, made)
            },
        }
    } else if p.checks(TokenType::Dot) {
        let name = p.taken().consumes(TokenType::Identifier, "Expect property name after '.'."@);
        match name.result {
            Err(e) => Parsed::err(name.state, e),
            Ok(token) => postfix(name.state, ExprView::Get(Box::new(expr), token)),
        }
    } else {
        Parsed::ok(p, expr)
    }
}

/// `call`.
pub open spec fn call_expr(p: ParserView) -> Parsed<ExprView>
    decreases p.upcoming.len(), 3nat,
{
    let first = primary(p);
    match first.result {
        Err(e) => Parsed::err(first.state, e),
        Ok(expr) => if first.state.upcoming.len() < p.upcoming.len() {
            postfix(first.state, expr)
        } else {
            Parsed::ok(first.state, expr)
        },
    }
}

/// `unary`.
pub open spec fn unary(p: ParserView) -> Parsed<ExprView>
    decreases p.upcoming.len(), 4nat,
{
    if p.checks(TokenType::Bang) || p.checks(TokenType::Minus) {
        let right = unary(p.taken());
        match right.result {
            Err(e) => Parsed::err(right.state, e),
            Ok(expr) => Parsed::ok(right.state, ExprView::Unary(p.next(), Box::new(expr))),
        }
    } else {
        call_expr(p)
    }
}

/// What follows the first operand of a level of binary expressions:
/// operators of the level, each with its right operand, applied from the left.
pub open spec fn infix_rest(p: ParserView, left: ExprView, level: nat) -> Parsed<ExprView>
    decreases p.upcoming.len(), 5 + level, 1nat,
{
    if at_operator(p, level) {
        let right = if level > 5 {
            infix(p.taken(), (level - 1) as nat)
        } else {
            unary(p.taken())
        };
        match right.result {
            Err(e) => Parsed::err(right.state, e),
            Ok(expr) => if right.state.upcoming.len() < p.upcoming.len() {
                infix_rest(right.state, combined(level, left, p.next(), expr), level)
            } else {
                Parsed::ok(right.state, combined(level, left, p.next(), expr))
            },
        }
    } else {
        Parsed::ok(p, left)
    }
}

/// A level of binary expressions: `factor`, `term`, `comparison`,
/// `equality`, `logic_and` or `logic_or`.
pub open spec fn infix(p: ParserView, level: nat) -> Parsed<ExprView>
    decreases p.upcoming.len(), 5 + level, 0nat,
{
    let first = if level > 5 {
        infix(p, (level - 1) as nat)
    } else {
        unary(p)
    };
    match first.result {
        Err(e) => Parsed::err(first.state, e),
        Ok(expr) => if first.state.upcoming.len() < p.upcoming.len() {
            infix_rest(first.state, expr, level)
        } else {
            Parsed::ok(first.state, expr)
        },
    }
}

/// `assignment`.
pub open spec fn assignment(p: ParserView) -> Parsed<ExprView>
    decreases p.upcoming.len(), 21nat,
{
    let target = infix(p, 10);
    match target.result {
        Err(e) => Parsed::err(target.state, e),
        Ok(expr) => if target.state.checks(TokenType::Equal)
            && target.state.upcoming.len() <= p.upcoming.len() {
            let value = assignment(target.state.taken());
            match value.result {
                Err(e) => Parsed::err(value.state, e),
                Ok(assigned) => match expr {
                    ExprView::Variable(site, name) => Parsed::ok(
                        value.state,
                        ExprView::Assign(site, name, Box::new(assigned)),
                    ),
                    ExprView::Get(object, name) => Parsed::ok(
                        value.state,
                        ExprView::SetField(object, name, Box::new(assigned)),
                    ),
                    _ => Parsed::err(
                        value.state,
                        error_text(target.state.next(), "Invalid assignment target."@),
                    ),
                },
            }
        } else {
            Parsed::ok(target.state, expr)
        },
    }
}

/// `expression`.
pub open spec fn expression(p: ParserView) -> Parsed<ExprView>
    decreases p.upcoming.len(), 22nat,
{
    assignment(p)
}


/// `exprStmt`.
pub open spec fn expression_statement(p: ParserView) -> Parsed<StmtView>
    decreases p.upcoming.len(), 30nat,
{
    let value = expression(p);
    match value.result {
        Err(e) => Parsed::err(value.state, e),
        Ok(expr) => {
            let end = value.state.consumes(TokenType::Semicolon, "Expect ';' after expression."@);
            match end.result {
                Err(e) => Parsed::err(end.state, e),
                Ok(_) => Parsed::ok(end.state, StmtView::Expression(expr)),
            }
        },
    }
}

/// `printStmt`, after `print`.
pub open spec fn print_statement(p: ParserView) -> Parsed<StmtView>
    decreases p.upcoming.len(), 30nat,
{
    let value = expression(p);
    match value.result {
        Err(e) => Parsed::err(value.state, e),
        Ok(expr) => {
            let end = value.state.consumes(TokenType::Semicolon, "Expect ';' after value."@);
            match end.result {
                Err(e) => Parsed::err(end.state, e),
                Ok(_) => Parsed::ok(end.state, StmtView::Print(expr)),
            }
        },
    }
}

/// `returnStmt`, after `return`, which is the token taken last: without an
/// expression it returns nil.
pub open spec fn return_statement(p: ParserView) -> Parsed<StmtView>
    decreases p.upcoming.len(), 30nat,
{
    let value = if p.checks(TokenType::Semicolon) {
        Parsed::ok(p, ExprView::Literal(Literal::Nil))
    } else {
        expression(p)
    };
    match value.result {
        Err(e) => Parsed::err(value.state, e),
        Ok(expr) => {
            let end = value.state.consumes(
                TokenType::Semicolon,
                "Expect ';' after return value."@,
            );
            match end.result {
                Err(e) => Parsed::err(end.state, e),
                Ok(_) => Parsed::ok(end.state, StmtView::Return(p.prev.unwrap(), expr)),
            }
        },
    }
}

/// A condition between parentheses; `after` names what the opening
/// parenthesis must follow, and `inside` what the closing one must.
pub open spec fn condition(p: ParserView, after: Seq<char>, inside: Seq<char>) -> Parsed<ExprView>
    decreases p.upcoming.len(), 29nat,
{
    let open = p.consumes(TokenType::LeftParen, after);
    match open.result {
        Err(e) => Parsed::err(open.state, e),
        Ok(_) => {
            let cond = expression(open.state);
            match cond.result {
                Err(e) => Parsed::err(cond.state, e),
                Ok(expr) => {
                    let close = cond.state.consumes(TokenType::RightParen, inside);
                    match close.result {
                        Err(e) => Parsed::err(close.state, e),
                        Ok(_) => Parsed::ok(close.state, expr),
                    }
                },
            }
        },
    }
}

/// `whileStmt`, after `while`.
pub open spec fn while_statement(p: ParserView) -> Parsed<StmtView>
    decreases p.upcoming.len(), 31nat,
{
    let cond = condition(p, "Expect '(' after 'while'."@, "Expect ')' after condition."@);
    match cond.result {
        Err(e) => Parsed::err(cond.state, e),
        Ok(expr) => if cond.state.upcoming.len() < p.upcoming.len() {
            let body = statement(cond.state);
            match body.result {
                Err(e) => Parsed::err(body.state, e),
                Ok(stmt) => Parsed::ok(body.state, StmtView::While(expr, Box::new(stmt))),
            }
        } else {
            Parsed::err(cond.state, Seq::empty())
        },
    }
}

/// `ifStmt`, after `if`.
pub open spec fn if_statement(p: ParserView) -> Parsed<StmtView>
    decreases p.upcoming.len(), 31nat,
{
    let cond = condition(p, "Expect '(' after 'if'."@, "Expect ')' after if condition."@);
    match cond.result {
        Err(e) => Parsed::err(cond.state, e),
        Ok(expr) => if cond.state.upcoming.len() < p.upcoming.len() {
            let then_branch = statement(cond.state);
            match then_branch.result {
                Err(e) => Parsed::err(then_branch.state, e),
                Ok(first) => if then_branch.state.checks(TokenType::Else)
                    && then_branch.state.upcoming.len() <= p.upcoming.len() {
                    let else_branch = statement(then_branch.state.taken());
                    match else_branch.result {
                        Err(e) => Parsed::err(else_branch.state, e),
                        Ok(second) => Parsed::ok(
                            else_branch.state,
                            StmtView::If(expr, Box::new(first), Some(Box::new(second))),
                        ),
                    }
                } else {
                    Parsed::ok(then_branch.state, StmtView::If(expr, Box::new(first), None))
                },
            }
        } else {
            Parsed::err(cond.state, Seq::empty())
        },
    }
}

/// The first clause of a `for`: nothing, a variable declaration or an
/// expression statement.
pub open spec fn for_initializer(p: ParserView) -> Parsed<Option<StmtView>>
    decreases p.upcoming.len(), 32nat,
{
    if p.checks(TokenType::Semicolon) {
        Parsed::ok(p.taken(), None)
    } else if p.checks(TokenType::Var) {
        let declared = var_declaration(p.taken());
        match declared.result {
            Err(e) => Parsed::err(declared.state, e),
            Ok(stmt) => Parsed::ok(declared.state, Some(stmt)),
        }
    } else {
        let first = expression_statement(p);
        match first.result {
            Err(e) => Parsed::err(first.state, e),
            Ok(stmt) => Parsed::ok(first.state, Some(stmt)),
        }
    }
}

/// The second clause of a `for`, with its semicolon: without a condition the
/// loop runs while `true`.
pub open spec fn for_condition(p: ParserView) -> Parsed<ExprView>
    decreases p.upcoming.len(), 32nat,
{
    let cond = if p.checks(TokenType::Semicolon) {
        Parsed::ok(p, ExprView::Literal(Literal::Boolean(true)))
    } else {
        expression(p)
    };
    match cond.result {
        Err(e) => Parsed::err(cond.state, e),
        Ok(expr) => {
            let end = cond.state.consumes(
                TokenType::Semicolon,
                "Expect ';' after loop condition."@,
            );
            match end.result {
                Err(e) => Parsed::err(end.state, e),
                Ok(_) => Parsed::ok(end.state, expr),
            }
        },
    }
}

/// The third clause of a `for`, with the closing parenthesis.
pub open spec fn for_increment(p: ParserView) -> Parsed<Option<ExprView>>
    decreases p.upcoming.len(), 32nat,
{
    let increment = if p.checks(TokenType::RightParen) {
        Parsed::ok(p, None::<ExprView>)
    } else {
        let value = expression(p);
        match value.result {
            Err(e) => Parsed::err(value.state, e),
            Ok(expr) => Parsed::ok(value.state, Some(expr)),
        }
    };
    match increment.result {
        Err(e) => Parsed::err(increment.state, e),
        Ok(step) => {
            let close = increment.state.consumes(
                TokenType::RightParen,
                "Expect ')' after for clauses."@,
            );
            match close.result {
                Err(e) => Parsed::err(close.state, e),
                Ok(_) => Parsed::ok(close.state, step),
            }
        },
    }
}

/// What a `for` stands for: its body followed by its increment, in a loop on
/// its condition, after its initializer.
pub open spec fn desugared(
    initializer: Option<StmtView>,
    cond: ExprView,
    increment: Option<ExprView>,
    body: StmtView,
) -> StmtView {
    let stepped = match increment {
        Some(step) => StmtView::Block(seq![body, StmtView::Expression(step)]),
        None => body,
    };
    let looped = StmtView::While(cond, Box::new(stepped));
    match initializer {
        Some(first) => StmtView::Block(seq![first, looped]),
        None => looped,
    }
}

/// `forStmt`, after `for`.
pub open spec fn for_statement(p: ParserView) -> Parsed<StmtView>
    decreases p.upcoming.len(), 33nat,
{
    let open = p.consumes(TokenType::LeftParen, "Expect '(' after 'for'."@);
    match open.result {
        Err(e) => Parsed::err(open.state, e),
        Ok(_) => {
            let initializer = for_initializer(open.state);
            match initializer.result {
                Err(e) => Parsed::err(initializer.state, e),
                Ok(first) => if initializer.state.upcoming.len() < p.upcoming.len() {
                    let cond = for_condition(initializer.state);
                    match cond.result {
                        Err(e) => Parsed::err(cond.state, e),
                        Ok(expr) => if cond.state.upcoming.len() < p.upcoming.len() {
                            let increment = for_increment(cond.state);
                            match increment.result {
                                Err(e) => Parsed::err(increment.state, e),
                                Ok(step) => if increment.state.upcoming.len()
                                    < p.upcoming.len() {
                                    let body = statement(increment.state);
                                    match body.result {
                                        Err(e) => Parsed::err(body.state, e),
                                        Ok(stmt) => Parsed::ok(
                                            body.state,
                                            desugared(first, expr, step, stmt),
                                        ),
                                    }
                                } else {
                                    Parsed::err(increment.state, Seq::empty())
                                },
                            }
                        } else {
                            Parsed::err(cond.state, Seq::empty())
                        },
                    }
                } else {
                    Parsed::err(initializer.state, Seq::empty())
                },
            }
        },
    }
}

/// `statement`.
pub open spec fn statement(p: ParserView) -> Parsed<StmtView>
    decreases p.upcoming.len(), 35nat,
{
    if p.checks(TokenType::For) {
        for_statement(p.taken())
    } else if p.checks(TokenType::If) {
        if_statement(p.taken())
    } else if p.checks(TokenType::Print) {
        print_statement(p.taken())
    } else if p.checks(TokenType::Return) {
        return_statement(p.taken())
    } else if p.checks(TokenType::While) {
        while_statement(p.taken())
    } else if p.checks(TokenType::LeftBrace) {
        let inner = block(p.taken());
        match inner.result {
            Err(e) => Parsed::err(inner.state, e),
            Ok(statements) => Parsed::ok(inner.state, StmtView::Block(statements)),
        }
    } else {
        expression_statement(p)
    }
}

/// `varDecl`, after `var`.
pub open spec fn var_declaration(p: ParserView) -> Parsed<StmtView>
    decreases p.upcoming.len(), 31nat,
{
    let name = p.consumes(TokenType::Identifier, "Expect variable name."@);
    match name.result {
        Err(e) => Parsed::err(name.state, e),
        Ok(token) => {
            let initializer = if name.state.checks(TokenType::Equal) {
                let value = expression(name.state.taken());
                match value.result {
                    Err(e) => Parsed::err(value.state, e),
                    Ok(expr) => Parsed::ok(value.state, Some(expr)),
                }
            } else {
                Parsed::ok(name.state, None::<ExprView>)
            };
            match initializer.result {
                Err(e) => Parsed::err(initializer.state, e),
                Ok(init) => {
                    let end = initializer.state.consumes(
                        TokenType::Semicolon,
                        "Expect ';' after variable declaration."@,
                    );
                    match end.result {
                        Err(e) => Parsed::err(end.state, e),
                        Ok(_) => Parsed::ok(end.state, StmtView::Var(token, init)),
                    }
                },
            }
        },
    }
}

/// `parameters`, from one parameter on, after the parameters `sofar`.
pub open spec fn parameters(p: ParserView, sofar: Seq<Token>) -> Parsed<Seq<Token>>
    decreases p.upcoming.len(),
{
    if sofar.len() >= 255 {
        Parsed::err(p, error_text(p.next(), "Can't have more than 255 parameters."@))
    } else {
        let param = p.consumes(TokenType::Identifier, "Expect parameter name."@);
        match param.result {
            Err(e) => Parsed::err(param.state, e),
            Ok(token) => if param.state.checks(TokenType::Comma) {
                parameters(param.state.taken(), sofar.push(token))
            } else {
                Parsed::ok(param.state, sofar.push(token))
            },
        }
    }
}

/// The name of a function or method and its parameters between parentheses,
/// up to the opening brace of its body; `kind` says in errors which it is.
pub open spec fn signature(p: ParserView, kind: Seq<char>) -> Parsed<(Token, Seq<Token>)> {
    let name = p.consumes(TokenType::Identifier, "Expect "@ + kind + " name."@);
    match name.result {
        Err(e) => Parsed::err(name.state, e),
        Ok(token) => {
            let open = name.state.consumes(
                TokenType::LeftParen,
                "Expect '(' after "@ + kind + " name."@,
            );
            match open.result {
                Err(e) => Parsed::err(open.state, e),
                Ok(_) => {
                    let params = if open.state.checks(TokenType::RightParen) {
                        Parsed::ok(open.state, Seq::<Token>::empty())
                    } else {
                        parameters(open.state, Seq::empty())
                    };
                    match params.result {
                        Err(e) => Parsed::err(params.state, e),
                        Ok(list) => {
                            let close = params.state.consumes(
                                TokenType::RightParen,
                                "Expect ')' after parameters."@,
                            );
                            match close.result {
                                Err(e) => Parsed::err(close.state, e),
                                Ok(_) => {
                                    let brace = close.state.consumes(
                                        TokenType::LeftBrace,
                                        "Expect '{' before "@ + kind + " body."@,
                                    );
                                    match brace.result {
                                        Err(e) => Parsed::err(brace.state, e),
                                        Ok(_) => Parsed::ok(brace.state, (token, list)),
                                    }
                                },
                            }
                        },
                    }
                },
            }
        },
    }
}

/// `function`.
pub open spec fn function(p: ParserView, kind: Seq<char>) -> Parsed<StmtView>
    decreases p.upcoming.len(), 36nat,
{
    let head = signature(p, kind);
    match head.result {
        Err(e) => Parsed::err(head.state, e),
        Ok(named) => if head.state.upcoming.len() < p.upcoming.len() {
            let body = block(head.state);
            match body.result {
                Err(e) => Parsed::err(body.state, e),
                Ok(statements) => Parsed::ok(
                    body.state,
                    StmtView::Function(named.0, named.1, statements),
                ),
            }
        } else {
            Parsed::err(head.state, Seq::empty())
        },
    }
}

/// The methods of a class, after the methods `sofar`, up to its closing brace.
pub open spec fn methods(p: ParserView, sofar: Seq<StmtView>) -> Parsed<Seq<StmtView>>
    decreases p.upcoming.len(), 37nat,
{
    if p.upcoming.len() > 0 && !p.checks(TokenType::RightBrace) && !p.at_end() {
        let method = function(p, "method"@);
        match method.result {
            Err(e) => Parsed::err(method.state, e),
            Ok(stmt) => if method.state.upcoming.len() < p.upcoming.len() {
                methods(method.state, sofar.push(stmt))
            } else {
                Parsed::err(method.state, Seq::empty())
            },
        }
    } else {
        Parsed::ok(p, sofar)
    }
}

/// The name of a class, its superclass if it names one, and the opening brace
/// of its body.
pub open spec fn class_head(p: ParserView) -> Parsed<(Token, Option<ExprView>)> {
    let name = p.consumes(TokenType::Identifier, "Expect class name."@);
    match name.result {
        Err(e) => Parsed::err(name.state, e),
        Ok(token) => {
            let superclass = if name.state.checks(TokenType::Less) {
                let parent = name.state.taken().consumes(
                    TokenType::Identifier,
                    "Expect superclass name."@,
                );
                match parent.result {
                    Err(e) => Parsed::err(parent.state, e),
                    Ok(named) => Parsed::ok(
                        parent.state.numbered(),
                        Some(ExprView::Variable(parent.state.sites, named)),
                    ),
                }
            } else {
                Parsed::ok(name.state, None::<ExprView>)
            };
            match superclass.result {
                Err(e) => Parsed::err(superclass.state, e),
                Ok(parent) => {
                    let brace = superclass.state.consumes(
                        TokenType::LeftBrace,
                        "Expect '{' before class body."@,
                    );
                    match brace.result {
                        Err(e) => Parsed::err(brace.state, e),
                        Ok(_) => Parsed::ok(brace.state, (token, parent)),
                    }
                },
            }
        },
    }
}

/// `classDecl`, after `class`.
pub open spec fn class_declaration(p: ParserView) -> Parsed<StmtView>
    decreases p.upcoming.len(), 38nat,
{
    let head = class_head(p);
    match head.result {
        Err(e) => Parsed::err(head.state, e),
        Ok(named) => if head.state.upcoming.len() < p.upcoming.len() {
            let body = methods(head.state, Seq::empty());
            match body.result {
                Err(e) => Parsed::err(body.state, e),
                Ok(list) => {
                    let close = body.state.consumes(
                        TokenType::RightBrace,
                        "Expect '}' after class body."@,
                    );
                    match close.result {
                        Err(e) => Parsed::err(close.state, e),
                        Ok(_) => Parsed::ok(
                            close.state,
                            StmtView::Class(named.0, named.1, list),
                        ),
                    }
                },
            }
        } else {
            Parsed::err(head.state, Seq::empty())
        },
    }
}

/// `declaration`.
pub open spec fn declaration(p: ParserView) -> Parsed<StmtView>
    decreases p.upcoming.len(), 40nat,
{
    if p.checks(TokenType::Class) {
        class_declaration(p.taken())
    } else if p.checks(TokenType::Fun) {
        function(p.taken(), "function"@)
    } else if p.checks(TokenType::Var) {
        var_declaration(p.taken())
    } else {
        statement(p)
    }
}

/// The parser after a declaration has failed with the error `text`: the
/// error is recorded, and unless the end of input is reached the parser
/// skips to where a statement may start.
pub open spec fn recovered(p: ParserView, text: Seq<char>) -> ParserView {
    if p.erred(text).at_end() {
        p.erred(text)
    } else {
        synchronized(p.erred(text))
    }
}

/// The declarations of a block, after the declarations `sofar`, up to its
/// closing brace: a declaration that fails is left out.
pub open spec fn block_items(p: ParserView, sofar: Seq<StmtView>) -> Parsed<Seq<StmtView>>
    decreases p.upcoming.len(), 45nat,
{
    if p.upcoming.len() > 0 && !p.checks(TokenType::RightBrace) && !p.at_end() {
        let item = declaration(p);
        match item.result {
            Ok(stmt) => if item.state.upcoming.len() < p.upcoming.len() {
                block_items(item.state, sofar.push(stmt))
            } else {
                Parsed::err(item.state, Seq::empty())
            },
            Err(e) => {
                let next = recovered(item.state, e);
                if next.at_end() || next.upcoming.len() >= p.upcoming.len() {
                    block_end(next, sofar)
                } else {
                    block_items(next, sofar)
                }
            },
        }
    } else {
        block_end(p, sofar)
    }
}

/// The closing brace of a block that holds the declarations `sofar`.
pub open spec fn block_end(p: ParserView, sofar: Seq<StmtView>) -> Parsed<Seq<StmtView>> {
    let close = p.consumes(TokenType::RightBrace, "Expect '}' after block."@);
    match close.result {
        Err(e) => Parsed::err(close.state, e),
        Ok(_) => Parsed::ok(close.state, sofar),
    }
}

/// `block`, after its opening brace.
pub open spec fn block(p: ParserView) -> Parsed<Seq<StmtView>>
    decreases p.upcoming.len(), 46nat,
{
    block_items(p, Seq::empty())
}

/// The declarations of a program, after the declarations `sofar`, up to the
/// end of input: a declaration that fails is left out.
pub open spec fn program(p: ParserView, sofar: Seq<StmtView>) -> (ParserView, Seq<StmtView>)
    decreases p.upcoming.len(), 50nat,
{
    if p.upcoming.len() > 0 && !p.at_end() {
        let item = declaration(p);
        match item.result {
            Ok(stmt) => if item.state.upcoming.len() < p.upcoming.len() {
                program(item.state, sofar.push(stmt))
            } else {
                (item.state, sofar)
            },
            Err(e) => {
                let next = recovered(item.state, e);
                if next.at_end() || next.upcoming.len() >= p.upcoming.len() {
                    (next, sofar)
                } else {
                    program(next, sofar)
                }
            },
        }
    } else {
        (p, sofar)
    }
}

} // verus!
