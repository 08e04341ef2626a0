use vstd::prelude::*;
use vstd::string::*;
use itertools::structs::PeekNth;
use std::vec::IntoIter;
use crate::error::{error_message, error_text};
use crate::expr::{expr_view, expr_views, Expr, ExprView};
use crate::grammar::{
    arguments, assignment, block, block_end, block_items, call_expr, class_declaration,
    class_head, condition, declaration, desugared, expression, expression_statement,
    finish_call, for_condition, for_increment, for_initializer, for_statement, function,
    grouping, if_statement, infix, infix_rest, methods, parameters, postfix, primary,
    print_statement, program, recovered, return_statement, signature, skipped, statement,
    super_access, synchronized, unary, var_declaration, while_statement,
};
use crate::lookahead::{next_token, peek_token, stream, upcoming};
use crate::scanner::{Literal, Token, TokenType};
use crate::stmt::{stmt_view, stmt_views, Stmt, StmtView};
use crate::text::{concatenate, join, join_with, number_text, texts};

verus! {

/// The parser as the contracts see it: the tokens it has yet to take, the
/// token it took last, the texts of the errors it has found, and how many
/// sites it has numbered.
#[verifier::ext_equal]
pub ghost struct ParserView {
    pub upcoming: Seq<Token>,
    pub prev: Option<Token>,
    pub errors: Seq<Seq<char>>,
    pub sites: usize,
}

/// What parsing a piece of the grammar gives: the parser afterwards, and the
/// piece or the text of the error.
#[verifier::ext_equal]
pub ghost struct Parsed<T> {
    pub state: ParserView,
    pub result: Result<T, Seq<char>>,
}

impl<T> Parsed<T> {
    /// The piece `value`, with the parser at `state`.
    pub open spec fn ok(state: ParserView, value: T) -> Parsed<T> {
        Parsed { state, result: Ok(value) }
    }

    /// The error `text`, with the parser at `state`.
    pub open spec fn err(state: ParserView, text: Seq<char>) -> Parsed<T> {
        Parsed { state, result: Err(text) }
    }
}

impl ParserView {
    /// The tokens end in the end-of-input token, which is never taken, and
    /// the site numbers cannot run out.
    pub open spec fn wf(self) -> bool {
        &&& self.upcoming.len() > 0
        &&& self.upcoming.last().token == TokenType::Eof
        &&& self.sites + self.upcoming.len() <= usize::MAX
    }

    /// Whether the next token is the end of input.
    pub open spec fn at_end(self) -> bool {
        self.upcoming[0].token == TokenType::Eof
    }

    /// `later` is this parser after it has gone on: no token has come back,
    /// a token once taken stays taken, and the site numbers have not gone back.
    pub open spec fn advanced(self, later: ParserView) -> bool {
        &&& later.wf()
        &&& later.upcoming.len() <= self.upcoming.len()
        &&& self.prev.is_some() ==> later.prev.is_some()
        &&& self.sites <= later.sites
        &&& later.sites + later.upcoming.len() <= self.sites + self.upcoming.len()
    }

    /// `later` is this parser after it has taken at least one token.
    pub open spec fn consumed(self, later: ParserView) -> bool {
        &&& self.advanced(later)
        &&& later.upcoming.len() < self.upcoming.len()
        &&& later.prev.is_some()
    }
}

/// The parser: recursive descent over the tokens of a program. Each of its
/// functions parses one piece of the grammar, and gives what the function of
/// that name in [`crate::grammar`] has for the parser as it was.
pub struct Parser {
    tokens: PeekNth<IntoIter<Token>>,
    prev: Option<Token>,
    errors: Vec<String>,
    sites: usize,
}

impl View for Parser {
    type V = ParserView;

    closed spec fn view(&self) -> ParserView {
        ParserView {
            upcoming: upcoming(self.tokens),
            prev: self.prev,
            errors: texts(self.errors@),
            sites: self.sites,
        }
    }
}

/// Whether `held` is the expression, or the error, that parsing gave.
pub open spec fn expr_is(held: Result<Expr, String>, given: Result<ExprView, Seq<char>>) -> bool {
    match given {
        Ok(view) => held matches Ok(expr) && expr@ == view,
        Err(text) => held matches Err(message) && message@ == text,
    }
}

/// Whether `held` is the list of expressions, or the error, that parsing gave.
pub open spec fn exprs_are(held: Result<Vec<Expr>, String>, given: Result<Seq<ExprView>, Seq<char>>)
    -> bool {
    match given {
        Ok(views) => held matches Ok(exprs) && expr_views(exprs@, exprs@.len()) == views,
        Err(text) => held matches Err(message) && message@ == text,
    }
}

/// Whether `held` is the statement, or the error, that parsing gave.
pub open spec fn stmt_is(held: Result<Stmt, String>, given: Result<StmtView, Seq<char>>) -> bool {
    match given {
        Ok(view) => held matches Ok(stmt) && stmt@ == view,
        Err(text) => held matches Err(message) && message@ == text,
    }
}

/// Whether `held` is the list of statements, or the error, that parsing gave.
pub open spec fn stmts_are(held: Result<Vec<Stmt>, String>, given: Result<Seq<StmtView>, Seq<char>>)
    -> bool {
    match given {
        Ok(views) => held matches Ok(stmts) && stmt_views(stmts@, stmts@.len()) == views,
        Err(text) => held matches Err(message) && message@ == text,
    }
}

/// The views of the first statements of a list depend on those statements only.
pub proof fn lemma_stmt_views_prefix(first: Seq<Stmt>, second: Seq<Stmt>, count: nat)
    requires
        count <= first.len(),
        count <= second.len(),
        forall|i: int| 0 <= i < count ==> first[i] == second[i],
    ensures
        stmt_views(first, count) == stmt_views(second, count),
    decreases count,
{
    if count > 0 {
        lemma_stmt_views_prefix(first, second, (count - 1) as nat);
    }
}

/// The views of a list with one more statement are the views of the list
/// with the view of the statement.
pub proof fn lemma_stmt_views_push(stmts: Seq<Stmt>, stmt: Stmt)
    ensures
        stmt_views(stmts.push(stmt), stmts.len() + 1) == stmt_views(stmts, stmts.len()).push(
            stmt@,
        ),
{
    lemma_stmt_views_prefix(stmts, stmts.push(stmt), stmts.len());
}

/// The views of a list of two statements.
pub proof fn lemma_stmt_views_pair(first: Stmt, second: Stmt)
    ensures
        stmt_views(seq![first, second], 2) == seq![first@, second@],
{
    let list = seq![first, second];
    assert(stmt_views(list, 0) =~= Seq::empty());
    assert(stmt_views(list, 1) =~= seq![first@]);
    assert(stmt_views(list, 2) =~= seq![first@, second@]);
}

/// Whether `held` is the token, or the error, that taking a token gave.
pub open spec fn token_is(held: Result<Token, String>, given: Result<Token, Seq<char>>) -> bool {
    match given {
        Ok(token) => held == Ok::<Token, String>(token),
        Err(text) => held matches Err(message) && message@ == text,
    }
}

/// The views of a list with one more expression are the views of the list
/// with the view of the expression.
pub proof fn lemma_expr_views_push(exprs: Seq<Expr>, expr: Expr)
    ensures
        expr_views(exprs.push(expr), exprs.len() + 1) == expr_views(exprs, exprs.len()).push(
            expr@,
        ),
{
    lemma_expr_views_prefix(exprs, exprs.push(expr), exprs.len());
}

/// There are as many views as expressions.
pub proof fn lemma_expr_views_len(exprs: Seq<Expr>, count: nat)
    requires
        count <= exprs.len(),
    ensures
        expr_views(exprs, count).len() == count,
    decreases count,
{
    if count > 0 {
        lemma_expr_views_len(exprs, (count - 1) as nat);
    }
}

/// The views of the first expressions of a list depend on those expressions only.
pub proof fn lemma_expr_views_prefix(first: Seq<Expr>, second: Seq<Expr>, count: nat)
    requires
        count <= first.len(),
        count <= second.len(),
        forall|i: int| 0 <= i < count ==> first[i] == second[i],
    ensures
        expr_views(first, count) == expr_views(second, count),
    decreases count,
{
    if count > 0 {
        lemma_expr_views_prefix(first, second, (count - 1) as nat);
    }
}

/// A token that stands for no text: the end of input at line 0, column 0,
/// with no lexeme and no payload.
fn blank() -> (r: Token)
    ensures
        r.token == TokenType::Eof,
        r.lexeme@ == Seq::<char>::empty(),
        r.literal == Literal::Nil,
        r.line == 0,
        r.column == 0,
{
    Token {
        token: TokenType::Eof,
        lexeme: String::new(),
        literal: Literal::Nil,
        line: 0,
        column: 0,
    }
}

impl Parser {
    /// See [`ParserView::wf`].
    pub open spec fn wf(&self) -> bool {
        self@.wf()
    }

    /// A parser at the start of `tokens`, which end in the end-of-input token.
    pub fn new(tokens: Vec<Token>) -> (r: Self)
        requires
            tokens@.len() > 0,
            tokens@.last().token == TokenType::Eof,
        ensures
            r.wf(),
            r@ == (ParserView { upcoming: tokens@, prev: None, errors: Seq::empty(), sites: 0 }),
    {
        let count: usize = tokens.len();
        assert(tokens@.len() == count);
        Parser { tokens: stream(tokens), prev: None, errors: Vec::new(), sites: 0 }
    }

    /// The text of a syntax error at `token`.
    pub fn error<T>(token: &Token, message: &str) -> (r: Result<T, String>)
        ensures
            r matches Err(text) && text@ == error_text(*token, message@),
    {
        Err(error_message(token, message))
    }

    fn peek(&mut self) -> (r: Token)
        requires
            old(self).wf(),
        ensures
            final(self)@ == old(self)@,
            r == old(self)@.upcoming[0],
    {
        match peek_token(&mut self.tokens) {
            Some(token) => token,
            None => blank(),
        }
    }

    fn is_at_end(&mut self) -> (r: bool)
        requires
            old(self).wf(),
        ensures
            final(self)@ == old(self)@,
            r == old(self)@.at_end(),
    {
        self.peek().token == TokenType::Eof
    }

    fn check(&mut self, token: TokenType) -> (r: bool)
        requires
            old(self).wf(),
        ensures
            final(self)@ == old(self)@,
            r == old(self)@.checks(token),
    {
        if self.is_at_end() {
            return false;
        }
        self.peek().token == token
    }

    fn previous(&self) -> (r: Token)
        requires
            self@.prev.is_some(),
        ensures
            r == self@.prev.unwrap(),
    {
        match &self.prev {
            Some(token) => token.clone(),
            None => blank(),
        }
    }

    fn advance(&mut self) -> (r: Token)
        requires
            old(self).wf(),
            !old(self)@.at_end() || old(self)@.prev.is_some(),
        ensures
            old(self)@.advanced(final(self)@),
            final(self)@.prev == Some(r),
            final(self)@ == if old(self)@.at_end() {
                old(self)@
            } else {
                ParserView {
                    upcoming: old(self)@.upcoming.drop_first(),
                    prev: Some(old(self)@.upcoming[0]),
                    ..old(self)@
                }
            },
    {
        if !self.is_at_end() {
            self.prev = next_token(&mut self.tokens);
        }
        self.previous()
    }

    fn munch(&mut self, types: &[TokenType]) -> (r: bool)
        requires
            old(self).wf(),
        ensures
            r == exists|i: int| 0 <= i < types@.len() && old(self)@.checks(#[trigger] types@[i]),
            types@.len() == 1 ==> r == old(self)@.checks(types@[0]),
            types@.len() == 2 ==> r == (old(self)@.checks(types@[0]) || old(self)@.checks(
                types@[1],
            )),
            types@.len() == 4 ==> r == (old(self)@.checks(types@[0]) || old(self)@.checks(
                types@[1],
            ) || old(self)@.checks(types@[2]) || old(self)@.checks(types@[3])),
            final(self)@ == if r {
                old(self)@.taken()
            } else {
                old(self)@
            },
            old(self)@.advanced(final(self)@),
            r ==> old(self)@.consumed(final(self)@),
    {
        let mut i: usize = 0;
        while i < types.len()
            invariant
                i <= types.len(),
                self@ == old(self)@,
                self.wf(),
                forall|j: int| 0 <= j < i ==> !old(self)@.checks(#[trigger] types@[j]),
            decreases types.len() - i,
        {
            if self.check(types[i]) {
                self.advance();
                return true;
            }
            i += 1;
        }
        false
    }

    fn fresh_site(&mut self) -> (r: usize)
        requires
            old(self)@.sites < usize::MAX,
        ensures
            r == old(self)@.sites,
            final(self)@ == old(self)@.numbered(),
    {
        let r = self.sites;
        self.sites += 1;
        r
    }

    fn consume(&mut self, types: TokenType, message: &str) -> (r: Result<Token, String>)
        requires
            old(self).wf(),
            old(self)@.prev.is_some(),
        ensures
            final(self)@ == old(self)@.consumes(types, message@).state,
            token_is(r, old(self)@.consumes(types, message@).result),
            old(self)@.advanced(final(self)@),
            r.is_ok() ==> old(self)@.consumed(final(self)@),
    {
        if self.check(types) {
            return Ok(self.advance());
        }
        let prev = self.previous();
        let mut msg = concatenate(message, " Last valid lexeme was '");
        msg.append(prev.lexeme.as_str());
        msg.append("' at [line ");
        msg.append(number_text(prev.line).as_str());
        msg.append(":");
        msg.append(number_text(prev.column).as_str());
        msg.append("].");
        assert(msg@ =~= message@ + old(self)@.last_valid());
        let here = self.peek();
        Parser::error::<Token>(&here, msg.as_str())
    }

    fn synchronize(&mut self)
        requires
            old(self).wf(),
            !old(self)@.at_end(),
        ensures
            final(self)@ == synchronized(old(self)@),
            old(self)@.consumed(final(self)@),
    {
        self.advance();
        while !self.is_at_end()
            invariant
                old(self)@.consumed(self@),
                skipped(self@) == synchronized(old(self)@),
            ensures
                old(self)@.consumed(self@),
                self@ == synchronized(old(self)@),
            decreases self@.upcoming.len(),
        {
            if self.previous().token == TokenType::Semicolon {
                return ;
            }
            let next = self.peek().token;
            if next == TokenType::Class || next == TokenType::Fun || next == TokenType::Var || next
                == TokenType::For || next == TokenType::If || next == TokenType::While || next
                == TokenType::Print || next == TokenType::Return {
                return ;
            }
            self.advance();
        }
    }
}


impl Parser {
    fn super_access(&mut self, site: usize, keyword: Token) -> (r: Result<Expr, String>)
        requires
            old(self).wf(),
            old(self)@.prev.is_some(),
        ensures
            final(self)@ == super_access(old(self)@, site, keyword).state,
            expr_is(r, super_access(old(self)@, site, keyword).result),
            old(self)@.advanced(final(self)@),
            r.is_ok() ==> old(self)@.consumed(final(self)@),
    {
        self.consume(TokenType::Dot, "Expect '.' after 'super'.")?;
        let method: Token = self.consume(TokenType::Identifier, "Expect superclass method name.")?;
        Ok(Expr::Super(site, keyword, method))
    }

    fn grouping(&mut self) -> (r: Result<Expr, String>)
        requires
            old(self).wf(),
            old(self)@.prev.is_some(),
        ensures
            final(self)@ == grouping(old(self)@).state,
            expr_is(r, grouping(old(self)@).result),
            old(self)@.advanced(final(self)@),
            r.is_ok() ==> old(self)@.consumed(final(self)@),
        decreases old(self)@.upcoming.len(), 21nat,
    {
        let expr: Expr = self.expression()?;
        self.consume(TokenType::RightParen, "Expect ')' after expression.")?;
        Ok(Expr::Grouping(Box::new(expr)))
    }

    fn primary(&mut self) -> (r: Result<Expr, String>)
        requires
            old(self).wf(),
        ensures
            final(self)@ == primary(old(self)@).state,
            expr_is(r, primary(old(self)@).result),
            old(self)@.advanced(final(self)@),
            r.is_ok() ==> old(self)@.consumed(final(self)@),
        decreases old(self)@.upcoming.len(), 9nat,
    {
        if self.munch(&[TokenType::False]) {
            return Ok(Expr::Literal(Literal::Boolean(false)));
        }
        if self.munch(&[TokenType::True]) {
            return Ok(Expr::Literal(Literal::Boolean(true)));
        }
        if self.munch(&[TokenType::Nil]) {
            return Ok(Expr::Literal(Literal::Nil));
        }
        if self.munch(&[TokenType::Number, TokenType::String]) {
            let token = self.previous();
            return Ok(Expr::Literal(token.literal));
        }
        if self.munch(&[TokenType::Super]) {
            let keyword: Token = self.previous();
            let site = self.fresh_site();
            return self.super_access(site, keyword);
        }
        if self.munch(&[TokenType::This]) {
            let site = self.fresh_site();
            return Ok(Expr::This(site, self.previous()));
        }
        if self.munch(&[TokenType::Identifier]) {
            let site = self.fresh_site();
            return Ok(Expr::Variable(site, self.previous()));
        }
        if self.munch(&[TokenType::LeftParen]) {
            return self.grouping();
        }
        let here = self.peek();
        Parser::error::<Expr>(&here, "Expect expression.")
    }

    fn arguments(&mut self, sofar: Vec<Expr>) -> (r: Result<Vec<Expr>, String>)
        requires
            old(self).wf(),
            old(self)@.prev.is_some(),
        ensures
            final(self)@ == arguments(old(self)@, expr_views(sofar@, sofar@.len())).state,
            exprs_are(r, arguments(old(self)@, expr_views(sofar@, sofar@.len())).result),
            old(self)@.advanced(final(self)@),
            final(self)@.prev.is_some(),
        decreases old(self)@.upcoming.len(), 21nat,
    {
        let mut list = sofar;
        proof {
            lemma_expr_views_len(list@, list@.len());
        }
        if list.len() >= 255 {
            let at = self.peek();
            return Parser::error::<Vec<Expr>>(&at, "Can't have more than 255 arguments.");
        }
        let argument = self.expression()?;
        proof {
            lemma_expr_views_push(sofar@, argument);
        }
        list.push(argument);
        if self.munch(&[TokenType::Comma]) {
            self.arguments(list)
        } else {
            Ok(list)
        }
    }

    fn finish_call(&mut self, callee: Expr) -> (r: Result<Expr, String>)
        requires
            old(self).wf(),
            old(self)@.prev.is_some(),
        ensures
            final(self)@ == finish_call(old(self)@, callee@).state,
            expr_is(r, finish_call(old(self)@, callee@).result),
            old(self)@.advanced(final(self)@),
            r.is_ok() ==> old(self)@.consumed(final(self)@),
        decreases old(self)@.upcoming.len(), 22nat,
    {
        let list = if self.check(TokenType::RightParen) {
            Vec::new()
        } else {
            self.arguments(Vec::new())?
        };
        let ghost given = if old(self)@.checks(TokenType::RightParen) {
            Parsed::ok(old(self)@, Seq::<ExprView>::empty())
        } else {
            arguments(old(self)@, Seq::empty())
        };
        assert(given == Parsed::ok(self@, expr_views(list@, list@.len())));
        let paren: Token = self.consume(TokenType::RightParen, "Expect ')' after arguments.")?;
        let made = Expr::Call(Box::new(callee), paren, list);
        assert(made@ == ExprView::Call(
            Box::new(callee@),
            paren,
            expr_views(list@, list@.len()),
        ));
        Ok(made)
    }

    fn postfix(&mut self, first: Expr) -> (r: Result<Expr, String>)
        requires
            old(self).wf(),
            old(self)@.prev.is_some(),
        ensures
            final(self)@ == postfix(old(self)@, first@).state,
            expr_is(r, postfix(old(self)@, first@).result),
            old(self)@.advanced(final(self)@),
            final(self)@.prev.is_some(),
        decreases old(self)@.upcoming.len(), 23nat,
    {
        let mut expr = first;
        loop
            invariant
                old(self)@.advanced(self@),
                self@.prev.is_some(),
                postfix(self@, expr@) == postfix(old(self)@, first@),
            ensures
                old(self)@.advanced(self@),
                self@.prev.is_some(),
                postfix(old(self)@, first@) == Parsed::ok(self@, expr@),
            decreases self@.upcoming.len(),
        {
            let ghost here = self@;
            let ghost held = expr@;
            if self.munch(&[TokenType::LeftParen]) {
                expr = self.finish_call(expr)?;
                assert(postfix(here, held) == postfix(self@, expr@));
            } else if self.munch(&[TokenType::Dot]) {
                let name: Token = self.consume(
                    TokenType::Identifier,
                    "Expect property name after '.'.",
                )?;
                expr = Expr::Get(Box::new(expr), name);
                assert(postfix(here, held) == postfix(self@, expr@));
            } else {
                break ;
            }
        }
        Ok(expr)
    }

    fn call_expr(&mut self) -> (r: Result<Expr, String>)
        requires
            old(self).wf(),
        ensures
            final(self)@ == call_expr(old(self)@).state,
            expr_is(r, call_expr(old(self)@).result),
            old(self)@.advanced(final(self)@),
            r.is_ok() ==> old(self)@.consumed(final(self)@),
        decreases old(self)@.upcoming.len(), 11nat,
    {
        let expr: Expr = self.primary()?;
        self.postfix(expr)
    }

    fn unary(&mut self) -> (r: Result<Expr, String>)
        requires
            old(self).wf(),
        ensures
            final(self)@ == unary(old(self)@).state,
            expr_is(r, unary(old(self)@).result),
            old(self)@.advanced(final(self)@),
            r.is_ok() ==> old(self)@.consumed(final(self)@),
        decreases old(self)@.upcoming.len(), 12nat,
    {
        if self.munch(&[TokenType::Bang, TokenType::Minus]) {
            let operator: Token = self.previous();
            let right: Expr = self.unary()?;
            return Ok(Expr::Unary(operator, Box::new(right)));
        }
        self.call_expr()
    }

    fn factor(&mut self) -> (r: Result<Expr, String>)
        requires
            old(self).wf(),
        ensures
            final(self)@ == infix(old(self)@, 5).state,
            expr_is(r, infix(old(self)@, 5).result),
            old(self)@.advanced(final(self)@),
            r.is_ok() ==> old(self)@.consumed(final(self)@),
        decreases old(self)@.upcoming.len(), 13nat,
    {
        let mut expr: Expr = self.unary()?;
        while self.munch(&[TokenType::Slash, TokenType::Star])
            invariant
                old(self)@.consumed(self@),
                infix_rest(self@, expr@, 5) == infix(old(self)@, 5),
            decreases self@.upcoming.len(),
        {
            let operator: Token = self.previous();
            let right: Expr = self.unary()?;
            expr = Expr::Binary(Box::new(expr), operator, Box::new(right));
        }
        Ok(expr)
    }

    fn term(&mut self) -> (r: Result<Expr, String>)
        requires
            old(self).wf(),
        ensures
            final(self)@ == infix(old(self)@, 6).state,
            expr_is(r, infix(old(self)@, 6).result),
            old(self)@.advanced(final(self)@),
            r.is_ok() ==> old(self)@.consumed(final(self)@),
        decreases old(self)@.upcoming.len(), 14nat,
    {
        let mut expr: Expr = self.factor()?;
        while self.munch(&[TokenType::Minus, TokenType::Plus])
            invariant
                old(self)@.consumed(self@),
                infix_rest(self@, expr@, 6) == infix(old(self)@, 6),
            decreases self@.upcoming.len(),
        {
            let operator: Token = self.previous();
            let right: Expr = self.factor()?;
            expr = Expr::Binary(Box::new(expr), operator, Box::new(right));
        }
        Ok(expr)
    }

    fn comparison(&mut self) -> (r: Result<Expr, String>)
        requires
            old(self).wf(),
        ensures
            final(self)@ == infix(old(self)@, 7).state,
            expr_is(r, infix(old(self)@, 7).result),
            old(self)@.advanced(final(self)@),
            r.is_ok() ==> old(self)@.consumed(final(self)@),
        decreases old(self)@.upcoming.len(), 15nat,
    {
        let mut expr: Expr = self.term()?;
        while self.munch(&[TokenType::Greater, TokenType::GreaterEqual, TokenType::Less, TokenType::LessEqual])
            invariant
                old(self)@.consumed(self@),
                infix_rest(self@, expr@, 7) == infix(old(self)@, 7),
            decreases self@.upcoming.len(),
        {
            let operator: Token = self.previous();
            let right: Expr = self.term()?;
            expr = Expr::Binary(Box::new(expr), operator, Box::new(right));
        }
        Ok(expr)
    }

    fn equality(&mut self) -> (r: Result<Expr, String>)
        requires
            old(self).wf(),
        ensures
            final(self)@ == infix(old(self)@, 8).state,
            expr_is(r, infix(old(self)@, 8).result),
            old(self)@.advanced(final(self)@),
            r.is_ok() ==> old(self)@.consumed(final(self)@),
        decreases old(self)@.upcoming.len(), 16nat,
    {
        let mut expr: Expr = self.comparison()?;
        while self.munch(&[TokenType::BangEqual, TokenType::EqualEqual])
            invariant
                old(self)@.consumed(self@),
                infix_rest(self@, expr@, 8) == infix(old(self)@, 8),
            decreases self@.upcoming.len(),
        {
            let operator: Token = self.previous();
            let right: Expr = self.comparison()?;
            expr = Expr::Binary(Box::new(expr), operator, Box::new(right));
        }
        Ok(expr)
    }

    fn and(&mut self) -> (r: Result<Expr, String>)
        requires
            old(self).wf(),
        ensures
            final(self)@ == infix(old(self)@, 9).state,
            expr_is(r, infix(old(self)@, 9).result),
            old(self)@.advanced(final(self)@),
            r.is_ok() ==> old(self)@.consumed(final(self)@),
        decreases old(self)@.upcoming.len(), 17nat,
    {
        let mut expr: Expr = self.equality()?;
        while self.munch(&[TokenType::And])
            invariant
                old(self)@.consumed(self@),
                infix_rest(self@, expr@, 9) == infix(old(self)@, 9),
            decreases self@.upcoming.len(),
        {
            let operator: Token = self.previous();
            let right: Expr = self.equality()?;
            expr = Expr::Logical(Box::new(expr), operator, Box::new(right));
        }
        Ok(expr)
    }

    fn or(&mut self) -> (r: Result<Expr, String>)
        requires
            old(self).wf(),
        ensures
            final(self)@ == infix(old(self)@, 10).state,
            expr_is(r, infix(old(self)@, 10).result),
            old(self)@.advanced(final(self)@),
            r.is_ok() ==> old(self)@.consumed(final(self)@),
        decreases old(self)@.upcoming.len(), 18nat,
    {
        let mut expr: Expr = self.and()?;
        while self.munch(&[TokenType::Or])
            invariant
                old(self)@.consumed(self@),
                infix_rest(self@, expr@, 10) == infix(old(self)@, 10),
            decreases self@.upcoming.len(),
        {
            let operator: Token = self.previous();
            let right: Expr = self.and()?;
            expr = Expr::Logical(Box::new(expr), operator, Box::new(right));
        }
        Ok(expr)
    }

    fn assignment(&mut self) -> (r: Result<Expr, String>)
        requires
            old(self).wf(),
        ensures
            final(self)@ == assignment(old(self)@).state,
            expr_is(r, assignment(old(self)@).result),
            old(self)@.advanced(final(self)@),
            r.is_ok() ==> old(self)@.consumed(final(self)@),
        decreases old(self)@.upcoming.len(), 19nat,
    {
        let expr = self.or()?;
        if self.munch(&[TokenType::Equal]) {
            let equals = self.previous();
            let value = self.assignment()?;
            assert(expr@ == expr_view(expr));
            return match expr {
                Expr::Variable(site, name) => Ok(Expr::Assign(site, name, Box::new(value))),
                Expr::Get(object, name) => Ok(Expr::SetField(object, name, Box::new(value))),
                _ => Parser::error::<Expr>(&equals, "Invalid assignment target."),
            };
        }
        Ok(expr)
    }

    fn expression(&mut self) -> (r: Result<Expr, String>)
        requires
            old(self).wf(),
        ensures
            final(self)@ == expression(old(self)@).state,
            expr_is(r, expression(old(self)@).result),
            old(self)@.advanced(final(self)@),
            r.is_ok() ==> old(self)@.consumed(final(self)@),
        decreases old(self)@.upcoming.len(), 20nat,
    {
        self.assignment()
    }

    /// Parses one expression from the tokens.
    pub fn parse_expr(&mut self) -> (r: Result<Expr, String>)
        requires
            old(self).wf(),
        ensures
            final(self)@ == expression(old(self)@).state,
            expr_is(r, expression(old(self)@).result),
            final(self).wf(),
    {
        self.expression()
    }
}


impl Parser {
    fn expression_statement(&mut self) -> (r: Result<Stmt, String>)
        requires
            old(self).wf(),
        ensures
            final(self)@ == expression_statement(old(self)@).state,
            stmt_is(r, expression_statement(old(self)@).result),
            old(self)@.advanced(final(self)@),
            r.is_ok() ==> old(self)@.consumed(final(self)@),
        decreases old(self)@.upcoming.len(), 24nat,
    {
        let expr = self.expression()?;
        self.consume(TokenType::Semicolon, "Expect ';' after expression.")?;
        Ok(Stmt::Expression(expr))
    }

    fn print_statement(&mut self) -> (r: Result<Stmt, String>)
        requires
            old(self).wf(),
        ensures
            final(self)@ == print_statement(old(self)@).state,
            stmt_is(r, print_statement(old(self)@).result),
            old(self)@.advanced(final(self)@),
            r.is_ok() ==> old(self)@.consumed(final(self)@),
        decreases old(self)@.upcoming.len(), 24nat,
    {
        let value = self.expression()?;
        self.consume(TokenType::Semicolon, "Expect ';' after value.")?;
        Ok(Stmt::Print(value))
    }

    fn return_statement(&mut self) -> (r: Result<Stmt, String>)
        requires
            old(self).wf(),
            old(self)@.prev.is_some(),
        ensures
            final(self)@ == return_statement(old(self)@).state,
            stmt_is(r, return_statement(old(self)@).result),
            old(self)@.advanced(final(self)@),
            r.is_ok() ==> old(self)@.consumed(final(self)@),
        decreases old(self)@.upcoming.len(), 24nat,
    {
        let keyword = self.previous();
        let mut value = Expr::Literal(Literal::Nil);
        if !self.check(TokenType::Semicolon) {
            value = self.expression()?;
        }
        self.consume(TokenType::Semicolon, "Expect ';' after return value.")?;
        Ok(Stmt::Return(keyword, value))
    }

    fn condition(&mut self, after: &str, inside: &str) -> (r: Result<Expr, String>)
        requires
            old(self).wf(),
            old(self)@.prev.is_some(),
        ensures
            final(self)@ == condition(old(self)@, after@, inside@).state,
            expr_is(r, condition(old(self)@, after@, inside@).result),
            old(self)@.advanced(final(self)@),
            r.is_ok() ==> old(self)@.consumed(final(self)@),
        decreases old(self)@.upcoming.len(), 24nat,
    {
        self.consume(TokenType::LeftParen, after)?;
        let cond = self.expression()?;
        self.consume(TokenType::RightParen, inside)?;
        Ok(cond)
    }

    fn while_statement(&mut self) -> (r: Result<Stmt, String>)
        requires
            old(self).wf(),
            old(self)@.prev.is_some(),
        ensures
            final(self)@ == while_statement(old(self)@).state,
            stmt_is(r, while_statement(old(self)@).result),
            old(self)@.advanced(final(self)@),
            r.is_ok() ==> old(self)@.consumed(final(self)@),
        decreases old(self)@.upcoming.len(), 31nat,
    {
        let cond = self.condition("Expect '(' after 'while'.", "Expect ')' after condition.")?;
        let body = self.statement()?;
        Ok(Stmt::While(cond, Box::new(body)))
    }

    fn if_statement(&mut self) -> (r: Result<Stmt, String>)
        requires
            old(self).wf(),
            old(self)@.prev.is_some(),
        ensures
            final(self)@ == if_statement(old(self)@).state,
            stmt_is(r, if_statement(old(self)@).result),
            old(self)@.advanced(final(self)@),
            r.is_ok() ==> old(self)@.consumed(final(self)@),
        decreases old(self)@.upcoming.len(), 31nat,
    {
        let cond = self.condition("Expect '(' after 'if'.", "Expect ')' after if condition.")?;
        let then_branch = Box::new(self.statement()?);
        let else_branch: Option<Box<Stmt>> = if self.munch(&[TokenType::Else]) {
            Some(Box::new(self.statement()?))
        } else {
            None
        };
        Ok(Stmt::If(cond, then_branch, else_branch))
    }

    fn for_initializer(&mut self) -> (r: Result<Option<Stmt>, String>)
        requires
            old(self).wf(),
            old(self)@.prev.is_some(),
        ensures
            final(self)@ == for_initializer(old(self)@).state,
            match for_initializer(old(self)@).result {
                Ok(view) => r matches Ok(held) && match view {
                    Some(stmt) => held matches Some(first) && first@ == stmt,
                    None => held.is_none(),
                },
                Err(text) => r matches Err(message) && message@ == text,
            },
            old(self)@.advanced(final(self)@),
            r.is_ok() ==> old(self)@.consumed(final(self)@),
        decreases old(self)@.upcoming.len(), 30nat,
    {
        if self.munch(&[TokenType::Semicolon]) {
            Ok(None)
        } else if self.munch(&[TokenType::Var]) {
            Ok(Some(self.var_declaration()?))
        } else {
            Ok(Some(self.expression_statement()?))
        }
    }

    fn for_condition(&mut self) -> (r: Result<Expr, String>)
        requires
            old(self).wf(),
            old(self)@.prev.is_some(),
        ensures
            final(self)@ == for_condition(old(self)@).state,
            expr_is(r, for_condition(old(self)@).result),
            old(self)@.advanced(final(self)@),
            r.is_ok() ==> old(self)@.consumed(final(self)@),
        decreases old(self)@.upcoming.len(), 30nat,
    {
        let cond = if !self.check(TokenType::Semicolon) {
            self.expression()?
        } else {
            Expr::Literal(Literal::Boolean(true))
        };
        self.consume(TokenType::Semicolon, "Expect ';' after loop condition.")?;
        Ok(cond)
    }

    fn for_increment(&mut self) -> (r: Result<Option<Expr>, String>)
        requires
            old(self).wf(),
            old(self)@.prev.is_some(),
        ensures
            final(self)@ == for_increment(old(self)@).state,
            match for_increment(old(self)@).result {
                Ok(view) => r matches Ok(held) && match view {
                    Some(expr) => held matches Some(step) && step@ == expr,
                    None => held.is_none(),
                },
                Err(text) => r matches Err(message) && message@ == text,
            },
            old(self)@.advanced(final(self)@),
            r.is_ok() ==> old(self)@.consumed(final(self)@),
        decreases old(self)@.upcoming.len(), 30nat,
    {
        let increment = if !self.check(TokenType::RightParen) {
            Some(self.expression()?)
        } else {
            None
        };
        self.consume(TokenType::RightParen, "Expect ')' after for clauses.")?;
        Ok(increment)
    }

    /// A `for` loop as a `while` loop: the body followed by the increment, in
    /// a loop on the condition, after the initializer.
    fn desugar(initializer: Option<Stmt>, cond: Expr, increment: Option<Expr>, body: Stmt) -> (r:
        Stmt)
        ensures
            r@ == desugared(
                match initializer {
                    Some(first) => Some(first@),
                    None => None,
                },
                cond@,
                match increment {
                    Some(step) => Some(step@),
                    None => None,
                },
                body@,
            ),
    {
        let ghost body_view = body@;
        let ghost cond_view = cond@;
        let stepped = match increment {
            Some(inc) => {
                proof {
                    lemma_stmt_views_pair(body, Stmt::Expression(inc));
                }
                let list = vec![body, Stmt::Expression(inc)];
                assert(list@ =~= seq![body, Stmt::Expression(inc)]);
                let block = Stmt::Block(list);
                assert(stmt_view(Stmt::Expression(inc)) == StmtView::Expression(inc@));
                assert(block@ == StmtView::Block(seq![body_view, StmtView::Expression(inc@)]));
                block
            },
            None => body,
        };
        let ghost stepped_view = stepped@;
        let looped = Stmt::While(cond, Box::new(stepped));
        assert(looped@ == StmtView::While(cond_view, Box::new(stepped_view)));
        match initializer {
            Some(init) => {
                proof {
                    lemma_stmt_views_pair(init, looped);
                }
                let list = vec![init, looped];
                assert(list@ =~= seq![init, looped]);
                let block = Stmt::Block(list);
                assert(block@ == StmtView::Block(seq![init@, looped@]));
                block
            },
            None => looped,
        }
    }

    fn for_statement(&mut self) -> (r: Result<Stmt, String>)
        requires
            old(self).wf(),
            old(self)@.prev.is_some(),
        ensures
            final(self)@ == for_statement(old(self)@).state,
            stmt_is(r, for_statement(old(self)@).result),
            old(self)@.advanced(final(self)@),
            r.is_ok() ==> old(self)@.consumed(final(self)@),
        decreases old(self)@.upcoming.len(), 31nat,
    {
        self.consume(TokenType::LeftParen, "Expect '(' after 'for'.")?;
        let initializer = self.for_initializer()?;
        let cond = self.for_condition()?;
        let increment = self.for_increment()?;
        let body = self.statement()?;
        Ok(Self::desugar(initializer, cond, increment, body))
    }

    fn statement(&mut self) -> (r: Result<Stmt, String>)
        requires
            old(self).wf(),
        ensures
            final(self)@ == statement(old(self)@).state,
            stmt_is(r, statement(old(self)@).result),
            old(self)@.advanced(final(self)@),
            r.is_ok() ==> old(self)@.consumed(final(self)@),
        decreases old(self)@.upcoming.len(), 25nat,
    {
        if self.munch(&[TokenType::For]) {
            return self.for_statement();
        }
        if self.munch(&[TokenType::If]) {
            return self.if_statement();
        }
        if self.munch(&[TokenType::Print]) {
            return self.print_statement();
        }
        if self.munch(&[TokenType::Return]) {
            return self.return_statement();
        }
        if self.munch(&[TokenType::While]) {
            return self.while_statement();
        }
        if self.munch(&[TokenType::LeftBrace]) {
            return Ok(Stmt::Block(self.block()?));
        }
        self.expression_statement()
    }

    fn var_declaration(&mut self) -> (r: Result<Stmt, String>)
        requires
            old(self).wf(),
            old(self)@.prev.is_some(),
        ensures
            final(self)@ == var_declaration(old(self)@).state,
            stmt_is(r, var_declaration(old(self)@).result),
            old(self)@.advanced(final(self)@),
            r.is_ok() ==> old(self)@.consumed(final(self)@),
        decreases old(self)@.upcoming.len(), 26nat,
    {
        let name = self.consume(TokenType::Identifier, "Expect variable name.")?;
        let initializer: Option<Expr> = if self.munch(&[TokenType::Equal]) {
            Some(self.expression()?)
        } else {
            None
        };
        self.consume(TokenType::Semicolon, "Expect ';' after variable declaration.")?;
        Ok(Stmt::Var(name, initializer))
    }

    fn parameters(&mut self, sofar: Vec<Token>) -> (r: Result<Vec<Token>, String>)
        requires
            old(self).wf(),
            old(self)@.prev.is_some(),
        ensures
            final(self)@ == parameters(old(self)@, sofar@).state,
            match parameters(old(self)@, sofar@).result {
                Ok(list) => r matches Ok(held) && held@ == list,
                Err(text) => r matches Err(message) && message@ == text,
            },
            old(self)@.advanced(final(self)@),
            final(self)@.prev.is_some(),
        decreases old(self)@.upcoming.len(),
    {
        let mut list = sofar;
        if list.len() >= 255 {
            let here = self.peek();
            return Parser::error::<Vec<Token>>(&here, "Can't have more than 255 parameters.");
        }
        let param = self.consume(TokenType::Identifier, "Expect parameter name.")?;
        list.push(param);
        if self.munch(&[TokenType::Comma]) {
            self.parameters(list)
        } else {
            Ok(list)
        }
    }

    fn signature(&mut self, kind: &str) -> (r: Result<(Token, Vec<Token>), String>)
        requires
            old(self).wf(),
            old(self)@.prev.is_some(),
        ensures
            final(self)@ == signature(old(self)@, kind@).state,
            match signature(old(self)@, kind@).result {
                Ok(named) => r matches Ok(held) && held.0 == named.0 && held.1@ == named.1,
                Err(text) => r matches Err(message) && message@ == text,
            },
            old(self)@.advanced(final(self)@),
            r.is_ok() ==> old(self)@.consumed(final(self)@),
    {
        let mut expect_name = concatenate("Expect ", kind);
        expect_name.append(" name.");
        let name = self.consume(TokenType::Identifier, expect_name.as_str())?;
        let mut expect_paren = concatenate("Expect '(' after ", kind);
        expect_paren.append(" name.");
        self.consume(TokenType::LeftParen, expect_paren.as_str())?;
        let parameters = if self.check(TokenType::RightParen) {
            Vec::new()
        } else {
            self.parameters(Vec::new())?
        };
        self.consume(TokenType::RightParen, "Expect ')' after parameters.")?;
        let mut expect_brace = concatenate("Expect '{' before ", kind);
        expect_brace.append(" body.");
        self.consume(TokenType::LeftBrace, expect_brace.as_str())?;
        Ok((name, parameters))
    }

    fn function(&mut self, kind: &str) -> (r: Result<Stmt, String>)
        requires
            old(self).wf(),
            old(self)@.prev.is_some(),
        ensures
            final(self)@ == function(old(self)@, kind@).state,
            stmt_is(r, function(old(self)@, kind@).result),
            old(self)@.advanced(final(self)@),
            r.is_ok() ==> old(self)@.consumed(final(self)@),
        decreases old(self)@.upcoming.len(), 27nat,
    {
        let (name, parameters) = self.signature(kind)?;
        let body = self.block()?;
        Ok(Stmt::Function(name, parameters, body))
    }

    fn methods(&mut self, sofar: Vec<Stmt>) -> (r: Result<Vec<Stmt>, String>)
        requires
            old(self).wf(),
            old(self)@.prev.is_some(),
        ensures
            final(self)@ == methods(old(self)@, stmt_views(sofar@, sofar@.len())).state,
            stmts_are(r, methods(old(self)@, stmt_views(sofar@, sofar@.len())).result),
            old(self)@.advanced(final(self)@),
            final(self)@.prev.is_some(),
        decreases old(self)@.upcoming.len(), 28nat,
    {
        let mut list = sofar;
        if !self.check(TokenType::RightBrace) && !self.is_at_end() {
            let method = self.function("method")?;
            proof {
                lemma_stmt_views_push(sofar@, method);
            }
            list.push(method);
            self.methods(list)
        } else {
            Ok(list)
        }
    }

    fn class_head(&mut self) -> (r: Result<(Token, Option<Expr>), String>)
        requires
            old(self).wf(),
            old(self)@.prev.is_some(),
        ensures
            final(self)@ == class_head(old(self)@).state,
            match class_head(old(self)@).result {
                Ok(named) => r matches Ok(held) && held.0 == named.0 && match named.1 {
                    Some(parent) => held.1 matches Some(expr) && expr@ == parent,
                    None => held.1.is_none(),
                },
                Err(text) => r matches Err(message) && message@ == text,
            },
            old(self)@.advanced(final(self)@),
            r.is_ok() ==> old(self)@.consumed(final(self)@),
    {
        let name = self.consume(TokenType::Identifier, "Expect class name.")?;
        let superclass = if self.munch(&[TokenType::Less]) {
            self.consume(TokenType::Identifier, "Expect superclass name.")?;
            let site = self.fresh_site();
            Some(Expr::Variable(site, self.previous()))
        } else {
            None
        };
        self.consume(TokenType::LeftBrace, "Expect '{' before class body.")?;
        Ok((name, superclass))
    }

    fn class_declaration(&mut self) -> (r: Result<Stmt, String>)
        requires
            old(self).wf(),
            old(self)@.prev.is_some(),
        ensures
            final(self)@ == class_declaration(old(self)@).state,
            stmt_is(r, class_declaration(old(self)@).result),
            old(self)@.advanced(final(self)@),
            r.is_ok() ==> old(self)@.consumed(final(self)@),
        decreases old(self)@.upcoming.len(), 29nat,
    {
        let (name, superclass) = self.class_head()?;
        let methods = self.methods(Vec::new())?;
        self.consume(TokenType::RightBrace, "Expect '}' after class body.")?;
        Ok(Stmt::Class(name, superclass, methods))
    }

    fn declaration(&mut self) -> (r: Result<Stmt, String>)
        requires
            old(self).wf(),
        ensures
            final(self)@ == declaration(old(self)@).state,
            stmt_is(r, declaration(old(self)@).result),
            old(self)@.advanced(final(self)@),
            r.is_ok() ==> old(self)@.consumed(final(self)@),
        decreases old(self)@.upcoming.len(), 32nat,
    {
        if self.munch(&[TokenType::Class]) {
            return self.class_declaration();
        }
        if self.munch(&[TokenType::Fun]) {
            return self.function("function");
        }
        if self.munch(&[TokenType::Var]) {
            return self.var_declaration();
        }
        self.statement()
    }

    /// Records the error of a declaration that failed, and skips to where a
    /// statement may start.
    fn recover(&mut self, error: String)
        requires
            old(self).wf(),
        ensures
            final(self)@ == recovered(old(self)@, error@),
            old(self)@.advanced(final(self)@),
            !old(self)@.at_end() ==> old(self)@.consumed(final(self)@),
    {
        self.errors.push(error);
        assert(self@ =~= old(self)@.erred(error@));
        if !self.is_at_end() {
            self.synchronize();
        }
    }

    fn block(&mut self) -> (r: Result<Vec<Stmt>, String>)
        requires
            old(self).wf(),
            old(self)@.prev.is_some(),
        ensures
            final(self)@ == block(old(self)@).state,
            stmts_are(r, block(old(self)@).result),
            old(self)@.advanced(final(self)@),
            r.is_ok() ==> old(self)@.consumed(final(self)@),
        decreases old(self)@.upcoming.len(), 34nat,
    {
        let mut statements: Vec<Stmt> = Vec::new();
        while !self.check(TokenType::RightBrace) && !self.is_at_end()
            invariant
                old(self)@.advanced(self@),
                self@.prev.is_some(),
                block_items(self@, stmt_views(statements@, statements@.len())) == block(
                    old(self)@,
                ),
            ensures
                old(self)@.advanced(self@),
                self@.prev.is_some(),
                block_end(self@, stmt_views(statements@, statements@.len())) == block(old(self)@),
            decreases self@.upcoming.len(),
        {
            let ghost here = self@;
            let ghost sofar = stmt_views(statements@, statements@.len());
            match self.declaration() {
                Ok(stmt) => {
                    proof {
                        lemma_stmt_views_push(statements@, stmt);
                    }
                    statements.push(stmt);
                    assert(block_items(here, sofar) == block_items(
                        self@,
                        stmt_views(statements@, statements@.len()),
                    ));
                },
                Err(e) => {
                    self.recover(e);
                    if self.is_at_end() {
                        assert(block_items(here, sofar) == block_end(self@, sofar));
                        break ;
                    }
                    assert(block_items(here, sofar) == block_items(self@, sofar));
                },
            }
        }
        self.consume(TokenType::RightBrace, "Expect '}' after block.")?;
        Ok(statements)
    }

    /// Parses a program: every declaration up to the end of input. After a
    /// syntax error the parser skips to where a statement may start, and goes
    /// on; it gives the statements only where it found no error, and else
    /// the errors, one to a line.
    pub fn parse(&mut self) -> (r: Result<Vec<Stmt>, String>)
        requires
            old(self).wf(),
        ensures
            final(self).wf(),
            final(self)@ == program(old(self)@, Seq::empty()).0,
            match r {
                Ok(statements) => final(self)@.errors.len() == 0 && stmt_views(
                    statements@,
                    statements@.len(),
                ) == program(old(self)@, Seq::empty()).1,
                Err(text) => final(self)@.errors.len() > 0 && text@ == join(
                    final(self)@.errors,
                    "\n"@,
                ),
            },
    {
        let mut statements: Vec<Stmt> = Vec::new();
        while !self.is_at_end()
            invariant
                self.wf(),
                program(self@, stmt_views(statements@, statements@.len())) == program(
                    old(self)@,
                    Seq::empty(),
                ),
            ensures
                self.wf(),
                program(old(self)@, Seq::empty()) == (
                    self@,
                    stmt_views(statements@, statements@.len()),
                ),
            decreases self@.upcoming.len(),
        {
            let ghost here = self@;
            let ghost sofar = stmt_views(statements@, statements@.len());
            match self.declaration() {
                Ok(stmt) => {
                    proof {
                        lemma_stmt_views_push(statements@, stmt);
                    }
                    statements.push(stmt);
                    assert(program(here, sofar) == program(
                        self@,
                        stmt_views(statements@, statements@.len()),
                    ));
                },
                Err(e) => {
                    self.recover(e);
                    if self.is_at_end() {
                        assert(program(here, sofar) == (self@, sofar));
                        break ;
                    }
                    assert(program(here, sofar) == program(self@, sofar));
                },
            }
        }
        if self.errors.len() == 0 {
            Ok(statements)
        } else {
            Err(join_with(self.errors.as_slice(), "\n"))
        }
    }
}

} // verus!
