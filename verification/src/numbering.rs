//! Every site of a parsed program has its own number: the parser numbers the
//! sites as it meets them, so that the sites of any piece it parses are
//! numbered from where its count stood before the piece up to where it
//! stands after, and none twice.
use vstd::prelude::*;
use crate::expr::{
    expr_sites, exprs_sites, fresh, lemma_fresh_together, lemma_fresh_within, ExprView,
};
use crate::grammar::{
    arguments, assignment, at_operator, block, block_end, block_items, call_expr,
    class_declaration, class_head, combined, condition, declaration, desugared, expression,
    expression_statement, finish_call, for_condition, for_increment, for_initializer,
    for_statement, function, grouping, if_statement, infix, infix_rest, methods, parameters,
    postfix, primary, print_statement, program, recovered, return_statement, signature, skipped,
    statement, super_access, synchronized, unary, var_declaration, while_statement,
};
use crate::parser::{Parsed, ParserView};
use crate::scanner::{Token, TokenType};
use crate::stmt::{stmt_sites, stmts_sites, StmtView};

verus! {

/// Whether parsing an expression left the parser in order, and numbered the
/// sites of the expression from `base` up to where the parser's count then stood.
pub open spec fn numbers(p: ParserView, base: int, out: Parsed<ExprView>) -> bool {
    &&& p.advanced(out.state)
    &&& out.result matches Ok(expr) ==> fresh(expr_sites(expr), base, out.state.sites as int)
}

/// Taking a token that must be of one kind leaves the count of sites as it was.
pub proof fn lemma_consumes(p: ParserView, kind: TokenType, message: Seq<char>)
    requires
        p.wf(),
    ensures
        p.advanced(p.consumes(kind, message).state),
        p.consumes(kind, message).state.sites == p.sites,
        p.consumes(kind, message).result.is_ok() ==> p.consumed(p.consumes(kind, message).state),
{
}

/// The sites of a list with one more expression are the sites of the list
/// followed by the sites of the expression.
pub proof fn lemma_exprs_sites_push(exprs: Seq<ExprView>, expr: ExprView)
    ensures
        exprs_sites(exprs.push(expr), exprs.len() + 1) == exprs_sites(exprs, exprs.len())
            + expr_sites(expr),
{
    lemma_exprs_sites_prefix(exprs, exprs.push(expr), exprs.len());
}

/// The sites of the first expressions of a list depend on those expressions only.
pub proof fn lemma_exprs_sites_prefix(first: Seq<ExprView>, second: Seq<ExprView>, count: nat)
    requires
        count <= first.len(),
        count <= second.len(),
        forall|i: int| 0 <= i < count ==> first[i] == second[i],
    ensures
        exprs_sites(first, count) == exprs_sites(second, count),
    decreases count,
{
    if count > 0 {
        lemma_exprs_sites_prefix(first, second, (count - 1) as nat);
    }
}

/// `super.method` has the one site that was numbered for it.
pub proof fn lemma_super_access(p: ParserView, site: usize, keyword: Token)
    requires
        p.wf(),
        site < p.sites,
    ensures
        numbers(p, site as int, super_access(p, site, keyword)),
        super_access(p, site, keyword).state.sites == p.sites,
{
    let dot = p.consumes(TokenType::Dot, "Expect '.' after 'super'."@);
    lemma_consumes(p, TokenType::Dot, "Expect '.' after 'super'."@);
    lemma_consumes(dot.state, TokenType::Identifier, "Expect superclass method name."@);
}

/// `primary`.
pub proof fn lemma_primary(p: ParserView)
    requires
        p.wf(),
    ensures
        numbers(p, p.sites as int, primary(p)),
        primary(p).result.is_ok() ==> p.consumed(primary(p).state),
    decreases p.upcoming.len(), 1nat,
{
    if p.checks(TokenType::False) || p.checks(TokenType::True) || p.checks(TokenType::Nil)
        || p.checks(TokenType::Number) || p.checks(TokenType::String) {
    } else if p.checks(TokenType::Super) {
        lemma_super_access(p.taken().numbered(), p.sites, p.next());
    } else if p.checks(TokenType::This) || p.checks(TokenType::Identifier) {
    } else if p.checks(TokenType::LeftParen) {
        lemma_grouping(p.taken());
    }
}

/// A parenthesized expression.
pub proof fn lemma_grouping(p: ParserView)
    requires
        p.wf(),
    ensures
        numbers(p, p.sites as int, grouping(p)),
        grouping(p).result.is_ok() ==> p.consumed(grouping(p).state),
    decreases p.upcoming.len(), 25nat,
{
    lemma_expression(p);
    let inner = expression(p);
    if inner.result.is_ok() {
        lemma_consumes(inner.state, TokenType::RightParen, "Expect ')' after expression."@);
    }
}

/// `arguments`.
pub proof fn lemma_arguments(p: ParserView, sofar: Seq<ExprView>, base: int)
    requires
        p.wf(),
        fresh(exprs_sites(sofar, sofar.len()), base, p.sites as int),
    ensures
        p.advanced(arguments(p, sofar).state),
        arguments(p, sofar).result matches Ok(list) ==> fresh(
            exprs_sites(list, list.len()),
            base,
            arguments(p, sofar).state.sites as int,
        ),
    decreases p.upcoming.len(), 23nat,
{
    if sofar.len() < 255 {
        lemma_expression(p);
        let argument = expression(p);
        match argument.result {
            Ok(expr) => {
                lemma_exprs_sites_push(sofar, expr);
                lemma_fresh_together(
                    exprs_sites(sofar, sofar.len()),
                    expr_sites(expr),
                    base,
                    p.sites as int,
                    argument.state.sites as int,
                );
                if argument.state.checks(TokenType::Comma) {
                    lemma_arguments(argument.state.taken(), sofar.push(expr), base);
                }
            },
            Err(_) => {},
        }
    }
}

/// The rest of a call.
pub proof fn lemma_finish_call(p: ParserView, callee: ExprView, base: int)
    requires
        p.wf(),
        fresh(expr_sites(callee), base, p.sites as int),
    ensures
        numbers(p, base, finish_call(p, callee)),
        finish_call(p, callee).result.is_ok() ==> p.consumed(finish_call(p, callee).state),
    decreases p.upcoming.len(), 24nat,
{
    let given = if p.checks(TokenType::RightParen) {
        Parsed::ok(p, Seq::<ExprView>::empty())
    } else {
        arguments(p, Seq::empty())
    };
    if !p.checks(TokenType::RightParen) {
        lemma_arguments(p, Seq::empty(), p.sites as int);
    }
    match given.result {
        Ok(list) => {
            lemma_consumes(given.state, TokenType::RightParen, "Expect ')' after arguments."@);
            lemma_fresh_together(
                expr_sites(callee),
                exprs_sites(list, list.len()),
                base,
                p.sites as int,
                given.state.sites as int,
            );
        },
        Err(_) => {},
    }
}

/// What follows a primary.
pub proof fn lemma_postfix(p: ParserView, expr: ExprView, base: int)
    requires
        p.wf(),
        fresh(expr_sites(expr), base, p.sites as int),
    ensures
        numbers(p, base, postfix(p, expr)),
    decreases p.upcoming.len(), 2nat,
{
    if p.checks(TokenType::LeftParen) {
        lemma_finish_call(p.taken(), expr, base);
        let call = finish_call(p.taken(), expr);
        match call.result {
            Ok(made) => {
                lemma_postfix(call.state, made, base);
            },
            Err(_) => {},
        }
    } else if p.checks(TokenType::Dot) {
        lemma_consumes(p.taken(), TokenType::Identifier, "Expect property name after '.'."@);
        let name = p.taken().consumes(TokenType::Identifier, "Expect property name after '.'."@);
        match name.result {
            Ok(token) => {
                lemma_postfix(name.state, ExprView::Get(Box::new(expr), token), base);
            },
            Err(_) => {},
        }
    }
}

/// `call`.
pub proof fn lemma_call_expr(p: ParserView)
    requires
        p.wf(),
    ensures
        numbers(p, p.sites as int, call_expr(p)),
        call_expr(p).result.is_ok() ==> p.consumed(call_expr(p).state),
    decreases p.upcoming.len(), 3nat,
{
    lemma_primary(p);
    let first = primary(p);
    match first.result {
        Ok(expr) => {
            lemma_postfix(first.state, expr, p.sites as int);
        },
        Err(_) => {},
    }
}

/// `unary`.
pub proof fn lemma_unary(p: ParserView)
    requires
        p.wf(),
    ensures
        numbers(p, p.sites as int, unary(p)),
        unary(p).result.is_ok() ==> p.consumed(unary(p).state),
    decreases p.upcoming.len(), 4nat,
{
    if p.checks(TokenType::Bang) || p.checks(TokenType::Minus) {
        lemma_unary(p.taken());
    } else {
        lemma_call_expr(p);
    }
}

/// What follows the first operand of a level of binary expressions.
pub proof fn lemma_infix_rest(p: ParserView, left: ExprView, level: nat, base: int)
    requires
        p.wf(),
        5 <= level <= 10,
        fresh(expr_sites(left), base, p.sites as int),
    ensures
        numbers(p, base, infix_rest(p, left, level)),
    decreases p.upcoming.len(), 5 + level, 1nat,
{
    if at_operator(p, level) {
        if level > 5 {
            lemma_infix(p.taken(), (level - 1) as nat);
        } else {
            lemma_unary(p.taken());
        }
        let right = if level > 5 {
            infix(p.taken(), (level - 1) as nat)
        } else {
            unary(p.taken())
        };
        match right.result {
            Ok(expr) => {
                lemma_fresh_together(
                    expr_sites(left),
                    expr_sites(expr),
                    base,
                    p.sites as int,
                    right.state.sites as int,
                );
                lemma_infix_rest(right.state, combined(level, left, p.next(), expr), level, base);
            },
            Err(_) => {},
        }
    }
}

/// A level of binary expressions.
pub proof fn lemma_infix(p: ParserView, level: nat)
    requires
        p.wf(),
        5 <= level <= 10,
    ensures
        numbers(p, p.sites as int, infix(p, level)),
        infix(p, level).result.is_ok() ==> p.consumed(infix(p, level).state),
    decreases p.upcoming.len(), 5 + level, 0nat,
{
    if level > 5 {
        lemma_infix(p, (level - 1) as nat);
    } else {
        lemma_unary(p);
    }
    let first = if level > 5 {
        infix(p, (level - 1) as nat)
    } else {
        unary(p)
    };
    match first.result {
        Ok(expr) => {
            lemma_infix_rest(first.state, expr, level, p.sites as int);
        },
        Err(_) => {},
    }
}

/// `assignment`.
pub proof fn lemma_assignment(p: ParserView)
    requires
        p.wf(),
    ensures
        numbers(p, p.sites as int, assignment(p)),
        assignment(p).result.is_ok() ==> p.consumed(assignment(p).state),
    decreases p.upcoming.len(), 21nat,
{
    lemma_infix(p, 10);
    let target = infix(p, 10);
    match target.result {
        Ok(expr) => {
            if target.state.checks(TokenType::Equal) {
                lemma_assignment(target.state.taken());
                let value = assignment(target.state.taken());
                match value.result {
                    Ok(assigned) => {
                        lemma_fresh_together(
                            expr_sites(expr),
                            expr_sites(assigned),
                            p.sites as int,
                            target.state.sites as int,
                            value.state.sites as int,
                        );
                    },
                    Err(_) => {},
                }
            }
        },
        Err(_) => {},
    }
}

/// `expression`.
pub proof fn lemma_expression(p: ParserView)
    requires
        p.wf(),
    ensures
        numbers(p, p.sites as int, expression(p)),
        expression(p).result.is_ok() ==> p.consumed(expression(p).state),
    decreases p.upcoming.len(), 22nat,
{
    lemma_assignment(p);
}

/// Whether parsing a statement left the parser in order, and numbered the
/// sites of the statement from `base` up to where the parser's count then stood.
pub open spec fn numbers_stmt(p: ParserView, base: int, out: Parsed<StmtView>) -> bool {
    &&& p.advanced(out.state)
    &&& out.result matches Ok(stmt) ==> fresh(stmt_sites(stmt), base, out.state.sites as int)
}

/// Whether parsing a list of statements left the parser in order, and
/// numbered the sites of the statements from `base` up to where the parser's
/// count then stood.
pub open spec fn numbers_stmts(p: ParserView, base: int, out: Parsed<Seq<StmtView>>) -> bool {
    &&& p.advanced(out.state)
    &&& out.result matches Ok(list) ==> fresh(
        stmts_sites(list, list.len()),
        base,
        out.state.sites as int,
    )
}

/// The sites of the first statements of a list depend on those statements only.
pub proof fn lemma_stmts_sites_prefix(first: Seq<StmtView>, second: Seq<StmtView>, count: nat)
    requires
        count <= first.len(),
        count <= second.len(),
        forall|i: int| 0 <= i < count ==> first[i] == second[i],
    ensures
        stmts_sites(first, count) == stmts_sites(second, count),
    decreases count,
{
    if count > 0 {
        lemma_stmts_sites_prefix(first, second, (count - 1) as nat);
    }
}

/// The sites of a list with one more statement are the sites of the list
/// followed by the sites of the statement.
pub proof fn lemma_stmts_sites_push(stmts: Seq<StmtView>, stmt: StmtView)
    ensures
        stmts_sites(stmts.push(stmt), stmts.len() + 1) == stmts_sites(stmts, stmts.len())
            + stmt_sites(stmt),
{
    lemma_stmts_sites_prefix(stmts, stmts.push(stmt), stmts.len());
}

/// The sites of a list of two statements.
pub proof fn lemma_stmts_sites_pair(first: StmtView, second: StmtView)
    ensures
        stmts_sites(seq![first, second], 2) == stmt_sites(first) + stmt_sites(second),
{
    let list = seq![first, second];
    assert(stmts_sites(list, 0) =~= Seq::empty());
    assert(stmts_sites(list, 1) =~= stmt_sites(first));
    assert(stmts_sites(list, 2) =~= stmt_sites(first) + stmt_sites(second));
}

/// Skipping after an error leaves the count of sites as it was.
pub proof fn lemma_skipped(p: ParserView)
    requires
        p.wf(),
        p.prev.is_some(),
    ensures
        p.advanced(skipped(p)),
        skipped(p).sites == p.sites,
        skipped(p).prev.is_some(),
    decreases p.upcoming.len(),
{
    if !(p.upcoming.len() == 0 || p.at_end() || p.prev.unwrap().token == TokenType::Semicolon
        || crate::grammar::starts_statement(p.next().token)) {
        lemma_skipped(p.taken());
    }
}

/// Recovering from an error leaves the count of sites as it was.
pub proof fn lemma_recovered(p: ParserView, text: Seq<char>)
    requires
        p.wf(),
    ensures
        p.advanced(recovered(p, text)),
        recovered(p, text).sites == p.sites,
        !p.at_end() ==> p.consumed(recovered(p, text)),
{
    if !p.erred(text).at_end() {
        lemma_skipped(p.erred(text).taken());
    }
}

/// `exprStmt`.
pub proof fn lemma_expression_statement(p: ParserView)
    requires
        p.wf(),
    ensures
        numbers_stmt(p, p.sites as int, expression_statement(p)),
        expression_statement(p).result.is_ok() ==> p.consumed(expression_statement(p).state),
{
    lemma_expression(p);
    let value = expression(p);
    if value.result.is_ok() {
        lemma_consumes(value.state, TokenType::Semicolon, "Expect ';' after expression."@);
    }
}

/// `printStmt`.
pub proof fn lemma_print_statement(p: ParserView)
    requires
        p.wf(),
    ensures
        numbers_stmt(p, p.sites as int, print_statement(p)),
{
    lemma_expression(p);
    let value = expression(p);
    if value.result.is_ok() {
        lemma_consumes(value.state, TokenType::Semicolon, "Expect ';' after value."@);
    }
}

/// `returnStmt`.
pub proof fn lemma_return_statement(p: ParserView)
    requires
        p.wf(),
    ensures
        numbers_stmt(p, p.sites as int, return_statement(p)),
{
    if p.checks(TokenType::Semicolon) {
        lemma_consumes(p, TokenType::Semicolon, "Expect ';' after return value."@);
    } else {
        lemma_expression(p);
        let value = expression(p);
        if value.result.is_ok() {
            lemma_consumes(value.state, TokenType::Semicolon, "Expect ';' after return value."@);
        }
    }
}

/// A condition between parentheses.
pub proof fn lemma_condition(p: ParserView, after: Seq<char>, inside: Seq<char>)
    requires
        p.wf(),
    ensures
        numbers(p, p.sites as int, condition(p, after, inside)),
        condition(p, after, inside).result.is_ok() ==> p.consumed(
            condition(p, after, inside).state,
        ),
{
    lemma_consumes(p, TokenType::LeftParen, after);
    let open = p.consumes(TokenType::LeftParen, after);
    if open.result.is_ok() {
        lemma_expression(open.state);
        let cond = expression(open.state);
        if cond.result.is_ok() {
            lemma_consumes(cond.state, TokenType::RightParen, inside);
        }
    }
}

/// `whileStmt`.
pub proof fn lemma_while_statement(p: ParserView)
    requires
        p.wf(),
    ensures
        numbers_stmt(p, p.sites as int, while_statement(p)),
    decreases p.upcoming.len(), 31nat,
{
    let after = "Expect '(' after 'while'."@;
    let inside = "Expect ')' after condition."@;
    lemma_condition(p, after, inside);
    let cond = condition(p, after, inside);
    match cond.result {
        Ok(expr) => {
            lemma_statement(cond.state);
            let body = statement(cond.state);
            match body.result {
                Ok(stmt) => {
                    lemma_fresh_together(
                        expr_sites(expr),
                        stmt_sites(stmt),
                        p.sites as int,
                        cond.state.sites as int,
                        body.state.sites as int,
                    );
                },
                Err(_) => {},
            }
        },
        Err(_) => {},
    }
}

/// `ifStmt`.
pub proof fn lemma_if_statement(p: ParserView)
    requires
        p.wf(),
    ensures
        numbers_stmt(p, p.sites as int, if_statement(p)),
    decreases p.upcoming.len(), 31nat,
{
    let after = "Expect '(' after 'if'."@;
    let inside = "Expect ')' after if condition."@;
    lemma_condition(p, after, inside);
    let cond = condition(p, after, inside);
    match cond.result {
        Ok(expr) => {
            lemma_statement(cond.state);
            let then_branch = statement(cond.state);
            match then_branch.result {
                Ok(first) => {
                    lemma_fresh_together(
                        expr_sites(expr),
                        stmt_sites(first),
                        p.sites as int,
                        cond.state.sites as int,
                        then_branch.state.sites as int,
                    );
                    if then_branch.state.checks(TokenType::Else) {
                        lemma_statement(then_branch.state.taken());
                        let else_branch = statement(then_branch.state.taken());
                        match else_branch.result {
                            Ok(second) => {
                                lemma_fresh_together(
                                    expr_sites(expr) + stmt_sites(first),
                                    stmt_sites(second),
                                    p.sites as int,
                                    then_branch.state.sites as int,
                                    else_branch.state.sites as int,
                                );
                            },
                            Err(_) => {},
                        }
                    } else {
                        assert(expr_sites(expr) + stmt_sites(first) + Seq::<usize>::empty()
                            =~= expr_sites(expr) + stmt_sites(first));
                    }
                },
                Err(_) => {},
            }
        },
        Err(_) => {},
    }
}

/// The sites of an optional statement.
pub open spec fn optional_stmt_sites(stmt: Option<StmtView>) -> Seq<usize> {
    match stmt {
        Some(s) => stmt_sites(s),
        None => Seq::empty(),
    }
}

/// The sites of an optional expression.
pub open spec fn optional_expr_sites(expr: Option<ExprView>) -> Seq<usize> {
    match expr {
        Some(e) => expr_sites(e),
        None => Seq::empty(),
    }
}

/// The first clause of a `for`.
pub proof fn lemma_for_initializer(p: ParserView)
    requires
        p.wf(),
    ensures
        p.advanced(for_initializer(p).state),
        for_initializer(p).result.is_ok() ==> p.consumed(for_initializer(p).state),
        for_initializer(p).result matches Ok(first) ==> fresh(
            optional_stmt_sites(first),
            p.sites as int,
            for_initializer(p).state.sites as int,
        ),
{
    if p.checks(TokenType::Semicolon) {
    } else if p.checks(TokenType::Var) {
        lemma_var_declaration(p.taken());
    } else {
        lemma_expression_statement(p);
    }
}

/// The second clause of a `for`.
pub proof fn lemma_for_condition(p: ParserView)
    requires
        p.wf(),
    ensures
        numbers(p, p.sites as int, for_condition(p)),
        for_condition(p).result.is_ok() ==> p.consumed(for_condition(p).state),
{
    if p.checks(TokenType::Semicolon) {
        lemma_consumes(p, TokenType::Semicolon, "Expect ';' after loop condition."@);
    } else {
        lemma_expression(p);
        let cond = expression(p);
        if cond.result.is_ok() {
            lemma_consumes(cond.state, TokenType::Semicolon, "Expect ';' after loop condition."@);
        }
    }
}

/// The third clause of a `for`.
pub proof fn lemma_for_increment(p: ParserView)
    requires
        p.wf(),
    ensures
        p.advanced(for_increment(p).state),
        for_increment(p).result.is_ok() ==> p.consumed(for_increment(p).state),
        for_increment(p).result matches Ok(step) ==> fresh(
            optional_expr_sites(step),
            p.sites as int,
            for_increment(p).state.sites as int,
        ),
{
    if p.checks(TokenType::RightParen) {
        lemma_consumes(p, TokenType::RightParen, "Expect ')' after for clauses."@);
    } else {
        lemma_expression(p);
        let value = expression(p);
        if value.result.is_ok() {
            lemma_consumes(value.state, TokenType::RightParen, "Expect ')' after for clauses."@);
        }
    }
}

/// The sites of what a `for` stands for are the sites of its clauses and of
/// its body: the initializer's, the condition's, the body's, the increment's.
pub proof fn lemma_desugared(
    initializer: Option<StmtView>,
    cond: ExprView,
    increment: Option<ExprView>,
    body: StmtView,
)
    ensures
        stmt_sites(desugared(initializer, cond, increment, body)) == optional_stmt_sites(
            initializer,
        ) + (expr_sites(cond) + (stmt_sites(body) + optional_expr_sites(increment))),
{
    let stepped = match increment {
        Some(step) => StmtView::Block(seq![body, StmtView::Expression(step)]),
        None => body,
    };
    match increment {
        Some(step) => {
            lemma_stmts_sites_pair(body, StmtView::Expression(step));
        },
        None => {
            assert(stmt_sites(body) + Seq::<usize>::empty() =~= stmt_sites(body));
        },
    }
    assert(stmt_sites(stepped) == stmt_sites(body) + optional_expr_sites(increment));
    let looped = StmtView::While(cond, Box::new(stepped));
    match initializer {
        Some(first) => {
            lemma_stmts_sites_pair(first, looped);
        },
        None => {
            assert(Seq::<usize>::empty() + stmt_sites(looped) =~= stmt_sites(looped));
        },
    }
}

/// `forStmt`.
pub proof fn lemma_for_statement(p: ParserView)
    requires
        p.wf(),
    ensures
        numbers_stmt(p, p.sites as int, for_statement(p)),
    decreases p.upcoming.len(), 33nat,
{
    lemma_consumes(p, TokenType::LeftParen, "Expect '(' after 'for'."@);
    let open = p.consumes(TokenType::LeftParen, "Expect '(' after 'for'."@);
    if open.result.is_ok() {
        lemma_for_initializer(open.state);
        let initializer = for_initializer(open.state);
        match initializer.result {
            Ok(first) => {
                lemma_for_condition(initializer.state);
                let cond = for_condition(initializer.state);
                match cond.result {
                    Ok(expr) => {
                        lemma_for_increment(cond.state);
                        let increment = for_increment(cond.state);
                        match increment.result {
                            Ok(step) => {
                                lemma_statement(increment.state);
                                let body = statement(increment.state);
                                match body.result {
                                    Ok(stmt) => {
                                        lemma_desugared(first, expr, step, stmt);
                                        lemma_fresh_together(
                                            optional_expr_sites(step),
                                            stmt_sites(stmt),
                                            cond.state.sites as int,
                                            increment.state.sites as int,
                                            body.state.sites as int,
                                        );
                                        lemma_fresh_together(
                                            expr_sites(expr),
                                            stmt_sites(stmt) + optional_expr_sites(step),
                                            initializer.state.sites as int,
                                            cond.state.sites as int,
                                            body.state.sites as int,
                                        );
                                        lemma_fresh_together(
                                            optional_stmt_sites(first),
                                            expr_sites(expr) + (stmt_sites(stmt)
                                                + optional_expr_sites(step)),
                                            p.sites as int,
                                            initializer.state.sites as int,
                                            body.state.sites as int,
                                        );
                                    },
                                    Err(_) => {},
                                }
                            },
                            Err(_) => {},
                        }
                    },
                    Err(_) => {},
                }
            },
            Err(_) => {},
        }
    }
}

/// `statement`.
pub proof fn lemma_statement(p: ParserView)
    requires
        p.wf(),
    ensures
        numbers_stmt(p, p.sites as int, statement(p)),
        statement(p).result.is_ok() ==> p.consumed(statement(p).state),
    decreases p.upcoming.len(), 35nat,
{
    if p.checks(TokenType::For) {
        lemma_for_statement(p.taken());
    } else if p.checks(TokenType::If) {
        lemma_if_statement(p.taken());
    } else if p.checks(TokenType::Print) {
        lemma_print_statement(p.taken());
    } else if p.checks(TokenType::Return) {
        lemma_return_statement(p.taken());
    } else if p.checks(TokenType::While) {
        lemma_while_statement(p.taken());
    } else if p.checks(TokenType::LeftBrace) {
        lemma_block(p.taken());
    } else {
        lemma_expression_statement(p);
    }
}

/// `varDecl`.
pub proof fn lemma_var_declaration(p: ParserView)
    requires
        p.wf(),
    ensures
        numbers_stmt(p, p.sites as int, var_declaration(p)),
        var_declaration(p).result.is_ok() ==> p.consumed(var_declaration(p).state),
{
    lemma_consumes(p, TokenType::Identifier, "Expect variable name."@);
    let name = p.consumes(TokenType::Identifier, "Expect variable name."@);
    if name.result.is_ok() {
        let message = "Expect ';' after variable declaration."@;
        if name.state.checks(TokenType::Equal) {
            lemma_expression(name.state.taken());
            let value = expression(name.state.taken());
            if value.result.is_ok() {
                lemma_consumes(value.state, TokenType::Semicolon, message);
            }
        } else {
            lemma_consumes(name.state, TokenType::Semicolon, message);
        }
    }
}

/// `parameters` numbers no site.
pub proof fn lemma_parameters(p: ParserView, sofar: Seq<Token>)
    requires
        p.wf(),
    ensures
        p.advanced(parameters(p, sofar).state),
        parameters(p, sofar).state.sites == p.sites,
    decreases p.upcoming.len(),
{
    if sofar.len() < 255 {
        lemma_consumes(p, TokenType::Identifier, "Expect parameter name."@);
        let param = p.consumes(TokenType::Identifier, "Expect parameter name."@);
        match param.result {
            Ok(token) => {
                if param.state.checks(TokenType::Comma) {
                    lemma_parameters(param.state.taken(), sofar.push(token));
                }
            },
            Err(_) => {},
        }
    }
}

/// The head of a function numbers no site.
pub proof fn lemma_signature(p: ParserView, kind: Seq<char>)
    requires
        p.wf(),
    ensures
        p.advanced(signature(p, kind).state),
        signature(p, kind).state.sites == p.sites,
        signature(p, kind).result.is_ok() ==> p.consumed(signature(p, kind).state),
{
    lemma_consumes(p, TokenType::Identifier, "Expect "@ + kind + " name."@);
    let name = p.consumes(TokenType::Identifier, "Expect "@ + kind + " name."@);
    if name.result.is_ok() {
        lemma_consumes(name.state, TokenType::LeftParen, "Expect '(' after "@ + kind + " name."@);
        let open = name.state.consumes(
            TokenType::LeftParen,
            "Expect '(' after "@ + kind + " name."@,
        );
        if open.result.is_ok() {
            if !open.state.checks(TokenType::RightParen) {
                lemma_parameters(open.state, Seq::empty());
            }
            let params = if open.state.checks(TokenType::RightParen) {
                Parsed::ok(open.state, Seq::<Token>::empty())
            } else {
                parameters(open.state, Seq::empty())
            };
            if params.result.is_ok() {
                lemma_consumes(params.state, TokenType::RightParen, "Expect ')' after parameters."@);
                let close = params.state.consumes(
                    TokenType::RightParen,
                    "Expect ')' after parameters."@,
                );
                if close.result.is_ok() {
                    lemma_consumes(
                        close.state,
                        TokenType::LeftBrace,
                        "Expect '{' before "@ + kind + " body."@,
                    );
                }
            }
        }
    }
}

/// `function`.
pub proof fn lemma_function(p: ParserView, kind: Seq<char>)
    requires
        p.wf(),
    ensures
        numbers_stmt(p, p.sites as int, function(p, kind)),
        function(p, kind).result.is_ok() ==> p.consumed(function(p, kind).state),
    decreases p.upcoming.len(), 36nat,
{
    lemma_signature(p, kind);
    let head = signature(p, kind);
    if head.result.is_ok() {
        lemma_block(head.state);
    }
}

/// The methods of a class.
pub proof fn lemma_methods(p: ParserView, sofar: Seq<StmtView>, base: int)
    requires
        p.wf(),
        fresh(stmts_sites(sofar, sofar.len()), base, p.sites as int),
    ensures
        numbers_stmts(p, base, methods(p, sofar)),
    decreases p.upcoming.len(), 37nat,
{
    if p.upcoming.len() > 0 && !p.checks(TokenType::RightBrace) && !p.at_end() {
        lemma_function(p, "method"@);
        let method = function(p, "method"@);
        match method.result {
            Ok(stmt) => {
                lemma_stmts_sites_push(sofar, stmt);
                lemma_fresh_together(
                    stmts_sites(sofar, sofar.len()),
                    stmt_sites(stmt),
                    base,
                    p.sites as int,
                    method.state.sites as int,
                );
                lemma_methods(method.state, sofar.push(stmt), base);
            },
            Err(_) => {},
        }
    }
}

/// The head of a class numbers the site of its superclass, if it names one.
pub proof fn lemma_class_head(p: ParserView)
    requires
        p.wf(),
    ensures
        p.advanced(class_head(p).state),
        class_head(p).result.is_ok() ==> p.consumed(class_head(p).state),
        class_head(p).result matches Ok(named) ==> fresh(
            optional_expr_sites(named.1),
            p.sites as int,
            class_head(p).state.sites as int,
        ),
{
    lemma_consumes(p, TokenType::Identifier, "Expect class name."@);
    let name = p.consumes(TokenType::Identifier, "Expect class name."@);
    if name.result.is_ok() {
        let message = "Expect '{' before class body."@;
        if name.state.checks(TokenType::Less) {
            lemma_consumes(name.state.taken(), TokenType::Identifier, "Expect superclass name."@);
            let parent = name.state.taken().consumes(
                TokenType::Identifier,
                "Expect superclass name."@,
            );
            if parent.result.is_ok() {
                lemma_consumes(parent.state.numbered(), TokenType::LeftBrace, message);
            }
        } else {
            lemma_consumes(name.state, TokenType::LeftBrace, message);
        }
    }
}

/// `classDecl`.
pub proof fn lemma_class_declaration(p: ParserView)
    requires
        p.wf(),
    ensures
        numbers_stmt(p, p.sites as int, class_declaration(p)),
        class_declaration(p).result.is_ok() ==> p.consumed(class_declaration(p).state),
    decreases p.upcoming.len(), 38nat,
{
    lemma_class_head(p);
    let head = class_head(p);
    match head.result {
        Ok(named) => {
            lemma_methods(head.state, Seq::empty(), head.state.sites as int);
            let body = methods(head.state, Seq::empty());
            match body.result {
                Ok(list) => {
                    lemma_consumes(body.state, TokenType::RightBrace, "Expect '}' after class body."@);
                    lemma_fresh_together(
                        optional_expr_sites(named.1),
                        stmts_sites(list, list.len()),
                        p.sites as int,
                        head.state.sites as int,
                        body.state.sites as int,
                    );
                },
                Err(_) => {},
            }
        },
        Err(_) => {},
    }
}

/// `declaration`.
pub proof fn lemma_declaration(p: ParserView)
    requires
        p.wf(),
    ensures
        numbers_stmt(p, p.sites as int, declaration(p)),
        declaration(p).result.is_ok() ==> p.consumed(declaration(p).state),
    decreases p.upcoming.len(), 40nat,
{
    if p.checks(TokenType::Class) {
        lemma_class_declaration(p.taken());
    } else if p.checks(TokenType::Fun) {
        lemma_function(p.taken(), "function"@);
    } else if p.checks(TokenType::Var) {
        lemma_var_declaration(p.taken());
    } else {
        lemma_statement(p);
    }
}

/// The closing brace of a block.
pub proof fn lemma_block_end(p: ParserView, sofar: Seq<StmtView>, base: int)
    requires
        p.wf(),
        fresh(stmts_sites(sofar, sofar.len()), base, p.sites as int),
    ensures
        numbers_stmts(p, base, block_end(p, sofar)),
        block_end(p, sofar).result.is_ok() ==> p.consumed(block_end(p, sofar).state),
{
    lemma_consumes(p, TokenType::RightBrace, "Expect '}' after block."@);
}

/// The declarations of a block.
pub proof fn lemma_block_items(p: ParserView, sofar: Seq<StmtView>, base: int)
    requires
        p.wf(),
        fresh(stmts_sites(sofar, sofar.len()), base, p.sites as int),
    ensures
        numbers_stmts(p, base, block_items(p, sofar)),
        block_items(p, sofar).result.is_ok() ==> p.consumed(block_items(p, sofar).state),
    decreases p.upcoming.len(), 45nat,
{
    if p.upcoming.len() > 0 && !p.checks(TokenType::RightBrace) && !p.at_end() {
        lemma_declaration(p);
        let item = declaration(p);
        match item.result {
            Ok(stmt) => {
                lemma_stmts_sites_push(sofar, stmt);
                lemma_fresh_together(
                    stmts_sites(sofar, sofar.len()),
                    stmt_sites(stmt),
                    base,
                    p.sites as int,
                    item.state.sites as int,
                );
                lemma_block_items(item.state, sofar.push(stmt), base);
            },
            Err(e) => {
                lemma_recovered(item.state, e);
                let next = recovered(item.state, e);
                lemma_fresh_within(
                    stmts_sites(sofar, sofar.len()),
                    base,
                    p.sites as int,
                    base,
                    next.sites as int,
                );
                if next.at_end() || next.upcoming.len() >= p.upcoming.len() {
                    lemma_block_end(next, sofar, base);
                } else {
                    lemma_block_items(next, sofar, base);
                }
            },
        }
    } else {
        lemma_block_end(p, sofar, base);
    }
}

/// `block`.
pub proof fn lemma_block(p: ParserView)
    requires
        p.wf(),
    ensures
        numbers_stmts(p, p.sites as int, block(p)),
        block(p).result.is_ok() ==> p.consumed(block(p).state),
    decreases p.upcoming.len(), 46nat,
{
    lemma_block_items(p, Seq::empty(), p.sites as int);
}

/// The declarations of a program.
pub proof fn lemma_program(p: ParserView, sofar: Seq<StmtView>, base: int)
    requires
        p.wf(),
        fresh(stmts_sites(sofar, sofar.len()), base, p.sites as int),
    ensures
        p.advanced(program(p, sofar).0),
        fresh(
            stmts_sites(program(p, sofar).1, program(p, sofar).1.len()),
            base,
            program(p, sofar).0.sites as int,
        ),
    decreases p.upcoming.len(), 50nat,
{
    if p.upcoming.len() > 0 && !p.at_end() {
        lemma_declaration(p);
        let item = declaration(p);
        match item.result {
            Ok(stmt) => {
                lemma_stmts_sites_push(sofar, stmt);
                lemma_fresh_together(
                    stmts_sites(sofar, sofar.len()),
                    stmt_sites(stmt),
                    base,
                    p.sites as int,
                    item.state.sites as int,
                );
                lemma_program(item.state, sofar.push(stmt), base);
            },
            Err(e) => {
                lemma_recovered(item.state, e);
                let next = recovered(item.state, e);
                lemma_fresh_within(
                    stmts_sites(sofar, sofar.len()),
                    base,
                    p.sites as int,
                    base,
                    next.sites as int,
                );
                if !(next.at_end() || next.upcoming.len() >= p.upcoming.len()) {
                    lemma_program(next, sofar, base);
                }
            },
        }
    }
}

/// Every site of a parsed program has its own number: the sites of the
/// statements that parsing a program gives are numbered from where the
/// parser's count stood before up to where it stands after, and no number is
/// given twice.
pub proof fn lemma_sites_are_distinct(p: ParserView)
    requires
        p.wf(),
    ensures
        fresh(
            stmts_sites(
                program(p, Seq::empty()).1,
                program(p, Seq::empty()).1.len(),
            ),
            p.sites as int,
            program(p, Seq::empty()).0.sites as int,
        ),
{
    lemma_program(p, Seq::empty(), p.sites as int);
}

} // verus!
