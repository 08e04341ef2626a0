use vstd::prelude::*;
use vstd::hash_map::StringHashMap;
use vstd::string::*;
use crate::environment::{
    ancestor_of, is_forest, lemma_get_at_agrees_with_get, lookup, lookup_at, ScopeView,
};
use crate::error::{Defect, Diagnostic};
use crate::expr::Expr;
use crate::scanner::{Literal, Token};
use crate::stmt::Stmt;
use crate::text::same_text;

verus! {

/// What kind of function the resolver is inside of.
#[derive(Debug, Clone, Copy, PartialEq, Eq, Structural)]
pub enum FunctionType {
    Outside,
    Function,
    Initializer,
    Method,
}

/// What kind of class the resolver is inside of.
#[derive(Debug, Clone, Copy, PartialEq, Eq, Structural)]
pub enum ClassType {
    Outside,
    Class,
    SubClass,
}

/// Where the resolver stands: the local scopes around it, the innermost last,
/// each with its names marked pending (`false`) or ready (`true`), and the
/// kinds of function and class it is inside of.
#[verifier::ext_equal]
pub ghost struct Context {
    pub scopes: Seq<Map<Seq<char>, bool>>,
    pub function: FunctionType,
    pub class: ClassType,
}

/// What resolving a piece of a program yields: where the resolver stands
/// afterwards, the sites it resolved, each with its distance, in the order in
/// which it met them, and the defects it found, in that order too.
#[verifier::ext_equal]
pub ghost struct Outcome {
    pub context: Context,
    pub sites: Seq<(usize, usize)>,
    pub errors: Seq<Diagnostic>,
}

impl Outcome {
    /// Nothing resolved and nothing found, at `context`.
    pub open spec fn at(context: Context) -> Outcome {
        Outcome { context, sites: Seq::empty(), errors: Seq::empty() }
    }

    /// One defect found, at `context`.
    pub open spec fn defect(context: Context, kind: Defect, token: Token) -> Outcome {
        Outcome { context, sites: Seq::empty(), errors: seq![Diagnostic { kind, token }] }
    }

    /// This outcome followed by `next`, which started where this one ended.
    pub open spec fn followed(self, next: Outcome) -> Outcome {
        Outcome {
            context: next.context,
            sites: self.sites + next.sites,
            errors: self.errors + next.errors,
        }
    }

    /// This outcome with the resolver moved to `context`.
    pub open spec fn moved(self, context: Context) -> Outcome {
        Outcome { context, ..self }
    }
}

/// How many scopes lie between the innermost scope and the nearest one that
/// holds `name`, looking from `hops` scopes out onwards.
pub open spec fn depth_from(scopes: Seq<Map<Seq<char>, bool>>, name: Seq<char>, hops: nat)
    -> Option<nat>
    decreases scopes.len() - hops,
{
    if hops >= scopes.len() {
        None
    } else if scopes[scopes.len() - 1 - hops].contains_key(name) {
        Some(hops)
    } else {
        depth_from(scopes, name, hops + 1)
    }
}

impl Context {
    /// No scopes, outside any function and class: where a pass starts.
    pub open spec fn start() -> Context {
        Context {
            scopes: Seq::empty(),
            function: FunctionType::Outside,
            class: ClassType::Outside,
        }
    }

    /// With a fresh innermost scope.
    pub open spec fn begun(self) -> Context {
        Context { scopes: self.scopes.push(Map::empty()), ..self }
    }

    /// Without the innermost scope.
    pub open spec fn ended(self) -> Context {
        if self.scopes.len() == 0 {
            self
        } else {
            Context { scopes: self.scopes.drop_last(), ..self }
        }
    }

    /// With `name` marked in the innermost scope, if there is one.
    pub open spec fn marked(self, name: Seq<char>, ready: bool) -> Context {
        if self.scopes.len() == 0 {
            self
        } else {
            Context {
                scopes: self.scopes.update(
                    self.scopes.len() - 1,
                    self.scopes.last().insert(name, ready),
                ),
                ..self
            }
        }
    }

    /// Inside a function of the given kind.
    pub open spec fn in_function(self, function: FunctionType) -> Context {
        Context { function, ..self }
    }

    /// Inside a class of the given kind.
    pub open spec fn in_class(self, class: ClassType) -> Context {
        Context { class, ..self }
    }

    /// Declaring `name`: it is marked pending in the innermost scope; a name
    /// that the scope already holds is a defect.
    pub open spec fn declared(self, name: Token) -> Outcome {
        if self.scopes.len() > 0 && self.scopes.last().contains_key(name.lexeme@) {
            Outcome::defect(self.marked(name.lexeme@, false), Defect::AlreadyDeclared, name)
        } else {
            Outcome::at(self.marked(name.lexeme@, false))
        }
    }

    /// Resolving the site `site` of `name`: the distance to the nearest scope
    /// that holds the name is recorded; where none does, nothing is.
    pub open spec fn located(self, site: usize, name: Token) -> Outcome {
        match depth_from(self.scopes, name.lexeme@, 0) {
            Some(d) => Outcome { context: self, sites: seq![(site, d as usize)], errors: Seq::empty() },
            None => Outcome::at(self),
        }
    }
}

/// Resolving an expression.
pub open spec fn resolve_expr(c: Context, expr: Expr) -> Outcome
    decreases expr,
{
    match expr {
        Expr::Variable(site, name) => if c.scopes.len() > 0 && c.scopes.last().contains_key(
            name.lexeme@,
        ) && !c.scopes.last()[name.lexeme@] {
            Outcome::defect(c, Defect::OwnInitializer, name)
        } else {
            c.located(site, name)
        },
        Expr::Assign(site, name, value) => {
            let first = resolve_expr(c, *value);
            first.followed(first.context.located(site, name))
        },
        Expr::Binary(left, _, right) => {
            let first = resolve_expr(c, *left);
            first.followed(resolve_expr(first.context, *right))
        },
        Expr::Call(callee, _, arguments) => {
            let first = resolve_expr(c, *callee);
            first.followed(resolve_exprs(first.context, arguments@, arguments@.len()))
        },
        Expr::Get(object, _) => resolve_expr(c, *object),
        Expr::SetField(object, _, value) => {
            let first = resolve_expr(c, *value);
            first.followed(resolve_expr(first.context, *object))
        },
        Expr::Super(site, keyword, _) => if c.class == ClassType::Outside {
            Outcome::defect(c, Defect::SuperOutsideClass, keyword)
        } else if c.class != ClassType::SubClass {
            Outcome::defect(c, Defect::SuperWithoutSuperclass, keyword)
        } else {
            c.located(site, keyword)
        },
        Expr::This(site, keyword) => if c.class == ClassType::Outside {
            Outcome::defect(c, Defect::ThisOutsideClass, keyword)
        } else {
            c.located(site, keyword)
        },
        Expr::Grouping(inner) => resolve_expr(c, *inner),
        Expr::Literal(_) => Outcome::at(c),
        Expr::Logical(left, _, right) => {
            let first = resolve_expr(c, *left);
            first.followed(resolve_expr(first.context, *right))
        },
        Expr::Unary(_, right) => resolve_expr(c, *right),
    }
}

/// Resolving the first `count` of a sequence of expressions, in order.
pub open spec fn resolve_exprs(c: Context, exprs: Seq<Expr>, count: nat) -> Outcome
    decreases exprs, count,
{
    if count == 0 || count > exprs.len() {
        Outcome::at(c)
    } else {
        let first = resolve_exprs(c, exprs, (count - 1) as nat);
        first.followed(resolve_expr(first.context, exprs[count - 1]))
    }
}

/// Declaring and defining the first `count` parameters, in order.
pub open spec fn resolve_params(c: Context, params: Seq<Token>, count: nat) -> Outcome
    decreases count,
{
    if count == 0 || count > params.len() {
        Outcome::at(c)
    } else {
        let first = resolve_params(c, params, (count - 1) as nat);
        let second = first.context.declared(params[count - 1]);
        first.followed(second).moved(second.context.marked(params[count - 1].lexeme@, true))
    }
}

/// True when the class `name` names itself as its superclass.
pub open spec fn inherits_itself(name: Token, superclass: Option<Expr>) -> bool {
    superclass matches Some(Expr::Variable(_, parent)) && parent.lexeme@ == name.lexeme@
}

/// The kind under which a method is resolved.
pub open spec fn method_kind(method: Stmt) -> FunctionType {
    if method matches Stmt::Function(name, _, _) && name.lexeme@ == "init"@ {
        FunctionType::Initializer
    } else {
        FunctionType::Method
    }
}

/// Resolving a function declaration as a function of the given kind: its
/// parameters and its body share one fresh scope. Anything that is no
/// function declaration resolves to nothing.
pub open spec fn resolve_function(c: Context, stmt: Stmt, kind: FunctionType) -> Outcome
    decreases stmt, 0nat,
{
    match stmt {
        Stmt::Function(_, params, body) => {
            let first = resolve_params(c.in_function(kind).begun(), params@, params@.len());
            let second = first.followed(resolve_all(first.context, body@, body@.len()));
            second.moved(second.context.ended().in_function(c.function))
        },
        _ => Outcome::at(c),
    }
}

/// Resolving the first `count` methods of a class, in order.
pub open spec fn resolve_methods(c: Context, methods: Seq<Stmt>, count: nat) -> Outcome
    decreases methods, count,
{
    if count == 0 || count > methods.len() {
        Outcome::at(c)
    } else {
        let first = resolve_methods(c, methods, (count - 1) as nat);
        first.followed(
            resolve_function(first.context, methods[count - 1], method_kind(methods[count - 1])),
        )
    }
}

/// Resolving a statement.
pub open spec fn resolve_stmt(c: Context, stmt: Stmt) -> Outcome
    decreases stmt, 1nat,
{
    match stmt {
        Stmt::Block(statements) => {
            let inner = resolve_all(c.begun(), statements@, statements@.len());
            inner.moved(inner.context.ended())
        },
        Stmt::Class(name, superclass, methods) => {
            let declared = c.in_class(ClassType::Class).declared(name);
            let defined = declared.moved(declared.context.marked(name.lexeme@, true));
            let checked = if inherits_itself(name, superclass) {
                defined.followed(Outcome::defect(defined.context, Defect::InheritsItself, name))
            } else {
                defined
            };
            let opened = match superclass {
                Some(parent) => {
                    let resolved = checked.followed(
                        resolve_expr(checked.context.in_class(ClassType::SubClass), parent),
                    );
                    resolved.moved(resolved.context.begun().marked("super"@, true))
                },
                None => checked,
            };
            let entered = opened.moved(opened.context.begun().marked("this"@, true));
            let done = entered.followed(resolve_methods(entered.context, methods@, methods@.len()));
            let left = match superclass {
                Some(_) => done.context.ended().ended(),
                None => done.context.ended(),
            };
            done.moved(left.in_class(c.class))
        },
        Stmt::Var(name, initializer) => {
            let declared = c.declared(name);
            let resolved = match initializer {
                Some(init) => declared.followed(resolve_expr(declared.context, init)),
                None => declared,
            };
            resolved.moved(resolved.context.marked(name.lexeme@, true))
        },
        Stmt::Function(name, _, _) => {
            let declared = c.declared(name);
            let defined = declared.moved(declared.context.marked(name.lexeme@, true));
            defined.followed(resolve_function(defined.context, stmt, FunctionType::Function))
        },
        Stmt::Expression(expr) => resolve_expr(c, expr),
        Stmt::If(condition, then_branch, else_branch) => {
            let first = resolve_expr(c, condition);
            let second = first.followed(resolve_stmt(first.context, *then_branch));
            match else_branch {
                Some(branch) => second.followed(resolve_stmt(second.context, *branch)),
                None => second,
            }
        },
        Stmt::Print(expr) => resolve_expr(c, expr),
        Stmt::Return(keyword, value) => {
            let checked = if c.function == FunctionType::Outside {
                Outcome::defect(c, Defect::TopLevelReturn, keyword)
            } else if c.function == FunctionType::Initializer && !(value matches Expr::Literal(
                Literal::Nil,
            )) {
                Outcome::defect(c, Defect::InitializerReturn, keyword)
            } else {
                Outcome::at(c)
            };
            checked.followed(resolve_expr(c, value))
        },
        Stmt::While(condition, body) => {
            let first = resolve_expr(c, condition);
            first.followed(resolve_stmt(first.context, *body))
        },
    }
}

/// Resolving the first `count` of a sequence of statements, in order.
pub open spec fn resolve_all(c: Context, statements: Seq<Stmt>, count: nat) -> Outcome
    decreases statements, count,
{
    if count == 0 || count > statements.len() {
        Outcome::at(c)
    } else {
        let first = resolve_all(c, statements, (count - 1) as nat);
        first.followed(resolve_stmt(first.context, statements[count - 1]))
    }
}


/// Following is associative.
pub broadcast proof fn lemma_followed_twice(a: Outcome, b: Outcome, c: Outcome)
    ensures
        #[trigger] a.followed(b).followed(c) == a.followed(b.followed(c)),
{
    assert(a.followed(b).followed(c) =~= a.followed(b.followed(c)));
}

/// Following by an outcome in which nothing happened changes nothing.
pub broadcast proof fn lemma_followed_by_nothing(a: Outcome)
    ensures
        #[trigger] a.followed(Outcome::at(a.context)) == a,
{
    assert(a.followed(Outcome::at(a.context)) =~= a);
}

/// The resolver: one pass over a program that records, for each site that
/// names a local binding, how many scopes up the binding lies, and collects
/// every defect it finds.
pub struct Resolver {
    scopes: Vec<StringHashMap<bool>>,
    current_function: FunctionType,
    current_class: ClassType,
    sites: Vec<(usize, usize)>,
    errors: Vec<Diagnostic>,
}

impl View for Resolver {
    type V = Outcome;

    closed spec fn view(&self) -> Outcome {
        Outcome {
            context: Context {
                scopes: Seq::new(self.scopes@.len(), |i: int| self.scopes@[i]@),
                function: self.current_function,
                class: self.current_class,
            },
            sites: self.sites@,
            errors: self.errors@,
        }
    }
}

impl Resolver {
    /// A resolver at the start of a pass, with nothing recorded.
    pub fn new() -> (r: Self)
        ensures
            r@ == Outcome::at(Context::start()),
    {
        let r = Resolver {
            scopes: Vec::new(),
            current_function: FunctionType::Outside,
            current_class: ClassType::Outside,
            sites: Vec::new(),
            errors: Vec::new(),
        };
        assert(r@ =~= Outcome::at(Context::start()));
        r
    }

    /// The sites resolved so far, each with its distance, in the order in
    /// which they were met.
    pub fn resolutions(&self) -> (r: &Vec<(usize, usize)>)
        ensures
            r@ == self@.sites,
    {
        &self.sites
    }

    fn begin_scope(&mut self)
        ensures
            final(self)@ == old(self)@.moved(old(self)@.context.begun()),
    {
        self.scopes.push(StringHashMap::new());
        assert(self@ =~= old(self)@.moved(old(self)@.context.begun()));
    }

    fn end_scope(&mut self)
        ensures
            final(self)@ == old(self)@.moved(old(self)@.context.ended()),
    {
        self.scopes.pop();
        assert(self@ =~= old(self)@.moved(old(self)@.context.ended()));
    }

    fn mark(&mut self, name: &str, ready: bool)
        ensures
            final(self)@ == old(self)@.moved(old(self)@.context.marked(name@, ready)),
    {
        let n = self.scopes.len();
        if n > 0 {
            self.scopes[n - 1].insert(String::from_str(name), ready);
        }
        assert(self@ =~= old(self)@.moved(old(self)@.context.marked(name@, ready)));
    }

    fn report(&mut self, kind: Defect, token: &Token)
        ensures
            final(self)@ == old(self)@.followed(Outcome::defect(old(self)@.context, kind, *token)),
    {
        self.errors.push(Diagnostic::new(kind, token));
        assert(self@ =~= old(self)@.followed(Outcome::defect(old(self)@.context, kind, *token)));
    }

    fn declare(&mut self, name: &Token)
        ensures
            final(self)@ == old(self)@.followed(old(self)@.context.declared(*name)),
    {
        let n = self.scopes.len();
        if n > 0 && self.scopes[n - 1].contains_key(name.lexeme.as_str()) {
            self.report(Defect::AlreadyDeclared, name);
        }
        self.mark(name.lexeme.as_str(), false);
        assert(self@ =~= old(self)@.followed(old(self)@.context.declared(*name)));
    }

    fn define(&mut self, name: &Token)
        ensures
            final(self)@ == old(self)@.moved(old(self)@.context.marked(name.lexeme@, true)),
    {
        self.mark(name.lexeme.as_str(), true);
    }

    fn resolve_local(&mut self, site: usize, name: &Token)
        ensures
            final(self)@ == old(self)@.followed(old(self)@.context.located(site, *name)),
    {
        let n = self.scopes.len();
        let mut i: usize = 0;
        while i < n
            invariant
                i <= n,
                n == self.scopes@.len(),
                self@ == old(self)@,
                depth_from(self@.context.scopes, name.lexeme@, 0) == depth_from(
                    self@.context.scopes,
                    name.lexeme@,
                    i as nat,
                ),
            decreases n - i,
        {
            if self.scopes[n - 1 - i].contains_key(name.lexeme.as_str()) {
                self.sites.push((site, i));
                assert(self@ =~= old(self)@.followed(old(self)@.context.located(site, *name)));
                return ;
            }
            i += 1;
        }
        assert(self@ =~= old(self)@.followed(old(self)@.context.located(site, *name)));
    }

    fn is_pending(&self, name: &Token) -> (r: bool)
        ensures
            r == (self@.context.scopes.len() > 0 && self@.context.scopes.last().contains_key(
                name.lexeme@,
            ) && !self@.context.scopes.last()[name.lexeme@]),
    {
        let n = self.scopes.len();
        if n == 0 {
            return false;
        }
        match self.scopes[n - 1].get(name.lexeme.as_str()) {
            Some(ready) => !*ready,
            None => false,
        }
    }

    fn resolve_expr(&mut self, expr: &Expr)
        ensures
            final(self)@ == old(self)@.followed(resolve_expr(old(self)@.context, *expr)),
        decreases expr,
    {
        let ghost start = self@;
        match expr {
            Expr::Variable(site, name) => {
                if self.is_pending(name) {
                    self.report(Defect::OwnInitializer, name);
                } else {
                    self.resolve_local(*site, name);
                }
            },
            Expr::Assign(site, name, value) => {
                self.resolve_expr(&**value);
                let ghost first = resolve_expr(start.context, **value);
                self.resolve_local(*site, name);
                proof {
                    lemma_followed_twice(start, first, first.context.located(*site, *name));
                }
            },
            Expr::Binary(left, _, right) => {
                self.resolve_expr(&**left);
                let ghost first = resolve_expr(start.context, **left);
                self.resolve_expr(&**right);
                proof {
                    lemma_followed_twice(start, first, resolve_expr(first.context, **right));
                }
            },
            Expr::Call(callee, _, arguments) => {
                self.resolve_expr(&**callee);
                let ghost first = resolve_expr(start.context, **callee);
                self.resolve_exprs(arguments);
                proof {
                    lemma_followed_twice(
                        start,
                        first,
                        resolve_exprs(first.context, arguments@, arguments@.len()),
                    );
                }
            },
            Expr::Get(object, _) => {
                self.resolve_expr(&**object);
            },
            Expr::SetField(object, _, value) => {
                self.resolve_expr(&**value);
                let ghost first = resolve_expr(start.context, **value);
                self.resolve_expr(&**object);
                proof {
                    lemma_followed_twice(start, first, resolve_expr(first.context, **object));
                }
            },
            Expr::Super(site, keyword, _) => {
                if self.current_class == ClassType::Outside {
                    self.report(Defect::SuperOutsideClass, keyword);
                } else if self.current_class != ClassType::SubClass {
                    self.report(Defect::SuperWithoutSuperclass, keyword);
                } else {
                    self.resolve_local(*site, keyword);
                }
            },
            Expr::This(site, keyword) => {
                if self.current_class == ClassType::Outside {
                    self.report(Defect::ThisOutsideClass, keyword);
                } else {
                    self.resolve_local(*site, keyword);
                }
            },
            Expr::Grouping(inner) => {
                self.resolve_expr(&**inner);
            },
            Expr::Literal(_) => {
                proof {
                    lemma_followed_by_nothing(start);
                }
            },
            Expr::Logical(left, _, right) => {
                self.resolve_expr(&**left);
                let ghost first = resolve_expr(start.context, **left);
                self.resolve_expr(&**right);
                proof {
                    lemma_followed_twice(start, first, resolve_expr(first.context, **right));
                }
            },
            Expr::Unary(_, right) => {
                self.resolve_expr(&**right);
            },
        }
    }

    fn resolve_exprs(&mut self, exprs: &Vec<Expr>)
        ensures
            final(self)@ == old(self)@.followed(
                resolve_exprs(old(self)@.context, exprs@, exprs@.len()),
            ),
        decreases exprs, 0nat,
    {
        let ghost start = self@;
        proof {
            lemma_followed_by_nothing(start);
        }
        let mut i: usize = 0;
        while i < exprs.len()
            invariant
                i <= exprs.len(),
                self@ == start.followed(resolve_exprs(start.context, exprs@, i as nat)),
            decreases exprs.len() - i,
        {
            let ghost done = resolve_exprs(start.context, exprs@, i as nat);
            self.resolve_expr(&exprs[i]);
            proof {
                lemma_followed_twice(start, done, resolve_expr(done.context, exprs@[i as int]));
            }
            i += 1;
        }
    }

    fn resolve_params(&mut self, params: &Vec<Token>)
        ensures
            final(self)@ == old(self)@.followed(
                resolve_params(old(self)@.context, params@, params@.len()),
            ),
    {
        let ghost start = self@;
        proof {
            lemma_followed_by_nothing(start);
        }
        let mut i: usize = 0;
        while i < params.len()
            invariant
                i <= params.len(),
                self@ == start.followed(resolve_params(start.context, params@, i as nat)),
            decreases params.len() - i,
        {
            let ghost done = resolve_params(start.context, params@, i as nat);
            self.declare(&params[i]);
            proof {
                lemma_followed_twice(start, done, done.context.declared(params@[i as int]));
            }
            self.define(&params[i]);
            i += 1;
            assert(self@ =~= start.followed(resolve_params(start.context, params@, i as nat)));
        }
    }

    fn resolve_statements(&mut self, statements: &Vec<Stmt>)
        ensures
            final(self)@ == old(self)@.followed(
                resolve_all(old(self)@.context, statements@, statements@.len()),
            ),
        decreases statements, 0nat,
    {
        let ghost start = self@;
        proof {
            lemma_followed_by_nothing(start);
        }
        let mut i: usize = 0;
        while i < statements.len()
            invariant
                i <= statements.len(),
                self@ == start.followed(resolve_all(start.context, statements@, i as nat)),
            decreases statements.len() - i,
        {
            let ghost done = resolve_all(start.context, statements@, i as nat);
            self.resolve_stmt(&statements[i]);
            proof {
                lemma_followed_twice(
                    start,
                    done,
                    resolve_stmt(done.context, statements@[i as int]),
                );
            }
            i += 1;
        }
    }

    fn resolve_methods(&mut self, methods: &Vec<Stmt>)
        ensures
            final(self)@ == old(self)@.followed(
                resolve_methods(old(self)@.context, methods@, methods@.len()),
            ),
        decreases methods, 0nat,
    {
        let ghost start = self@;
        proof {
            lemma_followed_by_nothing(start);
        }
        let mut i: usize = 0;
        while i < methods.len()
            invariant
                i <= methods.len(),
                self@ == start.followed(resolve_methods(start.context, methods@, i as nat)),
            decreases methods.len() - i,
        {
            let ghost done = resolve_methods(start.context, methods@, i as nat);
            let kind = match &methods[i] {
                Stmt::Function(method_name, _, _) => {
                    if same_text(method_name.lexeme.as_str(), "init") {
                        FunctionType::Initializer
                    } else {
                        FunctionType::Method
                    }
                },
                _ => FunctionType::Method,
            };
            self.resolve_function(&methods[i], kind);
            proof {
                lemma_followed_twice(
                    start,
                    done,
                    resolve_function(done.context, methods@[i as int], kind),
                );
            }
            i += 1;
        }
    }

    fn resolve_function(&mut self, stmt: &Stmt, kind: FunctionType)
        ensures
            final(self)@ == old(self)@.followed(resolve_function(old(self)@.context, *stmt, kind)),
        decreases stmt, 0nat,
    {
        let ghost start = self@;
        match stmt {
            Stmt::Function(_, params, body) => {
                let enclosing = self.current_function;
                self.current_function = kind;
                self.begin_scope();
                let ghost opened = self@;
                assert(opened =~= start.moved(start.context.in_function(kind).begun()));
                self.resolve_params(params);
                let ghost first = resolve_params(opened.context, params@, params@.len());
                self.resolve_statements(body);
                let ghost second = resolve_all(first.context, body@, body@.len());
                proof {
                    lemma_followed_twice(opened, first, second);
                }
                self.end_scope();
                self.current_function = enclosing;
                assert(self@ =~= start.followed(resolve_function(start.context, *stmt, kind)));
            },
            _ => {
                proof {
                    lemma_followed_by_nothing(start);
                }
            },
        }
    }

    fn resolve_block(&mut self, statements: &Vec<Stmt>)
        ensures
            final(self)@ == old(self)@.followed(
                ({
                    let inner = resolve_all(
                        old(self)@.context.begun(),
                        statements@,
                        statements@.len(),
                    );
                    inner.moved(inner.context.ended())
                }),
            ),
        decreases statements, 1nat,
    {
        let ghost start = self@;
        self.begin_scope();
        self.resolve_statements(statements);
        self.end_scope();
        assert(self@ =~= start.followed(
            ({
                let inner = resolve_all(start.context.begun(), statements@, statements@.len());
                inner.moved(inner.context.ended())
            }),
        ));
    }

    fn resolve_class(&mut self, statement: &Stmt)
        requires
            statement is Class,
        ensures
            final(self)@ == old(self)@.followed(resolve_stmt(old(self)@.context, *statement)),
        decreases statement, 1nat,
    {
        let ghost start = self@;
        match statement {
            Stmt::Class(name, superclass, methods) => {
                let enclosing_class = self.current_class;
                self.current_class = ClassType::Class;
                self.declare(name);
                self.define(name);
                let ghost declared = start.context.in_class(ClassType::Class).declared(*name);
                let ghost defined = declared.moved(declared.context.marked(name.lexeme@, true));
                assert(self@ =~= start.followed(defined));
                let itself = match superclass {
                    Some(Expr::Variable(_, parent)) => same_text(
                        parent.lexeme.as_str(),
                        name.lexeme.as_str(),
                    ),
                    _ => false,
                };
                if itself {
                    self.report(Defect::InheritsItself, name);
                    proof {
                        lemma_followed_twice(
                            start,
                            defined,
                            Outcome::defect(defined.context, Defect::InheritsItself, *name),
                        );
                    }
                }
                let ghost checked = if inherits_itself(*name, *superclass) {
                    defined.followed(
                        Outcome::defect(defined.context, Defect::InheritsItself, *name),
                    )
                } else {
                    defined
                };
                assert(self@ == start.followed(checked));
                match superclass {
                    Some(parent) => {
                        self.current_class = ClassType::SubClass;
                        let ghost inside = self@;
                        assert(inside =~= start.followed(
                            checked.moved(checked.context.in_class(ClassType::SubClass)),
                        ));
                        self.resolve_expr(parent);
                        proof {
                            lemma_followed_twice(
                                start,
                                checked.moved(checked.context.in_class(ClassType::SubClass)),
                                resolve_expr(
                                    checked.context.in_class(ClassType::SubClass),
                                    *parent,
                                ),
                            );
                        }
                        self.begin_scope();
                        self.mark("super", true);
                    },
                    None => {},
                }
                let ghost opened = match superclass {
                    Some(parent) => {
                        let resolved = checked.followed(
                            resolve_expr(checked.context.in_class(ClassType::SubClass), *parent),
                        );
                        resolved.moved(resolved.context.begun().marked("super"@, true))
                    },
                    None => checked,
                };
                assert(self@ =~= start.followed(opened));
                self.begin_scope();
                self.mark("this", true);
                let ghost entered = opened.moved(opened.context.begun().marked("this"@, true));
                assert(self@ =~= start.followed(entered));
                self.resolve_methods(methods);
                proof {
                    lemma_followed_twice(
                        start,
                        entered,
                        resolve_methods(entered.context, methods@, methods@.len()),
                    );
                }
                self.end_scope();
                if superclass.is_some() {
                    self.end_scope();
                }
                self.current_class = enclosing_class;
                assert(self@ =~= start.followed(resolve_stmt(start.context, *statement)));
            },
            _ => {},
        }
    }

    fn resolve_var(&mut self, statement: &Stmt)
        requires
            statement is Var,
        ensures
            final(self)@ == old(self)@.followed(resolve_stmt(old(self)@.context, *statement)),
        decreases statement, 1nat,
    {
        let ghost start = self@;
        match statement {
            Stmt::Var(name, initializer) => {
                self.declare(name);
                let ghost declared = start.context.declared(*name);
                match initializer {
                    Some(init) => {
                        self.resolve_expr(init);
                        proof {
                            lemma_followed_twice(
                                start,
                                declared,
                                resolve_expr(declared.context, *init),
                            );
                        }
                    },
                    None => {},
                }
                self.define(name);
                assert(self@ =~= start.followed(resolve_stmt(start.context, *statement)));
            },
            _ => {},
        }
    }

    fn resolve_declaration(&mut self, statement: &Stmt)
        requires
            statement is Function,
        ensures
            final(self)@ == old(self)@.followed(resolve_stmt(old(self)@.context, *statement)),
        decreases statement, 1nat,
    {
        let ghost start = self@;
        match statement {
            Stmt::Function(name, _, _) => {
                self.declare(name);
                self.define(name);
                let ghost declared = start.context.declared(*name);
                let ghost defined = declared.moved(declared.context.marked(name.lexeme@, true));
                assert(self@ =~= start.followed(defined));
                self.resolve_function(statement, FunctionType::Function);
                proof {
                    lemma_followed_twice(
                        start,
                        defined,
                        resolve_function(defined.context, *statement, FunctionType::Function),
                    );
                }
            },
            _ => {},
        }
    }

    fn resolve_if(&mut self, statement: &Stmt)
        requires
            statement is If,
        ensures
            final(self)@ == old(self)@.followed(resolve_stmt(old(self)@.context, *statement)),
        decreases statement, 1nat,
    {
        let ghost start = self@;
        match statement {
            Stmt::If(condition, then_branch, else_branch) => {
                self.resolve_expr(condition);
                let ghost first = resolve_expr(start.context, *condition);
                self.resolve_stmt(&**then_branch);
                let ghost second = first.followed(resolve_stmt(first.context, **then_branch));
                proof {
                    lemma_followed_twice(
                        start,
                        first,
                        resolve_stmt(first.context, **then_branch),
                    );
                }
                match else_branch {
                    Some(branch) => {
                        self.resolve_stmt(&**branch);
                        proof {
                            lemma_followed_twice(
                                start,
                                second,
                                resolve_stmt(second.context, **branch),
                            );
                        }
                    },
                    None => {},
                }
            },
            _ => {},
        }
    }

    fn resolve_return(&mut self, statement: &Stmt)
        requires
            statement is Return,
        ensures
            final(self)@ == old(self)@.followed(resolve_stmt(old(self)@.context, *statement)),
        decreases statement, 1nat,
    {
        let ghost start = self@;
        match statement {
            Stmt::Return(keyword, value) => {
                let nil = match value {
                    Expr::Literal(Literal::Nil) => true,
                    _ => false,
                };
                if self.current_function == FunctionType::Outside {
                    self.report(Defect::TopLevelReturn, keyword);
                } else if self.current_function == FunctionType::Initializer && !nil {
                    self.report(Defect::InitializerReturn, keyword);
                } else {
                    proof {
                        lemma_followed_by_nothing(start);
                    }
                }
                let ghost checked = if start.context.function == FunctionType::Outside {
                    Outcome::defect(start.context, Defect::TopLevelReturn, *keyword)
                } else if start.context.function == FunctionType::Initializer && !(
                *value matches Expr::Literal(Literal::Nil)) {
                    Outcome::defect(start.context, Defect::InitializerReturn, *keyword)
                } else {
                    Outcome::at(start.context)
                };
                assert(self@ == start.followed(checked));
                self.resolve_expr(value);
                proof {
                    lemma_followed_twice(start, checked, resolve_expr(start.context, *value));
                }
            },
            _ => {},
        }
    }

    fn resolve_while(&mut self, statement: &Stmt)
        requires
            statement is While,
        ensures
            final(self)@ == old(self)@.followed(resolve_stmt(old(self)@.context, *statement)),
        decreases statement, 1nat,
    {
        let ghost start = self@;
        match statement {
            Stmt::While(condition, body) => {
                self.resolve_expr(condition);
                let ghost first = resolve_expr(start.context, *condition);
                self.resolve_stmt(&**body);
                proof {
                    lemma_followed_twice(start, first, resolve_stmt(first.context, **body));
                }
            },
            _ => {},
        }
    }

    fn resolve_stmt(&mut self, statement: &Stmt)
        ensures
            final(self)@ == old(self)@.followed(resolve_stmt(old(self)@.context, *statement)),
        decreases statement, 2nat,
    {
        match statement {
            Stmt::Block(statements) => {
                self.resolve_block(statements);
            },
            Stmt::Class(_, _, _) => {
                self.resolve_class(statement);
            },
            Stmt::Var(_, _) => {
                self.resolve_var(statement);
            },
            Stmt::Function(_, _, _) => {
                self.resolve_declaration(statement);
            },
            Stmt::Expression(expr) => {
                self.resolve_expr(expr);
            },
            Stmt::If(_, _, _) => {
                self.resolve_if(statement);
            },
            Stmt::Print(expr) => {
                self.resolve_expr(expr);
            },
            Stmt::Return(_, _) => {
                self.resolve_return(statement);
            },
            Stmt::While(_, _) => {
                self.resolve_while(statement);
            },
        }
    }

    /// Resolves `statements`, in order, and gives back every defect found
    /// since the diagnostics were last given back: `Ok` where there is none.
    /// The sites resolved are added to [`Resolver::resolutions`].
    pub fn resolve(&mut self, statements: &[Stmt]) -> (r: Result<(), Vec<Diagnostic>>)
        ensures
            ({
                let out = old(self)@.followed(
                    resolve_all(old(self)@.context, statements@, statements@.len()),
                );
                &&& final(self)@ == (Outcome { errors: Seq::empty(), ..out })
                &&& match r {
                    Ok(_) => out.errors.len() == 0,
                    Err(found) => found@ == out.errors && out.errors.len() > 0,
                }
            }),
    {
        broadcast use {lemma_followed_twice, lemma_followed_by_nothing};

        let mut i: usize = 0;
        while i < statements.len()
            invariant
                i <= statements.len(),
                self@ == old(self)@.followed(
                    resolve_all(old(self)@.context, statements@, i as nat),
                ),
            decreases statements.len() - i,
        {
            self.resolve_stmt(&statements[i]);
            i += 1;
        }
        let mut found: Vec<Diagnostic> = Vec::new();
        std::mem::swap(&mut self.errors, &mut found);
        if found.len() == 0 {
            Ok(())
        } else {
            Err(found)
        }
    }
}


/// The table of distances after `sites` have been entered into `table`, in
/// order: a later entry for a site replaces an earlier one.
pub open spec fn recorded(table: Map<usize, usize>, sites: Seq<(usize, usize)>) -> Map<usize, usize>
    decreases sites.len(),
{
    if sites.len() == 0 {
        table
    } else {
        recorded(table, sites.drop_last()).insert(sites.last().0, sites.last().1)
    }
}

/// The distance that the last entry for `site` gives, if there is an entry.
pub open spec fn last_entry(sites: Seq<(usize, usize)>, site: usize) -> Option<usize>
    decreases sites.len(),
{
    if sites.len() == 0 {
        None
    } else if sites.last().0 == site {
        Some(sites.last().1)
    } else {
        last_entry(sites.drop_last(), site)
    }
}

/// A site of the table after `sites` were entered has the distance of its
/// last entry, or, where it has no entry, what the table had before.
pub proof fn lemma_recorded_entry(table: Map<usize, usize>, sites: Seq<(usize, usize)>, site: usize)
    ensures
        recorded(table, sites).contains_key(site) == (last_entry(sites, site).is_some()
            || table.contains_key(site)),
        recorded(table, sites)[site] == match last_entry(sites, site) {
            Some(distance) => distance,
            None => table[site],
        },
    decreases sites.len(),
{
    if sites.len() > 0 {
        lemma_recorded_entry(table, sites.drop_last(), site);
    }
}

/// Entering the same sites a second time changes nothing.
pub proof fn lemma_recorded_twice(table: Map<usize, usize>, sites: Seq<(usize, usize)>)
    ensures
        recorded(recorded(table, sites), sites) == recorded(table, sites),
{
    let once = recorded(table, sites);
    let twice = recorded(once, sites);
    assert forall|site: usize| #[trigger]
        twice.dom().contains(site) == once.dom().contains(site) && twice[site] == once[site] by {
        lemma_recorded_entry(table, sites, site);
        lemma_recorded_entry(once, sites, site);
    }
    assert(twice =~= once);
}

/// Two places of the resolver that differ at most in what their scopes hold.
pub open spec fn same_shape(a: Context, b: Context) -> bool {
    &&& a.function == b.function
    &&& a.class == b.class
    &&& a.scopes.len() == b.scopes.len()
}

/// Resolving an expression leaves the resolver where it was.
pub proof fn lemma_expr_keeps_context(c: Context, expr: Expr)
    ensures
        resolve_expr(c, expr).context == c,
    decreases expr,
{
    match expr {
        Expr::Assign(_, _, value) => {
            lemma_expr_keeps_context(c, *value);
        },
        Expr::Binary(left, _, right) => {
            lemma_expr_keeps_context(c, *left);
            lemma_expr_keeps_context(c, *right);
        },
        Expr::Call(callee, _, arguments) => {
            lemma_expr_keeps_context(c, *callee);
            lemma_exprs_keep_context(c, arguments@, arguments@.len());
        },
        Expr::Get(object, _) => {
            lemma_expr_keeps_context(c, *object);
        },
        Expr::SetField(object, _, value) => {
            lemma_expr_keeps_context(c, *value);
            lemma_expr_keeps_context(c, *object);
        },
        Expr::Grouping(inner) => {
            lemma_expr_keeps_context(c, *inner);
        },
        Expr::Logical(left, _, right) => {
            lemma_expr_keeps_context(c, *left);
            lemma_expr_keeps_context(c, *right);
        },
        Expr::Unary(_, right) => {
            lemma_expr_keeps_context(c, *right);
        },
        _ => {},
    }
}

/// Resolving expressions leaves the resolver where it was.
pub proof fn lemma_exprs_keep_context(c: Context, exprs: Seq<Expr>, count: nat)
    ensures
        resolve_exprs(c, exprs, count).context == c,
    decreases exprs, count,
{
    if !(count == 0 || count > exprs.len()) {
        lemma_exprs_keep_context(c, exprs, (count - 1) as nat);
        lemma_expr_keeps_context(c, exprs[count - 1]);
    }
}

/// Declaring parameters keeps the shape of the resolver's place.
pub proof fn lemma_params_keep_shape(c: Context, params: Seq<Token>, count: nat)
    ensures
        same_shape(resolve_params(c, params, count).context, c),
    decreases count,
{
    if !(count == 0 || count > params.len()) {
        lemma_params_keep_shape(c, params, (count - 1) as nat);
    }
}

/// Resolving a function declaration keeps the shape of the resolver's place.
pub proof fn lemma_function_keeps_shape(c: Context, stmt: Stmt, kind: FunctionType)
    ensures
        same_shape(resolve_function(c, stmt, kind).context, c),
    decreases stmt, 0nat,
{
    match stmt {
        Stmt::Function(_, params, body) => {
            let opened = c.in_function(kind).begun();
            lemma_params_keep_shape(opened, params@, params@.len());
            let first = resolve_params(opened, params@, params@.len());
            lemma_all_keep_shape(first.context, body@, body@.len());
        },
        _ => {},
    }
}

/// Resolving methods keeps the shape of the resolver's place.
pub proof fn lemma_methods_keep_shape(c: Context, methods: Seq<Stmt>, count: nat)
    ensures
        same_shape(resolve_methods(c, methods, count).context, c),
    decreases methods, count,
{
    if !(count == 0 || count > methods.len()) {
        lemma_methods_keep_shape(c, methods, (count - 1) as nat);
        let first = resolve_methods(c, methods, (count - 1) as nat);
        lemma_function_keeps_shape(
            first.context,
            methods[count - 1],
            method_kind(methods[count - 1]),
        );
    }
}

/// Resolving a class declaration keeps the shape of the resolver's place.
pub proof fn lemma_class_keeps_shape(c: Context, stmt: Stmt)
    requires
        stmt is Class,
    ensures
        same_shape(resolve_stmt(c, stmt).context, c),
    decreases stmt, 0nat,
{
    match stmt {
        Stmt::Class(name, superclass, methods) => {
            let declared = c.in_class(ClassType::Class).declared(name);
            let defined = declared.moved(declared.context.marked(name.lexeme@, true));
            let checked = if inherits_itself(name, superclass) {
                defined.followed(Outcome::defect(defined.context, Defect::InheritsItself, name))
            } else {
                defined
            };
            let opened = match superclass {
                Some(parent) => {
                    lemma_expr_keeps_context(
                        checked.context.in_class(ClassType::SubClass),
                        parent,
                    );
                    let resolved = checked.followed(
                        resolve_expr(checked.context.in_class(ClassType::SubClass), parent),
                    );
                    resolved.moved(resolved.context.begun().marked("super"@, true))
                },
                None => checked,
            };
            let entered = opened.moved(opened.context.begun().marked("this"@, true));
            lemma_methods_keep_shape(entered.context, methods@, methods@.len());
        },
        _ => {},
    }
}

/// Resolving a statement keeps the shape of the resolver's place: as many
/// scopes around it as before, inside the same kinds of function and class.
pub proof fn lemma_stmt_keeps_shape(c: Context, stmt: Stmt)
    ensures
        same_shape(resolve_stmt(c, stmt).context, c),
    decreases stmt, 1nat,
{
    match stmt {
        Stmt::Block(statements) => {
            lemma_all_keep_shape(c.begun(), statements@, statements@.len());
        },
        Stmt::Class(_, _, _) => {
            lemma_class_keeps_shape(c, stmt);
        },
        Stmt::Var(name, initializer) => {
            match initializer {
                Some(init) => {
                    lemma_expr_keeps_context(c.declared(name).context, init);
                },
                None => {},
            }
        },
        Stmt::Function(name, _, _) => {
            let declared = c.declared(name);
            let defined = declared.moved(declared.context.marked(name.lexeme@, true));
            lemma_function_keeps_shape(defined.context, stmt, FunctionType::Function);
        },
        Stmt::Expression(expr) => {
            lemma_expr_keeps_context(c, expr);
        },
        Stmt::If(condition, then_branch, else_branch) => {
            lemma_expr_keeps_context(c, condition);
            lemma_stmt_keeps_shape(c, *then_branch);
            match else_branch {
                Some(branch) => {
                    let first = resolve_expr(c, condition);
                    let second = first.followed(resolve_stmt(first.context, *then_branch));
                    lemma_stmt_keeps_shape(second.context, *branch);
                },
                None => {},
            }
        },
        Stmt::Print(expr) => {
            lemma_expr_keeps_context(c, expr);
        },
        Stmt::Return(_, value) => {
            lemma_expr_keeps_context(c, value);
        },
        Stmt::While(condition, body) => {
            lemma_expr_keeps_context(c, condition);
            lemma_stmt_keeps_shape(c, *body);
        },
    }
}

/// Resolving statements keeps the shape of the resolver's place.
pub proof fn lemma_all_keep_shape(c: Context, statements: Seq<Stmt>, count: nat)
    ensures
        same_shape(resolve_all(c, statements, count).context, c),
    decreases statements, count,
{
    if !(count == 0 || count > statements.len()) {
        lemma_all_keep_shape(c, statements, (count - 1) as nat);
        let first = resolve_all(c, statements, (count - 1) as nat);
        lemma_stmt_keeps_shape(first.context, statements[count - 1]);
    }
}

/// Resolution is repeatable: a pass over a program ends where it started, so
/// that a second pass over the same program resolves the same sites to the
/// same distances and finds the same defects; and entering the sites into a
/// table a second time leaves the table as the first time made it.
pub proof fn lemma_resolving_twice(statements: Seq<Stmt>, table: Map<usize, usize>)
    ensures
        ({
            let first = resolve_all(Context::start(), statements, statements.len());
            let second = resolve_all(first.context, statements, statements.len());
            &&& first.context == Context::start()
            &&& second == first
            &&& recorded(recorded(table, first.sites), second.sites) == recorded(
                table,
                first.sites,
            )
        }),
{
    let first = resolve_all(Context::start(), statements, statements.len());
    lemma_all_keep_shape(Context::start(), statements, statements.len());
    assert(first.context =~= Context::start());
    lemma_recorded_twice(table, first.sites);
}

/// The distance found for a name is the number of the first scope, counted
/// from the innermost, that holds it.
pub proof fn lemma_depth_is_nearest(scopes: Seq<Map<Seq<char>, bool>>, name: Seq<char>, hops: nat)
    ensures
        depth_from(scopes, name, hops) matches Some(d) ==> {
            &&& hops <= d < scopes.len()
            &&& scopes[scopes.len() - 1 - d].contains_key(name)
            &&& forall|k: nat| hops <= k < d ==> !(#[trigger] scopes[scopes.len() - 1 - k]).contains_key(name)
        },
    decreases scopes.len() - hops,
{
    if hops < scopes.len() && !scopes[scopes.len() - 1 - hops].contains_key(name) {
        lemma_depth_is_nearest(scopes, name, hops + 1);
    }
}

/// Whether the chain of scopes of a run, from `scope` outwards, mirrors the
/// scopes around a site, from the innermost outwards: link for link, the
/// scope of the run binds the names that the scope around the site holds.
pub open spec fn mirrors(
    arena: Seq<ScopeView>,
    scope: int,
    scopes: Seq<Map<Seq<char>, bool>>,
) -> bool {
    forall|i: nat|
        i < scopes.len() ==> ((#[trigger] ancestor_of(arena, scope, i)) matches Some(a)
            && arena[a].values.dom() == scopes[scopes.len() - 1 - i].dom())
}

/// A resolved distance reads the binding that the walk finds: where the
/// scopes of the run mirror the scopes around a site, and the resolver finds
/// the site's name `d` scopes up, reading the name `d` links up gives what
/// walking the chain gives, however deep the nesting.
pub proof fn lemma_distance_reads_binding(
    arena: Seq<ScopeView>,
    scope: int,
    scopes: Seq<Map<Seq<char>, bool>>,
    name: Seq<char>,
)
    requires
        is_forest(arena),
        mirrors(arena, scope, scopes),
        depth_from(scopes, name, 0).is_some(),
    ensures
        lookup(arena, scope, name).is_some(),
        lookup_at(arena, scope, depth_from(scopes, name, 0).unwrap(), name) == lookup(
            arena,
            scope,
            name,
        ),
{
    let d = depth_from(scopes, name, 0).unwrap();
    lemma_depth_is_nearest(scopes, name, 0);
    assert(ancestor_of(arena, scope, d) matches Some(a) && arena[a].values.contains_key(name)) by {
        let a = ancestor_of(arena, scope, d).unwrap();
        assert(arena[a].values.dom().contains(name) == scopes[scopes.len() - 1 - d].dom().contains(
            name,
        ));
    }
    assert forall|k: nat| k < d implies ((#[trigger] ancestor_of(arena, scope, k)) matches Some(b)
        && !arena[b].values.contains_key(name)) by {
        let b = ancestor_of(arena, scope, k).unwrap();
        assert(arena[b].values.dom().contains(name) == scopes[scopes.len() - 1 - k].dom().contains(
            name,
        ));
    }
    lemma_get_at_agrees_with_get(arena, scope, d, name);
}

} // verus!
