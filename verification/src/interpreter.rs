use vstd::prelude::*;
use vstd::hash_map::StringHashMap;
use vstd::string::*;
use std::collections::HashMap;
use crate::environment::{ancestor_of, binder, bound, lookup, lookup_at, undefined, ScopeView};
use crate::error::{Fault, RuntimeError};
use crate::expr::Expr;
use crate::lox_callable::{
    undefined_property, Heap, HeapView, InstanceView, LoxCallable, LoxClass, LoxFunction,
    LoxInstance, NativeFunction, NativeView,
};
use crate::text::same_text;
use crate::scanner::{numbers_equal, Literal, Token, TokenType};
use crate::stmt::Stmt;

verus! {

broadcast use vstd::std_specs::hash::group_hash_axioms;

/// What the machine asks of its host. The host answers with
/// [`Interpreter::resume`].
#[derive(Debug)]
pub enum Request {
    /// Write this line.
    Print(String),
    /// Apply the operator of this kind to the two numbers, given by their
    /// bits: arithmetic answers a number, comparison a boolean.
    Binary(TokenType, u64, u64),
    /// Negate the number.
    Negate(u64),
    /// Write the number as text: an integral one without a fraction.
    Text(u64),
    /// Call the native function of this index with these arguments.
    Native(usize, Vec<Literal>),
}

/// What the machine does next.
#[derive(Debug)]
pub enum Control<'a> {
    /// Evaluate the expression.
    Eval(&'a Expr),
    /// Execute the statement.
    Exec(&'a Stmt),
    /// An expression has produced this value: hand it to the frame on top.
    Value(Literal),
    /// A statement has completed (`None`), or a `return` is in flight with
    /// its value: hand that to the frame on top.
    Done(Option<Literal>),
    /// The host must act.
    Waiting(Request),
    /// Nothing is left to do: the run has ended with this result.
    Finished(Result<Option<Literal>, RuntimeError>),
}

/// Work that waits for a value or for the end of a statement.
#[derive(Debug)]
pub enum Frame<'a> {
    /// Assign the value to the name at this site.
    Assign(usize, &'a Token),
    /// Apply the unary operator to the value.
    Unary(&'a Token),
    /// The value is the left operand: evaluate the right one.
    BinaryRight(&'a Token, &'a Expr),
    /// The value is the right operand: apply the operator to this left one and it.
    BinaryApply(&'a Token, Literal),
    /// The value stands for the right operand of `+`, this one is the left.
    ConcatAfter(&'a Token, Literal),
    /// The value stands for the left operand of `+`, this one is the right.
    ConcatBefore(&'a Token, Literal),
    /// The value is the left operand of `and` or `or`.
    Logical(&'a Token, &'a Expr),
    /// The value is the callee: evaluate the arguments.
    Callee(&'a Token, &'a Vec<Expr>),
    /// The value is the next argument of the call of this callee, after these.
    Argument(&'a Token, &'a Vec<Expr>, Literal, Vec<Literal>),
    /// Read this property of the value.
    Get(&'a Token),
    /// The value is the object whose field is to be written: evaluate what to write.
    SetTarget(&'a Token, &'a Expr),
    /// Write the value to this field of this instance.
    SetValue(&'a Token, usize),
    /// An initializer runs for this instance: the instance is the call's value.
    Construct(usize),
    /// The boundary of a function call, which absorbs a `return`; for an
    /// initializer it holds the function's closure, where `this` is found.
    Call(Option<usize>),
    /// The top-level statements, and which comes next.
    Program(&'a [Stmt], usize),
    /// The statements of a block, which comes next, and the scope to go back to.
    Block(&'a Vec<Stmt>, usize, usize),
    /// Drop the value: an expression statement ends.
    Discard,
    /// Write the value.
    Print,
    /// Bind the value to this name in the current scope.
    Define(&'a Token),
    /// The value is the condition of an `if` with these branches.
    If(&'a Stmt, Option<&'a Stmt>),
    /// The value is the condition of this loop.
    WhileCond(&'a Expr, &'a Stmt),
    /// The body of this loop runs.
    WhileBody(&'a Expr, &'a Stmt),
    /// The value is what a `return` returns.
    Return,
    /// The value is the superclass of the class of this name and these methods.
    Superclass(&'a Token, &'a Vec<Stmt>),
}

/// How far the machine is.
#[derive(Debug, Clone, Copy, PartialEq, Eq, Structural)]
pub enum Status {
    /// It can take another step.
    Running,
    /// It waits for the host to answer its request.
    Waiting,
    /// The run has ended.
    Finished,
}

/// The machine as the contracts see it.
pub ghost struct State<'a> {
    pub control: Control<'a>,
    pub frames: Seq<Frame<'a>>,
    pub environment: usize,
    pub globals: usize,
    pub heap: HeapView<'a>,
    pub locals: Map<usize, usize>,
}

/// The scope that is current once all of `frames`, the last first, have been
/// left from `environment`: each block gives back the scope it was entered from.
pub open spec fn unwound(frames: Seq<Frame>, environment: usize) -> usize
    decreases frames.len(),
{
    if frames.len() == 0 {
        environment
    } else {
        unwound(
            frames.drop_last(),
            match frames.last() {
                Frame::Block(_, _, previous) => previous,
                _ => environment,
            },
        )
    }
}

/// `Nil` and `false` are falsy, everything else is truthy.
pub open spec fn truthy(value: Literal) -> bool {
    match value {
        Literal::Boolean(b) => b,
        Literal::Nil => false,
        _ => true,
    }
}

/// The error of the given kind at `token`.
pub open spec fn fault_at(kind: Fault, token: Token) -> RuntimeError {
    RuntimeError { kind, lexeme: token.lexeme, line: token.line, column: token.column }
}

impl<'a> State<'a> {
    /// The heap is well formed, the current and the global scope exist, and
    /// so does every scope that a block on the stack goes back to.
    pub open spec fn wf(self) -> bool {
        &&& self.heap.wf()
        &&& self.environment < self.heap.scopes.len()
        &&& self.globals < self.heap.scopes.len()
        &&& forall|i: int|
            0 <= i < self.frames.len() ==> match #[trigger] self.frames[i] {
                Frame::Block(_, _, previous) => previous < self.heap.scopes.len(),
                _ => true,
            }
    }

    /// The state with another thing to do next.
    pub open spec fn go(self, control: Control<'a>) -> State<'a> {
        State { control, ..self }
    }

    /// The state with `frame` pushed and another thing to do next.
    pub open spec fn push(self, frame: Frame<'a>, control: Control<'a>) -> State<'a> {
        State { control, frames: self.frames.push(frame), ..self }
    }

    /// The state without its top frame.
    pub open spec fn popped(self) -> State<'a> {
        State { frames: self.frames.drop_last(), ..self }
    }

    /// The state after a runtime error: the run has ended with the error, no
    /// work is left, and every block has given back the scope it was entered from.
    pub open spec fn failed(self, error: RuntimeError) -> State<'a> {
        State {
            control: Control::Finished(Err(error)),
            frames: Seq::empty(),
            environment: unwound(self.frames, self.environment),
            ..self
        }
    }

    /// What reading the variable `name` at the site `site` gives: where the
    /// site is resolved, the binding that many scopes up from the current one,
    /// else the global one.
    pub open spec fn variable(self, site: usize, name: Token) -> Result<Literal, RuntimeError> {
        if self.locals.contains_key(site) {
            match lookup_at(
                self.heap.scopes,
                self.environment as int,
                self.locals[site] as nat,
                name.lexeme@,
            ) {
                Some(v) => Ok(v),
                None => Err(fault_at(Fault::UndefinedVariableAt(self.locals[site]), name)),
            }
        } else {
            match lookup(self.heap.scopes, self.globals as int, name.lexeme@) {
                Some(v) => Ok(v),
                None => Err(undefined(name)),
            }
        }
    }
}

/// The evaluator: a machine that takes one step at a time and asks its host
/// for what it cannot do itself.
pub struct Interpreter<'a> {
    pub globals: usize,
    heap: Heap<'a>,
    locals: HashMap<usize, usize>,
    environment: usize,
    control: Control<'a>,
    stack: Vec<Frame<'a>>,
}

impl<'a> View for Interpreter<'a> {
    type V = State<'a>;

    closed spec fn view(&self) -> State<'a> {
        State {
            control: self.control,
            frames: self.stack@,
            environment: self.environment,
            globals: self.globals,
            heap: self.heap@,
            locals: self.locals@,
        }
    }
}

impl<'a> Interpreter<'a> {
    /// See [`State::wf`].
    pub open spec fn wf(&self) -> bool {
        self@.wf()
    }

    /// A machine at rest, with one global scope that binds `clock` to the
    /// native function of index 0, which takes no arguments.
    pub fn new() -> (r: Self)
        ensures
            r.wf(),
            r@ == (State {
                control: Control::Finished(Ok(None)),
                frames: Seq::empty(),
                environment: 0,
                globals: 0,
                heap: HeapView {
                    scopes: seq![
                        ScopeView {
                            enclosing: None,
                            values: Map::<Seq<char>, Literal>::empty().insert(
                                "clock"@,
                                Literal::Callable(LoxCallable::NativeFunction(0)),
                            ),
                        },
                    ],
                    natives: seq![NativeView { name: "clock"@, arity: 0 }],
                    functions: Seq::empty(),
                    classes: Seq::empty(),
                    instances: Seq::empty(),
                },
                locals: Map::empty(),
            }),
    {
        let mut heap = Heap::new();
        let clock = heap.add_native(NativeFunction::new("clock", 0));
        heap.define(0, "clock", Literal::Callable(LoxCallable::NativeFunction(clock)));
        let r = Interpreter {
            globals: 0,
            heap,
            locals: HashMap::new(),
            environment: 0,
            control: Control::Finished(Ok(None)),
            stack: Vec::new(),
        };
        assert(r@.heap.scopes =~= seq![
            ScopeView {
                enclosing: None,
                values: Map::<Seq<char>, Literal>::empty().insert(
                    "clock"@,
                    Literal::Callable(LoxCallable::NativeFunction(0)),
                ),
            },
        ]);
        assert(r@.heap.natives =~= seq![NativeView { name: "clock"@, arity: 0 }]);
        r
    }

    /// The heap.
    pub fn heap(&self) -> (r: &Heap<'a>)
        ensures
            r@ == self@.heap,
    {
        &self.heap
    }

    /// The scope that is current.
    pub fn environment(&self) -> (r: usize)
        ensures
            r == self@.environment,
    {
        self.environment
    }

    /// Records that the site `site` is bound `depth` scopes up.
    pub fn resolve(&mut self, site: usize, depth: usize)
        ensures
            final(self)@ == (State {
                locals: old(self)@.locals.insert(site, depth),
                ..old(self)@
            }),
    {
        self.locals.insert(site, depth);
    }

    /// Records every site of `resolutions` with its distance, in order.
    pub fn adopt(&mut self, resolutions: &Vec<(usize, usize)>)
        ensures
            final(self)@ == (State {
                locals: crate::resolver::recorded(old(self)@.locals, resolutions@),
                ..old(self)@
            }),
    {
        let mut i: usize = 0;
        while i < resolutions.len()
            invariant
                i <= resolutions.len(),
                self@ == (State {
                    locals: crate::resolver::recorded(
                        old(self)@.locals,
                        resolutions@.take(i as int),
                    ),
                    ..old(self)@
                }),
            decreases resolutions.len() - i,
        {
            assert(resolutions@.take(i + 1).drop_last() =~= resolutions@.take(i as int));
            self.resolve(resolutions[i].0, resolutions[i].1);
            i += 1;
        }
        assert(resolutions@.take(i as int) =~= resolutions@);
    }

    /// Decides [`truthy`].
    pub fn is_truthy(lit: &Literal) -> (r: bool)
        ensures
            r == truthy(*lit),
    {
        match lit {
            Literal::Boolean(x) => *x,
            Literal::Nil => false,
            _ => true,
        }
    }

    /// Decides [`Literal::equals`].
    pub fn is_equal(left: &Literal, right: &Literal) -> (r: bool)
        ensures
            r == left.equals(right),
    {
        match left {
            Literal::Double(a) => match right {
                Literal::Double(b) => numbers_equal(*a, *b),
                _ => false,
            },
            Literal::String(a) => match right {
                Literal::String(b) => *a == *b,
                _ => false,
            },
            Literal::Boolean(a) => match right {
                Literal::Boolean(b) => *a == *b,
                _ => false,
            },
            Literal::Callable(a) => match right {
                Literal::Callable(b) => *a == *b,
                _ => false,
            },
            Literal::LoxInstance(a) => match right {
                Literal::LoxInstance(b) => *a == *b,
                _ => false,
            },
            Literal::Nil => match right {
                Literal::Nil => true,
                _ => false,
            },
        }
    }

    /// Leaves every frame: the stack is emptied, and each block gives back the
    /// scope it was entered from.
    fn unwind(&mut self)
        requires
            old(self).wf(),
        ensures
            final(self).wf(),
            final(self)@ == (State {
                frames: Seq::empty(),
                environment: unwound(old(self)@.frames, old(self)@.environment),
                ..old(self)@
            }),
    {
        while self.stack.len() > 0
            invariant
                self.wf(),
                self@.heap == old(self)@.heap,
                self@.locals == old(self)@.locals,
                self@.globals == old(self)@.globals,
                self@.control == old(self)@.control,
                unwound(self@.frames, self@.environment) == unwound(
                    old(self)@.frames,
                    old(self)@.environment,
                ),
            decreases self.stack.len(),
        {
            let ghost before = self.stack@;
            assert(self@.frames[before.len() - 1] == before.last());
            match self.stack.pop() {
                Some(Frame::Block(_, _, previous)) => {
                    self.environment = previous;
                },
                _ => {},
            }
            assert(self.stack@ == before.drop_last());
        }
        assert(self@.frames =~= Seq::empty());
    }

    /// Ends the run with `error`.
    pub fn fail(&mut self, error: RuntimeError)
        requires
            old(self).wf(),
        ensures
            final(self).wf(),
            final(self)@ == old(self)@.failed(error),
    {
        self.unwind();
        self.control = Control::Finished(Err(error));
    }

    /// Reads the variable `name` at the site `site`.
    pub fn lookup_variable(&self, site: usize, name: &Token) -> (r: Result<Literal, RuntimeError>)
        ensures
            r == self@.variable(site, *name),
    {
        match self.locals.get(&site) {
            Some(distance) => {
                match self.heap.scopes().read_at(
                    self.environment,
                    *distance,
                    name.lexeme.as_str(),
                ) {
                    Some(v) => Ok(v),
                    None => Err(RuntimeError::new(Fault::UndefinedVariableAt(*distance), name)),
                }
            },
            None => self.heap.scopes().get(self.globals, name),
        }
    }
}


/// The bindings of the first `count` parameters to the first `count`
/// arguments, a later one of the same name replacing an earlier one.
pub open spec fn parameters(params: Seq<Token>, arguments: Seq<Literal>, count: nat) -> Map<
    Seq<char>,
    Literal,
>
    decreases count,
{
    if count == 0 {
        Map::empty()
    } else {
        parameters(params, arguments, (count - 1) as nat).insert(
            params[count - 1].lexeme@,
            arguments[count - 1],
        )
    }
}

/// The smaller of two lengths.
pub open spec fn shorter(a: nat, b: nat) -> nat {
    if a < b {
        a
    } else {
        b
    }
}

impl<'a> State<'a> {
    /// The unary rule: `-` asks the host to negate a number and fails on
    /// anything else, `!` gives the negated truthiness of any value.
    pub open spec fn unary(self, op: &'a Token, value: Literal) -> State<'a> {
        if op.token == TokenType::Minus {
            match value {
                Literal::Double(n) => self.go(Control::Waiting(Request::Negate(n))),
                _ => self.failed(fault_at(Fault::OperandNotNumber, *op)),
            }
        } else if op.token == TokenType::Bang {
            self.go(Control::Value(Literal::Boolean(!truthy(value))))
        } else {
            self.go(Control::Value(Literal::Nil))
        }
    }

    /// The rule of `+`: two numbers are added by the host; where either side
    /// is a string, the result is the text of the left followed by the text of
    /// the right, a number's text being asked of the host first; anything
    /// else fails.
    pub open spec fn added(self, op: &'a Token, left: Literal, right: Literal, post: State<'a>)
        -> bool {
        match (left, right) {
            (Literal::Double(a), Literal::Double(b)) => post == self.go(
                Control::Waiting(Request::Binary(TokenType::Plus, a, b)),
            ),
            (Literal::String(_), Literal::Double(b)) => post == self.push(
                Frame::ConcatAfter(op, left),
                Control::Waiting(Request::Text(b)),
            ),
            (Literal::Double(a), Literal::String(_)) => post == self.push(
                Frame::ConcatBefore(op, right),
                Control::Waiting(Request::Text(a)),
            ),
            _ => if left is String || right is String {
                &&& post.control matches Control::Value(Literal::String(s))
                &&& s@ == self.heap.display_text(left) + self.heap.display_text(right)
                &&& post == self.go(post.control)
            } else {
                post == self.failed(fault_at(Fault::OperandsNotAddable, *op))
            },
        }
    }

    /// The binary rule: arithmetic and comparison ask the host where both
    /// operands are numbers and fail otherwise; `+` goes by [`State::added`];
    /// `==` and `!=` go by value equality and never fail.
    pub open spec fn binary(self, op: &'a Token, left: Literal, right: Literal, post: State<'a>)
        -> bool {
        let kind = op.token;
        if kind == TokenType::Minus || kind == TokenType::Slash || kind == TokenType::Star || kind
            == TokenType::Greater || kind == TokenType::GreaterEqual || kind == TokenType::Less
            || kind == TokenType::LessEqual {
            match (left, right) {
                (Literal::Double(a), Literal::Double(b)) => post == self.go(
                    Control::Waiting(Request::Binary(kind, a, b)),
                ),
                _ => post == self.failed(fault_at(Fault::OperandsNotNumbers, *op)),
            }
        } else if kind == TokenType::Plus {
            self.added(op, left, right, post)
        } else if kind == TokenType::EqualEqual {
            post == self.go(Control::Value(Literal::Boolean(left.equals(&right))))
        } else if kind == TokenType::BangEqual {
            post == self.go(Control::Value(Literal::Boolean(!left.equals(&right))))
        } else {
            post == self.go(Control::Value(Literal::Nil))
        }
    }

    /// The state in which the body of the function `function` runs with
    /// `arguments`: a fresh scope nested in the function's closure binds the
    /// parameters, a call frame marks where a `return` stops, and the body is
    /// entered as a block that goes back to the caller's scope.
    pub open spec fn entered(self, function: int, arguments: Seq<Literal>) -> State<'a> {
        let f = self.heap.functions[function];
        State {
            control: Control::Done(None),
            frames: self.frames.push(
                Frame::Call(
                    if f.is_initializer {
                        Some(f.closure)
                    } else {
                        None
                    },
                ),
            ).push(Frame::Block(f.body, 0, self.environment)),
            environment: self.heap.scopes.len() as usize,
            heap: HeapView {
                scopes: self.heap.scopes.push(
                    ScopeView {
                        enclosing: Some(f.closure),
                        values: parameters(
                            f.params@,
                            arguments,
                            shorter(f.params@.len(), arguments.len()),
                        ),
                    },
                ),
                ..self.heap
            },
            ..self
        }
    }

    /// The state with a new instance of the class `class`.
    pub open spec fn instantiated(self, class: usize) -> State<'a> {
        State {
            heap: HeapView {
                instances: self.heap.instances.push(
                    InstanceView { klass: class, fields: Map::empty() },
                ),
                ..self.heap
            },
            ..self
        }
    }

    /// The call of a callable that exists: a native function is asked of the
    /// host; a function is entered; a class makes an instance, which is the
    /// call's value at once where the class has no initializer, and after the
    /// initializer, bound to the instance, has run where it has one.
    pub open spec fn applied(self, callable: LoxCallable, arguments: Seq<Literal>, post: State<'a>)
        -> bool {
        match callable {
            LoxCallable::NativeFunction(i) => {
                &&& post.control matches Control::Waiting(Request::Native(j, given))
                &&& j == i
                &&& given@ == arguments
                &&& post == self.go(post.control)
            },
            LoxCallable::LoxFunction(f) => post == self.entered(f as int, arguments),
            LoxCallable::LoxClass(class) => {
                let instance = self.heap.instances.len() as usize;
                let made = self.instantiated(class);
                match made.heap.method(instance as int, "init"@) {
                    Some(m) => post == (State {
                        heap: made.heap.bound_method(m as int, instance),
                        frames: made.frames.push(Frame::Construct(instance)),
                        ..made
                    }).entered(made.heap.functions.len() as int, arguments),
                    None => post == made.go(Control::Value(Literal::LoxInstance(instance))),
                }
            },
        }
    }

    /// The call rule: the callee must be a callable that exists, and be given
    /// as many arguments as it takes.
    pub open spec fn called(self, paren: &'a Token, callee: Literal, arguments: Seq<Literal>, post:
        State<'a>) -> bool {
        match callee {
            Literal::Callable(c) => match self.heap.arity(c) {
                Some(n) => if arguments.len() != n {
                    post == self.failed(
                        fault_at(Fault::WrongArity(n, arguments.len() as usize), *paren),
                    )
                } else {
                    self.applied(c, arguments, post)
                },
                None => post == self.failed(fault_at(Fault::NotCallable, *paren)),
            },
            _ => post == self.failed(fault_at(Fault::NotCallable, *paren)),
        }
    }

    /// The rule of a property read: the object must be an instance that
    /// exists; a field is preferred to a method, and a method comes bound.
    pub open spec fn got(self, name: &'a Token, object: Literal) -> State<'a> {
        match object {
            Literal::LoxInstance(o) => if o < self.heap.instances.len() {
                if self.heap.instances[o as int].fields.contains_key(name.lexeme@) {
                    self.go(Control::Value(self.heap.instances[o as int].fields[name.lexeme@]))
                } else {
                    match self.heap.method(o as int, name.lexeme@) {
                        Some(m) => State {
                            control: Control::Value(
                                Literal::Callable(
                                    LoxCallable::LoxFunction(self.heap.functions.len() as usize),
                                ),
                            ),
                            heap: self.heap.bound_method(m as int, o),
                            ..self
                        },
                        None => self.failed(undefined_property(*name)),
                    }
                }
            } else {
                self.failed(fault_at(Fault::NoProperties, *name))
            },
            _ => self.failed(fault_at(Fault::NoProperties, *name)),
        }
    }

    /// The state after the field `name` of the instance `object` has been
    /// written, with the written value as the value of the expression.
    pub open spec fn stored(self, name: &'a Token, object: usize, value: Literal) -> State<'a> {
        if object < self.heap.instances.len() {
            State {
                control: Control::Value(value),
                heap: HeapView {
                    instances: self.heap.instances.update(
                        object as int,
                        InstanceView {
                            klass: self.heap.instances[object as int].klass,
                            fields: self.heap.instances[object as int].fields.insert(
                                name.lexeme@,
                                value,
                            ),
                        },
                    ),
                    ..self.heap
                },
                ..self
            }
        } else {
            self.failed(fault_at(Fault::NoFields, *name))
        }
    }
}

impl<'a> Interpreter<'a> {
    /// Applies the unary operator `op` to `value`.
    pub fn eval_unary(&mut self, op: &'a Token, value: Literal)
        requires
            old(self).wf(),
        ensures
            final(self).wf(),
            final(self)@ == old(self)@.unary(op, value),
    {
        if op.token == TokenType::Minus {
            match value {
                Literal::Double(n) => {
                    self.control = Control::Waiting(Request::Negate(n));
                },
                _ => {
                    self.fail(RuntimeError::new(Fault::OperandNotNumber, op));
                },
            }
        } else if op.token == TokenType::Bang {
            self.control = Control::Value(Literal::Boolean(!Self::is_truthy(&value)));
        } else {
            self.control = Control::Value(Literal::Nil);
        }
    }

    /// Applies `+` to `left` and `right`.
    pub fn add(&mut self, op: &'a Token, left: Literal, right: Literal)
        requires
            old(self).wf(),
        ensures
            final(self).wf(),
            old(self)@.added(op, left, right, final(self)@),
    {
        match (&left, &right) {
            (Literal::Double(a), Literal::Double(b)) => {
                self.control = Control::Waiting(Request::Binary(TokenType::Plus, *a, *b));
            },
            (Literal::String(_), Literal::Double(b)) => {
                self.control = Control::Waiting(Request::Text(*b));
                self.stack.push(Frame::ConcatAfter(op, left));
            },
            (Literal::Double(a), Literal::String(_)) => {
                self.control = Control::Waiting(Request::Text(*a));
                self.stack.push(Frame::ConcatBefore(op, right));
            },
            _ => {
                let textual = match &left {
                    Literal::String(_) => true,
                    _ => match &right {
                        Literal::String(_) => true,
                        _ => false,
                    },
                };
                if textual {
                    let mut s = self.heap.display(&left);
                    s.append(self.heap.display(&right).as_str());
                    self.control = Control::Value(Literal::String(s));
                } else {
                    self.fail(RuntimeError::new(Fault::OperandsNotAddable, op));
                }
            },
        }
    }

    /// Applies the binary operator `op` to `left` and `right`.
    pub fn eval_binary(&mut self, op: &'a Token, left: Literal, right: Literal)
        requires
            old(self).wf(),
        ensures
            final(self).wf(),
            old(self)@.binary(op, left, right, final(self)@),
    {
        let kind = op.token;
        if kind == TokenType::Minus || kind == TokenType::Slash || kind == TokenType::Star || kind
            == TokenType::Greater || kind == TokenType::GreaterEqual || kind == TokenType::Less
            || kind == TokenType::LessEqual {
            match (&left, &right) {
                (Literal::Double(a), Literal::Double(b)) => {
                    self.control = Control::Waiting(Request::Binary(kind, *a, *b));
                },
                _ => {
                    self.fail(RuntimeError::new(Fault::OperandsNotNumbers, op));
                },
            }
        } else if kind == TokenType::Plus {
            self.add(op, left, right);
        } else if kind == TokenType::EqualEqual {
            self.control = Control::Value(Literal::Boolean(Self::is_equal(&left, &right)));
        } else if kind == TokenType::BangEqual {
            self.control = Control::Value(Literal::Boolean(!Self::is_equal(&left, &right)));
        } else {
            self.control = Control::Value(Literal::Nil);
        }
    }

    /// Reads the property `name` of `object`.
    pub fn eval_get(&mut self, name: &'a Token, object: Literal)
        requires
            old(self).wf(),
        ensures
            final(self).wf(),
            final(self)@ == old(self)@.got(name, object),
    {
        match object {
            Literal::LoxInstance(o) => {
                if self.heap.is_instance(o) {
                    match LoxInstance::get(&mut self.heap, o, name) {
                        Ok(v) => {
                            self.control = Control::Value(v);
                        },
                        Err(e) => {
                            self.fail(e);
                        },
                    }
                } else {
                    self.fail(RuntimeError::new(Fault::NoProperties, name));
                }
            },
            _ => {
                self.fail(RuntimeError::new(Fault::NoProperties, name));
            },
        }
    }

    /// Writes `value` to the field `name` of the instance `object`.
    pub fn eval_set(&mut self, name: &'a Token, object: usize, value: Literal)
        requires
            old(self).wf(),
        ensures
            final(self).wf(),
            final(self)@ == old(self)@.stored(name, object, value),
    {
        if self.heap.is_instance(object) {
            self.heap.set_field(object, name, value.clone());
            self.control = Control::Value(value);
        } else {
            self.fail(RuntimeError::new(Fault::NoFields, name));
        }
    }

    /// Enters the body of the function `function` with `arguments`.
    pub fn call_function(&mut self, function: usize, arguments: Vec<Literal>)
        requires
            old(self).wf(),
            function < old(self)@.heap.functions.len(),
        ensures
            final(self).wf(),
            final(self)@ == old(self)@.entered(function as int, arguments@),
    {
        let f = match self.heap.function(function) {
            Some(f) => f,
            None => {
                return ;
            },
        };
        let previous = self.environment;
        let scope = self.heap.nested(f.closure);
        let count = if f.params.len() < arguments.len() {
            f.params.len()
        } else {
            arguments.len()
        };
        let mut i: usize = 0;
        while i < count
            invariant
                i <= count,
                count == shorter(f.params@.len(), arguments@.len()),
                self.heap.wf(),
                scope == old(self)@.heap.scopes.len(),
                self@.heap == (HeapView {
                    scopes: old(self)@.heap.scopes.push(
                        ScopeView {
                            enclosing: Some(f.closure),
                            values: parameters(f.params@, arguments@, i as nat),
                        },
                    ),
                    ..old(self)@.heap
                }),
                self@.frames == old(self)@.frames,
                self@.locals == old(self)@.locals,
                self@.globals == old(self)@.globals,
                self@.environment == old(self)@.environment,
            decreases count - i,
        {
            self.heap.define(scope, f.params[i].lexeme.as_str(), arguments[i].clone());
            i += 1;
            assert(self@.heap.scopes =~= old(self)@.heap.scopes.push(
                ScopeView {
                    enclosing: Some(f.closure),
                    values: parameters(f.params@, arguments@, i as nat),
                },
            ));
        }
        self.stack.push(
            Frame::Call(
                if f.is_initializer {
                    Some(f.closure)
                } else {
                    None
                },
            ),
        );
        self.stack.push(Frame::Block(f.body, 0, previous));
        self.environment = scope;
        self.control = Control::Done(None);
    }
}

impl LoxCallable {
    /// Calls the callable with `arguments`. The caller has checked that it
    /// exists and takes that many.
    pub fn call<'a>(&self, interpreter: &mut Interpreter<'a>, arguments: Vec<Literal>)
        requires
            old(interpreter).wf(),
            old(interpreter)@.heap.arity(*self).is_some(),
        ensures
            final(interpreter).wf(),
            old(interpreter)@.applied(*self, arguments@, final(interpreter)@),
    {
        match self {
            LoxCallable::NativeFunction(i) => {
                interpreter.control = Control::Waiting(Request::Native(*i, arguments));
            },
            LoxCallable::LoxFunction(f) => {
                interpreter.call_function(*f, arguments);
            },
            LoxCallable::LoxClass(class) => {
                let instance = interpreter.heap.instantiate(*class);
                match interpreter.heap.find_method(*class, "init") {
                    Some(m) => {
                        let bound = interpreter.heap.bind(m, instance);
                        interpreter.stack.push(Frame::Construct(instance));
                        interpreter.call_function(bound, arguments);
                    },
                    None => {
                        interpreter.control = Control::Value(Literal::LoxInstance(instance));
                    },
                }
            },
        }
    }
}

impl<'a> Interpreter<'a> {
    /// Calls `callee` with `arguments`, if it can be called with that many.
    pub fn eval_call(&mut self, paren: &'a Token, callee: Literal, arguments: Vec<Literal>)
        requires
            old(self).wf(),
        ensures
            final(self).wf(),
            old(self)@.called(paren, callee, arguments@, final(self)@),
    {
        match callee {
            Literal::Callable(c) => {
                match c.arity(&self.heap) {
                    Some(n) => {
                        if arguments.len() != n {
                            self.fail(
                                RuntimeError::new(Fault::WrongArity(n, arguments.len()), paren),
                            );
                        } else {
                            c.call(self, arguments);
                        }
                    },
                    None => {
                        self.fail(RuntimeError::new(Fault::NotCallable, paren));
                    },
                }
            },
            _ => {
                self.fail(RuntimeError::new(Fault::NotCallable, paren));
            },
        }
    }
}


/// The functions and the method table of a class after the first `count` of
/// its method declarations: each declaration adds a function that closes over
/// `closure`, flagged as the initializer where it is called `init`, and
/// enters it in the table under its name, replacing an earlier one of that name.
pub open spec fn methods_added<'a>(
    functions: Seq<LoxFunction<'a>>,
    methods: Seq<Stmt>,
    closure: usize,
    count: nat,
) -> (Seq<LoxFunction<'a>>, Map<Seq<char>, usize>)
    decreases count,
{
    if count == 0 {
        (functions, Map::empty())
    } else {
        let before = methods_added(functions, methods, closure, (count - 1) as nat);
        match methods[count - 1] {
            Stmt::Function(name, params, body) => (
                before.0.push(
                    LoxFunction {
                        name: &name,
                        params: &params,
                        body: &body,
                        closure,
                        is_initializer: name.lexeme@ == "init"@,
                    },
                ),
                before.1.insert(name.lexeme@, before.0.len() as usize),
            ),
            _ => before,
        }
    }
}

/// An error for `this` not being bound `distance` scopes up.
pub open spec fn missing_this(error: RuntimeError, distance: usize) -> bool {
    &&& error.kind == Fault::UndefinedVariableAt(distance)
    &&& error.lexeme@ == "this"@
    &&& error.line == 0
    &&& error.column == 0
}

impl<'a> State<'a> {
    /// The machine with its control taken out, at the moment it acts on it.
    pub open spec fn taken(self) -> State<'a> {
        State { control: Control::Done(None), ..self }
    }

    /// The state with different scopes.
    pub open spec fn with_scopes(self, scopes: Seq<ScopeView>) -> State<'a> {
        State { heap: HeapView { scopes, ..self.heap }, ..self }
    }

    /// The rule of assignment: where the site is resolved, the name is bound
    /// that many scopes up from the current one; else the nearest binding seen
    /// from the global scope is overwritten, and there must be one. The
    /// assigned value is the value of the expression.
    pub open spec fn assigned(self, site: usize, name: &'a Token, value: Literal) -> State<'a> {
        if self.locals.contains_key(site) {
            match ancestor_of(self.heap.scopes, self.environment as int, self.locals[site] as nat) {
                Some(a) => self.with_scopes(bound(self.heap.scopes, a, name.lexeme@, value)).go(
                    Control::Value(value),
                ),
                None => self.failed(fault_at(Fault::UndefinedVariableAt(self.locals[site]), *name)),
            }
        } else {
            match binder(self.heap.scopes, self.globals as int, name.lexeme@) {
                Some(b) => self.with_scopes(bound(self.heap.scopes, b, name.lexeme@, value)).go(
                    Control::Value(value),
                ),
                None => self.failed(undefined(*name)),
            }
        }
    }

    /// The state in which the statements of a block run in the scope
    /// `environment`: a block frame remembers the scope to go back to.
    pub open spec fn block(self, statements: &'a Vec<Stmt>, environment: usize) -> State<'a> {
        State {
            control: Control::Done(None),
            frames: self.frames.push(Frame::Block(statements, 0, self.environment)),
            environment,
            ..self
        }
    }

    /// The rule of a class declaration, once its superclass is known: the name
    /// is first bound to nil; with a superclass, the methods close over a
    /// fresh scope that binds `super` to it, else over the current scope; the
    /// class is made with its methods, and the name is bound to it.
    pub open spec fn class_declared(
        self,
        name: &'a Token,
        parent: Option<usize>,
        methods: &'a Vec<Stmt>,
    ) -> State<'a> {
        let current = self.environment;
        let declared = bound(self.heap.scopes, current as int, name.lexeme@, Literal::Nil);
        let closure = match parent {
            Some(_) => declared.len() as usize,
            None => current,
        };
        let enclosed = match parent {
            Some(c) => bound(
                declared.push(ScopeView { enclosing: Some(current), values: Map::empty() }),
                declared.len() as int,
                "super"@,
                Literal::Callable(LoxCallable::LoxClass(c)),
            ),
            None => declared,
        };
        let made = methods_added(self.heap.functions, methods@, closure, methods@.len());
        let class = self.heap.classes.len() as usize;
        State {
            control: Control::Done(None),
            heap: HeapView {
                scopes: bound(
                    enclosed,
                    current as int,
                    name.lexeme@,
                    Literal::Callable(LoxCallable::LoxClass(class)),
                ),
                functions: made.0,
                classes: self.heap.classes.push(
                    crate::lox_callable::ClassView {
                        name: name.lexeme@,
                        superclass: parent,
                        methods: made.1,
                    },
                ),
                ..self.heap
            },
            ..self
        }
    }

    /// The rule of `super.method`: `super` is read at the site's distance and
    /// `this` one scope nearer; the method is looked up from the superclass
    /// and comes bound to the instance.
    pub open spec fn supered(self, site: usize, keyword: &'a Token, method: &'a Token, post: State<
        'a,
    >) -> bool {
        let distance = if self.locals.contains_key(site) {
            self.locals[site]
        } else {
            0
        };
        match lookup_at(
            self.heap.scopes,
            self.environment as int,
            distance as nat,
            keyword.lexeme@,
        ) {
            None => post == self.failed(fault_at(Fault::UndefinedVariableAt(distance), *keyword)),
            Some(superclass) => {
                let receiver = if distance == 0 {
                    None
                } else {
                    lookup_at(
                        self.heap.scopes,
                        self.environment as int,
                        (distance - 1) as nat,
                        "this"@,
                    )
                };
                match receiver {
                    None => {
                        &&& post.control matches Control::Finished(Err(e))
                        &&& missing_this(
                            e,
                            if distance == 0 {
                                0
                            } else {
                                (distance - 1) as usize
                            },
                        )
                        &&& post == self.failed(e)
                    },
                    Some(instance) => match (superclass, instance) {
                        (
                            Literal::Callable(LoxCallable::LoxClass(c)),
                            Literal::LoxInstance(o),
                        ) => match self.heap.class_method(c as int, method.lexeme@) {
                            Some(m) => post == (State {
                                control: Control::Value(
                                    Literal::Callable(
                                        LoxCallable::LoxFunction(
                                            self.heap.functions.len() as usize,
                                        ),
                                    ),
                                ),
                                heap: self.heap.bound_method(m as int, o),
                                ..self
                            }),
                            None => post == self.failed(undefined_property(*method)),
                        },
                        _ => post == self.failed(undefined_property(*method)),
                    },
                }
            },
        }
    }

    /// The rules of expressions, one for each kind.
    pub open spec fn evaluated(self, expr: &'a Expr, post: State<'a>) -> bool {
        match *expr {
            Expr::Assign(site, name, value) => post == self.push(
                Frame::Assign(site, &name),
                Control::Eval(&*value),
            ),
            Expr::Binary(left, op, right) => post == self.push(
                Frame::BinaryRight(&op, &*right),
                Control::Eval(&*left),
            ),
            Expr::Call(callee, paren, arguments) => post == self.push(
                Frame::Callee(&paren, &arguments),
                Control::Eval(&*callee),
            ),
            Expr::Get(object, name) => post == self.push(
                Frame::Get(&name),
                Control::Eval(&*object),
            ),
            Expr::SetField(object, name, value) => post == self.push(
                Frame::SetTarget(&name, &*value),
                Control::Eval(&*object),
            ),
            Expr::Super(site, keyword, method) => self.supered(site, &keyword, &method, post),
            Expr::This(site, keyword) => post == match self.variable(site, keyword) {
                Ok(v) => self.go(Control::Value(v)),
                Err(e) => self.failed(e),
            },
            Expr::Grouping(inner) => post == self.go(Control::Eval(&*inner)),
            Expr::Literal(value) => post == self.go(Control::Value(value)),
            Expr::Logical(left, op, right) => post == self.push(
                Frame::Logical(&op, &*right),
                Control::Eval(&*left),
            ),
            Expr::Unary(op, right) => post == self.push(Frame::Unary(&op), Control::Eval(&*right)),
            Expr::Variable(site, name) => post == match self.variable(site, name) {
                Ok(v) => self.go(Control::Value(v)),
                Err(e) => self.failed(e),
            },
        }
    }

    /// The rules of statements, one for each kind.
    pub open spec fn executed(self, stmt: &'a Stmt, post: State<'a>) -> bool {
        match *stmt {
            Stmt::Block(statements) => post == self.with_scopes(
                self.heap.scopes.push(
                    ScopeView { enclosing: Some(self.environment), values: Map::empty() },
                ),
            ).block(&statements, self.heap.scopes.len() as usize),
            Stmt::Class(name, superclass, methods) => post == match superclass {
                Some(parent) => self.push(
                    Frame::Superclass(&name, &methods),
                    Control::Eval(&parent),
                ),
                None => self.class_declared(&name, None, &methods),
            },
            Stmt::Expression(expr) => post == self.push(Frame::Discard, Control::Eval(&expr)),
            Stmt::Function(name, params, body) => post == (State {
                control: Control::Done(None),
                heap: HeapView {
                    scopes: bound(
                        self.heap.scopes,
                        self.environment as int,
                        name.lexeme@,
                        Literal::Callable(
                            LoxCallable::LoxFunction(self.heap.functions.len() as usize),
                        ),
                    ),
                    functions: self.heap.functions.push(
                        LoxFunction {
                            name: &name,
                            params: &params,
                            body: &body,
                            closure: self.environment,
                            is_initializer: false,
                        },
                    ),
                    ..self.heap
                },
                ..self
            }),
            Stmt::If(condition, then_branch, else_branch) => post == self.push(
                Frame::If(
                    &*then_branch,
                    match else_branch {
                        Some(branch) => Some(&*branch),
                        None => None,
                    },
                ),
                Control::Eval(&condition),
            ),
            Stmt::Print(expr) => post == self.push(Frame::Print, Control::Eval(&expr)),
            Stmt::Return(_, value) => post == self.push(Frame::Return, Control::Eval(&value)),
            Stmt::Var(name, initializer) => post == match initializer {
                Some(expr) => self.push(Frame::Define(&name), Control::Eval(&expr)),
                None => self.with_scopes(
                    bound(self.heap.scopes, self.environment as int, name.lexeme@, Literal::Nil),
                ).go(Control::Done(None)),
            },
            Stmt::While(condition, body) => post == self.push(
                Frame::WhileCond(&condition, &*body),
                Control::Eval(&condition),
            ),
        }
    }

    /// The rule of `print`: a number's text is asked of the host first, with
    /// the frame kept to write the answer; any other value is written as
    /// [`HeapView::display_text`] has it.
    pub open spec fn printed(self, value: Literal, post: State<'a>) -> bool {
        match value {
            Literal::Double(bits) => post == self.push(
                Frame::Print,
                Control::Waiting(Request::Text(bits)),
            ),
            _ => {
                &&& post.control matches Control::Waiting(Request::Print(text))
                &&& text@ == self.heap.display_text(value)
                &&& post == self.go(post.control)
            },
        }
    }

    /// The state with one more evaluated argument of a call, and the next
    /// argument to evaluate.
    pub open spec fn argued(
        self,
        paren: &'a Token,
        arguments: &'a Vec<Expr>,
        callee: Literal,
        evaluated: Seq<Literal>,
        post: State<'a>,
    ) -> bool {
        &&& post.frames.len() > 0
        &&& post.frames.last() matches Frame::Argument(p, a, c, e)
        &&& p == paren
        &&& a == arguments
        &&& c == callee
        &&& e@ == evaluated
        &&& post == self.push(post.frames.last(), Control::Eval(&arguments@[evaluated.len() as int]))
    }

    /// What a frame does with the value it waited for. A frame that waits for
    /// the end of a statement is dropped, and the value goes on to the next.
    pub open spec fn delivered(self, frame: Frame<'a>, value: Literal, post: State<'a>) -> bool {
        match frame {
            Frame::Assign(site, name) => post == self.assigned(site, name, value),
            Frame::Unary(op) => post == self.unary(op, value),
            Frame::BinaryRight(op, right) => post == self.push(
                Frame::BinaryApply(op, value),
                Control::Eval(right),
            ),
            Frame::BinaryApply(op, left) => self.binary(op, left, value, post),
            Frame::ConcatAfter(op, left) => self.added(op, left, value, post),
            Frame::ConcatBefore(op, right) => self.added(op, value, right, post),
            Frame::Logical(op, right) => post == self.go(
                if (op.token == TokenType::Or) == truthy(value) {
                    Control::Value(value)
                } else {
                    Control::Eval(right)
                },
            ),
            Frame::Callee(paren, arguments) => if arguments@.len() == 0 {
                self.called(paren, value, Seq::empty(), post)
            } else {
                self.argued(paren, arguments, value, Seq::empty(), post)
            },
            Frame::Argument(paren, arguments, callee, evaluated) => if evaluated@.len() + 1
                < arguments@.len() {
                self.argued(paren, arguments, callee, evaluated@.push(value), post)
            } else {
                self.called(paren, callee, evaluated@.push(value), post)
            },
            Frame::Get(name) => post == self.got(name, value),
            Frame::SetTarget(name, what) => post == match value {
                Literal::LoxInstance(o) => if o < self.heap.instances.len() {
                    self.push(Frame::SetValue(name, o), Control::Eval(what))
                } else {
                    self.failed(fault_at(Fault::NoFields, *name))
                },
                _ => self.failed(fault_at(Fault::NoFields, *name)),
            },
            Frame::SetValue(name, object) => post == self.stored(name, object, value),
            Frame::Construct(instance) => post == self.go(
                Control::Value(Literal::LoxInstance(instance)),
            ),
            Frame::Discard => post == self.go(Control::Done(None)),
            Frame::Print => self.printed(value, post),
            Frame::Define(name) => post == self.with_scopes(
                bound(self.heap.scopes, self.environment as int, name.lexeme@, value),
            ).go(Control::Done(None)),
            Frame::If(then_branch, else_branch) => post == self.go(
                if truthy(value) {
                    Control::Exec(then_branch)
                } else {
                    match else_branch {
                        Some(branch) => Control::Exec(branch),
                        None => Control::Done(None),
                    }
                },
            ),
            Frame::WhileCond(condition, body) => post == if truthy(value) {
                self.push(Frame::WhileBody(condition, body), Control::Exec(body))
            } else {
                self.go(Control::Done(None))
            },
            Frame::Return => post == self.go(Control::Done(Some(value))),
            Frame::Superclass(name, methods) => post == match value {
                Literal::Callable(LoxCallable::LoxClass(c)) => if c < self.heap.classes.len() {
                    self.class_declared(name, Some(c), methods)
                } else {
                    self.failed(fault_at(Fault::SuperclassNotClass, *name))
                },
                _ => self.failed(fault_at(Fault::SuperclassNotClass, *name)),
            },
            _ => post == self.go(Control::Value(value)),
        }
    }

    /// What a frame does when the statement it waited for has ended, with a
    /// `return` in flight or without. The top-level statements go on whatever
    /// the outcome; a block goes on to its next statement, and gives back the
    /// scope it was entered from when it ends or a `return` passes; a loop
    /// evaluates its condition again; a call absorbs a `return`, and an
    /// initializer's call gives `this` whatever was returned. A frame that
    /// waits for a value is dropped.
    pub open spec fn completed(self, frame: Frame<'a>, outcome: Option<Literal>, post: State<'a>)
        -> bool {
        match frame {
            Frame::Program(statements, next) => post == if next < statements@.len() {
                self.push(
                    Frame::Program(statements, (next + 1) as usize),
                    Control::Exec(&statements@[next as int]),
                )
            } else {
                self.go(Control::Done(None))
            },
            Frame::Block(statements, next, previous) => post == if outcome.is_none() && next
                < statements@.len() {
                self.push(
                    Frame::Block(statements, (next + 1) as usize, previous),
                    Control::Exec(&statements@[next as int]),
                )
            } else {
                State { control: Control::Done(outcome), environment: previous, ..self }
            },
            Frame::WhileBody(condition, body) => post == match outcome {
                Some(_) => self.go(Control::Done(outcome)),
                None => self.push(Frame::WhileCond(condition, body), Control::Eval(condition)),
            },
            Frame::Call(initializer) => match initializer {
                Some(closure) => match lookup_at(self.heap.scopes, closure as int, 0, "this"@) {
                    Some(v) => post == self.go(Control::Value(v)),
                    None => {
                        &&& post.control matches Control::Finished(Err(e))
                        &&& missing_this(e, 0)
                        &&& post == self.failed(e)
                    },
                },
                None => post == self.go(
                    Control::Value(
                        match outcome {
                            Some(v) => v,
                            None => Literal::Nil,
                        },
                    ),
                ),
            },
            _ => post == self.go(Control::Done(outcome)),
        }
    }

    /// One step of the machine: it evaluates the expression or executes the
    /// statement it was about to, or hands a value or the end of a statement
    /// to the frame on top, which is taken off; with no frame left, the run
    /// ends with what was produced. A machine that waits or has ended stays
    /// as it is.
    pub open spec fn stepped(self, post: State<'a>) -> bool {
        match self.control {
            Control::Eval(expr) => self.taken().evaluated(expr, post),
            Control::Exec(stmt) => self.taken().executed(stmt, post),
            Control::Value(value) => if self.frames.len() == 0 {
                post == self.go(Control::Finished(Ok(Some(value))))
            } else {
                self.taken().popped().delivered(self.frames.last(), value, post)
            },
            Control::Done(outcome) => if self.frames.len() == 0 {
                post == self.go(Control::Finished(Ok(outcome)))
            } else {
                self.taken().popped().completed(self.frames.last(), outcome, post)
            },
            _ => post == self,
        }
    }

    /// What the host's answer does to a machine that waits: a failure ends the
    /// run with the host's message; after a line was written the statement
    /// has ended; a requested text must be a string, and anything else leaves
    /// the machine waiting; any other answer is the value that was asked for.
    /// A machine that does not wait stays as it is.
    pub open spec fn resumed(self, reply: Result<Literal, String>, post: State<'a>) -> bool {
        match self.control {
            Control::Waiting(request) => match reply {
                Err(message) => {
                    &&& post.control matches Control::Finished(Err(e))
                    &&& e.kind == Fault::Native
                    &&& e.lexeme == message
                    &&& e.line == 0
                    &&& e.column == 0
                    &&& post == self.failed(e)
                },
                Ok(value) => post == match request {
                    Request::Print(_) => self.go(Control::Done(None)),
                    Request::Text(_) => if value is String {
                        self.go(Control::Value(value))
                    } else {
                        self
                    },
                    _ => self.go(Control::Value(value)),
                },
            },
            _ => post == self,
        }
    }

    /// The state in which the top-level statements are about to run: whatever
    /// was running is abandoned as after a failure, and the statements wait
    /// on the stack.
    pub open spec fn loaded(self, statements: &'a [Stmt]) -> State<'a> {
        State {
            control: Control::Done(None),
            frames: seq![Frame::Program(statements, 0)],
            environment: unwound(self.frames, self.environment),
            ..self
        }
    }

    /// How far the machine is.
    pub open spec fn status(self) -> Status {
        match self.control {
            Control::Waiting(_) => Status::Waiting,
            Control::Finished(_) => Status::Finished,
            _ => Status::Running,
        }
    }

    /// Whether `post` is this machine after exactly `count` steps, none of
    /// them taken while it waited or had ended.
    pub open spec fn ran(self, count: nat, post: State<'a>) -> bool
        decreases count,
    {
        if count == 0 {
            post == self
        } else {
            exists|before: State<'a>|
                self.ran((count - 1) as nat, before) && before.status() == Status::Running
                    && #[trigger] before.stepped(post)
        }
    }
}


impl<'a> Interpreter<'a> {
    /// How far the machine is.
    pub fn status(&self) -> (r: Status)
        ensures
            r == self@.status(),
    {
        match &self.control {
            Control::Waiting(_) => Status::Waiting,
            Control::Finished(_) => Status::Finished,
            _ => Status::Running,
        }
    }

    /// What the machine asks of its host, where it waits.
    pub fn request(&self) -> (r: Option<&Request>)
        ensures
            match r {
                Some(request) => self@.control == Control::Waiting(*request),
                None => !(self@.control is Waiting),
            },
    {
        match &self.control {
            Control::Waiting(request) => Some(request),
            _ => None,
        }
    }

    /// How the run has ended, where it has.
    pub fn outcome(&self) -> (r: Option<&Result<Option<Literal>, RuntimeError>>)
        ensures
            match r {
                Some(result) => self@.control == Control::Finished(*result),
                None => !(self@.control is Finished),
            },
    {
        match &self.control {
            Control::Finished(result) => Some(result),
            _ => None,
        }
    }

    /// Assigns `value` to the name at the site `site`.
    pub fn assign_variable(&mut self, site: usize, name: &'a Token, value: Literal)
        requires
            old(self).wf(),
        ensures
            final(self).wf(),
            final(self)@ == old(self)@.assigned(site, name, value),
    {
        let distance = match self.locals.get(&site) {
            Some(d) => Some(*d),
            None => None,
        };
        proof {
            crate::environment::lemma_binder_binds(
                self@.heap.scopes,
                self@.globals as int,
                name.lexeme@,
            );
            if distance.is_some() {
                crate::environment::lemma_ancestor_exists(
                    self@.heap.scopes,
                    self@.environment as int,
                    distance.unwrap() as nat,
                );
            }
        }
        let written = match distance {
            Some(d) => self.heap.assign_at(self.environment, d, name, value),
            None => self.heap.assign(self.globals, name, value),
        };
        match written {
            Ok(v) => {
                self.control = Control::Value(v);
            },
            Err(e) => {
                self.fail(e);
            },
        }
    }

    /// Runs `statements` as a block in the scope `environment`.
    pub fn execute_block(&mut self, statements: &'a Vec<Stmt>, environment: usize)
        requires
            old(self).wf(),
            environment < old(self)@.heap.scopes.len(),
        ensures
            final(self).wf(),
            final(self)@ == old(self)@.block(statements, environment),
    {
        self.stack.push(Frame::Block(statements, 0, self.environment));
        self.environment = environment;
        self.control = Control::Done(None);
    }

    /// Declares the class `name` with the superclass `parent`, if any, and `methods`.
    pub fn declare_class(&mut self, name: &'a Token, parent: Option<usize>, methods: &'a Vec<Stmt>)
        requires
            old(self).wf(),
        ensures
            final(self).wf(),
            final(self)@ == old(self)@.class_declared(name, parent, methods),
    {
        let current = self.environment;
        self.heap.define(current, name.lexeme.as_str(), Literal::Nil);
        let closure = match parent {
            Some(c) => {
                let scope = self.heap.nested(current);
                self.heap.define(scope, "super", Literal::Callable(LoxCallable::LoxClass(c)));
                scope
            },
            None => current,
        };
        let ghost enclosed = self@.heap.scopes;
        let mut table: StringHashMap<usize> = StringHashMap::new();
        let mut i: usize = 0;
        while i < methods.len()
            invariant
                i <= methods.len(),
                self.wf(),
                closure < self@.heap.scopes.len(),
                self@.heap == (HeapView {
                    scopes: enclosed,
                    functions: methods_added(
                        old(self)@.heap.functions,
                        methods@,
                        closure,
                        i as nat,
                    ).0,
                    ..old(self)@.heap
                }),
                table@ == methods_added(old(self)@.heap.functions, methods@, closure, i as nat).1,
                self@.frames == old(self)@.frames,
                self@.locals == old(self)@.locals,
                self@.globals == old(self)@.globals,
                self@.environment == old(self)@.environment,
                self@.control == old(self)@.control,
            decreases methods.len() - i,
        {
            match &methods[i] {
                Stmt::Function(method_name, params, body) => {
                    let is_initializer = same_text(method_name.lexeme.as_str(), "init");
                    let function = self.heap.add_function(
                        LoxFunction::new(method_name, params, body, closure, is_initializer),
                    );
                    table.insert(method_name.lexeme.clone(), function);
                },
                _ => {},
            }
            i += 1;
        }
        let class = self.heap.add_class(LoxClass::new(name.lexeme.as_str(), parent, table));
        self.heap.define(
            current,
            name.lexeme.as_str(),
            Literal::Callable(LoxCallable::LoxClass(class)),
        );
        self.control = Control::Done(None);
    }

    /// Evaluates `super.method` at the site `site`.
    pub fn eval_super(&mut self, site: usize, keyword: &'a Token, method: &'a Token)
        requires
            old(self).wf(),
        ensures
            final(self).wf(),
            old(self)@.supered(site, keyword, method, final(self)@),
    {
        let distance = match self.locals.get(&site) {
            Some(d) => *d,
            None => 0,
        };
        let superclass = match self.heap.scopes().read_at(
            self.environment,
            distance,
            keyword.lexeme.as_str(),
        ) {
            Some(v) => v,
            None => {
                self.fail(RuntimeError::new(Fault::UndefinedVariableAt(distance), keyword));
                return ;
            },
        };
        let receiver = if distance == 0 {
            None
        } else {
            self.heap.scopes().read_at(self.environment, distance - 1, "this")
        };
        let instance = match receiver {
            Some(v) => v,
            None => {
                self.fail(
                    RuntimeError {
                        kind: Fault::UndefinedVariableAt(
                            if distance == 0 {
                                0
                            } else {
                                distance - 1
                            },
                        ),
                        lexeme: String::from_str("this"),
                        line: 0,
                        column: 0,
                    },
                );
                return ;
            },
        };
        match (superclass, instance) {
            (Literal::Callable(LoxCallable::LoxClass(c)), Literal::LoxInstance(o)) => {
                match self.heap.find_method(c, method.lexeme.as_str()) {
                    Some(m) => {
                        let bound = self.heap.bind(m, o);
                        self.control = Control::Value(
                            Literal::Callable(LoxCallable::LoxFunction(bound)),
                        );
                    },
                    None => {
                        self.fail(RuntimeError::new(Fault::UndefinedProperty, method));
                    },
                }
            },
            _ => {
                self.fail(RuntimeError::new(Fault::UndefinedProperty, method));
            },
        }
    }

    /// Begins the evaluation of `expr`: what can be decided at once is, and
    /// what waits for the value of a part waits on the stack.
    pub fn evaluate(&mut self, expr: &'a Expr)
        requires
            old(self).wf(),
        ensures
            final(self).wf(),
            old(self)@.evaluated(expr, final(self)@),
    {
        match expr {
            Expr::Assign(site, name, value) => {
                self.stack.push(Frame::Assign(*site, name));
                self.control = Control::Eval(&**value);
            },
            Expr::Binary(left, op, right) => {
                self.stack.push(Frame::BinaryRight(op, &**right));
                self.control = Control::Eval(&**left);
            },
            Expr::Call(callee, paren, arguments) => {
                self.stack.push(Frame::Callee(paren, arguments));
                self.control = Control::Eval(&**callee);
            },
            Expr::Get(object, name) => {
                self.stack.push(Frame::Get(name));
                self.control = Control::Eval(&**object);
            },
            Expr::SetField(object, name, value) => {
                self.stack.push(Frame::SetTarget(name, &**value));
                self.control = Control::Eval(&**object);
            },
            Expr::Super(site, keyword, method) => {
                self.eval_super(*site, keyword, method);
            },
            Expr::This(site, keyword) => {
                match self.lookup_variable(*site, keyword) {
                    Ok(v) => {
                        self.control = Control::Value(v);
                    },
                    Err(e) => {
                        self.fail(e);
                    },
                }
            },
            Expr::Grouping(inner) => {
                self.control = Control::Eval(&**inner);
            },
            Expr::Literal(value) => {
                self.control = Control::Value(value.clone());
            },
            Expr::Logical(left, op, right) => {
                self.stack.push(Frame::Logical(op, &**right));
                self.control = Control::Eval(&**left);
            },
            Expr::Unary(op, right) => {
                self.stack.push(Frame::Unary(op));
                self.control = Control::Eval(&**right);
            },
            Expr::Variable(site, name) => {
                match self.lookup_variable(*site, name) {
                    Ok(v) => {
                        self.control = Control::Value(v);
                    },
                    Err(e) => {
                        self.fail(e);
                    },
                }
            },
        }
    }

    /// Begins the execution of `stmt`.
    pub fn execute(&mut self, stmt: &'a Stmt)
        requires
            old(self).wf(),
        ensures
            final(self).wf(),
            old(self)@.executed(stmt, final(self)@),
    {
        match stmt {
            Stmt::Block(statements) => {
                let scope = self.heap.nested(self.environment);
                self.execute_block(statements, scope);
            },
            Stmt::Class(name, superclass, methods) => {
                match superclass {
                    Some(parent) => {
                        self.stack.push(Frame::Superclass(name, methods));
                        self.control = Control::Eval(parent);
                    },
                    None => {
                        self.declare_class(name, None, methods);
                    },
                }
            },
            Stmt::Expression(expr) => {
                self.stack.push(Frame::Discard);
                self.control = Control::Eval(expr);
            },
            Stmt::Function(name, params, body) => {
                let function = self.heap.add_function(
                    LoxFunction::new(name, params, body, self.environment, false),
                );
                self.heap.define(
                    self.environment,
                    name.lexeme.as_str(),
                    Literal::Callable(LoxCallable::LoxFunction(function)),
                );
                self.control = Control::Done(None);
            },
            Stmt::If(condition, then_branch, else_branch) => {
                let otherwise: Option<&'a Stmt> = match else_branch {
                    Some(branch) => Some(&**branch),
                    None => None,
                };
                self.stack.push(Frame::If(&**then_branch, otherwise));
                self.control = Control::Eval(condition);
            },
            Stmt::Print(expr) => {
                self.stack.push(Frame::Print);
                self.control = Control::Eval(expr);
            },
            Stmt::Return(_, value) => {
                self.stack.push(Frame::Return);
                self.control = Control::Eval(value);
            },
            Stmt::Var(name, initializer) => {
                match initializer {
                    Some(expr) => {
                        self.stack.push(Frame::Define(name));
                        self.control = Control::Eval(expr);
                    },
                    None => {
                        self.heap.define(self.environment, name.lexeme.as_str(), Literal::Nil);
                        self.control = Control::Done(None);
                    },
                }
            },
            Stmt::While(condition, body) => {
                self.stack.push(Frame::WhileCond(condition, &**body));
                self.control = Control::Eval(condition);
            },
        }
    }

    /// Writes `value`, or asks for its text first where it is a number.
    pub fn print(&mut self, value: Literal)
        requires
            old(self).wf(),
        ensures
            final(self).wf(),
            old(self)@.printed(value, final(self)@),
    {
        match value {
            Literal::Double(bits) => {
                self.stack.push(Frame::Print);
                self.control = Control::Waiting(Request::Text(bits));
            },
            _ => {
                let text = self.heap.display(&value);
                self.control = Control::Waiting(Request::Print(text));
            },
        }
    }

    /// Hands `value` to `frame`, which has been taken off the stack.
    pub fn deliver(&mut self, frame: Frame<'a>, value: Literal)
        requires
            old(self).wf(),
        ensures
            final(self).wf(),
            old(self)@.delivered(frame, value, final(self)@),
    {
        match frame {
            Frame::Assign(site, name) => {
                self.assign_variable(site, name, value);
            },
            Frame::Unary(op) => {
                self.eval_unary(op, value);
            },
            Frame::BinaryRight(op, right) => {
                self.stack.push(Frame::BinaryApply(op, value));
                self.control = Control::Eval(right);
            },
            Frame::BinaryApply(op, left) => {
                self.eval_binary(op, left, value);
            },
            Frame::ConcatAfter(op, left) => {
                self.add(op, left, value);
            },
            Frame::ConcatBefore(op, right) => {
                self.add(op, value, right);
            },
            Frame::Logical(op, right) => {
                if (op.token == TokenType::Or) == Self::is_truthy(&value) {
                    self.control = Control::Value(value);
                } else {
                    self.control = Control::Eval(right);
                }
            },
            Frame::Callee(paren, arguments) => {
                if arguments.len() == 0 {
                    self.eval_call(paren, value, Vec::new());
                } else {
                    self.stack.push(Frame::Argument(paren, arguments, value, Vec::new()));
                    self.control = Control::Eval(&arguments[0]);
                }
            },
            Frame::Argument(paren, arguments, callee, evaluated) => {
                let mut evaluated = evaluated;
                evaluated.push(value);
                if evaluated.len() < arguments.len() {
                    let next = evaluated.len();
                    self.stack.push(Frame::Argument(paren, arguments, callee, evaluated));
                    self.control = Control::Eval(&arguments[next]);
                } else {
                    self.eval_call(paren, callee, evaluated);
                }
            },
            Frame::Get(name) => {
                self.eval_get(name, value);
            },
            Frame::SetTarget(name, what) => {
                match value {
                    Literal::LoxInstance(o) => {
                        if self.heap.is_instance(o) {
                            self.stack.push(Frame::SetValue(name, o));
                            self.control = Control::Eval(what);
                        } else {
                            self.fail(RuntimeError::new(Fault::NoFields, name));
                        }
                    },
                    _ => {
                        self.fail(RuntimeError::new(Fault::NoFields, name));
                    },
                }
            },
            Frame::SetValue(name, object) => {
                self.eval_set(name, object, value);
            },
            Frame::Construct(instance) => {
                self.control = Control::Value(Literal::LoxInstance(instance));
            },
            Frame::Discard => {
                self.control = Control::Done(None);
            },
            Frame::Print => {
                self.print(value);
            },
            Frame::Define(name) => {
                self.heap.define(self.environment, name.lexeme.as_str(), value);
                self.control = Control::Done(None);
            },
            Frame::If(then_branch, else_branch) => {
                if Self::is_truthy(&value) {
                    self.control = Control::Exec(then_branch);
                } else {
                    match else_branch {
                        Some(branch) => {
                            self.control = Control::Exec(branch);
                        },
                        None => {
                            self.control = Control::Done(None);
                        },
                    }
                }
            },
            Frame::WhileCond(condition, body) => {
                if Self::is_truthy(&value) {
                    self.stack.push(Frame::WhileBody(condition, body));
                    self.control = Control::Exec(body);
                } else {
                    self.control = Control::Done(None);
                }
            },
            Frame::Return => {
                self.control = Control::Done(Some(value));
            },
            Frame::Superclass(name, methods) => {
                match value {
                    Literal::Callable(LoxCallable::LoxClass(c)) => {
                        if self.heap.is_class(c) {
                            self.declare_class(name, Some(c), methods);
                        } else {
                            self.fail(RuntimeError::new(Fault::SuperclassNotClass, name));
                        }
                    },
                    _ => {
                        self.fail(RuntimeError::new(Fault::SuperclassNotClass, name));
                    },
                }
            },
            _ => {
                self.control = Control::Value(value);
            },
        }
    }

    /// Tells `frame`, which has been taken off the stack, that the statement
    /// it waited for has ended with `outcome`.
    pub fn complete(&mut self, frame: Frame<'a>, outcome: Option<Literal>)
        requires
            old(self).wf(),
            frame matches Frame::Block(_, _, previous) ==> previous < old(self)@.heap.scopes.len(),
        ensures
            final(self).wf(),
            old(self)@.completed(frame, outcome, final(self)@),
    {
        match frame {
            Frame::Program(statements, next) => {
                if next < statements.len() {
                    self.stack.push(Frame::Program(statements, next + 1));
                    self.control = Control::Exec(&statements[next]);
                } else {
                    self.control = Control::Done(None);
                }
            },
            Frame::Block(statements, next, previous) => {
                if outcome.is_none() && next < statements.len() {
                    self.stack.push(Frame::Block(statements, next + 1, previous));
                    self.control = Control::Exec(&statements[next]);
                } else {
                    self.environment = previous;
                    self.control = Control::Done(outcome);
                }
            },
            Frame::WhileBody(condition, body) => {
                match outcome {
                    Some(_) => {
                        self.control = Control::Done(outcome);
                    },
                    None => {
                        self.stack.push(Frame::WhileCond(condition, body));
                        self.control = Control::Eval(condition);
                    },
                }
            },
            Frame::Call(initializer) => {
                match initializer {
                    Some(closure) => {
                        match self.heap.scopes().read_at(closure, 0, "this") {
                            Some(v) => {
                                self.control = Control::Value(v);
                            },
                            None => {
                                self.fail(
                                    RuntimeError {
                                        kind: Fault::UndefinedVariableAt(0),
                                        lexeme: String::from_str("this"),
                                        line: 0,
                                        column: 0,
                                    },
                                );
                            },
                        }
                    },
                    None => {
                        self.control = Control::Value(
                            match outcome {
                                Some(v) => v,
                                None => Literal::Nil,
                            },
                        );
                    },
                }
            },
            _ => {
                self.control = Control::Done(outcome);
            },
        }
    }

    /// Takes one step, and says how far the machine then is.
    pub fn step(&mut self) -> (r: Status)
        requires
            old(self).wf(),
        ensures
            final(self).wf(),
            old(self)@.stepped(final(self)@),
            r == final(self)@.status(),
    {
        match &self.control {
            Control::Waiting(_) => {
                return Status::Waiting;
            },
            Control::Finished(_) => {
                return Status::Finished;
            },
            _ => {},
        }
        let mut control = Control::Done(None);
        std::mem::swap(&mut self.control, &mut control);
        match control {
            Control::Eval(expr) => {
                self.evaluate(expr);
            },
            Control::Exec(stmt) => {
                self.execute(stmt);
            },
            Control::Value(value) => {
                match self.stack.pop() {
                    Some(frame) => {
                        self.deliver(frame, value);
                    },
                    None => {
                        self.control = Control::Finished(Ok(Some(value)));
                    },
                }
            },
            Control::Done(outcome) => {
                match self.stack.pop() {
                    Some(frame) => {
                        self.complete(frame, outcome);
                    },
                    None => {
                        self.control = Control::Finished(Ok(outcome));
                    },
                }
            },
            _ => {},
        }
        self.status()
    }

    /// Takes steps until the machine waits for the host or the run has ended,
    /// but no more than `budget`; says how far the machine then is.
    pub fn run(&mut self, budget: usize) -> (r: Status)
        requires
            old(self).wf(),
        ensures
            final(self).wf(),
            r == final(self)@.status(),
            exists|count: nat|
                count <= budget && #[trigger] old(self)@.ran(count, final(self)@) && (r
                    == Status::Running ==> count == budget),
    {
        let mut taken: usize = 0;
        let mut status = self.status();
        while taken < budget && status == Status::Running
            invariant
                self.wf(),
                taken <= budget,
                status == self@.status(),
                old(self)@.ran(taken as nat, self@),
            decreases budget - taken,
        {
            let ghost before = self@;
            status = self.step();
            taken += 1;
            assert(before.stepped(self@));
        }
        assert(old(self)@.ran(taken as nat, self@));
        status
    }

    /// Gives the machine the host's answer to its request.
    pub fn resume(&mut self, reply: Result<Literal, String>)
        requires
            old(self).wf(),
        ensures
            final(self).wf(),
            old(self)@.resumed(reply, final(self)@),
    {
        let textual = match &self.control {
            Control::Waiting(Request::Text(_)) => 1u8,
            Control::Waiting(Request::Print(_)) => 2u8,
            Control::Waiting(_) => 3u8,
            _ => 0u8,
        };
        if textual == 0 {
            return ;
        }
        match reply {
            Err(message) => {
                self.fail(RuntimeError { kind: Fault::Native, lexeme: message, line: 0, column: 0 });
            },
            Ok(value) => {
                if textual == 2 {
                    self.control = Control::Done(None);
                } else if textual == 1 {
                    match &value {
                        Literal::String(_) => {
                            self.control = Control::Value(value);
                        },
                        _ => {},
                    }
                } else {
                    self.control = Control::Value(value);
                }
            },
        }
    }

    /// Makes the machine ready to run the top-level `statements`.
    pub fn interpret(&mut self, statements: &'a [Stmt])
        requires
            old(self).wf(),
        ensures
            final(self).wf(),
            final(self)@ == old(self)@.loaded(statements),
    {
        self.unwind();
        self.stack.push(Frame::Program(statements, 0));
        self.control = Control::Done(None);
        assert(self@.frames =~= seq![Frame::Program(statements, 0)]);
    }
}


/// Calling a class gives the instance it made: at once where the class has no
/// initializer; and where it has one, the frame that waits for the
/// initializer's call gives the instance whatever value that call hands back.
pub proof fn lemma_constructor_gives_instance<'a>(
    state: State<'a>,
    class: usize,
    arguments: Seq<Literal>,
    called: State<'a>,
    instance: usize,
    later: State<'a>,
    returned: Literal,
    after: State<'a>,
)
    requires
        instance == state.heap.instances.len(),
        state.applied(LoxCallable::LoxClass(class), arguments, called),
        later.delivered(Frame::Construct(instance), returned, after),
    ensures
        called.heap.instances.len() == instance + 1,
        called.heap.instances[instance as int] == (InstanceView {
            klass: class,
            fields: Map::empty(),
        }),
        state.instantiated(class).heap.method(instance as int, "init"@).is_none()
            ==> called.control == Control::Value(Literal::LoxInstance(instance)),
        state.instantiated(class).heap.method(instance as int, "init"@).is_some()
            ==> called.frames[state.frames.len() as int] == Frame::Construct(instance),
        after.control == Control::Value(Literal::LoxInstance(instance)),
{
}

/// The call of an initializer gives what `this` is bound to in its closure,
/// whatever its body returned.
pub proof fn lemma_initializer_gives_this<'a>(
    state: State<'a>,
    closure: usize,
    outcome: Option<Literal>,
    after: State<'a>,
    receiver: Literal,
)
    requires
        lookup_at(state.heap.scopes, closure as int, 0, "this"@) == Some(receiver),
        state.completed(Frame::Call(Some(closure)), outcome, after),
    ensures
        after.control == Control::Value(receiver),
{
}

/// `super.method` dispatches from the class that `super` is bound to, not from
/// the class of the instance, and the method comes bound to the instance that
/// `this` is bound to: a new function with the method's declaration, whose
/// closure is a fresh scope that binds `this` to that instance.
pub proof fn lemma_super_dispatch<'a>(
    state: State<'a>,
    site: usize,
    keyword: &'a Token,
    method: &'a Token,
    after: State<'a>,
    superclass: usize,
    instance: usize,
    found: usize,
    function: usize,
    scope: usize,
)
    requires
        function == state.heap.functions.len(),
        scope == state.heap.scopes.len(),
        state.locals.contains_key(site),
        state.locals[site] > 0,
        lookup_at(
            state.heap.scopes,
            state.environment as int,
            state.locals[site] as nat,
            keyword.lexeme@,
        ) == Some(Literal::Callable(LoxCallable::LoxClass(superclass))),
        lookup_at(
            state.heap.scopes,
            state.environment as int,
            (state.locals[site] - 1) as nat,
            "this"@,
        ) == Some(Literal::LoxInstance(instance)),
        state.heap.class_method(superclass as int, method.lexeme@) == Some(found),
        state.supered(site, keyword, method, after),
    ensures
        after.control == Control::Value(Literal::Callable(LoxCallable::LoxFunction(function))),
        after.heap.functions[function as int] == (LoxFunction {
            closure: scope,
            ..state.heap.functions[found as int]
        }),
        after.heap.scopes[scope as int] == crate::lox_callable::receiver_scope(
            state.heap.functions[found as int].closure,
            instance,
        ),
{
}

} // verus!
