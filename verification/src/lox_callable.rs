use vstd::prelude::*;
use vstd::hash_map::StringHashMap;
use vstd::string::*;
use crate::environment::{Environment, ScopeView, is_forest};
use crate::error::{Fault, RuntimeError};
use crate::scanner::{Literal, Token};
use crate::stmt::Stmt;

verus! {

/// A callable value, by the identity of the object it names.
#[derive(Debug, Clone, Copy, PartialEq, Eq, Hash, Structural)]
pub enum LoxCallable {
    NativeFunction(usize),
    LoxFunction(usize),
    LoxClass(usize),
}

/// A function of the host: its name, by which the host finds it, and how many
/// arguments it takes.
pub struct NativeFunction {
    name: String,
    arity: usize,
}

/// A native function as the contracts see it.
pub ghost struct NativeView {
    pub name: Seq<char>,
    pub arity: usize,
}

impl View for NativeFunction {
    type V = NativeView;

    closed spec fn view(&self) -> NativeView {
        NativeView { name: self.name@, arity: self.arity }
    }
}

impl NativeFunction {
    /// A native function called `name` that takes `arity` arguments.
    pub fn new(name: &str, arity: usize) -> (r: Self)
        ensures
            r@ == (NativeView { name: name@, arity }),
    {
        NativeFunction { name: String::from_str(name), arity }
    }

    /// How many arguments it takes.
    pub fn arity(&self) -> (r: usize)
        ensures
            r == self@.arity,
    {
        self.arity
    }

    /// Its name.
    pub fn name(&self) -> (r: &str)
        ensures
            r@ == self@.name,
    {
        self.name.as_str()
    }
}

/// A function of the program: its declaration, the scope it closes over, and
/// whether it is a class's initializer.
#[derive(Clone, Copy)]
pub struct LoxFunction<'a> {
    pub name: &'a Token,
    pub params: &'a Vec<Token>,
    pub body: &'a Vec<Stmt>,
    pub closure: usize,
    pub is_initializer: bool,
}

/// The scope that a bound method closes over: nested in the method's own
/// closure, it binds `this` to the instance and nothing else.
pub open spec fn receiver_scope(closure: usize, instance: usize) -> ScopeView {
    ScopeView {
        enclosing: Some(closure),
        values: Map::<Seq<char>, Literal>::empty().insert("this"@, Literal::LoxInstance(instance)),
    }
}

impl<'a> LoxFunction<'a> {
    /// The function declared as `name`, `params` and `body`, closing over `closure`.
    pub fn new(
        name: &'a Token,
        params: &'a Vec<Token>,
        body: &'a Vec<Stmt>,
        closure: usize,
        is_initializer: bool,
    ) -> (r: Self)
        ensures
            r == (LoxFunction { name, params, body, closure, is_initializer }),
    {
        LoxFunction { name, params, body, closure, is_initializer }
    }

    /// How many arguments it takes: as many as it has parameters.
    pub fn arity(&self) -> (r: usize)
        ensures
            r == self.params@.len(),
    {
        self.params.len()
    }

    /// The same function bound to `instance`: a new function with the same
    /// declaration and flag, whose closure is a fresh scope nested in this
    /// one's closure that binds `this` to the instance.
    pub fn bind(&self, scopes: &mut Environment, instance: usize) -> (r: LoxFunction<'a>)
        requires
            self.closure < old(scopes)@.len(),
        ensures
            final(scopes)@ == old(scopes)@.push(receiver_scope(self.closure, instance)),
            r == (LoxFunction { closure: old(scopes)@.len() as usize, ..*self }),
            old(scopes).wf() ==> final(scopes).wf(),
    {
        let environment = scopes.nested(self.closure);
        scopes.define(environment, "this", Literal::LoxInstance(instance));
        assert(scopes@ =~= old(scopes)@.push(receiver_scope(self.closure, instance)));
        LoxFunction::new(self.name, self.params, self.body, environment, self.is_initializer)
    }
}

/// A class as the contracts see it.
pub ghost struct ClassView {
    pub name: Seq<char>,
    pub superclass: Option<usize>,
    pub methods: Map<Seq<char>, usize>,
}

/// A class: its name, its superclass if it has one, and its own methods by
/// name. It does not change once made.
pub struct LoxClass {
    name: String,
    superclass: Option<usize>,
    methods: StringHashMap<usize>,
}

impl View for LoxClass {
    type V = ClassView;

    closed spec fn view(&self) -> ClassView {
        ClassView { name: self.name@, superclass: self.superclass, methods: self.methods@ }
    }
}

/// The classes of a sequence as the contracts see them.
pub open spec fn class_views(classes: Seq<LoxClass>) -> Seq<ClassView> {
    Seq::new(classes.len(), |i: int| classes[i]@)
}

/// The method called `name` that an instance of `class` answers to: the
/// class's own where it has one, else its superclass's, and so on up the chain.
pub open spec fn method_of(classes: Seq<ClassView>, class: int, name: Seq<char>) -> Option<usize>
    decreases class,
{
    if !(0 <= class < classes.len()) {
        None
    } else if classes[class].methods.contains_key(name) {
        Some(classes[class].methods[name])
    } else {
        match classes[class].superclass {
            Some(p) => if p < class {
                method_of(classes, p as int, name)
            } else {
                None
            },
            None => None,
        }
    }
}

impl LoxClass {
    /// The class called `name` with the given superclass and methods.
    pub fn new(name: &str, superclass: Option<usize>, methods: StringHashMap<usize>) -> (r: Self)
        ensures
            r@ == (ClassView { name: name@, superclass, methods: methods@ }),
    {
        LoxClass { name: String::from_str(name), superclass, methods }
    }

    /// Gives [`method_of`] for the class at index `class` of `classes`.
    pub fn find_method(classes: &Vec<LoxClass>, class: usize, name: &str) -> (r: Option<usize>)
        ensures
            r == method_of(class_views(classes@), class as int, name@),
    {
        if class >= classes.len() {
            return None;
        }
        let mut current: usize = class;
        loop
            invariant
                current < classes.len(),
                method_of(class_views(classes@), class as int, name@) == method_of(
                    class_views(classes@),
                    current as int,
                    name@,
                ),
            decreases current,
        {
            match classes[current].methods.get(name) {
                Some(m) => {
                    return Some(*m);
                },
                None => {},
            }
            match classes[current].superclass {
                Some(p) => {
                    if p < current {
                        current = p;
                    } else {
                        return None;
                    }
                },
                None => {
                    return None;
                },
            }
        }
    }
}

/// An instance as the contracts see it.
pub ghost struct InstanceView {
    pub klass: usize,
    pub fields: Map<Seq<char>, Literal>,
}

/// An instance: the class it was made from and its fields by name.
pub struct LoxInstance {
    klass: usize,
    fields: StringHashMap<Literal>,
}

impl View for LoxInstance {
    type V = InstanceView;

    closed spec fn view(&self) -> InstanceView {
        InstanceView { klass: self.klass, fields: self.fields@ }
    }
}

/// Everything that values refer to by index, as the contracts see it.
pub ghost struct HeapView<'a> {
    pub scopes: Seq<ScopeView>,
    pub natives: Seq<NativeView>,
    pub functions: Seq<LoxFunction<'a>>,
    pub classes: Seq<ClassView>,
    pub instances: Seq<InstanceView>,
}

/// Everything that values refer to by index: scopes, native functions,
/// functions, classes and instances. Nothing is ever removed, so an index
/// names one object for the whole run.
pub struct Heap<'a> {
    scopes: Environment,
    natives: Vec<NativeFunction>,
    functions: Vec<LoxFunction<'a>>,
    classes: Vec<LoxClass>,
    instances: Vec<LoxInstance>,
}

impl<'a> View for Heap<'a> {
    type V = HeapView<'a>;

    closed spec fn view(&self) -> HeapView<'a> {
        HeapView {
            scopes: self.scopes@,
            natives: Seq::new(self.natives@.len(), |i: int| self.natives@[i]@),
            functions: self.functions@,
            classes: class_views(self.classes@),
            instances: Seq::new(self.instances@.len(), |i: int| self.instances@[i]@),
        }
    }
}

/// The error for a property that is neither a field nor a method.
pub open spec fn undefined_property(name: Token) -> RuntimeError {
    RuntimeError {
        kind: Fault::UndefinedProperty,
        lexeme: name.lexeme,
        line: name.line,
        column: name.column,
    }
}

impl<'a> HeapView<'a> {
    /// The scopes form a forest and every function closes over a scope that exists.
    pub open spec fn wf(self) -> bool {
        &&& is_forest(self.scopes)
        &&& self.scopes.len() > 0
        &&& forall|i: int|
            0 <= i < self.functions.len() ==> (#[trigger] self.functions[i]).closure
                < self.scopes.len()
    }

    /// The method called `name` that the instance `instance` answers to, where
    /// it names a function that exists.
    pub open spec fn method(self, instance: int, name: Seq<char>) -> Option<usize> {
        self.class_method(self.instances[instance].klass as int, name)
    }

    /// The method called `name` of the class `class`, its own or inherited,
    /// where it names a function that exists.
    pub open spec fn class_method(self, class: int, name: Seq<char>) -> Option<usize> {
        match method_of(self.classes, class, name) {
            Some(m) => if m < self.functions.len() {
                Some(m)
            } else {
                None
            },
            None => None,
        }
    }

    /// The heap after the function `function` has been bound to `instance`:
    /// one scope more, which binds `this`, and one function more, which closes
    /// over it.
    pub open spec fn bound_method(self, function: int, instance: usize) -> HeapView<'a> {
        HeapView {
            scopes: self.scopes.push(receiver_scope(self.functions[function].closure, instance)),
            functions: self.functions.push(
                LoxFunction { closure: self.scopes.len() as usize, ..self.functions[function] },
            ),
            ..self
        }
    }

    /// How many arguments a callable takes: a native function or a function
    /// as many as it declares, a class as many as its initializer, or none
    /// where it has no initializer. `None` where the value names no object.
    pub open spec fn arity(self, callable: LoxCallable) -> Option<usize> {
        match callable {
            LoxCallable::NativeFunction(i) => if i < self.natives.len() {
                Some(self.natives[i as int].arity)
            } else {
                None
            },
            LoxCallable::LoxFunction(i) => if i < self.functions.len() {
                Some(self.functions[i as int].params@.len() as usize)
            } else {
                None
            },
            LoxCallable::LoxClass(i) => if i < self.classes.len() {
                match self.class_method(i as int, "init"@) {
                    Some(m) => Some(self.functions[m as int].params@.len() as usize),
                    None => Some(0),
                }
            } else {
                None
            },
        }
    }
}

impl<'a> Heap<'a> {
    /// See [`HeapView::wf`].
    pub open spec fn wf(&self) -> bool {
        self@.wf()
    }

    /// A heap with the root scope and nothing else.
    pub fn new() -> (r: Self)
        ensures
            r@ == (HeapView {
                scopes: seq![ScopeView { enclosing: None, values: Map::empty() }],
                natives: Seq::empty(),
                functions: Seq::empty(),
                classes: Seq::empty(),
                instances: Seq::empty(),
            }),
            r.wf(),
    {
        let r = Heap {
            scopes: Environment::new(),
            natives: Vec::new(),
            functions: Vec::new(),
            classes: Vec::new(),
            instances: Vec::new(),
        };
        assert(r@.natives =~= Seq::empty());
        assert(r@.classes =~= Seq::empty());
        assert(r@.instances =~= Seq::empty());
        r
    }

    /// The scopes.
    pub fn scopes(&self) -> (r: &Environment)
        ensures
            r@ == self@.scopes,
    {
        &self.scopes
    }

    /// Makes a scope with no bindings nested in `enclosing`.
    pub fn nested(&mut self, enclosing: usize) -> (r: usize)
        requires
            enclosing < old(self)@.scopes.len(),
            old(self).wf(),
        ensures
            r == old(self)@.scopes.len(),
            final(self)@ == (HeapView {
                scopes: old(self)@.scopes.push(
                    ScopeView { enclosing: Some(enclosing), values: Map::empty() },
                ),
                ..old(self)@
            }),
            final(self).wf(),
    {
        self.scopes.nested(enclosing)
    }

    /// Binds `key` to `value` in the scope `scope`.
    pub fn define(&mut self, scope: usize, key: &str, value: Literal)
        requires
            scope < old(self)@.scopes.len(),
            old(self).wf(),
        ensures
            final(self)@ == (HeapView {
                scopes: crate::environment::bound(old(self)@.scopes, scope as int, key@, value),
                ..old(self)@
            }),
            final(self).wf(),
    {
        self.scopes.define(scope, key, value);
    }

    /// Overwrites `name` in the nearest scope that binds it, from `scope` outwards.
    pub fn assign(&mut self, scope: usize, name: &Token, val: Literal) -> (r: Result<
        Literal,
        RuntimeError,
    >)
        requires
            old(self).wf(),
        ensures
            match crate::environment::binder(old(self)@.scopes, scope as int, name.lexeme@) {
                Some(b) => r == Ok::<Literal, RuntimeError>(val) && final(self)@ == (HeapView {
                    scopes: crate::environment::bound(old(self)@.scopes, b, name.lexeme@, val),
                    ..old(self)@
                }),
                None => r == Err::<Literal, RuntimeError>(crate::environment::undefined(*name))
                    && final(self)@ == old(self)@,
            },
            final(self).wf(),
    {
        proof {
            crate::environment::lemma_binder_binds(self@.scopes, scope as int, name.lexeme@);
        }
        self.scopes.assign(scope, name, val)
    }

    /// Binds `name` to `val` in the scope exactly `distance` links up from
    /// `scope`; fails, changing nothing, where the chain is shorter.
    pub fn assign_at(&mut self, scope: usize, distance: usize, name: &Token, val: Literal) -> (r:
        Result<Literal, RuntimeError>)
        requires
            old(self).wf(),
        ensures
            match crate::environment::ancestor_of(
                old(self)@.scopes,
                scope as int,
                distance as nat,
            ) {
                Some(a) => r == Ok::<Literal, RuntimeError>(val) && final(self)@ == (HeapView {
                    scopes: crate::environment::bound(old(self)@.scopes, a, name.lexeme@, val),
                    ..old(self)@
                }),
                None => r == Err::<Literal, RuntimeError>(
                    RuntimeError {
                        kind: Fault::UndefinedVariableAt(distance),
                        lexeme: name.lexeme,
                        line: name.line,
                        column: name.column,
                    },
                ) && final(self)@ == old(self)@,
            },
            final(self).wf(),
    {
        match self.scopes.reach(scope, distance) {
            Some(_) => self.scopes.assign_at(scope, distance, name, val),
            None => Err(RuntimeError::new(Fault::UndefinedVariableAt(distance), name)),
        }
    }

    /// Adds a native function and gives its index.
    pub fn add_native(&mut self, native: NativeFunction) -> (r: usize)
        ensures
            r == old(self)@.natives.len(),
            final(self)@ == (HeapView {
                natives: old(self)@.natives.push(native@),
                ..old(self)@
            }),
            old(self).wf() ==> final(self).wf(),
    {
        let r = self.natives.len();
        self.natives.push(native);
        assert(self@.natives =~= old(self)@.natives.push(native@));
        r
    }

    /// Adds a function and gives its index.
    pub fn add_function(&mut self, function: LoxFunction<'a>) -> (r: usize)
        requires
            function.closure < old(self)@.scopes.len(),
        ensures
            r == old(self)@.functions.len(),
            final(self)@ == (HeapView {
                functions: old(self)@.functions.push(function),
                ..old(self)@
            }),
            old(self).wf() ==> final(self).wf(),
    {
        let r = self.functions.len();
        self.functions.push(function);
        r
    }

    /// Adds a class and gives its index.
    pub fn add_class(&mut self, class: LoxClass) -> (r: usize)
        ensures
            r == old(self)@.classes.len(),
            final(self)@ == (HeapView {
                classes: old(self)@.classes.push(class@),
                ..old(self)@
            }),
            old(self).wf() ==> final(self).wf(),
    {
        let r = self.classes.len();
        self.classes.push(class);
        assert(self@.classes =~= old(self)@.classes.push(class@));
        r
    }

    /// Makes an instance of `class`, with no fields, and gives its index.
    pub fn instantiate(&mut self, class: usize) -> (r: usize)
        ensures
            r == old(self)@.instances.len(),
            final(self)@ == (HeapView {
                instances: old(self)@.instances.push(
                    InstanceView { klass: class, fields: Map::empty() },
                ),
                ..old(self)@
            }),
            old(self).wf() ==> final(self).wf(),
    {
        let r = self.instances.len();
        self.instances.push(LoxInstance::new(class));
        assert(self@.instances =~= old(self)@.instances.push(
            InstanceView { klass: class, fields: Map::empty() },
        ));
        r
    }

    /// The function at `index`, if there is one.
    pub fn function(&self, index: usize) -> (r: Option<LoxFunction<'a>>)
        ensures
            r == if index < self@.functions.len() {
                Some(self@.functions[index as int])
            } else {
                None
            },
    {
        if index < self.functions.len() {
            Some(self.functions[index])
        } else {
            None
        }
    }

    /// True when `index` names a class.
    pub fn is_class(&self, index: usize) -> (r: bool)
        ensures
            r == (index < self@.classes.len()),
    {
        index < self.classes.len()
    }

    /// True when `index` names an instance.
    pub fn is_instance(&self, index: usize) -> (r: bool)
        ensures
            r == (index < self@.instances.len()),
    {
        index < self.instances.len()
    }

    /// The method called `name` of the class `class`, its own or inherited,
    /// where it names a function that exists.
    pub fn find_method(&self, class: usize, name: &str) -> (r: Option<usize>)
        ensures
            r == self@.class_method(class as int, name@),
    {
        match LoxClass::find_method(&self.classes, class, name) {
            Some(m) => if m < self.functions.len() {
                Some(m)
            } else {
                None
            },
            None => None,
        }
    }

    /// Binds the function `function` to `instance` and gives the index of the
    /// bound function.
    pub fn bind(&mut self, function: usize, instance: usize) -> (r: usize)
        requires
            function < old(self)@.functions.len(),
            old(self).wf(),
        ensures
            r == old(self)@.functions.len(),
            final(self)@ == old(self)@.bound_method(function as int, instance),
            final(self).wf(),
    {
        let method = self.functions[function];
        let bound = method.bind(&mut self.scopes, instance);
        let r = self.functions.len();
        self.functions.push(bound);
        r
    }
}

impl LoxCallable {
    /// Gives [`HeapView::arity`].
    pub fn arity(&self, heap: &Heap) -> (r: Option<usize>)
        ensures
            r == heap@.arity(*self),
    {
        match self {
            LoxCallable::NativeFunction(i) => {
                if *i < heap.natives.len() {
                    Some(heap.natives[*i].arity())
                } else {
                    None
                }
            },
            LoxCallable::LoxFunction(i) => {
                if *i < heap.functions.len() {
                    Some(heap.functions[*i].arity())
                } else {
                    None
                }
            },
            LoxCallable::LoxClass(i) => {
                if *i < heap.classes.len() {
                    match heap.find_method(*i, "init") {
                        Some(m) => Some(heap.functions[m].arity()),
                        None => Some(0),
                    }
                } else {
                    None
                }
            },
        }
    }
}

impl LoxInstance {
    /// An instance of `klass` with no fields.
    pub fn new(klass: usize) -> (r: Self)
        ensures
            r@ == (InstanceView { klass, fields: Map::empty() }),
    {
        LoxInstance { klass, fields: StringHashMap::new() }
    }

    /// Reads the property `name` of the instance `obj`: the field of that name
    /// where there is one; else the method of that name, its class's own or an
    /// inherited one, bound to the instance; else an error.
    pub fn get<'a>(heap: &mut Heap<'a>, obj: usize, name: &Token) -> (r: Result<
        Literal,
        RuntimeError,
    >)
        requires
            obj < old(heap)@.instances.len(),
            old(heap).wf(),
        ensures
            final(heap).wf(),
            ({
                let pre = old(heap)@;
                if pre.instances[obj as int].fields.contains_key(name.lexeme@) {
                    &&& r == Ok::<Literal, RuntimeError>(
                        pre.instances[obj as int].fields[name.lexeme@],
                    )
                    &&& final(heap)@ == pre
                } else {
                    match pre.method(obj as int, name.lexeme@) {
                        Some(m) => {
                            &&& r == Ok::<Literal, RuntimeError>(
                                Literal::Callable(
                                    LoxCallable::LoxFunction(pre.functions.len() as usize),
                                ),
                            )
                            &&& final(heap)@ == pre.bound_method(m as int, obj)
                        },
                        None => {
                            &&& r == Err::<Literal, RuntimeError>(undefined_property(*name))
                            &&& final(heap)@ == pre
                        },
                    }
                }
            }),
    {
        match heap.instances[obj].fields.get(name.lexeme.as_str()) {
            Some(v) => {
                return Ok(v.clone());
            },
            None => {},
        }
        let klass = heap.instances[obj].klass;
        match heap.find_method(klass, name.lexeme.as_str()) {
            Some(m) => {
                let bound = heap.bind(m, obj);
                Ok(Literal::Callable(LoxCallable::LoxFunction(bound)))
            },
            None => Err(RuntimeError::new(Fault::UndefinedProperty, name)),
        }
    }

    /// Writes the field `name`, whether or not the instance had it.
    pub fn set(&mut self, name: &Token, val: Literal)
        ensures
            final(self)@ == (InstanceView {
                klass: old(self)@.klass,
                fields: old(self)@.fields.insert(name.lexeme@, val),
            }),
    {
        self.fields.insert(name.lexeme.clone(), val);
    }
}

impl<'a> Heap<'a> {
    /// Writes the field `name` of the instance `obj`.
    pub fn set_field(&mut self, obj: usize, name: &Token, val: Literal)
        requires
            obj < old(self)@.instances.len(),
        ensures
            final(self)@ == (HeapView {
                instances: old(self)@.instances.update(
                    obj as int,
                    InstanceView {
                        klass: old(self)@.instances[obj as int].klass,
                        fields: old(self)@.instances[obj as int].fields.insert(name.lexeme@, val),
                    },
                ),
                ..old(self)@
            }),
            old(self).wf() ==> final(self).wf(),
    {
        self.instances[obj].set(name, val);
        assert(self@.instances =~= old(self)@.instances.update(
            obj as int,
            InstanceView {
                klass: old(self)@.instances[obj as int].klass,
                fields: old(self)@.instances[obj as int].fields.insert(name.lexeme@, val),
            },
        ));
    }
}


impl<'a> HeapView<'a> {
    /// The name of the class at `index`, or nothing where there is none.
    pub open spec fn class_name(self, index: usize) -> Seq<char> {
        if index < self.classes.len() {
            self.classes[index as int].name
        } else {
            Seq::empty()
        }
    }

    /// How a callable is written: `<native fn NAME>`, `<fn NAME>` or `<class NAME>`.
    pub open spec fn callable_text(self, callable: LoxCallable) -> Seq<char> {
        match callable {
            LoxCallable::NativeFunction(i) => "<native fn "@ + (if i < self.natives.len() {
                self.natives[i as int].name
            } else {
                Seq::empty()
            }) + ">"@,
            LoxCallable::LoxFunction(i) => "<fn "@ + (if i < self.functions.len() {
                self.functions[i as int].name.lexeme@
            } else {
                Seq::empty()
            }) + ">"@,
            LoxCallable::LoxClass(i) => "<class "@ + self.class_name(i) + ">"@,
        }
    }

    /// How a value that is no number is written: a string as its text, a
    /// boolean as `true` or `false`, nil as `nil`, a callable as
    /// [`HeapView::callable_text`] has it, an instance as its class followed by
    /// ` instance`. A number is written by the host, and has no text here.
    pub open spec fn display_text(self, value: Literal) -> Seq<char> {
        match value {
            Literal::Double(_) => Seq::empty(),
            Literal::String(s) => s@,
            Literal::Boolean(b) => if b {
                "true"@
            } else {
                "false"@
            },
            Literal::Callable(c) => self.callable_text(c),
            Literal::LoxInstance(i) => self.callable_text(
                LoxCallable::LoxClass(
                    if i < self.instances.len() {
                        self.instances[i as int].klass
                    } else {
                        i
                    },
                ),
            ) + " instance"@,
            Literal::Nil => "nil"@,
        }
    }
}

impl<'a> Heap<'a> {
    fn callable_name(&self, callable: LoxCallable) -> (s: String)
        ensures
            s@ == self@.callable_text(callable),
    {
        match callable {
            LoxCallable::NativeFunction(i) => {
                let mut s = String::from_str("<native fn ");
                if i < self.natives.len() {
                    s.append(self.natives[i].name());
                }
                s.append(">");
                s
            },
            LoxCallable::LoxFunction(i) => {
                let mut s = String::from_str("<fn ");
                if i < self.functions.len() {
                    s.append(self.functions[i].name.lexeme.as_str());
                }
                s.append(">");
                s
            },
            LoxCallable::LoxClass(i) => {
                let mut s = String::from_str("<class ");
                if i < self.classes.len() {
                    s.append(self.classes[i].name.as_str());
                }
                s.append(">");
                s
            },
        }
    }

    /// Writes a value that is no number as [`HeapView::display_text`] has it.
    pub fn display(&self, value: &Literal) -> (s: String)
        ensures
            s@ == self@.display_text(*value),
    {
        match value {
            Literal::Double(_) => String::new(),
            Literal::String(text) => text.clone(),
            Literal::Boolean(b) => {
                if *b {
                    String::from_str("true")
                } else {
                    String::from_str("false")
                }
            },
            Literal::Callable(c) => self.callable_name(*c),
            Literal::LoxInstance(i) => {
                let klass = if *i < self.instances.len() {
                    self.instances[*i].klass
                } else {
                    *i
                };
                let mut s = self.callable_name(LoxCallable::LoxClass(klass));
                s.append(" instance");
                s
            },
            Literal::Nil => String::from_str("nil"),
        }
    }
}


/// A class takes as many arguments as its initializer has parameters, its own
/// or an inherited one, and none where it has no initializer.
pub proof fn lemma_class_arity(heap: HeapView, class: usize)
    requires
        class < heap.classes.len(),
    ensures
        heap.arity(LoxCallable::LoxClass(class)) == Some(
            match heap.class_method(class as int, "init"@) {
                Some(m) => heap.functions[m as int].params@.len() as usize,
                None => 0usize,
            },
        ),
{
}

/// Method dispatch: a class that defines a method itself answers with its own
/// definition, whatever its superclasses define; a class that does not
/// answers as its superclass does.
pub proof fn lemma_dispatch(classes: Seq<ClassView>, class: int, name: Seq<char>)
    requires
        0 <= class < classes.len(),
    ensures
        classes[class].methods.contains_key(name) ==> method_of(classes, class, name) == Some(
            classes[class].methods[name],
        ),
        !classes[class].methods.contains_key(name) ==> method_of(classes, class, name) == (
        match classes[class].superclass {
            Some(p) => if p < class {
                method_of(classes, p as int, name)
            } else {
                None
            },
            None => None,
        }),
{
}

} // verus!
