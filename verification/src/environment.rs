use vstd::prelude::*;
use vstd::hash_map::StringHashMap;
use vstd::string::*;
use crate::error::{Fault, RuntimeError};
use crate::scanner::{Literal, Token};

verus! {

/// One scope as the contracts see it: the scope it is nested in, if any, and
/// what its names are bound to.
pub ghost struct ScopeView {
    pub enclosing: Option<usize>,
    pub values: Map<Seq<char>, Literal>,
}

/// Every link leads to a scope that was made earlier, so that the links form a
/// forest: no cycles, one parent each.
pub open spec fn is_forest(scopes: Seq<ScopeView>) -> bool {
    forall|i: int|
        0 <= i < scopes.len() ==> match (#[trigger] scopes[i]).enclosing {
            Some(p) => p < i,
            None => true,
        }
}

/// The scope reached from `scope` by exactly `distance` links, if the chain is
/// that long.
pub open spec fn ancestor_of(scopes: Seq<ScopeView>, scope: int, distance: nat) -> Option<int>
    decreases distance,
{
    if !(0 <= scope < scopes.len()) {
        None
    } else if distance == 0 {
        Some(scope)
    } else {
        match scopes[scope].enclosing {
            Some(p) => ancestor_of(scopes, p as int, (distance - 1) as nat),
            None => None,
        }
    }
}

/// The nearest scope, from `scope` outwards, that binds `name`.
pub open spec fn binder(scopes: Seq<ScopeView>, scope: int, name: Seq<char>) -> Option<int>
    decreases scope,
{
    if !(0 <= scope < scopes.len()) {
        None
    } else if scopes[scope].values.contains_key(name) {
        Some(scope)
    } else {
        match scopes[scope].enclosing {
            Some(p) => if p < scope {
                binder(scopes, p as int, name)
            } else {
                None
            },
            None => None,
        }
    }
}

/// What `name` is bound to as seen from `scope`: its value in the nearest scope
/// that binds it.
pub open spec fn lookup(scopes: Seq<ScopeView>, scope: int, name: Seq<char>) -> Option<Literal> {
    match binder(scopes, scope, name) {
        Some(b) => Some(scopes[b].values[name]),
        None => None,
    }
}

/// What `name` is bound to in the scope exactly `distance` links up from
/// `scope`, looking at that scope alone.
pub open spec fn lookup_at(scopes: Seq<ScopeView>, scope: int, distance: nat, name: Seq<char>)
    -> Option<Literal> {
    match ancestor_of(scopes, scope, distance) {
        Some(a) => if scopes[a].values.contains_key(name) {
            Some(scopes[a].values[name])
        } else {
            None
        },
        None => None,
    }
}

/// `scopes` with `name` bound to `value` in the scope `scope`.
pub open spec fn bound(scopes: Seq<ScopeView>, scope: int, name: Seq<char>, value: Literal) -> Seq<
    ScopeView,
> {
    scopes.update(
        scope,
        ScopeView {
            enclosing: scopes[scope].enclosing,
            values: scopes[scope].values.insert(name, value),
        },
    )
}

/// The error for a name that no scope binds.
pub open spec fn undefined(name: Token) -> RuntimeError {
    RuntimeError {
        kind: Fault::UndefinedVariable,
        lexeme: name.lexeme,
        line: name.line,
        column: name.column,
    }
}

/// A chain walk depends only on which scopes bind the name and on the links:
/// two arenas that agree on both, up to `scope`, find the same binder.
pub proof fn lemma_binder_agrees(
    first: Seq<ScopeView>,
    second: Seq<ScopeView>,
    scope: int,
    name: Seq<char>,
)
    requires
        0 <= scope < first.len(),
        scope < second.len(),
        forall|i: int|
            0 <= i <= scope ==> (#[trigger] first[i]).enclosing == second[i].enclosing
                && first[i].values.contains_key(name) == second[i].values.contains_key(name),
    ensures
        binder(first, scope, name) == binder(second, scope, name),
    decreases scope,
{
    if !first[scope].values.contains_key(name) {
        match first[scope].enclosing {
            Some(p) => {
                if p < scope {
                    lemma_binder_agrees(first, second, p as int, name);
                }
            },
            None => {},
        }
    }
}

/// A binder lies in the arena, binds the name, and is not above the scope the
/// walk started from.
pub proof fn lemma_binder_binds(scopes: Seq<ScopeView>, scope: int, name: Seq<char>)
    ensures
        binder(scopes, scope, name) matches Some(b) ==> 0 <= b <= scope && b < scopes.len()
            && scopes[b].values.contains_key(name),
    decreases scope,
{
    if 0 <= scope < scopes.len() && !scopes[scope].values.contains_key(name) {
        match scopes[scope].enclosing {
            Some(p) => {
                if p < scope {
                    lemma_binder_binds(scopes, p as int, name);
                }
            },
            None => {},
        }
    }
}

/// A scope reached by links lies in the arena.
pub proof fn lemma_ancestor_exists(scopes: Seq<ScopeView>, scope: int, distance: nat)
    ensures
        ancestor_of(scopes, scope, distance) matches Some(a) ==> 0 <= a < scopes.len(),
    decreases distance,
{
    if 0 <= scope < scopes.len() && distance > 0 {
        match scopes[scope].enclosing {
            Some(p) => {
                lemma_ancestor_exists(scopes, p as int, (distance - 1) as nat);
            },
            None => {},
        }
    }
}

/// Reading by distance agrees with walking the chain: where the nearest scope
/// that binds `name` lies exactly `distance` links up from `scope`, the read
/// by hop and the read by walk give the same value, whatever the depth.
pub proof fn lemma_get_at_agrees_with_get(
    scopes: Seq<ScopeView>,
    scope: int,
    distance: nat,
    name: Seq<char>,
)
    requires
        is_forest(scopes),
        ancestor_of(scopes, scope, distance) matches Some(a) && scopes[a].values.contains_key(
            name,
        ),
        forall|k: nat|
            k < distance ==> ((#[trigger] ancestor_of(scopes, scope, k)) matches Some(b)
                && !scopes[b].values.contains_key(name)),
    ensures
        lookup(scopes, scope, name).is_some(),
        lookup(scopes, scope, name) == lookup_at(scopes, scope, distance, name),
    decreases distance,
{
    if distance > 0 {
        assert(ancestor_of(scopes, scope, 0) == Some(scope));
        let p = scopes[scope].enclosing.unwrap();
        assert(scopes[scope].enclosing.is_some());
        assert(p < scope);
        assert forall|k: nat| k < (distance - 1) as nat implies ((#[trigger] ancestor_of(
            scopes,
            p as int,
            k,
        )) matches Some(b) && !scopes[b].values.contains_key(name)) by {
            assert(ancestor_of(scopes, scope, k + 1) == ancestor_of(scopes, p as int, k));
        }
        lemma_get_at_agrees_with_get(scopes, p as int, (distance - 1) as nat, name);
    }
}

/// Shadowing: a binding made in a fresh scope nested in `outer` is the one seen
/// from that scope, every other name is seen through to `outer`, and what is
/// seen from `outer` itself, and so after the inner scope is left, is unchanged.
pub proof fn lemma_shadowing(
    scopes: Seq<ScopeView>,
    outer: usize,
    name: Seq<char>,
    value: Literal,
    other: Seq<char>,
)
    requires
        is_forest(scopes),
        outer < scopes.len(),
    ensures
        ({
            let inner = scopes.len() as int;
            let nested = scopes.push(ScopeView { enclosing: Some(outer), values: Map::empty() });
            let shadowed = bound(nested, inner, name, value);
            &&& lookup(shadowed, inner, name) == Some(value)
            &&& lookup(shadowed, outer as int, other) == lookup(scopes, outer as int, other)
            &&& other != name ==> lookup(shadowed, inner, other) == lookup(
                scopes,
                outer as int,
                other,
            )
        }),
{
    let inner = scopes.len() as int;
    let nested = scopes.push(ScopeView { enclosing: Some(outer), values: Map::empty() });
    let shadowed = bound(nested, inner, name, value);
    lemma_binder_agrees(scopes, shadowed, outer as int, other);
    lemma_binder_binds(scopes, outer as int, other);
    assert(shadowed[inner].enclosing == Some(outer));
}

/// Closures alias their scope: where two scopes `a` and `b` are both nested in
/// `shared`, neither binds `name` itself and a scope seen from `shared` does,
/// an assignment made from `a` is read back from `a` and from `b`.
pub proof fn lemma_closures_alias(
    scopes: Seq<ScopeView>,
    shared: usize,
    a: int,
    b: int,
    name: Seq<char>,
    value: Literal,
)
    requires
        is_forest(scopes),
        0 <= a < scopes.len(),
        0 <= b < scopes.len(),
        scopes[a].enclosing == Some(shared),
        scopes[b].enclosing == Some(shared),
        !scopes[a].values.contains_key(name),
        !scopes[b].values.contains_key(name),
        binder(scopes, shared as int, name).is_some(),
    ensures
        binder(scopes, a, name) == binder(scopes, shared as int, name),
        ({
            let target = binder(scopes, a, name).unwrap();
            let after = bound(scopes, target, name, value);
            &&& lookup(after, a, name) == Some(value)
            &&& lookup(after, b, name) == Some(value)
        }),
{
    let target = binder(scopes, shared as int, name).unwrap();
    lemma_binder_binds(scopes, shared as int, name);
    let after = bound(scopes, target, name, value);
    assert forall|i: int| 0 <= i < scopes.len() implies (#[trigger] scopes[i]).enclosing
        == after[i].enclosing && scopes[i].values.contains_key(name) == after[i].values.contains_key(
        name,
    ) by {}
    lemma_binder_agrees(scopes, after, a, name);
    lemma_binder_agrees(scopes, after, b, name);
}

struct Scope {
    enclosing: Option<usize>,
    values: StringHashMap<Literal>,
}

/// All the scopes of a run, each named by its index. A scope links to the
/// scope it is nested in; closures and blocks that share a scope share its index.
pub struct Environment {
    scopes: Vec<Scope>,
}

impl View for Environment {
    type V = Seq<ScopeView>;

    closed spec fn view(&self) -> Seq<ScopeView> {
        Seq::new(
            self.scopes@.len(),
            |i: int|
                ScopeView { enclosing: self.scopes@[i].enclosing, values: self.scopes@[i].values@ },
        )
    }
}

impl Environment {
    /// The links form a forest.
    pub open spec fn wf(&self) -> bool {
        is_forest(self@)
    }

    /// One root scope, with no bindings.
    pub fn new() -> (r: Self)
        ensures
            r@ == seq![ScopeView { enclosing: None, values: Map::empty() }],
            r.wf(),
    {
        let mut scopes: Vec<Scope> = Vec::new();
        scopes.push(Scope { enclosing: None, values: StringHashMap::new() });
        let r = Environment { scopes };
        assert(r@ =~= seq![ScopeView { enclosing: None, values: Map::empty() }]);
        r
    }

    /// How many scopes there are.
    pub fn len(&self) -> (n: usize)
        ensures
            n == self@.len(),
    {
        self.scopes.len()
    }

    /// Makes a scope with no bindings nested in `enclosing`, and returns its index.
    pub fn nested(&mut self, enclosing: usize) -> (r: usize)
        requires
            enclosing < old(self)@.len(),
        ensures
            r == old(self)@.len(),
            final(self)@ == old(self)@.push(
                ScopeView { enclosing: Some(enclosing), values: Map::empty() },
            ),
            old(self).wf() ==> final(self).wf(),
    {
        let r = self.scopes.len();
        self.scopes.push(Scope { enclosing: Some(enclosing), values: StringHashMap::new() });
        assert(self@ =~= old(self)@.push(
            ScopeView { enclosing: Some(enclosing), values: Map::empty() },
        ));
        r
    }

    /// Binds `key` to `value` in the scope `scope`, whether or not it was bound there.
    pub fn define(&mut self, scope: usize, key: &str, value: Literal)
        requires
            scope < old(self)@.len(),
        ensures
            final(self)@ == bound(old(self)@, scope as int, key@, value),
            old(self).wf() ==> final(self).wf(),
    {
        self.scopes[scope].values.insert(String::from_str(key), value);
        assert(self@ =~= bound(old(self)@, scope as int, key@, value));
    }

    /// The scope exactly `distance` links up from `scope`, if the chain is that long.
    pub fn reach(&self, scope: usize, distance: usize) -> (r: Option<usize>)
        ensures
            match r {
                Some(a) => ancestor_of(self@, scope as int, distance as nat) == Some(a as int) && a
                    < self@.len(),
                None => ancestor_of(self@, scope as int, distance as nat).is_none(),
            },
    {
        if scope >= self.scopes.len() {
            return None;
        }
        let mut current: usize = scope;
        let mut left: usize = distance;
        while left > 0
            invariant
                current < self.scopes.len(),
                ancestor_of(self@, scope as int, distance as nat) == ancestor_of(
                    self@,
                    current as int,
                    left as nat,
                ),
            decreases left,
        {
            match self.scopes[current].enclosing {
                Some(p) => {
                    if p >= self.scopes.len() {
                        assert(ancestor_of(self@, p as int, (left - 1) as nat).is_none());
                        return None;
                    }
                    current = p;
                    left -= 1;
                },
                None => {
                    return None;
                },
            }
        }
        Some(current)
    }

    /// The scope exactly `distance` links up from `scope`.
    pub fn ancestor(&self, scope: usize, distance: usize) -> (r: usize)
        requires
            ancestor_of(self@, scope as int, distance as nat).is_some(),
        ensures
            ancestor_of(self@, scope as int, distance as nat) == Some(r as int),
            r < self@.len(),
    {
        match self.reach(scope, distance) {
            Some(a) => a,
            None => scope,
        }
    }

    /// True when the scope `scope` itself binds `name`.
    pub fn binds(&self, scope: usize, name: &str) -> (r: bool)
        requires
            scope < self@.len(),
        ensures
            r == self@[scope as int].values.contains_key(name@),
    {
        self.scopes[scope].values.contains_key(name)
    }

    /// The nearest scope, from `scope` outwards, that binds `name`.
    pub fn find(&self, scope: usize, name: &str) -> (r: Option<usize>)
        ensures
            match r {
                Some(b) => binder(self@, scope as int, name@) == Some(b as int) && b < self@.len()
                    && self@[b as int].values.contains_key(name@),
                None => binder(self@, scope as int, name@).is_none(),
            },
    {
        if scope >= self.scopes.len() {
            return None;
        }
        let mut current: usize = scope;
        loop
            invariant
                current < self.scopes.len(),
                binder(self@, scope as int, name@) == binder(self@, current as int, name@),
            decreases current,
        {
            if self.scopes[current].values.contains_key(name) {
                return Some(current);
            }
            match self.scopes[current].enclosing {
                Some(p) => {
                    if p < current {
                        current = p;
                    } else {
                        return None;
                    }
                },
                None => {
                    return None;
                },
            }
        }
    }

    /// Reads `key` from the nearest scope that binds it, from `scope` outwards.
    pub fn get(&self, scope: usize, key: &Token) -> (r: Result<Literal, RuntimeError>)
        ensures
            match lookup(self@, scope as int, key.lexeme@) {
                Some(v) => r == Ok::<Literal, RuntimeError>(v),
                None => r == Err::<Literal, RuntimeError>(undefined(*key)),
            },
    {
        match self.find(scope, key.lexeme.as_str()) {
            Some(b) => {
                match self.scopes[b].values.get(key.lexeme.as_str()) {
                    Some(v) => Ok(v.clone()),
                    None => Err(RuntimeError::new(Fault::UndefinedVariable, key)),
                }
            },
            None => Err(RuntimeError::new(Fault::UndefinedVariable, key)),
        }
    }

    /// Reads `name` from the scope exactly `distance` links up from `scope`,
    /// looking at that scope alone; `None` where the chain is shorter or the
    /// scope does not bind the name.
    pub fn read_at(&self, scope: usize, distance: usize, name: &str) -> (r: Option<Literal>)
        ensures
            r == lookup_at(self@, scope as int, distance as nat, name@),
    {
        match self.reach(scope, distance) {
            Some(a) => match self.scopes[a].values.get(name) {
                Some(v) => Some(v.clone()),
                None => None,
            },
            None => None,
        }
    }

    /// Reads `name` from the scope exactly `distance` links up from `scope`,
    /// looking at that scope alone.
    pub fn get_at(&self, scope: usize, distance: usize, name: &str) -> (r: Result<
        Literal,
        RuntimeError,
    >)
        requires
            ancestor_of(self@, scope as int, distance as nat).is_some(),
        ensures
            match lookup_at(self@, scope as int, distance as nat, name@) {
                Some(v) => r == Ok::<Literal, RuntimeError>(v),
                None => r matches Err(e) && e.kind == Fault::UndefinedVariableAt(distance)
                    && e.lexeme@ == name@ && e.line == 0 && e.column == 0,
            },
    {
        let a = self.ancestor(scope, distance);
        match self.scopes[a].values.get(name) {
            Some(v) => Ok(v.clone()),
            None => Err(
                RuntimeError {
                    kind: Fault::UndefinedVariableAt(distance),
                    lexeme: String::from_str(name),
                    line: 0,
                    column: 0,
                },
            ),
        }
    }

    /// Binds `name` to `val` in the scope exactly `distance` links up from
    /// `scope`, and gives `val` back.
    pub fn assign_at(&mut self, scope: usize, distance: usize, name: &Token, val: Literal) -> (r:
        Result<Literal, RuntimeError>)
        requires
            ancestor_of(old(self)@, scope as int, distance as nat).is_some(),
        ensures
            r == Ok::<Literal, RuntimeError>(val),
            final(self)@ == bound(
                old(self)@,
                ancestor_of(old(self)@, scope as int, distance as nat).unwrap(),
                name.lexeme@,
                val,
            ),
            old(self).wf() ==> final(self).wf(),
    {
        let a = self.ancestor(scope, distance);
        self.define(a, name.lexeme.as_str(), val.clone());
        Ok(val)
    }

    /// Overwrites `name` in the nearest scope that binds it, from `scope`
    /// outwards, and gives `val` back; fails when no scope binds it.
    pub fn assign(&mut self, scope: usize, name: &Token, val: Literal) -> (r: Result<
        Literal,
        RuntimeError,
    >)
        ensures
            match binder(old(self)@, scope as int, name.lexeme@) {
                Some(b) => r == Ok::<Literal, RuntimeError>(val) && final(self)@ == bound(
                    old(self)@,
                    b,
                    name.lexeme@,
                    val,
                ),
                None => r == Err::<Literal, RuntimeError>(undefined(*name)) && final(self)@ == old(
                    self,
                )@,
            },
            old(self).wf() ==> final(self).wf(),
    {
        match self.find(scope, name.lexeme.as_str()) {
            Some(b) => {
                self.define(b, name.lexeme.as_str(), val.clone());
                Ok(val)
            },
            None => Err(RuntimeError::new(Fault::UndefinedVariable, name)),
        }
    }
}

} // verus!
