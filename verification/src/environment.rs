//! The scope chain: an arena of scopes, each with its bindings and a link to
//! the scope that encloses it.
//!
//! A scope is addressed by its handle, its position in the arena. Every
//! closure and call frame that refers to a scope holds its handle, so a write
//! through one handle is seen through all others.
//!
//! A scope that a closure has captured stays for good. Any other scope is
//! released when it is left, if it is the last of the arena: nothing can then
//! refer to it, and its handle is free for the next scope.

use crate::expr::{LiteralValue, ValueView};
use vstd::prelude::*;

verus! {

/// One name with its value.
pub struct Binding {
    name: String,
    value: LiteralValue,
}

/// A scope: its bindings, later ones hiding earlier ones of the same name,
/// and the handle of the enclosing scope. The bindings are a list that is
/// searched from its end, and not a hash map: of a hash map keyed by strings
/// the verifier knows too little to prove a lookup.
pub struct Scope {
    bindings: Vec<Binding>,
    enclosing: Option<usize>,
    captured: bool,
}

/// The mathematical model of a scope.
pub struct ScopeView {
    pub bindings: Map<Seq<char>, ValueView>,
    pub enclosing: Option<nat>,
    /// Whether a closure has captured the scope.
    pub captured: bool,
}

/// The arena of scopes.
pub struct Environment {
    scopes: Vec<Scope>,
}

/// The position of the last binding of `name`.
pub closed spec fn find(entries: Seq<Binding>, name: Seq<char>) -> Option<int>
    decreases entries.len(),
{
    if entries.len() == 0 {
        None
    } else if entries.last().name@ == name {
        Some(entries.len() - 1)
    } else {
        find(entries.drop_last(), name)
    }
}

/// The mapping that a list of bindings stands for.
pub closed spec fn bindings_of(entries: Seq<Binding>) -> Map<Seq<char>, ValueView> {
    Map::new(
        |k: Seq<char>| find(entries, k) is Some,
        |k: Seq<char>| entries[find(entries, k)->0].value@,
    )
}

impl View for Scope {
    type V = ScopeView;

    closed spec fn view(&self) -> ScopeView {
        ScopeView {
            bindings: bindings_of(self.bindings@),
            enclosing: match self.enclosing {
                Some(p) => Some(p as nat),
                None => None,
            },
            captured: self.captured,
        }
    }
}

impl View for Environment {
    type V = Seq<ScopeView>;

    closed spec fn view(&self) -> Seq<ScopeView> {
        Seq::new(self.scopes.len() as nat, |i: int| self.scopes[i]@)
    }
}

/// The scope that encloses `scope`. A link counts only if it leads to an
/// earlier scope of the arena, so the chain from any scope ends.
pub open spec fn parent(scopes: Seq<ScopeView>, scope: nat) -> Option<nat> {
    if scope < scopes.len() {
        match scopes[scope as int].enclosing {
            Some(p) => if p < scope {
                Some(p)
            } else {
                None
            },
            None => None,
        }
    } else {
        None
    }
}

/// The nearest scope, from `scope` outward, that binds `name`.
pub open spec fn resolve(scopes: Seq<ScopeView>, scope: nat, name: Seq<char>) -> Option<nat>
    decreases scope,
{
    if scope >= scopes.len() {
        None
    } else if scopes[scope as int].bindings.dom().contains(name) {
        Some(scope)
    } else {
        match parent(scopes, scope) {
            Some(p) => resolve(scopes, p, name),
            None => None,
        }
    }
}

/// The value that `name` has when read from `scope`.
pub open spec fn lookup(scopes: Seq<ScopeView>, scope: nat, name: Seq<char>) -> Option<ValueView> {
    match resolve(scopes, scope, name) {
        Some(t) => Some(scopes[t as int].bindings[name]),
        None => None,
    }
}

/// The arena after `name` is bound to `value` in `scope` itself.
pub open spec fn defined(
    scopes: Seq<ScopeView>,
    scope: nat,
    name: Seq<char>,
    value: ValueView,
) -> Seq<ScopeView> {
    if scope < scopes.len() {
        scopes.update(
            scope as int,
            ScopeView {
                bindings: scopes[scope as int].bindings.insert(name, value),
                ..scopes[scope as int]
            },
        )
    } else {
        scopes
    }
}

/// The arena after `value` is written to the nearest binding of `name`, from
/// `scope` outward. Without such a binding nothing changes.
pub open spec fn assigned(
    scopes: Seq<ScopeView>,
    scope: nat,
    name: Seq<char>,
    value: ValueView,
) -> Seq<ScopeView> {
    match resolve(scopes, scope, name) {
        Some(t) => defined(scopes, t, name, value),
        None => scopes,
    }
}

/// The arena with one more scope, empty, enclosed by `enclosing`.
pub open spec fn extended(scopes: Seq<ScopeView>, enclosing: nat) -> Seq<ScopeView> {
    scopes.push(ScopeView { bindings: Map::empty(), enclosing: Some(enclosing), captured: false })
}

/// The arena after a closure has captured `scope`.
pub open spec fn captured(scopes: Seq<ScopeView>, scope: nat) -> Seq<ScopeView> {
    if scope < scopes.len() {
        scopes.update(scope as int, ScopeView { captured: true, ..scopes[scope as int] })
    } else {
        scopes
    }
}

/// Whether `scope` can be released: it is the last scope of the arena, not
/// the root, and no closure has captured it.
pub open spec fn releasable(scopes: Seq<ScopeView>, scope: nat) -> bool {
    0 < scope && scope + 1 == scopes.len() && !scopes[scope as int].captured
}

/// The arena after `scope` is left: without it, if it can be released.
pub open spec fn released(scopes: Seq<ScopeView>, scope: nat) -> Seq<ScopeView> {
    if releasable(scopes, scope) {
        scopes.drop_last()
    } else {
        scopes
    }
}

/// The arena after every scope is left: without the scopes that follow the
/// last captured one. The root stays.
pub open spec fn trimmed(scopes: Seq<ScopeView>) -> Seq<ScopeView>
    decreases scopes.len(),
{
    if scopes.len() > 1 && !scopes.last().captured {
        trimmed(scopes.drop_last())
    } else {
        scopes
    }
}

/// The root scope of a new arena.
pub open spec fn root() -> ScopeView {
    ScopeView { bindings: Map::empty(), enclosing: None, captured: false }
}

/// Every link leads to an earlier scope: the scopes form a tree under the
/// root, without a cycle.
pub open spec fn is_tree(scopes: Seq<ScopeView>) -> bool {
    forall|i: int|
        0 <= i < scopes.len() ==> match (#[trigger] scopes[i]).enclosing {
            Some(p) => p < i,
            None => true,
        }
}

proof fn lemma_find_range(entries: Seq<Binding>, name: Seq<char>)
    ensures
        find(entries, name) matches Some(i) ==> 0 <= i < entries.len() && entries[i].name@ == name,
    decreases entries.len(),
{
    if entries.len() > 0 && entries.last().name@ != name {
        lemma_find_range(entries.drop_last(), name);
    }
}

proof fn lemma_find_names(a: Seq<Binding>, b: Seq<Binding>, name: Seq<char>)
    requires
        a.len() == b.len(),
        forall|i: int| 0 <= i < a.len() ==> a[i].name@ == b[i].name@,
    ensures
        find(a, name) == find(b, name),
    decreases a.len(),
{
    if a.len() > 0 && a.last().name@ != name {
        lemma_find_names(a.drop_last(), b.drop_last(), name);
    }
}

proof fn lemma_find_skips(entries: Seq<Binding>, name: Seq<char>, i: int)
    requires
        0 <= i <= entries.len(),
        forall|j: int| i <= j < entries.len() ==> entries[j].name@ != name,
    ensures
        find(entries, name) == find(entries.take(i), name),
    decreases entries.len() - i,
{
    if i < entries.len() {
        lemma_find_skips(entries.drop_last(), name, i);
        assert(entries.drop_last().take(i) =~= entries.take(i));
    } else {
        assert(entries.take(i) =~= entries);
    }
}

/// The position of the last binding of `name`.
fn position(entries: &Vec<Binding>, name: &String) -> (r: Option<usize>)
    ensures
        match find(entries@, name@) {
            Some(i) => r matches Some(x) && x as int == i && x < entries.len(),
            None => r is None,
        },
{
    let mut i: usize = entries.len();
    while i > 0
        invariant
            i <= entries.len(),
            forall|j: int| i <= j < entries.len() ==> entries[j].name@ != name@,
        decreases i,
    {
        i -= 1;
        if entries[i].name == *name {
            proof {
                lemma_find_skips(entries@, name@, i + 1);
                assert(entries@.take(i + 1).last() == entries@[i as int]);
            }
            return Some(i);
        }
    }
    proof {
        lemma_find_skips(entries@, name@, 0);
    }
    None
}

impl Environment {
    /// An arena that holds the root scope alone, without a binding.
    pub fn new() -> (e: Environment)
        ensures
            e@ == seq![root()],
            is_tree(e@),
    {
        let mut scopes: Vec<Scope> = Vec::new();
        let first = Scope { bindings: Vec::new(), enclosing: None, captured: false };
        proof {
            assert(first@.bindings =~= Map::empty());
        }
        scopes.push(first);
        let e = Environment { scopes };
        proof {
            assert(e@ =~= seq![root()]);
        }
        e
    }

    /// The number of scopes.
    pub fn len(&self) -> (n: usize)
        ensures
            n == self@.len(),
    {
        self.scopes.len()
    }

    /// Adds an empty scope enclosed by `enclosing` and returns its handle.
    pub fn child(&mut self, enclosing: usize) -> (scope: usize)
        ensures
            final(self)@ == extended(old(self)@, enclosing as nat),
            scope == old(self)@.len(),
            is_tree(old(self)@) && enclosing < old(self)@.len() ==> is_tree(final(self)@),
    {
        let scope = self.scopes.len();
        let fresh = Scope { bindings: Vec::new(), enclosing: Some(enclosing), captured: false };
        proof {
            assert(fresh@.bindings =~= Map::empty());
        }
        self.scopes.push(fresh);
        proof {
            assert(self@ =~= extended(old(self)@, enclosing as nat));
        }
        scope
    }

    /// Marks `scope` as captured by a closure: it is never released.
    pub fn capture(&mut self, scope: usize)
        ensures
            final(self)@ == captured(old(self)@, scope as nat),
            is_tree(old(self)@) ==> is_tree(final(self)@),
    {
        if scope < self.scopes.len() {
            self.scopes[scope].captured = true;
            proof {
                assert(self@ =~= captured(old(self)@, scope as nat));
            }
        }
    }

    /// Leaves `scope`: releases it if it is the last scope of the arena, not
    /// the root, and no closure has captured it.
    pub fn release(&mut self, scope: usize)
        ensures
            final(self)@ == released(old(self)@, scope as nat),
            is_tree(old(self)@) ==> is_tree(final(self)@),
    {
        if 0 < scope && scope < self.scopes.len() && scope + 1 == self.scopes.len()
            && !self.scopes[scope].captured {
            self.scopes.pop();
            proof {
                assert(self@ =~= old(self)@.drop_last());
            }
        }
    }

    /// Leaves every scope: releases the scopes that follow the last captured
    /// one. The root stays.
    pub fn trim(&mut self)
        ensures
            final(self)@ == trimmed(old(self)@),
            is_tree(old(self)@) ==> is_tree(final(self)@),
    {
        while self.scopes.len() > 1 && !self.scopes[self.scopes.len() - 1].captured
            invariant
                trimmed(self@) == trimmed(old(self)@),
                is_tree(old(self)@) ==> is_tree(self@),
            decreases self.scopes.len(),
        {
            let ghost before = self@;
            self.scopes.pop();
            proof {
                assert(self@ =~= before.drop_last());
            }
        }
    }

    /// Binds `name` to `value` in `scope` itself, whatever the enclosing
    /// scopes bind. Without such a scope nothing changes.
    pub fn define(&mut self, scope: usize, name: String, value: LiteralValue)
        ensures
            final(self)@ == defined(old(self)@, scope as nat, name@, value@),
            is_tree(old(self)@) ==> is_tree(final(self)@),
    {
        if scope >= self.scopes.len() {
            return ;
        }
        let ghost before = self.scopes[scope as int].bindings@;
        let ghost key = name@;
        let ghost model = value@;
        match position(&self.scopes[scope].bindings, &name) {
            Some(i) => {
                self.scopes[scope].bindings[i].value = value;
                proof {
                    let after = self.scopes[scope as int].bindings@;
                    lemma_find_range(before, key);
                    assert forall|k: Seq<char>| find(after, k) == find(before, k) by {
                        lemma_find_names(after, before, k);
                        lemma_find_range(before, k);
                    }
                    assert forall|k: Seq<char>| find(before, k) is Some implies 0 <= find(
                        before,
                        k,
                    )->0 < before.len() && before[find(before, k)->0].name@ == k by {
                        lemma_find_range(before, k);
                    }
                    assert(bindings_of(after) =~= bindings_of(before).insert(key, model));
                }
            },
            None => {
                self.scopes[scope].bindings.push(Binding { name, value });
                proof {
                    let after = self.scopes[scope as int].bindings@;
                    assert(after.drop_last() =~= before);
                    assert forall|k: Seq<char>| find(before, k) is Some implies 0 <= find(
                        before,
                        k,
                    )->0 < before.len() && before[find(before, k)->0].name@ == k by {
                        lemma_find_range(before, k);
                    }
                    assert(bindings_of(after) =~= bindings_of(before).insert(key, model));
                }
            },
        }
        proof {
            assert(self@ =~= defined(old(self)@, scope as nat, key, model));
        }
    }

    /// The nearest scope, from `scope` outward, that binds `name`, and the
    /// position of the binding in it.
    fn locate(&self, scope: usize, name: &String) -> (r: Option<(usize, usize)>)
        ensures
            match resolve(self@, scope as nat, name@) {
                Some(t) => r matches Some((s, i)) && s == t && s < self.scopes.len() && find(
                    self.scopes[s as int].bindings@,
                    name@,
                ) == Some(i as int) && i < self.scopes[s as int].bindings.len(),
                None => r is None,
            },
    {
        let mut s = scope;
        loop
            invariant
                resolve(self@, s as nat, name@) == resolve(self@, scope as nat, name@),
            decreases s,
        {
            if s >= self.scopes.len() {
                return None;
            }
            match position(&self.scopes[s].bindings, name) {
                Some(i) => {
                    proof {
                        assert(self@[s as int] == self.scopes[s as int]@);
                        assert(self@[s as int].bindings.dom().contains(name@));
                    }
                    return Some((s, i));
                },
                None => {
                    match self.scopes[s].enclosing {
                        Some(p) => {
                            if p < s {
                                s = p;
                            } else {
                                return None;
                            }
                        },
                        None => {
                            return None;
                        },
                    }
                },
            }
        }
    }

    /// The value that `name` has when read from `scope`: that of the nearest
    /// binding, from `scope` outward.
    pub fn get(&self, scope: usize, name: &String) -> (r: Option<LiteralValue>)
        ensures
            match lookup(self@, scope as nat, name@) {
                Some(v) => r matches Some(x) && x@ == v,
                None => r is None,
            },
    {
        match self.locate(scope, name) {
            Some((s, i)) => Some(self.scopes[s].bindings[i].value.copy()),
            None => None,
        }
    }

    /// Writes `value` to the nearest binding of `name`, from `scope` outward,
    /// and says whether there was one. It never adds a binding.
    pub fn assign(&mut self, scope: usize, name: &String, value: LiteralValue) -> (found: bool)
        ensures
            found == resolve(old(self)@, scope as nat, name@) is Some,
            final(self)@ == assigned(old(self)@, scope as nat, name@, value@),
            is_tree(old(self)@) ==> is_tree(final(self)@),
    {
        match self.locate(scope, name) {
            Some((s, i)) => {
                let ghost before = self.scopes[s as int].bindings@;
                let ghost key = name@;
                let ghost model = value@;
                self.scopes[s].bindings[i].value = value;
                proof {
                    let after = self.scopes[s as int].bindings@;
                    assert forall|k: Seq<char>| find(after, k) == find(before, k) by {
                        lemma_find_names(after, before, k);
                    }
                    assert forall|k: Seq<char>| find(before, k) is Some implies 0 <= find(
                        before,
                        k,
                    )->0 < before.len() && before[find(before, k)->0].name@ == k by {
                        lemma_find_range(before, k);
                    }
                    assert(bindings_of(after) =~= bindings_of(before).insert(key, model));
                    assert(self@ =~= defined(old(self)@, s as nat, key, model));
                }
                true
            },
            None => false,
        }
    }
}

/// Binding a name changes one scope's bindings and nothing else: the number
/// of scopes, every link and every other scope stay as they were.
pub proof fn lemma_defined_shape(
    scopes: Seq<ScopeView>,
    scope: nat,
    name: Seq<char>,
    value: ValueView,
)
    ensures
        defined(scopes, scope, name, value).len() == scopes.len(),
        forall|i: int|
            0 <= i < scopes.len() ==> (#[trigger] defined(scopes, scope, name, value)[i]).enclosing
                == scopes[i].enclosing && defined(scopes, scope, name, value)[i].captured
                == scopes[i].captured,
        forall|i: int|
            0 <= i < scopes.len() && i != scope ==> #[trigger] defined(
                scopes,
                scope,
                name,
                value,
            )[i] == scopes[i],
        is_tree(scopes) ==> is_tree(defined(scopes, scope, name, value)),
{
    let after = defined(scopes, scope, name, value);
    if is_tree(scopes) {
        assert forall|i: int| 0 <= i < after.len() implies match (#[trigger] after[i]).enclosing {
            Some(p) => p < i,
            None => true,
        } by {
            assert(after[i].enclosing == scopes[i].enclosing);
        }
    }
}

/// An assignment changes one scope's bindings at most and nothing else.
pub proof fn lemma_assigned_shape(
    scopes: Seq<ScopeView>,
    scope: nat,
    name: Seq<char>,
    value: ValueView,
)
    ensures
        assigned(scopes, scope, name, value).len() == scopes.len(),
        forall|i: int|
            0 <= i < scopes.len() ==> (#[trigger] assigned(scopes, scope, name, value)[i]).enclosing
                == scopes[i].enclosing && assigned(scopes, scope, name, value)[i].captured
                == scopes[i].captured,
        is_tree(scopes) ==> is_tree(assigned(scopes, scope, name, value)),
{
    match resolve(scopes, scope, name) {
        Some(t) => {
            lemma_defined_shape(scopes, t, name, value);
        },
        None => {},
    }
}

/// A new scope under an existing one keeps the scopes a tree.
pub proof fn lemma_extended_shape(scopes: Seq<ScopeView>, enclosing: nat)
    requires
        enclosing < scopes.len(),
    ensures
        is_tree(scopes) ==> is_tree(extended(scopes, enclosing)),
{
}

/// Trimming keeps the root and every captured scope, and what it keeps it
/// keeps unchanged.
pub proof fn lemma_trimmed_shape(scopes: Seq<ScopeView>)
    requires
        scopes.len() > 0,
    ensures
        0 < trimmed(scopes).len() <= scopes.len(),
        trimmed(scopes) == scopes.take(trimmed(scopes).len() as int),
        forall|i: int|
            0 <= i < scopes.len() && (#[trigger] scopes[i]).captured ==> i < trimmed(scopes).len(),
        is_tree(scopes) ==> is_tree(trimmed(scopes)),
    decreases scopes.len(),
{
    if scopes.len() > 1 && !scopes.last().captured {
        lemma_trimmed_shape(scopes.drop_last());
        let kept = trimmed(scopes).len() as int;
        assert(scopes.drop_last().take(kept) =~= scopes.take(kept));
        assert forall|i: int| 0 <= i < scopes.len() && (#[trigger] scopes[i]).captured implies i
            < kept by {
            assert(i < scopes.len() - 1);
            assert(scopes.drop_last()[i].captured);
        }
    } else {
        assert(scopes.take(scopes.len() as int) =~= scopes);
    }
}

/// A binding made in a scope is what a read from that scope finds, and a
/// read of any other name finds what it found before.
pub proof fn define_then_get(
    scopes: Seq<ScopeView>,
    scope: nat,
    name: Seq<char>,
    value: ValueView,
    other: Seq<char>,
)
    requires
        scope < scopes.len(),
        other != name,
    ensures
        lookup(defined(scopes, scope, name, value), scope, name) == Some(value),
        lookup(defined(scopes, scope, name, value), scope, other) == lookup(scopes, scope, other),
{
    lemma_define_keeps_others(scopes, scope, name, value, scope, other);
}

/// Binding `name` in one scope leaves every other name as it was, read from
/// anywhere.
proof fn lemma_define_keeps_others(
    scopes: Seq<ScopeView>,
    scope: nat,
    name: Seq<char>,
    value: ValueView,
    from: nat,
    other: Seq<char>,
)
    requires
        other != name,
    ensures
        resolve(defined(scopes, scope, name, value), from, other) == resolve(scopes, from, other),
        lookup(defined(scopes, scope, name, value), from, other) == lookup(scopes, from, other),
    decreases from,
{
    let after = defined(scopes, scope, name, value);
    if from < scopes.len() && !scopes[from as int].bindings.dom().contains(other) {
        match parent(scopes, from) {
            Some(p) => {
                lemma_define_keeps_others(scopes, scope, name, value, p, other);
            },
            None => {},
        }
    }
}

/// Shadowing is confined to the scope that shadows: a binding made in a
/// child scope changes nothing that a read from the enclosing scope finds.
pub proof fn shadowing_is_local(
    scopes: Seq<ScopeView>,
    outer: nat,
    name: Seq<char>,
    value: ValueView,
    any: Seq<char>,
)
    requires
        is_tree(scopes),
        outer < scopes.len(),
    ensures
        ({
            let inner = scopes.len();
            let after = defined(extended(scopes, outer), inner, name, value);
            &&& lookup(after, inner, name) == Some(value)
            &&& lookup(after, outer, any) == lookup(scopes, outer, any)
        }),
{
    let inner = scopes.len();
    let grown = extended(scopes, outer);
    let after = defined(grown, inner, name, value);
    lemma_reads_stay_below(scopes, after, outer, any);
}

/// A read from a scope of a tree depends on that scope and the earlier ones
/// alone.
proof fn lemma_reads_stay_below(
    before: Seq<ScopeView>,
    after: Seq<ScopeView>,
    from: nat,
    name: Seq<char>,
)
    requires
        from < before.len() <= after.len(),
        forall|i: int| 0 <= i <= from ==> before[i] == after[i],
    ensures
        resolve(after, from, name) == resolve(before, from, name),
        lookup(after, from, name) == lookup(before, from, name),
    decreases from,
{
    if !before[from as int].bindings.dom().contains(name) {
        match parent(before, from) {
            Some(p) => {
                lemma_reads_stay_below(before, after, p, name);
            },
            None => {},
        }
    }
}

/// An assignment never adds a name: what was unbound stays unbound, and the
/// assigned name, where it was bound, then reads as the new value.
pub proof fn assign_never_binds(
    scopes: Seq<ScopeView>,
    scope: nat,
    name: Seq<char>,
    value: ValueView,
)
    ensures
        resolve(assigned(scopes, scope, name, value), scope, name) == resolve(scopes, scope, name),
        resolve(scopes, scope, name) is Some ==> lookup(
            assigned(scopes, scope, name, value),
            scope,
            name,
        ) == Some(value),
        resolve(scopes, scope, name) is None ==> assigned(scopes, scope, name, value) == scopes,
{
    match resolve(scopes, scope, name) {
        Some(t) => {
            lemma_resolve_range(scopes, scope, name);
            lemma_assign_resolves(scopes, t, name, value, scope);
        },
        None => {},
    }
}

proof fn lemma_resolve_range(scopes: Seq<ScopeView>, scope: nat, name: Seq<char>)
    ensures
        resolve(scopes, scope, name) matches Some(t) ==> t <= scope && t < scopes.len()
            && scopes[t as int].bindings.dom().contains(name),
    decreases scope,
{
    if scope < scopes.len() && !scopes[scope as int].bindings.dom().contains(name) {
        match parent(scopes, scope) {
            Some(p) => {
                lemma_resolve_range(scopes, p, name);
            },
            None => {},
        }
    }
}

proof fn lemma_assign_resolves(
    scopes: Seq<ScopeView>,
    target: nat,
    name: Seq<char>,
    value: ValueView,
    from: nat,
)
    requires
        target < scopes.len(),
        scopes[target as int].bindings.dom().contains(name),
    ensures
        resolve(defined(scopes, target, name, value), from, name) == resolve(scopes, from, name),
    decreases from,
{
    if from < scopes.len() && !scopes[from as int].bindings.dom().contains(name) {
        match parent(scopes, from) {
            Some(p) => {
                lemma_assign_resolves(scopes, target, name, value, p);
            },
            None => {},
        }
    }
}

} // verus!
