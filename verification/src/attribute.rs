//! Typed handle facade onto one (instance, buffer) cell of a scope.
//!
//! An [`Attribute`] pairs one instance index with one buffer's registry
//! position. It owns neither: it is a lightweight, copyable locator, and any
//! number of handles may reference the same cell. Reads and writes go
//! through the owning [`AttributeScope`](crate::scope::AttributeScope);
//! every write marks the bound buffer dirty for the next update pass.

use vstd::prelude::*;

use crate::scope::AttributeScope;
use crate::scope::ScopeView;
use crate::scope::set_transition;

verus! {

/// A view for one cell: one instance index in one buffer. Valid as long as
/// the owning scope is alive and the instance has not been disposed;
/// reading after disposal yields the buffer's default (stale data), never
/// another instance's row.
#[derive(Clone, Copy, Debug, PartialEq, Eq, Structural)]
pub struct Attribute {
    /// Instance index the handle is bound to.
    pub index: usize,
    /// Registry position of the buffer the handle is bound to.
    pub buffer: usize,
}

/// The handle points into the scope: its buffer is registered and its
/// instance index is within the scope's row count.
pub open spec fn handle_in_scope<T>(a: Attribute, s: ScopeView<T>) -> bool {
    a.buffer < s.buffer_count() && a.index < s.size
}

impl Attribute {
    /// Create a new handle as an indexed view over the buffer at the given
    /// registry position.
    pub fn new(index: usize, buffer: usize) -> (a: Self)
        ensures
            a == (Attribute { index, buffer }),
    {
        Attribute { index, buffer }
    }

    /// Get a copy of the value this handle points to. No side effect.
    pub fn get<T: Copy>(&self, scope: &AttributeScope<T>) -> (v: T)
        requires
            scope@.wf(),
            handle_in_scope(*self, scope@),
        ensures
            v == scope@.value(self.buffer as int, self.index as int),
    {
        scope.get_value(self.buffer, self.index)
    }

    /// Set the value this handle points to, marking the bound buffer dirty
    /// for the next update pass.
    pub fn set<T: Copy>(&self, scope: &mut AttributeScope<T>, v: T)
        requires
            old(scope)@.wf(),
            handle_in_scope(*self, old(scope)@),
        ensures
            final(scope)@.wf(),
            set_transition(old(scope)@, final(scope)@, self.buffer as int, self.index as int, v),
    {
        scope.set_value(self.buffer, self.index, v)
    }

    /// Modify the value this handle points to: read it, apply `f`, write
    /// the result back. Equivalent to one `get` and one `set`, so the bound
    /// buffer becomes dirty even when `f` returns its argument unchanged.
    pub fn modify<T: Copy, F: FnOnce(T) -> T>(&self, scope: &mut AttributeScope<T>, f: F)
        requires
            old(scope)@.wf(),
            handle_in_scope(*self, old(scope)@),
            call_requires(f, (old(scope)@.value(self.buffer as int, self.index as int),)),
        ensures
            final(scope)@.wf(),
            exists|w: T|
                #[trigger] call_ensures(
                    f,
                    (old(scope)@.value(self.buffer as int, self.index as int),),
                    w,
                ) && set_transition(
                    old(scope)@,
                    final(scope)@,
                    self.buffer as int,
                    self.index as int,
                    w,
                ),
    {
        let v = self.get(scope);
        let w = f(v);
        self.set(scope, w);
    }
}

/// Law (round trip): writing a value through a handle and then reading
/// through any handle bound to the same cell yields exactly the written
/// value, for every representable value.
pub proof fn lemma_set_then_get_round_trip<T>(
    pre: ScopeView<T>,
    post: ScopeView<T>,
    a: Attribute,
    v: T,
)
    requires
        pre.wf(),
        handle_in_scope(a, pre),
        set_transition(pre, post, a.buffer as int, a.index as int, v),
    ensures
        post.value(a.buffer as int, a.index as int) == v,
{
    assert(pre.rows[a.buffer as int].len() == pre.size);
}

} // verus!
