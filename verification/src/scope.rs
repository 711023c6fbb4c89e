//! The attribute scope: a registry of named, uniformly sized per-instance
//! buffers, an instance allocator with smallest-first slot reuse, and a
//! dirty tracker that computes the minimal set of buffers to refresh.
//!
//! Every registered buffer keeps exactly `size` rows at all times: growing
//! happens for all buffers together when a fresh instance index is handed
//! out, and disposal only resets a row in place, never shrinks. Freed
//! indices wait in an ascending free pool and are reused smallest-first, so
//! instances allocated later always sit at higher indices than survivors
//! allocated earlier (stable draw order). The actual device upload is an
//! external concern: [`AttributeScope::update`] returns the positions of the
//! buffers that must be refreshed and clears the dirty state.

use vstd::prelude::*;

verus! {

/// Mathematical model of an [`AttributeScope`]: one entry per registered
/// buffer (name, per-row default, rows, element-write dirty bit), the global
/// shape-dirty flag, the free pool and the common row count.
pub struct ScopeView<T> {
    /// Name of each registered buffer, by registry position.
    pub names: Seq<Seq<char>>,
    /// Default element of each registered buffer.
    pub defaults: Seq<T>,
    /// Rows of each registered buffer: `rows[b][i]` is the value of
    /// buffer `b` at instance index `i`.
    pub rows: Seq<Seq<T>>,
    /// Element-write dirty bit of each registered buffer.
    pub dirty: Seq<bool>,
    /// True when the row count changed (or a buffer was registered) since
    /// the last update pass: every buffer must then be refreshed.
    pub shape_dirty: bool,
    /// Free pool: disposed instance indices, kept strictly ascending.
    pub free: Seq<usize>,
    /// Number of rows, common to every registered buffer.
    pub size: nat,
}

impl<T> ScopeView<T> {
    /// Number of registered buffers.
    pub open spec fn buffer_count(self) -> nat {
        self.names.len()
    }

    /// Every registered buffer holds exactly `size` rows.
    pub open spec fn uniform_length(self) -> bool {
        forall|b: int|
            0 <= b < self.rows.len() ==> (#[trigger] self.rows[b]).len() == self.size
    }

    /// The free pool is strictly ascending (hence duplicate-free) and every
    /// member is a valid row index.
    pub open spec fn free_pool_wf(self) -> bool {
        &&& forall|j: int, k: int|
            0 <= j < k < self.free.len() ==> self.free[j] < self.free[k]
        &&& forall|j: int|
            0 <= j < self.free.len() ==> (#[trigger] self.free[j]) < self.size
    }

    /// No two registered buffers share a name.
    pub open spec fn names_unique(self) -> bool {
        forall|b1: int, b2: int|
            0 <= b1 < b2 < self.names.len() ==> self.names[b1] != self.names[b2]
    }

    /// Well-formedness: the per-buffer sequences agree in length, all rows
    /// are uniform, the free pool is sound and names are unique.
    pub open spec fn wf(self) -> bool {
        &&& self.defaults.len() == self.names.len()
        &&& self.rows.len() == self.names.len()
        &&& self.dirty.len() == self.names.len()
        &&& self.uniform_length()
        &&& self.free_pool_wf()
        &&& self.names_unique()
    }

    /// The index sits in the free pool.
    pub open spec fn is_free(self, ix: usize) -> bool {
        self.free.contains(ix)
    }

    /// The index is live: allocated, not yet disposed.
    pub open spec fn is_live(self, ix: usize) -> bool {
        ix < self.size && !self.is_free(ix)
    }

    /// Value of buffer `b` at instance index `i`.
    pub open spec fn value(self, b: int, i: int) -> T {
        self.rows[b][i]
    }

    /// Some registered buffer carries this name.
    pub open spec fn has_buffer_named(self, name: Seq<char>) -> bool {
        exists|b: int| 0 <= b < self.names.len() && self.names[b] == name
    }
}

/// Relation between a scope's model before and after registering a buffer
/// under `name` with per-row default `default`, at registry position `ix`:
/// the new buffer comes last, already holds `size` default rows, and its
/// registration marks the shape dirty (it must be uploaded at least once).
pub open spec fn register_transition<T>(
    pre: ScopeView<T>,
    post: ScopeView<T>,
    name: Seq<char>,
    default: T,
    ix: usize,
) -> bool {
    &&& ix == pre.buffer_count()
    &&& post.names == pre.names.push(name)
    &&& post.defaults == pre.defaults.push(default)
    &&& post.rows == pre.rows.push(Seq::new(pre.size, |i: int| default))
    &&& post.dirty == pre.dirty.push(false)
    &&& post.shape_dirty == true
    &&& post.free == pre.free
    &&& post.size == pre.size
}

/// Relation between a scope's model before and after allocating one
/// instance index `ix`: when the free pool is non-empty its smallest
/// (first) member is reused and nothing else moves; otherwise the scope
/// grows by one default row in every buffer and the shape becomes dirty.
pub open spec fn alloc_transition<T>(pre: ScopeView<T>, post: ScopeView<T>, ix: usize) -> bool {
    &&& post.names == pre.names
    &&& post.defaults == pre.defaults
    &&& post.dirty == pre.dirty
    &&& if pre.free.len() > 0 {
        &&& ix == pre.free[0]
        &&& post.free == pre.free.drop_first()
        &&& post.size == pre.size
        &&& post.rows == pre.rows
        &&& post.shape_dirty == pre.shape_dirty
    } else {
        &&& ix == pre.size
        &&& post.free == pre.free
        &&& post.size == pre.size + 1
        &&& post.rows == Seq::new(pre.rows.len(), |b: int| pre.rows[b].push(pre.defaults[b]))
        &&& post.shape_dirty == true
    }
}

/// Relation between a scope's model before and after disposing instance
/// index `ix`: the row at `ix` of every buffer is reset to that buffer's
/// default (an element write, so every buffer's dirty bit is set), and `ix`
/// joins the free pool; nothing shrinks.
pub open spec fn dispose_transition<T>(pre: ScopeView<T>, post: ScopeView<T>, ix: usize) -> bool {
    &&& post.names == pre.names
    &&& post.defaults == pre.defaults
    &&& post.rows.len() == pre.rows.len()
    &&& forall|b: int|
        0 <= b < pre.rows.len() ==> post.rows[b] == pre.rows[b].update(ix as int, pre.defaults[b])
    &&& post.dirty.len() == pre.dirty.len()
    &&& forall|b: int| 0 <= b < post.dirty.len() ==> post.dirty[b] == true
    &&& post.shape_dirty == pre.shape_dirty
    &&& post.size == pre.size
    &&& forall|x: usize| post.is_free(x) <==> pre.is_free(x) || x == ix
}

/// Relation between a scope's model before and after writing `v` to buffer
/// `b` at instance index `i`: the one cell changes and the owning buffer's
/// dirty bit is set; nothing else moves.
pub open spec fn set_transition<T>(pre: ScopeView<T>, post: ScopeView<T>, b: int, i: int, v: T) -> bool {
    &&& post.names == pre.names
    &&& post.defaults == pre.defaults
    &&& post.rows == pre.rows.update(b, pre.rows[b].update(i, v))
    &&& post.dirty == pre.dirty.update(b, true)
    &&& post.shape_dirty == pre.shape_dirty
    &&& post.free == pre.free
    &&& post.size == pre.size
}

/// Errors reported at the scope's boundary.
#[derive(Clone, Copy, Debug, PartialEq, Eq, Structural)]
pub enum ScopeError {
    /// `add_buffer` was given a name that is already registered.
    DuplicateBufferName,
    /// `dispose` was given an index that is already in the free pool.
    DoubleDispose,
    /// `dispose` was given an index that was never handed out.
    DisposeOfUnallocatedIndex,
}

/// One registered buffer: a named, resizable array with one row per
/// instance index and a per-row default element.
struct BufferSlot<T> {
    name: String,
    default: T,
    data: Vec<T>,
}

/// A registry of named buffers kept in lock-step length, with an instance
/// allocator and a dirty tracker. See the module documentation.
pub struct AttributeScope<T> {
    buffers: Vec<BufferSlot<T>>,
    buffer_dirty: Vec<bool>,
    shape_dirty: bool,
    free_ids: Vec<usize>,
    size: usize,
}

impl<T> View for AttributeScope<T> {
    type V = ScopeView<T>;

    closed spec fn view(&self) -> ScopeView<T> {
        ScopeView {
            names: Seq::new(self.buffers@.len(), |b: int| self.buffers@[b].name@),
            defaults: Seq::new(self.buffers@.len(), |b: int| self.buffers@[b].default),
            rows: Seq::new(self.buffers@.len(), |b: int| self.buffers@[b].data@),
            dirty: self.buffer_dirty@,
            shape_dirty: self.shape_dirty,
            free: self.free_ids@,
            size: self.size as nat,
        }
    }
}

impl<T: Copy> AttributeScope<T> {
    /// Create an empty scope: no buffers, no instances, nothing dirty.
    pub fn new() -> (s: Self)
        ensures
            s@.wf(),
            s@.buffer_count() == 0,
            s@.size == 0,
            s@.free.len() == 0,
            !s@.shape_dirty,
    {
        AttributeScope {
            buffers: Vec::new(),
            buffer_dirty: Vec::new(),
            shape_dirty: false,
            free_ids: Vec::new(),
            size: 0,
        }
    }

    /// Current number of instance rows, common to all registered buffers.
    pub fn size(&self) -> (n: usize)
        ensures
            n == self@.size,
    {
        self.size
    }

    /// Whether anything is pending for the next update pass: the signal a
    /// surrounding frame scheduler polls to know a re-render is needed.
    /// Registration, growing allocation, disposal and every element write
    /// raise it; an update pass clears it.
    pub fn is_dirty(&self) -> (r: bool)
        ensures
            r == (self@.shape_dirty || exists|b: int|
                0 <= b < self@.dirty.len() && self@.dirty[b]),
    {
        if self.shape_dirty {
            return true;
        }
        let n = self.buffer_dirty.len();
        let mut b: usize = 0;
        while b < n
            invariant
                b <= n,
                n == self.buffer_dirty@.len(),
                !self.shape_dirty,
                forall|j: int| 0 <= j < b ==> !self.buffer_dirty@[j],
            decreases n - b,
        {
            if self.buffer_dirty[b] {
                proof {
                    assert(self@.dirty[b as int]);
                }
                return true;
            }
            b += 1;
        }
        false
    }

    /// Number of registered buffers.
    pub fn buffer_count(&self) -> (n: usize)
        ensures
            n == self@.buffer_count(),
    {
        self.buffers.len()
    }

    /// Row count of the buffer at registry position `b` (equals `size` on a
    /// well-formed scope).
    pub fn buffer_len(&self, b: usize) -> (n: usize)
        requires
            b < self@.buffer_count(),
        ensures
            n == self@.rows[b as int].len(),
    {
        self.buffers[b].data.len()
    }

    /// Look a buffer up by name; pure. Returns its stable registry
    /// position, or `None` when no buffer carries the name.
    pub fn buffer(&self, name: &str) -> (r: Option<usize>)
        ensures
            match r {
                Some(b) => b < self@.buffer_count() && self@.names[b as int] == name@,
                None => !self@.has_buffer_named(name@),
            },
    {
        let key: String = name.to_owned();
        let n = self.buffers.len();
        let mut b: usize = 0;
        while b < n
            invariant
                b <= n,
                n == self.buffers@.len(),
                key@ == name@,
                forall|j: int| 0 <= j < b ==> self.buffers@[j].name@ != name@,
            decreases n - b,
        {
            if self.buffers[b].name == key {
                return Some(b);
            }
            b += 1;
        }
        None
    }

    /// Whether a buffer with the given name was registered in this scope;
    /// pure. Absence is a normal outcome, not a fault.
    pub fn contains(&self, name: &str) -> (r: bool)
        ensures
            r == self@.has_buffer_named(name@),
    {
        let found = self.buffer(name);
        match found {
            Some(b) => {
                proof {
                    assert(0 <= b < self@.names.len() && self@.names[b as int] == name@);
                }
                true
            },
            None => false,
        }
    }

    /// Register a new named buffer with the given per-row default. Rejects
    /// a duplicate name; on success the buffer is stored at the next
    /// registry position, already holds `size` default rows, and the shape
    /// becomes dirty so the new buffer is uploaded at least once.
    pub fn add_buffer(&mut self, name: &str, default: T) -> (r: Result<usize, ScopeError>)
        requires
            old(self)@.wf(),
        ensures
            final(self)@.wf(),
            final(self)@.uniform_length(),
            match r {
                Ok(ix) => !old(self)@.has_buffer_named(name@) && register_transition(
                    old(self)@,
                    final(self)@,
                    name@,
                    default,
                    ix,
                ),
                Err(e) => e == ScopeError::DuplicateBufferName && old(self)@.has_buffer_named(
                    name@,
                ) && final(self)@ == old(self)@,
            },
    {
        if self.contains(name) {
            return Err(ScopeError::DuplicateBufferName);
        }
        let ix = self.buffers.len();
        let mut data: Vec<T> = Vec::new();
        let mut i: usize = 0;
        while i < self.size
            invariant
                i <= self.size,
                data@.len() == i,
                forall|j: int| 0 <= j < i ==> data@[j] == default,
            decreases self.size - i,
        {
            data.push(default);
            i += 1;
        }
        let slot = BufferSlot { name: name.to_owned(), default, data };
        self.buffers.push(slot);
        self.buffer_dirty.push(false);
        self.shape_dirty = true;
        proof {
            let pre = old(self)@;
            let post = self@;
            assert(post.names =~= pre.names.push(name@));
            assert(post.defaults =~= pre.defaults.push(default));
            assert(post.rows[ix as int] =~= Seq::new(pre.size, |j: int| default));
            assert(post.rows =~= pre.rows.push(Seq::new(pre.size, |j: int| default)));
            assert(post.dirty =~= pre.dirty.push(false));
            assert(post.free == pre.free && post.size == pre.size);
            assert forall|j: int, k: int| 0 <= j < k < post.free.len() implies post.free[j]
                < post.free[k] by {
                assert(pre.free[j] < pre.free[k]);
            }
            assert forall|j: int| 0 <= j < post.free.len() implies post.free[j] < post.size by {
                assert(pre.free[j] < pre.size);
            }
            assert forall|b1: int, b2: int|
                0 <= b1 < b2 < post.names.len() implies post.names[b1] != post.names[b2] by {
                if b2 == ix {
                    assert(!pre.has_buffer_named(name@));
                    assert(pre.names[b1] != name@);
                }
            }
        }
        Ok(ix)
    }

    /// Allocate one instance index, immediately valid across every
    /// registered buffer. The smallest member of the free pool is reused
    /// when one exists (its rows still hold defaults from disposal time, so
    /// no reset is needed); otherwise the scope takes `size` as the fresh
    /// index, grows every buffer by one default row and marks the shape
    /// dirty. The last `ensures` clause states growth-only-when-pool-empty:
    /// a non-empty free pool keeps `size` unchanged.
    pub fn add_instance(&mut self) -> (ix: usize)
        requires
            old(self)@.wf(),
            old(self)@.size < usize::MAX,
        ensures
            final(self)@.wf(),
            final(self)@.uniform_length(),
            alloc_transition(old(self)@, final(self)@, ix),
            !old(self)@.is_live(ix),
            final(self)@.is_live(ix),
            old(self)@.free.len() > 0 ==> final(self)@.size == old(self)@.size,
    {
        if self.free_ids.len() > 0 {
            let ix = self.free_ids.remove(0);
            proof {
                let pre = old(self)@;
                let post = self@;
                assert(post.free =~= pre.free.drop_first());
                assert(post.names =~= pre.names);
                assert(post.defaults =~= pre.defaults);
                assert(post.rows =~= pre.rows);
                assert(pre.free[0] == ix);
                assert(pre.is_free(ix));
                lemma_alloc_preserves_wf(pre, post, ix);
                assert forall|k: int| 0 <= k < post.free.len() implies post.free[k] != ix by {
                    assert(pre.free[0] < pre.free[k + 1]);
                }
                assert(!post.is_free(ix));
            }
            ix
        } else {
            let ix = self.size;
            self.size = self.size + 1;
            let n = self.buffers.len();
            let mut b: usize = 0;
            while b < n
                invariant
                    b <= n,
                    n == self.buffers@.len(),
                    self.buffers@.len() == old(self).buffers@.len(),
                    self.size == old(self).size + 1,
                    self.free_ids@ == old(self).free_ids@,
                    self.buffer_dirty@ == old(self).buffer_dirty@,
                    self.shape_dirty == old(self).shape_dirty,
                    forall|j: int|
                        0 <= j < b ==> (#[trigger] self.buffers@[j]).name@ == old(
                            self,
                        ).buffers@[j].name@ && self.buffers@[j].default == old(
                            self,
                        ).buffers@[j].default && self.buffers@[j].data@ == old(
                            self,
                        ).buffers@[j].data@.push(old(self).buffers@[j].default),
                    forall|j: int| b <= j < n ==> self.buffers@[j] == old(self).buffers@[j],
                decreases n - b,
            {
                let d = self.buffers[b].default;
                self.buffers[b].data.push(d);
                b += 1;
            }
            self.shape_dirty = true;
            proof {
                let pre = old(self)@;
                let post = self@;
                assert(post.names =~= pre.names);
                assert(post.defaults =~= pre.defaults);
                assert(post.rows =~= Seq::new(pre.rows.len(), |j: int| pre.rows[j].push(pre.defaults[j])));
                assert(alloc_transition(pre, post, ix));
                lemma_alloc_preserves_wf(pre, post, ix);
            }
            ix
        }
    }

    /// Dispose an instance index for future reuse: reset the row at `ix` in
    /// every registered buffer to that buffer's default (an element write,
    /// so every buffer's dirty bit is set) and put `ix` into the free pool.
    /// Only a live index may be disposed; disposing one twice or disposing
    /// an index that was never handed out is reported as an error and
    /// leaves the scope untouched, rather than silently corrupting the
    /// pool.
    pub fn dispose(&mut self, ix: usize) -> (r: Result<(), ScopeError>)
        requires
            old(self)@.wf(),
        ensures
            final(self)@.wf(),
            final(self)@.uniform_length(),
            r is Ok <==> old(self)@.is_live(ix),
            r is Ok ==> dispose_transition(old(self)@, final(self)@, ix),
            r is Ok ==> forall|b: int|
                0 <= b < final(self)@.buffer_count() ==> final(self)@.value(b, ix as int)
                    == final(self)@.defaults[b],
            r is Err ==> final(self)@ == old(self)@,
            r == Result::<(), ScopeError>::Err(ScopeError::DisposeOfUnallocatedIndex) <==> ix
                >= old(self)@.size,
            r == Result::<(), ScopeError>::Err(ScopeError::DoubleDispose) <==> ix
                < old(self)@.size && old(self)@.is_free(ix),
    {
        if ix >= self.size {
            return Err(ScopeError::DisposeOfUnallocatedIndex);
        }
        let m = self.free_ids.len();
        let mut p: usize = 0;
        while p < m && self.free_ids[p] < ix
            invariant
                p <= m,
                m == self.free_ids@.len(),
                forall|j: int| 0 <= j < p ==> (#[trigger] self.free_ids@[j]) < ix,
            decreases m - p,
        {
            p += 1;
        }
        if p < m && self.free_ids[p] == ix {
            proof {
                assert(old(self)@.free[p as int] == ix);
                assert(old(self)@.is_free(ix));
            }
            return Err(ScopeError::DoubleDispose);
        }
        proof {
            let pre = old(self)@;
            assert forall|k: int| 0 <= k < pre.free.len() implies pre.free[k] != ix by {
                if k >= p {
                    assert(pre.free[p as int] <= pre.free[k]);
                }
            }
            assert(!pre.is_free(ix));
        }
        let n = self.buffers.len();
        let mut b: usize = 0;
        while b < n
            invariant
                b <= n,
                n == self.buffers@.len(),
                ix < old(self).size,
                old(self)@.wf(),
                self.buffers@.len() == old(self).buffers@.len(),
                self.buffer_dirty@.len() == old(self).buffer_dirty@.len(),
                old(self).buffer_dirty@.len() == n,
                self.size == old(self).size,
                self.free_ids@ == old(self).free_ids@,
                self.shape_dirty == old(self).shape_dirty,
                forall|j: int|
                    0 <= j < b ==> (#[trigger] self.buffers@[j]).name@ == old(
                        self,
                    ).buffers@[j].name@ && self.buffers@[j].default == old(
                        self,
                    ).buffers@[j].default && self.buffers@[j].data@ == old(
                        self,
                    ).buffers@[j].data@.update(ix as int, old(self).buffers@[j].default),
                forall|j: int| b <= j < n ==> self.buffers@[j] == old(self).buffers@[j],
                forall|j: int| 0 <= j < b ==> self.buffer_dirty@[j] == true,
                forall|j: int| b <= j < n ==> self.buffer_dirty@[j] == old(self).buffer_dirty@[j],
            decreases n - b,
        {
            proof {
                assert(old(self).buffers@[b as int].data@.len() == old(self)@.rows[b as int].len());
            }
            let d = self.buffers[b].default;
            self.buffers[b].data[ix] = d;
            self.buffer_dirty[b] = true;
            b += 1;
        }
        self.free_ids.insert(p, ix);
        proof {
            let pre = old(self)@;
            let post = self@;
            assert(post.names =~= pre.names);
            assert(post.defaults =~= pre.defaults);
            assert forall|bb: int| 0 <= bb < pre.rows.len() implies post.rows[bb] == pre.rows[
                bb
            ].update(ix as int, pre.defaults[bb]) by {
                assert(post.rows[bb] =~= pre.rows[bb].update(ix as int, pre.defaults[bb]));
            }
            assert(post.free == pre.free.insert(p as int, ix));
            assert forall|x: usize| pre.is_free(x) || x == ix implies post.is_free(x) by {
                if x == ix {
                    assert(post.free[p as int] == ix);
                } else {
                    let k = choose|k: int| 0 <= k < pre.free.len() && pre.free[k] == x;
                    if k < p {
                        assert(post.free[k] == x);
                    } else {
                        assert(post.free[k + 1] == x);
                    }
                }
            }
            assert forall|x: usize| post.is_free(x) implies pre.is_free(x) || x == ix by {
                let k = choose|k: int| 0 <= k < post.free.len() && post.free[k] == x;
                if k < p {
                    assert(pre.free[k] == x);
                } else if k > p {
                    assert(pre.free[k - 1] == x);
                }
            }
            assert(dispose_transition(pre, post, ix));
            // Well-formedness: the enlarged pool is still strictly
            // ascending because everything before position `p` is below
            // `ix` and everything from `p` on is above it.
            assert forall|j: int, k: int| 0 <= j < k < post.free.len() implies post.free[j]
                < post.free[k] by {
                if j < p && k > p {
                    assert(pre.free[j] < ix);
                    assert(p < pre.free.len() ==> ix < pre.free[p as int]);
                    assert(pre.free[p as int] <= pre.free[k - 1]);
                } else if j == p && k > p {
                    assert(p < pre.free.len() ==> ix < pre.free[p as int]);
                    assert(pre.free[p as int] <= pre.free[k - 1]);
                } else if j < p && k == p {
                    assert(pre.free[j] < ix);
                }
            }
            assert forall|j: int| 0 <= j < post.free.len() implies post.free[j] < post.size by {
                if j < p {
                    assert(pre.free[j] < pre.size);
                } else if j > p {
                    assert(pre.free[j - 1] < pre.size);
                }
            }
        }
        Ok(())
    }
}

/// The registry positions `0, 1, ..., n - 1`, ascending: what an update
/// pass refreshes while the shape is dirty.
pub open spec fn all_positions(n: nat) -> Seq<usize> {
    Seq::new(n, |b: int| b as usize)
}

/// The positions whose dirty bit is set, ascending: what an update pass
/// refreshes while the shape is clean.
pub open spec fn dirty_positions(d: Seq<bool>) -> Seq<usize>
    decreases d.len(),
{
    if d.len() == 0 {
        Seq::empty()
    } else if d.last() {
        dirty_positions(d.drop_last()).push((d.len() - 1) as usize)
    } else {
        dirty_positions(d.drop_last())
    }
}

/// Law (dirty minimality, idle case): a frame with zero element writes
/// refreshes no buffer at all.
pub proof fn lemma_no_writes_no_refresh(d: Seq<bool>)
    requires
        forall|b: int| 0 <= b < d.len() ==> !d[b],
    ensures
        dirty_positions(d) == Seq::<usize>::empty(),
    decreases d.len(),
{
    if d.len() > 0 {
        lemma_no_writes_no_refresh(d.drop_last());
    }
}

/// Law (dirty minimality, single-write case): a frame whose element writes
/// touched exactly one buffer refreshes exactly that buffer.
pub proof fn lemma_single_write_single_refresh(d: Seq<bool>, b: int)
    requires
        0 <= b < d.len(),
        d[b],
        forall|j: int| 0 <= j < d.len() && j != b ==> !d[j],
    ensures
        dirty_positions(d) == seq![b as usize],
    decreases d.len(),
{
    if b == d.len() - 1 {
        lemma_no_writes_no_refresh(d.drop_last());
        assert(dirty_positions(d) =~= seq![b as usize]);
    } else {
        lemma_single_write_single_refresh(d.drop_last(), b);
    }
}

/// A model change that renames nothing, moves no free index, keeps the row
/// count and every buffer's length preserves well-formedness.
proof fn lemma_wf_carries_over<T>(pre: ScopeView<T>, post: ScopeView<T>)
    requires
        pre.wf(),
        post.names == pre.names,
        post.defaults.len() == pre.defaults.len(),
        post.dirty.len() == pre.dirty.len(),
        post.rows.len() == pre.rows.len(),
        forall|b: int|
            0 <= b < post.rows.len() ==> (#[trigger] post.rows[b]).len() == pre.rows[b].len(),
        post.size == pre.size,
        post.free == pre.free,
    ensures
        post.wf(),
{
    assert forall|j: int, k: int| 0 <= j < k < post.free.len() implies post.free[j]
        < post.free[k] by {
        assert(pre.free[j] < pre.free[k]);
    }
    assert forall|j: int| 0 <= j < post.free.len() implies post.free[j] < post.size by {
        assert(pre.free[j] < pre.size);
    }
    assert forall|b: int| 0 <= b < post.rows.len() implies (#[trigger] post.rows[b]).len()
        == post.size by {
        assert(pre.rows[b].len() == pre.size);
    }
}

impl<T: Copy> AttributeScope<T> {
    /// Read the value of the buffer at registry position `b` at instance
    /// index `i`; pure. A disposed index reads back as the buffer's default
    /// until it is reused (stale data, never another instance's row).
    pub fn get_value(&self, b: usize, i: usize) -> (v: T)
        requires
            self@.wf(),
            b < self@.buffer_count(),
            i < self@.size,
        ensures
            v == self@.value(b as int, i as int),
    {
        proof {
            assert(self@.rows[b as int].len() == self@.size);
        }
        self.buffers[b].data[i]
    }

    /// Write `v` to the buffer at registry position `b` at instance index
    /// `i`, and mark that buffer dirty for the next update pass.
    pub fn set_value(&mut self, b: usize, i: usize, v: T)
        requires
            old(self)@.wf(),
            b < old(self)@.buffer_count(),
            i < old(self)@.size,
        ensures
            final(self)@.wf(),
            set_transition(old(self)@, final(self)@, b as int, i as int, v),
    {
        proof {
            assert(old(self)@.rows[b as int].len() == old(self)@.size);
        }
        self.buffers[b].data[i] = v;
        self.buffer_dirty[b] = true;
        proof {
            let pre = old(self)@;
            let post = self@;
            assert(post.names =~= pre.names);
            assert(post.defaults =~= pre.defaults);
            assert(post.rows =~= pre.rows.update(b as int, pre.rows[b as int].update(i as int, v)));
            assert(post.dirty =~= pre.dirty.update(b as int, true));
            assert forall|bb: int| 0 <= bb < post.rows.len() implies (#[trigger] post.rows[
                bb
            ]).len() == pre.rows[bb].len() by {}
            lemma_wf_carries_over(pre, post);
        }
    }

    /// The dirty reconciliation pass, run once per frame: report which
    /// buffers must be pushed to the device and clear all dirty state. A
    /// dirty shape invalidates every buffer, so all positions are reported;
    /// otherwise exactly the buffers with element writes are. The scope's
    /// data itself does not change.
    pub fn update(&mut self) -> (refreshed: Vec<usize>)
        requires
            old(self)@.wf(),
        ensures
            final(self)@.wf(),
            refreshed@ == if old(self)@.shape_dirty {
                all_positions(old(self)@.buffer_count())
            } else {
                dirty_positions(old(self)@.dirty)
            },
            final(self)@.names == old(self)@.names,
            final(self)@.defaults == old(self)@.defaults,
            final(self)@.rows == old(self)@.rows,
            final(self)@.free == old(self)@.free,
            final(self)@.size == old(self)@.size,
            !final(self)@.shape_dirty,
            final(self)@.dirty.len() == old(self)@.dirty.len(),
            forall|b: int| 0 <= b < final(self)@.dirty.len() ==> !final(self)@.dirty[b],
    {
        let n = self.buffers.len();
        let mut refreshed: Vec<usize> = Vec::new();
        if self.shape_dirty {
            let mut b: usize = 0;
            while b < n
                invariant
                    b <= n,
                    refreshed@ =~= all_positions(b as nat),
                decreases n - b,
            {
                refreshed.push(b);
                proof {
                    assert(refreshed@ =~= all_positions(b as nat + 1));
                }
                b += 1;
            }
        } else {
            let mut b: usize = 0;
            while b < n
                invariant
                    b <= n,
                    n == self.buffer_dirty@.len(),
                    self == old(self),
                    refreshed@ == dirty_positions(self.buffer_dirty@.take(b as int)),
                decreases n - b,
            {
                proof {
                    let d = self.buffer_dirty@;
                    assert(d.take(b as int + 1).drop_last() =~= d.take(b as int));
                    assert(d.take(b as int + 1).last() == d[b as int]);
                }
                if self.buffer_dirty[b] {
                    refreshed.push(b);
                }
                b += 1;
            }
            proof {
                assert(self.buffer_dirty@.take(n as int) =~= self.buffer_dirty@);
            }
        }
        self.shape_dirty = false;
        let mut b: usize = 0;
        while b < n
            invariant
                b <= n,
                n == self.buffer_dirty@.len(),
                self.buffers@ == old(self).buffers@,
                self.free_ids@ == old(self).free_ids@,
                self.size == old(self).size,
                !self.shape_dirty,
                forall|j: int| 0 <= j < b ==> !self.buffer_dirty@[j],
            decreases n - b,
        {
            self.buffer_dirty[b] = false;
            b += 1;
        }
        proof {
            let pre = old(self)@;
            let post = self@;
            assert(post.names =~= pre.names);
            assert(post.defaults =~= pre.defaults);
            assert(post.rows =~= pre.rows);
            assert(pre.buffer_count() == n as nat) by {
                assert(pre.dirty.len() == pre.names.len());
            }
            lemma_wf_carries_over(pre, post);
        }
        refreshed
    }
}

/// Law: allocating preserves well-formedness of the scope's model.
pub proof fn lemma_alloc_preserves_wf<T>(pre: ScopeView<T>, post: ScopeView<T>, ix: usize)
    requires
        pre.wf(),
        alloc_transition(pre, post, ix),
    ensures
        post.wf(),
{
    if pre.free.len() > 0 {
        assert forall|j: int, k: int| 0 <= j < k < post.free.len() implies post.free[j]
            < post.free[k] by {
            assert(pre.free[j + 1] < pre.free[k + 1]);
        }
        assert forall|j: int| 0 <= j < post.free.len() implies post.free[j] < post.size by {
            assert(pre.free[j + 1] < pre.size);
        }
    } else {
        assert forall|b: int| 0 <= b < post.rows.len() implies (#[trigger] post.rows[b]).len()
            == post.size by {
            assert(pre.rows[b].len() == pre.size);
        }
        assert forall|j: int| 0 <= j < post.free.len() implies post.free[j] < post.size by {
            assert(pre.free[j] < pre.size);
        }
    }
}

/// Law (index uniqueness, one step): an allocation returns an index that
/// was not live before the call and is live after it, and it changes no
/// other index's liveness — so a freshly allocated index can never collide
/// with one already held.
pub proof fn lemma_allocate_fresh<T>(pre: ScopeView<T>, post: ScopeView<T>, ix: usize)
    requires
        pre.wf(),
        alloc_transition(pre, post, ix),
    ensures
        !pre.is_live(ix),
        post.is_live(ix),
        forall|j: usize| j != ix ==> (post.is_live(j) <==> pre.is_live(j)),
{
    if pre.free.len() > 0 {
        assert(pre.free[0] == ix);
        assert(pre.is_free(ix));
        assert forall|k: int| 0 <= k < post.free.len() implies post.free[k] != ix by {
            assert(pre.free[0] < pre.free[k + 1]);
        }
        assert(pre.free[0] < pre.size);
        assert forall|j: usize| j != ix implies (post.is_live(j) <==> pre.is_live(j)) by {
            if pre.free.contains(j) {
                let k = choose|k: int| 0 <= k < pre.free.len() && pre.free[k] == j;
                assert(k != 0);
                assert(post.free[k - 1] == j);
            }
            if post.free.contains(j) {
                let k = choose|k: int| 0 <= k < post.free.len() && post.free[k] == j;
                assert(pre.free[k + 1] == j);
            }
        }
    } else {
        assert forall|j: usize| j != ix implies (post.is_live(j) <==> pre.is_live(j)) by {
            assert(post.free == pre.free);
        }
    }
}

/// Law (dirty minimality, growth case): an allocation that grows the scope
/// leaves the shape dirty, so the next update pass refreshes every
/// registered buffer, whatever the per-buffer dirty bits say.
pub proof fn lemma_growth_refreshes_all<T>(pre: ScopeView<T>, post: ScopeView<T>, ix: usize)
    requires
        pre.free.len() == 0,
        alloc_transition(pre, post, ix),
    ensures
        post.shape_dirty,
        post.size == pre.size + 1,
{
}

/// Law (smallest-first reuse): when the free pool is non-empty, allocation
/// returns its minimum — the allocated index is free beforehand and no
/// other free index is smaller, whatever order disposals happened in.
pub proof fn lemma_smallest_first<T>(pre: ScopeView<T>, post: ScopeView<T>, ix: usize)
    requires
        pre.wf(),
        pre.free.len() > 0,
        alloc_transition(pre, post, ix),
    ensures
        pre.is_free(ix),
        forall|j: usize| pre.is_free(j) ==> ix <= j,
{
    assert(pre.free.contains(pre.free[0]));
    assert forall|j: usize| pre.is_free(j) implies ix <= j by {
        let k = choose|k: int| 0 <= k < pre.free.len() && pre.free[k] == j;
        if k > 0 {
            assert(pre.free[0] < pre.free[k]);
        }
    }
}

/// Law (index uniqueness, dispose step): disposing a live index frees
/// exactly that index: it stops being live, and no other index's liveness
/// changes — so the free pool and the live set stay disjoint.
pub proof fn lemma_dispose_liveness<T>(pre: ScopeView<T>, post: ScopeView<T>, ix: usize)
    requires
        pre.wf(),
        pre.is_live(ix),
        dispose_transition(pre, post, ix),
    ensures
        !post.is_live(ix),
        forall|j: usize| j != ix ==> (post.is_live(j) <==> pre.is_live(j)),
{
}

/// Law (index uniqueness and ascending reuse): two consecutive allocations
/// return distinct indices, both live afterwards, and the second index is
/// strictly the larger — allocation order matches index order, whatever the
/// free pool held.
pub proof fn lemma_allocations_ascend<T>(
    s0: ScopeView<T>,
    s1: ScopeView<T>,
    i1: usize,
    s2: ScopeView<T>,
    i2: usize,
)
    requires
        s0.wf(),
        alloc_transition(s0, s1, i1),
        alloc_transition(s1, s2, i2),
    ensures
        i1 < i2,
        s2.is_live(i1),
        s2.is_live(i2),
{
    lemma_alloc_preserves_wf(s0, s1, i1);
    lemma_allocate_fresh(s0, s1, i1);
    lemma_allocate_fresh(s1, s2, i2);
    if s0.free.len() > 0 {
        assert(i1 == s0.free[0]);
        if s1.free.len() > 0 {
            assert(s1.free[0] == s0.free[1]);
            assert(s0.free[0] < s0.free[1]);
        } else {
            assert(s0.free[0] < s0.size);
        }
    }
}

} // verus!
