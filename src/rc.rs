use vstd::prelude::*;

use crate::cell::Cell;

verus! {

/// The blocks of an arena, by slot: the value and the number of handles.
pub type Blocks<T> = Map<int, (T, nat)>;

/// The blocks after one more handle to `slot` is made.
pub open spec fn after_clone<T>(m: Blocks<T>, slot: int) -> Blocks<T> {
    m.insert(slot, (m[slot].0, m[slot].1 + 1))
}

/// The blocks after one handle to `slot` is released: the block goes away
/// with its last handle.
pub open spec fn after_release<T>(m: Blocks<T>, slot: int) -> Blocks<T> {
    if m[slot].1 == 1 {
        m.remove(slot)
    } else {
        m.insert(slot, (m[slot].0, (m[slot].1 - 1) as nat))
    }
}

/// One live block: a value and the number of handles that share it.
struct RcBlock<T> {
    value: T,
    refcount: Cell<usize>,
}

/// The heap that reference-counted blocks live in. A block is created with
/// one handle, gains one with each clone, loses one with each release, and
/// is freed exactly when its last handle is released.
///
/// Handles are released by `Rc::release`, never on drop: a handle dropped
/// without release keeps its block alive as long as the arena. Dropping the
/// arena drops every block still in it.
pub struct RcArena<T> {
    blocks: Vec<Option<RcBlock<T>>>,
}

/// A handle to one block of an `RcArena`.
///
/// A handle is given up with `Rc::release`; dropping it instead leaves the
/// block's count as it was, so the block stays alive for good. A handle
/// records only its slot, not its arena.
pub struct Rc {
    slot: usize,
}

impl Rc {
    /// The slot of the block this handle refers to.
    pub closed spec fn slot(&self) -> int {
        self.slot as int
    }
}

impl<T> View for RcArena<T> {
    type V = Blocks<T>;

    closed spec fn view(&self) -> Blocks<T> {
        Map::new(
            |i: int| 0 <= i < self.blocks@.len() && self.blocks@[i] is Some,
            |i: int|
                (
                    self.blocks@[i]->Some_0.value,
                    self.blocks@[i]->Some_0.refcount@ as nat,
                ),
        )
    }
}

impl<T> RcArena<T> {
    /// Every live block has at least one handle.
    pub open spec fn wf(&self) -> bool {
        forall|i: int| #[trigger] self@.contains_key(i) ==> self@[i].1 >= 1
    }

    /// An arena with no block in it.
    pub fn new() -> (a: Self)
        ensures
            a.wf(),
            a@ == Blocks::<T>::empty(),
    {
        let a = RcArena { blocks: Vec::new() };
        assert(a@ =~= Blocks::<T>::empty());
        a
    }

    /// Reads the value of the block that `rc` refers to.
    pub fn get(&self, rc: &Rc) -> (r: &T)
        requires
            self@.contains_key(rc.slot()),
        ensures
            *r == self@[rc.slot()].0,
    {
        &self.blocks[rc.slot].as_ref().unwrap().value
    }

    /// Mutable access to the value of the block that `rc` refers to; the
    /// number of handles is left as it is.
    pub fn get_mut(&mut self, rc: &Rc) -> (r: &mut T)
        requires
            old(self)@.contains_key(rc.slot()),
        ensures
            *r == old(self)@[rc.slot()].0,
            final(self)@ == old(self)@.insert(rc.slot(), (*final(r), old(self)@[rc.slot()].1)),
    {
        let b = self.blocks[rc.slot].as_mut().unwrap();
        &mut b.value
    }
}

impl Rc {
    /// Allocates a block holding `v`, with one handle: the one returned.
    pub fn new<T>(arena: &mut RcArena<T>, v: T) -> (r: Rc)
        requires
            old(arena).wf(),
        ensures
            final(arena).wf(),
            !old(arena)@.contains_key(r.slot()),
            final(arena)@ == old(arena)@.insert(r.slot(), (v, 1nat)),
    {
        let slot = arena.blocks.len();
        arena.blocks.push(Some(RcBlock { value: v, refcount: Cell::new(1) }));
        let r = Rc { slot };
        assert(final(arena)@ =~= old(arena)@.insert(r.slot(), (v, 1nat)));
        r
    }

    /// Makes one more handle to the same block.
    pub fn clone<T>(&self, arena: &mut RcArena<T>) -> (r: Rc)
        requires
            old(arena).wf(),
            old(arena)@.contains_key(self.slot()),
            old(arena)@[self.slot()].1 < usize::MAX,
        ensures
            final(arena).wf(),
            r.slot() == self.slot(),
            final(arena)@ == after_clone(old(arena)@, self.slot()),
    {
        let b = arena.blocks[self.slot].as_mut().unwrap();
        let c = b.refcount.get();
        b.refcount.set(c + 1);
        let r = Rc { slot: self.slot };
        assert(final(arena)@ =~= after_clone(old(arena)@, self.slot()));
        r
    }

    /// Gives this handle up. The last handle of a block frees it and hands
    /// its value back; any other only lowers the count.
    pub fn release<T>(self, arena: &mut RcArena<T>) -> (r: Option<T>)
        requires
            old(arena).wf(),
            old(arena)@.contains_key(self.slot()),
        ensures
            final(arena).wf(),
            final(arena)@ == after_release(old(arena)@, self.slot()),
            r == if old(arena)@[self.slot()].1 == 1 {
                Some(old(arena)@[self.slot()].0)
            } else {
                None::<T>
            },
    {
        let c = arena.blocks[self.slot].as_ref().unwrap().refcount.get();
        if c == 1 {
            let b = arena.blocks[self.slot].take().unwrap();
            assert(final(arena)@ =~= after_release(old(arena)@, self.slot()));
            Some(b.value)
        } else {
            let b = arena.blocks[self.slot].as_mut().unwrap();
            b.refcount.set(c - 1);
            assert(final(arena)@ =~= after_release(old(arena)@, self.slot()));
            None
        }
    }
}

/// The blocks after a run of operations on handles of `slot`, in order:
/// `true` makes a clone, `false` releases a handle.
pub open spec fn after_ops<T>(m: Blocks<T>, slot: int, ops: Seq<bool>) -> Blocks<T>
    decreases ops.len(),
{
    if ops.len() == 0 {
        m
    } else {
        let prev = after_ops(m, slot, ops.drop_last());
        if ops.last() {
            after_clone(prev, slot)
        } else {
            after_release(prev, slot)
        }
    }
}

/// The number of handles after a run of operations, starting from `n`.
pub open spec fn handles_after(n: int, ops: Seq<bool>) -> int
    decreases ops.len(),
{
    if ops.len() == 0 {
        n
    } else if ops.last() {
        handles_after(n, ops.drop_last()) + 1
    } else {
        handles_after(n, ops.drop_last()) - 1
    }
}

/// Making a clone and releasing one of the handles leaves the block as it
/// was, value and count alike, so the value stays reachable.
pub proof fn lemma_clone_then_release<T>(m: Blocks<T>, slot: int)
    requires
        m.contains_key(slot),
        m[slot].1 >= 1,
    ensures
        after_release(after_clone(m, slot), slot) == m,
        after_release(after_clone(m, slot), slot).contains_key(slot),
{
    assert(after_release(after_clone(m, slot), slot) =~= m);
}

/// Releasing the handles of a block one by one frees it exactly once: every
/// release but the last leaves it live, and the last one removes it.
pub proof fn lemma_release_all_frees_once<T>(m: Blocks<T>, slot: int, k: nat)
    requires
        m.contains_key(slot),
        1 <= k <= m[slot].1,
    ensures
        k < m[slot].1 ==> after_ops(m, slot, Seq::new(k, |i: int| false)).contains_key(slot)
            && after_ops(m, slot, Seq::new(k, |i: int| false))[slot] == (
            m[slot].0,
            (m[slot].1 - k) as nat,
        ),
        k == m[slot].1 ==> after_ops(m, slot, Seq::new(k, |i: int| false)) == m.remove(slot),
{
    let ops = Seq::new(k, |i: int| false);
    let n = m[slot].1 as int;
    assert forall|j: int| 0 <= j < ops.len() implies handles_after(n, #[trigger] ops.take(j)) >= 1 by {
        assert(ops.take(j) =~= Seq::new(j as nat, |i: int| false));
        lemma_all_releases(j as nat);
        lemma_handles_shift(n, ops.take(j));
    }
    lemma_ops_track_handles(m, slot, ops);
    lemma_all_releases(k);
    lemma_handles_shift(n, ops);
    lemma_ops_keep_others(m, slot, ops);
    if k == m[slot].1 {
        assert(after_ops(m, slot, ops) =~= m.remove(slot));
    }
}

proof fn lemma_all_releases(k: nat)
    ensures
        handles_after(0, Seq::new(k, |i: int| false)) == -(k as int),
    decreases k,
{
    if k > 0 {
        let ops = Seq::new(k, |i: int| false);
        assert(ops.drop_last() =~= Seq::new((k - 1) as nat, |i: int| false));
        lemma_all_releases((k - 1) as nat);
    }
}

proof fn lemma_handles_shift(n: int, ops: Seq<bool>)
    ensures
        handles_after(n, ops) == n + handles_after(0, ops),
    decreases ops.len(),
{
    if ops.len() > 0 {
        lemma_handles_shift(n, ops.drop_last());
    }
}

proof fn lemma_ops_keep_others<T>(m: Blocks<T>, slot: int, ops: Seq<bool>)
    ensures
        forall|j: int| j != slot ==> (#[trigger] after_ops(m, slot, ops).contains_key(j) <==> m.contains_key(j)),
        forall|j: int| j != slot && m.contains_key(j) ==> #[trigger] after_ops(m, slot, ops)[j] == m[j],
    decreases ops.len(),
{
    if ops.len() > 0 {
        let prev = after_ops(m, slot, ops.drop_last());
        lemma_ops_keep_others(m, slot, ops.drop_last());
        assert forall|j: int| j != slot implies (#[trigger] after_ops(m, slot, ops).contains_key(j)
            <==> m.contains_key(j)) && (m.contains_key(j) ==> after_ops(m, slot, ops)[j] == m[j]) by {
            assert(prev.contains_key(j) <==> m.contains_key(j));
        }
    }
}

/// Over any run of clones and releases on handles of a block, each made
/// through a handle that is still held, the block stays live exactly as long
/// as at least one handle remains, and its count is the number of handles.
pub proof fn lemma_ops_track_handles<T>(m: Blocks<T>, slot: int, ops: Seq<bool>)
    requires
        m.contains_key(slot),
        m[slot].1 >= 1,
        forall|j: int| 0 <= j < ops.len() ==> handles_after(m[slot].1 as int, #[trigger] ops.take(j)) >= 1,
    ensures
        after_ops(m, slot, ops).contains_key(slot) <==> handles_after(m[slot].1 as int, ops) >= 1,
        handles_after(m[slot].1 as int, ops) >= 0,
        handles_after(m[slot].1 as int, ops) >= 1 ==> after_ops(m, slot, ops)[slot] == (
            m[slot].0,
            handles_after(m[slot].1 as int, ops) as nat,
        ),
    decreases ops.len(),
{
    let n = m[slot].1 as int;
    if ops.len() > 0 {
        let prefix = ops.drop_last();
        assert forall|j: int| 0 <= j < prefix.len() implies handles_after(n, #[trigger] prefix.take(j)) >= 1 by {
            assert(prefix.take(j) =~= ops.take(j));
        }
        lemma_ops_track_handles(m, slot, prefix);
        assert(ops.take(prefix.len() as int) =~= prefix);
    }
}

} // verus!
