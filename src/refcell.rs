use vstd::prelude::*;

use crate::cell::Cell;

verus! {

/// The borrow state of a `RefCell`: no guards, `n` shared guards, or one
/// exclusive guard.
#[derive(Clone, Copy, PartialEq, Eq, Structural)]
pub enum RefState {
    Unshared,
    Shared(usize),
    Exclusive,
}

/// A state is well formed when a shared state counts at least one guard.
pub open spec fn valid_state(s: RefState) -> bool {
    match s {
        RefState::Shared(n) => n >= 1,
        _ => true,
    }
}

/// The state after a granted shared borrow, or `None` where it is refused.
pub open spec fn after_borrow(s: RefState) -> Option<RefState> {
    match s {
        RefState::Unshared => Some(RefState::Shared(1)),
        RefState::Shared(n) => Some(RefState::Shared((n + 1) as usize)),
        RefState::Exclusive => None,
    }
}

/// The state after a granted exclusive borrow, or `None` where it is refused.
pub open spec fn after_borrow_mut(s: RefState) -> Option<RefState> {
    match s {
        RefState::Unshared => Some(RefState::Exclusive),
        _ => None,
    }
}

/// The state after one shared guard is released.
pub open spec fn after_release_shared(s: RefState) -> RefState {
    match s {
        RefState::Shared(n) => if n == 1 {
            RefState::Unshared
        } else {
            RefState::Shared((n - 1) as usize)
        },
        _ => s,
    }
}

/// The state after `k` shared borrows, all of them granted.
pub open spec fn borrowed_times(s: RefState, k: nat) -> RefState
    decreases k,
{
    if k == 0 {
        s
    } else {
        match after_borrow(borrowed_times(s, (k - 1) as nat)) {
            Some(t) => t,
            None => borrowed_times(s, (k - 1) as nat),
        }
    }
}

/// The state after `k` shared guards are released.
pub open spec fn released_times(s: RefState, k: nat) -> RefState
    decreases k,
{
    if k == 0 {
        s
    } else {
        after_release_shared(released_times(s, (k - 1) as nat))
    }
}

/// A shared guard from `RefCell::borrow`; `RefCell::release` takes it back.
///
/// A guard records no cell of its own: the cell's borrow state, not the
/// guard, decides what may be done, and that state counts guards handed
/// out by whichever cell. A guard is not given back when dropped: one that is
/// dropped without being released leaves its cell borrowed for good.
pub struct Ref {
    granted: (),
}

/// The exclusive guard from `RefCell::borrow_mut`; `RefCell::release_mut`
/// takes it back.
///
/// A guard records no cell of its own: the cell's borrow state, not the
/// guard, decides what may be done, and that state counts guards handed
/// out by whichever cell. A guard is not given back when dropped: one that is
/// dropped without being released leaves its cell borrowed for good.
pub struct RefMut {
    granted: (),
}

/// A value together with a borrow-state machine that hands out either many
/// shared guards or one exclusive guard, and refuses whatever would break
/// that rule.
pub struct RefCell<T> {
    value: T,
    state: Cell<RefState>,
}

impl<T> RefCell<T> {
    /// The protected value.
    pub closed spec fn value(&self) -> T {
        self.value
    }

    /// The current borrow state.
    pub closed spec fn state(&self) -> RefState {
        self.state@
    }

    pub open spec fn wf(&self) -> bool {
        valid_state(self.state())
    }

    /// Creates a cell holding `value`, with no guard out.
    pub fn new(value: T) -> (c: Self)
        ensures
            c.wf(),
            c.value() == value,
            c.state() == RefState::Unshared,
    {
        RefCell { value, state: Cell::new(RefState::Unshared) }
    }

    /// Hands out a shared guard unless an exclusive guard is out.
    pub fn borrow(&mut self) -> (r: Option<Ref>)
        requires
            old(self).wf(),
            old(self).state() != RefState::Shared(usize::MAX),
        ensures
            final(self).wf(),
            final(self).value() == old(self).value(),
            match after_borrow(old(self).state()) {
                Some(s) => r is Some && final(self).state() == s,
                None => r is None && final(self).state() == old(self).state(),
            },
    {
        match self.state.get() {
            RefState::Unshared => {
                self.state.set(RefState::Shared(1));
                Some(Ref { granted: () })
            },
            RefState::Shared(x) => {
                self.state.set(RefState::Shared(x + 1));
                Some(Ref { granted: () })
            },
            RefState::Exclusive => None,
        }
    }

    /// Hands out the exclusive guard only when no guard of either kind is out.
    pub fn borrow_mut(&mut self) -> (r: Option<RefMut>)
        requires
            old(self).wf(),
        ensures
            final(self).wf(),
            final(self).value() == old(self).value(),
            match after_borrow_mut(old(self).state()) {
                Some(s) => r is Some && final(self).state() == s,
                None => r is None && final(self).state() == old(self).state(),
            },
    {
        if self.state.get() == RefState::Unshared {
            self.state.set(RefState::Exclusive);
            Some(RefMut { granted: () })
        } else {
            None
        }
    }

    /// Reads the value through a shared guard. The guard is not checked to
    /// come from this cell; the `requires` on the state is what is asked.
    pub fn get(&self, guard: &Ref) -> (r: &T)
        requires
            self.state() is Shared,
        ensures
            *r == self.value(),
    {
        &self.value
    }

    /// Reads the value through the exclusive guard.
    pub fn get_excl(&self, guard: &RefMut) -> (r: &T)
        requires
            self.state() is Exclusive,
        ensures
            *r == self.value(),
    {
        &self.value
    }

    /// Mutable access to the value through the exclusive guard.
    pub fn get_mut(&mut self, guard: &RefMut) -> (r: &mut T)
        requires
            old(self).state() is Exclusive,
        ensures
            *r == old(self).value(),
            final(self).value() == *final(r),
            final(self).state() == old(self).state(),
    {
        &mut self.value
    }

    /// Gives a shared guard back: one shared guard fewer, and no shared
    /// guard at all once the last one is returned. The guard is not checked
    /// to come from this cell; it must be released here, and only once, for
    /// the state to keep counting this cell's guards. Nothing releases a
    /// guard on drop, so every exit path has to call this.
    pub fn release(&mut self, guard: Ref)
        requires
            old(self).wf(),
            old(self).state() is Shared,
        ensures
            final(self).wf(),
            final(self).value() == old(self).value(),
            final(self).state() == after_release_shared(old(self).state()),
    {
        match self.state.get() {
            RefState::Shared(x) => {
                if x == 1 {
                    self.state.set(RefState::Unshared);
                } else {
                    self.state.set(RefState::Shared(x - 1));
                }
            },
            _ => {},
        }
    }

    /// Gives the exclusive guard back. Nothing releases it on drop, so every
    /// exit path has to call this.
    pub fn release_mut(&mut self, guard: RefMut)
        requires
            old(self).state() is Exclusive,
        ensures
            final(self).wf(),
            final(self).value() == old(self).value(),
            final(self).state() == RefState::Unshared,
    {
        self.state.set(RefState::Unshared);
    }
}

/// Two shared borrows in a row are both granted while no exclusive guard
/// is out.
pub proof fn lemma_shared_borrows_coexist(s: RefState)
    requires
        valid_state(s),
        !(s is Exclusive),
        s is Shared ==> s->Shared_0 < usize::MAX - 1,
    ensures
        after_borrow(s) is Some,
        after_borrow(after_borrow(s)->Some_0) is Some,
        valid_state(after_borrow(after_borrow(s)->Some_0)->Some_0),
{
}

/// A shared borrow is refused while the exclusive guard is out, and an
/// exclusive borrow is refused while any shared guard is out.
pub proof fn lemma_exclusive_excludes(s: RefState)
    requires
        valid_state(s),
    ensures
        s is Exclusive ==> after_borrow(s) is None,
        s is Shared ==> after_borrow_mut(s) is None,
        after_borrow_mut(s) is Some <==> s == RefState::Unshared,
        after_borrow(s) is Some ==> after_borrow_mut(after_borrow(s)->Some_0) is None,
        after_borrow_mut(s) is Some ==> after_borrow(after_borrow_mut(s)->Some_0) is None,
{
}

/// After `k` shared borrows from a cell with no guard out, releasing the `k`
/// guards brings the state back to `Unshared`, where a borrow of either kind
/// is granted again.
pub proof fn lemma_release_all(k: nat)
    requires
        1 <= k < usize::MAX,
    ensures
        borrowed_times(RefState::Unshared, k) == RefState::Shared(k as usize),
        released_times(RefState::Shared(k as usize), k) == RefState::Unshared,
        after_borrow_mut(released_times(borrowed_times(RefState::Unshared, k), k)) == Some(
            RefState::Exclusive,
        ),
        after_borrow(RefState::Unshared) is Some,
        after_borrow_mut(RefState::Unshared) is Some,
{
    lemma_borrowed_times(k);
    lemma_released_times(k as usize, k);
}

proof fn lemma_borrowed_times(k: nat)
    requires
        k < usize::MAX,
    ensures
        k >= 1 ==> borrowed_times(RefState::Unshared, k) == RefState::Shared(k as usize),
    decreases k,
{
    assert(borrowed_times(RefState::Unshared, 0) == RefState::Unshared);
    if k > 1 {
        lemma_borrowed_times((k - 1) as nat);
    }
}

proof fn lemma_released_times(n: usize, k: nat)
    requires
        1 <= k <= n,
    ensures
        k < n ==> released_times(RefState::Shared(n), k) == RefState::Shared((n - k) as usize),
        k == n ==> released_times(RefState::Shared(n), k) == RefState::Unshared,
    decreases k,
{
    assert(released_times(RefState::Shared(n), 0) == RefState::Shared(n));
    if k > 1 {
        lemma_released_times(n, (k - 1) as nat);
    }
}

} // verus!
