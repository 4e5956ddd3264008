use vstd::prelude::*;
use vstd::rwlock::{RwLock, RwLockPredicate};

verus! {

/// The lock invariant of a `Mutex`: every value may be stored.
pub struct AnyValue {}

impl<T> RwLockPredicate<T> for AnyValue {
    open spec fn inv(self, v: T) -> bool {
        true
    }
}

/// A mutual-exclusion wrapper that threads may share.
///
/// The protected value lives in vstd's verified lock, which busy-waits on an
/// atomic flag: a thread spins on a compare-and-swap of the flag from
/// unlocked to locked, holds the value alone for one critical section, and
/// then stores the flag back to unlocked. There is no timeout, no back-off
/// and no fairness; taking the lock again from inside a critical section
/// spins forever.
///
/// The lock invariant `P`, chosen at construction, holds of every value the
/// mutex ever stores; `AnyValue` admits every value.
pub struct Mutex<T, P: RwLockPredicate<T>> {
    v: RwLock<T, P>,
}

impl<T, P: RwLockPredicate<T>> Mutex<T, P> {
    /// The invariant that every stored value satisfies.
    pub closed spec fn pred(&self) -> P {
        self.v.pred()
    }

    /// Creates an unlocked mutex holding `t`, under the invariant `p`.
    pub fn new(t: T, p: P) -> (m: Self)
        requires
            p.inv(t),
        ensures
            m.pred() == p,
    {
        Mutex { v: RwLock::new(t, Ghost(p)) }
    }

    /// Spins until the lock is taken, runs `f` on the protected value, stores
    /// the value that `f` hands back, releases the lock and returns the rest
    /// of what `f` returned.
    ///
    /// Other threads may have changed the value since any earlier call, so
    /// what is known of the result is that `f` returned it for some value
    /// that satisfies the invariant, and stored one that does too.
    pub fn with_lock<R, F: FnOnce(T) -> (T, R)>(&self, f: F) -> (r: R)
        requires
            forall|v: T| self.pred().inv(v) ==> f.requires((v,)),
            forall|v: T, w: T, r: R|
                self.pred().inv(v) && #[trigger] f.ensures((v,), (w, r)) ==> self.pred().inv(w),
        ensures
            exists|v: T, w: T|
                self.pred().inv(v) && self.pred().inv(w) && #[trigger] f.ensures((v,), (w, r)),
    {
        let (v, handle) = self.v.acquire_write();
        let (w, r) = f(v);
        handle.release_write(w);
        r
    }
}

} // verus!
