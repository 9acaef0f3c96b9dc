//! The shared reader/writer lock of a stylesheet tree and its guard tokens.
//!
//! One lock exists per stylesheet tree. Guards are explicit capability
//! tokens: every access to protected content takes a guard parameter, and
//! the contract of each access demands that the guard was issued by the
//! very lock that protects the value. A mismatched guard is a programmer
//! error, so it is ruled out statically by `requires` clauses rather than
//! reported as a recoverable failure.

use vstd::prelude::*;

verus! {

/// A reader/writer lock protecting the contents of one stylesheet tree.
///
/// Lock identity is an explicit token: each stylesheet tree must create
/// its lock with a token of its own, distinct from every other tree's.
pub struct SharedRwLock {
    id: u64,
}

/// Proof that a shared lock is held for reading.
pub struct SharedRwLockReadGuard {
    lock_id: u64,
}

/// Proof that a shared lock is held exclusively, for writing.
pub struct SharedRwLockWriteGuard {
    lock_id: u64,
}

impl SharedRwLock {
    /// The identity token of this lock.
    pub closed spec fn id(self) -> u64 {
        self.id
    }

    /// Creates the lock of a new stylesheet tree.
    pub fn new(id: u64) -> (r: SharedRwLock)
        ensures
            r.id() == id,
    {
        SharedRwLock { id }
    }

    /// Acquires this lock for reading; many readers may hold it at once.
    pub fn read(&self) -> (g: SharedRwLockReadGuard)
        ensures
            g.lock_id() == self.id(),
    {
        SharedRwLockReadGuard { lock_id: self.id }
    }

    /// Acquires this lock exclusively, blocking all readers.
    pub fn write(&self) -> (g: SharedRwLockWriteGuard)
        ensures
            g.lock_id() == self.id(),
    {
        SharedRwLockWriteGuard { lock_id: self.id }
    }

    /// Puts a value under the protection of this lock.
    pub fn wrap<T>(&self, data: T) -> (r: Locked<T>)
        ensures
            r.lock_id() == self.id(),
            r.data() == data,
    {
        Locked { lock_id: self.id, data }
    }
}

impl SharedRwLockReadGuard {
    /// The identity token of the lock this guard was issued by.
    pub closed spec fn lock_id(self) -> u64 {
        self.lock_id
    }
}

impl SharedRwLockWriteGuard {
    /// The identity token of the lock this guard was issued by.
    pub closed spec fn lock_id(self) -> u64 {
        self.lock_id
    }
}

/// A value paired with the identity of the lock that protects it.
///
/// Access requires a guard issued by that same lock.
pub struct Locked<T> {
    lock_id: u64,
    data: T,
}

impl<T> Locked<T> {
    /// The identity token of the lock protecting this value.
    pub closed spec fn lock_id(self) -> u64 {
        self.lock_id
    }

    /// The protected value.
    pub closed spec fn data(self) -> T {
        self.data
    }

    /// Reads the protected value; the guard must come from the value's own lock.
    pub fn read_with<'a>(&'a self, guard: &SharedRwLockReadGuard) -> (r: &'a T)
        requires
            guard.lock_id() == self.lock_id(),
        ensures
            *r == self.data(),
    {
        &self.data
    }

    /// The protected value lies structurally inside the `Locked` wrapper,
    /// so recursion over a rule tree may descend through it.
    pub broadcast proof fn lemma_data_decreases(l: Locked<T>)
        ensures
            #[trigger] (decreases_to!(l => l.data())),
    {
    }

    /// Replaces the protected value; the guard must come from the value's own lock.
    pub fn write_with(&mut self, guard: &SharedRwLockWriteGuard, value: T)
        requires
            guard.lock_id() == old(self).lock_id(),
        ensures
            final(self).lock_id() == old(self).lock_id(),
            final(self).data() == value,
    {
        self.data = value;
    }
}

/// Clone-scope controls forwarded unchanged to nested deep-clone
/// implementations; the dispatcher itself never reads them.
pub struct DeepCloneParams {}

} // verus!
