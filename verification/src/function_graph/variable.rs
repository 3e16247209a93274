//! Variables: cells that hold one value of any type behind a read/write
//! lock, and the named variables of one operation.

use crate::graph::order::hash_laws;
use std::any::{Any, TypeId};
use std::collections::HashMap;
use std::hash::Hash;
use std::marker::PhantomData;
use std::ops::{Deref, DerefMut};
use std::sync::{Arc, RwLock, RwLockReadGuard, RwLockWriteGuard};
use vstd::prelude::*;

verus! {

type Inner = dyn Any + Send + Sync;

/// `std::any::TypeId`: the identity of a type at run time.
#[verifier::external_type_specification]
#[verifier::external_body]
pub struct ExTypeId(TypeId);

/// A lock of its own around a value of any type: an `RwLock` in a `Box`, with
/// the way to copy the value.
#[verifier::external_body]
pub(crate) struct OwnedLock {
    lock: Box<RwLock<Inner>>,
    copy: Arc<dyn Fn(&Inner) -> Box<RwLock<Inner>> + Send + Sync>,
}

/// A lock around a value of any type that several variables can hold: an
/// `RwLock` in an `Arc`.
#[verifier::external_body]
pub(crate) struct SharedLock {
    lock: Arc<RwLock<Inner>>,
}

/// A lock taken for reading: an `RwLockReadGuard`.
#[verifier::external_body]
pub(crate) struct LockedRead<'a> {
    guard: RwLockReadGuard<'a, Inner>,
}

/// A lock taken for writing: an `RwLockWriteGuard`.
#[verifier::external_body]
pub(crate) struct LockedWrite<'a> {
    guard: RwLockWriteGuard<'a, Inner>,
}

impl OwnedLock {
    /// `RwLock::new` in a `Box`, with `Clone::clone` of the type of `value` as
    /// the way to copy. Nothing is stated of the lock.
    #[verifier::external_body]
    fn new<T: 'static + Send + Sync + Clone>(value: T) -> Self {
        Self {
            lock: Box::new(RwLock::new(value)),
            copy: Arc::new(
                |v: &Inner| Box::new(RwLock::new(v.downcast_ref::<T>().unwrap().clone())),
            ),
        }
    }

    /// A new lock around a clone of the value, made while this lock is taken
    /// for reading: `RwLock::read`, `Clone::clone` of the value, `RwLock::new`.
    /// Panics if the lock is poisoned.
    #[verifier::external_body]
    fn copy(&self) -> Self {
        let held = self.lock.read().expect("Failed to acquire read lock");
        Self { lock: (self.copy)(&*held), copy: self.copy.clone() }
    }

    /// `RwLock::read`. Panics if the lock is poisoned.
    #[verifier::external_body]
    fn read(&self) -> LockedRead<'_> {
        LockedRead { guard: self.lock.read().expect("Failed to acquire read lock") }
    }

    /// `RwLock::write`. Panics if the lock is poisoned.
    #[verifier::external_body]
    fn write(&self) -> LockedWrite<'_> {
        LockedWrite { guard: self.lock.write().expect("Failed to acquire write lock") }
    }
}

impl SharedLock {
    /// `RwLock::new` in an `Arc`. Nothing is stated of the lock.
    #[verifier::external_body]
    fn new<T: 'static + Send + Sync>(value: T) -> Self {
        Self { lock: Arc::new(RwLock::new(value)) }
    }

    /// `Arc::clone`: another handle to the same lock.
    #[verifier::external_body]
    fn alias(&self) -> Self {
        Self { lock: self.lock.clone() }
    }

    /// `RwLock::read`. Panics if the lock is poisoned.
    #[verifier::external_body]
    fn read(&self) -> LockedRead<'_> {
        LockedRead { guard: self.lock.read().expect("Failed to acquire read lock") }
    }

    /// `RwLock::write`. Panics if the lock is poisoned.
    #[verifier::external_body]
    fn write(&self) -> LockedWrite<'_> {
        LockedWrite { guard: self.lock.write().expect("Failed to acquire write lock") }
    }
}

impl<'a> LockedRead<'a> {
    /// `<dyn Any>::downcast_ref` on the value behind the guard.
    #[verifier::external_body]
    fn downcast_ref<T: 'static>(&self) -> Option<&T> {
        self.guard.downcast_ref::<T>()
    }

    /// The guard as a guard on a `T`, if `<dyn Any>::is` says that the value
    /// behind it is a `T`; `None` if it is of another type.
    #[verifier::external_body]
    fn typed<T: 'static>(self) -> Option<ReadGuardAs<'a, T>> {
        if self.guard.is::<T>() {
            Some(ReadGuardAs { guard: self.guard, t: PhantomData })
        } else {
            None
        }
    }
}

impl<'a> LockedWrite<'a> {
    /// `<dyn Any>::downcast_ref` on the value behind the guard.
    #[verifier::external_body]
    fn downcast_ref<T: 'static>(&self) -> Option<&T> {
        self.guard.downcast_ref::<T>()
    }

    /// `<dyn Any>::downcast_mut` on the value behind the guard.
    #[verifier::external_body]
    fn downcast_mut<T: 'static>(&mut self) -> Option<&mut T> {
        self.guard.downcast_mut::<T>()
    }

    /// The guard as a guard on a `T`, if `<dyn Any>::is` says that the value
    /// behind it is a `T`; `None` if it is of another type.
    #[verifier::external_body]
    fn typed<T: 'static>(self) -> Option<WriteGuardAs<'a, T>> {
        if self.guard.is::<T>() {
            Some(WriteGuardAs { guard: self.guard, t: PhantomData })
        } else {
            None
        }
    }
}

/// `TypeId::of`: the id of the type `T`.
#[verifier::external_body]
fn type_of<T: 'static>() -> TypeId {
    TypeId::of::<T>()
}

/// `TypeId::eq`: whether the two ids are one id.
#[verifier::external_body]
fn same_type_id(a: &TypeId, b: &TypeId) -> (r: bool)
    ensures
        r == (*a == *b),
{
    a == b
}

/// A cell of its own: a lock around a value, and the id of the type of the
/// value. The value can be written, but only as a value of its type, so that
/// the type of what the cell holds never changes.
pub struct OwnedCell {
    tag: TypeId,
    lock: OwnedLock,
}

/// A cell that several variables can hold: a lock around a value, and the id
/// of the type of the value, which never changes.
pub struct SharedCell {
    tag: TypeId,
    lock: SharedLock,
}

impl OwnedCell {
    /// The id of the type of the value that the cell holds.
    pub closed spec fn tag(&self) -> TypeId {
        self.tag
    }

    fn new<T: 'static + Send + Sync + Clone>(value: T) -> Self {
        Self { tag: type_of::<T>(), lock: OwnedLock::new(value) }
    }

    /// A cell of its own with a clone of the value of this cell.
    fn copy(&self) -> (cell: Self)
        ensures
            cell.tag() == self.tag(),
    {
        Self { tag: self.tag, lock: self.lock.copy() }
    }
}

impl SharedCell {
    /// The id of the type of the value that the cell holds.
    pub closed spec fn tag(&self) -> TypeId {
        self.tag
    }

    fn new<T: 'static + Send + Sync>(value: T) -> Self {
        Self { tag: type_of::<T>(), lock: SharedLock::new(value) }
    }

    /// Another handle to this cell.
    fn alias(&self) -> (cell: Self)
        ensures
            cell.tag() == self.tag(),
    {
        Self { tag: self.tag, lock: self.lock.alias() }
    }
}

/// A variable held for reading. It holds a value unless a caller that Verus
/// does not check asked for a name that no variable has.
pub struct ReadGuard<'a> {
    held: Option<LockedRead<'a>>,
}

impl<'a> ReadGuard<'a> {
    /// Whether there is a variable behind this guard.
    pub closed spec fn is_held(&self) -> bool {
        self.held is Some
    }

    /// The value as a `T`, if there is a variable and its value is a `T`.
    pub fn downcast_ref<T: 'static>(&self) -> (r: Option<&T>)
        ensures
            !self.is_held() ==> r is None,
    {
        match &self.held {
            Some(locked) => locked.downcast_ref::<T>(),
            None => None,
        }
    }
}

/// A variable held for writing. It holds a value unless a caller that Verus
/// does not check asked for a name that no variable has.
pub struct WriteGuard<'a> {
    held: Option<LockedWrite<'a>>,
}

impl<'a> WriteGuard<'a> {
    /// Whether there is a variable behind this guard.
    pub closed spec fn is_held(&self) -> bool {
        self.held is Some
    }

    /// The value as a `T`, if there is a variable and its value is a `T`.
    pub fn downcast_ref<T: 'static>(&self) -> (r: Option<&T>)
        ensures
            !self.is_held() ==> r is None,
    {
        match &self.held {
            Some(locked) => locked.downcast_ref::<T>(),
            None => None,
        }
    }

    /// The value as a `T` that can be written, if there is a variable and
    /// its value is a `T`.
    pub fn downcast_mut<T: 'static>(&mut self) -> (r: Option<&mut T>)
        ensures
            !old(self).is_held() ==> r is None,
    {
        match &mut self.held {
            Some(locked) => locked.downcast_mut::<T>(),
            None => None,
        }
    }
}

/// A variable held for reading, whose value is a `T`: an `RwLockReadGuard`
/// on a value that is a `T`. Only `LockedRead::typed` makes one, and nothing
/// can write to the value while the guard holds it.
#[verifier::external_body]
#[verifier::reject_recursive_types(T)]
pub struct ReadGuardAs<'a, T> {
    guard: RwLockReadGuard<'a, Inner>,
    t: PhantomData<T>,
}

impl<'a, T: 'static> ReadGuardAs<'a, T> {
    /// `<dyn Any>::downcast_ref` on the value behind the guard, which is a
    /// `T` in every such guard.
    #[verifier::external_body]
    fn value(&self) -> &T {
        self.guard.downcast_ref::<T>().expect("Failed to downcast")
    }
}

impl<'a, T: 'static> Deref for ReadGuardAs<'a, T> {
    type Target = T;

    fn deref(&self) -> &T {
        self.value()
    }
}

/// A variable held for writing, whose value is a `T`: an `RwLockWriteGuard`
/// on a value that is a `T`. Only `LockedWrite::typed` makes one, and through
/// the guard only a `T` can be written.
#[verifier::external_body]
#[verifier::reject_recursive_types(T)]
pub struct WriteGuardAs<'a, T> {
    guard: RwLockWriteGuard<'a, Inner>,
    t: PhantomData<T>,
}

impl<'a, T: 'static> WriteGuardAs<'a, T> {
    /// `<dyn Any>::downcast_ref` on the value behind the guard, which is a
    /// `T` in every such guard.
    #[verifier::external_body]
    fn value(&self) -> &T {
        self.guard.downcast_ref::<T>().expect("Failed to downcast")
    }

    /// `<dyn Any>::downcast_mut` on the value behind the guard, which is a
    /// `T` in every such guard.
    #[verifier::external_body]
    fn value_mut(&mut self) -> &mut T {
        self.guard.downcast_mut::<T>().expect("Failed to downcast")
    }
}

impl<'a, T: 'static> Deref for WriteGuardAs<'a, T> {
    type Target = T;

    fn deref(&self) -> &T {
        self.value()
    }
}

impl<'a, T: 'static> DerefMut for WriteGuardAs<'a, T> {
    fn deref_mut(&mut self) -> &mut T {
        self.value_mut()
    }
}

/// A cell that holds one value of any type behind a read/write lock.
/// An owned variable has its cell to itself. A shared variable is one of any
/// number of handles to one cell.
pub enum Variable {
    Owned(OwnedCell),
    Shared(SharedCell),
}

impl Variable {
    /// Whether this variable is a handle to a cell that others may hold too.
    pub open spec fn is_shared(&self) -> bool {
        self is Shared
    }

    /// The id of the type of the value that the variable holds: the type of
    /// the value it was made with, which no write can change.
    pub open spec fn tag(&self) -> TypeId {
        match self {
            Variable::Owned(cell) => cell.tag(),
            Variable::Shared(cell) => cell.tag(),
        }
    }

    /// A variable with a cell of its own that holds `value`.
    pub fn owned<T>(value: T) -> (v: Self) where T: 'static + Send + Sync + Clone
        ensures
            !v.is_shared(),
    {
        Self::Owned(OwnedCell::new(value))
    }

    /// A variable with a new cell that holds `value` and can be shared.
    pub fn shared<T>(value: T) -> (v: Self) where T: 'static + Send + Sync
        ensures
            v.is_shared(),
    {
        Self::Shared(SharedCell::new(value))
    }

    /// Holds the variable for reading. Waits while it is held for writing;
    /// panics if the lock is poisoned.
    #[inline(always)]
    pub fn read(&self) -> (g: ReadGuard<'_>)
        ensures
            g.is_held(),
    {
        match self {
            Self::Owned(cell) => ReadGuard { held: Some(cell.lock.read()) },
            Self::Shared(cell) => ReadGuard { held: Some(cell.lock.read()) },
        }
    }

    /// Holds the variable for writing. Waits while it is held otherwise;
    /// panics if the lock is poisoned.
    #[inline(always)]
    pub fn write(&self) -> (g: WriteGuard<'_>)
        ensures
            g.is_held(),
    {
        match self {
            Self::Owned(cell) => WriteGuard { held: Some(cell.lock.write()) },
            Self::Shared(cell) => WriteGuard { held: Some(cell.lock.write()) },
        }
    }

    /// Holds the variable for reading as a `T`; `None` if its value is of
    /// another type.
    #[inline(always)]
    pub fn read_as<T>(&self) -> Option<ReadGuardAs<'_, T>> where T: 'static + Send + Sync {
        let locked = match self {
            Self::Owned(cell) => cell.lock.read(),
            Self::Shared(cell) => cell.lock.read(),
        };
        locked.typed::<T>()
    }

    /// Holds the variable for writing as a `T`; `None` if its value is of
    /// another type.
    #[inline(always)]
    pub fn write_as<T>(&self) -> Option<WriteGuardAs<'_, T>> where T: 'static + Send + Sync {
        let locked = match self {
            Self::Owned(cell) => cell.lock.write(),
            Self::Shared(cell) => cell.lock.write(),
        };
        locked.typed::<T>()
    }

    /// The id of the type of the value that the variable holds.
    pub fn type_id(&self) -> (id: TypeId)
        ensures
            id == self.tag(),
    {
        match self {
            Self::Owned(cell) => cell.tag,
            Self::Shared(cell) => cell.tag,
        }
    }

    /// Whether the two variables hold values of the same type. The values
    /// themselves are not compared.
    pub fn same_type(&self, other: &Self) -> (r: bool)
        ensures
            r == (self.tag() == other.tag()),
    {
        let mine = self.type_id();
        let theirs = other.type_id();
        same_type_id(&mine, &theirs)
    }
}

impl PartialEq for Variable {
    /// Two variables are equal if they hold values of the same type.
    fn eq(&self, other: &Self) -> (r: bool) {
        self.same_type(other)
    }
}

impl vstd::std_specs::cmp::PartialEqSpecImpl for Variable {
    open spec fn obeys_eq_spec() -> bool {
        true
    }

    open spec fn eq_spec(&self, other: &Self) -> bool {
        self.tag() == other.tag()
    }
}

impl Clone for Variable {
    /// A shared variable gives another handle to its cell. An owned
    /// variable gives an owned variable with a cell of its own, which holds a
    /// clone of the value.
    fn clone(&self) -> (v: Self)
        ensures
            v.is_shared() == self.is_shared(),
            v.tag() == self.tag(),
    {
        match self {
            Self::Owned(cell) => Self::Owned(cell.copy()),
            Self::Shared(cell) => Self::Shared(cell.alias()),
        }
    }
}

/// The names of `m` are the names in `pairs`, and each leads to a variable
/// that `pairs` gives for it.
pub open spec fn made_of<I>(m: Map<I, Variable>, pairs: Seq<(I, Variable)>) -> bool {
    &&& forall|k: I|
        m.contains_key(k) <==> exists|i: int| 0 <= i < pairs.len() && (#[trigger] pairs[i]).0 == k
    &&& forall|k: I| #[trigger]
        m.contains_key(k) ==> exists|i: int|
            0 <= i < pairs.len() && #[trigger] pairs[i] == (k, m[k])
}

/// `HashMap::from` an array of pairs: the keys of the map are the first
/// components, and each key leads to the second component of a pair with
/// that key.
#[verifier::external_body]
fn map_from_pairs<I, const N: usize>(pairs: [(I, Variable); N]) -> (m: HashMap<I, Variable>) where
    I: Eq + Hash,

    ensures
        hash_laws::<I>() ==> made_of(m@, pairs@),
{
    HashMap::from(pairs)
}

/// The variables of one operation, by name.
#[verifier::reject_recursive_types(I)]
pub struct Variables<I>(HashMap<I, Variable>);

impl<I> View for Variables<I> {
    type V = Map<I, Variable>;

    closed spec fn view(&self) -> Map<I, Variable> {
        self.0@
    }
}

impl<I> Variables<I> where I: Ord + Hash {
    /// The variables of the given names. Of two with one name one is kept.
    pub fn new<const N: usize>(variables: [(I, Variable); N]) -> (v: Self)
        ensures
            hash_laws::<I>() ==> made_of(v@, variables@),
    {
        Self(map_from_pairs(variables))
    }

    /// The variable of the name `key`, if there is one.
    #[inline(always)]
    pub fn get(&self, key: &I) -> (r: Option<&Variable>)
        ensures
            hash_laws::<I>() ==> r == (if self@.contains_key(*key) {
                Some(&self@[*key])
            } else {
                None
            }),
    {
        self.0.get(key)
    }

    /// Holds the variable of the name `key` for reading. There has to be
    /// such a variable. A caller that Verus does not check, as the function
    /// of an operation mostly is, gets a guard that holds nothing where there
    /// is none.
    #[inline(always)]
    pub fn read(&self, key: &I) -> (g: ReadGuard<'_>)
        requires
            self@.contains_key(*key),
        ensures
            hash_laws::<I>() ==> g.is_held(),
    {
        match self.0.get(key) {
            Some(variable) => variable.read(),
            None => ReadGuard { held: None },
        }
    }

    /// Holds the variable of the name `key` for writing. There has to be
    /// such a variable. A caller that Verus does not check, as the function
    /// of an operation mostly is, gets a guard that holds nothing where there
    /// is none.
    #[inline(always)]
    pub fn write(&self, key: &I) -> (g: WriteGuard<'_>)
        requires
            self@.contains_key(*key),
        ensures
            hash_laws::<I>() ==> g.is_held(),
    {
        match self.0.get(key) {
            Some(variable) => variable.write(),
            None => WriteGuard { held: None },
        }
    }

    /// Holds the variable of the name `key` for reading as a `T`; `None` if
    /// there is no such variable or its value is of another type.
    #[inline(always)]
    pub fn read_as<T>(&self, key: &I) -> (r: Option<ReadGuardAs<'_, T>>) where
        T: 'static + Send + Sync,

        ensures
            hash_laws::<I>() && !self@.contains_key(*key) ==> r is None,
    {
        match self.0.get(key) {
            Some(variable) => variable.read_as::<T>(),
            None => None,
        }
    }

    /// Holds the variable of the name `key` for writing as a `T`; `None` if
    /// there is no such variable or its value is of another type.
    #[inline(always)]
    pub fn write_as<T>(&self, key: &I) -> (r: Option<WriteGuardAs<'_, T>>) where
        T: 'static + Send + Sync,

        ensures
            hash_laws::<I>() && !self@.contains_key(*key) ==> r is None,
    {
        match self.0.get(key) {
            Some(variable) => variable.write_as::<T>(),
            None => None,
        }
    }
}

} // verus!
