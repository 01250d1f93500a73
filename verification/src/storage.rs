//! Append-only arenas and the typed indices that point into them.

use std::marker::PhantomData;
use vstd::prelude::*;

verus! {

/// The stable identity of an item of a `StoragePool<T>`: the position the
/// item was pushed at. Two identifiers are equal exactly when their
/// positions are.
#[verifier::reject_recursive_types(T)]
#[derive(Debug)]
pub struct StorageId<T>(usize, PhantomData<T>);

impl<T> View for StorageId<T> {
    type V = nat;

    closed spec fn view(&self) -> nat {
        self.0 as nat
    }
}

impl<T> Clone for StorageId<T> {
    fn clone(&self) -> (result: Self)
        ensures
            result == *self,
    {
        StorageId(self.0, PhantomData)
    }
}

impl<T> Copy for StorageId<T> {

}

impl<T> PartialEq for StorageId<T> {
    /// Identifiers are equal when they stand for the same position.
    fn eq(&self, other: &Self) -> (b: bool) {
        self.0 == other.0
    }
}

impl<T> vstd::std_specs::cmp::PartialEqSpecImpl for StorageId<T> {
    open spec fn obeys_eq_spec() -> bool {
        true
    }

    open spec fn eq_spec(&self, other: &Self) -> bool {
        self@ == other@
    }
}

impl<T> Eq for StorageId<T> {

}

impl<T> StorageId<T> {
    /// The identifier of position `index`.
    pub fn from_index(index: usize) -> (id: Self)
        ensures
            id@ == index,
    {
        StorageId(index, PhantomData)
    }

    /// The position this identifier stands for.
    pub fn index(&self) -> (index: usize)
        ensures
            index == self@,
    {
        self.0
    }
}

/// A vector that only grows, so that an identifier once handed out stays
/// valid and keeps meaning the same item.
#[derive(Debug)]
pub struct StoragePool<T>(Vec<T>);

impl<T> View for StoragePool<T> {
    type V = Seq<T>;

    closed spec fn view(&self) -> Seq<T> {
        self.0@
    }
}

impl<T> StoragePool<T> {
    /// Whether `id` points at an item of this pool.
    pub open spec fn contains(&self, id: StorageId<T>) -> bool {
        id@ < self@.len()
    }

    /// The pool without items.
    pub fn new() -> (pool: Self)
        ensures
            pool@ == Seq::<T>::empty(),
    {
        StoragePool(Vec::new())
    }

    /// The number of items pushed so far.
    pub fn len(&self) -> (n: usize)
        ensures
            n == self@.len(),
    {
        self.0.len()
    }

    /// The identifier that the next pushed item will get.
    pub fn next_id(&self) -> (id: StorageId<T>)
        ensures
            id@ == self@.len(),
    {
        StorageId(self.0.len(), PhantomData)
    }

    /// Appends `item`; it gets the identifier that `next_id` announced, and
    /// every earlier item keeps its own.
    pub fn push(&mut self, item: T) -> (id: StorageId<T>)
        ensures
            final(self)@ == old(self)@.push(item),
            id@ == old(self)@.len(),
    {
        let id = self.next_id();
        self.0.push(item);
        id
    }

    /// The item that `id` points at.
    pub fn index(&self, id: StorageId<T>) -> (item: &T)
        requires
            self.contains(id),
        ensures
            *item == self@[id@ as int],
    {
        &self.0[id.0]
    }
}

} // verus!
