//! A map in which several keys can lead to one item.

use crate::expression::names_view;
use vstd::prelude::*;

verus! {

/// The position of the last of `items` that has `key` among its keys.
pub closed spec fn find<V>(items: Seq<(Vec<String>, V)>, key: Seq<char>) -> Option<int>
    decreases items.len(),
{
    if items.len() == 0 {
        None
    } else if names_view(items.last().0@).contains(key) {
        Some(items.len() - 1)
    } else {
        find(items.drop_last(), key)
    }
}

proof fn lemma_find<V>(items: Seq<(Vec<String>, V)>, key: Seq<char>)
    ensures
        match find(items, key) {
            Some(i) => 0 <= i < items.len() && names_view(items[i].0@).contains(key),
            None => forall|i: int|
                0 <= i < items.len() ==> !names_view((#[trigger] items[i]).0@).contains(key),
        },
    decreases items.len(),
{
    if items.len() > 0 && !names_view(items.last().0@).contains(key) {
        lemma_find(items.drop_last(), key);
        if find(items, key).is_none() {
            assert forall|i: int| 0 <= i < items.len() implies !names_view(
                (#[trigger] items[i]).0@,
            ).contains(key) by {
                if i < items.len() - 1 {
                    assert(items.drop_last()[i] == items[i]);
                }
            }
        }
    }
}

/// The position of `key` in `names`, if it is one of them.
pub fn position_of(names: &Vec<String>, key: &String) -> (found: Option<usize>)
    ensures
        match found {
            Some(k) => {
                &&& k < names@.len()
                &&& names@[k as int]@ == key@
                &&& forall|j: int| 0 <= j < k ==> names@[j]@ != key@
            },
            None => !names_view(names@).contains(key@),
        },
{
    let mut k: usize = 0;
    while k < names.len()
        invariant
            k <= names@.len(),
            forall|j: int| 0 <= j < k ==> names@[j]@ != key@,
        decreases names@.len() - k,
    {
        if names[k] == *key {
            return Some(k);
        }
        k = k + 1;
    }
    assert forall|j: int| 0 <= j < names_view(names@).len() implies names_view(names@)[j] != key@ by {
        assert(names_view(names@)[j] == names@[j]@);
    }
    None
}

/// Items, each under the keys it was inserted with. A key leads to the last
/// item inserted under it.
#[derive(Debug)]
pub struct ManyToOneMap<V> {
    items: Vec<(Vec<String>, V)>,
}

impl<V> ManyToOneMap<V> {
    /// The item that `key` leads to.
    pub closed spec fn lookup(&self, key: Seq<char>) -> Option<V> {
        match find(self.items@, key) {
            Some(i) => Some(self.items@[i].1),
            None => None,
        }
    }

    /// Whether one of `keys` leads to an item.
    pub open spec fn has_any(&self, keys: Seq<Seq<char>>) -> bool {
        exists|i: int| 0 <= i < keys.len() && self.lookup(#[trigger] keys[i]).is_some()
    }

    /// The map without items.
    pub fn new() -> (map: Self)
        ensures
            forall|key: Seq<char>| map.lookup(key).is_none(),
    {
        ManyToOneMap { items: Vec::new() }
    }

    /// Where the item that `key` leads to is kept, and where among its keys
    /// `key` stands.
    fn locate(&self, key: &String) -> (found: Option<(usize, usize)>)
        ensures
            match found {
                Some((i, k)) => {
                    &&& find(self.items@, key@) == Some(i as int)
                    &&& i < self.items@.len()
                    &&& k < self.items@[i as int].0@.len()
                    &&& self.items@[i as int].0@[k as int]@ == key@
                },
                None => find(self.items@, key@).is_none(),
            },
    {
        let mut i: usize = self.items.len();
        assert(self.items@.take(i as int) =~= self.items@);
        while i > 0
            invariant
                i <= self.items@.len(),
                find(self.items@, key@) == find(self.items@.take(i as int), key@),
            decreases i,
        {
            let ghost upto = self.items@.take(i as int);
            assert(upto.last() == self.items@[i - 1]);
            assert(upto.drop_last() =~= self.items@.take(i - 1));
            match position_of(&self.items[i - 1].0, key) {
                Some(k) => {
                    assert(names_view(self.items@[i - 1].0@)[k as int] == key@);
                    return Some((i - 1, k));
                },
                None => {},
            }
            i = i - 1;
        }
        None
    }

    /// Whether `key` leads to an item.
    pub fn contains_key(&self, key: &String) -> (b: bool)
        ensures
            b == self.lookup(key@).is_some(),
    {
        self.locate(key).is_some()
    }

    /// Whether one of `keys` leads to an item.
    pub fn contains_any_key(&self, keys: &Vec<String>) -> (b: bool)
        ensures
            b == self.has_any(names_view(keys@)),
    {
        let mut k: usize = 0;
        while k < keys.len()
            invariant
                k <= keys@.len(),
                forall|j: int| 0 <= j < k ==> self.lookup(#[trigger] names_view(keys@)[j]).is_none(),
            decreases keys@.len() - k,
        {
            if self.contains_key(&keys[k]) {
                assert(self.lookup(names_view(keys@)[k as int]).is_some());
                return true;
            }
            k = k + 1;
        }
        false
    }

    /// Puts `item` under every one of `keys`. A key that led to another item
    /// leads to this one from now on.
    pub fn insert(&mut self, keys: Vec<String>, item: V)
        ensures
            forall|key: Seq<char>|
                #[trigger] final(self).lookup(key) == if names_view(keys@).contains(key) {
                    Some(item)
                } else {
                    old(self).lookup(key)
                },
    {
        let ghost before = self.items@;
        self.items.push((keys, item));
        assert(self.items@.drop_last() =~= before);
        assert forall|key: Seq<char>| #[trigger]
            self.lookup(key) == if names_view(keys@).contains(key) {
                Some(item)
            } else {
                old(self).lookup(key)
            } by {
            lemma_find(before, key);
            if !names_view(keys@).contains(key) {
                match find(before, key) {
                    Some(i) => {
                        assert(self.items@[i] == before[i]);
                    },
                    None => {},
                }
            }
        }
    }

    /// The item that `key` leads to.
    pub fn get(&self, key: &String) -> (found: Option<&V>)
        ensures
            match found {
                Some(item) => self.lookup(key@) == Some(*item),
                None => self.lookup(key@).is_none(),
            },
    {
        match self.locate(key) {
            Some((i, _)) => Some(&self.items[i].1),
            None => None,
        }
    }

    /// The item that `key` leads to, with the key as it was inserted.
    pub fn get_key_value(&self, key: &String) -> (found: Option<(&String, &V)>)
        ensures
            match found {
                Some((stored, item)) => self.lookup(key@) == Some(*item) && stored@ == key@,
                None => self.lookup(key@).is_none(),
            },
    {
        match self.locate(key) {
            Some((i, k)) => Some((&self.items[i].0[k], &self.items[i].1)),
            None => None,
        }
    }
}

} // verus!
