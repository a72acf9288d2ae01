//! Tables: values under keys, in the order in which the keys came.
use crate::text;
use vstd::prelude::*;
use vstd::string::*;

verus! {

/// Keys that can be told apart.
pub trait Same: View {
    /// Whether two keys are the same.
    fn same(&self, other: &Self) -> (same: bool)
        ensures
            same == (self@ == other@),
    ;
}

impl Same for String {
    fn same(&self, other: &Self) -> (same: bool) {
        text::same_text(self.as_str(), other.as_str())
    }
}

/// Values under keys.
#[derive(Debug, PartialEq, Eq)]
pub struct Table<K, T> {
    pub keys: Vec<K>,
    pub values: Vec<T>,
}

impl<K: Same, T> Table<K, T> {
    /// Whether each key has one value.
    pub open spec fn is_table(self) -> bool {
        &&& self.keys@.len() == self.values@.len()
        &&& forall|i: int, j: int|
            0 <= i < j < self.keys@.len() ==> (#[trigger] self.keys@[i])@ != (
            #[trigger] self.keys@[j])@
    }

    /// Whether `key` stands at place `i`.
    pub open spec fn is_at(self, key: <K as View>::V, i: int) -> bool {
        0 <= i < self.keys@.len() && self.keys@[i]@ == key
    }
}

impl<K: Same, T> View for Table<K, T> {
    type V = Map<<K as View>::V, T>;

    open spec fn view(&self) -> Map<<K as View>::V, T> {
        Map::new(
            |key: <K as View>::V| exists|i: int| self.is_at(key, i),
            |key: <K as View>::V| self.values@[choose|i: int| self.is_at(key, i)],
        )
    }
}

impl<K: Same, T> Table<K, T> {
    /// What stands at place `i` is what the table holds under the key there.
    pub proof fn lemma_at(self, key: <K as View>::V, i: int)
        requires
            self.is_table(),
            self.is_at(key, i),
        ensures
            self@.contains_key(key),
            self@[key] == self.values@[i],
    {
    }

    /// A table without keys.
    pub fn new() -> (res: Self)
        ensures
            res.is_table(),
            res@ == Map::<<K as View>::V, T>::empty(),
    {
        Table { keys: Vec::new(), values: Vec::new() }
    }

    /// Where `key` stands.
    pub fn position(&self, key: &K) -> (at: Option<usize>)
        requires
            self.is_table(),
        ensures
            match at {
                Some(at) => self.is_at(key@, at as int) && self@.contains_key(key@) && self@[key@]
                    == self.values@[at as int],
                None => !self@.contains_key(key@),
            },
    {
        let mut i: usize = 0;
        while i < self.keys.len()
            invariant
                self.is_table(),
                i <= self.keys@.len(),
                forall|k: int| 0 <= k < i ==> !self.is_at(key@, k),
            decreases self.keys@.len() - i,
        {
            if self.keys[i].same(key) {
                proof {
                    self.lemma_at(key@, i as int);
                }
                return Some(i);
            }
            i += 1;
        }
        None
    }

    /// The value under `key`.
    pub fn get(&self, key: &K) -> (value: Option<&T>)
        requires
            self.is_table(),
        ensures
            match value {
                Some(value) => self@.contains_key(key@) && *value == self@[key@],
                None => !self@.contains_key(key@),
            },
    {
        match self.position(key) {
            Some(at) => Some(&self.values[at]),
            None => None,
        }
    }

    /// The value under `key`, to be changed in place; `default` if there was none.
    pub fn entry(&mut self, key: K, default: T) -> (value: &mut T)
        requires
            old(self).is_table(),
        ensures
            *value == if old(self)@.contains_key(key@) {
                old(self)@[key@]
            } else {
                default
            },
            final(self).is_table(),
            final(self)@ == old(self)@.insert(key@, *final(value)),
    {
        let ghost before = *self;
        let at: usize = match self.position(&key) {
            Some(at) => at,
            None => {
                self.keys.push(key);
                self.values.push(default);
                self.keys.len() - 1
            },
        };
        proof {
            let keys = self.keys@;
            let values = self.values@;
            assert forall|after: Self, value: T|
                #![trigger after.keys@, values.update(at as int, value)]
                after.keys@ == keys && after.values@ == values.update(
                    at as int,
                    value,
                ) implies after.is_table() && after@ == before@.insert(key@, value) by {
                lemma_replaced(before, keys, values, key@, at as int, after, value);
            }
        }
        &mut self.values[at]
    }
}

proof fn lemma_replaced<K: Same, T>(
    before: Table<K, T>,
    keys: Seq<K>,
    values: Seq<T>,
    key: <K as View>::V,
    at: int,
    after: Table<K, T>,
    value: T,
)
    requires
        before.is_table(),
        keys.len() == values.len(),
        0 <= at < keys.len(),
        keys[at]@ == key,
        before.keys@.len() <= keys.len() <= before.keys@.len() + 1,
        keys.len() > before.keys@.len() ==> at == before.keys@.len() && !before@.contains_key(key),
        forall|i: int| 0 <= i < before.keys@.len() ==> #[trigger] keys[i] == before.keys@[i],
        forall|i: int| 0 <= i < before.keys@.len() ==> #[trigger] values[i] == before.values@[i],
        after.keys@ == keys,
        after.values@ == values.update(at, value),
    ensures
        after.is_table(),
        after@ == before@.insert(key, value),
{
    assert forall|i: int, j: int| 0 <= i < j < keys.len() implies (#[trigger] keys[i])@ != (
    #[trigger] keys[j])@ by {
        if j == before.keys@.len() {
            if keys[i]@ == key {
                before.lemma_at(key, i);
            }
        }
    }
    after.lemma_at(key, at);
    assert forall|k: <K as View>::V| after@.contains_key(k) == before@.insert(
        key,
        value,
    ).contains_key(k) by {
        if after@.contains_key(k) && k != key {
            let i = choose|i: int| after.is_at(k, i);
            assert(before.is_at(k, i));
        }
        if before@.contains_key(k) {
            let i = choose|i: int| before.is_at(k, i);
            assert(after.is_at(k, i));
        }
    }
    assert forall|k: <K as View>::V| after@.contains_key(k) implies after@[k] == before@.insert(
        key,
        value,
    )[k] by {
        if k != key {
            let i = choose|i: int| after.is_at(k, i);
            before.lemma_at(k, i);
            after.lemma_at(k, i);
        }
    }
}

} // verus!
