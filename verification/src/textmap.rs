//! A map from text to values, kept in key order.

use vstd::prelude::*;
use crate::text::{before, same};

verus! {

/// A map keyed by text. Iteration by position follows the text order of the keys.
#[derive(Clone, Debug)]
pub struct TextMap<V> {
    keys: Vec<String>,
    values: Vec<V>,
}

impl<V: View> View for TextMap<V> {
    type V = Map<Seq<char>, V::V>;

    open spec fn view(&self) -> Map<Seq<char>, V::V> {
        Map::new(|key: Seq<char>| self.holds(key), |key: Seq<char>| self.value_of(key))
    }
}

impl<V: View> TextMap<V> {
    /// The keys in order of position.
    pub closed spec fn order(&self) -> Seq<Seq<char>> {
        Seq::new(self.keys@.len(), |i: int| self.keys@[i]@)
    }

    /// The values in order of position.
    pub closed spec fn contents(&self) -> Seq<V::V> {
        Seq::new(self.values@.len(), |i: int| self.values@[i]@)
    }

    /// Whether some position carries `key`.
    pub open spec fn holds(&self, key: Seq<char>) -> bool {
        self.order().contains(key)
    }

    /// The value stored at the position that carries `key`.
    pub open spec fn value_of(&self, key: Seq<char>) -> V::V {
        self.contents()[self.order().index_of(key)]
    }

    /// Keys strictly increase, and every key has one value.
    pub open spec fn wf(&self) -> bool {
        &&& self.order().len() == self.contents().len()
        &&& forall|i: int, j: int|
            0 <= i < j < self.order().len() ==> #[trigger] crate::text::precedes(
                self.order()[i],
                self.order()[j],
            )
    }

    /// What a position of a well-formed table says about its view.
    pub proof fn lemma_position(&self, i: int)
        requires
            self.wf(),
            0 <= i < self.order().len(),
        ensures
            self@.contains_key(self.order()[i]),
            self@[self.order()[i]] == self.contents()[i],
    {
        let key = self.order()[i];
        let j = self.order().index_of(key);
        assert(self.order().contains(key));
        assert(self.order()[j] == key);
        if i < j {
            crate::text::lemma_precedes_asymmetric(key, key);
            assert(crate::text::precedes(self.order()[i], self.order()[j]));
        } else if j < i {
            crate::text::lemma_precedes_asymmetric(key, key);
            assert(crate::text::precedes(self.order()[j], self.order()[i]));
        }
    }

    /// Every key of the view stands at some position.
    pub proof fn lemma_key(&self, key: Seq<char>) -> (i: int)
        requires
            self.wf(),
            self@.contains_key(key),
        ensures
            0 <= i < self.order().len(),
            self.order()[i] == key,
            self@[key] == self.contents()[i],
    {
        self.order().index_of(key)
    }

    pub fn new() -> (table: Self)
        ensures
            table.wf(),
            table@ == Map::<Seq<char>, V::V>::empty(),
            table.order().len() == 0,
    {
        let table = TextMap { keys: Vec::new(), values: Vec::new() };
        assert(table@ =~= Map::<Seq<char>, V::V>::empty());
        table
    }

    pub fn len(&self) -> (count: usize)
        ensures
            count == self.order().len(),
    {
        self.keys.len()
    }

    pub fn is_empty(&self) -> (empty: bool)
        ensures
            empty == (self.order().len() == 0),
    {
        self.keys.len() == 0
    }

    pub fn key_at(&self, i: usize) -> (key: &String)
        requires
            i < self.order().len(),
        ensures
            key@ == self.order()[i as int],
    {
        &self.keys[i]
    }

    pub fn value_at(&self, i: usize) -> (value: &V)
        requires
            self.wf(),
            i < self.order().len(),
        ensures
            value@ == self.contents()[i as int],
    {
        &self.values[i]
    }

    /// The first position whose key does not come before `key`.
    fn seek(&self, key: &str) -> (at: usize)
        requires
            self.wf(),
        ensures
            at <= self.order().len(),
            forall|i: int| 0 <= i < at ==> crate::text::precedes(#[trigger] self.order()[i], key@),
            at < self.order().len() ==> !crate::text::precedes(self.order()[at as int], key@),
    {
        let mut at: usize = 0;
        while at < self.keys.len() && before(&self.keys[at], key)
            invariant
                at <= self.keys.len(),
                forall|i: int|
                    0 <= i < at ==> crate::text::precedes(#[trigger] self.order()[i], key@),
            decreases self.keys.len() - at,
        {
            at = at + 1;
        }
        at
    }

    /// Where `key` stands, if it does.
    fn find(&self, key: &str) -> (found: Option<usize>)
        requires
            self.wf(),
        ensures
            match found {
                Some(i) => i < self.order().len() && self.order()[i as int] == key@,
                None => !self@.contains_key(key@),
            },
    {
        let mut i: usize = 0;
        while i < self.keys.len()
            invariant
                i <= self.keys.len(),
                forall|j: int| 0 <= j < i ==> #[trigger] self.order()[j] != key@,
            decreases self.keys.len() - i,
        {
            if same(&self.keys[i], key) {
                return Some(i);
            }
            i = i + 1;
        }
        None
    }

    pub fn get(&self, key: &str) -> (value: Option<&V>)
        requires
            self.wf(),
        ensures
            match value {
                Some(value) => self@.contains_key(key@) && value@ == self@[key@],
                None => !self@.contains_key(key@),
            },
    {
        match self.find(key) {
            Some(i) => {
                proof {
                    self.lemma_position(i as int);
                }
                Some(&self.values[i])
            },
            None => None,
        }
    }

    pub fn contains_key(&self, key: &str) -> (present: bool)
        requires
            self.wf(),
        ensures
            present == self@.contains_key(key@),
    {
        self.get(key).is_some()
    }

    /// Takes the value at a position out of the table.
    pub fn remove_at(&mut self, i: usize) -> (value: V)
        requires
            old(self).wf(),
            i < old(self).order().len(),
        ensures
            final(self).wf(),
            value@ == old(self).contents()[i as int],
            final(self).order() == old(self).order().remove(i as int),
            final(self).contents() == old(self).contents().remove(i as int),
            final(self)@ == old(self)@.remove(old(self).order()[i as int]),
    {
        let ghost before_order = self.order();
        let ghost before_contents = self.contents();
        let _ = self.keys.remove(i);
        let value = self.values.remove(i);
        assert(self.order() =~= before_order.remove(i as int));
        assert(self.contents() =~= before_contents.remove(i as int));
        proof {
            lemma_removed(*old(self), *self, i as int);
        }
        value
    }

    /// Takes the value of `key` out of the table.
    pub fn remove(&mut self, key: &str) -> (value: Option<V>)
        requires
            old(self).wf(),
        ensures
            final(self).wf(),
            final(self)@ == old(self)@.remove(key@),
            match value {
                Some(value) => old(self)@.contains_key(key@) && value@ == old(self)@[key@]
                    && final(self).order().len() + 1 == old(self).order().len(),
                None => !old(self)@.contains_key(key@) && final(self).order() == old(
                    self,
                ).order(),
            },
    {
        match self.find(key) {
            Some(i) => {
                proof {
                    self.lemma_position(i as int);
                }
                let value = self.remove_at(i);
                Some(value)
            },
            None => {
                assert(self@ =~= old(self)@.remove(key@));
                None
            },
        }
    }

    /// Gives `key` a value, in place of the one that it had.
    pub fn insert(&mut self, key: String, value: V)
        requires
            old(self).wf(),
        ensures
            final(self).wf(),
            final(self)@ == old(self)@.insert(key@, value@),
    {
        let ghost start = *self;
        let _ = self.remove(&key);
        let at = self.seek(&key);
        let ghost middle = *self;
        let ghost name = key@;
        let ghost item = value@;
        self.keys.insert(at, key);
        self.values.insert(at, value);
        assert(self.order() =~= middle.order().insert(at as int, name));
        assert(self.contents() =~= middle.contents().insert(at as int, item));
        proof {
            lemma_inserted(middle, *self, at as int, name, item);
            assert(start@.remove(name).insert(name, item) =~= start@.insert(name, item));
        }
    }
}

proof fn lemma_removed<V: View>(old_table: TextMap<V>, table: TextMap<V>, at: int)
    requires
        old_table.wf(),
        0 <= at < old_table.order().len(),
        table.order() == old_table.order().remove(at),
        table.contents() == old_table.contents().remove(at),
    ensures
        table.wf(),
        table@ == old_table@.remove(old_table.order()[at]),
{
    let key = old_table.order()[at];
    assert forall|i: int, j: int| 0 <= i < j < table.order().len() implies
        #[trigger] crate::text::precedes(table.order()[i], table.order()[j]) by {
        let oi = if i < at { i } else { i + 1 };
        let oj = if j < at { j } else { j + 1 };
        assert(crate::text::precedes(old_table.order()[oi], old_table.order()[oj]));
    }
    assert forall|k: Seq<char>| table@.contains_key(k) implies #[trigger] old_table@.remove(
        key,
    ).contains_key(k) && table@[k] == old_table@[k] by {
        let i = table.lemma_key(k);
        let oi = if i < at { i } else { i + 1 };
        old_table.lemma_position(oi);
        crate::text::lemma_precedes_asymmetric(k, k);
        if oi < at {
            assert(crate::text::precedes(old_table.order()[oi], old_table.order()[at]));
        } else {
            assert(crate::text::precedes(old_table.order()[at], old_table.order()[oi]));
        }
    }
    assert forall|k: Seq<char>| #[trigger] old_table@.remove(key).contains_key(k) implies
        table@.contains_key(k) by {
        let oi = old_table.lemma_key(k);
        let i = if oi < at { oi } else { oi - 1 };
        assert(oi != at);
        assert(table.order()[i] == k);
        table.lemma_position(i);
    }
    assert(table@ =~= old_table@.remove(key));
}

proof fn lemma_inserted<V: View>(
    old_table: TextMap<V>,
    table: TextMap<V>,
    at: int,
    key: Seq<char>,
    value: V::V,
)
    requires
        old_table.wf(),
        0 <= at <= old_table.order().len(),
        !old_table@.contains_key(key),
        forall|i: int|
            0 <= i < at ==> crate::text::precedes(#[trigger] old_table.order()[i], key),
        at < old_table.order().len() ==> !crate::text::precedes(old_table.order()[at], key),
        table.order() == old_table.order().insert(at, key),
        table.contents() == old_table.contents().insert(at, value),
    ensures
        table.wf(),
        table@ == old_table@.insert(key, value),
{
    assert forall|i: int| at <= i < old_table.order().len() implies crate::text::precedes(
        key,
        #[trigger] old_table.order()[i],
    ) by {
        let first = old_table.order()[at];
        old_table.lemma_position(at);
        crate::text::lemma_precedes_total(key, first);
        if i > at {
            assert(crate::text::precedes(first, old_table.order()[i]));
            crate::text::lemma_precedes_transitive(key, first, old_table.order()[i]);
        }
    }
    assert forall|i: int, j: int| 0 <= i < j < table.order().len() implies
        #[trigger] crate::text::precedes(table.order()[i], table.order()[j]) by {
        let oi = if i < at { i } else { i - 1 };
        let oj = if j < at { j } else { j - 1 };
        if i != at && j != at {
            assert(crate::text::precedes(old_table.order()[oi], old_table.order()[oj]));
        }
    }
    assert forall|k: Seq<char>| table@.contains_key(k) implies #[trigger] old_table@.insert(
        key,
        value,
    ).contains_key(k) && table@[k] == old_table@.insert(key, value)[k] by {
        let i = table.lemma_key(k);
        if i != at {
            let oi = if i < at { i } else { i - 1 };
            old_table.lemma_position(oi);
        }
    }
    assert forall|k: Seq<char>| #[trigger] old_table@.insert(key, value).contains_key(k) implies
        table@.contains_key(k) by {
        if k == key {
            table.lemma_position(at);
        } else {
            let oi = old_table.lemma_key(k);
            let i = if oi < at { oi } else { oi + 1 };
            assert(table.order()[i] == k);
            table.lemma_position(i);
        }
    }
    assert(table@ =~= old_table@.insert(key, value));
}

} // verus!
