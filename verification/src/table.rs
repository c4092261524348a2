//! A table from strings to values.

use vstd::prelude::*;
use crate::text::str_eq;

verus! {

/// A table from strings to values.
pub struct Table<V> {
    slots: Vec<(String, V)>,
}

/// What a list of slots stands for.
spec fn slots_view<V: View>(slots: Seq<(String, V)>) -> Map<Seq<char>, V::V>
    decreases slots.len(),
{
    if slots.len() == 0 {
        Map::empty()
    } else {
        slots_view(slots.drop_last()).insert(slots.last().0@, slots.last().1@)
    }
}

/// No key has two slots.
spec fn slots_distinct<V>(slots: Seq<(String, V)>) -> bool {
    forall|i: int, j: int|
        0 <= i < j < slots.len() ==> (#[trigger] slots[i]).0@ != (#[trigger] slots[j]).0@
}

impl<V: View> View for Table<V> {
    type V = Map<Seq<char>, V::V>;

    closed spec fn view(&self) -> Map<Seq<char>, V::V> {
        slots_view(self.slots@)
    }
}

proof fn lemma_slots_shorter<V>(slots: Seq<(String, V)>)
    requires
        slots_distinct(slots),
        slots.len() > 0,
    ensures
        slots_distinct(slots.drop_last()),
{
    let shorter = slots.drop_last();
    assert forall|a: int, b: int| 0 <= a < b < shorter.len() implies (#[trigger] shorter[a]).0@ != (
    #[trigger] shorter[b]).0@ by {
        assert(slots[a].0@ != slots[b].0@);
    }
}

proof fn lemma_slots_keys<V: View>(slots: Seq<(String, V)>, key: Seq<char>)
    ensures
        slots_view(slots).contains_key(key) <==> exists|i: int|
            0 <= i < slots.len() && (#[trigger] slots[i]).0@ == key,
    decreases slots.len(),
{
    if slots.len() > 0 {
        let shorter = slots.drop_last();
        lemma_slots_keys(shorter, key);
        if slots_view(slots).contains_key(key) {
            if slots.last().0@ != key {
                let i = choose|i: int| 0 <= i < shorter.len() && (#[trigger] shorter[i]).0@ == key;
                assert(slots[i].0@ == key);
            } else {
                assert(slots[slots.len() - 1].0@ == key);
            }
        }
        if exists|i: int| 0 <= i < slots.len() && (#[trigger] slots[i]).0@ == key {
            let i = choose|i: int| 0 <= i < slots.len() && (#[trigger] slots[i]).0@ == key;
            if i < slots.len() - 1 {
                assert(shorter[i].0@ == key);
            }
        }
    }
}

proof fn lemma_slots_remove<V: View>(slots: Seq<(String, V)>, i: int)
    requires
        slots_distinct(slots),
        0 <= i < slots.len(),
    ensures
        slots_view(slots).contains_key(slots[i].0@),
        slots_view(slots)[slots[i].0@] == slots[i].1@,
        slots_view(slots.remove(i)) == slots_view(slots).remove(slots[i].0@),
        slots_distinct(slots.remove(i)),
    decreases slots.len(),
{
    let key = slots[i].0@;
    let shorter = slots.drop_last();
    let left = slots.remove(i);
    lemma_slots_shorter(slots);
    assert(slots_distinct(left)) by {
        assert forall|a: int, b: int| 0 <= a < b < left.len() implies (#[trigger] left[a]).0@ != (
        #[trigger] left[b]).0@ by {
            let a1 = if a < i {
                a
            } else {
                a + 1
            };
            let b1 = if b < i {
                b
            } else {
                b + 1
            };
            assert(slots[a1].0@ != slots[b1].0@);
        }
    }
    if i == slots.len() - 1 {
        assert(left =~= shorter);
        lemma_slots_keys(shorter, key);
        assert(!slots_view(shorter).contains_key(key)) by {
            if slots_view(shorter).contains_key(key) {
                let j = choose|j: int| 0 <= j < shorter.len() && (#[trigger] shorter[j]).0@ == key;
                assert(slots[j].0@ != slots[i].0@);
            }
        }
        assert(slots_view(left) =~= slots_view(slots).remove(key));
    } else {
        lemma_slots_remove(shorter, i);
        assert(left.drop_last() =~= shorter.remove(i));
        assert(slots[i].0@ != slots[slots.len() - 1].0@);
        assert(slots_view(left) =~= slots_view(slots).remove(key));
    }
}

impl<V: View> Table<V> {
    /// The invariant of a table: no key has two slots.
    pub closed spec fn wf(&self) -> bool {
        slots_distinct(self.slots@)
    }

    /// The empty table.
    pub fn new() -> (r: Self)
        ensures
            r.wf(),
            r@ == Map::<Seq<char>, V::V>::empty(),
    {
        Table { slots: Vec::new() }
    }

    /// Whether the table holds nothing.
    pub fn is_empty(&self) -> (r: bool)
        ensures
            r == (self@ == Map::<Seq<char>, V::V>::empty()),
    {
        if self.slots.len() > 0 {
            assert(self@.contains_key(self.slots@.last().0@));
            false
        } else {
            true
        }
    }

    fn position(&self, key: &str) -> (r: Option<usize>)
        ensures
            match r {
                Some(i) => i < self.slots@.len() && self.slots@[i as int].0@ == key@,
                None => !self@.contains_key(key@),
            },
    {
        let mut i: usize = 0;
        while i < self.slots.len()
            invariant
                i <= self.slots@.len(),
                forall|j: int| 0 <= j < i ==> (#[trigger] self.slots@[j]).0@ != key@,
            decreases self.slots@.len() - i,
        {
            if str_eq(self.slots[i].0.as_str(), key) {
                return Some(i);
            }
            i += 1;
        }
        proof {
            lemma_slots_keys(self.slots@, key@);
        }
        None
    }

    /// The value under a key.
    pub fn get(&self, key: &str) -> (r: Option<&V>)
        requires
            self.wf(),
        ensures
            match r {
                Some(v) => self@.contains_key(key@) && self@[key@] == v@,
                None => !self@.contains_key(key@),
            },
    {
        match self.position(key) {
            Some(i) => {
                proof {
                    lemma_slots_remove(self.slots@, i as int);
                }
                Some(&self.slots[i].1)
            },
            None => None,
        }
    }

    /// Whether a key has a value.
    pub fn contains_key(&self, key: &str) -> (r: bool)
        requires
            self.wf(),
        ensures
            r == self@.contains_key(key@),
    {
        self.get(key).is_some()
    }

    /// Takes a key and its value out.
    pub fn remove(&mut self, key: &str) -> (r: Option<V>)
        requires
            old(self).wf(),
        ensures
            final(self).wf(),
            final(self)@ == old(self)@.remove(key@),
            match r {
                Some(v) => old(self)@.contains_key(key@) && old(self)@[key@] == v@,
                None => !old(self)@.contains_key(key@),
            },
    {
        match self.position(key) {
            Some(i) => {
                proof {
                    lemma_slots_remove(self.slots@, i as int);
                }
                let (_, value) = self.slots.remove(i);
                Some(value)
            },
            None => {
                assert(self@.remove(key@) =~= self@);
                None
            },
        }
    }

    /// Sets the value under a key.
    pub fn insert(&mut self, key: &str, value: V)
        requires
            old(self).wf(),
        ensures
            final(self).wf(),
            final(self)@ == old(self)@.insert(key@, value@),
    {
        let _ = self.remove(key);
        let ghost before = self.slots@;
        self.slots.push((key.to_owned(), value));
        proof {
            assert(self.slots@.drop_last() =~= before);
            lemma_slots_keys(before, key@);
            assert forall|a: int, b: int| 0 <= a < b < self.slots@.len() implies (
            #[trigger] self.slots@[a]).0@ != (#[trigger] self.slots@[b]).0@ by {
                assert(before[a].0@ == self.slots@[a].0@);
                if b < before.len() {
                    assert(before[a].0@ != before[b].0@);
                }
            }
            assert(self@ =~= old(self)@.insert(key@, value@));
        }
    }
}

/// A place in a list.
pub struct Place {
    pub at: usize,
}

impl View for Place {
    type V = nat;

    open spec fn view(&self) -> nat {
        self.at as nat
    }
}

} // verus!
