//! Numbers under names.
use vstd::prelude::*;

verus! {

/// Numbers kept under names, for the few names of a day: the firms that
/// enter orders.
#[derive(Debug, Clone)]
pub struct TextMap {
    names: Vec<String>,
    values: Vec<u64>,
}

impl View for TextMap {
    type V = Map<Seq<char>, u64>;

    closed spec fn view(&self) -> Map<Seq<char>, u64> {
        Map::new(
            |name: Seq<char>| exists|i: int| 0 <= i < self.names@.len() && self.names@[i]@ == name,
            |name: Seq<char>|
                self.values@[choose|i: int| 0 <= i < self.names@.len() && self.names@[i]@ == name],
        )
    }
}

impl TextMap {
    /// Every name is kept once, with one number.
    pub closed spec fn wf(&self) -> bool {
        &&& self.names@.len() == self.values@.len()
        &&& forall|i: int, j: int|
            0 <= i < j < self.names@.len() ==> self.names@[i]@ != self.names@[j]@
    }

    /// How many names are kept.
    pub closed spec fn spec_len(&self) -> nat {
        self.names@.len()
    }

    /// The names and their numbers in the order in which they came.
    pub closed spec fn entries(&self) -> Seq<(Seq<char>, u64)> {
        Seq::new(self.names@.len(), |i: int| (self.names@[i]@, self.values@[i]))
    }

    /// The entries are what the map holds: every name once, with its number.
    pub proof fn lemma_entries(&self)
        requires
            self.wf(),
        ensures
            self.entries().len() == self.spec_len(),
            forall|i: int|
                0 <= i < self.entries().len() ==> self@.contains_key(
                    (#[trigger] self.entries()[i]).0,
                ) && self@[self.entries()[i].0] == self.entries()[i].1,
            forall|name: Seq<char>|
                self@.contains_key(name) ==> exists|i: int|
                    0 <= i < self.entries().len() && (#[trigger] self.entries()[i]).0 == name,
            forall|i: int, j: int|
                0 <= i < j < self.entries().len() ==> self.entries()[i].0 != self.entries()[j].0,
    {
        assert forall|i: int| 0 <= i < self.entries().len() implies self@.contains_key(
            (#[trigger] self.entries()[i]).0,
        ) && self@[self.entries()[i].0] == self.entries()[i].1 by {
            let name = self.names@[i]@;
            let k = choose|k: int| 0 <= k < self.names@.len() && self.names@[k]@ == name;
            assert(k == i);
        }
        assert forall|name: Seq<char>| self@.contains_key(name) implies exists|i: int|
            0 <= i < self.entries().len() && (#[trigger] self.entries()[i]).0 == name by {
            let k = choose|k: int| 0 <= k < self.names@.len() && self.names@[k]@ == name;
            assert(self.entries()[k].0 == name);
        }
    }

    pub fn new() -> (map: Self)
        ensures
            map.wf(),
            map@ == Map::<Seq<char>, u64>::empty(),
            map.spec_len() == 0,
    {
        let map = Self { names: Vec::new(), values: Vec::new() };
        assert(map@ =~= Map::<Seq<char>, u64>::empty());
        map
    }

    /// How many names are kept.
    pub fn len(&self) -> (len: usize)
        ensures
            len == self.spec_len(),
    {
        self.names.len()
    }

    fn position(&self, name: &String) -> (at: Option<usize>)
        requires
            self.wf(),
        ensures
            match at {
                Some(i) => i < self.names@.len() && self.names@[i as int]@ == name@,
                None => forall|i: int| 0 <= i < self.names@.len() ==> self.names@[i]@ != name@,
            },
    {
        let mut i: usize = 0;
        while i < self.names.len()
            invariant
                i <= self.names@.len(),
                forall|j: int| 0 <= j < i ==> self.names@[j]@ != name@,
            decreases self.names@.len() - i,
        {
            if self.names[i] == *name {
                return Some(i);
            }
            i += 1;
        }
        None
    }

    /// The number under a name.
    pub fn get(&self, name: &String) -> (value: Option<u64>)
        requires
            self.wf(),
        ensures
            value == if self@.contains_key(name@) {
                Some(self@[name@])
            } else {
                None
            },
    {
        match self.position(name) {
            Some(i) => {
                proof {
                    let k = choose|k: int| 0 <= k < self.names@.len() && self.names@[k]@ == name@;
                    assert(k == i);
                }
                Some(self.values[i])
            },
            None => None,
        }
    }

    /// Puts a number under a name, in place of the one that was there.
    pub fn insert(&mut self, name: String, value: u64)
        requires
            old(self).wf(),
        ensures
            final(self).wf(),
            final(self)@ == old(self)@.insert(name@, value),
            final(self).spec_len() == if old(self)@.contains_key(name@) {
                old(self).spec_len()
            } else {
                old(self).spec_len() + 1
            },
    {
        match self.position(&name) {
            Some(i) => {
                self.values[i] = value;
                proof {
                    assert forall|n: Seq<char>| #[trigger]
                        self@.contains_key(n) implies self@[n] == old(self)@.insert(
                        name@,
                        value,
                    )[n] by {
                        let k = choose|k: int| 0 <= k < self.names@.len() && self.names@[k]@ == n;
                        let k0 = choose|k: int|
                            0 <= k < old(self).names@.len() && old(self).names@[k]@ == n;
                        assert(k == k0);
                    }
                    assert(self@ =~= old(self)@.insert(name@, value));
                }
            },
            None => {
                self.names.push(name);
                self.values.push(value);
                proof {
                    let last = self.names@.len() - 1;
                    assert(self.names@[last]@ == name@);
                    assert forall|n: Seq<char>|
                        self@.contains_key(n) <==> old(self)@.insert(name@, value).contains_key(
                            n,
                        ) by {
                        if old(self)@.contains_key(n) {
                            let k = choose|k: int|
                                0 <= k < old(self).names@.len() && old(self).names@[k]@ == n;
                            assert(self.names@[k]@ == n);
                        }
                    }
                    assert forall|n: Seq<char>| #[trigger]
                        self@.contains_key(n) implies self@[n] == old(self)@.insert(
                        name@,
                        value,
                    )[n] by {
                        let k = choose|k: int| 0 <= k < self.names@.len() && self.names@[k]@ == n;
                        if n != name@ {
                            let k0 = choose|k: int|
                                0 <= k < old(self).names@.len() && old(self).names@[k]@ == n;
                            assert(self.names@[k0]@ == n);
                            assert(k == k0);
                        } else {
                            assert(k == last);
                        }
                    }
                    assert(self@ =~= old(self)@.insert(name@, value));
                }
            },
        }
    }

    /// The names and their numbers in the order in which they came.
    pub fn to_entries(&self) -> (entries: Vec<(String, u64)>)
        requires
            self.wf(),
        ensures
            entries@.len() == self.entries().len(),
            forall|i: int|
                0 <= i < entries@.len() ==> entries@[i].0@ == self.entries()[i].0 && entries@[i].1
                    == self.entries()[i].1,
    {
        let mut entries: Vec<(String, u64)> = Vec::new();
        let mut i: usize = 0;
        while i < self.names.len()
            invariant
                self.wf(),
                i <= self.names@.len(),
                entries@.len() == i,
                forall|j: int|
                    0 <= j < i ==> (#[trigger] entries@[j]).0@ == self.names@[j]@ && entries@[j].1
                        == self.values@[j],
            decreases self.names@.len() - i,
        {
            let name = self.names[i].clone();
            let value: u64 = self.values[i];
            let ghost before = entries@;
            entries.push((name, value));
            proof {
                assert forall|j: int| 0 <= j < i + 1 implies (#[trigger] entries@[j]).0@
                    == self.names@[j]@ && entries@[j].1 == self.values@[j] by {
                    if j < i {
                        assert(entries@[j] == before[j]);
                    }
                }
            }
            i += 1;
        }
        entries
    }
}

} // verus!
