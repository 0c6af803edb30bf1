//! Tables: finite maps from names to values.

use vstd::prelude::*;
use vstd::utf8;

verus! {

/// Whether two texts are the same.
pub fn same_text(a: &str, b: &str) -> (r: bool)
    ensures
        r == (a@ == b@),
{
    let left = a.as_bytes();
    let right = b.as_bytes();
    proof {
        utf8::encode_utf8_decode_utf8(a@);
        utf8::encode_utf8_decode_utf8(b@);
    }
    if left.len() != right.len() {
        return false;
    }
    let mut i: usize = 0;
    while i < left.len()
        invariant
            i <= left.len(),
            left@.len() == right@.len(),
            left@ == utf8::encode_utf8(a@),
            right@ == utf8::encode_utf8(b@),
            forall|j: int| 0 <= j < i ==> left@[j] == right@[j],
        decreases left.len() - i,
    {
        if left[i] != right[i] {
            return false;
        }
        i = i + 1;
    }
    assert(left@ =~= right@);
    true
}

/// A finite map from names to values.
pub struct Table<V> {
    entries: Vec<(String, V)>,
}

impl<V: View> View for Table<V> {
    type V = Map<Seq<char>, V::V>;

    closed spec fn view(&self) -> Map<Seq<char>, V::V> {
        Map::new(
            |name: Seq<char>| exists|i: int| 0 <= i < self.entries.len() && self.entries[i].0@ == name,
            |name: Seq<char>|
                self.entries[choose|i: int|
                    0 <= i < self.entries.len() && self.entries[i].0@ == name].1@,
        )
    }
}

impl<V: View> Table<V> {
    /// No name occurs twice.
    pub closed spec fn wf(&self) -> bool {
        forall|i: int, j: int|
            0 <= i < j < self.entries.len() ==> self.entries[i].0@ != self.entries[j].0@
    }

    /// The entry at `i` is the one that the view holds.
    proof fn lemma_entry(&self, i: int)
        requires
            self.wf(),
            0 <= i < self.entries.len(),
        ensures
            self@.contains_key(self.entries[i].0@),
            self@[self.entries[i].0@] == self.entries[i].1@,
    {
    }

    /// Exchanging the value at `i` gives the name there that value.
    proof fn lemma_exchanged(before: Self, after: Self, i: int)
        requires
            before.wf(),
            0 <= i < before.entries.len(),
            after.entries.len() == before.entries.len(),
            after.entries[i].0@ == before.entries[i].0@,
            forall|j: int|
                0 <= j < before.entries.len() && j != i ==> after.entries[j] == before.entries[j],
        ensures
            after.wf(),
            after@ == before@.insert(before.entries[i].0@, after.entries[i].1@),
    {
        let expected = before@.insert(before.entries[i].0@, after.entries[i].1@);
        assert forall|j: int| 0 <= j < before.entries.len() implies #[trigger] after.entries[j].0@
            == before.entries[j].0@ by {}
        assert forall|name: Seq<char>| #[trigger] after@.contains_key(name)
            == expected.contains_key(name) by {
            if after@.contains_key(name) {
                let j = choose|j: int| 0 <= j < after.entries.len() && after.entries[j].0@ == name;
                before.lemma_entry(j);
            }
            if before@.contains_key(name) {
                let j = choose|j: int|
                    0 <= j < before.entries.len() && before.entries[j].0@ == name;
                after.lemma_entry(j);
            }
            after.lemma_entry(i);
        }
        assert forall|name: Seq<char>| #[trigger] after@.contains_key(name) implies after@[name]
            == expected[name] by {
            let j = choose|j: int| 0 <= j < after.entries.len() && after.entries[j].0@ == name;
            after.lemma_entry(j);
            before.lemma_entry(j);
        }
        assert(after@ =~= expected);
    }

    /// Appending an entry with a new name gives that name its value.
    proof fn lemma_appended(before: Self, after: Self)
        requires
            before.wf(),
            after.entries.len() == before.entries.len() + 1,
            !before@.contains_key(after.entries[before.entries.len() as int].0@),
            forall|j: int|
                0 <= j < before.entries.len() ==> after.entries[j] == before.entries[j],
        ensures
            after.wf(),
            after@ == before@.insert(
                after.entries[before.entries.len() as int].0@,
                after.entries[before.entries.len() as int].1@,
            ),
    {
        let n = before.entries.len() as int;
        let expected = before@.insert(after.entries[n].0@, after.entries[n].1@);
        assert forall|j: int| 0 <= j < n implies #[trigger] after.entries[j].0@
            != after.entries[n].0@ by {
            before.lemma_entry(j);
        }
        assert forall|name: Seq<char>| #[trigger] after@.contains_key(name)
            == expected.contains_key(name) by {
            if after@.contains_key(name) {
                let j = choose|j: int| 0 <= j < after.entries.len() && after.entries[j].0@ == name;
                if j < n {
                    before.lemma_entry(j);
                }
            }
            if before@.contains_key(name) {
                let j = choose|j: int|
                    0 <= j < before.entries.len() && before.entries[j].0@ == name;
                after.lemma_entry(j);
            }
            after.lemma_entry(n);
        }
        assert forall|name: Seq<char>| #[trigger] after@.contains_key(name) implies after@[name]
            == expected[name] by {
            let j = choose|j: int| 0 <= j < after.entries.len() && after.entries[j].0@ == name;
            after.lemma_entry(j);
            if j < n {
                before.lemma_entry(j);
            }
        }
        assert(after@ =~= expected);
    }

    /// An empty table.
    pub fn new() -> (r: Self)
        ensures
            r.wf(),
            r@ == Map::<Seq<char>, V::V>::empty(),
    {
        let r = Table { entries: Vec::new() };
        assert(r@ =~= Map::<Seq<char>, V::V>::empty());
        r
    }

    fn position(&self, name: &str) -> (r: Option<usize>)
        requires
            self.wf(),
        ensures
            match r {
                Some(i) => i < self.entries.len() && self.entries[i as int].0@ == name@,
                None => !self@.contains_key(name@),
            },
    {
        let mut i: usize = 0;
        while i < self.entries.len()
            invariant
                i <= self.entries.len(),
                forall|j: int| 0 <= j < i ==> self.entries[j].0@ != name@,
            decreases self.entries.len() - i,
        {
            if same_text(self.entries[i].0.as_str(), name) {
                return Some(i);
            }
            i = i + 1;
        }
        None
    }

    /// The value of a name.
    pub fn get(&self, name: &str) -> (r: Option<&V>)
        requires
            self.wf(),
        ensures
            match r {
                Some(value) => self@.contains_key(name@) && self@[name@] == value@,
                None => !self@.contains_key(name@),
            },
    {
        match self.position(name) {
            Some(i) => {
                proof {
                    self.lemma_entry(i as int);
                }
                Some(&self.entries[i].1)
            },
            None => None,
        }
    }

    /// The value of a name, for change.
    pub fn get_mut(&mut self, name: &str) -> (r: Option<&mut V>)
        requires
            old(self).wf(),
        ensures
            final(self).wf(),
            r is Some <==> old(self)@.contains_key(name@),
            r matches Some(value) ==> value@ == old(self)@[name@],
            r matches Some(value) ==> final(self)@ == old(self)@.insert(name@, final(value)@),
            r is None ==> final(self)@ == old(self)@,
    {
        match self.position(name) {
            Some(i) => {
                proof {
                    let before = *self;
                    before.lemma_entry(i as int);
                    assert forall|after: Self|
                        #![trigger after.wf()]
                        #![trigger after@]
                        {
                            &&& after.entries.len() == before.entries.len()
                            &&& after.entries[i as int].0@ == before.entries[i as int].0@
                            &&& forall|j: int|
                                0 <= j < before.entries.len() && j != i ==> after.entries[j]
                                    == before.entries[j]
                        } implies after.wf() && after@ == before@.insert(
                        name@,
                        after.entries[i as int].1@,
                    ) by {
                        Self::lemma_exchanged(before, after, i as int);
                    }
                }
                Some(&mut self.entries[i].1)
            },
            None => None,
        }
    }

    /// Gives a name a value, in place of the one that it had.
    pub fn insert(&mut self, name: String, value: V)
        requires
            old(self).wf(),
        ensures
            final(self).wf(),
            final(self)@ == old(self)@.insert(name@, value@),
    {
        match self.position(name.as_str()) {
            Some(i) => {
                self.entries.set(i, (name, value));
                proof {
                    Self::lemma_exchanged(*old(self), *self, i as int);
                }
            },
            None => {
                self.entries.push((name, value));
                proof {
                    Self::lemma_appended(*old(self), *self);
                }
            },
        }
    }
}

} // verus!
