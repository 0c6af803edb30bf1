//! Sets of names.

use vstd::prelude::*;

use crate::order;
use crate::order::in_order;
use crate::table::same_text;
use crate::text;

verus! {

/// Whether the texts stand in strictly ascending order.
pub open spec fn ascending(texts: Seq<Seq<char>>) -> bool {
    forall|i: int, j: int|
        0 <= i < j < texts.len() ==> order::text_lt(#[trigger] texts[i], #[trigger] texts[j])
}

/// A set of names, kept in ascending order.
#[derive(Debug, PartialEq, Eq)]
pub struct NameSet {
    names: Vec<String>,
}

impl View for NameSet {
    type V = Set<Seq<char>>;

    closed spec fn view(&self) -> Set<Seq<char>> {
        text::texts(self.names@).to_set()
    }
}

impl NameSet {
    #[verifier::type_invariant]
    closed spec fn inv(self) -> bool {
        ascending(text::texts(self.names@))
    }

    /// The empty set.
    pub fn new() -> (r: Self)
        ensures
            r@ == Set::<Seq<char>>::empty(),
    {
        let r = NameSet { names: Vec::new() };
        assert(r@ =~= Set::<Seq<char>>::empty());
        r
    }

    /// The number of names.
    pub fn len(&self) -> (r: usize)
        ensures
            r == self@.len(),
            self@.finite(),
    {
        proof {
            use_type_invariant(self);
            let texts = text::texts(self.names@);
            assert(texts.no_duplicates());
            texts.unique_seq_to_set();
        }
        self.names.len()
    }

    /// Whether a name is in the set.
    pub fn contains(&self, name: &str) -> (r: bool)
        ensures
            r == self@.contains(name@),
    {
        let ghost texts: Seq<Seq<char>> = text::texts(self.names@);
        let mut i: usize = 0;
        while i < self.names.len()
            invariant
                i <= self.names.len(),
                texts == text::texts(self.names@),
                forall|j: int| 0 <= j < i ==> #[trigger] texts[j] != name@,
            decreases self.names.len() - i,
        {
            if same_text(self.names[i].as_str(), name) {
                assert(texts[i as int] == name@);
                return true;
            }
            i = i + 1;
        }
        false
    }

    /// The set with one more name.
    pub fn with(self, name: String) -> (r: Self)
        ensures
            r@ == self@.insert(name@),
    {
        proof {
            use_type_invariant(&self);
        }
        let ghost before: Seq<Seq<char>> = text::texts(self.names@);
        let mut names = self.names;
        let mut at: usize = 0;
        while at < names.len() && !in_order(name.as_str(), names[at].as_str())
            invariant
                at <= names.len(),
                before == text::texts(names@),
                forall|j: int| 0 <= j < at ==> !order::text_le(name@, #[trigger] before[j]),
            decreases names.len() - at,
        {
            at = at + 1;
        }
        if at < names.len() && same_text(name.as_str(), names[at].as_str()) {
            proof {
                assert(before[at as int] == name@);
                assert(before.to_set() =~= before.to_set().insert(name@));
            }
            return NameSet { names };
        }
        names.insert(at, name);
        proof {
            let after = text::texts(names@);
            assert(after =~= before.insert(at as int, name@));
            lemma_ascending_insert(before, at as int, name@);
            assert forall|key: Seq<char>| after.to_set().contains(key) == before.to_set().insert(
                name@,
            ).contains(key) by {
                if before.contains(key) {
                    let j = choose|j: int| 0 <= j < before.len() && before[j] == key;
                    assert(after[if j < at { j } else { j + 1 }] == key);
                }
                assert(after[at as int] == name@);
            }
            assert(after.to_set() =~= before.to_set().insert(name@));
        }
        NameSet { names }
    }

    /// The names of both sets.
    pub fn union(self, other: &NameSet) -> (r: Self)
        ensures
            r@ == self@.union(other@),
    {
        let ghost start: Set<Seq<char>> = self@;
        let ghost texts: Seq<Seq<char>> = text::texts(other.names@);
        let mut all = self;
        let mut i: usize = 0;
        assert(start.union(texts.take(0).to_set()) =~= start);
        while i < other.names.len()
            invariant
                i <= other.names.len(),
                texts == text::texts(other.names@),
                all@ == start.union(texts.take(i as int).to_set()),
            decreases other.names.len() - i,
        {
            all = all.with(other.names[i].clone());
            proof {
                let now = texts.take(i + 1);
                lemma_taken_set(texts, i as int);
                assert(start.union(now.to_set()) =~= start.union(
                    texts.take(i as int).to_set(),
                ).insert(texts[i as int]));
            }
            i = i + 1;
        }
        assert(texts.take(i as int) =~= texts);
        all
    }

    /// The names in ascending order.
    pub fn into_names(self) -> (r: Vec<String>)
        ensures
            ascending(text::texts(r@)),
            text::texts(r@).to_set() == self@,
    {
        proof {
            use_type_invariant(&self);
        }
        self.names
    }
}

/// Taking one more text adds that text to the set.
pub proof fn lemma_taken_set(texts: Seq<Seq<char>>, i: int)
    requires
        0 <= i < texts.len(),
    ensures
        texts.take(i + 1).to_set() == texts.take(i).to_set().insert(texts[i]),
{
    let now = texts.take(i + 1);
    let before = texts.take(i);
    assert forall|key: Seq<char>| now.to_set().contains(key) == before.to_set().insert(
        texts[i],
    ).contains(key) by {
        if before.contains(key) {
            let j = choose|j: int| 0 <= j < i && before[j] == key;
            assert(now[j] == key);
        }
        if now.contains(key) {
            let j = choose|j: int| 0 <= j < i + 1 && now[j] == key;
            if j < i {
                assert(before[j] == key);
            }
        }
        assert(now[i] == texts[i]);
    }
    assert(now.to_set() =~= before.to_set().insert(texts[i]));
}

impl Clone for NameSet {
    fn clone(&self) -> (r: Self)
        ensures
            r@ == self@,
    {
        let r = NameSet::new().union(self);
        assert(r@ =~= self@);
        r
    }
}

proof fn lemma_ascending_insert(texts: Seq<Seq<char>>, at: int, name: Seq<char>)
    requires
        ascending(texts),
        0 <= at <= texts.len(),
        forall|i: int| 0 <= i < at ==> !order::text_le(name, #[trigger] texts[i]),
        at < texts.len() ==> order::text_lt(name, texts[at]),
    ensures
        ascending(texts.insert(at, name)),
{
    let after = texts.insert(at, name);
    assert forall|i: int, j: int| 0 <= i < j < after.len() implies order::text_lt(
        #[trigger] after[i],
        #[trigger] after[j],
    ) by {
        if i < at && j == at {
            order::law_text_order_is_total(name, texts[i]);
        } else if i == at && j - 1 > at {
            order::law_text_order_is_transitive(name, texts[at], texts[j - 1]);
            order::law_text_order_is_total(texts[at], texts[j - 1]);
        }
    }
}

} // verus!
