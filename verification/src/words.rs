//! Machines whose values are all 32-bit words.

use vstd::prelude::*;

use crate::arithmetic;
use crate::semantics;
use crate::semantics::{Machine, ScopeView, SlotView};

verus! {

/// Whether every value in a variable is a 32-bit number.
pub open spec fn slot_of_words(slot: SlotView) -> bool {
    match slot {
        SlotView::Scalar(Some(value)) => arithmetic::is_word(value),
        SlotView::Scalar(None) => true,
        SlotView::Array(values) => forall|i: int|
            0 <= i < values.len() ==> arithmetic::is_word(#[trigger] values[i]),
    }
}

/// Whether every value in a scope is a 32-bit number.
pub open spec fn scope_of_words(scope: ScopeView) -> bool {
    forall|name: Seq<char>| #[trigger] scope.contains_key(name) ==> slot_of_words(scope[name])
}

/// Whether every value that a machine holds is a 32-bit number.
pub open spec fn machine_of_words(m: Machine) -> bool {
    &&& scope_of_words(m.globals)
    &&& forall|i: int| 0 <= i < m.frames.len() ==> scope_of_words(#[trigger] m.frames[i])
}

/// The frame that a name is found in has the name, and no later one does.
pub proof fn lemma_frame_with(frames: Seq<ScopeView>, name: Seq<char>)
    ensures
        match semantics::frame_with(frames, name) {
            Some(i) => {
                &&& 0 <= i < frames.len()
                &&& frames[i].contains_key(name)
                &&& forall|j: int| i < j < frames.len() ==> !(#[trigger] frames[j]).contains_key(name)
            },
            None => forall|j: int|
                0 <= j < frames.len() ==> !(#[trigger] frames[j]).contains_key(name),
        },
    decreases frames.len(),
{
    if frames.len() > 0 && !frames.last().contains_key(name) {
        lemma_frame_with(frames.drop_last(), name);
        assert forall|j: int| 0 <= j < frames.len() - 1 implies #[trigger] frames[j]
            == frames.drop_last()[j] by {}
    }
}

/// What a name stands for in a machine of words is made of words.
pub proof fn lemma_lookup_words(m: Machine, name: Seq<char>)
    requires
        machine_of_words(m),
    ensures
        m.lookup(name) matches Some(slot) ==> slot_of_words(slot),
{
    lemma_frame_with(m.frames, name);
}

/// Storing words in a machine of words gives a machine of words.
pub proof fn lemma_updated_words(m: Machine, name: Seq<char>, slot: SlotView)
    requires
        machine_of_words(m),
        slot_of_words(slot),
    ensures
        machine_of_words(m.updated(name, slot)),
        m.updated(name, slot).frames.len() == m.frames.len(),
{
    lemma_frame_with(m.frames, name);
    let after = m.updated(name, slot);
    match semantics::frame_with(m.frames, name) {
        Some(i) => {
            assert forall|j: int| 0 <= j < after.frames.len() implies scope_of_words(
                #[trigger] after.frames[j],
            ) by {
                assert(scope_of_words(m.frames[j]));
            }
        },
        None => {},
    }
}

/// Storing in a variable what it holds changes nothing.
pub proof fn lemma_updated_same(m: Machine, name: Seq<char>)
    requires
        m.lookup(name) is Some,
    ensures
        m.updated(name, m.lookup(name)->0) == m,
{
    lemma_frame_with(m.frames, name);
    let after = m.updated(name, m.lookup(name)->0);
    match semantics::frame_with(m.frames, name) {
        Some(i) => {
            assert(m.frames[i].insert(name, m.frames[i][name]) =~= m.frames[i]);
            assert(after.frames =~= m.frames);
        },
        None => {
            assert(after.globals =~= m.globals);
        },
    }
}

/// Declaring a variable of words in a machine of words gives a machine of words.
pub proof fn lemma_declared_words(m: Machine, name: Seq<char>, slot: SlotView)
    requires
        machine_of_words(m),
        slot_of_words(slot),
    ensures
        machine_of_words(m.declared(name, slot).0),
        m.declared(name, slot).0.frames.len() == m.frames.len(),
{
    let after = m.declared(name, slot).0;
    if m.frames.len() > 0 {
        assert forall|j: int| 0 <= j < after.frames.len() implies scope_of_words(
            #[trigger] after.frames[j],
        ) by {
            assert(scope_of_words(m.frames[j]));
        }
    }
}

/// A name is found in the same frame where the same frames have it.
pub proof fn lemma_same_frame(frames: Seq<ScopeView>, others: Seq<ScopeView>, name: Seq<char>)
    requires
        frames.len() == others.len(),
        forall|i: int|
            0 <= i < frames.len() ==> (#[trigger] frames[i]).contains_key(name)
                == others[i].contains_key(name),
    ensures
        semantics::frame_with(frames, name) == semantics::frame_with(others, name),
    decreases frames.len(),
{
    if frames.len() > 0 {
        assert(frames[frames.len() - 1].contains_key(name) == others.last().contains_key(name));
        let outer = frames.drop_last();
        assert forall|i: int| 0 <= i < outer.len() implies (#[trigger] outer[i]).contains_key(name)
            == others.drop_last()[i].contains_key(name) by {
            assert(outer[i] == frames[i]);
        }
        lemma_same_frame(outer, others.drop_last(), name);
    }
}

/// What names stand for after one of them was given a new content.
pub proof fn lemma_updated_lookup(m: Machine, name: Seq<char>, slot: SlotView, other: Seq<char>)
    requires
        m.lookup(name) is Some,
    ensures
        m.updated(name, slot).lookup(name) == Some(slot),
        other != name ==> m.updated(name, slot).lookup(other) == m.lookup(other),
{
    let after = m.updated(name, slot);
    lemma_frame_with(m.frames, name);
    lemma_frame_with(m.frames, other);
    lemma_same_frame(m.frames, after.frames, name);
    lemma_same_frame(m.frames, after.frames, other);
}

} // verus!
