//! The pads of a chain of performance effects.
//!
//! Each slot of a chain has a pad that is either held down or up. Pressing a pad
//! that is up, or releasing one that is held, is a change that the effect of
//! the slot has to be told about; pressing a held pad or releasing one that is
//! up changes nothing, and so does any action on a slot that does not exist.

use vstd::prelude::*;

use super::buffer::copy_vec;

verus! {

/// The pads after `slot` was pressed.
pub open spec fn pressed(pads: Seq<bool>, slot: int) -> Seq<bool> {
    if 0 <= slot < pads.len() {
        pads.update(slot, true)
    } else {
        pads
    }
}

/// The pads after `slot` was released.
pub open spec fn released(pads: Seq<bool>, slot: int) -> Seq<bool> {
    if 0 <= slot < pads.len() {
        pads.update(slot, false)
    } else {
        pads
    }
}

/// Whether `slot` exists and its pad is held down.
pub open spec fn held(pads: Seq<bool>, slot: int) -> bool {
    0 <= slot < pads.len() && pads[slot]
}

/// The slots among the first `n` whose pads are held down, in increasing order.
pub open spec fn held_slots(pads: Seq<bool>, n: nat) -> Seq<usize>
    decreases n,
{
    if n == 0 {
        Seq::empty()
    } else {
        let before = held_slots(pads, (n - 1) as nat);
        if held(pads, n - 1) {
            before.push((n - 1) as usize)
        } else {
            before
        }
    }
}

/// The pad states of the slots of a chain, in slot order. The view holds, for
/// each slot, whether its pad is held down.
#[derive(Debug)]
pub struct Pads {
    engaged: Vec<bool>,
}

impl View for Pads {
    type V = Seq<bool>;

    closed spec fn view(&self) -> Seq<bool> {
        self.engaged@
    }
}

impl Clone for Pads {
    /// A copy of the pads, in the same states.
    fn clone(&self) -> (r: Self)
        ensures
            r@ == self@,
    {
        Pads { engaged: copy_vec(&self.engaged) }
    }
}

impl Pads {
    /// Creates the pads of a chain without slots.
    pub fn new() -> (r: Self)
        ensures
            r@ == Seq::<bool>::empty(),
    {
        Pads { engaged: Vec::new() }
    }

    /// Adds the pad of a new slot, up, and returns the index of the slot.
    pub fn add(&mut self) -> (r: usize)
        ensures
            final(self)@ == old(self)@.push(false),
            r == old(self)@.len(),
    {
        self.engaged.push(false);
        self.engaged.len() - 1
    }

    /// Returns the number of slots.
    pub fn num_slots(&self) -> (r: usize)
        ensures
            r == self@.len(),
    {
        self.engaged.len()
    }

    /// Releases every pad without telling the effects, as the chain does when
    /// it is initialized or reset.
    pub fn reset(&mut self)
        ensures
            final(self)@ == Seq::new(old(self)@.len(), |k: int| false),
    {
        let len = self.engaged.len();
        let mut n: usize = 0;
        while n < len
            invariant
                n <= len,
                self.engaged@.len() == len,
                len == old(self)@.len(),
                forall|k: int| 0 <= k < n ==> !self.engaged@[k],
            decreases len - n,
        {
            self.engaged[n] = false;
            n = n + 1;
        }
        assert(self@ =~= Seq::new(old(self)@.len(), |k: int| false));
    }

    /// Presses the pad of a slot. Returns `true` when the pad was up, that is
    /// when the effect of the slot has to be engaged.
    pub fn engage(&mut self, slot: usize) -> (r: bool)
        ensures
            final(self)@ == pressed(old(self)@, slot as int),
            r == (slot < old(self)@.len() && !old(self)@[slot as int]),
    {
        if slot < self.engaged.len() && !self.engaged[slot] {
            self.engaged[slot] = true;
            true
        } else {
            proof {
                if slot < old(self)@.len() {
                    assert(old(self)@.update(slot as int, true) =~= old(self)@);
                }
            }
            false
        }
    }

    /// Releases the pad of a slot. Returns `true` when the pad was held down,
    /// that is when the effect of the slot has to be released.
    pub fn release(&mut self, slot: usize) -> (r: bool)
        ensures
            final(self)@ == released(old(self)@, slot as int),
            r == held(old(self)@, slot as int),
    {
        if slot < self.engaged.len() && self.engaged[slot] {
            self.engaged[slot] = false;
            true
        } else {
            proof {
                if slot < old(self)@.len() {
                    assert(old(self)@.update(slot as int, false) =~= old(self)@);
                }
            }
            false
        }
    }

    /// Releases the pads of all slots. Returns the slots whose pads were held
    /// down, in increasing order: their effects have to be released, in that
    /// order.
    pub fn release_all(&mut self) -> (r: Vec<usize>)
        ensures
            final(self)@ == Seq::new(old(self)@.len(), |k: int| false),
            r@ == held_slots(old(self)@, old(self)@.len()),
    {
        let len = self.engaged.len();
        let mut slots: Vec<usize> = Vec::new();
        let mut index: usize = 0;
        while index < len
            invariant
                index <= len,
                len == old(self)@.len(),
                self@.len() == len,
                forall|k: int| 0 <= k < index ==> !self@[k],
                forall|k: int| index <= k < len ==> self@[k] == old(self)@[k],
                slots@ == held_slots(old(self)@, index as nat),
            decreases len - index,
        {
            if self.release(index) {
                slots.push(index);
            }
            index = index + 1;
        }
        assert(self@ =~= Seq::new(old(self)@.len(), |k: int| false));
        slots
    }

    /// Returns `true` while the pad of a slot is held down; `false` for a slot
    /// that does not exist.
    pub fn is_engaged(&self, slot: usize) -> (r: bool)
        ensures
            r == held(self@, slot as int),
    {
        slot < self.engaged.len() && self.engaged[slot]
    }
}

/// `release_all` reports exactly the held pads: the slots it returns are held,
/// in strictly increasing order, and every held slot among the first `n`
/// is among them.
pub proof fn lemma_held_slots_are_the_held_pads(pads: Seq<bool>, n: nat)
    requires
        n <= pads.len(),
        n <= usize::MAX,
    ensures
        forall|k: int|
            0 <= k < held_slots(pads, n).len() ==> {
                &&& (#[trigger] held_slots(pads, n)[k]) < n
                &&& held(pads, held_slots(pads, n)[k] as int)
            },
        forall|j: int, k: int|
            0 <= j < k < held_slots(pads, n).len() ==> #[trigger] held_slots(pads, n)[j]
                < #[trigger] held_slots(pads, n)[k],
        forall|slot: int|
            0 <= slot < n && #[trigger] held(pads, slot) ==> held_slots(pads, n).contains(
                slot as usize,
            ),
    decreases n,
{
    if n > 0 {
        lemma_held_slots_are_the_held_pads(pads, (n - 1) as nat);
        let before = held_slots(pads, (n - 1) as nat);
        let after = held_slots(pads, n);
        if held(pads, n - 1) {
            let last = (n - 1) as usize;
            assert(after == before.push(last));
            assert(last as int == n - 1);
            assert forall|k: int| 0 <= k < after.len() implies {
                &&& (#[trigger] after[k]) < n
                &&& held(pads, after[k] as int)
            } by {
                if k < before.len() {
                    assert(after[k] == before[k]);
                }
            }
            assert forall|j: int, k: int| 0 <= j < k < after.len() implies #[trigger] after[j]
                < #[trigger] after[k] by {
                assert(after[j] == before[j]);
                if k < before.len() {
                    assert(after[k] == before[k]);
                }
            }
            assert forall|slot: int| 0 <= slot < n && #[trigger] held(pads, slot) implies after.contains(
                slot as usize,
            ) by {
                if slot < n - 1 {
                    assert(before.contains(slot as usize));
                    let k = choose|k: int| 0 <= k < before.len() && before[k] == slot as usize;
                    assert(after[k] == slot as usize);
                } else {
                    assert(after[before.len() as int] == slot as usize);
                }
            }
        } else {
            assert(after == before);
            assert forall|slot: int| 0 <= slot < n && #[trigger] held(pads, slot) implies after.contains(
                slot as usize,
            ) by {
                assert(slot < n - 1);
            }
        }
    }
}

/// A press holds the pad down, and a second press changes nothing.
pub proof fn lemma_press_holds(pads: Seq<bool>, slot: int)
    requires
        0 <= slot < pads.len(),
    ensures
        held(pressed(pads, slot), slot),
        pressed(pressed(pads, slot), slot) == pressed(pads, slot),
{
    assert(pressed(pressed(pads, slot), slot) =~= pressed(pads, slot));
}

/// A release lifts the pad, and a second release changes nothing.
pub proof fn lemma_release_lifts(pads: Seq<bool>, slot: int)
    ensures
        !held(released(pads, slot), slot),
        released(released(pads, slot), slot) == released(pads, slot),
{
    assert(released(released(pads, slot), slot) =~= released(pads, slot));
}

/// Pressing and then releasing a pad that was up leaves all pads as they were.
pub proof fn lemma_press_release_restores(pads: Seq<bool>, slot: int)
    requires
        !held(pads, slot),
    ensures
        released(pressed(pads, slot), slot) == pads,
{
    if 0 <= slot < pads.len() {
        assert(released(pressed(pads, slot), slot) =~= pads);
    }
}

/// Pressing or releasing one pad leaves every other pad as it was.
pub proof fn lemma_pads_independent(pads: Seq<bool>, slot: int, other: int)
    requires
        slot != other,
    ensures
        held(pressed(pads, slot), other) == held(pads, other),
        held(released(pads, slot), other) == held(pads, other),
{
}

} // verus!
