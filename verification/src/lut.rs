//! The lookup table from a register state to its place in the sequence.
//!
//! States are kept in the order in which they were pushed; the place of a state
//! is its index in that order. To find a state again without walking the whole
//! table, every state belongs to one of a fixed number of buckets, chosen by its
//! low bits, and the states of one bucket are chained from the latest to the
//! earliest.

use vstd::prelude::*;

verus! {

/// Number of buckets of a table.
pub const BUCKETS: usize = 65536;

/// Stands for "no slot" at the end of a chain and in an empty bucket.
pub const NO_SLOT: u32 = 0xffff_ffff;

/// Largest number of states that a table holds: every index fits an `i32`.
pub const MAX_SLOTS: u32 = 0x7fff_ffff;

/// The bucket that `state` belongs to.
pub open spec fn bucket(state: u32) -> int {
    (state % 65536) as int
}

/// `slot` is the last index below `end` at which `states` holds a state of
/// bucket `b`, or `NO_SLOT` if there is no such index.
pub open spec fn latest_in_bucket(states: Seq<u32>, b: int, end: int, slot: u32) -> bool {
    if slot == NO_SLOT {
        forall|j: int| 0 <= j < end ==> bucket(#[trigger] states[j]) != b
    } else {
        &&& slot < end
        &&& bucket(states[slot as int]) == b
        &&& forall|j: int| slot < j < end ==> bucket(#[trigger] states[j]) != b
    }
}

/// Where `state` stands in `states`: its last index, or `None` if it does not
/// occur.
pub open spec fn position_of(states: Seq<u32>, state: u32, at: Option<u32>) -> bool {
    match at {
        Some(i) => {
            &&& i < states.len()
            &&& states[i as int] == state
            &&& forall|j: int| i < j < states.len() ==> states[j] != state
        },
        None => forall|j: int| 0 <= j < states.len() ==> states[j] != state,
    }
}

/// A table of register states, indexed by the order in which they were pushed.
pub struct Lut {
    slots: Vec<u32>,
    links: Vec<u32>,
    heads: Vec<u32>,
}

impl View for Lut {
    type V = Seq<u32>;

    /// The states of the table, in the order in which they were pushed.
    closed spec fn view(&self) -> Seq<u32> {
        self.slots@
    }
}

impl Lut {
    /// The chains are intact: every bucket leads to its latest state, and every
    /// state to the one before it in the same bucket.
    pub closed spec fn wf(&self) -> bool {
        &&& self.heads@.len() == BUCKETS
        &&& self.links@.len() == self.slots@.len()
        &&& self.slots@.len() <= MAX_SLOTS
        &&& forall|b: int|
            0 <= b < BUCKETS ==> latest_in_bucket(
                self.slots@,
                b,
                self.slots@.len() as int,
                #[trigger] self.heads@[b],
            )
        &&& forall|i: int|
            0 <= i < self.slots@.len() ==> latest_in_bucket(
                self.slots@,
                bucket(self.slots@[i]),
                i,
                #[trigger] self.links@[i],
            )
    }

    /// An empty table.
    pub fn new() -> (lut: Lut)
        ensures
            lut.wf(),
            lut@ == Seq::<u32>::empty(),
    {
        let mut heads: Vec<u32> = Vec::new();
        while heads.len() < BUCKETS
            invariant
                heads@.len() <= BUCKETS,
                forall|b: int| 0 <= b < heads@.len() ==> heads@[b] == NO_SLOT,
            decreases BUCKETS - heads@.len(),
        {
            heads.push(NO_SLOT);
        }
        Lut { slots: Vec::new(), links: Vec::new(), heads }
    }

    /// The number of states in the table.
    pub fn len(&self) -> (n: usize)
        ensures
            n == self@.len(),
    {
        self.slots.len()
    }

    /// Appends `state` to the table: its index is the number of states that the
    /// table held before.
    pub fn push(&mut self, state: u32)
        requires
            old(self).wf(),
            old(self)@.len() < MAX_SLOTS,
        ensures
            final(self).wf(),
            final(self)@ == old(self)@.push(state),
    {
        let slot: u32 = self.slots.len() as u32;
        let b: usize = (state % 65536) as usize;
        let before: u32 = self.heads[b];
        self.slots.push(state);
        self.links.push(before);
        self.heads[b] = slot;
        proof {
            let was = old(self).slots@;
            let now = self.slots@;
            assert forall|c: int| 0 <= c < BUCKETS implies latest_in_bucket(
                now,
                c,
                now.len() as int,
                #[trigger] self.heads@[c],
            ) by {
                if c != b {
                    assert(latest_in_bucket(was, c, was.len() as int, old(self).heads@[c]));
                }
            }
            assert forall|i: int| 0 <= i < now.len() implies latest_in_bucket(
                now,
                bucket(now[i]),
                i,
                #[trigger] self.links@[i],
            ) by {
                if i < was.len() {
                    assert(latest_in_bucket(was, bucket(was[i]), i, old(self).links@[i]));
                } else {
                    assert(latest_in_bucket(was, b as int, was.len() as int, old(self).heads@[b as int]));
                }
            }
        }
    }

    /// The index of `state` in the table, or `None` if the table does not hold
    /// it. Only the states of one bucket are compared.
    pub fn lookup(&self, state: u32) -> (at: Option<u32>)
        requires
            self.wf(),
        ensures
            position_of(self@, state, at),
    {
        let b: usize = (state % 65536) as usize;
        let mut slot: u32 = self.heads[b];
        let ghost mut end: int = self.slots@.len() as int;
        while slot != NO_SLOT
            invariant
                self.wf(),
                b == bucket(state),
                0 <= end <= self.slots@.len(),
                latest_in_bucket(self.slots@, b as int, end, slot),
                forall|j: int| end <= j < self.slots@.len() ==> self.slots@[j] != state,
            decreases end,
        {
            if self.slots[slot as usize] == state {
                return Some(slot);
            }
            proof {
                end = slot as int;
            }
            slot = self.links[slot as usize];
        }
        None
    }
}

} // verus!
