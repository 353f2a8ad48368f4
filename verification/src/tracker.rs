//! Which record belongs to which point.

use crate::error::GridstoreError;
use vstd::prelude::*;

verus! {

/// The number of a point.
pub type PointOffset = u32;

/// Where a record stands: its page, its first block in the page, and its length in bytes.
#[derive(Clone, Copy, Debug, PartialEq, Eq, Structural)]
pub struct ValuePointer {
    pub page_id: u32,
    pub block_offset: u32,
    pub length: u32,
}

/// What is known of a point: where its record stands, that it has none, or why that could not be
/// read.
pub type Slot = Result<Option<ValuePointer>, GridstoreError>;

/// The slots of the points, one after the other from point 0.
#[derive(Debug)]
pub struct Tracker {
    pub slots: Vec<Slot>,
}

impl Tracker {
    /// The number of slots is the number of a point.
    pub open spec fn wf(self) -> bool {
        self.slots@.len() <= u32::MAX
    }

    /// What is known of a point. A point beyond the slots has no record.
    pub open spec fn slot(self, offset: int) -> Slot {
        if 0 <= offset < self.slots@.len() {
            self.slots@[offset]
        } else {
            Ok(None)
        }
    }

    /// A tracker without slots.
    pub fn new() -> (tracker: Tracker)
        ensures
            tracker.wf(),
            tracker.slots@.len() == 0,
    {
        Tracker { slots: Vec::new() }
    }

    /// One more than the last point that has a slot.
    pub fn pointer_count(&self) -> (count: PointOffset)
        requires
            self.wf(),
        ensures
            count == self.slots@.len(),
    {
        self.slots.len() as u32
    }

    /// What is known of a point.
    pub fn get(&self, offset: PointOffset) -> (slot: Slot)
        ensures
            slot == self.slot(offset as int),
    {
        if (offset as u64) < self.slots.len() as u64 {
            match &self.slots[offset as usize] {
                Ok(pointer) => Ok(*pointer),
                Err(error) => Err(error.duplicate()),
            }
        } else {
            Ok(None)
        }
    }

    /// Sets what is known of a point. The slots in front of it that were not there are empty.
    pub fn set(&mut self, offset: PointOffset, slot: Slot)
        requires
            old(self).wf(),
            offset < u32::MAX,
            offset < usize::MAX,
        ensures
            final(self).wf(),
            final(self).slots@.len() == if old(self).slots@.len() > offset {
                old(self).slots@.len() as int
            } else {
                offset + 1
            },
            forall|i: int| #[trigger]
                final(self).slot(i) == if i == offset {
                    slot
                } else {
                    old(self).slot(i)
                },
    {
        let index = offset as usize;
        while self.slots.len() <= index
            invariant
                index < u32::MAX,
                index < usize::MAX,
                self.wf(),
                old(self).slots@.len() <= self.slots@.len(),
                self.slots@.len() <= index + 1 || self.slots@.len() == old(self).slots@.len(),
                forall|i: int| #[trigger] self.slot(i) == old(self).slot(i),
            decreases index + 1 - self.slots.len(),
        {
            let ghost before = *self;
            self.slots.push(Ok(None));
            assert forall|i: int| #[trigger] self.slot(i) == old(self).slot(i) by {
                assert(before.slot(i) == old(self).slot(i));
            }
        }
        let ghost before = *self;
        self.slots.set(index, slot);
        assert forall|i: int| #[trigger] self.slot(i) == if i == offset {
            slot
        } else {
            old(self).slot(i)
        } by {
            assert(before.slot(i) == old(self).slot(i));
        }
    }
}

}
