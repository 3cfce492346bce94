//! The pool as a state machine over mathematical values.
//!
//! [`PoolModel`] is what a [`crate::buffer_pool::BufferPool`] stands for. Each
//! operation of the pool is a function from one model to the next, and
//! [`PoolModel::wf`] is the invariant that all of them keep.

use crate::buffer_pool::{PixelFormat, PoolError, ReleaseAction, SlotState};
use crate::geometry::{buffer_bytes, row_bytes, valid_geometry, MAX_POOL_SIZE};
use vstd::prelude::*;

verus! {

/// The bookkeeping of one slot: where its extent starts in the segment and
/// whether the compositor holds it.
pub struct SlotModel {
    pub offset: nat,
    pub loaned: bool,
}

/// The arguments with which a remote buffer object is created, as integers.
pub struct BufferRequestModel {
    pub offset: int,
    pub width: int,
    pub height: int,
    pub stride: int,
    pub format: PixelFormat,
}

/// The growth that made room for a lease.
pub struct GrowthModel {
    pub new_len: nat,
    pub pool_size: int,
    pub request: BufferRequestModel,
}

/// What one successful `get_buffer` hands out.
pub struct LeaseModel {
    pub buffer: int,
    pub offset: nat,
    pub pixels: nat,
    pub growth: Option<GrowthModel>,
}

/// The state of a pool.
///
/// `slots[i]` is the slot of buffer `i`; buffers are numbered in the order in
/// which they were carved. `free` lists the available buffers, the most recently
/// released last.
pub struct PoolModel {
    pub width: u32,
    pub height: u32,
    pub alive: bool,
    pub segment_len: nat,
    pub slots: Seq<SlotModel>,
    pub free: Seq<int>,
}

impl PoolModel {
    /// The size in bytes of every buffer of this pool.
    pub open spec fn slot_size(self) -> nat {
        buffer_bytes(self.width, self.height)
    }

    /// The number of pixels of every buffer of this pool.
    pub open spec fn pixels(self) -> nat {
        (self.width as nat) * (self.height as nat)
    }

    /// A fresh pool: alive, with an empty segment, no slot and nothing free.
    pub open spec fn create(width: u32, height: u32) -> PoolModel {
        PoolModel {
            width,
            height,
            alive: true,
            segment_len: 0,
            slots: Seq::empty(),
            free: Seq::empty(),
        }
    }

    /// `buffer` names a slot of this pool.
    pub open spec fn has_slot(self, buffer: int) -> bool {
        0 <= buffer < self.slots.len()
    }

    /// `buffer` is out on loan.
    pub open spec fn is_loaned(self, buffer: int) -> bool {
        self.has_slot(buffer) && self.slots[buffer].loaned
    }

    /// `buffer` names a slot that is not on loan.
    pub open spec fn is_idle(self, buffer: int) -> bool {
        self.has_slot(buffer) && !self.slots[buffer].loaned
    }

    /// The first byte of the extent of `buffer`.
    pub open spec fn extent_start(self, buffer: int) -> nat
        recommends
            self.has_slot(buffer),
    {
        self.slots[buffer].offset
    }

    /// The byte after the last one of the extent of `buffer`.
    pub open spec fn extent_end(self, buffer: int) -> nat
        recommends
            self.has_slot(buffer),
    {
        self.slots[buffer].offset + self.slot_size()
    }

    /// The extents of `a` and `b` share no byte.
    pub open spec fn extents_disjoint(self, a: int, b: int) -> bool
        recommends
            self.has_slot(a),
            self.has_slot(b),
    {
        self.extent_end(a) <= self.extent_start(b) || self.extent_end(b) <= self.extent_start(a)
    }

    /// The slots that are not on loan.
    pub open spec fn idle_slots(self) -> Set<int> {
        Set::new(|buffer: int| self.is_idle(buffer))
    }

    /// Where the slot of `buffer` stands in its life.
    pub open spec fn state_of(self, buffer: int) -> SlotState
        recommends
            self.has_slot(buffer),
    {
        if self.slots[buffer].loaned {
            SlotState::Loaned
        } else if self.alive {
            SlotState::Available
        } else {
            SlotState::Destroyed
        }
    }

    /// The invariant of the pool.
    ///
    /// The segment holds exactly one extent per slot, slot `i` at byte `i * S`,
    /// and never exceeds what the protocol can name. While the pool lives, the
    /// free list holds each idle slot exactly once and no other; once it is
    /// destroyed the free list is empty for good.
    pub open spec fn wf(self) -> bool {
        &&& valid_geometry(self.width, self.height)
        &&& self.segment_len == self.slots.len() * self.slot_size()
        &&& self.segment_len <= MAX_POOL_SIZE
        &&& forall|i: int|
            0 <= i < self.slots.len() ==> (#[trigger] self.slots[i]).offset == i * self.slot_size()
        &&& self.free.no_duplicates()
        &&& forall|k: int| 0 <= k < self.free.len() ==> self.is_idle(#[trigger] self.free[k])
        &&& self.alive ==> forall|i: int| #[trigger] self.is_idle(i) ==> self.free.contains(i)
        &&& !self.alive ==> self.free.len() == 0
    }

    /// How the remote buffer object for the extent at `offset` is created: the
    /// pool's geometry, packed rows, and the one pixel format.
    pub open spec fn request_at(self, offset: nat) -> BufferRequestModel {
        BufferRequestModel {
            offset: offset as int,
            width: self.width as int,
            height: self.height as int,
            stride: row_bytes(self.width) as int,
            format: PixelFormat::Xrgb8888,
        }
    }

    /// What `get_buffer` returns in this state.
    ///
    /// A destroyed pool hands out nothing. A live pool hands out the most
    /// recently released buffer if there is one; otherwise it grows the segment
    /// by one extent and hands out the buffer carved there, unless the segment
    /// would then exceed what the protocol can name.
    pub open spec fn lease(self) -> Result<LeaseModel, PoolError> {
        if !self.alive {
            Err(PoolError::Destroyed)
        } else if self.free.len() > 0 {
            let buffer = self.free.last();
            Ok(
                LeaseModel {
                    buffer,
                    offset: self.slots[buffer].offset,
                    pixels: self.pixels(),
                    growth: None,
                },
            )
        } else if self.segment_len + self.slot_size() > MAX_POOL_SIZE {
            Err(PoolError::Exhausted)
        } else {
            let new_len = self.segment_len + self.slot_size();
            Ok(
                LeaseModel {
                    buffer: self.slots.len() as int,
                    offset: self.segment_len,
                    pixels: self.pixels(),
                    growth: Some(
                        GrowthModel {
                            new_len,
                            pool_size: new_len as int,
                            request: self.request_at(self.segment_len),
                        },
                    ),
                },
            )
        }
    }

    /// The state after `get_buffer`: unchanged where it fails; otherwise the
    /// leased slot is on loan, taken off the free list or newly appended to the
    /// grown segment.
    pub open spec fn get_buffer(self) -> PoolModel {
        match self.lease() {
            Err(_) => self,
            Ok(lease) => {
                if lease.growth is None {
                    PoolModel {
                        slots: self.slots.update(
                            lease.buffer,
                            SlotModel { offset: lease.offset, loaned: true },
                        ),
                        free: self.free.drop_last(),
                        ..self
                    }
                } else {
                    PoolModel {
                        segment_len: self.segment_len + self.slot_size(),
                        slots: self.slots.push(SlotModel { offset: lease.offset, loaned: true }),
                        ..self
                    }
                }
            },
        }
    }

    /// What the caller owes the remote buffer object when `buffer` is released
    /// in this state: nothing while the pool lives, its destruction once the
    /// pool is gone.
    pub open spec fn release_action(self) -> ReleaseAction {
        if self.alive {
            ReleaseAction::Recycle
        } else {
            ReleaseAction::Destroy
        }
    }

    /// The state after the release of `buffer`: its slot is idle, and it is the
    /// last entry of the free list if the pool lives.
    pub open spec fn release(self, buffer: int) -> PoolModel
        recommends
            self.is_loaned(buffer),
    {
        PoolModel {
            slots: self.slots.update(
                buffer,
                SlotModel { offset: self.slots[buffer].offset, loaned: false },
            ),
            free: if self.alive {
                self.free.push(buffer)
            } else {
                self.free
            },
            ..self
        }
    }

    /// The state after `destroy`: dead, with an empty free list. The slots stay,
    /// so that leases still out can be released.
    pub open spec fn destroy(self) -> PoolModel {
        PoolModel { alive: false, free: Seq::empty(), ..self }
    }

    /// A fresh pool of a valid geometry is well formed.
    pub proof fn lemma_create_wf(width: u32, height: u32)
        requires
            valid_geometry(width, height),
        ensures
            Self::create(width, height).wf(),
    {
    }

    /// `get_buffer` keeps the invariant.
    pub proof fn lemma_get_buffer_wf(self)
        requires
            self.wf(),
        ensures
            self.get_buffer().wf(),
    {
        let next = self.get_buffer();
        match self.lease() {
            Err(_) => {},
            Ok(lease) => {
                if lease.growth is None {
                    // Every idle slot but the leased one keeps its place on the free list.
                    assert forall|i: int| #[trigger] next.is_idle(i) implies next.free.contains(
                        i,
                    ) by {
                        assert(self.is_idle(i));
                        let k = choose|k: int| 0 <= k < self.free.len() && self.free[k] == i;
                        assert(next.free[k] == i);
                    }
                } else {
                    let count = self.slots.len() as int;
                    let size = self.slot_size();
                    assert((count + 1) * size == count * size + size) by (nonlinear_arith);
                    // No slot was idle, and the new one is on loan.
                    assert forall|i: int| #[trigger] next.is_idle(i) implies next.free.contains(
                        i,
                    ) by {
                        assert(self.is_idle(i));
                    }
                }
            },
        }
    }

    /// A release keeps the invariant.
    pub proof fn lemma_release_wf(self, buffer: int)
        requires
            self.wf(),
            self.is_loaned(buffer),
        ensures
            self.release(buffer).wf(),
    {
        let next = self.release(buffer);
        if self.alive {
            // The released slot is the new last entry; the others keep their places.
            assert forall|i: int| #[trigger] next.is_idle(i) implies next.free.contains(i) by {
                if i == buffer {
                    assert(next.free[self.free.len() as int] == i);
                } else {
                    assert(self.is_idle(i));
                    let k = choose|k: int| 0 <= k < self.free.len() && self.free[k] == i;
                    assert(next.free[k] == i);
                }
            }
        }
    }

    /// `destroy` keeps the invariant.
    pub proof fn lemma_destroy_wf(self)
        requires
            self.wf(),
        ensures
            self.destroy().wf(),
    {
    }
}

} // verus!
