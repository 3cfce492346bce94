//! What holds of every pool, proved over its model.
//!
//! A `BufferPool` is well formed at all times and stands for a well-formed
//! model, and each of its operations is the model's operation of the same
//! name. So whatever is proved here of well-formed models, and of the states
//! that sequences of operations lead to, holds of the pool at run time.
//!
//! The lemmas speak of single steps and of what sequences of operations keep;
//! the theorems put them together.

use crate::buffer_pool::{PoolError, ReleaseAction, SlotState};
use crate::geometry::valid_geometry;
use crate::history::PoolOp;
use crate::model::{LeaseModel, PoolModel};
use vstd::prelude::*;

verus! {

// Leases never overlap.
impl PoolModel {
    /// The extent of every slot lies within the segment.
    pub proof fn lemma_extent_in_segment(self, buffer: int)
        requires
            self.wf(),
            self.has_slot(buffer),
        ensures
            self.extent_end(buffer) <= self.segment_len,
    {
        let size = self.slot_size() as int;
        let count = self.slots.len() as int;
        assert(buffer * size + size == (buffer + 1) * size) by (nonlinear_arith);
        assert((buffer + 1) * size <= count * size) by (nonlinear_arith)
            requires
                buffer + 1 <= count,
                0 <= size,
        ;
    }

    /// The extents of two different slots never overlap, and each lies within
    /// the segment.
    pub proof fn lemma_extents_disjoint(self, a: int, b: int)
        requires
            self.wf(),
            self.has_slot(a),
            self.has_slot(b),
            a != b,
        ensures
            self.extents_disjoint(a, b),
            self.extent_end(a) <= self.segment_len,
            self.extent_end(b) <= self.segment_len,
    {
        let size = self.slot_size() as int;
        self.lemma_extent_in_segment(a);
        self.lemma_extent_in_segment(b);
        assert(a * size + size == (a + 1) * size) by (nonlinear_arith);
        assert(b * size + size == (b + 1) * size) by (nonlinear_arith);
        if a < b {
            assert((a + 1) * size <= b * size) by (nonlinear_arith)
                requires
                    a + 1 <= b,
                    0 <= size,
            ;
        } else {
            assert((b + 1) * size <= a * size) by (nonlinear_arith)
                requires
                    b + 1 <= a,
                    0 <= size,
            ;
        }
    }

    /// Whenever a buffer is handed out, it is at the offset of its slot, which
    /// is its number times the buffer size, and its pixels fill the extent of
    /// that slot exactly. A recycled buffer was idle; a new one is the next
    /// slot.
    pub proof fn lemma_lease_offset(self, lease: LeaseModel)
        requires
            self.wf(),
            self.lease() == Ok::<LeaseModel, PoolError>(lease),
        ensures
            self.get_buffer().has_slot(lease.buffer),
            lease.offset == self.get_buffer().extent_start(lease.buffer),
            lease.growth is None ==> self.is_idle(lease.buffer) && lease.offset
                == self.extent_start(lease.buffer),
            lease.growth is Some ==> lease.buffer == self.slots.len(),
            lease.offset == lease.buffer * self.slot_size(),
            lease.pixels * 4 == self.slot_size(),
            lease.offset + lease.pixels * 4 == self.get_buffer().extent_end(lease.buffer),
            lease.offset + lease.pixels * 4 <= self.get_buffer().segment_len,
    {
        self.lemma_get_buffer_wf();
        self.get_buffer().lemma_extent_in_segment(lease.buffer);
    }

    /// A buffer that `get_buffer` hands out was not on loan, is on loan
    /// afterwards at the offset that the lease names, and its extent shares no
    /// byte with that of any buffer that was on loan already.
    pub proof fn lemma_lease_disjoint_from_loans(self, lease: LeaseModel, other: int)
        requires
            self.wf(),
            self.lease() == Ok::<LeaseModel, PoolError>(lease),
            self.is_loaned(other),
        ensures
            !self.is_loaned(lease.buffer),
            other != lease.buffer,
            self.get_buffer().is_loaned(lease.buffer),
            self.get_buffer().is_loaned(other),
            self.get_buffer().extent_start(lease.buffer) == lease.offset,
            self.get_buffer().extent_start(other) == self.extent_start(other),
            self.get_buffer().extents_disjoint(lease.buffer, other),
            self.get_buffer().extent_end(lease.buffer) <= self.get_buffer().segment_len,
    {
        self.lemma_get_buffer_wf();
        self.lemma_lease_offset(lease);
        self.get_buffer().lemma_extents_disjoint(lease.buffer, other);
    }

    /// After any sequence of operations on a fresh pool, the buffers on loan
    /// have extents that lie within the segment and share no byte.
    pub proof fn theorem_loans_never_overlap(
        width: u32,
        height: u32,
        ops: Seq<PoolOp>,
        a: int,
        b: int,
    )
        requires
            valid_geometry(width, height),
            Self::create(width, height).admits_all(ops),
            Self::create(width, height).run(ops).is_loaned(a),
            Self::create(width, height).run(ops).is_loaned(b),
            a != b,
        ensures
            Self::create(width, height).run(ops).extents_disjoint(a, b),
            Self::create(width, height).run(ops).extent_end(a) <= Self::create(
                width,
                height,
            ).run(ops).segment_len,
    {
        Self::lemma_create_wf(width, height);
        Self::create(width, height).lemma_run_wf(ops);
        Self::create(width, height).run(ops).lemma_extents_disjoint(a, b);
    }

    /// After any sequence of operations on a fresh pool, the bytes of the
    /// buffer that the next `get_buffer` hands out lie within the segment and
    /// are shared with no buffer that is on loan.
    pub proof fn theorem_lease_never_overlaps_loans(
        width: u32,
        height: u32,
        ops: Seq<PoolOp>,
        lease: LeaseModel,
        other: int,
    )
        requires
            valid_geometry(width, height),
            Self::create(width, height).admits_all(ops),
            Self::create(width, height).run(ops).lease() == Ok::<LeaseModel, PoolError>(lease),
            Self::create(width, height).run(ops).is_loaned(other),
        ensures
            other != lease.buffer,
            lease.offset + lease.pixels * 4 <= Self::create(width, height).run(ops).extent_start(
                other,
            ) || Self::create(width, height).run(ops).extent_end(other) <= lease.offset,
            lease.offset + lease.pixels * 4 <= Self::create(width, height).run(
                ops,
            ).get_buffer().segment_len,
    {
        let now = Self::create(width, height).run(ops);
        Self::lemma_create_wf(width, height);
        Self::create(width, height).lemma_run_wf(ops);
        now.lemma_lease_disjoint_from_loans(lease, other);
        now.lemma_lease_offset(lease);
    }
}

// The segment grows by whole extents, and slots stay.
impl PoolModel {
    /// The segment holds exactly one extent for each slot ever made.
    pub proof fn lemma_segment_len(self)
        requires
            self.wf(),
        ensures
            self.segment_len == self.slot_size() * self.slots.len(),
    {
        assert(self.slots.len() * self.slot_size() == self.slot_size() * self.slots.len())
            by (nonlinear_arith);
    }

    /// `get_buffer` changes no slot but the one that it hands out, and makes
    /// one slot where it grows the segment and none where it does not.
    pub proof fn lemma_get_buffer_touches_one_slot(self, other: int)
        requires
            self.wf(),
            self.has_slot(other),
        ensures
            self.get_buffer().has_slot(other),
            match self.lease() {
                Ok(lease) => other != lease.buffer ==> self.get_buffer().slots[other]
                    == self.slots[other],
                Err(_) => self.get_buffer().slots[other] == self.slots[other],
            },
            match self.lease() {
                Ok(lease) => self.get_buffer().slots.len() == self.slots.len() + (if lease.growth
                    is Some {
                    1int
                } else {
                    0int
                }),
                Err(_) => self.get_buffer().slots.len() == self.slots.len(),
            },
    {
        match self.lease() {
            Ok(lease) => self.lemma_lease_offset(lease),
            Err(_) => {},
        }
    }

    /// A release changes no slot but the released one, whose offset it keeps,
    /// and leaves the segment as long as it was.
    pub proof fn lemma_release_touches_one_slot(self, buffer: int, other: int)
        requires
            self.wf(),
            self.is_loaned(buffer),
            self.has_slot(other),
        ensures
            self.release(buffer).slots.len() == self.slots.len(),
            other != buffer ==> self.release(buffer).slots[other] == self.slots[other],
            self.release(buffer).extent_start(buffer) == self.extent_start(buffer),
            self.release(buffer).segment_len == self.segment_len,
    {
    }

    /// No operation removes a slot, moves one, or changes the geometry; only
    /// `get_buffer` adds one, and one at most.
    pub proof fn lemma_step_keeps_slots(self, op: PoolOp, buffer: int)
        requires
            self.wf(),
            self.admits(op),
            self.has_slot(buffer),
        ensures
            self.step(op).has_slot(buffer),
            self.step(op).extent_start(buffer) == self.extent_start(buffer),
            self.slots.len() <= self.step(op).slots.len() <= self.slots.len() + 1,
            !(op is GetBuffer) ==> self.step(op).slots.len() == self.slots.len(),
            self.step(op).width == self.width,
            self.step(op).height == self.height,
    {
        if op is GetBuffer {
            self.lemma_get_buffer_touches_one_slot(buffer);
        }
    }

    /// Over any sequence of operations a slot once made stays, and stays
    /// where it is.
    pub proof fn lemma_run_keeps_slots(self, ops: Seq<PoolOp>, buffer: int)
        requires
            self.wf(),
            self.admits_all(ops),
            self.has_slot(buffer),
        ensures
            self.run(ops).has_slot(buffer),
            self.run(ops).extent_start(buffer) == self.extent_start(buffer),
            self.run(ops).slot_size() == self.slot_size(),
        decreases ops.len(),
    {
        if ops.len() > 0 {
            self.lemma_run_keeps_slots(ops.drop_last(), buffer);
            self.lemma_run_wf(ops.drop_last());
            self.run(ops.drop_last()).lemma_step_keeps_slots(ops.last(), buffer);
        }
    }

    /// Over any sequence of operations the slot count never decreases.
    pub proof fn lemma_run_slot_count(self, ops: Seq<PoolOp>)
        requires
            self.wf(),
            self.admits_all(ops),
        ensures
            self.slots.len() <= self.run(ops).slots.len(),
        decreases ops.len(),
    {
        if ops.len() > 0 {
            self.lemma_run_slot_count(ops.drop_last());
            self.lemma_run_wf(ops.drop_last());
            let before = self.run(ops.drop_last());
            if before.slots.len() > 0 {
                before.lemma_step_keeps_slots(ops.last(), 0);
            }
        }
    }

    /// No sequence of operations changes the geometry.
    pub proof fn lemma_run_keeps_geometry(self, ops: Seq<PoolOp>)
        ensures
            self.run(ops).width == self.width,
            self.run(ops).height == self.height,
        decreases ops.len(),
    {
        if ops.len() > 0 {
            self.lemma_run_keeps_geometry(ops.drop_last());
        }
    }

    /// After any sequence of operations on a fresh pool, the segment length is
    /// the buffer size times the number of slots ever made.
    pub proof fn theorem_growth_invariant(width: u32, height: u32, ops: Seq<PoolOp>)
        requires
            valid_geometry(width, height),
            Self::create(width, height).admits_all(ops),
        ensures
            Self::create(width, height).run(ops).segment_len == Self::create(
                width,
                height,
            ).slot_size() * Self::create(width, height).run(ops).slots.len(),
    {
        let fresh = Self::create(width, height);
        Self::lemma_create_wf(width, height);
        fresh.lemma_run_wf(ops);
        fresh.run(ops).lemma_segment_len();
        fresh.lemma_run_keeps_geometry(ops);
    }
}

// A released buffer comes back where it was; the free list counts the idle slots.
impl PoolModel {
    /// A buffer released to a live pool and requested again comes back as the
    /// same buffer at the same offset, without growth, and the pool is as it
    /// was before the release.
    pub proof fn lemma_release_then_get_buffer(self, buffer: int)
        requires
            self.wf(),
            self.alive,
            self.is_loaned(buffer),
        ensures
            self.release(buffer).lease() == Ok::<LeaseModel, PoolError>(
                LeaseModel {
                    buffer,
                    offset: self.extent_start(buffer),
                    pixels: self.pixels(),
                    growth: None,
                },
            ),
            self.release(buffer).get_buffer() == self,
    {
        let released = self.release(buffer);
        let again = released.get_buffer();
        assert(again.slots =~= self.slots);
        assert(again.free =~= self.free);
    }

    /// A buffer handed out again after any sequence of operations, however
    /// long it lay idle and whatever was leased and released meanwhile, is at
    /// the offset that it had before.
    pub proof fn lemma_recycled_at_same_offset(self, ops: Seq<PoolOp>, buffer: int)
        requires
            self.wf(),
            self.has_slot(buffer),
            self.admits_all(ops),
            self.run(ops).lease() matches Ok(lease) && lease.buffer == buffer,
        ensures
            self.run(ops).lease() matches Ok(lease) && lease.offset == self.extent_start(buffer)
                && lease.growth is None,
    {
        self.lemma_run_wf(ops);
        self.lemma_run_keeps_slots(ops, buffer);
        self.run(ops).lemma_lease_offset(self.run(ops).lease()->Ok_0);
    }

    /// While the pool lives, the free list holds exactly the idle slots, each
    /// once: its length is the number of buffers released and not handed out
    /// again.
    pub proof fn lemma_free_list_counts_idle(self)
        requires
            self.wf(),
            self.alive,
        ensures
            self.idle_slots().finite(),
            self.free.len() == self.idle_slots().len(),
            self.free.to_set() == self.idle_slots(),
    {
        assert(self.free.to_set() =~= self.idle_slots());
        vstd::seq_lib::seq_to_set_is_finite(self.free);
        self.free.unique_seq_to_set();
    }

    /// After any sequence of operations on a fresh pool that is still alive,
    /// the length of the free list is the number of idle slots.
    pub proof fn theorem_free_list_counts_idle(width: u32, height: u32, ops: Seq<PoolOp>)
        requires
            valid_geometry(width, height),
            Self::create(width, height).admits_all(ops),
            Self::create(width, height).run(ops).alive,
        ensures
            Self::create(width, height).run(ops).idle_slots().finite(),
            Self::create(width, height).run(ops).free.len() == Self::create(width, height).run(
                ops,
            ).idle_slots().len(),
    {
        Self::lemma_create_wf(width, height);
        Self::create(width, height).lemma_run_wf(ops);
        Self::create(width, height).run(ops).lemma_free_list_counts_idle();
    }
}

// A buffer cannot be released twice.
impl PoolModel {
    /// The life of a slot. A release takes a loaned slot to available while
    /// the pool lives and to destroyed once it is gone; a lease takes an
    /// available slot, or a new one, to loaned; `destroy` takes every
    /// available slot to destroyed and leaves the loaned ones on loan.
    pub proof fn lemma_slot_transitions(self, buffer: int)
        requires
            self.wf(),
            self.has_slot(buffer),
        ensures
            self.is_loaned(buffer) ==> self.release(buffer).state_of(buffer) == (if self.alive {
                SlotState::Available
            } else {
                SlotState::Destroyed
            }),
            self.lease() matches Ok(lease) ==> self.get_buffer().state_of(lease.buffer)
                == SlotState::Loaned,
            self.lease() matches Ok(lease) ==> (lease.growth is None ==> self.state_of(
                lease.buffer,
            ) == SlotState::Available),
            self.state_of(buffer) == SlotState::Loaned ==> self.destroy().state_of(buffer)
                == SlotState::Loaned,
            self.state_of(buffer) != SlotState::Loaned ==> self.destroy().state_of(buffer)
                == SlotState::Destroyed,
    {
        match self.lease() {
            Ok(lease) => self.lemma_lease_offset(lease),
            Err(_) => {},
        }
    }

    /// A released buffer is not on loan, so a second release of it is not
    /// admitted.
    pub proof fn lemma_double_release_not_admitted(self, buffer: int)
        requires
            self.wf(),
            self.is_loaned(buffer),
        ensures
            !self.release(buffer).is_loaned(buffer),
            !self.release(buffer).admits(PoolOp::Release { buffer }),
    {
    }

    /// A buffer that is not on loan stays so through any sequence of
    /// operations in which no request hands it out: until then no release of
    /// it is admitted.
    pub proof fn lemma_release_needs_lease(self, ops: Seq<PoolOp>, buffer: int)
        requires
            self.wf(),
            !self.is_loaned(buffer),
            self.admits_all(ops),
            !self.hands_out(ops, buffer),
        ensures
            !self.run(ops).is_loaned(buffer),
            !self.run(ops).admits(PoolOp::Release { buffer }),
        decreases ops.len(),
    {
        if ops.len() > 0 {
            self.lemma_release_needs_lease(ops.drop_last(), buffer);
            self.lemma_run_wf(ops.drop_last());
        }
    }

    /// After a release, no sequence of operations that admits a second release
    /// of the same buffer at its end is without a request that hands the
    /// buffer out in between.
    pub proof fn theorem_second_release_needs_lease(self, buffer: int, ops: Seq<PoolOp>)
        requires
            self.wf(),
            self.is_loaned(buffer),
            self.release(buffer).admits_all(ops),
            self.release(buffer).run(ops).admits(PoolOp::Release { buffer }),
        ensures
            self.release(buffer).hands_out(ops, buffer),
    {
        self.lemma_release_wf(buffer);
        if !self.release(buffer).hands_out(ops, buffer) {
            self.release(buffer).lemma_release_needs_lease(ops, buffer);
        }
    }
}

// What is released after the pool's destruction is destroyed, not recycled.
impl PoolModel {
    /// `destroy` dooms the free buffers only: none of them is on loan, and no
    /// buffer on loan is among them.
    pub proof fn lemma_destroy_spares_loans(self, buffer: int)
        requires
            self.wf(),
        ensures
            self.free.contains(buffer) ==> self.is_idle(buffer),
            self.is_loaned(buffer) ==> !self.free.contains(buffer) && self.destroy().is_loaned(
                buffer,
            ),
    {
    }

    /// A destroyed pool stays destroyed: whatever happens next, its free list
    /// is empty, it makes no slot and it hands out nothing.
    pub proof fn lemma_destroyed_for_good(self, ops: Seq<PoolOp>)
        requires
            self.wf(),
            !self.alive,
            self.admits_all(ops),
        ensures
            !self.run(ops).alive,
            self.run(ops).free.len() == 0,
            self.run(ops).lease() == Err::<LeaseModel, PoolError>(PoolError::Destroyed),
            self.run(ops).slots.len() == self.slots.len(),
        decreases ops.len(),
    {
        if ops.len() > 0 {
            self.lemma_destroyed_for_good(ops.drop_last());
        }
        self.lemma_run_wf(ops);
    }

    /// No request to a destroyed pool hands out a buffer.
    pub proof fn lemma_dead_pool_hands_out_nothing(self, ops: Seq<PoolOp>, buffer: int)
        requires
            self.wf(),
            !self.alive,
            self.admits_all(ops),
        ensures
            !self.hands_out(ops, buffer),
        decreases ops.len(),
    {
        if ops.len() > 0 {
            self.lemma_dead_pool_hands_out_nothing(ops.drop_last(), buffer);
            self.lemma_destroyed_for_good(ops.drop_last());
        }
    }

    /// A destroyed slot stays destroyed whatever happens next.
    pub proof fn lemma_destroyed_is_final(self, ops: Seq<PoolOp>, buffer: int)
        requires
            self.wf(),
            self.has_slot(buffer),
            self.state_of(buffer) == SlotState::Destroyed,
            self.admits_all(ops),
        ensures
            self.run(ops).has_slot(buffer),
            self.run(ops).state_of(buffer) == SlotState::Destroyed,
    {
        self.lemma_run_keeps_slots(ops, buffer);
        self.lemma_destroyed_for_good(ops);
        self.lemma_dead_pool_hands_out_nothing(ops, buffer);
        self.lemma_release_needs_lease(ops, buffer);
    }

    /// A buffer that is on loan when its pool is destroyed, and released at
    /// any time after: its release asks for the destruction of the remote
    /// object and puts the buffer on no free list; its slot is destroyed and
    /// stays so; and no later request hands it out, or any other buffer.
    pub proof fn theorem_release_after_destroy(
        self,
        between: Seq<PoolOp>,
        buffer: int,
        after: Seq<PoolOp>,
    )
        requires
            self.wf(),
            self.destroy().admits_all(between),
            self.destroy().run(between).is_loaned(buffer),
            self.destroy().run(between).release(buffer).admits_all(after),
        ensures
            self.destroy().run(between).release_action() == ReleaseAction::Destroy,
            self.destroy().run(between).release(buffer).free.len() == 0,
            self.destroy().run(between).release(buffer).state_of(buffer) == SlotState::Destroyed,
            self.destroy().run(between).release(buffer).run(after).free.len() == 0,
            self.destroy().run(between).release(buffer).run(after).has_slot(buffer),
            self.destroy().run(between).release(buffer).run(after).state_of(buffer)
                == SlotState::Destroyed,
            self.destroy().run(between).release(buffer).run(after).lease() == Err::<
                LeaseModel,
                PoolError,
            >(PoolError::Destroyed),
            !self.destroy().run(between).release(buffer).hands_out(after, buffer),
    {
        self.lemma_destroy_wf();
        let dead = self.destroy().run(between);
        self.destroy().lemma_run_wf(between);
        self.destroy().lemma_destroyed_for_good(between);
        dead.lemma_release_wf(buffer);
        let released = dead.release(buffer);
        released.lemma_destroyed_for_good(after);
        released.lemma_dead_pool_hands_out_nothing(after, buffer);
        released.lemma_destroyed_is_final(after, buffer);
    }
}

} // verus!
