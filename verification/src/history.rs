//! Sequences of operations on a pool.

use crate::model::PoolModel;
use vstd::prelude::*;

verus! {

/// One operation on a pool.
pub enum PoolOp {
    /// A request for a buffer.
    GetBuffer,
    /// The compositor's release of `buffer`.
    Release { buffer: int },
    /// The destruction of the pool.
    Destroy,
}

impl PoolModel {
    /// Whether `op` may happen in this state. A release is only for a buffer
    /// that is on loan; the other operations may always happen.
    pub open spec fn admits(self, op: PoolOp) -> bool {
        match op {
            PoolOp::Release { buffer } => self.is_loaned(buffer),
            _ => true,
        }
    }

    /// The state after `op`.
    pub open spec fn step(self, op: PoolOp) -> PoolModel {
        match op {
            PoolOp::GetBuffer => self.get_buffer(),
            PoolOp::Release { buffer } => self.release(buffer),
            PoolOp::Destroy => self.destroy(),
        }
    }

    /// The state after the operations `ops`, in order.
    pub open spec fn run(self, ops: Seq<PoolOp>) -> PoolModel
        decreases ops.len(),
    {
        if ops.len() == 0 {
            self
        } else {
            self.run(ops.drop_last()).step(ops.last())
        }
    }

    /// Whether each of `ops` may happen in the state that the ones before it
    /// lead to.
    pub open spec fn admits_all(self, ops: Seq<PoolOp>) -> bool
        decreases ops.len(),
    {
        ops.len() == 0 || (self.admits_all(ops.drop_last()) && self.run(ops.drop_last()).admits(
            ops.last(),
        ))
    }

    /// Whether some request among `ops` hands out `buffer`.
    pub open spec fn hands_out(self, ops: Seq<PoolOp>, buffer: int) -> bool
        decreases ops.len(),
    {
        if ops.len() == 0 {
            false
        } else if self.hands_out(ops.drop_last(), buffer) {
            true
        } else {
            ops.last() is GetBuffer && match self.run(ops.drop_last()).lease() {
                Ok(lease) => lease.buffer == buffer,
                Err(_) => false,
            }
        }
    }

    /// One operation keeps the invariant.
    pub proof fn lemma_step_wf(self, op: PoolOp)
        requires
            self.wf(),
            self.admits(op),
        ensures
            self.step(op).wf(),
    {
        match op {
            PoolOp::GetBuffer => self.lemma_get_buffer_wf(),
            PoolOp::Release { buffer } => self.lemma_release_wf(buffer),
            PoolOp::Destroy => self.lemma_destroy_wf(),
        }
    }

    /// Every sequence of operations keeps the invariant.
    pub proof fn lemma_run_wf(self, ops: Seq<PoolOp>)
        requires
            self.wf(),
            self.admits_all(ops),
        ensures
            self.run(ops).wf(),
        decreases ops.len(),
    {
        if ops.len() > 0 {
            self.lemma_run_wf(ops.drop_last());
            self.run(ops.drop_last()).lemma_step_wf(ops.last());
        }
    }
}

} // verus!
