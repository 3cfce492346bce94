//! The buffer pool: slots, free list, leases and the release protocol.
//!
//! A [`BufferPool`] makes every decision about one shared-memory segment and
//! the remote buffer objects bound to it, and touches neither. `get_buffer`
//! says which buffer to hand out and, where the segment had to grow, to what
//! length and with which arguments the remote object is created; `release`
//! says whether the remote object of a released buffer is kept or destroyed;
//! `destroy` names the remote objects that go down with the pool. A buffer is
//! known by its number: buffers are numbered from zero in the order in which
//! they were carved out of the segment.
//!
//! Every operation is stated over [`PoolModel`], the pool's view. A pool is
//! well formed at all times: each operation says so of the pool that it
//! leaves, `use_type_invariant` gives [`BufferPool::wf`] of any pool at hand,
//! and [`BufferPool::lemma_view_wf`] carries it to the view, of which the
//! laws of this crate speak.

use crate::geometry::{
    buffer_bytes, buffer_size, checked_buffer_size, lemma_valid_geometry_bounds, valid_geometry,
    BYTES_PER_PIXEL, MAX_POOL_SIZE,
};
use crate::model::{BufferRequestModel, GrowthModel, LeaseModel, PoolModel, SlotModel};
use vstd::prelude::*;

verus! {

/// The one pixel format of the pool's buffers: 32 bits per pixel, the upper
/// eight unused, then red, green and blue.
#[derive(Clone, Copy, Debug, PartialEq, Eq)]
pub enum PixelFormat {
    Xrgb8888,
}

/// Why a pool could not be made, or could not hand out a buffer.
#[derive(Clone, Copy, Debug, PartialEq, Eq)]
pub enum PoolError {
    /// The geometry has no pixel: a pool of empty buffers cannot exist.
    EmptyGeometry,
    /// One buffer of the geometry is larger than the protocol can name.
    GeometryTooLarge,
    /// Every buffer is on loan and one more would grow the segment beyond what
    /// the protocol can name.
    Exhausted,
    /// The pool has been destroyed.
    Destroyed,
}

/// What becomes of the remote buffer object of a released buffer.
#[derive(Clone, Copy, Debug, PartialEq, Eq)]
pub enum ReleaseAction {
    /// The pool lives: the buffer went back on its free list and the remote
    /// object is kept for the next lease.
    Recycle,
    /// The pool is gone: the caller destroys the remote object.
    Destroy,
}

/// Where a slot stands in its life.
#[derive(Clone, Copy, Debug, PartialEq, Eq)]
pub enum SlotState {
    /// Handed out and not yet released.
    Loaned,
    /// Released to a live pool: on the free list, ready to be handed out again.
    Available,
    /// Its remote buffer object is gone with the pool; it is never handed out again.
    Destroyed,
}

/// An event that the compositor sends for a buffer.
#[derive(Clone, Copy, Debug, PartialEq, Eq)]
pub enum BufferEvent {
    /// The compositor no longer reads the buffer.
    Release,
    /// Any event that this crate does not know.
    Unknown,
}

/// The bookkeeping of one slot: the byte offset of its extent, fixed when the
/// slot is made, and whether the compositor holds the buffer.
#[derive(Clone, Copy, Debug, PartialEq, Eq)]
pub struct BufferHandle {
    offset: usize,
    loaned: bool,
}

impl View for BufferHandle {
    type V = SlotModel;

    closed spec fn view(&self) -> SlotModel {
        SlotModel { offset: self.offset as nat, loaned: self.loaned }
    }
}

impl BufferHandle {
    /// The byte offset of the slot's extent in the segment.
    pub fn offset(&self) -> (offset: usize)
        ensures
            offset == self@.offset,
    {
        self.offset
    }

    /// Whether the buffer is out on loan.
    pub fn is_loaned(&self) -> (loaned: bool)
        ensures
            loaned == self@.loaned,
    {
        self.loaned
    }

    /// Ends the loan. A slot that is not on loan cannot be released: a second
    /// release without a lease in between is a fault of the caller.
    pub(crate) fn release(&mut self)
        requires
            old(self)@.loaned,
        ensures
            final(self)@ == (SlotModel { offset: old(self)@.offset, loaned: false }),
    {
        self.loaned = false;
    }
}

/// The arguments with which the remote buffer object of a new slot is
/// created, in the protocol's own integer type.
#[derive(Clone, Copy, Debug, PartialEq, Eq)]
pub struct BufferRequest {
    pub offset: i32,
    pub width: i32,
    pub height: i32,
    pub stride: i32,
    pub format: PixelFormat,
}

impl View for BufferRequest {
    type V = BufferRequestModel;

    open spec fn view(&self) -> BufferRequestModel {
        BufferRequestModel {
            offset: self.offset as int,
            width: self.width as int,
            height: self.height as int,
            stride: self.stride as int,
            format: self.format,
        }
    }
}

/// What the caller does before it uses a buffer that was carved anew: resize
/// the memory object to `new_len` bytes, map it again (the mapping may move),
/// tell the compositor that the pool now has `pool_size` bytes, and create the
/// remote buffer object as `request` says.
#[derive(Clone, Copy, Debug, PartialEq, Eq)]
pub struct Growth {
    pub new_len: usize,
    pub pool_size: i32,
    pub request: BufferRequest,
}

impl View for Growth {
    type V = GrowthModel;

    open spec fn view(&self) -> GrowthModel {
        GrowthModel {
            new_len: self.new_len as nat,
            pool_size: self.pool_size as int,
            request: self.request@,
        }
    }
}

/// A buffer handed out by `get_buffer`: its number, the byte offset of its
/// extent, the number of 32-bit pixels in it, and the growth that made room for
/// it if it is new.
#[derive(Clone, Copy, Debug, PartialEq, Eq)]
pub struct Lease {
    pub buffer: usize,
    pub offset: usize,
    pub pixels: usize,
    pub growth: Option<Growth>,
}

impl View for Lease {
    type V = LeaseModel;

    open spec fn view(&self) -> LeaseModel {
        LeaseModel {
            buffer: self.buffer as int,
            offset: self.offset as nat,
            pixels: self.pixels as nat,
            growth: match self.growth {
                Some(growth) => Some(growth@),
                None => None,
            },
        }
    }
}

/// The result of `get_buffer` over models.
pub open spec fn lease_view(result: Result<Lease, PoolError>) -> Result<LeaseModel, PoolError> {
    match result {
        Ok(lease) => Ok(lease@),
        Err(error) => Err(error),
    }
}

/// A pool of buffers of one geometry.
pub struct BufferPool {
    width: u32,
    height: u32,
    alive: bool,
    segment_len: usize,
    slots: Vec<BufferHandle>,
    available_buffers: Vec<(usize, usize)>,
}

impl View for BufferPool {
    type V = PoolModel;

    closed spec fn view(&self) -> PoolModel {
        PoolModel {
            width: self.width,
            height: self.height,
            alive: self.alive,
            segment_len: self.segment_len as nat,
            slots: self.slots@.map_values(|handle: BufferHandle| handle@),
            free: self.available_buffers@.map_values(|entry: (usize, usize)| entry.0 as int),
        }
    }
}

impl BufferPool {
    /// The invariant that every pool keeps: its state satisfies the invariant
    /// of its model, and each entry of the free list pairs a buffer with the
    /// offset of that buffer's slot.
    #[verifier::type_invariant]
    pub closed spec fn wf(&self) -> bool {
        &&& self@.wf()
        &&& forall|k: int|
            0 <= k < self.available_buffers@.len() ==> (#[trigger] self.available_buffers@[k]).1
                == self.slots@[self.available_buffers@[k].0 as int].offset
    }

    /// What a well-formed pool stands for is well formed.
    pub proof fn lemma_view_wf(&self)
        requires
            self.wf(),
        ensures
            self@.wf(),
    {
    }

    /// A destroyed pool without a slot. It stands in for a pool whose parts
    /// are taken out to be changed.
    fn vacant() -> (pool: BufferPool)
        ensures
            pool.wf(),
            pool@ == PoolModel::create(1, 1).destroy(),
    {
        let pool = BufferPool {
            width: 1,
            height: 1,
            alive: false,
            segment_len: 0,
            slots: Vec::new(),
            available_buffers: Vec::new(),
        };
        proof {
            PoolModel::lemma_create_wf(1, 1);
            PoolModel::create(1, 1).lemma_destroy_wf();
            assert(pool@.slots =~= PoolModel::create(1, 1).destroy().slots);
            assert(pool@.free =~= PoolModel::create(1, 1).destroy().free);
        }
        pool
    }

    /// Makes a pool for buffers of `width` x `height` pixels.
    ///
    /// The pool starts with an empty segment and carves its first buffer on the
    /// first `get_buffer`. A geometry without a pixel, or whose single buffer
    /// the protocol could not name, is refused.
    pub fn new(width: u32, height: u32) -> (result: Result<BufferPool, PoolError>)
        ensures
            match result {
                Ok(pool) => valid_geometry(width, height) && pool.wf() && pool@
                    == PoolModel::create(width, height),
                Err(PoolError::EmptyGeometry) => buffer_bytes(width, height) == 0,
                Err(PoolError::GeometryTooLarge) => buffer_bytes(width, height) > MAX_POOL_SIZE,
                Err(_) => false,
            },
    {
        match checked_buffer_size(width, height) {
            None => Err(PoolError::GeometryTooLarge),
            Some(size) => {
                if size == 0 {
                    Err(PoolError::EmptyGeometry)
                } else {
                    proof {
                        PoolModel::lemma_create_wf(width, height);
                    }
                    let slots: Vec<BufferHandle> = Vec::new();
                    let available_buffers: Vec<(usize, usize)> = Vec::new();
                    assert(slots@.map_values(|handle: BufferHandle| handle@) =~= Seq::<
                        SlotModel,
                    >::empty());
                    assert(available_buffers@.map_values(|entry: (usize, usize)| entry.0 as int)
                        =~= Seq::<int>::empty());
                    Ok(
                        BufferPool {
                            width,
                            height,
                            alive: true,
                            segment_len: 0,
                            slots,
                            available_buffers,
                        },
                    )
                }
            },
        }
    }

    /// Hands out a buffer: the most recently released one if any is free, else
    /// one carved out of the segment grown by one extent.
    ///
    /// The lease of a new buffer carries the growth that the caller carries
    /// out before it uses the buffer. The pool counts that growth as done: a
    /// caller that fails to carry it out can do no more with this pool than
    /// destroy it. A destroyed pool hands out nothing, and a pool whose segment
    /// cannot grow within what the protocol can name reports that it is
    /// exhausted; both leave the pool as it was.
    ///
    /// The bytes of the buffer handed out lie within the segment as grown,
    /// and no buffer that is on loan shares one of them.
    pub fn get_buffer(&mut self) -> (result: Result<Lease, PoolError>)
        ensures
            final(self).wf(),
            final(self)@ == old(self)@.get_buffer(),
            lease_view(result) == old(self)@.lease(),
            result matches Ok(lease) ==> !old(self)@.is_loaned(lease.buffer as int),
            result matches Ok(lease) ==> final(self)@.is_loaned(lease.buffer as int),
            result matches Ok(lease) ==> lease.offset + lease.pixels * 4
                <= final(self)@.segment_len,
            result matches Ok(lease) ==> forall|other: int| #[trigger]
                old(self)@.is_loaned(other) ==> lease.offset + lease.pixels * 4
                    <= old(self)@.extent_start(other) || old(self)@.extent_end(other)
                    <= lease.offset,
    {
        proof {
            use_type_invariant(&*self);
            self@.lemma_get_buffer_wf();
            lemma_valid_geometry_bounds(self.width, self.height);
            match self@.lease() {
                Ok(lease) => {
                    self@.lemma_lease_offset(lease);
                    assert forall|other: int| #[trigger]
                        self@.is_loaned(other) implies lease.offset + lease.pixels * 4
                        <= self@.extent_start(other) || self@.extent_end(other)
                        <= lease.offset by {
                        self@.lemma_lease_disjoint_from_loans(lease, other);
                    }
                },
                Err(_) => {},
            }
        }
        if !self.alive {
            return Err(PoolError::Destroyed);
        }
        let size: usize = buffer_size(self.width, self.height);
        if self.available_buffers.len() == 0 && size > MAX_POOL_SIZE - self.segment_len {
            return Err(PoolError::Exhausted);
        }
        let mut taken = Self::vacant();
        core::mem::swap(self, &mut taken);
        let BufferPool { width, height, alive, segment_len, mut slots, mut available_buffers } =
            taken;
        let pixels: usize = (width as usize) * (height as usize);
        match available_buffers.pop() {
            Some((buffer, offset)) => {
                let ghost last: int = old(self).available_buffers@.len() - 1;
                slots.set(buffer, BufferHandle { offset, loaned: true });
                proof {
                    let next = old(self)@.get_buffer();
                    assert(slots@.map_values(|handle: BufferHandle| handle@) =~= next.slots);
                    assert(available_buffers@.map_values(|entry: (usize, usize)| entry.0 as int)
                        =~= next.free);
                    assert forall|k: int| 0 <= k < available_buffers@.len() implies (
                    #[trigger] available_buffers@[k]).1
                        == slots@[available_buffers@[k].0 as int].offset by {
                        assert(old(self)@.free[k] != old(self)@.free[last]);
                    }
                }
                *self = BufferPool { width, height, alive, segment_len, slots, available_buffers };
                Ok(Lease { buffer, offset, pixels, growth: None })
            },
            None => {
                let offset: usize = segment_len;
                let new_len: usize = offset + size;
                let buffer: usize = slots.len();
                slots.push(BufferHandle { offset, loaned: true });
                let request = BufferRequest {
                    offset: offset as i32,
                    width: width as i32,
                    height: height as i32,
                    stride: ((width as usize) * BYTES_PER_PIXEL) as i32,
                    format: PixelFormat::Xrgb8888,
                };
                proof {
                    let next = old(self)@.get_buffer();
                    assert(slots@.map_values(|handle: BufferHandle| handle@) =~= next.slots);
                }
                *self = BufferPool {
                    width,
                    height,
                    alive,
                    segment_len: new_len,
                    slots,
                    available_buffers,
                };
                Ok(
                    Lease {
                        buffer,
                        offset,
                        pixels,
                        growth: Some(Growth { new_len, pool_size: new_len as i32, request }),
                    },
                )
            },
        }
    }

    /// The width of the pool's buffers in pixels.
    pub fn width(&self) -> (width: u32)
        ensures
            width == self@.width,
    {
        self.width
    }

    /// The height of the pool's buffers in pixels.
    pub fn height(&self) -> (height: u32)
        ensures
            height == self@.height,
    {
        self.height
    }

    /// Whether the pool has not been destroyed.
    pub fn is_alive(&self) -> (alive: bool)
        ensures
            alive == self@.alive,
    {
        self.alive
    }

    /// The length in bytes that the segment has once every growth handed out
    /// so far is carried out.
    pub fn segment_len(&self) -> (len: usize)
        ensures
            len == self@.segment_len,
    {
        self.segment_len
    }

    /// The number of slots made so far.
    pub fn slot_count(&self) -> (count: usize)
        ensures
            count == self@.slots.len(),
    {
        self.slots.len()
    }

    /// The number of buffers on the free list.
    pub fn available(&self) -> (count: usize)
        ensures
            count == self@.free.len(),
    {
        self.available_buffers.len()
    }

    /// The size that the compositor is told when its mirror of the pool is
    /// made: one extent, since the protocol has no empty pool. No buffer lies
    /// in that extent until the first `get_buffer` grows the segment to it.
    pub fn initial_size(&self) -> (size: i32)
        ensures
            size == self@.slot_size(),
            0 < size,
    {
        proof {
            use_type_invariant(self);
        }
        buffer_size(self.width, self.height) as i32
    }

    /// The bookkeeping of `buffer`, if the pool has such a slot.
    pub fn handle(&self, buffer: usize) -> (handle: Option<BufferHandle>)
        ensures
            match handle {
                Some(handle) => self@.has_slot(buffer as int) && handle@
                    == self@.slots[buffer as int],
                None => !self@.has_slot(buffer as int),
            },
    {
        if buffer < self.slots.len() {
            Some(self.slots[buffer])
        } else {
            None
        }
    }

    /// Where `buffer` stands in its life, if the pool has such a slot.
    pub fn state_of(&self, buffer: usize) -> (state: Option<SlotState>)
        ensures
            match state {
                Some(state) => self@.has_slot(buffer as int) && state == self@.state_of(
                    buffer as int,
                ),
                None => !self@.has_slot(buffer as int),
            },
    {
        if buffer >= self.slots.len() {
            None
        } else if self.slots[buffer].loaned {
            Some(SlotState::Loaned)
        } else if self.alive {
            Some(SlotState::Available)
        } else {
            Some(SlotState::Destroyed)
        }
    }

    /// Whether `buffer` is out on loan.
    pub fn is_loaned(&self, buffer: usize) -> (loaned: bool)
        ensures
            loaned == self@.is_loaned(buffer as int),
    {
        buffer < self.slots.len() && self.slots[buffer].loaned
    }

    /// Takes back `buffer`, which the compositor has released.
    ///
    /// While the pool lives the buffer becomes the last entry of the free list
    /// and its remote object is kept. Once the pool is destroyed the buffer is
    /// not listed anywhere, and the caller destroys its remote object. Only a
    /// buffer that is on loan can be released.
    pub fn release(&mut self, buffer: usize) -> (action: ReleaseAction)
        requires
            old(self)@.is_loaned(buffer as int),
        ensures
            final(self).wf(),
            final(self)@ == old(self)@.release(buffer as int),
            action == old(self)@.release_action(),
            !final(self)@.is_loaned(buffer as int),
    {
        proof {
            use_type_invariant(&*self);
            self@.lemma_release_wf(buffer as int);
        }
        let mut taken = Self::vacant();
        core::mem::swap(self, &mut taken);
        let BufferPool { width, height, alive, segment_len, mut slots, mut available_buffers } =
            taken;
        let mut handle: BufferHandle = slots[buffer];
        handle.release();
        let offset: usize = handle.offset;
        slots.set(buffer, handle);
        let action = if alive {
            available_buffers.push((buffer, offset));
            ReleaseAction::Recycle
        } else {
            ReleaseAction::Destroy
        };
        proof {
            let next = old(self)@.release(buffer as int);
            assert(slots@.map_values(|handle: BufferHandle| handle@) =~= next.slots);
            assert(available_buffers@.map_values(|entry: (usize, usize)| entry.0 as int)
                =~= next.free);
            assert forall|k: int| 0 <= k < available_buffers@.len() implies (
            #[trigger] available_buffers@[k]).1
                == slots@[available_buffers@[k].0 as int].offset by {
                if k < old(self).available_buffers@.len() {
                    assert(old(self)@.is_idle(old(self)@.free[k]));
                }
            }
        }
        *self = BufferPool { width, height, alive, segment_len, slots, available_buffers };
        action
    }

    /// Destroys the pool and returns the buffers whose remote objects the
    /// caller destroys with it: those on the free list, in its order.
    ///
    /// Buffers on loan are not among them. Their slots stay, and `release`
    /// answers `Destroy` for each when the compositor lets go of it. To destroy
    /// a destroyed pool changes nothing and returns no buffer.
    pub fn destroy(&mut self) -> (doomed: Vec<usize>)
        ensures
            final(self).wf(),
            final(self)@ == old(self)@.destroy(),
            doomed@.len() == old(self)@.free.len(),
            forall|k: int| 0 <= k < doomed@.len() ==> doomed@[k] as int == old(self)@.free[k],
            forall|k: int|
                0 <= k < doomed@.len() ==> !old(self)@.is_loaned((#[trigger] doomed@[k]) as int),
    {
        proof {
            use_type_invariant(&*self);
            self@.lemma_destroy_wf();
        }
        let mut taken = Self::vacant();
        core::mem::swap(self, &mut taken);
        let BufferPool { width, height, alive, segment_len, slots, available_buffers } = taken;
        let mut doomed: Vec<usize> = Vec::new();
        let count: usize = available_buffers.len();
        let mut k: usize = 0;
        while k < count
            invariant
                k <= count,
                count == available_buffers@.len(),
                doomed@.len() == k,
                forall|j: int| 0 <= j < k ==> doomed@[j] == available_buffers@[j].0,
            decreases count - k,
        {
            doomed.push(available_buffers[k].0);
            k = k + 1;
        }
        let none_free: Vec<(usize, usize)> = Vec::new();
        proof {
            let next = old(self)@.destroy();
            assert(none_free@.map_values(|entry: (usize, usize)| entry.0 as int) =~= next.free);
            assert forall|k: int| 0 <= k < doomed@.len() implies !old(self)@.is_loaned(
                (#[trigger] doomed@[k]) as int,
            ) by {
                assert(old(self)@.is_idle(old(self)@.free[k]));
            }
        }
        *self = BufferPool {
            width,
            height,
            alive: false,
            segment_len,
            slots,
            available_buffers: none_free,
        };
        doomed
    }
}

/// Routes the compositor's buffer events to the pool.
pub struct BufferDispatch;

impl BufferDispatch {
    /// Handles `event` for `buffer`: a release is passed on to the pool and its
    /// answer returned; any other event changes nothing.
    pub fn event(pool: &mut BufferPool, buffer: usize, event: BufferEvent) -> (action: Option<
        ReleaseAction,
    >)
        requires
            event is Release ==> old(pool)@.is_loaned(buffer as int),
        ensures
            final(pool).wf(),
            event is Release ==> final(pool)@ == old(pool)@.release(buffer as int) && action
                == Some(old(pool)@.release_action()),
            !(event is Release) ==> *final(pool) == *old(pool) && action is None,
    {
        proof {
            use_type_invariant(&*pool);
        }
        match event {
            BufferEvent::Release => Some(pool.release(buffer)),
            _ => None,
        }
    }
}

} // verus!
