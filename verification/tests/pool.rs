use shm_buffer_pool::buffer_pool::{
    BufferDispatch, BufferEvent, BufferPool, BufferRequest, Growth, Lease, PixelFormat, PoolError,
    ReleaseAction, SlotState,
};

fn pool(width: u32, height: u32) -> BufferPool {
    match BufferPool::new(width, height) {
        Ok(pool) => pool,
        Err(error) => panic!("no pool for {}x{}: {:?}", width, height, error),
    }
}

fn lease(pool: &mut BufferPool) -> Lease {
    match pool.get_buffer() {
        Ok(lease) => lease,
        Err(error) => panic!("no buffer: {:?}", error),
    }
}

#[test]
fn fresh_pool_is_empty() {
    let pool = pool(4, 4);
    assert_eq!(pool.width(), 4);
    assert_eq!(pool.height(), 4);
    assert!(pool.is_alive());
    assert_eq!(pool.segment_len(), 0);
    assert_eq!(pool.slot_count(), 0);
    assert_eq!(pool.available(), 0);
    assert_eq!(pool.initial_size(), 64);
    assert_eq!(pool.handle(0), None);
    assert_eq!(pool.state_of(0), None);
    assert!(!pool.is_loaned(0));
}

#[test]
fn first_lease_grows_the_segment() {
    let mut pool = pool(4, 4);
    let first = pool.get_buffer();
    assert_eq!(
        first,
        Ok(Lease {
            buffer: 0,
            offset: 0,
            pixels: 16,
            growth: Some(Growth {
                new_len: 64,
                pool_size: 64,
                request: BufferRequest {
                    offset: 0,
                    width: 4,
                    height: 4,
                    stride: 16,
                    format: PixelFormat::Xrgb8888,
                },
            }),
        })
    );
    assert_eq!(pool.segment_len(), 64);
    assert_eq!(pool.slot_count(), 1);
    assert!(pool.is_loaned(0));
    assert_eq!(pool.state_of(0), Some(SlotState::Loaned));
}

#[test]
fn end_to_end_scenario() {
    let mut pool = pool(4, 4);

    let first = lease(&mut pool);
    assert_eq!(first.offset, 0);
    assert_eq!(first.growth.map(|growth| growth.new_len), Some(64));
    assert_eq!(pool.segment_len(), 64);

    let second = lease(&mut pool);
    assert_eq!(second.offset, 64);
    assert_eq!(second.growth.map(|growth| growth.new_len), Some(128));
    assert_eq!(pool.segment_len(), 128);

    assert_eq!(pool.release(first.buffer), ReleaseAction::Recycle);

    let third = lease(&mut pool);
    assert_eq!(third.offset, 0);
    assert_eq!(third.buffer, first.buffer);
    assert_eq!(third.growth, None);
    assert_eq!(pool.segment_len(), 128);
    assert_eq!(pool.slot_count(), 2);
}

#[test]
fn second_growth_names_the_new_extent() {
    let mut pool = pool(3, 5);
    let _ = lease(&mut pool);
    let second = lease(&mut pool);
    assert_eq!(
        second,
        Lease {
            buffer: 1,
            offset: 60,
            pixels: 15,
            growth: Some(Growth {
                new_len: 120,
                pool_size: 120,
                request: BufferRequest {
                    offset: 60,
                    width: 3,
                    height: 5,
                    stride: 12,
                    format: PixelFormat::Xrgb8888,
                },
            }),
        }
    );
}

#[test]
fn loaned_extents_never_overlap() {
    let mut pool = pool(7, 3);
    let size = 7 * 3 * 4;
    let mut loans: Vec<Lease> = Vec::new();
    for round in 0..40usize {
        let taken = lease(&mut pool);
        for other in &loans {
            assert_ne!(other.buffer, taken.buffer);
            assert!(
                other.offset + size <= taken.offset || taken.offset + size <= other.offset,
                "extents at {} and {} overlap",
                other.offset,
                taken.offset
            );
        }
        assert!(taken.offset + size <= pool.segment_len());
        assert_eq!(taken.offset % size, 0);
        loans.push(taken);
        if round % 3 == 2 {
            let back = loans.remove(round % loans.len());
            assert_eq!(pool.release(back.buffer), ReleaseAction::Recycle);
        }
        if round % 7 == 6 {
            let back = loans.remove(0);
            assert_eq!(pool.release(back.buffer), ReleaseAction::Recycle);
        }
    }
}

#[test]
fn segment_holds_one_extent_per_slot() {
    let mut pool = pool(5, 2);
    let size = 5 * 2 * 4;
    let mut slots = 0;
    for round in 0..30usize {
        let taken = lease(&mut pool);
        assert!(pool.slot_count() >= slots);
        assert!(pool.slot_count() <= slots + 1);
        slots = pool.slot_count();
        assert_eq!(pool.segment_len(), size * slots);
        if round % 2 == 1 {
            pool.release(taken.buffer);
            assert_eq!(pool.slot_count(), slots);
            assert_eq!(pool.segment_len(), size * slots);
        }
    }
    assert_eq!(slots, 16);
    let _ = pool.destroy();
    assert_eq!(pool.slot_count(), 16);
    assert_eq!(pool.segment_len(), size * 16);
}

#[test]
fn released_buffer_comes_back_at_the_same_offset() {
    let mut pool = pool(8, 8);
    let a = lease(&mut pool);
    let b = lease(&mut pool);
    let c = lease(&mut pool);
    assert_eq!((a.offset, b.offset, c.offset), (0, 256, 512));

    pool.release(b.buffer);
    let again = lease(&mut pool);
    assert_eq!(again.buffer, b.buffer);
    assert_eq!(again.offset, 256);
    assert_eq!(again.growth, None);
    assert_eq!(pool.segment_len(), 768);
}

#[test]
fn most_recently_released_buffer_is_reused_first() {
    let mut pool = pool(2, 2);
    let a = lease(&mut pool);
    let b = lease(&mut pool);
    let c = lease(&mut pool);
    pool.release(a.buffer);
    pool.release(c.buffer);
    pool.release(b.buffer);
    assert_eq!(lease(&mut pool).buffer, b.buffer);
    assert_eq!(lease(&mut pool).buffer, c.buffer);
    assert_eq!(lease(&mut pool).buffer, a.buffer);
    assert_eq!(lease(&mut pool).buffer, 3);
}

#[test]
fn free_list_counts_released_buffers() {
    let mut pool = pool(4, 4);
    let mut loans = Vec::new();
    for _ in 0..6 {
        loans.push(lease(&mut pool));
    }
    assert_eq!(pool.available(), 0);
    for (released, taken) in loans.iter().enumerate() {
        pool.release(taken.buffer);
        assert_eq!(pool.available(), released + 1);
        assert_eq!(pool.state_of(taken.buffer), Some(SlotState::Available));
    }
    for reused in 0..6 {
        let _ = lease(&mut pool);
        assert_eq!(pool.available(), 5 - reused);
    }
    assert_eq!(pool.slot_count(), 6);
}

#[test]
fn many_cycles_keep_one_slot() {
    let mut pool = pool(4, 4);
    for _ in 0..100 {
        let taken = lease(&mut pool);
        assert_eq!(taken.buffer, 0);
        assert_eq!(taken.offset, 0);
        assert_eq!(pool.available(), 0);
        pool.release(taken.buffer);
        assert_eq!(pool.available(), 1);
    }
    assert_eq!(pool.slot_count(), 1);
    assert_eq!(pool.segment_len(), 64);
}

#[test]
fn released_buffer_is_no_longer_on_loan() {
    let mut pool = pool(4, 4);
    let taken = lease(&mut pool);
    assert!(pool.is_loaned(taken.buffer));
    pool.release(taken.buffer);
    assert!(!pool.is_loaned(taken.buffer));
    assert_eq!(pool.handle(taken.buffer).map(|handle| handle.is_loaned()), Some(false));
    let other = lease(&mut pool);
    assert_eq!(other.buffer, taken.buffer);
    assert!(pool.is_loaned(taken.buffer));
}

#[test]
fn handle_tells_offset_and_loan() {
    let mut pool = pool(4, 4);
    let _ = lease(&mut pool);
    let taken = lease(&mut pool);
    let handle = match pool.handle(taken.buffer) {
        Some(handle) => handle,
        None => panic!("no slot"),
    };
    assert_eq!(handle.offset(), 64);
    assert!(handle.is_loaned());

    pool.release(taken.buffer);
    let handle = match pool.handle(taken.buffer) {
        Some(handle) => handle,
        None => panic!("no slot"),
    };
    assert_eq!(handle.offset(), 64);
    assert!(!handle.is_loaned());
    assert_eq!(pool.handle(2), None);
}

#[test]
fn release_after_destroy_asks_for_destruction() {
    let mut a = pool(4, 4);
    let b = lease(&mut a);
    assert_eq!(a.destroy(), Vec::<usize>::new());
    assert!(!a.is_alive());

    let mut replacement = pool(8, 8);

    assert_eq!(a.release(b.buffer), ReleaseAction::Destroy);
    assert_eq!(a.available(), 0);
    assert_eq!(replacement.available(), 0);
    assert_eq!(a.state_of(b.buffer), Some(SlotState::Destroyed));
    assert!(!a.is_loaned(b.buffer));
    assert_eq!(a.get_buffer(), Err(PoolError::Destroyed));

    let fresh = lease(&mut replacement);
    assert_eq!(fresh.pixels, 64);
    assert!(fresh.growth.is_some());
}

#[test]
fn destroy_dooms_the_free_buffers_only() {
    let mut pool = pool(4, 4);
    let a = lease(&mut pool);
    let b = lease(&mut pool);
    let c = lease(&mut pool);
    let d = lease(&mut pool);
    pool.release(c.buffer);
    pool.release(a.buffer);

    assert_eq!(pool.destroy(), vec![c.buffer, a.buffer]);
    assert_eq!(pool.available(), 0);
    assert_eq!(pool.state_of(a.buffer), Some(SlotState::Destroyed));
    assert_eq!(pool.state_of(c.buffer), Some(SlotState::Destroyed));
    assert_eq!(pool.state_of(b.buffer), Some(SlotState::Loaned));
    assert_eq!(pool.state_of(d.buffer), Some(SlotState::Loaned));

    assert_eq!(pool.release(b.buffer), ReleaseAction::Destroy);
    assert_eq!(pool.release(d.buffer), ReleaseAction::Destroy);
    assert_eq!(pool.available(), 0);
    assert_eq!(pool.destroy(), Vec::<usize>::new());
    assert_eq!(pool.slot_count(), 4);
}

#[test]
fn destroyed_pool_hands_out_nothing() {
    let mut pool = pool(4, 4);
    let taken = lease(&mut pool);
    pool.release(taken.buffer);
    assert_eq!(pool.destroy(), vec![0]);
    assert_eq!(pool.get_buffer(), Err(PoolError::Destroyed));
    assert_eq!(pool.get_buffer(), Err(PoolError::Destroyed));
    assert_eq!(pool.slot_count(), 1);
    assert_eq!(pool.segment_len(), 64);
}

#[test]
fn empty_geometry_is_refused() {
    assert_eq!(BufferPool::new(0, 4).err(), Some(PoolError::EmptyGeometry));
    assert_eq!(BufferPool::new(4, 0).err(), Some(PoolError::EmptyGeometry));
    assert_eq!(BufferPool::new(0, 0).err(), Some(PoolError::EmptyGeometry));
    assert_eq!(BufferPool::new(0, u32::MAX).err(), Some(PoolError::EmptyGeometry));
}

#[test]
fn oversized_geometry_is_refused() {
    assert_eq!(BufferPool::new(65536, 65536).err(), Some(PoolError::GeometryTooLarge));
    assert_eq!(BufferPool::new(u32::MAX, u32::MAX).err(), Some(PoolError::GeometryTooLarge));
    assert_eq!(BufferPool::new(32768, 16384).err(), Some(PoolError::GeometryTooLarge));
    assert!(BufferPool::new(536_870_911, 1).is_ok());
    assert_eq!(BufferPool::new(536_870_912, 1).err(), Some(PoolError::GeometryTooLarge));
}

#[test]
fn largest_geometry_has_room_for_one_buffer() {
    let mut pool = pool(536_870_911, 1);
    assert_eq!(pool.initial_size(), 2_147_483_644);
    let only = lease(&mut pool);
    assert_eq!(only.offset, 0);
    assert_eq!(only.pixels, 536_870_911);
    assert_eq!(
        only.growth,
        Some(Growth {
            new_len: 2_147_483_644,
            pool_size: 2_147_483_644,
            request: BufferRequest {
                offset: 0,
                width: 536_870_911,
                height: 1,
                stride: 2_147_483_644,
                format: PixelFormat::Xrgb8888,
            },
        })
    );
    assert_eq!(pool.get_buffer(), Err(PoolError::Exhausted));
}

#[test]
fn exhausted_pool_is_left_as_it_was() {
    let mut pool = pool(16384, 16384);
    let first = lease(&mut pool);
    assert_eq!(first.growth.map(|growth| growth.pool_size), Some(1_073_741_824));
    assert_eq!(pool.get_buffer(), Err(PoolError::Exhausted));
    assert_eq!(pool.segment_len(), 1_073_741_824);
    assert_eq!(pool.slot_count(), 1);
    assert!(pool.is_alive());

    pool.release(first.buffer);
    let again = lease(&mut pool);
    assert_eq!(again.buffer, first.buffer);
    assert_eq!(again.growth, None);
}

#[test]
fn release_event_reaches_the_pool() {
    let mut pool = pool(4, 4);
    let taken = lease(&mut pool);
    assert_eq!(
        BufferDispatch::event(&mut pool, taken.buffer, BufferEvent::Release),
        Some(ReleaseAction::Recycle)
    );
    assert!(!pool.is_loaned(taken.buffer));
    assert_eq!(pool.available(), 1);
}

#[test]
fn release_event_for_a_dead_pool_asks_for_destruction() {
    let mut pool = pool(4, 4);
    let taken = lease(&mut pool);
    let _ = pool.destroy();
    assert_eq!(
        BufferDispatch::event(&mut pool, taken.buffer, BufferEvent::Release),
        Some(ReleaseAction::Destroy)
    );
    assert_eq!(pool.available(), 0);
}

#[test]
fn unknown_event_changes_nothing() {
    let mut pool = pool(4, 4);
    let taken = lease(&mut pool);
    assert_eq!(BufferDispatch::event(&mut pool, taken.buffer, BufferEvent::Unknown), None);
    assert!(pool.is_loaned(taken.buffer));
    assert_eq!(pool.available(), 0);
    assert_eq!(pool.slot_count(), 1);
    assert_eq!(pool.segment_len(), 64);
}
