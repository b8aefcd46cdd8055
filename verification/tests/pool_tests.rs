use megenginelite_rs::DataType;
use megenginelite_rs::FreeList;
use megenginelite_rs::Layout;
use megenginelite_rs::LiteError;
use megenginelite_rs::TensorPool;

fn byte_pool(capacity: usize, slot_elems: usize) -> TensorPool {
    TensorPool::host(Layout {
        data_type: DataType::U8,
        shapes: &[capacity, slot_elems],
    })
    .unwrap()
}

#[test]
fn free_count_is_capacity_minus_outstanding() {
    let mut pool = byte_pool(5, 4);
    let mut held = Vec::new();
    for k in 0..5 {
        assert_eq!(pool.free_n(), 5 - k);
        held.push(pool.get().unwrap());
    }
    assert_eq!(pool.free_n(), 0);
    for (k, idx) in held.into_iter().enumerate() {
        pool.release(idx);
        assert_eq!(pool.free_n(), k + 1);
    }
}

#[test]
fn live_leases_have_distinct_ids() {
    let mut pool = byte_pool(4, 1);
    let mut held = Vec::new();
    for _ in 0..4 {
        held.push(pool.get().unwrap());
    }
    for i in 0..held.len() {
        assert!(held[i].get() < 4);
        for j in 0..held.len() {
            if i != j {
                assert_ne!(held[i].get(), held[j].get());
            }
        }
    }
}

#[test]
fn full_pool_suspends_and_release_unblocks_one() {
    let mut pool = byte_pool(2, 8);
    let a = pool.get().unwrap();
    let b = pool.get().unwrap();
    assert!(pool.get().is_none());
    let released = a.get();
    pool.release(a);
    let c = pool.get().unwrap();
    assert_eq!(c.get(), released);
    assert!(pool.get().is_none());
    pool.release(b);
    pool.release(c);
    assert_eq!(pool.free_n(), 2);
}

#[test]
fn acquire_release_round_trip_repeats() {
    let mut pool = byte_pool(2, 8);
    for _ in 0..3 {
        let idx = pool.get().unwrap();
        assert_eq!(pool.free_n(), 1);
        pool.release(idx);
        assert_eq!(pool.free_n(), 2);
    }
}

#[test]
fn end_to_end_two_slots_disjoint_views() {
    let mut pool = TensorPool::host(Layout {
        data_type: DataType::F32,
        shapes: &[2, 1, 3, 224, 224],
    })
    .unwrap();
    let slot_bytes = 1 * 3 * 224 * 224 * 4;
    let a = pool.get().unwrap();
    let b = pool.get().unwrap();
    assert!(pool.get().is_none());

    let ta = pool.at(&a);
    let tb = pool.at(&b);
    assert_eq!(ta.shape(), &[1, 1, 3, 224, 224]);
    assert_eq!(ta.nbytes(), slot_bytes);
    assert_eq!(tb.nbytes(), slot_bytes);
    let (a_start, a_end) = (ta.byte_offset(), ta.byte_offset() + ta.nbytes());
    let (b_start, b_end) = (tb.byte_offset(), tb.byte_offset() + tb.nbytes());
    assert!(a_end <= b_start || b_end <= a_start);

    pool.release(a);
    let c = pool.get().unwrap();
    let tc = pool.at(&c);
    let (c_start, c_end) = (tc.byte_offset(), tc.byte_offset() + tc.nbytes());
    assert!(c_end <= b_start || b_end <= c_start);
}

#[test]
fn zero_capacity_pool_always_suspends() {
    let mut pool = byte_pool(0, 10);
    assert_eq!(pool.free_n(), 0);
    assert!(pool.get().is_none());
}

#[test]
fn zero_extent_slots_are_empty() {
    let mut pool = TensorPool::host(Layout {
        data_type: DataType::U8,
        shapes: &[4, 0, 9],
    })
    .unwrap();
    assert_eq!(pool.free_n(), 4);
    let idx = pool.get().unwrap();
    assert_eq!(pool.at(&idx).nbytes(), 0);
    pool.release(idx);
}

#[test]
fn oversized_pool_is_an_allocation_error() {
    let r = TensorPool::host(Layout {
        data_type: DataType::U8,
        shapes: &[2, usize::MAX, 3],
    });
    assert!(matches!(r, Err(LiteError::MGELiteError(_))));
}

#[test]
fn freelist_is_fifo() {
    let mut fl = FreeList::new(3);
    assert_eq!(fl.len(), 3);
    assert_eq!(fl.pop(), Some(0));
    assert_eq!(fl.pop(), Some(1));
    assert_eq!(fl.pop(), Some(2));
    assert_eq!(fl.pop(), None);
    fl.push(1);
    fl.push(0);
    assert_eq!(fl.len(), 2);
    assert_eq!(fl.pop(), Some(1));
    assert_eq!(fl.pop(), Some(0));
}

#[test]
fn pool_backing_tensor_is_whole_buffer() {
    let pool = byte_pool(3, 16);
    let mem = pool.as_tensor();
    assert_eq!(mem.shape(), &[3, 16]);
    assert_eq!(mem.nbytes(), 48);
    assert_eq!(mem.byte_offset(), 0);
}
