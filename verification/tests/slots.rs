use tifflin::storage_ahci::slots::{claim, lowest_clear_bit, unclaim, SlotPool};

#[test]
fn lowest_clear_bit_finds_the_first_gap() {
    assert_eq!(lowest_clear_bit(0b0000, 4), Some(0));
    assert_eq!(lowest_clear_bit(0b0111, 4), Some(3));
    assert_eq!(lowest_clear_bit(0b1011, 4), Some(2));
    assert_eq!(lowest_clear_bit(0xFFFF_FFFE, 32), Some(0));
    assert_eq!(lowest_clear_bit(0x7FFF_FFFF, 32), Some(31));
}

#[test]
fn lowest_clear_bit_stops_at_the_number_of_slots() {
    assert_eq!(lowest_clear_bit(0b0111, 3), None);
    assert_eq!(lowest_clear_bit(0xFFFF_FFFF, 32), None);
    assert_eq!(lowest_clear_bit(0, 0), None);
    assert_eq!(lowest_clear_bit(0b1_1111, 5), None);
}

#[test]
fn fresh_pool_has_all_permits() {
    for max in 0..=32u8 {
        let pool = SlotPool::new(max);
        assert_eq!(pool.capacity(), max);
        assert_eq!(pool.used(), 0);
        assert_eq!(pool.permits(), max);
    }
}

#[test]
fn acquire_hands_out_every_slot_once() {
    for max in 1..=32u8 {
        let mut pool = SlotPool::new(max);
        let mut seen: u32 = 0;
        for n in 0..max {
            let slot = pool.acquire().unwrap();
            assert_eq!(slot, n);
            assert_eq!(seen & (1 << slot), 0);
            seen |= 1 << slot;
            assert_eq!(pool.used(), seen);
            assert_eq!(pool.permits(), max - n - 1);
        }
        assert_eq!(pool.acquire(), None);
        assert_eq!(pool.used(), seen);
        assert_eq!(pool.permits(), 0);
    }
}

#[test]
fn acquire_then_release_returns_the_pool_to_its_start() {
    for max in 1..=32u8 {
        for n in 1..=max {
            let mut pool = SlotPool::new(max);
            let mut held = Vec::new();
            for _ in 0..n {
                held.push(pool.acquire().unwrap());
            }
            while let Some(slot) = held.pop() {
                pool.release(slot);
            }
            assert_eq!(pool.used(), 0);
            assert_eq!(pool.permits(), max);
        }
    }
}

#[test]
fn repeated_acquire_release_pairs_leave_the_pool_fresh() {
    let mut pool = SlotPool::new(5);
    for _ in 0..5 {
        let slot = pool.acquire().unwrap();
        assert_eq!(slot, 0);
        pool.release(slot);
        assert_eq!(pool.used(), 0);
        assert_eq!(pool.permits(), 5);
    }
}

#[test]
fn released_slot_is_the_next_handed_out_when_it_is_the_lowest() {
    let mut pool = SlotPool::new(4);
    assert_eq!(pool.acquire(), Some(0));
    assert_eq!(pool.acquire(), Some(1));
    assert_eq!(pool.acquire(), Some(2));
    pool.release(1);
    assert_eq!(pool.used(), 0b101);
    assert_eq!(pool.permits(), 2);
    assert_eq!(pool.acquire(), Some(1));
    assert_eq!(pool.acquire(), Some(3));
    assert_eq!(pool.acquire(), None);
}

#[test]
fn live_holders_never_share_a_slot() {
    let mut pool = SlotPool::new(8);
    let mut live: Vec<u8> = Vec::new();
    let script = [true, true, true, false, true, false, false, true, true, true, true, true, true];
    for (step, acquire) in script.iter().enumerate() {
        if *acquire {
            if let Some(slot) = pool.acquire() {
                assert!(!live.contains(&slot));
                live.push(slot);
            } else {
                assert_eq!(live.len(), 8);
            }
        } else {
            let slot = live.remove(step % live.len());
            pool.release(slot);
        }
        let mut mask = 0u32;
        for s in live.iter() {
            mask |= 1 << *s;
        }
        assert_eq!(pool.used(), mask);
        assert_eq!(pool.permits() as usize, 8 - live.len());
    }
}

#[test]
fn pool_without_slots_hands_out_nothing() {
    let mut pool = SlotPool::new(0);
    assert_eq!(pool.acquire(), None);
    assert_eq!(pool.used(), 0);
}

#[test]
fn claim_marks_the_lowest_free_slot() {
    assert_eq!(claim(0, 4), Some((0, 0b0001)));
    assert_eq!(claim(0b0101, 4), Some((1, 0b0111)));
    assert_eq!(claim(0b0111, 4), Some((3, 0b1111)));
    assert_eq!(claim(0b1111, 4), None);
    assert_eq!(claim(0x7FFF_FFFF, 32), Some((31, 0xFFFF_FFFF)));
    assert_eq!(claim(0, 0), None);
}

#[test]
fn unclaim_clears_the_slot_alone() {
    assert_eq!(unclaim(0b0111, 1), 0b0101);
    assert_eq!(unclaim(0xFFFF_FFFF, 31), 0x7FFF_FFFF);
    assert_eq!(unclaim(0b0001, 0), 0);
}

#[test]
fn claim_then_unclaim_gives_the_mask_back() {
    for mask in [0u32, 0b1, 0b1011, 0x00FF_00FF, 0x7FFF_FFFF] {
        let (slot, taken) = claim(mask, 32).unwrap();
        assert_ne!(taken, mask);
        assert_eq!(unclaim(taken, slot), mask);
    }
}
