use tifflin::storage_ahci::layout::{
    cmdidx_to_ref, shares_page, table_pages_needed, PortMemory, TableRef, CMDS_PER_PAGE,
    MAX_COMMANDS_FOR_SHARE,
};

#[test]
fn thirteen_slots_share_the_command_list_page() {
    assert_eq!(MAX_COMMANDS_FOR_SHARE, 13);
    assert_eq!(CMDS_PER_PAGE, 16);
    for max in 0..=13 {
        assert!(shares_page(max));
        assert_eq!(table_pages_needed(max), 0);
    }
    for max in 14..=32 {
        assert!(!shares_page(max));
        assert!(table_pages_needed(max) >= 1);
    }
}

#[test]
fn extra_pages_cover_every_slot() {
    assert_eq!(table_pages_needed(14), 1);
    assert_eq!(table_pages_needed(16), 1);
    assert_eq!(table_pages_needed(17), 1);
    assert_eq!(table_pages_needed(27), 1);
    assert_eq!(table_pages_needed(28), 2);
    assert_eq!(table_pages_needed(29), 2);
    assert_eq!(table_pages_needed(30), 2);
    assert_eq!(table_pages_needed(32), 2);
}

#[test]
fn slots_map_to_shared_tables_first() {
    assert_eq!(cmdidx_to_ref(1, 0), TableRef::Shared { index: 0 });
    assert_eq!(cmdidx_to_ref(13, 12), TableRef::Shared { index: 12 });
    assert_eq!(cmdidx_to_ref(14, 12), TableRef::Shared { index: 12 });
    assert_eq!(cmdidx_to_ref(14, 13), TableRef::Extra { page: 0, index: 0 });
    assert_eq!(cmdidx_to_ref(32, 10), TableRef::Shared { index: 10 });
    assert_eq!(cmdidx_to_ref(32, 11), TableRef::Extra { page: 0, index: 0 });
    assert_eq!(cmdidx_to_ref(32, 26), TableRef::Extra { page: 0, index: 15 });
    assert_eq!(cmdidx_to_ref(32, 27), TableRef::Extra { page: 1, index: 0 });
    assert_eq!(cmdidx_to_ref(32, 31), TableRef::Extra { page: 1, index: 4 });
}

#[test]
fn no_two_slots_share_a_table() {
    for max in 1..=32usize {
        let mut seen: Vec<TableRef> = Vec::new();
        for i in 0..max {
            let r = cmdidx_to_ref(max, i);
            assert!(!seen.contains(&r));
            if let TableRef::Extra { page, index } = r {
                assert!(page < table_pages_needed(max));
                assert!(index < CMDS_PER_PAGE);
            }
            seen.push(r);
        }
        assert_eq!(seen.len(), max);
    }
}

#[test]
fn port_memory_takes_pages_that_fit() {
    let m = PortMemory::new(32, 0x10_0000, vec![0x20_0000, 0x30_0000]).unwrap();
    assert_eq!(m.slots(), 32);
    assert_eq!(m.command_list_phys(), 0x10_0000);
    assert_eq!(m.rcvd_fis_phys(), 0x10_0F00);
    assert_eq!(m.table_phys(0), 0x10_0000 + 1024);
    assert_eq!(m.table_phys(10), 0x10_0000 + 1024 + 10 * 256);
    assert_eq!(m.table_phys(11), 0x20_0000);
    assert_eq!(m.table_phys(26), 0x20_0000 + 15 * 256);
    assert_eq!(m.table_phys(27), 0x30_0000);
    assert_eq!(m.table_phys(31), 0x30_0000 + 4 * 256);
}

#[test]
fn port_memory_for_few_slots_needs_one_page() {
    let m = PortMemory::new(4, 0x8000, Vec::new()).unwrap();
    assert_eq!(m.table_phys(0), 0x8000 + 128);
    assert_eq!(m.table_phys(3), 0x8000 + 128 + 3 * 256);
    assert_eq!(m.rcvd_fis_phys(), 0x8F00);
}

#[test]
fn port_memory_refuses_pages_that_do_not_fit() {
    assert!(PortMemory::new(33, 0x1000, Vec::new()).is_none());
    assert!(PortMemory::new(4, 0x1001, Vec::new()).is_none());
    assert!(PortMemory::new(4, 0x1000, vec![0x2000]).is_none());
    assert!(PortMemory::new(32, 0x1000, vec![0x2000]).is_none());
    assert!(PortMemory::new(32, 0x1000, vec![0x2000, 0x2000]).is_none());
    assert!(PortMemory::new(32, 0x1000, vec![0x2000, 0x1000]).is_none());
    assert!(PortMemory::new(32, 0x1000, vec![0x2000, 0x3004]).is_none());
    assert!(PortMemory::new(32, 0x1000, vec![0x2000, 0x3000, 0x4000]).is_none());
}

#[test]
fn tables_of_a_port_do_not_overlap() {
    for max in 1..=32usize {
        let pages: Vec<u64> = (0..table_pages_needed(max)).map(|p| 0x50_0000 + (p as u64) * 0x2000).collect();
        let m = PortMemory::new(max, 0x10_0000, pages).unwrap();
        let cl_end = m.command_list_phys() + (max as u64) * 32;
        for i in 0..max {
            let a = m.table_phys(i);
            assert!(a >= cl_end || a + 256 <= m.command_list_phys());
            assert!(a + 256 <= m.rcvd_fis_phys() || a >= m.rcvd_fis_phys() + 256);
            for j in (i + 1)..max {
                let b = m.table_phys(j);
                assert!(a + 256 <= b || b + 256 <= a);
            }
        }
    }
}
